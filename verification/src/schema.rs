//! Request/response types shared by every lens, the agents and the servers.
//!
//! Every `LensResult` carries a `source`: which part of the review comes from Laura
//! Serna Gaviria's published framework and which is this project's own work.
use vstd::prelude::*;

verus! {

#[derive(Debug, Clone, Copy, PartialEq, Eq, Structural)]
pub enum Lens {
    EightLayer,
    UipCheck,
    Resonance,
    Ecocentric,
}

impl Lens {
    pub const ALL: [Lens; 4] = [Lens::EightLayer, Lens::UipCheck, Lens::Resonance, Lens::Ecocentric];

    /// The wire name of a lens.
    pub open spec fn name(self) -> Seq<char> {
        match self {
            Lens::EightLayer => "eight_layer"@,
            Lens::UipCheck => "uip_check"@,
            Lens::Resonance => "resonance"@,
            Lens::Ecocentric => "ecocentric"@,
        }
    }

    pub fn as_str(&self) -> (r: &'static str)
        ensures
            r@ == self.name(),
    {
        match self {
            Lens::EightLayer => "eight_layer",
            Lens::UipCheck => "uip_check",
            Lens::Resonance => "resonance",
            Lens::Ecocentric => "ecocentric",
        }
    }

    /// The four lenses, in their fixed order (the default selection).
    pub fn all_vec() -> (r: Vec<Lens>)
        ensures
            r@ == seq![Lens::EightLayer, Lens::UipCheck, Lens::Resonance, Lens::Ecocentric],
    {
        let r = vec![Lens::EightLayer, Lens::UipCheck, Lens::Resonance, Lens::Ecocentric];
        assert(r@ =~= seq![Lens::EightLayer, Lens::UipCheck, Lens::Resonance, Lens::Ecocentric]);
        r
    }
}

/// Where a lens's underlying logic comes from.
#[derive(Debug, Clone, Copy, PartialEq, Eq, Structural)]
pub enum Source {
    /// Laura Serna Gaviria's 8-Layer taxonomy (category names verbatim).
    Laura8Layer2025,
    /// Laura Serna Gaviria's User Integrity Protocol (rule names verbatim).
    LauraUip2025,
    /// This project's own operationalization of a concept her paper names.
    RfiIrfosOperationalization,
    /// Not from her framework at all.
    RfiIrfosAddition,
}

#[derive(Debug, Clone, Copy, PartialEq, Eq, Structural, PartialOrd, Ord)]
pub enum Severity {
    Info,
    Note,
    Flag,
}

/// One observation: a claim, the quoted span of the input it reacts to, a severity.
#[derive(Debug, Clone)]
pub struct Finding {
    pub claim: String,
    pub evidence: String,
    pub severity: Severity,
}

pub struct FindingV {
    pub claim: Seq<char>,
    pub evidence: Seq<char>,
    pub severity: Severity,
}

impl View for Finding {
    type V = FindingV;

    open spec fn view(&self) -> FindingV {
        FindingV { claim: self.claim@, evidence: self.evidence@, severity: self.severity }
    }
}

pub open spec fn finding_views(v: Seq<Finding>) -> Seq<FindingV> {
    v.map_values(|f: Finding| f@)
}

pub open spec fn string_views(v: Seq<String>) -> Seq<Seq<char>> {
    v.map_values(|s: String| s@)
}

/// Lens-specific structured payload.
#[derive(Debug, Clone)]
pub enum LensData {
    /// `eight_layer`: how many segments were classified, and per layer key how many
    /// segments were assigned that layer (in layer order).
    Distribution { segments_classified: usize, counts: Vec<usize> },
    /// `ecocentric`: the category names mentioned and absent.
    Categories { mentioned: Vec<String>, absent: Vec<String> },
    /// `resonance`: the number of sections and the mean pairwise similarity, carried
    /// as the bit pattern of an `f32`.
    Similarity { sections: usize, mean_pairwise_similarity_bits: u32 },
}

pub enum LensDataV {
    Distribution { segments_classified: nat, counts: Seq<usize> },
    Categories { mentioned: Seq<Seq<char>>, absent: Seq<Seq<char>> },
    Similarity { sections: nat, mean_pairwise_similarity_bits: u32 },
}

impl View for LensData {
    type V = LensDataV;

    open spec fn view(&self) -> LensDataV {
        match self {
            LensData::Distribution { segments_classified, counts } => LensDataV::Distribution {
                segments_classified: *segments_classified as nat,
                counts: counts@,
            },
            LensData::Categories { mentioned, absent } => LensDataV::Categories {
                mentioned: string_views(mentioned@),
                absent: string_views(absent@),
            },
            LensData::Similarity { sections, mean_pairwise_similarity_bits } =>
                LensDataV::Similarity {
                sections: *sections as nat,
                mean_pairwise_similarity_bits: *mean_pairwise_similarity_bits,
            },
        }
    }
}

#[derive(Debug, Clone)]
pub struct LensResult {
    pub lens: Lens,
    pub source: Source,
    pub attribution_note: String,
    pub findings: Vec<Finding>,
    /// Lens-specific structured payload.
    pub data: Option<LensData>,
    /// Present when the lens had nothing to work on, in place of findings.
    pub error: Option<String>,
}

pub struct LensResultV {
    pub lens: Lens,
    pub source: Source,
    pub attribution_note: Seq<char>,
    pub findings: Seq<FindingV>,
    pub data: Option<LensDataV>,
    pub error: Option<Seq<char>>,
}

impl View for LensResult {
    type V = LensResultV;

    open spec fn view(&self) -> LensResultV {
        LensResultV {
            lens: self.lens,
            source: self.source,
            attribution_note: self.attribution_note@,
            findings: finding_views(self.findings@),
            data: match self.data {
                Some(d) => Some(d@),
                None => None,
            },
            error: match self.error {
                Some(e) => Some(e@),
                None => None,
            },
        }
    }
}

#[derive(Debug, Clone)]
pub struct ReviewRequest {
    pub text: String,
    pub lenses: Vec<Lens>,
    pub metadata: Option<ReviewMetadata>,
}

#[derive(Debug, Clone)]
pub struct ReviewMetadata {
    pub title: Option<String>,
    pub context: Option<String>,
}

#[derive(Debug, Clone)]
pub struct ReviewResponse {
    pub summary: String,
    pub lenses: Vec<LensResult>,
}

// ───────────────────────────── building findings ─────────────────────────────

/// A finding from its parts.
pub fn finding(claim: String, evidence: String, severity: Severity) -> (r: Finding)
    ensures
        r@ == (FindingV { claim: claim@, evidence: evidence@, severity }),
{
    Finding { claim, evidence, severity }
}

/// `a`, `b` and `c` in turn, as a new `String`.
pub fn join3(a: &str, b: &str, c: &str) -> (r: String)
    ensures
        r@ == a@ + b@ + c@,
{
    let mut s = String::from_str(a);
    s.append(b);
    s.append(c);
    s
}

/// A copy of a finding.
pub fn copy_finding(f: &Finding) -> (r: Finding)
    ensures
        r@ == f@,
{
    Finding { claim: f.claim.clone(), evidence: f.evidence.clone(), severity: f.severity }
}

/// A copy of a list of findings.
pub fn copy_findings(fs: &Vec<Finding>) -> (r: Vec<Finding>)
    ensures
        finding_views(r@) == finding_views(fs@),
{
    let mut r: Vec<Finding> = Vec::new();
    let mut i: usize = 0;
    while i < fs.len()
        invariant
            i <= fs@.len(),
            finding_views(r@) == finding_views(fs@).take(i as int),
        decreases fs.len() - i,
    {
        let f = copy_finding(&fs[i]);
        let ghost old_v = finding_views(r@);
        r.push(f);
        assert(finding_views(r@) =~= old_v.push(fs@[i as int]@));
        assert(finding_views(fs@).take(i + 1) =~= finding_views(fs@).take(i as int).push(
            fs@[i as int]@,
        ));
        i = i + 1;
    }
    assert(finding_views(fs@).take(fs@.len() as int) =~= finding_views(fs@));
    r
}

/// A copy of a list of strings.
pub fn copy_strings(v: &Vec<String>) -> (r: Vec<String>)
    ensures
        string_views(r@) == string_views(v@),
{
    let mut r: Vec<String> = Vec::new();
    let mut i: usize = 0;
    while i < v.len()
        invariant
            i <= v@.len(),
            string_views(r@) == string_views(v@).take(i as int),
        decreases v.len() - i,
    {
        let ghost old_v = string_views(r@);
        r.push(v[i].clone());
        assert(string_views(r@) =~= old_v.push(v@[i as int]@));
        assert(string_views(v@).take(i + 1) =~= string_views(v@).take(i as int).push(
            v@[i as int]@,
        ));
        i = i + 1;
    }
    assert(string_views(v@).take(v@.len() as int) =~= string_views(v@));
    r
}

/// A copy of a lens payload.
pub fn copy_lens_data(d: &LensData) -> (r: LensData)
    ensures
        r@ == d@,
{
    match d {
        LensData::Distribution { segments_classified, counts } => {
            let mut c: Vec<usize> = Vec::new();
            let mut i: usize = 0;
            while i < counts.len()
                invariant
                    i <= counts@.len(),
                    c@ == counts@.take(i as int),
                decreases counts.len() - i,
            {
                c.push(counts[i]);
                assert(c@ =~= counts@.take(i + 1));
                i = i + 1;
            }
            assert(counts@.take(counts@.len() as int) =~= counts@);
            LensData::Distribution { segments_classified: *segments_classified, counts: c }
        },
        LensData::Categories { mentioned, absent } => LensData::Categories {
            mentioned: copy_strings(mentioned),
            absent: copy_strings(absent),
        },
        LensData::Similarity { sections, mean_pairwise_similarity_bits } => LensData::Similarity {
            sections: *sections,
            mean_pairwise_similarity_bits: *mean_pairwise_similarity_bits,
        },
    }
}

/// A copy of a lens result.
pub fn copy_lens_result(x: &LensResult) -> (r: LensResult)
    ensures
        r@ == x@,
{
    let data = match &x.data {
        Some(d) => Some(copy_lens_data(d)),
        None => None,
    };
    let error = match &x.error {
        Some(e) => Some(e.clone()),
        None => None,
    };
    LensResult {
        lens: x.lens,
        source: x.source,
        attribution_note: x.attribution_note.clone(),
        findings: copy_findings(&x.findings),
        data,
        error,
    }
}

} // verus!
