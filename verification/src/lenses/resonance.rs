//! The resonance lens: compares each section of a document with every other by
//! lexical overlap (term-frequency cosine similarity), and flags sections that
//! should plausibly agree (goals vs. success criteria, risks vs. mitigation) but
//! share little vocabulary.
//!
//! This module holds the lens's sectioning, its section vectors and its pairing of
//! sections by heading; the similarity scores themselves are `f32` values computed
//! from the vectors outside this library.
use vstd::prelude::*;

use crate::schema::{finding_views, Finding, Lens, LensData, LensDataV, LensResult, LensResultV, Source};
use crate::similarity::{tally, tokenize, words_of, TermVector};
use crate::strs::{
    str_eq,
    any_contained, any_contained_exec, chars_of, lowercase, lowercase_of, str_views, truncate, truncated,
};
use crate::text::{segment_chars, segments_of, seg_views, Segment, SegmentV};

verus! {

pub const ATTRIBUTION_NOTE: &'static str = "This lens is RFI-IRFOS's own operationalization, not a metric from Laura Serna Gaviria's paper or from the CCET implementation in the Emergent Interaction Lab platform. It measures purely lexical overlap (shared words after stopword removal) between sections of your document, not semantic meaning — two sections that say the same thing in different words will score low here. Treat findings as a prompt to re-read the cited sections yourself, not as a validated measurement of whether they actually agree.";

/// Sections of a document recognized by their heading.
pub struct KeywordGroup {
    pub name: &'static str,
    pub keywords: Vec<&'static str>,
}

/// The keywords of the 'goals/objectives' group.
pub open spec fn goals_keywords() -> Seq<Seq<char>> {
    seq!["goal"@, "objective"@, "aim"@, "purpose"@]
}

/// The 'goals/objectives' group.
pub fn goals() -> (r: KeywordGroup)
    ensures
        r.name@ == "goals/objectives"@,
        str_views(r.keywords@) == goals_keywords(),
{
    let r = KeywordGroup { name: "goals/objectives", keywords: vec!["goal", "objective", "aim", "purpose"] };
    assert(str_views(r.keywords@) =~= goals_keywords());
    r
}

/// The keywords of the 'success criteria/outcomes' group.
pub open spec fn success_keywords() -> Seq<Seq<char>> {
    seq!["success"@, "criteria"@, "outcome"@, "result"@, "kpi"@, "verification"@]
}

/// The 'success criteria/outcomes' group.
pub fn success() -> (r: KeywordGroup)
    ensures
        r.name@ == "success criteria/outcomes"@,
        str_views(r.keywords@) == success_keywords(),
{
    let r = KeywordGroup { name: "success criteria/outcomes", keywords: vec!["success", "criteria", "outcome", "result", "kpi", "verification"] };
    assert(str_views(r.keywords@) =~= success_keywords());
    r
}

/// The keywords of the 'risks/limitations' group.
pub open spec fn risks_keywords() -> Seq<Seq<char>> {
    seq!["risk"@, "limitation"@, "concern"@, "constraint"@]
}

/// The 'risks/limitations' group.
pub fn risks() -> (r: KeywordGroup)
    ensures
        r.name@ == "risks/limitations"@,
        str_views(r.keywords@) == risks_keywords(),
{
    let r = KeywordGroup { name: "risks/limitations", keywords: vec!["risk", "limitation", "concern", "constraint"] };
    assert(str_views(r.keywords@) =~= risks_keywords());
    r
}

/// The keywords of the 'mitigation/response' group.
pub open spec fn mitigation_keywords() -> Seq<Seq<char>> {
    seq!["mitigation"@, "response"@, "contingency"@, "fallback"@]
}

/// The 'mitigation/response' group.
pub fn mitigation() -> (r: KeywordGroup)
    ensures
        r.name@ == "mitigation/response"@,
        str_views(r.keywords@) == mitigation_keywords(),
{
    let r = KeywordGroup { name: "mitigation/response", keywords: vec!["mitigation", "response", "contingency", "fallback"] };
    assert(str_views(r.keywords@) =~= mitigation_keywords());
    r
}

/// Whether a heading names the group: it contains one of the group's keywords,
/// ignoring case.
pub open spec fn heading_matches(heading: Seq<char>, group: KeywordGroup) -> bool {
    any_contained(lowercase_of(heading), str_views(group.keywords@))
}

/// Whether `heading` names `group`.
pub fn matches_group(heading: &str, group: &KeywordGroup) -> (r: bool)
    ensures
        r == heading_matches(heading@, *group),
{
    let h = chars_of(heading);
    let low = lowercase(&h);
    any_contained_exec(&low, group.keywords.as_slice())
}

/// Position of the first section at or after `i` whose heading names `group`, or -1.
pub open spec fn first_match_from(segs: Seq<SegmentV>, group: KeywordGroup, i: int) -> int
    decreases segs.len() - i,
{
    if i < 0 || i >= segs.len() {
        -1
    } else if segs[i].heading matches Some(h) && heading_matches(h, group) {
        i
    } else {
        first_match_from(segs, group, i + 1)
    }
}

/// The first section whose heading names `group`.
pub fn first_matching(segments: &Vec<Segment>, group: &KeywordGroup) -> (r: Option<usize>)
    ensures
        match r {
            Some(k) => first_match_from(seg_views(segments@), *group, 0) == k && k < segments@.len(),
            None => first_match_from(seg_views(segments@), *group, 0) == -1,
        },
{
    let ghost sv = seg_views(segments@);
    let mut i: usize = 0;
    while i < segments.len()
        invariant
            i <= segments@.len(),
            sv == seg_views(segments@),
            first_match_from(sv, *group, 0) == first_match_from(sv, *group, i as int),
        decreases segments.len() - i,
    {
        assert(sv[i as int] == segments@[i as int]@);
        match &segments[i].heading {
            Some(h) => {
                if matches_group(h.as_str(), group) {
                    return Some(i);
                }
            },
            None => {},
        }
        i = i + 1;
    }
    None
}

/// The text of a section that its vector counts: heading, a space, and body.
pub open spec fn section_text(s: SegmentV) -> Seq<char> {
    match s.heading {
        Some(h) => h + seq![' '] + s.body,
        None => s.body,
    }
}

/// A document's sections and their term-frequency vectors.
pub struct Sections {
    pub segments: Vec<Segment>,
    pub vectors: Vec<TermVector>,
}

/// What `prepare` reports for a document with fewer than two sections.
pub open spec fn too_few_sections() -> LensResultV {
    LensResultV {
        lens: Lens::Resonance,
        source: Source::RfiIrfosOperationalization,
        attribution_note: ATTRIBUTION_NOTE@,
        findings: seq![],
        data: None,
        error: Some(
            "document has fewer than 2 sections — resonance requires at least 2 to compare"@,
        ),
    }
}

/// The sections of a document and a vector for each, or the lens's error result
/// when there are fewer than two sections.
pub fn prepare(text: &str) -> (r: Result<Sections, LensResult>)
    ensures
        match r {
            Ok(s) => {
                &&& segments_of(text@).len() >= 2
                &&& seg_views(s.segments@) == segments_of(text@)
                &&& s.vectors@.len() == s.segments@.len()
                &&& forall|i: int|
                    0 <= i < s.vectors@.len() ==> (#[trigger] s.vectors@[i]).wf() && s.vectors@[i]@
                        == tally(words_of(section_text(segments_of(text@)[i])))
            },
            Err(e) => segments_of(text@).len() < 2 && e@ == too_few_sections()
                && resonance_result_for(text@, e@),
        },
{
    let t = chars_of(text);
    let segments = segment_chars(&t);
    if segments.len() < 2 {
        let r = LensResult {
            lens: Lens::Resonance,
            source: Source::RfiIrfosOperationalization,
            attribution_note: String::from_str(ATTRIBUTION_NOTE),
            findings: Vec::new(),
            data: None,
            error: Some(
                String::from_str(
                    "document has fewer than 2 sections — resonance requires at least 2 to compare",
                ),
            ),
        };
        assert(r@.findings =~= seq![]);
        return Err(r);
    }
    let ghost sv = segments_of(text@);
    let mut vectors: Vec<TermVector> = Vec::new();
    let mut i: usize = 0;
    while i < segments.len()
        invariant
            i <= segments@.len(),
            seg_views(segments@) == sv,
            vectors@.len() == i,
            forall|j: int|
                0 <= j < i ==> (#[trigger] vectors@[j]).wf() && vectors@[j]@ == tally(
                    words_of(section_text(sv[j])),
                ),
        decreases segments.len() - i,
    {
        assert(sv[i as int] == segments@[i as int]@);
        let combined = match &segments[i].heading {
            Some(h) => {
                let mut c = String::from_str(h.as_str());
                c.append(" ");
                c.append(segments[i].body.as_str());
                assert(" "@ =~= seq![' ']) by {
                    reveal_strlit(" ");
                }
                c
            },
            None => String::from_str(segments[i].body.as_str()),
        };
        vectors.push(tokenize(combined.as_str()));
        i = i + 1;
    }
    Ok(Sections { segments, vectors })
}

/// The evidence cited for the least similar pair of sections: both bodies, each
/// shortened to 100 characters.
pub fn pair_evidence(a: &str, b: &str) -> (r: String)
    ensures
        r@ == "A: "@ + truncated(a@, 100) + " | B: "@ + truncated(b@, 100),
{
    let mut r = String::from_str("A: ");
    r.append(truncate(a, 100).as_str());
    r.append(" | B: ");
    r.append(truncate(b, 100).as_str());
    r
}

pub open spec fn too_few_message() -> Seq<char> {
    "document has fewer than 2 sections — resonance requires at least 2 to compare"@
}

/// `r` is a resonance result for `text`: it names the lens and its source, and it
/// is the fewer-than-two-sections error exactly when the text has fewer than two
/// sections; otherwise it has at least its summary finding and counts the text's
/// sections.
pub open spec fn resonance_result_for(text: Seq<char>, r: LensResultV) -> bool {
    let n = segments_of(text).len();
    &&& r.lens == Lens::Resonance
    &&& r.source == Source::RfiIrfosOperationalization
    &&& r.attribution_note == ATTRIBUTION_NOTE@
    &&& (r.error is Some) == (n < 2)
    &&& n < 2 ==> r.findings.len() == 0 && r.data is None && r.error == Some(too_few_message())
    &&& n >= 2 ==> r.findings.len() >= 1 && (r.data matches Some(LensDataV::Similarity { sections, .. })
        && sections == n)
}

/// The resonance lens's result for a document's sections, from its findings (the
/// summary finding first) and its mean pairwise similarity as `f32` bits.
pub fn resonance_result(sections: &Sections, findings: Vec<Finding>, mean_pairwise_similarity_bits: u32) -> (r: LensResult)
    ensures
        r@ == (LensResultV {
            lens: Lens::Resonance,
            source: Source::RfiIrfosOperationalization,
            attribution_note: ATTRIBUTION_NOTE@,
            findings: finding_views(findings@),
            data: Some(
                LensDataV::Similarity {
                    sections: sections.segments@.len(),
                    mean_pairwise_similarity_bits,
                },
            ),
            error: None,
        }),
{
    LensResult {
        lens: Lens::Resonance,
        source: Source::RfiIrfosOperationalization,
        attribution_note: String::from_str(ATTRIBUTION_NOTE),
        findings,
        data: Some(LensData::Similarity { sections: sections.segments.len(), mean_pairwise_similarity_bits }),
        error: None,
    }
}

/// Whether `r` is a resonance result for `text` (see `resonance_result_for`).
pub fn is_resonance_result_for(text: &str, r: &LensResult) -> (b: bool)
    ensures
        b == resonance_result_for(text@, r@),
{
    let n = crate::text::segment_text(text).len();
    proof {
        reveal_strlit("document has fewer than 2 sections — resonance requires at least 2 to compare");
    }
    if !(r.lens == Lens::Resonance && r.source == Source::RfiIrfosOperationalization && str_eq(
        r.attribution_note.as_str(),
        ATTRIBUTION_NOTE,
    )) {
        return false;
    }
    if n < 2 {
        match &r.error {
            Some(e) => r.findings.len() == 0 && r.data.is_none() && str_eq(
                e.as_str(),
                "document has fewer than 2 sections — resonance requires at least 2 to compare",
            ),
            None => false,
        }
    } else {
        if r.error.is_some() || r.findings.len() == 0 {
            return false;
        }
        match &r.data {
            Some(LensData::Similarity { sections, .. }) => *sections == n,
            _ => false,
        }
    }
}

} // verus!
