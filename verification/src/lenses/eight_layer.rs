//! The 8-Layer lens: classifies each segment of a document against Laura Serna
//! Gaviria's IEIA-2025 "8-Layer Model" taxonomy by keyword matching, and notes the
//! layers that no segment matched.
//!
//! The eight category names are hers (`Source::Laura8Layer2025`); assigning a
//! segment to them by keyword is this project's own operationalization.
use vstd::prelude::*;

use crate::order::{sort_desc, sort_desc_exec};
use crate::schema::{
    finding, join3, Finding, FindingV, Lens, LensData, LensDataV, LensResult, LensResultV, Severity,
    Source, finding_views,
};
use crate::strs::{
    chars_of, count_contained, count_contained_exec, decimal, decimal_string, lowercase,
    lowercase_of, str_views, string_of, truncate_chars, truncated, is_substring, quotes_or_cut,
    lemma_truncated_quotes,
};
use crate::text::{law_section_bodies_are_spans, no_cr, segment_chars, segments_of, SegmentV, seg_views};

verus! {

pub const ATTRIBUTION_NOTE: &'static str = "The eight layer names (facts, analysis, patterns, hypotheses, symbols, action, counterarguments, blind_spot) are Laura Serna Gaviria's own IEIA-2025 \"8-Layer Model\" (see the OSF preprint). Assigning a specific document segment to 1-3 of these layers here is done by deterministic keyword matching (see laura-core source for the exact trigger lists), not semantic understanding — a segment can express a layer without any trigger word and be missed, or contain a trigger word used in an unrelated sense. This is a full trade of semantic nuance for reproducibility, transparency, and zero external dependency; it is not a validated cognitive-science instrument either way.";

/// The eight layer keys, in taxonomy order.
pub open spec fn layer_keys_spec() -> Seq<Seq<char>> {
    seq!["facts"@, "analysis"@, "patterns"@, "hypotheses"@, "symbols"@, "action"@, "counterarguments"@, "blind_spot"@]
}

pub fn layer_keys() -> (r: Vec<&'static str>)
    ensures
        str_views(r@) == layer_keys_spec(),
        r@.len() == 8,
{
    let r = vec!["facts", "analysis", "patterns", "hypotheses", "symbols", "action", "counterarguments", "blind_spot"];
    assert(str_views(r@) =~= layer_keys_spec());
    r
}

/// The trigger phrases of layer `k`.
pub open spec fn layer_triggers(k: int) -> Seq<Seq<char>> {
    if k == 0 {
        seq!["data show"@, "observed"@, "recorded"@, "measured"@, "the fact that"@, "according to"@, "confirmed that"@, "we found"@, "the result was"@, "test result"@, "benchmark"@]
    } else if k == 1 {
        seq!["because"@, "therefore"@, "this means"@, "implies"@, "as a result"@, "due to"@, "in other words"@, "this suggests"@, "the reason"@, "which explains"@]
    } else if k == 2 {
        seq!["recurring"@, "repeatedly"@, "same pattern"@, "consistent with"@, "similar to"@, "every time"@, "each time"@, "trend"@, "pattern of"@, "recurs"@]
    } else if k == 3 {
        seq!["might"@, "may be"@, "could be"@, "perhaps"@, "assume"@, "hypothesis"@, "we believe"@, "possibly"@, "it's possible"@, "presumably"@, "likely that"@]
    } else if k == 4 {
        seq!["metaphor"@, "like a"@, "as if"@, "symbolizes"@, "represents the idea of"@, "imagine"@, "picture this"@, "analogy"@]
    } else if k == 5 {
        seq!["will ship"@, "next step"@, "we will"@, "plan to"@, "decide to"@, "must "@, "should "@, "todo"@, "action item"@, "deploy"@, "implement"@, "we'll "@, "let's "@]
    } else if k == 6 {
        seq!["however"@, "but "@, "on the other hand"@, "risk"@, "concern"@, "limitation"@, "objection"@, "alternatively"@, "in contrast"@, "downside"@, "trade-off"@, "tradeoff"@]
    } else {
        seq!["unsure"@, "don't know"@, "unknown"@, "unclear"@, "tbd"@, "to be determined"@, "gap in"@, "not yet clear"@, "uncertain"@, "open question"@, "not sure"@]
    }
}

fn layer_triggers_exec(k: usize) -> (r: Vec<&'static str>)
    requires
        k < 8,
    ensures
        str_views(r@) == layer_triggers(k as int),
{
    if k == 0 {
        let r = vec!["data show", "observed", "recorded", "measured", "the fact that", "according to", "confirmed that", "we found", "the result was", "test result", "benchmark"];
        assert(str_views(r@) =~= layer_triggers(k as int));
        r
    } else if k == 1 {
        let r = vec!["because", "therefore", "this means", "implies", "as a result", "due to", "in other words", "this suggests", "the reason", "which explains"];
        assert(str_views(r@) =~= layer_triggers(k as int));
        r
    } else if k == 2 {
        let r = vec!["recurring", "repeatedly", "same pattern", "consistent with", "similar to", "every time", "each time", "trend", "pattern of", "recurs"];
        assert(str_views(r@) =~= layer_triggers(k as int));
        r
    } else if k == 3 {
        let r = vec!["might", "may be", "could be", "perhaps", "assume", "hypothesis", "we believe", "possibly", "it's possible", "presumably", "likely that"];
        assert(str_views(r@) =~= layer_triggers(k as int));
        r
    } else if k == 4 {
        let r = vec!["metaphor", "like a", "as if", "symbolizes", "represents the idea of", "imagine", "picture this", "analogy"];
        assert(str_views(r@) =~= layer_triggers(k as int));
        r
    } else if k == 5 {
        let r = vec!["will ship", "next step", "we will", "plan to", "decide to", "must ", "should ", "todo", "action item", "deploy", "implement", "we'll ", "let's "];
        assert(str_views(r@) =~= layer_triggers(k as int));
        r
    } else if k == 6 {
        let r = vec!["however", "but ", "on the other hand", "risk", "concern", "limitation", "objection", "alternatively", "in contrast", "downside", "trade-off", "tradeoff"];
        assert(str_views(r@) =~= layer_triggers(k as int));
        r
    } else {
        let r = vec!["unsure", "don't know", "unknown", "unclear", "tbd", "to be determined", "gap in", "not yet clear", "uncertain", "open question", "not sure"];
        assert(str_views(r@) =~= layer_triggers(k as int));
        r
    }
}

/// `(layer, number of its triggers present)` for the first `n` layers that have
/// at least one trigger in `low`, in layer order.
pub open spec fn scored(low: Seq<char>, n: int) -> Seq<(usize, usize)>
    decreases n,
{
    if n <= 0 {
        seq![]
    } else {
        let c = count_contained(low, layer_triggers(n - 1));
        if c > 0 {
            scored(low, n - 1).push(((n - 1) as usize, c as usize))
        } else {
            scored(low, n - 1)
        }
    }
}

/// The (at most three) layers of a lowercase segment: the layers with the most
/// triggers present, ties in layer order.
pub open spec fn classify_lower(low: Seq<char>) -> Seq<usize> {
    let ranked = sort_desc(scored(low, 8));
    let m = if ranked.len() < 3 { ranked.len() as int } else { 3 };
    ranked.take(m).map_values(|p: (usize, usize)| p.0)
}

/// The (at most three) layers of a segment.
pub open spec fn classify_indices(text: Seq<char>) -> Seq<usize> {
    classify_lower(lowercase_of(text))
}

/// The keys of the layers of a segment.
pub open spec fn classify_keys(text: Seq<char>) -> Seq<Seq<char>> {
    classify_indices(text).map_values(|i: usize| layer_keys_spec()[i as int])
}

proof fn lemma_scored_facts(low: Seq<char>, n: int)
    requires
        0 <= n <= 8,
    ensures
        scored(low, n).len() <= n,
        forall|j: int| 0 <= j < scored(low, n).len() ==> (#[trigger] scored(low, n)[j]).0 < n,
    decreases n,
{
    if n > 0 {
        lemma_scored_facts(low, n - 1);
    }
}

proof fn lemma_sorted_members(s: Seq<(usize, usize)>, bound: usize)
    requires
        forall|j: int| 0 <= j < s.len() ==> (#[trigger] s[j]).0 < bound,
    ensures
        forall|j: int| 0 <= j < sort_desc(s).len() ==> (#[trigger] sort_desc(s)[j]).0 < bound,
    decreases s.len(),
{
    if s.len() > 0 {
        lemma_sorted_members(s.drop_last(), bound);
        lemma_insert_members(sort_desc(s.drop_last()), s.last(), bound);
    }
}

proof fn lemma_insert_members(s: Seq<(usize, usize)>, x: (usize, usize), bound: usize)
    requires
        forall|j: int| 0 <= j < s.len() ==> (#[trigger] s[j]).0 < bound,
        x.0 < bound,
    ensures
        forall|j: int|
            0 <= j < crate::order::insert_desc(s, x).len() ==> (
            #[trigger] crate::order::insert_desc(s, x)[j]).0 < bound,
    decreases s.len(),
{
    if s.len() > 0 && s[0].1 >= x.1 {
        lemma_insert_members(s.drop_first(), x, bound);
        let t = crate::order::insert_desc(s.drop_first(), x);
        assert forall|j: int| 0 <= j < (seq![s[0]] + t).len() implies (#[trigger] (seq![s[0]]
            + t)[j]).0 < bound by {
            if j > 0 {
                assert((seq![s[0]] + t)[j] == t[j - 1]);
            }
        }
    }
}

/// The layer indices of a segment, from its lowercase text.
pub fn classify_lowercase(low: &[char]) -> (r: Vec<usize>)
    ensures
        r@ == classify_lower(low@),
        forall|j: int| 0 <= j < r@.len() ==> r@[j] < 8,
{
    let mut sc: Vec<(usize, usize)> = Vec::new();
    let mut k: usize = 0;
    while k < 8
        invariant
            k <= 8,
            sc@ == scored(low@, k as int),
        decreases 8 - k,
    {
        let ts = layer_triggers_exec(k);
        let c = count_contained_exec(low, &ts);
        if c > 0 {
            sc.push((k, c));
        }
        k = k + 1;
    }
    proof {
        lemma_scored_facts(low@, 8);
        lemma_sorted_members(scored(low@, 8), 8);
        crate::order::lemma_sort_desc_len(scored(low@, 8));
    }
    let ranked = sort_desc_exec(sc);
    let m = if ranked.len() < 3 { ranked.len() } else { 3 };
    let mut r: Vec<usize> = Vec::new();
    let mut j: usize = 0;
    while j < m
        invariant
            j <= m <= ranked@.len(),
            ranked@ == sort_desc(scored(low@, 8)),
            forall|i: int| 0 <= i < ranked@.len() ==> (#[trigger] ranked@[i]).0 < 8,
            r@ == ranked@.take(j as int).map_values(|p: (usize, usize)| p.0),
        decreases m - j,
    {
        r.push(ranked[j].0);
        assert(ranked@.take(j + 1) =~= ranked@.take(j as int).push(ranked@[j as int]));
        assert(r@ =~= ranked@.take(j + 1).map_values(|p: (usize, usize)| p.0));
        j = j + 1;
    }
    r
}

/// The keys of the (at most three) layers whose triggers occur most in `text`.
pub fn classify_segment(text: &str) -> (r: Vec<&'static str>)
    ensures
        str_views(r@) == classify_keys(text@),
{
    let c = chars_of(text);
    let low = lowercase(&c);
    let idx = classify_lowercase(&low);
    let keys = layer_keys();
    let mut r: Vec<&'static str> = Vec::new();
    let mut j: usize = 0;
    while j < idx.len()
        invariant
            j <= idx@.len(),
            idx@ == classify_indices(text@),
            forall|i: int| 0 <= i < idx@.len() ==> idx@[i] < 8,
            str_views(keys@) == layer_keys_spec(),
            keys@.len() == 8,
            str_views(r@) == idx@.take(j as int).map_values(|i: usize| layer_keys_spec()[i as int]),
        decreases idx.len() - j,
    {
        assert(str_views(keys@)[idx@[j as int] as int] == keys@[idx@[j as int] as int]@);
        let ghost old_v = str_views(r@);
        r.push(keys[idx[j]]);
        assert(str_views(r@) =~= old_v.push(layer_keys_spec()[idx@[j as int] as int]));
        assert(idx@.take(j + 1) =~= idx@.take(j as int).push(idx@[j as int]));
        assert(str_views(r@) =~= idx@.take(j + 1).map_values(
            |i: usize| layer_keys_spec()[i as int],
        ));
        j = j + 1;
    }
    assert(idx@.take(idx@.len() as int) =~= idx@);
    r
}

/// The number of segments (among the layer lists `cls`) assigned layer `k`.
pub open spec fn seg_count(cls: Seq<Seq<usize>>, k: usize) -> nat
    decreases cls.len(),
{
    if cls.len() == 0 {
        0
    } else {
        seg_count(cls.drop_last(), k) + if cls.last().contains(k) {
            1nat
        } else {
            0nat
        }
    }
}

/// The claim for a layer that no segment matched.
pub open spec fn absent_claim(key: Seq<char>) -> Seq<char> {
    "No segment matched any '"@ + key
        + "' keyword — this layer is absent, or present but phrased without a recognized trigger word."@
}

/// The notes for the layers among the first `n` with no segment, in layer order.
pub open spec fn absent_findings(counts: Seq<nat>, n: int, opening: Seq<char>, closing: Seq<char>) -> Seq<
    FindingV,
>
    decreases n,
{
    if n <= 0 {
        seq![]
    } else if counts[n - 1] == 0 {
        absent_findings(counts, n - 1, opening, closing).push(
            FindingV {
                claim: absent_claim(layer_keys_spec()[n - 1]),
                evidence: truncated(if n - 1 >= 5 { closing } else { opening }, 200),
                severity: Severity::Note,
            },
        )
    } else {
        absent_findings(counts, n - 1, opening, closing)
    }
}

/// What the 8-Layer lens reports for a document.
pub open spec fn eight_layer_spec(text: Seq<char>) -> LensResultV {
    let segs = segments_of(text);
    if segs.len() == 0 {
        LensResultV {
            lens: Lens::EightLayer,
            source: Source::Laura8Layer2025,
            attribution_note: ATTRIBUTION_NOTE@,
            findings: seq![],
            data: None,
            error: Some("input text had no classifiable segments"@),
        }
    } else {
        let cls = segs.map_values(|s: SegmentV| classify_indices(s.body));
        let counts = Seq::new(8, |k: int| seg_count(cls, k as usize));
        let total = segs.len();
        LensResultV {
            lens: Lens::EightLayer,
            source: Source::Laura8Layer2025,
            attribution_note: ATTRIBUTION_NOTE@,
            findings: seq![
                FindingV {
                    claim: "Classified "@ + decimal(total)
                        + " segment(s) across the 8-Layer taxonomy via keyword matching."@,
                    evidence: truncated(segs[0].body, 200),
                    severity: Severity::Info,
                },
            ] + absent_findings(counts, 8, segs[0].body, segs.last().body),
            data: Some(
                LensDataV::Distribution {
                    segments_classified: total,
                    counts: counts.map_values(|c: nat| c as usize),
                },
            ),
            error: None,
        }
    }
}

fn contains_idx(v: &Vec<usize>, k: usize) -> (r: bool)
    ensures
        r == v@.contains(k),
{
    let mut j: usize = 0;
    while j < v.len()
        invariant
            j <= v@.len(),
            forall|i: int| 0 <= i < j ==> v@[i] != k,
        decreases v.len() - j,
    {
        if v[j] == k {
            return true;
        }
        j = j + 1;
    }
    false
}

fn seg_count_exec(cls: &Vec<Vec<usize>>, k: usize) -> (r: usize)
    ensures
        r == seg_count(cls@.map_values(|v: Vec<usize>| v@), k),
        r <= cls@.len(),
{
    let ghost cv = cls@.map_values(|v: Vec<usize>| v@);
    let mut n: usize = 0;
    let mut j: usize = 0;
    while j < cls.len()
        invariant
            j <= cls@.len(),
            cv == cls@.map_values(|v: Vec<usize>| v@),
            n == seg_count(cv.take(j as int), k),
            n <= j,
        decreases cls.len() - j,
    {
        assert(cv.take(j + 1).drop_last() =~= cv.take(j as int));
        if contains_idx(&cls[j], k) {
            n = n + 1;
        }
        j = j + 1;
    }
    assert(cv.take(cls@.len() as int) =~= cv);
    n
}

/// Runs the 8-Layer lens.
pub fn run(text: &str) -> (r: LensResult)
    ensures
        r@ == eight_layer_spec(text@),
{
    let t = chars_of(text);
    let segs = segment_chars(&t);
    if segs.len() == 0 {
        let r = LensResult {
            lens: Lens::EightLayer,
            source: Source::Laura8Layer2025,
            attribution_note: String::from_str(ATTRIBUTION_NOTE),
            findings: Vec::new(),
            data: None,
            error: Some(String::from_str("input text had no classifiable segments")),
        };
        assert(r@.findings =~= seq![]);
        return r;
    }
    let ghost sv = segments_of(text@);
    assert(seg_views(segs@) == sv);
    let mut cls: Vec<Vec<usize>> = Vec::new();
    let mut bodies: Vec<Vec<char>> = Vec::new();
    let mut j: usize = 0;
    while j < segs.len()
        invariant
            j <= segs@.len(),
            seg_views(segs@) == sv,
            cls@.map_values(|v: Vec<usize>| v@) == sv.take(j as int).map_values(
                |s: SegmentV| classify_indices(s.body),
            ),
            bodies@.len() == j,
            forall|i: int| 0 <= i < j ==> (#[trigger] bodies@[i])@ == sv[i].body,
        decreases segs.len() - j,
    {
        let b = chars_of(segs[j].body.as_str());
        assert(sv[j as int] == segs@[j as int]@);
        let low = lowercase(&b);
        let c = classify_lowercase(&low);
        let ghost old_c = cls@.map_values(|v: Vec<usize>| v@);
        cls.push(c);
        bodies.push(b);
        assert(cls@.map_values(|v: Vec<usize>| v@) =~= old_c.push(c@));
        assert(sv.take(j + 1) =~= sv.take(j as int).push(sv[j as int]));
        assert(cls@.map_values(|v: Vec<usize>| v@) =~= sv.take(j + 1).map_values(
            |s: SegmentV| classify_indices(s.body),
        ));
        j = j + 1;
    }
    assert(sv.take(sv.len() as int) =~= sv);
    let ghost cv = sv.map_values(|s: SegmentV| classify_indices(s.body));
    assert(cls@.map_values(|v: Vec<usize>| v@) == cv);
    let ghost counts_spec = Seq::new(8, |k: int| seg_count(cv, k as usize));
    let mut counts: Vec<usize> = Vec::new();
    let mut k: usize = 0;
    while k < 8
        invariant
            k <= 8,
            cls@.map_values(|v: Vec<usize>| v@) == cv,
            counts@.len() == k,
            forall|i: int| 0 <= i < k ==> counts@[i] == seg_count(cv, i as usize),
        decreases 8 - k,
    {
        let n = seg_count_exec(&cls, k);
        counts.push(n);
        k = k + 1;
    }
    let total = segs.len();
    let n_last = total - 1;
    let opening = &bodies[0];
    let closing = &bodies[n_last];
    let keys = layer_keys();
    let mut findings: Vec<Finding> = Vec::new();
    let claim0 = join3("Classified ", decimal_string(total).as_str(), " segment(s) across the 8-Layer taxonomy via keyword matching.");
    let ev0 = truncate_chars(opening, 200);
    findings.push(finding(claim0, string_of(&ev0), Severity::Info));
    let ghost first = finding_views(findings@);
    let ghost cn = counts_spec;
    let mut k: usize = 0;
    while k < 8
        invariant
            k <= 8,
            sv.len() > 0,
            counts@.len() == 8,
            forall|i: int| 0 <= i < 8 ==> counts@[i] == cn[i],
            cn == counts_spec,
            str_views(keys@) == layer_keys_spec(),
            keys@.len() == 8,
            opening@ == sv[0].body,
            closing@ == sv.last().body,
            finding_views(findings@) == first + absent_findings(cn, k as int, sv[0].body, sv.last().body),
        decreases 8 - k,
    {
        if counts[k] == 0 {
            let anchor = if k >= 5 { closing } else { opening };
            let ev = truncate_chars(anchor, 200);
            assert(str_views(keys@)[k as int] == keys@[k as int]@);
            let claim = join3("No segment matched any '", keys[k], "' keyword — this layer is absent, or present but phrased without a recognized trigger word.");
            let f = finding(claim, string_of(&ev), Severity::Note);
            let ghost old_f = finding_views(findings@);
            findings.push(f);
            assert(finding_views(findings@) =~= old_f.push(f@));
        }
        k = k + 1;
    }
    let r = LensResult {
        lens: Lens::EightLayer,
        source: Source::Laura8Layer2025,
        attribution_note: String::from_str(ATTRIBUTION_NOTE),
        findings,
        data: Some(LensData::Distribution { segments_classified: total, counts }),
        error: None,
    };
    proof {
        assert(counts@ =~= counts_spec.map_values(|c: nat| c as usize));
        let sp = eight_layer_spec(text@);
        assert(first =~= seq![FindingV {
                    claim: "Classified "@ + decimal(total as nat)
                        + " segment(s) across the 8-Layer taxonomy via keyword matching."@,
                    evidence: truncated(sv[0].body, 200),
                    severity: Severity::Info,
                }]);
        assert(r@.findings == sp.findings);
        assert(r@.data == sp.data);
    }
    r
}

proof fn lemma_count_contained_le(low: Seq<char>, ts: Seq<Seq<char>>)
    ensures
        count_contained(low, ts) <= ts.len(),
    decreases ts.len(),
{
    if ts.len() > 0 {
        lemma_count_contained_le(low, ts.drop_last());
    }
}

proof fn lemma_scored_positive(low: Seq<char>, n: int)
    requires
        0 <= n <= 8,
    ensures
        forall|j: int|
            0 <= j < scored(low, n).len() ==> {
                let p = #[trigger] scored(low, n)[j];
                &&& p.0 < n
                &&& count_contained(low, layer_triggers(p.0 as int)) > 0
            },
        (scored(low, n).len() == 0) == (forall|k: int|
            0 <= k < n ==> #[trigger] count_contained(low, layer_triggers(k)) == 0),
    decreases n,
{
    if n > 0 {
        lemma_scored_positive(low, n - 1);
        let c = count_contained(low, layer_triggers(n - 1));
        lemma_count_contained_le(low, layer_triggers(n - 1));
        let pre = scored(low, n - 1);
        let r = scored(low, n);
        assert forall|j: int| 0 <= j < r.len() implies {
            let p = #[trigger] r[j];
            &&& p.0 < n
            &&& count_contained(low, layer_triggers(p.0 as int)) > 0
        } by {
            if j < pre.len() {
                assert(r[j] == pre[j]);
            }
        }
        if c > 0 {
            assert(!(forall|k: int| 0 <= k < n ==> #[trigger] count_contained(low, layer_triggers(k)) == 0));
        } else if pre.len() > 0 {
            let k = choose|k: int| 0 <= k < n - 1 && #[trigger] count_contained(low, layer_triggers(k)) != 0;
            assert(count_contained(low, layer_triggers(k)) != 0);
        }
    }
}

/// A segment is assigned at most three layers, each with at least one of its
/// trigger phrases present, and none exactly when no layer's trigger is present.
pub proof fn law_classify_segment(text: Seq<char>)
    ensures
        classify_indices(text).len() <= 3,
        forall|j: int|
            0 <= j < classify_indices(text).len() ==> (#[trigger] classify_indices(text)[j]) < 8
                && count_contained(lowercase_of(text), layer_triggers(classify_indices(text)[j] as int))
                > 0,
        (classify_indices(text).len() == 0) == (forall|k: int|
            0 <= k < 8 ==> #[trigger] count_contained(lowercase_of(text), layer_triggers(k)) == 0),
{
    let low = lowercase_of(text);
    let sc = scored(low, 8);
    lemma_scored_positive(low, 8);
    crate::order::lemma_sort_desc_members(sc);
    crate::order::lemma_sort_desc_len(sc);
    let ranked = sort_desc(sc);
    let out = classify_indices(text);
    assert forall|j: int| 0 <= j < out.len() implies (#[trigger] out[j]) < 8 && count_contained(
        low,
        layer_triggers(out[j] as int),
    ) > 0 by {
        assert(out[j] == ranked[j].0);
        assert(sc.contains(ranked[j]));
        let m = choose|m: int| 0 <= m < sc.len() && sc[m] == ranked[j];
        assert(sc[m].0 < 8);
    }
}

proof fn lemma_absent_findings_evidence(
    counts: Seq<nat>,
    n: int,
    opening: Seq<char>,
    closing: Seq<char>,
    text: Seq<char>,
)
    requires
        n <= counts.len(),
        quotes_or_cut(truncated(opening, 200), text),
        quotes_or_cut(truncated(closing, 200), text),
    ensures
        forall|i: int|
            0 <= i < absent_findings(counts, n, opening, closing).len() ==> quotes_or_cut(
                #[trigger] absent_findings(counts, n, opening, closing)[i].evidence,
                text,
            ),
    decreases n,
{
    if n > 0 {
        lemma_absent_findings_evidence(counts, n - 1, opening, closing, text);
        let pre = absent_findings(counts, n - 1, opening, closing);
        let all = absent_findings(counts, n, opening, closing);
        assert forall|i: int| 0 <= i < all.len() implies quotes_or_cut(#[trigger] all[i].evidence, text) by {
            if i < pre.len() {
                assert(all[i] == pre[i]);
            }
        }
    }
}

/// Every finding of the 8-layer lens quotes the document: a span of it, or one cut
/// short and marked with `…` (for a document without carriage returns, whose
/// section bodies are spans of it).
pub proof fn law_eight_layer_evidence_quotes(text: Seq<char>)
    requires
        no_cr(text),
    ensures
        forall|i: int|
            0 <= i < eight_layer_spec(text).findings.len() ==> quotes_or_cut(
                #[trigger] eight_layer_spec(text).findings[i].evidence,
                text,
            ),
{
    let segs = segments_of(text);
    if segs.len() > 0 {
        law_section_bodies_are_spans(text);
        let opening = segs[0].body;
        let closing = segs.last().body;
        assert(is_substring(segs[segs.len() - 1].body, text));
        lemma_truncated_quotes(opening, text, 200);
        lemma_truncated_quotes(closing, text, 200);
        let cls = segs.map_values(|s: SegmentV| classify_indices(s.body));
        let counts = Seq::new(8, |k: int| seg_count(cls, k as usize));
        lemma_absent_findings_evidence(counts, 8, opening, closing, text);
        let first = seq![
            FindingV {
                claim: "Classified "@ + decimal(segs.len())
                    + " segment(s) across the 8-Layer taxonomy via keyword matching."@,
                evidence: truncated(opening, 200),
                severity: Severity::Info,
            },
        ];
        let rest = absent_findings(counts, 8, opening, closing);
        let fs = eight_layer_spec(text).findings;
        assert(fs == first + rest);
        assert forall|i: int| 0 <= i < fs.len() implies quotes_or_cut(#[trigger] fs[i].evidence, text) by {
            if i > 0 {
                assert(fs[i] == rest[i - 1]);
            }
        }
    }
}

proof fn lemma_absent_findings_notes(counts: Seq<nat>, n: int, opening: Seq<char>, closing: Seq<char>)
    requires
        n <= counts.len(),
    ensures
        forall|i: int|
            0 <= i < absent_findings(counts, n, opening, closing).len() ==> (
            #[trigger] absent_findings(counts, n, opening, closing)[i]).severity == Severity::Note,
    decreases n,
{
    if n > 0 {
        lemma_absent_findings_notes(counts, n - 1, opening, closing);
        let pre = absent_findings(counts, n - 1, opening, closing);
        let all = absent_findings(counts, n, opening, closing);
        assert forall|i: int| 0 <= i < all.len() implies (#[trigger] all[i]).severity == Severity::Note by {
            if i < pre.len() {
                assert(all[i] == pre[i]);
            }
        }
    }
}

/// The 8-layer lens reports an error exactly when the document has no sections,
/// and then no findings; otherwise its first finding is the informational count
/// and every other finding is a note on an absent layer (it never flags).
pub proof fn law_eight_layer_shape(text: Seq<char>)
    ensures
        (eight_layer_spec(text).error is Some) == (segments_of(text).len() == 0),
        eight_layer_spec(text).error is Some ==> eight_layer_spec(text).findings.len() == 0
            && eight_layer_spec(text).data is None,
        eight_layer_spec(text).error is None ==> eight_layer_spec(text).findings.len() >= 1
            && eight_layer_spec(text).findings[0].severity == Severity::Info && forall|i: int|
            1 <= i < eight_layer_spec(text).findings.len() ==> (
            #[trigger] eight_layer_spec(text).findings[i]).severity == Severity::Note,
{
    let segs = segments_of(text);
    if segs.len() > 0 {
        let opening = segs[0].body;
        let closing = segs.last().body;
        let cls = segs.map_values(|s: SegmentV| classify_indices(s.body));
        let counts = Seq::new(8, |k: int| seg_count(cls, k as usize));
        lemma_absent_findings_notes(counts, 8, opening, closing);
        let rest = absent_findings(counts, 8, opening, closing);
        let fs = eight_layer_spec(text).findings;
        assert forall|i: int| 1 <= i < fs.len() implies (#[trigger] fs[i]).severity == Severity::Note by {
            assert(fs[i] == rest[i - 1]);
        }
    }
}

/// Layer `k` is absent from the document: no section's classification contains it.
pub open spec fn layer_absent(text: Seq<char>, k: int) -> bool {
    forall|i: int|
        0 <= i < segments_of(text).len() ==> !classify_indices(
            #[trigger] segments_of(text)[i].body,
        ).contains(k as usize)
}

/// The keys of the absent layers among the first `n`, in layer order.
pub open spec fn absent_layers(text: Seq<char>, n: int) -> Seq<Seq<char>>
    decreases n,
{
    if n <= 0 {
        seq![]
    } else if layer_absent(text, n - 1) {
        absent_layers(text, n - 1).push(layer_keys_spec()[n - 1])
    } else {
        absent_layers(text, n - 1)
    }
}

proof fn lemma_seg_count_zero(cls: Seq<Seq<usize>>, k: usize)
    ensures
        (seg_count(cls, k) == 0) == (forall|i: int| 0 <= i < cls.len() ==> !(#[trigger] cls[i]).contains(k)),
    decreases cls.len(),
{
    if cls.len() > 0 {
        let pre = cls.drop_last();
        lemma_seg_count_zero(pre, k);
        if forall|i: int| 0 <= i < cls.len() ==> !(#[trigger] cls[i]).contains(k) {
            assert forall|i: int| 0 <= i < pre.len() implies !(#[trigger] pre[i]).contains(k) by {
                assert(pre[i] == cls[i]);
            }
            assert(!cls[cls.len() - 1].contains(k));
        } else {
            let i = choose|i: int| 0 <= i < cls.len() && (#[trigger] cls[i]).contains(k);
            if i < pre.len() {
                assert(pre[i] == cls[i]);
            }
        }
    }
}

proof fn lemma_absent_findings_layers(
    text: Seq<char>,
    counts: Seq<nat>,
    n: int,
    opening: Seq<char>,
    closing: Seq<char>,
)
    requires
        0 <= n <= 8,
        counts.len() == 8,
        forall|k: int| 0 <= k < 8 ==> (#[trigger] counts[k] == 0) == layer_absent(text, k),
    ensures
        absent_findings(counts, n, opening, closing).len() == absent_layers(text, n).len(),
        forall|j: int|
            0 <= j < absent_layers(text, n).len() ==> (#[trigger] absent_findings(
                counts,
                n,
                opening,
                closing,
            )[j]).claim == absent_claim(absent_layers(text, n)[j]),
    decreases n,
{
    if n > 0 {
        lemma_absent_findings_layers(text, counts, n - 1, opening, closing);
        assert((counts[n - 1] == 0) == layer_absent(text, n - 1));
        let fa = absent_findings(counts, n, opening, closing);
        let fp = absent_findings(counts, n - 1, opening, closing);
        let la = absent_layers(text, n);
        let lp = absent_layers(text, n - 1);
        assert forall|j: int| 0 <= j < la.len() implies (#[trigger] fa[j]).claim == absent_claim(la[j]) by {
            if j < lp.len() {
                assert(fa[j] == fp[j]);
                assert(la[j] == lp[j]);
            }
        }
    }
}

/// On a document with sections, the 8-layer lens's notes are exactly one per
/// absent layer (a layer no section's classification contains), in layer order,
/// after the leading informational count.
pub proof fn law_eight_layer_absent_layers(text: Seq<char>)
    requires
        segments_of(text).len() > 0,
    ensures
        eight_layer_spec(text).findings.len() == 1 + absent_layers(text, 8).len(),
        forall|i: int|
            1 <= i < eight_layer_spec(text).findings.len() ==> {
                let f = #[trigger] eight_layer_spec(text).findings[i];
                &&& f.claim == absent_claim(absent_layers(text, 8)[i - 1])
                &&& f.severity == Severity::Note
            },
{
    let segs = segments_of(text);
    let opening = segs[0].body;
    let closing = segs.last().body;
    let cls = segs.map_values(|s: SegmentV| classify_indices(s.body));
    let counts = Seq::new(8, |k: int| seg_count(cls, k as usize));
    assert forall|k: int| 0 <= k < 8 implies (#[trigger] counts[k] == 0) == layer_absent(text, k) by {
        lemma_seg_count_zero(cls, k as usize);
        if counts[k] == 0 {
            assert forall|i: int| 0 <= i < segs.len() implies !classify_indices(
                #[trigger] segs[i].body,
            ).contains(k as usize) by {
                assert(cls[i] == classify_indices(segs[i].body));
            }
        } else {
            let i = choose|i: int| 0 <= i < cls.len() && (#[trigger] cls[i]).contains(k as usize);
            assert(cls[i] == classify_indices(segs[i].body));
            assert(classify_indices(segs[i].body).contains(k as usize));
        }
    }
    lemma_absent_findings_layers(text, counts, 8, opening, closing);
    lemma_absent_findings_notes(counts, 8, opening, closing);
    let rest = absent_findings(counts, 8, opening, closing);
    let fs = eight_layer_spec(text).findings;
    assert forall|i: int| 1 <= i < fs.len() implies {
        let f = #[trigger] fs[i];
        &&& f.claim == absent_claim(absent_layers(text, 8)[i - 1])
        &&& f.severity == Severity::Note
    } by {
        assert(fs[i] == rest[i - 1]);
    }
}

} // verus!
