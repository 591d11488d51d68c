//! The UIP-check lens: checks a document against Laura Serna Gaviria's User
//! Integrity Protocol (four rules, OSF preprint Appendix A) by sentence-level
//! keyword matching. Every finding's evidence is one of the document's own
//! sentences.
use vstd::prelude::*;

use crate::schema::{finding, finding_views, Finding, FindingV, Lens, LensResult, LensResultV, Severity, Source};
use crate::strs::{
    any_contained, any_contained_exec, byte_len, contains, byte_len_exceeds, chars_of, lowercase,
    lowercase_of, split_by, split_by_exec, str_views, string_of, trim, trim_vec, views, Delim,
    is_substring, lemma_split_by_substrings, lemma_trimmed_substrings, lemma_all_ws_substring,
    lemma_blank_iff_all_ws,
};

verus! {

pub const ATTRIBUTION_NOTE: &'static str = "The four rules checked here are Laura Serna Gaviria's own User Integrity Protocol (UIP), stated directly in her OSF preprint (Appendix A). The findings below come from deterministic keyword/pattern matching over your document, not semantic understanding or Laura's own review — this trades real detection power (e.g. it cannot tell whether a stated constraint is ACTUALLY contradicted elsewhere, only that constraints exist and are worth checking) for being fully reproducible and inspectable. Read findings as prompts to re-check the cited sentence yourself, not as a verified verdict.";

/// Explicit constraint / negation phrases (UIP rule 1).
pub open spec fn negation_markers_spec() -> Seq<Seq<char>> {
    seq!["must not"@, "will not"@, "won't"@, "never "@, "no third-party"@, "not be shared"@, "not permitted"@, "shall not"@, "cannot be"@, "is not allowed"@]
}

pub fn negation_markers() -> (r: Vec<&'static str>)
    ensures
        str_views(r@) == negation_markers_spec(),
{
    let r = vec!["must not", "will not", "won't", "never ", "no third-party", "not be shared", "not permitted", "shall not", "cannot be", "is not allowed"];
    assert(str_views(r@) =~= negation_markers_spec());
    r
}

/// Absolute / certainty phrases (UIP rule 2).
pub open spec fn absolute_markers_spec() -> Seq<Seq<char>> {
    seq!["guarantee"@, "100%"@, "always works"@, "never fails"@, "proven to"@, "certainly will"@, "definitely will"@, "no exceptions"@, "without fail"@]
}

pub fn absolute_markers() -> (r: Vec<&'static str>)
    ensures
        str_views(r@) == absolute_markers_spec(),
{
    let r = vec!["guarantee", "100%", "always works", "never fails", "proven to", "certainly will", "definitely will", "no exceptions", "without fail"];
    assert(str_views(r@) =~= absolute_markers_spec());
    r
}

/// Hedge or source phrases that excuse an absolute claim.
pub open spec fn hedge_or_source_markers_spec() -> Seq<Seq<char>> {
    seq!["approximately"@, "estimated"@, "based on"@, "see "@, "source:"@, "according to"@, "in testing"@, "in our tests"@, "roughly"@, "in most cases"@]
}

pub fn hedge_or_source_markers() -> (r: Vec<&'static str>)
    ensures
        str_views(r@) == hedge_or_source_markers_spec(),
{
    let r = vec!["approximately", "estimated", "based on", "see ", "source:", "according to", "in testing", "in our tests", "roughly", "in most cases"];
    assert(str_views(r@) =~= hedge_or_source_markers_spec());
    r
}

/// Completion claims (UIP rule 3).
pub open spec fn completion_markers_spec() -> Seq<Seq<char>> {
    seq!["is complete"@, "is done"@, "is finished"@, "works correctly"@, "has been tested"@, "has passed"@, "is working"@, "is ready"@]
}

pub fn completion_markers() -> (r: Vec<&'static str>)
    ensures
        str_views(r@) == completion_markers_spec(),
{
    let r = vec!["is complete", "is done", "is finished", "works correctly", "has been tested", "has passed", "is working", "is ready"];
    assert(str_views(r@) =~= completion_markers_spec());
    r
}

/// Verification-method words that back a completion claim.
pub open spec fn verification_markers_spec() -> Seq<Seq<char>> {
    seq!["test"@, "verified"@, "confirmed"@, "validated"@, "checked"@, "reviewed by"@, "audit"@]
}

pub fn verification_markers() -> (r: Vec<&'static str>)
    ensures
        str_views(r@) == verification_markers_spec(),
{
    let r = vec!["test", "verified", "confirmed", "validated", "checked", "reviewed by", "audit"];
    assert(str_views(r@) =~= verification_markers_spec());
    r
}

/// Conclusion markers (UIP rule 4).
pub open spec fn conclusion_markers_spec() -> Seq<Seq<char>> {
    seq!["therefore"@, "thus"@, "so we "@, "in conclusion"@, "as a result we"@, "this proves"@]
}

pub fn conclusion_markers() -> (r: Vec<&'static str>)
    ensures
        str_views(r@) == conclusion_markers_spec(),
{
    let r = vec!["therefore", "thus", "so we ", "in conclusion", "as a result we", "this proves"];
    assert(str_views(r@) =~= conclusion_markers_spec());
    r
}

/// Reasoning connectors that back a conclusion.
pub open spec fn reasoning_markers_spec() -> Seq<Seq<char>> {
    seq!["because"@, "since"@, "given that"@, "due to"@, "as a result of"@]
}

pub fn reasoning_markers() -> (r: Vec<&'static str>)
    ensures
        str_views(r@) == reasoning_markers_spec(),
{
    let r = vec!["because", "since", "given that", "due to", "as a result of"];
    assert(str_views(r@) =~= reasoning_markers_spec());
    r
}

/// The pieces of `ps` longer than three bytes.
pub open spec fn keep_long(ps: Seq<Seq<char>>) -> Seq<Seq<char>>
    decreases ps.len(),
{
    if ps.len() == 0 {
        seq![]
    } else if byte_len(ps.last()) > 3 {
        keep_long(ps.drop_last()).push(ps.last())
    } else {
        keep_long(ps.drop_last())
    }
}

/// The sentences of a text: split at `.`, `!`, `?` and newlines, trimmed, and kept
/// when longer than three bytes.
pub open spec fn sentences_of(text: Seq<char>) -> Seq<Seq<char>> {
    keep_long(split_by(text, Delim::SentenceEnd).map_values(|p: Seq<char>| trim(p)))
}

pub open spec fn rule1_claim() -> Seq<char> {
    "[UIP rule 1] States an explicit constraint/negation — worth confirming it's honored consistently across the rest of the document."@
}

pub open spec fn rule2_claim() -> Seq<char> {
    "[UIP rule 2] Absolute/certainty language with no nearby hedge, source, or evidence reference in the same sentence."@
}

pub open spec fn rule3_claim() -> Seq<char> {
    "[UIP rule 3] States something is complete/working with no verification method mentioned in the same sentence."@
}

pub open spec fn rule4_claim() -> Seq<char> {
    "[UIP rule 4] Conclusion stated with no visible reasoning connector in this sentence or the one before it."@
}

/// The findings for one sentence `s`, given its lowercase form `low` and whether the
/// sentence before it has a reasoning connector.
pub open spec fn sentence_findings_lower(s: Seq<char>, low: Seq<char>, prev_reasoning: bool) -> Seq<FindingV> {
    let r1 = if any_contained(low, negation_markers_spec()) {
        seq![FindingV { claim: rule1_claim(), evidence: s, severity: Severity::Info }]
    } else {
        seq![]
    };
    let r2 = if any_contained(low, absolute_markers_spec()) && !any_contained(
        low,
        hedge_or_source_markers_spec(),
    ) {
        seq![FindingV { claim: rule2_claim(), evidence: s, severity: Severity::Flag }]
    } else {
        seq![]
    };
    let r3 = if any_contained(low, completion_markers_spec()) && !any_contained(
        low,
        verification_markers_spec(),
    ) {
        seq![FindingV { claim: rule3_claim(), evidence: s, severity: Severity::Flag }]
    } else {
        seq![]
    };
    let this_reasoning = any_contained(low, reasoning_markers_spec());
    let r4 = if any_contained(low, conclusion_markers_spec()) && !prev_reasoning
        && !this_reasoning {
        seq![FindingV { claim: rule4_claim(), evidence: s, severity: Severity::Note }]
    } else {
        seq![]
    };
    r1 + r2 + r3 + r4
}

/// Whether sentence `i` of `ss` follows a sentence with a reasoning connector.
pub open spec fn prev_reasons(ss: Seq<Seq<char>>, i: int) -> bool {
    i > 0 && any_contained(lowercase_of(ss[i - 1]), reasoning_markers_spec())
}

/// The findings for sentence `i` of `ss`.
pub open spec fn sentence_findings(ss: Seq<Seq<char>>, i: int) -> Seq<FindingV> {
    sentence_findings_lower(ss[i], lowercase_of(ss[i]), prev_reasons(ss, i))
}

/// The findings for the first `n` sentences of `ss`, in sentence order.
pub open spec fn uip_findings(ss: Seq<Seq<char>>, n: int) -> Seq<FindingV>
    decreases n,
{
    if n <= 0 {
        seq![]
    } else {
        uip_findings(ss, n - 1) + sentence_findings(ss, n - 1)
    }
}

/// What the UIP-check lens reports for a document.
pub open spec fn uip_spec(text: Seq<char>) -> LensResultV {
    let ss = sentences_of(text);
    if ss.len() == 0 {
        LensResultV {
            lens: Lens::UipCheck,
            source: Source::LauraUip2025,
            attribution_note: ATTRIBUTION_NOTE@,
            findings: seq![],
            data: None,
            error: Some("input text had no checkable sentences"@),
        }
    } else {
        LensResultV {
            lens: Lens::UipCheck,
            source: Source::LauraUip2025,
            attribution_note: ATTRIBUTION_NOTE@,
            findings: uip_findings(ss, ss.len() as int),
            data: None,
            error: None,
        }
    }
}

/// The sentences of a text, split and filtered as `sentences_of` says.
pub fn split_sentences(text: &[char]) -> (r: Vec<Vec<char>>)
    ensures
        views(r@) == sentences_of(text@),
{
    let ps = split_by_exec(text, Delim::SentenceEnd);
    let ghost tv = views(ps@).map_values(|p: Seq<char>| trim(p));
    let mut r: Vec<Vec<char>> = Vec::new();
    let mut k: usize = 0;
    while k < ps.len()
        invariant
            k <= ps@.len(),
            tv == views(ps@).map_values(|p: Seq<char>| trim(p)),
            views(r@) == keep_long(tv.take(k as int)),
        decreases ps.len() - k,
    {
        let t = trim_vec(&ps[k]);
        assert(tv.take(k + 1).drop_last() =~= tv.take(k as int));
        assert(tv.take(k + 1).last() == t@);
        if byte_len_exceeds(&t, 3) {
            let ghost old_v = views(r@);
            r.push(t);
            assert(views(r@) =~= old_v.push(t@));
        }
        k = k + 1;
    }
    assert(tv.take(ps@.len() as int) =~= tv);
    r
}

fn one(claim: &str, evidence: &[char], severity: Severity) -> (r: Finding)
    ensures
        r@ == (FindingV { claim: claim@, evidence: evidence@, severity }),
{
    finding(String::from_str(claim), string_of(evidence), severity)
}

/// The UIP checks on one sentence `s` with its lowercase form `low`, after a
/// sentence with (`prev_reasoning`) or without a reasoning connector; with whether
/// this sentence has one.
pub fn check_sentence(s: &[char], low: &[char], prev_reasoning: bool) -> (r: (Vec<Finding>, bool))
    ensures
        finding_views(r.0@) == sentence_findings_lower(s@, low@, prev_reasoning),
        r.1 == any_contained(low@, reasoning_markers_spec()),
{
    let neg = negation_markers();
    let abs = absolute_markers();
    let hedge = hedge_or_source_markers();
    let comp = completion_markers();
    let verif = verification_markers();
    let concl = conclusion_markers();
    let reason = reasoning_markers();
    let mut findings: Vec<Finding> = Vec::new();
    if any_contained_exec(low, &neg) {
        findings.push(one("[UIP rule 1] States an explicit constraint/negation — worth confirming it's honored consistently across the rest of the document.", s, Severity::Info));
    }
    if any_contained_exec(low, &abs) && !any_contained_exec(low, &hedge) {
        findings.push(one("[UIP rule 2] Absolute/certainty language with no nearby hedge, source, or evidence reference in the same sentence.", s, Severity::Flag));
    }
    if any_contained_exec(low, &comp) && !any_contained_exec(low, &verif) {
        findings.push(one("[UIP rule 3] States something is complete/working with no verification method mentioned in the same sentence.", s, Severity::Flag));
    }
    let this_reasoning = any_contained_exec(low, &reason);
    if any_contained_exec(low, &concl) && !prev_reasoning && !this_reasoning {
        findings.push(one("[UIP rule 4] Conclusion stated with no visible reasoning connector in this sentence or the one before it.", s, Severity::Note));
    }
    assert(finding_views(findings@) =~= sentence_findings_lower(s@, low@, prev_reasoning));
    (findings, this_reasoning)
}

/// Runs the UIP-check lens.
#[verifier::rlimit(40)]
pub fn run(text: &str) -> (r: LensResult)
    ensures
        r@ == uip_spec(text@),
{
    let t = chars_of(text);
    let ss = split_sentences(&t);
    let ghost sv = sentences_of(text@);
    if ss.len() == 0 {
        let r = LensResult {
            lens: Lens::UipCheck,
            source: Source::LauraUip2025,
            attribution_note: String::from_str(ATTRIBUTION_NOTE),
            findings: Vec::new(),
            data: None,
            error: Some(String::from_str("input text had no checkable sentences")),
        };
        assert(r@.findings =~= seq![]);
        return r;
    }
    let mut findings: Vec<Finding> = Vec::new();
    let mut prev_reasoning = false;
    let mut i: usize = 0;
    while i < ss.len()
        invariant
            i <= ss@.len(),
            views(ss@) == sv,
            prev_reasoning == (i > 0 && any_contained(
                lowercase_of(sv[i - 1]),
                reasoning_markers_spec(),
            )),
            finding_views(findings@) == uip_findings(sv, i as int),
        decreases ss.len() - i,
    {
        let s = &ss[i];
        assert(sv[i as int] == s@);
        let low = lowercase(s);
        let ghost before = finding_views(findings@);
        let (fs, this_reasoning) = check_sentence(s, &low, prev_reasoning);
        let mut fs = fs;
        findings.append(&mut fs);
        assert(finding_views(findings@) =~= before + sentence_findings(sv, i as int));
        prev_reasoning = this_reasoning;
        i = i + 1;
    }
    LensResult {
        lens: Lens::UipCheck,
        source: Source::LauraUip2025,
        attribution_note: String::from_str(ATTRIBUTION_NOTE),
        findings,
        data: None,
        error: None,
    }
}

proof fn lemma_keep_long_substrings(ps: Seq<Seq<char>>, s: Seq<char>)
    requires
        forall|k: int| 0 <= k < ps.len() ==> is_substring(#[trigger] ps[k], s),
    ensures
        forall|k: int| 0 <= k < keep_long(ps).len() ==> is_substring(#[trigger] keep_long(ps)[k], s),
    decreases ps.len(),
{
    if ps.len() > 0 {
        let pre = ps.drop_last();
        assert forall|k: int| 0 <= k < pre.len() implies is_substring(#[trigger] pre[k], s) by {
            assert(pre[k] == ps[k]);
        }
        lemma_keep_long_substrings(pre, s);
        let r = keep_long(pre);
        if byte_len(ps.last()) > 3 {
            assert forall|k: int| 0 <= k < r.push(ps.last()).len() implies is_substring(
                #[trigger] r.push(ps.last())[k],
                s,
            ) by {
                if k < r.len() {
                    assert(r.push(ps.last())[k] == r[k]);
                }
            }
        }
    }
}

/// Every sentence of a text is a span of it.
pub proof fn lemma_sentences_substrings(text: Seq<char>)
    ensures
        forall|k: int|
            0 <= k < sentences_of(text).len() ==> is_substring(#[trigger] sentences_of(text)[k], text),
{
    let ps = split_by(text, Delim::SentenceEnd);
    let qs = ps.map_values(|p: Seq<char>| trim(p));
    lemma_split_by_substrings(text, Delim::SentenceEnd);
    lemma_trimmed_substrings(ps, qs, text);
    lemma_keep_long_substrings(qs, text);
}

proof fn lemma_uip_findings_cite(ss: Seq<Seq<char>>, n: int, text: Seq<char>)
    requires
        0 <= n <= ss.len(),
        forall|k: int| 0 <= k < ss.len() ==> is_substring(#[trigger] ss[k], text),
    ensures
        forall|i: int|
            0 <= i < uip_findings(ss, n).len() ==> is_substring(
                #[trigger] uip_findings(ss, n)[i].evidence,
                text,
            ),
    decreases n,
{
    if n > 0 {
        lemma_uip_findings_cite(ss, n - 1, text);
        let pre = uip_findings(ss, n - 1);
        let sf = sentence_findings(ss, n - 1);
        assert(forall|k: int| 0 <= k < sf.len() ==> (#[trigger] sf[k]).evidence == ss[n - 1]);
        assert(is_substring(ss[n - 1], text));
        assert forall|i: int| 0 <= i < (pre + sf).len() implies is_substring(
            #[trigger] (pre + sf)[i].evidence,
            text,
        ) by {
            if i >= pre.len() {
                assert((pre + sf)[i] == sf[i - pre.len()]);
            } else {
                assert((pre + sf)[i] == pre[i]);
            }
        }
    }
}

/// Every finding of the UIP-check lens quotes the document verbatim: its evidence
/// is one of the document's sentences, a span of the text.
pub proof fn law_uip_evidence_verbatim(text: Seq<char>)
    ensures
        forall|i: int|
            0 <= i < uip_spec(text).findings.len() ==> is_substring(
                #[trigger] uip_spec(text).findings[i].evidence,
                text,
            ),
{
    let ss = sentences_of(text);
    lemma_sentences_substrings(text);
    lemma_uip_findings_cite(ss, ss.len() as int, text);
}

proof fn lemma_keep_long_of_empties(ps: Seq<Seq<char>>)
    requires
        forall|k: int| 0 <= k < ps.len() ==> (#[trigger] ps[k]).len() == 0,
    ensures
        keep_long(ps).len() == 0,
    decreases ps.len(),
{
    if ps.len() > 0 {
        let pre = ps.drop_last();
        assert forall|k: int| 0 <= k < pre.len() implies (#[trigger] pre[k]).len() == 0 by {
            assert(pre[k] == ps[k]);
        }
        lemma_keep_long_of_empties(pre);
        assert(ps.last() =~= Seq::<char>::empty());
    }
}

/// A blank text has no sentences.
pub proof fn lemma_blank_no_sentences(text: Seq<char>)
    requires
        trim(text).len() == 0,
    ensures
        sentences_of(text).len() == 0,
{
    lemma_blank_iff_all_ws(text);
    let ps = split_by(text, Delim::SentenceEnd);
    let qs = ps.map_values(|p: Seq<char>| trim(p));
    lemma_split_by_substrings(text, Delim::SentenceEnd);
    assert forall|k: int| 0 <= k < qs.len() implies (#[trigger] qs[k]).len() == 0 by {
        lemma_all_ws_substring(ps[k], text);
        lemma_blank_iff_all_ws(ps[k]);
    }
    lemma_keep_long_of_empties(qs);
}

/// The sentence gives a reason: its lowercase form holds "because", "since",
/// "given that", "due to" or "as a result of".
pub open spec fn gives_reason(low: Seq<char>) -> bool {
    contains(low, "because"@) || contains(low, "since"@) || contains(low, "given that"@) || contains(
        low,
        "due to"@,
    ) || contains(low, "as a result of"@)
}

/// The sentence draws a conclusion: its lowercase form holds "therefore", "thus",
/// "so we ", "in conclusion", "as a result we" or "this proves".
pub open spec fn draws_conclusion(low: Seq<char>) -> bool {
    contains(low, "therefore"@) || contains(low, "thus"@) || contains(low, "so we "@) || contains(
        low,
        "in conclusion"@,
    ) || contains(low, "as a result we"@) || contains(low, "this proves"@)
}

/// Whether `fs` holds a finding with this claim and severity.
pub open spec fn reports(fs: Seq<FindingV>, claim: Seq<char>, sev: Severity) -> bool {
    exists|i: int| 0 <= i < fs.len() && (#[trigger] fs[i]).claim == claim && fs[i].severity == sev
}

proof fn lemma_marker_words(low: Seq<char>)
    ensures
        any_contained(low, reasoning_markers_spec()) == gives_reason(low),
        any_contained(low, conclusion_markers_spec()) == draws_conclusion(low),
{
    let rs = reasoning_markers_spec();
    let cs = conclusion_markers_spec();
    if gives_reason(low) {
        if contains(low, "because"@) {
            assert(contains(low, rs[0]));
        } else if contains(low, "since"@) {
            assert(contains(low, rs[1]));
        } else if contains(low, "given that"@) {
            assert(contains(low, rs[2]));
        } else if contains(low, "due to"@) {
            assert(contains(low, rs[3]));
        } else {
            assert(contains(low, rs[4]));
        }
    }
    if draws_conclusion(low) {
        if contains(low, "therefore"@) {
            assert(contains(low, cs[0]));
        } else if contains(low, "thus"@) {
            assert(contains(low, cs[1]));
        } else if contains(low, "so we "@) {
            assert(contains(low, cs[2]));
        } else if contains(low, "in conclusion"@) {
            assert(contains(low, cs[3]));
        } else if contains(low, "as a result we"@) {
            assert(contains(low, cs[4]));
        } else {
            assert(contains(low, cs[5]));
        }
    }
}

proof fn lemma_rule_claims_distinct()
    ensures
        rule1_claim() != rule2_claim(),
        rule1_claim() != rule3_claim(),
        rule1_claim() != rule4_claim(),
        rule2_claim() != rule3_claim(),
        rule2_claim() != rule4_claim(),
        rule3_claim() != rule4_claim(),
{
    reveal_strlit("[UIP rule 1] States an explicit constraint/negation — worth confirming it's honored consistently across the rest of the document.");
    reveal_strlit("[UIP rule 2] Absolute/certainty language with no nearby hedge, source, or evidence reference in the same sentence.");
    reveal_strlit("[UIP rule 3] States something is complete/working with no verification method mentioned in the same sentence.");
    reveal_strlit("[UIP rule 4] Conclusion stated with no visible reasoning connector in this sentence or the one before it.");
    assert(rule1_claim()[10] != rule2_claim()[10]);
    assert(rule1_claim()[10] != rule3_claim()[10]);
    assert(rule1_claim()[10] != rule4_claim()[10]);
    assert(rule2_claim()[10] != rule3_claim()[10]);
    assert(rule2_claim()[10] != rule4_claim()[10]);
    assert(rule3_claim()[10] != rule4_claim()[10]);
}

/// The four UIP rules on one sentence `s` with lowercase form `low`: a constraint
/// is noted (Info) when it states a negation; an absolute claim is flagged when it
/// has no hedge or source; a completion claim is flagged when it names no
/// verification; a conclusion gets a note exactly when it gives no reason and the
/// sentence before gave none either. Every finding cites the sentence.
pub proof fn law_uip_sentence_rules(s: Seq<char>, low: Seq<char>, prev_reasoning: bool)
    ensures
        reports(sentence_findings_lower(s, low, prev_reasoning), rule1_claim(), Severity::Info)
            == any_contained(low, negation_markers_spec()),
        reports(sentence_findings_lower(s, low, prev_reasoning), rule2_claim(), Severity::Flag)
            == (any_contained(low, absolute_markers_spec()) && !any_contained(low, hedge_or_source_markers_spec())),
        reports(sentence_findings_lower(s, low, prev_reasoning), rule3_claim(), Severity::Flag)
            == (any_contained(low, completion_markers_spec()) && !any_contained(low, verification_markers_spec())),
        reports(sentence_findings_lower(s, low, prev_reasoning), rule4_claim(), Severity::Note)
            == (draws_conclusion(low) && !prev_reasoning && !gives_reason(low)),
        gives_reason(low) ==> !reports(sentence_findings_lower(s, low, prev_reasoning), rule4_claim(), Severity::Note),
        forall|i: int|
            0 <= i < sentence_findings_lower(s, low, prev_reasoning).len() ==> (
            #[trigger] sentence_findings_lower(s, low, prev_reasoning)[i]).evidence == s,
        sentence_findings_lower(s, low, prev_reasoning).len() <= 4,
{
    lemma_marker_words(low);
    lemma_rule_claims_distinct();
    let fs = sentence_findings_lower(s, low, prev_reasoning);
    let c1 = any_contained(low, negation_markers_spec());
    let c2 = any_contained(low, absolute_markers_spec()) && !any_contained(low, hedge_or_source_markers_spec());
    let c3 = any_contained(low, completion_markers_spec()) && !any_contained(low, verification_markers_spec());
    let c4 = any_contained(low, conclusion_markers_spec()) && !prev_reasoning && !any_contained(
        low,
        reasoning_markers_spec(),
    );
    let n1: int = if c1 { 1 } else { 0 };
    let n2: int = if c2 { 1 } else { 0 };
    let n3: int = if c3 { 1 } else { 0 };
    assert(fs.len() == n1 + n2 + n3 + if c4 { 1int } else { 0int });
    assert forall|i: int| 0 <= i < fs.len() implies {
        &&& (#[trigger] fs[i]).evidence == s
        &&& (fs[i].claim == rule1_claim() ==> c1 && fs[i].severity == Severity::Info)
        &&& (fs[i].claim == rule2_claim() ==> c2 && fs[i].severity == Severity::Flag)
        &&& (fs[i].claim == rule3_claim() ==> c3 && fs[i].severity == Severity::Flag)
        &&& (fs[i].claim == rule4_claim() ==> c4 && fs[i].severity == Severity::Note)
    } by {
        if i < n1 {
            assert(fs[i].claim == rule1_claim());
        } else if i < n1 + n2 {
            assert(fs[i].claim == rule2_claim());
        } else if i < n1 + n2 + n3 {
            assert(fs[i].claim == rule3_claim());
        } else {
            assert(fs[i].claim == rule4_claim());
        }
    }
    if c1 {
        assert(fs[0].claim == rule1_claim());
    }
    if c2 {
        assert(fs[n1].claim == rule2_claim());
    }
    if c3 {
        assert(fs[n1 + n2].claim == rule3_claim());
    }
    if c4 {
        assert(fs[n1 + n2 + n3].claim == rule4_claim());
    }
}

/// `f` is finding `j` of sentence `k` of `ss`, for some `k < n`.
spec fn from_sentence(ss: Seq<Seq<char>>, n: int, f: FindingV) -> bool {
    exists|k: int, j: int|
        0 <= k < n && 0 <= j < sentence_findings(ss, k).len() && #[trigger] sentence_findings(ss, k)[j] == f
}

/// `f` is one of `fs`.
spec fn among(fs: Seq<FindingV>, f: FindingV) -> bool {
    exists|i: int| 0 <= i < fs.len() && #[trigger] fs[i] == f
}

proof fn lemma_uip_findings_members(ss: Seq<Seq<char>>, n: int)
    requires
        0 <= n <= ss.len(),
    ensures
        forall|i: int|
            0 <= i < uip_findings(ss, n).len() ==> from_sentence(ss, n, #[trigger] uip_findings(ss, n)[i]),
        forall|k: int, j: int|
            0 <= k < n && 0 <= j < sentence_findings(ss, k).len() ==> among(
                uip_findings(ss, n),
                #[trigger] sentence_findings(ss, k)[j],
            ),
    decreases n,
{
    if n > 0 {
        let m: int = n - 1;
        lemma_uip_findings_members(ss, m);
        let pre = uip_findings(ss, m);
        let sf = sentence_findings(ss, m);
        let all = uip_findings(ss, n);
        assert(all == pre + sf);
        assert forall|i: int| 0 <= i < all.len() implies from_sentence(ss, n, #[trigger] all[i]) by {
            if i < pre.len() {
                assert(all[i] == pre[i]);
                assert(from_sentence(ss, m, pre[i]));
                let (k, j) = choose|k: int, j: int|
                    0 <= k < m && 0 <= j < sentence_findings(ss, k).len() && #[trigger] sentence_findings(ss, k)[j]
                        == pre[i];
                assert(sentence_findings(ss, k)[j] == all[i]);
            } else {
                let j = i - pre.len();
                assert(all[i] == sf[j]);
                assert(sentence_findings(ss, m)[j] == all[i]);
            }
        }
        assert forall|k: int, j: int| 0 <= k < n && 0 <= j < sentence_findings(ss, k).len() implies among(
            all,
            #[trigger] sentence_findings(ss, k)[j],
        ) by {
            if k < m {
                assert(among(pre, sentence_findings(ss, k)[j]));
                let i = choose|i: int| 0 <= i < pre.len() && #[trigger] pre[i] == sentence_findings(ss, k)[j];
                assert(all[i] == pre[i]);
            } else {
                assert(all[pre.len() + j] == sf[j]);
            }
        }
    }
}

/// Rule 4 over a whole document: every conclusion note cites a sentence of the text
/// that draws a conclusion while neither it nor the sentence before it gives a
/// reason; and every such sentence gets a conclusion note. In particular a
/// sentence that gives a reason is never cited by a conclusion note for itself.
pub proof fn law_uip_conclusions_need_reasons(text: Seq<char>)
    ensures
        ({
            let ss = sentences_of(text);
            let fs = uip_spec(text).findings;
            &&& forall|i: int|
                0 <= i < fs.len() && (#[trigger] fs[i]).claim == rule4_claim() ==> exists|k: int|
                    0 <= k < ss.len() && fs[i].evidence == #[trigger] ss[k] && fs[i].severity == Severity::Note
                        && draws_conclusion(lowercase_of(ss[k])) && !gives_reason(lowercase_of(ss[k])) && (k
                        == 0 || !gives_reason(lowercase_of(ss[k - 1])))
            &&& forall|k: int|
                0 <= k < ss.len() && draws_conclusion(lowercase_of(#[trigger] ss[k])) && !gives_reason(
                    lowercase_of(ss[k]),
                ) && (k == 0 || !gives_reason(lowercase_of(ss[k - 1]))) ==> exists|i: int|
                    0 <= i < fs.len() && fs[i].claim == rule4_claim() && #[trigger] fs[i].evidence == ss[k]
        }),
{
    let ss = sentences_of(text);
    let fs = uip_spec(text).findings;
    lemma_rule_claims_distinct();
    if ss.len() > 0 {
        let n = ss.len() as int;
        lemma_uip_findings_members(ss, n);
        assert(fs == uip_findings(ss, n));
        assert forall|i: int| 0 <= i < fs.len() && (#[trigger] fs[i]).claim == rule4_claim() implies exists|k: int|
            0 <= k < ss.len() && fs[i].evidence == #[trigger] ss[k] && fs[i].severity == Severity::Note
                && draws_conclusion(lowercase_of(ss[k])) && !gives_reason(lowercase_of(ss[k])) && (k == 0
                || !gives_reason(lowercase_of(ss[k - 1]))) by {
            assert(from_sentence(ss, n, fs[i]));
            let (k, j) = choose|k: int, j: int|
                0 <= k < n && 0 <= j < sentence_findings(ss, k).len() && #[trigger] sentence_findings(ss, k)[j]
                    == fs[i];
            lemma_sentence_claim_rule4(ss[k], lowercase_of(ss[k]), prev_reasons(ss, k), j);
            lemma_marker_words(lowercase_of(ss[k]));
            if k > 0 {
                lemma_marker_words(lowercase_of(ss[k - 1]));
            }
            law_uip_sentence_rules(ss[k], lowercase_of(ss[k]), prev_reasons(ss, k));
        }
        assert forall|k: int|
            0 <= k < ss.len() && draws_conclusion(lowercase_of(#[trigger] ss[k])) && !gives_reason(
                lowercase_of(ss[k]),
            ) && (k == 0 || !gives_reason(lowercase_of(ss[k - 1]))) implies exists|i: int|
            0 <= i < fs.len() && fs[i].claim == rule4_claim() && #[trigger] fs[i].evidence == ss[k] by {
            let sf = sentence_findings(ss, k);
            law_uip_sentence_rules(ss[k], lowercase_of(ss[k]), prev_reasons(ss, k));
            if k > 0 {
                lemma_marker_words(lowercase_of(ss[k - 1]));
            }
            assert(reports(sf, rule4_claim(), Severity::Note));
            let j = choose|j: int| 0 <= j < sf.len() && (#[trigger] sf[j]).claim == rule4_claim() && sf[j].severity
                == Severity::Note;
            assert(among(fs, sentence_findings(ss, k)[j]));
            let i = choose|i: int| 0 <= i < fs.len() && #[trigger] fs[i] == sentence_findings(ss, k)[j];
            assert(fs[i].evidence == ss[k]);
        }
    }
}

proof fn lemma_sentence_claim_rule4(s: Seq<char>, low: Seq<char>, prev_reasoning: bool, j: int)
    requires
        0 <= j < sentence_findings_lower(s, low, prev_reasoning).len(),
        sentence_findings_lower(s, low, prev_reasoning)[j].claim == rule4_claim(),
    ensures
        sentence_findings_lower(s, low, prev_reasoning)[j].severity == Severity::Note,
        draws_conclusion(low) && !prev_reasoning && !gives_reason(low),
{
    law_uip_sentence_rules(s, low, prev_reasoning);
    let fs = sentence_findings_lower(s, low, prev_reasoning);
    lemma_rule_claims_distinct();
    lemma_marker_words(low);
    let c1 = any_contained(low, negation_markers_spec());
    let c2 = any_contained(low, absolute_markers_spec()) && !any_contained(low, hedge_or_source_markers_spec());
    let c3 = any_contained(low, completion_markers_spec()) && !any_contained(low, verification_markers_spec());
    let n1: int = if c1 { 1 } else { 0 };
    let n2: int = if c2 { 1 } else { 0 };
    let n3: int = if c3 { 1 } else { 0 };
    if j < n1 {
        assert(fs[j].claim == rule1_claim());
    } else if j < n1 + n2 {
        assert(fs[j].claim == rule2_claim());
    } else if j < n1 + n2 + n3 {
        assert(fs[j].claim == rule3_claim());
    }
}

} // verus!
