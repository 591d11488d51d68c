//! The ecocentric lens: whether the document mentions any of four stakeholder /
//! impact categories (environmental, downstream, long-term, systemic).
//!
//! This lens is entirely this project's own addition (`Source::RfiIrfosAddition`),
//! not part of Laura Serna Gaviria's framework. It is a blunt keyword-category
//! presence check, not a relevance judgment.
use vstd::prelude::*;

use crate::schema::{
    finding, finding_views, join3, string_views, Finding, FindingV, LensData, LensDataV, Lens,
    LensResult, LensResultV, Severity, Source,
};
use crate::strs::{
    any_contained, any_contained_exec, chars_of, is_blank, lowercase, lowercase_of, str_views,
    string_of, trim, quotes_or_cut,
};
use crate::text::{anchor, anchor_chars, lemma_anchor_quotes};

verus! {

pub const ATTRIBUTION_NOTE: &'static str = "This lens is RFI-IRFOS's own addition and is NOT part of Laura Serna Gaviria's published Human-AI Co-Evolution framework (UIP/EIA/8-Layer/CCET) in any way. It ships in this tool by the co-designing team's own choice. Findings are a blunt keyword-category presence check, not a relevance judgment — it cannot tell whether a missing category is actually relevant to your document, only that its keywords don't appear. Read every finding with that limitation in mind, especially for documents where a category is plausibly irrelevant.";

/// The four categories, in checking order.
pub open spec fn category_names_spec() -> Seq<Seq<char>> {
    seq!["environmental/ecological impact"@, "downstream/third-party stakeholders"@, "long-term/second-order consequences"@, "at-scale/systemic effects"@]
}

pub fn category_names() -> (r: Vec<&'static str>)
    ensures
        str_views(r@) == category_names_spec(),
{
    let r = vec!["environmental/ecological impact", "downstream/third-party stakeholders", "long-term/second-order consequences", "at-scale/systemic effects"];
    assert(str_views(r@) =~= category_names_spec());
    r
}

/// Keywords of category 'environmental/ecological impact'.
pub open spec fn category_0_keywords_spec() -> Seq<Seq<char>> {
    seq!["environment"@, "sustainab"@, "carbon"@, "ecolog"@, "energy use"@, "resource use"@]
}

pub fn category_0_keywords() -> (r: Vec<&'static str>)
    ensures
        str_views(r@) == category_0_keywords_spec(),
{
    let r = vec!["environment", "sustainab", "carbon", "ecolog", "energy use", "resource use"];
    assert(str_views(r@) =~= category_0_keywords_spec());
    r
}

/// Keywords of category 'downstream/third-party stakeholders'.
pub open spec fn category_1_keywords_spec() -> Seq<Seq<char>> {
    seq!["downstream"@, "third part"@, "customer impact"@, "community"@, "affected users"@, "external stakeholder"@]
}

pub fn category_1_keywords() -> (r: Vec<&'static str>)
    ensures
        str_views(r@) == category_1_keywords_spec(),
{
    let r = vec!["downstream", "third part", "customer impact", "community", "affected users", "external stakeholder"];
    assert(str_views(r@) =~= category_1_keywords_spec());
    r
}

/// Keywords of category 'long-term/second-order consequences'.
pub open spec fn category_2_keywords_spec() -> Seq<Seq<char>> {
    seq!["long-term"@, "long term"@, "years from now"@, "future generations"@, "second-order"@, "unintended consequence"@, "knock-on"@]
}

pub fn category_2_keywords() -> (r: Vec<&'static str>)
    ensures
        str_views(r@) == category_2_keywords_spec(),
{
    let r = vec!["long-term", "long term", "years from now", "future generations", "second-order", "unintended consequence", "knock-on"];
    assert(str_views(r@) =~= category_2_keywords_spec());
    r
}

/// Keywords of category 'at-scale/systemic effects'.
pub open spec fn category_3_keywords_spec() -> Seq<Seq<char>> {
    seq!["at scale"@, "if adopted broadly"@, "systemic"@, "industry-wide"@, "widespread adoption"@]
}

pub fn category_3_keywords() -> (r: Vec<&'static str>)
    ensures
        str_views(r@) == category_3_keywords_spec(),
{
    let r = vec!["at scale", "if adopted broadly", "systemic", "industry-wide", "widespread adoption"];
    assert(str_views(r@) =~= category_3_keywords_spec());
    r
}

/// The keywords of category `k`.
pub open spec fn category_keywords(k: int) -> Seq<Seq<char>> {
    if k == 0 {
        category_0_keywords_spec()
    } else if k == 1 {
        category_1_keywords_spec()
    } else if k == 2 {
        category_2_keywords_spec()
    } else {
        category_3_keywords_spec()
    }
}

fn category_keywords_exec(k: usize) -> (r: Vec<&'static str>)
    requires
        k < 4,
    ensures
        str_views(r@) == category_keywords(k as int),
{
    if k == 0 {
        category_0_keywords()
    } else if k == 1 {
        category_1_keywords()
    } else if k == 2 {
        category_2_keywords()
    } else {
        category_3_keywords()
    }
}

/// The names of the first `n` categories that `low` mentions (`mentioned == true`)
/// or does not mention (`mentioned == false`), in checking order.
pub open spec fn categories_where(low: Seq<char>, n: int, mentioned: bool) -> Seq<Seq<char>>
    decreases n,
{
    if n <= 0 {
        seq![]
    } else if any_contained(low, category_keywords(n - 1)) == mentioned {
        categories_where(low, n - 1, mentioned).push(category_names_spec()[n - 1])
    } else {
        categories_where(low, n - 1, mentioned)
    }
}

pub open spec fn absent_claim(name: Seq<char>) -> Seq<char> {
    "No mention found of '"@ + name
        + "' — consider whether this is relevant to your document; this lens cannot judge relevance, only keyword presence."@
}

pub open spec fn none_claim() -> Seq<char> {
    "None of the four stakeholder/impact categories this lens checks for were mentioned anywhere in the document."@
}

/// What the ecocentric lens reports, given the text and its lowercase form `low`.
pub open spec fn ecocentric_spec_lower(text: Seq<char>, low: Seq<char>) -> LensResultV {
    if trim(text).len() == 0 {
        LensResultV {
            lens: Lens::Ecocentric,
            source: Source::RfiIrfosAddition,
            attribution_note: ATTRIBUTION_NOTE@,
            findings: seq![],
            data: None,
            error: Some("input text is empty"@),
        }
    } else {
        let present = categories_where(low, 4, true);
        let absent = categories_where(low, 4, false);
        let ev = anchor(text, 200);
        let notes = absent.map_values(
            |name: Seq<char>|
                FindingV { claim: absent_claim(name), evidence: ev, severity: Severity::Note },
        );
        LensResultV {
            lens: Lens::Ecocentric,
            source: Source::RfiIrfosAddition,
            attribution_note: ATTRIBUTION_NOTE@,
            findings: if present.len() == 0 {
                seq![FindingV { claim: none_claim(), evidence: ev, severity: Severity::Info }]
                    + notes
            } else {
                notes
            },
            data: Some(LensDataV::Categories { mentioned: present, absent }),
            error: None,
        }
    }
}

/// What the ecocentric lens reports for a document.
pub open spec fn ecocentric_spec(text: Seq<char>) -> LensResultV {
    ecocentric_spec_lower(text, lowercase_of(text))
}

/// Runs the ecocentric lens.
pub fn run(text: &str) -> (r: LensResult)
    ensures
        r@ == ecocentric_spec(text@),
{
    let t = chars_of(text);
    let low = lowercase(&t);
    run_lower(&t, &low)
}

/// Runs the ecocentric lens over the text `t` and its lowercase form `low`.
pub fn run_lower(t: &[char], low: &[char]) -> (r: LensResult)
    ensures
        r@ == ecocentric_spec_lower(t@, low@),
{
    if is_blank(t) {
        let r = LensResult {
            lens: Lens::Ecocentric,
            source: Source::RfiIrfosAddition,
            attribution_note: String::from_str(ATTRIBUTION_NOTE),
            findings: Vec::new(),
            data: None,
            error: Some(String::from_str("input text is empty")),
        };
        assert(r@.findings =~= seq![]);
        return r;
    }
    let names = category_names();
    let mut present: Vec<String> = Vec::new();
    let mut absent: Vec<String> = Vec::new();
    let mut k: usize = 0;
    assert(str_views(names@).len() == 4);
    while k < 4
        invariant
            k <= 4,
            names@.len() == 4,
            str_views(names@) == category_names_spec(),
            string_views(present@) == categories_where(low@, k as int, true),
            string_views(absent@) == categories_where(low@, k as int, false),
        decreases 4 - k,
    {
        let kw = category_keywords_exec(k);
        assert(str_views(names@)[k as int] == names@[k as int]@);
        let ghost old_p = string_views(present@);
        let ghost old_a = string_views(absent@);
        if any_contained_exec(low, &kw) {
            present.push(String::from_str(names[k]));
            assert(string_views(present@) =~= old_p.push(names@[k as int]@));
        } else {
            absent.push(String::from_str(names[k]));
            assert(string_views(absent@) =~= old_a.push(names@[k as int]@));
        }
        k = k + 1;
    }
    let ev = anchor_chars(t, 200);
    let ghost evs = anchor(t@, 200);
    let mut findings: Vec<Finding> = Vec::new();
    if present.len() == 0 {
        findings.push(finding(String::from_str("None of the four stakeholder/impact categories this lens checks for were mentioned anywhere in the document."), string_of(&ev), Severity::Info));
    }
    let ghost head = finding_views(findings@);
    let ghost av = string_views(absent@);
    let mut j: usize = 0;
    while j < absent.len()
        invariant
            j <= absent@.len(),
            av == string_views(absent@),
            ev@ == evs,
            finding_views(findings@) == head + av.take(j as int).map_values(
                |name: Seq<char>|
                    FindingV { claim: absent_claim(name), evidence: evs, severity: Severity::Note },
            ),
        decreases absent.len() - j,
    {
        let claim = join3("No mention found of '", absent[j].as_str(), "' — consider whether this is relevant to your document; this lens cannot judge relevance, only keyword presence.");
        let f = finding(claim, string_of(&ev), Severity::Note);
        let ghost old_f = finding_views(findings@);
        findings.push(f);
        assert(av[j as int] == absent@[j as int]@);
        assert(finding_views(findings@) =~= old_f.push(f@));
        assert(av.take(j + 1) =~= av.take(j as int).push(av[j as int]));
        assert(finding_views(findings@) =~= head + av.take(j + 1).map_values(
            |name: Seq<char>|
                FindingV { claim: absent_claim(name), evidence: evs, severity: Severity::Note },
        ));
        j = j + 1;
    }
    assert(av.take(av.len() as int) =~= av);
    assert(head.len() == 0 ==> head =~= seq![]);
    let r = LensResult {
        lens: Lens::Ecocentric,
        source: Source::RfiIrfosAddition,
        attribution_note: String::from_str(ATTRIBUTION_NOTE),
        findings,
        data: Some(LensData::Categories { mentioned: present, absent }),
        error: None,
    };
    proof {
        let sp = ecocentric_spec_lower(t@, low@);
        assert(r@.data == sp.data);
        assert(r@.findings == sp.findings);
    }
    r
}

/// Every finding of the ecocentric lens quotes the document: a span of it, or a
/// span cut short and marked with `…`.
pub proof fn law_ecocentric_evidence_quotes(text: Seq<char>)
    ensures
        forall|i: int|
            0 <= i < ecocentric_spec(text).findings.len() ==> quotes_or_cut(
                #[trigger] ecocentric_spec(text).findings[i].evidence,
                text,
            ),
{
    if trim(text).len() > 0 {
        let ev = anchor(text, 200);
        lemma_anchor_quotes(text, 200);
        let fs = ecocentric_spec(text).findings;
        assert forall|i: int| 0 <= i < fs.len() implies quotes_or_cut(#[trigger] fs[i].evidence, text) by {
            assert(fs[i].evidence == ev);
        }
    }
}

/// Whether the lowercase text `low` mentions category `k`: one of its keywords
/// occurs in it.
pub open spec fn category_mentioned(low: Seq<char>, k: int) -> bool {
    any_contained(low, category_keywords(k))
}

proof fn lemma_category_names_distinct()
    ensures
        forall|i: int, j: int|
            0 <= i < 4 && 0 <= j < 4 && i != j ==> #[trigger] category_names_spec()[i]
                != #[trigger] category_names_spec()[j],
{
    reveal_strlit("environmental/ecological impact");
    reveal_strlit("downstream/third-party stakeholders");
    reveal_strlit("long-term/second-order consequences");
    reveal_strlit("at-scale/systemic effects");
    let ns = category_names_spec();
    assert forall|i: int, j: int| 0 <= i < 4 && 0 <= j < 4 && i != j implies #[trigger] ns[i]
        != #[trigger] ns[j] by {
        assert(ns[i][0] != ns[j][0]);
    }
}

proof fn lemma_categories_where_split(low: Seq<char>, n: int)
    requires
        0 <= n <= 4,
    ensures
        categories_where(low, n, true).len() + categories_where(low, n, false).len() == n,
        forall|b: bool, x: Seq<char>|
            #[trigger] categories_where(low, n, b).contains(x) ==> exists|k: int|
                0 <= k < n && category_names_spec()[k] == x && category_mentioned(low, k) == b,
        forall|b: bool, k: int|
            0 <= k < n ==> (#[trigger] categories_where(low, n, b).contains(category_names_spec()[k])
                <==> category_mentioned(low, k) == b),
    decreases n,
{
    if n > 0 {
        lemma_categories_where_split(low, n - 1);
        lemma_category_names_distinct();
        let ns = category_names_spec();
        let last = ns[n - 1];
        assert forall|b: bool, x: Seq<char>|
            #[trigger] categories_where(low, n, b).contains(x) implies exists|k: int|
                0 <= k < n && category_names_spec()[k] == x && category_mentioned(low, k) == b by {
            let pre = categories_where(low, n - 1, b);
            let all = categories_where(low, n, b);
            let m = choose|m: int| 0 <= m < all.len() && all[m] == x;
            if m < pre.len() {
                assert(all[m] == pre[m]);
                assert(pre.contains(x));
            } else {
                assert(x == last);
                assert(category_mentioned(low, n - 1) == b);
            }
        }
        assert forall|b: bool, k: int|
            0 <= k < n implies (#[trigger] categories_where(low, n, b).contains(category_names_spec()[k])
                <==> category_mentioned(low, k) == b) by {
            let pre = categories_where(low, n - 1, b);
            let all = categories_where(low, n, b);
            let x = ns[k];
            if all.contains(x) {
                let m = choose|m: int| 0 <= m < all.len() && all[m] == x;
                if m < pre.len() {
                    assert(all[m] == pre[m]);
                    assert(pre.contains(x));
                    if k == n - 1 {
                        let j = choose|j: int|
                            0 <= j < n - 1 && category_names_spec()[j] == x && category_mentioned(low, j) == b;
                        assert(ns[j] != ns[n - 1]);
                    }
                } else {
                    assert(x == last);
                    if k != n - 1 {
                        assert(ns[k] != ns[n - 1]);
                    }
                }
            } else {
                if category_mentioned(low, k) == b {
                    if k < n - 1 {
                        assert(pre.contains(x));
                        let m = choose|m: int| 0 <= m < pre.len() && pre[m] == x;
                        assert(all[m] == pre[m]);
                    } else {
                        assert(all[all.len() - 1] == x);
                    }
                }
            }
        }
    }
}

/// The ecocentric lens on a non-blank text: the four category names split into the
/// mentioned ones and the absent ones, each list in checking order, by whether one
/// of the category's keywords occurs in the lowercased text; one note per absent
/// name, in order, led by an informational finding exactly when no category is
/// mentioned; no flags; every finding cites the closing block of the text.
pub proof fn law_ecocentric_categories(text: Seq<char>)
    requires
        trim(text).len() > 0,
    ensures
        ({
            let r = ecocentric_spec(text);
            let low = lowercase_of(text);
            let mentioned = categories_where(low, 4, true);
            let absent = categories_where(low, 4, false);
            let lead: int = if mentioned.len() == 0 { 1 } else { 0 };
            &&& r.error is None
            &&& r.data == Some(LensDataV::Categories { mentioned, absent })
            &&& mentioned.len() + absent.len() == 4
            &&& forall|k: int|
                0 <= k < 4 ==> (#[trigger] mentioned.contains(category_names_spec()[k])
                    <==> category_mentioned(low, k))
            &&& forall|k: int|
                0 <= k < 4 ==> (#[trigger] absent.contains(category_names_spec()[k])
                    <==> !category_mentioned(low, k))
            &&& r.findings.len() == lead + absent.len()
            &&& lead == 1 ==> r.findings[0].severity == Severity::Info && r.findings[0].claim
                == none_claim()
            &&& forall|j: int|
                0 <= j < absent.len() ==> #[trigger] r.findings[lead + j] == (FindingV {
                    claim: absent_claim(absent[j]),
                    evidence: anchor(text, 200),
                    severity: Severity::Note,
                })
            &&& forall|i: int|
                0 <= i < r.findings.len() ==> (#[trigger] r.findings[i]).severity != Severity::Flag
                    && r.findings[i].evidence == anchor(text, 200)
        }),
{
    let low = lowercase_of(text);
    lemma_categories_where_split(low, 4);
    let r = ecocentric_spec(text);
    let mentioned = categories_where(low, 4, true);
    let absent = categories_where(low, 4, false);
    let lead: int = if mentioned.len() == 0 { 1 } else { 0 };
    assert forall|k: int| 0 <= k < 4 implies (#[trigger] mentioned.contains(category_names_spec()[k])
        <==> category_mentioned(low, k)) by {
        assert(mentioned.contains(category_names_spec()[k]) <==> category_mentioned(low, k) == true);
    }
    assert forall|k: int| 0 <= k < 4 implies (#[trigger] absent.contains(category_names_spec()[k])
        <==> !category_mentioned(low, k)) by {
        assert(absent.contains(category_names_spec()[k]) <==> category_mentioned(low, k) == false);
    }
    assert forall|j: int| 0 <= j < absent.len() implies #[trigger] r.findings[lead + j] == (FindingV {
        claim: absent_claim(absent[j]),
        evidence: anchor(text, 200),
        severity: Severity::Note,
    }) by {}
    assert forall|i: int| 0 <= i < r.findings.len() implies (#[trigger] r.findings[i]).severity
        != Severity::Flag && r.findings[i].evidence == anchor(text, 200) by {
        if i >= lead {
            assert(r.findings[lead + (i - lead)] == r.findings[i]);
        }
    }
}

} // verus!
