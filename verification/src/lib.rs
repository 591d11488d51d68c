//! Structured, deterministic review of plans and documents, grounded in Laura Serna
//! Gaviria's Human–AI Co-Evolution research: four independent lenses over a text
//! (`eight_layer`, `uip_check`, `resonance`, `ecocentric`) and a fifteen-agent team
//! review with a synthesis layer (`agents`, `orchestrator`). Every lens and agent is
//! a function of the submitted text; every finding quotes the span it reacts to.
use vstd::prelude::*;

pub mod strs;
pub mod text;
pub mod schema;
pub mod order;
pub mod lenses;
pub mod similarity;
pub mod agents;
pub mod lcs;
pub mod orchestrator;
pub mod mcp;
pub mod api;

use crate::lenses::{ecocentric, eight_layer, uip_check};
use crate::schema::{
    copy_lens_result, FindingV, Lens, LensResult, LensResultV, ReviewRequest, ReviewResponse,
    Severity, Source,
};
use crate::strs::{decimal, decimal_string, is_substring, split_by, str_views, trim, Delim};

verus! {

pub open spec fn lens_views(v: Seq<LensResult>) -> Seq<LensResultV> {
    v.map_values(|r: LensResult| r@)
}

/// What one requested lens reports; the resonance result is computed by the
/// caller (its scores are floating-point) and passed in.
pub open spec fn run_lens_spec(lens: Lens, text: Seq<char>, resonance: LensResultV) -> LensResultV {
    match lens {
        Lens::EightLayer => eight_layer::eight_layer_spec(text),
        Lens::UipCheck => uip_check::uip_spec(text),
        Lens::Resonance => resonance,
        Lens::Ecocentric => ecocentric::ecocentric_spec(text),
    }
}

/// The number of findings of severity `sev`.
pub open spec fn count_sev(fs: Seq<FindingV>, sev: Severity) -> nat
    decreases fs.len(),
{
    if fs.len() == 0 {
        0
    } else {
        count_sev(fs.drop_last(), sev) + if fs.last().severity == sev {
            1nat
        } else {
            0nat
        }
    }
}

/// The results that ran (`failed == false`) or failed (`failed == true`), in order.
pub open spec fn results_where(rs: Seq<LensResultV>, failed: bool) -> Seq<LensResultV>
    decreases rs.len(),
{
    if rs.len() == 0 {
        seq![]
    } else if (rs.last().error is Some) == failed {
        results_where(rs.drop_last(), failed).push(rs.last())
    } else {
        results_where(rs.drop_last(), failed)
    }
}

/// The number of findings of severity `sev` across `rs`.
pub open spec fn sev_total(rs: Seq<LensResultV>, sev: Severity) -> nat
    decreases rs.len(),
{
    if rs.len() == 0 {
        0
    } else {
        sev_total(rs.drop_last(), sev) + count_sev(rs.last().findings, sev)
    }
}

/// The number of findings across `rs`.
pub open spec fn total_findings(rs: Seq<LensResultV>) -> nat
    decreases rs.len(),
{
    if rs.len() == 0 {
        0
    } else {
        total_findings(rs.drop_last()) + rs.last().findings.len()
    }
}

/// `list` joined with `sep` between consecutive items.
pub open spec fn join(list: Seq<Seq<char>>, sep: Seq<char>) -> Seq<char>
    decreases list.len(),
{
    if list.len() == 0 {
        seq![]
    } else if list.len() == 1 {
        list[0]
    } else {
        join(list.drop_last(), sep) + sep + list.last()
    }
}

pub open spec fn lens_names(rs: Seq<LensResultV>) -> Seq<Seq<char>> {
    rs.map_values(|r: LensResultV| r.lens.name())
}

pub open spec fn all_failed_summary() -> Seq<char> {
    "All requested lenses failed to run — see per-lens `error` fields for details. No review could be produced."@
}

/// The one-paragraph summary of a review.
pub open spec fn summary_spec(rs: Seq<LensResultV>) -> Seq<char> {
    let ran = results_where(rs, false);
    let failed = results_where(rs, true);
    if ran.len() == 0 {
        all_failed_summary()
    } else {
        let flags = sev_total(ran, Severity::Flag);
        let notes = sev_total(ran, Severity::Note);
        let p1 = "Ran "@ + decimal(ran.len()) + " lens(es): "@ + join(lens_names(ran), ", "@) + "."@;
        let p2 = if flags > 0 || notes > 0 {
            decimal(flags) + " flagged issue(s), "@ + decimal(notes)
                + " note(s) worth a second look — see per-lens findings for what and where."@
        } else {
            "No significant issues flagged across the requested lenses."@
        };
        if failed.len() > 0 {
            p1 + " "@ + p2 + " "@ + decimal(failed.len()) + " lens(es) failed to run ("@ + join(
                lens_names(failed),
                ", "@,
            ) + ") — treat this review as partial, not a clean bill of health."@
        } else {
            p1 + " "@ + p2
        }
    }
}

/// `list` joined with `sep`.
pub fn join_strs(list: &Vec<&str>, sep: &str) -> (r: String)
    ensures
        r@ == join(str_views(list@), sep@),
{
    let ghost lv = str_views(list@);
    let mut r = String::new();
    let mut i: usize = 0;
    while i < list.len()
        invariant
            i <= list@.len(),
            lv == str_views(list@),
            r@ == join(lv.take(i as int), sep@),
        decreases list.len() - i,
    {
        assert(lv.take(i + 1).drop_last() =~= lv.take(i as int));
        assert(lv.take(i + 1).last() == list@[i as int]@);
        if i != 0 {
            r.append(sep);
            r.append(list[i]);
        } else {
            assert(lv.take(1)[0] == list@[0]@);
            r.append(list[i]);
            assert(r@ =~= list@[0]@);
        }
        i = i + 1;
    }
    assert(lv.take(list@.len() as int) =~= lv);
    r
}

fn count_severities(fs: &Vec<crate::schema::Finding>) -> (r: (usize, usize))
    ensures
        r.0 == count_sev(crate::schema::finding_views(fs@), Severity::Flag),
        r.1 == count_sev(crate::schema::finding_views(fs@), Severity::Note),
        r.0 + r.1 <= fs@.len(),
{
    let ghost fv = crate::schema::finding_views(fs@);
    let mut flags: usize = 0;
    let mut notes: usize = 0;
    let mut i: usize = 0;
    while i < fs.len()
        invariant
            i <= fs@.len(),
            fv == crate::schema::finding_views(fs@),
            flags == count_sev(fv.take(i as int), Severity::Flag),
            notes == count_sev(fv.take(i as int), Severity::Note),
            flags + notes <= i,
        decreases fs.len() - i,
    {
        assert(fv.take(i + 1).drop_last() =~= fv.take(i as int));
        assert(fv.take(i + 1).last() == fs@[i as int]@);
        match fs[i].severity {
            Severity::Flag => {
                flags = flags + 1;
            },
            Severity::Note => {
                notes = notes + 1;
            },
            Severity::Info => {},
        }
        i = i + 1;
    }
    assert(fv.take(fs@.len() as int) =~= fv);
    (flags, notes)
}

/// The summary line of a review over `results`.
pub fn build_summary(results: &Vec<LensResult>) -> (r: String)
    requires
        total_findings(lens_views(results@)) <= usize::MAX,
    ensures
        r@ == summary_spec(lens_views(results@)),
{
    let ghost rv = lens_views(results@);
    let mut ran: Vec<&'static str> = Vec::new();
    let mut failed: Vec<&'static str> = Vec::new();
    let mut flags: usize = 0;
    let mut notes: usize = 0;
    let ghost mut seen: nat = 0;
    let mut i: usize = 0;
    while i < results.len()
        invariant
            i <= results@.len(),
            rv == lens_views(results@),
            total_findings(rv) <= usize::MAX,
            str_views(ran@) == lens_names(results_where(rv.take(i as int), false)),
            str_views(failed@) == lens_names(results_where(rv.take(i as int), true)),
            flags == sev_total(results_where(rv.take(i as int), false), Severity::Flag),
            notes == sev_total(results_where(rv.take(i as int), false), Severity::Note),
            flags + notes <= total_findings(rv.take(i as int)),
            total_findings(rv.take(i as int)) <= total_findings(rv),
        decreases results.len() - i,
    {
        let ghost pre = rv.take(i as int);
        assert(rv.take(i + 1).drop_last() =~= pre);
        assert(rv.take(i + 1).last() == results@[i as int]@);
        proof {
            lemma_total_findings_prefix(rv, i + 1);
        }
        let name = results[i].lens.as_str();
        if results[i].error.is_some() {
            let ghost old_v = str_views(failed@);
            failed.push(name);
            assert(str_views(failed@) =~= old_v.push(name@));
            assert(results_where(rv.take(i + 1), false) == results_where(pre, false));
        } else {
            let (f, n) = count_severities(&results[i].findings);
            let ghost rw = results_where(pre, false);
            assert(results_where(rv.take(i + 1), false) == rw.push(results@[i as int]@));
            assert(rw.push(results@[i as int]@).drop_last() =~= rw);
            flags = flags + f;
            notes = notes + n;
            let ghost old_v = str_views(ran@);
            ran.push(name);
            assert(str_views(ran@) =~= old_v.push(name@));
        }
        i = i + 1;
    }
    assert(rv.take(results@.len() as int) =~= rv);
    if ran.len() == 0 {
        return String::from_str(
            "All requested lenses failed to run — see per-lens `error` fields for details. No review could be produced.",
        );
    }
    proof {
        lemma_len_names(results_where(rv, false));
        lemma_len_names(results_where(rv, true));
    }
    let mut s = String::from_str("Ran ");
    s.append(decimal_string(ran.len()).as_str());
    s.append(" lens(es): ");
    s.append(join_strs(&ran, ", ").as_str());
    s.append(".");
    s.append(" ");
    if flags > 0 || notes > 0 {
        s.append(decimal_string(flags).as_str());
        s.append(" flagged issue(s), ");
        s.append(decimal_string(notes).as_str());
        s.append(" note(s) worth a second look — see per-lens findings for what and where.");
    } else {
        s.append("No significant issues flagged across the requested lenses.");
    }
    if failed.len() > 0 {
        s.append(" ");
        s.append(decimal_string(failed.len()).as_str());
        s.append(" lens(es) failed to run (");
        s.append(join_strs(&failed, ", ").as_str());
        s.append(") — treat this review as partial, not a clean bill of health.");
    }
    s
}

proof fn lemma_len_names(rs: Seq<LensResultV>)
    ensures
        lens_names(rs).len() == rs.len(),
{
}

proof fn lemma_total_findings_prefix(rs: Seq<LensResultV>, k: int)
    requires
        0 <= k <= rs.len(),
    ensures
        total_findings(rs.take(k)) <= total_findings(rs),
    decreases rs.len() - k,
{
    if k < rs.len() {
        lemma_total_findings_prefix(rs, k + 1);
        assert(rs.take(k + 1).drop_last() =~= rs.take(k));
    } else {
        assert(rs.take(k) =~= rs);
    }
}

proof fn lemma_absent_len(counts: Seq<nat>, n: int, o: Seq<char>, c: Seq<char>)
    requires
        n >= 0,
    ensures
        eight_layer::absent_findings(counts, n, o, c).len() <= n,
    decreases n,
{
    if n > 0 {
        lemma_absent_len(counts, n - 1, o, c);
    }
}

proof fn lemma_categories_len(low: Seq<char>, n: int, b: bool)
    requires
        n >= 0,
    ensures
        ecocentric::categories_where(low, n, b).len() <= n,
    decreases n,
{
    if n > 0 {
        lemma_categories_len(low, n - 1, b);
    }
}

proof fn lemma_uip_findings_len(ss: Seq<Seq<char>>, n: int)
    requires
        n >= 0,
    ensures
        uip_check::uip_findings(ss, n).len() <= 4 * n,
    decreases n,
{
    if n > 0 {
        lemma_uip_findings_len(ss, n - 1);
    }
}

proof fn lemma_keep_long_len(ps: Seq<Seq<char>>)
    ensures
        uip_check::keep_long(ps).len() <= ps.len(),
    decreases ps.len(),
{
    if ps.len() > 0 {
        lemma_keep_long_len(ps.drop_last());
    }
}

proof fn lemma_split_by_from_len(s: Seq<char>, d: Delim, i: int, start: int)
    requires
        0 <= i <= s.len(),
    ensures
        crate::strs::split_by_from(s, d, i, start).len() <= s.len() - i + 1,
    decreases s.len() - i,
{
    if i < s.len() {
        if crate::strs::is_delim(d, s[i]) {
            lemma_split_by_from_len(s, d, i + 1, i + 1);
        } else {
            lemma_split_by_from_len(s, d, i + 1, start);
        }
    }
}

/// Each of the text lenses reports at most `4 * |text| + 16` findings.
proof fn lemma_lens_findings_bound(lens: Lens, text: Seq<char>, res: LensResultV)
    ensures
        run_lens_spec(lens, text, res).findings.len() <= 4 * text.len() + 16 + res.findings.len(),
{
    match lens {
        Lens::EightLayer => {
            let segs = crate::text::segments_of(text);
            if segs.len() > 0 {
                let cls = segs.map_values(|s: crate::text::SegmentV| eight_layer::classify_indices(s.body));
                let counts = Seq::new(8, |k: int| eight_layer::seg_count(cls, k as usize));
                lemma_absent_len(counts, 8, segs[0].body, segs.last().body);
            }
        },
        Lens::UipCheck => {
            let ps = split_by(text, Delim::SentenceEnd);
            lemma_split_by_from_len(text, Delim::SentenceEnd, 0, 0);
            lemma_keep_long_len(ps.map_values(|p: Seq<char>| trim(p)));
            let ss = uip_check::sentences_of(text);
            lemma_uip_findings_len(ss, ss.len() as int);
        },
        Lens::Resonance => {},
        Lens::Ecocentric => {
            if trim(text).len() > 0 {
                lemma_categories_len(crate::strs::lowercase_of(text), 4, false);
            }
        },
    }
}

/// Runs every requested lens on `req.text`, in the requested order, and assembles
/// the response with its summary. The resonance lens's result is computed by the
/// caller and stands in for each request of that lens.
pub fn review(req: &ReviewRequest, resonance: &LensResult) -> (r: ReviewResponse)
    requires
        req.lenses@.len() * (4 * req.text@.len() + 16 + resonance.findings@.len()) <= usize::MAX,
        crate::lenses::resonance::resonance_result_for(req.text@, resonance@),
    ensures
        lens_views(r.lenses@) == req.lenses@.map_values(
            |l: Lens| run_lens_spec(l, req.text@, resonance@),
        ),
        r.lenses@.len() == req.lenses@.len(),
        forall|i: int| 0 <= i < r.lenses@.len() ==> (#[trigger] r.lenses@[i]).lens == req.lenses@[i],
        r.summary@ == summary_spec(lens_views(r.lenses@)),
{
    let ghost m: int = (4 * req.text@.len() + 16 + resonance@.findings.len()) as int;
    let ghost want = req.lenses@.map_values(|l: Lens| run_lens_spec(l, req.text@, resonance@));
    let mut results: Vec<LensResult> = Vec::new();
    let mut k: usize = 0;
    while k < req.lenses.len()
        invariant
            k <= req.lenses@.len(),
            m == 4 * req.text@.len() + 16 + resonance@.findings.len(),
            req.lenses@.len() * m <= usize::MAX,
            want == req.lenses@.map_values(|l: Lens| run_lens_spec(l, req.text@, resonance@)),
            lens_views(results@) == want.take(k as int),
            total_findings(lens_views(results@)) <= k * m,
        decreases req.lenses.len() - k,
    {
        let r = match req.lenses[k] {
            Lens::EightLayer => eight_layer::run(req.text.as_str()),
            Lens::UipCheck => uip_check::run(req.text.as_str()),
            Lens::Resonance => copy_lens_result(resonance),
            Lens::Ecocentric => ecocentric::run(req.text.as_str()),
        };
        proof {
            lemma_lens_findings_bound(req.lenses@[k as int], req.text@, resonance@);
        }
        let ghost old_v = lens_views(results@);
        results.push(r);
        assert(lens_views(results@) =~= old_v.push(r@));
        assert(want.take(k + 1) =~= want.take(k as int).push(want[k as int]));
        assert(lens_views(results@).drop_last() =~= old_v);
        assert(k * m + m == (k + 1) * m) by (nonlinear_arith);
        k = k + 1;
    }
    assert(want.take(req.lenses@.len() as int) =~= want);
    assert(k * m <= req.lenses@.len() * m) by (nonlinear_arith)
        requires
            k == req.lenses@.len(),
    ;
    let summary = build_summary(&results);
    let r = ReviewResponse { summary, lenses: results };
    assert forall|i: int| 0 <= i < r.lenses@.len() implies (#[trigger] r.lenses@[i]).lens
        == req.lenses@[i] by {
        assert(lens_views(r.lenses@)[i] == r.lenses@[i]@);
        law_lens_sources(req.text@);
    }
    r
}

/// A lens given a blank text reports an error and no findings rather than a
/// fabricated result; the resonance lens has fewer than two sections to compare.
pub proof fn law_lenses_blank_text_error(text: Seq<char>)
    requires
        trim(text).len() == 0,
    ensures
        eight_layer::eight_layer_spec(text).error is Some,
        eight_layer::eight_layer_spec(text).findings.len() == 0,
        uip_check::uip_spec(text).error is Some,
        uip_check::uip_spec(text).findings.len() == 0,
        ecocentric::ecocentric_spec(text).error is Some,
        ecocentric::ecocentric_spec(text).findings.len() == 0,
        crate::text::segments_of(text).len() < 2,
{
    crate::text::lemma_blank_no_segments(text);
    uip_check::lemma_blank_no_sentences(text);
}

/// Flags, notes and informational findings account for every finding.
pub proof fn lemma_count_sev_total(fs: Seq<FindingV>)
    ensures
        count_sev(fs, Severity::Flag) + count_sev(fs, Severity::Note) + count_sev(fs, Severity::Info)
            == fs.len(),
    decreases fs.len(),
{
    if fs.len() > 0 {
        lemma_count_sev_total(fs.drop_last());
    }
}

/// Every lens result names its lens and discloses where its logic comes from:
/// the 8-layer taxonomy and the UIP rules are Laura Serna Gaviria's, resonance is
/// this project's operationalization, and ecocentric is this project's addition.
pub proof fn law_lens_sources(text: Seq<char>)
    ensures
        eight_layer::eight_layer_spec(text).lens == Lens::EightLayer,
        eight_layer::eight_layer_spec(text).source == Source::Laura8Layer2025,
        uip_check::uip_spec(text).lens == Lens::UipCheck,
        uip_check::uip_spec(text).source == Source::LauraUip2025,
        ecocentric::ecocentric_spec(text).lens == Lens::Ecocentric,
        ecocentric::ecocentric_spec(text).source == Source::RfiIrfosAddition,
        crate::lenses::resonance::too_few_sections().lens == Lens::Resonance,
        crate::lenses::resonance::too_few_sections().source == Source::RfiIrfosOperationalization,
{
}

/// Some lens that ran (reported no error) has a finding of severity `sev`.
pub open spec fn ran_with(rs: Seq<LensResultV>, sev: Severity) -> bool {
    exists|i: int, j: int|
        0 <= i < rs.len() && rs[i].error is None && 0 <= j < rs[i].findings.len() && (#[trigger] rs[i].findings[j]).severity
            == sev
}

/// Some lens ran (reported no error).
pub open spec fn some_ran(rs: Seq<LensResultV>) -> bool {
    exists|i: int| 0 <= i < rs.len() && (#[trigger] rs[i]).error is None
}

proof fn lemma_count_sev_positive(fs: Seq<FindingV>, sev: Severity)
    ensures
        (count_sev(fs, sev) > 0) == (exists|j: int| 0 <= j < fs.len() && (#[trigger] fs[j]).severity == sev),
    decreases fs.len(),
{
    if fs.len() > 0 {
        let pre = fs.drop_last();
        lemma_count_sev_positive(pre, sev);
        if exists|j: int| 0 <= j < fs.len() && (#[trigger] fs[j]).severity == sev {
            let j = choose|j: int| 0 <= j < fs.len() && (#[trigger] fs[j]).severity == sev;
            if j < pre.len() {
                assert(pre[j] == fs[j]);
            }
        } else {
            assert forall|j: int| 0 <= j < pre.len() implies (#[trigger] pre[j]).severity != sev by {
                assert(pre[j] == fs[j]);
            }
            assert(fs[fs.len() - 1].severity != sev);
        }
    }
}

/// Some lens failed (reported an error).
pub open spec fn some_failed(rs: Seq<LensResultV>) -> bool {
    exists|i: int| 0 <= i < rs.len() && (#[trigger] rs[i]).error is Some
}

proof fn lemma_failed_count(rs: Seq<LensResultV>)
    ensures
        (results_where(rs, true).len() > 0) == some_failed(rs),
    decreases rs.len(),
{
    if rs.len() > 0 {
        let pre = rs.drop_last();
        lemma_failed_count(pre);
        if some_failed(pre) {
            let i = choose|i: int| 0 <= i < pre.len() && (#[trigger] pre[i]).error is Some;
            assert(rs[i] == pre[i]);
        }
        if some_failed(rs) {
            let i = choose|i: int| 0 <= i < rs.len() && (#[trigger] rs[i]).error is Some;
            if i < pre.len() {
                assert(pre[i] == rs[i]);
            }
        }
        if rs.last().error is Some {
            assert(rs[rs.len() - 1].error is Some);
        }
    }
}

proof fn lemma_ran_totals(rs: Seq<LensResultV>, sev: Severity)
    ensures
        (results_where(rs, false).len() > 0) == some_ran(rs),
        (sev_total(results_where(rs, false), sev) > 0) == ran_with(rs, sev),
    decreases rs.len(),
{
    if rs.len() > 0 {
        let pre = rs.drop_last();
        let x = rs.last();
        lemma_ran_totals(pre, sev);
        lemma_count_sev_positive(x.findings, sev);
        if x.error is None {
            let rw = results_where(pre, false);
            assert(results_where(rs, false) == rw.push(x));
            assert(rw.push(x).drop_last() =~= rw);
            assert(rs[rs.len() - 1].error is None);
            if exists|j: int| 0 <= j < x.findings.len() && (#[trigger] x.findings[j]).severity == sev {
                let j = choose|j: int| 0 <= j < x.findings.len() && (#[trigger] x.findings[j]).severity == sev;
                assert(rs[rs.len() - 1].findings[j].severity == sev);
            }
        }
        if some_ran(pre) {
            let i = choose|i: int| 0 <= i < pre.len() && (#[trigger] pre[i]).error is None;
            assert(rs[i] == pre[i]);
        }
        if some_ran(rs) {
            let i = choose|i: int| 0 <= i < rs.len() && (#[trigger] rs[i]).error is None;
            if i < pre.len() {
                assert(pre[i] == rs[i]);
            }
        }
        if ran_with(pre, sev) {
            let (i, j) = choose|i: int, j: int|
                0 <= i < pre.len() && pre[i].error is None && 0 <= j < pre[i].findings.len() && (
                #[trigger] pre[i].findings[j]).severity == sev;
            assert(rs[i] == pre[i]);
            assert(rs[i].findings[j].severity == sev);
        }
        if ran_with(rs, sev) {
            let (i, j) = choose|i: int, j: int|
                0 <= i < rs.len() && rs[i].error is None && 0 <= j < rs[i].findings.len() && (
                #[trigger] rs[i].findings[j]).severity == sev;
            if i < pre.len() {
                assert(pre[i] == rs[i]);
                assert(pre[i].findings[j].severity == sev);
            } else {
                assert(x.findings[j].severity == sev);
            }
        }
    }
}

/// The review summary reports what the lenses found: when every lens failed it says
/// so; otherwise it starts with the number of lenses that ran; when a lens that ran
/// has a flag or a note, it states the number of flags and of notes (each positive
/// exactly when there is one), and it says "No significant issues" only when no
/// lens that ran has either; and when some lens failed, it says how many failed.
pub proof fn law_summary_reports_findings(rs: Seq<LensResultV>)
    ensures
        !some_ran(rs) ==> summary_spec(rs) == all_failed_summary(),
        some_ran(rs) && (ran_with(rs, Severity::Flag) || ran_with(rs, Severity::Note)) ==> is_substring(
            decimal(sev_total(results_where(rs, false), Severity::Flag)) + " flagged issue(s), "@ + decimal(
                sev_total(results_where(rs, false), Severity::Note),
            ) + " note(s) worth a second look"@,
            summary_spec(rs),
        ),
        (sev_total(results_where(rs, false), Severity::Flag) > 0) == ran_with(rs, Severity::Flag),
        (sev_total(results_where(rs, false), Severity::Note) > 0) == ran_with(rs, Severity::Note),
        some_ran(rs) && !ran_with(rs, Severity::Flag) && !ran_with(rs, Severity::Note) ==> is_substring(
            "No significant issues flagged across the requested lenses."@,
            summary_spec(rs),
        ),
        some_ran(rs) ==> ("Ran "@ + decimal(results_where(rs, false).len()) + " lens(es): "@).is_prefix_of(
            summary_spec(rs),
        ),
        (results_where(rs, true).len() > 0) == some_failed(rs),
        some_ran(rs) && some_failed(rs) ==> is_substring(
            " "@ + decimal(results_where(rs, true).len()) + " lens(es) failed to run ("@,
            summary_spec(rs),
        ),
{
    lemma_failed_count(rs);
    lemma_ran_totals(rs, Severity::Flag);
    lemma_ran_totals(rs, Severity::Note);
    let ran = results_where(rs, false);
    let failed = results_where(rs, true);
    if ran.len() > 0 {
        let flags = sev_total(ran, Severity::Flag);
        let notes = sev_total(ran, Severity::Note);
        let p1 = "Ran "@ + decimal(ran.len()) + " lens(es): "@ + join(lens_names(ran), ", "@) + "."@;
        let x = if flags > 0 || notes > 0 {
            decimal(flags) + " flagged issue(s), "@ + decimal(notes) + " note(s) worth a second look"@
        } else {
            "No significant issues flagged across the requested lenses."@
        };
        let rest: Seq<char> = if flags > 0 || notes > 0 {
            " — see per-lens findings for what and where."@
        } else {
            seq![]
        };
        let tail: Seq<char> = if failed.len() > 0 {
            " "@ + decimal(failed.len()) + " lens(es) failed to run ("@ + join(lens_names(failed), ", "@)
                + ") — treat this review as partial, not a clean bill of health."@
        } else {
            seq![]
        };
        let head = p1 + " "@;
        let sm = summary_spec(rs);
        if flags > 0 || notes > 0 {
            reveal_strlit(" note(s) worth a second look — see per-lens findings for what and where.");
            reveal_strlit(" note(s) worth a second look");
            reveal_strlit(" — see per-lens findings for what and where.");
            assert(" note(s) worth a second look — see per-lens findings for what and where."@ =~= " note(s) worth a second look"@
                + " — see per-lens findings for what and where."@);
        }
        assert(sm =~= head + x + rest + tail);
        let a = head.len() as int;
        let b = a + x.len();
        assert(sm.subrange(a, b) =~= x);
        crate::strs::lemma_range_is_substring(sm, a, b);
        let start = "Ran "@ + decimal(ran.len()) + " lens(es): "@;
        assert(sm.subrange(0, start.len() as int) =~= start);
        if failed.len() > 0 {
            let fx = " "@ + decimal(failed.len()) + " lens(es) failed to run ("@;
            let c = b + rest.len();
            assert(sm.subrange(c, c + fx.len()) =~= fx);
            crate::strs::lemma_range_is_substring(sm, c, c + fx.len());
        }
    }
}

} // verus!
