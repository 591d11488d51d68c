//! Laura, the orchestrator: runs the requested agents over the same text and
//! assembles one response with a severity rollup and a synthesis (risk band,
//! cross-cutting themes, priority actions). An agent that reports an error is
//! counted as partial and surfaced, never dropped.
use vstd::prelude::*;

use crate::agents::{
    agent_spec, all_kinds, all_kinds_spec, run_agent, AgentData, AgentDataV, AgentKind, AgentResult, AgentResultV,
};
use crate::lcs::{lcs, longest_common_substring};
use crate::order::{sort_desc, sort_desc_exec};
use crate::schema::{finding_views, Finding, FindingV, Severity, Source};
use crate::strs::{
    ascii_lower, ascii_lower_exec, chars_of, decimal, decimal_string, find, find_exec, is_blank, is_whitespace,
    is_substring, is_ws, lemma_find_occurs, string_of, subrange, trim, trim_vec,
};
use crate::count_sev;

verus! {

/// A request to Laura's team: the text, and optionally which agents to run (all
/// fifteen when absent or empty).
#[derive(Debug, Clone)]
pub struct TeamRequest {
    pub text: String,
    pub agents: Option<Vec<AgentKind>>,
    pub metadata: Option<TeamMetadata>,
}

#[derive(Debug, Clone)]
pub struct TeamMetadata {
    pub title: Option<String>,
    pub context: Option<String>,
    /// Reserved for a future caller tier; informational only.
    pub caller_tier: Option<String>,
}

/// One agent's result with its counts.
#[derive(Debug, Clone)]
pub struct TeamAgentResult {
    pub agent: AgentKind,
    pub agent_name: String,
    pub source: Source,
    pub attribution_note: String,
    pub findings: Vec<Finding>,
    pub data: Option<AgentData>,
    /// Present iff the agent had nothing to read.
    pub error: Option<String>,
    pub finding_count: usize,
    pub flag_count: usize,
    pub note_count: usize,
}

pub struct TeamAgentResultV {
    pub agent: AgentKind,
    pub agent_name: Seq<char>,
    pub source: Source,
    pub attribution_note: Seq<char>,
    pub findings: Seq<FindingV>,
    pub data: Option<AgentDataV>,
    pub error: Option<Seq<char>>,
    pub finding_count: nat,
    pub flag_count: nat,
    pub note_count: nat,
}

impl View for TeamAgentResult {
    type V = TeamAgentResultV;

    open spec fn view(&self) -> TeamAgentResultV {
        TeamAgentResultV {
            agent: self.agent,
            agent_name: self.agent_name@,
            source: self.source,
            attribution_note: self.attribution_note@,
            findings: finding_views(self.findings@),
            data: match self.data {
                Some(d) => Some(d@),
                None => None,
            },
            error: match self.error {
                Some(e) => Some(e@),
                None => None,
            },
            finding_count: self.finding_count as nat,
            flag_count: self.flag_count as nat,
            note_count: self.note_count as nat,
        }
    }
}

/// Coarse risk band derived from the team's findings.
#[derive(Debug, Clone, Copy, PartialEq, Eq, Structural)]
pub enum RiskBand {
    Low,
    Moderate,
    Elevated,
    Critical,
}

/// A text region that two agents both cited.
#[derive(Debug, Clone)]
pub struct TeamTheme {
    /// The shared text region.
    pub shared_evidence: String,
    pub agents: Vec<AgentKind>,
    pub finding_count: usize,
}

pub struct TeamThemeV {
    pub shared_evidence: Seq<char>,
    pub agents: Seq<AgentKind>,
    pub finding_count: nat,
}

impl View for TeamTheme {
    type V = TeamThemeV;

    open spec fn view(&self) -> TeamThemeV {
        TeamThemeV {
            shared_evidence: self.shared_evidence@,
            agents: self.agents@,
            finding_count: self.finding_count as nat,
        }
    }
}

/// One deduplicated action for the reader; `priority` 1 is the highest.
#[derive(Debug, Clone)]
pub struct PriorityAction {
    pub priority: u8,
    pub source_agent: AgentKind,
    pub action: String,
}

pub struct PriorityActionV {
    pub priority: u8,
    pub source_agent: AgentKind,
    pub action: Seq<char>,
}

impl View for PriorityAction {
    type V = PriorityActionV;

    open spec fn view(&self) -> PriorityActionV {
        PriorityActionV {
            priority: self.priority,
            source_agent: self.source_agent,
            action: self.action@,
        }
    }
}

/// The whole-team read.
#[derive(Debug, Clone)]
pub struct Synthesis {
    pub risk_score: u16,
    pub risk_band: RiskBand,
    pub cross_cutting_themes: Vec<TeamTheme>,
    pub priority_actions: Vec<PriorityAction>,
}

pub struct SynthesisV {
    pub risk_score: u16,
    pub risk_band: RiskBand,
    pub cross_cutting_themes: Seq<TeamThemeV>,
    pub priority_actions: Seq<PriorityActionV>,
}

impl View for Synthesis {
    type V = SynthesisV;

    open spec fn view(&self) -> SynthesisV {
        SynthesisV {
            risk_score: self.risk_score,
            risk_band: self.risk_band,
            cross_cutting_themes: self.cross_cutting_themes@.map_values(|t: TeamTheme| t@),
            priority_actions: self.priority_actions@.map_values(|a: PriorityAction| a@),
        }
    }
}

#[derive(Debug, Clone)]
pub struct TeamResponse {
    /// A line a human can read first.
    pub summary: String,
    /// Whether no agent reported an error.
    pub complete: bool,
    pub agents_run: usize,
    pub agents_partial: usize,
    pub total_findings: usize,
    pub total_flags: usize,
    pub total_notes: usize,
    pub synthesis: Synthesis,
    pub results: Vec<TeamAgentResult>,
}

pub struct TeamResponseV {
    pub summary: Seq<char>,
    pub complete: bool,
    pub agents_run: nat,
    pub agents_partial: nat,
    pub total_findings: nat,
    pub total_flags: nat,
    pub total_notes: nat,
    pub synthesis: SynthesisV,
    pub results: Seq<TeamAgentResultV>,
}

pub open spec fn result_views(v: Seq<TeamAgentResult>) -> Seq<TeamAgentResultV> {
    v.map_values(|r: TeamAgentResult| r@)
}

impl View for TeamResponse {
    type V = TeamResponseV;

    open spec fn view(&self) -> TeamResponseV {
        TeamResponseV {
            summary: self.summary@,
            complete: self.complete,
            agents_run: self.agents_run as nat,
            agents_partial: self.agents_partial as nat,
            total_findings: self.total_findings as nat,
            total_flags: self.total_flags as nat,
            total_notes: self.total_notes as nat,
            synthesis: self.synthesis@,
            results: result_views(self.results@),
        }
    }
}

// ───────────────────────────── per-agent results ─────────────────────────────

/// An agent's result with its counts (notes count informational findings too).
pub open spec fn team_result(a: AgentResultV) -> TeamAgentResultV {
    TeamAgentResultV {
        agent: a.agent,
        agent_name: a.agent.display(),
        source: a.source,
        attribution_note: a.attribution_note,
        findings: a.findings,
        data: a.data,
        error: a.error,
        finding_count: a.findings.len(),
        flag_count: count_sev(a.findings, Severity::Flag),
        note_count: count_sev(a.findings, Severity::Note) + count_sev(a.findings, Severity::Info),
    }
}

/// Sum of a per-result count over `rs`.
pub open spec fn sum_flags(rs: Seq<TeamAgentResultV>) -> nat
    decreases rs.len(),
{
    if rs.len() == 0 {
        0
    } else {
        sum_flags(rs.drop_last()) + rs.last().flag_count
    }
}

pub open spec fn sum_notes(rs: Seq<TeamAgentResultV>) -> nat
    decreases rs.len(),
{
    if rs.len() == 0 {
        0
    } else {
        sum_notes(rs.drop_last()) + rs.last().note_count
    }
}

pub open spec fn sum_findings(rs: Seq<TeamAgentResultV>) -> nat
    decreases rs.len(),
{
    if rs.len() == 0 {
        0
    } else {
        sum_findings(rs.drop_last()) + rs.last().finding_count
    }
}

/// The number of results that report an error.
pub open spec fn partial_count(rs: Seq<TeamAgentResultV>) -> nat
    decreases rs.len(),
{
    if rs.len() == 0 {
        0
    } else {
        partial_count(rs.drop_last()) + if rs.last().error is Some {
            1nat
        } else {
            0nat
        }
    }
}

// ───────────────────────────── risk ─────────────────────────────

/// The band of a risk score.
pub open spec fn risk_band_of(score: int) -> RiskBand {
    if score == 0 {
        RiskBand::Low
    } else if score <= 20 {
        RiskBand::Moderate
    } else if score <= 60 {
        RiskBand::Elevated
    } else {
        RiskBand::Critical
    }
}

/// Blockers count ten, notes two, capped at 200.
pub open spec fn risk_score_of(flags: nat, notes: nat) -> nat {
    let raw = 10 * flags + 2 * notes;
    if raw < 200 {
        raw
    } else {
        200
    }
}

// ───────────────────────────── themes ─────────────────────────────

pub open spec fn evidences(r: TeamAgentResultV) -> Seq<Seq<char>> {
    r.findings.map_values(|f: FindingV| f.evidence)
}

/// The common substrings of every evidence pair, `a`-major order.
pub open spec fn cands(a: Seq<Seq<char>>, b: Seq<Seq<char>>) -> Seq<Seq<char>>
    decreases a.len(),
{
    if a.len() == 0 {
        seq![]
    } else {
        cands(a.drop_last(), b) + b.map_values(|y: Seq<char>| lcs(a.last(), y))
    }
}

/// The first longest of `cs` (empty when none is longer than zero).
pub open spec fn best_of(cs: Seq<Seq<char>>) -> Seq<char>
    decreases cs.len(),
{
    if cs.len() == 0 {
        seq![]
    } else {
        let b = best_of(cs.drop_last());
        if cs.last().len() > b.len() {
            cs.last()
        } else {
            b
        }
    }
}

/// The theme of results `i` and `j`: the longest text their evidences share, when
/// it is at least 16 characters and not blank.
pub open spec fn theme_for(rs: Seq<TeamAgentResultV>, i: int, j: int) -> Seq<TeamThemeV> {
    let best = best_of(cands(evidences(rs[i]), evidences(rs[j])));
    if best.len() >= 16 && trim(best).len() > 0 {
        seq![
            TeamThemeV {
                shared_evidence: trim(best),
                agents: seq![rs[i].agent, rs[j].agent],
                finding_count: 2,
            },
        ]
    } else {
        seq![]
    }
}

/// Themes of the pairs `(i, j')` with `i < j' < j`.
pub open spec fn themes_row(rs: Seq<TeamAgentResultV>, i: int, j: int) -> Seq<TeamThemeV>
    decreases j - i,
{
    if j <= i + 1 {
        seq![]
    } else {
        themes_row(rs, i, j - 1) + theme_for(rs, i, j - 1)
    }
}

/// Themes of all pairs whose first index is below `i`, in pair order.
pub open spec fn themes_upto(rs: Seq<TeamAgentResultV>, i: int) -> Seq<TeamThemeV>
    decreases i,
{
    if i <= 0 {
        seq![]
    } else {
        themes_upto(rs, i - 1) + themes_row(rs, i - 1, rs.len() as int)
    }
}

/// The themes, longest shared text first (ties in pair order), at most five.
pub open spec fn themes_spec(rs: Seq<TeamAgentResultV>) -> Seq<TeamThemeV> {
    let all = themes_upto(rs, rs.len() as int);
    let ranked = sort_desc(
        all.map_values(|t: TeamThemeV| (t, t.shared_evidence.len() as usize)),
    ).map_values(|p: (TeamThemeV, usize)| p.0);
    ranked.take(if ranked.len() < 5 { ranked.len() as int } else { 5 })
}

// ───────────────────────────── actions ─────────────────────────────

/// `s` with one leading `[tag] ` removed, if it has one.
pub open spec fn strip_tag(s: Seq<char>) -> Seq<char> {
    if s.len() > 0 && s[0] == '[' {
        let rest = s.drop_first();
        let k = find(rest, seq![']', ' ']);
        if k >= 0 {
            rest.skip(k + 2)
        } else {
            s
        }
    } else {
        s
    }
}

/// Whitespace runs collapsed to one space and ASCII letters lowercased, over the
/// first `n` characters; with whether the last character read was whitespace.
pub open spec fn collapse(s: Seq<char>, n: int) -> (Seq<char>, bool)
    decreases n,
{
    if n <= 0 {
        (seq![], false)
    } else {
        let (o, prev) = collapse(s, n - 1);
        let c = s[n - 1];
        if is_ws(c) {
            (if prev { o } else { o.push(' ') }, true)
        } else {
            (o.push(ascii_lower(c)), false)
        }
    }
}

/// The form of a claim that deduplication compares: tag removed, whitespace
/// collapsed, ASCII lowercase, trimmed.
pub open spec fn normalized(claim: Seq<char>) -> Seq<char> {
    let s = strip_tag(trim(claim));
    trim(collapse(s, s.len() as int).0)
}

/// `(agent, claim)` of each blocker (`Flag`) of the results, in order.
pub open spec fn flag_items_of(agent: AgentKind, fs: Seq<FindingV>) -> Seq<(AgentKind, Seq<char>)>
    decreases fs.len(),
{
    if fs.len() == 0 {
        seq![]
    } else if fs.last().severity == Severity::Flag {
        flag_items_of(agent, fs.drop_last()).push((agent, fs.last().claim))
    } else {
        flag_items_of(agent, fs.drop_last())
    }
}

pub open spec fn flagged(rs: Seq<TeamAgentResultV>) -> Seq<(AgentKind, Seq<char>)>
    decreases rs.len(),
{
    if rs.len() == 0 {
        seq![]
    } else {
        flagged(rs.drop_last()) + flag_items_of(rs.last().agent, rs.last().findings)
    }
}

/// The items whose normalized claim did not occur earlier, in order.
pub open spec fn dedup(items: Seq<(AgentKind, Seq<char>)>) -> Seq<(AgentKind, Seq<char>)>
    decreases items.len(),
{
    if items.len() == 0 {
        seq![]
    } else {
        let d = dedup(items.drop_last());
        if exists|j: int|
            0 <= j < items.len() - 1 && normalized(#[trigger] items[j].1) == normalized(
                items.last().1,
            ) {
            d
        } else {
            d.push(items.last())
        }
    }
}

/// The items ordered by agent (orchestration order), keeping their order otherwise.
pub open spec fn by_agent(items: Seq<(AgentKind, Seq<char>)>) -> Seq<(AgentKind, Seq<char>)> {
    sort_desc(
        items.map_values(|x: (AgentKind, Seq<char>)| (x, (14 - x.0.order()) as usize)),
    ).map_values(|p: ((AgentKind, Seq<char>), usize)| p.0)
}

/// `min(n, 255)`.
pub open spec fn sat_u8(n: int) -> u8 {
    if n < 255 {
        n as u8
    } else {
        255
    }
}

/// Agents that reported an error, with their names, among the first `n` results.
pub open spec fn partials(rs: Seq<TeamAgentResultV>, n: int) -> Seq<(AgentKind, Seq<char>)>
    decreases n,
{
    if n <= 0 {
        seq![]
    } else if rs[n - 1].error is Some {
        partials(rs, n - 1).push((rs[n - 1].agent, rs[n - 1].agent_name))
    } else {
        partials(rs, n - 1)
    }
}

pub open spec fn partial_action(name: Seq<char>) -> Seq<char> {
    "Review partial: "@ + name + " reported no classifiable signal — verify manually."@
}

/// The priority actions: deduplicated blockers by agent order, at most twelve;
/// then one action per partial agent; numbered 1, 2, 3, ... in list order
/// (saturating at 255).
pub open spec fn actions_spec(rs: Seq<TeamAgentResultV>) -> Seq<PriorityActionV> {
    let ordered = by_agent(dedup(flagged(rs)));
    let n = ordered.len() as int;
    let m = if n < 12 { n } else { 12 };
    let kept = Seq::new(
        m as nat,
        |i: int|
            PriorityActionV {
                priority: sat_u8(i + 1),
                source_agent: ordered[i].0,
                action: ordered[i].1,
            },
    );
    let ps = partials(rs, rs.len() as int);
    kept + Seq::new(
        ps.len(),
        |k: int|
            PriorityActionV {
                priority: sat_u8(m + 1 + k),
                source_agent: ps[k].0,
                action: partial_action(ps[k].1),
            },
    )
}

/// The synthesis of a team's results.
pub open spec fn synthesis_spec(rs: Seq<TeamAgentResultV>) -> SynthesisV {
    let score = risk_score_of(sum_flags(rs), sum_notes(rs));
    SynthesisV {
        risk_score: score as u16,
        risk_band: risk_band_of(score as int),
        cross_cutting_themes: themes_spec(rs),
        priority_actions: actions_spec(rs),
    }
}

// ───────────────────────────── implementation ─────────────────────────────

/// Numbers of blockers, notes and informational findings.
pub fn count_severity(fs: &Vec<Finding>) -> (r: (usize, usize, usize))
    ensures
        r.0 == count_sev(finding_views(fs@), Severity::Flag),
        r.1 == count_sev(finding_views(fs@), Severity::Note),
        r.2 == count_sev(finding_views(fs@), Severity::Info),
        r.0 + r.1 + r.2 == fs@.len(),
{
    let ghost fv = finding_views(fs@);
    let mut flags: usize = 0;
    let mut notes: usize = 0;
    let mut info: usize = 0;
    let mut i: usize = 0;
    while i < fs.len()
        invariant
            i <= fs@.len(),
            fv == finding_views(fs@),
            flags == count_sev(fv.take(i as int), Severity::Flag),
            notes == count_sev(fv.take(i as int), Severity::Note),
            info == count_sev(fv.take(i as int), Severity::Info),
            flags + notes + info == i,
        decreases fs.len() - i,
    {
        assert(fv.take(i + 1).drop_last() =~= fv.take(i as int));
        assert(fv.take(i + 1).last() == fs@[i as int]@);
        match fs[i].severity {
            Severity::Flag => {
                flags = flags + 1;
            },
            Severity::Note => {
                notes = notes + 1;
            },
            Severity::Info => {
                info = info + 1;
            },
        }
        i = i + 1;
    }
    assert(fv.take(fs@.len() as int) =~= fv);
    (flags, notes, info)
}

/// The band of a risk score.
pub fn risk_band_for(score: u16) -> (r: RiskBand)
    ensures
        r == risk_band_of(score as int),
{
    if score == 0 {
        RiskBand::Low
    } else if score <= 20 {
        RiskBand::Moderate
    } else if score <= 60 {
        RiskBand::Elevated
    } else {
        RiskBand::Critical
    }
}

fn strip_tag_exec(s: &[char]) -> (r: Vec<char>)
    ensures
        r@ == strip_tag(s@),
{
    if s.len() > 0 && s[0] == '[' {
        let rest = subrange(s, 1, s.len());
        assert(rest@ =~= s@.drop_first());
        let pat: Vec<char> = vec![']', ' '];
        assert(pat@ =~= seq![']', ' ']);
        match find_exec(&rest, &pat) {
            Some(k) => {
                proof {
                    lemma_find_occurs(rest@, seq![']', ' ']);
                }
                let n = rest.len();
                assert(k + 2 <= n);
                let r = subrange(&rest, k + 2, n);
                assert(r@ =~= rest@.skip(k + 2));
                r
            },
            None => subrange(s, 0, s.len()),
        }
    } else {
        let r = subrange(s, 0, s.len());
        assert(r@ =~= s@);
        r
    }
}

/// The form of a claim that deduplication compares.
pub fn normalize_claim(claim: &str) -> (r: String)
    ensures
        r@ == normalized(claim@),
{
    let c = chars_of(claim);
    let t = trim_vec(&c);
    let s = strip_tag_exec(&t);
    let mut out: Vec<char> = Vec::new();
    let mut prev_space = false;
    let mut i: usize = 0;
    while i < s.len()
        invariant
            i <= s@.len(),
            (out@, prev_space) == collapse(s@, i as int),
        decreases s.len() - i,
    {
        let ch = s[i];
        if is_whitespace(ch) {
            if !prev_space {
                out.push(' ');
            }
            prev_space = true;
        } else {
            out.push(ascii_lower_exec(ch));
            prev_space = false;
        }
        i = i + 1;
    }
    let r = trim_vec(&out);
    string_of(&r)
}

fn evidence_chars(fs: &Vec<Finding>) -> (r: Vec<Vec<char>>)
    ensures
        crate::strs::views(r@) == fs@.map_values(|f: Finding| f@.evidence),
{
    let mut r: Vec<Vec<char>> = Vec::new();
    let mut i: usize = 0;
    while i < fs.len()
        invariant
            i <= fs@.len(),
            crate::strs::views(r@) == fs@.take(i as int).map_values(|f: Finding| f@.evidence),
        decreases fs.len() - i,
    {
        let ghost old_v = crate::strs::views(r@);
        r.push(chars_of(fs[i].evidence.as_str()));
        assert(crate::strs::views(r@) =~= old_v.push(fs@[i as int]@.evidence));
        assert(fs@.take(i + 1) =~= fs@.take(i as int).push(fs@[i as int]));
        i = i + 1;
    }
    assert(fs@.take(fs@.len() as int) =~= fs@);
    r
}

/// The first longest text shared by an evidence of `a` and an evidence of `b`.
fn best_shared(a: &Vec<Vec<char>>, b: &Vec<Vec<char>>) -> (r: Vec<char>)
    ensures
        r@ == best_of(cands(crate::strs::views(a@), crate::strs::views(b@))),
{
    let ghost av = crate::strs::views(a@);
    let ghost bv = crate::strs::views(b@);
    let mut best: Vec<char> = Vec::new();
    let mut x: usize = 0;
    assert(cands(av.take(0), bv) =~= seq![]);
    while x < a.len()
        invariant
            x <= a@.len(),
            av == crate::strs::views(a@),
            bv == crate::strs::views(b@),
            best@ == best_of(cands(av.take(x as int), bv)),
        decreases a.len() - x,
    {
        let ghost pre = cands(av.take(x as int), bv);
        let mut y: usize = 0;
        assert(pre + bv.take(0).map_values(|z: Seq<char>| lcs(av[x as int], z)) =~= pre);
        while y < b.len()
            invariant
                x < a@.len(),
                y <= b@.len(),
                av == crate::strs::views(a@),
                bv == crate::strs::views(b@),
                pre == cands(av.take(x as int), bv),
                best@ == best_of(pre + bv.take(y as int).map_values(|z: Seq<char>| lcs(av[x as int], z))),
            decreases b.len() - y,
        {
            let l = longest_common_substring(&a[x], &b[y]);
            assert(l@ == lcs(av[x as int], bv[y as int]));
            let ghost cs = pre + bv.take(y as int).map_values(|z: Seq<char>| lcs(av[x as int], z));
            assert(pre + bv.take(y + 1).map_values(|z: Seq<char>| lcs(av[x as int], z)) =~= cs.push(l@));
            assert(cs.push(l@).drop_last() =~= cs);
            if l.len() > best.len() {
                best = l;
            }
            y = y + 1;
        }
        assert(bv.take(b@.len() as int) =~= bv);
        assert(av.take(x + 1).drop_last() =~= av.take(x as int));
        assert(av.take(x + 1).last() == av[x as int]);
        x = x + 1;
    }
    assert(av.take(a@.len() as int) =~= av);
    best
}

pub open spec fn keyed(ts: Seq<TeamThemeV>) -> Seq<(TeamThemeV, usize)> {
    ts.map_values(|t: TeamThemeV| (t, t.shared_evidence.len() as usize))
}

pub open spec fn keyed_views(v: Seq<(TeamTheme, usize)>) -> Seq<(TeamThemeV, usize)> {
    v.map_values(|p: (TeamTheme, usize)| (p.0@, p.1))
}

fn theme_exec(rs: &Vec<TeamAgentResult>, evs: &Vec<Vec<Vec<char>>>, i: usize, j: usize) -> (r: Option<(TeamTheme, usize)>)
    requires
        i < j < rs@.len(),
        evs@.len() == rs@.len(),
        forall|k: int|
            0 <= k < rs@.len() ==> crate::strs::views(#[trigger] evs@[k]@) == evidences(rs@[k]@),
    ensures
        match r {
            Some(p) => theme_for(result_views(rs@), i as int, j as int) == seq![p.0@] && p.1
                == p.0@.shared_evidence.len(),
            None => theme_for(result_views(rs@), i as int, j as int) == Seq::<TeamThemeV>::empty(),
        },
{
    let ghost rv = result_views(rs@);
    assert(rv[i as int] == rs@[i as int]@);
    assert(rv[j as int] == rs@[j as int]@);
    let best = best_shared(&evs[i], &evs[j]);
    if best.len() >= 16 {
        let t = trim_vec(&best);
        if t.len() > 0 {
            let agents = vec![rs[i].agent, rs[j].agent];
            assert(agents@ =~= seq![rv[i as int].agent, rv[j as int].agent]);
            let th = TeamTheme { shared_evidence: string_of(&t), agents, finding_count: 2 };
            let k = t.len();
            return Some((th, k));
        }
    }
    None
}

/// The cross-cutting themes of a team's results.
pub fn themes(rs: &Vec<TeamAgentResult>) -> (r: Vec<TeamTheme>)
    ensures
        r@.map_values(|t: TeamTheme| t@) == themes_spec(result_views(rs@)),
{
    let ghost rv = result_views(rs@);
    let n = rs.len();
    let mut evs: Vec<Vec<Vec<char>>> = Vec::new();
    let mut k: usize = 0;
    while k < n
        invariant
            k <= n == rs@.len(),
            rv == result_views(rs@),
            evs@.len() == k,
            forall|m: int| 0 <= m < k ==> crate::strs::views(#[trigger] evs@[m]@) == evidences(rs@[m]@),
        decreases n - k,
    {
        let e = evidence_chars(&rs[k].findings);
        assert(crate::strs::views(e@) =~= evidences(rs@[k as int]@));
        evs.push(e);
        k = k + 1;
    }
    let mut all: Vec<(TeamTheme, usize)> = Vec::new();
    let mut i: usize = 0;
    assert(keyed_views(all@) =~= keyed(themes_upto(rv, 0)));
    while i < n
        invariant
            i <= n == rs@.len(),
            rv == result_views(rs@),
            evs@.len() == n,
            forall|m: int| 0 <= m < n ==> crate::strs::views(#[trigger] evs@[m]@) == evidences(rs@[m]@),
            keyed_views(all@) == keyed(themes_upto(rv, i as int)),
        decreases n - i,
    {
        let mut j: usize = i + 1;
        assert(themes_upto(rv, i as int) + themes_row(rv, i as int, j as int) =~= themes_upto(rv, i as int));
        while j < n
            invariant
                i < j <= n == rs@.len(),
                rv == result_views(rs@),
                evs@.len() == n,
                forall|m: int|
                    0 <= m < n ==> crate::strs::views(#[trigger] evs@[m]@) == evidences(rs@[m]@),
                keyed_views(all@) == keyed(themes_upto(rv, i as int) + themes_row(rv, i as int, j as int)),
            decreases n - j,
        {
            let ghost before = themes_upto(rv, i as int) + themes_row(rv, i as int, j as int);
            assert(themes_upto(rv, i as int) + themes_row(rv, i as int, j + 1) =~= before + theme_for(
                rv,
                i as int,
                j as int,
            ));
            match theme_exec(rs, &evs, i, j) {
                Some(p) => {
                    let ghost pv = p.0@;
                    let ghost old_k = keyed_views(all@);
                    all.push(p);
                    assert(keyed_views(all@) =~= old_k.push((pv, pv.shared_evidence.len() as usize)));
                    assert(keyed(before + seq![pv]) =~= keyed(before).push((pv, pv.shared_evidence.len() as usize)));
                },
                None => {
                    assert(before + Seq::<TeamThemeV>::empty() =~= before);
                },
            }
            j = j + 1;
        }
        i = i + 1;
    }
    let ghost allv = all@;
    let sorted = sort_desc_exec(all);
    proof {
        crate::order::lemma_sort_desc_map(allv, |t: TeamTheme| t@);
        assert(allv.map_values(|p: (TeamTheme, usize)| ((|t: TeamTheme| t@)(p.0), p.1)) =~= keyed_views(allv));
        assert(sort_desc(allv).map_values(|p: (TeamTheme, usize)| ((|t: TeamTheme| t@)(p.0), p.1)) =~= keyed_views(sorted@));
        crate::order::lemma_sort_desc_len(allv);
    }
    let ghost ranked = sort_desc(keyed(themes_upto(rv, n as int))).map_values(|p: (TeamThemeV, usize)| p.0);
    assert(keyed_views(sorted@) == sort_desc(keyed(themes_upto(rv, n as int))));
    let m = if sorted.len() < 5 { sorted.len() } else { 5 };
    let mut rest = sorted;
    let ghost sv = rest@;
    let mut r: Vec<TeamTheme> = Vec::new();
    let mut c: usize = 0;
    while c < m
        invariant
            c <= m <= sv.len(),
            rest@ == sv.skip(c as int),
            keyed_views(sv) == sort_desc(keyed(themes_upto(rv, n as int))),
            r@.map_values(|t: TeamTheme| t@) == ranked.take(c as int),
            ranked == sort_desc(keyed(themes_upto(rv, n as int))).map_values(|p: (TeamThemeV, usize)| p.0),
        decreases m - c,
    {
        let p = rest.remove(0);
        assert(p == sv[c as int]);
        assert(keyed_views(sv)[c as int] == (p.0@, p.1));
        assert(ranked[c as int] == p.0@);
        let ghost old_r = r@.map_values(|t: TeamTheme| t@);
        r.push(p.0);
        assert(r@.map_values(|t: TeamTheme| t@) =~= old_r.push(p.0@));
        assert(ranked.take(c + 1) =~= ranked.take(c as int).push(ranked[c as int]));
        assert(rest@ =~= sv.skip(c + 1));
        c = c + 1;
    }
    proof {
        let sp = themes_spec(rv);
        assert(ranked.len() == sv.len());
        assert(sp =~= ranked.take(m as int));
    }
    r
}

pub open spec fn item_views(v: Seq<(AgentKind, String)>) -> Seq<(AgentKind, Seq<char>)> {
    v.map_values(|p: (AgentKind, String)| (p.0, p.1@))
}

fn flagged_exec(rs: &Vec<TeamAgentResult>) -> (r: Vec<(AgentKind, String)>)
    ensures
        item_views(r@) == flagged(result_views(rs@)),
{
    let ghost rv = result_views(rs@);
    let mut r: Vec<(AgentKind, String)> = Vec::new();
    let mut i: usize = 0;
    while i < rs.len()
        invariant
            i <= rs@.len(),
            rv == result_views(rs@),
            item_views(r@) == flagged(rv.take(i as int)),
        decreases rs.len() - i,
    {
        let fs = &rs[i].findings;
        let agent = rs[i].agent;
        let ghost fv = finding_views(fs@);
        let ghost pre = flagged(rv.take(i as int));
        assert(rv[i as int] == rs@[i as int]@);
        let mut j: usize = 0;
        assert(pre + flag_items_of(agent, fv.take(0)) =~= pre);
        while j < fs.len()
            invariant
                j <= fs@.len(),
                fv == finding_views(fs@),
                item_views(r@) == pre + flag_items_of(agent, fv.take(j as int)),
            decreases fs.len() - j,
        {
            assert(fv.take(j + 1).drop_last() =~= fv.take(j as int));
            assert(fv.take(j + 1).last() == fs@[j as int]@);
            if fs[j].severity == Severity::Flag {
                let ghost old_v = item_views(r@);
                r.push((agent, fs[j].claim.clone()));
                assert(item_views(r@) =~= old_v.push((agent, fs@[j as int]@.claim)));
            }
            j = j + 1;
        }
        assert(fv.take(fs@.len() as int) =~= fv);
        assert(rv.take(i + 1).drop_last() =~= rv.take(i as int));
        assert(rv.take(i + 1).last() == rv[i as int]);
        i = i + 1;
    }
    assert(rv.take(rs@.len() as int) =~= rv);
    r
}

/// Some item among the first `k` of `iv` normalizes to `y`.
pub open spec fn seen_before(iv: Seq<(AgentKind, Seq<char>)>, k: int, y: Seq<char>) -> bool {
    exists|j: int| 0 <= j < k && #[trigger] normalized(iv[j].1) == y
}

/// Some text of `v` is `y`.
pub open spec fn in_texts(v: Seq<Vec<char>>, y: Seq<char>) -> bool {
    exists|m: int| 0 <= m < v.len() && #[trigger] v[m]@ == y
}

fn contains_text(seen: &Vec<Vec<char>>, x: &Vec<char>) -> (r: bool)
    ensures
        r == in_texts(seen@, x@),
{
    let mut m: usize = 0;
    while m < seen.len()
        invariant
            m <= seen@.len(),
            forall|k: int| 0 <= k < m ==> seen@[k]@ != x@,
        decreases seen.len() - m,
    {
        if seen[m].len() == x.len() && crate::strs::matches_at(&seen[m], x, 0) {
            assert(seen@[m as int]@ =~= seen@[m as int]@.subrange(0, x@.len() as int));
            return true;
        }
        proof {
            if seen@[m as int]@ == x@ {
                assert(seen@[m as int]@.subrange(0, x@.len() as int) =~= x@);
            }
        }
        m = m + 1;
    }
    false
}

fn dedup_exec(items: Vec<(AgentKind, String)>) -> (r: Vec<(AgentKind, String)>)
    ensures
        item_views(r@) == dedup(item_views(items@)),
{
    let ghost iv = item_views(items@);
    let mut items = items;
    let mut kept: Vec<(AgentKind, String)> = Vec::new();
    let mut seen: Vec<Vec<char>> = Vec::new();
    let ghost mut k: int = 0;
    let ghost orig = items@;
    while items.len() > 0
        invariant
            0 <= k <= iv.len(),
            iv == item_views(orig),
            items@ == orig.skip(k),
            item_views(kept@) == dedup(iv.take(k)),
            forall|y: Seq<char>| #[trigger] seen_before(iv, k, y) <==> in_texts(seen@, y),
        decreases items.len(),
    {
        let it = items.remove(0);
        assert(item_views(orig)[k] == (it.0, it.1@));
        let nm = chars_of(normalize_claim(it.1.as_str()).as_str());
        let ghost x = normalized(iv[k].1);
        assert(nm@ == x);
        let dup = contains_text(&seen, &nm);
        assert(dup == seen_before(iv, k, x));
        let ghost pre = iv.take(k);
        let ghost t1 = iv.take(k + 1);
        assert(t1.drop_last() =~= pre);
        assert(t1.last() == iv[k]);
        proof {
            assert((exists|j: int|
                0 <= j < t1.len() - 1 && normalized(#[trigger] t1[j].1) == normalized(t1.last().1))
                == seen_before(iv, k, x)) by {
                if seen_before(iv, k, x) {
                    let j = choose|j: int| 0 <= j < k && #[trigger] normalized(iv[j].1) == x;
                    assert(t1[j] == iv[j]);
                }
                if exists|j: int|
                    0 <= j < t1.len() - 1 && normalized(#[trigger] t1[j].1) == normalized(
                        t1.last().1,
                    ) {
                    let j = choose|j: int|
                        0 <= j < t1.len() - 1 && normalized(#[trigger] t1[j].1) == normalized(
                            t1.last().1,
                        );
                    assert(t1[j] == iv[j]);
                }
            }
        }
        let ghost old_seen = seen@;
        if !dup {
            let ghost old_k = item_views(kept@);
            kept.push(it);
            seen.push(nm);
            assert(item_views(kept@) =~= old_k.push(iv[k]));
        }
        proof {
            assert forall|y: Seq<char>| #[trigger] seen_before(iv, k + 1, y) <==> in_texts(seen@, y) by {
                if seen_before(iv, k + 1, y) {
                    let j = choose|j: int| 0 <= j < k + 1 && #[trigger] normalized(iv[j].1) == y;
                    if j == k {
                        if !dup {
                            assert(seen@[seen@.len() - 1]@ == y);
                        }
                    } else {
                        assert(seen_before(iv, k, y));
                        let m = choose|m: int| 0 <= m < old_seen.len() && #[trigger] old_seen[m]@ == y;
                        assert(seen@[m]@ == y);
                    }
                }
                if in_texts(seen@, y) {
                    let m = choose|m: int| 0 <= m < seen@.len() && #[trigger] seen@[m]@ == y;
                    if !dup && m == seen@.len() - 1 {
                        assert(normalized(iv[k].1) == y);
                    } else {
                        assert(old_seen[m]@ == y);
                        assert(in_texts(old_seen, y));
                        assert(seen_before(iv, k, y));
                        let j = choose|j: int| 0 <= j < k && #[trigger] normalized(iv[j].1) == y;
                        assert(0 <= j < k + 1);
                    }
                }
            }
            assert(items@ =~= orig.skip(k + 1));
            k = k + 1;
        }
    }
    assert(iv.take(k) =~= iv);
    kept
}

pub open spec fn action_views(v: Seq<PriorityAction>) -> Seq<PriorityActionV> {
    v.map_values(|a: PriorityAction| a@)
}

/// The priority actions of a team's results.
pub fn actions(rs: &Vec<TeamAgentResult>) -> (r: Vec<PriorityAction>)
    ensures
        action_views(r@) == actions_spec(result_views(rs@)),
{
    let ghost rv = result_views(rs@);
    let items = flagged_exec(rs);
    let d = dedup_exec(items);
    let ghost dv = item_views(d@);
    assert(dv == dedup(flagged(rv)));
    let mut dd = d;
    let ghost dorig = dd@;
    let mut keyed_items: Vec<((AgentKind, String), usize)> = Vec::new();
    let ghost mut k: int = 0;
    let ghost f = |x: (AgentKind, String)| (x.0, x.1@);
    while dd.len() > 0
        invariant
            0 <= k <= dorig.len(),
            dd@ == dorig.skip(k),
            dv == item_views(dorig),
            keyed_items@ == dorig.take(k).map_values(
                |x: (AgentKind, String)| (x, (14 - x.0.order()) as usize),
            ),
        decreases dd.len(),
    {
        let x = dd.remove(0);
        assert(x == dorig[k]);
        let key = 14 - x.0.position();
        let ghost old_k = keyed_items@;
        keyed_items.push((x, key));
        proof {
            assert(dorig.take(k + 1) =~= dorig.take(k).push(dorig[k]));
            assert(keyed_items@ =~= dorig.take(k + 1).map_values(
                |x: (AgentKind, String)| (x, (14 - x.0.order()) as usize),
            ));
            assert(dd@ =~= dorig.skip(k + 1));
            k = k + 1;
        }
    }
    assert(dorig.take(k) =~= dorig);
    let ghost kv = keyed_items@;
    let sorted = sort_desc_exec(keyed_items);
    let ghost ordered = by_agent(dedup(flagged(rv)));
    proof {
        crate::order::lemma_sort_desc_map(kv, f);
        crate::order::lemma_sort_desc_len(kv);
        assert(kv.map_values(|p: ((AgentKind, String), usize)| (f(p.0), p.1)) =~= dv.map_values(
            |x: (AgentKind, Seq<char>)| (x, (14 - x.0.order()) as usize),
        ));
        assert(ordered =~= sorted@.map_values(|p: ((AgentKind, String), usize)| f(p.0)));
    }
    let n = sorted.len();
    let mut rest = sorted;
    let ghost sv = rest@;
    let mut out: Vec<PriorityAction> = Vec::new();
    let mut p: u8 = 1;
    let mut idx: usize = 0;
    while idx < n
        invariant
            idx <= n == sv.len() == ordered.len(),
            rest@ == sv.skip(idx as int),
            f == (|x: (AgentKind, String)| (x.0, x.1@)),
            ordered == sv.map_values(|p: ((AgentKind, String), usize)| f(p.0)),
            p == sat_u8(idx + 1),
            action_views(out@) == Seq::new(
                if idx < 12 { idx as nat } else { 12 },
                |i: int|
                    PriorityActionV {
                        priority: sat_u8(i + 1),
                        source_agent: ordered[i].0,
                        action: ordered[i].1,
                    },
            ),
        decreases n - idx,
    {
        let x = rest.remove(0);
        assert(x == sv[idx as int]);
        assert(ordered[idx as int] == f(x.0));
        assert(f(x.0) == ((x.0).0, (x.0).1@));
        if idx < 12 {
            let a = PriorityAction { priority: p, source_agent: (x.0).0, action: (x.0).1 };
            let ghost old_v = action_views(out@);
            out.push(a);
            assert(action_views(out@) =~= old_v.push(a@));
            assert(a@ == PriorityActionV {
                priority: sat_u8(idx + 1),
                source_agent: ordered[idx as int].0,
                action: ordered[idx as int].1,
            });
            assert(action_views(out@) =~= Seq::new(
                if idx + 1 < 12 { (idx + 1) as nat } else { 12 },
                |i: int|
                    PriorityActionV {
                        priority: sat_u8(i + 1),
                        source_agent: ordered[i].0,
                        action: ordered[i].1,
                    },
            ));
        } else {
            assert(action_views(out@) =~= Seq::new(
                if idx + 1 < 12 { (idx + 1) as nat } else { 12 },
                |i: int|
                    PriorityActionV {
                        priority: sat_u8(i + 1),
                        source_agent: ordered[i].0,
                        action: ordered[i].1,
                    },
            ));
        }
        p = p.saturating_add(1);
        assert(rest@ =~= sv.skip(idx + 1));
        idx = idx + 1;
    }
    let m: usize = if n < 12 { n } else { 12 };
    p = (m + 1) as u8;
    let ghost kept = action_views(out@);
    let ghost ps_all = partials(rv, rv.len() as int);
    let mut j: usize = 0;
    let mut cnt: usize = 0;
    while j < rs.len()
        invariant
            j <= rs@.len(),
            rv == result_views(rs@),
            m == (if ordered.len() < 12 { ordered.len() as int } else { 12 }),
            m <= 12,
            cnt == partials(rv, j as int).len(),
            cnt <= j,
            p == sat_u8(m + 1 + cnt),
            action_views(out@) == kept + Seq::new(
                partials(rv, j as int).len(),
                |q: int|
                    PriorityActionV {
                        priority: sat_u8(m + 1 + q),
                        source_agent: partials(rv, j as int)[q].0,
                        action: partial_action(partials(rv, j as int)[q].1),
                    },
            ),
        decreases rs.len() - j,
    {
        assert(rv[j as int] == rs@[j as int]@);
        let ghost pj = partials(rv, j as int);
        if rs[j].error.is_some() {
            let mut msg = String::from_str("Review partial: ");
            msg.append(rs[j].agent_name.as_str());
            msg.append(" reported no classifiable signal — verify manually.");
            let a = PriorityAction { priority: p, source_agent: rs[j].agent, action: msg };
            let ghost old_v = action_views(out@);
            out.push(a);
            let ghost pj1 = partials(rv, j + 1);
            assert(pj1 == pj.push((rv[j as int].agent, rv[j as int].agent_name)));
            assert(action_views(out@) =~= old_v.push(a@));
            assert(a@ == PriorityActionV {
                priority: sat_u8(m + 1 + pj.len()),
                source_agent: pj1[pj.len() as int].0,
                action: partial_action(pj1[pj.len() as int].1),
            });
            assert(action_views(out@) =~= kept + Seq::new(
                pj1.len(),
                |q: int|
                    PriorityActionV {
                        priority: sat_u8(m + 1 + q),
                        source_agent: pj1[q].0,
                        action: partial_action(pj1[q].1),
                    },
            ));
            p = p.saturating_add(1);
            cnt = cnt + 1;
        } else {
            assert(partials(rv, j + 1) == pj);
        }
        j = j + 1;
    }
    out
}

/// `min(n, cap)`.
pub open spec fn capped(n: nat, cap: nat) -> nat {
    if n < cap {
        n
    } else {
        cap
    }
}

proof fn lemma_score_capped(f: nat, n: nat)
    ensures
        risk_score_of(capped(f, 20), capped(n, 100)) == risk_score_of(f, n),
{
}

/// The synthesis of a team's results: risk score and band, cross-cutting themes
/// and priority actions.
pub fn synthesize(results: &Vec<TeamAgentResult>) -> (s: Synthesis)
    ensures
        s@ == synthesis_spec(result_views(results@)),
{
    let ghost rv = result_views(results@);
    // Past these caps the score is 200 whatever the rest adds.
    let mut flags: usize = 0;
    let mut notes: usize = 0;
    let mut i: usize = 0;
    while i < results.len()
        invariant
            i <= results@.len(),
            rv == result_views(results@),
            flags == capped(sum_flags(rv.take(i as int)), 20),
            notes == capped(sum_notes(rv.take(i as int)), 100),
        decreases results.len() - i,
    {
        assert(rv.take(i + 1).drop_last() =~= rv.take(i as int));
        assert(rv.take(i + 1).last() == results@[i as int]@);
        let fc = results[i].flag_count;
        if fc >= 20 - flags {
            flags = 20;
        } else {
            flags = flags + fc;
        }
        let nc = results[i].note_count;
        if nc >= 100 - notes {
            notes = 100;
        } else {
            notes = notes + nc;
        }
        i = i + 1;
    }
    assert(rv.take(results@.len() as int) =~= rv);
    let raw = flags * 10 + notes * 2;
    let score: u16 = if raw < 200 {
        raw as u16
    } else {
        200
    };
    proof {
        lemma_score_capped(sum_flags(rv), sum_notes(rv));
    }
    let band = risk_band_for(score);
    let th = themes(results);
    let ac = actions(results);
    let s = Synthesis { risk_score: score, risk_band: band, cross_cutting_themes: th, priority_actions: ac };
    assert(s@.priority_actions =~= action_views(ac@));
    s
}

/// An agent's result with its counts.
pub fn to_team_result(r: AgentResult) -> (t: TeamAgentResult)
    ensures
        t@ == team_result(r@),
        t.flag_count + t.note_count == t.finding_count,
{
    let (f, n, i) = count_severity(&r.findings);
    let fc = r.findings.len();
    TeamAgentResult {
        agent: r.agent,
        agent_name: String::from_str(r.agent.display_name()),
        source: r.source,
        attribution_note: r.attribution_note,
        findings: r.findings,
        data: r.data,
        error: r.error,
        finding_count: fc,
        flag_count: f,
        note_count: n + i,
    }
}

// ───────────────────────────── the team ─────────────────────────────

/// The agents a request asks for: the listed ones, or all fifteen when the list
/// is absent or empty.
pub open spec fn requested_kinds(agents: Option<Seq<AgentKind>>) -> Seq<AgentKind> {
    match agents {
        Some(l) => if l.len() > 0 {
            l
        } else {
            all_kinds_spec()
        },
        None => all_kinds_spec(),
    }
}

pub open spec fn agents_view(req: TeamRequest) -> Option<Seq<AgentKind>> {
    match req.agents {
        Some(v) => Some(v@),
        None => None,
    }
}

/// The per-agent results for `kinds`, in order.
pub open spec fn team_results(kinds: Seq<AgentKind>, text: Seq<char>) -> Seq<TeamAgentResultV> {
    kinds.map_values(|k: AgentKind| team_result(agent_spec(k, text)))
}

pub open spec fn band_word(b: RiskBand) -> Seq<char> {
    match b {
        RiskBand::Low => "low"@,
        RiskBand::Moderate => "moderate"@,
        RiskBand::Elevated => "elevated"@,
        RiskBand::Critical => "critical"@,
    }
}

/// The rollup line of a team review.
pub open spec fn team_summary(rs: Seq<TeamAgentResultV>, band: RiskBand) -> Seq<char> {
    let head = "Laura's team ran "@ + decimal(rs.len()) + " agents: "@ + decimal(sum_findings(rs))
        + " findings ("@ + decimal(sum_flags(rs)) + " flags, "@ + decimal(sum_notes(rs))
        + " notes)."@;
    if partial_count(rs) == 0 {
        head + " Risk band: "@ + band_word(band) + "."@
    } else {
        head + " "@ + decimal(partial_count(rs))
            + " agent(s) partial — treat as partial, not a clean bill."@
    }
}

pub open spec fn refused_summary() -> Seq<char> {
    "Refused: submitted text is empty — nothing for the team to review."@
}

/// The answer to a blank text: refused, with nothing run and nothing found.
pub open spec fn refused_view() -> TeamResponseV {
    TeamResponseV {
        summary: refused_summary(),
        complete: false,
        agents_run: 0,
        agents_partial: 0,
        total_findings: 0,
        total_flags: 0,
        total_notes: 0,
        synthesis: SynthesisV {
            risk_score: 0,
            risk_band: RiskBand::Low,
            cross_cutting_themes: seq![],
            priority_actions: seq![],
        },
        results: seq![],
    }
}

/// What Laura's team answers for `text` and the requested agents.
pub open spec fn team_spec(text: Seq<char>, agents: Option<Seq<AgentKind>>) -> TeamResponseV {
    if trim(text).len() == 0 {
        refused_view()
    } else {
        let rs = team_results(requested_kinds(agents), text);
        let syn = synthesis_spec(rs);
        TeamResponseV {
            summary: team_summary(rs, syn.risk_band),
            complete: partial_count(rs) == 0,
            agents_run: rs.len(),
            agents_partial: partial_count(rs),
            total_findings: sum_findings(rs),
            total_flags: sum_flags(rs),
            total_notes: sum_notes(rs),
            synthesis: syn,
            results: rs,
        }
    }
}

fn requested(req: &TeamRequest) -> (r: Vec<AgentKind>)
    ensures
        r@ == requested_kinds(agents_view(*req)),
{
    match &req.agents {
        Some(list) => {
            if list.len() > 0 {
                let mut r: Vec<AgentKind> = Vec::new();
                let mut i: usize = 0;
                while i < list.len()
                    invariant
                        i <= list@.len(),
                        r@ == list@.take(i as int),
                    decreases list.len() - i,
                {
                    r.push(list[i]);
                    assert(r@ =~= list@.take(i + 1));
                    i = i + 1;
                }
                assert(list@.take(list@.len() as int) =~= list@);
                r
            } else {
                all_kinds()
            }
        },
        None => all_kinds(),
    }
}

fn band_str(b: RiskBand) -> (r: &'static str)
    ensures
        r@ == band_word(b),
{
    match b {
        RiskBand::Low => "low",
        RiskBand::Moderate => "moderate",
        RiskBand::Elevated => "elevated",
        RiskBand::Critical => "critical",
    }
}

fn refused() -> (r: TeamResponse)
    ensures
        r@ == refused_view(),
{
    let r = TeamResponse {
        summary: String::from_str("Refused: submitted text is empty — nothing for the team to review."),
        complete: false,
        agents_run: 0,
        agents_partial: 0,
        total_findings: 0,
        total_flags: 0,
        total_notes: 0,
        synthesis: Synthesis {
            risk_score: 0,
            risk_band: RiskBand::Low,
            cross_cutting_themes: Vec::new(),
            priority_actions: Vec::new(),
        },
        results: Vec::new(),
    };
    assert(r@.synthesis.cross_cutting_themes =~= seq![]);
    assert(r@.synthesis.priority_actions =~= seq![]);
    assert(r@.results =~= seq![]);
    r
}

proof fn lemma_sums_push(rs: Seq<TeamAgentResultV>, x: TeamAgentResultV)
    ensures
        sum_findings(rs.push(x)) == sum_findings(rs) + x.finding_count,
        sum_flags(rs.push(x)) == sum_flags(rs) + x.flag_count,
        sum_notes(rs.push(x)) == sum_notes(rs) + x.note_count,
        partial_count(rs.push(x)) == partial_count(rs) + if x.error is Some {
            1nat
        } else {
            0nat
        },
{
    assert(rs.push(x).drop_last() =~= rs);
}

/// Runs Laura's team over the request's text: every requested agent (all fifteen by
/// default) in order, with the rollup and the synthesis. A blank text is refused.
pub fn review_team(req: &TeamRequest) -> (r: TeamResponse)
    requires
        req.agents matches Some(l) ==> l@.len() * 20 <= usize::MAX,
    ensures
        r@ == team_spec(req.text@, agents_view(*req)),
{
    let tc = chars_of(req.text.as_str());
    if is_blank(&tc) {
        return refused();
    }
    let kinds = requested(req);
    let ghost ks = kinds@;
    let ghost text = req.text@;
    assert(ks.len() * 20 <= usize::MAX) by {
        reveal_with_fuel(crate::agents::all_kinds_spec, 1);
    }
    let mut results: Vec<TeamAgentResult> = Vec::new();
    let mut total_findings: usize = 0;
    let mut total_flags: usize = 0;
    let mut total_notes: usize = 0;
    let mut partial: usize = 0;
    let mut i: usize = 0;
    while i < kinds.len()
        invariant
            i <= ks.len(),
            kinds@ == ks,
            text == req.text@,
            ks.len() * 20 <= usize::MAX,
            result_views(results@) == team_results(ks.take(i as int), text),
            total_findings == sum_findings(result_views(results@)),
            total_flags == sum_flags(result_views(results@)),
            total_notes == sum_notes(result_views(results@)),
            partial == partial_count(result_views(results@)),
            total_findings <= 20 * i,
            total_flags + total_notes == total_findings,
            partial <= i,
        decreases kinds.len() - i,
    {
        let kind = kinds[i];
        let a = run_agent(kind, req.text.as_str());
        proof {
            crate::agents::lemma_agent_findings_bound(kind, text);
        }
        let t = to_team_result(a);
        let ghost old_v = result_views(results@);
        proof {
            lemma_sums_push(old_v, t@);
        }
        total_findings = total_findings + t.finding_count;
        total_flags = total_flags + t.flag_count;
        total_notes = total_notes + t.note_count;
        if t.error.is_some() {
            partial = partial + 1;
        }
        results.push(t);
        assert(result_views(results@) =~= old_v.push(t@));
        assert(ks.take(i + 1) =~= ks.take(i as int).push(kind));
        assert(team_results(ks.take(i + 1), text) =~= team_results(ks.take(i as int), text).push(
            team_result(agent_spec(kind, text)),
        ));
        i = i + 1;
    }
    assert(ks.take(ks.len() as int) =~= ks);
    let complete = partial == 0;
    let synthesis = synthesize(&results);
    let mut summary = String::from_str("Laura's team ran ");
    summary.append(decimal_string(results.len()).as_str());
    summary.append(" agents: ");
    summary.append(decimal_string(total_findings).as_str());
    summary.append(" findings (");
    summary.append(decimal_string(total_flags).as_str());
    summary.append(" flags, ");
    summary.append(decimal_string(total_notes).as_str());
    summary.append(" notes).");
    if complete {
        summary.append(" Risk band: ");
        summary.append(band_str(synthesis.risk_band));
        summary.append(".");
    } else {
        summary.append(" ");
        summary.append(decimal_string(partial).as_str());
        summary.append(" agent(s) partial — treat as partial, not a clean bill.");
    }
    let n = results.len();
    TeamResponse {
        summary,
        complete,
        agents_run: n,
        agents_partial: partial,
        total_findings,
        total_flags,
        total_notes,
        synthesis,
        results,
    }
}

// ───────────────────────────── laws ─────────────────────────────

/// `w` is a run of at least 16 characters that occurs both in an evidence of `a`
/// and in an evidence of `b`.
pub open spec fn evidence_overlap(w: Seq<char>, a: TeamAgentResultV, b: TeamAgentResultV) -> bool {
    &&& w.len() >= 16
    &&& exists|p: int| 0 <= p < a.findings.len() && is_substring(w, #[trigger] a.findings[p].evidence)
    &&& exists|q: int| 0 <= q < b.findings.len() && is_substring(w, #[trigger] b.findings[q].evidence)
}

/// A cross-cutting theme as the synthesis reports one: two agents, taken from two
/// different results in result order, whose evidences share a run of at least 16
/// characters; the theme's text is that run trimmed, not blank; and a finding
/// count of two.
pub open spec fn theme_shape(t: TeamThemeV, rs: Seq<TeamAgentResultV>) -> bool {
    &&& t.agents.len() == 2
    &&& t.finding_count == 2
    &&& trim(t.shared_evidence).len() > 0
    &&& exists|i: int, j: int, w: Seq<char>|
        0 <= i < j < rs.len() && t.agents == seq![rs[i].agent, rs[j].agent] && t.shared_evidence
            == trim(w) && #[trigger] evidence_overlap(w, rs[i], rs[j])
}

proof fn lemma_best_of_member(cs: Seq<Seq<char>>)
    ensures
        best_of(cs).len() > 0 ==> exists|m: int| 0 <= m < cs.len() && #[trigger] cs[m] == best_of(cs),
    decreases cs.len(),
{
    if cs.len() > 0 {
        let pre = cs.drop_last();
        lemma_best_of_member(pre);
        let b = best_of(pre);
        if cs.last().len() > b.len() {
            assert(cs[cs.len() - 1] == best_of(cs));
        } else if b.len() > 0 {
            let m = choose|m: int| 0 <= m < pre.len() && #[trigger] pre[m] == b;
            assert(cs[m] == pre[m]);
        }
    }
}

proof fn lemma_cands_member(a: Seq<Seq<char>>, b: Seq<Seq<char>>, m: int)
    requires
        0 <= m < cands(a, b).len(),
    ensures
        exists|p: int, q: int|
            0 <= p < a.len() && 0 <= q < b.len() && #[trigger] lcs(a[p], b[q]) == cands(a, b)[m],
    decreases a.len(),
{
    let pre = cands(a.drop_last(), b);
    let row = b.map_values(|y: Seq<char>| lcs(a.last(), y));
    assert(cands(a, b) == pre + row);
    if m < pre.len() {
        assert(cands(a, b)[m] == pre[m]);
        lemma_cands_member(a.drop_last(), b, m);
        let (p, q) = choose|p: int, q: int|
            0 <= p < a.drop_last().len() && 0 <= q < b.len() && #[trigger] lcs(a.drop_last()[p], b[q])
                == pre[m];
        assert(a.drop_last()[p] == a[p]);
        assert(lcs(a[p], b[q]) == cands(a, b)[m]);
    } else {
        let q = m - pre.len();
        assert(cands(a, b)[m] == row[q]);
        assert(lcs(a[a.len() - 1], b[q]) == cands(a, b)[m]);
    }
}

proof fn lemma_best_overlap(a: TeamAgentResultV, b: TeamAgentResultV)
    requires
        best_of(cands(evidences(a), evidences(b))).len() >= 16,
    ensures
        evidence_overlap(best_of(cands(evidences(a), evidences(b))), a, b),
{
    let ea = evidences(a);
    let eb = evidences(b);
    let cs = cands(ea, eb);
    let best = best_of(cs);
    lemma_best_of_member(cs);
    let m = choose|m: int| 0 <= m < cs.len() && #[trigger] cs[m] == best;
    lemma_cands_member(ea, eb, m);
    let (p, q) = choose|p: int, q: int|
        0 <= p < ea.len() && 0 <= q < eb.len() && #[trigger] lcs(ea[p], eb[q]) == cs[m];
    crate::lcs::lemma_lcs_in_both(ea[p], eb[q]);
    assert(ea[p] == a.findings[p].evidence);
    assert(eb[q] == b.findings[q].evidence);
    assert(is_substring(best, a.findings[p].evidence));
    assert(is_substring(best, b.findings[q].evidence));
}

proof fn lemma_theme_for_shape(rs: Seq<TeamAgentResultV>, i: int, j: int)
    requires
        0 <= i < j < rs.len(),
    ensures
        forall|k: int|
            0 <= k < theme_for(rs, i, j).len() ==> theme_shape(#[trigger] theme_for(rs, i, j)[k], rs),
{
    let best = best_of(cands(evidences(rs[i]), evidences(rs[j])));
    if best.len() >= 16 && trim(best).len() > 0 {
        crate::strs::lemma_trim_twice_nonempty(best);
        lemma_best_overlap(rs[i], rs[j]);
        let t = theme_for(rs, i, j)[0];
        assert(t.agents == seq![rs[i].agent, rs[j].agent]);
        assert(t.shared_evidence == trim(best));
        assert(evidence_overlap(best, rs[i], rs[j]));
    }
}

proof fn lemma_themes_row_shape(rs: Seq<TeamAgentResultV>, i: int, j: int)
    requires
        0 <= i,
        j <= rs.len(),
    ensures
        forall|k: int|
            0 <= k < themes_row(rs, i, j).len() ==> theme_shape(#[trigger] themes_row(rs, i, j)[k], rs),
    decreases j - i,
{
    if j > i + 1 {
        lemma_themes_row_shape(rs, i, j - 1);
        lemma_theme_for_shape(rs, i, j - 1);
        let a = themes_row(rs, i, j - 1);
        let b = theme_for(rs, i, j - 1);
        assert forall|k: int| 0 <= k < (a + b).len() implies theme_shape(#[trigger] (a + b)[k], rs) by {
            if k < a.len() {
                assert((a + b)[k] == a[k]);
            } else {
                assert((a + b)[k] == b[k - a.len()]);
            }
        }
    }
}

proof fn lemma_themes_upto_shape(rs: Seq<TeamAgentResultV>, i: int)
    requires
        i <= rs.len(),
    ensures
        forall|k: int|
            0 <= k < themes_upto(rs, i).len() ==> theme_shape(#[trigger] themes_upto(rs, i)[k], rs),
    decreases i,
{
    if i > 0 {
        lemma_themes_upto_shape(rs, i - 1);
        lemma_themes_row_shape(rs, i - 1, rs.len() as int);
        let a = themes_upto(rs, i - 1);
        let b = themes_row(rs, i - 1, rs.len() as int);
        assert forall|k: int| 0 <= k < (a + b).len() implies theme_shape(#[trigger] (a + b)[k], rs) by {
            if k < a.len() {
                assert((a + b)[k] == a[k]);
            } else {
                assert((a + b)[k] == b[k - a.len()]);
            }
        }
    }
}

/// The cross-cutting themes are at most five; each names two agents of two
/// different results whose evidences share a run of at least 16 characters, and
/// that run, trimmed and not blank, as the shared text. A pair whose evidences
/// share no such run yields no theme.
pub proof fn law_themes_shape(rs: Seq<TeamAgentResultV>)
    ensures
        themes_spec(rs).len() <= 5,
        forall|k: int| 0 <= k < themes_spec(rs).len() ==> theme_shape(#[trigger] themes_spec(rs)[k], rs),
{
    let all = themes_upto(rs, rs.len() as int);
    lemma_themes_upto_shape(rs, rs.len() as int);
    let keyed_all = all.map_values(|t: TeamThemeV| (t, t.shared_evidence.len() as usize));
    let sorted = sort_desc(keyed_all);
    crate::order::lemma_sort_desc_members(keyed_all);
    crate::order::lemma_sort_desc_len(keyed_all);
    let ranked = sorted.map_values(|p: (TeamThemeV, usize)| p.0);
    let out = themes_spec(rs);
    assert forall|k: int| 0 <= k < out.len() implies theme_shape(#[trigger] out[k], rs) by {
        assert(out[k] == ranked[k]);
        assert(keyed_all.contains(sorted[k]));
        let j = choose|j: int| 0 <= j < keyed_all.len() && keyed_all[j] == sorted[k];
        assert(keyed_all[j].0 == all[j]);
    }
}

proof fn lemma_partials_none(rs: Seq<TeamAgentResultV>, n: int)
    requires
        n <= rs.len(),
        forall|k: int| 0 <= k < rs.len() ==> (#[trigger] rs[k]).error is None,
    ensures
        partials(rs, n).len() == 0,
    decreases n,
{
    if n > 0 {
        lemma_partials_none(rs, n - 1);
    }
}

/// The priority actions are numbered 1, 2, 3, … in list order (saturating at
/// 255).
pub proof fn law_priorities_contiguous(rs: Seq<TeamAgentResultV>)
    ensures
        forall|i: int|
            0 <= i < actions_spec(rs).len() ==> (#[trigger] actions_spec(rs)[i]).priority == sat_u8(
                i + 1,
            ),
{
    let d = dedup(flagged(rs));
    let keyed_d = d.map_values(|x: (AgentKind, Seq<char>)| (x, (14 - x.0.order()) as usize));
    crate::order::lemma_sort_desc_len(keyed_d);
    let ordered = by_agent(d);
    let n = ordered.len() as int;
    assert(n == d.len());
    let out = actions_spec(rs);
    assert forall|i: int| 0 <= i < out.len() implies (#[trigger] out[i]).priority == sat_u8(i + 1) by {
    }
}

pub open spec fn result_agents(rs: Seq<TeamAgentResultV>) -> Seq<AgentKind> {
    rs.map_values(|r: TeamAgentResultV| r.agent)
}

proof fn lemma_team_results_facts(kinds: Seq<AgentKind>, text: Seq<char>)
    ensures
        result_agents(team_results(kinds, text)) == kinds,
        trim(text).len() > 0 ==> forall|k: int|
            0 <= k < kinds.len() ==> (#[trigger] team_results(kinds, text)[k]).error is None,
{
    let rs = team_results(kinds, text);
    assert forall|k: int| 0 <= k < kinds.len() implies #[trigger] result_agents(rs)[k] == kinds[k] by {
        crate::agents::law_agent_identity(kinds[k], text);
    }
    assert(result_agents(rs) =~= kinds);
    if trim(text).len() > 0 {
        assert forall|k: int| 0 <= k < kinds.len() implies (#[trigger] rs[k]).error is None by {
            crate::agents::lemma_agent_spec_reads(kinds[k], text);
        }
    }
}

proof fn lemma_partial_count_none(rs: Seq<TeamAgentResultV>)
    requires
        forall|k: int| 0 <= k < rs.len() ==> (#[trigger] rs[k]).error is None,
    ensures
        partial_count(rs) == 0,
    decreases rs.len(),
{
    if rs.len() > 0 {
        let pre = rs.drop_last();
        assert forall|k: int| 0 <= k < pre.len() implies (#[trigger] pre[k]).error is None by {
            assert(pre[k] == rs[k]);
        }
        lemma_partial_count_none(pre);
    }
}

/// Laura's team runs exactly the requested agents, in the requested order (all
/// fifteen, in orchestration order, when the request names none); each result is
/// that agent's own result on the text with its counts; every agent reads the
/// text, so the review is complete with no partial agent.
pub proof fn law_team_runs_requested(text: Seq<char>, agents: Option<Seq<AgentKind>>)
    requires
        trim(text).len() > 0,
    ensures
        result_agents(team_spec(text, agents).results) == requested_kinds(agents),
        forall|i: int|
            0 <= i < team_spec(text, agents).results.len() ==> #[trigger] team_spec(
                text,
                agents,
            ).results[i] == team_result(agent_spec(requested_kinds(agents)[i], text)),
        team_spec(text, agents).agents_run == requested_kinds(agents).len(),
        agents is None ==> team_spec(text, agents).agents_run == 15,
        team_spec(text, agents).complete,
        team_spec(text, agents).agents_partial == 0,
{
    let ks = requested_kinds(agents);
    lemma_team_results_facts(ks, text);
    lemma_partial_count_none(team_results(ks, text));
}

/// A blank text is refused: no agent runs, nothing is found, and the review is
/// not complete.
pub proof fn law_team_refuses_blank(text: Seq<char>, agents: Option<Seq<AgentKind>>)
    requires
        trim(text).len() == 0,
    ensures
        team_spec(text, agents) == refused_view(),
        team_spec(text, agents).agents_run == 0,
        !team_spec(text, agents).complete,
        team_spec(text, agents).results.len() == 0,
{
}

proof fn lemma_team_result_counts(rs: Seq<TeamAgentResultV>)
    requires
        forall|k: int|
            0 <= k < rs.len() ==> (#[trigger] rs[k]).flag_count + rs[k].note_count == rs[k].finding_count,
    ensures
        sum_flags(rs) + sum_notes(rs) == sum_findings(rs),
    decreases rs.len(),
{
    if rs.len() > 0 {
        let pre = rs.drop_last();
        assert forall|k: int| 0 <= k < pre.len() implies (#[trigger] pre[k]).flag_count
            + pre[k].note_count == pre[k].finding_count by {
            assert(pre[k] == rs[k]);
        }
        lemma_team_result_counts(pre);
    }
}

/// The rollup adds up and the risk follows from it: flags and notes (informational
/// findings counted as notes) account for every finding; the risk score is at most
/// 200, zero exactly when there is neither a flag nor a note, and its band is the
/// band of the score.
pub proof fn law_team_rollup(text: Seq<char>, agents: Option<Seq<AgentKind>>)
    ensures
        team_spec(text, agents).total_flags + team_spec(text, agents).total_notes == team_spec(
            text,
            agents,
        ).total_findings,
        team_spec(text, agents).synthesis.risk_score <= 200,
        team_spec(text, agents).synthesis.risk_band == risk_band_of(
            team_spec(text, agents).synthesis.risk_score as int,
        ),
        (team_spec(text, agents).synthesis.risk_score == 0) == (team_spec(text, agents).total_flags
            == 0 && team_spec(text, agents).total_notes == 0),
{
    if trim(text).len() > 0 {
        let rs = team_results(requested_kinds(agents), text);
        assert forall|k: int| 0 <= k < rs.len() implies (#[trigger] rs[k]).flag_count
            + rs[k].note_count == rs[k].finding_count by {
            crate::lemma_count_sev_total(rs[k].findings);
        }
        lemma_team_result_counts(rs);
    }
}

/// In a team review of a non-blank text the priority actions are numbered 1, 2,
/// 3, … in order.
pub proof fn law_team_priorities_contiguous(text: Seq<char>, agents: Option<Seq<AgentKind>>)
    requires
        trim(text).len() > 0,
    ensures
        forall|i: int|
            0 <= i < team_spec(text, agents).synthesis.priority_actions.len() ==> (
            #[trigger] team_spec(text, agents).synthesis.priority_actions[i]).priority == sat_u8(i + 1),
{
    let rs = team_results(requested_kinds(agents), text);
    lemma_team_results_facts(requested_kinds(agents), text);
    lemma_partials_none(rs, rs.len() as int);
    law_priorities_contiguous(rs);
}

} // verus!
