//! The fifteen expert agents of Laura's team. Each agent is a function of the
//! submitted text: keyword checks over the lowercased text, every finding citing a
//! real span of the input, every result carrying its attribution note. An agent
//! with nothing to read (blank input) reports an error instead of findings.
use vstd::prelude::*;

use crate::schema::{finding, finding_views, join3, string_views, Finding, FindingV, Severity, Source};
use crate::strs::{
    any_contained, any_contained_exec, char_is_alphabetic, chars_of, contains, contains_str, find,
    find_exec, is_alphabetic_char, is_blank, lemma_find_occurs, lowercase, lowercase_of,
    present_terms, present_terms_exec, span_at, span_text, split_by, split_by_exec,
    str_views, string_of, subrange, trim, trim_vec, views, Delim, quotes_or_cut,
};
use crate::text::{anchor, anchor_chars, lemma_anchor_quotes};

verus! {

/// The fifteen specialist agents, in orchestration order.
#[derive(Debug, Clone, Copy, PartialEq, Eq, Structural)]
pub enum AgentKind {
    Osint,
    Security,
    LegalCompliance,
    Finance,
    Ops,
    Strategy,
    Ux,
    DataPrivacy,
    Ethics,
    ThreatModel,
    Reliability,
    Hiring,
    Brand,
    ResearchMethod,
    Product,
}

impl AgentKind {
    /// All fifteen agents, in orchestration order.
    pub const ALL: [AgentKind; 15] = [
        AgentKind::Osint,
        AgentKind::Security,
        AgentKind::LegalCompliance,
        AgentKind::Finance,
        AgentKind::Ops,
        AgentKind::Strategy,
        AgentKind::Ux,
        AgentKind::DataPrivacy,
        AgentKind::Ethics,
        AgentKind::ThreatModel,
        AgentKind::Reliability,
        AgentKind::Hiring,
        AgentKind::Brand,
        AgentKind::ResearchMethod,
        AgentKind::Product,
    ];

    /// The position of an agent in orchestration order.
    pub open spec fn order(self) -> nat {
        match self {
            AgentKind::Osint => 0,
            AgentKind::Security => 1,
            AgentKind::LegalCompliance => 2,
            AgentKind::Finance => 3,
            AgentKind::Ops => 4,
            AgentKind::Strategy => 5,
            AgentKind::Ux => 6,
            AgentKind::DataPrivacy => 7,
            AgentKind::Ethics => 8,
            AgentKind::ThreatModel => 9,
            AgentKind::Reliability => 10,
            AgentKind::Hiring => 11,
            AgentKind::Brand => 12,
            AgentKind::ResearchMethod => 13,
            AgentKind::Product => 14,
        }
    }

    /// The agent's stable wire name.
    pub open spec fn wire_name(self) -> Seq<char> {
        match self {
            AgentKind::Osint => "osint"@,
            AgentKind::Security => "security"@,
            AgentKind::LegalCompliance => "legal_compliance"@,
            AgentKind::Finance => "finance"@,
            AgentKind::Ops => "ops"@,
            AgentKind::Strategy => "strategy"@,
            AgentKind::Ux => "ux"@,
            AgentKind::DataPrivacy => "data_privacy"@,
            AgentKind::Ethics => "ethics"@,
            AgentKind::ThreatModel => "threat_model"@,
            AgentKind::Reliability => "reliability"@,
            AgentKind::Hiring => "hiring"@,
            AgentKind::Brand => "brand"@,
            AgentKind::ResearchMethod => "research_method"@,
            AgentKind::Product => "product"@,
        }
    }

    /// The agent's human-readable name.
    pub open spec fn display(self) -> Seq<char> {
        match self {
            AgentKind::Osint => "OSINT / Exposure"@,
            AgentKind::Security => "Security"@,
            AgentKind::LegalCompliance => "Legal & Compliance"@,
            AgentKind::Finance => "Finance"@,
            AgentKind::Ops => "Operations"@,
            AgentKind::Strategy => "Strategy"@,
            AgentKind::Ux => "UX / Accessibility"@,
            AgentKind::DataPrivacy => "Data Privacy"@,
            AgentKind::Ethics => "Ethics"@,
            AgentKind::ThreatModel => "Threat Model"@,
            AgentKind::Reliability => "Reliability"@,
            AgentKind::Hiring => "Hiring / People"@,
            AgentKind::Brand => "Brand & Comms"@,
            AgentKind::ResearchMethod => "Research Method"@,
            AgentKind::Product => "Product"@,
        }
    }

    pub fn as_str(self) -> (r: &'static str)
        ensures
            r@ == self.wire_name(),
    {
        match self {
            AgentKind::Osint => "osint",
            AgentKind::Security => "security",
            AgentKind::LegalCompliance => "legal_compliance",
            AgentKind::Finance => "finance",
            AgentKind::Ops => "ops",
            AgentKind::Strategy => "strategy",
            AgentKind::Ux => "ux",
            AgentKind::DataPrivacy => "data_privacy",
            AgentKind::Ethics => "ethics",
            AgentKind::ThreatModel => "threat_model",
            AgentKind::Reliability => "reliability",
            AgentKind::Hiring => "hiring",
            AgentKind::Brand => "brand",
            AgentKind::ResearchMethod => "research_method",
            AgentKind::Product => "product",
        }
    }

    pub fn display_name(self) -> (r: &'static str)
        ensures
            r@ == self.display(),
    {
        match self {
            AgentKind::Osint => "OSINT / Exposure",
            AgentKind::Security => "Security",
            AgentKind::LegalCompliance => "Legal & Compliance",
            AgentKind::Finance => "Finance",
            AgentKind::Ops => "Operations",
            AgentKind::Strategy => "Strategy",
            AgentKind::Ux => "UX / Accessibility",
            AgentKind::DataPrivacy => "Data Privacy",
            AgentKind::Ethics => "Ethics",
            AgentKind::ThreatModel => "Threat Model",
            AgentKind::Reliability => "Reliability",
            AgentKind::Hiring => "Hiring / People",
            AgentKind::Brand => "Brand & Comms",
            AgentKind::ResearchMethod => "Research Method",
            AgentKind::Product => "Product",
        }
    }

    /// The position of an agent in orchestration order.
    pub fn position(self) -> (r: usize)
        ensures
            r == self.order(),
    {
        match self {
            AgentKind::Osint => 0,
            AgentKind::Security => 1,
            AgentKind::LegalCompliance => 2,
            AgentKind::Finance => 3,
            AgentKind::Ops => 4,
            AgentKind::Strategy => 5,
            AgentKind::Ux => 6,
            AgentKind::DataPrivacy => 7,
            AgentKind::Ethics => 8,
            AgentKind::ThreatModel => 9,
            AgentKind::Reliability => 10,
            AgentKind::Hiring => 11,
            AgentKind::Brand => 12,
            AgentKind::ResearchMethod => 13,
            AgentKind::Product => 14,
        }
    }
}

/// A structured per-agent payload: a named list of terms.
#[derive(Debug, Clone)]
pub struct AgentData {
    pub field: String,
    pub values: Vec<String>,
}

pub struct AgentDataV {
    pub field: Seq<char>,
    pub values: Seq<Seq<char>>,
}

impl View for AgentData {
    type V = AgentDataV;

    open spec fn view(&self) -> AgentDataV {
        AgentDataV { field: self.field@, values: string_views(self.values@) }
    }
}

/// One agent's output. `error` is present when the agent had nothing to read.
#[derive(Debug, Clone)]
pub struct AgentResult {
    pub agent: AgentKind,
    pub source: Source,
    pub attribution_note: String,
    pub findings: Vec<Finding>,
    pub data: Option<AgentData>,
    pub error: Option<String>,
}

pub struct AgentResultV {
    pub agent: AgentKind,
    pub source: Source,
    pub attribution_note: Seq<char>,
    pub findings: Seq<FindingV>,
    pub data: Option<AgentDataV>,
    pub error: Option<Seq<char>>,
}

impl View for AgentResult {
    type V = AgentResultV;

    open spec fn view(&self) -> AgentResultV {
        AgentResultV {
            agent: self.agent,
            source: self.source,
            attribution_note: self.attribution_note@,
            findings: finding_views(self.findings@),
            data: match self.data {
                Some(d) => Some(d@),
                None => None,
            },
            error: match self.error {
                Some(e) => Some(e@),
                None => None,
            },
        }
    }
}

/// The result of an agent with nothing to read.
pub open spec fn empty_error_view(agent: AgentKind, note: Seq<char>) -> AgentResultV {
    AgentResultV {
        agent,
        source: Source::RfiIrfosAddition,
        attribution_note: note,
        findings: seq![],
        data: None,
        error: Some("input empty"@),
    }
}

/// The result of an agent that read the text.
pub open spec fn agent_view(
    agent: AgentKind,
    note: Seq<char>,
    findings: Seq<FindingV>,
    field: Seq<char>,
    values: Seq<Seq<char>>,
) -> AgentResultV {
    AgentResultV {
        agent,
        source: Source::RfiIrfosAddition,
        attribution_note: note,
        findings,
        data: Some(AgentDataV { field, values }),
        error: None,
    }
}

/// `f` when `c` holds, nothing otherwise.
pub open spec fn when(c: bool, f: FindingV) -> Seq<FindingV> {
    if c {
        seq![f]
    } else {
        seq![]
    }
}

/// One finding per term, claiming `prefix + term + suffix`.
pub open spec fn term_findings(
    ts: Seq<Seq<char>>,
    prefix: Seq<char>,
    suffix: Seq<char>,
    ev: Seq<char>,
    sev: Severity,
) -> Seq<FindingV> {
    ts.map_values(|t: Seq<char>| FindingV { claim: prefix + t + suffix, evidence: ev, severity: sev })
}

fn empty_error(agent: AgentKind, note: &str) -> (r: AgentResult)
    ensures
        r@ == empty_error_view(agent, note@),
{
    let r = AgentResult {
        agent,
        source: Source::RfiIrfosAddition,
        attribution_note: String::from_str(note),
        findings: Vec::new(),
        data: None,
        error: Some(String::from_str("input empty")),
    };
    assert(r@.findings =~= seq![]);
    r
}

fn agent_result(agent: AgentKind, note: &str, fs: Vec<Finding>, field: &str, values: Vec<String>) -> (r: AgentResult)
    ensures
        r@ == agent_view(agent, note@, finding_views(fs@), field@, string_views(values@)),
{
    AgentResult {
        agent,
        source: Source::RfiIrfosAddition,
        attribution_note: String::from_str(note),
        findings: fs,
        data: Some(AgentData { field: String::from_str(field), values }),
        error: None,
    }
}

fn push_when(fs: &mut Vec<Finding>, c: bool, claim: &str, ev: &Vec<char>, sev: Severity)
    ensures
        finding_views(final(fs)@) == finding_views(old(fs)@) + when(
            c,
            FindingV { claim: claim@, evidence: ev@, severity: sev },
        ),
{
    let ghost before = finding_views(fs@);
    if c {
        let f = finding(String::from_str(claim), string_of(ev), sev);
        fs.push(f);
        assert(finding_views(fs@) =~= before + seq![f@]);
    } else {
        assert(finding_views(fs@) =~= before + seq![]);
    }
}

fn push_terms(fs: &mut Vec<Finding>, ts: &Vec<String>, prefix: &str, suffix: &str, ev: &Vec<char>, sev: Severity)
    ensures
        finding_views(final(fs)@) == finding_views(old(fs)@) + term_findings(
            string_views(ts@),
            prefix@,
            suffix@,
            ev@,
            sev,
        ),
{
    let ghost before = finding_views(fs@);
    let ghost tv = string_views(ts@);
    let mut i: usize = 0;
    while i < ts.len()
        invariant
            i <= ts@.len(),
            tv == string_views(ts@),
            finding_views(fs@) == before + term_findings(tv.take(i as int), prefix@, suffix@, ev@, sev),
        decreases ts.len() - i,
    {
        let f = finding(join3(prefix, ts[i].as_str(), suffix), string_of(ev), sev);
        let ghost old_f = finding_views(fs@);
        fs.push(f);
        assert(tv[i as int] == ts@[i as int]@);
        assert(tv.take(i + 1) =~= tv.take(i as int).push(tv[i as int]));
        assert(finding_views(fs@) =~= old_f.push(f@));
        assert(term_findings(tv.take(i + 1), prefix@, suffix@, ev@, sev) =~= term_findings(
            tv.take(i as int),
            prefix@,
            suffix@,
            ev@,
            sev,
        ).push(f@));
        assert(finding_views(fs@) =~= before + term_findings(tv.take(i + 1), prefix@, suffix@, ev@, sev));
        i = i + 1;
    }
    assert(tv.take(ts@.len() as int) =~= tv);
}

/// Gendered or biased hiring terms, in checking order.
pub open spec fn biased_terms_spec() -> Seq<Seq<char>> {
    seq!["rockstar"@, "ninja"@, "young"@, "he/him"@]
}

pub fn biased_terms() -> (r: Vec<&'static str>)
    ensures
        str_views(r@) == biased_terms_spec(),
{
    let r = vec!["rockstar", "ninja", "young", "he/him"];
    assert(str_views(r@) =~= biased_terms_spec());
    r
}

pub const OSINT_NOTE: &'static str = "Deterministic exposure-footprint lens. Flags secrets/credentials, PII, and metadata signals ALREADY PRESENT in the submitted text. It does NOT perform live external scraping — that would break call-laura's deterministic-local invariant. Treat findings as 'things you appear to have pasted in the open', not as a live intelligence report.";

pub const SEC_NOTE: &'static str = "Deterministic security heuristic. Flags common insecurity signals (eval/exec of untrusted input, missing auth, plaintext secrets, SQL string concat). Keyword-only — cannot reason about real exploitability; use as a prompt to review, not a verdict.";

/// Secret-looking keywords, in checking order.
pub open spec fn secret_patterns_spec() -> Seq<Seq<char>> {
    seq!["api key / token"@, "apikey="@, "secret="@, "password="@, "passwd="@, "private key"@, "-----begin"@, "bearer "@, "aws_access_key_id"@, "sk-"@, "ghp_"@, "token="@, "api_key="@]
}

pub fn secret_patterns() -> (r: Vec<&'static str>)
    ensures
        str_views(r@) == secret_patterns_spec(),
{
    let r = vec!["api key / token", "apikey=", "secret=", "password=", "passwd=", "private key", "-----begin", "bearer ", "aws_access_key_id", "sk-", "ghp_", "token=", "api_key="];
    assert(str_views(r@) =~= secret_patterns_spec());
    r
}

/// The kind of secret each keyword of `secret_patterns` signals.
pub open spec fn secret_labels_spec() -> Seq<Seq<char>> {
    seq!["api_key"@, "apikey assignment"@, "secret assignment"@, "password assignment"@, "passwd assignment"@, "private key"@, "pem block"@, "bearer token"@, "aws key"@, "openai-style key"@, "github token"@, "token assignment"@, "api_key assignment"@]
}

pub fn secret_labels() -> (r: Vec<&'static str>)
    ensures
        str_views(r@) == secret_labels_spec(),
{
    let r = vec!["api_key", "apikey assignment", "secret assignment", "password assignment", "passwd assignment", "private key", "pem block", "bearer token", "aws key", "openai-style key", "github token", "token assignment", "api_key assignment"];
    assert(str_views(r@) =~= secret_labels_spec());
    r
}

/// Personal-data keywords.
pub open spec fn pii_patterns_spec() -> Seq<Seq<char>> {
    seq!["ssn"@, "social security"@, "phone"@, "mobile:"@, "address:"@, "passport"@]
}

pub fn pii_patterns() -> (r: Vec<&'static str>)
    ensures
        str_views(r@) == pii_patterns_spec(),
{
    let r = vec!["ssn", "social security", "phone", "mobile:", "address:", "passport"];
    assert(str_views(r@) =~= pii_patterns_spec());
    r
}

/// Insecure-code keywords, in checking order.
pub open spec fn sec_bad_spec() -> Seq<Seq<char>> {
    seq!["eval("@, "exec("@, "os.system("@, "subprocess("@, "sql +"@, "SELECT * FROM"@, "no authentication"@, "without auth"@, "md5("@, "sha1("@, "http://"@, "verify=false"@, "tls verification disabled"@]
}

pub fn sec_bad() -> (r: Vec<&'static str>)
    ensures
        str_views(r@) == sec_bad_spec(),
{
    let r = vec!["eval(", "exec(", "os.system(", "subprocess(", "sql +", "SELECT * FROM", "no authentication", "without auth", "md5(", "sha1(", "http://", "verify=false", "tls verification disabled"];
    assert(str_views(r@) =~= sec_bad_spec());
    r
}

/// Flags for the first `n` secret keywords found in `low`, each citing its span.
pub open spec fn secret_findings(text: Seq<char>, low: Seq<char>, n: int) -> Seq<FindingV>
    decreases n,
{
    if n <= 0 {
        seq![]
    } else {
        let prev = secret_findings(text, low, n - 1);
        let k = find(low, secret_patterns_spec()[n - 1]);
        if k >= 0 {
            prev.push(
                FindingV {
                    claim: "[OSINT] Possible "@ + secret_labels_spec()[n - 1]
                        + " exposed in plaintext — rotate/remove before sharing."@,
                    evidence: span_text(text, low, k, 40),
                    severity: Severity::Flag,
                },
            )
        } else {
            prev
        }
    }
}

/// The kinds of the first `n` secret keywords found in `low`.
pub open spec fn leaked_labels(low: Seq<char>, n: int) -> Seq<Seq<char>>
    decreases n,
{
    if n <= 0 {
        seq![]
    } else if find(low, secret_patterns_spec()[n - 1]) >= 0 {
        leaked_labels(low, n - 1).push(secret_labels_spec()[n - 1])
    } else {
        leaked_labels(low, n - 1)
    }
}

/// An email-shaped token: `local@domain.tld`, with a non-empty local part and a
/// top-level part holding a letter.
pub open spec fn looks_like_email(seg: Seq<char>) -> bool {
    let t = trim(seg);
    let a = find(t, seq!['@']);
    a > 0 && {
        let rest = t.skip(a + 1);
        let d = find(rest, seq!['.']);
        d >= 0 && {
            let tld = rest.skip(d + 1);
            tld.len() > 0 && exists|j: int| 0 <= j < tld.len() && is_alphabetic_char(#[trigger] tld[j])
        }
    }
}

/// Some token of the text (split at whitespace, `,`, `;`, `(`, `)`) is email-shaped.
pub open spec fn has_email(text: Seq<char>) -> bool {
    let ps = split_by(text, Delim::WordBreak);
    exists|i: int| 0 <= i < ps.len() && looks_like_email(#[trigger] ps[i])
}

pub open spec fn email_claim() -> Seq<char> {
    "[OSINT] Email-shaped address present in text — confirm it is not a real person's contact exposed in the open."@
}

/// What the OSINT (exposure) agent reports, given the text and its lowercase form `low`.
pub open spec fn osint_spec_lower(text: Seq<char>, low: Seq<char>) -> AgentResultV {
    if trim(text).len() == 0 {
        empty_error_view(AgentKind::Osint, OSINT_NOTE@)
    } else {
        let ev = anchor(text, 120);
        agent_view(
            AgentKind::Osint,
            OSINT_NOTE@,
            secret_findings(text, low, 13) + when(
                has_email(text),
                FindingV { claim: email_claim(), evidence: ev, severity: Severity::Note },
            ) + term_findings(
                present_terms(low, pii_patterns_spec()),
                "[OSINT] Possible PII signal ('"@,
                "') present in text — confirm no real personal data is exposed."@,
                ev,
                Severity::Note,
            ),
            "leaked_secret_kinds"@,
            leaked_labels(low, 13),
        )
    }
}

/// What the OSINT (exposure) agent reports.
pub open spec fn osint_spec(text: Seq<char>) -> AgentResultV {
    osint_spec_lower(text, lowercase_of(text))
}

/// Flags for the first `n` insecure keywords found in `low`, each citing its span.
pub open spec fn security_findings(text: Seq<char>, low: Seq<char>, n: int) -> Seq<FindingV>
    decreases n,
{
    if n <= 0 {
        seq![]
    } else {
        let prev = security_findings(text, low, n - 1);
        let k = find(low, sec_bad_spec()[n - 1]);
        if k >= 0 {
            prev.push(
                FindingV {
                    claim: "[Security] Insecure pattern '"@ + sec_bad_spec()[n - 1]
                        + "' — review for injection/auth/crypto risk."@,
                    evidence: span_text(text, low, k, 50),
                    severity: Severity::Flag,
                },
            )
        } else {
            prev
        }
    }
}

/// What the security agent reports, given the text and its lowercase form `low`.
pub open spec fn security_spec_lower(text: Seq<char>, low: Seq<char>) -> AgentResultV {
    if trim(text).len() == 0 {
        empty_error_view(AgentKind::Security, SEC_NOTE@)
    } else {
        AgentResultV {
            agent: AgentKind::Security,
            source: Source::RfiIrfosAddition,
            attribution_note: SEC_NOTE@,
            findings: security_findings(text, low, 13),
            data: None,
            error: None,
        }
    }
}

/// What the security agent reports.
pub open spec fn security_spec(text: Seq<char>) -> AgentResultV {
    security_spec_lower(text, lowercase_of(text))
}

fn looks_like_email_exec(seg: &[char]) -> (r: bool)
    ensures
        r == looks_like_email(seg@),
{
    let t = trim_vec(seg);
    let at: Vec<char> = vec!['@'];
    let dot: Vec<char> = vec!['.'];
    assert(at@ =~= seq!['@']);
    assert(dot@ =~= seq!['.']);
    match find_exec(&t, &at) {
        Some(a) => {
            proof {
                lemma_find_occurs(t@, seq!['@']);
                assert(seq!['@'].len() == 1);
                assert(a + 1 <= t@.len());
            }
            if a == 0 {
                return false;
            }
            let n = t.len();
            assert(a + 1 <= n);
            let rest = subrange(&t, a + 1, n);
            assert(rest@ =~= t@.skip(a + 1));
            match find_exec(&rest, &dot) {
                Some(d) => {
                    proof {
                        lemma_find_occurs(rest@, seq!['.']);
                        assert(seq!['.'].len() == 1);
                    }
                    let tld = subrange(&rest, d + 1, rest.len());
                    assert(tld@ =~= rest@.skip(d + 1));
                    if tld.len() == 0 {
                        return false;
                    }
                    let mut j: usize = 0;
                    while j < tld.len()
                        invariant
                            j <= tld@.len(),
                            forall|m: int| 0 <= m < j ==> !is_alphabetic_char(#[trigger] tld@[m]),
                            t@ == trim(seg@),
                            find(t@, seq!['@']) == a,
                            a > 0,
                            rest@ == t@.skip(a + 1),
                            find(rest@, seq!['.']) == d,
                            tld@ == rest@.skip(d + 1),
                            tld@.len() > 0,
                        decreases tld.len() - j,
                    {
                        if char_is_alphabetic(tld[j]) {
                            assert(is_alphabetic_char(tld@[j as int]));
                            proof {
                                let tt = trim(seg@);
                                assert(tt == t@);
                                assert(find(tt, seq!['@']) == a);
                                assert(tt.skip(a + 1) == rest@);
                                assert(find(rest@, seq!['.']) == d);
                                assert(rest@.skip(d + 1) == tld@);
                            }
                            return true;
                        }
                        j = j + 1;
                    }
                    false
                },
                None => false,
            }
        },
        None => false,
    }
}

fn has_email_exec(t: &[char]) -> (r: bool)
    ensures
        r == has_email(t@),
{
    let ps = split_by_exec(t, Delim::WordBreak);
    let mut i: usize = 0;
    while i < ps.len()
        invariant
            i <= ps@.len(),
            views(ps@) == split_by(t@, Delim::WordBreak),
            forall|j: int| 0 <= j < i ==> !looks_like_email(#[trigger] views(ps@)[j]),
        decreases ps.len() - i,
    {
        assert(views(ps@)[i as int] == ps@[i as int]@);
        if looks_like_email_exec(&ps[i]) {
            return true;
        }
        i = i + 1;
    }
    false
}

/// Runs the OSINT (exposure) agent: secrets, email addresses and personal-data
/// keywords already present in the text.
pub fn run_osint(text: &str) -> (r: AgentResult)
    ensures
        r@ == osint_spec(text@),
{
    let t = chars_of(text);
    let low = lowercase(&t);
    run_osint_lower(&t, &low)
}

/// Runs the osint agent over the text `t` and its lowercase form `low`.
pub fn run_osint_lower(t: &[char], low: &[char]) -> (r: AgentResult)
    ensures
        r@ == osint_spec_lower(t@, low@),
{
    if is_blank(t) {
        return empty_error(AgentKind::Osint, OSINT_NOTE);
    }
    let ev = anchor_chars(t, 120);
    let pats = secret_patterns();
    let labels = secret_labels();
    let mut fs: Vec<Finding> = Vec::new();
    let mut leaked: Vec<String> = Vec::new();
    let mut i: usize = 0;
    assert(str_views(pats@).len() == 13 && str_views(labels@).len() == 13);
    while i < 13
        invariant
            i <= 13,
            pats@.len() == 13,
            labels@.len() == 13,
            str_views(pats@) == secret_patterns_spec(),
            str_views(labels@) == secret_labels_spec(),
            finding_views(fs@) == secret_findings(t@, low@, i as int),
            string_views(leaked@) == leaked_labels(low@, i as int),
        decreases 13 - i,
    {
        let p = chars_of(pats[i]);
        assert(str_views(pats@)[i as int] == p@);
        assert(str_views(labels@)[i as int] == labels@[i as int]@);
        match find_exec(low, &p) {
            Some(k) => {
                proof {
                    lemma_find_occurs(low@, p@);
                }
                let sp = span_at(t, low, k, 40);
                let claim = join3("[OSINT] Possible ", labels[i], " exposed in plaintext — rotate/remove before sharing.");
                let f = finding(claim, string_of(&sp), Severity::Flag);
                let ghost old_f = finding_views(fs@);
                fs.push(f);
                assert(finding_views(fs@) =~= old_f.push(f@));
                let ghost old_l = string_views(leaked@);
                leaked.push(String::from_str(labels[i]));
                assert(string_views(leaked@) =~= old_l.push(labels@[i as int]@));
            },
            None => {},
        }
        i = i + 1;
    }
    let has = has_email_exec(t);
    push_when(&mut fs, has, "[OSINT] Email-shaped address present in text — confirm it is not a real person's contact exposed in the open.", &ev, Severity::Note);
    let pii = present_terms_exec(low, pii_patterns().as_slice());
    push_terms(&mut fs, &pii, "[OSINT] Possible PII signal ('", "') present in text — confirm no real personal data is exposed.", &ev, Severity::Note);
    agent_result(AgentKind::Osint, OSINT_NOTE, fs, "leaked_secret_kinds", leaked)
}

/// Runs the security agent: insecure-code keywords, each flagged with its span.
pub fn run_security(text: &str) -> (r: AgentResult)
    ensures
        r@ == security_spec(text@),
{
    let t = chars_of(text);
    let low = lowercase(&t);
    run_security_lower(&t, &low)
}

/// Runs the security agent over the text `t` and its lowercase form `low`.
pub fn run_security_lower(t: &[char], low: &[char]) -> (r: AgentResult)
    ensures
        r@ == security_spec_lower(t@, low@),
{
    if is_blank(t) {
        return empty_error(AgentKind::Security, SEC_NOTE);
    }
    let pats = sec_bad();
    let mut fs: Vec<Finding> = Vec::new();
    let mut i: usize = 0;
    assert(str_views(pats@).len() == 13);
    while i < 13
        invariant
            i <= 13,
            pats@.len() == 13,
            str_views(pats@) == sec_bad_spec(),
            finding_views(fs@) == security_findings(t@, low@, i as int),
        decreases 13 - i,
    {
        let p = chars_of(pats[i]);
        assert(str_views(pats@)[i as int] == p@);
        match find_exec(low, &p) {
            Some(k) => {
                proof {
                    lemma_find_occurs(low@, p@);
                }
                let sp = span_at(t, low, k, 50);
                let claim = join3("[Security] Insecure pattern '", pats[i], "' — review for injection/auth/crypto risk.");
                let f = finding(claim, string_of(&sp), Severity::Flag);
                let ghost old_f = finding_views(fs@);
                fs.push(f);
                assert(finding_views(fs@) =~= old_f.push(f@));
            },
            None => {},
        }
        i = i + 1;
    }
    let r = AgentResult {
        agent: AgentKind::Security,
        source: Source::RfiIrfosAddition,
        attribution_note: String::from_str(SEC_NOTE),
        findings: fs,
        data: None,
        error: None,
    };
    r
}

pub const LEGAL_NOTE: &'static str = "Deterministic legal/compliance heuristic over the text. Flags compliance-adjacent language (GDPR, liability disclaimers, regulatory refs) and missing-disclaimer signals. Not legal advice — a checklist prompt, not a lawyer.";

/// The legal agent's vocabulary, reported as present terms.
pub open spec fn legal_terms_spec() -> Seq<Seq<char>> {
    seq!["gdpr"@, "ccpa"@, "hipaa"@, "eu ai act"@, "liability"@, "indemnif"@, "regulat"@, "compliant"@, "terms of service"@, "disclaimer"@, "data protection"@]
}

pub fn legal_terms() -> (r: Vec<&'static str>)
    ensures
        str_views(r@) == legal_terms_spec(),
{
    let r = vec!["gdpr", "ccpa", "hipaa", "eu ai act", "liability", "indemnif", "regulat", "compliant", "terms of service", "disclaimer", "data protection"];
    assert(str_views(r@) =~= legal_terms_spec());
    r
}

pub const FIN_NOTE: &'static str = "Deterministic finance heuristic. Flags monetization/pricing/cost language and missing-unit or unverified-number signals. Not financial advice.";

/// The finance agent's vocabulary, reported as present terms.
pub open spec fn finance_terms_spec() -> Seq<Seq<char>> {
    seq!["price"@, "pricing"@, "cost"@, "revenue"@, "subscription"@, "mrr"@, "margin"@, "budget"@, "€"@, "$"@, "eur"@, "usd"@, "roi"@]
}

pub fn finance_terms() -> (r: Vec<&'static str>)
    ensures
        str_views(r@) == finance_terms_spec(),
{
    let r = vec!["price", "pricing", "cost", "revenue", "subscription", "mrr", "margin", "budget", "€", "$", "eur", "usd", "roi"];
    assert(str_views(r@) =~= finance_terms_spec());
    r
}

pub const OPS_NOTE: &'static str = "Deterministic ops heuristic. Flags deployment/runbook/on-call language and missing-rollback/monitoring signals.";

/// The ops agent's vocabulary, reported as present terms.
pub open spec fn ops_terms_spec() -> Seq<Seq<char>> {
    seq!["deploy"@, "rollback"@, "monitoring"@, "on-call"@, "runbook"@, "incident"@, "alert"@, "pager"@, "sla"@, "backup"@]
}

pub fn ops_terms() -> (r: Vec<&'static str>)
    ensures
        str_views(r@) == ops_terms_spec(),
{
    let r = vec!["deploy", "rollback", "monitoring", "on-call", "runbook", "incident", "alert", "pager", "sla", "backup"];
    assert(str_views(r@) =~= ops_terms_spec());
    r
}

pub const STRAT_NOTE: &'static str = "Deterministic strategy heuristic. Flags positioning/competitive/moat language and missing-differentiation signals. Not a strategy consult.";

/// The strategy agent's vocabulary, reported as present terms.
pub open spec fn strategy_terms_spec() -> Seq<Seq<char>> {
    seq!["competitor"@, "moat"@, "differentiat"@, "unique"@, "market"@, "positioning"@, "advantage"@, "vision"@]
}

pub fn strategy_terms() -> (r: Vec<&'static str>)
    ensures
        str_views(r@) == strategy_terms_spec(),
{
    let r = vec!["competitor", "moat", "differentiat", "unique", "market", "positioning", "advantage", "vision"];
    assert(str_views(r@) =~= strategy_terms_spec());
    r
}

pub const UX_NOTE: &'static str = "Deterministic UX/a11y heuristic. Flags accessibility/usability signals and missing-keyboard/contrast mentions.";

/// The ux agent's vocabulary, reported as present terms.
pub open spec fn ux_terms_spec() -> Seq<Seq<char>> {
    seq!["accessib"@, "keyboard"@, "screen reader"@, "contrast"@, "aria"@, "wcag"@, "focus"@, "usabilit"@]
}

pub fn ux_terms() -> (r: Vec<&'static str>)
    ensures
        str_views(r@) == ux_terms_spec(),
{
    let r = vec!["accessib", "keyboard", "screen reader", "contrast", "aria", "wcag", "focus", "usabilit"];
    assert(str_views(r@) =~= ux_terms_spec());
    r
}

pub const PRIV_NOTE: &'static str = "Deterministic data-privacy heuristic. Flags consent/retention/minimization language and missing-consent signals. Not a DPO.";

/// The data privacy agent's vocabulary, reported as present terms.
pub open spec fn privacy_terms_spec() -> Seq<Seq<char>> {
    seq!["consent"@, "opt-in"@, "opt out"@, "retention"@, "data minim"@, "anonym"@, "pseudonym"@, "right to be forgotten"@, "subject access"@, "personal data"@]
}

pub fn privacy_terms() -> (r: Vec<&'static str>)
    ensures
        str_views(r@) == privacy_terms_spec(),
{
    let r = vec!["consent", "opt-in", "opt out", "retention", "data minim", "anonym", "pseudonym", "right to be forgotten", "subject access", "personal data"];
    assert(str_views(r@) =~= privacy_terms_spec());
    r
}

pub const ETH_NOTE: &'static str = "Deterministic ethics heuristic. Flags fairness/bias/dual-use signals and missing-stakeholder language. Not an ethics board.";

/// The ethics agent's vocabulary, reported as present terms.
pub open spec fn ethics_terms_spec() -> Seq<Seq<char>> {
    seq!["fair"@, "bias"@, "discriminat"@, "dual-use"@, "harm"@, "stakeholder"@, "transparen"@, "accountab"@, "human oversight"@]
}

pub fn ethics_terms() -> (r: Vec<&'static str>)
    ensures
        str_views(r@) == ethics_terms_spec(),
{
    let r = vec!["fair", "bias", "discriminat", "dual-use", "harm", "stakeholder", "transparen", "accountab", "human oversight"];
    assert(str_views(r@) =~= ethics_terms_spec());
    r
}

pub const THREAT_NOTE: &'static str = "Deterministic threat-model heuristic. Flags attacker/adversary/abuse language and missing-trust-boundary signals.";

/// The threat model agent's vocabulary, reported as present terms.
pub open spec fn threat_terms_spec() -> Seq<Seq<char>> {
    seq!["attacker"@, "adversar"@, "abuse"@, "spoof"@, "phish"@, "tamper"@, "trust boundary"@, "threat"@, "exploit"@, "malicious"@]
}

pub fn threat_terms() -> (r: Vec<&'static str>)
    ensures
        str_views(r@) == threat_terms_spec(),
{
    let r = vec!["attacker", "adversar", "abuse", "spoof", "phish", "tamper", "trust boundary", "threat", "exploit", "malicious"];
    assert(str_views(r@) =~= threat_terms_spec());
    r
}

pub const REL_NOTE: &'static str = "Deterministic reliability heuristic. Flags failure-mode/retry/timeout language and missing-fallback signals.";

/// The reliability agent's vocabulary, reported as present terms.
pub open spec fn reliability_terms_spec() -> Seq<Seq<char>> {
    seq!["retry"@, "timeout"@, "fallback"@, "circuit breaker"@, "idempoten"@, "graceful"@, "degrade"@, "failure"@]
}

pub fn reliability_terms() -> (r: Vec<&'static str>)
    ensures
        str_views(r@) == reliability_terms_spec(),
{
    let r = vec!["retry", "timeout", "fallback", "circuit breaker", "idempoten", "graceful", "degrade", "failure"];
    assert(str_views(r@) =~= reliability_terms_spec());
    r
}

pub const HR_NOTE: &'static str = "Deterministic hiring/people heuristic. Flags role/responsibility/language-bias signals. Not HR legal advice.";

/// The hiring agent's vocabulary, reported as present terms.
pub open spec fn hr_terms_spec() -> Seq<Seq<char>> {
    seq!["hire"@, "role"@, "responsibilit"@, "team"@, "onboard"@, "culture"@, "he/him"@, "young"@, "rockstar"@, "ninja"@]
}

pub fn hr_terms() -> (r: Vec<&'static str>)
    ensures
        str_views(r@) == hr_terms_spec(),
{
    let r = vec!["hire", "role", "responsibilit", "team", "onboard", "culture", "he/him", "young", "rockstar", "ninja"];
    assert(str_views(r@) =~= hr_terms_spec());
    r
}

pub const BRAND_NOTE: &'static str = "Deterministic brand/comms heuristic. Flags audience/tone/claim-language signals and missing-audience definition.";

/// The brand agent's vocabulary, reported as present terms.
pub open spec fn brand_terms_spec() -> Seq<Seq<char>> {
    seq!["audience"@, "tone"@, "voice"@, "messaging"@, "brand"@, "claim"@, "tagline"@]
}

pub fn brand_terms() -> (r: Vec<&'static str>)
    ensures
        str_views(r@) == brand_terms_spec(),
{
    let r = vec!["audience", "tone", "voice", "messaging", "brand", "claim", "tagline"];
    assert(str_views(r@) =~= brand_terms_spec());
    r
}

pub const RM_NOTE: &'static str = "Deterministic research-method heuristic. Flags methodology/reproducibility signals and missing-sample/limitation language. Grounded in the same no-fabrication discipline as the parent platform.";

/// The research method agent's vocabulary, reported as present terms.
pub open spec fn rm_terms_spec() -> Seq<Seq<char>> {
    seq!["method"@, "sample"@, "dataset"@, "reproduc"@, "limitation"@, "hypothesis"@, "peer review"@, "preprint"@, "n ="@, "participant"@]
}

pub fn rm_terms() -> (r: Vec<&'static str>)
    ensures
        str_views(r@) == rm_terms_spec(),
{
    let r = vec!["method", "sample", "dataset", "reproduc", "limitation", "hypothesis", "peer review", "preprint", "n =", "participant"];
    assert(str_views(r@) =~= rm_terms_spec());
    r
}

pub const PROD_NOTE: &'static str = "Deterministic product heuristic. Flags user-need/success-metric/roadmap signals and missing-success-criteria language.";

/// The product agent's vocabulary, reported as present terms.
pub open spec fn product_terms_spec() -> Seq<Seq<char>> {
    seq!["user"@, "customer"@, "need"@, "problem"@, "success metric"@, "kpi"@, "roadmap"@, "feature"@, "use case"@]
}

pub fn product_terms() -> (r: Vec<&'static str>)
    ensures
        str_views(r@) == product_terms_spec(),
{
    let r = vec!["user", "customer", "need", "problem", "success metric", "kpi", "roadmap", "feature", "use case"];
    assert(str_views(r@) =~= product_terms_spec());
    r
}

/// What the legal agent reports, given the text and its lowercase form `low`.
pub open spec fn legal_spec_lower(text: Seq<char>, low: Seq<char>) -> AgentResultV {
    if trim(text).len() == 0 {
        empty_error_view(AgentKind::LegalCompliance, LEGAL_NOTE@)
    } else {
        let ev = anchor(text, 120);
        let present = present_terms(low, legal_terms_spec());
        agent_view(
            AgentKind::LegalCompliance,
            LEGAL_NOTE@,
            term_findings(present, "[Legal/Compliance] Mentions '"@, "' — confirm the associated obligation is actually addressed, not just named."@, ev, Severity::Note) + when(!contains(low, "disclaimer"@) && !contains(low, "liability"@), FindingV { claim: "[Legal/Compliance] No liability/disclaimer language found — consider whether the document needs one before external release."@, evidence: ev, severity: Severity::Info }),
            "compliance_terms_present"@,
            present,
        )
    }
}

/// What the legal agent reports.
pub open spec fn legal_spec(text: Seq<char>) -> AgentResultV {
    legal_spec_lower(text, lowercase_of(text))
}

/// Runs the legal agent.
pub fn run_legal(text: &str) -> (r: AgentResult)
    ensures
        r@ == legal_spec(text@),
{
    let t = chars_of(text);
    let low = lowercase(&t);
    run_legal_lower(&t, &low)
}

/// Runs the legal agent over the text `t` and its lowercase form `low`.
pub fn run_legal_lower(t: &[char], low: &[char]) -> (r: AgentResult)
    ensures
        r@ == legal_spec_lower(t@, low@),
{
    if is_blank(t) {
        return empty_error(AgentKind::LegalCompliance, LEGAL_NOTE);
    }
    let ev = anchor_chars(t, 120);
    let ts = legal_terms();
    let present = present_terms_exec(low, ts.as_slice());
    let mut fs: Vec<Finding> = Vec::new();
    assert(finding_views(fs@) =~= seq![]);
    push_terms(&mut fs, &present, "[Legal/Compliance] Mentions '", "' — confirm the associated obligation is actually addressed, not just named.", &ev, Severity::Note);
    let c = !contains_str(low, "disclaimer") && !contains_str(low, "liability");
    push_when(&mut fs, c, "[Legal/Compliance] No liability/disclaimer language found — consider whether the document needs one before external release.", &ev, Severity::Info);
    agent_result(AgentKind::LegalCompliance, LEGAL_NOTE, fs, "compliance_terms_present", present)
}

/// What the finance agent reports, given the text and its lowercase form `low`.
pub open spec fn finance_spec_lower(text: Seq<char>, low: Seq<char>) -> AgentResultV {
    if trim(text).len() == 0 {
        empty_error_view(AgentKind::Finance, FIN_NOTE@)
    } else {
        let ev = anchor(text, 120);
        let present = present_terms(low, finance_terms_spec());
        agent_view(
            AgentKind::Finance,
            FIN_NOTE@,
            term_findings(present, "[Finance] References '"@, "' — confirm the number is sourced and the unit stated."@, ev, Severity::Info) + when(contains(low, "free"@) && contains(low, "premium"@), FindingV { claim: "[Finance] Free/premium split present — confirm the paid boundary is explicit (what free users never get)."@, evidence: ev, severity: Severity::Note }),
            "finance_terms_present"@,
            present,
        )
    }
}

/// What the finance agent reports.
pub open spec fn finance_spec(text: Seq<char>) -> AgentResultV {
    finance_spec_lower(text, lowercase_of(text))
}

/// Runs the finance agent.
pub fn run_finance(text: &str) -> (r: AgentResult)
    ensures
        r@ == finance_spec(text@),
{
    let t = chars_of(text);
    let low = lowercase(&t);
    run_finance_lower(&t, &low)
}

/// Runs the finance agent over the text `t` and its lowercase form `low`.
pub fn run_finance_lower(t: &[char], low: &[char]) -> (r: AgentResult)
    ensures
        r@ == finance_spec_lower(t@, low@),
{
    if is_blank(t) {
        return empty_error(AgentKind::Finance, FIN_NOTE);
    }
    let ev = anchor_chars(t, 120);
    let ts = finance_terms();
    let present = present_terms_exec(low, ts.as_slice());
    let mut fs: Vec<Finding> = Vec::new();
    assert(finding_views(fs@) =~= seq![]);
    push_terms(&mut fs, &present, "[Finance] References '", "' — confirm the number is sourced and the unit stated.", &ev, Severity::Info);
    let c = contains_str(low, "free") && contains_str(low, "premium");
    push_when(&mut fs, c, "[Finance] Free/premium split present — confirm the paid boundary is explicit (what free users never get).", &ev, Severity::Note);
    agent_result(AgentKind::Finance, FIN_NOTE, fs, "finance_terms_present", present)
}

/// What the ops agent reports, given the text and its lowercase form `low`.
pub open spec fn ops_spec_lower(text: Seq<char>, low: Seq<char>) -> AgentResultV {
    if trim(text).len() == 0 {
        empty_error_view(AgentKind::Ops, OPS_NOTE@)
    } else {
        let ev = anchor(text, 120);
        let present = present_terms(low, ops_terms_spec());
        agent_view(
            AgentKind::Ops,
            OPS_NOTE@,
            when(contains(low, "deploy"@) && !contains(low, "rollback"@), FindingV { claim: "[Ops] Deployment mentioned without a rollback path — confirm one exists before shipping."@, evidence: ev, severity: Severity::Flag }) + when(contains(low, "deploy"@) && !contains(low, "monitor"@), FindingV { claim: "[Ops] Deployment mentioned without monitoring/alerting — confirm observability is covered."@, evidence: ev, severity: Severity::Note }),
            "ops_terms_present"@,
            present,
        )
    }
}

/// What the ops agent reports.
pub open spec fn ops_spec(text: Seq<char>) -> AgentResultV {
    ops_spec_lower(text, lowercase_of(text))
}

/// Runs the ops agent.
pub fn run_ops(text: &str) -> (r: AgentResult)
    ensures
        r@ == ops_spec(text@),
{
    let t = chars_of(text);
    let low = lowercase(&t);
    run_ops_lower(&t, &low)
}

/// Runs the ops agent over the text `t` and its lowercase form `low`.
pub fn run_ops_lower(t: &[char], low: &[char]) -> (r: AgentResult)
    ensures
        r@ == ops_spec_lower(t@, low@),
{
    if is_blank(t) {
        return empty_error(AgentKind::Ops, OPS_NOTE);
    }
    let ev = anchor_chars(t, 120);
    let ts = ops_terms();
    let present = present_terms_exec(low, ts.as_slice());
    let mut fs: Vec<Finding> = Vec::new();
    assert(finding_views(fs@) =~= seq![]);
    let c = contains_str(low, "deploy") && !contains_str(low, "rollback");
    push_when(&mut fs, c, "[Ops] Deployment mentioned without a rollback path — confirm one exists before shipping.", &ev, Severity::Flag);
    let c = contains_str(low, "deploy") && !contains_str(low, "monitor");
    push_when(&mut fs, c, "[Ops] Deployment mentioned without monitoring/alerting — confirm observability is covered.", &ev, Severity::Note);
    agent_result(AgentKind::Ops, OPS_NOTE, fs, "ops_terms_present", present)
}

/// What the strategy agent reports, given the text and its lowercase form `low`.
pub open spec fn strategy_spec_lower(text: Seq<char>, low: Seq<char>) -> AgentResultV {
    if trim(text).len() == 0 {
        empty_error_view(AgentKind::Strategy, STRAT_NOTE@)
    } else {
        let ev = anchor(text, 120);
        let present = present_terms(low, strategy_terms_spec());
        agent_view(
            AgentKind::Strategy,
            STRAT_NOTE@,
            when((contains(low, "unique"@) || contains(low, "differentiat"@)), FindingV { claim: "[Strategy] Claims differentiation — confirm it names the concrete, defensible difference, not an adjective."@, evidence: ev, severity: Severity::Note }),
            "strategy_terms_present"@,
            present,
        )
    }
}

/// What the strategy agent reports.
pub open spec fn strategy_spec(text: Seq<char>) -> AgentResultV {
    strategy_spec_lower(text, lowercase_of(text))
}

/// Runs the strategy agent.
pub fn run_strategy(text: &str) -> (r: AgentResult)
    ensures
        r@ == strategy_spec(text@),
{
    let t = chars_of(text);
    let low = lowercase(&t);
    run_strategy_lower(&t, &low)
}

/// Runs the strategy agent over the text `t` and its lowercase form `low`.
pub fn run_strategy_lower(t: &[char], low: &[char]) -> (r: AgentResult)
    ensures
        r@ == strategy_spec_lower(t@, low@),
{
    if is_blank(t) {
        return empty_error(AgentKind::Strategy, STRAT_NOTE);
    }
    let ev = anchor_chars(t, 120);
    let ts = strategy_terms();
    let present = present_terms_exec(low, ts.as_slice());
    let mut fs: Vec<Finding> = Vec::new();
    assert(finding_views(fs@) =~= seq![]);
    let c = (contains_str(low, "unique") || contains_str(low, "differentiat"));
    push_when(&mut fs, c, "[Strategy] Claims differentiation — confirm it names the concrete, defensible difference, not an adjective.", &ev, Severity::Note);
    agent_result(AgentKind::Strategy, STRAT_NOTE, fs, "strategy_terms_present", present)
}

/// What the ux agent reports, given the text and its lowercase form `low`.
pub open spec fn ux_spec_lower(text: Seq<char>, low: Seq<char>) -> AgentResultV {
    if trim(text).len() == 0 {
        empty_error_view(AgentKind::Ux, UX_NOTE@)
    } else {
        let ev = anchor(text, 120);
        let present = present_terms(low, ux_terms_spec());
        agent_view(
            AgentKind::Ux,
            UX_NOTE@,
            when(!any_contained(low, ux_terms_spec()), FindingV { claim: "[UX] No accessibility/usability language found — for a user-facing artifact, confirm a11y is covered elsewhere."@, evidence: ev, severity: Severity::Info }),
            "ux_terms_present"@,
            present,
        )
    }
}

/// What the ux agent reports.
pub open spec fn ux_spec(text: Seq<char>) -> AgentResultV {
    ux_spec_lower(text, lowercase_of(text))
}

/// Runs the ux agent.
pub fn run_ux(text: &str) -> (r: AgentResult)
    ensures
        r@ == ux_spec(text@),
{
    let t = chars_of(text);
    let low = lowercase(&t);
    run_ux_lower(&t, &low)
}

/// Runs the ux agent over the text `t` and its lowercase form `low`.
pub fn run_ux_lower(t: &[char], low: &[char]) -> (r: AgentResult)
    ensures
        r@ == ux_spec_lower(t@, low@),
{
    if is_blank(t) {
        return empty_error(AgentKind::Ux, UX_NOTE);
    }
    let ev = anchor_chars(t, 120);
    let ts = ux_terms();
    let present = present_terms_exec(low, ts.as_slice());
    let mut fs: Vec<Finding> = Vec::new();
    assert(finding_views(fs@) =~= seq![]);
    let c = !any_contained_exec(low, ts.as_slice());
    push_when(&mut fs, c, "[UX] No accessibility/usability language found — for a user-facing artifact, confirm a11y is covered elsewhere.", &ev, Severity::Info);
    agent_result(AgentKind::Ux, UX_NOTE, fs, "ux_terms_present", present)
}

/// What the data privacy agent reports, given the text and its lowercase form `low`.
pub open spec fn data_privacy_spec_lower(text: Seq<char>, low: Seq<char>) -> AgentResultV {
    if trim(text).len() == 0 {
        empty_error_view(AgentKind::DataPrivacy, PRIV_NOTE@)
    } else {
        let ev = anchor(text, 120);
        let present = present_terms(low, privacy_terms_spec());
        agent_view(
            AgentKind::DataPrivacy,
            PRIV_NOTE@,
            when(contains(low, "personal data"@) && !contains(low, "consent"@) && !contains(low, "opt-in"@), FindingV { claim: "[Data Privacy] Processes personal data but no consent/opt-in language — confirm lawful basis is established."@, evidence: ev, severity: Severity::Flag }),
            "privacy_terms_present"@,
            present,
        )
    }
}

/// What the data privacy agent reports.
pub open spec fn data_privacy_spec(text: Seq<char>) -> AgentResultV {
    data_privacy_spec_lower(text, lowercase_of(text))
}

/// Runs the data privacy agent.
pub fn run_data_privacy(text: &str) -> (r: AgentResult)
    ensures
        r@ == data_privacy_spec(text@),
{
    let t = chars_of(text);
    let low = lowercase(&t);
    run_data_privacy_lower(&t, &low)
}

/// Runs the data privacy agent over the text `t` and its lowercase form `low`.
pub fn run_data_privacy_lower(t: &[char], low: &[char]) -> (r: AgentResult)
    ensures
        r@ == data_privacy_spec_lower(t@, low@),
{
    if is_blank(t) {
        return empty_error(AgentKind::DataPrivacy, PRIV_NOTE);
    }
    let ev = anchor_chars(t, 120);
    let ts = privacy_terms();
    let present = present_terms_exec(low, ts.as_slice());
    let mut fs: Vec<Finding> = Vec::new();
    assert(finding_views(fs@) =~= seq![]);
    let c = contains_str(low, "personal data") && !contains_str(low, "consent") && !contains_str(low, "opt-in");
    push_when(&mut fs, c, "[Data Privacy] Processes personal data but no consent/opt-in language — confirm lawful basis is established.", &ev, Severity::Flag);
    agent_result(AgentKind::DataPrivacy, PRIV_NOTE, fs, "privacy_terms_present", present)
}

/// What the ethics agent reports, given the text and its lowercase form `low`.
pub open spec fn ethics_spec_lower(text: Seq<char>, low: Seq<char>) -> AgentResultV {
    if trim(text).len() == 0 {
        empty_error_view(AgentKind::Ethics, ETH_NOTE@)
    } else {
        let ev = anchor(text, 120);
        let present = present_terms(low, ethics_terms_spec());
        agent_view(
            AgentKind::Ethics,
            ETH_NOTE@,
            when(contains(low, "autonom"@) && !contains(low, "human oversight"@) && !contains(low, "human-in-the-loop"@), FindingV { claim: "[Ethics] Autonomy claimed without human-oversight language — confirm a control boundary is defined."@, evidence: ev, severity: Severity::Flag }),
            "ethics_terms_present"@,
            present,
        )
    }
}

/// What the ethics agent reports.
pub open spec fn ethics_spec(text: Seq<char>) -> AgentResultV {
    ethics_spec_lower(text, lowercase_of(text))
}

/// Runs the ethics agent.
pub fn run_ethics(text: &str) -> (r: AgentResult)
    ensures
        r@ == ethics_spec(text@),
{
    let t = chars_of(text);
    let low = lowercase(&t);
    run_ethics_lower(&t, &low)
}

/// Runs the ethics agent over the text `t` and its lowercase form `low`.
pub fn run_ethics_lower(t: &[char], low: &[char]) -> (r: AgentResult)
    ensures
        r@ == ethics_spec_lower(t@, low@),
{
    if is_blank(t) {
        return empty_error(AgentKind::Ethics, ETH_NOTE);
    }
    let ev = anchor_chars(t, 120);
    let ts = ethics_terms();
    let present = present_terms_exec(low, ts.as_slice());
    let mut fs: Vec<Finding> = Vec::new();
    assert(finding_views(fs@) =~= seq![]);
    let c = contains_str(low, "autonom") && !contains_str(low, "human oversight") && !contains_str(low, "human-in-the-loop");
    push_when(&mut fs, c, "[Ethics] Autonomy claimed without human-oversight language — confirm a control boundary is defined.", &ev, Severity::Flag);
    agent_result(AgentKind::Ethics, ETH_NOTE, fs, "ethics_terms_present", present)
}

/// What the threat model agent reports, given the text and its lowercase form `low`.
pub open spec fn threat_model_spec_lower(text: Seq<char>, low: Seq<char>) -> AgentResultV {
    if trim(text).len() == 0 {
        empty_error_view(AgentKind::ThreatModel, THREAT_NOTE@)
    } else {
        let ev = anchor(text, 120);
        let present = present_terms(low, threat_terms_spec());
        agent_view(
            AgentKind::ThreatModel,
            THREAT_NOTE@,
            when(!any_contained(low, threat_terms_spec()), FindingV { claim: "[Threat Model] No adversary/abuse language found — for a security-relevant artifact, confirm a threat model was considered."@, evidence: ev, severity: Severity::Info }),
            "threat_terms_present"@,
            present,
        )
    }
}

/// What the threat model agent reports.
pub open spec fn threat_model_spec(text: Seq<char>) -> AgentResultV {
    threat_model_spec_lower(text, lowercase_of(text))
}

/// Runs the threat model agent.
pub fn run_threat_model(text: &str) -> (r: AgentResult)
    ensures
        r@ == threat_model_spec(text@),
{
    let t = chars_of(text);
    let low = lowercase(&t);
    run_threat_model_lower(&t, &low)
}

/// Runs the threat model agent over the text `t` and its lowercase form `low`.
pub fn run_threat_model_lower(t: &[char], low: &[char]) -> (r: AgentResult)
    ensures
        r@ == threat_model_spec_lower(t@, low@),
{
    if is_blank(t) {
        return empty_error(AgentKind::ThreatModel, THREAT_NOTE);
    }
    let ev = anchor_chars(t, 120);
    let ts = threat_terms();
    let present = present_terms_exec(low, ts.as_slice());
    let mut fs: Vec<Finding> = Vec::new();
    assert(finding_views(fs@) =~= seq![]);
    let c = !any_contained_exec(low, ts.as_slice());
    push_when(&mut fs, c, "[Threat Model] No adversary/abuse language found — for a security-relevant artifact, confirm a threat model was considered.", &ev, Severity::Info);
    agent_result(AgentKind::ThreatModel, THREAT_NOTE, fs, "threat_terms_present", present)
}

/// What the reliability agent reports, given the text and its lowercase form `low`.
pub open spec fn reliability_spec_lower(text: Seq<char>, low: Seq<char>) -> AgentResultV {
    if trim(text).len() == 0 {
        empty_error_view(AgentKind::Reliability, REL_NOTE@)
    } else {
        let ev = anchor(text, 120);
        let present = present_terms(low, reliability_terms_spec());
        agent_view(
            AgentKind::Reliability,
            REL_NOTE@,
            when(contains(low, "retry"@) && !contains(low, "timeout"@), FindingV { claim: "[Reliability] Retry mentioned without a timeout — confirm a bound exists to avoid indefinite hangs."@, evidence: ev, severity: Severity::Note }),
            "reliability_terms_present"@,
            present,
        )
    }
}

/// What the reliability agent reports.
pub open spec fn reliability_spec(text: Seq<char>) -> AgentResultV {
    reliability_spec_lower(text, lowercase_of(text))
}

/// Runs the reliability agent.
pub fn run_reliability(text: &str) -> (r: AgentResult)
    ensures
        r@ == reliability_spec(text@),
{
    let t = chars_of(text);
    let low = lowercase(&t);
    run_reliability_lower(&t, &low)
}

/// Runs the reliability agent over the text `t` and its lowercase form `low`.
pub fn run_reliability_lower(t: &[char], low: &[char]) -> (r: AgentResult)
    ensures
        r@ == reliability_spec_lower(t@, low@),
{
    if is_blank(t) {
        return empty_error(AgentKind::Reliability, REL_NOTE);
    }
    let ev = anchor_chars(t, 120);
    let ts = reliability_terms();
    let present = present_terms_exec(low, ts.as_slice());
    let mut fs: Vec<Finding> = Vec::new();
    assert(finding_views(fs@) =~= seq![]);
    let c = contains_str(low, "retry") && !contains_str(low, "timeout");
    push_when(&mut fs, c, "[Reliability] Retry mentioned without a timeout — confirm a bound exists to avoid indefinite hangs.", &ev, Severity::Note);
    agent_result(AgentKind::Reliability, REL_NOTE, fs, "reliability_terms_present", present)
}

/// What the hiring agent reports, given the text and its lowercase form `low`.
pub open spec fn hiring_spec_lower(text: Seq<char>, low: Seq<char>) -> AgentResultV {
    if trim(text).len() == 0 {
        empty_error_view(AgentKind::Hiring, HR_NOTE@)
    } else {
        let ev = anchor(text, 120);
        let present = present_terms(low, hr_terms_spec());
        agent_view(
            AgentKind::Hiring,
            HR_NOTE@,
            term_findings(present_terms(low, biased_terms_spec()), "[Hiring] Gendered/biased term '"@, "' — consider neutral, inclusive wording."@, ev, Severity::Note),
            "hr_terms_present"@,
            present,
        )
    }
}

/// What the hiring agent reports.
pub open spec fn hiring_spec(text: Seq<char>) -> AgentResultV {
    hiring_spec_lower(text, lowercase_of(text))
}

/// Runs the hiring agent.
pub fn run_hiring(text: &str) -> (r: AgentResult)
    ensures
        r@ == hiring_spec(text@),
{
    let t = chars_of(text);
    let low = lowercase(&t);
    run_hiring_lower(&t, &low)
}

/// Runs the hiring agent over the text `t` and its lowercase form `low`.
pub fn run_hiring_lower(t: &[char], low: &[char]) -> (r: AgentResult)
    ensures
        r@ == hiring_spec_lower(t@, low@),
{
    if is_blank(t) {
        return empty_error(AgentKind::Hiring, HR_NOTE);
    }
    let ev = anchor_chars(t, 120);
    let ts = hr_terms();
    let present = present_terms_exec(low, ts.as_slice());
    let mut fs: Vec<Finding> = Vec::new();
    assert(finding_views(fs@) =~= seq![]);
    let biased = present_terms_exec(low, biased_terms().as_slice());
    push_terms(&mut fs, &biased, "[Hiring] Gendered/biased term '", "' — consider neutral, inclusive wording.", &ev, Severity::Note);
    agent_result(AgentKind::Hiring, HR_NOTE, fs, "hr_terms_present", present)
}

/// What the brand agent reports, given the text and its lowercase form `low`.
pub open spec fn brand_spec_lower(text: Seq<char>, low: Seq<char>) -> AgentResultV {
    if trim(text).len() == 0 {
        empty_error_view(AgentKind::Brand, BRAND_NOTE@)
    } else {
        let ev = anchor(text, 120);
        let present = present_terms(low, brand_terms_spec());
        agent_view(
            AgentKind::Brand,
            BRAND_NOTE@,
            when(!any_contained(low, brand_terms_spec()), FindingV { claim: "[Brand] No audience/tone language — for external comms, confirm who this is for and what tone fits."@, evidence: ev, severity: Severity::Info }),
            "brand_terms_present"@,
            present,
        )
    }
}

/// What the brand agent reports.
pub open spec fn brand_spec(text: Seq<char>) -> AgentResultV {
    brand_spec_lower(text, lowercase_of(text))
}

/// Runs the brand agent.
pub fn run_brand(text: &str) -> (r: AgentResult)
    ensures
        r@ == brand_spec(text@),
{
    let t = chars_of(text);
    let low = lowercase(&t);
    run_brand_lower(&t, &low)
}

/// Runs the brand agent over the text `t` and its lowercase form `low`.
pub fn run_brand_lower(t: &[char], low: &[char]) -> (r: AgentResult)
    ensures
        r@ == brand_spec_lower(t@, low@),
{
    if is_blank(t) {
        return empty_error(AgentKind::Brand, BRAND_NOTE);
    }
    let ev = anchor_chars(t, 120);
    let ts = brand_terms();
    let present = present_terms_exec(low, ts.as_slice());
    let mut fs: Vec<Finding> = Vec::new();
    assert(finding_views(fs@) =~= seq![]);
    let c = !any_contained_exec(low, ts.as_slice());
    push_when(&mut fs, c, "[Brand] No audience/tone language — for external comms, confirm who this is for and what tone fits.", &ev, Severity::Info);
    agent_result(AgentKind::Brand, BRAND_NOTE, fs, "brand_terms_present", present)
}

/// What the research method agent reports, given the text and its lowercase form `low`.
pub open spec fn research_method_spec_lower(text: Seq<char>, low: Seq<char>) -> AgentResultV {
    if trim(text).len() == 0 {
        empty_error_view(AgentKind::ResearchMethod, RM_NOTE@)
    } else {
        let ev = anchor(text, 120);
        let present = present_terms(low, rm_terms_spec());
        agent_view(
            AgentKind::ResearchMethod,
            RM_NOTE@,
            when((contains(low, "result"@) || contains(low, "finding"@)) && !contains(low, "limitation"@) && !contains(low, "caveat"@), FindingV { claim: "[Research Method] Reports results without stated limitations — confirm boundaries/caveats are named."@, evidence: ev, severity: Severity::Note }),
            "rm_terms_present"@,
            present,
        )
    }
}

/// What the research method agent reports.
pub open spec fn research_method_spec(text: Seq<char>) -> AgentResultV {
    research_method_spec_lower(text, lowercase_of(text))
}

/// Runs the research method agent.
pub fn run_research_method(text: &str) -> (r: AgentResult)
    ensures
        r@ == research_method_spec(text@),
{
    let t = chars_of(text);
    let low = lowercase(&t);
    run_research_method_lower(&t, &low)
}

/// Runs the research method agent over the text `t` and its lowercase form `low`.
pub fn run_research_method_lower(t: &[char], low: &[char]) -> (r: AgentResult)
    ensures
        r@ == research_method_spec_lower(t@, low@),
{
    if is_blank(t) {
        return empty_error(AgentKind::ResearchMethod, RM_NOTE);
    }
    let ev = anchor_chars(t, 120);
    let ts = rm_terms();
    let present = present_terms_exec(low, ts.as_slice());
    let mut fs: Vec<Finding> = Vec::new();
    assert(finding_views(fs@) =~= seq![]);
    let c = (contains_str(low, "result") || contains_str(low, "finding")) && !contains_str(low, "limitation") && !contains_str(low, "caveat");
    push_when(&mut fs, c, "[Research Method] Reports results without stated limitations — confirm boundaries/caveats are named.", &ev, Severity::Note);
    agent_result(AgentKind::ResearchMethod, RM_NOTE, fs, "rm_terms_present", present)
}

/// What the product agent reports, given the text and its lowercase form `low`.
pub open spec fn product_spec_lower(text: Seq<char>, low: Seq<char>) -> AgentResultV {
    if trim(text).len() == 0 {
        empty_error_view(AgentKind::Product, PROD_NOTE@)
    } else {
        let ev = anchor(text, 120);
        let present = present_terms(low, product_terms_spec());
        agent_view(
            AgentKind::Product,
            PROD_NOTE@,
            when((contains(low, "feature"@) || contains(low, "ship"@)) && !contains(low, "success metric"@) && !contains(low, "kpi"@) && !contains(low, "metric"@), FindingV { claim: "[Product] Ships a feature without a success metric — confirm how you'll know it worked."@, evidence: ev, severity: Severity::Note }),
            "product_terms_present"@,
            present,
        )
    }
}

/// What the product agent reports.
pub open spec fn product_spec(text: Seq<char>) -> AgentResultV {
    product_spec_lower(text, lowercase_of(text))
}

/// Runs the product agent.
pub fn run_product(text: &str) -> (r: AgentResult)
    ensures
        r@ == product_spec(text@),
{
    let t = chars_of(text);
    let low = lowercase(&t);
    run_product_lower(&t, &low)
}

/// Runs the product agent over the text `t` and its lowercase form `low`.
pub fn run_product_lower(t: &[char], low: &[char]) -> (r: AgentResult)
    ensures
        r@ == product_spec_lower(t@, low@),
{
    if is_blank(t) {
        return empty_error(AgentKind::Product, PROD_NOTE);
    }
    let ev = anchor_chars(t, 120);
    let ts = product_terms();
    let present = present_terms_exec(low, ts.as_slice());
    let mut fs: Vec<Finding> = Vec::new();
    assert(finding_views(fs@) =~= seq![]);
    let c = (contains_str(low, "feature") || contains_str(low, "ship")) && !contains_str(low, "success metric") && !contains_str(low, "kpi") && !contains_str(low, "metric");
    push_when(&mut fs, c, "[Product] Ships a feature without a success metric — confirm how you'll know it worked.", &ev, Severity::Note);
    agent_result(AgentKind::Product, PROD_NOTE, fs, "product_terms_present", present)
}

/// What agent `kind` reports for `text`.
pub open spec fn agent_spec(kind: AgentKind, text: Seq<char>) -> AgentResultV {
    match kind {
        AgentKind::Osint => osint_spec(text),
        AgentKind::Security => security_spec(text),
        AgentKind::LegalCompliance => legal_spec(text),
        AgentKind::Finance => finance_spec(text),
        AgentKind::Ops => ops_spec(text),
        AgentKind::Strategy => strategy_spec(text),
        AgentKind::Ux => ux_spec(text),
        AgentKind::DataPrivacy => data_privacy_spec(text),
        AgentKind::Ethics => ethics_spec(text),
        AgentKind::ThreatModel => threat_model_spec(text),
        AgentKind::Reliability => reliability_spec(text),
        AgentKind::Hiring => hiring_spec(text),
        AgentKind::Brand => brand_spec(text),
        AgentKind::ResearchMethod => research_method_spec(text),
        AgentKind::Product => product_spec(text),
    }
}

/// Runs agent `kind` on `text`.
pub fn run_agent(kind: AgentKind, text: &str) -> (r: AgentResult)
    ensures
        r@ == agent_spec(kind, text@),
{
    match kind {
        AgentKind::Osint => run_osint(text),
        AgentKind::Security => run_security(text),
        AgentKind::LegalCompliance => run_legal(text),
        AgentKind::Finance => run_finance(text),
        AgentKind::Ops => run_ops(text),
        AgentKind::Strategy => run_strategy(text),
        AgentKind::Ux => run_ux(text),
        AgentKind::DataPrivacy => run_data_privacy(text),
        AgentKind::Ethics => run_ethics(text),
        AgentKind::ThreatModel => run_threat_model(text),
        AgentKind::Reliability => run_reliability(text),
        AgentKind::Hiring => run_hiring(text),
        AgentKind::Brand => run_brand(text),
        AgentKind::ResearchMethod => run_research_method(text),
        AgentKind::Product => run_product(text),
    }
}

proof fn lemma_secret_findings_len(text: Seq<char>, low: Seq<char>, n: int)
    requires
        n >= 0,
    ensures
        secret_findings(text, low, n).len() <= n,
    decreases n,
{
    if n > 0 {
        lemma_secret_findings_len(text, low, n - 1);
    }
}

proof fn lemma_security_findings_len(text: Seq<char>, low: Seq<char>, n: int)
    requires
        n >= 0,
    ensures
        security_findings(text, low, n).len() <= n,
    decreases n,
{
    if n > 0 {
        lemma_security_findings_len(text, low, n - 1);
    }
}

/// No agent reports more than twenty findings.
pub proof fn lemma_agent_findings_bound(kind: AgentKind, text: Seq<char>)
    ensures
        agent_spec(kind, text).findings.len() <= 20,
{
    if trim(text).len() > 0 {
        let low = lowercase_of(text);
        match kind {
            AgentKind::Osint => {
                lemma_secret_findings_len(text, low, 13);
                crate::strs::lemma_present_terms_len(low, pii_patterns_spec());
            },
            AgentKind::Security => {
                lemma_security_findings_len(text, low, 13);
            },
            AgentKind::LegalCompliance => {
                crate::strs::lemma_present_terms_len(low, legal_terms_spec());
            },
            AgentKind::Finance => {
                crate::strs::lemma_present_terms_len(low, finance_terms_spec());
            },
            AgentKind::Hiring => {
                crate::strs::lemma_present_terms_len(low, biased_terms_spec());
            },
            _ => {},
        }
    }
}

/// All fifteen agents, in orchestration order.
pub open spec fn all_kinds_spec() -> Seq<AgentKind> {
    seq![AgentKind::Osint, AgentKind::Security, AgentKind::LegalCompliance, AgentKind::Finance, AgentKind::Ops, AgentKind::Strategy, AgentKind::Ux, AgentKind::DataPrivacy, AgentKind::Ethics, AgentKind::ThreatModel, AgentKind::Reliability, AgentKind::Hiring, AgentKind::Brand, AgentKind::ResearchMethod, AgentKind::Product]
}

pub fn all_kinds() -> (r: Vec<AgentKind>)
    ensures
        r@ == all_kinds_spec(),
{
    let r = vec![AgentKind::Osint, AgentKind::Security, AgentKind::LegalCompliance, AgentKind::Finance, AgentKind::Ops, AgentKind::Strategy, AgentKind::Ux, AgentKind::DataPrivacy, AgentKind::Ethics, AgentKind::ThreatModel, AgentKind::Reliability, AgentKind::Hiring, AgentKind::Brand, AgentKind::ResearchMethod, AgentKind::Product];
    assert(r@ =~= all_kinds_spec());
    r
}

// ───────────────────────────── what the agents cite ─────────────────────────────

/// Every finding of `fs` quotes `text`: its evidence is a span of the text, or a
/// span cut short and marked with `…`.
pub open spec fn all_quote(fs: Seq<FindingV>, text: Seq<char>) -> bool {
    forall|i: int| 0 <= i < fs.len() ==> quotes_or_cut(#[trigger] fs[i].evidence, text)
}

proof fn lemma_secret_findings_quote(text: Seq<char>, low: Seq<char>, n: int)
    requires
        0 <= n <= 13,
    ensures
        all_quote(secret_findings(text, low, n), text),
    decreases n,
{
    if n > 0 {
        lemma_secret_findings_quote(text, low, n - 1);
        let k = find(low, secret_patterns_spec()[n - 1]);
        if k >= 0 {
            crate::strs::lemma_span_text_substring(text, low, k, 40);
            let pre = secret_findings(text, low, n - 1);
            let all = secret_findings(text, low, n);
            assert forall|i: int| 0 <= i < all.len() implies quotes_or_cut(#[trigger] all[i].evidence, text) by {
                if i < pre.len() {
                    assert(all[i] == pre[i]);
                }
            }
        }
    }
}

proof fn lemma_security_findings_quote(text: Seq<char>, low: Seq<char>, n: int)
    requires
        0 <= n <= 13,
    ensures
        all_quote(security_findings(text, low, n), text),
    decreases n,
{
    if n > 0 {
        lemma_security_findings_quote(text, low, n - 1);
        let k = find(low, sec_bad_spec()[n - 1]);
        if k >= 0 {
            crate::strs::lemma_span_text_substring(text, low, k, 50);
            let pre = security_findings(text, low, n - 1);
            let all = security_findings(text, low, n);
            assert forall|i: int| 0 <= i < all.len() implies quotes_or_cut(#[trigger] all[i].evidence, text) by {
                if i < pre.len() {
                    assert(all[i] == pre[i]);
                }
            }
        }
    }
}

/// Every finding of every agent quotes the submitted text verbatim: a span of it,
/// or a span cut short and marked with `…`.
pub proof fn law_agent_evidence_quotes(kind: AgentKind, text: Seq<char>)
    ensures
        all_quote(agent_spec(kind, text).findings, text),
{
    if trim(text).len() > 0 {
        let ev = anchor(text, 120);
        lemma_anchor_quotes(text, 120);
        assert(quotes_or_cut(ev, text));
        let fs = agent_spec(kind, text).findings;
        match kind {
            AgentKind::Osint => {
                let low = lowercase_of(text);
                lemma_secret_findings_quote(text, low, 13);
                let sf = secret_findings(text, low, 13);
                assert forall|i: int| 0 <= i < fs.len() implies quotes_or_cut(#[trigger] fs[i].evidence, text) by {
                    if i < sf.len() {
                        assert(fs[i] == sf[i]);
                    } else {
                        assert(fs[i].evidence == ev);
                    }
                }
            },
            AgentKind::Security => {
                lemma_security_findings_quote(text, lowercase_of(text), 13);
            },
            _ => {
                assert forall|i: int| 0 <= i < fs.len() implies quotes_or_cut(#[trigger] fs[i].evidence, text) by {
                    assert(fs[i].evidence == ev);
                }
            },
        }
    }
}

/// An agent given a blank text reports an error and no findings, never a
/// fabricated result.
pub proof fn law_agent_blank_text_errors(kind: AgentKind, text: Seq<char>)
    requires
        trim(text).len() == 0,
    ensures
        agent_spec(kind, text).error is Some,
        agent_spec(kind, text).findings.len() == 0,
        agent_spec(kind, text).agent == kind,
{
}

/// Each agent's result names that agent and discloses that its logic is this
/// project's own addition.
pub proof fn law_agent_identity(kind: AgentKind, text: Seq<char>)
    ensures
        agent_spec(kind, text).agent == kind,
        agent_spec(kind, text).source == Source::RfiIrfosAddition,
{
}

/// An agent reading a non-blank text reports no error.
pub proof fn lemma_agent_spec_reads(kind: AgentKind, text: Seq<char>)
    requires
        trim(text).len() > 0,
    ensures
        agent_spec(kind, text).error is None,
{
}

/// Whether `fs` holds a finding with this claim and severity.
pub open spec fn reports(fs: Seq<FindingV>, claim: Seq<char>, sev: Severity) -> bool {
    exists|i: int| 0 <= i < fs.len() && (#[trigger] fs[i]).claim == claim && fs[i].severity == sev
}

/// The ops agent checks deployment language: on a non-blank text it flags a missing
/// rollback path exactly when the lowercase text mentions "deploy" but not
/// "rollback", notes missing monitoring exactly when it mentions "deploy" but not
/// "monitor", and reports nothing else.
pub proof fn law_ops_deployment_checks(text: Seq<char>, low: Seq<char>)
    requires
        trim(text).len() > 0,
    ensures
        reports(
            ops_spec_lower(text, low).findings,
            "[Ops] Deployment mentioned without a rollback path — confirm one exists before shipping."@,
            Severity::Flag,
        ) == (contains(low, "deploy"@) && !contains(low, "rollback"@)),
        reports(
            ops_spec_lower(text, low).findings,
            "[Ops] Deployment mentioned without monitoring/alerting — confirm observability is covered."@,
            Severity::Note,
        ) == (contains(low, "deploy"@) && !contains(low, "monitor"@)),
        ops_spec_lower(text, low).findings.len() == (if contains(low, "deploy"@) && !contains(low, "rollback"@) {
            1int
        } else {
            0int
        }) + (if contains(low, "deploy"@) && !contains(low, "monitor"@) {
            1int
        } else {
            0int
        }),
{
    let rb = "[Ops] Deployment mentioned without a rollback path — confirm one exists before shipping."@;
    let mn = "[Ops] Deployment mentioned without monitoring/alerting — confirm observability is covered."@;
    reveal_strlit("[Ops] Deployment mentioned without a rollback path — confirm one exists before shipping.");
    reveal_strlit("[Ops] Deployment mentioned without monitoring/alerting — confirm observability is covered.");
    assert(rb[35] != mn[35]);
    let fs = ops_spec_lower(text, low).findings;
    let c1 = contains(low, "deploy"@) && !contains(low, "rollback"@);
    let c2 = contains(low, "deploy"@) && !contains(low, "monitor"@);
    if c1 {
        assert(fs[0].claim == rb);
    }
    if c2 {
        assert(fs[fs.len() - 1].claim == mn);
    }
    if reports(fs, rb, Severity::Flag) {
        let i = choose|i: int| 0 <= i < fs.len() && (#[trigger] fs[i]).claim == rb && fs[i].severity == Severity::Flag;
        assert(c1);
    }
    if reports(fs, mn, Severity::Note) {
        let i = choose|i: int| 0 <= i < fs.len() && (#[trigger] fs[i]).claim == mn && fs[i].severity == Severity::Note;
        assert(c2);
    }
}

/// The agents with one keyword check each (strategy, UX, data privacy, ethics,
/// threat model, reliability, brand, research method, product): on a non-blank text
/// each reports its one finding, with its claim and severity, exactly when its
/// condition on the lowercase text holds, and nothing otherwise.
pub proof fn law_single_check_agents(text: Seq<char>, low: Seq<char>)
    requires
        trim(text).len() > 0,
    ensures
        (strategy_spec_lower(text, low).findings.len() > 0) == ((contains(low, "unique"@) || contains(low, "differentiat"@))),
        strategy_spec_lower(text, low).findings.len() <= 1,
        strategy_spec_lower(text, low).findings.len() > 0 ==> strategy_spec_lower(text, low).findings[0].claim
            == "[Strategy] Claims differentiation — confirm it names the concrete, defensible difference, not an adjective."@ && strategy_spec_lower(text, low).findings[0].severity == Severity::Note,
        (ux_spec_lower(text, low).findings.len() > 0) == (!any_contained(low, ux_terms_spec())),
        ux_spec_lower(text, low).findings.len() <= 1,
        ux_spec_lower(text, low).findings.len() > 0 ==> ux_spec_lower(text, low).findings[0].claim
            == "[UX] No accessibility/usability language found — for a user-facing artifact, confirm a11y is covered elsewhere."@ && ux_spec_lower(text, low).findings[0].severity == Severity::Info,
        (data_privacy_spec_lower(text, low).findings.len() > 0) == (contains(low, "personal data"@) && !contains(low, "consent"@) && !contains(low, "opt-in"@)),
        data_privacy_spec_lower(text, low).findings.len() <= 1,
        data_privacy_spec_lower(text, low).findings.len() > 0 ==> data_privacy_spec_lower(text, low).findings[0].claim
            == "[Data Privacy] Processes personal data but no consent/opt-in language — confirm lawful basis is established."@ && data_privacy_spec_lower(text, low).findings[0].severity == Severity::Flag,
        (ethics_spec_lower(text, low).findings.len() > 0) == (contains(low, "autonom"@) && !contains(low, "human oversight"@) && !contains(low, "human-in-the-loop"@)),
        ethics_spec_lower(text, low).findings.len() <= 1,
        ethics_spec_lower(text, low).findings.len() > 0 ==> ethics_spec_lower(text, low).findings[0].claim
            == "[Ethics] Autonomy claimed without human-oversight language — confirm a control boundary is defined."@ && ethics_spec_lower(text, low).findings[0].severity == Severity::Flag,
        (threat_model_spec_lower(text, low).findings.len() > 0) == (!any_contained(low, threat_terms_spec())),
        threat_model_spec_lower(text, low).findings.len() <= 1,
        threat_model_spec_lower(text, low).findings.len() > 0 ==> threat_model_spec_lower(text, low).findings[0].claim
            == "[Threat Model] No adversary/abuse language found — for a security-relevant artifact, confirm a threat model was considered."@ && threat_model_spec_lower(text, low).findings[0].severity == Severity::Info,
        (reliability_spec_lower(text, low).findings.len() > 0) == (contains(low, "retry"@) && !contains(low, "timeout"@)),
        reliability_spec_lower(text, low).findings.len() <= 1,
        reliability_spec_lower(text, low).findings.len() > 0 ==> reliability_spec_lower(text, low).findings[0].claim
            == "[Reliability] Retry mentioned without a timeout — confirm a bound exists to avoid indefinite hangs."@ && reliability_spec_lower(text, low).findings[0].severity == Severity::Note,
        (brand_spec_lower(text, low).findings.len() > 0) == (!any_contained(low, brand_terms_spec())),
        brand_spec_lower(text, low).findings.len() <= 1,
        brand_spec_lower(text, low).findings.len() > 0 ==> brand_spec_lower(text, low).findings[0].claim
            == "[Brand] No audience/tone language — for external comms, confirm who this is for and what tone fits."@ && brand_spec_lower(text, low).findings[0].severity == Severity::Info,
        (research_method_spec_lower(text, low).findings.len() > 0) == ((contains(low, "result"@) || contains(low, "finding"@)) && !contains(low, "limitation"@) && !contains(low, "caveat"@)),
        research_method_spec_lower(text, low).findings.len() <= 1,
        research_method_spec_lower(text, low).findings.len() > 0 ==> research_method_spec_lower(text, low).findings[0].claim
            == "[Research Method] Reports results without stated limitations — confirm boundaries/caveats are named."@ && research_method_spec_lower(text, low).findings[0].severity == Severity::Note,
        (product_spec_lower(text, low).findings.len() > 0) == ((contains(low, "feature"@) || contains(low, "ship"@)) && !contains(low, "success metric"@) && !contains(low, "kpi"@) && !contains(low, "metric"@)),
        product_spec_lower(text, low).findings.len() <= 1,
        product_spec_lower(text, low).findings.len() > 0 ==> product_spec_lower(text, low).findings[0].claim
            == "[Product] Ships a feature without a success metric — confirm how you'll know it worked."@ && product_spec_lower(text, low).findings[0].severity == Severity::Note,
{
}

proof fn lemma_term_claims_differ(ts: Seq<Seq<char>>, prefix: Seq<char>, suffix: Seq<char>, ev: Seq<char>, sev: Severity, claim: Seq<char>, k: int)
    requires
        0 <= k < prefix.len(),
        k < claim.len(),
        prefix[k] != claim[k],
    ensures
        forall|i: int|
            0 <= i < term_findings(ts, prefix, suffix, ev, sev).len() ==> (#[trigger] term_findings(
                ts,
                prefix,
                suffix,
                ev,
                sev,
            )[i]).claim != claim,
{
    let tf = term_findings(ts, prefix, suffix, ev, sev);
    assert forall|i: int| 0 <= i < tf.len() implies (#[trigger] tf[i]).claim != claim by {
        assert(tf[i].claim == prefix + ts[i] + suffix);
        assert((prefix + ts[i] + suffix)[k] == prefix[k]);
    }
}

/// The legal agent notes missing liability/disclaimer language exactly when the
/// lowercase text holds neither "disclaimer" nor "liability"; the finance agent
/// notes a free/premium split exactly when it holds both "free" and "premium". Each
/// also reports one finding per vocabulary term present, and nothing else.
pub proof fn law_legal_finance_checks(text: Seq<char>, low: Seq<char>)
    requires
        trim(text).len() > 0,
    ensures
        reports(
            legal_spec_lower(text, low).findings,
            "[Legal/Compliance] No liability/disclaimer language found — consider whether the document needs one before external release."@,
            Severity::Info,
        ) == (!contains(low, "disclaimer"@) && !contains(low, "liability"@)),
        legal_spec_lower(text, low).findings.len() == present_terms(low, legal_terms_spec()).len() + (if !contains(
            low,
            "disclaimer"@,
        ) && !contains(low, "liability"@) {
            1int
        } else {
            0int
        }),
        reports(
            finance_spec_lower(text, low).findings,
            "[Finance] Free/premium split present — confirm the paid boundary is explicit (what free users never get)."@,
            Severity::Note,
        ) == (contains(low, "free"@) && contains(low, "premium"@)),
        finance_spec_lower(text, low).findings.len() == present_terms(low, finance_terms_spec()).len() + (if contains(
            low,
            "free"@,
        ) && contains(low, "premium"@) {
            1int
        } else {
            0int
        }),
{
    let ev = anchor(text, 120);
    let lc = "[Legal/Compliance] No liability/disclaimer language found — consider whether the document needs one before external release."@;
    let lp = "[Legal/Compliance] Mentions '"@;
    reveal_strlit("[Legal/Compliance] No liability/disclaimer language found — consider whether the document needs one before external release.");
    reveal_strlit("[Legal/Compliance] Mentions '");
    let ls = "' — confirm the associated obligation is actually addressed, not just named."@;
    let lt = term_findings(present_terms(low, legal_terms_spec()), lp, ls, ev, Severity::Note);
    lemma_term_claims_differ(present_terms(low, legal_terms_spec()), lp, ls, ev, Severity::Note, lc, 19);
    let lf = legal_spec_lower(text, low).findings;
    if reports(lf, lc, Severity::Info) {
        let i = choose|i: int| 0 <= i < lf.len() && (#[trigger] lf[i]).claim == lc && lf[i].severity == Severity::Info;
        if i < lt.len() {
            assert(lf[i] == lt[i]);
        }
    }
    if !contains(low, "disclaimer"@) && !contains(low, "liability"@) {
        assert(lf[lf.len() - 1].claim == lc);
    }
    let fc = "[Finance] Free/premium split present — confirm the paid boundary is explicit (what free users never get)."@;
    let fp = "[Finance] References '"@;
    reveal_strlit("[Finance] Free/premium split present — confirm the paid boundary is explicit (what free users never get).");
    reveal_strlit("[Finance] References '");
    let fsx = "' — confirm the number is sourced and the unit stated."@;
    let ft = term_findings(present_terms(low, finance_terms_spec()), fp, fsx, ev, Severity::Info);
    lemma_term_claims_differ(present_terms(low, finance_terms_spec()), fp, fsx, ev, Severity::Info, fc, 10);
    let ff = finance_spec_lower(text, low).findings;
    if reports(ff, fc, Severity::Note) {
        let i = choose|i: int| 0 <= i < ff.len() && (#[trigger] ff[i]).claim == fc && ff[i].severity == Severity::Note;
        if i < ft.len() {
            assert(ff[i] == ft[i]);
        }
    }
    if contains(low, "free"@) && contains(low, "premium"@) {
        assert(ff[ff.len() - 1].claim == fc);
    }
}

} // verus!
