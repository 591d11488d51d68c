use lauras::agents::{
    all_kinds, run_agent, run_brand, run_data_privacy, run_ethics, run_finance, run_hiring, run_legal, run_ops,
    run_osint, run_product, run_reliability, run_research_method, run_security, run_strategy, run_threat_model,
    run_ux, AgentKind, AgentResult,
};
use lauras::lcs::longest_common_substring;
use lauras::orchestrator::{
    count_severity, normalize_claim, review_team, risk_band_for, synthesize, to_team_result,
    RiskBand, TeamAgentResult, TeamRequest,
};
use lauras::schema::{Finding, Severity, Source};

fn run_kind(kind: AgentKind, text: &str) -> AgentResult {
    match kind {
        AgentKind::Osint => run_osint(text),
        AgentKind::Security => run_security(text),
        AgentKind::LegalCompliance => run_legal(text),
        AgentKind::Finance => run_finance(text),
        AgentKind::Ops => run_ops(text),
        AgentKind::Strategy => run_strategy(text),
        AgentKind::Ux => run_ux(text),
        AgentKind::DataPrivacy => run_data_privacy(text),
        AgentKind::Ethics => run_ethics(text),
        AgentKind::ThreatModel => run_threat_model(text),
        AgentKind::Reliability => run_reliability(text),
        AgentKind::Hiring => run_hiring(text),
        AgentKind::Brand => run_brand(text),
        AgentKind::ResearchMethod => run_research_method(text),
        AgentKind::Product => run_product(text),
    }
}

fn gtm() -> TeamRequest {
    TeamRequest {
        text: "We deploy the model to production with no rollback and store personal data without consent. password=hunter2\nWe claim it is unique and guaranteed 100% accurate. The system is autonomous with no human oversight.\nWe hire a rockstar ninja. We report strong results with no stated limitations.".to_string(),
        agents: None,
        metadata: None,
    }
}

fn finding(claim: &str, evidence: &str, severity: Severity) -> Finding {
    Finding { claim: claim.to_string(), evidence: evidence.to_string(), severity }
}

fn team_result(agent: AgentKind, findings: Vec<Finding>, error: Option<&str>) -> TeamAgentResult {
    let (f, n, i) = count_severity(&findings);
    TeamAgentResult {
        agent,
        agent_name: agent.display_name().to_string(),
        source: Source::RfiIrfosAddition,
        attribution_note: String::new(),
        finding_count: findings.len(),
        flag_count: f,
        note_count: n + i,
        findings,
        data: None,
        error: error.map(|e| e.to_string()),
    }
}

// ── agents ──

#[test]
fn all_agents_present() {
    assert_eq!(AgentKind::ALL.len(), 15);
}

#[test]
fn osint_flags_leaked_secret() {
    let r = run_osint("here is my key sk-abc123def456 and a password=secret123");
    assert!(r.findings.iter().any(|f| f.claim.contains("OSINT") && f.severity == Severity::Flag));
}

#[test]
fn osint_does_not_flag_benign_password_word() {
    let r = run_osint("We use a password manager and offer passwordless login.");
    assert!(!r.findings.iter().any(|f| f.claim.contains("exposed in plaintext")));
}

#[test]
fn osint_does_not_flag_bare_at_in_prose() {
    let r = run_osint("The issue is @ the core of the system and we @ mention things.");
    assert!(!r.findings.iter().any(|f| f.claim.contains("Email-shaped")));
}

#[test]
fn osint_flags_real_email_shape() {
    let r = run_osint("Contact us at simeon@rfi-irfos.org for details.");
    assert!(r.findings.iter().any(|f| f.claim.contains("Email-shaped")));
}

#[test]
fn security_flags_eval() {
    let r = run_security("we call eval(user_input) directly");
    assert!(r.findings.iter().any(|f| f.claim.contains("Security") && f.severity == Severity::Flag));
}

#[test]
fn privacy_flags_personal_data_without_consent() {
    let r = run_data_privacy("we store personal data in the warehouse");
    assert!(r.findings.iter().any(|f| f.claim.contains("Data Privacy") && f.severity == Severity::Flag));
}

#[test]
fn empty_input_reports_error_not_fabrication() {
    for kind in AgentKind::ALL {
        let r = run_kind(kind, "");
        assert!(r.error.is_some(), "agent {kind:?} should report error on empty input");
    }
}

#[test]
fn every_finding_evidence_is_verbatim() {
    let text = "we call eval(user_input) and store personal data without consent, password=hunter2";
    for kind in AgentKind::ALL {
        let r = run_kind(kind, text);
        for f in &r.findings {
            assert!(
                text.contains(&f.evidence) || f.evidence.ends_with('…'),
                "agent {kind:?} evidence not verbatim: {}",
                f.evidence
            );
        }
    }
}

#[test]
fn osint_span_cites_forty_bytes_verbatim() {
    let text = "token=abc\ndef and more words that run past forty bytes here";
    let r = run_osint(text);
    let f = r.findings.iter().find(|f| f.claim.contains("token assignment")).unwrap();
    assert_eq!(f.evidence, "token=abc\ndef and more words that run pa");
    assert!(text.contains(&f.evidence));
    let d = r.data.unwrap();
    assert_eq!(d.field, "leaked_secret_kinds");
    assert_eq!(d.values, vec!["token assignment".to_string()]);
}

#[test]
fn run_agent_dispatches_by_kind() {
    let text = "we deploy without a plan";
    for kind in AgentKind::ALL {
        let a = run_agent(kind, text);
        assert_eq!(a.agent, kind);
        let b = run_kind(kind, text);
        assert_eq!(a.findings.len(), b.findings.len());
    }
}

#[test]
fn agent_span_is_rounded_down_to_character_boundaries() {
    // Lowercasing 'İ' adds a byte, so the keyword's byte position in the lowercase
    // text falls inside the 'é' of the submitted text; the span starts at that
    // character instead.
    let text = "İİİİ sk-é";
    let r = run_osint(text);
    let f = r.findings.iter().find(|f| f.claim.contains("openai-style key")).unwrap();
    assert_eq!(f.evidence, "é");
    for kind in AgentKind::ALL {
        assert_eq!(run_agent(kind, text).error, None);
    }
}

#[test]
fn security_evidence_keeps_line_breaks() {
    let text = "eval(x)\ny";
    let r = run_security(text);
    assert_eq!(r.findings.len(), 1);
    assert_eq!(r.findings[0].evidence, "eval(x)\ny");
    assert!(r.findings.iter().all(|f| text.contains(f.evidence.as_str()) || f.evidence.ends_with('…')));
}

#[test]
fn agent_names_and_wire_names() {
    assert_eq!(AgentKind::Osint.as_str(), "osint");
    assert_eq!(AgentKind::ResearchMethod.as_str(), "research_method");
    assert_eq!(AgentKind::Brand.display_name(), "Brand & Comms");
    assert_eq!(all_kinds(), AgentKind::ALL.to_vec());
}

// ── orchestrator ──

#[test]
fn runs_all_fifteen_by_default() {
    let resp = review_team(&gtm());
    assert_eq!(resp.agents_run, 15);
    assert!(resp.total_findings > 0);
    assert!(resp.total_flags > 0);
}

#[test]
fn subset_runs_only_requested() {
    let req = TeamRequest {
        text: "store personal data without consent".to_string(),
        agents: Some(vec![AgentKind::DataPrivacy, AgentKind::Osint]),
        metadata: None,
    };
    let resp = review_team(&req);
    assert_eq!(resp.agents_run, 2);
}

#[test]
fn empty_text_is_refused_not_fabricated() {
    let req = TeamRequest { text: "   ".to_string(), agents: None, metadata: None };
    let resp = review_team(&req);
    assert_eq!(resp.agents_run, 0);
    assert!(resp.summary.contains("empty"));
}

#[test]
fn determinism_same_input_same_output() {
    let a = review_team(&gtm());
    let b = review_team(&gtm());
    assert_eq!(a.total_findings, b.total_findings);
    assert_eq!(a.total_flags, b.total_flags);
    assert_eq!(a.synthesis.risk_score, b.synthesis.risk_score);
}

#[test]
fn synthesis_produces_risk_band_and_actions() {
    let resp = review_team(&gtm());
    assert!(resp.synthesis.risk_score > 0);
    assert_ne!(resp.synthesis.risk_band, RiskBand::Low);
    assert!(!resp.synthesis.priority_actions.is_empty());
    let prios: Vec<u8> = resp.synthesis.priority_actions.iter().map(|a| a.priority).collect();
    assert_eq!(prios.first(), Some(&1));
}

#[test]
fn cross_cutting_theme_detected_on_shared_evidence() {
    let text = "We deploy the feature to prod and have no rollback plan or timeout on retries.".to_string();
    let resp = review_team(&TeamRequest { text, agents: None, metadata: None });
    for t in &resp.synthesis.cross_cutting_themes {
        assert!(!t.shared_evidence.trim().is_empty());
        assert_eq!(t.agents.len(), 2);
    }
}

#[test]
fn team_summary_reads_counts_and_band() {
    let req = TeamRequest {
        text: "we store personal data in the warehouse".to_string(),
        agents: Some(vec![AgentKind::DataPrivacy]),
        metadata: None,
    };
    let resp = review_team(&req);
    assert!(resp.complete);
    assert_eq!(resp.total_flags, 1);
    assert_eq!(resp.synthesis.risk_score, 10);
    assert_eq!(resp.synthesis.risk_band, RiskBand::Moderate);
    assert_eq!(
        resp.summary,
        "Laura's team ran 1 agents: 1 findings (1 flags, 0 notes). Risk band: moderate."
    );
    assert_eq!(resp.synthesis.priority_actions.len(), 1);
    assert_eq!(resp.synthesis.priority_actions[0].source_agent, AgentKind::DataPrivacy);
}

#[test]
fn team_totals_add_up() {
    let resp = review_team(&gtm());
    assert_eq!(resp.total_flags + resp.total_notes, resp.total_findings);
    assert_eq!(resp.agents_partial, 0);
    assert!(resp.complete);
    let prios: Vec<u8> = resp.synthesis.priority_actions.iter().map(|a| a.priority).collect();
    let expected: Vec<u8> = (1..=prios.len() as u8).collect();
    assert_eq!(prios, expected);
}

#[test]
fn review_team_runs_on_any_text() {
    let req = TeamRequest { text: "İİİİ sk-é".to_string(), agents: None, metadata: None };
    let resp = review_team(&req);
    assert_eq!(resp.agents_run, 15);
    assert!(resp.complete);
}

#[test]
fn risk_bands_by_score() {
    assert_eq!(risk_band_for(0), RiskBand::Low);
    assert_eq!(risk_band_for(1), RiskBand::Moderate);
    assert_eq!(risk_band_for(20), RiskBand::Moderate);
    assert_eq!(risk_band_for(21), RiskBand::Elevated);
    assert_eq!(risk_band_for(60), RiskBand::Elevated);
    assert_eq!(risk_band_for(61), RiskBand::Critical);
    assert_eq!(risk_band_for(200), RiskBand::Critical);
}

#[test]
fn normalize_claim_strips_tag_and_collapses_space() {
    assert_eq!(normalize_claim("  [Ops]  Deploy   NOW "), "deploy now");
    assert_eq!(normalize_claim("No tag\there"), "no tag here");
    assert_eq!(normalize_claim("[unclosed tag"), "[unclosed tag");
}

#[test]
fn lcs_finds_the_first_longest_common_run() {
    let a: Vec<char> = "xxabcdyy".chars().collect();
    let b: Vec<char> = "zabcdz".chars().collect();
    let r: String = longest_common_substring(&a, &b).iter().collect();
    assert_eq!(r, "abcd");
    let c: Vec<char> = "ab-cd".chars().collect();
    let d: Vec<char> = "cd ab".chars().collect();
    let r2: String = longest_common_substring(&c, &d).iter().collect();
    assert_eq!(r2, "ab");
    let e: Vec<char> = Vec::new();
    assert!(longest_common_substring(&e, &d).is_empty());
}

#[test]
fn count_severity_by_kind() {
    let fs = vec![
        finding("a", "e", Severity::Flag),
        finding("b", "e", Severity::Info),
        finding("c", "e", Severity::Flag),
        finding("d", "e", Severity::Note),
    ];
    assert_eq!(count_severity(&fs), (2, 1, 1));
}

#[test]
fn synthesize_finds_theme_and_orders_actions() {
    let shared = "we deploy the feature to production tonight";
    let ops = team_result(
        AgentKind::Ops,
        vec![finding("[Ops] Deployment mentioned without a rollback path", shared, Severity::Flag)],
        None,
    );
    let priv_ = team_result(
        AgentKind::DataPrivacy,
        vec![
            finding("[Data Privacy] No consent", &format!("so {shared} again"), Severity::Flag),
            finding("[Data Privacy]   no   CONSENT", "elsewhere", Severity::Flag),
        ],
        None,
    );
    let sec = team_result(AgentKind::Security, vec![finding("[Security] eval", "eval(", Severity::Flag)], None);
    let partial = team_result(AgentKind::Ux, vec![], Some("input empty"));
    let s = synthesize(&vec![ops, priv_, sec, partial]);
    // four flags, no notes
    assert_eq!(s.risk_score, 40);
    assert_eq!(s.risk_band, RiskBand::Elevated);
    assert_eq!(s.cross_cutting_themes.len(), 1);
    assert_eq!(s.cross_cutting_themes[0].shared_evidence, shared);
    assert_eq!(s.cross_cutting_themes[0].agents, vec![AgentKind::Ops, AgentKind::DataPrivacy]);
    // deduplicated blockers ordered by agent, then the partial agent
    let got: Vec<(u8, AgentKind)> = s.priority_actions.iter().map(|a| (a.priority, a.source_agent)).collect();
    assert_eq!(
        got,
        vec![(1, AgentKind::Security), (2, AgentKind::Ops), (3, AgentKind::DataPrivacy), (4, AgentKind::Ux)]
    );
    assert_eq!(
        s.priority_actions[3].action,
        "Review partial: UX / Accessibility reported no classifiable signal — verify manually."
    );
}

#[test]
fn risk_score_caps_at_two_hundred() {
    let many: Vec<Finding> = (0..25).map(|i| finding(&format!("[Ops] f{i}"), "e", Severity::Flag)).collect();
    let s = synthesize(&vec![team_result(AgentKind::Ops, many, None)]);
    assert_eq!(s.risk_score, 200);
    assert_eq!(s.risk_band, RiskBand::Critical);
    // at most twelve blockers are kept
    assert_eq!(s.priority_actions.len(), 12);
}

#[test]
fn partial_actions_continue_the_numbering_after_the_cut() {
    let many: Vec<Finding> = (0..13).map(|i| finding(&format!("[Ops] f{i}"), "e", Severity::Flag)).collect();
    let s = synthesize(&vec![team_result(AgentKind::Ops, many, None), team_result(AgentKind::Ux, vec![], Some("input empty"))]);
    let prios: Vec<u8> = s.priority_actions.iter().map(|a| a.priority).collect();
    assert_eq!(prios, (1..=13).collect::<Vec<u8>>());
    assert_eq!(s.priority_actions[12].source_agent, AgentKind::Ux);
}

#[test]
fn team_result_counts_informational_as_notes() {
    let a = run_legal("this is a plan with a contract");
    let t = to_team_result(a);
    assert_eq!(t.flag_count + t.note_count, t.finding_count);
    assert_eq!(t.agent_name, "Legal & Compliance");
}

#[test]
fn agent_logic_over_a_given_lowercase_text() {
    let t: Vec<char> = "We Deploy".chars().collect();
    let low: Vec<char> = "we deploy".chars().collect();
    let r = lauras::agents::run_ops_lower(&t, &low);
    assert!(r.findings.iter().any(|f| f.claim.contains("rollback") && f.severity == Severity::Flag));
    // the keyword checks read only the lowercase text they are given
    let upper: Vec<char> = "WE DEPLOY".chars().collect();
    let r2 = lauras::agents::run_ops_lower(&t, &upper);
    assert!(r2.findings.is_empty());
}
