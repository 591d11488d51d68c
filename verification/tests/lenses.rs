use lauras::lenses::resonance::{
    goals, is_resonance_result_for, matches_group, pair_evidence, prepare, resonance_result, risks, success,
};
use lauras::lenses::{ecocentric, eight_layer, uip_check};
use lauras::schema::{Finding, Lens, LensData, LensResult, ReviewRequest, Severity, Source};
use lauras::similarity::tokenize;
use lauras::text::segment_text;
use lauras::{build_summary, review};

fn categories(r: &LensResult) -> (Vec<String>, Vec<String>) {
    match r.data.clone().unwrap() {
        LensData::Categories { mentioned, absent } => (mentioned, absent),
        other => panic!("unexpected data {other:?}"),
    }
}

fn resonance_of(text: &str) -> LensResult {
    match prepare(text) {
        Err(e) => e,
        Ok(sections) => {
            let summary = Finding {
                claim: "Compared the sections.".to_string(),
                evidence: sections.segments[0].body.clone(),
                severity: Severity::Info,
            };
            resonance_result(&sections, vec![summary], 0)
        },
    }
}

// ── ecocentric ──

#[test]
fn detects_present_category() {
    let result = ecocentric::run("This will affect the environment through increased carbon output.");
    let (present, _) = categories(&result);
    assert!(present.iter().any(|v| v.contains("environmental")));
}

#[test]
fn flags_all_categories_absent_on_narrow_doc() {
    let result = ecocentric::run("Rename the internal variable `foo` to `bar` in the config parser.");
    let (present, absent) = categories(&result);
    assert_eq!(present.len(), 0);
    assert_eq!(absent.len(), 4);
}

#[test]
fn ecocentric_empty_text_reports_error() {
    assert!(ecocentric::run("").error.is_some());
}

#[test]
fn ecocentric_absent_notes_cite_closing_block() {
    let text = "First block about carbon.\n\nClosing block of the plan.";
    let result = ecocentric::run(text);
    assert!(result.error.is_none());
    // carbon is mentioned, so three categories are absent, each a note on the closing block
    assert_eq!(result.findings.len(), 3);
    for f in &result.findings {
        assert_eq!(f.severity, Severity::Note);
        assert_eq!(f.evidence, "Closing block of the plan.");
    }
}

#[test]
fn ecocentric_long_closing_block_is_cut_with_ellipsis() {
    let long = "x".repeat(250);
    let result = ecocentric::run(&long);
    let ev = &result.findings[0].evidence;
    assert_eq!(ev.chars().count(), 201);
    assert!(ev.ends_with('…'));
    assert!(long.contains(&ev[..ev.len() - '…'.len_utf8()]));
}

#[test]
fn ecocentric_categories_split_in_checking_order() {
    let text = "The Community will feel SYSTEMIC effects.";
    let result = ecocentric::run(text);
    assert!(result.error.is_none());
    let (mentioned, absent) = categories(&result);
    assert_eq!(mentioned, vec!["downstream/third-party stakeholders", "at-scale/systemic effects"]);
    assert_eq!(absent, vec!["environmental/ecological impact", "long-term/second-order consequences"]);
    assert_eq!(result.findings.len(), 2);
    assert!(result.findings[0].claim.starts_with("No mention found of 'environmental/ecological impact'"));
    assert!(result.findings[1].claim.starts_with("No mention found of 'long-term/second-order consequences'"));
    for f in &result.findings {
        assert_eq!(f.severity, Severity::Note);
        assert_eq!(f.evidence, text);
    }
}

#[test]
fn ecocentric_leads_with_info_when_nothing_is_mentioned() {
    let result = ecocentric::run("Rename the internal variable.");
    assert_eq!(result.findings.len(), 5);
    assert_eq!(result.findings[0].severity, Severity::Info);
    assert!(result.findings[1..].iter().all(|f| f.severity == Severity::Note));
}

// ── eight_layer ──

#[test]
fn classify_segment_detects_action_keywords() {
    let layers = eight_layer::classify_segment("We will deploy this next week and implement the fix.");
    assert!(layers.contains(&"action"));
}

#[test]
fn classify_segment_detects_multiple_layers() {
    let layers = eight_layer::classify_segment(
        "However, there is a risk: we believe this might fail because the data show inconsistent results.",
    );
    assert!(layers.contains(&"counterarguments"));
    assert!(layers.contains(&"hypotheses"));
}

#[test]
fn classify_segment_returns_empty_when_no_triggers() {
    let layers = eight_layer::classify_segment("Blue sky green grass");
    assert!(layers.is_empty());
}

#[test]
fn classify_segment_keeps_at_most_three_strongest() {
    // counterarguments: however, risk, concern (3); hypotheses: might, perhaps (2);
    // analysis: because (1); facts: data show (1)
    let layers = eight_layer::classify_segment(
        "However the risk and concern remain; it might fail, perhaps because the data show drift.",
    );
    assert_eq!(layers, vec!["counterarguments", "hypotheses", "facts"]);
}

#[test]
fn run_flags_absent_layers() {
    let text = "# Plan\nWe will deploy this next week.";
    let result = eight_layer::run(text);
    assert!(result.error.is_none());
    let absent_flags: Vec<_> = result.findings.iter().filter(|f| f.claim.contains("blind_spot")).collect();
    assert_eq!(absent_flags.len(), 1);
}

#[test]
fn run_on_empty_text_reports_error() {
    let result = eight_layer::run("");
    assert!(result.error.is_some());
}

#[test]
fn eight_layer_counts_segments_per_layer() {
    let result = eight_layer::run("# Plan\nWe will deploy this next week.");
    match result.data.unwrap() {
        LensData::Distribution { segments_classified, counts } => {
            assert_eq!(segments_classified, 1);
            assert_eq!(counts, vec![0, 0, 0, 0, 0, 1, 0, 0]);
        },
        other => panic!("unexpected data {other:?}"),
    }
    assert_eq!(
        result.findings[0].claim,
        "Classified 1 segment(s) across the 8-Layer taxonomy via keyword matching."
    );
    // seven absent layers, each a note
    assert_eq!(result.findings.len(), 8);
}

// ── resonance ──

#[test]
fn matches_group_is_case_insensitive() {
    assert!(matches_group("Project GOALS", &goals()));
    assert!(matches_group("success criteria", &success()));
    assert!(!matches_group("random heading", &goals()));
}

#[test]
fn run_reports_error_on_single_section() {
    let result = prepare("just one paragraph, no headings, no blank-line breaks");
    match result {
        Err(e) => assert!(e.error.is_some()),
        Ok(_) => panic!("a single section cannot be compared"),
    }
}

#[test]
fn run_computes_distribution_on_multi_section_doc() {
    let text = "# Goals\nShip faster and safer.\n\n# Success Criteria\nFaster shipping with fewer bugs.";
    match prepare(text) {
        Ok(s) => {
            assert_eq!(s.segments.len(), 2);
            assert_eq!(s.vectors.len(), 2);
            // heading and body are counted together
            assert_eq!(s.vectors[0].get("goals"), 1);
            assert_eq!(s.vectors[1].get("faster"), 1);
        },
        Err(_) => panic!("two sections should be compared"),
    }
}

#[test]
fn risks_group_matches_limitations_heading() {
    assert!(matches_group("Known Limitations", &risks()));
}

#[test]
fn pair_evidence_quotes_both_sections() {
    assert_eq!(pair_evidence("alpha", "beta"), "A: alpha | B: beta");
    let long = "y".repeat(120);
    let e = pair_evidence(&long, "b");
    assert!(e.starts_with(&format!("A: {}…", "y".repeat(100))));
}

// ── uip_check ──

#[test]
fn flags_absolute_claim_without_hedge() {
    let result = uip_check::run("We guarantee this will never fail under any load.");
    assert!(result.findings.iter().any(|f| f.claim.contains("rule 2") && f.severity == Severity::Flag));
}

#[test]
fn does_not_flag_absolute_claim_with_hedge() {
    let result = uip_check::run("Based on our tests, we guarantee this works for the cases we checked.");
    assert!(!result.findings.iter().any(|f| f.claim.contains("rule 2")));
}

#[test]
fn flags_completion_claim_without_verification() {
    let result = uip_check::run("The migration is complete and ready for production use.");
    assert!(result.findings.iter().any(|f| f.claim.contains("rule 3")));
}

#[test]
fn does_not_flag_completion_claim_with_verification() {
    let result = uip_check::run("The migration is complete; it has been tested against the staging environment.");
    assert!(!result.findings.iter().any(|f| f.claim.contains("rule 3")));
}

#[test]
fn surfaces_negation_as_info_not_flag() {
    let result = uip_check::run("User data will not be shared with third parties.");
    let f = result.findings.iter().find(|f| f.claim.contains("rule 1")).expect("should find rule 1");
    assert_eq!(f.severity, Severity::Info);
}

#[test]
fn every_evidence_is_verbatim_from_input() {
    let text = "We guarantee this will never fail. The system is complete.";
    let result = uip_check::run(text);
    for f in &result.findings {
        assert!(text.contains(&f.evidence), "evidence not found verbatim in source: {}", f.evidence);
    }
}

#[test]
fn uip_check_empty_text_reports_error() {
    assert!(uip_check::run("").error.is_some());
}

#[test]
fn uip_conclusion_after_reasoning_is_not_flagged() {
    let flagged = uip_check::run("Therefore we ship on Monday.");
    assert!(flagged.findings.iter().any(|f| f.claim.contains("rule 4")));
    let reasoned = uip_check::run("Because the tests pass. Therefore we ship on Monday.");
    assert!(!reasoned.findings.iter().any(|f| f.claim.contains("rule 4")));
}

#[test]
fn split_sentences_drops_short_pieces() {
    let chars: Vec<char> = "Ok. This is long enough!\nno".chars().collect();
    let s = uip_check::split_sentences(&chars);
    let texts: Vec<String> = s.iter().map(|v| v.iter().collect()).collect();
    assert_eq!(texts, vec!["This is long enough".to_string()]);
}

#[test]
fn blank_text_is_an_error_for_every_lens() {
    for text in ["", "   \n\t "] {
        assert!(eight_layer::run(text).error.is_some());
        assert!(uip_check::run(text).error.is_some());
        assert!(ecocentric::run(text).error.is_some());
        assert!(prepare(text).is_err());
    }
}

// ── similarity ──

#[test]
fn stopwords_and_short_tokens_are_excluded() {
    let tv = tokenize("the a an if it is to of we");
    assert!(tv.is_empty());
}

#[test]
fn tokenize_counts_each_word() {
    let tv = tokenize("Deploy, deploy; DEPLOY the widget (widget) now");
    assert_eq!(tv.len(), 3);
    assert_eq!(tv.get("deploy"), 3);
    assert_eq!(tv.get("widget"), 2);
    assert_eq!(tv.get("now"), 1);
    assert_eq!(tv.get("the"), 0);
    assert_eq!(tv.entry(0), ("deploy".to_string(), 3));
}

// ── text ──

#[test]
fn splits_on_markdown_headings() {
    let text = "# Intro\nfirst part\n\n# Goals\nsecond part\nmore";
    let segs = segment_text(text);
    assert_eq!(segs.len(), 2);
    assert_eq!(segs[0].heading.as_deref(), Some("Intro"));
    assert_eq!(segs[0].body, "first part");
    assert_eq!(segs[1].heading.as_deref(), Some("Goals"));
}

#[test]
fn falls_back_to_paragraphs_when_no_headings() {
    let text = "first paragraph here.\n\nsecond paragraph here.\n\nthird one.";
    let segs = segment_text(text);
    assert_eq!(segs.len(), 3);
    assert!(segs.iter().all(|s| s.heading.is_none()));
}

#[test]
fn empty_input_yields_no_segments() {
    assert!(segment_text("").is_empty());
    assert!(segment_text("   \n\n  ").is_empty());
}

#[test]
fn heading_body_joins_its_lines() {
    let segs = segment_text("# Goals\nsecond part\nmore");
    assert_eq!(segs.len(), 1);
    assert_eq!(segs[0].body, "second part\nmore");
}

// ── review ──

#[test]
fn review_runs_all_four_lenses_by_default() {
    let req = ReviewRequest {
        text: "# Goals\nShip the feature fast.\n\n# Risks\nMight break existing users.".to_string(),
        lenses: Lens::ALL.to_vec(),
        metadata: None,
    };
    let resp = review(&req, &resonance_of(&req.text));
    assert_eq!(resp.lenses.len(), 4);
    assert!(!resp.summary.is_empty());
    assert_eq!(resp.lenses.iter().map(|r| r.lens).collect::<Vec<_>>(), Lens::ALL.to_vec());
    assert!(resp.lenses.iter().all(|r| r.error.is_none()));
    assert!(resp.summary.starts_with("Ran 4 lens(es): eight_layer, uip_check, resonance, ecocentric."));
}

#[test]
fn resonance_results_are_checked_against_the_text() {
    let two = "# Goals\nShip.\n\n# Success\nShipped.";
    assert!(is_resonance_result_for(two, &resonance_of(two)));
    let one = "just one paragraph";
    assert!(is_resonance_result_for(one, &resonance_of(one)));
    // a result for one text does not stand in for the other
    assert!(!is_resonance_result_for(two, &resonance_of(one)));
    assert!(!is_resonance_result_for(one, &resonance_of(two)));
}

#[test]
fn review_runs_only_requested_subset() {
    let req = ReviewRequest {
        text: "Some plan text here for testing purposes.".to_string(),
        lenses: vec![Lens::EightLayer],
        metadata: None,
    };
    let resp = review(&req, &resonance_of(&req.text));
    assert_eq!(resp.lenses.len(), 1);
    assert_eq!(resp.lenses[0].lens, Lens::EightLayer);
}

#[test]
fn summary_when_every_lens_failed() {
    let req = ReviewRequest { text: "".to_string(), lenses: vec![Lens::EightLayer, Lens::UipCheck], metadata: None };
    let resp = review(&req, &resonance_of(&req.text));
    assert_eq!(
        resp.summary,
        "All requested lenses failed to run — see per-lens `error` fields for details. No review could be produced."
    );
}

#[test]
fn summary_counts_flags_and_notes_and_names_failures() {
    let results = vec![uip_check::run("We guarantee this will never fail under any load."), eight_layer::run("")];
    assert_eq!(
        build_summary(&results),
        "Ran 1 lens(es): uip_check. 1 flagged issue(s), 0 note(s) worth a second look — see per-lens findings for what and where. 1 lens(es) failed to run (eight_layer) — treat this review as partial, not a clean bill of health."
    );
}

#[test]
fn lens_names_on_the_wire() {
    let names: Vec<&str> = Lens::all_vec().iter().map(|l| l.as_str()).collect();
    assert_eq!(names, vec!["eight_layer", "uip_check", "resonance", "ecocentric"]);
}

fn quotes_or_cut(evidence: &str, text: &str) -> bool {
    text.contains(evidence)
        || evidence.strip_suffix('…').map(|p| text.contains(p)).unwrap_or(false)
}

#[test]
fn eight_layer_evidence_quotes_the_document() {
    let text = "# Plan\nWe will deploy this next week.\nIt might slip.\n\n# Risks\nThe downside is cost.";
    let result = eight_layer::run(text);
    assert!(!result.findings.is_empty());
    for f in &result.findings {
        assert!(quotes_or_cut(&f.evidence, text), "not quoted: {}", f.evidence);
    }
}

#[test]
fn section_body_with_carriage_returns_is_rebuilt_from_lines() {
    let text = "# A\r\nx\r\ny";
    let segs = segment_text(text);
    assert_eq!(segs[0].body, "x\ny");
    assert!(!text.contains(&segs[0].body));
}

#[test]
fn lens_logic_over_a_given_lowercase_text() {
    let low: Vec<char> = "we will deploy this next week".chars().collect();
    assert_eq!(eight_layer::classify_lowercase(&low), vec![5]);
    let s: Vec<char> = "We Guarantee it".chars().collect();
    let l: Vec<char> = "we guarantee it".chars().collect();
    let (fs, reasons) = uip_check::check_sentence(&s, &l, false);
    assert_eq!(fs.len(), 1);
    assert_eq!(fs[0].evidence, "We Guarantee it");
    assert!(!reasons);
    let t: Vec<char> = "Carbon".chars().collect();
    let tl: Vec<char> = "carbon".chars().collect();
    let r = ecocentric::run_lower(&t, &tl);
    let (present, _) = categories(&r);
    assert_eq!(present.len(), 1);
}

#[test]
fn eight_layer_notes_one_per_absent_layer_in_order() {
    let result = eight_layer::run("# Plan\nWe will deploy this next week.");
    assert_eq!(result.findings.len(), 8);
    assert_eq!(result.findings[0].severity, Severity::Info);
    let expected = ["facts", "analysis", "patterns", "hypotheses", "symbols", "counterarguments", "blind_spot"];
    for (f, key) in result.findings[1..].iter().zip(expected.iter()) {
        assert_eq!(f.severity, Severity::Note);
        assert!(f.claim.starts_with(&format!("No segment matched any '{key}' keyword")));
    }
}
