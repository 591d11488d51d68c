use lauras::api::{
    parse_list, parse_u16, port_or_default, require_api_key, RateLimiter, RATE_LIMIT_MAX_REQUESTS,
    RATE_LIMIT_WINDOW_NANOS,
};
use lauras::mcp::{review_plan, route, RpcAction, INVALID_PARAMS, METHOD_NOT_FOUND, SERVER_NAME, TOOL_ERROR};
use lauras::lenses::resonance::{prepare, resonance_result};
use lauras::schema::{Finding, Lens, LensResult, ReviewRequest, Severity};

fn resonance_of(text: &str) -> LensResult {
    match prepare(text) {
        Err(e) => e,
        Ok(sections) => {
            let summary = Finding {
                claim: "Compared the sections.".to_string(),
                evidence: sections.segments[0].body.clone(),
                severity: Severity::Info,
            };
            resonance_result(&sections, vec![summary], 0)
        },
    }
}

// ── MCP ──

#[test]
fn initialize_returns_server_info() {
    let action = route("initialize", None);
    assert!(action.is_ok());
    assert_eq!(action.unwrap(), RpcAction::Initialize);
    assert!(SERVER_NAME == "laura-mcp");
}

#[test]
fn tools_call_review_plan_works() {
    assert_eq!(route("tools/call", Some("review_plan")).unwrap(), RpcAction::ReviewPlan);
    let req = ReviewRequest {
        text: "# Goals\nShip fast.\n\n# Risks\nMight break.".to_string(),
        lenses: Lens::ALL.to_vec(),
        metadata: None,
    };
    assert!(review_plan(&req, &resonance_of(&req.text)).is_ok());
}

#[test]
fn unknown_method_errors() {
    let resp = route("nonexistent", None);
    assert!(resp.is_err());
    let e = resp.unwrap_err();
    assert_eq!(e.code, METHOD_NOT_FOUND);
    assert_eq!(e.message, "method not found: nonexistent");
}

#[test]
fn tools_call_missing_name_errors() {
    let resp = route("tools/call", None);
    assert_eq!(resp.unwrap_err().code, -32602);
    assert_eq!(INVALID_PARAMS, -32602);
}

#[test]
fn unknown_tool_errors() {
    let e = route("tools/call", Some("review_everything")).unwrap_err();
    assert_eq!(e.code, TOOL_ERROR);
    assert_eq!(e.message, "unknown tool: review_everything");
}

#[test]
fn tools_call_review_team_routes() {
    assert_eq!(route("tools/call", Some("review_team")).unwrap(), RpcAction::ReviewTeam);
}

#[test]
fn notifications_and_listing_route() {
    assert_eq!(route("notifications/initialized", None).unwrap(), RpcAction::Initialized);
    assert_eq!(route("tools/list", Some("ignored")).unwrap(), RpcAction::ListTools);
}

#[test]
fn review_plan_refuses_blank_text_and_no_lenses() {
    let blank = ReviewRequest { text: "  \n".to_string(), lenses: Lens::ALL.to_vec(), metadata: None };
    assert_eq!(review_plan(&blank, &resonance_of(&blank.text)).unwrap_err(), "text must not be empty");
    let none = ReviewRequest { text: "a plan".to_string(), lenses: vec![], metadata: None };
    assert_eq!(
        review_plan(&none, &resonance_of(&none.text)).unwrap_err(),
        "lenses must not be an empty array — omit the field entirely to run all four"
    );
}

// ── HTTP surface ──

#[test]
fn api_key_is_required_and_checked() {
    let keys = vec!["k1".to_string(), "k2".to_string()];
    let missing = require_api_key(&keys, None).unwrap_err();
    assert_eq!(missing.status, 401);
    assert_eq!(missing.message, "missing Authorization: Bearer <key> header");
    assert_eq!(require_api_key(&keys, Some("Basic k1")).unwrap_err().status, 401);
    assert_eq!(require_api_key(&keys, Some("Bearer ")).unwrap_err().status, 401);
    let wrong = require_api_key(&keys, Some("Bearer nope")).unwrap_err();
    assert_eq!(wrong.status, 403);
    assert_eq!(wrong.message, "invalid API key");
    assert!(require_api_key(&keys, Some("Bearer k2")).is_ok());
}

#[test]
fn key_list_is_trimmed_and_skips_empty_items() {
    assert_eq!(parse_list(" a, b ,,c ,"), vec!["a".to_string(), "b".to_string(), "c".to_string()]);
    assert!(parse_list("").is_empty());
    assert!(parse_list(" , ").is_empty());
}

#[test]
fn port_reads_like_str_parse() {
    assert_eq!(parse_u16("8080"), Some(8080));
    assert_eq!(parse_u16("+443"), Some(443));
    assert_eq!(parse_u16("0065535"), Some(65535));
    assert_eq!(parse_u16("65536"), None);
    assert_eq!(parse_u16(""), None);
    assert_eq!(parse_u16("+"), None);
    assert_eq!(parse_u16("-1"), None);
    assert_eq!(parse_u16("80a"), None);
    for s in ["8080", "+443", "65536", "x", "", " 80"] {
        assert_eq!(parse_u16(s), s.parse::<u16>().ok());
    }
    assert_eq!(port_or_default(None), 8080);
    assert_eq!(port_or_default(Some("nope")), 8080);
    assert_eq!(port_or_default(Some("3000")), 3000);
}

#[test]
fn rate_limit_allows_ten_per_window_per_client() {
    let mut rl = RateLimiter::new();
    for i in 0..RATE_LIMIT_MAX_REQUESTS as u64 {
        assert!(rl.check("1.2.3.4", i));
    }
    assert!(!rl.check("1.2.3.4", 100));
    // another client is independent
    assert!(rl.check("5.6.7.8", 100));
    // once the first requests leave the window, room opens again
    assert!(rl.check("1.2.3.4", RATE_LIMIT_WINDOW_NANOS));
    assert!(!rl.check("1.2.3.4", RATE_LIMIT_WINDOW_NANOS));
    assert!(rl.check("1.2.3.4", RATE_LIMIT_WINDOW_NANOS + 1));
}
