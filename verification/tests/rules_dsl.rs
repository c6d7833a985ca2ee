use omni_proxy::api::ApiEvent;
use omni_proxy::filter::{next_request_filter, response_order};
use omni_proxy::headers::{build_headers, HeaderError, HEADER_ENTRY_LIMIT};
use omni_proxy::plugins::FailureBudget;
use omni_proxy::query::{parse, regex_match, EvalContext, Expr, Field, NumberError, Op, ParseError, Value};
use omni_proxy::launch::{missing_bins, sample_lines};
use omni_proxy::plugins::plugin_name;
use omni_proxy::tui::parse_error_message;
use omni_proxy::rules::{rule_error_message, RuleAction, RuleEngine, RuleError};
use omni_proxy::tui::{App, InputMode, Key, KeyAction};

fn s(v: &str) -> String {
    v.to_string()
}

fn req_ctx(method: &str, uri: &str, host: &str) -> EvalContext {
    EvalContext { req_method: Some(s(method)), req_uri: Some(s(uri)), req_host: Some(s(host)), res_status: None }
}

#[test]
fn method_contains_holds() {
    let expr = parse(r#"req.method ~= "PO""#).unwrap();
    let ctx = EvalContext { req_method: Some("POST".into()), ..EvalContext::default() };
    assert!(expr.eval(&ctx));
    let ctx = EvalContext { req_method: Some("GET".into()), ..EvalContext::default() };
    assert!(!expr.eval(&ctx));
}

#[test]
fn word_operators_parse_and_hold() {
    let e = parse(r#"req.uri starts_with "/api/""#).unwrap();
    assert!(matches!(&e, Expr::Cmp(Field::ReqUri, Op::StartsWith, Value::Str(v)) if v == "/api/"));
    assert!(e.eval(&req_ctx("GET", "/api/users", "h")));
    assert!(!e.eval(&req_ctx("GET", "/web/api/", "h")));

    let e = parse(r#"req.host ends_with ".example.com""#).unwrap();
    assert!(e.eval(&req_ctx("GET", "/", "api.example.com")));
    assert!(!e.eval(&req_ctx("GET", "/", "example.org")));

    let e = parse(r#"req.uri matches "^/restricted""#).unwrap();
    assert!(matches!(&e, Expr::Cmp(Field::ReqUri, Op::Matches, _)));
    assert!(e.eval(&req_ctx("GET", "/restricted/a", "h")));
    assert!(!e.eval(&req_ctx("GET", "/x/restricted", "h")));

    let e = parse(r#"req.host matches ".*example\.com$""#).unwrap();
    assert!(e.eval(&req_ctx("GET", "/", "api.example.com")));
    assert!(!e.eval(&req_ctx("GET", "/", "example.com.evil")));
}

#[test]
fn operators_tried_in_order() {
    assert_eq!(parse(r#"req.uri ~= "a==b""#).err(), Some(ParseError::UnsupportedField(s(r#"req.uri ~= "a"#))));
    let e = parse(r#"req.uri ~= "x starts_with y""#).unwrap();
    assert!(matches!(&e, Expr::Cmp(Field::ReqUri, Op::Contains, Value::Str(v)) if v == "x starts_with y"));
    assert_eq!(
        parse(r#"req.uri begins "/a""#).err(),
        Some(ParseError::UnsupportedOperator(s(r#"req.uri begins "/a""#)))
    );
    assert_eq!(parse(r#"res.status starts_with 4"#).ok().map(|e| e.eval(&EvalContext { res_status: Some(404), ..EvalContext::default() })), Some(false));
}

#[test]
fn light_regex() {
    assert!(regex_match("a*b", "xaaab"));
    assert!(regex_match("^ab*c$", "ac"));
    assert!(regex_match("^ab*c$", "abbbc"));
    assert!(!regex_match("^ab*c$", "abbbcd"));
    assert!(regex_match(r"a\.c", "xa.c"));
    assert!(!regex_match(r"a\.c", "abc"));
    assert!(regex_match("", "anything"));
    assert!(regex_match(".*/status/200", "https://h/status/200"));
}

#[test]
fn deny_prefix_and_bare_rules() {
    let e = RuleEngine::from_rules_text("deny req.method == \"TRACE\"\n").unwrap();
    assert_eq!(e.count(), 1);
    assert!(e.should_deny_request("TRACE", "/", "example.com"));
    assert!(!e.should_deny_request("GET", "/", "example.com"));

    let text = "# comment\n\nreq.method == \"CONNECT\"\n  req.uri ~= \"/admin\"  \n";
    let e = RuleEngine::from_rules_text(text).unwrap();
    assert_eq!(e.count(), 2);
    assert!(e.should_deny_request("CONNECT", "/", "h"));
    assert!(e.should_deny_request("GET", "/admin/x", "h"));
    assert!(!e.should_deny_request("GET", "/", "h"));
}

#[test]
fn action_rules() {
    let text = "deny req.method == \"TRACE\"\n\
req.set_header X-Policy: strict if req.host ~= \"internal.example.com\"\n\
res.set_header X-Scanned: true if res.status >= 400\n\
res.set_status 451 if req.uri matches \"^/restricted\"\n\
res.set_status 418 if req.uri ~= \"/restricted\"\n\
res.replace_body \"blocked\" if req.uri matches \"^/restricted\"\n\
res.replace_body \"other\" if req.uri ~= \"/\"\n";
    let e = RuleEngine::from_rules_text(text).unwrap();
    assert_eq!(e.count(), 7);
    assert_eq!(
        e.request_headers("GET", "/", "api.internal.example.com"),
        vec![(s("x-policy"), s("strict"))]
    );
    assert!(e.request_headers("GET", "/", "public.example.com").is_empty());
    assert!(!e.should_deny_request("GET", "/restricted", "h"));

    let plan = e.response_plan("GET", "/restricted/x", "h", 200);
    assert!(plan.headers.is_empty());
    assert_eq!(plan.status, Some(451));
    assert_eq!(plan.body, Some(s("blocked")));

    let plan = e.response_plan("GET", "/open", "h", 503);
    assert_eq!(plan.headers, vec![(s("x-scanned"), s("true"))]);
    assert_eq!(plan.status, None);
    assert_eq!(plan.body, Some(s("other")));
}

#[test]
fn rule_errors() {
    let r = RuleEngine::from_rules_text("res.set_status 451\n");
    assert_eq!(r.err().map(|e| e), Some(RuleError::MissingCondition));
    let r = RuleEngine::from_rules_text("req.set_header NoColon if req.method == \"GET\"\n");
    assert_eq!(r.err(), Some(RuleError::HeaderFormat));
    let r = RuleEngine::from_rules_text("req.set_header Bad Name: v if req.method == \"GET\"\n");
    assert_eq!(r.err(), Some(RuleError::InvalidHeader));
    let r = RuleEngine::from_rules_text("res.set_status 99 if req.method == \"GET\"\n");
    assert_eq!(r.err(), Some(RuleError::InvalidStatus));
    let r = RuleEngine::from_rules_text("req.body == \"x\"\n");
    assert_eq!(r.err(), Some(RuleError::Expr(ParseError::UnsupportedField(s("req.body")))));
    assert_eq!(rule_error_message(&RuleError::InvalidStatus), "status must be a number from 100 to 999");
    assert_eq!(rule_error_message(&RuleError::Expr(ParseError::Empty)), "empty expression");
    assert!(RuleEngine::new().count() == 0);
    let _ = RuleAction::Deny;
}

fn request(client: &str, method: &str, uri: &str) -> ApiEvent {
    ApiEvent::HttpRequest {
        timestamp_ms: 0,
        request_id: None,
        client: s(client),
        method: s(method),
        uri: s(uri),
        headers: vec![],
        body_b64: None,
        body_truncated: false,
        body_size: None,
    }
}

#[test]
fn key_map() {
    let mut app = App::new();
    app.ingest(request("a", "CONNECT", "h:443"));
    app.ingest(request("a", "GET", "http://h/1"));
    app.ingest(request("b", "connect", "h:443"));
    app.ingest(request("b", "POST", "http://h/2"));
    assert_eq!(app.filtered_indices(), vec![0, 1, 2, 3]);
    assert_eq!(app.on_key(Key::Char('G')), KeyAction::Continue);
    assert_eq!(app.selected_visible(), Some(3));
    app.on_key(Key::Char('g'));
    assert_eq!(app.selected_visible(), Some(0));
    app.on_key(Key::Char('x'));
    assert_eq!(app.filtered_indices(), vec![1, 3]);
    app.on_key(Key::Char('G'));
    assert_eq!(app.selected_visible(), Some(1));
    app.on_key(Key::Char('x'));
    assert_eq!(app.filtered_indices(), vec![0, 1, 2, 3]);

    app.on_key(Key::Char('/'));
    assert_eq!(app.input_mode(), InputMode::Filter);
    for c in "req.method == \"POST\"".chars() {
        app.on_key(Key::Char(c));
    }
    assert_eq!(app.on_key(Key::Enter), KeyAction::Continue);
    assert_eq!(app.input_mode(), InputMode::Normal);
    assert_eq!(app.filtered_indices(), vec![3]);
    assert!(app.footer_text().starts_with("filter applied: req.method == \"POST\""));

    assert_eq!(app.on_key(Key::Other), KeyAction::Continue);
    assert_eq!(app.filtered_indices(), vec![3]);
    assert_eq!(app.on_key(Key::Char('r')), KeyAction::Replay);
    assert_eq!(app.on_key(Key::Char('q')), KeyAction::Quit);

    app.on_key(Key::Char('c'));
    assert!(app.filtered_indices().is_empty());
    assert!(app.footer_text().starts_with("flows cleared"));
}

#[test]
fn filter_chain_order() {
    assert_eq!(next_request_filter(4, 0, false), Some(1));
    assert_eq!(next_request_filter(4, 1, true), None);
    assert_eq!(next_request_filter(4, 3, false), None);
    assert_eq!(response_order(4), vec![3, 2, 1, 0]);
    assert!(response_order(0).is_empty());
}

#[test]
fn plugin_round_counts_enabled_failures() {
    let mut b = FailureBudget::new(3, 1);
    b.record_round(&vec![true, false, true]);
    assert_eq!(b.enabled_plugins(), vec![false, true, false]);
    b.record_round(&vec![true, true, false]);
    assert_eq!(b.enabled_plugins(), vec![false, false, false]);
}

#[test]
fn header_map_limit() {
    let captured: Vec<(String, String)> = (0..HEADER_ENTRY_LIMIT + 1000).map(|i| (format!("x-h{}", i), s("v"))).collect();
    let m = build_headers(&captured, &vec![], &vec![]).expect("the map grows past the limit");
    assert_eq!(m.len(), HEADER_ENTRY_LIMIT + 1000);
    let too_many: Vec<(String, String)> = (0..24577).map(|i| (format!("x-h{}", i), s("v"))).collect();
    assert!(matches!(build_headers(&too_many, &vec![], &vec![]), Err(HeaderError::TooMany)));
    let repeated: Vec<(String, String)> = (0..HEADER_ENTRY_LIMIT + 10).map(|_| (s("x-same"), s("v"))).collect();
    let m = build_headers(&repeated, &vec![], &vec![]).expect("one name");
    assert_eq!(m.len(), 1);
}

#[test]
fn parse_errors_carry_their_detail() {
    let e = parse("res.status >= abc").unwrap_err();
    assert_eq!(e, ParseError::InvalidNumber(NumberError::InvalidDigit));
    assert_eq!(parse_error_message(&e), "invalid digit found in string");
    assert_eq!(parse("res.status >= 99999999999999999999").err(), Some(ParseError::InvalidNumber(NumberError::PosOverflow)));
    assert_eq!(parse("res.status >= -99999999999999999999").err(), Some(ParseError::InvalidNumber(NumberError::NegOverflow)));
    assert_eq!(parse("res.status >= 99999999999999999999x").err(), Some(ParseError::InvalidNumber(NumberError::PosOverflow)));
    assert_eq!(parse("res.status >= 12x").err(), Some(ParseError::InvalidNumber(NumberError::InvalidDigit)));
    assert_eq!(parse("res.status >= +").err(), Some(ParseError::InvalidNumber(NumberError::InvalidDigit)));
    assert_eq!(parse("res.status >=").err(), Some(ParseError::InvalidNumber(NumberError::Empty)));
    assert_eq!(parse_error_message(&parse("req.foo == 1").unwrap_err()), "unsupported field: req.foo");
    assert_eq!(
        parse_error_message(&parse(r#"req.method == "GET" && req.uri"#).unwrap_err()),
        "unsupported operator in expression: req.uri"
    );

    let mut app = App::new();
    app.on_key(Key::Char('/'));
    for c in "req.foo == 1".chars() {
        app.on_key(Key::Char(c));
    }
    app.on_key(Key::Enter);
    assert!(app.footer_text().starts_with("invalid filter: unsupported field: req.foo | "));
}

#[test]
fn plugin_files() {
    assert_eq!(plugin_name("auth.wasm"), Some(s("auth")));
    assert_eq!(plugin_name("a.b.wasm"), Some(s("a.b")));
    assert_eq!(plugin_name(".wasm"), None);
    assert_eq!(plugin_name("notes.txt"), None);
    assert_eq!(plugin_name("wasm"), None);
}

#[test]
fn lsof_sample_lines() {
    let listing = "COMMAND PID\nproc 1 TCP a->b\n   \nproc 1 TCP c->d\r\n";
    assert_eq!(sample_lines(listing), vec![s("proc 1 TCP a->b"), s("proc 1 TCP c->d")]);
    assert!(sample_lines("HEADER ONLY").is_empty());
    assert!(sample_lines("").is_empty());
}

#[test]
fn missing_binaries() {
    let names = vec!["omni-global", "omni-transparent", "omni-vpn"];
    assert_eq!(missing_bins(&names, &vec![true, false, false]), vec!["omni-transparent", "omni-vpn"]);
    assert!(missing_bins(&names, &vec![true, true, true]).is_empty());
}
