use omni_proxy::headers::{build_headers, eq_ignore_ascii_case, is_hop_by_hop, HeaderError};
use omni_proxy::replay::{ReplayCandidate, ResponseSnapshot};
use omni_proxy::replay_tool::{
    body_plan, compare_response, default_answer, filtered_candidates, initial_method, is_blank,
    live_hashes, parse_body_mode, plan_replay, prepare_headers, render_curl, shell_escape_single,
    strip_line_end_text, target_uri, BodyMode, BodyPlan, CandidateFilter, Diff, PrepareError,
    ReplayPlan, ReplaySelection, SelectError, TargetError,
};

fn s(v: &str) -> String {
    v.to_string()
}

fn pairs(v: &[(&str, &str)]) -> Vec<(String, String)> {
    v.iter().map(|(k, x)| (s(k), s(x))).collect()
}

fn cand(index: usize, ts: u64, id: Option<&str>, client: &str, method: &str) -> ReplayCandidate {
    ReplayCandidate {
        index,
        timestamp_ms: ts,
        request_id: id.map(s),
        client: s(client),
        method: s(method),
        uri: s("http://example.com/"),
        headers: vec![],
        body: None,
        captured_response: None,
    }
}

#[test]
fn hop_by_hop_names_in_any_case() {
    assert!(is_hop_by_hop("Connection"));
    assert!(is_hop_by_hop("HOST"));
    assert!(is_hop_by_hop("te"));
    assert!(is_hop_by_hop("Content-Length"));
    assert!(!is_hop_by_hop("content-type"));
    assert!(!is_hop_by_hop("hosts"));
    assert!(eq_ignore_ascii_case("X-Token", "x-token"));
    assert!(!eq_ignore_ascii_case("X-Token", "x-tokens"));
}

#[test]
fn shell_escape_wraps_single_quotes() {
    assert_eq!(shell_escape_single("it's"), "it'\"'\"'s");
    assert_eq!(shell_escape_single("plain"), "plain");
    assert_eq!(shell_escape_single(""), "");
}

#[test]
fn headers_skip_hop_by_hop_and_dropped_then_apply_overrides() {
    let captured = pairs(&[
        ("Host", "example.com"),
        ("Accept", "*/*"),
        ("X-Token", "secret"),
        ("accept", "text/html"),
        ("Connection", "keep-alive"),
    ]);
    let overrides = vec![s(" X-Extra :  yes "), s("accept: application/json")];
    let drops = vec![s("  x-token ")];
    let m = build_headers(&captured, &overrides, &drops).expect("valid headers");
    let items: Vec<(String, Option<String>)> = m
        .iter()
        .map(|(k, v)| (k.as_str().to_owned(), v.to_str().ok().map(|t| t.to_owned())))
        .collect();
    assert_eq!(
        items,
        vec![
            (s("accept"), Some(s("application/json"))),
            (s("x-extra"), Some(s("yes"))),
        ]
    );
}

#[test]
fn header_errors_name_the_culprit() {
    let bad_name = build_headers(&pairs(&[("bad name", "v")]), &vec![], &vec![]);
    assert!(matches!(bad_name, Err(HeaderError::CapturedName(n)) if n == "bad name"));
    let bad_value = build_headers(&pairs(&[("x", "a\u{7f}b")]), &vec![], &vec![]);
    assert!(matches!(bad_value, Err(HeaderError::CapturedValue(n)) if n == "x"));
    let no_colon = build_headers(&vec![], &vec![s("novalue")], &vec![]);
    assert!(matches!(no_colon, Err(HeaderError::OverrideFormat(n)) if n == "novalue"));
    let bad_override = build_headers(&vec![], &vec![s(" : v")], &vec![]);
    assert!(matches!(bad_override, Err(HeaderError::OverrideName(n)) if n.is_empty()));
    let bad_override_value = build_headers(&vec![], &vec![s("k: \u{0}")], &vec![]);
    assert!(matches!(bad_override_value, Err(HeaderError::OverrideValue(n)) if n == "k"));
    // a hop-by-hop header is skipped before its name is checked
    assert!(build_headers(&pairs(&[("host", "\u{0}")]), &vec![], &vec![]).is_ok());
}

#[test]
fn method_is_checked_before_headers() {
    let r = prepare_headers("BAD METHOD", &pairs(&[("bad name", "v")]), &vec![], &vec![]);
    assert!(matches!(r, Err(PrepareError::InvalidMethod(m)) if m == "BAD METHOD"));
    let r = prepare_headers("GET", &pairs(&[("bad name", "v")]), &vec![], &vec![]);
    assert!(matches!(r, Err(PrepareError::Header(HeaderError::CapturedName(_)))));
    assert!(prepare_headers("PURGE", &vec![], &vec![], &vec![]).is_ok());
}

#[test]
fn initial_method_upper_cases_the_override_or_capture() {
    assert_eq!(initial_method(&None, "get"), "GET");
    assert_eq!(initial_method(&Some(s("post")), "get"), "POST");
}

#[test]
fn curl_command_lists_visible_headers_and_body() {
    let m = build_headers(&pairs(&[("a", "it's"), ("b", "caf\u{e9}")]), &vec![], &vec![]).expect("ok");
    let c = render_curl("POST", "http://h/p", &m, &Some(b"x'y".to_vec()));
    assert_eq!(
        c,
        "curl -X POST 'http://h/p' -H 'a: it'\"'\"'s' --data-raw 'x'\"'\"'y'"
    );
    let c2 = render_curl("GET", "http://h/", &m, &Some(vec![0xff, 0xfe]));
    assert!(c2.ends_with(" --data-binary '<non-utf8-body>'"));
    let c3 = render_curl("GET", "http://h/", &m, &None);
    assert_eq!(c3, "curl -X GET 'http://h/' -H 'a: it'\"'\"'s'");
}

#[test]
fn target_uri_with_overrides_and_queries() {
    assert_eq!(target_uri(&None, "https://h/p", &vec![]).ok(), Some(s("https://h/p")));
    assert_eq!(
        target_uri(&Some(s("http://o/")), "https://h/p", &vec![]).ok(),
        Some(s("http://o/"))
    );
    assert_eq!(
        target_uri(&None, "https://h/p?a=1", &vec![s(" b = 2 "), s("c=x y")]).ok(),
        Some(s("https://h/p?a=1&b=2&c=x+y"))
    );
    assert!(matches!(
        target_uri(&None, "https://h/p", &vec![s("novalue")]),
        Err(TargetError::InvalidQuery(q)) if q == "novalue"
    ));
    assert!(matches!(
        target_uri(&None, "not a url", &vec![s("novalue")]),
        Err(TargetError::InvalidUrl(u)) if u == "not a url"
    ));
    assert!(matches!(
        target_uri(&None, "/relative", &vec![]),
        Err(TargetError::NotAbsolute(u)) if u == "/relative"
    ));
    assert!(matches!(
        target_uri(&None, "ftp://h/", &vec![s("a=b")]),
        Err(TargetError::NotAbsolute(_))
    ));
}

#[test]
fn body_plan_precedence() {
    let captured = Some(b"cap".to_vec());
    assert!(matches!(body_plan(true, &Some(s("t")), &None, &captured), BodyPlan::Nothing));
    assert!(matches!(body_plan(false, &Some(s("t")), &Some(s("f")), &captured), BodyPlan::Bytes(b) if b == b"t"));
    assert!(matches!(body_plan(false, &None, &Some(s("~/f")), &captured), BodyPlan::ReadFile(p) if p == "~/f"));
    assert!(matches!(body_plan(false, &None, &None, &captured), BodyPlan::Bytes(b) if b == b"cap"));
    assert!(matches!(body_plan(false, &None, &None, &None), BodyPlan::Nothing));
}

#[test]
fn compare_live_with_captured() {
    let (hh, bh) = live_hashes(&pairs(&[("b", "2"), ("a", "1")]), b"hello");
    assert_eq!(hh, "6408fdc5c36df5df57957e7b230e4b48c55b06ce849303e855d52f1356f2980e");
    assert_eq!(bh.as_deref(), Some("2cf24dba5fb0a30e26e83b2ac5b9e29e1b161e5c1fa7425e73043362938b9824"));
    let (_, empty) = live_hashes(&vec![], b"");
    assert_eq!(empty, None);

    let captured = ResponseSnapshot {
        status: 200,
        body_size: Some(5),
        headers_hash: hh.clone(),
        body_hash: bh.clone(),
    };
    let d = compare_response(&captured, 200, 5, &hh, &bh);
    assert_eq!((d.status, d.bytes, d.headers_hash, d.body_hash), (Diff::No, Diff::No, Diff::No, Diff::No));
    let d = compare_response(&captured, 404, 6, &s("x"), &None);
    assert_eq!((d.status, d.bytes, d.headers_hash, d.body_hash), (Diff::Yes, Diff::Yes, Diff::Yes, Diff::Unknown));
    let unknown = ResponseSnapshot { status: 200, body_size: None, headers_hash: s("h"), body_hash: None };
    let d = compare_response(&unknown, 200, 0, &s("h"), &None);
    assert_eq!((d.bytes, d.body_hash), (Diff::Unknown, Diff::No));
}

#[test]
fn filters_and_plans() {
    let reqs = vec![
        cand(3, 100, Some("a"), "c1", "GET"),
        cand(5, 200, None, "c2", "CONNECT"),
        cand(8, 300, Some("b"), "c1", "POST"),
    ];
    let all = CandidateFilter { client: None, since_ms: None, until_ms: None, exclude_connect: false };
    assert_eq!(filtered_candidates(&all, &reqs), vec![0, 1, 2]);
    let f = CandidateFilter { client: None, since_ms: Some(150), until_ms: Some(300), exclude_connect: true };
    assert_eq!(filtered_candidates(&f, &reqs), vec![2]);
    let c1 = CandidateFilter { client: Some(s("c1")), since_ms: None, until_ms: None, exclude_connect: false };
    assert_eq!(filtered_candidates(&c1, &reqs), vec![0, 2]);

    let base = ReplaySelection {
        list: false,
        session_client: None,
        session_limit: 20,
        request_id: None,
        index: None,
        batch_limit: 20,
    };
    let listed = plan_replay(&ReplaySelection { list: true, ..clone_sel(&base) }, &all, &reqs);
    assert!(matches!(listed, Ok(ReplayPlan::List(v)) if v == vec![0, 1, 2]));
    let session = plan_replay(&ReplaySelection { session_client: Some(s("c1")), session_limit: 0, ..clone_sel(&base) }, &all, &reqs);
    assert!(matches!(session, Ok(ReplayPlan::Session(v)) if v == vec![0]));
    let missing = plan_replay(&ReplaySelection { session_client: Some(s("zz")), ..clone_sel(&base) }, &all, &reqs);
    assert!(matches!(missing, Err(SelectError::SessionNotFound(k)) if k == "zz"));
    // request ids and indices ignore the filters
    let by_id = plan_replay(&ReplaySelection { request_id: Some(s("b")), ..clone_sel(&base) }, &f, &reqs);
    assert!(matches!(by_id, Ok(ReplayPlan::Single(2))));
    let no_id = plan_replay(&ReplaySelection { request_id: Some(s("q")), ..clone_sel(&base) }, &all, &reqs);
    assert!(matches!(no_id, Err(SelectError::RequestIdNotFound(k)) if k == "q"));
    let by_index = plan_replay(&ReplaySelection { index: Some(5), ..clone_sel(&base) }, &f, &reqs);
    assert!(matches!(by_index, Ok(ReplayPlan::Single(1))));
    let no_index = plan_replay(&ReplaySelection { index: Some(4), ..clone_sel(&base) }, &all, &reqs);
    assert!(matches!(no_index, Err(SelectError::IndexNotFound(4))));
    let batch = plan_replay(&ReplaySelection { batch_limit: 2, ..clone_sel(&base) }, &all, &reqs);
    assert!(matches!(batch, Ok(ReplayPlan::Batch(v)) if v == vec![0, 1]));
    let none = CandidateFilter { client: Some(s("nobody")), since_ms: None, until_ms: None, exclude_connect: false };
    assert!(matches!(plan_replay(&base, &none, &reqs), Err(SelectError::NoCandidate)));
}

fn clone_sel(b: &ReplaySelection) -> ReplaySelection {
    ReplaySelection {
        list: b.list,
        session_client: b.session_client.clone(),
        session_limit: b.session_limit,
        request_id: b.request_id.clone(),
        index: b.index,
        batch_limit: b.batch_limit,
    }
}

#[test]
fn interactive_answers() {
    assert_eq!(parse_body_mode("  ").ok(), Some(BodyMode::Keep));
    assert_eq!(parse_body_mode("keep").ok(), Some(BodyMode::Keep));
    assert_eq!(parse_body_mode(" e\n").ok(), Some(BodyMode::Empty));
    assert_eq!(parse_body_mode("text").ok(), Some(BodyMode::Text));
    assert_eq!(parse_body_mode("f").ok(), Some(BodyMode::File));
    assert_eq!(parse_body_mode(" Keep ").err(), Some(s("Keep")));
    assert_eq!(strip_line_end_text("abc\r\n"), "abc");
    assert_eq!(strip_line_end_text(" a b \n"), " a b ");
    assert_eq!(default_answer("  put \r\n"), Some(s("put")));
    assert_eq!(default_answer(" \n"), None);
    assert!(is_blank("  \t"));
    assert!(!is_blank(" x "));
}
