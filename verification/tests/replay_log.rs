use omni_proxy::api::ApiEvent;
use omni_proxy::digest::{hash_bytes, hash_headers, to_hex};
use omni_proxy::replay::{collect_candidates, normalize_headers};

fn req(ts: u64, id: Option<&str>, client: &str, method: &str, uri: &str, body: Option<&str>) -> ApiEvent {
    ApiEvent::HttpRequest {
        timestamp_ms: ts,
        request_id: id.map(|s| s.to_string()),
        client: client.to_string(),
        method: method.to_string(),
        uri: uri.to_string(),
        headers: vec![("accept".to_string(), "*/*".to_string())],
        body_b64: body.map(|s| s.to_string()),
        body_truncated: false,
        body_size: None,
    }
}

fn res(ts: u64, id: Option<&str>, client: &str, status: u16, headers: Vec<(&str, &str)>, body: Option<&str>) -> ApiEvent {
    ApiEvent::HttpResponse {
        timestamp_ms: ts,
        request_id: id.map(|s| s.to_string()),
        client: client.to_string(),
        status,
        headers: headers.into_iter().map(|(k, v)| (k.to_string(), v.to_string())).collect(),
        body_b64: body.map(|s| s.to_string()),
        body_truncated: false,
        body_size: Some(5),
    }
}

fn frame() -> ApiEvent {
    ApiEvent::WebSocketFrame {
        timestamp_ms: 1,
        client: None,
        kind: "text".to_string(),
        payload_len: 3,
        preview: None,
    }
}

#[test]
fn to_hex_formats_two_digits_per_byte() {
    assert_eq!(to_hex(&[0x00, 0x0f, 0xa0, 0xff]), "000fa0ff");
    assert_eq!(to_hex(&[]), "");
}

#[test]
fn hash_bytes_is_hex_sha256() {
    assert_eq!(
        hash_bytes(b"hello"),
        "2cf24dba5fb0a30e26e83b2ac5b9e29e1b161e5c1fa7425e73043362938b9824"
    );
    assert_eq!(
        hash_bytes(b""),
        "e3b0c44298fc1c149afbf4c8996fb92427ae41e4649b934ca495991b7852b855"
    );
}

#[test]
fn hash_headers_hashes_name_colon_value_lines() {
    let h = vec![("a".to_string(), "1".to_string()), ("b".to_string(), "2".to_string())];
    assert_eq!(
        hash_headers(&h),
        "6408fdc5c36df5df57957e7b230e4b48c55b06ce849303e855d52f1356f2980e"
    );
}

#[test]
fn normalize_sorts_by_name_then_value() {
    let h = vec![
        ("b".to_string(), "2".to_string()),
        ("a".to_string(), "z".to_string()),
        ("a".to_string(), "y".to_string()),
    ];
    let n = normalize_headers(h);
    assert_eq!(
        n,
        vec![
            ("a".to_string(), "y".to_string()),
            ("a".to_string(), "z".to_string()),
            ("b".to_string(), "2".to_string()),
        ]
    );
    // sorting again changes nothing
    assert_eq!(normalize_headers(n.clone()), n);
}

#[test]
fn header_hash_ignores_order_once_normalized() {
    let a = normalize_headers(vec![("b".to_string(), "2".to_string()), ("a".to_string(), "1".to_string())]);
    let b = normalize_headers(vec![("a".to_string(), "1".to_string()), ("b".to_string(), "2".to_string())]);
    assert_eq!(hash_headers(&a), hash_headers(&b));
}

#[test]
fn one_candidate_per_request_in_line_order() {
    let events = vec![
        (0usize, req(10, Some("r1"), "c1", "GET", "http://a/x", None)),
        (1usize, frame()),
        (2usize, req(11, None, "c2", "POST", "http://b/y", Some("aGVsbG8="))),
        (4usize, res(12, None, "c9", 200, vec![], None)),
    ];
    let c = collect_candidates(&events);
    assert_eq!(c.len(), 2);
    assert_eq!(c[0].index, 0);
    assert_eq!(c[1].index, 2);
    assert_eq!(c[0].request_id.as_deref(), Some("r1"));
    assert_eq!(c[1].method, "POST");
    assert_eq!(c[1].body.as_deref(), Some(&b"hello"[..]));
    // a response of a client with no pending request answers nothing
    assert!(c[0].captured_response.is_none());
    assert!(c[1].captured_response.is_none());
}

#[test]
fn invalid_base64_body_is_dropped() {
    let events = vec![(0usize, req(1, None, "c", "POST", "http://a/", Some("%%%")))];
    let c = collect_candidates(&events);
    assert!(c[0].body.is_none());
}

#[test]
fn response_by_request_id_and_by_client_queue() {
    let events = vec![
        (0usize, req(10, Some("r1"), "c1", "GET", "http://a/1", None)),
        (1usize, req(11, None, "c1", "GET", "http://a/2", None)),
        (2usize, res(12, Some("r1"), "c1", 201, vec![("b", "2"), ("a", "1")], Some("aGVsbG8="))),
        (3usize, res(13, None, "c1", 404, vec![], None)),
        (4usize, res(14, None, "c1", 500, vec![], None)),
    ];
    let c = collect_candidates(&events);
    assert_eq!(c.len(), 2);
    // the id-matched response does not take the request off its client's
    // queue, so the next id-less response of that client lands on it too
    let s0 = c[0].captured_response.as_ref().expect("first answered");
    assert_eq!(s0.status, 404);
    assert_eq!(s0.body_hash, None);
    let s1 = c[1].captured_response.as_ref().expect("second answered");
    assert_eq!(s1.status, 500);
    assert_eq!(
        s1.headers_hash,
        "e3b0c44298fc1c149afbf4c8996fb92427ae41e4649b934ca495991b7852b855"
    );
}

#[test]
fn response_snapshot_hashes_sorted_headers_and_body() {
    let events = vec![
        (0usize, req(10, Some("r1"), "c1", "GET", "http://a/1", None)),
        (1usize, res(12, Some("r1"), "c1", 201, vec![("b", "2"), ("a", "1")], Some("aGVsbG8="))),
    ];
    let c = collect_candidates(&events);
    let s = c[0].captured_response.as_ref().expect("answered");
    assert_eq!(s.status, 201);
    assert_eq!(s.body_size, Some(5));
    assert_eq!(
        s.headers_hash,
        "6408fdc5c36df5df57957e7b230e4b48c55b06ce849303e855d52f1356f2980e"
    );
    assert_eq!(
        s.body_hash.as_deref(),
        Some("2cf24dba5fb0a30e26e83b2ac5b9e29e1b161e5c1fa7425e73043362938b9824")
    );
}

#[test]
fn latest_request_with_an_id_takes_the_response() {
    let events = vec![
        (0usize, req(10, Some("dup"), "c1", "GET", "http://a/1", None)),
        (1usize, req(11, Some("dup"), "c2", "GET", "http://a/2", None)),
        (2usize, res(12, Some("dup"), "c1", 302, vec![], None)),
    ];
    let c = collect_candidates(&events);
    assert!(c[0].captured_response.is_none());
    assert_eq!(c[1].captured_response.as_ref().map(|s| s.status), Some(302));
}
