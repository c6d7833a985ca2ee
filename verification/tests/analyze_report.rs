use omni_proxy::analyze::{correlate, CompletedReq, Correlator};
use omni_proxy::api::ApiEvent;
use omni_proxy::report::{build_report, is_connect_method, percentile, tally_names, tally_statuses};

fn req(ts: u64, id: Option<&str>, client: &str, method: &str, uri: &str) -> ApiEvent {
    ApiEvent::HttpRequest {
        timestamp_ms: ts,
        request_id: id.map(|s| s.to_string()),
        client: client.to_string(),
        method: method.to_string(),
        uri: uri.to_string(),
        headers: vec![],
        body_b64: None,
        body_truncated: false,
        body_size: None,
    }
}

fn res(ts: u64, id: Option<&str>, client: &str, status: u16) -> ApiEvent {
    ApiEvent::HttpResponse {
        timestamp_ms: ts,
        request_id: id.map(|s| s.to_string()),
        client: client.to_string(),
        status,
        headers: vec![],
        body_b64: None,
        body_truncated: false,
        body_size: None,
    }
}

fn ws(len: usize) -> ApiEvent {
    ApiEvent::WebSocketFrame {
        timestamp_ms: 0,
        client: None,
        kind: "binary".to_string(),
        payload_len: len,
        preview: None,
    }
}

fn row(method: &str, host: &str, status: u16, latency_ms: u64) -> CompletedReq {
    CompletedReq {
        method: method.to_string(),
        uri: format!("https://{}/", host),
        host: host.to_string(),
        status,
        latency_ms,
    }
}

#[test]
fn correlates_by_id_then_by_client_queue() {
    let events = vec![
        req(100, Some("a"), "c1", "GET", "https://one.example:8443/x"),
        req(110, None, "c1", "POST", "/relative"),
        res(150, Some("a"), "c1", 200),
        res(400, None, "c1", 503),
        ws(10),
        ws(5),
    ];
    let c = correlate(&events);
    let done = c.completed();
    assert_eq!(done.len(), 2);
    assert_eq!(done[0].method, "GET");
    assert_eq!(done[0].host, "one.example");
    assert_eq!(done[0].latency_ms, 50);
    assert_eq!(done[0].status, 200);
    // the id-matched request also left its client's queue
    assert_eq!(done[1].method, "POST");
    assert_eq!(done[1].host, "-");
    assert_eq!(done[1].latency_ms, 290);
    assert_eq!(c.ws_frames(), 2);
    assert_eq!(c.ws_bytes(), 15);
}

#[test]
fn latency_saturates_at_zero() {
    let mut c = Correlator::new();
    c.observe(&req(500, None, "c", "GET", "http://h/"));
    c.observe(&res(100, None, "c", 200));
    assert_eq!(c.completed()[0].latency_ms, 0);
}

#[test]
fn response_without_pending_request_is_ignored() {
    let c = correlate(&vec![res(1, Some("x"), "nobody", 200), res(2, None, "nobody", 200)]);
    assert_eq!(c.completed().len(), 0);
}

#[test]
fn each_request_completes_once() {
    let events = vec![
        req(1, Some("a"), "c", "GET", "http://h/1"),
        res(2, Some("a"), "c", 200),
        res(3, Some("a"), "c", 200),
        res(4, None, "c", 200),
    ];
    let c = correlate(&events);
    assert_eq!(c.completed().len(), 1);
}

#[test]
fn connect_detection_ignores_ascii_case() {
    assert!(is_connect_method("CONNECT"));
    assert!(is_connect_method("connect"));
    assert!(is_connect_method("CoNnEcT"));
    assert!(!is_connect_method("CONNECTX"));
    assert!(!is_connect_method("GET"));
}

#[test]
fn percentile_rounds_half_up_and_clamps() {
    let v: Vec<u64> = (1..=11).collect();
    assert_eq!(percentile(&v, 50), 6);
    assert_eq!(percentile(&v, 95), 11);
    assert_eq!(percentile(&v, 0), 1);
    assert_eq!(percentile(&v, 100), 11);
    assert_eq!(percentile(&v, 250), 11);
    assert_eq!(percentile(&vec![], 50), 0);
    assert_eq!(percentile(&vec![7], 99), 7);
    // 0.95 * 3 = 2.85 rounds to 3; 0.5 * 3 = 1.5 rounds to 2
    let w = vec![10, 20, 30, 40];
    assert_eq!(percentile(&w, 95), 40);
    assert_eq!(percentile(&w, 50), 30);
}

#[test]
fn tallies_count_each_key_in_first_seen_order() {
    let keys = vec!["b".to_string(), "a".to_string(), "b".to_string()];
    assert_eq!(tally_names(&keys), vec![("b".to_string(), 2), ("a".to_string(), 1)]);
    assert_eq!(tally_statuses(&vec![404, 200, 404, 404]), vec![(404, 3), (200, 1)]);
}

#[test]
fn report_over_rows() {
    let rows = vec![
        row("GET", "a.com", 200, 10),
        row("CONNECT", "tunnel", 200, 5000),
        row("GET", "b.com", 500, 1200),
        row("POST", "a.com", 404, 30),
        row("GET", "a.com", 200, 2000),
    ];
    let r = build_report(&rows, 10, 1000, false);
    assert_eq!(r.total, 4);
    assert_eq!(r.errors, 2);
    assert_eq!(r.latencies, vec![10, 30, 1200, 2000]);
    assert_eq!(r.p50, 1200);
    assert_eq!(r.p95, 2000);
    assert_eq!(r.p99, 2000);
    assert_eq!(r.top_hosts, vec![("a.com".to_string(), 3), ("b.com".to_string(), 1)]);
    assert_eq!(r.statuses, vec![(200, 2), (404, 1), (500, 1)]);
    assert_eq!(r.top_methods, vec![("GET".to_string(), 3), ("POST".to_string(), 1)]);
    // slowest first; the CONNECT row is left out
    assert_eq!(r.slow, vec![4, 2]);
}

#[test]
fn report_includes_connect_when_asked() {
    let rows = vec![row("GET", "a.com", 200, 10), row("connect", "tunnel", 200, 5000)];
    let r = build_report(&rows, 1, 1000, true);
    assert_eq!(r.total, 2);
    assert_eq!(r.slow, vec![1]);
    // ties in count are broken by name, and `top` keeps one entry
    assert_eq!(r.top_hosts, vec![("a.com".to_string(), 1)]);
}

#[test]
fn report_top_zero_keeps_one_entry_but_no_slow_rows() {
    let rows = vec![row("GET", "z.com", 200, 5000), row("GET", "y.com", 200, 6000)];
    let r = build_report(&rows, 0, 1000, false);
    assert_eq!(r.top_hosts, vec![("y.com".to_string(), 1)]);
    assert_eq!(r.top_methods, vec![("GET".to_string(), 2)]);
    assert!(r.slow.is_empty());
}

#[test]
fn slow_ties_keep_row_order() {
    let rows = vec![
        row("GET", "a", 200, 1500),
        row("GET", "b", 200, 1500),
        row("GET", "c", 200, 999),
        row("GET", "d", 200, 1600),
    ];
    let r = build_report(&rows, 10, 1000, false);
    assert_eq!(r.slow, vec![3, 0, 1]);
}

#[test]
fn empty_report() {
    let r = build_report(&vec![], 10, 1000, false);
    assert_eq!(r.total, 0);
    assert_eq!(r.errors, 0);
    assert_eq!(r.p50, 0);
    assert!(r.top_hosts.is_empty());
    assert!(r.statuses.is_empty());
}

#[test]
fn percentiles_are_ordered() {
    let v = vec![1, 1, 2, 3, 5, 8, 13, 21, 34];
    assert!(percentile(&v, 50) <= percentile(&v, 95));
    assert!(percentile(&v, 95) <= percentile(&v, 99));
}
