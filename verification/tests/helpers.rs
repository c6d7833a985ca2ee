use omni_proxy::api::{millis_field, now_ms, ApiEvent, LagBudget};
use omni_proxy::config::home_relative;
use omni_proxy::filter::RequestIdFilter;
use reqwest::header::{HeaderMap, HeaderValue};
use omni_proxy::bench::{percentile_u128, sort_u128, summarize};
use omni_proxy::launch::{
    bin_file_name, cargo_build_args, detect_profile, global_args, mode_name, net_mode_name,
    parse_proxy_endpoint, proxy_env_vars, required_bins, resolve_addrs, split_cmd, vpn_args,
    CaptureMode, NetMode,
};
use omni_proxy::plugins::{unpack_output, FailureBudget, RequestMutation, ResponseMutation};
use omni_proxy::transparent::{
    build_linux_down, build_linux_status, build_linux_up, build_macos_down, build_macos_status,
    build_macos_up, detect_platform, platform_name, redirect_steps, Platform, RedirectCmd,
    RedirectError, RedirectOptions,
};
use omni_proxy::tui::{filter_title, row_cells, App, Flow, InputMode, Key, ReplayRefusal};
use omni_proxy::vpn::HostPortError;

fn s(v: &str) -> String {
    v.to_string()
}

fn rendered(steps: &[omni_proxy::commands::Step]) -> Vec<String> {
    steps.iter().map(|x| x.render()).collect()
}

fn opts() -> RedirectOptions {
    RedirectOptions { proxy_port: 9090, interface: s("en0"), pf_anchor_file: s(".omni-proxy/pf.omni.conf") }
}

#[test]
fn request_mutations_append_headers() {
    let mut acc = RequestMutation::default();
    acc.merge(RequestMutation { add_headers: vec![(s("a"), s("1"))] });
    acc.merge(RequestMutation { add_headers: vec![(s("b"), s("2")), (s("a"), s("3"))] });
    assert_eq!(acc.add_headers, vec![(s("a"), s("1")), (s("b"), s("2")), (s("a"), s("3"))]);
}

#[test]
fn response_mutations_first_status_and_body_win() {
    let mut acc = ResponseMutation::default();
    acc.merge(ResponseMutation { add_headers: vec![(s("x-plugin"), s("on"))], set_status: None, replace_body: Some(s("first")) });
    acc.merge(ResponseMutation { add_headers: vec![], set_status: Some(418), replace_body: Some(s("second")) });
    acc.merge(ResponseMutation { add_headers: vec![(s("y"), s("1"))], set_status: Some(500), replace_body: None });
    assert_eq!(acc.set_status, Some(418));
    assert_eq!(acc.replace_body.as_deref(), Some("first"));
    assert_eq!(acc.add_headers.len(), 2);
}

#[test]
fn failure_budget_disables_a_plugin() {
    let mut b = FailureBudget::new(2, 2);
    assert!(b.enabled(0));
    assert_eq!(b.record_failure(0), 1);
    assert!(b.enabled(0));
    assert_eq!(b.record_failure(0), 2);
    assert!(!b.enabled(0));
    assert!(b.enabled(1));
    let zero = FailureBudget::new(1, 0);
    assert!(!zero.enabled(0));
}

#[test]
fn packed_output_halves() {
    let packed: i64 = (16i64 << 32) | 5;
    assert_eq!(unpack_output(packed), Some((16, 5)));
    assert_eq!(unpack_output(0), None);
    assert_eq!(unpack_output(5), None);
    assert_eq!(unpack_output(16i64 << 32), None);
    assert_eq!(unpack_output(-1), None);
}

#[test]
fn transparent_macos_commands() {
    assert_eq!(
        rendered(&build_macos_up(&opts())),
        vec![
            s("sh -c printf '%s\\n' \"rdr pass on en0 inet proto tcp from any to any port 80 -> 127.0.0.1 port 9090\" > .omni-proxy/pf.omni.conf"),
            s("sudo pfctl -a com.omniproxy.http -f .omni-proxy/pf.omni.conf"),
            s("sudo pfctl -E"),
        ]
    );
    assert_eq!(rendered(&build_macos_down(&opts())), vec![s("sudo pfctl -a com.omniproxy.http -F all")]);
    assert_eq!(rendered(&build_macos_status()), vec![s("sudo pfctl -a com.omniproxy.http -s rules")]);
}

#[test]
fn transparent_linux_commands() {
    assert_eq!(
        rendered(&build_linux_up(&opts())),
        vec![s("sudo iptables -t nat -A OUTPUT -p tcp --dport 80 -j REDIRECT --to-ports 9090")]
    );
    assert_eq!(
        rendered(&build_linux_down(&opts())),
        vec![s("sudo iptables -t nat -D OUTPUT -p tcp --dport 80 -j REDIRECT --to-ports 9090")]
    );
    assert_eq!(rendered(&build_linux_status()), vec![s("sudo iptables -t nat -S OUTPUT")]);
}

#[test]
fn transparent_platforms() {
    assert_eq!(detect_platform(Platform::Auto, "macos"), Ok(Platform::Macos));
    assert_eq!(detect_platform(Platform::Auto, "linux"), Ok(Platform::Linux));
    assert_eq!(detect_platform(Platform::Auto, "windows"), Err(RedirectError::AutoUnsupported));
    assert_eq!(detect_platform(Platform::Linux, "macos"), Ok(Platform::Linux));
    assert_eq!(platform_name(Platform::Macos), "macos");
    assert_eq!(platform_name(Platform::Auto), "auto");
    assert!(matches!(redirect_steps(RedirectCmd::Up, Platform::Auto, &opts()), Err(RedirectError::UnsupportedPlatform)));
    let up = redirect_steps(RedirectCmd::Up, Platform::Linux, &opts()).expect("linux up");
    assert_eq!(up.len(), 1);
}

#[test]
fn run_helpers() {
    assert_eq!(mode_name(CaptureMode::Env), "env");
    assert_eq!(mode_name(CaptureMode::System), "system");
    assert!(split_cmd(&vec![]).is_none());
    let (p, a) = split_cmd(&vec![s("curl"), s("-v"), s("http://x")]).expect("command");
    assert_eq!(p, "curl");
    assert_eq!(a, vec![s("-v"), s("http://x")]);
    let env = proxy_env_vars("http://127.0.0.1:9090", "localhost");
    assert_eq!(env.len(), 8);
    assert_eq!(env[0], (s("HTTP_PROXY"), s("http://127.0.0.1:9090")));
    assert_eq!(env[7], (s("no_proxy"), s("localhost")));
}

#[test]
fn proxy_endpoint_parsing() {
    assert_eq!(parse_proxy_endpoint("http://127.0.0.1:9090").ok(), Some((s("127.0.0.1"), 9090)));
    assert_eq!(parse_proxy_endpoint("https://proxy.local:8443/path/x").ok(), Some((s("proxy.local"), 8443)));
    assert_eq!(parse_proxy_endpoint("10.0.0.1:3128").ok(), Some((s("10.0.0.1"), 3128)));
    assert_eq!(parse_proxy_endpoint("http://host").err(), Some(HostPortError::InvalidFormat));
    assert_eq!(parse_proxy_endpoint("http://host:99999").err(), Some(HostPortError::InvalidPort));
    assert_eq!(parse_proxy_endpoint("http:// :80").err(), Some(HostPortError::EmptyHost));
}

#[test]
fn launcher_addresses_and_arguments() {
    assert_eq!(resolve_addrs(NetMode::Local, &None, &None), (s("127.0.0.1:9090"), s("127.0.0.1:9091")));
    assert_eq!(resolve_addrs(NetMode::Lan, &Some(s("1.2.3.4:1")), &None), (s("1.2.3.4:1"), s("0.0.0.0:9091")));
    assert_eq!(net_mode_name(NetMode::Lan), "lan");
    assert_eq!(detect_profile(&Some(s("release"))), "release");
    assert_eq!(detect_profile(&Some(s("debug"))), "debug");
    assert_eq!(detect_profile(&None), "debug");
    assert_eq!(bin_file_name("omni-vpn", "windows"), "omni-vpn.exe");
    assert_eq!(bin_file_name("omni-vpn", "linux"), "omni-vpn");
    assert_eq!(required_bins(true, true), vec!["omni-global", "omni-transparent", "omni-transparentd", "omni-vpn"]);
    assert_eq!(required_bins(false, false), vec!["omni-global"]);
    assert_eq!(
        global_args(NetMode::Local, true, "Wi-Fi", true),
        vec![s("--mode"), s("local"), s("--set-system-proxy"), s("--network-service"), s("Wi-Fi"), s("--kernel-capture")]
    );
    assert_eq!(global_args(NetMode::Lan, false, "x", false), vec![s("--mode"), s("lan")]);
    assert_eq!(
        cargo_build_args("release", &vec!["omni-global", "omni-vpn"]),
        vec![s("build"), s("--release"), s("--bin"), s("omni-global"), s("--bin"), s("omni-vpn")]
    );
    assert_eq!(cargo_build_args("debug", &vec![]), vec![s("build")]);
    assert_eq!(vpn_args("OmniProxy VPN", "up"), vec![s("--service-name"), s("OmniProxy VPN"), s("up")]);
}

#[test]
fn bench_summary() {
    assert_eq!(sort_u128(&vec![5, 1, 3]), vec![1, 3, 5]);
    assert_eq!(percentile_u128(&vec![], 99), 0);
    assert_eq!(percentile_u128(&vec![1, 2, 3, 4, 5], 50), 3);
    let sm = summarize(3, 1, &vec![40, 10, 30, 20]).expect("fits");
    assert_eq!(sm.total, 4);
    assert_eq!(sm.sorted, vec![10, 20, 30, 40]);
    assert_eq!((sm.p50, sm.p95, sm.p99), (30, 40, 40));
    assert!(summarize(usize::MAX, 1, &vec![]).is_none());
}

fn request(client: &str, method: &str, uri: &str) -> ApiEvent {
    ApiEvent::HttpRequest {
        timestamp_ms: 0,
        request_id: None,
        client: s(client),
        method: s(method),
        uri: s(uri),
        headers: vec![],
        body_b64: None,
        body_truncated: false,
        body_size: None,
    }
}

#[test]
fn flow_rows_and_details() {
    let f = Flow { client: s("c"), method: None, uri: Some(s("https://h:1/x")), status: Some(204) };
    assert_eq!(row_cells(&f), (s("-"), s("204"), s("https://h:1/x")));
    assert_eq!(filter_title(InputMode::Normal), "Filter (press / to edit)");
    assert_eq!(filter_title(InputMode::Filter), "Filter (Enter apply, Esc cancel)");

    let mut app = App::new();
    assert_eq!(app.detail_lines(), vec![s("No flow selected")]);
    app.ingest(request("10.0.0.2:5000", "GET", "https://api.example.com:8443/v1"));
    assert_eq!(
        app.detail_lines(),
        vec![
            s("Client: 10.0.0.2:5000"),
            s("Method: GET"),
            s("URI: https://api.example.com:8443/v1"),
            s("Host: api.example.com"),
            s("Status: -"),
        ]
    );
    assert_eq!(app.input_mode(), InputMode::Normal);
    app.on_key(Key::Char('/'));
    app.on_key(Key::Char('x'));
    assert_eq!(app.filter_buffer(), "x");
}

#[test]
fn replay_target_checks_the_method() {
    let mut app = App::new();
    app.ingest(request("c", "BAD METHOD", "http://h/"));
    assert_eq!(app.replay_target().err(), Some(ReplayRefusal::InvalidMethod));
    let mut app = App::new();
    app.ingest(request("c", "GET", "/rel"));
    assert_eq!(app.replay_target().err(), Some(ReplayRefusal::NotAbsolute));
    let mut app = App::new();
    app.ingest(request("c", "GET", "http://h/"));
    assert_eq!(app.replay_target().ok(), Some((s("GET"), s("http://h/"))));
}

#[test]
fn replay_refusal_messages() {
    assert_eq!(ReplayRefusal::NoFlowSelected.message("GET"), "no flow selected for replay");
    assert_eq!(ReplayRefusal::NoUri.message(""), "selected flow has no uri");
    assert_eq!(ReplayRefusal::InvalidMethod.message("BAD METHOD"), "invalid method for replay: BAD METHOD");
}

#[test]
fn clock_field_truncates_and_defaults() {
    assert_eq!(millis_field(None), 0);
    assert_eq!(millis_field(Some(1_700_000_000_000)), 1_700_000_000_000);
    assert_eq!(millis_field(Some((1u128 << 64) + 5)), 5);
    assert!(now_ms() > 1_600_000_000_000);
}

#[test]
fn lag_budget_closes_after_limit() {
    let mut b = LagBudget::new(10);
    assert!(!b.record(4));
    assert!(!b.record(6));
    assert_eq!(b.lagged_total(), 10);
    assert!(b.record(1));
    assert!(b.record(u64::MAX));
    assert_eq!(b.lagged_total(), u64::MAX);
}

#[test]
fn home_relative_paths() {
    assert_eq!(home_relative("~/.omni-proxy/flows.jsonl"), Some(s(".omni-proxy/flows.jsonl")));
    assert_eq!(home_relative("/tmp/x"), None);
    assert_eq!(home_relative("~user/x"), None);
}

#[test]
fn request_id_added_once() {
    let mut m = HeaderMap::new();
    m.insert("accept", HeaderValue::from_static("*/*"));
    let id = RequestIdFilter.on_request(&mut m).expect("added");
    assert_eq!(id.len(), 36);
    assert!(id.chars().all(|c| c.is_ascii_digit() || ('a'..='f').contains(&c) || c == '-'));
    assert_eq!(m.get("x-omni-request-id").and_then(|v| v.to_str().ok()), Some(id.as_str()));
    assert_eq!(m.len(), 2);
    assert!(RequestIdFilter.on_request(&mut m).is_none());
    assert_eq!(m.get("x-omni-request-id").and_then(|v| v.to_str().ok()), Some(id.as_str()));
}
