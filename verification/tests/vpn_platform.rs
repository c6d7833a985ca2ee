use omni_proxy::vpn::{is_connected_status, parse_host_port, parse_macos_nc_list};

#[test]
fn parse_nc_list_extracts_names() {
    let raw = r#"Available network connection services in the current set (*=enabled):
* (Disconnected)   "OmniProxy VPN"   [PPP]
* (Connected)      "Corp VPN"        [IPSec]
"#;
    let names = parse_macos_nc_list(raw);
    assert_eq!(
        names,
        vec!["OmniProxy VPN".to_string(), "Corp VPN".to_string()]
    );
}

#[test]
fn status_connected_parser() {
    assert!(is_connected_status("Connected"));
    assert!(is_connected_status("Connecting"));
    assert!(!is_connected_status("Disconnected"));
}

#[test]
fn host_port_parser() {
    let got = parse_host_port("127.0.0.1:9090").expect("parse host:port");
    assert_eq!(got.0, "127.0.0.1");
    assert_eq!(got.1, 9090);
}
