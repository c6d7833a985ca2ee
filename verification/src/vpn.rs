//! VPN control plane: platform adapter decisions and the parsers of the
//! outputs of `scutil --nc` and `networksetup`.
//!
//! The functions here decide; the caller runs the system commands that the
//! decisions name and hands their outputs back.
use vstd::prelude::*;
use crate::text::{
    chars_of, contains_string, decimal, find_from, find_in_range, lemma_find_from_bounds,
    lemma_line_end, lemma_rfind_char_bounds, lemma_trim_bounds, line_end, line_end_exec, parse_int,
    parse_int_range, push_decimal, push_str, rfind_char, rfind_char_range, seq_contains,
    str_contains, string_from_range, trim, trim_hi, trim_lo, trim_range, trim_to_string,
    trimmed_string,
};

verus! {

/// Operating systems the control plane knows.
#[derive(Debug, Clone, Copy, PartialEq, Eq)]
pub enum PlatformKind {
    MacOs,
    Linux,
    Windows,
    Other,
}

/// What the control plane manages.
#[derive(Debug, Clone)]
pub struct VpnSpec {
    pub service_name: String,
    pub local_socks5: String,
    pub local_http_proxy: String,
    pub local_dns: String,
    pub network_service: String,
}

/// Outcome of a status query.
#[derive(Debug, Clone)]
pub struct VpnStatus {
    pub platform: String,
    pub service_name: String,
    pub connected: bool,
    pub raw_status: String,
}

/// Outcome of a readiness check.
#[derive(Debug, Clone)]
pub struct VpnDoctorReport {
    pub platform: String,
    pub adapter_ready: bool,
    pub service_name: String,
    pub service_exists: bool,
    pub connected: bool,
    pub notes: Vec<String>,
}

/// Why a `host:port` text was refused.
#[derive(Debug, Clone, Copy, PartialEq, Eq)]
pub enum HostPortError {
    /// There is no `:`.
    InvalidFormat,
    /// The text after the last `:` is not a `u16`.
    InvalidPort,
    /// The text before the last `:` is blank.
    EmptyHost,
}

/// Why a control operation cannot be carried out.
#[derive(Debug, Clone, Copy, PartialEq, Eq)]
pub enum VpnError {
    /// `up` has no adapter on this platform.
    UpNotImplemented,
    /// `down` has no adapter on this platform.
    DownNotImplemented,
    /// The local HTTP proxy endpoint is not `host:port`.
    BadProxyEndpoint(HostPortError),
}

/// A system change that `up` or `down` asks for.
#[derive(Debug, Clone)]
pub enum VpnAction {
    /// `scutil --nc start <service>`.
    StartService(String),
    /// `scutil --nc stop <service>`.
    StopService(String),
    /// Point the HTTP and HTTPS system proxy of a network service at `host:port`.
    SetSystemProxy { network_service: String, host: String, port: u16 },
    /// Turn the HTTP and HTTPS system proxy of a network service off.
    UnsetSystemProxy { network_service: String },
}

/// What `status` needs before it can answer.
#[derive(Debug, Clone)]
pub enum StatusProbe {
    /// The output of `scutil --nc status <service>` (see [`macos_status_service`]).
    ScutilStatus(String),
    /// The outputs of `networksetup -getwebproxy` and `-getsecurewebproxy` for
    /// the network service (see [`macos_status_managed_proxy`]).
    ManagedProxy(String),
    /// No probe: this is the status.
    Ready(VpnStatus),
}

impl Default for VpnSpec {
    fn default() -> (r: Self)
        ensures
            r.service_name@ == "OmniProxy VPN"@,
            r.local_socks5@ == "127.0.0.1:1080"@,
            r.local_http_proxy@ == "127.0.0.1:9090"@,
            r.local_dns@ == "127.0.0.1:5353"@,
            r.network_service@ == "Wi-Fi"@,
    {
        VpnSpec {
            service_name: "OmniProxy VPN".to_owned(),
            local_socks5: "127.0.0.1:1080".to_owned(),
            local_http_proxy: "127.0.0.1:9090".to_owned(),
            local_dns: "127.0.0.1:5353".to_owned(),
            network_service: "Wi-Fi".to_owned(),
        }
    }
}

/// The platform named by a target OS name (`std::env::consts::OS`).
pub open spec fn platform_of(os: Seq<char>) -> PlatformKind {
    if os == "macos"@ {
        PlatformKind::MacOs
    } else if os == "linux"@ {
        PlatformKind::Linux
    } else if os == "windows"@ {
        PlatformKind::Windows
    } else {
        PlatformKind::Other
    }
}

/// The platform the program was built for, from its target OS name.
pub fn detect_platform(target_os: &str) -> (r: PlatformKind)
    ensures
        r == platform_of(target_os@),
{
    let os = target_os.to_owned();
    if os == "macos".to_owned() {
        PlatformKind::MacOs
    } else if os == "linux".to_owned() {
        PlatformKind::Linux
    } else if os == "windows".to_owned() {
        PlatformKind::Windows
    } else {
        PlatformKind::Other
    }
}

pub open spec fn platform_label(kind: PlatformKind) -> Seq<char> {
    match kind {
        PlatformKind::MacOs => "macos"@,
        PlatformKind::Linux => "linux"@,
        PlatformKind::Windows => "windows"@,
        PlatformKind::Other => "other"@,
    }
}

/// Lower-case name of a platform.
pub fn platform_name(kind: PlatformKind) -> (r: &'static str)
    ensures
        r@ == platform_label(kind),
{
    match kind {
        PlatformKind::MacOs => "macos",
        PlatformKind::Linux => "linux",
        PlatformKind::Windows => "windows",
        PlatformKind::Other => "other",
    }
}

/// `raw` split at its last `:` into a trimmed, non-blank host and a `u16` port.
pub open spec fn host_port(raw: Seq<char>) -> Result<(Seq<char>, u16), HostPortError> {
    match rfind_char(raw, 0, raw.len() as int, ':') {
        None => Err(HostPortError::InvalidFormat),
        Some(k) => match parse_int(raw.subrange(k + 1, raw.len() as int), 0, 65535) {
            None => Err(HostPortError::InvalidPort),
            Some(p) => if trim_hi(raw, 0, k) <= trim_lo(raw, 0, k) {
                Err(HostPortError::EmptyHost)
            } else {
                Ok((raw.subrange(trim_lo(raw, 0, k), trim_hi(raw, 0, k)), p as u16))
            },
        },
    }
}

fn int_to_u16(x: i128) -> (r: u16)
    requires
        0 <= x <= 65535,
    ensures
        r == x,
{
    x as u16
}

/// Splits `host:port` (at the last `:`).
pub fn parse_host_port(raw: &str) -> (r: Result<(String, u16), HostPortError>)
    ensures
        match r {
            Ok((h, p)) => host_port(raw@) == Ok::<(Seq<char>, u16), HostPortError>((h@, p)),
            Err(e) => host_port(raw@) == Err::<(Seq<char>, u16), HostPortError>(e),
        },
{
    let v = chars_of(raw);
    let n = v.len();
    let k = match rfind_char_range(&v, 0, n, ':') {
        Some(k) => k,
        None => return Err(HostPortError::InvalidFormat),
    };
    let p = match parse_int_range(&v, k + 1, n, 0, 65535) {
        Some(p) => int_to_u16(p),
        None => return Err(HostPortError::InvalidPort),
    };
    let (a, b) = trim_range(&v, 0, k);
    if b <= a {
        return Err(HostPortError::EmptyHost);
    }
    Ok((string_from_range(&v, a, b), p))
}

/// Whether a `scutil --nc status` text reports a connected (or connecting) service.
pub open spec fn connected_text(raw: Seq<char>) -> bool {
    seq_contains(raw, "Connected"@) || seq_contains(raw, "connecting"@) || seq_contains(
        raw,
        "Connecting"@,
    )
}

/// Whether a `scutil --nc status` text reports a connected (or connecting) service.
pub fn is_connected_status(raw: &str) -> (r: bool)
    ensures
        r == connected_text(raw@),
{
    str_contains(raw, "Connected") || str_contains(raw, "connecting") || str_contains(
        raw,
        "Connecting",
    )
}

pub open spec fn quote() -> Seq<char> {
    seq!['"']
}

/// The trimmed text between the first two `"` of `s[lo..hi]`, unless it is blank.
pub open spec fn quoted_in(s: Seq<char>, lo: int, hi: int) -> Option<Seq<char>> {
    match find_from(s, lo, hi, quote()) {
        None => None,
        Some(q1) => match find_from(s, q1 + 1, hi, quote()) {
            None => None,
            Some(q2) => if trim_hi(s, q1 + 1, q2) <= trim_lo(s, q1 + 1, q2) {
                None
            } else {
                Some(s.subrange(trim_lo(s, q1 + 1, q2), trim_hi(s, q1 + 1, q2)))
            },
        },
    }
}

fn quoted_range(v: &Vec<char>, lo: usize, hi: usize) -> (r: Option<String>)
    requires
        lo <= hi <= v.len(),
    ensures
        match r {
            Some(x) => quoted_in(v@, lo as int, hi as int) == Some(x@),
            None => quoted_in(v@, lo as int, hi as int) is None,
        },
{
    let q = vec!['"'];
    assert(q@ =~= quote());
    proof {
        lemma_find_from_bounds(v@, lo as int, hi as int, quote());
    }
    let q1 = match find_in_range(v, lo, hi, &q) {
        Some(k) => k,
        None => return None,
    };
    proof {
        lemma_find_from_bounds(v@, q1 + 1, hi as int, quote());
    }
    let q2 = match find_in_range(v, q1 + 1, hi, &q) {
        Some(k) => k,
        None => return None,
    };
    let (a, b) = trim_range(v, q1 + 1, q2);
    if b <= a {
        None
    } else {
        Some(string_from_range(v, a, b))
    }
}

/// The trimmed text between the first two `"` of a line, unless it is blank.
pub fn extract_double_quoted(line: &str) -> (r: Option<String>)
    ensures
        match r {
            Some(x) => quoted_in(line@, 0, line@.len() as int) == Some(x@),
            None => quoted_in(line@, 0, line@.len() as int) is None,
        },
{
    let v = chars_of(line);
    quoted_range(&v, 0, v.len())
}

/// The quoted names of the lines of `s` from position `i` on.
pub open spec fn quoted_names_from(s: Seq<char>, i: int) -> Seq<Seq<char>>
    decreases s.len() - i + 1,
{
    if i < 0 || i >= s.len() {
        Seq::empty()
    } else {
        let e = line_end(s, i);
        proof {
            lemma_line_end(s, i);
        }
        match quoted_in(s, i, e) {
            Some(x) => seq![x] + quoted_names_from(s, e + 1),
            None => quoted_names_from(s, e + 1),
        }
    }
}

pub open spec fn strings_view(v: Seq<String>) -> Seq<Seq<char>> {
    v.map_values(|s: String| s@)
}

/// The service names of a `scutil --nc list` output: the quoted text of
/// each line that has one, in order.
pub fn parse_macos_nc_list(raw: &str) -> (r: Vec<String>)
    ensures
        strings_view(r@) == quoted_names_from(raw@, 0),
{
    let v = chars_of(raw);
    let n = v.len();
    let mut out: Vec<String> = Vec::new();
    let mut i: usize = 0;
    while i < n
        invariant
            n == v.len(),
            v@ == raw@,
            i <= n,
            quoted_names_from(v@, 0) == strings_view(out@) + quoted_names_from(v@, i as int),
        decreases n - i,
    {
        let e = line_end_exec(&v, i);
        let ghost before = strings_view(out@);
        match quoted_range(&v, i, e) {
            Some(x) => {
                out.push(x);
                assert(strings_view(out@) =~= before.push(x@));
                assert(before + (seq![x@] + quoted_names_from(v@, e + 1)) =~= before.push(x@)
                    + quoted_names_from(v@, e + 1));
            },
            None => {},
        }
        if e == n {
            i = n;
        } else {
            i = e + 1;
        }
    }
    assert(strings_view(out@) + quoted_names_from(v@, n as int) =~= strings_view(out@));
    out
}


/// Whether one of the service names is `name`.
pub open spec fn has_service(services: Seq<String>, name: Seq<char>) -> bool {
    exists|i: int| 0 <= i < services.len() && (#[trigger] services[i])@ == name
}

/// Decides how to bring the VPN up. On macOS a `scutil` service of the
/// configured name is started when it exists (`services` are the names that
/// `scutil --nc list` reports); otherwise the system proxy of the network
/// service is pointed at the local HTTP proxy. Other platforms have no adapter.
pub fn up(kind: PlatformKind, spec: &VpnSpec, services: &Vec<String>) -> (r: Result<
    VpnAction,
    VpnError,
>)
    ensures
        !(kind is MacOs) ==> r == Err::<VpnAction, VpnError>(VpnError::UpNotImplemented),
        kind is MacOs && has_service(services@, spec.service_name@) ==> (r matches Ok(
            VpnAction::StartService(n),
        ) && n@ == spec.service_name@),
        kind is MacOs && !has_service(services@, spec.service_name@) ==> match host_port(
            spec.local_http_proxy@,
        ) {
            Ok((h, p)) => r matches Ok(
                VpnAction::SetSystemProxy { network_service, host, port },
            ) && network_service@ == spec.network_service@ && host@ == h && port == p,
            Err(e) => r == Err::<VpnAction, VpnError>(VpnError::BadProxyEndpoint(e)),
        },
{
    match kind {
        PlatformKind::MacOs => {
            if contains_string(services, &spec.service_name) {
                return Ok(VpnAction::StartService(spec.service_name.clone()));
            }
            match parse_host_port(spec.local_http_proxy.as_str()) {
                Ok((host, port)) => Ok(
                    VpnAction::SetSystemProxy {
                        network_service: spec.network_service.clone(),
                        host,
                        port,
                    },
                ),
                Err(e) => Err(VpnError::BadProxyEndpoint(e)),
            }
        },
        _ => Err(VpnError::UpNotImplemented),
    }
}

/// Decides how to bring the VPN down: the mirror of [`up`] (stop the
/// service, or turn the managed system proxy off).
pub fn down(kind: PlatformKind, spec: &VpnSpec, services: &Vec<String>) -> (r: Result<
    VpnAction,
    VpnError,
>)
    ensures
        !(kind is MacOs) ==> r == Err::<VpnAction, VpnError>(VpnError::DownNotImplemented),
        kind is MacOs && has_service(services@, spec.service_name@) ==> (r matches Ok(
            VpnAction::StopService(n),
        ) && n@ == spec.service_name@),
        kind is MacOs && !has_service(services@, spec.service_name@) ==> (r matches Ok(
            VpnAction::UnsetSystemProxy { network_service },
        ) && network_service@ == spec.network_service@),
{
    match kind {
        PlatformKind::MacOs => {
            if contains_string(services, &spec.service_name) {
                Ok(VpnAction::StopService(spec.service_name.clone()))
            } else {
                Ok(VpnAction::UnsetSystemProxy { network_service: spec.network_service.clone() })
            }
        },
        _ => Err(VpnError::DownNotImplemented),
    }
}

/// Decides what a status query must look at: the `scutil` service when it
/// exists, the managed system proxy otherwise; other platforms answer at once.
pub fn status(kind: PlatformKind, spec: &VpnSpec, services: &Vec<String>) -> (r: StatusProbe)
    ensures
        kind is MacOs && has_service(services@, spec.service_name@) ==> (r matches StatusProbe::ScutilStatus(n) && n@ == spec.service_name@),
        kind is MacOs && !has_service(services@, spec.service_name@) ==> (r matches StatusProbe::ManagedProxy(n) && n@ == spec.network_service@),
        !(kind is MacOs) ==> (r matches StatusProbe::Ready(st) && st.platform@ == platform_label(kind)
            && st.service_name@ == spec.service_name@ && !st.connected && st.raw_status@
            == "status not implemented on this platform yet"@),
{
    match kind {
        PlatformKind::MacOs => {
            if contains_string(services, &spec.service_name) {
                StatusProbe::ScutilStatus(spec.service_name.clone())
            } else {
                StatusProbe::ManagedProxy(spec.network_service.clone())
            }
        },
        _ => StatusProbe::Ready(
            VpnStatus {
                platform: platform_name(kind).to_owned(),
                service_name: spec.service_name.clone(),
                connected: false,
                raw_status: "status not implemented on this platform yet".to_owned(),
            },
        ),
    }
}

/// The text that a `scutil --nc status` run reports: its standard output,
/// or its error output when the standard output is blank.
pub open spec fn scutil_text(stdout: Seq<char>, stderr: Seq<char>) -> Seq<char> {
    if trim(stdout).len() == 0 {
        stderr
    } else {
        stdout
    }
}

/// Status of a `scutil` service from the outputs of `scutil --nc status`.
pub fn macos_status_service(spec: &VpnSpec, stdout: &str, stderr: &str) -> (r: VpnStatus)
    ensures
        r.platform@ == "macos"@,
        r.service_name@ == spec.service_name@,
        r.connected == connected_text(scutil_text(stdout@, stderr@)),
        r.raw_status@ == "mode=scutil\n"@ + trim(scutil_text(stdout@, stderr@)),
{
    let out_trim = trim_to_string(stdout);
    let raw: &str = if out_trim.as_str().is_empty() {
        stderr
    } else {
        stdout
    };
    let connected = is_connected_status(raw);
    let mut raw_status = "mode=scutil\n".to_owned();
    let t = trim_to_string(raw);
    push_str(&mut raw_status, t.as_str());
    VpnStatus {
        platform: "macos".to_owned(),
        service_name: spec.service_name.clone(),
        connected,
        raw_status,
    }
}

/// Whether both proxy reports (`networksetup -getwebproxy` and
/// `-getsecurewebproxy`) contain `pat`.
pub open spec fn both_contain(web: Seq<char>, secure: Seq<char>, pat: Seq<char>) -> bool {
    seq_contains(web, pat) && seq_contains(secure, pat)
}

/// Whether the managed system proxy is on and points at `host:port`.
pub open spec fn managed_proxy_on(web: Seq<char>, secure: Seq<char>, host: Seq<char>, port: u16) -> bool {
    both_contain(web, secure, "Enabled: Yes"@) && both_contain(web, secure, "Server: "@ + host)
        && both_contain(web, secure, "Port: "@ + decimal(port as nat))
}

pub open spec fn managed_raw_status(spec: VpnSpec, web: Seq<char>, secure: Seq<char>) -> Seq<char> {
    "mode=managed-system-proxy\nnetwork_service="@ + spec.network_service@ + "\nexpected_proxy="@
        + spec.local_http_proxy@ + "\nweb_proxy=\n"@ + trim(web) + "\nsecure_web_proxy=\n"@ + trim(
        secure,
    )
}

/// Status of the managed system proxy, from the two `networksetup` reports
/// (or the error text in place of a report whose command failed).
pub fn macos_status_managed_proxy(spec: &VpnSpec, web: &str, secure: &str) -> (r: Result<
    VpnStatus,
    HostPortError,
>)
    ensures
        match host_port(spec.local_http_proxy@) {
            Err(e) => r == Err::<VpnStatus, HostPortError>(e),
            Ok((h, p)) => r matches Ok(st) && st.platform@ == "macos"@ && st.service_name@
                == spec.service_name@ && st.connected == managed_proxy_on(web@, secure@, h, p)
                && st.raw_status@ == managed_raw_status(*spec, web@, secure@),
        },
{
    let enabled = str_contains(web, "Enabled: Yes") && str_contains(secure, "Enabled: Yes");
    let (host, port) = match parse_host_port(spec.local_http_proxy.as_str()) {
        Ok(x) => x,
        Err(e) => return Err(e),
    };
    let mut server = "Server: ".to_owned();
    push_str(&mut server, host.as_str());
    let mut port_pat = "Port: ".to_owned();
    push_decimal(&mut port_pat, port as u64);
    let host_ok = str_contains(web, server.as_str()) && str_contains(secure, server.as_str());
    let port_ok = str_contains(web, port_pat.as_str()) && str_contains(secure, port_pat.as_str());
    let mut raw_status = "mode=managed-system-proxy\nnetwork_service=".to_owned();
    push_str(&mut raw_status, spec.network_service.as_str());
    push_str(&mut raw_status, "\nexpected_proxy=");
    push_str(&mut raw_status, spec.local_http_proxy.as_str());
    push_str(&mut raw_status, "\nweb_proxy=\n");
    let tw = trim_to_string(web);
    push_str(&mut raw_status, tw.as_str());
    push_str(&mut raw_status, "\nsecure_web_proxy=\n");
    let ts = trim_to_string(secure);
    push_str(&mut raw_status, ts.as_str());
    Ok(
        VpnStatus {
            platform: "macos".to_owned(),
            service_name: spec.service_name.clone(),
            connected: enabled && host_ok && port_ok,
            raw_status,
        },
    )
}

/// The VPN services of a platform, from the output of `scutil --nc list`
/// (only macOS has them; the output is not looked at elsewhere).
pub fn list_services(kind: PlatformKind, nc_list_output: &str) -> (r: Vec<String>)
    ensures
        kind is MacOs ==> strings_view(r@) == quoted_names_from(nc_list_output@, 0),
        !(kind is MacOs) ==> r@.len() == 0,
{
    match kind {
        PlatformKind::MacOs => parse_macos_nc_list(nc_list_output),
        _ => Vec::new(),
    }
}

pub open spec fn note_service_exists(name: Seq<char>) -> Seq<char> {
    "service `"@ + name + "` exists and will be controlled via scutil --nc"@
}

pub open spec fn note_service_missing(name: Seq<char>, network_service: Seq<char>, proxy: Seq<char>) -> Seq<char> {
    "service `"@ + name + "` not found; fallback mode will set system HTTP/HTTPS proxy on `"@
        + network_service + "` to "@ + proxy
}

pub open spec fn macos_notes(spec: VpnSpec, exists: bool) -> Seq<Seq<char>> {
    seq![
        "macOS adapter supports two modes: scutil VPN service or OmniProxy-managed system-proxy"@,
        "Use OmniProxy-managed mode for immediate self-hosted capture without third-party VPN names"@,
        if exists {
            note_service_exists(spec.service_name@)
        } else {
            note_service_missing(spec.service_name@, spec.network_service@, spec.local_http_proxy@)
        },
    ]
}

pub open spec fn other_notes() -> Seq<Seq<char>> {
    seq![
        "Platform adapter is planned but not implemented yet"@,
        "Current stable path is explicit proxy / global system proxy mode"@,
    ]
}

/// Readiness report. `connected` is what a status query reported (false when it failed).
pub fn doctor(kind: PlatformKind, spec: &VpnSpec, services: &Vec<String>, connected: bool) -> (r:
    VpnDoctorReport)
    ensures
        r.service_name@ == spec.service_name@,
        kind is MacOs ==> {
            &&& r.platform@ == "macos"@
            &&& r.adapter_ready
            &&& r.service_exists == has_service(services@, spec.service_name@)
            &&& r.connected == connected
            &&& strings_view(r.notes@) == macos_notes(*spec, r.service_exists)
        },
        !(kind is MacOs) ==> {
            &&& r.platform@ == platform_label(kind)
            &&& !r.adapter_ready
            &&& !r.service_exists
            &&& !r.connected
            &&& strings_view(r.notes@) == other_notes()
        },
{
    match kind {
        PlatformKind::MacOs => {
            let exists = contains_string(services, &spec.service_name);
            let mut notes: Vec<String> = Vec::new();
            notes.push(
                "macOS adapter supports two modes: scutil VPN service or OmniProxy-managed system-proxy".to_owned(),
            );
            notes.push(
                "Use OmniProxy-managed mode for immediate self-hosted capture without third-party VPN names".to_owned(),
            );
            let mut third = "service `".to_owned();
            push_str(&mut third, spec.service_name.as_str());
            if exists {
                push_str(&mut third, "` exists and will be controlled via scutil --nc");
            } else {
                push_str(
                    &mut third,
                    "` not found; fallback mode will set system HTTP/HTTPS proxy on `",
                );
                push_str(&mut third, spec.network_service.as_str());
                push_str(&mut third, "` to ");
                push_str(&mut third, spec.local_http_proxy.as_str());
            }
            notes.push(third);
            let r = VpnDoctorReport {
                platform: "macos".to_owned(),
                adapter_ready: true,
                service_name: spec.service_name.clone(),
                service_exists: exists,
                connected,
                notes,
            };
            assert(strings_view(r.notes@) =~= macos_notes(*spec, r.service_exists));
            r
        },
        _ => {
            let mut notes: Vec<String> = Vec::new();
            notes.push("Platform adapter is planned but not implemented yet".to_owned());
            notes.push("Current stable path is explicit proxy / global system proxy mode".to_owned());
            let r = VpnDoctorReport {
                platform: platform_name(kind).to_owned(),
                adapter_ready: false,
                service_name: spec.service_name.clone(),
                service_exists: false,
                connected: false,
                notes,
            };
            assert(strings_view(r.notes@) =~= other_notes());
            r
        },
    }
}

} // verus!
