//! System-wide HTTP(S) proxy settings: the commands that set and reset them
//! on each platform, and the hints shown where nothing is automated.
use vstd::prelude::*;
use crate::commands::{step_of, steps_model, str_texts, Step};
use crate::text::{decimal, push_decimal, push_str};

verus! {

/// Operating systems the system-proxy helpers know.
#[derive(Debug, Clone, Copy, PartialEq, Eq)]
pub enum PlatformKind {
    MacOs,
    Windows,
    Linux,
    Other,
}

/// Why the system proxy cannot be changed automatically.
#[derive(Debug, Clone, Copy, PartialEq, Eq)]
pub enum SystemProxyError {
    /// Linux without `gsettings`.
    GsettingsNotFound,
    /// No automation for this platform; see the hints.
    NotImplemented,
}

/// The platform named by a target OS name (`std::env::consts::OS`).
pub open spec fn platform_of(os: Seq<char>) -> PlatformKind {
    if os == "macos"@ {
        PlatformKind::MacOs
    } else if os == "windows"@ {
        PlatformKind::Windows
    } else if os == "linux"@ {
        PlatformKind::Linux
    } else {
        PlatformKind::Other
    }
}

/// The platform the program was built for, from its target OS name.
pub fn current_platform(target_os: &str) -> (r: PlatformKind)
    ensures
        r == platform_of(target_os@),
{
    let os = target_os.to_owned();
    if os == "macos".to_owned() {
        PlatformKind::MacOs
    } else if os == "windows".to_owned() {
        PlatformKind::Windows
    } else if os == "linux".to_owned() {
        PlatformKind::Linux
    } else {
        PlatformKind::Other
    }
}

pub open spec fn platform_label(kind: PlatformKind) -> Seq<char> {
    match kind {
        PlatformKind::MacOs => "macos"@,
        PlatformKind::Windows => "windows"@,
        PlatformKind::Linux => "linux"@,
        PlatformKind::Other => "other"@,
    }
}

/// Lower-case name of a platform.
pub fn platform_name(kind: PlatformKind) -> (r: &'static str)
    ensures
        r@ == platform_label(kind),
{
    match kind {
        PlatformKind::MacOs => "macos",
        PlatformKind::Windows => "windows",
        PlatformKind::Linux => "linux",
        PlatformKind::Other => "other",
    }
}

pub open spec fn macos_set_steps(svc: Seq<char>, host: Seq<char>, port: Seq<char>) -> Seq<
    (Seq<char>, Seq<Seq<char>>),
> {
    seq![
        ("networksetup"@, seq!["-setwebproxy"@, svc, host, port]),
        ("networksetup"@, seq!["-setsecurewebproxy"@, svc, host, port]),
        ("networksetup"@, seq!["-setwebproxystate"@, svc, "on"@]),
        ("networksetup"@, seq!["-setsecurewebproxystate"@, svc, "on"@]),
    ]
}

pub open spec fn linux_set_steps(host: Seq<char>, port: Seq<char>) -> Seq<
    (Seq<char>, Seq<Seq<char>>),
> {
    seq![
        ("gsettings"@, seq!["set"@, "org.gnome.system.proxy"@, "mode"@, "manual"@]),
        ("gsettings"@, seq!["set"@, "org.gnome.system.proxy.http"@, "host"@, host]),
        ("gsettings"@, seq!["set"@, "org.gnome.system.proxy.http"@, "port"@, port]),
        ("gsettings"@, seq!["set"@, "org.gnome.system.proxy.https"@, "host"@, host]),
        ("gsettings"@, seq!["set"@, "org.gnome.system.proxy.https"@, "port"@, port]),
    ]
}

pub open spec fn macos_unset_steps(svc: Seq<char>) -> Seq<(Seq<char>, Seq<Seq<char>>)> {
    seq![
        ("networksetup"@, seq!["-setwebproxystate"@, svc, "off"@]),
        ("networksetup"@, seq!["-setsecurewebproxystate"@, svc, "off"@]),
    ]
}

pub open spec fn linux_unset_steps() -> Seq<(Seq<char>, Seq<Seq<char>>)> {
    seq![("gsettings"@, seq!["set"@, "org.gnome.system.proxy"@, "mode"@, "none"@])]
}

/// The commands that point the HTTP and HTTPS system proxy at `host:port`:
/// `networksetup` on macOS (for `network_service`), `gsettings` on Linux
/// (when `has_gsettings`, the outcome of probing `gsettings --version`).
pub fn set_system_proxy(
    kind: PlatformKind,
    network_service: &str,
    host: &str,
    port: u16,
    has_gsettings: bool,
) -> (r: Result<Vec<Step>, SystemProxyError>)
    ensures
        kind is MacOs ==> (r matches Ok(steps) && steps_model(steps@) == macos_set_steps(
            network_service@,
            host@,
            decimal(port as nat),
        )),
        kind is Linux && has_gsettings ==> (r matches Ok(steps) && steps_model(steps@)
            == linux_set_steps(host@, decimal(port as nat))),
        kind is Linux && !has_gsettings ==> r == Err::<Vec<Step>, SystemProxyError>(
            SystemProxyError::GsettingsNotFound,
        ),
        (kind is Windows || kind is Other) ==> r == Err::<Vec<Step>, SystemProxyError>(
            SystemProxyError::NotImplemented,
        ),
{
    let mut p = String::new();
    push_decimal(&mut p, port as u64);
    assert(p@ =~= decimal(port as nat));
    let ps = p.as_str();
    match kind {
        PlatformKind::MacOs => {
            let mut steps: Vec<Step> = Vec::new();
            steps.push(step_of("networksetup", vec!["-setwebproxy", network_service, host, ps]));
            steps.push(
                step_of("networksetup", vec!["-setsecurewebproxy", network_service, host, ps]),
            );
            steps.push(step_of("networksetup", vec!["-setwebproxystate", network_service, "on"]));
            steps.push(
                step_of("networksetup", vec!["-setsecurewebproxystate", network_service, "on"]),
            );
            assert(steps_model(steps@) =~~= macos_set_steps(network_service@, host@, p@));
            Ok(steps)
        },
        PlatformKind::Linux => {
            if !has_gsettings {
                return Err(SystemProxyError::GsettingsNotFound);
            }
            let mut steps: Vec<Step> = Vec::new();
            steps.push(step_of("gsettings", vec!["set", "org.gnome.system.proxy", "mode", "manual"]));
            steps.push(step_of("gsettings", vec!["set", "org.gnome.system.proxy.http", "host", host]));
            steps.push(step_of("gsettings", vec!["set", "org.gnome.system.proxy.http", "port", ps]));
            steps.push(
                step_of("gsettings", vec!["set", "org.gnome.system.proxy.https", "host", host]),
            );
            steps.push(step_of("gsettings", vec!["set", "org.gnome.system.proxy.https", "port", ps]));
            assert(steps_model(steps@) =~~= linux_set_steps(host@, p@));
            Ok(steps)
        },
        _ => Err(SystemProxyError::NotImplemented),
    }
}

/// The commands that turn the system proxy off again.
pub fn unset_system_proxy(kind: PlatformKind, network_service: &str, has_gsettings: bool) -> (r:
    Result<Vec<Step>, SystemProxyError>)
    ensures
        kind is MacOs ==> (r matches Ok(steps) && steps_model(steps@) == macos_unset_steps(
            network_service@,
        )),
        kind is Linux && has_gsettings ==> (r matches Ok(steps) && steps_model(steps@)
            == linux_unset_steps()),
        kind is Linux && !has_gsettings ==> r == Err::<Vec<Step>, SystemProxyError>(
            SystemProxyError::GsettingsNotFound,
        ),
        (kind is Windows || kind is Other) ==> r == Err::<Vec<Step>, SystemProxyError>(
            SystemProxyError::NotImplemented,
        ),
{
    match kind {
        PlatformKind::MacOs => {
            let mut steps: Vec<Step> = Vec::new();
            steps.push(step_of("networksetup", vec!["-setwebproxystate", network_service, "off"]));
            steps.push(
                step_of("networksetup", vec!["-setsecurewebproxystate", network_service, "off"]),
            );
            assert(steps_model(steps@) =~~= macos_unset_steps(network_service@));
            Ok(steps)
        },
        PlatformKind::Linux => {
            if !has_gsettings {
                return Err(SystemProxyError::GsettingsNotFound);
            }
            let mut steps: Vec<Step> = Vec::new();
            steps.push(step_of("gsettings", vec!["set", "org.gnome.system.proxy", "mode", "none"]));
            assert(steps_model(steps@) =~~= linux_unset_steps());
            Ok(steps)
        },
        _ => Err(SystemProxyError::NotImplemented),
    }
}

/// The shell command a user can run to set the system proxy by hand.
pub open spec fn set_hint_text(kind: PlatformKind, host: Seq<char>, port: Seq<char>, svc: Seq<char>) -> Seq<char> {
    match kind {
        PlatformKind::MacOs => "networksetup -setwebproxy \""@ + svc + "\" "@ + host + " "@ + port
            + " && networksetup -setsecurewebproxy \""@ + svc + "\" "@ + host + " "@ + port
            + " && networksetup -setwebproxystate \""@ + svc + "\" on && networksetup -setsecurewebproxystate \""@
            + svc + "\" on"@,
        PlatformKind::Windows => "powershell -Command \"netsh winhttp set proxy proxy-server=\\\"http="@
            + host + ":"@ + port + ";https="@ + host + ":"@ + port + "\\\"\""@,
        PlatformKind::Linux => "gsettings set org.gnome.system.proxy mode manual && gsettings set org.gnome.system.proxy.http host '"@
            + host + "' && gsettings set org.gnome.system.proxy.http port "@ + port
            + " && gsettings set org.gnome.system.proxy.https host '"@ + host
            + "' && gsettings set org.gnome.system.proxy.https port "@ + port,
        PlatformKind::Other => "set HTTP(S) proxy manually to "@ + host + ":"@ + port
            + " in your OS/network settings"@,
    }
}

/// The shell command a user can run to reset the system proxy by hand.
pub open spec fn unset_hint_text(kind: PlatformKind, svc: Seq<char>) -> Seq<char> {
    match kind {
        PlatformKind::MacOs => "networksetup -setwebproxystate \""@ + svc
            + "\" off && networksetup -setsecurewebproxystate \""@ + svc + "\" off"@,
        PlatformKind::Windows => "powershell -Command \"netsh winhttp reset proxy\""@,
        PlatformKind::Linux => "gsettings set org.gnome.system.proxy mode none"@,
        PlatformKind::Other => "clear system proxy manually in OS settings"@,
    }
}

/// Hint for setting the system proxy to `host:port` by hand.
pub fn set_proxy_hint(kind: PlatformKind, host: &str, port: u16, network_service: &str) -> (r:
    String)
    ensures
        r@ == set_hint_text(kind, host@, decimal(port as nat), network_service@),
{
    let mut p = String::new();
    push_decimal(&mut p, port as u64);
    assert(p@ =~= decimal(port as nat));
    let ps = p.as_str();
    let svc = network_service;
    let mut out = String::new();
    match kind {
        PlatformKind::MacOs => {
            push_str(&mut out, "networksetup -setwebproxy \"");
            push_str(&mut out, svc);
            push_str(&mut out, "\" ");
            push_str(&mut out, host);
            push_str(&mut out, " ");
            push_str(&mut out, ps);
            push_str(&mut out, " && networksetup -setsecurewebproxy \"");
            push_str(&mut out, svc);
            push_str(&mut out, "\" ");
            push_str(&mut out, host);
            push_str(&mut out, " ");
            push_str(&mut out, ps);
            push_str(&mut out, " && networksetup -setwebproxystate \"");
            push_str(&mut out, svc);
            push_str(&mut out, "\" on && networksetup -setsecurewebproxystate \"");
            push_str(&mut out, svc);
            push_str(&mut out, "\" on");
        },
        PlatformKind::Windows => {
            push_str(&mut out, "powershell -Command \"netsh winhttp set proxy proxy-server=\\\"http=");
            push_str(&mut out, host);
            push_str(&mut out, ":");
            push_str(&mut out, ps);
            push_str(&mut out, ";https=");
            push_str(&mut out, host);
            push_str(&mut out, ":");
            push_str(&mut out, ps);
            push_str(&mut out, "\\\"\"");
        },
        PlatformKind::Linux => {
            push_str(
                &mut out,
                "gsettings set org.gnome.system.proxy mode manual && gsettings set org.gnome.system.proxy.http host '",
            );
            push_str(&mut out, host);
            push_str(&mut out, "' && gsettings set org.gnome.system.proxy.http port ");
            push_str(&mut out, ps);
            push_str(&mut out, " && gsettings set org.gnome.system.proxy.https host '");
            push_str(&mut out, host);
            push_str(&mut out, "' && gsettings set org.gnome.system.proxy.https port ");
            push_str(&mut out, ps);
        },
        PlatformKind::Other => {
            push_str(&mut out, "set HTTP(S) proxy manually to ");
            push_str(&mut out, host);
            push_str(&mut out, ":");
            push_str(&mut out, ps);
            push_str(&mut out, " in your OS/network settings");
        },
    }
    assert(out@ =~= set_hint_text(kind, host@, p@, svc@));
    out
}

/// Hint for resetting the system proxy by hand.
pub fn unset_proxy_hint(kind: PlatformKind, network_service: &str) -> (r: String)
    ensures
        r@ == unset_hint_text(kind, network_service@),
{
    let mut out = String::new();
    match kind {
        PlatformKind::MacOs => {
            push_str(&mut out, "networksetup -setwebproxystate \"");
            push_str(&mut out, network_service);
            push_str(&mut out, "\" off && networksetup -setsecurewebproxystate \"");
            push_str(&mut out, network_service);
            push_str(&mut out, "\" off");
        },
        PlatformKind::Windows => {
            push_str(&mut out, "powershell -Command \"netsh winhttp reset proxy\"");
        },
        PlatformKind::Linux => {
            push_str(&mut out, "gsettings set org.gnome.system.proxy mode none");
        },
        PlatformKind::Other => {
            push_str(&mut out, "clear system proxy manually in OS settings");
        },
    }
    assert(out@ =~= unset_hint_text(kind, network_service@));
    out
}

/// On macOS, unsetting turns off the very two proxy states that setting
/// turns on, for the same network service.
pub proof fn law_macos_unset_reverts_set(svc: Seq<char>, host: Seq<char>, port: Seq<char>)
    ensures
        macos_unset_steps(svc).len() == 2,
        macos_unset_steps(svc)[0] == (macos_set_steps(svc, host, port)[2].0, macos_set_steps(svc, host, port)[2].1.update(2, "off"@)),
        macos_unset_steps(svc)[1] == (macos_set_steps(svc, host, port)[3].0, macos_set_steps(svc, host, port)[3].1.update(2, "off"@)),
{
    assert(macos_set_steps(svc, host, port)[2].1.update(2, "off"@) =~= macos_unset_steps(svc)[0].1);
    assert(macos_set_steps(svc, host, port)[3].1.update(2, "off"@) =~= macos_unset_steps(svc)[1].1);
}

/// Setting the system proxy points both the HTTP and the HTTPS proxy at
/// the host and port: on Linux the plan sets the mode to manual and sets the
/// host and the port of `org.gnome.system.proxy.http` and of
/// `org.gnome.system.proxy.https`; on macOS it sets, and turns on, both the
/// web proxy and the secure web proxy of the service.
pub proof fn law_set_covers_http_and_https(svc: Seq<char>, host: Seq<char>, port: Seq<char>)
    ensures
        linux_set_steps(host, port).contains(("gsettings"@, seq!["set"@, "org.gnome.system.proxy"@, "mode"@, "manual"@])),
        linux_set_steps(host, port).contains(("gsettings"@, seq!["set"@, "org.gnome.system.proxy.http"@, "host"@, host])),
        linux_set_steps(host, port).contains(("gsettings"@, seq!["set"@, "org.gnome.system.proxy.http"@, "port"@, port])),
        linux_set_steps(host, port).contains(("gsettings"@, seq!["set"@, "org.gnome.system.proxy.https"@, "host"@, host])),
        linux_set_steps(host, port).contains(("gsettings"@, seq!["set"@, "org.gnome.system.proxy.https"@, "port"@, port])),
        macos_set_steps(svc, host, port).contains(("networksetup"@, seq!["-setwebproxy"@, svc, host, port])),
        macos_set_steps(svc, host, port).contains(("networksetup"@, seq!["-setsecurewebproxy"@, svc, host, port])),
        macos_set_steps(svc, host, port).contains(("networksetup"@, seq!["-setwebproxystate"@, svc, "on"@])),
        macos_set_steps(svc, host, port).contains(("networksetup"@, seq!["-setsecurewebproxystate"@, svc, "on"@])),
{
    let l = linux_set_steps(host, port);
    assert(l[0] == ("gsettings"@, seq!["set"@, "org.gnome.system.proxy"@, "mode"@, "manual"@]));
    assert(l[1] == ("gsettings"@, seq!["set"@, "org.gnome.system.proxy.http"@, "host"@, host]));
    assert(l[2] == ("gsettings"@, seq!["set"@, "org.gnome.system.proxy.http"@, "port"@, port]));
    assert(l[3] == ("gsettings"@, seq!["set"@, "org.gnome.system.proxy.https"@, "host"@, host]));
    assert(l[4] == ("gsettings"@, seq!["set"@, "org.gnome.system.proxy.https"@, "port"@, port]));
    let m = macos_set_steps(svc, host, port);
    assert(m[0] == ("networksetup"@, seq!["-setwebproxy"@, svc, host, port]));
    assert(m[1] == ("networksetup"@, seq!["-setsecurewebproxy"@, svc, host, port]));
    assert(m[2] == ("networksetup"@, seq!["-setwebproxystate"@, svc, "on"@]));
    assert(m[3] == ("networksetup"@, seq!["-setsecurewebproxystate"@, svc, "on"@]));
}

} // verus!
