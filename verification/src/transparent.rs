//! Transparent HTTP redirection: the packet-filter commands that send
//! outgoing port-80 traffic to the proxy, and take the rule away again.
use vstd::prelude::*;
use crate::commands::{step_of, steps_model, Step};
use crate::text::{decimal, push_decimal, push_str};

verus! {

/// The platform asked for; `Auto` means the one the program was built for.
#[derive(Debug, Clone, Copy, PartialEq, Eq, Structural)]
pub enum Platform {
    Auto,
    Macos,
    Linux,
}

/// What to do with the redirect.
#[derive(Debug, Clone, Copy, PartialEq, Eq, Structural)]
pub enum RedirectCmd {
    Up,
    Down,
    Status,
}

/// Why no commands can be made.
#[derive(Debug, Clone, Copy, PartialEq, Eq, Structural)]
pub enum RedirectError {
    /// `Auto` on an operating system other than macOS and Linux.
    AutoUnsupported,
    /// No commands for this platform.
    UnsupportedPlatform,
}

/// Settings of the redirect.
pub struct RedirectOptions {
    pub proxy_port: u16,
    /// Network interface of the macOS rule.
    pub interface: String,
    /// File that holds the macOS anchor rule.
    pub pf_anchor_file: String,
}

/// `Auto` resolved by the target OS name (`std::env::consts::OS`).
pub fn detect_platform(p: Platform, target_os: &str) -> (r: Result<Platform, RedirectError>)
    ensures
        p is Auto && target_os@ == "macos"@ ==> r == Ok::<Platform, RedirectError>(Platform::Macos),
        p is Auto && target_os@ != "macos"@ && target_os@ == "linux"@ ==> r == Ok::<Platform, RedirectError>(
            Platform::Linux,
        ),
        p is Auto && target_os@ != "macos"@ && target_os@ != "linux"@ ==> r == Err::<Platform, RedirectError>(
            RedirectError::AutoUnsupported,
        ),
        !(p is Auto) ==> r == Ok::<Platform, RedirectError>(p),
{
    match p {
        Platform::Auto => {
            let os = target_os.to_owned();
            if os == "macos".to_owned() {
                Ok(Platform::Macos)
            } else if os == "linux".to_owned() {
                Ok(Platform::Linux)
            } else {
                Err(RedirectError::AutoUnsupported)
            }
        },
        v => Ok(v),
    }
}

pub open spec fn platform_label(p: Platform) -> Seq<char> {
    match p {
        Platform::Auto => "auto"@,
        Platform::Macos => "macos"@,
        Platform::Linux => "linux"@,
    }
}

/// Lower-case name of a platform.
pub fn platform_name(p: Platform) -> (r: &'static str)
    ensures
        r@ == platform_label(p),
{
    match p {
        Platform::Auto => "auto",
        Platform::Macos => "macos",
        Platform::Linux => "linux",
    }
}

/// The pf rule that redirects port 80 on `interface` to the local proxy.
pub open spec fn pf_rule(interface: Seq<char>, port: nat) -> Seq<char> {
    "rdr pass on "@ + interface + " inet proto tcp from any to any port 80 -> 127.0.0.1 port "@
        + decimal(port)
}

pub open spec fn macos_up_steps(interface: Seq<char>, port: nat, anchor_file: Seq<char>) -> Seq<
    (Seq<char>, Seq<Seq<char>>),
> {
    seq![
        ("sh"@, seq!["-c"@, "printf '%s\\n' \""@ + pf_rule(interface, port) + "\" > "@ + anchor_file]),
        ("sudo"@, seq!["pfctl"@, "-a"@, "com.omniproxy.http"@, "-f"@, anchor_file]),
        ("sudo"@, seq!["pfctl"@, "-E"@]),
    ]
}

pub open spec fn macos_down_steps() -> Seq<(Seq<char>, Seq<Seq<char>>)> {
    seq![("sudo"@, seq!["pfctl"@, "-a"@, "com.omniproxy.http"@, "-F"@, "all"@])]
}

pub open spec fn macos_status_steps() -> Seq<(Seq<char>, Seq<Seq<char>>)> {
    seq![("sudo"@, seq!["pfctl"@, "-a"@, "com.omniproxy.http"@, "-s"@, "rules"@])]
}

pub open spec fn linux_nat_steps(action: Seq<char>, port: nat) -> Seq<(Seq<char>, Seq<Seq<char>>)> {
    seq![
        (
            "sudo"@,
            seq![
                "iptables"@,
                "-t"@,
                "nat"@,
                action,
                "OUTPUT"@,
                "-p"@,
                "tcp"@,
                "--dport"@,
                "80"@,
                "-j"@,
                "REDIRECT"@,
                "--to-ports"@,
                decimal(port),
            ],
        ),
    ]
}

pub open spec fn linux_status_steps() -> Seq<(Seq<char>, Seq<Seq<char>>)> {
    seq![("sudo"@, seq!["iptables"@, "-t"@, "nat"@, "-S"@, "OUTPUT"@])]
}

/// Writes the anchor rule to its file, loads it, and enables pf.
pub fn build_macos_up(opts: &RedirectOptions) -> (r: Vec<Step>)
    ensures
        steps_model(r@) == macos_up_steps(opts.interface@, opts.proxy_port as nat, opts.pf_anchor_file@),
{
    let mut script = String::new();
    push_str(&mut script, "printf '%s\\n' \"rdr pass on ");
    push_str(&mut script, opts.interface.as_str());
    push_str(&mut script, " inet proto tcp from any to any port 80 -> 127.0.0.1 port ");
    push_decimal(&mut script, opts.proxy_port as u64);
    push_str(&mut script, "\" > ");
    push_str(&mut script, opts.pf_anchor_file.as_str());
    let file = opts.pf_anchor_file.as_str();
    let mut steps: Vec<Step> = Vec::new();
    steps.push(step_of("sh", vec!["-c", script.as_str()]));
    steps.push(step_of("sudo", vec!["pfctl", "-a", "com.omniproxy.http", "-f", file]));
    steps.push(step_of("sudo", vec!["pfctl", "-E"]));
    proof {
        reveal_strlit("printf '%s\\n' \"rdr pass on ");
        reveal_strlit("printf '%s\\n' \"");
        reveal_strlit("rdr pass on ");
        assert("printf '%s\\n' \"rdr pass on "@ =~= "printf '%s\\n' \""@ + "rdr pass on "@);
        assert(script@ =~= "printf '%s\\n' \""@ + pf_rule(opts.interface@, opts.proxy_port as nat) + "\" > "@
            + opts.pf_anchor_file@);
    }
    assert(steps_model(steps@) =~~= macos_up_steps(opts.interface@, opts.proxy_port as nat, opts.pf_anchor_file@));
    steps
}

/// Flushes the anchor.
pub fn build_macos_down(opts: &RedirectOptions) -> (r: Vec<Step>)
    ensures
        steps_model(r@) == macos_down_steps(),
{
    let mut steps: Vec<Step> = Vec::new();
    steps.push(step_of("sudo", vec!["pfctl", "-a", "com.omniproxy.http", "-F", "all"]));
    assert(steps_model(steps@) =~~= macos_down_steps());
    steps
}

/// Shows the anchor's rules.
pub fn build_macos_status() -> (r: Vec<Step>)
    ensures
        steps_model(r@) == macos_status_steps(),
{
    let mut steps: Vec<Step> = Vec::new();
    steps.push(step_of("sudo", vec!["pfctl", "-a", "com.omniproxy.http", "-s", "rules"]));
    assert(steps_model(steps@) =~~= macos_status_steps());
    steps
}

fn linux_nat(action: &str, port: u16) -> (r: Vec<Step>)
    ensures
        steps_model(r@) == linux_nat_steps(action@, port as nat),
{
    let mut p = String::new();
    push_decimal(&mut p, port as u64);
    assert(p@ =~= decimal(port as nat));
    let ps = p.as_str();
    let mut steps: Vec<Step> = Vec::new();
    steps.push(
        step_of(
            "sudo",
            vec!["iptables", "-t", "nat", action, "OUTPUT", "-p", "tcp", "--dport", "80", "-j", "REDIRECT", "--to-ports", ps],
        ),
    );
    assert(steps_model(steps@) =~~= linux_nat_steps(action@, port as nat));
    steps
}

/// Appends the NAT rule that redirects port 80 to the proxy.
pub fn build_linux_up(opts: &RedirectOptions) -> (r: Vec<Step>)
    ensures
        steps_model(r@) == linux_nat_steps("-A"@, opts.proxy_port as nat),
{
    linux_nat("-A", opts.proxy_port)
}

/// Deletes that NAT rule.
pub fn build_linux_down(opts: &RedirectOptions) -> (r: Vec<Step>)
    ensures
        steps_model(r@) == linux_nat_steps("-D"@, opts.proxy_port as nat),
{
    linux_nat("-D", opts.proxy_port)
}

/// Lists the NAT rules of `OUTPUT`.
pub fn build_linux_status() -> (r: Vec<Step>)
    ensures
        steps_model(r@) == linux_status_steps(),
{
    let mut steps: Vec<Step> = Vec::new();
    steps.push(step_of("sudo", vec!["iptables", "-t", "nat", "-S", "OUTPUT"]));
    assert(steps_model(steps@) =~~= linux_status_steps());
    steps
}

/// The commands for `cmd` on a resolved platform.
pub fn redirect_steps(cmd: RedirectCmd, platform: Platform, opts: &RedirectOptions) -> (r: Result<Vec<Step>, RedirectError>)
    ensures
        platform is Auto ==> r == Err::<Vec<Step>, RedirectError>(RedirectError::UnsupportedPlatform),
        platform is Macos && cmd is Up ==> (r matches Ok(s) && steps_model(s@) == macos_up_steps(
            opts.interface@,
            opts.proxy_port as nat,
            opts.pf_anchor_file@,
        )),
        platform is Macos && cmd is Down ==> (r matches Ok(s) && steps_model(s@) == macos_down_steps()),
        platform is Macos && cmd is Status ==> (r matches Ok(s) && steps_model(s@) == macos_status_steps()),
        platform is Linux && cmd is Up ==> (r matches Ok(s) && steps_model(s@) == linux_nat_steps(
            "-A"@,
            opts.proxy_port as nat,
        )),
        platform is Linux && cmd is Down ==> (r matches Ok(s) && steps_model(s@) == linux_nat_steps(
            "-D"@,
            opts.proxy_port as nat,
        )),
        platform is Linux && cmd is Status ==> (r matches Ok(s) && steps_model(s@) == linux_status_steps()),
{
    match (cmd, platform) {
        (RedirectCmd::Up, Platform::Macos) => Ok(build_macos_up(opts)),
        (RedirectCmd::Down, Platform::Macos) => Ok(build_macos_down(opts)),
        (RedirectCmd::Status, Platform::Macos) => Ok(build_macos_status()),
        (RedirectCmd::Up, Platform::Linux) => Ok(build_linux_up(opts)),
        (RedirectCmd::Down, Platform::Linux) => Ok(build_linux_down(opts)),
        (RedirectCmd::Status, Platform::Linux) => Ok(build_linux_status()),
        _ => Err(RedirectError::UnsupportedPlatform),
    }
}

/// On Linux, `down` deletes the very NAT rule that `up` appends: the two
/// commands differ only in `-D` where `up` has `-A`.
pub proof fn law_linux_down_undoes_up(port: nat)
    ensures
        linux_nat_steps("-D"@, port).len() == 1,
        linux_nat_steps("-D"@, port)[0].0 == linux_nat_steps("-A"@, port)[0].0,
        linux_nat_steps("-D"@, port)[0].1.update(3, "-A"@) == linux_nat_steps("-A"@, port)[0].1,
{
    assert(linux_nat_steps("-D"@, port)[0].1.update(3, "-A"@) =~= linux_nat_steps("-A"@, port)[0].1);
}

} // verus!
