//! Launch helpers: the target command of a captured run, the proxy endpoint
//! it is pointed at, the addresses of the one-command launcher, and the
//! arguments with which the stack runner starts its parts.
use vstd::prelude::*;
use crate::commands::{strings, str_texts, texts};
use crate::text::{
    chars_of, find_from, find_in_range, lemma_find_from_bounds, lemma_line_end, lemma_trim_bounds, lemma_trim_sub,
    line_end, line_end_exec, string_from_range, trim, trim_range,
};
use crate::uri::before_char;
use crate::vpn::{host_port, parse_host_port, HostPortError};

verus! {

/// How a captured run routes its target's traffic.
#[derive(Debug, Clone, Copy, PartialEq, Eq, Structural)]
pub enum CaptureMode {
    /// Proxy environment variables for the target only.
    Env,
    /// The system proxy, for the time of the run.
    System,
}

pub open spec fn capture_label(m: CaptureMode) -> Seq<char> {
    match m {
        CaptureMode::Env => "env"@,
        CaptureMode::System => "system"@,
    }
}

/// Name of a capture mode.
pub fn mode_name(m: CaptureMode) -> (r: &'static str)
    ensures
        r@ == capture_label(m),
{
    match m {
        CaptureMode::Env => "env",
        CaptureMode::System => "system",
    }
}

/// The program of a command line and its arguments; `None` when the command
/// line is empty.
pub fn split_cmd(cmd: &Vec<String>) -> (r: Option<(String, Vec<String>)>)
    ensures
        cmd@.len() == 0 ==> r is None,
        cmd@.len() > 0 ==> (r matches Some((p, a)) && p@ == cmd@[0]@ && texts(a@) == texts(cmd@).drop_first()),
{
    if cmd.len() == 0 {
        return None;
    }
    let prog = cmd[0].clone();
    let mut args: Vec<String> = Vec::new();
    let mut i: usize = 1;
    while i < cmd.len()
        invariant
            1 <= i <= cmd.len(),
            texts(args@) == texts(cmd@).subrange(1, i as int),
        decreases cmd.len() - i,
    {
        let a = cmd[i].clone();
        let ghost before = args@;
        args.push(a);
        assert(texts(args@) =~= texts(before).push(a@));
        assert(texts(cmd@).subrange(1, i + 1) =~= texts(cmd@).subrange(1, i as int).push(cmd@[i as int]@));
        i = i + 1;
    }
    assert(texts(cmd@).subrange(1, cmd@.len() as int) =~= texts(cmd@).drop_first());
    Some((prog, args))
}

/// A proxy URL without its scheme: what follows the first `://`, or all of it.
pub open spec fn without_scheme(url: Seq<char>) -> Seq<char> {
    match find_from(url, 0, url.len() as int, "://"@) {
        Some(p) => url.subrange(p + 3, url.len() as int),
        None => url,
    }
}

/// The host and port of a proxy URL: the scheme and any path are left out,
/// then the rest is split at its last `:`.
pub open spec fn proxy_endpoint(url: Seq<char>) -> Result<(Seq<char>, u16), HostPortError> {
    host_port(before_char(without_scheme(url), '/'))
}

/// Host and port of a proxy URL (see [`proxy_endpoint`]).
pub fn parse_proxy_endpoint(proxy_url: &str) -> (r: Result<(String, u16), HostPortError>)
    ensures
        match r {
            Ok((h, p)) => proxy_endpoint(proxy_url@) == Ok::<(Seq<char>, u16), HostPortError>((h@, p)),
            Err(e) => proxy_endpoint(proxy_url@) == Err::<(Seq<char>, u16), HostPortError>(e),
        },
{
    let v = chars_of(proxy_url);
    let n = v.len();
    let sep = chars_of("://");
    proof {
        reveal_strlit("://");
        lemma_find_from_bounds(v@, 0, n as int, sep@);
    }
    let start = match find_in_range(&v, 0, n, &sep) {
        Some(p) => p + sep.len(),
        None => 0,
    };
    let slash = vec!['/'];
    assert(slash@ =~= seq!['/']);
    let ghost rest = v@.subrange(start as int, n as int);
    assert(rest == without_scheme(proxy_url@)) by {
        if start == 0 {
            assert(rest =~= v@);
        }
    }
    proof {
        lemma_find_from_bounds(v@, start as int, n as int, seq!['/']);
        crate::text::lemma_find_from_shift(v@, start as int, n as int, start as int, seq!['/']);
    }
    let end = match find_in_range(&v, start, n, &slash) {
        Some(k) => k,
        None => n,
    };
    let hp = string_from_range(&v, start, end);
    proof {
        match find_from(v@, start as int, n as int, seq!['/']) {
            Some(k) => {
                assert(find_from(rest, 0, rest.len() as int, seq!['/']) == Some(k - start));
                assert(rest.subrange(0, k - start) =~= v@.subrange(start as int, k));
            },
            None => {},
        }
    }
    assert(hp@ == before_char(without_scheme(proxy_url@), '/'));
    parse_host_port(hp.as_str())
}

/// The environment variables that point a target at the proxy, and their values.
pub open spec fn proxy_env(proxy_url: Seq<char>, no_proxy: Seq<char>) -> Seq<(Seq<char>, Seq<char>)> {
    seq![
        ("HTTP_PROXY"@, proxy_url),
        ("HTTPS_PROXY"@, proxy_url),
        ("ALL_PROXY"@, proxy_url),
        ("http_proxy"@, proxy_url),
        ("https_proxy"@, proxy_url),
        ("all_proxy"@, proxy_url),
        ("NO_PROXY"@, no_proxy),
        ("no_proxy"@, no_proxy),
    ]
}

pub open spec fn env_view(v: Seq<(String, String)>) -> Seq<(Seq<char>, Seq<char>)> {
    v.map_values(|p: (String, String)| (p.0@, p.1@))
}

/// The proxy variables set for a captured target (see [`proxy_env`]).
pub fn proxy_env_vars(proxy_url: &str, no_proxy: &str) -> (r: Vec<(String, String)>)
    ensures
        env_view(r@) == proxy_env(proxy_url@, no_proxy@),
{
    let mut v: Vec<(String, String)> = Vec::new();
    v.push(("HTTP_PROXY".to_owned(), proxy_url.to_owned()));
    v.push(("HTTPS_PROXY".to_owned(), proxy_url.to_owned()));
    v.push(("ALL_PROXY".to_owned(), proxy_url.to_owned()));
    v.push(("http_proxy".to_owned(), proxy_url.to_owned()));
    v.push(("https_proxy".to_owned(), proxy_url.to_owned()));
    v.push(("all_proxy".to_owned(), proxy_url.to_owned()));
    v.push(("NO_PROXY".to_owned(), no_proxy.to_owned()));
    v.push(("no_proxy".to_owned(), no_proxy.to_owned()));
    assert(env_view(v@) =~= proxy_env(proxy_url@, no_proxy@));
    v
}

/// Where the one-command launcher listens.
#[derive(Debug, Clone, Copy, PartialEq, Eq, Structural)]
pub enum NetMode {
    /// This machine only.
    Local,
    /// Reachable from the local network.
    Lan,
}

pub open spec fn net_label(m: NetMode) -> Seq<char> {
    match m {
        NetMode::Local => "local"@,
        NetMode::Lan => "lan"@,
    }
}

/// Name of a network mode.
pub fn net_mode_name(m: NetMode) -> (r: &'static str)
    ensures
        r@ == net_label(m),
{
    match m {
        NetMode::Local => "local",
        NetMode::Lan => "lan",
    }
}

/// The proxy and API addresses: those given, else the defaults of the mode
/// (loopback for `Local`, all interfaces for `Lan`; ports 9090 and 9091).
pub open spec fn addrs_of(mode: NetMode, listen: Option<Seq<char>>, api_listen: Option<Seq<char>>) -> (Seq<char>, Seq<char>) {
    let (dl, da) = match mode {
        NetMode::Local => ("127.0.0.1:9090"@, "127.0.0.1:9091"@),
        NetMode::Lan => ("0.0.0.0:9090"@, "0.0.0.0:9091"@),
    };
    (
        match listen {
            Some(l) => l,
            None => dl,
        },
        match api_listen {
            Some(a) => a,
            None => da,
        },
    )
}

pub open spec fn opt_text(o: Option<String>) -> Option<Seq<char>> {
    match o {
        Some(s) => Some(s@),
        None => None,
    }
}

/// The proxy and API addresses of the launcher (see [`addrs_of`]).
pub fn resolve_addrs(mode: NetMode, listen: &Option<String>, api_listen: &Option<String>) -> (r: (String, String))
    ensures
        (r.0@, r.1@) == addrs_of(mode, opt_text(*listen), opt_text(*api_listen)),
{
    let (dl, da) = match mode {
        NetMode::Local => ("127.0.0.1:9090", "127.0.0.1:9091"),
        NetMode::Lan => ("0.0.0.0:9090", "0.0.0.0:9091"),
    };
    let l = match listen {
        Some(x) => x.clone(),
        None => dl.to_owned(),
    };
    let a = match api_listen {
        Some(x) => x.clone(),
        None => da.to_owned(),
    };
    (l, a)
}

/// Build profile of a binary directory: `release` when the directory is
/// named so, else `debug`.
pub fn detect_profile(dir_name: &Option<String>) -> (r: &'static str)
    ensures
        (dir_name matches Some(n) && n@ == "release"@) ==> r@ == "release"@,
        !(dir_name matches Some(n) && n@ == "release"@) ==> r@ == "debug"@,
{
    match dir_name {
        Some(n) => if *n == "release".to_owned() {
            "release"
        } else {
            "debug"
        },
        None => "debug",
    }
}

/// File name of one of the suite's binaries on the target OS.
pub fn bin_file_name(name: &str, target_os: &str) -> (r: String)
    ensures
        target_os@ == "windows"@ ==> r@ == name@ + ".exe"@,
        target_os@ != "windows"@ ==> r@ == name@,
{
    let mut out = name.to_owned();
    if target_os.to_owned() == "windows".to_owned() {
        crate::text::push_str(&mut out, ".exe");
    }
    out
}

/// The binaries the stack needs: the launcher, the transparent helpers when
/// asked for, and the VPN helper when asked for.
pub open spec fn required_bin_names(transparent: bool, vpn: bool) -> Seq<Seq<char>> {
    seq!["omni-global"@] + (if transparent {
        seq!["omni-transparent"@, "omni-transparentd"@]
    } else {
        Seq::empty()
    }) + (if vpn {
        seq!["omni-vpn"@]
    } else {
        Seq::empty()
    })
}

pub fn required_bins(transparent: bool, vpn: bool) -> (r: Vec<&'static str>)
    ensures
        str_texts(r@) == required_bin_names(transparent, vpn),
{
    let mut v: Vec<&'static str> = Vec::new();
    v.push("omni-global");
    if transparent {
        v.push("omni-transparent");
        v.push("omni-transparentd");
    }
    if vpn {
        v.push("omni-vpn");
    }
    assert(str_texts(v@) =~= required_bin_names(transparent, vpn));
    v
}

/// The arguments of the launcher started by the stack.
pub open spec fn global_arg_list(mode: NetMode, system_proxy: bool, network_service: Seq<char>, kernel_capture: bool) -> Seq<Seq<char>> {
    seq!["--mode"@, net_label(mode)] + (if system_proxy {
        seq!["--set-system-proxy"@, "--network-service"@, network_service]
    } else {
        Seq::empty()
    }) + (if kernel_capture {
        seq!["--kernel-capture"@]
    } else {
        Seq::empty()
    })
}

pub fn global_args(mode: NetMode, system_proxy: bool, network_service: &str, kernel_capture: bool) -> (r: Vec<String>)
    ensures
        texts(r@) == global_arg_list(mode, system_proxy, network_service@, kernel_capture),
{
    let mut v: Vec<String> = Vec::new();
    v.push("--mode".to_owned());
    v.push(net_mode_name(mode).to_owned());
    if system_proxy {
        v.push("--set-system-proxy".to_owned());
        v.push("--network-service".to_owned());
        v.push(network_service.to_owned());
    }
    if kernel_capture {
        v.push("--kernel-capture".to_owned());
    }
    assert(texts(v@) =~= global_arg_list(mode, system_proxy, network_service@, kernel_capture));
    v
}

/// `cargo build` arguments that build the missing binaries.
pub open spec fn build_arg_list(release: bool, missing: Seq<Seq<char>>) -> Seq<Seq<char>>
    decreases missing.len(),
{
    if missing.len() == 0 {
        seq!["build"@] + if release {
            seq!["--release"@]
        } else {
            Seq::empty()
        }
    } else {
        build_arg_list(release, missing.drop_last()) + seq!["--bin"@, missing.last()]
    }
}

pub fn cargo_build_args(profile: &str, missing: &Vec<&str>) -> (r: Vec<String>)
    ensures
        texts(r@) == build_arg_list(profile@ == "release"@, str_texts(missing@)),
{
    let release = profile.to_owned() == "release".to_owned();
    let mut v: Vec<String> = Vec::new();
    v.push("build".to_owned());
    if release {
        v.push("--release".to_owned());
    }
    let ghost ms = str_texts(missing@);
    assert(texts(v@) =~= build_arg_list(release, ms.take(0)));
    let mut i: usize = 0;
    while i < missing.len()
        invariant
            ms == str_texts(missing@),
            release == (profile@ == "release"@),
            i <= missing.len(),
            texts(v@) == build_arg_list(release, ms.take(i as int)),
        decreases missing.len() - i,
    {
        let ghost before = v@;
        v.push("--bin".to_owned());
        v.push(missing[i].to_owned());
        assert(ms.take(i + 1).drop_last() =~= ms.take(i as int));
        assert(texts(v@) =~= texts(before) + seq!["--bin"@, ms[i as int]]);
        i = i + 1;
    }
    assert(ms.take(missing.len() as int) =~= ms);
    v
}

/// Arguments of the VPN helper for one action on a service.
pub fn vpn_args(service_name: &str, action: &str) -> (r: Vec<String>)
    ensures
        texts(r@) == seq!["--service-name"@, service_name@, action@],
{
    let mut v: Vec<String> = Vec::new();
    v.push("--service-name".to_owned());
    v.push(service_name.to_owned());
    v.push(action.to_owned());
    assert(texts(v@) =~= seq!["--service-name"@, service_name@, action@]);
    v
}

/// The names of `names` whose binary is not there (`present[i]` tells
/// whether the binary of `names[i]` is), in order.
pub open spec fn missing_names(names: Seq<Seq<char>>, present: Seq<bool>, n: int) -> Seq<Seq<char>>
    decreases n,
{
    if n <= 0 {
        Seq::empty()
    } else if present[n - 1] {
        missing_names(names, present, n - 1)
    } else {
        missing_names(names, present, n - 1).push(names[n - 1])
    }
}

/// The binaries that the stack must build first: those it needs whose file
/// is not there.
pub fn missing_bins(names: &Vec<&'static str>, present: &Vec<bool>) -> (r: Vec<&'static str>)
    requires
        present@.len() == names@.len(),
    ensures
        str_texts(r@) == missing_names(str_texts(names@), present@, names@.len() as int),
{
    let mut out: Vec<&'static str> = Vec::new();
    let mut i: usize = 0;
    while i < names.len()
        invariant
            present@.len() == names@.len(),
            i <= names@.len(),
            str_texts(out@) == missing_names(str_texts(names@), present@, i as int),
        decreases names.len() - i,
    {
        if !present[i] {
            let ghost before = out@;
            out.push(names[i]);
            assert(str_texts(out@) =~= str_texts(before).push(names@[i as int]@));
        }
        i = i + 1;
    }
    out
}

/// The line of `s` that starts at `i`, without its line ending (`\n`, or
/// `\r\n`), as `str::lines` gives it.
pub open spec fn line_text(s: Seq<char>, i: int) -> Seq<char> {
    let e = line_end(s, i);
    if e < s.len() && e > i && s[e - 1] == '\r' {
        s.subrange(i, e - 1)
    } else {
        s.subrange(i, e)
    }
}

/// The lines of `s` from `i` on that a connection sample keeps: not the
/// first line of the text (the header), when `first` says `i` starts it,
/// and no blank line.
pub open spec fn sample_lines_from(s: Seq<char>, i: int, first: bool) -> Seq<Seq<char>>
    decreases s.len() - i + 1,
{
    if i < 0 || i >= s.len() {
        Seq::empty()
    } else {
        let e = line_end(s, i);
        proof {
            lemma_line_end(s, i);
        }
        let rest = sample_lines_from(s, e + 1, false);
        if first || trim(line_text(s, i)).len() == 0 {
            rest
        } else {
            seq![line_text(s, i)] + rest
        }
    }
}

/// The connection lines of an `lsof` listing: its lines after the header,
/// blank ones left out.
pub fn sample_lines(listing: &str) -> (r: Vec<String>)
    ensures
        texts(r@) == sample_lines_from(listing@, 0, true),
{
    let v = chars_of(listing);
    let n = v.len();
    let mut out: Vec<String> = Vec::new();
    let mut i: usize = 0;
    let mut first = true;
    while i < n
        invariant
            n == v@.len(),
            v@ == listing@,
            i <= n,
            first ==> i == 0,
            sample_lines_from(v@, 0, true) == texts(out@) + sample_lines_from(v@, i as int, first),
        decreases n - i,
    {
        let e = line_end_exec(&v, i);
        let end = if e < n && e > i && v[e - 1] == '\r' { e - 1 } else { e };
        assert(v@.subrange(i as int, end as int) == line_text(v@, i as int));
        let (a, b) = trim_range(&v, i, end);
        proof {
            lemma_trim_sub(v@, i as int, end as int);
            lemma_trim_bounds(v@, i as int, end as int);
        }
        let ghost before = texts(out@);
        if !first && a < b {
            out.push(string_from_range(&v, i, end));
            assert(texts(out@) =~= before.push(line_text(v@, i as int)));
            assert(before + (seq![line_text(v@, i as int)] + sample_lines_from(v@, e + 1, false)) =~= texts(out@)
                + sample_lines_from(v@, e + 1, false));
        }
        first = false;
        if e == n {
            assert(sample_lines_from(v@, e + 1, false) == Seq::<Seq<char>>::empty());
            i = n;
        } else {
            i = e + 1;
        }
    }
    assert(texts(out@) + Seq::<Seq<char>>::empty() =~= texts(out@));
    out
}

} // verus!
