//! The headers of a replayed request: the captured headers, less the
//! hop-by-hop ones and those asked to be dropped, then the overrides, all in
//! an HTTP header map.
use vstd::prelude::*;
use reqwest::header::{HeaderMap, HeaderName, HeaderValue};
use crate::text::{chars_of, find_from, find_in_range, lemma_find_from_bounds, string_from_range, trim, trim_to_string};

verus! {

#[verifier::external_type_specification]
#[verifier::external_body]
#[verifier::reject_recursive_types(T)]
pub struct ExHeaderMap<T>(reqwest::header::HeaderMap<T>);

#[verifier::external_type_specification]
#[verifier::external_body]
pub struct ExHeaderValue(reqwest::header::HeaderValue);

/// What a header map holds, as its iteration gives it: each (name, value)
/// pair, names (normalized) in the order in which they were first inserted,
/// the values of a name in the order in which they were added.
pub uninterp spec fn header_entries(m: HeaderMap<HeaderValue>) -> Seq<(Seq<char>, Seq<char>)>;

/// A token character of HTTP (RFC 9110): a letter, a digit or one of
/// `` !#$%&'*+-.^_`|~ ``.
pub open spec fn is_tchar(c: char) -> bool {
    ||| 'a' <= c <= 'z'
    ||| 'A' <= c <= 'Z'
    ||| '0' <= c <= '9'
    ||| c == '!' || c == '#' || c == '$' || c == '%' || c == '&' || c == '\''
    ||| c == '*' || c == '+' || c == '-' || c == '.' || c == '^' || c == '_'
    ||| c == '`' || c == '|' || c == '~'
}

/// ASCII lower-casing of a character.
pub open spec fn lower_char(c: char) -> char {
    if 'A' <= c <= 'Z' {
        ((c as u32) + 32) as char
    } else {
        c
    }
}

/// The header name that `HeaderName::from_bytes` makes of the UTF-8 bytes
/// of a text: the text in lower case when it is 1 to 65535 token
/// characters, `None` otherwise.
pub open spec fn header_name(text: Seq<char>) -> Option<Seq<char>> {
    if 0 < text.len() <= 65535 && forall|i: int| 0 <= i < text.len() ==> is_tchar(#[trigger] text[i]) {
        Some(text.map_values(|c: char| lower_char(c)))
    } else {
        None
    }
}

/// The characters that `HeaderValue::from_str` accepts: every byte of the
/// text is a tab, or at least 32 and not 127 (bytes of non-ASCII characters
/// are all at least 128).
pub open spec fn header_value_ok(text: Seq<char>) -> bool {
    forall|i: int|
        0 <= i < text.len() ==> (#[trigger] text[i] as u32 == 9 || (text[i] as u32 >= 32
            && text[i] as u32 != 127))
}

/// The characters for which `HeaderValue::to_str` gives the text back:
/// tabs and visible ASCII.
pub open spec fn header_value_visible(text: Seq<char>) -> bool {
    forall|i: int|
        0 <= i < text.len() ==> (#[trigger] text[i] as u32 == 9 || (32 <= text[i] as u32
            && (text[i] as u32) < 127))
}

/// Index of the entry named `name` in `entries`, from `from` on.
pub open spec fn entry_pos(entries: Seq<(Seq<char>, Seq<char>)>, name: Seq<char>, from: int) -> Option<int>
    decreases entries.len() - from,
{
    if from < 0 || from >= entries.len() {
        None
    } else if entries[from].0 == name {
        Some(from)
    } else {
        entry_pos(entries, name, from + 1)
    }
}

pub proof fn lemma_entry_pos(entries: Seq<(Seq<char>, Seq<char>)>, name: Seq<char>, from: int)
    requires
        0 <= from,
    ensures
        match entry_pos(entries, name, from) {
            Some(p) => from <= p < entries.len() && entries[p].0 == name,
            None => forall|j: int| from <= j < entries.len() ==> entries[j].0 != name,
        },
    decreases entries.len() - from,
{
    if from < entries.len() && entries[from].0 != name {
        lemma_entry_pos(entries, name, from + 1);
    }
}

/// `HeaderMap::insert` on a map with one value per name: the value replaces
/// the value of the entry with the same name, in its place; a new name goes
/// at the end.
pub open spec fn insert_entry(
    entries: Seq<(Seq<char>, Seq<char>)>,
    name: Seq<char>,
    value: Seq<char>,
) -> Seq<(Seq<char>, Seq<char>)> {
    match entry_pos(entries, name, 0) {
        Some(p) => entries.update(p, (name, value)),
        None => entries.push((name, value)),
    }
}

/// No two entries share a name.
pub open spec fn distinct_names(entries: Seq<(Seq<char>, Seq<char>)>) -> bool {
    forall|i: int, j: int| 0 <= i < j < entries.len() ==> #[trigger] entries[i].0 != #[trigger] entries[j].0
}

/// Inserting keeps names distinct.
pub proof fn lemma_insert_keeps_distinct(entries: Seq<(Seq<char>, Seq<char>)>, name: Seq<char>, value: Seq<char>)
    requires
        distinct_names(entries),
    ensures
        distinct_names(insert_entry(entries, name, value)),
        insert_entry(entries, name, value).len() <= entries.len() + 1,
{
    lemma_entry_pos(entries, name, 0);
    let r = insert_entry(entries, name, value);
    assert forall|i: int, j: int| 0 <= i < j < r.len() implies #[trigger] r[i].0 != #[trigger] r[j].0 by {
        match entry_pos(entries, name, 0) {
            Some(p) => {
                if i != p && j != p {
                    assert(r[i] == entries[i] && r[j] == entries[j]);
                }
            },
            None => {},
        }
    }
}

/// `HeaderMap::new`: a map with no entries.
#[verifier::external_body]
fn new_header_map() -> (m: HeaderMap<HeaderValue>)
    ensures
        header_entries(m) == Seq::<(Seq<char>, Seq<char>)>::empty(),
{
    HeaderMap::new()
}

/// `HeaderName::from_bytes` on the UTF-8 bytes of `name`: the normalized
/// name, `None` when it is refused (see [`header_name`]).
#[verifier::external_body]
pub(crate) fn parse_header_name(name: &str) -> (r: Option<String>)
    ensures
        match r {
            Some(n) => header_name(name@) == Some(n@),
            None => header_name(name@) is None,
        },
{
    HeaderName::from_bytes(name.as_bytes()).ok().map(|n| n.as_str().to_owned())
}

/// `HeaderValue::from_str(value).is_ok()`: each byte is a tab, or at least
/// 32 and not 127.
#[verifier::external_body]
pub(crate) fn value_accepted(value: &str) -> (r: bool)
    ensures
        r == header_value_ok(value@),
{
    HeaderValue::from_str(value).is_ok()
}

/// Below this many entries an insert into a `HeaderMap` always succeeds:
/// the map can refuse to grow its table (of at most 32768 slots) only from
/// 6554 entries on, after heavy hash collisions, and always at 24576.
pub const HEADER_ENTRY_LIMIT: usize = 6554;

/// `HeaderMap::try_insert` of the name and value made of two texts that
/// `HeaderName::from_bytes` and `HeaderValue::from_str` accept, telling
/// whether it inserted. When it does, a new name goes at the end and, with
/// one value per name, the value replaces the value of the entry with the
/// same name, in its place (with several values for a name, what becomes of
/// them is not stated). It always inserts while the map holds fewer than
/// [`HEADER_ENTRY_LIMIT`] entries; from there on it may refuse (when the map
/// cannot grow; which names make it refuse depends on their hashes), and
/// then the entries stay as they were.
#[verifier::external_body]
pub(crate) fn try_insert_header(m: &mut HeaderMap<HeaderValue>, name: &str, value: &str) -> (r: bool)
    requires
        header_name(name@) is Some,
        header_value_ok(value@),
    ensures
        header_entries(*old(m)).len() < HEADER_ENTRY_LIMIT ==> r,
        r && (entry_pos(header_entries(*old(m)), header_name(name@)->0, 0) is None || distinct_names(
            header_entries(*old(m)),
        )) ==> header_entries(*final(m)) == insert_entry(
            header_entries(*old(m)),
            header_name(name@)->0,
            value@,
        ),
        !r ==> header_entries(*final(m)) == header_entries(*old(m)),
{
    match (HeaderName::from_bytes(name.as_bytes()), HeaderValue::from_str(value)) {
        (Ok(n), Ok(v)) => m.try_insert(n, v).is_ok(),
        _ => false,
    }
}

/// The entries of a map in iteration order: each name, with its value text
/// when `HeaderValue::to_str` gives it back.
#[verifier::external_body]
pub(crate) fn header_items(m: &HeaderMap<HeaderValue>) -> (r: Vec<(String, Option<String>)>)
    ensures
        r@.len() == header_entries(*m).len(),
        forall|i: int|
            0 <= i < r@.len() ==> {
                &&& (#[trigger] r@[i]).0@ == header_entries(*m)[i].0
                &&& match r@[i].1 {
                    Some(v) => header_value_visible(header_entries(*m)[i].1) && v@ == header_entries(*m)[i].1,
                    None => !header_value_visible(header_entries(*m)[i].1),
                }
            },
{
    m.iter().map(|(k, v)| (k.as_str().to_owned(), v.to_str().ok().map(|s| s.to_owned()))).collect()
}

/// ASCII lower-casing of a code point.
pub open spec fn lower_code(x: u32) -> u32 {
    if 65 <= x && x <= 90 {
        (x + 32) as u32
    } else {
        x
    }
}

fn lower_code_exec(c: char) -> (r: u32)
    ensures
        r == lower_code(c as u32),
{
    let x = c as u32;
    if 65 <= x && x <= 90 {
        x + 32
    } else {
        x
    }
}

/// `name.to_ascii_lowercase() == lit`.
pub open spec fn lowered_is(name: Seq<char>, lit: Seq<char>) -> bool {
    &&& name.len() == lit.len()
    &&& forall|i: int| 0 <= i < name.len() ==> lower_code(#[trigger] name[i] as u32) == (lit[i] as u32)
}

/// `a.to_ascii_lowercase() == b.to_ascii_lowercase()`.
pub open spec fn same_ascii_ci(a: Seq<char>, b: Seq<char>) -> bool {
    &&& a.len() == b.len()
    &&& forall|i: int| 0 <= i < a.len() ==> lower_code(#[trigger] a[i] as u32) == lower_code(b[i] as u32)
}

fn lowered_is_exec(v: &Vec<char>, lit: &str) -> (r: bool)
    ensures
        r == lowered_is(v@, lit@),
{
    let l = chars_of(lit);
    if v.len() != l.len() {
        return false;
    }
    let mut i: usize = 0;
    while i < v.len()
        invariant
            v@.len() == l@.len(),
            l@ == lit@,
            i <= v.len(),
            forall|j: int| 0 <= j < i ==> lower_code(#[trigger] v@[j] as u32) == (l@[j] as u32),
        decreases v.len() - i,
    {
        if lower_code_exec(v[i]) != l[i] as u32 {
            return false;
        }
        i = i + 1;
    }
    true
}

fn same_ascii_ci_exec(a: &Vec<char>, b: &Vec<char>) -> (r: bool)
    ensures
        r == same_ascii_ci(a@, b@),
{
    if a.len() != b.len() {
        return false;
    }
    let mut i: usize = 0;
    while i < a.len()
        invariant
            a@.len() == b@.len(),
            i <= a.len(),
            forall|j: int| 0 <= j < i ==> lower_code(#[trigger] a@[j] as u32) == lower_code(b@[j] as u32),
        decreases a.len() - i,
    {
        if lower_code_exec(a[i]) != lower_code_exec(b[i]) {
            return false;
        }
        i = i + 1;
    }
    true
}

/// `a.eq_ignore_ascii_case(b)`.
pub fn eq_ignore_ascii_case(a: &str, b: &str) -> (r: bool)
    ensures
        r == same_ascii_ci(a@, b@),
{
    same_ascii_ci_exec(&chars_of(a), &chars_of(b))
}

/// Headers that belong to one connection and are not replayed.
pub open spec fn is_hop_by_hop_name(name: Seq<char>) -> bool {
    ||| lowered_is(name, "connection"@)
    ||| lowered_is(name, "proxy-connection"@)
    ||| lowered_is(name, "keep-alive"@)
    ||| lowered_is(name, "transfer-encoding"@)
    ||| lowered_is(name, "upgrade"@)
    ||| lowered_is(name, "te"@)
    ||| lowered_is(name, "trailer"@)
    ||| lowered_is(name, "proxy-authenticate"@)
    ||| lowered_is(name, "proxy-authorization"@)
    ||| lowered_is(name, "host"@)
    ||| lowered_is(name, "content-length"@)
}

/// Whether `name` is a hop-by-hop header (in any ASCII case).
pub fn is_hop_by_hop(name: &str) -> (r: bool)
    ensures
        r == is_hop_by_hop_name(name@),
{
    let v = chars_of(name);
    lowered_is_exec(&v, "connection") || lowered_is_exec(&v, "proxy-connection") || lowered_is_exec(
        &v,
        "keep-alive",
    ) || lowered_is_exec(&v, "transfer-encoding") || lowered_is_exec(&v, "upgrade")
        || lowered_is_exec(&v, "te") || lowered_is_exec(&v, "trailer") || lowered_is_exec(
        &v,
        "proxy-authenticate",
    ) || lowered_is_exec(&v, "proxy-authorization") || lowered_is_exec(&v, "host")
        || lowered_is_exec(&v, "content-length")
}

/// A captured header is dropped when its name equals, in any ASCII case, one
/// of the names asked to be dropped (each trimmed).
pub open spec fn is_dropped(name: Seq<char>, drops: Seq<Seq<char>>) -> bool {
    exists|j: int| 0 <= j < drops.len() && same_ascii_ci(trim(#[trigger] drops[j]), name)
}

/// The headers built so far, or why building them failed.
pub enum HeaderOutcome {
    Built(Seq<(Seq<char>, Seq<char>)>),
    /// A captured header's name is refused (the name).
    CapturedName(Seq<char>),
    /// A captured header's value is refused (the name).
    CapturedValue(Seq<char>),
    /// An override has no `:` (the override).
    OverrideFormat(Seq<char>),
    /// An override's name is refused (the trimmed name).
    OverrideName(Seq<char>),
    /// An override's value is refused (the trimmed name).
    OverrideValue(Seq<char>),
    /// The map refused to take another header (the model never gives this;
    /// see [`header_limit_reached`]).
    TooMany,
}

/// The first `i` captured headers: hop-by-hop and dropped ones are skipped,
/// the others inserted; the first one refused stops the build.
pub open spec fn captured_upto(
    captured: Seq<(Seq<char>, Seq<char>)>,
    drops: Seq<Seq<char>>,
    i: int,
) -> HeaderOutcome
    decreases i,
{
    if i <= 0 {
        HeaderOutcome::Built(Seq::empty())
    } else {
        let prev = captured_upto(captured, drops, i - 1);
        let k = captured[i - 1].0;
        let v = captured[i - 1].1;
        match prev {
            HeaderOutcome::Built(es) => if is_hop_by_hop_name(k) || is_dropped(k, drops) {
                prev
            } else {
                match header_name(k) {
                    None => HeaderOutcome::CapturedName(k),
                    Some(n) => if !header_value_ok(v) {
                        HeaderOutcome::CapturedValue(k)
                    } else {
                        HeaderOutcome::Built(insert_entry(es, n, v))
                    },
                }
            },
            _ => prev,
        }
    }
}

/// `item.split_once(':')`.
pub open spec fn split_colon(item: Seq<char>) -> Option<(Seq<char>, Seq<char>)> {
    match find_from(item, 0, item.len() as int, seq![':']) {
        Some(p) => Some((item.subrange(0, p), item.subrange(p + 1, item.len() as int))),
        None => None,
    }
}

/// The first `i` overrides (`Key: Value`, each part trimmed) inserted over
/// `start`; the first one refused stops the build.
pub open spec fn overrides_upto(start: HeaderOutcome, overrides: Seq<Seq<char>>, i: int) -> HeaderOutcome
    decreases i,
{
    if i <= 0 {
        start
    } else {
        let prev = overrides_upto(start, overrides, i - 1);
        let item = overrides[i - 1];
        match prev {
            HeaderOutcome::Built(es) => match split_colon(item) {
                None => HeaderOutcome::OverrideFormat(item),
                Some((k, v)) => match header_name(trim(k)) {
                    None => HeaderOutcome::OverrideName(trim(k)),
                    Some(n) => if !header_value_ok(trim(v)) {
                        HeaderOutcome::OverrideValue(trim(k))
                    } else {
                        HeaderOutcome::Built(insert_entry(es, n, trim(v)))
                    },
                },
            },
            _ => prev,
        }
    }
}

/// The headers of a replayed request.
pub open spec fn built_headers(
    captured: Seq<(Seq<char>, Seq<char>)>,
    overrides: Seq<Seq<char>>,
    drops: Seq<Seq<char>>,
) -> HeaderOutcome {
    overrides_upto(captured_upto(captured, drops, captured.len() as int), overrides, overrides.len() as int)
}

/// Why the headers of a replayed request could not be built.
#[derive(Debug)]
pub enum HeaderError {
    CapturedName(String),
    CapturedValue(String),
    OverrideFormat(String),
    OverrideName(String),
    OverrideValue(String),
    /// The map refused to take another header.
    TooMany,
}

impl HeaderError {
    pub open spec fn outcome(&self) -> HeaderOutcome {
        match self {
            HeaderError::CapturedName(s) => HeaderOutcome::CapturedName(s@),
            HeaderError::CapturedValue(s) => HeaderOutcome::CapturedValue(s@),
            HeaderError::OverrideFormat(s) => HeaderOutcome::OverrideFormat(s@),
            HeaderError::OverrideName(s) => HeaderOutcome::OverrideName(s@),
            HeaderError::OverrideValue(s) => HeaderOutcome::OverrideValue(s@),
            HeaderError::TooMany => HeaderOutcome::TooMany,
        }
    }
}

proof fn lemma_captured_error_stays(
    captured: Seq<(Seq<char>, Seq<char>)>,
    drops: Seq<Seq<char>>,
    i: int,
    j: int,
)
    requires
        0 <= i <= j,
        !(captured_upto(captured, drops, i) is Built),
    ensures
        captured_upto(captured, drops, j) == captured_upto(captured, drops, i),
    decreases j - i,
{
    if j > i {
        lemma_captured_error_stays(captured, drops, i, j - 1);
    }
}

proof fn lemma_overrides_error_stays(start: HeaderOutcome, overrides: Seq<Seq<char>>, i: int, j: int)
    requires
        0 <= i <= j,
        !(overrides_upto(start, overrides, i) is Built),
    ensures
        overrides_upto(start, overrides, j) == overrides_upto(start, overrides, i),
    decreases j - i,
{
    if j > i {
        lemma_overrides_error_stays(start, overrides, i, j - 1);
    }
}

pub open spec fn pair_texts(v: Seq<(String, String)>) -> Seq<(Seq<char>, Seq<char>)> {
    v.map_values(|p: (String, String)| (p.0@, p.1@))
}

pub open spec fn string_texts(v: Seq<String>) -> Seq<Seq<char>> {
    v.map_values(|s: String| s@)
}

/// Whether `name` is one of the names asked to be dropped (already trimmed).
fn dropped_exec(name: &Vec<char>, drops: &Vec<Vec<char>>, Ghost(raw): Ghost<Seq<Seq<char>>>) -> (r: bool)
    requires
        drops@.len() == raw.len(),
        forall|j: int| 0 <= j < raw.len() ==> (#[trigger] drops@[j])@ == trim(raw[j]),
    ensures
        r == is_dropped(name@, raw),
{
    let mut j: usize = 0;
    while j < drops.len()
        invariant
            drops@.len() == raw.len(),
            forall|k: int| 0 <= k < raw.len() ==> (#[trigger] drops@[k])@ == trim(raw[k]),
            j <= drops.len(),
            forall|k: int| 0 <= k < j ==> !same_ascii_ci(trim(#[trigger] raw[k]), name@),
        decreases drops.len() - j,
    {
        if same_ascii_ci_exec(&drops[j], name) {
            assert(same_ascii_ci(trim(raw[j as int]), name@));
            return true;
        }
        j = j + 1;
    }
    false
}

/// Whether, before some insert, the headers built so far number at least
/// [`HEADER_ENTRY_LIMIT`] (only then can the map refuse an insert).
pub open spec fn header_limit_reached(
    captured: Seq<(Seq<char>, Seq<char>)>,
    overrides: Seq<Seq<char>>,
    drops: Seq<Seq<char>>,
) -> bool {
    ||| exists|i: int|
        0 <= i < captured.len() && (#[trigger] captured_upto(captured, drops, i) matches HeaderOutcome::Built(es)
            && es.len() >= HEADER_ENTRY_LIMIT)
    ||| exists|j: int|
        0 <= j < overrides.len() && (#[trigger] overrides_upto(
            captured_upto(captured, drops, captured.len() as int),
            overrides,
            j,
        ) matches HeaderOutcome::Built(es) && es.len() >= HEADER_ENTRY_LIMIT)
}

/// The header map of a replayed request (see [`built_headers`]). It fails
/// with [`HeaderError::TooMany`] only where the map refuses an insert, which
/// needs [`HEADER_ENTRY_LIMIT`] headers already built.
pub fn build_headers(
    captured: &Vec<(String, String)>,
    overrides: &Vec<String>,
    drop_headers: &Vec<String>,
) -> (r: Result<HeaderMap<HeaderValue>, HeaderError>)
    ensures
        match r {
            Ok(m) => built_headers(pair_texts(captured@), string_texts(overrides@), string_texts(drop_headers@))
                == HeaderOutcome::Built(header_entries(m)),
            Err(HeaderError::TooMany) => header_limit_reached(
                pair_texts(captured@),
                string_texts(overrides@),
                string_texts(drop_headers@),
            ),
            Err(e) => built_headers(pair_texts(captured@), string_texts(overrides@), string_texts(drop_headers@))
                == e.outcome(),
        },
{
    let ghost cap = pair_texts(captured@);
    let ghost ovs = string_texts(overrides@);
    let ghost raw = string_texts(drop_headers@);
    let mut drops: Vec<Vec<char>> = Vec::new();
    let mut d: usize = 0;
    while d < drop_headers.len()
        invariant
            raw == string_texts(drop_headers@),
            d <= drop_headers.len(),
            drops@.len() == d,
            forall|j: int| 0 <= j < d ==> (#[trigger] drops@[j])@ == trim(raw[j]),
        decreases drop_headers.len() - d,
    {
        let t = trim_to_string(drop_headers[d].as_str());
        drops.push(chars_of(t.as_str()));
        d = d + 1;
    }
    let mut map = new_header_map();
    let n = captured.len();
    let mut i: usize = 0;
    while i < n
        invariant
            n == captured.len(),
            cap == pair_texts(captured@),
            ovs == string_texts(overrides@),
            raw == string_texts(drop_headers@),
            drops@.len() == raw.len(),
            forall|j: int| 0 <= j < raw.len() ==> (#[trigger] drops@[j])@ == trim(raw[j]),
            i <= n,
            distinct_names(header_entries(map)),
            captured_upto(cap, raw, i as int) == HeaderOutcome::Built(header_entries(map)),
        decreases n - i,
    {
        let k = &captured[i].0;
        let v = &captured[i].1;
        assert(cap[i as int] == (k@, v@));
        let kv = chars_of(k.as_str());
        if is_hop_by_hop(k.as_str()) || dropped_exec(&kv, &drops, Ghost(raw)) {
            i = i + 1;
            continue;
        }
        match parse_header_name(k.as_str()) {
            None => {
                assert(captured_upto(cap, raw, i + 1) == HeaderOutcome::CapturedName(k@));
                proof {
                    lemma_captured_error_stays(cap, raw, i + 1, n as int);
                    lemma_overrides_error_stays(captured_upto(cap, raw, n as int), ovs, 0, ovs.len() as int);
                    assert(cap.len() == n);
                    assert(built_headers(cap, ovs, raw) == HeaderOutcome::CapturedName(k@));
                }
                let e = HeaderError::CapturedName(k.clone());
                assert(e.outcome() == HeaderOutcome::CapturedName(k@));
                return Err(e);
            },
            Some(_) => {},
        }
        if !value_accepted(v.as_str()) {
            assert(captured_upto(cap, raw, i + 1) == HeaderOutcome::CapturedValue(k@));
            proof {
                lemma_captured_error_stays(cap, raw, i + 1, n as int);
                lemma_overrides_error_stays(captured_upto(cap, raw, n as int), ovs, 0, ovs.len() as int);
                assert(cap.len() == n);
                assert(built_headers(cap, ovs, raw) == HeaderOutcome::CapturedValue(k@));
            }
            let e = HeaderError::CapturedValue(k.clone());
            assert(e.outcome() == HeaderOutcome::CapturedValue(k@));
            return Err(e);
        }
        proof {
            lemma_insert_keeps_distinct(header_entries(map), header_name(k@)->0, v@);
        }
        let ghost before = header_entries(map);
        if !try_insert_header(&mut map, k.as_str(), v.as_str()) {
            assert(captured_upto(cap, raw, i as int) == HeaderOutcome::Built(before));
            assert(header_limit_reached(cap, ovs, raw));
            return Err(HeaderError::TooMany);
        }
        i = i + 1;
    }
    let m = overrides.len();
    let mut j: usize = 0;
    let colon = vec![':'];
    assert(colon@ =~= seq![':']);
    while j < m
        invariant
            m == overrides.len(),
            n == captured.len(),
            cap == pair_texts(captured@),
            ovs == string_texts(overrides@),
            raw == string_texts(drop_headers@),
            colon@ == seq![':'],
            j <= m,
            distinct_names(header_entries(map)),
            overrides_upto(captured_upto(cap, raw, n as int), ovs, j as int) == HeaderOutcome::Built(
                header_entries(map),
            ),
        decreases m - j,
    {
        let item = &overrides[j];
        assert(ovs[j as int] == item@);
        let iv = chars_of(item.as_str());
        proof {
            lemma_find_from_bounds(iv@, 0, iv@.len() as int, seq![':']);
        }
        let p = match find_in_range(&iv, 0, iv.len(), &colon) {
            Some(p) => p,
            None => {
                proof {
                    lemma_overrides_error_stays(captured_upto(cap, raw, n as int), ovs, j + 1, m as int);
                }
                return Err(HeaderError::OverrideFormat(item.clone()));
            },
        };
        let key = trim_to_string(string_from_range(&iv, 0, p).as_str());
        let value = trim_to_string(string_from_range(&iv, p + 1, iv.len()).as_str());
        match parse_header_name(key.as_str()) {
            None => {
                proof {
                    lemma_overrides_error_stays(captured_upto(cap, raw, n as int), ovs, j + 1, m as int);
                }
                return Err(HeaderError::OverrideName(key));
            },
            Some(_) => {},
        }
        if !value_accepted(value.as_str()) {
            proof {
                lemma_overrides_error_stays(captured_upto(cap, raw, n as int), ovs, j + 1, m as int);
            }
            return Err(HeaderError::OverrideValue(key));
        }
        proof {
            lemma_insert_keeps_distinct(header_entries(map), header_name(key@)->0, value@);
        }
        let ghost before = header_entries(map);
        if !try_insert_header(&mut map, key.as_str(), value.as_str()) {
            assert(overrides_upto(captured_upto(cap, raw, n as int), ovs, j as int) == HeaderOutcome::Built(before));
            assert(header_limit_reached(cap, ovs, raw));
            return Err(HeaderError::TooMany);
        }
        j = j + 1;
    }
    Ok(map)
}

/// A captured header that is replayed: not hop-by-hop, not dropped, with
/// a name and a value that the header map accepts.
pub open spec fn replayable(k: Seq<char>, v: Seq<char>, drops: Seq<Seq<char>>) -> bool {
    &&& !is_hop_by_hop_name(k)
    &&& !is_dropped(k, drops)
    &&& header_name(k) is Some
    &&& header_value_ok(v)
}

/// Of the captured headers, only replayable ones reach the map: every
/// entry built from the first `i` captured headers is named after one of
/// them, and hop-by-hop and dropped headers never get in.
pub proof fn law_only_replayable_captured(
    captured: Seq<(Seq<char>, Seq<char>)>,
    drops: Seq<Seq<char>>,
    i: int,
)
    requires
        0 <= i <= captured.len(),
    ensures
        captured_upto(captured, drops, i) matches HeaderOutcome::Built(es) ==> forall|m: int|
            0 <= m < es.len() ==> exists|j: int|
                0 <= j < i && replayable(#[trigger] captured[j].0, captured[j].1, drops) && header_name(
                    captured[j].0,
                ) == Some(#[trigger] es[m].0),
    decreases i,
{
    if i > 0 {
        law_only_replayable_captured(captured, drops, i - 1);
        let prev = captured_upto(captured, drops, i - 1);
        let k = captured[i - 1].0;
        let v = captured[i - 1].1;
        if let HeaderOutcome::Built(es) = prev {
            if !(is_hop_by_hop_name(k) || is_dropped(k, drops)) {
                if let Some(n) = header_name(k) {
                    if header_value_ok(v) {
                        let nes = insert_entry(es, n, v);
                        lemma_entry_pos(es, n, 0);
                        assert forall|m: int| 0 <= m < nes.len() implies exists|j: int|
                            0 <= j < i && replayable(#[trigger] captured[j].0, captured[j].1, drops) && header_name(
                                captured[j].0,
                            ) == Some(#[trigger] nes[m].0) by {
                            if m < es.len() && nes[m].0 == es[m].0 {
                                let j = choose|j: int|
                                    0 <= j < i - 1 && replayable(#[trigger] captured[j].0, captured[j].1, drops)
                                        && header_name(captured[j].0) == Some(#[trigger] es[m].0);
                                assert(replayable(captured[j].0, captured[j].1, drops));
                            } else {
                                assert(nes[m].0 == n);
                                assert(replayable(captured[i - 1].0, captured[i - 1].1, drops));
                            }
                        }
                    }
                }
            }
        }
    }
}

} // verus!
