//! The proxy's filter chain: requests go through the filters in order, and
//! stop at the first filter that answers them; responses go through them in
//! reverse order. The request-id stage gives each request an
//! `x-omni-request-id` header, unless it already has one.
use vstd::prelude::*;
use reqwest::header::{HeaderMap, HeaderValue};
use crate::headers::{
    header_entries, header_name, header_value_ok, is_tchar, lower_char, try_insert_header, HEADER_ENTRY_LIMIT,
};

verus! {

/// A lower-case hexadecimal digit or a hyphen.
pub open spec fn uuid_char(c: char) -> bool {
    ('0' <= c && c <= '9') || ('a' <= c && c <= 'f') || c == '-'
}

/// `uuid::Uuid::new_v4().to_string()`: a random UUID in its hyphenated
/// lower-case form (36 characters of hexadecimal digits and hyphens).
#[verifier::external_body]
fn new_request_id() -> (r: String)
    ensures
        r@.len() == 36,
        forall|i: int| 0 <= i < r@.len() ==> uuid_char(#[trigger] r@[i]),
{
    uuid::Uuid::new_v4().to_string()
}

/// `HeaderMap::contains_key` with a name given as text: whether the map
/// has an entry with the name's normalized form.
#[verifier::external_body]
fn has_header(m: &HeaderMap<HeaderValue>, name: &str) -> (r: bool)
    ensures
        r == (header_name(name@) matches Some(n) && exists|i: int|
            0 <= i < header_entries(*m).len() && (#[trigger] header_entries(*m)[i]).0 == n),
{
    m.contains_key(name)
}

/// The request-id stage.
#[derive(Debug, Clone, Copy, Default)]
pub struct RequestIdFilter;

impl RequestIdFilter {
    /// Gives a request without an `x-omni-request-id` header one, with a
    /// fresh random id (a UUID in its hyphenated lower-case form), and
    /// returns the id. A request that has one is left as it is; so is one
    /// whose map refuses the header, which needs [`HEADER_ENTRY_LIMIT`]
    /// entries already there.
    pub fn on_request(&self, headers: &mut HeaderMap<HeaderValue>) -> (r: Option<String>)
        ensures
            ({
                let old_entries = header_entries(*old(headers));
                let present = exists|i: int|
                    0 <= i < old_entries.len() && (#[trigger] old_entries[i]).0 == request_id_header();
                &&& present ==> r is None
                &&& !present && old_entries.len() < HEADER_ENTRY_LIMIT ==> r is Some
                &&& r matches Some(id) ==> {
                    &&& id@.len() == 36
                    &&& forall|k: int| 0 <= k < 36 ==> uuid_char(#[trigger] id@[k])
                    &&& header_entries(*final(headers)) == old_entries.push((request_id_header(), id@))
                }
                &&& r is None ==> header_entries(*final(headers)) == old_entries
            }),
    {
        proof {
            lemma_request_id_name();
        }
        if has_header(headers, "x-omni-request-id") {
            return None;
        }
        let id = new_request_id();
        assert(header_value_ok(id@));
        proof {
            crate::headers::lemma_entry_pos(header_entries(*headers), request_id_header(), 0);
        }
        if try_insert_header(headers, "x-omni-request-id", id.as_str()) {
            Some(id)
        } else {
            None
        }
    }
}

/// The name of the request-id header.
pub open spec fn request_id_header() -> Seq<char> {
    "x-omni-request-id"@
}

proof fn lemma_request_id_name()
    ensures
        header_name("x-omni-request-id"@) == Some(request_id_header()),
{
    reveal_strlit("x-omni-request-id");
    let t = "x-omni-request-id"@;
    assert(forall|i: int| 0 <= i < t.len() ==> is_tchar(#[trigger] t[i]));
    assert(t.map_values(|c: char| lower_char(c)) =~= t);
}

/// The filter that a request goes to after filter `i` of a chain of `n`:
/// the next one, unless filter `i` answered the request or is the last.
pub fn next_request_filter(n: usize, i: usize, answered: bool) -> (r: Option<usize>)
    ensures
        r == (if answered || i + 1 >= n {
            None::<usize>
        } else {
            Some((i + 1) as usize)
        }),
{
    if answered || i >= n || n - i <= 1 {
        None
    } else {
        Some(i + 1)
    }
}

/// The order in which a response goes through a chain of `n` filters: from
/// the last to the first.
pub fn response_order(n: usize) -> (r: Vec<usize>)
    ensures
        r@ == Seq::new(n as nat, |k: int| (n - 1 - k) as usize),
{
    let mut out: Vec<usize> = Vec::new();
    let mut k: usize = 0;
    while k < n
        invariant
            k <= n,
            out@ == Seq::new(k as nat, |j: int| (n - 1 - j) as usize),
        decreases n - k,
    {
        out.push(n - 1 - k);
        k = k + 1;
        assert(out@ =~= Seq::new(k as nat, |j: int| (n - 1 - j) as usize));
    }
    out
}

} // verus!
