//! Host extraction from absolute `http://` / `https://` URIs.
use vstd::prelude::*;
use crate::text::{
    chars_of, find_from, find_in_range, lemma_find_from_bounds, lemma_find_from_shift, range_eq,
    string_from_range,
};

verus! {

/// `p` is a prefix of `s`.
pub open spec fn has_prefix(s: Seq<char>, p: Seq<char>) -> bool {
    p.len() <= s.len() && s.subrange(0, p.len() as int) == p
}

/// `s` up to (not including) its first `c`, or all of `s`.
pub open spec fn before_char(s: Seq<char>, c: char) -> Seq<char> {
    match find_from(s, 0, s.len() as int, seq![c]) {
        Some(k) => s.subrange(0, k),
        None => s,
    }
}

/// The host of an absolute `http://` or `https://` URI: the text after the
/// scheme, up to the first `/` and then up to the first `:`.
pub open spec fn host_of_uri(u: Seq<char>) -> Option<Seq<char>> {
    let rest = if has_prefix(u, "http://"@) {
        Some(u.subrange("http://"@.len() as int, u.len() as int))
    } else if has_prefix(u, "https://"@) {
        Some(u.subrange("https://"@.len() as int, u.len() as int))
    } else {
        None
    };
    match rest {
        Some(r) => Some(before_char(before_char(r, '/'), ':')),
        None => None,
    }
}

fn prefix_end(v: &Vec<char>, p: &str) -> (r: Option<usize>)
    ensures
        match r {
            Some(k) => has_prefix(v@, p@) && k == p@.len(),
            None => !has_prefix(v@, p@),
        },
{
    let pv = chars_of(p);
    if pv.len() <= v.len() && range_eq(v, 0, pv.len(), &pv) {
        Some(pv.len())
    } else {
        None
    }
}

/// Index of the first `c` in `v[lo..hi]`, or `hi`.
fn upto_char(v: &Vec<char>, lo: usize, hi: usize, c: char) -> (r: usize)
    requires
        lo <= hi <= v.len(),
    ensures
        lo <= r <= hi,
        v@.subrange(lo as int, r as int) == before_char(v@.subrange(lo as int, hi as int), c),
{
    let cv = vec![c];
    let ghost s = v@.subrange(lo as int, hi as int);
    proof {
        lemma_find_from_bounds(v@, lo as int, hi as int, seq![c]);
        lemma_find_from_shift(v@, lo as int, hi as int, lo as int, seq![c]);
        assert(cv@ =~= seq![c]);
    }
    let r = match find_in_range(v, lo, hi, &cv) {
        Some(k) => k,
        None => hi,
    };
    proof {
        match find_from(v@, lo as int, hi as int, seq![c]) {
            Some(k) => {
                assert(s.subrange(0, k - lo) =~= v@.subrange(lo as int, k));
            },
            None => {},
        }
    }
    r
}

/// The host of an absolute `http://` or `https://` URI (see [`host_of_uri`]).
pub fn parse_host_from_uri(uri: &str) -> (r: Option<String>)
    ensures
        match r {
            Some(h) => host_of_uri(uri@) == Some(h@),
            None => host_of_uri(uri@) is None,
        },
{
    let v = chars_of(uri);
    let start = match prefix_end(&v, "http://") {
        Some(k) => k,
        None => match prefix_end(&v, "https://") {
            Some(k) => k,
            None => return None,
        },
    };
    let n = v.len();
    let a = upto_char(&v, start, n, '/');
    let b = upto_char(&v, start, a, ':');
    proof {
        let r = v@.subrange(start as int, n as int);
        let ra = v@.subrange(start as int, a as int);
        assert(r == uri@.subrange(start as int, uri@.len() as int));
        assert(v@.subrange(start as int, b as int) == before_char(ra, ':'));
    }
    Some(string_from_range(&v, start, b))
}

} // verus!
