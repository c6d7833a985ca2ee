//! Character-level text helpers used by the parsers of this crate.
//!
//! Text is modelled as `Seq<char>` (the view of `str` and `String`).
//! Ranges `[lo, hi)` of a sequence are used so that parsers can work on
//! slices of one character vector without copying.
use vstd::prelude::*;

verus! {

/// The Unicode `White_Space` property, which is what `char::is_whitespace`
/// and `str::trim` use.
pub open spec fn is_ws(c: char) -> bool {
    let u = c as u32;
    ||| 0x09 <= u <= 0x0d
    ||| u == 0x20
    ||| u == 0x85
    ||| u == 0xa0
    ||| u == 0x1680
    ||| 0x2000 <= u <= 0x200a
    ||| u == 0x2028
    ||| u == 0x2029
    ||| u == 0x202f
    ||| u == 0x205f
    ||| u == 0x3000
}

/// Executable whitespace test.
pub fn is_whitespace(c: char) -> (r: bool)
    ensures
        r == is_ws(c),
{
    let u = c as u32;
    (0x09 <= u && u <= 0x0d) || u == 0x20 || u == 0x85 || u == 0xa0 || u == 0x1680 || (0x2000
        <= u && u <= 0x200a) || u == 0x2028 || u == 0x2029 || u == 0x202f || u == 0x205f || u
        == 0x3000
}

/// First index in `[i, hi)` that does not hold a character satisfying `p`
/// (or `hi` when there is none): the end of a leading run.
pub open spec fn skip_fwd(s: Seq<char>, i: int, hi: int, p: spec_fn(char) -> bool) -> int
    decreases hi - i,
{
    if i < hi && p(s[i]) {
        skip_fwd(s, i + 1, hi, p)
    } else {
        i
    }
}

/// Start of the trailing run of characters satisfying `p` in `[lo, j)`.
pub open spec fn skip_back(s: Seq<char>, lo: int, j: int, p: spec_fn(char) -> bool) -> int
    decreases j - lo,
{
    if lo < j && p(s[j - 1]) {
        skip_back(s, lo, j - 1, p)
    } else {
        j
    }
}

pub open spec fn ws_pred() -> spec_fn(char) -> bool {
    |c: char| is_ws(c)
}

pub open spec fn quote_pred() -> spec_fn(char) -> bool {
    |c: char| c == '"'
}

/// Start of `s[lo..hi].trim()`, as an index of `s`.
pub open spec fn trim_lo(s: Seq<char>, lo: int, hi: int) -> int {
    skip_fwd(s, lo, hi, ws_pred())
}

/// End of `s[lo..hi].trim()`, as an index of `s`.
pub open spec fn trim_hi(s: Seq<char>, lo: int, hi: int) -> int {
    skip_back(s, trim_lo(s, lo, hi), hi, ws_pred())
}

/// `str::trim` on a whole sequence.
pub open spec fn trim(s: Seq<char>) -> Seq<char> {
    s.subrange(trim_lo(s, 0, s.len() as int), trim_hi(s, 0, s.len() as int))
}

pub proof fn lemma_skip_fwd_bounds(s: Seq<char>, i: int, hi: int, p: spec_fn(char) -> bool)
    requires
        i <= hi,
    ensures
        i <= skip_fwd(s, i, hi, p) <= hi,
        forall|k: int| i <= k < skip_fwd(s, i, hi, p) ==> p(#[trigger] s[k]),
        skip_fwd(s, i, hi, p) < hi ==> !p(s[skip_fwd(s, i, hi, p)]),
    decreases hi - i,
{
    if i < hi && p(s[i]) {
        lemma_skip_fwd_bounds(s, i + 1, hi, p);
    }
}

pub proof fn lemma_skip_back_bounds(s: Seq<char>, lo: int, j: int, p: spec_fn(char) -> bool)
    requires
        lo <= j,
    ensures
        lo <= skip_back(s, lo, j, p) <= j,
        forall|k: int| skip_back(s, lo, j, p) <= k < j ==> p(#[trigger] s[k]),
        lo < skip_back(s, lo, j, p) ==> !p(s[skip_back(s, lo, j, p) - 1]),
    decreases j - lo,
{
    if lo < j && p(s[j - 1]) {
        lemma_skip_back_bounds(s, lo, j - 1, p);
    }
}

pub proof fn lemma_trim_bounds(s: Seq<char>, lo: int, hi: int)
    requires
        lo <= hi,
    ensures
        lo <= trim_lo(s, lo, hi) <= trim_hi(s, lo, hi) <= hi,
{
    lemma_skip_fwd_bounds(s, lo, hi, ws_pred());
    lemma_skip_back_bounds(s, trim_lo(s, lo, hi), hi, ws_pred());
}

proof fn lemma_skip_fwd_sub(s: Seq<char>, a: int, c: int, i: int, p: spec_fn(char) -> bool)
    requires
        0 <= a <= i <= c <= s.len(),
    ensures
        skip_fwd(s.subrange(a, c), i - a, c - a, p) == skip_fwd(s, i, c, p) - a,
    decreases c - i,
{
    if i < c && p(s[i]) {
        lemma_skip_fwd_sub(s, a, c, i + 1, p);
    }
}

proof fn lemma_skip_back_sub(s: Seq<char>, a: int, c: int, lo: int, j: int, p: spec_fn(char) -> bool)
    requires
        0 <= a <= lo <= j <= c <= s.len(),
    ensures
        skip_back(s.subrange(a, c), lo - a, j - a, p) == skip_back(s, lo, j, p) - a,
    decreases j - lo,
{
    if lo < j && p(s[j - 1]) {
        lemma_skip_back_sub(s, a, c, lo, j - 1, p);
    }
}

/// Trimming a slice is taking the trimmed range of the whole sequence.
pub proof fn lemma_trim_sub(s: Seq<char>, a: int, c: int)
    requires
        0 <= a <= c <= s.len(),
    ensures
        trim(s.subrange(a, c)) == s.subrange(trim_lo(s, a, c), trim_hi(s, a, c)),
{
    let t = s.subrange(a, c);
    lemma_skip_fwd_sub(s, a, c, a, ws_pred());
    lemma_trim_bounds(s, a, c);
    lemma_skip_back_sub(s, a, c, trim_lo(s, a, c), c, ws_pred());
    assert(trim_lo(t, 0, t.len() as int) == trim_lo(s, a, c) - a);
    assert(trim_hi(t, 0, t.len() as int) == trim_hi(s, a, c) - a);
    assert(trim(t) =~= s.subrange(trim_lo(s, a, c), trim_hi(s, a, c)));
}

/// Collects the characters of a string slice into a vector.
pub fn chars_of(s: &str) -> (v: Vec<char>)
    ensures
        v@ == s@,
{
    let mut v: Vec<char> = Vec::new();
    for c in it: s.chars()
        invariant
            v@ == it.seq().take(it.index() as int),
    {
        v.push(c);
    }
    v
}

/// Skips leading whitespace of `v[lo..hi]`.
pub fn skip_ws_fwd(v: &Vec<char>, lo: usize, hi: usize) -> (r: usize)
    requires
        lo <= hi <= v.len(),
    ensures
        r == skip_fwd(v@, lo as int, hi as int, ws_pred()),
{
    let mut i = lo;
    while i < hi && is_whitespace(v[i])
        invariant
            lo <= i <= hi <= v.len(),
            skip_fwd(v@, i as int, hi as int, ws_pred()) == skip_fwd(
                v@,
                lo as int,
                hi as int,
                ws_pred(),
            ),
        decreases hi - i,
    {
        i = i + 1;
    }
    i
}

/// Skips trailing whitespace of `v[lo..hi]`.
pub fn skip_ws_back(v: &Vec<char>, lo: usize, hi: usize) -> (r: usize)
    requires
        lo <= hi <= v.len(),
    ensures
        r == skip_back(v@, lo as int, hi as int, ws_pred()),
{
    let mut j = hi;
    while lo < j && is_whitespace(v[j - 1])
        invariant
            lo <= j <= hi <= v.len(),
            skip_back(v@, lo as int, j as int, ws_pred()) == skip_back(
                v@,
                lo as int,
                hi as int,
                ws_pred(),
            ),
        decreases j - lo,
    {
        j = j - 1;
    }
    j
}

/// `v[lo..hi].trim()` as a range of `v`.
pub fn trim_range(v: &Vec<char>, lo: usize, hi: usize) -> (r: (usize, usize))
    requires
        lo <= hi <= v.len(),
    ensures
        r.0 == trim_lo(v@, lo as int, hi as int),
        r.1 == trim_hi(v@, lo as int, hi as int),
        lo <= r.0 <= r.1 <= hi,
{
    proof {
        lemma_trim_bounds(v@, lo as int, hi as int);
    }
    let a = skip_ws_fwd(v, lo, hi);
    let b = skip_ws_back(v, a, hi);
    (a, b)
}

/// Whether `v[lo..hi]` equals `pat`.
pub fn range_eq(v: &Vec<char>, lo: usize, hi: usize, pat: &Vec<char>) -> (r: bool)
    requires
        lo <= hi <= v.len(),
    ensures
        r == (v@.subrange(lo as int, hi as int) == pat@),
{
    if hi - lo != pat.len() {
        return false;
    }
    let n = pat.len();
    let mut k: usize = 0;
    while k < n
        invariant
            n == pat.len(),
            hi - lo == n,
            lo <= hi <= v.len(),
            k <= n,
            forall|j: int| 0 <= j < k ==> v@[lo + j] == pat@[j],
        decreases n - k,
    {
        if v[lo + k] != pat[k] {
            assert(v@.subrange(lo as int, hi as int)[k as int] != pat@[k as int]);
            return false;
        }
        k = k + 1;
    }
    assert(v@.subrange(lo as int, hi as int) =~= pat@);
    true
}

/// First `i` in `[from, hi - pat.len()]` with `s[i..i + pat.len()] == pat`.
pub open spec fn find_from(s: Seq<char>, from: int, hi: int, pat: Seq<char>) -> Option<int>
    decreases hi - from + 1,
{
    if from + pat.len() <= hi {
        if s.subrange(from, from + pat.len()) == pat {
            Some(from)
        } else {
            find_from(s, from + 1, hi, pat)
        }
    } else {
        None
    }
}

pub proof fn lemma_find_from_bounds(s: Seq<char>, from: int, hi: int, pat: Seq<char>)
    ensures
        find_from(s, from, hi, pat) matches Some(i) ==> from <= i && i + pat.len() <= hi
            && s.subrange(i, i + pat.len()) == pat,
        find_from(s, from, hi, pat) is None ==> forall|i: int|
            from <= i && i + pat.len() <= hi ==> #[trigger] s.subrange(i, i + pat.len()) != pat,
    decreases hi - from + 1,
{
    if from + pat.len() <= hi {
        if s.subrange(from, from + pat.len()) != pat {
            lemma_find_from_bounds(s, from + 1, hi, pat);
        }
    }
}

/// Exec counterpart of [`find_from`].
pub fn find_in_range(v: &Vec<char>, lo: usize, hi: usize, pat: &Vec<char>) -> (r: Option<usize>)
    requires
        lo <= hi <= v.len(),
    ensures
        match r {
            Some(i) => find_from(v@, lo as int, hi as int, pat@) == Some(i as int),
            None => find_from(v@, lo as int, hi as int, pat@) is None,
        },
{
    let n = pat.len();
    if n > hi - lo {
        return None;
    }
    let last = hi - n;
    let mut i = lo;
    while i <= last
        invariant
            n == pat.len(),
            last == hi - n,
            lo <= i <= last + 1,
            lo <= hi <= v.len(),
            n <= hi - lo,
            find_from(v@, i as int, hi as int, pat@) == find_from(v@, lo as int, hi as int, pat@),
        decreases last + 1 - i,
    {
        if range_eq(v, i, i + n, pat) {
            return Some(i);
        }
        if i == last {
            return None;
        }
        i = i + 1;
    }
    None
}

/// `hay` contains `needle` as a contiguous subsequence (`str::contains`).
pub open spec fn seq_contains(hay: Seq<char>, needle: Seq<char>) -> bool {
    exists|i: int|
        0 <= i && i + needle.len() <= hay.len() && #[trigger] hay.subrange(i, i + needle.len())
            == needle
}

/// `str::contains` with a string pattern.
pub fn str_contains(hay: &str, needle: &str) -> (r: bool)
    ensures
        r == seq_contains(hay@, needle@),
{
    let h = chars_of(hay);
    let n = chars_of(needle);
    let found = find_in_range(&h, 0, h.len(), &n);
    proof {
        lemma_find_from_bounds(h@, 0, h@.len() as int, n@);
        assert(h@.subrange(0, h@.len() as int) =~= h@);
    }
    match found {
        Some(i) => {
            assert(h@.subrange(i as int, i + n@.len()) == n@);
            true
        },
        None => false,
    }
}


pub open spec fn is_digit(c: char) -> bool {
    '0' <= c && c <= '9'
}

pub open spec fn digit_val(c: char) -> int {
    c as int - '0' as int
}

/// Decimal value of a sequence of digits.
pub open spec fn digits_value(s: Seq<char>) -> int
    decreases s.len(),
{
    if s.len() == 0 {
        0
    } else {
        digits_value(s.drop_last()) * 10 + digit_val(s.last())
    }
}

pub open spec fn all_digits(s: Seq<char>) -> bool {
    forall|i: int| 0 <= i < s.len() ==> is_digit(#[trigger] s[i])
}

/// Decimal integer parsing as `FromStr` does it for an integer type whose
/// range is `[min, max]`: an optional `+` (or `-` for signed types), then
/// at least one ASCII digit, and a value inside the range.
pub open spec fn parse_int(s: Seq<char>, min: int, max: int) -> Option<int> {
    if s.len() == 0 {
        None
    } else {
        let neg = s[0] == '-' && min < 0;
        let digits = if s[0] == '+' || neg {
            s.drop_first()
        } else {
            s
        };
        if digits.len() == 0 || !all_digits(digits) {
            None
        } else {
            let v = if neg {
                -digits_value(digits)
            } else {
                digits_value(digits)
            };
            if min <= v && v <= max {
                Some(v)
            } else {
                None
            }
        }
    }
}

pub proof fn lemma_digits_value_nonneg(s: Seq<char>)
    requires
        all_digits(s),
    ensures
        digits_value(s) >= 0,
    decreases s.len(),
{
    if s.len() > 0 {
        assert(all_digits(s.drop_last()));
        lemma_digits_value_nonneg(s.drop_last());
        assert(is_digit(s[s.len() - 1]));
    }
}

pub proof fn lemma_digits_value_prefix(s: Seq<char>, k: int)
    requires
        all_digits(s),
        0 <= k <= s.len(),
    ensures
        digits_value(s.subrange(0, k)) <= digits_value(s),
    decreases s.len() - k,
{
    if k < s.len() {
        let p1 = s.subrange(0, k + 1);
        assert(p1.drop_last() =~= s.subrange(0, k));
        assert(all_digits(s.subrange(0, k)));
        lemma_digits_value_nonneg(s.subrange(0, k));
        assert(is_digit(p1.last()));
        lemma_digits_value_prefix(s, k + 1);
    } else {
        assert(s.subrange(0, k) =~= s);
    }
}

/// Parses `v[lo..hi]` as a decimal integer of a type with range
/// `[-(neg_limit), pos_limit]` (`neg_limit == 0` for unsigned types).
pub fn parse_int_range(v: &Vec<char>, lo: usize, hi: usize, neg_limit: u64, pos_limit: u64) -> (r:
    Option<i128>)
    requires
        lo <= hi <= v.len(),
    ensures
        match r {
            Some(x) => parse_int(
                v@.subrange(lo as int, hi as int),
                -(neg_limit as int),
                pos_limit as int,
            ) == Some(x as int),
            None => parse_int(
                v@.subrange(lo as int, hi as int),
                -(neg_limit as int),
                pos_limit as int,
            ) is None,
        },
{
    let ghost s = v@.subrange(lo as int, hi as int);
    if lo == hi {
        return None;
    }
    let neg = v[lo] == '-' && neg_limit > 0;
    let start = if v[lo] == '+' || neg {
        lo + 1
    } else {
        lo
    };
    let ghost digits = v@.subrange(start as int, hi as int);
    assert(digits =~= (if s[0] == '+' || neg {
        s.drop_first()
    } else {
        s
    }));
    if start == hi {
        return None;
    }
    let limit: i128 = if neg {
        neg_limit as i128
    } else {
        pos_limit as i128
    };
    let mut acc: i128 = 0;
    let mut i = start;
    while i < hi
        invariant
            start <= i <= hi <= v.len(),
            digits == v@.subrange(start as int, hi as int),
            s == v@.subrange(lo as int, hi as int),
            s.len() > 0,
            neg == (s[0] == '-' && neg_limit > 0),
            digits == (if s[0] == '+' || neg {
                s.drop_first()
            } else {
                s
            }),
            limit == (if neg {
                neg_limit as int
            } else {
                pos_limit as int
            }),
            0 <= acc <= limit,
            limit <= u64::MAX,
            all_digits(digits.subrange(0, i - start)),
            acc == digits_value(digits.subrange(0, i - start)),
        decreases hi - i,
    {
        let c = v[i];
        if !('0' <= c && c <= '9') {
            assert(!is_digit(digits[i - start]));
            assert(!all_digits(digits));
            return None;
        }
        let d = (c as u32 - '0' as u32) as i128;
        let ghost p = digits.subrange(0, i - start + 1);
        assert(p.drop_last() =~= digits.subrange(0, i - start));
        assert(p.last() == c);
        acc = acc * 10 + d;
        assert(all_digits(p));
        if acc > limit {
            proof {
                if all_digits(digits) {
                    lemma_digits_value_prefix(digits, i - start + 1);
                }
            }
            return None;
        }
        i = i + 1;
    }
    assert(digits.subrange(0, hi - start) =~= digits);
    if neg {
        Some(-acc)
    } else {
        Some(acc)
    }
}


/// `String::push`, which vstd gives no specification.
#[verifier::external_body]
pub(crate) fn push_char(s: &mut String, c: char)
    ensures
        final(s)@ == old(s)@.push(c),
{
    s.push(c);
}

/// The characters `v[lo..hi]` as a `String`.
pub fn string_from_range(v: &Vec<char>, lo: usize, hi: usize) -> (r: String)
    requires
        lo <= hi <= v.len(),
    ensures
        r@ == v@.subrange(lo as int, hi as int),
{
    let mut out = String::new();
    let mut i = lo;
    while i < hi
        invariant
            lo <= i <= hi <= v.len(),
            out@ == v@.subrange(lo as int, i as int),
        decreases hi - i,
    {
        push_char(&mut out, v[i]);
        assert(v@.subrange(lo as int, i + 1) =~= v@.subrange(lo as int, i as int).push(v@[i as int]));
        i = i + 1;
    }
    out
}

/// Skips leading `"` characters of `v[lo..hi]`.
pub fn skip_quotes_fwd(v: &Vec<char>, lo: usize, hi: usize) -> (r: usize)
    requires
        lo <= hi <= v.len(),
    ensures
        r == skip_fwd(v@, lo as int, hi as int, quote_pred()),
        lo <= r <= hi,
{
    proof {
        lemma_skip_fwd_bounds(v@, lo as int, hi as int, quote_pred());
    }
    let mut i = lo;
    while i < hi && v[i] == '"'
        invariant
            lo <= i <= hi <= v.len(),
            skip_fwd(v@, i as int, hi as int, quote_pred()) == skip_fwd(
                v@,
                lo as int,
                hi as int,
                quote_pred(),
            ),
        decreases hi - i,
    {
        i = i + 1;
    }
    i
}

/// Skips trailing `"` characters of `v[lo..hi]`.
pub fn skip_quotes_back(v: &Vec<char>, lo: usize, hi: usize) -> (r: usize)
    requires
        lo <= hi <= v.len(),
    ensures
        r == skip_back(v@, lo as int, hi as int, quote_pred()),
        lo <= r <= hi,
{
    proof {
        lemma_skip_back_bounds(v@, lo as int, hi as int, quote_pred());
    }
    let mut j = hi;
    while lo < j && v[j - 1] == '"'
        invariant
            lo <= j <= hi <= v.len(),
            skip_back(v@, lo as int, j as int, quote_pred()) == skip_back(
                v@,
                lo as int,
                hi as int,
                quote_pred(),
            ),
        decreases j - lo,
    {
        j = j - 1;
    }
    j
}


/// The digit character for `d < 10`.
pub open spec fn digit_char(d: int) -> char {
    (48 + d) as char
}

/// Decimal representation of a natural number, without leading zeros.
pub open spec fn decimal(n: nat) -> Seq<char>
    decreases n,
{
    if n < 10 {
        seq![digit_char(n as int)]
    } else {
        decimal(n / 10).push(digit_char((n % 10) as int))
    }
}

fn digit_to_char(d: u64) -> (c: char)
    requires
        d < 10,
    ensures
        c == digit_char(d as int),
{
    ((d as u8) + 48u8) as char
}

/// Appends the decimal representation of `n` to `out`.
pub fn push_decimal(out: &mut String, n: u64)
    ensures
        final(out)@ == old(out)@ + decimal(n as nat),
    decreases n,
{
    if n >= 10 {
        push_decimal(out, n / 10);
    }
    let c = digit_to_char(n % 10);
    push_char(out, c);
    proof {
        if n < 10 {
            assert(n % 10 == n);
        }
    }
    assert(final(out)@ =~= old(out)@ + decimal(n as nat));
}

/// Appends `s` to `out` (`String::push_str`).
pub fn push_str(out: &mut String, s: &str)
    ensures
        final(out)@ == old(out)@ + s@,
{
    let v = chars_of(s);
    let n = v.len();
    let mut i: usize = 0;
    while i < n
        invariant
            n == v.len(),
            v@ == s@,
            i <= n,
            out@ == old(out)@ + s@.subrange(0, i as int),
        decreases n - i,
    {
        push_char(out, v[i]);
        assert(s@.subrange(0, i + 1) =~= s@.subrange(0, i as int).push(s@[i as int]));
        i = i + 1;
    }
    assert(s@.subrange(0, n as int) =~= s@);
}

/// Last `k` in `[lo, j)` with `s[k] == c`.
pub open spec fn rfind_char(s: Seq<char>, lo: int, j: int, c: char) -> Option<int>
    decreases j - lo,
{
    if lo < j {
        if s[j - 1] == c {
            Some(j - 1)
        } else {
            rfind_char(s, lo, j - 1, c)
        }
    } else {
        None
    }
}

pub proof fn lemma_rfind_char_bounds(s: Seq<char>, lo: int, j: int, c: char)
    ensures
        rfind_char(s, lo, j, c) matches Some(k) ==> lo <= k < j && s[k] == c,
    decreases j - lo,
{
    if lo < j && s[j - 1] != c {
        lemma_rfind_char_bounds(s, lo, j - 1, c);
    }
}

/// Exec counterpart of [`rfind_char`].
pub fn rfind_char_range(v: &Vec<char>, lo: usize, hi: usize, c: char) -> (r: Option<usize>)
    requires
        lo <= hi <= v.len(),
    ensures
        match r {
            Some(k) => rfind_char(v@, lo as int, hi as int, c) == Some(k as int) && lo <= k < hi,
            None => rfind_char(v@, lo as int, hi as int, c) is None,
        },
{
    let mut j = hi;
    while lo < j
        invariant
            lo <= j <= hi <= v.len(),
            rfind_char(v@, lo as int, j as int, c) == rfind_char(v@, lo as int, hi as int, c),
        decreases j - lo,
    {
        if v[j - 1] == c {
            return Some(j - 1);
        }
        j = j - 1;
    }
    None
}

pub open spec fn newline() -> Seq<char> {
    seq!['\n']
}

/// End of the line that starts at `i` (the next `\n`, or the end of the text).
pub open spec fn line_end(s: Seq<char>, i: int) -> int {
    match find_from(s, i, s.len() as int, newline()) {
        Some(k) => k,
        None => s.len() as int,
    }
}

pub proof fn lemma_line_end(s: Seq<char>, i: int)
    requires
        0 <= i < s.len(),
    ensures
        i <= line_end(s, i) <= s.len(),
{
    lemma_find_from_bounds(s, i, s.len() as int, newline());
}



/// Exec counterpart of [`line_end`].
pub fn line_end_exec(v: &Vec<char>, i: usize) -> (e: usize)
    requires
        i < v.len(),
    ensures
        e == line_end(v@, i as int),
        i <= e <= v.len(),
{
    proof {
        lemma_line_end(v@, i as int);
    }
    let nl = vec!['\n'];
    assert(nl@ =~= newline());
    match find_in_range(v, i, v.len(), &nl) {
        Some(k) => k,
        None => v.len(),
    }
}

/// Whether some string of `v` equals `s`.
pub fn contains_string(v: &Vec<String>, s: &String) -> (r: bool)
    ensures
        r == exists|i: int| 0 <= i < v.len() && (#[trigger] v@[i])@ == s@,
{
    let n = v.len();
    let mut i: usize = 0;
    while i < n
        invariant
            n == v.len(),
            i <= n,
            forall|j: int| 0 <= j < i ==> (#[trigger] v@[j])@ != s@,
        decreases n - i,
    {
        if v[i] == *s {
            return true;
        }
        i = i + 1;
    }
    false
}

/// `s[lo..hi].trim()` as a new `String`.
pub fn trimmed_string(v: &Vec<char>, lo: usize, hi: usize) -> (r: String)
    requires
        lo <= hi <= v.len(),
    ensures
        r@ == v@.subrange(trim_lo(v@, lo as int, hi as int), trim_hi(v@, lo as int, hi as int)),
{
    let (a, b) = trim_range(v, lo, hi);
    string_from_range(v, a, b)
}

/// `s.trim()` as a new `String`.
pub fn trim_to_string(s: &str) -> (r: String)
    ensures
        r@ == trim(s@),
{
    let v = chars_of(s);
    trimmed_string(&v, 0, v.len())
}


/// Searching a sub-range is searching the whole sequence, shifted.
pub proof fn lemma_find_from_shift(v: Seq<char>, lo: int, hi: int, from: int, pat: Seq<char>)
    requires
        0 <= lo <= from,
        lo <= hi <= v.len(),
    ensures
        match find_from(v, from, hi, pat) {
            Some(k) => find_from(v.subrange(lo, hi), from - lo, hi - lo, pat) == Some(k - lo),
            None => find_from(v.subrange(lo, hi), from - lo, hi - lo, pat) is None,
        },
    decreases hi - from + 1,
{
    let s = v.subrange(lo, hi);
    if from + pat.len() <= hi {
        assert(s.subrange(from - lo, from - lo + pat.len()) =~= v.subrange(from, from + pat.len()));
        if v.subrange(from, from + pat.len()) != pat {
            lemma_find_from_shift(v, lo, hi, from + 1, pat);
        }
    }
}


/// `s.starts_with(p)`.
pub fn str_starts_with(s: &str, p: &str) -> (r: bool)
    ensures
        r == (p@.len() <= s@.len() && s@.subrange(0, p@.len() as int) == p@),
{
    let v = chars_of(s);
    let pv = chars_of(p);
    pv.len() <= v.len() && range_eq(&v, 0, pv.len(), &pv)
}

} // verus!
