//! Replaying captured requests: what is sent (method, URI, headers, body),
//! the equivalent `curl` command, which candidates are chosen, and how the
//! live response compares with the captured one.
use vstd::prelude::*;
use vstd::utf8::{decode_utf8, encode_utf8, valid_utf8};
use reqwest::header::{HeaderMap, HeaderValue};
use crate::headers::{
    build_headers, header_entries, header_items, header_value_visible, built_headers, pair_texts,
    header_limit_reached, string_texts, HeaderError, HeaderOutcome,
};
use crate::text::{
    chars_of, find_from, find_in_range, lemma_find_from_bounds, lemma_skip_back_bounds, push_char, push_str,
    skip_back, str_starts_with, string_from_range, trim, trim_to_string,
};
use crate::uri::has_prefix;
use crate::digest::{hash_bytes, hash_headers, header_bytes, hex, sha256_digest};
use crate::order::{pair_order, pairs_view, sort_pairs};
use crate::replay::{candidates_view, CandidateModel, ReplayCandidate, ResponseSnapshot};
use crate::report::{first_n, is_connect, is_connect_method};
use vstd::string::StrSliceExecFns;

verus! {

/// The text quoted for a POSIX shell between single quotes: each `'`
/// becomes `'"'"'`.
pub open spec fn shell_escaped(s: Seq<char>) -> Seq<char>
    decreases s.len(),
{
    if s.len() == 0 {
        Seq::empty()
    } else if s.last() == '\'' {
        shell_escaped(s.drop_last()) + "'\"'\"'"@
    } else {
        shell_escaped(s.drop_last()).push(s.last())
    }
}

/// `s.replace('\'', "'\"'\"'")`.
pub fn shell_escape_single(s: &str) -> (r: String)
    ensures
        r@ == shell_escaped(s@),
{
    let v = chars_of(s);
    let mut out = String::new();
    let mut i: usize = 0;
    assert(v@.take(0) =~= Seq::<char>::empty());
    while i < v.len()
        invariant
            v@ == s@,
            i <= v.len(),
            out@ == shell_escaped(v@.take(i as int)),
        decreases v.len() - i,
    {
        assert(v@.take(i + 1).drop_last() =~= v@.take(i as int));
        if v[i] == '\'' {
            push_str(&mut out, "'\"'\"'");
        } else {
            push_char(&mut out, v[i]);
        }
        i = i + 1;
    }
    assert(v@.take(v.len() as int) =~= v@);
    out
}

/// `std::str::from_utf8`: the text the bytes encode, `None` when they are
/// not UTF-8.
#[verifier::external_body]
fn utf8_text(bytes: &[u8]) -> (r: Option<String>)
    ensures
        match r {
            Some(t) => valid_utf8(bytes@) && t@ == decode_utf8(bytes@),
            None => !valid_utf8(bytes@),
        },
{
    std::str::from_utf8(bytes).ok().map(|t| t.to_owned())
}

/// The `-H` options of the headers whose values are visible text.
pub open spec fn curl_headers(entries: Seq<(Seq<char>, Seq<char>)>) -> Seq<char>
    decreases entries.len(),
{
    if entries.len() == 0 {
        Seq::empty()
    } else {
        let e = entries.last();
        curl_headers(entries.drop_last()) + if header_value_visible(e.1) {
            " -H '"@ + e.0 + ": "@ + shell_escaped(e.1) + "'"@
        } else {
            Seq::empty()
        }
    }
}

/// The `curl` command that sends the same request.
pub open spec fn curl_text(
    method: Seq<char>,
    uri: Seq<char>,
    entries: Seq<(Seq<char>, Seq<char>)>,
    body: Option<Seq<u8>>,
) -> Seq<char> {
    "curl -X "@ + method + " '"@ + uri + "'"@ + curl_headers(entries) + match body {
        Some(b) => if valid_utf8(b) {
            " --data-raw '"@ + shell_escaped(decode_utf8(b)) + "'"@
        } else {
            " --data-binary '<non-utf8-body>'"@
        },
        None => Seq::empty(),
    }
}

/// The `curl` command that sends `method` to `uri` with `headers` and `body`.
pub fn render_curl(method: &str, uri: &str, headers: &HeaderMap<HeaderValue>, body: &Option<Vec<u8>>) -> (r: String)
    ensures
        r@ == curl_text(
            method@,
            uri@,
            header_entries(*headers),
            match body {
                Some(b) => Some(b@),
                None => None,
            },
        ),
{
    let mut out = String::new();
    push_str(&mut out, "curl -X ");
    push_str(&mut out, method);
    push_str(&mut out, " '");
    push_str(&mut out, uri);
    push_str(&mut out, "'");
    let ghost head = out@;
    let items = header_items(headers);
    let ghost entries = header_entries(*headers);
    let mut i: usize = 0;
    assert(entries.take(0) =~= Seq::<(Seq<char>, Seq<char>)>::empty());
    while i < items.len()
        invariant
            items@.len() == entries.len(),
            forall|k: int|
                0 <= k < items@.len() ==> {
                    &&& (#[trigger] items@[k]).0@ == entries[k].0
                    &&& match items@[k].1 {
                        Some(v) => header_value_visible(entries[k].1) && v@ == entries[k].1,
                        None => !header_value_visible(entries[k].1),
                    }
                },
            i <= items.len(),
            out@ == head + curl_headers(entries.take(i as int)),
        decreases items.len() - i,
    {
        assert(entries.take(i + 1).drop_last() =~= entries.take(i as int));
        let ghost before = out@;
        match &items[i].1 {
            Some(v) => {
                push_str(&mut out, " -H '");
                push_str(&mut out, items[i].0.as_str());
                push_str(&mut out, ": ");
                let esc = shell_escape_single(v.as_str());
                push_str(&mut out, esc.as_str());
                push_str(&mut out, "'");
                assert(out@ =~= before + (" -H '"@ + entries[i as int].0 + ": "@ + shell_escaped(
                    entries[i as int].1,
                ) + "'"@));
            },
            None => {
                assert(out@ =~= before + Seq::<char>::empty());
            },
        }
        i = i + 1;
    }
    assert(entries.take(items.len() as int) =~= entries);
    let ghost mid = out@;
    match body {
        Some(bytes) => match utf8_text(bytes.as_slice()) {
            Some(text) => {
                push_str(&mut out, " --data-raw '");
                let esc = shell_escape_single(text.as_str());
                push_str(&mut out, esc.as_str());
                push_str(&mut out, "'");
            },
            None => {
                push_str(&mut out, " --data-binary '<non-utf8-body>'");
            },
        },
        None => {},
    }
    out
}

/// What `url::Url::parse` accepts.
pub uninterp spec fn url_accepted(uri: Seq<char>) -> bool;

/// The text of the URL parsed from `uri` once each pair has been appended
/// to its query (`query_pairs_mut().append_pair`, form-urlencoded).
pub uninterp spec fn url_with_query(uri: Seq<char>, pairs: Seq<(Seq<char>, Seq<char>)>) -> Seq<char>;

/// `reqwest::Url::parse(uri).is_ok()`.
#[verifier::external_body]
fn url_parses(uri: &str) -> (r: bool)
    ensures
        r == url_accepted(uri@),
{
    reqwest::Url::parse(uri).is_ok()
}

/// Parses `uri` with `reqwest::Url::parse`, appends each pair to its query
/// with `query_pairs_mut().append_pair`, and gives the URL's text.
#[verifier::external_body]
fn append_query_pairs(uri: &str, pairs: &Vec<(String, String)>) -> (r: String)
    requires
        url_accepted(uri@),
    ensures
        r@ == url_with_query(uri@, pair_texts(pairs@)),
{
    let mut url = match reqwest::Url::parse(uri) {
        Ok(u) => u,
        Err(_) => return uri.to_owned(),
    };
    for (k, v) in pairs.iter() {
        url.query_pairs_mut().append_pair(k, v);
    }
    url.to_string()
}

/// `item.split_once('=')`.
pub open spec fn split_eq(item: Seq<char>) -> Option<(Seq<char>, Seq<char>)> {
    match find_from(item, 0, item.len() as int, seq!['=']) {
        Some(p) => Some((item.subrange(0, p), item.subrange(p + 1, item.len() as int))),
        None => None,
    }
}

/// The index of the first query override without `=`, from `from` on.
pub open spec fn first_bad_query(items: Seq<Seq<char>>, from: int) -> Option<int>
    decreases items.len() - from,
{
    if from < 0 || from >= items.len() {
        None
    } else if split_eq(items[from]) is None {
        Some(from)
    } else {
        first_bad_query(items, from + 1)
    }
}

/// The `key=value` query overrides as trimmed pairs (all of them split).
pub open spec fn query_pairs(items: Seq<Seq<char>>) -> Seq<(Seq<char>, Seq<char>)> {
    items.map_values(
        |item: Seq<char>|
            match split_eq(item) {
                Some((k, v)) => (trim(k), trim(v)),
                None => (Seq::empty(), Seq::empty()),
            },
    )
}

/// Why a request cannot be replayed to the URI asked for.
#[derive(Debug)]
pub enum TargetError {
    /// The URI cannot be parsed to add query pairs (the URI).
    InvalidUrl(String),
    /// A query override is not `key=value` (the override).
    InvalidQuery(String),
    /// The URI is neither `http://` nor `https://` (the URI).
    NotAbsolute(String),
}

/// Where a replay goes, given the captured URI, the URI override and the
/// query overrides; `Err` with the error text's subject when it cannot.
pub enum TargetOutcome {
    Uri(Seq<char>),
    InvalidUrl(Seq<char>),
    InvalidQuery(Seq<char>),
    NotAbsolute(Seq<char>),
}

impl TargetError {
    pub open spec fn outcome(&self) -> TargetOutcome {
        match self {
            TargetError::InvalidUrl(s) => TargetOutcome::InvalidUrl(s@),
            TargetError::InvalidQuery(s) => TargetOutcome::InvalidQuery(s@),
            TargetError::NotAbsolute(s) => TargetOutcome::NotAbsolute(s@),
        }
    }
}

/// The URI override, or else the captured URI; with query overrides, the
/// URI must parse, each override must hold `=`, and the pairs are appended;
/// the result must be absolute.
pub open spec fn target_of(url_override: Option<Seq<char>>, captured: Seq<char>, queries: Seq<Seq<char>>) -> TargetOutcome {
    let base = match url_override {
        Some(u) => u,
        None => captured,
    };
    if queries.len() > 0 && !url_accepted(base) {
        TargetOutcome::InvalidUrl(base)
    } else if queries.len() > 0 && first_bad_query(queries, 0) is Some {
        TargetOutcome::InvalidQuery(queries[first_bad_query(queries, 0)->0])
    } else {
        let uri = if queries.len() > 0 {
            url_with_query(base, query_pairs(queries))
        } else {
            base
        };
        if has_prefix(uri, "http://"@) || has_prefix(uri, "https://"@) {
            TargetOutcome::Uri(uri)
        } else {
            TargetOutcome::NotAbsolute(uri)
        }
    }
}

proof fn lemma_first_bad_query(items: Seq<Seq<char>>, from: int)
    requires
        0 <= from,
    ensures
        match first_bad_query(items, from) {
            Some(k) => from <= k < items.len() && split_eq(items[k]) is None,
            None => forall|j: int| from <= j < items.len() ==> split_eq(#[trigger] items[j]) is Some,
        },
    decreases items.len() - from,
{
    if from < items.len() && split_eq(items[from]) is Some {
        lemma_first_bad_query(items, from + 1);
    }
}

/// The URI that a replay is sent to (see [`target_of`]).
pub fn target_uri(url_override: &Option<String>, captured: &str, query_overrides: &Vec<String>) -> (r: Result<String, TargetError>)
    ensures
        ({
            let o = target_of(
                match url_override {
                    Some(u) => Some(u@),
                    None => None,
                },
                captured@,
                string_texts(query_overrides@),
            );
            match r {
                Ok(u) => o == TargetOutcome::Uri(u@),
                Err(e) => o == e.outcome(),
            }
        }),
{
    let ghost qs = string_texts(query_overrides@);
    let base: String = match url_override {
        Some(u) => u.clone(),
        None => captured.to_owned(),
    };
    let mut uri = base.clone();
    if query_overrides.len() > 0 {
        if !url_parses(base.as_str()) {
            return Err(TargetError::InvalidUrl(base));
        }
        let eq = vec!['='];
        assert(eq@ =~= seq!['=']);
        let mut pairs: Vec<(String, String)> = Vec::new();
        let mut i: usize = 0;
        proof {
            lemma_first_bad_query(qs, 0);
        }
        while i < query_overrides.len()
            invariant
                qs == string_texts(query_overrides@),
                eq@ == seq!['='],
                base@ == match url_override {
                    Some(u) => u@,
                    None => captured@,
                },
                url_accepted(base@),
                query_overrides@.len() > 0,
                i <= query_overrides.len(),
                first_bad_query(qs, 0) == first_bad_query(qs, i as int),
                pair_texts(pairs@) == query_pairs(qs.take(i as int)),
            decreases query_overrides.len() - i,
        {
            let item = &query_overrides[i];
            assert(qs[i as int] == item@);
            let iv = chars_of(item.as_str());
            proof {
                lemma_find_from_bounds(iv@, 0, iv@.len() as int, seq!['=']);
            }
            match find_in_range(&iv, 0, iv.len(), &eq) {
                Some(p) => {
                    let k = trim_to_string(string_from_range(&iv, 0, p).as_str());
                    let v = trim_to_string(string_from_range(&iv, p + 1, iv.len()).as_str());
                    let ghost before = pairs@;
                    pairs.push((k, v));
                    assert(pair_texts(pairs@) =~= pair_texts(before).push((k@, v@)));
                    assert(qs.take(i + 1) =~= qs.take(i as int).push(qs[i as int]));
                    assert(query_pairs(qs.take(i + 1)) =~= query_pairs(qs.take(i as int)).push((k@, v@)));
                },
                None => {
                    assert(split_eq(qs[i as int]) is None);
                    assert(first_bad_query(qs, i as int) == Some(i as int));
                    return Err(TargetError::InvalidQuery(item.clone()));
                },
            }
            i = i + 1;
        }
        assert(qs.take(i as int) =~= qs);
        uri = append_query_pairs(base.as_str(), &pairs);
    }
    if !str_starts_with(uri.as_str(), "http://") && !str_starts_with(uri.as_str(), "https://") {
        return Err(TargetError::NotAbsolute(uri));
    }
    Ok(uri)
}

/// The upper-case form that `str::to_uppercase` gives of a text.
pub uninterp spec fn uppercase(text: Seq<char>) -> Seq<char>;

/// What `Method::from_bytes` accepts of the UTF-8 bytes of a text: one or
/// more token characters.
pub open spec fn method_accepted(text: Seq<char>) -> bool {
    text.len() > 0 && forall|i: int| 0 <= i < text.len() ==> crate::headers::is_tchar(#[trigger] text[i])
}

/// `str::to_uppercase`, named by [`uppercase`].
#[verifier::external_body]
fn to_uppercase(text: &str) -> (r: String)
    ensures
        r@ == uppercase(text@),
{
    text.to_uppercase()
}

/// `reqwest::Method::from_bytes(text.as_bytes()).is_ok()`.
#[verifier::external_body]
pub(crate) fn method_parses(text: &str) -> (r: bool)
    ensures
        r == method_accepted(text@),
{
    reqwest::Method::from_bytes(text.as_bytes()).is_ok()
}

/// The method a replay starts from: the override, or else the captured
/// method, upper-cased.
pub fn initial_method(method_override: &Option<String>, captured: &str) -> (r: String)
    ensures
        r@ == uppercase(
            match method_override {
                Some(m) => m@,
                None => captured@,
            },
        ),
{
    match method_override {
        Some(m) => to_uppercase(m.as_str()),
        None => to_uppercase(captured),
    }
}

/// Why the final request of a replay cannot be made.
#[derive(Debug)]
pub enum PrepareError {
    /// The method is refused (the method).
    InvalidMethod(String),
    /// The headers cannot be built.
    Header(HeaderError),
}

/// The header map of the replayed request, once the (possibly edited)
/// method is known to be valid (see [`built_headers`]).
pub fn prepare_headers(
    method: &str,
    captured: &Vec<(String, String)>,
    extra_headers: &Vec<String>,
    drop_headers: &Vec<String>,
) -> (r: Result<HeaderMap<HeaderValue>, PrepareError>)
    ensures
        !method_accepted(method@) ==> (r matches Err(PrepareError::InvalidMethod(m)) && m@ == method@),
        method_accepted(method@) ==> match r {
            Ok(m) => built_headers(pair_texts(captured@), string_texts(extra_headers@), string_texts(drop_headers@))
                == HeaderOutcome::Built(header_entries(m)),
            Err(PrepareError::Header(HeaderError::TooMany)) => header_limit_reached(
                pair_texts(captured@),
                string_texts(extra_headers@),
                string_texts(drop_headers@),
            ),
            Err(PrepareError::Header(e)) => built_headers(
                pair_texts(captured@),
                string_texts(extra_headers@),
                string_texts(drop_headers@),
            ) == e.outcome(),
            Err(PrepareError::InvalidMethod(_)) => false,
        },
{
    if !method_parses(method) {
        return Err(PrepareError::InvalidMethod(method.to_owned()));
    }
    match build_headers(captured, extra_headers, drop_headers) {
        Ok(m) => Ok(m),
        Err(e) => Err(PrepareError::Header(e)),
    }
}

/// Where the body of a replay comes from.
#[derive(Debug)]
pub enum BodyPlan {
    /// No body.
    Nothing,
    /// These bytes.
    Bytes(Vec<u8>),
    /// The contents of the file at this path (`~/` standing for the home
    /// directory).
    ReadFile(String),
}

/// The body of a replay: none when asked for none; else the given text; else
/// the given file; else the captured body.
pub fn body_plan(
    no_body: bool,
    body_text: &Option<String>,
    body_file: &Option<String>,
    captured: &Option<Vec<u8>>,
) -> (r: BodyPlan)
    ensures
        no_body ==> r is Nothing,
        !no_body && body_text is Some ==> (r matches BodyPlan::Bytes(b) && b@ == encode_utf8(body_text->0@)),
        !no_body && body_text is None && body_file is Some ==> (r matches BodyPlan::ReadFile(p) && p@
            == body_file->0@),
        !no_body && body_text is None && body_file is None ==> match captured {
            Some(c) => r matches BodyPlan::Bytes(b) && b@ == c@,
            None => r is Nothing,
        },
{
    if no_body {
        return BodyPlan::Nothing;
    }
    if let Some(t) = body_text {
        return BodyPlan::Bytes(t.as_str().as_bytes_vec());
    }
    if let Some(p) = body_file {
        return BodyPlan::ReadFile(p.clone());
    }
    match captured {
        Some(c) => BodyPlan::Bytes(c.clone()),
        None => BodyPlan::Nothing,
    }
}

/// Whether a captured value and a live one differ.
#[derive(Debug, Clone, Copy, PartialEq, Eq, Structural)]
pub enum Diff {
    No,
    Yes,
    /// One side is not known.
    Unknown,
}

/// How a live response compares with the captured one.
#[derive(Debug, Clone, Copy, PartialEq, Eq, Structural)]
pub struct ResponseDiff {
    pub status: Diff,
    pub bytes: Diff,
    pub headers_hash: Diff,
    pub body_hash: Diff,
}

/// The fingerprint of a live response: the hash of its sorted headers, and
/// the hash of its body unless the body is empty.
pub fn live_hashes(headers: &Vec<(String, String)>, body: &[u8]) -> (r: (String, Option<String>))
    ensures
        r.0@ == hex(sha256_digest(header_bytes(pairs_view(headers@).sort_by(pair_order())))),
        body@.len() == 0 ==> r.1 is None,
        body@.len() > 0 ==> (r.1 matches Some(h) && h@ == hex(sha256_digest(body@))),
{
    let sorted = sort_pairs(headers);
    let hh = hash_headers(&sorted);
    if body.len() == 0 {
        (hh, None)
    } else {
        (hh, Some(hash_bytes(body)))
    }
}

/// Captured and live responses compared: the status and the header hash
/// differ or not; the size is unknown when none was captured; the body
/// hashes agree when both are equal or both absent, and are unknown when
/// only one side has one.
pub fn compare_response(
    captured: &ResponseSnapshot,
    live_status: u16,
    live_len: usize,
    live_headers_hash: &String,
    live_body_hash: &Option<String>,
) -> (r: ResponseDiff)
    ensures
        r.status == if captured.status == live_status { Diff::No } else { Diff::Yes },
        r.bytes == match captured.body_size {
            Some(n) => if n == live_len { Diff::No } else { Diff::Yes },
            None => Diff::Unknown,
        },
        r.headers_hash == if captured.headers_hash@ == live_headers_hash@ { Diff::No } else { Diff::Yes },
        r.body_hash == match (captured.body_hash, live_body_hash) {
            (Some(a), Some(b)) => if a@ == b@ { Diff::No } else { Diff::Yes },
            (None, None) => Diff::No,
            _ => Diff::Unknown,
        },
{
    let status = if captured.status == live_status {
        Diff::No
    } else {
        Diff::Yes
    };
    let bytes = match captured.body_size {
        Some(n) => if n == live_len {
            Diff::No
        } else {
            Diff::Yes
        },
        None => Diff::Unknown,
    };
    let headers_hash = if captured.headers_hash == *live_headers_hash {
        Diff::No
    } else {
        Diff::Yes
    };
    let body_hash = match (&captured.body_hash, live_body_hash) {
        (Some(a), Some(b)) => if *a == *b {
            Diff::No
        } else {
            Diff::Yes
        },
        (None, None) => Diff::No,
        _ => Diff::Unknown,
    };
    ResponseDiff { status, bytes, headers_hash, body_hash }
}

/// Which captured requests a replay considers.
pub struct CandidateFilter {
    /// Only this client's requests.
    pub client: Option<String>,
    /// Only requests at or after this time.
    pub since_ms: Option<u64>,
    /// Only requests at or before this time.
    pub until_ms: Option<u64>,
    /// Leave out `CONNECT` requests (in any ASCII case).
    pub exclude_connect: bool,
}

pub struct FilterModel {
    pub client: Option<Seq<char>>,
    pub since_ms: Option<u64>,
    pub until_ms: Option<u64>,
    pub exclude_connect: bool,
}

impl CandidateFilter {
    pub open spec fn model(&self) -> FilterModel {
        FilterModel {
            client: match self.client {
                Some(c) => Some(c@),
                None => None,
            },
            since_ms: self.since_ms,
            until_ms: self.until_ms,
            exclude_connect: self.exclude_connect,
        }
    }
}

/// A candidate passes the filter.
pub open spec fn passes(c: CandidateModel, f: FilterModel) -> bool {
    &&& (f.client matches Some(k) ==> c.client == k)
    &&& (f.since_ms matches Some(s) ==> c.timestamp_ms >= s)
    &&& (f.until_ms matches Some(u) ==> c.timestamp_ms <= u)
    &&& !(f.exclude_connect && is_connect(c.method))
}

pub open spec fn passes_pred(f: FilterModel) -> spec_fn(CandidateModel) -> bool {
    |c: CandidateModel| passes(c, f)
}

/// Positions, among the first `n` candidates, of those that satisfy `pred`.
pub open spec fn positions_where(cands: Seq<CandidateModel>, pred: spec_fn(CandidateModel) -> bool, n: int) -> Seq<usize>
    decreases n,
{
    if n <= 0 {
        Seq::empty()
    } else {
        let prev = positions_where(cands, pred, n - 1);
        if pred(cands[n - 1]) {
            prev.push((n - 1) as usize)
        } else {
            prev
        }
    }
}

/// Position of the first candidate from `from` on that satisfies `pred`.
pub open spec fn first_where(cands: Seq<CandidateModel>, pred: spec_fn(CandidateModel) -> bool, from: int) -> Option<usize>
    decreases cands.len() - from,
{
    if from < 0 || from >= cands.len() {
        None
    } else if pred(cands[from]) {
        Some(from as usize)
    } else {
        first_where(cands, pred, from + 1)
    }
}

/// Positions of the candidates that pass `f`, in order.
pub open spec fn filtered_positions(cands: Seq<CandidateModel>, f: FilterModel) -> Seq<usize> {
    positions_where(cands, passes_pred(f), cands.len() as int)
}

fn passes_exec(c: &ReplayCandidate, f: &CandidateFilter) -> (r: bool)
    ensures
        r == passes(c.model(), f.model()),
{
    if let Some(k) = &f.client {
        if c.client != *k {
            return false;
        }
    }
    if let Some(s) = f.since_ms {
        if c.timestamp_ms < s {
            return false;
        }
    }
    if let Some(u) = f.until_ms {
        if c.timestamp_ms > u {
            return false;
        }
    }
    if f.exclude_connect && is_connect_method(c.method.as_str()) {
        return false;
    }
    true
}

/// Positions of the candidates that pass the filter, in order.
pub fn filtered_candidates(f: &CandidateFilter, requests: &Vec<ReplayCandidate>) -> (r: Vec<usize>)
    ensures
        r@ == filtered_positions(candidates_view(requests@), f.model()),
{
    let ghost cands = candidates_view(requests@);
    let mut out: Vec<usize> = Vec::new();
    let mut i: usize = 0;
    while i < requests.len()
        invariant
            cands == candidates_view(requests@),
            i <= requests.len(),
            out@ == positions_where(cands, passes_pred(f.model()), i as int),
        decreases requests.len() - i,
    {
        assert(cands[i as int] == requests@[i as int].model());
        if passes_exec(&requests[i], f) {
            out.push(i);
        }
        i = i + 1;
    }
    out
}

/// What a replay run does.
#[derive(Debug)]
pub enum ReplayPlan {
    /// Show these candidates.
    List(Vec<usize>),
    /// Replay these requests of one client, in order.
    Session(Vec<usize>),
    /// Replay this one request.
    Single(usize),
    /// Replay these requests, in order.
    Batch(Vec<usize>),
}

/// Why no request was chosen.
#[derive(Debug)]
pub enum SelectError {
    SessionNotFound(String),
    RequestIdNotFound(String),
    IndexNotFound(usize),
    NoCandidate,
}

/// How a replay run chooses its requests.
pub struct ReplaySelection {
    pub list: bool,
    pub session_client: Option<String>,
    pub session_limit: usize,
    pub request_id: Option<String>,
    pub index: Option<usize>,
    pub batch_limit: usize,
}

pub open spec fn client_is(f: FilterModel, key: Seq<char>) -> spec_fn(CandidateModel) -> bool {
    |c: CandidateModel| passes(c, f) && c.client == key
}

pub open spec fn has_request_id(id: Seq<char>) -> spec_fn(CandidateModel) -> bool {
    |c: CandidateModel| c.request_id == Some(id)
}

pub open spec fn has_index(ix: usize) -> spec_fn(CandidateModel) -> bool {
    |c: CandidateModel| c.index == ix
}

pub open spec fn at_least_one(n: usize) -> nat {
    if n == 0 {
        1
    } else {
        n as nat
    }
}

proof fn lemma_first_where(cands: Seq<CandidateModel>, pred: spec_fn(CandidateModel) -> bool, from: int)
    requires
        0 <= from,
        cands.len() <= usize::MAX,
    ensures
        match first_where(cands, pred, from) {
            Some(k) => from <= k < cands.len() && pred(cands[k as int]),
            None => forall|j: int| from <= j < cands.len() ==> !pred(#[trigger] cands[j]),
        },
    decreases cands.len() - from,
{
    if from < cands.len() && !pred(cands[from]) {
        lemma_first_where(cands, pred, from + 1);
    }
}

/// The requests a replay run works on: with `list`, the filtered
/// candidates; with a session client, its filtered requests up to the
/// session limit (at least one); with a request id, the first request with
/// that id; with an index, the first request from that log line; else the
/// filtered candidates up to the batch limit (at least one). Filters do
/// not apply to a request id or an index.
pub fn plan_replay(sel: &ReplaySelection, f: &CandidateFilter, requests: &Vec<ReplayCandidate>) -> (r: Result<ReplayPlan, SelectError>)
    ensures
        ({
            let cands = candidates_view(requests@);
            let fm = f.model();
            if sel.list {
                r matches Ok(ReplayPlan::List(v)) && v@ == filtered_positions(cands, fm)
            } else if sel.session_client is Some {
                let key = sel.session_client->0@;
                let chosen = first_n(positions_where(cands, client_is(fm, key), cands.len() as int), at_least_one(sel.session_limit));
                if chosen.len() == 0 {
                    r matches Err(SelectError::SessionNotFound(k)) && k@ == key
                } else {
                    r matches Ok(ReplayPlan::Session(v)) && v@ == chosen
                }
            } else if sel.request_id is Some {
                let id = sel.request_id->0@;
                match first_where(cands, has_request_id(id), 0) {
                    Some(k) => r == Ok::<ReplayPlan, SelectError>(ReplayPlan::Single(k)),
                    None => r matches Err(SelectError::RequestIdNotFound(t)) && t@ == id,
                }
            } else if sel.index is Some {
                match first_where(cands, has_index(sel.index->0), 0) {
                    Some(k) => r == Ok::<ReplayPlan, SelectError>(ReplayPlan::Single(k)),
                    None => r == Err::<ReplayPlan, SelectError>(SelectError::IndexNotFound(sel.index->0)),
                }
            } else {
                let chosen = first_n(filtered_positions(cands, fm), at_least_one(sel.batch_limit));
                if chosen.len() == 0 {
                    r == Err::<ReplayPlan, SelectError>(SelectError::NoCandidate)
                } else {
                    r matches Ok(ReplayPlan::Batch(v)) && v@ == chosen
                }
            }
        }),
{
    let ghost cands = candidates_view(requests@);
    if sel.list {
        return Ok(ReplayPlan::List(filtered_candidates(f, requests)));
    }
    if let Some(key) = &sel.session_client {
        let limit: usize = if sel.session_limit == 0 {
            1
        } else {
            sel.session_limit
        };
        let ghost pred = client_is(f.model(), key@);
        let mut out: Vec<usize> = Vec::new();
        let mut i: usize = 0;
        while i < requests.len() && out.len() < limit
            invariant
                cands == candidates_view(requests@),
                pred == client_is(f.model(), key@),
                i <= requests.len(),
                out@ == first_n(positions_where(cands, pred, i as int), limit as nat),
                out@.len() <= limit,
                out@.len() < limit ==> out@ == positions_where(cands, pred, i as int),
            decreases requests.len() - i,
        {
            assert(cands[i as int] == requests@[i as int].model());
            if passes_exec(&requests[i], f) && requests[i].client == *key {
                out.push(i);
            }
            i = i + 1;
        }
        proof {
            if i < requests.len() {
                assert(positions_where(cands, pred, i as int).len() >= limit);
                lemma_positions_grow(cands, pred, i as int, cands.len() as int, limit as nat);
            }
        }
        if out.len() == 0 {
            return Err(SelectError::SessionNotFound(key.clone()));
        }
        return Ok(ReplayPlan::Session(out));
    }
    if let Some(id) = &sel.request_id {
        let mut i: usize = 0;
        proof {
            assert(cands.len() == requests@.len());
        }
        while i < requests.len()
            invariant
                cands == candidates_view(requests@),
                i <= requests.len(),
                first_where(cands, has_request_id(id@), 0) == first_where(cands, has_request_id(id@), i as int),
                !sel.list,
                sel.session_client is None,
                sel.request_id is Some && sel.request_id->0@ == id@,
            decreases requests.len() - i,
        {
            assert(cands[i as int] == requests@[i as int].model());
            let hit = match &requests[i].request_id {
                Some(r) => *r == *id,
                None => false,
            };
            if hit {
                assert(has_request_id(id@)(cands[i as int]));
                assert(first_where(cands, has_request_id(id@), i as int) == Some(i));
                return Ok(ReplayPlan::Single(i));
            }
            i = i + 1;
        }
        return Err(SelectError::RequestIdNotFound(id.clone()));
    }
    if let Some(ix) = sel.index {
        let mut i: usize = 0;
        while i < requests.len()
            invariant
                cands == candidates_view(requests@),
                i <= requests.len(),
                first_where(cands, has_index(ix), 0) == first_where(cands, has_index(ix), i as int),
                !sel.list,
                sel.session_client is None,
                sel.request_id is None,
                sel.index == Some(ix),
            decreases requests.len() - i,
        {
            assert(cands[i as int] == requests@[i as int].model());
            if requests[i].index == ix {
                assert(has_index(ix)(cands[i as int]));
                assert(first_where(cands, has_index(ix), i as int) == Some(i));
                return Ok(ReplayPlan::Single(i));
            }
            i = i + 1;
        }
        return Err(SelectError::IndexNotFound(ix));
    }
    let limit: usize = if sel.batch_limit == 0 {
        1
    } else {
        sel.batch_limit
    };
    let mut all = filtered_candidates(f, requests);
    all.truncate(limit);
    if all.len() == 0 {
        return Err(SelectError::NoCandidate);
    }
    Ok(ReplayPlan::Batch(all))
}

/// Once `k` positions are found, looking further does not change the first `k`.
proof fn lemma_positions_grow(cands: Seq<CandidateModel>, pred: spec_fn(CandidateModel) -> bool, i: int, n: int, k: nat)
    requires
        0 <= i <= n,
        positions_where(cands, pred, i).len() >= k,
    ensures
        first_n(positions_where(cands, pred, n), k) == first_n(positions_where(cands, pred, i), k),
    decreases n - i,
{
    if n > i {
        lemma_positions_grow(cands, pred, i, n - 1, k);
        let a = positions_where(cands, pred, n - 1);
        let b = positions_where(cands, pred, n);
        lemma_positions_prefix(cands, pred, i, n - 1);
        assert(first_n(b, k) =~= first_n(a, k));
    }
}

proof fn lemma_positions_prefix(cands: Seq<CandidateModel>, pred: spec_fn(CandidateModel) -> bool, i: int, n: int)
    requires
        0 <= i <= n,
    ensures
        positions_where(cands, pred, i).len() <= positions_where(cands, pred, n).len(),
    decreases n - i,
{
    if n > i {
        lemma_positions_prefix(cands, pred, i, n - 1);
    }
}

/// How the body of an interactive replay changes.
#[derive(Debug, Clone, Copy, PartialEq, Eq, Structural)]
pub enum BodyMode {
    Keep,
    Empty,
    Text,
    File,
}

fn text_is(t: &String, lit: &str) -> (r: bool)
    ensures
        r == (t@ == lit@),
{
    *t == lit.to_owned()
}

/// The body mode for an answer (trimmed): empty, `k` or `keep` keep the
/// body; `e` or `empty` drop it; `t` or `text` and `f` or `file` replace
/// it; anything else is refused, with the trimmed answer.
pub fn parse_body_mode(answer: &str) -> (r: Result<BodyMode, String>)
    ensures
        ({
            let t = trim(answer@);
            if t == ""@ || t == "k"@ || t == "keep"@ {
                r == Ok::<BodyMode, String>(BodyMode::Keep)
            } else if t == "e"@ || t == "empty"@ {
                r == Ok::<BodyMode, String>(BodyMode::Empty)
            } else if t == "t"@ || t == "text"@ {
                r == Ok::<BodyMode, String>(BodyMode::Text)
            } else if t == "f"@ || t == "file"@ {
                r == Ok::<BodyMode, String>(BodyMode::File)
            } else {
                r matches Err(e) && e@ == t
            }
        }),
{
    let t = trim_to_string(answer);
    if text_is(&t, "") || text_is(&t, "k") || text_is(&t, "keep") {
        Ok(BodyMode::Keep)
    } else if text_is(&t, "e") || text_is(&t, "empty") {
        Ok(BodyMode::Empty)
    } else if text_is(&t, "t") || text_is(&t, "text") {
        Ok(BodyMode::Text)
    } else if text_is(&t, "f") || text_is(&t, "file") {
        Ok(BodyMode::File)
    } else {
        Err(t)
    }
}

pub open spec fn line_end_pred() -> spec_fn(char) -> bool {
    |c: char| c == '\r' || c == '\n'
}

/// `line.trim_end_matches(['\r', '\n'])`.
pub open spec fn strip_line_end(line: Seq<char>) -> Seq<char> {
    line.subrange(0, skip_back(line, 0, line.len() as int, line_end_pred()))
}

/// A typed line without its line ending.
pub fn strip_line_end_text(line: &str) -> (r: String)
    ensures
        r@ == strip_line_end(line@),
{
    let v = chars_of(line);
    let mut j = v.len();
    proof {
        lemma_skip_back_bounds(v@, 0, v@.len() as int, line_end_pred());
    }
    while j > 0 && (v[j - 1] == '\r' || v[j - 1] == '\n')
        invariant
            v@ == line@,
            j <= v.len(),
            skip_back(v@, 0, v@.len() as int, line_end_pred()) == skip_back(v@, 0, j as int, line_end_pred()),
        decreases j,
    {
        j = j - 1;
    }
    string_from_range(&v, 0, j)
}

/// An answer to a question with a default: the line trimmed, or `None`
/// (keep the default) when nothing is left.
pub fn default_answer(line: &str) -> (r: Option<String>)
    ensures
        trim(strip_line_end(line@)).len() == 0 ==> r is None,
        trim(strip_line_end(line@)).len() > 0 ==> (r matches Some(a) && a@ == trim(strip_line_end(line@))),
{
    let s = strip_line_end_text(line);
    let t = trim_to_string(s.as_str());
    if t.as_str().is_empty() {
        None
    } else {
        Some(t)
    }
}

/// A line that is blank once trimmed (it ends a list of answers).
pub fn is_blank(line: &str) -> (r: bool)
    ensures
        r == (trim(line@).len() == 0),
{
    trim_to_string(line).as_str().is_empty()
}

/// Whether a candidate meets each bound of a filter: the client asked for,
/// a timestamp within `since_ms` and `until_ms`, and not a CONNECT when
/// those are left out.
pub open spec fn within_bounds(c: CandidateModel, f: FilterModel) -> bool {
    &&& (f.client matches Some(k) ==> c.client == k)
    &&& (f.since_ms matches Some(lo) ==> lo <= c.timestamp_ms)
    &&& (f.until_ms matches Some(hi) ==> c.timestamp_ms <= hi)
    &&& (f.exclude_connect ==> !is_connect(c.method))
}

/// The candidates chosen for replay are exactly those within the filter's
/// bounds, in order: a request after `until_ms` (or before `since_ms`, of
/// another client, or a CONNECT when those are left out) is never chosen,
/// and every request within them is.
pub proof fn law_filtered_candidates_within_bounds(cands: Seq<CandidateModel>, f: FilterModel, n: int)
    requires
        0 <= n <= cands.len(),
        cands.len() <= usize::MAX,
    ensures
        forall|j: int|
            0 <= j < positions_where(cands, passes_pred(f), n).len() ==> {
                let k = #[trigger] positions_where(cands, passes_pred(f), n)[j];
                &&& k < n
                &&& within_bounds(cands[k as int], f)
                &&& (f.until_ms matches Some(hi) ==> cands[k as int].timestamp_ms <= hi)
            },
        forall|k: int|
            0 <= k < n && within_bounds(#[trigger] cands[k], f) ==> positions_where(cands, passes_pred(f), n).contains(
                k as usize,
            ),
        forall|j1: int, j2: int|
            0 <= j1 < j2 < positions_where(cands, passes_pred(f), n).len() ==> #[trigger] positions_where(
                cands,
                passes_pred(f),
                n,
            )[j1] < #[trigger] positions_where(cands, passes_pred(f), n)[j2],
    decreases n,
{
    if n > 0 {
        law_filtered_candidates_within_bounds(cands, f, n - 1);
        let prev = positions_where(cands, passes_pred(f), n - 1);
        let cur = positions_where(cands, passes_pred(f), n);
        assert(passes(cands[n - 1], f) == within_bounds(cands[n - 1], f));
        if passes(cands[n - 1], f) {
            assert(cur == prev.push((n - 1) as usize));
        } else {
            assert(cur == prev);
        }
        assert forall|j: int| 0 <= j < cur.len() implies {
            let k = #[trigger] cur[j];
            &&& k < n
            &&& within_bounds(cands[k as int], f)
            &&& (f.until_ms matches Some(hi) ==> cands[k as int].timestamp_ms <= hi)
        } by {
            if j < prev.len() {
                assert(cur[j] == prev[j]);
            }
        }
        assert forall|k: int| 0 <= k < n && within_bounds(#[trigger] cands[k], f) implies cur.contains(k as usize) by {
            if k < n - 1 {
                let w = choose|w: int| 0 <= w < prev.len() && prev[w] == k as usize;
                assert(cur[w] == k as usize);
            } else {
                assert(cur[cur.len() - 1] == k as usize);
            }
        }
        assert forall|j1: int, j2: int| 0 <= j1 < j2 < cur.len() implies #[trigger] cur[j1] < #[trigger] cur[j2] by {
            if j2 < prev.len() {
                assert(cur[j1] == prev[j1] && cur[j2] == prev[j2]);
            } else {
                assert(cur[j1] == prev[j1]);
            }
        }
    }
}

} // verus!
