//! The diagnostics report over completed exchanges: totals, latency
//! percentiles, the busiest hosts and methods, the status distribution and
//! the slowest requests.
use vstd::prelude::*;
use crate::analyze::{completed_view, CompletedModel, CompletedReq};
use crate::commands::texts;
use crate::ranking::{
    counts_view, int_pair_order, rank_order, sort_counts, sort_int_pairs, sort_u64, u64_le,
};
use crate::text::chars_of;

verus! {

/// ASCII lower-casing of a code point.
pub open spec fn lower_code(x: u32) -> u32 {
    if 65 <= x && x <= 90 {
        (x + 32) as u32
    } else {
        x
    }
}

/// `m` is `CONNECT` in any ASCII case.
pub open spec fn is_connect(m: Seq<char>) -> bool {
    &&& m.len() == 7
    &&& forall|i: int| 0 <= i < 7 ==> lower_code(#[trigger] m[i] as u32) == ("connect"@[i] as u32)
}

/// `method.eq_ignore_ascii_case("CONNECT")`.
pub fn is_connect_method(method: &str) -> (r: bool)
    ensures
        r == is_connect(method@),
{
    let v = chars_of(method);
    let target = chars_of("connect");
    proof {
        reveal_strlit("connect");
    }
    if v.len() != 7 {
        return false;
    }
    let mut i: usize = 0;
    while i < 7
        invariant
            v@ == method@,
            target@ == "connect"@,
            target@.len() == 7,
            v@.len() == 7,
            i <= 7,
            forall|j: int| 0 <= j < i ==> lower_code(#[trigger] v@[j] as u32) == (target@[j] as u32),
        decreases 7 - i,
    {
        let x = v[i] as u32;
        let lx = if 65 <= x && x <= 90 {
            x + 32
        } else {
            x
        };
        if lx != target[i] as u32 {
            return false;
        }
        i = i + 1;
    }
    true
}

/// A row counts unless it is a `CONNECT` tunnel and those are left out.
pub open spec fn kept(r: CompletedModel, include_connect: bool) -> bool {
    include_connect || !is_connect(r.method)
}

pub open spec fn kept_pred(include_connect: bool) -> spec_fn(CompletedModel) -> bool {
    |r: CompletedModel| kept(r, include_connect)
}

/// The rows that the report covers.
pub open spec fn kept_rows(rows: Seq<CompletedModel>, include_connect: bool) -> Seq<CompletedModel> {
    rows.filter(kept_pred(include_connect))
}

pub open spec fn error_pred() -> spec_fn(CompletedModel) -> bool {
    |r: CompletedModel| r.status >= 400
}

/// Position of the entry for `k` in `t`, searching from `from`.
pub open spec fn key_pos<K>(t: Seq<(K, nat)>, k: K, from: int) -> Option<int>
    decreases t.len() - from,
{
    if from < 0 || from >= t.len() {
        None
    } else if t[from].0 == k {
        Some(from)
    } else {
        key_pos(t, k, from + 1)
    }
}

/// The distinct keys of `keys` with the number of times each occurs, in the
/// order of their first occurrence.
pub open spec fn tally<K>(keys: Seq<K>) -> Seq<(K, nat)>
    decreases keys.len(),
{
    if keys.len() == 0 {
        Seq::empty()
    } else {
        let prev = tally(keys.drop_last());
        let k = keys.last();
        match key_pos(prev, k, 0) {
            Some(p) => prev.update(p, (k, prev[p].1 + 1)),
            None => prev.push((k, 1)),
        }
    }
}

pub proof fn lemma_key_pos<K>(t: Seq<(K, nat)>, k: K, from: int)
    requires
        0 <= from,
    ensures
        match key_pos(t, k, from) {
            Some(p) => from <= p < t.len() && t[p].0 == k,
            None => forall|j: int| from <= j < t.len() ==> t[j].0 != k,
        },
    decreases t.len() - from,
{
    if from < t.len() && t[from].0 != k {
        lemma_key_pos(t, k, from + 1);
    }
}

/// Every count of a tally is at most the number of keys.
pub proof fn lemma_tally_counts_bounded<K>(keys: Seq<K>)
    ensures
        tally(keys).len() <= keys.len(),
        forall|j: int| 0 <= j < tally(keys).len() ==> 1 <= #[trigger] tally(keys)[j].1 <= keys.len(),
    decreases keys.len(),
{
    if keys.len() > 0 {
        lemma_tally_counts_bounded(keys.drop_last());
        lemma_key_pos(tally(keys.drop_last()), keys.last(), 0);
    }
}

/// The `n` first entries of `s`, or all of them.
pub open spec fn first_n<A>(s: Seq<A>, n: nat) -> Seq<A> {
    if n < s.len() {
        s.take(n as int)
    } else {
        s
    }
}

/// The `k` (at least one) names with the most occurrences, most first, ties
/// by name.
pub open spec fn top_counts(names: Seq<Seq<char>>, k: nat) -> Seq<(Seq<char>, nat)> {
    first_n(tally(names).sort_by(rank_order()), if k == 0 { 1 } else { k })
}

/// The status codes with their numbers of occurrences, by status code.
pub open spec fn status_counts(statuses: Seq<u16>) -> Seq<(u64, u64)> {
    tally(statuses).map_values(|e: (u16, nat)| (e.0 as u64, e.1 as u64)).sort_by(int_pair_order(false))
}

/// (latency, row index) of the rows that are kept and at least `slow_ms` slow.
pub open spec fn slow_rows(rows: Seq<CompletedModel>, include_connect: bool, slow_ms: u64) -> Seq<(u64, u64)>
    decreases rows.len(),
{
    if rows.len() == 0 {
        Seq::empty()
    } else {
        let prev = slow_rows(rows.drop_last(), include_connect, slow_ms);
        let r = rows.last();
        if kept(r, include_connect) && r.latency_ms >= slow_ms {
            prev.push((r.latency_ms, (rows.len() - 1) as u64))
        } else {
            prev
        }
    }
}

/// Indices of the `top` slowest kept rows at or above `slow_ms`, slowest
/// first, ties in row order.
pub open spec fn slowest(rows: Seq<CompletedModel>, include_connect: bool, slow_ms: u64, top: nat) -> Seq<u64> {
    first_n(slow_rows(rows, include_connect, slow_ms).sort_by(int_pair_order(true)), top).map_values(
        |e: (u64, u64)| e.1,
    )
}

/// Index of the `p`-th percentile (in whole percent) of `n` sorted values:
/// `p/100 * (n - 1)` rounded half up, at most `n - 1`.
pub open spec fn percentile_index(n: nat, p: nat) -> int {
    let idx = (p * (n - 1) + 50) / 100;
    if idx < n - 1 {
        idx
    } else {
        n - 1
    }
}

/// The `p`-th percentile of ascending values; 0 when there are none.
pub open spec fn percentile_of(sorted: Seq<u64>, p: nat) -> u64 {
    if sorted.len() == 0 {
        0
    } else {
        sorted[percentile_index(sorted.len(), p)]
    }
}

/// The `p`-th percentile (in whole percent) of ascending values.
pub fn percentile(sorted: &Vec<u64>, p: u64) -> (r: u64)
    ensures
        r == percentile_of(sorted@, p as nat),
{
    if sorted.len() == 0 {
        return 0;
    }
    let n1 = (sorted.len() - 1) as u128;
    assert((p as u128) * n1 <= 0xffff_ffff_ffff_ffff * 0xffff_ffff_ffff_ffffu128) by (nonlinear_arith)
        requires
            n1 <= 0xffff_ffff_ffff_ffff,
    ;
    let idx = ((p as u128) * n1 + 50) / 100;
    let last = sorted.len() - 1;
    if idx < last as u128 {
        sorted[idx as usize]
    } else {
        sorted[last]
    }
}

/// The distinct names of `keys` with their counts (see [`tally`]).
pub fn tally_names(keys: &Vec<String>) -> (r: Vec<(String, usize)>)
    ensures
        counts_view(r@) == tally(texts(keys@)),
{
    let ghost ks = texts(keys@);
    let n = keys.len();
    let mut out: Vec<(String, usize)> = Vec::new();
    let mut i: usize = 0;
    assert(counts_view(out@) =~= tally(ks.take(0)));
    while i < n
        invariant
            n == keys.len(),
            ks == texts(keys@),
            i <= n,
            counts_view(out@) == tally(ks.take(i as int)),
        decreases n - i,
    {
        let ghost t = counts_view(out@);
        proof {
            assert(ks.take(i + 1).drop_last() =~= ks.take(i as int));
            lemma_tally_counts_bounded(ks.take(i as int));
            lemma_key_pos(t, ks[i as int], 0);
        }
        let m = out.len();
        let mut p: usize = 0;
        while p < m
            invariant
                m == out.len(),
                t == counts_view(out@),
                i < n,
                n == keys.len(),
                p <= m,
                key_pos(t, ks[i as int], 0) == key_pos(t, ks[i as int], p as int),
                ks[i as int] == keys@[i as int]@,
            ensures
                p <= m,
                key_pos(t, ks[i as int], 0) == key_pos(t, ks[i as int], p as int),
                p < m ==> t[p as int].0 == ks[i as int],
            decreases m - p,
        {
            assert(t[p as int].0 == out@[p as int].0@);
            if out[p].0 == keys[i] {
                break;
            }
            p = p + 1;
        }
        if p < m {
            let c = out[p].1;
            assert(c as nat == t[p as int].1);
            let k = out[p].0.clone();
            out.set(p, (k, c + 1));
            assert(counts_view(out@) =~= t.update(p as int, (ks[i as int], t[p as int].1 + 1)));
        } else {
            out.push((keys[i].clone(), 1));
            assert(counts_view(out@) =~= t.push((ks[i as int], 1)));
        }
        i = i + 1;
    }
    assert(ks.take(n as int) =~= ks);
    out
}

/// The distinct status codes of `statuses` with their counts (see [`tally`]).
pub fn tally_statuses(statuses: &Vec<u16>) -> (r: Vec<(u64, u64)>)
    ensures
        r@ == tally(statuses@).map_values(|e: (u16, nat)| (e.0 as u64, e.1 as u64)),
{
    let ghost conv = |e: (u16, nat)| (e.0 as u64, e.1 as u64);
    let n = statuses.len();
    let mut out: Vec<(u64, u64)> = Vec::new();
    let mut i: usize = 0;
    assert(out@ =~= tally(statuses@.take(0)).map_values(conv));
    while i < n
        invariant
            n == statuses.len(),
            i <= n,
            out@ == tally(statuses@.take(i as int)).map_values(conv),
            conv == (|e: (u16, nat)| (e.0 as u64, e.1 as u64)),
        decreases n - i,
    {
        let ghost t = tally(statuses@.take(i as int));
        let x = statuses[i];
        proof {
            assert(statuses@.take(i + 1).drop_last() =~= statuses@.take(i as int));
            lemma_tally_counts_bounded(statuses@.take(i as int));
            lemma_key_pos(t, x, 0);
        }
        let m = out.len();
        let mut p: usize = 0;
        while p < m
            invariant
                m == out.len(),
                out@ == t.map_values(conv),
                conv == (|e: (u16, nat)| (e.0 as u64, e.1 as u64)),
                p <= m,
                key_pos(t, x, 0) == key_pos(t, x, p as int),
            ensures
                p <= m,
                key_pos(t, x, 0) == key_pos(t, x, p as int),
                p < m ==> t[p as int].0 == x,
            decreases m - p,
        {
            assert(out@[p as int] == conv(t[p as int]));
            if out[p].0 == x as u64 {
                break;
            }
            p = p + 1;
        }
        if p < m {
            let c = out[p].1;
            assert(c == t[p as int].1);
            out.set(p, (x as u64, c + 1));
            assert(out@ =~= t.update(p as int, (x, t[p as int].1 + 1)).map_values(conv));
        } else {
            out.push((x as u64, 1));
            assert(out@ =~= t.push((x, 1)).map_values(conv));
        }
        i = i + 1;
    }
    assert(statuses@.take(n as int) =~= statuses@);
    out
}

/// The views of status counts.
pub open spec fn status_view(v: Seq<(u16, usize)>) -> Seq<(u64, u64)> {
    v.map_values(|e: (u16, usize)| (e.0 as u64, e.1 as u64))
}

/// The report over the completed exchanges of a flow log.
#[derive(Debug)]
pub struct Report {
    /// Rows covered.
    pub total: usize,
    /// Rows covered with a status of 400 or more.
    pub errors: usize,
    /// Latencies of the rows covered, ascending.
    pub latencies: Vec<u64>,
    pub p50: u64,
    pub p95: u64,
    pub p99: u64,
    /// Hosts by number of requests (see [`top_counts`]).
    pub top_hosts: Vec<(String, usize)>,
    /// Each status code with its number of rows, by status code.
    pub statuses: Vec<(u16, usize)>,
    /// Methods by number of requests (see [`top_counts`]).
    pub top_methods: Vec<(String, usize)>,
    /// Indices into the rows of the slowest requests (see [`slowest`]).
    pub slow: Vec<usize>,
}

pub open spec fn latency_of() -> spec_fn(CompletedModel) -> u64 {
    |r: CompletedModel| r.latency_ms
}

pub open spec fn host_of() -> spec_fn(CompletedModel) -> Seq<char> {
    |r: CompletedModel| r.host
}

pub open spec fn method_of() -> spec_fn(CompletedModel) -> Seq<char> {
    |r: CompletedModel| r.method
}

pub open spec fn status_of() -> spec_fn(CompletedModel) -> u16 {
    |r: CompletedModel| r.status
}

proof fn lemma_filter_step<A>(s: Seq<A>, i: int, pred: spec_fn(A) -> bool)
    requires
        0 <= i < s.len(),
    ensures
        s.take(i + 1).filter(pred) == if pred(s[i]) {
            s.take(i).filter(pred).push(s[i])
        } else {
            s.take(i).filter(pred)
        },
{
    reveal(Seq::filter);
    assert(s.take(i + 1).drop_last() =~= s.take(i));
}

proof fn lemma_filter_push<A>(s: Seq<A>, x: A, pred: spec_fn(A) -> bool)
    ensures
        s.push(x).filter(pred) == if pred(x) {
            s.filter(pred).push(x)
        } else {
            s.filter(pred)
        },
{
    reveal(Seq::filter);
    assert(s.push(x).drop_last() =~= s);
}

proof fn lemma_slow_rows_bounded(rows: Seq<CompletedModel>, include_connect: bool, slow_ms: u64)
    requires
        rows.len() <= u64::MAX,
    ensures
        forall|j: int| 0 <= j < slow_rows(rows, include_connect, slow_ms).len()
            ==> #[trigger] slow_rows(rows, include_connect, slow_ms)[j].1 < rows.len(),
    decreases rows.len(),
{
    if rows.len() > 0 {
        let prev = slow_rows(rows.drop_last(), include_connect, slow_ms);
        lemma_slow_rows_bounded(rows.drop_last(), include_connect, slow_ms);
        let cur = slow_rows(rows, include_connect, slow_ms);
        assert forall|j: int| 0 <= j < cur.len() implies #[trigger] cur[j].1 < rows.len() by {
            if j < prev.len() {
                assert(cur[j] == prev[j]);
            }
        }
    }
}

proof fn lemma_sorted_members<A>(s: Seq<A>, ord: spec_fn(A, A) -> bool)
    requires
        vstd::relations::total_ordering(ord),
    ensures
        s.sort_by(ord).len() == s.len(),
        forall|x: A| #[trigger] s.sort_by(ord).contains(x) ==> s.contains(x),
{
    s.lemma_sort_by_ensures(ord);
    vstd::seq_lib::to_multiset_len(s);
    vstd::seq_lib::to_multiset_len(s.sort_by(ord));
}

/// Builds the report over `rows` (see the fields of [`Report`]).
pub fn build_report(rows: &Vec<CompletedReq>, top: usize, slow_ms: u64, include_connect: bool) -> (r: Report)
    ensures
        ({
            let kept = kept_rows(completed_view(rows@), include_connect);
            &&& r.total == kept.len()
            &&& r.errors == kept.filter(error_pred()).len()
            &&& r.latencies@ == kept.map_values(latency_of()).sort_by(u64_le())
            &&& r.p50 == percentile_of(r.latencies@, 50)
            &&& r.p95 == percentile_of(r.latencies@, 95)
            &&& r.p99 == percentile_of(r.latencies@, 99)
            &&& counts_view(r.top_hosts@) == top_counts(kept.map_values(host_of()), top as nat)
            &&& status_view(r.statuses@) == status_counts(kept.map_values(status_of()))
            &&& counts_view(r.top_methods@) == top_counts(kept.map_values(method_of()), top as nat)
            &&& r.slow@.map_values(|i: usize| i as u64) == slowest(
                completed_view(rows@),
                include_connect,
                slow_ms,
                top as nat,
            )
        }),
{
    let ghost rv = completed_view(rows@);
    let n = rows.len();
    let mut total: usize = 0;
    let mut errors: usize = 0;
    let mut lats: Vec<u64> = Vec::new();
    let mut hosts: Vec<String> = Vec::new();
    let mut methods: Vec<String> = Vec::new();
    let mut sts: Vec<u16> = Vec::new();
    let mut slow: Vec<(u64, u64)> = Vec::new();
    let mut i: usize = 0;
    proof {
        reveal(Seq::filter);
        assert(rv.take(0) =~= Seq::<CompletedModel>::empty());
        let k0 = kept_rows(rv.take(0), include_connect);
        assert(k0 =~= Seq::<CompletedModel>::empty());
        assert(lats@ =~= k0.map_values(latency_of()));
        assert(texts(hosts@) =~= k0.map_values(host_of()));
        assert(texts(methods@) =~= k0.map_values(method_of()));
        assert(sts@ =~= k0.map_values(status_of()));
        assert(slow@ =~= slow_rows(rv.take(0), include_connect, slow_ms));
    }
    while i < n
        invariant
            n == rows.len(),
            rv == completed_view(rows@),
            i <= n,
            total <= i,
            errors <= total,
            total == kept_rows(rv.take(i as int), include_connect).len(),
            errors == kept_rows(rv.take(i as int), include_connect).filter(error_pred()).len(),
            lats@ == kept_rows(rv.take(i as int), include_connect).map_values(latency_of()),
            texts(hosts@) == kept_rows(rv.take(i as int), include_connect).map_values(host_of()),
            texts(methods@) == kept_rows(rv.take(i as int), include_connect).map_values(method_of()),
            sts@ == kept_rows(rv.take(i as int), include_connect).map_values(status_of()),
            slow@ == slow_rows(rv.take(i as int), include_connect, slow_ms),
        decreases n - i,
    {
        let ghost k = kept_rows(rv.take(i as int), include_connect);
        let row = &rows[i];
        let ghost x = rv[i as int];
        assert(x == row.model());
        proof {
            lemma_filter_step(rv, i as int, kept_pred(include_connect));
            assert(rv.take(i + 1).drop_last() =~= rv.take(i as int));
        }
        let keep = include_connect || !is_connect_method(row.method.as_str());
        if keep {
            total = total + 1;
            if row.status >= 400 {
                errors = errors + 1;
            }
            lats.push(row.latency_ms);
            let ghost old_hosts = hosts@;
            let ghost old_methods = methods@;
            let h = row.host.clone();
            let m = row.method.clone();
            hosts.push(h);
            methods.push(m);
            sts.push(row.status);
            proof {
                lemma_filter_push(k, x, error_pred());
                assert(lats@ =~= k.push(x).map_values(latency_of()));
                assert(texts(hosts@) =~= texts(old_hosts).push(h@));
                assert(texts(hosts@) =~= k.push(x).map_values(host_of()));
                assert(texts(methods@) =~= texts(old_methods).push(m@));
                assert(texts(methods@) =~= k.push(x).map_values(method_of()));
                assert(sts@ =~= k.push(x).map_values(status_of()));
            }
            if row.latency_ms >= slow_ms {
                slow.push((row.latency_ms, i as u64));
            }
        }
        i = i + 1;
    }
    proof {
        assert(rv.take(n as int) =~= rv);
    }
    let ghost kept = kept_rows(rv, include_connect);
    let latencies = sort_u64(&lats);
    let p50 = percentile(&latencies, 50);
    let p95 = percentile(&latencies, 95);
    let p99 = percentile(&latencies, 99);
    let kk: usize = if top == 0 {
        1
    } else {
        top
    };
    let mut top_hosts = sort_counts(&tally_names(&hosts));
    top_hosts.truncate(kk);
    let mut top_methods = sort_counts(&tally_names(&methods));
    top_methods.truncate(kk);
    let sorted_statuses = sort_int_pairs(&tally_statuses(&sts), false);
    let ghost conv = |e: (u16, nat)| (e.0 as u64, e.1 as u64);
    proof {
        let input = tally(sts@).map_values(conv);
        lemma_sorted_members(input, int_pair_order(false));
        lemma_tally_counts_bounded(sts@);
        assert forall|x: (u64, u64)| #[trigger] sorted_statuses@.contains(x) implies x.0 < 0x10000 && x.1
            <= sts@.len() by {
            let j = choose|j: int| 0 <= j < input.len() && input[j] == x;
            assert(input[j] == conv(tally(sts@)[j]));
        }
    }
    let mut statuses: Vec<(u16, usize)> = Vec::new();
    let mut j: usize = 0;
    while j < sorted_statuses.len()
        invariant
            j <= sorted_statuses.len(),
            sts@.len() <= usize::MAX,
            forall|x: (u64, u64)| #[trigger] sorted_statuses@.contains(x) ==> x.0 < 0x10000 && x.1 <= sts@.len(),
            status_view(statuses@) == sorted_statuses@.take(j as int),
        decreases sorted_statuses.len() - j,
    {
        let e = sorted_statuses[j];
        assert(sorted_statuses@.contains(e));
        let ghost before = statuses@;
        let item = (e.0 as u16, e.1 as usize);
        assert(item.0 as u64 == e.0 && item.1 as u64 == e.1);
        statuses.push(item);
        assert(status_view(statuses@) =~= status_view(before).push(e));
        assert(sorted_statuses@.take(j + 1) =~= sorted_statuses@.take(j as int).push(e));
        j = j + 1;
    }
    assert(sorted_statuses@.take(j as int) =~= sorted_statuses@);
    let mut slow_sorted = sort_int_pairs(&slow, true);
    slow_sorted.truncate(top);
    proof {
        let input = slow_rows(rv, include_connect, slow_ms);
        lemma_sorted_members(input, int_pair_order(true));
        lemma_slow_rows_bounded(rv, include_connect, slow_ms);
        assert forall|x: (u64, u64)| #[trigger] slow_sorted@.contains(x) implies x.1 < n by {
            let a = choose|a: int| 0 <= a < slow_sorted@.len() && slow_sorted@[a] == x;
            assert(input.sort_by(int_pair_order(true)).contains(x));
            let b = choose|b: int| 0 <= b < input.len() && input[b] == x;
            assert(input[b].1 < rv.len());
        }
    }
    let mut slow_idx: Vec<usize> = Vec::new();
    let mut j: usize = 0;
    while j < slow_sorted.len()
        invariant
            j <= slow_sorted.len(),
            n == rows.len(),
            forall|x: (u64, u64)| #[trigger] slow_sorted@.contains(x) ==> x.1 < n,
            slow_idx@.map_values(|i: usize| i as u64) == slow_sorted@.take(j as int).map_values(
                |e: (u64, u64)| e.1,
            ),
        decreases slow_sorted.len() - j,
    {
        let e = slow_sorted[j];
        assert(slow_sorted@.contains(e));
        let ghost before = slow_idx@;
        let ix = e.1 as usize;
        assert(ix as u64 == e.1);
        slow_idx.push(ix);
        assert(slow_idx@.map_values(|i: usize| i as u64) =~= before.map_values(|i: usize| i as u64).push(e.1));
        assert(slow_sorted@.take(j + 1) =~= slow_sorted@.take(j as int).push(e));
        assert(slow_sorted@.take(j + 1).map_values(|e: (u64, u64)| e.1) =~= slow_sorted@.take(j as int).map_values(
            |e: (u64, u64)| e.1,
        ).push(e.1));
        j = j + 1;
    }
    assert(slow_sorted@.take(j as int) =~= slow_sorted@);
    Report {
        total,
        errors,
        latencies,
        p50,
        p95,
        p99,
        top_hosts,
        statuses,
        top_methods,
        slow: slow_idx,
    }
}

/// The number of times `k` occurs in `keys`.
pub open spec fn occurrences<K>(keys: Seq<K>, k: K) -> nat {
    keys.filter(|x: K| x == k).len()
}

/// A tally lists each distinct key once, with the number of times it
/// occurs, and every key is listed.
pub proof fn law_tally_counts<K>(keys: Seq<K>)
    ensures
        forall|i: int| 0 <= i < tally(keys).len() ==> #[trigger] tally(keys)[i].1 == occurrences(keys, tally(keys)[i].0),
        forall|i: int, j: int| 0 <= i < j < tally(keys).len() ==> #[trigger] tally(keys)[i].0 != #[trigger] tally(keys)[j].0,
        forall|j: int| 0 <= j < keys.len() ==> exists|i: int| 0 <= i < tally(keys).len() && #[trigger] tally(keys)[i].0 == #[trigger] keys[j],
    decreases keys.len(),
{
    reveal(Seq::filter);
    if keys.len() > 0 {
        let prev_keys = keys.drop_last();
        let k = keys.last();
        law_tally_counts(prev_keys);
        let prev = tally(prev_keys);
        let t = tally(keys);
        lemma_key_pos(prev, k, 0);
        assert forall|i: int| 0 <= i < t.len() implies #[trigger] t[i].1 == occurrences(keys, t[i].0) by {
            let x = t[i].0;
            assert(keys.filter(|y: K| y == x) == if k == x {
                prev_keys.filter(|y: K| y == x).push(k)
            } else {
                prev_keys.filter(|y: K| y == x)
            });
            if i < prev.len() {
                assert(t[i].0 == prev[i].0);
            } else {
                // the new key: it did not occur before
                assert(x == k);
                if prev_keys.filter(|y: K| y == x).len() > 0 {
                    prev_keys.lemma_filter_pred(|y: K| y == x, 0);
                    lemma_filtered_key_listed(prev_keys, x);
                }
            }
        }
        assert forall|j: int| 0 <= j < keys.len() implies exists|i: int| 0 <= i < t.len() && #[trigger] t[i].0 == #[trigger] keys[j] by {
            if j < prev_keys.len() {
                assert(prev_keys[j] == keys[j]);
                let i = choose|i: int| 0 <= i < prev.len() && prev[i].0 == prev_keys[j];
                assert(t[i].0 == prev[i].0);
            } else {
                match key_pos(prev, k, 0) {
                    Some(p) => {
                        assert(t[p].0 == k);
                    },
                    None => {
                        assert(t[prev.len() as int].0 == k);
                    },
                }
            }
        }
    }
}

/// A key that occurs in `keys` is listed in its tally.
proof fn lemma_filtered_key_listed<K>(keys: Seq<K>, x: K)
    requires
        keys.filter(|y: K| y == x).len() > 0,
    ensures
        exists|i: int| 0 <= i < tally(keys).len() && tally(keys)[i].0 == x,
    decreases keys.len(),
{
    reveal(Seq::filter);
    let prev_keys = keys.drop_last();
    let k = keys.last();
    let prev = tally(prev_keys);
    let t = tally(keys);
    lemma_key_pos(prev, k, 0);
    if k == x {
        match key_pos(prev, k, 0) {
            Some(p) => {
                assert(t[p].0 == x);
            },
            None => {
                assert(t[prev.len() as int].0 == x);
            },
        }
    } else {
        assert(keys.filter(|y: K| y == x) == prev_keys.filter(|y: K| y == x));
        lemma_filtered_key_listed(prev_keys, x);
        let i = choose|i: int| 0 <= i < prev.len() && prev[i].0 == x;
        assert(t[i].0 == prev[i].0);
    }
}

/// Percentiles do not decrease with the percent, over ascending values.
pub proof fn law_percentiles_ordered(sorted: Seq<u64>, p: nat, q: nat)
    requires
        vstd::relations::sorted_by(sorted, u64_le()),
        p <= q,
    ensures
        percentile_of(sorted, p) <= percentile_of(sorted, q),
{
    if sorted.len() > 0 {
        let n = sorted.len();
        assert(p * (n - 1) <= q * (n - 1)) by (nonlinear_arith)
            requires
                p <= q,
                n >= 1,
        ;
        assert((p * (n - 1) + 50) / 100 <= (q * (n - 1) + 50) / 100) by (nonlinear_arith)
            requires
                p * (n - 1) <= q * (n - 1),
        ;
        let a = percentile_index(n, p);
        let b = percentile_index(n, q);
        assert(0 <= a <= b < n);
        if a < b {
            assert(u64_le()(sorted[a], sorted[b]));
        }
    }
}

/// The report covers no more error rows than rows.
pub proof fn law_errors_within_total(rows: Seq<CompletedModel>, include_connect: bool)
    ensures
        kept_rows(rows, include_connect).filter(error_pred()).len() <= kept_rows(rows, include_connect).len(),
{
    kept_rows(rows, include_connect).lemma_filter_len(error_pred());
}

} // verus!
