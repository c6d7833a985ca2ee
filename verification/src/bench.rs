//! Benchmark summaries: request timings sorted and their percentiles.
use vstd::prelude::*;
use vstd::relations::{sorted_by, total_ordering};
use crate::report::percentile_index;

verus! {

pub open spec fn u128_le() -> spec_fn(u128, u128) -> bool {
    |a: u128, b: u128| a <= b
}

pub proof fn lemma_u128_le_total()
    ensures
        total_ordering(u128_le()),
{
}

/// Millisecond timings in ascending order.
pub fn sort_u128(v: &Vec<u128>) -> (r: Vec<u128>)
    ensures
        r@ == v@.sort_by(u128_le()),
{
    let n = v.len();
    let mut out: Vec<u128> = Vec::new();
    let mut i: usize = 0;
    proof {
        lemma_u128_le_total();
        assert(out@ =~= v@.take(0));
    }
    while i < n
        invariant
            n == v.len(),
            i <= n,
            total_ordering(u128_le()),
            sorted_by(out@, u128_le()),
            out@.to_multiset() == v@.take(i as int).to_multiset(),
        decreases n - i,
    {
        let x = v[i];
        let ghost ov = out@;
        let m = out.len();
        let mut p: usize = 0;
        while p < m && out[p] <= x
            invariant
                m == out.len(),
                ov == out@,
                p <= m,
                forall|j: int| 0 <= j < p ==> #[trigger] ov[j] <= x,
            decreases m - p,
        {
            p = p + 1;
        }
        proof {
            let r = u128_le();
            assert forall|j: int| p <= j < m implies x <= #[trigger] ov[j] by {
                assert(r(ov[p as int], ov[j]));
            }
        }
        out.insert(p, x);
        proof {
            let nv = out@;
            assert(nv =~= ov.insert(p as int, x));
            let r = u128_le();
            assert forall|a: int, b: int| 0 <= a < b < nv.len() implies #[trigger] r(nv[a], nv[b]) by {
                if b < p {
                    assert(r(ov[a], ov[b]));
                } else if a > p {
                    assert(r(ov[a - 1], ov[b - 1]));
                }
            }
            vstd::seq_lib::to_multiset_insert(ov, p as int, x);
            assert(v@.take(i + 1) =~= v@.take(i as int).push(x));
            vstd::seq_lib::to_multiset_build(v@.take(i as int), x);
        }
        i = i + 1;
    }
    proof {
        assert(v@.take(n as int) =~= v@);
        v@.lemma_sort_by_ensures(u128_le());
        vstd::seq_lib::lemma_sorted_unique(out@, v@.sort_by(u128_le()), u128_le());
    }
    out
}

/// The `p`-th percentile (in whole percent) of ascending timings; 0 when
/// there are none.
pub open spec fn timing_percentile(sorted: Seq<u128>, p: nat) -> u128 {
    if sorted.len() == 0 {
        0
    } else {
        sorted[percentile_index(sorted.len(), p)]
    }
}

/// The `p`-th percentile (in whole percent) of ascending timings.
pub fn percentile_u128(sorted: &Vec<u128>, p: u64) -> (r: u128)
    ensures
        r == timing_percentile(sorted@, p as nat),
{
    if sorted.len() == 0 {
        return 0;
    }
    let n1 = (sorted.len() - 1) as u128;
    assert((p as u128) * n1 <= 0xffff_ffff_ffff_ffff * 0xffff_ffff_ffff_ffffu128) by (nonlinear_arith)
        requires
            n1 <= 0xffff_ffff_ffff_ffff,
    ;
    let idx = ((p as u128) * n1 + 50) / 100;
    let last = sorted.len() - 1;
    if idx < last as u128 {
        sorted[idx as usize]
    } else {
        sorted[last]
    }
}

/// What a benchmark run reports, but for its times and rates.
#[derive(Debug)]
pub struct BenchSummary {
    pub ok: usize,
    pub fail: usize,
    /// Requests that were answered or failed.
    pub total: usize,
    /// The timings, ascending.
    pub sorted: Vec<u128>,
    pub p50: u128,
    pub p95: u128,
    pub p99: u128,
}

/// The summary of a run with `ok` successes and `fail` failures and these
/// request timings; `None` when the counts do not fit a `usize` together.
pub fn summarize(ok: usize, fail: usize, timings: &Vec<u128>) -> (r: Option<BenchSummary>)
    ensures
        ok + fail > usize::MAX ==> r is None,
        ok + fail <= usize::MAX ==> (r matches Some(s) && {
            &&& s.ok == ok
            &&& s.fail == fail
            &&& s.total == ok + fail
            &&& s.sorted@ == timings@.sort_by(u128_le())
            &&& s.p50 == timing_percentile(s.sorted@, 50)
            &&& s.p95 == timing_percentile(s.sorted@, 95)
            &&& s.p99 == timing_percentile(s.sorted@, 99)
        }),
{
    let total = match ok.checked_add(fail) {
        Some(t) => t,
        None => return None,
    };
    let sorted = sort_u128(timings);
    let p50 = percentile_u128(&sorted, 50);
    let p95 = percentile_u128(&sorted, 95);
    let p99 = percentile_u128(&sorted, 99);
    Some(BenchSummary { ok, fail, total, sorted, p50, p95, p99 })
}

} // verus!
