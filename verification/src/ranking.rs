//! Sorting for the diagnostics report: latencies, (number, number) pairs and
//! (name, count) entries.
use vstd::prelude::*;
use vstd::relations::{sorted_by, total_ordering};
use crate::order::{
    lemma_text_le_antisymmetric, lemma_text_le_reflexive, lemma_text_le_total,
    lemma_text_le_transitive, str_le, text_le,
};

verus! {

pub open spec fn u64_le() -> spec_fn(u64, u64) -> bool {
    |a: u64, b: u64| a <= b
}

/// Pairs of numbers ordered by their first component (descending when
/// `first_desc`, else ascending), then by the second, ascending.
pub open spec fn int_pair_le(first_desc: bool, a: (u64, u64), b: (u64, u64)) -> bool {
    if a.0 != b.0 {
        if first_desc {
            a.0 > b.0
        } else {
            a.0 < b.0
        }
    } else {
        a.1 <= b.1
    }
}

pub open spec fn int_pair_order(first_desc: bool) -> spec_fn((u64, u64), (u64, u64)) -> bool {
    |a: (u64, u64), b: (u64, u64)| int_pair_le(first_desc, a, b)
}

/// (name, count) entries ranked by count, highest first, then by name.
pub open spec fn rank_le(a: (Seq<char>, nat), b: (Seq<char>, nat)) -> bool {
    a.1 > b.1 || (a.1 == b.1 && text_le(a.0, b.0))
}

pub open spec fn rank_order() -> spec_fn((Seq<char>, nat), (Seq<char>, nat)) -> bool {
    |a: (Seq<char>, nat), b: (Seq<char>, nat)| rank_le(a, b)
}

pub open spec fn counts_view(v: Seq<(String, usize)>) -> Seq<(Seq<char>, nat)> {
    v.map_values(|e: (String, usize)| (e.0@, e.1 as nat))
}

pub proof fn lemma_u64_le_total()
    ensures
        total_ordering(u64_le()),
{
}

pub proof fn lemma_int_pair_order_total(first_desc: bool)
    ensures
        total_ordering(int_pair_order(first_desc)),
{
}

pub proof fn lemma_rank_order_total()
    ensures
        total_ordering(rank_order()),
{
    let r = rank_order();
    assert forall|x: (Seq<char>, nat)| #[trigger] r(x, x) by {
        lemma_text_le_reflexive(x.0);
    }
    assert forall|x: (Seq<char>, nat), y: (Seq<char>, nat)|
        #[trigger] r(x, y) && #[trigger] r(y, x) implies x == y by {
        lemma_text_le_antisymmetric(x.0, y.0);
    }
    assert forall|x: (Seq<char>, nat), y: (Seq<char>, nat), z: (Seq<char>, nat)|
        #[trigger] r(x, y) && #[trigger] r(y, z) implies r(x, z) by {
        if x.1 == y.1 && y.1 == z.1 {
            lemma_text_le_transitive(x.0, y.0, z.0);
        }
    }
    assert forall|x: (Seq<char>, nat), y: (Seq<char>, nat)| #[trigger] r(x, y) || #[trigger] r(y, x) by {
        lemma_text_le_total(x.0, y.0);
    }
}

/// Latencies in ascending order.
pub fn sort_u64(v: &Vec<u64>) -> (r: Vec<u64>)
    ensures
        r@ == v@.sort_by(u64_le()),
{
    let n = v.len();
    let mut out: Vec<u64> = Vec::new();
    let mut i: usize = 0;
    proof {
        lemma_u64_le_total();
        assert(out@ =~= v@.take(0));
    }
    while i < n
        invariant
            n == v.len(),
            i <= n,
            total_ordering(u64_le()),
            sorted_by(out@, u64_le()),
            out@.to_multiset() == v@.take(i as int).to_multiset(),
        decreases n - i,
    {
        let x = v[i];
        let ghost ov = out@;
        let m = out.len();
        let mut p: usize = 0;
        while p < m && out[p] <= x
            invariant
                m == out.len(),
                ov == out@,
                p <= m,
                forall|j: int| 0 <= j < p ==> #[trigger] ov[j] <= x,
            decreases m - p,
        {
            p = p + 1;
        }
        proof {
            let r = u64_le();
            assert forall|j: int| p <= j < m implies x <= #[trigger] ov[j] by {
                assert(r(ov[p as int], ov[j]));
            }
        }
        out.insert(p, x);
        proof {
            let nv = out@;
            assert(nv =~= ov.insert(p as int, x));
            let r = u64_le();
            assert forall|a: int, b: int| 0 <= a < b < nv.len() implies #[trigger] r(nv[a], nv[b]) by {
                if b < p {
                    assert(r(ov[a], ov[b]));
                } else if a > p {
                    assert(r(ov[a - 1], ov[b - 1]));
                }
            }
            vstd::seq_lib::to_multiset_insert(ov, p as int, x);
            assert(v@.take(i + 1) =~= v@.take(i as int).push(x));
            vstd::seq_lib::to_multiset_build(v@.take(i as int), x);
        }
        i = i + 1;
    }
    proof {
        assert(v@.take(n as int) =~= v@);
        v@.lemma_sort_by_ensures(u64_le());
        vstd::seq_lib::lemma_sorted_unique(out@, v@.sort_by(u64_le()), u64_le());
    }
    out
}

/// Number pairs sorted by [`int_pair_le`].
pub fn sort_int_pairs(v: &Vec<(u64, u64)>, first_desc: bool) -> (r: Vec<(u64, u64)>)
    ensures
        r@ == v@.sort_by(int_pair_order(first_desc)),
{
    let ghost ord = int_pair_order(first_desc);
    let n = v.len();
    let mut out: Vec<(u64, u64)> = Vec::new();
    let mut i: usize = 0;
    proof {
        lemma_int_pair_order_total(first_desc);
        assert(out@ =~= v@.take(0));
    }
    while i < n
        invariant
            n == v.len(),
            i <= n,
            ord == int_pair_order(first_desc),
            total_ordering(ord),
            sorted_by(out@, ord),
            out@.to_multiset() == v@.take(i as int).to_multiset(),
        decreases n - i,
    {
        let x = v[i];
        let ghost ov = out@;
        let m = out.len();
        let mut p: usize = 0;
        while p < m
            invariant
                m == out.len(),
                ov == out@,
                p <= m,
                forall|j: int| 0 <= j < p ==> int_pair_le(first_desc, #[trigger] ov[j], x),
            ensures
                p <= m,
                forall|j: int| 0 <= j < p ==> int_pair_le(first_desc, #[trigger] ov[j], x),
                p < m ==> !int_pair_le(first_desc, ov[p as int], x),
            decreases m - p,
        {
            let y = out[p];
            let le = if y.0 != x.0 {
                if first_desc {
                    y.0 > x.0
                } else {
                    y.0 < x.0
                }
            } else {
                y.1 <= x.1
            };
            if !le {
                break;
            }
            p = p + 1;
        }
        proof {
            assert forall|j: int| p <= j < m implies int_pair_le(first_desc, x, #[trigger] ov[j]) by {
                assert(ord(ov[p as int], ov[j]));
            }
        }
        out.insert(p, x);
        proof {
            let nv = out@;
            assert(nv =~= ov.insert(p as int, x));
            assert forall|a: int, b: int| 0 <= a < b < nv.len() implies #[trigger] ord(nv[a], nv[b]) by {
                if b < p {
                    assert(ord(ov[a], ov[b]));
                } else if b == p {
                    assert(nv[b] == x);
                } else if a < p {
                    assert(ord(ov[a], x) && ord(x, ov[b - 1]));
                } else if a == p {
                    assert(nv[a] == x);
                } else {
                    assert(ord(ov[a - 1], ov[b - 1]));
                }
            }
            vstd::seq_lib::to_multiset_insert(ov, p as int, x);
            assert(v@.take(i + 1) =~= v@.take(i as int).push(x));
            vstd::seq_lib::to_multiset_build(v@.take(i as int), x);
        }
        i = i + 1;
    }
    proof {
        assert(v@.take(n as int) =~= v@);
        v@.lemma_sort_by_ensures(ord);
        vstd::seq_lib::lemma_sorted_unique(out@, v@.sort_by(ord), ord);
    }
    out
}

/// (name, count) entries sorted by [`rank_le`].
pub fn sort_counts(v: &Vec<(String, usize)>) -> (r: Vec<(String, usize)>)
    ensures
        counts_view(r@) == counts_view(v@).sort_by(rank_order()),
{
    let ghost input = counts_view(v@);
    let ghost ord = rank_order();
    let n = v.len();
    let mut out: Vec<(String, usize)> = Vec::new();
    let mut i: usize = 0;
    proof {
        lemma_rank_order_total();
        assert(counts_view(out@) =~= input.take(0));
    }
    while i < n
        invariant
            n == v.len(),
            input == counts_view(v@),
            ord == rank_order(),
            i <= n,
            total_ordering(ord),
            sorted_by(counts_view(out@), ord),
            counts_view(out@).to_multiset() == input.take(i as int).to_multiset(),
        decreases n - i,
    {
        let k = v[i].0.clone();
        let c = v[i].1;
        let ghost h = (k@, c as nat);
        assert(h == input[i as int]);
        let ghost ov = counts_view(out@);
        let m = out.len();
        let mut p: usize = 0;
        while p < m
            invariant
                m == out.len(),
                ov == counts_view(out@),
                p <= m,
                h == (k@, c as nat),
                forall|j: int| 0 <= j < p ==> rank_le(#[trigger] ov[j], h),
            ensures
                p <= m,
                forall|j: int| 0 <= j < p ==> rank_le(#[trigger] ov[j], h),
                p < m ==> !rank_le(ov[p as int], h),
            decreases m - p,
        {
            let y = out[p].1;
            let le = y > c || (y == c && str_le(out[p].0.as_str(), k.as_str()));
            assert(ov[p as int] == (out@[p as int].0@, out@[p as int].1 as nat));
            if !le {
                break;
            }
            p = p + 1;
        }
        proof {
            assert forall|j: int| p <= j < m implies rank_le(h, #[trigger] ov[j]) by {
                assert(ord(ov[p as int], h) || ord(h, ov[p as int]));
                if j > p {
                    assert(ord(ov[p as int], ov[j]));
                    assert(ord(h, ov[p as int]) && ord(ov[p as int], ov[j]));
                }
            }
        }
        out.insert(p, (k, c));
        proof {
            let nv = counts_view(out@);
            assert(nv =~= ov.insert(p as int, h));
            assert forall|a: int, b: int| 0 <= a < b < nv.len() implies #[trigger] ord(nv[a], nv[b]) by {
                if b < p {
                    assert(ord(ov[a], ov[b]));
                } else if b == p {
                    assert(nv[b] == h);
                } else if a < p {
                    assert(ord(ov[a], h) && ord(h, ov[b - 1]));
                } else if a == p {
                    assert(nv[a] == h);
                } else {
                    assert(ord(ov[a - 1], ov[b - 1]));
                }
            }
            vstd::seq_lib::to_multiset_insert(ov, p as int, h);
            assert(input.take(i + 1) =~= input.take(i as int).push(h));
            vstd::seq_lib::to_multiset_build(input.take(i as int), h);
        }
        i = i + 1;
    }
    proof {
        assert(input.take(n as int) =~= input);
        input.lemma_sort_by_ensures(ord);
        vstd::seq_lib::lemma_sorted_unique(counts_view(out@), input.sort_by(ord), ord);
    }
    out
}

} // verus!
