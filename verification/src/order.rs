//! The order of `String`s (lexicographic by code point, which is the byte
//! order of their UTF-8 encodings) and of header pairs.
use vstd::prelude::*;
use vstd::relations::{sorted_by, total_ordering};
use crate::text::chars_of;

verus! {

/// `a <= b` for `str`'s `Ord`.
pub open spec fn text_le(a: Seq<char>, b: Seq<char>) -> bool
    decreases a.len(),
{
    if a.len() == 0 {
        true
    } else if b.len() == 0 {
        false
    } else if a[0] != b[0] {
        (a[0] as u32) < (b[0] as u32)
    } else {
        text_le(a.drop_first(), b.drop_first())
    }
}

/// Order of header pairs: by name, then by value.
pub open spec fn pair_le(x: (Seq<char>, Seq<char>), y: (Seq<char>, Seq<char>)) -> bool {
    (x.0 != y.0 && text_le(x.0, y.0)) || (x.0 == y.0 && text_le(x.1, y.1))
}

pub open spec fn pair_order() -> spec_fn((Seq<char>, Seq<char>), (Seq<char>, Seq<char>)) -> bool {
    |x: (Seq<char>, Seq<char>), y: (Seq<char>, Seq<char>)| pair_le(x, y)
}

pub proof fn lemma_char_u32_injective(a: char, b: char)
    ensures
        (a as u32) == (b as u32) ==> a == b,
{
    vstd::utf8::char_u32_cast(a, a as u32);
    vstd::utf8::char_u32_cast(b, b as u32);
}

pub proof fn lemma_text_le_reflexive(a: Seq<char>)
    ensures
        text_le(a, a),
    decreases a.len(),
{
    if a.len() > 0 {
        lemma_text_le_reflexive(a.drop_first());
    }
}

pub proof fn lemma_text_le_antisymmetric(a: Seq<char>, b: Seq<char>)
    requires
        text_le(a, b),
        text_le(b, a),
    ensures
        a == b,
    decreases a.len(),
{
    if a.len() > 0 && b.len() > 0 {
        if a[0] == b[0] {
            lemma_text_le_antisymmetric(a.drop_first(), b.drop_first());
            assert(a =~= seq![a[0]] + a.drop_first());
            assert(b =~= seq![b[0]] + b.drop_first());
        }
    } else {
        assert(a =~= b);
    }
}

pub proof fn lemma_text_le_transitive(a: Seq<char>, b: Seq<char>, c: Seq<char>)
    requires
        text_le(a, b),
        text_le(b, c),
    ensures
        text_le(a, c),
    decreases a.len(),
{
    if a.len() > 0 && b.len() > 0 && c.len() > 0 {
        lemma_char_u32_injective(a[0], c[0]);
        lemma_char_u32_injective(a[0], b[0]);
        lemma_char_u32_injective(b[0], c[0]);
        if a[0] == b[0] && b[0] == c[0] {
            lemma_text_le_transitive(a.drop_first(), b.drop_first(), c.drop_first());
        }
    }
}

pub proof fn lemma_text_le_total(a: Seq<char>, b: Seq<char>)
    ensures
        text_le(a, b) || text_le(b, a),
    decreases a.len(),
{
    if a.len() > 0 && b.len() > 0 {
        if a[0] == b[0] {
            lemma_text_le_total(a.drop_first(), b.drop_first());
        } else {
            lemma_char_u32_injective(a[0], b[0]);
        }
    }
}

/// The header-pair order is a total order.
pub proof fn lemma_pair_order_total()
    ensures
        total_ordering(pair_order()),
{
    let r = pair_order();
    assert forall|x: (Seq<char>, Seq<char>)| #[trigger] r(x, x) by {
        lemma_text_le_reflexive(x.1);
    }
    assert forall|x: (Seq<char>, Seq<char>), y: (Seq<char>, Seq<char>)|
        #[trigger] r(x, y) && #[trigger] r(y, x) implies x == y by {
        if x.0 == y.0 {
            lemma_text_le_antisymmetric(x.1, y.1);
        } else {
            lemma_text_le_antisymmetric(x.0, y.0);
        }
    }
    assert forall|x: (Seq<char>, Seq<char>), y: (Seq<char>, Seq<char>), z: (Seq<char>, Seq<char>)|
        #[trigger] r(x, y) && #[trigger] r(y, z) implies r(x, z) by {
        if x.0 == y.0 && y.0 == z.0 {
            lemma_text_le_transitive(x.1, y.1, z.1);
        } else if x.0 != y.0 && y.0 != z.0 {
            lemma_text_le_transitive(x.0, y.0, z.0);
            if x.0 == z.0 {
                lemma_text_le_antisymmetric(x.0, y.0);
            }
        }
    }
    assert forall|x: (Seq<char>, Seq<char>), y: (Seq<char>, Seq<char>)|
        #[trigger] r(x, y) || #[trigger] r(y, x) by {
        lemma_text_le_total(x.0, y.0);
        lemma_text_le_total(x.1, y.1);
    }
}

/// Exec `a <= b` on character vectors.
pub fn chars_le(a: &Vec<char>, b: &Vec<char>) -> (r: bool)
    ensures
        r == text_le(a@, b@),
{
    let mut i: usize = 0;
    assert(a@.skip(0) =~= a@);
    assert(b@.skip(0) =~= b@);
    while i < a.len() && i < b.len() && a[i] == b[i]
        invariant
            i <= a.len(),
            i <= b.len(),
            text_le(a@, b@) == text_le(a@.skip(i as int), b@.skip(i as int)),
        decreases a.len() - i,
    {
        assert(a@.skip(i as int).drop_first() =~= a@.skip(i + 1));
        assert(b@.skip(i as int).drop_first() =~= b@.skip(i + 1));
        i = i + 1;
    }
    if i == a.len() {
        true
    } else if i == b.len() {
        false
    } else {
        (a[i] as u32) < (b[i] as u32)
    }
}

/// Exec `a <= b` on strings.
pub fn str_le(a: &str, b: &str) -> (r: bool)
    ensures
        r == text_le(a@, b@),
{
    chars_le(&chars_of(a), &chars_of(b))
}

/// The views of header pairs.
pub open spec fn pairs_view(v: Seq<(String, String)>) -> Seq<(Seq<char>, Seq<char>)> {
    v.map_values(|p: (String, String)| (p.0@, p.1@))
}

/// Header pairs sorted by name, then value (`normalize_headers`).
pub fn sort_pairs(headers: &Vec<(String, String)>) -> (r: Vec<(String, String)>)
    ensures
        pairs_view(r@) == pairs_view(headers@).sort_by(pair_order()),
{
    let ghost input = pairs_view(headers@);
    let n = headers.len();
    let mut out: Vec<(String, String)> = Vec::new();
    let mut i: usize = 0;
    proof {
        lemma_pair_order_total();
        assert(pairs_view(out@) =~= input.take(0));
    }
    while i < n
        invariant
            n == headers.len(),
            input == pairs_view(headers@),
            i <= n,
            total_ordering(pair_order()),
            sorted_by(pairs_view(out@), pair_order()),
            pairs_view(out@).to_multiset() == input.take(i as int).to_multiset(),
        decreases n - i,
    {
        let k = headers[i].0.clone();
        let v = headers[i].1.clone();
        let ghost h = (k@, v@);
        assert(h == input[i as int]);
        let kc = chars_of(k.as_str());
        let vc = chars_of(v.as_str());
        let ghost ov = pairs_view(out@);
        let m = out.len();
        let mut p: usize = 0;
        while p < m
            invariant
                m == out.len(),
                ov == pairs_view(out@),
                p <= m,
                kc@ == h.0,
                vc@ == h.1,
                forall|j: int| 0 <= j < p ==> pair_le(#[trigger] ov[j], h),
            ensures
                p <= m,
                forall|j: int| 0 <= j < p ==> pair_le(#[trigger] ov[j], h),
                p < m ==> !pair_le(ov[p as int], h),
            decreases m - p,
        {
            let ok = chars_of(out[p].0.as_str());
            let le = if chars_le(&ok, &kc) {
                if chars_le(&kc, &ok) {
                    chars_le(&chars_of(out[p].1.as_str()), &vc)
                } else {
                    true
                }
            } else {
                false
            };
            assert(ov[p as int] == (out@[p as int].0@, out@[p as int].1@));
            proof {
                let x = ov[p as int];
                if text_le(x.0, h.0) && text_le(h.0, x.0) {
                    lemma_text_le_antisymmetric(x.0, h.0);
                }
                if x.0 == h.0 {
                    lemma_text_le_reflexive(x.0);
                }
            }
            if !le {
                break;
            }
            p = p + 1;
        }
        proof {
            // everything from `p` on is above `h`
            assert forall|j: int| p <= j < m implies pair_le(h, #[trigger] ov[j]) by {
                let r = pair_order();
                if p < m {
                    assert(!pair_le(ov[p as int], h));
                    assert(r(ov[p as int], h) || r(h, ov[p as int]));
                    if j > p {
                        assert(r(ov[p as int], ov[j]));
                        assert(r(h, ov[p as int]) && r(ov[p as int], ov[j]));
                    }
                }
            }
        }
        out.insert(p, (k, v));
        proof {
            let nv = pairs_view(out@);
            assert(nv =~= ov.insert(p as int, h));
            let r = pair_order();
            assert forall|a: int, b: int| 0 <= a < b < nv.len() implies #[trigger] r(nv[a], nv[b]) by {
                if b < p {
                    assert(r(ov[a], ov[b]));
                } else if b == p {
                    assert(nv[b] == h);
                } else if a < p {
                    assert(r(ov[a], h) && r(h, ov[b - 1]));
                } else if a == p {
                    assert(nv[a] == h);
                } else {
                    assert(r(ov[a - 1], ov[b - 1]));
                }
            }
            vstd::seq_lib::to_multiset_insert(ov, p as int, h);
            assert(input.take(i + 1) =~= input.take(i as int).push(h));
            vstd::seq_lib::to_multiset_build(input.take(i as int), h);
        }
        i = i + 1;
    }
    proof {
        assert(input.take(n as int) =~= input);
        input.lemma_sort_by_ensures(pair_order());
        vstd::seq_lib::lemma_sorted_unique(
            pairs_view(out@),
            input.sort_by(pair_order()),
            pair_order(),
        );
    }
    out
}

/// Sorting header pairs twice is sorting them once.
pub proof fn law_sort_pairs_idempotent(h: Seq<(Seq<char>, Seq<char>)>)
    ensures
        h.sort_by(pair_order()).sort_by(pair_order()) == h.sort_by(pair_order()),
{
    lemma_pair_order_total();
    let s = h.sort_by(pair_order());
    h.lemma_sort_by_ensures(pair_order());
    s.lemma_sort_by_ensures(pair_order());
    vstd::seq_lib::lemma_sorted_unique(s.sort_by(pair_order()), s, pair_order());
}

/// Header lists that hold the same pairs, in whatever order, sort alike
/// (so their normalized hash is the same).
pub proof fn law_sort_pairs_ignores_order(a: Seq<(Seq<char>, Seq<char>)>, b: Seq<(Seq<char>, Seq<char>)>)
    requires
        a.to_multiset() == b.to_multiset(),
    ensures
        a.sort_by(pair_order()) == b.sort_by(pair_order()),
{
    lemma_pair_order_total();
    a.lemma_sort_by_ensures(pair_order());
    b.lemma_sort_by_ensures(pair_order());
    vstd::seq_lib::lemma_sorted_unique(a.sort_by(pair_order()), b.sort_by(pair_order()), pair_order());
}

} // verus!
