//! Sorting of integer sequences, with the sorted result tied to its input.

use vstd::prelude::*;
use vstd::relations::{sorted_by, total_ordering};
use vstd::std_specs::iter::IteratorSpec;

verus! {

broadcast use vstd::seq_lib::group_to_multiset_ensures;

/// The ascending order on `u64`.
pub open spec fn ascending(a: u64, b: u64) -> bool {
    a <= b
}

/// The descending order on `u64`.
pub open spec fn descending(a: u64, b: u64) -> bool {
    a >= b
}

/// Both orders above are total orders.
pub proof fn lemma_orders_total()
    ensures
        total_ordering(|a: u64, b: u64| ascending(a, b)),
        total_ordering(|a: u64, b: u64| descending(a, b)),
{
}

/// The sequence sorted in ascending order.
pub open spec fn sorted_ascending(s: Seq<u64>) -> Seq<u64> {
    s.sort_by(|a: u64, b: u64| ascending(a, b))
}

/// The sequence sorted in descending order.
pub open spec fn sorted_descending(s: Seq<u64>) -> Seq<u64> {
    s.sort_by(|a: u64, b: u64| descending(a, b))
}

/// Whether `s` is in ascending order.
pub open spec fn is_ascending(s: Seq<u64>) -> bool {
    forall|i: int, j: int| 0 <= i < j < s.len() ==> s[i] <= s[j]
}

/// Whether `s` is in descending order.
pub open spec fn is_descending(s: Seq<u64>) -> bool {
    forall|i: int, j: int| 0 <= i < j < s.len() ==> s[i] >= s[j]
}

/// A sorted permutation of a sequence is its sorted form.
pub proof fn lemma_sorted_permutation_is_sort(s: Seq<u64>, r: Seq<u64>, desc: bool)
    requires
        r.to_multiset() == s.to_multiset(),
        desc ==> is_descending(r),
        !desc ==> is_ascending(r),
    ensures
        desc ==> r == sorted_descending(s),
        !desc ==> r == sorted_ascending(s),
{
    lemma_orders_total();
    if desc {
        let leq = |a: u64, b: u64| descending(a, b);
        assert(sorted_by(r, leq)) by {
            assert forall|i: int, j: int| 0 <= i < j < r.len() implies #[trigger] leq(r[i], r[j]) by {}
        }
        s.lemma_sort_by_ensures(leq);
        vstd::seq_lib::lemma_sorted_unique(r, s.sort_by(leq), leq);
    } else {
        let leq = |a: u64, b: u64| ascending(a, b);
        assert(sorted_by(r, leq)) by {
            assert forall|i: int, j: int| 0 <= i < j < r.len() implies #[trigger] leq(r[i], r[j]) by {}
        }
        s.lemma_sort_by_ensures(leq);
        vstd::seq_lib::lemma_sorted_unique(r, s.sort_by(leq), leq);
    }
}

/// Whether `a` stays ahead of `x` in the chosen order.
fn goes_before(a: u64, x: u64, desc: bool) -> (r: bool)
    ensures
        r == (if desc {
            a >= x
        } else {
            a <= x
        }),
{
    if desc {
        a >= x
    } else {
        a <= x
    }
}

/// How many elements of `s` are at least `m`.
pub open spec fn count_at_least(s: Seq<u64>, m: u64) -> nat
    decreases s.len(),
{
    if s.len() == 0 {
        0
    } else {
        count_at_least(s.drop_last(), m) + if s.last() >= m {
            1nat
        } else {
            0nat
        }
    }
}

/// Counting over a concatenation adds the counts.
pub proof fn lemma_count_concat(a: Seq<u64>, b: Seq<u64>, m: u64)
    ensures
        count_at_least(a + b, m) == count_at_least(a, m) + count_at_least(b, m),
    decreases b.len(),
{
    if b.len() == 0 {
        assert(a + b =~= a);
    } else {
        assert((a + b).drop_last() =~= a + b.drop_last());
        lemma_count_concat(a, b.drop_last(), m);
    }
}

/// No more elements are counted than there are.
pub proof fn lemma_count_le_len(s: Seq<u64>, m: u64)
    ensures
        count_at_least(s, m) <= s.len(),
    decreases s.len(),
{
    if s.len() > 0 {
        lemma_count_le_len(s.drop_last(), m);
    }
}

/// When every element is at least `m`, all are counted; when none is,
/// none is.
pub proof fn lemma_count_uniform(s: Seq<u64>, m: u64)
    ensures
        (forall|i: int| 0 <= i < s.len() ==> #[trigger] s[i] >= m) ==> count_at_least(s, m) == s.len(),
        (forall|i: int| 0 <= i < s.len() ==> #[trigger] s[i] < m) ==> count_at_least(s, m) == 0,
    decreases s.len(),
{
    if s.len() > 0 {
        let t = s.drop_last();
        assert forall|i: int| 0 <= i < t.len() implies t[i] == s[i] by {}
        lemma_count_uniform(t, m);
        if forall|i: int| 0 <= i < s.len() ==> #[trigger] s[i] >= m {
            assert forall|i: int| 0 <= i < t.len() implies #[trigger] t[i] >= m by {
                assert(t[i] == s[i]);
            }
            assert(s[s.len() - 1] >= m);
        }
        if forall|i: int| 0 <= i < s.len() ==> #[trigger] s[i] < m {
            assert forall|i: int| 0 <= i < t.len() implies #[trigger] t[i] < m by {
                assert(t[i] == s[i]);
            }
            assert(s[s.len() - 1] < m);
        }
    }
}

/// Removing the element at `j` takes it out of the count.
proof fn lemma_count_remove(s: Seq<u64>, j: int, m: u64)
    requires
        0 <= j < s.len(),
    ensures
        count_at_least(s, m) == count_at_least(s.remove(j), m) + if s[j] >= m {
            1nat
        } else {
            0nat
        },
{
    assert(s =~= s.take(j) + (seq![s[j]] + s.skip(j + 1)));
    assert(s.remove(j) =~= s.take(j) + s.skip(j + 1));
    lemma_count_concat(s.take(j), seq![s[j]] + s.skip(j + 1), m);
    lemma_count_concat(seq![s[j]], s.skip(j + 1), m);
    lemma_count_concat(s.take(j), s.skip(j + 1), m);
    assert(seq![s[j]].drop_last() =~= Seq::<u64>::empty());
    assert(count_at_least(Seq::<u64>::empty(), m) == 0);
    assert(seq![s[j]].last() == s[j]);
    assert(count_at_least(seq![s[j]], m) == if s[j] >= m {
        1nat
    } else {
        0nat
    });
}

/// Two sequences holding the same elements count alike.
pub proof fn lemma_count_permutation(s: Seq<u64>, t: Seq<u64>, m: u64)
    requires
        s.to_multiset() == t.to_multiset(),
    ensures
        count_at_least(s, m) == count_at_least(t, m),
    decreases s.len(),
{
    if s.len() == 0 {
        assert(s.to_multiset().len() == s.len());
        assert(t.to_multiset().len() == t.len());
        assert(t.len() == 0);
    } else {
        let x = s.last();
        let s2 = s.drop_last();
        assert(s =~= s2.push(x));
        assert(s.to_multiset() =~= s2.to_multiset().insert(x));
        assert(t.to_multiset().count(x) > 0);
        assert(t.contains(x));
        let j = choose|j: int| 0 <= j < t.len() && t[j] == x;
        let t2 = t.remove(j);
        assert(t2.to_multiset() =~= t.to_multiset().remove(x));
        assert(t2.to_multiset() =~= s2.to_multiset());
        lemma_count_permutation(s2, t2, m);
        lemma_count_remove(t, j, m);
    }
}

/// In a descending sequence, the element at position `q - 1` is at least
/// `m` exactly when at least `q` elements are.
pub proof fn lemma_descending_count(d: Seq<u64>, q: int, m: u64)
    requires
        is_descending(d),
        1 <= q <= d.len(),
    ensures
        d[q - 1] >= m <==> count_at_least(d, m) >= q,
{
    let head = d.take(q);
    let tail = d.skip(q);
    assert(d =~= head + tail);
    lemma_count_concat(head, tail, m);
    lemma_count_le_len(tail, m);
    let head2 = d.take(q - 1);
    let tail2 = d.skip(q - 1);
    assert(d =~= head2 + tail2);
    lemma_count_concat(head2, tail2, m);
    lemma_count_le_len(head2, m);
    if d[q - 1] >= m {
        assert forall|i: int| 0 <= i < head.len() implies #[trigger] head[i] >= m by {
            assert(head[i] == d[i]);
        }
        lemma_count_uniform(head, m);
    } else {
        assert forall|i: int| 0 <= i < tail2.len() implies #[trigger] tail2[i] < m by {
            assert(tail2[i] == d[q - 1 + i]);
        }
        lemma_count_uniform(tail2, m);
    }
}

/// The `q`-th largest element of `s` is at least `m` exactly when at
/// least `q` elements of `s` are.
pub proof fn lemma_sorted_descending_count(s: Seq<u64>, q: int, m: u64)
    requires
        1 <= q <= s.len(),
    ensures
        sorted_descending(s).len() == s.len(),
        sorted_descending(s)[q - 1] >= m <==> count_at_least(s, m) >= q,
{
    lemma_orders_total();
    let leq = |a: u64, b: u64| descending(a, b);
    s.lemma_sort_by_ensures(leq);
    let d = sorted_descending(s);
    assert(d.to_multiset().len() == s.to_multiset().len());
    assert(is_descending(d)) by {
        assert forall|i: int, j: int| 0 <= i < j < d.len() implies d[i] >= d[j] by {
            assert(leq(d[i], d[j]));
        }
    }
    lemma_count_permutation(s, d, m);
    lemma_descending_count(d, q, m);
}

/// Sorts `v` by insertion, ascending when `desc` is false and descending
/// when it is true.
pub fn sort_u64(v: &Vec<u64>, desc: bool) -> (r: Vec<u64>)
    ensures
        desc ==> r@ == sorted_descending(v@),
        !desc ==> r@ == sorted_ascending(v@),
        r@.to_multiset() == v@.to_multiset(),
        r@.len() == v@.len(),
{
    let mut out: Vec<u64> = Vec::new();
    let n = v.len();
    let mut i: usize = 0;
    while i < n
        invariant
            n == v.len(),
            i <= n,
            out@.to_multiset() == v@.take(i as int).to_multiset(),
            desc ==> is_descending(out@),
            !desc ==> is_ascending(out@),
        decreases n - i,
    {
        let x = v[i];
        let mut pos: usize = 0;
        while pos < out.len() && goes_before(out[pos], x, desc)
            invariant
                pos <= out.len(),
                forall|k: int| 0 <= k < pos ==> (if desc { out@[k] >= x } else { out@[k] <= x }),
            decreases out.len() - pos,
        {
            pos = pos + 1;
        }
        proof {
            assert(v@.take(i + 1) =~= v@.take(i as int).push(x));
        }
        let ghost old_out = out@;
        out.insert(pos, x);
        proof {
            assert(out@ =~= old_out.insert(pos as int, x));
            if desc {
                assert forall|a: int, b: int| 0 <= a < b < out@.len() implies out@[a] >= out@[b] by {
                    if b < pos {
                        assert(out@[a] == old_out[a] && out@[b] == old_out[b]);
                    } else if b == pos {
                        assert(out@[a] == old_out[a]);
                    } else if a < pos {
                        assert(out@[a] == old_out[a] && out@[b] == old_out[b - 1]);
                    } else if a == pos {
                        assert(out@[b] == old_out[b - 1]);
                        assert(!(old_out[pos as int] >= x));
                    } else {
                        assert(out@[a] == old_out[a - 1] && out@[b] == old_out[b - 1]);
                    }
                }
            } else {
                assert forall|a: int, b: int| 0 <= a < b < out@.len() implies out@[a] <= out@[b] by {
                    if b < pos {
                        assert(out@[a] == old_out[a] && out@[b] == old_out[b]);
                    } else if b == pos {
                        assert(out@[a] == old_out[a]);
                    } else if a < pos {
                        assert(out@[a] == old_out[a] && out@[b] == old_out[b - 1]);
                    } else if a == pos {
                        assert(out@[b] == old_out[b - 1]);
                        assert(!(old_out[pos as int] <= x));
                    } else {
                        assert(out@[a] == old_out[a - 1] && out@[b] == old_out[b - 1]);
                    }
                }
            }
        }
        i = i + 1;
    }
    proof {
        assert(v@.take(n as int) =~= v@);
        lemma_sorted_permutation_is_sort(v@, out@, desc);
        assert(out@.to_multiset().len() == out@.len());
        assert(v@.to_multiset().len() == v@.len());
    }
    out
}

} // verus!

verus! {

/// Whether `s` is strictly increasing.
pub open spec fn strictly_increasing(s: Seq<u64>) -> bool {
    forall|i: int, j: int| 0 <= i < j < s.len() ==> s[i] < s[j]
}

/// The keys of a map in increasing order.
pub open spec fn keys_in_order<V>(m: Map<u64, V>) -> Seq<u64> {
    choose|s: Seq<u64>| strictly_increasing(s) && s.to_set() == m.dom()
}

/// Two strictly increasing sequences with the same elements are equal.
pub proof fn lemma_increasing_unique(a: Seq<u64>, b: Seq<u64>)
    requires
        strictly_increasing(a),
        strictly_increasing(b),
        a.to_set() == b.to_set(),
    ensures
        a == b,
    decreases a.len() + b.len(),
{
    if a.len() == 0 {
        if b.len() > 0 {
            assert(b.to_set().contains(b[0]));
            assert(a.to_set().contains(b[0]));
        }
        assert(a =~= b);
    } else if b.len() == 0 {
        assert(a.to_set().contains(a[0]));
    } else {
        assert(a.to_set().contains(a[0]));
        assert(b.to_set().contains(b[0]));
        let ia = choose|i: int| 0 <= i < a.len() && a[i] == b[0];
        let ib = choose|i: int| 0 <= i < b.len() && b[i] == a[0];
        assert(a[0] == b[0]) by {
            if ia > 0 {
                assert(a[0] < a[ia]);
            }
            if ib > 0 {
                assert(b[0] < b[ib]);
            }
        }
        let a2 = a.drop_first();
        let b2 = b.drop_first();
        assert(a2.to_set() == b2.to_set()) by {
            assert forall|x: u64| a2.to_set().contains(x) implies b2.to_set().contains(x) by {
                let i = choose|i: int| 0 <= i < a2.len() && a2[i] == x;
                assert(a[i + 1] == x);
                assert(b.to_set().contains(x));
                let j = choose|j: int| 0 <= j < b.len() && b[j] == x;
                if j == 0 {
                    assert(a[0] < a[i + 1]);
                }
                assert(b2[j - 1] == x);
            }
            assert forall|x: u64| b2.to_set().contains(x) implies a2.to_set().contains(x) by {
                let i = choose|i: int| 0 <= i < b2.len() && b2[i] == x;
                assert(b[i + 1] == x);
                assert(a.to_set().contains(x));
                let j = choose|j: int| 0 <= j < a.len() && a[j] == x;
                if j == 0 {
                    assert(b[0] < b[i + 1]);
                }
                assert(a2[j - 1] == x);
            }
            assert(a2.to_set() =~= b2.to_set());
        }
        lemma_increasing_unique(a2, b2);
        assert(a =~= b) by {
            assert forall|i: int| 0 <= i < a.len() implies a[i] == b[i] by {
                if i > 0 {
                    assert(a[i] == a2[i - 1]);
                    assert(b[i] == b2[i - 1]);
                }
            }
        }
    }
}

/// A sequence of references that the map's iterator reports increasing
/// holds increasing numbers.
proof fn lemma_increasing_refs(ks: Seq<&u64>)
    requires
        vstd::std_specs::btree::increasing_seq(ks),
    ensures
        forall|i: int, j: int| 0 <= i < j < ks.len() ==> *ks[i] < *ks[j],
{
    broadcast use vstd::std_specs::btree::group_btree_axioms;
    broadcast use vstd::laws_cmp::group_laws_cmp;
    assert(vstd::laws_cmp::obeys_cmp::<u64>());
    assert(vstd::laws_cmp::obeys_cmp::<&u64>());
    vstd::std_specs::btree::axiom_increasing_seq_meaning::<&u64>(ks);
    assert forall|i: int, j: int| 0 <= i < j < ks.len() implies *ks[i] < *ks[j] by {
        assert(vstd::std_specs::cmp::OrdSpec::cmp_spec(&ks[i], &ks[j]) is Less);
        assert(vstd::std_specs::cmp::OrdSpec::cmp_spec(ks[i], ks[j]) is Less);
    }
}

/// The keys of a `BTreeMap` with `u64` keys, in increasing order.
pub fn map_keys<V>(m: &std::collections::BTreeMap<u64, V>) -> (ks: Vec<u64>)
    ensures
        ks@ == keys_in_order(m@),
        strictly_increasing(ks@),
        ks@.to_set() == m@.dom(),
        ks@.no_duplicates(),
{
    broadcast use vstd::std_specs::btree::group_btree_axioms;
    let mut out: Vec<u64> = Vec::new();
    let ghost ks = vstd::std_specs::btree::spec_keys_iter(m).remaining();
    for k in it: m.keys()
        invariant
            it.seq() == ks,
            out@ == ks.take(it.index() as int).map_values(|r: &u64| *r),
    {
        let ghost prev = out@;
        out.push(*k);
        proof {
            assert(ks.take(it.index() + 1).map_values(|r: &u64| *r) =~= prev.push(*k));
        }
    }
    proof {
        assert(out@ =~= ks.map_values(|r: &u64| *r));
        vstd::std_specs::btree::axiom_spec_keys_iter(m);
        assert(ks.unref() =~= out@);
        lemma_increasing_refs(ks);
        assert(strictly_increasing(out@));
        assert(out@.to_set() =~= m@.dom());
        lemma_increasing_unique(out@, keys_in_order(m@));
    }
    out
}

} // verus!
