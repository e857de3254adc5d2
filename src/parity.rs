//! Sorting an index tuple while tracking the parity of the permutation.
use vstd::prelude::*;
use vstd::relations::{sorted_by, total_ordering};

verus! {

/// The order on indices.
pub open spec fn index_leq() -> spec_fn(usize, usize) -> bool {
    |a: usize, b: usize| a <= b
}

/// The tuple `s` put in ascending order.
pub open spec fn canonical(s: Seq<usize>) -> Seq<usize> {
    s.sort_by(index_leq())
}

/// How many elements of `t` are smaller than `x`.
pub open spec fn count_below(t: Seq<usize>, x: usize) -> nat
    decreases t.len(),
{
    if t.len() == 0 {
        0
    } else {
        (if t[0] < x { 1nat } else { 0nat }) + count_below(t.drop_first(), x)
    }
}

/// The number of pairs of positions `a < b` with `s[a] > s[b]`.
pub open spec fn inversions(s: Seq<usize>) -> nat
    decreases s.len(),
{
    if s.len() == 0 {
        0
    } else {
        count_below(s.drop_first(), s[0]) + inversions(s.drop_first())
    }
}

/// Whether the permutation that sorts `s` is odd.
pub open spec fn odd_parity(s: Seq<usize>) -> bool {
    inversions(s) % 2 == 1
}

/// No two positions of `s` hold the same index.
pub open spec fn distinct(s: Seq<usize>) -> bool {
    forall|a: int, b: int| 0 <= a < b < s.len() ==> s[a] != s[b]
}

/// `s` with the entries at positions `p` and `q` exchanged.
pub open spec fn swapped(s: Seq<usize>, p: int, q: int) -> Seq<usize> {
    s.update(p, s[q]).update(q, s[p])
}

/// The order on indices is total.
pub proof fn lemma_index_leq_total()
    ensures
        total_ordering(index_leq()),
{
}

proof fn lemma_count_below_swap(t: Seq<usize>, j: int, x: usize)
    requires
        0 <= j,
        j + 1 < t.len(),
    ensures
        count_below(swapped(t, j, j + 1), x) == count_below(t, x),
    decreases t.len(),
{
    let u = swapped(t, j, j + 1);
    if j == 0 {
        assert(u.drop_first().drop_first() =~= t.drop_first().drop_first());
        assert(count_below(u.drop_first(), x) == (if u[1] < x { 1nat } else { 0nat })
            + count_below(u.drop_first().drop_first(), x));
        assert(count_below(t.drop_first(), x) == (if t[1] < x { 1nat } else { 0nat })
            + count_below(t.drop_first().drop_first(), x));
    } else {
        assert(u.drop_first() =~= swapped(t.drop_first(), j - 1, j));
        lemma_count_below_swap(t.drop_first(), j - 1, x);
    }
}

/// Exchanging two neighbouring, different entries changes the number of
/// inversions by exactly one.
pub proof fn lemma_adjacent_swap(s: Seq<usize>, j: int)
    requires
        0 <= j,
        j + 1 < s.len(),
        s[j] != s[j + 1],
    ensures
        s[j] > s[j + 1] ==> inversions(swapped(s, j, j + 1)) + 1 == inversions(s),
        s[j] < s[j + 1] ==> inversions(swapped(s, j, j + 1)) == inversions(s) + 1,
    decreases s.len(),
{
    let u = swapped(s, j, j + 1);
    if j == 0 {
        let rest = s.drop_first().drop_first();
        assert(u.drop_first().drop_first() =~= rest);
        assert(u.drop_first() =~= seq![s[0]] + rest);
        assert(s.drop_first() =~= seq![s[1]] + rest);
        assert((seq![s[0]] + rest).drop_first() =~= rest);
        assert((seq![s[1]] + rest).drop_first() =~= rest);
        assert(inversions(s.drop_first()) == count_below(rest, s[1]) + inversions(rest));
        assert(inversions(u.drop_first()) == count_below(rest, s[0]) + inversions(rest));
    } else {
        assert(u.drop_first() =~= swapped(s.drop_first(), j - 1, j));
        lemma_adjacent_swap(s.drop_first(), j - 1);
        lemma_count_below_swap(s.drop_first(), j - 1, s[0]);
    }
}

/// Exchanging any two different entries changes the parity.
pub proof fn lemma_swap_flips_parity(s: Seq<usize>, p: int, q: int)
    requires
        0 <= p < q < s.len(),
        s[p] != s[q],
        distinct(s),
    ensures
        odd_parity(swapped(s, p, q)) != odd_parity(s),
    decreases q - p,
{
    if q == p + 1 {
        lemma_adjacent_swap(s, p);
    } else {
        let s1 = swapped(s, p, p + 1);
        lemma_adjacent_swap(s, p);
        assert(distinct(s1)) by {
            assert forall|a: int, b: int| 0 <= a < b < s1.len() implies s1[a] != s1[b] by {
                let ma = if a == p { p + 1 } else if a == p + 1 { p } else { a };
                let mb = if b == p { p + 1 } else if b == p + 1 { p } else { b };
                assert(s1[a] == s[ma] && s1[b] == s[mb]);
                if ma < mb {
                } else {
                }
            }
        }
        lemma_swap_flips_parity(s1, p + 1, q);
        let s2 = swapped(s1, p + 1, q);
        lemma_adjacent_swap(s2, p);
        assert(swapped(s2, p, p + 1) =~= swapped(s, p, q));
    }
}

/// A tuple in ascending order has no inversions.
proof fn lemma_sorted_no_inversions(s: Seq<usize>)
    requires
        sorted_by(s, index_leq()),
    ensures
        inversions(s) == 0,
    decreases s.len(),
{
    if s.len() > 0 {
        let t = s.drop_first();
        assert forall|k: int| 0 <= k < t.len() implies s[0] <= t[k] by {
            assert(index_leq()(s[0], s[k + 1]));
        }
        lemma_count_none_below(t, s[0]);
        assert(sorted_by(t, index_leq())) by {
            assert forall|a: int, b: int| 0 <= a < b < t.len() implies index_leq()(t[a], t[b]) by {
                assert(index_leq()(s[a + 1], s[b + 1]));
            }
        }
        lemma_sorted_no_inversions(t);
    }
}

proof fn lemma_count_none_below(t: Seq<usize>, x: usize)
    requires
        forall|k: int| 0 <= k < t.len() ==> x <= t[k],
    ensures
        count_below(t, x) == 0,
    decreases t.len(),
{
    if t.len() > 0 {
        lemma_count_none_below(t.drop_first(), x);
    }
}

/// The ascending order of a tuple is the only ascending tuple with the same entries.
pub proof fn lemma_canonical_unique(s: Seq<usize>, r: Seq<usize>)
    requires
        sorted_by(r, index_leq()),
        r.to_multiset() == s.to_multiset(),
    ensures
        r == canonical(s),
{
    lemma_index_leq_total();
    s.lemma_sort_by_ensures(index_leq());
    vstd::seq_lib::lemma_sorted_unique(r, canonical(s), index_leq());
}

/// Tuples with the same entries have the same ascending order.
pub proof fn lemma_canonical_of_permutation(s: Seq<usize>, t: Seq<usize>)
    requires
        s.to_multiset() == t.to_multiset(),
    ensures
        canonical(s) == canonical(t),
{
    lemma_index_leq_total();
    s.lemma_sort_by_ensures(index_leq());
    t.lemma_sort_by_ensures(index_leq());
    vstd::seq_lib::lemma_sorted_unique(canonical(s), canonical(t), index_leq());
}

/// Exchanging two entries keeps the entries.
pub proof fn lemma_swapped_same_entries(s: Seq<usize>, p: int, q: int)
    requires
        0 <= p < q < s.len(),
    ensures
        swapped(s, p, q).to_multiset() == s.to_multiset(),
{
    broadcast use vstd::seq_lib::group_to_multiset_ensures;

    let s1 = s.update(p, s[q]);
    vstd::seq_lib::to_multiset_update(s, p, s[q]);
    vstd::seq_lib::to_multiset_update(s1, q, s[p]);
    assert(s1.to_multiset() == s.to_multiset().insert(s[q]).remove(s[p]));
    assert(swapped(s, p, q).to_multiset() == s1.to_multiset().insert(s[p]).remove(s1[q]));
    assert(s.to_multiset().insert(s[q]).remove(s[p]).insert(s[p]).remove(s[q])
        =~= s.to_multiset());
}

/// Sorts the indices ascending by exchanging neighbours and returns them with
/// the parity of the permutation: `false` if even, `true` if odd.
pub fn sorted<const N: usize>(arr: [usize; N]) -> (r: ([usize; N], bool))
    ensures
        r.0@ == canonical(arr@),
        r.1 == odd_parity(arr@),
{
    let mut a = arr;
    let mut odd = false;
    let mut i: usize = 0;
    while i < N
        invariant
            i <= N,
            a@.len() == N,
            a@.to_multiset() == arr@.to_multiset(),
            forall|x: int, y: int| 0 <= x < y < i ==> a@[x] <= a@[y],
            odd != odd_parity(a@) == odd_parity(arr@),
        decreases N - i,
    {
        let mut j: usize = i;
        while j > 0 && a[j - 1] > a[j]
            invariant
                i < N,
                j <= i,
                a@.len() == N,
                a@.to_multiset() == arr@.to_multiset(),
                odd != odd_parity(a@) == odd_parity(arr@),
                forall|x: int, y: int| 0 <= x < y <= i && x != j && y != j ==> a@[x] <= a@[y],
                forall|y: int| j < y <= i ==> a@[j as int] < a@[y],
            decreases j,
        {
            let lo = a[j - 1];
            let hi = a[j];
            let ghost before = a@;
            proof {
                lemma_adjacent_swap(before, j - 1);
                lemma_swapped_same_entries(before, j - 1, j as int);
            }
            a[j - 1] = hi;
            a[j] = lo;
            assert(a@ =~= swapped(before, j - 1, j as int));
            odd = !odd;
            j = j - 1;
        }
        assert forall|x: int, y: int| 0 <= x < y < i + 1 implies a@[x] <= a@[y] by {
            if y == j && x < j - 1 {
                assert(a@[x] <= a@[j - 1]);
            }
        }
        i = i + 1;
    }
    assert(sorted_by(a@, index_leq()));
    proof {
        lemma_canonical_unique(arr@, a@);
        lemma_sorted_no_inversions(a@);
    }
    (a, odd)
}

} // verus!
