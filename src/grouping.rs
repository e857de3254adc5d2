//! The terms of the expansion grouped by ε-factor, in ascending order.
use vstd::prelude::*;

use fnv::FnvHashMap;

use crate::expansion::{entries_view, entry_view, expansion, largest_efactor, term_ok, terms};
use crate::symbolic::{EFactor, Term, TermSum, TermView};

verus! {

/// The terms of `ts` with ε-factor `e`, in their order.
pub open spec fn terms_with(ts: Seq<(EFactor, Term)>, e: u64) -> Seq<Term>
    decreases ts.len(),
{
    if ts.len() == 0 {
        Seq::empty()
    } else {
        let init = terms_with(ts.drop_last(), e);
        if ts.last().0.0 == e {
            init.push(ts.last().1)
        } else {
            init
        }
    }
}

/// The FNV hasher, carried opaquely inside the maps that use it.
#[verifier::external_type_specification]
#[verifier::external_body]
pub struct ExFnvHasher(fnv::FnvHasher);

/// The builder of default-constructed hashers, carried opaquely.
#[verifier::external_type_specification]
#[verifier::external_body]
#[verifier::reject_recursive_types(H)]
pub struct ExBuildHasherDefault<H>(std::hash::BuildHasherDefault<H>);

/// Relies on `FnvHashMap::default`, a `std::collections::HashMap` with the FNV
/// hasher: a new map is empty.
#[verifier::external_body]
fn new_buckets() -> (r: FnvHashMap<u64, Vec<Term>>)
    ensures
        r@.dom().is_empty(),
{
    FnvHashMap::default()
}

/// Relies on `HashMap::remove` under the FNV hasher: it takes the entry of `k`
/// out of the map and returns its value, if there was one.
#[verifier::external_body]
fn take_bucket(m: &mut FnvHashMap<u64, Vec<Term>>, k: u64) -> (r: Option<Vec<Term>>)
    ensures
        final(m)@ == old(m)@.remove(k),
        r == (if old(m)@.contains_key(k) { Some(old(m)@[k]) } else { None }),
{
    m.remove(&k)
}

/// Relies on `HashMap::insert` under the FNV hasher: afterwards `k` maps to `v`.
#[verifier::external_body]
fn put_bucket(m: &mut FnvHashMap<u64, Vec<Term>>, k: u64, v: Vec<Term>)
    ensures
        final(m)@ == old(m)@.insert(k, v),
{
    m.insert(k, v);
}

/// Relies on `HashMap::keys` under the FNV hasher: each key of the map once,
/// in an order that the hasher decides.
#[verifier::external_body]
fn bucket_keys(m: &FnvHashMap<u64, Vec<Term>>) -> (r: Vec<u64>)
    ensures
        r@.no_duplicates(),
        r@.to_set() == m@.dom(),
{
    m.keys().copied().collect()
}

/// Sorts `v` ascending.
fn sort_keys(v: Vec<u64>) -> (r: Vec<u64>)
    ensures
        r@.to_multiset() == v@.to_multiset(),
        forall|a: int, b: int| 0 <= a < b < r@.len() ==> r@[a] <= r@[b],
{
    let mut a = v;
    let mut i: usize = 0;
    while i < a.len()
        invariant
            i <= a@.len(),
            a@.len() == v@.len(),
            a@.to_multiset() == v@.to_multiset(),
            forall|x: int, y: int| 0 <= x < y < i ==> a@[x] <= a@[y],
        decreases a@.len() - i,
    {
        let mut j: usize = i;
        while j > 0 && a[j - 1] > a[j]
            invariant
                i < a@.len(),
                j <= i,
                a@.len() == v@.len(),
                a@.to_multiset() == v@.to_multiset(),
                forall|x: int, y: int| 0 <= x < y <= i && x != j && y != j ==> a@[x] <= a@[y],
                forall|y: int| j < y <= i ==> a@[j as int] < a@[y],
            decreases j,
        {
            let lo = a[j - 1];
            let hi = a[j];
            let ghost before = a@;
            a.set(j - 1, hi);
            a.set(j, lo);
            proof {
                broadcast use vstd::seq_lib::group_to_multiset_ensures;

                let mid = before.update(j - 1, hi);
                vstd::seq_lib::to_multiset_update(before, j - 1, hi);
                vstd::seq_lib::to_multiset_update(mid, j as int, lo);
                assert(a@ == mid.update(j as int, lo));
                assert(before.to_multiset().insert(hi).remove(lo).insert(lo).remove(hi) =~= before.to_multiset());
            }
            j = j - 1;
        }
        assert forall|x: int, y: int| 0 <= x < y < i + 1 implies a@[x] <= a@[y] by {
            if y == j && x < j - 1 {
                assert(a@[x] <= a@[j - 1]);
            }
        }
        i = i + 1;
    }
    a
}

/// Some sum of `sums` has the ε-factor `e`.
pub open spec fn has_factor(sums: Seq<(EFactor, TermSum)>, e: EFactor) -> bool {
    exists|k: int| 0 <= k < sums.len() && sums[k].0 == e
}

/// Groups the terms of `ts` by ε-factor: one sum per ε-factor that occurs, in
/// ascending order, holding the terms with that ε-factor in their order.
pub fn group_terms(ts: Vec<(EFactor, Term)>) -> (r: Vec<(EFactor, TermSum)>)
    ensures
        forall|a: int, b: int| 0 <= a < b < r@.len() ==> r@[a].0.0 < r@[b].0.0,
        forall|k: int| 0 <= k < r@.len() ==> (#[trigger] r@[k]).1.terms@ == terms_with(ts@, r@[k].0.0),
        forall|k: int| 0 <= k < r@.len() ==> (#[trigger] r@[k]).1.terms@.len() > 0,
        forall|m: int| 0 <= m < ts@.len() ==> has_factor(r@, (#[trigger] ts@[m]).0),
{
    let ghost all = ts@;
    let mut buckets = new_buckets();
    for et in it: ts
        invariant
            it.seq() == all,
            forall|e: u64| #[trigger] buckets@.contains_key(e) <==> terms_with(all.take(it.index() as int), e).len() > 0,
            forall|e: u64| #[trigger] buckets@.contains_key(e) ==> buckets@[e]@ == terms_with(all.take(it.index() as int), e),
    {
        let (e, t) = et;
        let ghost n = it.index() as int;
        proof {
            assert(all.take(n + 1).drop_last() =~= all.take(n));
            assert(all.take(n + 1).last() == all[n]);
        }
        let mut bucket = match take_bucket(&mut buckets, e.0) {
            Some(b) => b,
            None => Vec::new(),
        };
        bucket.push(t);
        put_bucket(&mut buckets, e.0, bucket);
    }
    proof {
        assert(all.take(all.len() as int) =~= all);
    }
    let keys = bucket_keys(&buckets);
    let sorted_keys = sort_keys(keys);
    proof {
        broadcast use vstd::seq_lib::group_to_multiset_ensures;

        keys@.lemma_multiset_has_no_duplicates();
        sorted_keys@.lemma_multiset_has_no_duplicates_conv();
        assert forall|e: u64| sorted_keys@.contains(e) <==> buckets@.contains_key(e) by {
            assert(sorted_keys@.to_multiset().count(e) == keys@.to_multiset().count(e));
            assert(sorted_keys@.contains(e) <==> keys@.contains(e));
            assert(keys@.contains(e) <==> keys@.to_set().contains(e));
        }
    }
    let mut out: Vec<(EFactor, TermSum)> = Vec::new();
    let mut n: usize = 0;
    assert(sorted_keys@.subrange(0, sorted_keys@.len() as int) =~= sorted_keys@);
    while n < sorted_keys.len()
        invariant
            n <= sorted_keys@.len(),
            sorted_keys@.no_duplicates(),
            forall|a: int, b: int| 0 <= a < b < sorted_keys@.len() ==> sorted_keys@[a] <= sorted_keys@[b],
            forall|e: u64| buckets@.contains_key(e) <==> sorted_keys@.subrange(n as int, sorted_keys@.len() as int).contains(e),
            forall|e: u64| #[trigger] buckets@.contains_key(e) ==> buckets@[e]@ == terms_with(all, e),
            forall|e: u64| sorted_keys@.contains(e) <==> terms_with(all, e).len() > 0,
            out@.len() == n,
            forall|k: int| 0 <= k < n ==> (#[trigger] out@[k]).0.0 == sorted_keys@[k],
            forall|k: int| 0 <= k < n ==> (#[trigger] out@[k]).1.terms@ == terms_with(all, out@[k].0.0),
        decreases sorted_keys@.len() - n,
    {
        let key = sorted_keys[n];
        proof {
            assert(sorted_keys@.subrange(n as int, sorted_keys@.len() as int)[0] == key);
            assert forall|e: u64| buckets@.remove(key).contains_key(e) <==> sorted_keys@.subrange(
                n + 1,
                sorted_keys@.len() as int,
            ).contains(e) by {
                let rest = sorted_keys@.subrange(n as int, sorted_keys@.len() as int);
                if rest.contains(e) && e != key {
                    let x = choose|x: int| 0 <= x < rest.len() && #[trigger] rest[x] == e;
                    assert(x != 0);
                    assert(sorted_keys@.subrange(n + 1, sorted_keys@.len() as int)[x - 1] == e);
                }
                let tail = sorted_keys@.subrange(n + 1, sorted_keys@.len() as int);
                if tail.contains(e) {
                    let x = choose|x: int| 0 <= x < tail.len() && #[trigger] tail[x] == e;
                    assert(rest[x + 1] == e);
                    assert(sorted_keys@[n + 1 + x] == e);
                    assert(e != key);
                }
            }
        }
        match take_bucket(&mut buckets, key) {
            Some(b) => {
                out.push((EFactor(key), TermSum { terms: b }));
            },
            None => {
                assert(false);
            },
        }
        n = n + 1;
    }
    proof {
        assert forall|a: int, b: int| 0 <= a < b < out@.len() implies out@[a].0.0 < out@[b].0.0 by {
            assert(sorted_keys@[a] != sorted_keys@[b]);
        }
        assert forall|k: int| 0 <= k < out@.len() implies (#[trigger] out@[k]).1.terms@.len() > 0 by {
            assert(sorted_keys@.contains(sorted_keys@[k]));
        }
        assert forall|m: int| 0 <= m < ts@.len() implies has_factor(out@, (#[trigger] ts@[m]).0) by {
            lemma_terms_with_member(all, m);
            let e = all[m].0.0;
            assert(sorted_keys@.contains(e));
            let k = choose|k: int| 0 <= k < sorted_keys@.len() && sorted_keys@[k] == e;
            assert(out@[k].0.0 == e);
            assert(out@[k].0 == all[m].0);
            assert(0 <= k < out@.len() && out@[k].0 == ts@[m].0);
        }
    }
    out
}

proof fn lemma_terms_with_member(ts: Seq<(EFactor, Term)>, m: int)
    requires
        0 <= m < ts.len(),
    ensures
        terms_with(ts, ts[m].0.0).len() > 0,
    decreases ts.len(),
{
    if m < ts.len() - 1 {
        lemma_terms_with_member(ts.drop_last(), m);
    }
}

/// The terms of `es` with ε-factor `e`, in their order, as plain values.
pub open spec fn view_terms_with(es: Seq<(u64, TermView)>, e: u64) -> Seq<TermView>
    decreases es.len(),
{
    if es.len() == 0 {
        Seq::empty()
    } else {
        let init = view_terms_with(es.drop_last(), e);
        if es.last().0 == e {
            init.push(es.last().1)
        } else {
            init
        }
    }
}

/// The terms `ts` as plain values.
pub open spec fn terms_view(ts: Seq<Term>) -> Seq<TermView> {
    ts.map_values(|t: Term| t@)
}

proof fn lemma_terms_with_view(ts: Seq<(EFactor, Term)>, e: u64)
    ensures
        terms_view(terms_with(ts, e)) == view_terms_with(entries_view(ts), e),
    decreases ts.len(),
{
    if ts.len() > 0 {
        lemma_terms_with_view(ts.drop_last(), e);
        assert(entries_view(ts).drop_last() =~= entries_view(ts.drop_last()));
        let init = terms_with(ts.drop_last(), e);
        assert(terms_view(init.push(ts.last().1)) =~= terms_view(init).push(ts.last().1@));
    }
}

/// The ε-expansion of the in-hypersphere determinant in `dim` dimensions,
/// grouped into one sum per ε-factor, in ascending order of ε-factor.
pub fn term_sums(dim: usize) -> (r: Vec<(EFactor, TermSum)>)
    requires
        1 <= dim <= 3,
    ensures
        r@.len() >= 1,
        r@[0].0 == EFactor(0),
        forall|a: int, b: int| 0 <= a < b < r@.len() ==> r@[a].0.0 < r@[b].0.0,
        forall|k: int| 0 <= k < r@.len() ==> (#[trigger] r@[k]).1.terms@.len() > 0,
        forall|k: int, m: int|
            0 <= k < r@.len() && 0 <= m < r@[k].1.terms@.len() ==> term_ok(
                dim as nat,
                largest_efactor(dim as nat),
                (r@[k].0, #[trigger] r@[k].1.terms@[m]),
            ),
        forall|k: int|
            0 <= k < r@.len() ==> terms_view((#[trigger] r@[k]).1.terms@) == view_terms_with(
                expansion(dim as nat),
                r@[k].0.0,
            ),
        forall|m: int| 0 <= m < expansion(dim as nat).len() ==> has_factor(r@, EFactor((#[trigger] expansion(dim as nat)[m]).0)),
{
    let ts = terms(dim);
    let ghost all = ts@;
    let r = group_terms(ts);
    proof {
        assert forall|k: int, m: int| 0 <= k < r@.len() && 0 <= m < r@[k].1.terms@.len() implies term_ok(
            dim as nat,
            largest_efactor(dim as nat),
            (r@[k].0, #[trigger] r@[k].1.terms@[m]),
        ) by {
            assert(r@[k].1.terms@ == terms_with(all, r@[k].0.0));
            lemma_terms_with_ok(all, r@[k].0.0, m, dim as nat, largest_efactor(dim as nat));
        }
        assert forall|k: int| 0 <= k < r@.len() implies terms_view((#[trigger] r@[k]).1.terms@) == view_terms_with(
            expansion(dim as nat),
            r@[k].0.0,
        ) by {
            lemma_terms_with_view(all, r@[k].0.0);
        }
        assert forall|m: int| 0 <= m < expansion(dim as nat).len() implies has_factor(
            r@,
            EFactor((#[trigger] expansion(dim as nat)[m]).0),
        ) by {
            assert(entries_view(all)[m] == entry_view(all[m]));
            assert(has_factor(r@, all[m].0));
            assert(all[m].0 == EFactor(expansion(dim as nat)[m].0));
        }
        assert(has_factor(r@, all[0].0));
        let k = choose|k: int| 0 <= k < r@.len() && r@[k].0 == all[0].0;
        if k > 0 {
            assert(r@[0].0.0 < r@[k].0.0);
        }
    }
    r
}

proof fn lemma_terms_with_ok(ts: Seq<(EFactor, Term)>, e: u64, m: int, dim: nat, bound: int)
    requires
        forall|k: int| 0 <= k < ts.len() ==> term_ok(dim, bound, #[trigger] ts[k]),
        0 <= m < terms_with(ts, e).len(),
    ensures
        term_ok(dim, bound, (EFactor(e), terms_with(ts, e)[m])),
    decreases ts.len(),
{
    if ts.len() > 0 {
        let init = terms_with(ts.drop_last(), e);
        if m < init.len() {
            lemma_terms_with_ok(ts.drop_last(), e, m, dim, bound);
        } else {
            assert(term_ok(dim, bound, ts[ts.len() - 1]));
        }
    }
}

} // verus!
