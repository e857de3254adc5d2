//! What holds of the predicates across calls: how they change when their
//! indices are reordered.
use vstd::prelude::*;

use crate::cascade::{
    cascade_value, decision_from, in_circle_value, in_sphere_value, orient_1d_value, orient_2d_value,
    orient_3d_value,
};
use crate::parity::{
    canonical, distinct, lemma_canonical_of_permutation, lemma_swap_flips_parity,
    lemma_swapped_same_entries, odd_parity, swapped,
};
use crate::sign_test::{PlaneTest, SignTest, SpaceTest};

verus! {

/// Correcting by the opposite parity gives the opposite answer.
pub proof fn lemma_decision_flip(signs: Seq<i8>, n: int, odd: bool)
    ensures
        decision_from(signs, n, !odd) == !decision_from(signs, n, odd),
    decreases signs.len() - n,
{
    if n < 0 || n >= signs.len() {
    } else if signs[n] != 0 {
    } else {
        lemma_decision_flip(signs, n + 1, odd);
    }
}

/// Reordering the indices of a tuple of distinct indices by one exchange keeps
/// the sorted tuple and flips the parity.
proof fn lemma_exchange(t: Seq<usize>, p: int, q: int)
    requires
        0 <= p < q < t.len(),
        distinct(t),
    ensures
        canonical(swapped(t, p, q)) == canonical(t),
        odd_parity(swapped(t, p, q)) != odd_parity(t),
{
    lemma_swapped_same_entries(t, p, q);
    lemma_canonical_of_permutation(swapped(t, p, q), t);
    lemma_swap_flips_parity(t, p, q);
}

proof fn lemma_cascade_flip<T: SignTest>(table: Seq<T>, s: Seq<usize>, odd: bool, g: spec_fn(T) -> i8)
    ensures
        cascade_value(table, s, !odd, g) == !cascade_value(table, s, odd, g),
{
    lemma_decision_flip(crate::cascade::table_signs(table, s, g), 0, odd);
}

/// Exchanging two of the points of an orientation on the line flips it, for a
/// comparison that is antisymmetric.
pub proof fn lemma_orient_1d_swap(g: spec_fn(usize, usize) -> i8, i: usize, j: usize)
    requires
        i != j,
        g(i, j) == -g(j, i),
    ensures
        orient_1d_value(g, j, i) == !orient_1d_value(g, i, j),
{
}

/// Exchanging two of three distinct indices flips the orientation in the plane.
pub proof fn lemma_orient_2d_swap(g: spec_fn(PlaneTest) -> i8, t: Seq<usize>, p: int, q: int)
    requires
        t.len() == 3,
        distinct(t),
        0 <= p < q < 3,
    ensures
        orient_2d_value(g, swapped(t, p, q)) == !orient_2d_value(g, t),
{
    lemma_exchange(t, p, q);
    lemma_cascade_flip(crate::tables::spec_orient_2d_table(), canonical(t), odd_parity(t), g);
}

/// Exchanging two of four distinct indices flips the orientation in space.
pub proof fn lemma_orient_3d_swap(g: spec_fn(SpaceTest) -> i8, t: Seq<usize>, p: int, q: int)
    requires
        t.len() == 4,
        distinct(t),
        0 <= p < q < 4,
    ensures
        orient_3d_value(g, swapped(t, p, q)) == !orient_3d_value(g, t),
{
    lemma_exchange(t, p, q);
    lemma_cascade_flip(crate::tables::spec_orient_3d_table(), canonical(t), odd_parity(t), g);
}

/// Exchanging the same two indices twice gives back the orientation in the plane.
pub proof fn lemma_orient_2d_swap_twice(g: spec_fn(PlaneTest) -> i8, t: Seq<usize>, p: int, q: int)
    requires
        t.len() == 3,
        distinct(t),
        0 <= p < q < 3,
    ensures
        orient_2d_value(g, swapped(swapped(t, p, q), p, q)) == orient_2d_value(g, t),
{
    assert(swapped(swapped(t, p, q), p, q) =~= t);
}

/// Exchanging the same two indices twice gives back the orientation in space.
pub proof fn lemma_orient_3d_swap_twice(g: spec_fn(SpaceTest) -> i8, t: Seq<usize>, p: int, q: int)
    requires
        t.len() == 4,
        distinct(t),
        0 <= p < q < 4,
    ensures
        orient_3d_value(g, swapped(swapped(t, p, q), p, q)) == orient_3d_value(g, t),
{
    assert(swapped(swapped(t, p, q), p, q) =~= t);
}

/// The in-circle test does not depend on the order of the three points that
/// define the circle.
pub proof fn lemma_in_circle_swap_circle(g: spec_fn(PlaneTest) -> i8, t: Seq<usize>, p: int, q: int)
    requires
        t.len() == 4,
        distinct(t),
        0 <= p < q < 3,
    ensures
        in_circle_value(g, swapped(t, p, q)) == in_circle_value(g, t),
{
    let u = swapped(t, p, q);
    lemma_exchange(t, p, q);
    assert(u.take(3) =~= swapped(t.take(3), p, q));
    lemma_orient_2d_swap(g, t.take(3), p, q);
}

/// Exchanging the query point with one of the three others changes the
/// in-circle answer exactly when it leaves the orientation of the first three
/// unchanged.
pub proof fn lemma_in_circle_swap_query(g: spec_fn(PlaneTest) -> i8, t: Seq<usize>, p: int)
    requires
        t.len() == 4,
        distinct(t),
        0 <= p < 3,
    ensures
        (in_circle_value(g, swapped(t, p, 3)) == in_circle_value(g, t)) == (orient_2d_value(
            g,
            swapped(t, p, 3).take(3),
        ) != orient_2d_value(g, t.take(3))),
{
    let u = swapped(t, p, 3);
    lemma_exchange(t, p, 3);
    let table = crate::tables::spec_in_circle_table();
    let flip = !orient_2d_value(g, t.take(3));
    lemma_cascade_flip(table, canonical(t), odd_parity(t) != flip, g);
}

/// The in-sphere test does not depend on the order of the four points that
/// define the sphere.
pub proof fn lemma_in_sphere_swap_sphere(g: spec_fn(SpaceTest) -> i8, t: Seq<usize>, p: int, q: int)
    requires
        t.len() == 5,
        distinct(t),
        0 <= p < q < 4,
    ensures
        in_sphere_value(g, swapped(t, p, q)) == in_sphere_value(g, t),
{
    let u = swapped(t, p, q);
    lemma_exchange(t, p, q);
    assert(u.take(4) =~= swapped(t.take(4), p, q));
    lemma_orient_3d_swap(g, t.take(4), p, q);
}

/// Exchanging the query point with one of the four others changes the
/// in-sphere answer exactly when it leaves the orientation of the first four
/// unchanged.
pub proof fn lemma_in_sphere_swap_query(g: spec_fn(SpaceTest) -> i8, t: Seq<usize>, p: int)
    requires
        t.len() == 5,
        distinct(t),
        0 <= p < 4,
    ensures
        (in_sphere_value(g, swapped(t, p, 4)) == in_sphere_value(g, t)) == (orient_3d_value(
            g,
            swapped(t, p, 4).take(4),
        ) != orient_3d_value(g, t.take(4))),
{
    let u = swapped(t, p, 4);
    lemma_exchange(t, p, 4);
    let table = crate::tables::spec_in_sphere_table();
    let flip = !orient_3d_value(g, t.take(4));
    lemma_cascade_flip(table, canonical(t), odd_parity(t) != flip, g);
}

} // verus!
