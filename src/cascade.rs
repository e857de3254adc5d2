//! The cascade evaluator and the predicates.
//!
//! Each predicate sorts its indices, remembering the parity of the sorting
//! permutation, then walks its decision table: the first sign test that the
//! oracle answers with a nonzero sign decides, and the answer is that sign
//! corrected by the parity. The oracle is a function supplied by the caller;
//! the contracts speak of the value that a predicate takes for any function
//! `g` that the oracle computes.
use vstd::prelude::*;

use crate::parity::{canonical, odd_parity, sorted};
use crate::sign_test::{PlaneTest, SignTest, SpaceTest};
use crate::tables::{
    in_circle_table, in_sphere_table, orient_2d_table, orient_3d_table, spec_in_circle_table,
    spec_in_sphere_table, spec_orient_2d_table, spec_orient_3d_table,
};

verus! {

/// The oracle `f` computes the function `g`: whatever it returns on a test is
/// `g` of that test.
pub open spec fn computes<T, F: Fn(T) -> i8>(f: F, g: spec_fn(T) -> i8) -> bool {
    forall|t: T, v: i8| f.ensures((t,), v) ==> v == g(t)
}

/// The answer of a cascade whose tests gave `signs`, read from position `n` on:
/// the first nonzero sign decides, corrected by `odd`; if all are zero the
/// answer is that of the identity permutation.
pub open spec fn decision_from(signs: Seq<i8>, n: int, odd: bool) -> bool
    decreases signs.len() - n,
{
    if n < 0 || n >= signs.len() {
        !odd
    } else if signs[n] != 0 {
        (signs[n] > 0) != odd
    } else {
        decision_from(signs, n + 1, odd)
    }
}

/// The signs that `g` gives to the tests of `table` placed on the sorted tuple `s`.
pub open spec fn table_signs<T: SignTest>(table: Seq<T>, s: Seq<usize>, g: spec_fn(T) -> i8) -> Seq<i8> {
    table.map_values(|t: T| g(t.spec_placed(s)))
}

/// The answer of the cascade `table` on the sorted tuple `s`.
pub open spec fn cascade_value<T: SignTest>(
    table: Seq<T>,
    s: Seq<usize>,
    odd: bool,
    g: spec_fn(T) -> i8,
) -> bool {
    decision_from(table_signs(table, s, g), 0, odd)
}

/// The perturbed orientation of three points in the plane, for the oracle `g`.
pub open spec fn orient_2d_value(g: spec_fn(PlaneTest) -> i8, t: Seq<usize>) -> bool {
    cascade_value(spec_orient_2d_table(), canonical(t), odd_parity(t), g)
}

/// The perturbed orientation of four points in space, for the oracle `g`.
pub open spec fn orient_3d_value(g: spec_fn(SpaceTest) -> i8, t: Seq<usize>) -> bool {
    cascade_value(spec_orient_3d_table(), canonical(t), odd_parity(t), g)
}

/// Whether the fourth point lies inside the circle through the first three,
/// after perturbation, for the oracle `g`.
pub open spec fn in_circle_value(g: spec_fn(PlaneTest) -> i8, t: Seq<usize>) -> bool {
    let flip = !orient_2d_value(g, t.take(3));
    cascade_value(spec_in_circle_table(), canonical(t), odd_parity(t) != flip, g)
}

/// Whether the fifth point lies inside the sphere through the first four,
/// after perturbation, for the oracle `g`.
pub open spec fn in_sphere_value(g: spec_fn(SpaceTest) -> i8, t: Seq<usize>) -> bool {
    let flip = !orient_3d_value(g, t.take(4));
    cascade_value(spec_in_sphere_table(), canonical(t), odd_parity(t) != flip, g)
}

/// The perturbed orientation of two points on the line, for the comparison `g`.
pub open spec fn orient_1d_value(g: spec_fn(usize, usize) -> i8, i: usize, j: usize) -> bool {
    g(i, j) > 0 || (g(i, j) == 0 && i < j)
}

/// Walks `table` placed on the sorted tuple `s` and returns as soon as a test
/// has a nonzero sign.
fn run_cascade<T: SignTest, F: Fn(T) -> i8>(table: &[T], s: &[usize], odd: bool, sign_of: &F) -> (r: bool)
    requires
        forall|t: T| sign_of.requires((t,)),
        forall|n: int| 0 <= n < table@.len() ==> (#[trigger] table@[n]).slots_below(s@.len()),
    ensures
        forall|g: spec_fn(T) -> i8| computes(*sign_of, g) ==> r == cascade_value(table@, s@, odd, g),
{
    let mut n: usize = 0;
    while n < table.len()
        invariant
            n <= table@.len(),
            forall|t: T| sign_of.requires((t,)),
            forall|n: int| 0 <= n < table@.len() ==> (#[trigger] table@[n]).slots_below(s@.len()),
            forall|g: spec_fn(T) -> i8|
                computes(*sign_of, g) ==> cascade_value(table@, s@, odd, g) == decision_from(
                    table_signs(table@, s@, g),
                    n as int,
                    odd,
                ),
        decreases table@.len() - n,
    {
        let t = table[n].placed(s);
        let v = sign_of(t);
        assert forall|g: spec_fn(T) -> i8| computes(*sign_of, g) implies table_signs(
            table@,
            s@,
            g,
        )[n as int] == v by {
            assert(sign_of.ensures((t,), v));
        }
        if v != 0 {
            return (v > 0) != odd;
        }
        n = n + 1;
    }
    !odd
}

fn orient_2d_with<F: Fn(PlaneTest) -> i8>(i: usize, j: usize, k: usize, sign_of: &F) -> (r: bool)
    requires
        forall|t: PlaneTest| sign_of.requires((t,)),
    ensures
        forall|g: spec_fn(PlaneTest) -> i8|
            computes(*sign_of, g) ==> r == orient_2d_value(g, seq![i, j, k]),
{
    let t = [i, j, k];
    assert(t@ =~= seq![i, j, k]);
    let (s, odd) = sorted(t);
    let table = orient_2d_table();
    run_cascade(&table, &s, odd, sign_of)
}

fn orient_3d_with<F: Fn(SpaceTest) -> i8>(i: usize, j: usize, k: usize, l: usize, sign_of: &F) -> (r: bool)
    requires
        forall|t: SpaceTest| sign_of.requires((t,)),
    ensures
        forall|g: spec_fn(SpaceTest) -> i8|
            computes(*sign_of, g) ==> r == orient_3d_value(g, seq![i, j, k, l]),
{
    let t = [i, j, k, l];
    assert(t@ =~= seq![i, j, k, l]);
    let (s, odd) = sorted(t);
    let table = orient_3d_table();
    run_cascade(&table, &s, odd, sign_of)
}

/// Whether `p_i` lies to the right of `p_j` after perturbation. `compare(a, b)`
/// is the sign of `p_a - p_b`; on equal coordinates the lower index is the one
/// pushed further right.
pub fn orient_1d<F: Fn(usize, usize) -> i8>(i: usize, j: usize, compare: F) -> (r: bool)
    requires
        forall|a: usize, b: usize| compare.requires((a, b)),
    ensures
        forall|g: spec_fn(usize, usize) -> i8|
            (forall|a: usize, b: usize, v: i8| compare.ensures((a, b), v) ==> v == g(a, b)) ==> r
                == orient_1d_value(g, i, j),
{
    let v = compare(i, j);
    v > 0 || (v == 0 && i < j)
}

/// Whether `p_i, p_j, p_k` form a left turn after perturbation. `sign_of`
/// is the exact oracle for the sign tests of the plane.
pub fn orient_2d<F: Fn(PlaneTest) -> i8>(i: usize, j: usize, k: usize, sign_of: F) -> (r: bool)
    requires
        forall|t: PlaneTest| sign_of.requires((t,)),
    ensures
        forall|g: spec_fn(PlaneTest) -> i8|
            computes(sign_of, g) ==> r == orient_2d_value(g, seq![i, j, k]),
{
    orient_2d_with(i, j, k, &sign_of)
}

/// Whether `p_j, p_k, p_l` form a left turn seen from `p_i`, after
/// perturbation. `sign_of` is the exact oracle for the sign tests of space.
pub fn orient_3d<F: Fn(SpaceTest) -> i8>(i: usize, j: usize, k: usize, l: usize, sign_of: F) -> (r: bool)
    requires
        forall|t: SpaceTest| sign_of.requires((t,)),
    ensures
        forall|g: spec_fn(SpaceTest) -> i8|
            computes(sign_of, g) ==> r == orient_3d_value(g, seq![i, j, k, l]),
{
    orient_3d_with(i, j, k, l, &sign_of)
}

/// Whether `p_l` lies inside the circle through `p_i, p_j, p_k` after
/// perturbation. The answer does not depend on the order of `i, j, k`.
pub fn in_circle<F: Fn(PlaneTest) -> i8>(i: usize, j: usize, k: usize, l: usize, sign_of: F) -> (r: bool)
    requires
        forall|t: PlaneTest| sign_of.requires((t,)),
    ensures
        forall|g: spec_fn(PlaneTest) -> i8|
            computes(sign_of, g) ==> r == in_circle_value(g, seq![i, j, k, l]),
{
    let flip = !orient_2d_with(i, j, k, &sign_of);
    let t = [i, j, k, l];
    assert(t@ =~= seq![i, j, k, l]);
    assert(t@.take(3) =~= seq![i, j, k]);
    let (s, odd) = sorted(t);
    let table = in_circle_table();
    run_cascade(&table, &s, odd != flip, &sign_of)
}

/// Whether `p_m` lies inside the sphere through `p_i, p_j, p_k, p_l` after
/// perturbation. The answer does not depend on the order of `i, j, k, l`.
pub fn in_sphere<F: Fn(SpaceTest) -> i8>(
    i: usize,
    j: usize,
    k: usize,
    l: usize,
    m: usize,
    sign_of: F,
) -> (r: bool)
    requires
        forall|t: SpaceTest| sign_of.requires((t,)),
    ensures
        forall|g: spec_fn(SpaceTest) -> i8|
            computes(sign_of, g) ==> r == in_sphere_value(g, seq![i, j, k, l, m]),
{
    let flip = !orient_3d_with(i, j, k, l, &sign_of);
    let t = [i, j, k, l, m];
    assert(t@ =~= seq![i, j, k, l, m]);
    assert(t@.take(4) =~= seq![i, j, k, l]);
    let (s, odd) = sorted(t);
    let table = in_sphere_table();
    run_cascade(&table, &s, odd != flip, &sign_of)
}

} // verus!
