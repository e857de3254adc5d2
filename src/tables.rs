//! The decision tables: for each predicate, the sign tests of its cascade in
//! the order in which they are consulted.
use vstd::prelude::*;

use crate::sign_test::{PlaneTest, SpaceTest};

verus! {

/// The cascade of the orientation of three points in the plane, on slots of the sorted tuple.
pub open spec fn spec_orient_2d_table() -> Seq<PlaneTest> {
    seq![
        PlaneTest::Orient { a: 0, b: 1, c: 2, axes: [0, 1] },
        PlaneTest::Coordinate { a: 2, b: 1, axis: 0 },
        PlaneTest::Coordinate { a: 1, b: 2, axis: 1 },
        PlaneTest::Coordinate { a: 0, b: 2, axis: 0 },
    ]
}

/// The cascade of the orientation of three points in the plane, on slots of the sorted tuple.
pub fn orient_2d_table() -> (r: [PlaneTest; 4])
    ensures
        r@ == spec_orient_2d_table(),
{
    let r = [
        PlaneTest::Orient { a: 0, b: 1, c: 2, axes: [0, 1] },
        PlaneTest::Coordinate { a: 2, b: 1, axis: 0 },
        PlaneTest::Coordinate { a: 1, b: 2, axis: 1 },
        PlaneTest::Coordinate { a: 0, b: 2, axis: 0 },
    ];
    assert(r@ =~= spec_orient_2d_table());
    r
}

/// The cascade of the in-circle test of four points, on slots of the sorted tuple.
pub open spec fn spec_in_circle_table() -> Seq<PlaneTest> {
    seq![
        PlaneTest::InCircle { a: 0, b: 1, c: 2, d: 3 },
        PlaneTest::Orient { a: 1, b: 2, c: 3, axes: [0, 1] },
        PlaneTest::Lifted { a: 1, b: 3, c: 2, axes: [0, 1] },
        PlaneTest::Lifted { a: 1, b: 2, c: 3, axes: [1, 0] },
        PlaneTest::Orient { a: 0, b: 2, c: 3, axes: [1, 0] },
        PlaneTest::Coordinate { a: 2, b: 3, axis: 0 },
        PlaneTest::Coordinate { a: 3, b: 2, axis: 1 },
        PlaneTest::Orient { a: 0, b: 1, c: 3, axes: [0, 1] },
        PlaneTest::Coordinate { a: 3, b: 1, axis: 0 },
        PlaneTest::Coordinate { a: 1, b: 3, axis: 1 },
        PlaneTest::Coordinate { a: 0, b: 3, axis: 0 },
    ]
}

/// The cascade of the in-circle test of four points, on slots of the sorted tuple.
pub fn in_circle_table() -> (r: [PlaneTest; 11])
    ensures
        r@ == spec_in_circle_table(),
{
    let r = [
        PlaneTest::InCircle { a: 0, b: 1, c: 2, d: 3 },
        PlaneTest::Orient { a: 1, b: 2, c: 3, axes: [0, 1] },
        PlaneTest::Lifted { a: 1, b: 3, c: 2, axes: [0, 1] },
        PlaneTest::Lifted { a: 1, b: 2, c: 3, axes: [1, 0] },
        PlaneTest::Orient { a: 0, b: 2, c: 3, axes: [1, 0] },
        PlaneTest::Coordinate { a: 2, b: 3, axis: 0 },
        PlaneTest::Coordinate { a: 3, b: 2, axis: 1 },
        PlaneTest::Orient { a: 0, b: 1, c: 3, axes: [0, 1] },
        PlaneTest::Coordinate { a: 3, b: 1, axis: 0 },
        PlaneTest::Coordinate { a: 1, b: 3, axis: 1 },
        PlaneTest::Coordinate { a: 0, b: 3, axis: 0 },
    ];
    assert(r@ =~= spec_in_circle_table());
    r
}

/// The cascade of the orientation of four points in space, on slots of the sorted tuple.
pub open spec fn spec_orient_3d_table() -> Seq<SpaceTest> {
    seq![
        SpaceTest::Orient3 { a: 0, b: 1, c: 2, d: 3 },
        SpaceTest::Orient2 { a: 1, b: 2, c: 3, axes: [0, 1] },
        SpaceTest::Orient2 { a: 1, b: 2, c: 3, axes: [2, 0] },
        SpaceTest::Orient2 { a: 1, b: 2, c: 3, axes: [1, 2] },
        SpaceTest::Orient2 { a: 0, b: 2, c: 3, axes: [1, 0] },
        SpaceTest::Coordinate { a: 2, b: 3, axis: 0 },
        SpaceTest::Coordinate { a: 3, b: 2, axis: 1 },
        SpaceTest::Orient2 { a: 0, b: 2, c: 3, axes: [0, 2] },
        SpaceTest::Coordinate { a: 2, b: 3, axis: 2 },
        SpaceTest::Orient2 { a: 0, b: 1, c: 3, axes: [0, 1] },
        SpaceTest::Coordinate { a: 3, b: 1, axis: 0 },
        SpaceTest::Coordinate { a: 1, b: 3, axis: 1 },
        SpaceTest::Coordinate { a: 0, b: 3, axis: 0 },
    ]
}

/// The cascade of the orientation of four points in space, on slots of the sorted tuple.
pub fn orient_3d_table() -> (r: [SpaceTest; 13])
    ensures
        r@ == spec_orient_3d_table(),
{
    let r = [
        SpaceTest::Orient3 { a: 0, b: 1, c: 2, d: 3 },
        SpaceTest::Orient2 { a: 1, b: 2, c: 3, axes: [0, 1] },
        SpaceTest::Orient2 { a: 1, b: 2, c: 3, axes: [2, 0] },
        SpaceTest::Orient2 { a: 1, b: 2, c: 3, axes: [1, 2] },
        SpaceTest::Orient2 { a: 0, b: 2, c: 3, axes: [1, 0] },
        SpaceTest::Coordinate { a: 2, b: 3, axis: 0 },
        SpaceTest::Coordinate { a: 3, b: 2, axis: 1 },
        SpaceTest::Orient2 { a: 0, b: 2, c: 3, axes: [0, 2] },
        SpaceTest::Coordinate { a: 2, b: 3, axis: 2 },
        SpaceTest::Orient2 { a: 0, b: 1, c: 3, axes: [0, 1] },
        SpaceTest::Coordinate { a: 3, b: 1, axis: 0 },
        SpaceTest::Coordinate { a: 1, b: 3, axis: 1 },
        SpaceTest::Coordinate { a: 0, b: 3, axis: 0 },
    ];
    assert(r@ =~= spec_orient_3d_table());
    r
}

/// The cascade of the in-sphere test of five points, on slots of the sorted tuple.
pub open spec fn spec_in_sphere_table() -> Seq<SpaceTest> {
    seq![
        SpaceTest::InSphere { a: 0, b: 1, c: 2, d: 3, e: 4 },
        SpaceTest::Orient3 { a: 1, b: 2, c: 4, d: 3 },
        SpaceTest::Lifted2 { a: 1, b: 2, c: 3, d: 4, axes: [0, 1, 2] },
        SpaceTest::Lifted2 { a: 1, b: 2, c: 3, d: 4, axes: [2, 0, 1] },
        SpaceTest::Lifted2 { a: 1, b: 2, c: 3, d: 4, axes: [1, 2, 0] },
        SpaceTest::Orient3 { a: 0, b: 2, c: 3, d: 4 },
        SpaceTest::Orient2 { a: 2, b: 3, c: 4, axes: [0, 1] },
        SpaceTest::Orient2 { a: 2, b: 3, c: 4, axes: [2, 0] },
        SpaceTest::Orient2 { a: 2, b: 3, c: 4, axes: [1, 2] },
        SpaceTest::Lifted2 { a: 0, b: 2, c: 3, d: 4, axes: [1, 0, 2] },
        SpaceTest::Lifted1 { a: 2, b: 3, c: 4, axes: [0, 1, 2] },
        SpaceTest::Lifted1 { a: 2, b: 4, c: 3, axes: [1, 2, 0] },
        SpaceTest::Lifted2 { a: 0, b: 2, c: 3, d: 4, axes: [0, 2, 1] },
        SpaceTest::Lifted1 { a: 2, b: 3, c: 4, axes: [2, 0, 1] },
        SpaceTest::Lifted2 { a: 0, b: 2, c: 3, d: 4, axes: [2, 1, 0] },
        SpaceTest::Orient3 { a: 0, b: 1, c: 4, d: 3 },
        SpaceTest::Orient2 { a: 1, b: 3, c: 4, axes: [1, 0] },
        SpaceTest::Orient2 { a: 1, b: 3, c: 4, axes: [0, 2] },
        SpaceTest::Orient2 { a: 1, b: 3, c: 4, axes: [2, 1] },
        SpaceTest::Orient2 { a: 0, b: 3, c: 4, axes: [0, 1] },
        SpaceTest::Coordinate { a: 4, b: 3, axis: 0 },
        SpaceTest::Coordinate { a: 3, b: 4, axis: 1 },
        SpaceTest::Orient2 { a: 0, b: 3, c: 4, axes: [2, 0] },
        SpaceTest::Coordinate { a: 4, b: 3, axis: 2 },
        SpaceTest::Orient2 { a: 0, b: 3, c: 4, axes: [1, 2] },
        SpaceTest::Lifted2 { a: 0, b: 1, c: 3, d: 4, axes: [0, 1, 2] },
        SpaceTest::Lifted1 { a: 1, b: 4, c: 3, axes: [0, 1, 2] },
        SpaceTest::Lifted1 { a: 1, b: 3, c: 4, axes: [1, 2, 0] },
        SpaceTest::Lifted1 { a: 0, b: 3, c: 4, axes: [0, 1, 2] },
        SpaceTest::Magnitude { a: 3, b: 4 },
        SpaceTest::Lifted1 { a: 0, b: 4, c: 3, axes: [1, 2, 0] },
        SpaceTest::Lifted2 { a: 0, b: 1, c: 3, d: 4, axes: [2, 0, 1] },
        SpaceTest::Lifted1 { a: 1, b: 4, c: 3, axes: [2, 0, 1] },
        SpaceTest::Lifted1 { a: 0, b: 3, c: 4, axes: [2, 0, 1] },
        SpaceTest::Lifted2 { a: 0, b: 1, c: 3, d: 4, axes: [1, 2, 0] },
        SpaceTest::Orient3 { a: 0, b: 1, c: 2, d: 4 },
        SpaceTest::Orient2 { a: 1, b: 2, c: 4, axes: [0, 1] },
        SpaceTest::Orient2 { a: 1, b: 2, c: 4, axes: [2, 0] },
        SpaceTest::Orient2 { a: 1, b: 2, c: 4, axes: [1, 2] },
        SpaceTest::Orient2 { a: 0, b: 2, c: 4, axes: [1, 0] },
        SpaceTest::Coordinate { a: 2, b: 4, axis: 0 },
        SpaceTest::Coordinate { a: 4, b: 2, axis: 1 },
        SpaceTest::Orient2 { a: 0, b: 2, c: 4, axes: [0, 2] },
        SpaceTest::Coordinate { a: 2, b: 4, axis: 2 },
        SpaceTest::Orient2 { a: 0, b: 1, c: 4, axes: [0, 1] },
        SpaceTest::Coordinate { a: 4, b: 1, axis: 0 },
        SpaceTest::Coordinate { a: 1, b: 4, axis: 1 },
        SpaceTest::Coordinate { a: 0, b: 4, axis: 0 },
    ]
}

/// The cascade of the in-sphere test of five points, on slots of the sorted tuple.
pub fn in_sphere_table() -> (r: [SpaceTest; 48])
    ensures
        r@ == spec_in_sphere_table(),
{
    let r = [
        SpaceTest::InSphere { a: 0, b: 1, c: 2, d: 3, e: 4 },
        SpaceTest::Orient3 { a: 1, b: 2, c: 4, d: 3 },
        SpaceTest::Lifted2 { a: 1, b: 2, c: 3, d: 4, axes: [0, 1, 2] },
        SpaceTest::Lifted2 { a: 1, b: 2, c: 3, d: 4, axes: [2, 0, 1] },
        SpaceTest::Lifted2 { a: 1, b: 2, c: 3, d: 4, axes: [1, 2, 0] },
        SpaceTest::Orient3 { a: 0, b: 2, c: 3, d: 4 },
        SpaceTest::Orient2 { a: 2, b: 3, c: 4, axes: [0, 1] },
        SpaceTest::Orient2 { a: 2, b: 3, c: 4, axes: [2, 0] },
        SpaceTest::Orient2 { a: 2, b: 3, c: 4, axes: [1, 2] },
        SpaceTest::Lifted2 { a: 0, b: 2, c: 3, d: 4, axes: [1, 0, 2] },
        SpaceTest::Lifted1 { a: 2, b: 3, c: 4, axes: [0, 1, 2] },
        SpaceTest::Lifted1 { a: 2, b: 4, c: 3, axes: [1, 2, 0] },
        SpaceTest::Lifted2 { a: 0, b: 2, c: 3, d: 4, axes: [0, 2, 1] },
        SpaceTest::Lifted1 { a: 2, b: 3, c: 4, axes: [2, 0, 1] },
        SpaceTest::Lifted2 { a: 0, b: 2, c: 3, d: 4, axes: [2, 1, 0] },
        SpaceTest::Orient3 { a: 0, b: 1, c: 4, d: 3 },
        SpaceTest::Orient2 { a: 1, b: 3, c: 4, axes: [1, 0] },
        SpaceTest::Orient2 { a: 1, b: 3, c: 4, axes: [0, 2] },
        SpaceTest::Orient2 { a: 1, b: 3, c: 4, axes: [2, 1] },
        SpaceTest::Orient2 { a: 0, b: 3, c: 4, axes: [0, 1] },
        SpaceTest::Coordinate { a: 4, b: 3, axis: 0 },
        SpaceTest::Coordinate { a: 3, b: 4, axis: 1 },
        SpaceTest::Orient2 { a: 0, b: 3, c: 4, axes: [2, 0] },
        SpaceTest::Coordinate { a: 4, b: 3, axis: 2 },
        SpaceTest::Orient2 { a: 0, b: 3, c: 4, axes: [1, 2] },
        SpaceTest::Lifted2 { a: 0, b: 1, c: 3, d: 4, axes: [0, 1, 2] },
        SpaceTest::Lifted1 { a: 1, b: 4, c: 3, axes: [0, 1, 2] },
        SpaceTest::Lifted1 { a: 1, b: 3, c: 4, axes: [1, 2, 0] },
        SpaceTest::Lifted1 { a: 0, b: 3, c: 4, axes: [0, 1, 2] },
        SpaceTest::Magnitude { a: 3, b: 4 },
        SpaceTest::Lifted1 { a: 0, b: 4, c: 3, axes: [1, 2, 0] },
        SpaceTest::Lifted2 { a: 0, b: 1, c: 3, d: 4, axes: [2, 0, 1] },
        SpaceTest::Lifted1 { a: 1, b: 4, c: 3, axes: [2, 0, 1] },
        SpaceTest::Lifted1 { a: 0, b: 3, c: 4, axes: [2, 0, 1] },
        SpaceTest::Lifted2 { a: 0, b: 1, c: 3, d: 4, axes: [1, 2, 0] },
        SpaceTest::Orient3 { a: 0, b: 1, c: 2, d: 4 },
        SpaceTest::Orient2 { a: 1, b: 2, c: 4, axes: [0, 1] },
        SpaceTest::Orient2 { a: 1, b: 2, c: 4, axes: [2, 0] },
        SpaceTest::Orient2 { a: 1, b: 2, c: 4, axes: [1, 2] },
        SpaceTest::Orient2 { a: 0, b: 2, c: 4, axes: [1, 0] },
        SpaceTest::Coordinate { a: 2, b: 4, axis: 0 },
        SpaceTest::Coordinate { a: 4, b: 2, axis: 1 },
        SpaceTest::Orient2 { a: 0, b: 2, c: 4, axes: [0, 2] },
        SpaceTest::Coordinate { a: 2, b: 4, axis: 2 },
        SpaceTest::Orient2 { a: 0, b: 1, c: 4, axes: [0, 1] },
        SpaceTest::Coordinate { a: 4, b: 1, axis: 0 },
        SpaceTest::Coordinate { a: 1, b: 4, axis: 1 },
        SpaceTest::Coordinate { a: 0, b: 4, axis: 0 },
    ];
    assert(r@ =~= spec_in_sphere_table());
    r
}

} // verus!
