//! The boundary points of the demo tiles: floors, ceilings, walls and
//! corners of a tile of half-extent 2, built from rectangular patches.
use vstd::prelude::*;
use crate::transform::{pt, Point};

verus! {

/// Which coordinate a patch holds fixed; the two others run over its rows
/// and columns, in axis order.
#[derive(Clone, Copy, Debug, PartialEq, Eq, Structural)]
pub enum Plane {
    /// `x` fixed, rows along `y`, columns along `z`.
    X,
    /// `y` fixed, rows along `x`, columns along `z`.
    Y,
    /// `z` fixed, rows along `x`, columns along `y`.
    Z,
}

/// The point of a patch in `plane` at level `c`, row `u`, column `v`.
pub open spec fn place(plane: Plane, c: int, u: int, v: int) -> Point {
    match plane {
        Plane::X => pt(c, u, v),
        Plane::Y => pt(u, c, v),
        Plane::Z => pt(u, v, c),
    }
}

/// Row `u` of a patch: columns `v_lo` up to `v_hi`.
pub open spec fn patch_row(plane: Plane, c: int, u: int, v_lo: int, v_hi: int) -> Seq<Point> {
    Seq::new((v_hi - v_lo) as nat, |k: int| place(plane, c, u, v_lo + k))
}

/// The points of a patch: rows `u_lo` up to `u_hi`, each from column `v_lo`
/// up to `v_hi`, row by row.
pub open spec fn patch(plane: Plane, c: int, u_lo: int, u_hi: int, v_lo: int, v_hi: int) -> Seq<Point>
    decreases u_hi - u_lo,
{
    if u_hi <= u_lo {
        Seq::empty()
    } else {
        patch(plane, c, u_lo, u_hi - 1, v_lo, v_hi) + patch_row(plane, c, u_hi - 1, v_lo, v_hi)
    }
}

/// Appends the points of a patch to `out`.
fn push_patch(out: &mut Vec<Point>, plane: Plane, c: i32, u_lo: i32, u_hi: i32, v_lo: i32, v_hi: i32)
    requires
        u_lo <= u_hi,
        v_lo <= v_hi,
    ensures
        final(out)@ == old(out)@ + patch(plane, c as int, u_lo as int, u_hi as int, v_lo as int, v_hi as int),
{
    let ghost start = out@;
    let mut u = u_lo;
    while u < u_hi
        invariant
            u_lo <= u <= u_hi,
            v_lo <= v_hi,
            out@ == start + patch(plane, c as int, u_lo as int, u as int, v_lo as int, v_hi as int),
        decreases u_hi - u,
    {
        let ghost before = out@;
        let mut v = v_lo;
        while v < v_hi
            invariant
                u_lo <= u < u_hi,
                v_lo <= v <= v_hi,
                out@ == before + patch_row(plane, c as int, u as int, v_lo as int, v as int),
            decreases v_hi - v,
        {
            let q = match plane {
                Plane::X => Point { x: c, y: u, z: v },
                Plane::Y => Point { x: u, y: c, z: v },
                Plane::Z => Point { x: u, y: v, z: c },
            };
            out.push(q);
            assert(out@ =~= before + patch_row(plane, c as int, u as int, v_lo as int, v + 1));
            v += 1;
        }
        assert(patch(plane, c as int, u_lo as int, u + 1, v_lo as int, v_hi as int) == patch(
            plane,
            c as int,
            u_lo as int,
            u as int,
            v_lo as int,
            v_hi as int,
        ) + patch_row(plane, c as int, u as int, v_lo as int, v_hi as int));
        assert(out@ =~= start + patch(plane, c as int, u_lo as int, u + 1, v_lo as int, v_hi as int));
        u += 1;
    }
}

/// A floor at `y = -2` without its `x = 2` edge, and a wall at `x = 2`.
pub fn test_data_v3() -> (r: Vec<Point>)
    ensures
        r@ == patch(Plane::Y, -2, -2, 2, -2, 3) + patch(Plane::X, 2, -2, 3, -2, 3),
{
    let mut result: Vec<Point> = Vec::new();
    push_patch(&mut result, Plane::Y, -2, -2, 2, -2, 3);
    push_patch(&mut result, Plane::X, 2, -2, 3, -2, 3);
    result
}

/// A floor at `y = -2`.
pub fn test_data_floor() -> (r: Vec<Point>)
    ensures
        r@ == patch(Plane::Y, -2, -2, 3, -2, 3),
{
    let mut result: Vec<Point> = Vec::new();
    push_patch(&mut result, Plane::Y, -2, -2, 3, -2, 3);
    assert(result@ =~= patch(Plane::Y, -2, -2, 3, -2, 3));
    result
}

/// A floor with an upright edge at `x = 2, z = -2`.
pub fn test_data_floor_corner() -> (r: Vec<Point>)
    ensures
        r@ == patch(Plane::Y, -2, -2, 3, -2, 3) + patch(Plane::X, 2, -1, 3, -2, -1),
{
    let mut result: Vec<Point> = Vec::new();
    push_patch(&mut result, Plane::Y, -2, -2, 3, -2, 3);
    push_patch(&mut result, Plane::X, 2, -1, 3, -2, -1);
    result
}

/// A floor with upright edges at `x = 2, z = -2` and `x = -2, z = -2`.
pub fn test_data_floor_corner_2() -> (r: Vec<Point>)
    ensures
        r@ == patch(Plane::Y, -2, -2, 3, -2, 3) + patch(Plane::X, 2, -1, 3, -2, -1) + patch(
            Plane::X,
            -2,
            -1,
            3,
            -2,
            -1,
        ),
{
    let mut result: Vec<Point> = Vec::new();
    push_patch(&mut result, Plane::Y, -2, -2, 3, -2, 3);
    push_patch(&mut result, Plane::X, 2, -1, 3, -2, -1);
    push_patch(&mut result, Plane::X, -2, -1, 3, -2, -1);
    result
}

/// A floor with upright edges at `x = 2, z = -2`, `x = -2, z = -2` and
/// `x = -2, z = 2`.
pub fn test_data_floor_corner_3() -> (r: Vec<Point>)
    ensures
        r@ == patch(Plane::Y, -2, -2, 3, -2, 3) + patch(Plane::X, 2, -1, 3, -2, -1) + patch(
            Plane::X,
            -2,
            -1,
            3,
            -2,
            -1,
        ) + patch(Plane::X, -2, -1, 3, 2, 3),
{
    let mut result: Vec<Point> = Vec::new();
    push_patch(&mut result, Plane::Y, -2, -2, 3, -2, 3);
    push_patch(&mut result, Plane::X, 2, -1, 3, -2, -1);
    push_patch(&mut result, Plane::X, -2, -1, 3, -2, -1);
    push_patch(&mut result, Plane::X, -2, -1, 3, 2, 3);
    result
}

/// A wall at `x = 2`.
pub fn test_data_ceiling() -> (r: Vec<Point>)
    ensures
        r@ == patch(Plane::X, 2, -2, 3, -2, 3),
{
    let mut result: Vec<Point> = Vec::new();
    push_patch(&mut result, Plane::X, 2, -2, 3, -2, 3);
    assert(result@ =~= patch(Plane::X, 2, -2, 3, -2, 3));
    result
}

/// An upright edge at `x = 2, z = -2`.
pub fn corner() -> (r: Vec<Point>)
    ensures
        r@ == patch(Plane::X, 2, -2, 3, -2, -1),
{
    let mut result: Vec<Point> = Vec::new();
    push_patch(&mut result, Plane::X, 2, -2, 3, -2, -1);
    assert(result@ =~= patch(Plane::X, 2, -2, 3, -2, -1));
    result
}

/// Upright edges at `x = 2, z = -2` and `x = -2, z = -2`.
pub fn corner2() -> (r: Vec<Point>)
    ensures
        r@ == patch(Plane::X, 2, -2, 3, -2, -1) + patch(Plane::X, -2, -2, 3, -2, -1),
{
    let mut result: Vec<Point> = Vec::new();
    push_patch(&mut result, Plane::X, 2, -2, 3, -2, -1);
    push_patch(&mut result, Plane::X, -2, -2, 3, -2, -1);
    result
}

/// A wall at `x = 2` with its `z = -2` edge from `y = -1` up once more.
pub fn test_data_ceiling_corner() -> (r: Vec<Point>)
    ensures
        r@ == patch(Plane::X, 2, -2, 3, -2, 3) + patch(Plane::X, 2, -1, 3, -2, -1),
{
    let mut result: Vec<Point> = Vec::new();
    push_patch(&mut result, Plane::X, 2, -2, 3, -2, 3);
    push_patch(&mut result, Plane::X, 2, -1, 3, -2, -1);
    result
}

/// A wall at `x = 2` with its `z = -2` and `z = 2` edges from `y = -1` up
/// once more.
pub fn test_data_ceiling_corner_2() -> (r: Vec<Point>)
    ensures
        r@ == patch(Plane::X, 2, -2, 3, -2, 3) + patch(Plane::X, 2, -1, 3, -2, -1) + patch(
            Plane::X,
            2,
            -1,
            3,
            2,
            3,
        ),
{
    let mut result: Vec<Point> = Vec::new();
    push_patch(&mut result, Plane::X, 2, -2, 3, -2, 3);
    push_patch(&mut result, Plane::X, 2, -1, 3, -2, -1);
    push_patch(&mut result, Plane::X, 2, -1, 3, 2, 3);
    result
}

/// A partial wall at `x = 2`, a partial back at `z = -2`, and a full wall at
/// `x = 2`.
pub fn test_data_2x_ceiling_floor() -> (r: Vec<Point>)
    ensures
        r@ == patch(Plane::X, 2, -2, 2, -2, 2) + patch(Plane::Z, -2, -2, 2, -2, 2) + patch(
            Plane::X,
            2,
            -2,
            3,
            -2,
            3,
        ),
{
    let mut result: Vec<Point> = Vec::new();
    push_patch(&mut result, Plane::X, 2, -2, 2, -2, 2);
    push_patch(&mut result, Plane::Z, -2, -2, 2, -2, 2);
    push_patch(&mut result, Plane::X, 2, -2, 3, -2, 3);
    result
}

/// A tile with no boundary points.
pub fn test_data_empty() -> (r: Vec<Point>)
    ensures
        r@ == Seq::<Point>::empty(),
{
    Vec::new()
}

} // verus!
