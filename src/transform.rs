//! Integer points and the thirteen symmetry operations (identity, nine axis
//! rotations, three axis mirrors) that derive the orientations of a tile.
use vstd::prelude::*;

verus! {

/// A point on the integer grid that tiles are authored on.
#[derive(Clone, Copy, Debug, PartialEq, Eq, Structural)]
pub struct Point {
    pub x: i32,
    pub y: i32,
    pub z: i32,
}

/// The number of operations in the transform table; bit `i` of a rotation
/// mask enables operation `i`.
pub const TRANSFORM_COUNT: usize = 13;

/// Every coordinate of `p` can be negated without overflow.
pub open spec fn point_ok(p: Point) -> bool {
    p.x > i32::MIN && p.y > i32::MIN && p.z > i32::MIN
}

pub open spec fn points_ok(s: Seq<Point>) -> bool {
    forall|i: int| 0 <= i < s.len() ==> point_ok(#[trigger] s[i])
}

pub open spec fn pt(x: int, y: int, z: int) -> Point {
    Point { x: x as i32, y: y as i32, z: z as i32 }
}

/// The transform table: 0 identity; 1, 2, 3 rotate 90, 180, 270 degrees about
/// X; 4, 5, 6 about Y; 7, 8, 9 about Z; 10, 11, 12 mirror X, Y, Z.
pub open spec fn transform_spec(op: int, p: Point) -> Point {
    let (x, y, z) = (p.x as int, p.y as int, p.z as int);
    if op == 1 {
        pt(x, -z, y)
    } else if op == 2 {
        pt(x, -y, -z)
    } else if op == 3 {
        pt(x, z, -y)
    } else if op == 4 {
        pt(z, y, -x)
    } else if op == 5 {
        pt(-x, y, -z)
    } else if op == 6 {
        pt(-z, y, x)
    } else if op == 7 {
        pt(-y, x, z)
    } else if op == 8 {
        pt(-x, -y, z)
    } else if op == 9 {
        pt(y, -x, z)
    } else if op == 10 {
        pt(-x, y, z)
    } else if op == 11 {
        pt(x, -y, z)
    } else if op == 12 {
        pt(x, y, -z)
    } else {
        p
    }
}

/// Operation `op` applied to every point of `pts`, in order.
pub open spec fn transform_all(op: int, pts: Seq<Point>) -> Seq<Point> {
    pts.map_values(|p: Point| transform_spec(op, p))
}

/// Whether bit `op` of `mask` is set.
pub open spec fn op_enabled(mask: u32, op: int) -> bool {
    0 <= op < 32 && (mask >> (op as u32)) & 1u32 == 1u32
}

/// The point sets that the first `n` operations of the table make of `pts`,
/// one per operation enabled in `mask`, in table order.
pub open spec fn rotations_upto(mask: u32, pts: Seq<Point>, n: int) -> Seq<Seq<Point>>
    decreases n,
{
    if n <= 0 {
        Seq::empty()
    } else if op_enabled(mask, n - 1) {
        rotations_upto(mask, pts, n - 1).push(transform_all(n - 1, pts))
    } else {
        rotations_upto(mask, pts, n - 1)
    }
}

/// What `create_rotations(mask, pts)` returns.
pub open spec fn rotations_spec(mask: u32, pts: Seq<Point>) -> Seq<Seq<Point>> {
    rotations_upto(mask, pts, TRANSFORM_COUNT as int)
}

pub fn identity(p: &Point) -> (r: Point)
    ensures
        r == transform_spec(0, *p),
{
    *p
}

pub fn ro90x(p: &Point) -> (r: Point)
    requires
        point_ok(*p),
    ensures
        r == transform_spec(1, *p),
{
    Point { x: p.x, y: -p.z, z: p.y }
}

pub fn ro180x(p: &Point) -> (r: Point)
    requires
        point_ok(*p),
    ensures
        r == transform_spec(2, *p),
{
    Point { x: p.x, y: -p.y, z: -p.z }
}

pub fn ro270x(p: &Point) -> (r: Point)
    requires
        point_ok(*p),
    ensures
        r == transform_spec(3, *p),
{
    Point { x: p.x, y: p.z, z: -p.y }
}

pub fn ro90y(p: &Point) -> (r: Point)
    requires
        point_ok(*p),
    ensures
        r == transform_spec(4, *p),
{
    Point { x: p.z, y: p.y, z: -p.x }
}

pub fn ro180y(p: &Point) -> (r: Point)
    requires
        point_ok(*p),
    ensures
        r == transform_spec(5, *p),
{
    Point { x: -p.x, y: p.y, z: -p.z }
}

pub fn ro270y(p: &Point) -> (r: Point)
    requires
        point_ok(*p),
    ensures
        r == transform_spec(6, *p),
{
    Point { x: -p.z, y: p.y, z: p.x }
}

pub fn ro90z(p: &Point) -> (r: Point)
    requires
        point_ok(*p),
    ensures
        r == transform_spec(7, *p),
{
    Point { x: -p.y, y: p.x, z: p.z }
}

pub fn ro180z(p: &Point) -> (r: Point)
    requires
        point_ok(*p),
    ensures
        r == transform_spec(8, *p),
{
    Point { x: -p.x, y: -p.y, z: p.z }
}

pub fn ro270z(p: &Point) -> (r: Point)
    requires
        point_ok(*p),
    ensures
        r == transform_spec(9, *p),
{
    Point { x: p.y, y: -p.x, z: p.z }
}

pub fn mirror_x(p: &Point) -> (r: Point)
    requires
        point_ok(*p),
    ensures
        r == transform_spec(10, *p),
{
    Point { x: -p.x, y: p.y, z: p.z }
}

pub fn mirror_y(p: &Point) -> (r: Point)
    requires
        point_ok(*p),
    ensures
        r == transform_spec(11, *p),
{
    Point { x: p.x, y: -p.y, z: p.z }
}

pub fn mirror_z(p: &Point) -> (r: Point)
    requires
        point_ok(*p),
    ensures
        r == transform_spec(12, *p),
{
    Point { x: p.x, y: p.y, z: -p.z }
}

/// Operation `op` of the table applied to `p`.
pub fn apply_transform(op: usize, p: &Point) -> (r: Point)
    requires
        op < TRANSFORM_COUNT,
        point_ok(*p),
    ensures
        r == transform_spec(op as int, *p),
        point_ok(r),
{
    match op {
        0 => identity(p),
        1 => ro90x(p),
        2 => ro180x(p),
        3 => ro270x(p),
        4 => ro90y(p),
        5 => ro180y(p),
        6 => ro270y(p),
        7 => ro90z(p),
        8 => ro180z(p),
        9 => ro270z(p),
        10 => mirror_x(p),
        11 => mirror_y(p),
        _ => mirror_z(p),
    }
}

/// Operation `op` applied to each of `pts`.
pub fn transform_points(op: usize, pts: &Vec<Point>) -> (r: Vec<Point>)
    requires
        op < TRANSFORM_COUNT,
        points_ok(pts@),
    ensures
        r@ == transform_all(op as int, pts@),
        points_ok(r@),
{
    let mut out: Vec<Point> = Vec::new();
    for i in 0..pts.len()
        invariant
            op < TRANSFORM_COUNT,
            points_ok(pts@),
            out@ == transform_all(op as int, pts@.subrange(0, i as int)),
            points_ok(out@),
    {
        let q = apply_transform(op, &pts[i]);
        out.push(q);
        assert(pts@.subrange(0, i + 1) =~= pts@.subrange(0, i as int).push(pts@[i as int]));
        assert(out@ =~= transform_all(op as int, pts@.subrange(0, i + 1)));
    }
    assert(pts@.subrange(0, pts@.len() as int) =~= pts@);
    out
}

/// The point sets that `mask` makes of `pts`: for each of the thirteen bits
/// set in `mask`, in increasing order, the corresponding operation applied to
/// every point. Bits above the table are ignored; no bit gives no set.
pub fn create_rotations(rules: u32, data: &Vec<Point>) -> (r: Vec<Vec<Point>>)
    requires
        points_ok(data@),
    ensures
        r@.map_values(|v: Vec<Point>| v@) == rotations_spec(rules, data@),
{
    let mut result: Vec<Vec<Point>> = Vec::new();
    for op in 0..TRANSFORM_COUNT
        invariant
            points_ok(data@),
            result@.map_values(|v: Vec<Point>| v@) == rotations_upto(rules, data@, op as int),
    {
        let bit: u32 = 1u32 << (op as u32);
        let on = rules & bit != 0;
        assert(on == op_enabled(rules, op as int)) by {
            let o = op as u32;
            assert(o < 32);
            assert((rules & (1u32 << o)) != 0u32 <==> (rules >> o) & 1u32 == 1u32) by (bit_vector)
                requires o < 32u32;
        }
        if on {
            let temp = transform_points(op, data);
            let ghost before = result@;
            result.push(temp);
            assert(result@.map_values(|v: Vec<Point>| v@) =~= before.map_values(
                |v: Vec<Point>| v@,
            ).push(transform_all(op as int, data@)));
        }
    }
    result
}

/// The operations of the table by name.
#[derive(Clone, Copy, Debug, PartialEq, Eq, Structural)]
pub enum Rotation {
    Identity,
    R90X,
    R180X,
    R270X,
    R90Y,
    R180Y,
    R270Y,
    R90Z,
    R180Z,
    R270Z,
    ReflectionX,
    ReflectionY,
    ReflectionZ,
}

/// The position of `r` in the transform table.
pub open spec fn rotation_index(r: Rotation) -> u32 {
    match r {
        Rotation::Identity => 0,
        Rotation::R90X => 1,
        Rotation::R180X => 2,
        Rotation::R270X => 3,
        Rotation::R90Y => 4,
        Rotation::R180Y => 5,
        Rotation::R270Y => 6,
        Rotation::R90Z => 7,
        Rotation::R180Z => 8,
        Rotation::R270Z => 9,
        Rotation::ReflectionX => 10,
        Rotation::ReflectionY => 11,
        Rotation::ReflectionZ => 12,
    }
}

fn rotation_bit(r: Rotation) -> (b: u32)
    ensures
        b == 1u32 << rotation_index(r),
{
    let index: u32 = match r {
        Rotation::Identity => 0,
        Rotation::R90X => 1,
        Rotation::R180X => 2,
        Rotation::R270X => 3,
        Rotation::R90Y => 4,
        Rotation::R180Y => 5,
        Rotation::R270Y => 6,
        Rotation::R90Z => 7,
        Rotation::R180Z => 8,
        Rotation::R270Z => 9,
        Rotation::ReflectionX => 10,
        Rotation::ReflectionY => 11,
        Rotation::ReflectionZ => 12,
    };
    1u32 << index
}

/// The rotation mask that enables exactly the operations named in `cases`.
pub fn create_rotation_cases(cases: &Vec<Rotation>) -> (r: u32)
    ensures
        forall|k: int|
            0 <= k < 32 ==> #[trigger] op_enabled(r, k) == exists|i: int|
                0 <= i < cases@.len() && rotation_index(#[trigger] cases@[i]) == k,
{
    let mut result: u32 = 0;
    assert forall|k: int| 0 <= k < 32 implies !#[trigger] op_enabled(0u32, k) by {
        let kk = k as u32;
        assert((0u32 >> kk) & 1u32 == 0u32) by (bit_vector);
    }
    for n in 0..cases.len()
        invariant
            forall|k: int|
                0 <= k < 32 ==> #[trigger] op_enabled(result, k) == exists|i: int|
                    0 <= i < n && rotation_index(#[trigger] cases@[i]) == k,
    {
        let c = cases[n];
        let bit = rotation_bit(c);
        let ghost old_result = result;
        result = result | bit;
        proof {
            let j = rotation_index(c);
            assert(j < 13);
            assert forall|k: int| 0 <= k < 32 implies #[trigger] op_enabled(result, k) == exists|i: int|
                0 <= i < n + 1 && rotation_index(#[trigger] cases@[i]) == k by {
                let kk = k as u32;
                assert(((old_result | (1u32 << j)) >> kk) & 1u32 == 1u32 <==> ((old_result >> kk) & 1u32
                    == 1u32 || kk == j)) by (bit_vector)
                    requires
                        j < 32u32,
                        kk < 32u32,
                ;
                if kk == j {
                    assert(cases@[n as int] == c);
                } else if op_enabled(old_result, k) {
                    let i = choose|i: int| 0 <= i < n && rotation_index(cases@[i]) == k;
                    assert(0 <= i < n + 1 && rotation_index(cases@[i]) == k);
                } else {
                    assert forall|i: int| 0 <= i < n + 1 implies rotation_index(#[trigger] cases@[i]) != k by {
                        if i == n {
                            assert(cases@[i] == c);
                        }
                    }
                }
            }
        }
    }
    result
}

/// Rotation identity: the mask that enables only the identity turns any point
/// set into the list holding exactly that set.
pub proof fn lemma_identity_rotation(pts: Seq<Point>)
    ensures
        rotations_spec(1u32, pts) == seq![pts],
{
    assert(transform_all(0, pts) =~= pts);
    lemma_identity_upto(pts, TRANSFORM_COUNT as int);
}

proof fn lemma_identity_upto(pts: Seq<Point>, n: int)
    requires
        1 <= n <= 32,
    ensures
        rotations_upto(1u32, pts, n) == seq![transform_all(0, pts)],
    decreases n,
{
    let o = (n - 1) as u32;
    assert(((1u32 >> o) & 1u32 == 1u32) == (o == 0u32)) by (bit_vector)
        requires o < 32u32;
    if n == 1 {
        assert(rotations_upto(1u32, pts, 0) =~= Seq::<Seq<Point>>::empty());
        assert(rotations_upto(1u32, pts, 1) =~= seq![transform_all(0, pts)]);
    } else {
        lemma_identity_upto(pts, n - 1);
    }
}

} // verus!
