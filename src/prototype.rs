//! Tile prototypes: a set of boundary points with, per face, the signature
//! that adjacency is decided by.
use vstd::prelude::*;
use crate::order::{canonical, lemma_canonical_eq, lemma_filter_push, points_equal, sort_points};
use crate::transform::{create_rotations, points_ok, rotations_spec, rotations_upto, op_enabled, pt, Point};

verus! {

/// Face slots: 0 stands for the whole tile; 1 to 6 for the faces x+, x-, y+,
/// y-, z+, z-.
pub const FACE_SLOTS: usize = 7;

/// Whether `p` lies on face `d` of a tile of half-extent `h`.
pub open spec fn on_face(p: Point, d: int, h: int) -> bool {
    if d == 1 {
        p.x == h
    } else if d == 2 {
        p.x == -h
    } else if d == 3 {
        p.y == h
    } else if d == 4 {
        p.y == -h
    } else if d == 5 {
        p.z == h
    } else if d == 6 {
        p.z == -h
    } else {
        true
    }
}

/// The face across the tile from face `d`.
pub open spec fn opposite(d: int) -> int {
    if d == 1 {
        2
    } else if d == 2 {
        1
    } else if d == 3 {
        4
    } else if d == 4 {
        3
    } else if d == 5 {
        6
    } else if d == 6 {
        5
    } else {
        d
    }
}

/// `p` with its coordinate on the axis of face `d` negated.
pub open spec fn flip(p: Point, d: int) -> Point {
    if d == 1 || d == 2 {
        pt(-p.x, p.y as int, p.z as int)
    } else if d == 3 || d == 4 {
        pt(p.x as int, -p.y, p.z as int)
    } else if d == 5 || d == 6 {
        pt(p.x as int, p.y as int, -p.z)
    } else {
        p
    }
}

/// The points of `pts` on face `d`, in their order in `pts`.
pub open spec fn face_points(pts: Seq<Point>, d: int, h: int) -> Seq<Point> {
    pts.filter(|p: Point| on_face(p, d, h))
}

/// The points on the face opposite `d`, mirrored onto face `d`: what a
/// neighbour on the `d` side must show for the two tiles to fit.
pub open spec fn flipped_face(pts: Seq<Point>, d: int, h: int) -> Seq<Point> {
    face_points(pts, opposite(d), h).map_values(|p: Point| flip(p, d))
}

/// The signature of face `d`: its points in canonical order.
pub open spec fn signature(pts: Seq<Point>, d: int, h: int) -> Seq<Point> {
    canonical(face_points(pts, d, h))
}

/// The inverted signature of face `d`: the mirrored opposite face in
/// canonical order.
pub open spec fn inverted_signature(pts: Seq<Point>, d: int, h: int) -> Seq<Point> {
    canonical(flipped_face(pts, d, h))
}

/// What a prototype is: its id, half-extent, boundary points and render
/// payload.
pub struct BlockView {
    pub id: u32,
    pub dimension: u32,
    pub points: Seq<Point>,
    pub render: Seq<[u32; 4]>,
}

/// A tile `a` fits a tile `b` that lies beyond its face `d`: the points of
/// `a` on face `d` are those of `b` on the opposite face, mirrored, counted
/// with multiplicity.
pub open spec fn matches_spec(a: BlockView, b: BlockView, d: int) -> bool {
    face_points(a.points, d, a.dimension as int).to_multiset() == flipped_face(
        b.points,
        d,
        b.dimension as int,
    ).to_multiset()
}

/// How many of the first `n` operations `mask` enables.
pub open spec fn enabled_count(mask: u32, n: int) -> nat
    decreases n,
{
    if n <= 0 {
        0
    } else if op_enabled(mask, n - 1) {
        enabled_count(mask, n - 1) + 1
    } else {
        enabled_count(mask, n - 1)
    }
}

pub(crate) proof fn lemma_rotations_len(mask: u32, pts: Seq<Point>, n: int)
    ensures
        rotations_upto(mask, pts, n).len() == enabled_count(mask, n),
    decreases n,
{
    if n > 0 {
        lemma_rotations_len(mask, pts, n - 1);
    }
}

fn on_face_exec(p: &Point, d: usize, h: i32) -> (r: bool)
    requires
        h >= 0,
    ensures
        r == on_face(*p, d as int, h as int),
{
    match d {
        1 => p.x == h,
        2 => p.x == -h,
        3 => p.y == h,
        4 => p.y == -h,
        5 => p.z == h,
        6 => p.z == -h,
        _ => true,
    }
}

fn opposite_exec(d: usize) -> (r: usize)
    requires
        d < FACE_SLOTS,
    ensures
        r == opposite(d as int),
        r < FACE_SLOTS,
{
    match d {
        1 => 2,
        2 => 1,
        3 => 4,
        4 => 3,
        5 => 6,
        6 => 5,
        _ => d,
    }
}

/// The points of `pts` on face `d`.
pub(crate) fn face_of(pts: &Vec<Point>, d: usize, h: i32) -> (r: Vec<Point>)
    requires
        h >= 0,
    ensures
        r@ == face_points(pts@, d as int, h as int),
{
    let ghost f = |p: Point| on_face(p, d as int, h as int);
    let mut out: Vec<Point> = Vec::new();
    for i in 0..pts.len()
        invariant
            h >= 0,
            f == (|p: Point| on_face(p, d as int, h as int)),
            out@ == pts@.subrange(0, i as int).filter(f),
    {
        proof {
            assert(pts@.subrange(0, i + 1) =~= pts@.subrange(0, i as int).push(pts@[i as int]));
            lemma_filter_push(pts@.subrange(0, i as int), pts@[i as int], f);
        }
        if on_face_exec(&pts[i], d, h) {
            out.push(pts[i]);
        }
    }
    assert(pts@.subrange(0, pts@.len() as int) =~= pts@);
    out
}

/// The points on the face opposite `d`, mirrored onto face `d`.
pub(crate) fn flipped_face_of(pts: &Vec<Point>, d: usize, h: i32) -> (r: Vec<Point>)
    requires
        h >= 0,
        d < FACE_SLOTS,
    ensures
        r@ == flipped_face(pts@, d as int, h as int),
{
    let od = opposite_exec(d);
    let face = face_of(pts, od, h);
    let ghost g = |p: Point| flip(p, d as int);
    let mut out: Vec<Point> = Vec::new();
    for i in 0..face.len()
        invariant
            h >= 0,
            d < FACE_SLOTS,
            od == opposite(d as int),
            face@ == face_points(pts@, od as int, h as int),
            g == (|p: Point| flip(p, d as int)),
            out@ == face@.subrange(0, i as int).map_values(g),
    {
        let p = face[i];
        proof {
            assert(on_face(p, od as int, h as int)) by {
                broadcast use vstd::seq_lib::group_filter_ensures;

                assert(face@.contains(p));
            }
        }
        let q = if d == 1 || d == 2 {
            Point { x: -p.x, y: p.y, z: p.z }
        } else if d == 3 || d == 4 {
            Point { x: p.x, y: -p.y, z: p.z }
        } else if d == 5 || d == 6 {
            Point { x: p.x, y: p.y, z: -p.z }
        } else {
            p
        };
        out.push(q);
        assert(face@.subrange(0, i + 1) =~= face@.subrange(0, i as int).push(p));
        assert(out@ =~= face@.subrange(0, i + 1).map_values(g));
    }
    assert(face@.subrange(0, face@.len() as int) =~= face@);
    out
}

/// A tile prototype. Its face signatures are computed once, when it is made.
#[derive(Clone, Debug)]
pub struct WfcBlock {
    pub id: u32,
    dimension: u32,
    connection_data: Vec<Point>,
    render_data: Vec<[u32; 4]>,
    match_data: Vec<Vec<Point>>,
    match_inverted: Vec<Vec<Point>>,
}

impl View for WfcBlock {
    type V = BlockView;

    closed spec fn view(&self) -> BlockView {
        BlockView {
            id: self.id,
            dimension: self.dimension,
            points: self.connection_data@,
            render: self.render_data@,
        }
    }
}

impl WfcBlock {
    /// The cached signatures agree with the points.
    pub closed spec fn wf(&self) -> bool {
        &&& self.dimension <= i32::MAX
        &&& self.match_data@.len() == FACE_SLOTS
        &&& self.match_inverted@.len() == FACE_SLOTS
        &&& forall|d: int|
            0 <= d < FACE_SLOTS ==> #[trigger] self.match_data@[d]@ == signature(
                self.connection_data@,
                d,
                self.dimension as int,
            )
        &&& forall|d: int|
            0 <= d < FACE_SLOTS ==> #[trigger] self.match_inverted@[d]@ == inverted_signature(
                self.connection_data@,
                d,
                self.dimension as int,
            )
    }

    /// A prototype of half-extent `dimension` whose boundary points are
    /// `connection_data`.
    pub fn init(id: u32, dimension: u32, connection_data: Vec<Point>, render_data: Vec<[u32; 4]>) -> (r: Self)
        requires
            dimension <= i32::MAX,
        ensures
            r.wf(),
            r@ == (BlockView {
                id,
                dimension,
                points: connection_data@,
                render: render_data@,
            }),
    {
        let h = dimension as i32;
        let mut match_data: Vec<Vec<Point>> = Vec::new();
        let mut match_inverted: Vec<Vec<Point>> = Vec::new();
        for d in 0..FACE_SLOTS
            invariant
                h == dimension as int,
                h >= 0,
                match_data@.len() == d,
                match_inverted@.len() == d,
                forall|k: int|
                    0 <= k < d ==> #[trigger] match_data@[k]@ == signature(
                        connection_data@,
                        k,
                        h as int,
                    ),
                forall|k: int|
                    0 <= k < d ==> #[trigger] match_inverted@[k]@ == inverted_signature(
                        connection_data@,
                        k,
                        h as int,
                    ),
        {
            let face = face_of(&connection_data, d, h);
            match_data.push(sort_points(&face));
            let flipped = flipped_face_of(&connection_data, d, h);
            match_inverted.push(sort_points(&flipped));
        }
        WfcBlock {
            id,
            dimension,
            connection_data,
            render_data,
            match_data,
            match_inverted,
        }
    }

    pub fn get_id(&self) -> (r: u32)
        ensures
            r == self@.id,
    {
        self.id
    }

    pub fn get_dimension(&self) -> (r: u32)
        ensures
            r == self@.dimension,
    {
        self.dimension
    }

    /// Gives the prototype another id.
    pub fn set_id(&mut self, id: u32)
        requires
            old(self).wf(),
        ensures
            final(self).wf(),
            final(self)@ == (BlockView { id, ..old(self)@ }),
    {
        self.id = id;
    }

    /// The signature of face `direction` (0 for all points).
    pub fn get_match_data(&self, direction: usize) -> (r: &Vec<Point>)
        requires
            self.wf(),
            direction < FACE_SLOTS,
        ensures
            r@ == signature(self@.points, direction as int, self@.dimension as int),
    {
        &self.match_data[direction]
    }

    /// The inverted signature of face `direction` (0 for all points).
    pub fn get_inverted_match(&self, direction: usize) -> (r: &Vec<Point>)
        requires
            self.wf(),
            direction < FACE_SLOTS,
        ensures
            r@ == inverted_signature(self@.points, direction as int, self@.dimension as int),
    {
        &self.match_inverted[direction]
    }

    pub fn get_connection_data(&self) -> (r: &Vec<Point>)
        ensures
            r@ == self@.points,
    {
        &self.connection_data
    }

    /// Whether this prototype fits `other` lying beyond its face `direction`:
    /// the signature of that face equals the inverted signature of `other`
    /// for it.
    pub fn matches(&self, other: &WfcBlock, direction: usize) -> (r: bool)
        requires
            self.wf(),
            other.wf(),
            direction < FACE_SLOTS,
            self@.dimension == other@.dimension,
        ensures
            r == matches_spec(self@, other@, direction as int),
    {
        let r = points_equal(&other.match_inverted[direction], &self.match_data[direction]);
        proof {
            lemma_canonical_eq(
                flipped_face(other@.points, direction as int, other@.dimension as int),
                face_points(self@.points, direction as int, self@.dimension as int),
            );
        }
        r
    }

    /// A new prototype with id `id`: this one turned by the single operation
    /// that `rule` enables.
    pub fn create_rotation(&self, rule: u32, id: u32) -> (r: WfcBlock)
        requires
            self.wf(),
            points_ok(self@.points),
            enabled_count(rule, 13) == 1,
        ensures
            r.wf(),
            r@ == (BlockView {
                id,
                dimension: self@.dimension,
                points: rotations_spec(rule, self@.points)[0],
                render: self@.render,
            }),
    {
        let mut rotations = create_rotations(rule, &self.connection_data);
        proof {
            lemma_rotations_len(rule, self@.points, 13);
            assert(rotations@.map_values(|v: Vec<Point>| v@)[0] == rotations@[0]@);
        }
        let points = rotations.swap_remove(0);
        let mut render: Vec<[u32; 4]> = Vec::new();
        for i in 0..self.render_data.len()
            invariant
                render@ == self.render_data@.subrange(0, i as int),
        {
            render.push(self.render_data[i]);
            assert(render@ =~= self.render_data@.subrange(0, i + 1));
        }
        assert(render@ =~= self.render_data@);
        WfcBlock::init(id, self.dimension, points, render)
    }
}

/// Face/inverted symmetry: a prototype fits itself across a face exactly when
/// the signature of that face equals its inverted signature for it.
pub proof fn lemma_self_match(p: BlockView, d: int)
    ensures
        matches_spec(p, p, d) == (signature(p.points, d, p.dimension as int) == inverted_signature(
            p.points,
            d,
            p.dimension as int,
        )),
{
    lemma_canonical_eq(
        face_points(p.points, d, p.dimension as int),
        flipped_face(p.points, d, p.dimension as int),
    );
}

} // verus!
