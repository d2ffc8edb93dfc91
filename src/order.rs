//! The canonical order on points (lexicographic on x, y, z) and a sort that
//! puts a point list into it.
use vstd::prelude::*;
use vstd::relations::{sorted_by, total_ordering};
use vstd::seq_lib::lemma_sorted_unique;
use crate::transform::Point;

verus! {

broadcast use vstd::seq_lib::group_to_multiset_ensures;

pub open spec fn point_le(a: Point, b: Point) -> bool {
    a.x < b.x || (a.x == b.x && (a.y < b.y || (a.y == b.y && a.z <= b.z)))
}

pub open spec fn point_order() -> spec_fn(Point, Point) -> bool {
    |a: Point, b: Point| point_le(a, b)
}

/// `s` in canonical order.
pub open spec fn canonical(s: Seq<Point>) -> Seq<Point> {
    s.sort_by(point_order())
}

pub proof fn lemma_point_order_total()
    ensures
        total_ordering(point_order()),
{
    let f = point_order();
    assert forall|a: Point, b: Point| #[trigger] f(a, b) && f(b, a) implies a == b by {}
    assert forall|a: Point, b: Point, c: Point| #[trigger] f(a, b) && #[trigger] f(b, c) implies f(a, c) by {}
    assert forall|a: Point, b: Point| #[trigger] f(a, b) || f(b, a) by {}
    assert forall|a: Point| #[trigger] f(a, a) by {}
}

/// Two point lists have the same canonical form exactly when they hold the
/// same points, counted with multiplicity.
pub proof fn lemma_canonical_eq(a: Seq<Point>, b: Seq<Point>)
    ensures
        (canonical(a) == canonical(b)) == (a.to_multiset() == b.to_multiset()),
{
    lemma_point_order_total();
    a.lemma_sort_by_ensures(point_order());
    b.lemma_sort_by_ensures(point_order());
    if a.to_multiset() == b.to_multiset() {
        lemma_sorted_unique(canonical(a), canonical(b), point_order());
    }
}

/// Filtering a sequence with one more element at its end.
pub proof fn lemma_filter_push<A>(s: Seq<A>, x: A, f: spec_fn(A) -> bool)
    ensures
        s.push(x).filter(f) == (if f(x) {
            s.filter(f).push(x)
        } else {
            s.filter(f)
        }),
{
    reveal(Seq::filter);
    assert(s.push(x).drop_last() =~= s);
}

pub fn point_le_exec(a: &Point, b: &Point) -> (r: bool)
    ensures
        r == point_le(*a, *b),
{
    a.x < b.x || (a.x == b.x && (a.y < b.y || (a.y == b.y && a.z <= b.z)))
}

/// The points of `v` in canonical order.
pub fn sort_points(v: &Vec<Point>) -> (r: Vec<Point>)
    ensures
        r@ == canonical(v@),
{
    proof { lemma_point_order_total(); }
    let mut out: Vec<Point> = Vec::new();
    for i in 0..v.len()
        invariant
            total_ordering(point_order()),
            sorted_by(out@, point_order()),
            out@.to_multiset() == v@.subrange(0, i as int).to_multiset(),
    {
        let p = v[i];
        let mut j: usize = 0;
        while j < out.len() && point_le_exec(&out[j], &p)
            invariant
                j <= out.len(),
                forall|k: int| 0 <= k < j ==> point_le(#[trigger] out@[k], p),
            decreases out.len() - j,
        {
            j += 1;
        }
        let ghost before = out@;
        proof {
            if j < before.len() {
                assert(!point_le(before[j as int], p));
                assert(point_le(p, before[j as int]));
            }
        }
        out.insert(j, p);
        proof {
            let f = point_order();
            assert forall|a: int, b: int| 0 <= a < b < out@.len() implies #[trigger] f(out@[a], out@[b]) by {
                if b < j {
                    assert(f(before[a], before[b]));
                } else if b == j {
                    assert(point_le(before[a], p));
                } else if a == j {
                    assert(f(before[j as int], before[b - 1]) || b - 1 == j);
                    assert(f(p, before[j as int]));
                } else if a < j {
                    assert(f(before[a], p));
                    assert(f(p, before[j as int]));
                    assert(f(before[j as int], before[b - 1]) || b - 1 == j);
                } else {
                    assert(f(before[a - 1], before[b - 1]));
                }
            }
            assert(v@.subrange(0, i + 1) =~= v@.subrange(0, i as int).push(p));
        }
    }
    proof {
        assert(v@.subrange(0, v@.len() as int) =~= v@);
        v@.lemma_sort_by_ensures(point_order());
        lemma_sorted_unique(out@, canonical(v@), point_order());
    }
    out
}

/// Whether two point lists are equal, element by element.
pub fn points_equal(a: &Vec<Point>, b: &Vec<Point>) -> (r: bool)
    ensures
        r == (a@ == b@),
{
    if a.len() != b.len() {
        return false;
    }
    for i in 0..a.len()
        invariant
            a@.len() == b@.len(),
            forall|k: int| 0 <= k < i ==> a@[k] == b@[k],
    {
        if a[i] != b[i] {
            return false;
        }
    }
    assert(a@ =~= b@);
    true
}

} // verus!
