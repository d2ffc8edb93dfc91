//! The compatibility table between a tile and the orientations of a
//! neighbour: per face, a bitmask of the orientations that fit.
use vstd::prelude::*;
use crate::order::{lemma_canonical_eq, points_equal, sort_points};
use crate::prototype::{
    enabled_count, face_of, face_points, flipped_face, flipped_face_of, lemma_rotations_len,
};
use crate::transform::{create_rotations, points_ok, rotations_spec, Point};

verus! {

/// `2` to the power `n`.
pub open spec fn bit_value(n: nat) -> nat
    decreases n,
{
    if n == 0 {
        1
    } else {
        2 * bit_value((n - 1) as nat)
    }
}

/// Tile points `a` fit points `b` lying beyond face `d`.
pub open spec fn fits(a: Seq<Point>, b: Seq<Point>, d: int, h: int) -> bool {
    face_points(a, d, h).to_multiset() == flipped_face(b, d, h).to_multiset()
}

/// The bitmask, over the first `n` orientations in `rots`, of those that fit
/// `input` beyond face `d`: bit `r` is set exactly when orientation `r` fits.
pub open spec fn compat_mask(input: Seq<Point>, rots: Seq<Seq<Point>>, d: int, h: int, n: int) -> nat
    decreases n,
{
    if n <= 0 {
        0
    } else {
        compat_mask(input, rots, d, h, n - 1) + if fits(input, rots[n - 1], d, h) {
            bit_value((n - 1) as nat)
        } else {
            0
        }
    }
}

/// What `check_connections` gives for face `d`.
pub open spec fn connection_entry(input: Seq<Point>, neighbor: Seq<Point>, mask: u32, d: int, h: int) -> nat {
    let rots = rotations_spec(mask, neighbor);
    compat_mask(input, rots, d, h, rots.len() as int)
}

proof fn lemma_enabled_count_bound(mask: u32, n: int)
    requires
        n >= 0,
    ensures
        enabled_count(mask, n) <= n,
    decreases n,
{
    if n > 0 {
        lemma_enabled_count_bound(mask, n - 1);
    }
}

proof fn lemma_compat_mask_bound(input: Seq<Point>, rots: Seq<Seq<Point>>, d: int, h: int, n: int)
    requires
        n >= 0,
    ensures
        compat_mask(input, rots, d, h, n) < bit_value(n as nat),
    decreases n,
{
    if n > 0 {
        lemma_compat_mask_bound(input, rots, d, h, n - 1);
    }
}

proof fn lemma_bit_value_bound(n: nat)
    requires
        n <= 13,
    ensures
        bit_value(n) <= 8192,
    decreases 13 - n,
{
    if n < 13 {
        lemma_bit_value_bound(n + 1);
    } else {
        reveal_with_fuel(bit_value, 14);
    }
}

/// For each face `x+, x-, y+, y-, z+, z-` (entries 0 to 5), the bitmask of the
/// orientations of `neighbor` enabled in `neighbor_rotations` that fit
/// `input` beyond that face; bit `r` stands for the `r`-th enabled
/// orientation. Faces lie at `half_extent` from the centre.
pub fn check_connections(
    input: &Vec<Point>,
    neighbor: &Vec<Point>,
    neighbor_rotations: u32,
    half_extent: u32,
) -> (r: [u32; 6])
    requires
        points_ok(neighbor@),
        half_extent <= i32::MAX,
    ensures
        forall|k: int|
            0 <= k < 6 ==> r[k] as nat == connection_entry(
                input@,
                neighbor@,
                neighbor_rotations,
                k + 1,
                half_extent as int,
            ),
{
    let h = half_extent as i32;
    let rots = create_rotations(neighbor_rotations, neighbor);
    let ghost rs = rotations_spec(neighbor_rotations, neighbor@);
    proof {
        lemma_rotations_len(neighbor_rotations, neighbor@, 13);
        lemma_enabled_count_bound(neighbor_rotations, 13);
        assert(rots@.len() == rs.len());
    }
    let mut result: [u32; 6] = [0u32; 6];
    for k in 0..6
        invariant
            h == half_extent as int,
            h >= 0,
            rots@.len() == rs.len(),
            rs.len() <= 13,
            rs == rotations_spec(neighbor_rotations, neighbor@),
            forall|j: int| 0 <= j < rs.len() ==> #[trigger] rots@[j]@ == rs[j],
            forall|j: int|
                0 <= j < k ==> result[j] as nat == connection_entry(
                    input@,
                    neighbor@,
                    neighbor_rotations,
                    j + 1,
                    half_extent as int,
                ),
    {
        let d = k + 1;
        let own = sort_points(&face_of(input, d, h));
        let mut acc: u32 = 0;
        let mut bit: u32 = 1;
        proof {
            lemma_bit_value_bound(0);
        }
        for j in 0..rots.len()
            invariant
                h == half_extent as int,
                h >= 0,
                d == k + 1,
                k < 6,
                rots@.len() == rs.len(),
                rs.len() <= 13,
                j <= rs.len(),
                forall|i: int| 0 <= i < rs.len() ==> #[trigger] rots@[i]@ == rs[i],
                own@ == crate::order::canonical(face_points(input@, d as int, h as int)),
                acc as nat == compat_mask(input@, rs, d as int, h as int, j as int),
                bit as nat == bit_value(j as nat),
                bit as nat <= bit_value(j as nat),
                bit_value(j as nat) <= 8192,
        {
            let other = sort_points(&flipped_face_of(&rots[j], d, h));
            proof {
                lemma_canonical_eq(
                    flipped_face(rs[j as int], d as int, h as int),
                    face_points(input@, d as int, h as int),
                );
                lemma_compat_mask_bound(input@, rs, d as int, h as int, j as int);
            }
            let same = points_equal(&other, &own);
            proof {
                assert(same == fits(input@, rs[j as int], d as int, h as int));
                assert(compat_mask(input@, rs, d as int, h as int, j + 1) == compat_mask(
                    input@,
                    rs,
                    d as int,
                    h as int,
                    j as int,
                ) + if same {
                    bit_value(j as nat)
                } else {
                    0
                });
                if j + 1 <= 13 {
                    lemma_bit_value_bound((j + 1) as nat);
                }
            }
            if same {
                acc = acc + bit;
            }
            bit = bit * 2;
        }
        result[k] = acc;
    }
    result
}

} // verus!
