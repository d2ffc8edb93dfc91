use tilegen::compat::check_connections;
use tilegen::prototype::WfcBlock;
use tilegen::shapes::{corner, corner2, test_data_empty, test_data_floor, test_data_v3};
use tilegen::transform::{
    apply_transform, create_rotation_cases, create_rotations, Rotation, mirror_x, mirror_y, mirror_z, ro180x, ro180y, ro180z,
    ro270x, ro270y, ro270z, ro90x, ro90y, ro90z, Point,
};

fn p(x: i32, y: i32, z: i32) -> Point {
    Point { x, y, z }
}

#[test]
fn identity_mask_keeps_points() {
    let pts = vec![p(1, 2, 3), p(-2, 0, 2), p(0, 0, 0)];
    assert_eq!(create_rotations(1, &pts), vec![pts.clone()]);
    assert_eq!(create_rotations(0, &vec![]), Vec::<Vec<Point>>::new());
}

#[test]
fn empty_mask_gives_nothing() {
    let pts = vec![p(1, 2, 3)];
    assert!(create_rotations(0, &pts).is_empty());
    assert!(create_rotations(1 << 13, &pts).is_empty());
}

#[test]
fn rotations_in_bit_order() {
    let pts = vec![p(1, 2, 3)];
    let r = create_rotations(0b1_0000_0000_0110, &pts);
    assert_eq!(r, vec![vec![p(1, -3, 2)], vec![p(1, -2, -3)], vec![p(1, 2, -3)]]);
    let all = create_rotations(0x1FFF, &pts);
    assert_eq!(all.len(), 13);
    assert_eq!(all[9], vec![p(2, -1, 3)]);
}

#[test]
fn each_transform() {
    let q = p(1, 2, 3);
    assert_eq!(ro90x(&q), p(1, -3, 2));
    assert_eq!(ro180x(&q), p(1, -2, -3));
    assert_eq!(ro270x(&q), p(1, 3, -2));
    assert_eq!(ro90y(&q), p(3, 2, -1));
    assert_eq!(ro180y(&q), p(-1, 2, -3));
    assert_eq!(ro270y(&q), p(-3, 2, 1));
    assert_eq!(ro90z(&q), p(-2, 1, 3));
    assert_eq!(ro180z(&q), p(-1, -2, 3));
    assert_eq!(ro270z(&q), p(2, -1, 3));
    assert_eq!(mirror_x(&q), p(-1, 2, 3));
    assert_eq!(mirror_y(&q), p(1, -2, 3));
    assert_eq!(mirror_z(&q), p(1, 2, -3));
    assert_eq!(apply_transform(0, &q), q);
    assert_eq!(apply_transform(7, &q), p(-2, 1, 3));
}

#[test]
fn signatures_are_sorted_faces() {
    let b = WfcBlock::init(4, 2, vec![p(2, 1, 0), p(0, 0, 0), p(2, -1, 1), p(-2, 0, 0)], vec![[1, 2, 3, 4]]);
    assert_eq!(b.get_id(), 4);
    assert_eq!(b.get_dimension(), 2);
    assert_eq!(b.get_match_data(0), &vec![p(-2, 0, 0), p(0, 0, 0), p(2, -1, 1), p(2, 1, 0)]);
    assert_eq!(b.get_match_data(1), &vec![p(2, -1, 1), p(2, 1, 0)]);
    assert_eq!(b.get_match_data(2), &vec![p(-2, 0, 0)]);
    assert_eq!(b.get_match_data(3), &vec![]);
    // The x- face mirrored onto x+.
    assert_eq!(b.get_inverted_match(1), &vec![p(2, 0, 0)]);
    // The x+ face mirrored onto x-.
    assert_eq!(b.get_inverted_match(2), &vec![p(-2, -1, 1), p(-2, 1, 0)]);
}

#[test]
fn self_match_on_symmetric_face() {
    let sym = WfcBlock::init(0, 2, vec![p(2, 0, 1), p(-2, 0, 1)], vec![]);
    assert_eq!(sym.get_match_data(1), sym.get_inverted_match(1));
    assert!(sym.matches(&sym, 1));
    let asym = WfcBlock::init(0, 2, vec![p(2, 0, 1), p(-2, 1, 1)], vec![]);
    assert_ne!(asym.get_match_data(1), asym.get_inverted_match(1));
    assert!(!asym.matches(&asym, 1));
}

#[test]
fn matching_faces() {
    let a = WfcBlock::init(0, 2, vec![p(2, 1, 0), p(2, 0, 0)], vec![]);
    let b = WfcBlock::init(1, 2, vec![p(-2, 0, 0), p(-2, 1, 0), p(0, 2, 0)], vec![]);
    assert!(a.matches(&b, 1));
    // Empty faces fit empty faces.
    assert!(a.matches(&b, 2));
    assert!(a.matches(&b, 5));
    // b's y+ face holds (0, 2, 0); a has nothing on y-.
    assert!(!a.matches(&b, 4));
    assert!(!b.matches(&a, 3));
    assert!(b.matches(&a, 2));
}

#[test]
fn rotated_prototype() {
    let b = WfcBlock::init(0, 2, vec![p(2, 1, 0)], vec![[7, 7, 7, 7]]);
    let r = b.create_rotation(0b1000_0000, 9);
    assert_eq!(r.get_id(), 9);
    assert_eq!(r.get_dimension(), 2);
    assert_eq!(r.get_connection_data(), &vec![p(-1, 2, 0)]);
    assert_eq!(r.get_match_data(3), &vec![p(-1, 2, 0)]);
    assert_eq!(r.get_match_data(1), &vec![]);
}

#[test]
fn connection_table() {
    let input = vec![p(2, 0, 0)];
    let neighbor = vec![p(-2, 0, 0), p(0, 2, 0)];
    // Orientations: identity, 90 about z, 180 about z.
    let t = check_connections(&input, &neighbor, 0b1_1000_0001, 2);
    // x+: the neighbour's x- face must hold (-2,0,0). Identity has it; the
    // 90 degree turn sends (0,2,0) to (-2,0,0) too.
    assert_eq!(t[0], 0b011);
    // x-: input's x- face is empty, the 180 degree turn leaves the
    // neighbour's x+ face non-empty.
    assert_eq!(t[1], 0b011);
    assert_eq!(t[4], 0b111);
    let none = check_connections(&input, &neighbor, 0, 2);
    assert_eq!(none, [0; 6]);
}

#[test]
fn demo_shapes() {
    let floor = test_data_floor();
    assert_eq!(floor.len(), 25);
    assert_eq!(floor[0], p(-2, -2, -2));
    assert_eq!(floor[1], p(-2, -2, -1));
    assert_eq!(floor[24], p(2, -2, 2));
    let v3 = test_data_v3();
    assert_eq!(v3.len(), 45);
    assert_eq!(v3[19], p(1, -2, 2));
    assert_eq!(v3[20], p(2, -2, -2));
    assert_eq!(corner(), vec![p(2, -2, -2), p(2, -1, -2), p(2, 0, -2), p(2, 1, -2), p(2, 2, -2)]);
    assert_eq!(corner2().len(), 10);
    assert_eq!(corner2()[5], p(-2, -2, -2));
    assert!(test_data_empty().is_empty());
}

#[test]
fn rotation_mask_from_names() {
    assert_eq!(create_rotation_cases(&vec![]), 0);
    assert_eq!(create_rotation_cases(&vec![Rotation::Identity, Rotation::R90Z]), 0b1000_0001);
    assert_eq!(
        create_rotation_cases(&vec![Rotation::ReflectionZ, Rotation::R180X, Rotation::R180X]),
        0b1_0000_0000_0100
    );
}
