use tilegen::prototype::WfcBlock;
use tilegen::scene::{WfcNode, WfcScene};
use tilegen::transform::Point;

fn p(x: i32, y: i32, z: i32) -> Point {
    Point { x, y, z }
}

fn block(points: Vec<Point>) -> WfcBlock {
    WfcBlock::init(0, 2, points, vec![])
}

/// Prototype 1 shows matter only on its x+ face, prototype 2 only on its x-
/// face; prototype 0 is empty.
fn corridor_scene() -> WfcScene {
    let mut scene = WfcScene::init(3, 1, 1);
    assert_eq!(scene.insert_block_case(block(vec![])), 0);
    assert_eq!(scene.insert_block_case(block(vec![p(2, -1, 0), p(2, 1, 1)])), 1);
    assert_eq!(scene.insert_block_case(block(vec![p(-2, 1, 1), p(-2, -1, 0)])), 2);
    scene
}

#[test]
fn two_tile_corridor() {
    let mut scene = corridor_scene();
    scene.add_seed_point(1, [0, 0, 0]);
    scene.expand_band(0);
    assert_eq!(scene.get_node(1), &WfcNode::Band(vec![2]));
    assert_eq!(scene.get_band(), &vec![(1u32, 1u32)]);
    assert_eq!(scene.get_node(2), &WfcNode::Far);
    scene.make_known(1);
    assert_eq!(scene.get_node(1), &WfcNode::Known(2));
    assert_eq!(scene.get_node(0), &WfcNode::Known(1));
    // The cell beyond prototype 2 faces an empty x+ face.
    assert_eq!(scene.get_node(2), &WfcNode::Band(vec![0, 1]));
    assert_eq!(scene.get_band(), &vec![(2u32, 2u32)]);
}

#[test]
fn corridor_by_coordinate() {
    let mut scene = corridor_scene();
    scene.add_seed_point(1, [0, 0, 0]);
    scene.expand_band_uvec3([0, 0, 0]);
    assert_eq!(scene.get_node(1), &WfcNode::Band(vec![2]));
    assert_eq!(scene.find_next_known_candidates(), Some(vec![1]));
    scene.commit_candidate(1, 0);
    assert_eq!(scene.get_node(1), &WfcNode::Known(2));
}

#[test]
fn corner_bounds() {
    let mut scene = WfcScene::init(2, 2, 2);
    scene.insert_block_case(block(vec![p(2, 0, 0)]));
    scene.add_seed_point(0, [0, 0, 0]);
    scene.expand_band(0);
    let band = scene.get_band().clone();
    assert_eq!(band.len(), 3);
    let mut cells: Vec<u32> = band.iter().map(|e| e.1).collect();
    cells.sort();
    assert_eq!(cells, vec![1, 2, 4]);
    assert!(cells.iter().all(|&c| c < 8));
    for c in [1u32, 2, 4] {
        assert!(matches!(scene.get_node(c), WfcNode::Band(_)));
    }
    for c in [3u32, 5, 6, 7] {
        assert_eq!(scene.get_node(c), &WfcNode::Far);
    }
}

#[test]
fn neighbor_slots_at_corner() {
    let scene = WfcScene::init(2, 2, 2);
    assert_eq!(
        scene.find_neighbor_indices_coord([0, 0, 0]),
        [Some(1), None, Some(2), None, Some(4), None]
    );
    assert_eq!(
        scene.find_neighbor_indices_ind(7),
        [None, Some(6), None, Some(5), None, Some(3)]
    );
}

/// Prototype 0 shows (2, 0, 0) on x+ and (-2, 1, 0) on x-; prototype 1
/// shows (2, 0, 1) on x+ and (-2, 1, 1) on x-: no face of either fits any
/// face of prototype 0.
fn stuck_blocks() -> (WfcBlock, WfcBlock) {
    (
        block(vec![p(2, 0, 0), p(-2, 1, 0)]),
        block(vec![p(2, 0, 1), p(-2, 1, 1)]),
    )
}

#[test]
fn stuck_cell() {
    let (a, b) = stuck_blocks();
    let mut scene = WfcScene::init(2, 1, 1);
    scene.insert_block_case(a);
    scene.insert_block_case(b);
    scene.add_seed_point(0, [0, 0, 0]);
    scene.expand_band(0);
    assert_eq!(scene.get_band(), &vec![(0u32, 1u32)]);
    assert_eq!(scene.get_node(1), &WfcNode::Band(vec![]));
    assert_eq!(scene.find_next_known_candidates(), Some(vec![]));
}

#[test]
fn stuck_cell_is_skipped() {
    let (a, _) = stuck_blocks();
    // Its x+ face is prototype 0's x- face mirrored.
    let fits_left = block(vec![p(2, 1, 0)]);
    let mut scene = WfcScene::init(3, 1, 1);
    scene.insert_block_case(a);
    scene.insert_block_case(fits_left);
    scene.add_seed_point(0, [1, 0, 0]);
    scene.expand_band(1);
    assert_eq!(scene.get_node(0), &WfcNode::Band(vec![1]));
    assert_eq!(scene.get_node(2), &WfcNode::Band(vec![]));
    assert_eq!(scene.find_next_known_candidates(), Some(vec![0]));
}

#[test]
fn empty_band_gives_none() {
    let mut scene = corridor_scene();
    assert_eq!(scene.find_next_known_candidates(), None);
    scene.add_seed_point(1, [2, 0, 0]);
    assert_eq!(scene.find_next_known_candidates(), None);
}

#[test]
fn band_minimality() {
    // A floor tile fits above itself only through an empty face, so every
    // prototype with an empty y- face is a candidate above it.
    let mut scene = WfcScene::init(3, 2, 1);
    scene.insert_block_case(block(vec![]));
    scene.insert_block_case(block(vec![p(2, -1, 0)]));
    scene.insert_block_case(block(vec![p(-2, -1, 0)]));
    scene.add_seed_point(1, [1, 0, 0]);
    scene.expand_band(1);
    // x+ neighbour: needs (-2,-1,0) on x-: only prototype 2.
    assert_eq!(scene.get_node(2), &WfcNode::Band(vec![2]));
    // x- neighbour: needs an empty x+ face: prototypes 0 and 2.
    assert_eq!(scene.get_node(0), &WfcNode::Band(vec![0, 2]));
    // y+ neighbour: needs an empty y- face: all three.
    assert_eq!(scene.get_node(4), &WfcNode::Band(vec![0, 1, 2]));
    let next = scene.find_next_known_candidates().unwrap();
    assert_eq!(next, vec![2]);
    let min = scene
        .get_band()
        .iter()
        .filter(|e| e.0 > 0)
        .map(|e| e.0)
        .min()
        .unwrap();
    for c in &next {
        let entry = scene.get_band().iter().find(|e| e.1 == *c).unwrap();
        assert_eq!(entry.0, min);
    }
}

#[test]
fn known_cells_stay_known() {
    let mut scene = corridor_scene();
    scene.add_seed_point(1, [0, 0, 0]);
    scene.expand_band(0);
    scene.make_known(1);
    let before: Vec<WfcNode> = (0..3).map(|i| scene.get_node(i).clone()).collect();
    // Expanding around any cell again leaves the known ones alone.
    scene.expand_band(0);
    scene.expand_band(1);
    scene.expand_band(2);
    assert_eq!(scene.get_node(0), &before[0]);
    assert_eq!(scene.get_node(1), &before[1]);
    assert!(matches!(scene.get_node(2), WfcNode::Band(_)));
}

fn run_first_choice(mut scene: WfcScene) -> Vec<WfcNode> {
    scene.add_seed_point(1, [1, 1, 0]);
    scene.expand_band_uvec3([1, 1, 0]);
    for _ in 0..32 {
        match scene.find_next_known_candidates() {
            Some(c) if !c.is_empty() => scene.commit_candidate(c[0], 0),
            _ => break,
        }
    }
    let n = scene.get_dimensions();
    (0..n[0] * n[1] * n[2]).map(|i| scene.get_node(i).clone()).collect()
}

#[test]
fn determinism_with_fixed_choice() {
    let build = || {
        let mut scene = WfcScene::init(3, 3, 1);
        scene.insert_block_case(block(vec![]));
        scene.insert_block_case(block(vec![p(2, -1, 0), p(-2, 1, 0)]));
        scene.insert_block_case(block(vec![p(-2, -1, 0), p(2, 1, 0)]));
        scene
    };
    let a = run_first_choice(build());
    let b = run_first_choice(build());
    assert_eq!(a, b);
    assert!(a.iter().any(|c| matches!(c, WfcNode::Known(_))));
}

#[test]
fn random_choice_is_a_candidate() {
    let mut scene = WfcScene::init(3, 2, 1);
    scene.insert_block_case(block(vec![]));
    scene.insert_block_case(block(vec![p(2, -1, 0)]));
    scene.insert_block_case(block(vec![p(-2, -1, 0)]));
    scene.add_seed_point(1, [1, 0, 0]);
    scene.expand_band(1);
    for _ in 0..8 {
        let mut s = scene.clone();
        s.make_known(4);
        match s.get_node(4) {
            WfcNode::Known(id) => assert!(*id <= 2),
            other => panic!("not resolved: {:?}", other),
        }
        assert!(s.get_band().iter().all(|e| e.1 != 4));
    }
}

#[test]
fn exported_boxes() {
    let mut scene = corridor_scene();
    scene.add_seed_point(1, [0, 0, 0]);
    let boxes = scene.get_aabb_data();
    assert_eq!(boxes.len(), 2);
    assert_eq!((boxes[0].x, boxes[0].y, boxes[0].z), (0, 0, 0));
    assert_eq!(boxes[0].offset, p(2, -1, 0));
    assert_eq!(boxes[1].offset, p(2, 1, 1));
    assert_eq!(boxes[0].size, 2);
    assert_eq!(boxes[0].color, 0x0F00FFFF);
    assert!(scene.get_aabb_data().is_empty());
    scene.expand_band(0);
    scene.make_known(1);
    let boxes = scene.get_aabb_data();
    assert_eq!(boxes.len(), 2);
    assert_eq!((boxes[0].x, boxes[0].y, boxes[0].z), (1, 0, 0));
    assert_eq!(boxes[0].offset, p(-2, 1, 1));
}
