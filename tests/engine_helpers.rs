use tilegen::common_structs::{DispatchIndirect, DrawIndirect};
use tilegen::misc::{index_to_uvec3, udiv_up_32, udiv_up_safe32, uvec3_to_index, Convert2Vec};
use tilegen::prefix_sum::get_scan_block_size;
use tilegen::wfc_test::{
    check, create_shapes, create_x_mirror, create_y_mirror, rotate90, Direction, SceneNode, WfcData,
    WfcTag,
};

#[test]
fn rounded_up_division() {
    assert_eq!(udiv_up_32(7, 2), 4);
    assert_eq!(udiv_up_32(8, 2), 4);
    assert_eq!(udiv_up_32(0, 5), 0);
    assert_eq!(udiv_up_32(u32::MAX, 1), u32::MAX);
    assert_eq!(udiv_up_safe32(9, 0), 0);
    assert_eq!(udiv_up_safe32(9, 4), 3);
}

#[test]
fn index_and_coordinate() {
    assert_eq!(index_to_uvec3(0, 4, 3), [0, 0, 0]);
    assert_eq!(index_to_uvec3(23, 4, 3), [3, 2, 1]);
    assert_eq!(index_to_uvec3(100, 4, 3), [0, 1, 8]);
    assert_eq!(uvec3_to_index(3, 2, 1, 4, 3), 23);
    for i in 0..60u32 {
        let c = index_to_uvec3(i, 4, 3);
        assert_eq!(uvec3_to_index(c[0], c[1], c[2], 4, 3), i);
    }
}

#[test]
fn scan_block_size() {
    assert_eq!(get_scan_block_size(256), 256);
}

#[test]
fn u32_values_from_bytes() {
    let bytes = [1u8, 0, 0, 0, 0x78, 0x56, 0x34, 0x12, 9];
    assert_eq!(<u32 as Convert2Vec>::convert(&bytes), vec![1, 0x12345678]);
    assert!(<u32 as Convert2Vec>::convert(&[1, 2, 3]).is_empty());
}

#[test]
fn indirect_records_from_bytes() {
    let mut bytes: Vec<u8> = Vec::new();
    for v in [3u32, 1, 0, 2, 7, 8] {
        bytes.extend_from_slice(&v.to_le_bytes());
    }
    let draws = DrawIndirect::convert(&bytes);
    assert_eq!(draws.len(), 1);
    assert_eq!(
        (draws[0].vertex_count, draws[0].instance_count, draws[0].base_vertex, draws[0].base_instance),
        (3, 1, 0, 2)
    );
    let dispatches = DispatchIndirect::convert(&bytes);
    assert_eq!(dispatches.len(), 2);
    assert_eq!((dispatches[1].x, dispatches[1].y, dispatches[1].z), (2, 7, 8));
}

fn tile(values: &[u8]) -> WfcData {
    let mut d = WfcData::init(3, 3, 1);
    for (i, v) in values.iter().enumerate() {
        let i = i as u32;
        d.write(i % 3, i / 3, 0, *v);
    }
    d
}

#[test]
fn tile_init_and_write() {
    let mut d = WfcData::init(2, 3, 2);
    assert_eq!(d.data, vec![0; 12]);
    d.write(1, 2, 1, 9);
    assert_eq!(d.data[1 + 2 * 2 + 1 * 6], 9);
    assert_eq!(d.data.iter().filter(|v| **v != 0).count(), 1);
}

#[test]
fn tile_rotation() {
    let mut d = WfcData::init(5, 5, 1);
    for i in 0..25u32 {
        d.write(i % 5, i / 5, 0, i as u8);
    }
    let r = d.rotate90();
    assert_eq!(r.data.len(), 25);
    assert_eq!(r.data[0], 20);
    assert_eq!(r.data[1], 15);
    assert_eq!(r.data[5], 21);
    assert_eq!(r.data[24], 4);
}

#[test]
fn tiles_fitting_a_side() {
    let center = tile(&[1, 2, 3, 4, 5, 6, 7, 8, 9]);
    let above = tile(&[0, 0, 0, 0, 0, 0, 1, 2, 3]);
    let other = tile(&[0; 9]);
    let cases = vec![("a".to_string(), above.clone()), ("b".to_string(), other.clone())];
    let top = center.test(Direction::Top, &cases);
    assert_eq!(top.len(), 1);
    assert_eq!(top[0].data, above.data);
    let right_of = tile(&[3, 0, 0, 6, 0, 0, 9, 0, 0]);
    let right = center.test(Direction::Right, &vec![("r".to_string(), right_of.clone())]);
    assert_eq!(right.len(), 1);
    assert!(center.test(Direction::Left, &vec![("r".to_string(), right_of)]).is_empty());
}

#[test]
fn resolving_cases() {
    let known = tile(&[1, 2, 3, 4, 5, 6, 7, 8, 9]);
    let node = SceneNode { tag: WfcTag::Known, index: 0, wfc_data: known.clone(), alternatives: vec![] };
    let band = SceneNode { tag: WfcTag::Band, index: 1, wfc_data: tile(&[5; 9]), alternatives: vec![] };
    // A neighbour above: its top row must equal the case's bottom row.
    let fits = tile(&[0, 0, 0, 0, 0, 0, 1, 2, 3]);
    let misfit = tile(&[0; 9]);
    let cases = vec![("x".to_string(), misfit.clone()), ("y".to_string(), fits.clone())];
    let neighbors = vec![(Some(node.clone()), Direction::Top), (Some(band), Direction::Left), (None, Direction::Right)];
    let r = WfcData::resolve_cases(&neighbors, &cases, 3, 3);
    assert_eq!(r.len(), 1);
    assert_eq!(r[0].data, fits.data);
    let none: Vec<(Option<SceneNode>, Direction)> = vec![];
    assert_eq!(WfcData::resolve_cases(&none, &cases, 3, 3).len(), 2);
}

#[test]
fn tile_as_text() {
    let mut d = WfcData::init(2, 1, 1);
    d.write(0, 0, 0, b'h');
    d.write(1, 0, 0, b'i');
    assert_eq!(d.toString(), "hi");
}

#[test]
fn inner_locations() {
    let mut d = WfcData::init(2, 2, 2);
    d.write(1, 0, 0, 1);
    d.write(0, 1, 1, 3);
    assert_eq!(d.get_inner_locations(), vec![[1, 0, 0], [0, 1, 1]]);
}

#[test]
fn five_by_five_rotation() {
    let m: Vec<u32> = (0..25).collect();
    let r = rotate90(m);
    assert_eq!(r[0], 20);
    assert_eq!(r[4], 0);
    assert_eq!(r[5], 21);
    assert_eq!(r[24], 4);
}

#[test]
fn five_by_five_check() {
    let center: Vec<u32> = (0..25).collect();
    let mut above = vec![0u32; 25];
    for i in 0..5 {
        above[20 + i] = i as u32;
    }
    assert!(check(&center, &above, Direction::Top));
    assert!(!check(&center, &above, Direction::Bottom));
    let mut left = vec![0u32; 25];
    for i in 0..5 {
        left[5 * i] = (4 + 5 * i) as u32;
    }
    assert!(check(&center, &left, Direction::Left));
    assert!(!check(&center, &left, Direction::Right));
}

#[test]
fn shape_cases() {
    let shapes = create_shapes();
    assert_eq!(shapes.len(), 512);
    assert_eq!(shapes[&0], vec![]);
    assert_eq!(shapes[&1], vec![(-1, 0), (0, -1), (1, 0), (0, -1), (-1, 0), (0, 1), (1, 0), (0, 1)]);
    assert_eq!(shapes[&3], vec![(-1, 0), (0, -1), (1, 0), (0, 1)]);
    assert_eq!(shapes[&9], vec![(-1, 0), (0, -1), (1, 0), (0, -1), (-1, 0), (0, 1)]);
}

#[test]
fn mirrored_cases() {
    assert_eq!(create_x_mirror(0b000_000_001), 0b000_000_100);
    assert_eq!(create_x_mirror(0b101_010_011), 0b101_010_110);
    assert_eq!(create_y_mirror(0b000_000_111), 0b111_000_000);
    assert_eq!(create_y_mirror(0b010_010_100), 0b100_010_010);
    assert_eq!(create_x_mirror(create_x_mirror(0x1a5)), 0x1a5);
}
