use quadboy::config::{MAP_SIZE, ZONE_SIZE};
use quadboy::rendering::projection::{
    is_zone_oob, world_to_zone_idx, world_to_zone_local, zone_idx, zone_local_to_world, zone_xyz,
};

#[test]
fn zone_index_layout() {
    assert_eq!(zone_idx(0, 0, 0), 0);
    assert_eq!(zone_idx(0, 0, 1), 1);
    assert_eq!(zone_idx(0, 1, 0), MAP_SIZE.2);
    assert_eq!(zone_idx(1, 0, 0), MAP_SIZE.1 * MAP_SIZE.2);
    assert_eq!(zone_idx(3, 5, 2), 3 * 32 * 4 + 5 * 4 + 2);
}

#[test]
fn zone_xyz_inverts_zone_idx() {
    for x in 0..MAP_SIZE.0 {
        for y in 0..MAP_SIZE.1 {
            for z in 0..MAP_SIZE.2 {
                assert_eq!(zone_xyz(zone_idx(x, y, z)), (x, y, z));
            }
        }
    }
}

#[test]
fn zone_idx_inverts_zone_xyz() {
    for i in [0usize, 1, 7, 128, 1000, 4095] {
        let (x, y, z) = zone_xyz(i);
        assert_eq!(zone_idx(x, y, z), i);
    }
}

#[test]
fn zone_out_of_bounds() {
    assert!(!is_zone_oob(0, 0, 0));
    assert!(!is_zone_oob(MAP_SIZE.0 - 1, MAP_SIZE.1 - 1, MAP_SIZE.2 - 1));
    assert!(is_zone_oob(MAP_SIZE.0, 0, 0));
    assert!(is_zone_oob(0, MAP_SIZE.1, 0));
    assert!(is_zone_oob(0, 0, MAP_SIZE.2));
}

#[test]
fn local_and_world_coordinates() {
    let idx = zone_idx(2, 3, 1);
    assert_eq!(zone_local_to_world(idx, 5, 7), (2 * ZONE_SIZE.0 + 5, 3 * ZONE_SIZE.1 + 7, 1));
    assert_eq!(world_to_zone_local(2 * ZONE_SIZE.0 + 5, 3 * ZONE_SIZE.1 + 7), (5, 7));
    assert_eq!(world_to_zone_idx(2 * ZONE_SIZE.0 + 5, 3 * ZONE_SIZE.1 + 7, 1), idx);
}

#[test]
fn world_roundtrip_through_zone() {
    for (x, y, z) in [(0usize, 0usize, 0usize), (79, 39, 3), (80, 40, 0), (1234, 567, 2)] {
        let idx = world_to_zone_idx(x, y, z);
        let (lx, ly) = world_to_zone_local(x, y);
        assert_eq!(zone_local_to_world(idx, lx, ly), (x, y, z));
    }
}
