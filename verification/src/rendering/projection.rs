use vstd::prelude::*;

use crate::config::{MAP_SIZE, ZONE_SIZE};

verus! {

/// Index of the zone at zone position (x, y, z): zones are laid out with z
/// fastest, then y, then x.
pub open spec fn zone_index(x: int, y: int, z: int) -> int {
    x * (MAP_SIZE.1 as int) * (MAP_SIZE.2 as int) + y * (MAP_SIZE.2 as int) + z
}

/// Zone position of zone index `i`.
pub open spec fn zone_position(i: int) -> (int, int, int) {
    (
        i / ((MAP_SIZE.1 as int) * (MAP_SIZE.2 as int)),
        (i / (MAP_SIZE.2 as int)) % (MAP_SIZE.1 as int),
        i % (MAP_SIZE.2 as int),
    )
}

/// Number of zones in the map.
pub open spec fn zone_count() -> int {
    (MAP_SIZE.0 as int) * (MAP_SIZE.1 as int) * (MAP_SIZE.2 as int)
}

/// Converts a zone position to a zone index.
pub fn zone_idx(x: usize, y: usize, z: usize) -> (idx: usize)
    requires
        zone_index(x as int, y as int, z as int) <= usize::MAX,
    ensures
        idx as int == zone_index(x as int, y as int, z as int),
{
    x * MAP_SIZE.1 * MAP_SIZE.2 + y * MAP_SIZE.2 + z
}

/// Converts a zone index to a zone position.
pub fn zone_xyz(zone_idx: usize) -> (pos: (usize, usize, usize))
    ensures
        (pos.0 as int, pos.1 as int, pos.2 as int) == zone_position(zone_idx as int),
{
    (
        zone_idx / (MAP_SIZE.1 * MAP_SIZE.2),
        (zone_idx / MAP_SIZE.2) % MAP_SIZE.1,
        zone_idx % MAP_SIZE.2,
    )
}

/// Whether a zone position lies outside the map.
pub fn is_zone_oob(x: usize, y: usize, z: usize) -> (oob: bool)
    ensures
        oob == (x >= MAP_SIZE.0 || y >= MAP_SIZE.1 || z >= MAP_SIZE.2),
{
    x >= MAP_SIZE.0 || y >= MAP_SIZE.1 || z >= MAP_SIZE.2
}

/// World position of the tile at local coordinates (x, y) of zone `zone_idx`.
pub open spec fn local_to_world(zone_idx: int, x: int, y: int) -> (int, int, int) {
    let zpos = zone_position(zone_idx);
    (zpos.0 * (ZONE_SIZE.0 as int) + x, zpos.1 * (ZONE_SIZE.1 as int) + y, zpos.2)
}

/// Converts local zone coordinates to world coordinates.
pub fn zone_local_to_world(zone_idx: usize, x: usize, y: usize) -> (w: (usize, usize, usize))
    requires
        local_to_world(zone_idx as int, x as int, y as int).0 <= usize::MAX,
        local_to_world(zone_idx as int, x as int, y as int).1 <= usize::MAX,
    ensures
        (w.0 as int, w.1 as int, w.2 as int) == local_to_world(zone_idx as int, x as int, y as int),
{
    let zpos = zone_xyz(zone_idx);
    (zpos.0 * ZONE_SIZE.0 + x, zpos.1 * ZONE_SIZE.1 + y, zpos.2)
}

/// Converts world coordinates to local zone coordinates.
pub fn world_to_zone_local(x: usize, y: usize) -> (l: (usize, usize))
    ensures
        l.0 == x % ZONE_SIZE.0,
        l.1 == y % ZONE_SIZE.1,
{
    (x % ZONE_SIZE.0, y % ZONE_SIZE.1)
}

/// Index of the zone that holds world position (x, y, z).
pub open spec fn world_zone_index(x: int, y: int, z: int) -> int {
    zone_index(x / (ZONE_SIZE.0 as int), y / (ZONE_SIZE.1 as int), z)
}

/// Converts world coordinates to the index of the zone that holds them.
pub fn world_to_zone_idx(x: usize, y: usize, z: usize) -> (idx: usize)
    requires
        world_zone_index(x as int, y as int, z as int) <= usize::MAX,
    ensures
        idx as int == world_zone_index(x as int, y as int, z as int),
{
    let cpos = (x / ZONE_SIZE.0, y / ZONE_SIZE.1, z);
    zone_idx(cpos.0, cpos.1, cpos.2)
}

/// Zone indices and zone positions are inverse: a position with y and z
/// inside the map is recovered from its index.
pub proof fn lemma_zone_xyz_of_zone_idx(x: int, y: int, z: int)
    requires
        0 <= x,
        0 <= y < MAP_SIZE.1,
        0 <= z < MAP_SIZE.2,
    ensures
        zone_position(zone_index(x, y, z)) == (x, y, z),
{
    let i = zone_index(x, y, z);
    assert(i / 128 == x) by (nonlinear_arith)
        requires i == x * 128 + y * 4 + z, 0 <= y < 32, 0 <= z < 4, 0 <= x;
    assert(i / 4 == x * 32 + y) by (nonlinear_arith)
        requires i == x * 128 + y * 4 + z, 0 <= y < 32, 0 <= z < 4, 0 <= x;
    assert((x * 32 + y) % 32 == y) by (nonlinear_arith)
        requires 0 <= y < 32, 0 <= x;
    assert(i % 4 == z) by (nonlinear_arith)
        requires i == x * 128 + y * 4 + z, 0 <= y < 32, 0 <= z < 4, 0 <= x;
}

/// Every zone index is the index of its own zone position.
pub proof fn lemma_zone_idx_of_zone_xyz(i: int)
    requires
        0 <= i,
    ensures
        zone_index(zone_position(i).0, zone_position(i).1, zone_position(i).2) == i,
        0 <= zone_position(i).1 < MAP_SIZE.1,
        0 <= zone_position(i).2 < MAP_SIZE.2,
{
    let p = zone_position(i);
    assert(p.0 * 128 + p.1 * 4 + p.2 == i) by (nonlinear_arith)
        requires p == (i / 128, (i / 4) % 32, i % 4), 0 <= i;
}

/// A zone position inside the map has an index below the number of zones,
/// and every index below that number has a position inside the map.
pub proof fn lemma_zone_idx_in_map(x: int, y: int, z: int)
    requires
        0 <= x < MAP_SIZE.0,
        0 <= y < MAP_SIZE.1,
        0 <= z < MAP_SIZE.2,
    ensures
        0 <= zone_index(x, y, z) < zone_count(),
{
    assert(0 <= x * 128 + y * 4 + z < 4096) by (nonlinear_arith)
        requires 0 <= x < 32, 0 <= y < 32, 0 <= z < 4;
}

/// Local coordinates and the zone index are recovered from a world position.
pub proof fn lemma_world_local_roundtrip(x: int, y: int, z: int)
    requires
        0 <= x,
        0 <= y < (MAP_SIZE.1 as int) * (ZONE_SIZE.1 as int),
        0 <= z < MAP_SIZE.2,
    ensures
        local_to_world(world_zone_index(x, y, z), x % (ZONE_SIZE.0 as int), y % (ZONE_SIZE.1 as int))
            == (x, y, z),
{
    let zx = x / 80;
    let zy = y / 40;
    assert(0 <= zx && 0 <= zy < 32) by (nonlinear_arith)
        requires 0 <= x, 0 <= y < 1280, zx == x / 80, zy == y / 40;
    lemma_zone_xyz_of_zone_idx(zx, zy, z);
    assert(zx * 80 + x % 80 == x) by (nonlinear_arith)
        requires zx == x / 80, 0 <= x;
    assert(zy * 40 + y % 40 == y) by (nonlinear_arith)
        requires zy == y / 40, 0 <= y;
}

/// A tile placed in a zone by local coordinates lies in that zone, at those
/// local coordinates.
pub proof fn lemma_local_world_roundtrip(zone_idx: int, x: int, y: int)
    requires
        0 <= zone_idx,
        0 <= x < ZONE_SIZE.0,
        0 <= y < ZONE_SIZE.1,
    ensures
        ({
            let w = local_to_world(zone_idx, x, y);
            &&& world_zone_index(w.0, w.1, w.2) == zone_idx
            &&& w.0 % (ZONE_SIZE.0 as int) == x
            &&& w.1 % (ZONE_SIZE.1 as int) == y
        }),
{
    let p = zone_position(zone_idx);
    lemma_zone_idx_of_zone_xyz(zone_idx);
    assert(0 <= p.0) by (nonlinear_arith)
        requires p.0 == zone_idx / 128, 0 <= zone_idx;
    assert((p.0 * 80 + x) / 80 == p.0 && (p.0 * 80 + x) % 80 == x) by (nonlinear_arith)
        requires 0 <= p.0, 0 <= x < 80;
    assert((p.1 * 40 + y) / 40 == p.1 && (p.1 * 40 + y) % 40 == y) by (nonlinear_arith)
        requires 0 <= p.1, 0 <= y < 40;
}

} // verus!
