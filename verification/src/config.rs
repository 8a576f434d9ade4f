use vstd::prelude::*;

verus! {

/// Size of the world map in zones: (x, y, z).
pub const MAP_SIZE: (usize, usize, usize) = (32, 32, 4);

/// Size of one zone in tiles: (width, height).
pub const ZONE_SIZE: (usize, usize) = (80, 40);

} // verus!
