use vstd::prelude::*;

use crate::config::ZONE_SIZE;

verus! {

/// The light-map cell of zone-local tile (x, y), if the tile lies in the zone.
pub fn light_cell(x: i32, y: i32) -> (cell: Option<(usize, usize)>)
    ensures
        cell == if 0 <= x < ZONE_SIZE.0 && 0 <= y < ZONE_SIZE.1 {
            Some((x as usize, y as usize))
        } else {
            None::<(usize, usize)>
        },
{
    if x < 0 || y < 0 || x >= ZONE_SIZE.0 as i32 || y >= ZONE_SIZE.1 as i32 {
        return None;
    }
    Some((x as usize, y as usize))
}

/// The red, green and blue channels of a `0xRRGGBB` color.
pub fn unpack_rgb(color: u32) -> (rgb: (u8, u8, u8))
    ensures
        rgb.0 as int == (color as int / 0x10000) % 0x100,
        rgb.1 as int == (color as int / 0x100) % 0x100,
        rgb.2 as int == color as int % 0x100,
{
    let r = ((color >> 16) & 0xFF) as u8;
    let g = ((color >> 8) & 0xFF) as u8;
    let b = (color & 0xFF) as u8;
    assert(((color >> 16) & 0xFF) == (color / 0x10000) % 0x100) by (bit_vector);
    assert(((color >> 8) & 0xFF) == (color / 0x100) % 0x100) by (bit_vector);
    assert((color & 0xFF) == color % 0x100) by (bit_vector);
    (r, g, b)
}

} // verus!
