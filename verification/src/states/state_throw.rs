use vstd::prelude::*;

use crate::config::ZONE_SIZE;
use crate::rendering::projection::{world_to_zone_idx, world_zone_index};
use crate::text_util::{decimal, push_decimal, push_str_chars, string_from_chars};

verus! {

/// Whether offset `(dx, dy)` from the thrower lies in the throw circle of
/// `range`: not the thrower's own tile, and at most `range` away.
pub open spec fn in_throw_circle(dx: int, dy: int, range: int) -> bool {
    0 < dx * dx + dy * dy <= range * range
}

/// Whether `tile` shows a range indicator for a thrower standing on `player`
/// with `range`: on the thrower's level, in the throw circle, and inside the
/// thrower's zone.
pub open spec fn is_range_indicator(player: (usize, usize, usize), range: int, tile: (usize, usize, usize)) -> bool {
    let dx = tile.0 as int - player.0 as int;
    let dy = tile.1 as int - player.1 as int;
    let lx = (player.0 % ZONE_SIZE.0) as int;
    let ly = (player.1 % ZONE_SIZE.1) as int;
    &&& tile.2 == player.2
    &&& in_throw_circle(dx, dy, range)
    &&& 0 <= lx + dx < ZONE_SIZE.0
    &&& 0 <= ly + dy < ZONE_SIZE.1
}

/// Whether tile `a` comes before tile `b`: by x, then by y.
pub open spec fn tile_before(a: (usize, usize, usize), b: (usize, usize, usize)) -> bool {
    a.0 < b.0 || (a.0 == b.0 && a.1 < b.1)
}

/// Whether the offset of `tile` from `player` comes before `(dx, dy)`.
spec fn offset_before(player: (usize, usize, usize), tile: (usize, usize, usize), dx: int, dy: int) -> bool {
    let tx = tile.0 as int - player.0 as int;
    let ty = tile.1 as int - player.1 as int;
    tx < dx || (tx == dx && ty < dy)
}

/// The tiles that show the range of a throw, ordered by x and then by y.
pub fn throw_range_indicator_tiles(player: (usize, usize, usize), throw_range: usize) -> (tiles: Vec<(usize, usize, usize)>)
    requires
        throw_range <= 32767,
        player.0 <= i32::MAX,
        player.1 <= i32::MAX,
    ensures
        forall|i: int| 0 <= i < tiles@.len() ==> is_range_indicator(player, throw_range as int, #[trigger] tiles@[i]),
        forall|i: int, j: int| 0 <= i < j < tiles@.len() ==> tile_before(tiles@[i], tiles@[j]),
        forall|t: (usize, usize, usize)| #[trigger] is_range_indicator(player, throw_range as int, t) ==> exists|i: int|
            0 <= i < tiles@.len() && tiles@[i] == t,
{
    let r: i64 = throw_range as i64;
    let lx: i64 = (player.0 % ZONE_SIZE.0) as i64;
    let ly: i64 = (player.1 % ZONE_SIZE.1) as i64;
    let px: i64 = player.0 as i64;
    let py: i64 = player.1 as i64;
    let ghost range = throw_range as int;
    let mut out: Vec<(usize, usize, usize)> = Vec::new();
    assert forall|t: (usize, usize, usize)| #[trigger] is_range_indicator(player, range, t) implies !offset_before(player, t, -r as int, -r as int) by {
        let tx = t.0 as int - player.0 as int;
        let ty = t.1 as int - player.1 as int;
        assert(-range <= tx && -range <= ty) by (nonlinear_arith)
            requires
                tx * tx + ty * ty <= range * range,
                0 <= range;
    }
    let mut dx: i64 = -r;
    while dx <= r
        invariant
            r == range,
            0 <= r <= 32767,
            -r <= dx <= r + 1,
            lx == (player.0 % ZONE_SIZE.0) as int,
            ly == (player.1 % ZONE_SIZE.1) as int,
            px == player.0,
            py == player.1,
            player.0 <= i32::MAX,
            player.1 <= i32::MAX,
            forall|i: int| 0 <= i < out@.len() ==> {
                &&& is_range_indicator(player, range, #[trigger] out@[i])
                &&& offset_before(player, out@[i], dx as int, -r as int)
            },
            forall|i: int, j: int| 0 <= i < j < out@.len() ==> tile_before(out@[i], out@[j]),
            forall|t: (usize, usize, usize)|
                #[trigger] is_range_indicator(player, range, t) && offset_before(player, t, dx as int, -r as int)
                    ==> exists|i: int| 0 <= i < out@.len() && out@[i] == t,
        decreases r + 1 - dx,
    {
        let mut dy: i64 = -r;
        while dy <= r
            invariant
                r == range,
                0 <= r <= 32767,
                -r <= dx <= r,
                -r <= dy <= r + 1,
                lx == (player.0 % ZONE_SIZE.0) as int,
                ly == (player.1 % ZONE_SIZE.1) as int,
                px == player.0,
                py == player.1,
                player.0 <= i32::MAX,
                player.1 <= i32::MAX,
                forall|i: int| 0 <= i < out@.len() ==> {
                    &&& is_range_indicator(player, range, #[trigger] out@[i])
                    &&& offset_before(player, out@[i], dx as int, dy as int)
                },
                forall|i: int, j: int| 0 <= i < j < out@.len() ==> tile_before(out@[i], out@[j]),
                forall|t: (usize, usize, usize)|
                    #[trigger] is_range_indicator(player, range, t) && offset_before(player, t, dx as int, dy as int)
                        ==> exists|i: int| 0 <= i < out@.len() && out@[i] == t,
            decreases r + 1 - dy,
        {
            assert(0 <= dx * dx <= r * r) by (nonlinear_arith)
                requires
                    -r <= dx <= r,
                    0 <= r;
            assert(0 <= dy * dy <= r * r) by (nonlinear_arith)
                requires
                    -r <= dy <= r,
                    0 <= r;
            assert(r * r <= 32767 * 32767) by (nonlinear_arith)
                requires
                    0 <= r <= 32767;
            let d2 = dx * dx + dy * dy;
            let tx = lx + dx;
            let ty = ly + dy;
            if 0 < d2 && d2 <= r * r && 0 <= tx && tx < ZONE_SIZE.0 as i64 && 0 <= ty && ty < ZONE_SIZE.1 as i64 {
                assert(lx <= px && ly <= py);
                let tile = ((px + dx) as usize, (py + dy) as usize, player.2);
                let ghost before = out@;
                assert(is_range_indicator(player, range, tile));
                out.push(tile);
                assert forall|i: int, j: int| 0 <= i < j < out@.len() implies tile_before(out@[i], out@[j]) by {
                    if j == out@.len() - 1 {
                        assert(out@[i] == before[i]);
                        assert(offset_before(player, before[i], dx as int, dy as int));
                    }
                }
                assert forall|t: (usize, usize, usize)|
                    #[trigger] is_range_indicator(player, range, t) && offset_before(player, t, dx as int, dy + 1)
                        implies exists|i: int| 0 <= i < out@.len() && out@[i] == t by {
                    if offset_before(player, t, dx as int, dy as int) {
                        let i = choose|i: int| 0 <= i < before.len() && before[i] == t;
                        assert(out@[i] == t);
                    } else {
                        assert(out@[out@.len() - 1] == t);
                    }
                }
            } else {
                assert forall|t: (usize, usize, usize)|
                    #[trigger] is_range_indicator(player, range, t) && offset_before(player, t, dx as int, dy + 1)
                        implies exists|i: int| 0 <= i < out@.len() && out@[i] == t by {
                    if !offset_before(player, t, dx as int, dy as int) {
                        assert(t.0 as int - player.0 as int == dx);
                        assert(t.1 as int - player.1 as int == dy);
                        assert(false);
                    }
                }
            }
            dy = dy + 1;
        }
        assert forall|t: (usize, usize, usize)|
            #[trigger] is_range_indicator(player, range, t) && offset_before(player, t, dx + 1, -r as int)
                implies exists|i: int| 0 <= i < out@.len() && out@[i] == t by {
            let tx = t.0 as int - player.0 as int;
            let ty = t.1 as int - player.1 as int;
            assert(-range <= ty <= range) by (nonlinear_arith)
                requires
                    tx * tx + ty * ty <= range * range,
                    0 <= range;
            assert(offset_before(player, t, dx as int, dy as int));
        }
        dx = dx + 1;
    }
    assert forall|t: (usize, usize, usize)| #[trigger] is_range_indicator(player, range, t) implies exists|i: int|
        0 <= i < out@.len() && out@[i] == t by {
        let tx = t.0 as int - player.0 as int;
        let ty = t.1 as int - player.1 as int;
        assert(tx <= range) by (nonlinear_arith)
            requires
                tx * tx + ty * ty <= range * range,
                0 <= range;
        assert(offset_before(player, t, r + 1, -r as int));
    }
    out
}

/// Title of the throw screen, with the range of the throw.
pub fn throw_title_text(throw_range: usize) -> (s: String)
    ensures
        s@ == "THROW ITEM - Range: "@ + decimal(throw_range as nat),
{
    let mut out: Vec<char> = Vec::new();
    push_str_chars(&mut out, "THROW ITEM - Range: ");
    push_decimal(&mut out, throw_range as u64);
    string_from_chars(&out)
}

/// Whether `target` on the thrower's level is within reach of a throw from
/// `player`: the whole part of its distance is at most `range`.
pub open spec fn in_throw_reach(player: (usize, usize, usize), target: (usize, usize), range: int) -> bool {
    let dx = target.0 as int - player.0 as int;
    let dy = target.1 as int - player.1 as int;
    dx * dx + dy * dy < (range + 1) * (range + 1)
}

/// What a frame of aiming a throw does.
#[derive(Clone, Copy, Debug, PartialEq, Eq)]
pub enum ThrowStep {
    /// Escape was pressed: back to the inventory.
    Cancel,
    /// The cursor moves to the tile under the mouse, shown only within reach;
    /// `throw_at` is the target of a throw made this frame, after which the
    /// game goes back to the inventory.
    Aim { cursor: (usize, usize, usize), cursor_visible: bool, throw_at: Option<(usize, usize, usize)> },
}

/// The step of a frame of aiming: a click within reach, on a tile of the
/// thrower's own zone while that zone is loaded, throws.
pub open spec fn throw_step_spec(
    escape_pressed: bool,
    clicked: bool,
    player: (usize, usize, usize),
    mouse: (usize, usize),
    range: int,
    loaded_zones: Seq<usize>,
) -> ThrowStep {
    if escape_pressed {
        ThrowStep::Cancel
    } else {
        let target = (mouse.0, mouse.1, player.2);
        let reach = in_throw_reach(player, mouse, range);
        let player_zone = world_zone_index(player.0 as int, player.1 as int, player.2 as int);
        let target_zone = world_zone_index(mouse.0 as int, mouse.1 as int, player.2 as int);
        let throws = clicked && reach && player_zone == target_zone && loaded_zones.contains(target_zone as usize);
        ThrowStep::Aim { cursor: target, cursor_visible: reach, throw_at: if throws { Some(target) } else { None } }
    }
}

/// One frame of aiming a throw with the mouse on world tile `mouse` of the
/// thrower's level; `loaded_zones` are the indices of the loaded zones.
pub fn handle_throw_input(
    escape_pressed: bool,
    clicked: bool,
    player: (usize, usize, usize),
    mouse: (usize, usize),
    throw_range: usize,
    loaded_zones: &Vec<usize>,
) -> (step: ThrowStep)
    requires
        !escape_pressed ==> {
            &&& player.0 <= i32::MAX && player.1 <= i32::MAX
            &&& mouse.0 <= i32::MAX && mouse.1 <= i32::MAX
            &&& (mouse.0 - player.0) * (mouse.0 - player.0) + (mouse.1 - player.1) * (mouse.1 - player.1) <= i32::MAX
        },
        !escape_pressed && clicked && in_throw_reach(player, mouse, throw_range as int) ==> {
            &&& world_zone_index(player.0 as int, player.1 as int, player.2 as int) <= usize::MAX
            &&& world_zone_index(mouse.0 as int, mouse.1 as int, player.2 as int) <= usize::MAX
        },
    ensures
        step == throw_step_spec(escape_pressed, clicked, player, mouse, throw_range as int, loaded_zones@),
{
    if escape_pressed {
        return ThrowStep::Cancel;
    }
    let target = (mouse.0, mouse.1, player.2);
    let dx: i64 = mouse.0 as i64 - player.0 as i64;
    let dy: i64 = mouse.1 as i64 - player.1 as i64;
    assert(0 <= dx * dx && 0 <= dy * dy) by (nonlinear_arith);
    let n: i64 = dx * dx + dy * dy;
    let reach = if throw_range >= 46340 {
        assert((throw_range + 1) * (throw_range + 1) > i32::MAX) by (nonlinear_arith)
            requires
                throw_range >= 46340;
        true
    } else {
        let bound: u64 = throw_range as u64 + 1;
        assert(bound * bound <= 46340 * 46340) by (nonlinear_arith)
            requires
                bound <= 46340;
        (n as u64) < bound * bound
    };
    let mut throw_at: Option<(usize, usize, usize)> = None;
    if clicked && reach {
        let player_zone = world_to_zone_idx(player.0, player.1, player.2);
        let target_zone = world_to_zone_idx(mouse.0, mouse.1, player.2);
        if player_zone == target_zone && zone_is_loaded(loaded_zones, target_zone) {
            throw_at = Some(target);
        }
    }
    ThrowStep::Aim { cursor: target, cursor_visible: reach, throw_at }
}

/// Whether zone `idx` is among the loaded zones.
fn zone_is_loaded(loaded_zones: &Vec<usize>, idx: usize) -> (b: bool)
    ensures
        b == loaded_zones@.contains(idx),
{
    let mut i: usize = 0;
    while i < loaded_zones.len()
        invariant
            i <= loaded_zones@.len(),
            forall|j: int| 0 <= j < i ==> loaded_zones@[j] != idx,
        decreases loaded_zones@.len() - i,
    {
        if loaded_zones[i] == idx {
            return true;
        }
        i = i + 1;
    }
    false
}

/// Every tile marked as in range is within reach of a click: the markers
/// use the exact distance, the click its whole part.
pub proof fn lemma_indicated_tiles_reachable(player: (usize, usize, usize), range: int, tile: (usize, usize, usize))
    requires
        0 <= range,
        is_range_indicator(player, range, tile),
    ensures
        in_throw_reach(player, (tile.0, tile.1), range),
{
    assert(range * range < (range + 1) * (range + 1)) by (nonlinear_arith)
        requires
            0 <= range;
}

} // verus!
