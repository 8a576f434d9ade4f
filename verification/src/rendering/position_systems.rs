use vstd::prelude::*;

use crate::rendering::glyph::ZoneStatus;

verus! {

/// A request to recompute the collider flags of one zone-local tile.
#[derive(Clone, Copy, Debug, PartialEq, Eq, Structural)]
pub struct ColliderRecalc {
    pub zone_idx: usize,
    pub x: usize,
    pub y: usize,
}

/// What to do with an entity that moved: whether to take it out of its old
/// zone, whether its new zone is loaded (so that it is placed there, its
/// collider inserted when it has one, and it is marked active with its zone),
/// and which tiles need their collider flags recomputed, in order.
pub struct ZoneMovePlan {
    pub remove_from_old_zone: bool,
    pub place_in_new_zone: bool,
    pub insert_collider: bool,
    pub mark_active: bool,
    pub recalcs: Vec<ColliderRecalc>,
}

/// The recomputations a move causes: within one zone the tile the collider
/// left comes first; the tile the entity arrives on always follows.
pub open spec fn move_recalcs(
    new_zone_idx: usize,
    old_zone_idx: usize,
    new_zone_loaded: bool,
    local: (usize, usize),
    old_collider_pos: Option<(usize, usize)>,
) -> Seq<ColliderRecalc> {
    if !new_zone_loaded {
        Seq::empty()
    } else {
        let arrive = ColliderRecalc { zone_idx: new_zone_idx, x: local.0, y: local.1 };
        match old_collider_pos {
            Some(p) => if new_zone_idx == old_zone_idx {
                seq![ColliderRecalc { zone_idx: new_zone_idx, x: p.0, y: p.1 }, arrive]
            } else {
                seq![arrive]
            },
            None => seq![arrive],
        }
    }
}

/// Plans the bookkeeping for a dynamic entity that moved to zone
/// `new_zone_idx`, local tile `local`, from zone `old_zone_idx`;
/// `old_collider_pos` is where its collider was in the new zone's cache.
pub fn plan_dynamic_move(
    new_zone_idx: usize,
    old_zone_idx: usize,
    old_zone_loaded: bool,
    new_zone_loaded: bool,
    new_zone_status: ZoneStatus,
    local: (usize, usize),
    old_collider_pos: Option<(usize, usize)>,
    has_collider: bool,
) -> (plan: ZoneMovePlan)
    ensures
        plan.remove_from_old_zone == (new_zone_idx != old_zone_idx && old_zone_loaded),
        plan.place_in_new_zone == new_zone_loaded,
        plan.insert_collider == (new_zone_loaded && has_collider),
        plan.mark_active == (new_zone_loaded && new_zone_status == ZoneStatus::Active),
        plan.recalcs@ == move_recalcs(new_zone_idx, old_zone_idx, new_zone_loaded, local, old_collider_pos),
{
    let mut recalcs: Vec<ColliderRecalc> = Vec::new();
    if new_zone_loaded {
        if new_zone_idx == old_zone_idx {
            if let Some((old_x, old_y)) = old_collider_pos {
                recalcs.push(ColliderRecalc { zone_idx: new_zone_idx, x: old_x, y: old_y });
            }
        }
        recalcs.push(ColliderRecalc { zone_idx: new_zone_idx, x: local.0, y: local.1 });
    }
    ZoneMovePlan {
        remove_from_old_zone: new_zone_idx != old_zone_idx && old_zone_loaded,
        place_in_new_zone: new_zone_loaded,
        insert_collider: new_zone_loaded && has_collider,
        mark_active: new_zone_loaded && new_zone_status == ZoneStatus::Active,
        recalcs,
    }
}

/// What a move recomputes, whatever the inputs: nothing when the new zone is
/// not loaded; otherwise every recomputation is in the new zone and the last
/// is always the tile the entity arrives on; before it comes exactly one
/// more, the tile its cached collider left, when it moved within one zone
/// and had a cached collider, and none otherwise.
pub proof fn lemma_move_recalcs(
    new_zone_idx: usize,
    old_zone_idx: usize,
    new_zone_loaded: bool,
    local: (usize, usize),
    old_collider_pos: Option<(usize, usize)>,
)
    ensures
        ({
            let r = move_recalcs(new_zone_idx, old_zone_idx, new_zone_loaded, local, old_collider_pos);
            &&& !new_zone_loaded ==> r.len() == 0
            &&& new_zone_loaded ==> {
                &&& r.len() >= 1
                &&& r[r.len() - 1] == (ColliderRecalc { zone_idx: new_zone_idx, x: local.0, y: local.1 })
                &&& forall|i: int| 0 <= i < r.len() ==> (#[trigger] r[i]).zone_idx == new_zone_idx
                &&& r.len() == 2 <==> (new_zone_idx == old_zone_idx && old_collider_pos is Some)
                &&& r.len() <= 2
                &&& r.len() == 2 ==> (old_collider_pos matches Some(p) && r[0].x == p.0 && r[0].y == p.1)
            }
        }),
{
}

/// Plans the placement of a newly spawned static entity at local tile
/// `local` of zone `zone_idx`: it is placed only when the zone is loaded,
/// and only an entity with a collider causes a recomputation.
pub fn plan_static_placement(
    zone_idx: usize,
    zone_loaded: bool,
    zone_status: ZoneStatus,
    local: (usize, usize),
    has_collider: bool,
) -> (plan: ZoneMovePlan)
    ensures
        !plan.remove_from_old_zone,
        plan.place_in_new_zone == zone_loaded,
        plan.insert_collider == (zone_loaded && has_collider),
        plan.mark_active == (zone_loaded && zone_status == ZoneStatus::Active),
        plan.recalcs@ == if zone_loaded && has_collider {
            seq![ColliderRecalc { zone_idx, x: local.0, y: local.1 }]
        } else {
            Seq::<ColliderRecalc>::empty()
        },
{
    let mut recalcs: Vec<ColliderRecalc> = Vec::new();
    if zone_loaded && has_collider {
        recalcs.push(ColliderRecalc { zone_idx, x: local.0, y: local.1 });
    }
    ZoneMovePlan {
        remove_from_old_zone: false,
        place_in_new_zone: zone_loaded,
        insert_collider: zone_loaded && has_collider,
        mark_active: zone_loaded && zone_status == ZoneStatus::Active,
        recalcs,
    }
}

} // verus!
