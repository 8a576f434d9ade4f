use vstd::prelude::*;

use crate::text_util::{decimal, push_decimal, push_str_chars, string_from_chars};

verus! {

/// Rank of an entity for examining, lower first: creatures, then items, then
/// described entities, then labelled ones; other entities cannot be examined.
pub open spec fn examine_rank(is_creature: bool, is_item: bool, has_description: bool, has_label: bool) -> Option<u32> {
    if is_creature {
        Some(1)
    } else if is_item {
        Some(2)
    } else if has_description {
        Some(3)
    } else if has_label {
        Some(4)
    } else {
        None
    }
}

/// The examine rank of an entity from the kinds of data it carries.
pub fn get_examinable_entity_priority(
    is_creature: bool,
    is_item: bool,
    has_description: bool,
    has_label: bool,
) -> (p: Option<u32>)
    ensures
        p == examine_rank(is_creature, is_item, has_description, has_label),
{
    if is_creature {
        Some(1)
    } else if is_item {
        Some(2)
    } else if has_description {
        Some(3)
    } else if has_label {
        Some(4)
    } else {
        None
    }
}

/// `k` is the first of the examinable entities with the lowest rank.
pub open spec fn is_best_examinable(ranks: Seq<Option<u32>>, k: int) -> bool {
    &&& 0 <= k < ranks.len()
    &&& ranks[k] is Some
    &&& forall|j: int| 0 <= j < k ==> (#[trigger] ranks[j] matches Some(r) ==> r > ranks[k]->0)
    &&& forall|j: int| k < j < ranks.len() ==> (#[trigger] ranks[j] matches Some(r) ==> r >= ranks[k]->0)
}

/// Picks the entity to examine on a tile from the ranks of the entities
/// there, in their order on the tile.
pub fn best_examinable(ranks: &Vec<Option<u32>>) -> (k: Option<usize>)
    ensures
        k is None <==> forall|j: int| 0 <= j < ranks@.len() ==> (#[trigger] ranks@[j]) is None,
        k matches Some(i) ==> is_best_examinable(ranks@, i as int),
{
    let mut best: Option<usize> = None;
    let mut i: usize = 0;
    while i < ranks.len()
        invariant
            0 <= i <= ranks@.len(),
            best is None <==> forall|j: int| 0 <= j < i ==> (#[trigger] ranks@[j]) is None,
            best matches Some(b) ==> {
                &&& b < i
                &&& ranks@[b as int] is Some
                &&& forall|j: int| 0 <= j < b ==> (#[trigger] ranks@[j] matches Some(r) ==> r > ranks@[b as int]->0)
                &&& forall|j: int| b < j < i ==> (#[trigger] ranks@[j] matches Some(r) ==> r >= ranks@[b as int]->0)
            },
        decreases ranks@.len() - i,
    {
        if let Some(r) = ranks[i] {
            match best {
                None => {
                    best = Some(i);
                },
                Some(b) => {
                    if let Some(current) = ranks[b] {
                        if r < current {
                            best = Some(i);
                        }
                    }
                },
            }
        }
        i = i + 1;
    }
    best
}

/// What the faction-map overlay does this frame.
#[derive(Clone, Copy, Debug, PartialEq, Eq, Structural)]
pub enum OverlayAction {
    Nothing,
    /// Draw the overlay (there was none).
    Spawn,
    /// Clear the overlay and draw it anew for the player's new position.
    Respawn,
    /// Clear the overlay.
    Remove,
}

/// The overlay is toggled by its key; while on it is drawn when missing and
/// redrawn when the player moved; while off an existing overlay is cleared.
/// Returns whether the overlay is on afterwards, and the action.
pub fn overlay_action(toggle_pressed: bool, enabled: bool, has_overlay: bool, player_moved: bool) -> (r: (bool, OverlayAction))
    ensures
        r.0 == (enabled != toggle_pressed),
        r.1 == if r.0 {
            if !has_overlay {
                OverlayAction::Spawn
            } else if player_moved {
                OverlayAction::Respawn
            } else {
                OverlayAction::Nothing
            }
        } else if has_overlay {
            OverlayAction::Remove
        } else {
            OverlayAction::Nothing
        },
{
    let now_enabled = if toggle_pressed { !enabled } else { enabled };
    let action = if now_enabled && (!has_overlay || player_moved) {
        if player_moved && has_overlay {
            OverlayAction::Respawn
        } else {
            OverlayAction::Spawn
        }
    } else if !now_enabled && has_overlay {
        OverlayAction::Remove
    } else {
        OverlayAction::Nothing
    };
    (now_enabled, action)
}

/// The ammo bar: one `X` per loaded round and one `-` per empty slot of the
/// clip, then the counts.
pub open spec fn ammo_bar_spec(clip_size: u32, current_ammo: u32) -> Seq<char> {
    "["@ + Seq::new(clip_size as nat, |i: int| if i < current_ammo { 'X' } else { '-' }) + "] "@
        + decimal(current_ammo as nat) + "/"@ + decimal(clip_size as nat)
}

/// Text of the ammo bar of a ranged weapon.
pub fn ammo_bar_text(clip_size: u32, current_ammo: u32) -> (s: String)
    ensures
        s@ == ammo_bar_spec(clip_size, current_ammo),
{
    let mut out: Vec<char> = Vec::new();
    out.push('[');
    let mut i: u32 = 0;
    while i < clip_size
        invariant
            0 <= i <= clip_size,
            out@ == seq!['['] + Seq::new(i as nat, |k: int| if k < current_ammo { 'X' } else { '-' }),
        decreases clip_size - i,
    {
        if i < current_ammo {
            out.push('X');
        } else {
            out.push('-');
        }
        i = i + 1;
        assert(out@ =~= seq!['['] + Seq::new(i as nat, |k: int| if k < current_ammo { 'X' } else { '-' }));
    }
    out.push(']');
    out.push(' ');
    push_decimal(&mut out, current_ammo as u64);
    out.push('/');
    push_decimal(&mut out, clip_size as u64);
    proof {
        reveal_strlit("[");
        reveal_strlit("] ");
        reveal_strlit("/");
    }
    assert(out@ =~= ammo_bar_spec(clip_size, current_ammo));
    string_from_chars(&out)
}

/// `label`, then `current/max`.
pub fn gauge_text(label: &str, current: u32, max: u32) -> (s: String)
    ensures
        s@ == label@ + decimal(current as nat) + "/"@ + decimal(max as nat),
{
    let mut out: Vec<char> = Vec::new();
    push_str_chars(&mut out, label);
    push_decimal(&mut out, current as u64);
    push_str_chars(&mut out, "/");
    push_decimal(&mut out, max as u64);
    string_from_chars(&out)
}

/// Text of the player's hit point bar.
pub fn hp_bar_text(current_hp: u32, max_hp: u32) -> (s: String)
    ensures
        s@ == "HP: "@ + decimal(current_hp as nat) + "/"@ + decimal(max_hp as nat),
{
    gauge_text("HP: ", current_hp, max_hp)
}

/// Text of the player's armor bar.
pub fn armor_bar_text(current_armor: u32, max_armor: u32) -> (s: String)
    ensures
        s@ == "Armor: "@ + decimal(current_armor as nat) + "/"@ + decimal(max_armor as nat),
{
    gauge_text("Armor: ", current_armor, max_armor)
}

} // verus!
