use vstd::prelude::*;

use crate::text_util::{decimal, push_decimal, push_str_chars, string_from_chars};

verus! {

/// An action offered for an inventory item.
#[derive(Clone, Copy, Debug, PartialEq, Eq, Structural)]
pub enum ItemAction {
    Drop,
    Equip,
    Unequip,
    LightFuse,
    ExtinguishFuse,
    Light,
    Extinguish,
    Eat,
    Throw,
    Examine,
    Close,
}

impl ItemAction {
    pub open spec fn label_spec(self) -> Seq<char> {
        match self {
            ItemAction::Drop => "({Y|D}) Drop"@,
            ItemAction::Equip => "({Y|E}) Equip"@,
            ItemAction::Unequip => "({Y|E}) Unequip"@,
            ItemAction::LightFuse => "({Y|L}) Light Fuse"@,
            ItemAction::ExtinguishFuse => "({Y|L}) Extinguish Fuse"@,
            ItemAction::Light => "({Y|L}) Light"@,
            ItemAction::Extinguish => "({Y|L}) Extinguish"@,
            ItemAction::Eat => "({Y|C}) Eat"@,
            ItemAction::Throw => "({Y|T}) Throw"@,
            ItemAction::Examine => "({Y|X}) Examine"@,
            ItemAction::Close => "({Y|ESC}) Close"@,
        }
    }

    /// The label of the action's entry in the actions dialog.
    pub fn label(&self) -> (s: &'static str)
        ensures
            s@ == self.label_spec(),
    {
        match self {
            ItemAction::Drop => "({Y|D}) Drop",
            ItemAction::Equip => "({Y|E}) Equip",
            ItemAction::Unequip => "({Y|E}) Unequip",
            ItemAction::LightFuse => "({Y|L}) Light Fuse",
            ItemAction::ExtinguishFuse => "({Y|L}) Extinguish Fuse",
            ItemAction::Light => "({Y|L}) Light",
            ItemAction::Extinguish => "({Y|L}) Extinguish",
            ItemAction::Eat => "({Y|C}) Eat",
            ItemAction::Throw => "({Y|T}) Throw",
            ItemAction::Examine => "({Y|X}) Examine",
            ItemAction::Close => "({Y|ESC}) Close",
        }
    }
}

/// What an item is, as far as the actions offered for it depend on it.
#[derive(Clone, Copy, Debug)]
pub struct ItemTraits {
    pub equippable: bool,
    pub equipped: bool,
    pub lightable: bool,
    pub explosive: bool,
    pub fuse_lit: bool,
    /// Whether the item is a light source, and if so whether it is lit.
    pub light_source: Option<bool>,
    pub consumable: bool,
    pub throwable: bool,
}

/// The light action of an item, if it has one: explosives get their fuse lit
/// or put out, light sources get lit or put out.
pub open spec fn light_action(t: ItemTraits) -> Option<ItemAction> {
    if t.lightable && (t.light_source is Some || t.explosive) {
        if t.explosive {
            Some(if t.fuse_lit { ItemAction::ExtinguishFuse } else { ItemAction::LightFuse })
        } else {
            Some(if t.light_source == Some(true) { ItemAction::Extinguish } else { ItemAction::Light })
        }
    } else {
        None
    }
}

pub open spec fn opt_action(cond: bool, a: ItemAction) -> Seq<ItemAction> {
    if cond { seq![a] } else { Seq::empty() }
}

/// The actions offered for an item, in dialog order: drop; equip or unequip;
/// the light action; eat; throw; examine; close.
pub open spec fn item_actions_spec(t: ItemTraits) -> Seq<ItemAction> {
    seq![ItemAction::Drop]
        + opt_action(t.equippable, if t.equipped { ItemAction::Unequip } else { ItemAction::Equip })
        + (match light_action(t) {
        Some(a) => seq![a],
        None => Seq::empty(),
    }) + opt_action(t.consumable, ItemAction::Eat) + opt_action(t.throwable, ItemAction::Throw)
        + seq![ItemAction::Examine, ItemAction::Close]
}

/// Builds the action list for an item; an item whose id is not registered
/// gets none.
pub fn build_item_action_list(registered: bool, t: ItemTraits) -> (actions: Vec<ItemAction>)
    ensures
        actions@ == if registered { item_actions_spec(t) } else { Seq::<ItemAction>::empty() },
{
    let mut actions: Vec<ItemAction> = Vec::new();
    if !registered {
        return actions;
    }
    actions.push(ItemAction::Drop);
    if t.equippable {
        actions.push(if t.equipped { ItemAction::Unequip } else { ItemAction::Equip });
    }
    if t.lightable {
        let has_light_source = t.light_source.is_some();
        if has_light_source || t.explosive {
            let action = if t.explosive {
                if t.fuse_lit {
                    ItemAction::ExtinguishFuse
                } else {
                    ItemAction::LightFuse
                }
            } else if t.light_source == Some(true) {
                ItemAction::Extinguish
            } else {
                ItemAction::Light
            };
            actions.push(action);
        }
    }
    if t.consumable {
        actions.push(ItemAction::Eat);
    }
    if t.throwable {
        actions.push(ItemAction::Throw);
    }
    actions.push(ItemAction::Examine);
    actions.push(ItemAction::Close);
    assert(actions@ =~= item_actions_spec(t));
    actions
}

/// The light part of an item's actions, as a sequence.
spec fn light_part(t: ItemTraits) -> Seq<ItemAction> {
    match light_action(t) {
        Some(x) => seq![x],
        None => Seq::empty(),
    }
}

proof fn lemma_opt_action_contains(cond: bool, y: ItemAction, x: ItemAction)
    ensures
        opt_action(cond, y).contains(x) <==> cond && x == y,
{
    if cond {
        assert(opt_action(cond, y)[0] == y);
    }
}

proof fn lemma_item_actions_members(t: ItemTraits, x: ItemAction)
    ensures
        item_actions_spec(t).contains(x) <==> {
            ||| x == ItemAction::Drop
            ||| x == ItemAction::Examine
            ||| x == ItemAction::Close
            ||| (t.equippable && x == if t.equipped { ItemAction::Unequip } else { ItemAction::Equip })
            ||| light_action(t) == Some(x)
            ||| (t.consumable && x == ItemAction::Eat)
            ||| (t.throwable && x == ItemAction::Throw)
        },
{
    broadcast use vstd::seq_lib::lemma_seq_concat_contains_all_elements;
    let e = opt_action(t.equippable, if t.equipped { ItemAction::Unequip } else { ItemAction::Equip });
    let l = light_part(t);
    let c = opt_action(t.consumable, ItemAction::Eat);
    let th = opt_action(t.throwable, ItemAction::Throw);
    let head = seq![ItemAction::Drop];
    let tail = seq![ItemAction::Examine, ItemAction::Close];
    assert(item_actions_spec(t) == head + e + l + c + th + tail);
    assert(head.contains(x) <==> x == ItemAction::Drop) by {
        assert(head[0] == ItemAction::Drop);
    }
    assert(tail.contains(x) <==> x == ItemAction::Examine || x == ItemAction::Close) by {
        assert(tail[0] == ItemAction::Examine);
        assert(tail[1] == ItemAction::Close);
    }
    lemma_opt_action_contains(t.equippable, if t.equipped { ItemAction::Unequip } else { ItemAction::Equip }, x);
    lemma_opt_action_contains(t.consumable, ItemAction::Eat, x);
    lemma_opt_action_contains(t.throwable, ItemAction::Throw, x);
    assert(l.contains(x) <==> light_action(t) == Some(x)) by {
        if light_action(t) is Some {
            assert(l[0] == light_action(t)->0);
        }
    }
}

/// Where an action stands in the dialog: drop, then equipping, lighting,
/// eating, throwing, examining, closing.
pub open spec fn action_rank(a: ItemAction) -> int {
    match a {
        ItemAction::Drop => 0,
        ItemAction::Equip | ItemAction::Unequip => 1,
        ItemAction::LightFuse | ItemAction::ExtinguishFuse | ItemAction::Light | ItemAction::Extinguish => 2,
        ItemAction::Eat => 3,
        ItemAction::Throw => 4,
        ItemAction::Examine => 5,
        ItemAction::Close => 6,
    }
}

proof fn lemma_item_actions_order(t: ItemTraits)
    ensures
        ({
            let a = item_actions_spec(t);
            &&& a.len() >= 3
            &&& a[0] == ItemAction::Drop
            &&& a[a.len() - 2] == ItemAction::Examine
            &&& a[a.len() - 1] == ItemAction::Close
            &&& t.equippable ==> a[1] == if t.equipped { ItemAction::Unequip } else { ItemAction::Equip }
            &&& forall|i: int, j: int| 0 <= i < j < a.len() ==> action_rank(#[trigger] a[i]) < action_rank(#[trigger] a[j])
        }),
{
    let e = opt_action(t.equippable, if t.equipped { ItemAction::Unequip } else { ItemAction::Equip });
    let l = light_part(t);
    let c = opt_action(t.consumable, ItemAction::Eat);
    let th = opt_action(t.throwable, ItemAction::Throw);
    let a = item_actions_spec(t);
    let k: int = 1 + e.len() as int;
    let m: int = k + l.len() as int;
    let n: int = m + c.len() as int;
    let q: int = n + th.len() as int;
    assert(a == seq![ItemAction::Drop] + e + l + c + th + seq![ItemAction::Examine, ItemAction::Close]);
    assert(a.len() == q + 2);
    assert(a[0] == ItemAction::Drop);
    assert(forall|r: int| 1 <= r < k ==> #[trigger] a[r] == e[r - 1]);
    assert(forall|r: int| k <= r < m ==> #[trigger] a[r] == l[r - k]);
    assert(forall|r: int| m <= r < n ==> #[trigger] a[r] == c[r - m]);
    assert(forall|r: int| n <= r < q ==> #[trigger] a[r] == th[r - n]);
    assert(a[q] == ItemAction::Examine);
    assert(a[q + 1] == ItemAction::Close);
}

/// The actions offered for an item, whatever its traits: drop comes first,
/// examine and close last; equip is offered exactly for an equippable item
/// that is not equipped and unequip exactly for one that is, right after
/// drop; an explosive that can be lit gets its fuse lit or put out as the fuse
/// is out or lit; any other lightable light source is lit or put out as it is
/// out or lit; eating exactly for consumables, throwing exactly for throwables;
/// and no action is offered twice.
pub proof fn lemma_item_actions(t: ItemTraits)
    ensures
        ({
            let a = item_actions_spec(t);
            &&& a.len() >= 3
            &&& a[0] == ItemAction::Drop
            &&& a[a.len() - 2] == ItemAction::Examine
            &&& a[a.len() - 1] == ItemAction::Close
            &&& t.equippable ==> (a[1] == ItemAction::Unequip <==> t.equipped) && (a[1] == ItemAction::Equip
                <==> !t.equipped)
            &&& a.contains(ItemAction::Equip) <==> t.equippable && !t.equipped
            &&& a.contains(ItemAction::Unequip) <==> t.equippable && t.equipped
            &&& a.contains(ItemAction::LightFuse) <==> t.lightable && t.explosive && !t.fuse_lit
            &&& a.contains(ItemAction::ExtinguishFuse) <==> t.lightable && t.explosive && t.fuse_lit
            &&& a.contains(ItemAction::Light) <==> t.lightable && !t.explosive && t.light_source == Some(false)
            &&& a.contains(ItemAction::Extinguish) <==> t.lightable && !t.explosive && t.light_source == Some(true)
            &&& a.contains(ItemAction::Eat) <==> t.consumable
            &&& a.contains(ItemAction::Throw) <==> t.throwable
            &&& forall|i: int, j: int| 0 <= i < j < a.len() ==> #[trigger] a[i] != #[trigger] a[j]
            &&& forall|i: int, j: int| 0 <= i < j < a.len() ==> action_rank(#[trigger] a[i]) < action_rank(#[trigger] a[j])
        }),
{
    lemma_item_actions_order(t);
    lemma_item_actions_members(t, ItemAction::Equip);
    lemma_item_actions_members(t, ItemAction::Unequip);
    lemma_item_actions_members(t, ItemAction::LightFuse);
    lemma_item_actions_members(t, ItemAction::ExtinguishFuse);
    lemma_item_actions_members(t, ItemAction::Light);
    lemma_item_actions_members(t, ItemAction::Extinguish);
    lemma_item_actions_members(t, ItemAction::Eat);
    lemma_item_actions_members(t, ItemAction::Throw);
    if t.light_source is Some {
        assert(t.light_source == Some(true) || t.light_source == Some(false));
    }
}

/// How rare an item is.
#[derive(Clone, Copy, Debug, PartialEq, Eq, Structural)]
pub enum ItemRarity {
    Common,
    Uncommon,
    Rare,
    Epic,
    Legendary,
}

impl ItemRarity {
    pub open spec fn display_name_spec(self) -> Seq<char> {
        match self {
            ItemRarity::Common => "Standard Issue"@,
            ItemRarity::Uncommon => "Trail-Worn"@,
            ItemRarity::Rare => "Frontier Special"@,
            ItemRarity::Epic => "Legendary Outlaw's"@,
            ItemRarity::Legendary => "Famous Gunslinger's"@,
        }
    }

    /// The name the item detail panel gives the rarity.
    pub fn display_name(&self) -> (s: &'static str)
        ensures
            s@ == self.display_name_spec(),
    {
        match self {
            ItemRarity::Common => "Standard Issue",
            ItemRarity::Uncommon => "Trail-Worn",
            ItemRarity::Rare => "Frontier Special",
            ItemRarity::Epic => "Legendary Outlaw's",
            ItemRarity::Legendary => "Famous Gunslinger's",
        }
    }
}

/// The damage section of the item detail panel for a weapon: its damage
/// dice, its range if it has one, its ammunition if it has both a count and
/// a clip, and whether it is a melee or a ranged weapon, one per line.
pub open spec fn weapon_damage_spec(
    damage_dice: Seq<char>,
    range: Option<u32>,
    ammo: Option<u32>,
    clip_size: Option<u32>,
    melee: bool,
) -> Seq<char> {
    let range_line = match range {
        Some(r) => "\nRange: "@ + decimal(r as nat),
        None => Seq::empty(),
    };
    let ammo_line = match (ammo, clip_size) {
        (Some(a), Some(c)) => "\nAmmo: "@ + decimal(a as nat) + "/"@ + decimal(c as nat),
        _ => Seq::empty(),
    };
    "Damage: "@ + damage_dice + range_line + ammo_line + "\nType: "@ + if melee {
        "Melee"@
    } else {
        "Ranged"@
    }
}

/// Text of the damage section of the item detail panel for a weapon.
pub fn weapon_damage_text(
    damage_dice: &str,
    range: Option<u32>,
    ammo: Option<u32>,
    clip_size: Option<u32>,
    melee: bool,
) -> (s: String)
    ensures
        s@ == weapon_damage_spec(damage_dice@, range, ammo, clip_size, melee),
{
    let mut out: Vec<char> = Vec::new();
    push_str_chars(&mut out, "Damage: ");
    push_str_chars(&mut out, damage_dice);
    match range {
        Some(r) => {
            push_str_chars(&mut out, "\nRange: ");
            push_decimal(&mut out, r as u64);
        },
        None => {},
    }
    match (ammo, clip_size) {
        (Some(a), Some(c)) => {
            push_str_chars(&mut out, "\nAmmo: ");
            push_decimal(&mut out, a as u64);
            push_str_chars(&mut out, "/");
            push_decimal(&mut out, c as u64);
        },
        _ => {},
    }
    push_str_chars(&mut out, "\nType: ");
    push_str_chars(&mut out, if melee { "Melee" } else { "Ranged" });
    assert(out@ =~= weapon_damage_spec(damage_dice@, range, ammo, clip_size, melee));
    string_from_chars(&out)
}

/// Countdown to rebuilding the item actions dialog after the items changed,
/// so that the changes are applied before the dialog reads them.
#[derive(Clone, Copy, Debug, PartialEq, Eq, Structural)]
pub struct ActionDialogRefreshTimer {
    pub frames_to_wait: u32,
    pub needs_refresh: bool,
}

/// Frames a rebuild waits after the change that requested it.
pub const REFRESH_DELAY_FRAMES: u32 = 2;

impl Default for ActionDialogRefreshTimer {
    /// No rebuild pending.
    fn default() -> (t: Self)
        ensures
            t == (ActionDialogRefreshTimer { frames_to_wait: 0, needs_refresh: false }),
    {
        ActionDialogRefreshTimer { frames_to_wait: 0, needs_refresh: false }
    }
}

/// One frame of the countdown: the timer after it, and whether the dialog
/// is rebuilt in that frame.
pub open spec fn refresh_tick(t: ActionDialogRefreshTimer) -> (ActionDialogRefreshTimer, bool) {
    if !t.needs_refresh {
        (t, false)
    } else if t.frames_to_wait > 0 {
        (ActionDialogRefreshTimer { frames_to_wait: (t.frames_to_wait - 1) as u32, needs_refresh: true }, false)
    } else {
        (ActionDialogRefreshTimer { frames_to_wait: 0, needs_refresh: false }, true)
    }
}

impl ActionDialogRefreshTimer {
    /// Requests a rebuild once the changes of this frame have been applied.
    pub fn request(&mut self)
        ensures
            *final(self) == (ActionDialogRefreshTimer { frames_to_wait: REFRESH_DELAY_FRAMES, needs_refresh: true }),
    {
        self.needs_refresh = true;
        self.frames_to_wait = REFRESH_DELAY_FRAMES;
    }

    /// Counts down one frame; whether the dialog is rebuilt in this frame.
    pub fn tick(&mut self) -> (refresh: bool)
        ensures
            (*final(self), refresh) == refresh_tick(*old(self)),
    {
        if !self.needs_refresh {
            return false;
        }
        if self.frames_to_wait > 0 {
            self.frames_to_wait = self.frames_to_wait - 1;
            return false;
        }
        self.needs_refresh = false;
        true
    }
}

/// Reacts to a frame's item events: any inventory change or lit item
/// requests a rebuild of the actions dialog, and an open dialog switches to
/// the last item lit. Returns the item the dialog shows afterwards.
pub fn refresh_action_dialog_on_events(
    timer: &mut ActionDialogRefreshTimer,
    has_inventory_event: bool,
    lit_item_ids: &Vec<u64>,
    dialog_item: Option<u64>,
) -> (item: Option<u64>)
    ensures
        has_inventory_event || lit_item_ids@.len() > 0 ==> *final(timer) == (ActionDialogRefreshTimer {
            frames_to_wait: REFRESH_DELAY_FRAMES,
            needs_refresh: true,
        }),
        !(has_inventory_event || lit_item_ids@.len() > 0) ==> *final(timer) == *old(timer),
        item == if dialog_item is Some && lit_item_ids@.len() > 0 {
            Some(lit_item_ids@.last())
        } else {
            dialog_item
        },
{
    if lit_item_ids.len() == 0 && !has_inventory_event {
        return dialog_item;
    }
    let mut item = dialog_item;
    if lit_item_ids.len() > 0 {
        let lit = lit_item_ids[lit_item_ids.len() - 1];
        if dialog_item.is_some() {
            item = Some(lit);
        }
    }
    timer.request();
    item
}

/// A rebuild requested in a frame happens two frames later, exactly once:
/// the countdown then rests until the next request.
pub proof fn lemma_refresh_fires_once(t: ActionDialogRefreshTimer)
    requires
        t == (ActionDialogRefreshTimer { frames_to_wait: REFRESH_DELAY_FRAMES, needs_refresh: true }),
    ensures
        !refresh_tick(t).1,
        !refresh_tick(refresh_tick(t).0).1,
        refresh_tick(refresh_tick(refresh_tick(t).0).0).1,
        !refresh_tick(refresh_tick(refresh_tick(t).0).0).0.needs_refresh,
        forall|u: ActionDialogRefreshTimer| !u.needs_refresh ==> #[trigger] refresh_tick(u) == (u, false),
{
}

/// Position in the inventory list of the entry for item `id`: the first
/// entry whose item it is.
pub fn find_list_item(entries: &Vec<Option<u64>>, id: u64) -> (r: Option<usize>)
    ensures
        r matches Some(i) ==> i < entries@.len() && entries@[i as int] == Some(id) && forall|j: int|
            0 <= j < i ==> entries@[j] != Some(id),
        r is None ==> forall|j: int| 0 <= j < entries@.len() ==> entries@[j] != Some(id),
{
    let mut i: usize = 0;
    while i < entries.len()
        invariant
            i <= entries@.len(),
            forall|j: int| 0 <= j < i ==> entries@[j] != Some(id),
        decreases entries@.len() - i,
    {
        if let Some(e) = entries[i] {
            if e == id {
                return Some(i);
            }
        }
        i = i + 1;
    }
    None
}

/// The heading of the equip slot screen.
pub fn equip_heading(item_label: &str) -> (s: String)
    ensures
        s@ == "Equip "@ + item_label@ + " to:"@,
{
    let mut out: Vec<char> = Vec::new();
    push_str_chars(&mut out, "Equip ");
    push_str_chars(&mut out, item_label);
    push_str_chars(&mut out, " to:");
    string_from_chars(&out)
}

/// A slot's line on the equip slot screen, marked when selected.
pub fn equip_slot_line(slot_name: &str, selected: bool) -> (s: String)
    ensures
        s@ == (if selected { ">"@ } else { " "@ }) + " "@ + slot_name@,
{
    let mut out: Vec<char> = Vec::new();
    push_str_chars(&mut out, if selected { ">" } else { " " });
    push_str_chars(&mut out, " ");
    push_str_chars(&mut out, slot_name);
    string_from_chars(&out)
}

} // verus!
