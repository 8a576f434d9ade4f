use quadboy::states::state_attributes::{
    armor_button_label, attribute_label, available_points_text, group_indicator, level_text,
    modifier_line, stat_button_label,
    section_heading, stat_dialog_title, stat_value_line, AttributeGroup, ModifierSource,
};
use quadboy::states::state_container::{handle_container_input, item_at, ContainerInput, FocusedList};
use quadboy::states::state_explore::{
    ammo_bar_text, armor_bar_text, hp_bar_text, best_examinable, get_examinable_entity_priority, overlay_action, OverlayAction,
};
use quadboy::states::state_inventory::{
    build_item_action_list, refresh_action_dialog_on_events, weapon_damage_text, ActionDialogRefreshTimer,
    equip_heading, equip_slot_line, find_list_item, ItemAction, ItemRarity, ItemTraits,
};
use quadboy::states::state_shoot::{
    in_weapon_range, target_health_color, target_info_text, HealthColor, TargetCycling,
};
use quadboy::engine::stable_id::StableId;

fn plain_item() -> ItemTraits {
    ItemTraits {
        equippable: false,
        equipped: false,
        lightable: false,
        explosive: false,
        fuse_lit: false,
        light_source: None,
        consumable: false,
        throwable: false,
    }
}

#[test]
fn target_cycling_forward_and_back() {
    let mut t = TargetCycling::new();
    t.update_target_cycling(true, false, false);
    assert_eq!(t.current_index, None);
    assert!(!t.keyboard_focus);
    t.replace_targets(vec![10, 20, 30]);
    t.update_target_cycling(true, false, false);
    assert_eq!(t.current_index, Some(0));
    assert!(t.keyboard_focus);
    t.update_target_cycling(true, false, false);
    t.update_target_cycling(true, false, false);
    assert_eq!(t.current_index, Some(2));
    t.update_target_cycling(true, false, false);
    assert_eq!(t.current_index, Some(0));
    t.update_target_cycling(true, true, false);
    assert_eq!(t.current_index, Some(2));
    assert_eq!(t.selected(), Some(30));
}

#[test]
fn target_cycling_mouse_breaks_focus() {
    let mut t = TargetCycling::new();
    t.replace_targets(vec![1, 2]);
    t.update_target_cycling(true, true, false);
    assert_eq!(t.current_index, Some(0));
    t.update_target_cycling(false, false, true);
    assert!(!t.keyboard_focus);
    assert_eq!(t.current_index, None);
}

#[test]
fn target_selection_follows_target() {
    let mut t = TargetCycling::new();
    t.replace_targets(vec![1, 2, 3]);
    t.update_target_cycling(true, false, false);
    t.update_target_cycling(true, false, false);
    assert_eq!(t.selected(), Some(2));
    t.replace_targets(vec![2, 3]);
    assert_eq!(t.current_index, Some(0));
    t.replace_targets(vec![3]);
    assert_eq!(t.current_index, Some(0));
    assert_eq!(t.selected(), Some(3));
    t.replace_targets(vec![]);
    assert_eq!(t.current_index, None);
}

#[test]
fn weapon_range_is_manhattan() {
    assert!(in_weapon_range((10, 10), (16, 16), 12));
    assert!(!in_weapon_range((10, 10), (17, 16), 12));
    assert!(in_weapon_range((5, 5), (5, 5), 0));
}

#[test]
fn examine_priorities() {
    assert_eq!(get_examinable_entity_priority(true, true, true, true), Some(1));
    assert_eq!(get_examinable_entity_priority(false, true, false, false), Some(2));
    assert_eq!(get_examinable_entity_priority(false, false, true, true), Some(3));
    assert_eq!(get_examinable_entity_priority(false, false, false, true), Some(4));
    assert_eq!(get_examinable_entity_priority(false, false, false, false), None);
    assert_eq!(best_examinable(&vec![None, Some(3), Some(2), Some(2)]), Some(2));
    assert_eq!(best_examinable(&vec![None, None]), None);
}

#[test]
fn map_overlay_actions() {
    assert_eq!(overlay_action(true, false, false, false), (true, OverlayAction::Spawn));
    assert_eq!(overlay_action(false, true, true, true), (true, OverlayAction::Respawn));
    assert_eq!(overlay_action(false, true, true, false), (true, OverlayAction::Nothing));
    assert_eq!(overlay_action(true, true, true, false), (false, OverlayAction::Remove));
    assert_eq!(overlay_action(false, false, false, true), (false, OverlayAction::Nothing));
}

#[test]
fn ammo_bar() {
    assert_eq!(ammo_bar_text(6, 4), "[XXXX--] 4/6");
    assert_eq!(ammo_bar_text(0, 0), "[] 0/0");
    assert_eq!(ammo_bar_text(2, 12), "[XX] 12/2");
}

#[test]
fn item_actions_plain_and_unregistered() {
    assert_eq!(
        build_item_action_list(true, plain_item()),
        vec![ItemAction::Drop, ItemAction::Examine, ItemAction::Close]
    );
    assert!(build_item_action_list(false, plain_item()).is_empty());
}

#[test]
fn item_actions_full() {
    let t = ItemTraits {
        equippable: true,
        equipped: true,
        lightable: true,
        explosive: false,
        fuse_lit: false,
        light_source: Some(true),
        consumable: true,
        throwable: true,
        ..plain_item()
    };
    assert_eq!(
        build_item_action_list(true, t),
        vec![
            ItemAction::Drop,
            ItemAction::Unequip,
            ItemAction::Extinguish,
            ItemAction::Eat,
            ItemAction::Throw,
            ItemAction::Examine,
            ItemAction::Close
        ]
    );
    let dynamite = ItemTraits { lightable: true, explosive: true, throwable: true, ..plain_item() };
    assert_eq!(
        build_item_action_list(true, dynamite),
        vec![ItemAction::Drop, ItemAction::LightFuse, ItemAction::Throw, ItemAction::Examine, ItemAction::Close]
    );
    assert_eq!(ItemAction::LightFuse.label(), "({Y|L}) Light Fuse");
    assert_eq!(ItemAction::Close.label(), "({Y|ESC}) Close");
    let unlit_lamp = ItemTraits { lightable: true, light_source: Some(false), ..plain_item() };
    assert_eq!(build_item_action_list(true, unlit_lamp)[1], ItemAction::Light);
    let not_lightable = ItemTraits { light_source: Some(true), ..plain_item() };
    assert_eq!(build_item_action_list(true, not_lightable).len(), 3);
}

#[test]
fn container_keys() {
    assert_eq!(handle_container_input(true, true, Some(FocusedList::Player)), ContainerInput::BackToExplore);
    assert_eq!(handle_container_input(false, true, Some(FocusedList::Player)), ContainerInput::TransferFromPlayer);
    assert_eq!(handle_container_input(false, true, Some(FocusedList::Container)), ContainerInput::TransferFromContainer);
    assert_eq!(handle_container_input(false, true, Some(FocusedList::Other)), ContainerInput::Nothing);
    assert_eq!(handle_container_input(false, false, Some(FocusedList::Player)), ContainerInput::Nothing);
    assert_eq!(item_at(&vec![7, 8], 1), Some(StableId(8)));
    assert_eq!(item_at(&vec![7, 8], 2), None);
}

#[test]
fn attribute_screen_texts() {
    assert_eq!(section_heading(AttributeGroup::Dexterity), "=== DEXTERITY STATS ===");
    assert_eq!(AttributeGroup::Special.description(), "Stats that don't derive from base attributes.");
    assert_eq!(group_indicator(AttributeGroup::Strength, AttributeGroup::Strength), "→");
    assert_eq!(group_indicator(AttributeGroup::Strength, AttributeGroup::Special), " ");
    assert_eq!(attribute_label(AttributeGroup::Strength, 3).as_deref(), Some("STRENGTH      3"));
    assert_eq!(attribute_label(AttributeGroup::Intelligence, 10).as_deref(), Some("INTELLIGENCE  10"));
    assert_eq!(attribute_label(AttributeGroup::Special, 1), None);
    assert_eq!(level_text(7), "Level: 7");
    assert_eq!(available_points_text(0), "Available: 0 pts");
}

#[test]
fn health_gauges_show_current_over_max() {
    assert_eq!(hp_bar_text(7, 12), "HP: 7/12");
    assert_eq!(armor_bar_text(0, 3), "Armor: 0/3");
    assert_eq!(hp_bar_text(100, 100), "HP: 100/100");
}

#[test]
fn rarities_have_frontier_names() {
    assert_eq!(ItemRarity::Common.display_name(), "Standard Issue");
    assert_eq!(ItemRarity::Epic.display_name(), "Legendary Outlaw's");
    assert_eq!(ItemRarity::Legendary.display_name(), "Famous Gunslinger's");
}

#[test]
fn weapon_damage_section_lists_known_facts() {
    assert_eq!(
        weapon_damage_text("2d6", Some(8), Some(3), Some(6), false),
        "Damage: 2d6\nRange: 8\nAmmo: 3/6\nType: Ranged"
    );
    assert_eq!(weapon_damage_text("1d4", None, None, None, true), "Damage: 1d4\nType: Melee");
    assert_eq!(weapon_damage_text("1d8", None, Some(2), None, false), "Damage: 1d8\nType: Ranged");
}

#[test]
fn action_dialog_rebuilds_two_frames_after_a_change() {
    let mut timer = ActionDialogRefreshTimer::default();
    assert!(!timer.tick());
    let item = refresh_action_dialog_on_events(&mut timer, true, &vec![], Some(5));
    assert_eq!(item, Some(5));
    assert!(!timer.tick());
    assert!(!timer.tick());
    assert!(timer.tick());
    assert!(!timer.tick());
    assert_eq!(timer, ActionDialogRefreshTimer { frames_to_wait: 0, needs_refresh: false });
}

#[test]
fn lit_items_take_over_the_open_dialog() {
    let mut timer = ActionDialogRefreshTimer::default();
    assert_eq!(refresh_action_dialog_on_events(&mut timer, false, &vec![3, 9], Some(5)), Some(9));
    assert_eq!(timer, ActionDialogRefreshTimer { frames_to_wait: 2, needs_refresh: true });
    let mut idle = ActionDialogRefreshTimer::default();
    assert_eq!(refresh_action_dialog_on_events(&mut idle, false, &vec![3], None), None);
    assert_eq!(refresh_action_dialog_on_events(&mut idle, false, &vec![], Some(4)), Some(4));
}

#[test]
fn stat_dialog_lines() {
    assert_eq!(stat_dialog_title("Armor"), "=== Armor ===");
    assert_eq!(stat_value_line("Base Value: ", 4), "Base Value: 4");
    assert_eq!(stat_value_line("Total: ", -2), "Total: -2");
    assert_eq!(stat_value_line("Total: ", i32::MIN), "Total: -2147483648");
}

#[test]
fn modifier_lines_show_signed_values() {
    assert_eq!(modifier_line(&ModifierSource::Equipment { item_id: 12 }, 3), "  Equipment #12: +3");
    assert_eq!(
        modifier_line(&ModifierSource::Intrinsic { name: "Tough".to_string() }, -1),
        "  Tough: -1"
    );
    assert_eq!(modifier_line(&ModifierSource::Condition { condition_id: 7 }, 0), "  Condition 7: +0");
}

#[test]
fn stat_buttons_line_up_in_columns() {
    assert_eq!(stat_button_label("Accuracy", 12, 10, 2), "  Accuracy        12  (10 base +2 mods)");
    assert_eq!(
        stat_button_label("VeryLongStatNameHere", -1234, -5, -3),
        "  VeryLongStatNameHere -1234  (-5 base -3 mods)"
    );
    assert_eq!(
        armor_button_label("Armor", 7, 3, 7, 0),
        "  Armor            7  (3/7 current | 7 max | +0 mods)"
    );
}

#[test]
fn target_readout_colors_follow_health() {
    assert_eq!(target_info_text("Bandit", 3, 12), "Bandit (3/12)");
    assert_eq!(target_health_color(3, 12), HealthColor::Red);
    assert_eq!(target_health_color(4, 12), HealthColor::Yellow);
    assert_eq!(target_health_color(6, 12), HealthColor::Yellow);
    assert_eq!(target_health_color(7, 12), HealthColor::Green);
    assert_eq!(target_health_color(1, 3), HealthColor::Yellow);
    assert_eq!(target_health_color(0, 3), HealthColor::Red);
}

#[test]
fn lit_items_are_found_in_the_list() {
    let entries = vec![None, Some(4), Some(9), Some(4)];
    assert_eq!(find_list_item(&entries, 4), Some(1));
    assert_eq!(find_list_item(&entries, 9), Some(2));
    assert_eq!(find_list_item(&entries, 5), None);
}

#[test]
fn equip_screen_lines() {
    assert_eq!(equip_heading("Duster"), "Equip Duster to:");
    assert_eq!(equip_slot_line("Torso", true), "> Torso");
    assert_eq!(equip_slot_line("Legs", false), "  Legs");
}
