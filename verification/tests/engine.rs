use quadboy::engine::exit::{keeps_running, on_exit_app, ExitApp};
use quadboy::engine::save::{save_dir_path, zone_save_path};
use quadboy::engine::stable_id::{StableId, StableIdRegistry};
use quadboy::engine::time::FrameHistory;

#[test]
fn stable_ids_are_generated_in_order() {
    let mut reg = StableIdRegistry::new();
    assert_eq!(reg.generate_id(), StableId(1));
    assert_eq!(reg.generate_id(), StableId(2));
    let mut reg = StableIdRegistry::default();
    assert_eq!(reg.generate_id(), StableId::new(0));
}

#[test]
fn stable_id_register_and_lookup() {
    let mut reg = StableIdRegistry::new();
    reg.register(77, StableId(5));
    assert_eq!(reg.get_entity(StableId(5)), Some(77));
    assert_eq!(reg.get_id(77), Some(StableId(5)));
    assert_eq!(reg.get_entity(StableId(6)), None);
    // An id read back from a save moves the counter past it
    assert_eq!(reg.generate_id(), StableId(6));
}

#[test]
fn stable_id_unregister_forgets_both_ways() {
    let mut reg = StableIdRegistry::new();
    let id = reg.generate_id();
    reg.register(9, id);
    reg.unregister(9);
    assert_eq!(reg.get_id(9), None);
    assert_eq!(reg.get_entity(id), None);
    reg.unregister(9);
    assert_eq!(reg.generate_id(), StableId(2));
}

#[test]
fn frame_history_window() {
    let mut h = FrameHistory::new(3);
    assert_eq!(h.get_min_fps(), 0);
    h.record(60);
    h.record(30);
    assert_eq!(h.get_smooth_avg(), 30);
    h.record(45);
    h.record(90);
    assert_eq!(h.frames.len(), 3);
    assert_eq!(h.get_smooth_avg(), 55);
    assert_eq!(h.get_min_fps(), 30);
}

#[test]
fn frame_average_rounds_toward_zero() {
    let mut h = FrameHistory::new(4);
    h.record(-7);
    assert_eq!(h.get_smooth_avg(), -1);
    h.record(2);
    assert_eq!(h.get_smooth_avg(), -1);
    assert_eq!(h.get_min_fps(), -7);
}

#[test]
fn exit_is_sticky() {
    let mut e = ExitApp::default();
    assert!(keeps_running(Some(&e)));
    on_exit_app(false, &mut e);
    assert!(!e.0);
    on_exit_app(true, &mut e);
    assert!(e.0);
    on_exit_app(false, &mut e);
    assert!(e.0);
    assert!(!keeps_running(Some(&e)));
    assert!(keeps_running(None));
}

#[test]
fn zone_save_paths() {
    assert_eq!(zone_save_path("world1", 0), "saves/world1/zone-0.json");
    assert_eq!(zone_save_path("w", 4095), "saves/w/zone-4095.json");
    assert_eq!(save_dir_path("w"), "saves/w");
}

#[test]
fn stable_ids_stay_fresh() {
    let mut reg = StableIdRegistry::new();
    let a = reg.generate_id();
    reg.register(3, StableId(10));
    let b = reg.generate_id();
    reg.register(4, StableId(2));
    let c = reg.generate_id();
    assert_eq!((a.0, b.0, c.0), (1, 11, 12));
    assert_eq!(reg.next_id(), 13);
    assert_eq!(reg.get_entity(c), None);
}
