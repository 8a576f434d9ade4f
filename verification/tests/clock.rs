use quadboy::engine::clock::{daylight_phase_color, daylight_span, Clock};

#[test]
fn clock_starts_forced() {
    let clock = Clock::new(500);
    assert_eq!(clock.current_tick(), 500);
    assert_eq!(clock.tick_delta(), 0);
    assert!(!clock.is_frozen());
    let default = Clock::default();
    assert!(default.is_frozen());
}

#[test]
fn clock_increments_and_clears() {
    let mut clock = Clock::new(0);
    clock.increment_tick(250);
    clock.increment_tick(750);
    assert_eq!(clock.current_tick(), 1000);
    assert_eq!(clock.tick_delta(), 1000);
    clock.clear_tick_delta();
    assert_eq!(clock.tick_delta(), 0);
    assert!(clock.is_frozen());
    clock.force_update();
    assert!(!clock.is_frozen());
}

#[test]
fn clock_turns_and_time_of_day() {
    let mut clock = Clock::new(0);
    clock.set_tick(2_345);
    assert_eq!(clock.current_turn(), 2);
    assert_eq!(clock.sub_turn(), 345);
    // 90 minutes past the start of day 2
    clock.set_tick((2 * 1440 + 90) * 100 + 42);
    assert_eq!(clock.get_minute(), 2 * 1440 + 90);
    assert_eq!(clock.get_day(), 2);
    assert_eq!(clock.get_minute_of_day(), 90);
    assert_eq!(clock.get_hour(), 1);
}

#[test]
fn clock_hour_wraps_at_midnight() {
    let clock = Clock::new(1439 * 100);
    assert_eq!(clock.get_hour(), 23);
    let clock = Clock::new(1440 * 100);
    assert_eq!(clock.get_hour(), 0);
    assert_eq!(clock.get_day(), 1);
}

#[test]
fn daylight_spans_turn_at_the_phases() {
    assert_eq!(daylight_span(0), 0);
    assert_eq!(daylight_span(302), 0);
    assert_eq!(daylight_span(303), 1);
    assert_eq!(daylight_span(720), 1);
    assert_eq!(daylight_span(721), 2);
    assert_eq!(daylight_span(1195), 2);
    assert_eq!(daylight_span(1196), 3);
    assert_eq!(daylight_span(1439), 3);
    let noon = Clock::new(720 * 100);
    assert_eq!(noon.get_daylight_span(), 1);
    let next_day_dawn = Clock::new((1440 + 400) * 100);
    assert_eq!(next_day_dawn.get_daylight_span(), 1);
    assert_eq!(daylight_phase_color(0), 0x14556E);
    assert_eq!(daylight_phase_color(1), 0x6AA5A7);
    assert_eq!(daylight_phase_color(2), 0xFFFFFF);
    assert_eq!(daylight_phase_color(3), 0x6AA5A7);
    assert_eq!(daylight_phase_color(4), 0x14556E);
}
