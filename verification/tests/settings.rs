use quadboy::states::state_settings::{save_name_label, switch_labels, toggle_label, SettingSwitches};

#[test]
fn toggle_labels_show_on_and_off() {
    assert_eq!(toggle_label("2", "Scanlines", true), "({Y|2}) Scanlines: {G|ON}");
    assert_eq!(toggle_label("8", "Saves Enabled", false), "({Y|8}) Saves Enabled: {R|OFF}");
}

#[test]
fn save_name_label_highlights_the_name() {
    assert_eq!(save_name_label("slot1"), "({Y|9}) Save Name: {G|slot1}");
}

#[test]
fn switch_labels_follow_the_settings() {
    let labels = switch_labels(SettingSwitches {
        crt_scanline: true,
        crt_film_grain: false,
        crt_flicker: false,
        crt_vignette: true,
        crt_chromatic_ab: false,
        enable_saves: true,
    });
    assert_eq!(
        labels,
        vec![
            "({Y|2}) Scanlines: {G|ON}".to_string(),
            "({Y|3}) Film Grain: {R|OFF}".to_string(),
            "({Y|4}) Flicker: {R|OFF}".to_string(),
            "({Y|5}) Vignette: {G|ON}".to_string(),
            "({Y|6}) Chromatic Aberration: {R|OFF}".to_string(),
            "({Y|8}) Saves Enabled: {G|ON}".to_string(),
        ]
    );
}
