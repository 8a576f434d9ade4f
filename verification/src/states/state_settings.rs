use vstd::prelude::*;

use crate::text_util::{push_str_chars, string_from_chars};

verus! {

/// A settings button label: the hotkey, the setting's name and its state,
/// green when on and red when off.
pub open spec fn toggle_label_spec(hotkey: Seq<char>, name: Seq<char>, on: bool) -> Seq<char> {
    "({Y|"@ + hotkey + "}) "@ + name + ": "@ + if on {
        "{G|ON}"@
    } else {
        "{R|OFF}"@
    }
}

/// Label of a settings button that switches `name` on and off.
pub fn toggle_label(hotkey: &str, name: &str, on: bool) -> (s: String)
    ensures
        s@ == toggle_label_spec(hotkey@, name@, on),
{
    let mut out: Vec<char> = Vec::new();
    push_str_chars(&mut out, "({Y|");
    push_str_chars(&mut out, hotkey);
    push_str_chars(&mut out, "}) ");
    push_str_chars(&mut out, name);
    push_str_chars(&mut out, ": ");
    push_str_chars(&mut out, if on { "{G|ON}" } else { "{R|OFF}" });
    string_from_chars(&out)
}

/// Label of the save name setting.
pub fn save_name_label(save_name: &str) -> (s: String)
    ensures
        s@ == "({Y|9}) Save Name: {G|"@ + save_name@ + "}"@,
{
    let mut out: Vec<char> = Vec::new();
    push_str_chars(&mut out, "({Y|9}) Save Name: {G|");
    push_str_chars(&mut out, save_name);
    push_str_chars(&mut out, "}");
    string_from_chars(&out)
}

/// The CRT and save switches of the settings screen.
#[derive(Clone, Copy, Debug, PartialEq, Eq, Structural)]
pub struct SettingSwitches {
    pub crt_scanline: bool,
    pub crt_film_grain: bool,
    pub crt_flicker: bool,
    pub crt_vignette: bool,
    pub crt_chromatic_ab: bool,
    pub enable_saves: bool,
}

/// The labels of the switch buttons, in the order of their hotkeys 2 to 6
/// and 8.
pub fn switch_labels(s: SettingSwitches) -> (labels: Vec<String>)
    ensures
        labels@.len() == 6,
        labels@[0]@ == toggle_label_spec("2"@, "Scanlines"@, s.crt_scanline),
        labels@[1]@ == toggle_label_spec("3"@, "Film Grain"@, s.crt_film_grain),
        labels@[2]@ == toggle_label_spec("4"@, "Flicker"@, s.crt_flicker),
        labels@[3]@ == toggle_label_spec("5"@, "Vignette"@, s.crt_vignette),
        labels@[4]@ == toggle_label_spec("6"@, "Chromatic Aberration"@, s.crt_chromatic_ab),
        labels@[5]@ == toggle_label_spec("8"@, "Saves Enabled"@, s.enable_saves),
{
    let mut labels: Vec<String> = Vec::new();
    labels.push(toggle_label("2", "Scanlines", s.crt_scanline));
    labels.push(toggle_label("3", "Film Grain", s.crt_film_grain));
    labels.push(toggle_label("4", "Flicker", s.crt_flicker));
    labels.push(toggle_label("5", "Vignette", s.crt_vignette));
    labels.push(toggle_label("6", "Chromatic Aberration", s.crt_chromatic_ab));
    labels.push(toggle_label("8", "Saves Enabled", s.enable_saves));
    labels
}

} // verus!
