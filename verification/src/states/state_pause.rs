use vstd::prelude::*;

use crate::text_util::{push_str_chars, string_from_chars};

verus! {

/// The status line shown when saving is asked for.
pub open spec fn save_request_message_spec(enable_saves: bool, save_name: Seq<char>) -> Seq<char> {
    if enable_saves {
        "Saving game to '"@ + save_name + "'..."@
    } else {
        "Save disabled in settings"@
    }
}

/// Text of the save status line after the save button: whether the game is
/// being saved, and under which name, or that saving is off.
pub fn save_request_message(enable_saves: bool, save_name: &str) -> (s: String)
    ensures
        s@ == save_request_message_spec(enable_saves, save_name@),
{
    let mut out: Vec<char> = Vec::new();
    if !enable_saves {
        push_str_chars(&mut out, "Save disabled in settings");
    } else {
        push_str_chars(&mut out, "Saving game to '");
        push_str_chars(&mut out, save_name);
        push_str_chars(&mut out, "'...");
    }
    string_from_chars(&out)
}

/// Text of the save status line once the save finished.
pub fn save_result_message(success: bool) -> (s: &'static str)
    ensures
        s@ == if success { "Game saved."@ } else { "Error saving game."@ },
{
    if success {
        "Game saved."
    } else {
        "Error saving game."
    }
}

} // verus!
