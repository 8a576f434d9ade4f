use vstd::prelude::*;

use crate::text_util::{decimal, push_decimal, push_str_chars, string_from_chars};

verus! {

/// Path of the save file of zone `zone_idx` in save `save_name`.
pub open spec fn zone_save_path_spec(save_name: Seq<char>, zone_idx: nat) -> Seq<char> {
    "saves/"@ + save_name + "/zone-"@ + decimal(zone_idx) + ".json"@
}

/// Where the zone with index `zone_idx` of save `save_name` is stored.
pub fn zone_save_path(save_name: &str, zone_idx: usize) -> (path: String)
    ensures
        path@ == zone_save_path_spec(save_name@, zone_idx as nat),
{
    let mut out: Vec<char> = Vec::new();
    push_str_chars(&mut out, "saves/");
    push_str_chars(&mut out, save_name);
    push_str_chars(&mut out, "/zone-");
    push_decimal(&mut out, zone_idx as u64);
    push_str_chars(&mut out, ".json");
    assert(out@ =~= zone_save_path_spec(save_name@, zone_idx as nat));
    string_from_chars(&out)
}

/// Path of the directory that holds the files of save `save_name`.
pub fn save_dir_path(save_name: &str) -> (path: String)
    ensures
        path@ == "saves/"@ + save_name@,
{
    let mut out: Vec<char> = Vec::new();
    push_str_chars(&mut out, "saves/");
    push_str_chars(&mut out, save_name);
    string_from_chars(&out)
}

} // verus!
