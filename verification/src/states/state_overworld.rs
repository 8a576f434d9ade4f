use vstd::prelude::*;

use crate::text_util::{decimal, push_decimal, push_str_chars, string_from_chars};

verus! {

/// The biome of an overworld zone.
#[derive(Clone, Copy, Debug, PartialEq, Eq, Structural)]
pub enum BiomeType {
    OpenAir,
    Forest,
    Desert,
    Cavern,
    Mountain,
}

/// The colors the overworld map is drawn with.
#[derive(Clone, Copy, Debug, PartialEq, Eq, Structural)]
pub enum MapColor {
    Blue,
    Green,
    Yellow,
    Gray,
    White,
    Brown,
    Red,
    Black,
}

/// How one zone is drawn on the overworld map.
#[derive(Clone, Copy, Debug, PartialEq, Eq, Structural)]
pub struct OverworldTile {
    pub glyph: usize,
    pub fg1: MapColor,
    pub fg2: MapColor,
    pub bg: MapColor,
}

impl BiomeType {
    pub open spec fn glyph_spec(self) -> usize {
        match self {
            BiomeType::OpenAir => 16,
            BiomeType::Forest => 1,
            BiomeType::Desert => 33,
            BiomeType::Cavern => 129,
            BiomeType::Mountain => 30,
        }
    }

    pub open spec fn color_spec(self) -> MapColor {
        match self {
            BiomeType::OpenAir => MapColor::Blue,
            BiomeType::Forest => MapColor::Green,
            BiomeType::Desert => MapColor::Yellow,
            BiomeType::Cavern => MapColor::Gray,
            BiomeType::Mountain => MapColor::White,
        }
    }

    /// The map glyph of the biome and its color.
    pub fn map_glyph(&self) -> (g: (usize, MapColor))
        ensures
            g == (self.glyph_spec(), self.color_spec()),
    {
        match self {
            BiomeType::OpenAir => (16, MapColor::Blue),
            BiomeType::Forest => (1, MapColor::Green),
            BiomeType::Desert => (33, MapColor::Yellow),
            BiomeType::Cavern => (129, MapColor::Gray),
            BiomeType::Mountain => (30, MapColor::White),
        }
    }
}

/// Background of a zone's tile: the player's zone is marked red, then rivers
/// blue, then roads brown, before the plain black.
pub open spec fn map_background(is_player_zone: bool, has_road: bool, has_river: bool) -> MapColor {
    if is_player_zone {
        MapColor::Red
    } else if has_river {
        MapColor::Blue
    } else if has_road {
        MapColor::Brown
    } else {
        MapColor::Black
    }
}

/// The glyph of a town on the map.
pub const TOWN_GLYPH: usize = 8;

/// How a zone is drawn on the overworld map: a town shows the town glyph in
/// brown and yellow, any other zone its biome's glyph in the biome's color;
/// the background marks the player's zone, rivers and roads.
pub fn overworld_tile(biome: BiomeType, is_player_zone: bool, has_town: bool, has_road: bool, has_river: bool) -> (t: OverworldTile)
    ensures
        t.bg == map_background(is_player_zone, has_road, has_river),
        has_town ==> t.glyph == TOWN_GLYPH && t.fg1 == MapColor::Brown && t.fg2 == MapColor::Yellow,
        !has_town ==> t.glyph == biome.glyph_spec() && t.fg1 == biome.color_spec() && t.fg2 == biome.color_spec(),
{
    let (zone_glyph, zone_fg1) = biome.map_glyph();
    if has_town {
        let bg = if is_player_zone {
            MapColor::Red
        } else if has_river {
            MapColor::Blue
        } else if has_road {
            MapColor::Brown
        } else {
            MapColor::Black
        };
        OverworldTile { glyph: TOWN_GLYPH, fg1: MapColor::Brown, fg2: MapColor::Yellow, bg }
    } else if is_player_zone {
        OverworldTile { glyph: zone_glyph, fg1: zone_fg1, fg2: zone_fg1, bg: MapColor::Red }
    } else if has_river {
        OverworldTile { glyph: zone_glyph, fg1: zone_fg1, fg2: zone_fg1, bg: MapColor::Blue }
    } else if has_road {
        OverworldTile { glyph: zone_glyph, fg1: zone_fg1, fg2: zone_fg1, bg: MapColor::Brown }
    } else {
        OverworldTile { glyph: zone_glyph, fg1: zone_fg1, fg2: zone_fg1, bg: MapColor::Black }
    }
}

/// Each biome is drawn with its own glyph (open air 16, forest 1, desert 33,
/// cavern 129, mountain 30) in its own color (blue, green, yellow, gray,
/// white): distinct biomes never share a glyph or a color, and no biome's
/// glyph is the town glyph, so a zone's tile tells its biome and whether it
/// has a town.
pub proof fn lemma_biome_glyphs_distinct(a: BiomeType, b: BiomeType)
    ensures
        BiomeType::OpenAir.glyph_spec() == 16,
        BiomeType::Forest.glyph_spec() == 1,
        BiomeType::Desert.glyph_spec() == 33,
        BiomeType::Cavern.glyph_spec() == 129,
        BiomeType::Mountain.glyph_spec() == 30,
        BiomeType::OpenAir.color_spec() == MapColor::Blue,
        BiomeType::Forest.color_spec() == MapColor::Green,
        BiomeType::Desert.color_spec() == MapColor::Yellow,
        BiomeType::Cavern.color_spec() == MapColor::Gray,
        BiomeType::Mountain.color_spec() == MapColor::White,
        a != b ==> a.glyph_spec() != b.glyph_spec() && a.color_spec() != b.color_spec(),
        a.glyph_spec() != TOWN_GLYPH,
{
}

/// The background marks the player's zone red whatever else the zone has;
/// any other zone is blue exactly when a river runs through it, brown when
/// only a road does, and black otherwise.
pub proof fn lemma_map_background(is_player_zone: bool, has_road: bool, has_river: bool)
    ensures
        (map_background(is_player_zone, has_road, has_river) == MapColor::Red) == is_player_zone,
        (map_background(is_player_zone, has_road, has_river) == MapColor::Blue) == (!is_player_zone && has_river),
        (map_background(is_player_zone, has_road, has_river) == MapColor::Brown) == (!is_player_zone && !has_river
            && has_road),
        (map_background(is_player_zone, has_road, has_river) == MapColor::Black) == (!is_player_zone && !has_river
            && !has_road),
{
}

pub open spec fn yes_no(b: bool) -> Seq<char> {
    if b {
        "Yes"@
    } else {
        "No"@
    }
}

/// The debug panel for the zone under the mouse, each value highlighted.
pub open spec fn overworld_debug_spec(
    zone_x: nat,
    zone_y: nat,
    zone_idx: nat,
    biome_name: Seq<char>,
    town_name: Option<Seq<char>>,
    has_road: bool,
    has_river: bool,
) -> Seq<char> {
    let town = match town_name {
        Some(name) => name,
        None => "No town"@,
    };
    "Zone {C|("@ + decimal(zone_x) + ", "@ + decimal(zone_y) + ")}\nIndex: {C|"@ + decimal(zone_idx)
        + "}\nType: {C|"@ + biome_name + "}\nTown: {C|"@ + town + "}\nRoad: {C|"@ + yes_no(has_road)
        + "}\nRiver: {C|"@ + yes_no(has_river) + "}\nConnections: {C|0}"@
}

/// Text of the debug panel for the zone under the mouse.
pub fn overworld_debug_text(
    zone_x: usize,
    zone_y: usize,
    zone_idx: usize,
    biome_name: &str,
    town_name: Option<&str>,
    has_road: bool,
    has_river: bool,
) -> (s: String)
    ensures
        s@ == overworld_debug_spec(
            zone_x as nat,
            zone_y as nat,
            zone_idx as nat,
            biome_name@,
            match town_name {
                Some(name) => Some(name@),
                None => None,
            },
            has_road,
            has_river,
        ),
{
    let mut out: Vec<char> = Vec::new();
    push_str_chars(&mut out, "Zone {C|(");
    push_decimal(&mut out, zone_x as u64);
    push_str_chars(&mut out, ", ");
    push_decimal(&mut out, zone_y as u64);
    push_str_chars(&mut out, ")}\nIndex: {C|");
    push_decimal(&mut out, zone_idx as u64);
    push_str_chars(&mut out, "}\nType: {C|");
    push_str_chars(&mut out, biome_name);
    push_str_chars(&mut out, "}\nTown: {C|");
    match town_name {
        Some(name) => push_str_chars(&mut out, name),
        None => push_str_chars(&mut out, "No town"),
    }
    push_str_chars(&mut out, "}\nRoad: {C|");
    push_str_chars(&mut out, if has_road { "Yes" } else { "No" });
    push_str_chars(&mut out, "}\nRiver: {C|");
    push_str_chars(&mut out, if has_river { "Yes" } else { "No" });
    push_str_chars(&mut out, "}\nConnections: {C|0}");
    string_from_chars(&out)
}

} // verus!
