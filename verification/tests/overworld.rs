use quadboy::states::state_overworld::{
    overworld_debug_text, overworld_tile, BiomeType, MapColor, OverworldTile, TOWN_GLYPH,
};

#[test]
fn biome_tiles_use_biome_glyphs() {
    assert_eq!(
        overworld_tile(BiomeType::Forest, false, false, false, false),
        OverworldTile { glyph: 1, fg1: MapColor::Green, fg2: MapColor::Green, bg: MapColor::Black }
    );
    assert_eq!(BiomeType::Cavern.map_glyph(), (129, MapColor::Gray));
    assert_eq!(BiomeType::Desert.map_glyph(), (33, MapColor::Yellow));
}

#[test]
fn backgrounds_mark_player_river_and_road() {
    assert_eq!(overworld_tile(BiomeType::Mountain, true, false, true, true).bg, MapColor::Red);
    assert_eq!(overworld_tile(BiomeType::Mountain, false, false, true, true).bg, MapColor::Blue);
    assert_eq!(overworld_tile(BiomeType::Mountain, false, false, true, false).bg, MapColor::Brown);
}

#[test]
fn towns_use_the_town_glyph() {
    assert_eq!(
        overworld_tile(BiomeType::OpenAir, false, true, true, false),
        OverworldTile { glyph: TOWN_GLYPH, fg1: MapColor::Brown, fg2: MapColor::Yellow, bg: MapColor::Brown }
    );
    assert_eq!(TOWN_GLYPH, 8);
}

#[test]
fn debug_panel_lists_zone_facts() {
    assert_eq!(
        overworld_debug_text(3, 4, 56, "Forest", None, true, false),
        "Zone {C|(3, 4)}\nIndex: {C|56}\nType: {C|Forest}\nTown: {C|No town}\nRoad: {C|Yes}\nRiver: {C|No}\nConnections: {C|0}"
    );
    assert_eq!(
        overworld_debug_text(0, 0, 0, "Desert", Some("Tombstone"), false, true),
        "Zone {C|(0, 0)}\nIndex: {C|0}\nType: {C|Desert}\nTown: {C|Tombstone}\nRoad: {C|No}\nRiver: {C|Yes}\nConnections: {C|0}"
    );
}
