use quadboy::rendering::animated_glyph::advance_frame;
use quadboy::rendering::glyph::{
    dims_for_dialog, glyph_in_view, glyph_style_colors, on_zone_status_change,
    world_glyph_visibility, StyleColors, WorldGlyphVisibility, ZoneStatus, SHROUD_BG_COLOR,
    SHROUD_FG_COLOR, SHROUD_OUTLINE_COLOR,
};
use quadboy::rendering::lighting_data::{light_cell, unpack_rgb};
use quadboy::rendering::particles::{
    condition_particles, highest_priority, on_particle_grid, pick_pool_glyph, ConditionKind,
    Distribution, ParticlePriority,
};
use quadboy::rendering::position_systems::{plan_dynamic_move, plan_static_placement, ColliderRecalc};
use quadboy::rendering::render_layer::{GlyphTextureId, Layer, RenderTargetType};
use quadboy::rendering::text::{text_segments, TextSegment};

#[test]
fn layers_in_drawing_order() {
    let all = Layer::get_all();
    assert_eq!(all.len(), Layer::COUNT);
    for (i, layer) in all.iter().enumerate() {
        assert_eq!(layer.as_index(), i);
    }
    assert_eq!(Layer::Particles.get_target_type(), RenderTargetType::World);
    assert_eq!(Layer::UiPanels.get_target_type(), RenderTargetType::Screen);
    assert_eq!(Layer::default(), Layer::Objects);
    assert_eq!(GlyphTextureId::Bitmasks.get_texture_idx(), 3);
    assert_eq!(GlyphTextureId::default().get_texture_idx(), 0);
}

#[test]
fn dormant_glyphs_use_shroud_colors() {
    let c = glyph_style_colors(true, Some(1), Some(2), Some(3), None, Some(9));
    assert_eq!(
        c,
        StyleColors {
            fg1: Some(SHROUD_FG_COLOR),
            fg2: Some(SHROUD_FG_COLOR),
            bg: Some(SHROUD_BG_COLOR),
            outline: None,
        }
    );
    let c = glyph_style_colors(true, None, None, None, Some(4), None);
    assert_eq!(c.outline, Some(SHROUD_OUTLINE_COLOR));
    assert_eq!(c.bg, None);
}

#[test]
fn outline_override_wins() {
    let c = glyph_style_colors(false, Some(1), None, Some(3), Some(4), Some(5));
    assert_eq!(c, StyleColors { fg1: Some(1), fg2: None, bg: Some(3), outline: Some(5) });
    let c = glyph_style_colors(false, Some(1), None, Some(3), Some(4), None);
    assert_eq!(c.outline, Some(4));
}

#[test]
fn world_glyph_visibility_rules() {
    assert_eq!(world_glyph_visibility(false, true, false, true), WorldGlyphVisibility::Hidden);
    assert_eq!(world_glyph_visibility(true, false, true, false), WorldGlyphVisibility::Hidden);
    assert_eq!(
        world_glyph_visibility(false, true, true, false),
        WorldGlyphVisibility::Drawn { shrouded: true }
    );
    assert_eq!(
        world_glyph_visibility(true, true, true, true),
        WorldGlyphVisibility::Drawn { shrouded: false }
    );
    assert_eq!(
        world_glyph_visibility(false, false, false, false),
        WorldGlyphVisibility::Drawn { shrouded: false }
    );
}

#[test]
fn dialog_dimming_and_view() {
    assert!(dims_for_dialog(true, Layer::Actors));
    assert!(!dims_for_dialog(true, Layer::DialogContent));
    assert!(!dims_for_dialog(false, Layer::Actors));
    assert!(glyph_in_view(false, false, Layer::Actors, 1, 1));
    assert!(!glyph_in_view(false, false, Layer::Actors, 0, 1));
    assert!(glyph_in_view(false, false, Layer::Ui, 0, 1));
    assert!(!glyph_in_view(true, false, Layer::Ui, 0, 0));
    assert!(!glyph_in_view(false, true, Layer::Ui, 0, 0));
    assert!(on_zone_status_change(ZoneStatus::Dormant));
    assert!(!on_zone_status_change(ZoneStatus::Active));
}

#[test]
fn frame_animation_steps() {
    assert_eq!(advance_frame(0, 3, true), (1, true));
    assert_eq!(advance_frame(2, 3, true), (0, true));
    assert_eq!(advance_frame(2, 3, false), (2, false));
    assert_eq!(advance_frame(0, 1, false), (0, false));
}

#[test]
fn light_cells_and_colors() {
    assert_eq!(light_cell(0, 0), Some((0, 0)));
    assert_eq!(light_cell(79, 39), Some((79, 39)));
    assert_eq!(light_cell(80, 0), None);
    assert_eq!(light_cell(0, 40), None);
    assert_eq!(light_cell(-1, 5), None);
    assert_eq!(unpack_rgb(0x1A131A), (0x1A, 0x13, 0x1A));
    assert_eq!(unpack_rgb(0xFF00FF00), (0x00, 0xFF, 0x00));
}

#[test]
fn highest_priority_takes_last_of_equals() {
    assert_eq!(highest_priority(&vec![]), None);
    assert_eq!(highest_priority(&vec![3, 9, 1, 9, 2]), Some(3));
    assert_eq!(highest_priority(&vec![5]), Some(0));
    assert!(ParticlePriority::Smoke.rank() < ParticlePriority::Impact.rank());
    assert!(ParticlePriority::Impact.rank() < ParticlePriority::Bullet.rank());
    assert!(on_particle_grid(79, 39));
    assert!(!on_particle_grid(80, 0));
}

#[test]
fn pool_glyph_comes_from_pool() {
    assert_eq!(pick_pool_glyph(&vec![]), '*');
    let pool = vec!['a', 'b', 'c'];
    for _ in 0..20 {
        assert!(pool.contains(&pick_pool_glyph(&pool)));
    }
}

#[test]
fn moving_within_a_zone_recalculates_both_tiles() {
    let plan = plan_dynamic_move(4, 4, true, true, ZoneStatus::Active, (3, 4), Some((2, 4)), true);
    assert!(!plan.remove_from_old_zone);
    assert!(plan.place_in_new_zone && plan.insert_collider && plan.mark_active);
    assert_eq!(
        plan.recalcs,
        vec![
            ColliderRecalc { zone_idx: 4, x: 2, y: 4 },
            ColliderRecalc { zone_idx: 4, x: 3, y: 4 }
        ]
    );
}

#[test]
fn moving_between_zones() {
    let plan = plan_dynamic_move(5, 4, true, true, ZoneStatus::Dormant, (0, 1), Some((2, 4)), false);
    assert!(plan.remove_from_old_zone);
    assert!(!plan.insert_collider && !plan.mark_active);
    assert_eq!(plan.recalcs, vec![ColliderRecalc { zone_idx: 5, x: 0, y: 1 }]);
    let plan = plan_dynamic_move(5, 4, false, false, ZoneStatus::Active, (0, 1), None, true);
    assert!(!plan.remove_from_old_zone && !plan.place_in_new_zone);
    assert!(plan.recalcs.is_empty());
}

#[test]
fn static_placement() {
    let plan = plan_static_placement(7, true, ZoneStatus::Active, (1, 2), true);
    assert_eq!(plan.recalcs, vec![ColliderRecalc { zone_idx: 7, x: 1, y: 2 }]);
    let plan = plan_static_placement(7, true, ZoneStatus::Active, (1, 2), false);
    assert!(plan.recalcs.is_empty() && plan.place_in_new_zone);
    let plan = plan_static_placement(7, false, ZoneStatus::Active, (1, 2), true);
    assert!(!plan.place_in_new_zone && plan.recalcs.is_empty());
}

#[test]
fn text_segments_of_markup() {
    let segs = text_segments("a{R-G|bc}d");
    assert_eq!(segs.len(), 3);
    assert!(matches!(segs[0], TextSegment::Glyph('a')));
    match &segs[1] {
        TextSegment::Styled { setting, value } => {
            assert_eq!(setting, "R-G");
            assert_eq!(value, "bc");
        }
        _ => panic!("expected a styled segment"),
    }
    assert!(matches!(segs[2], TextSegment::Glyph('d')));
}

#[test]
fn text_segments_drop_unclosed_sequence() {
    let segs = text_segments("x{R|yz");
    assert_eq!(segs.len(), 1);
    assert!(matches!(segs[0], TextSegment::Glyph('x')));
    let segs = text_segments("}|");
    assert_eq!(segs.len(), 2);
}

#[test]
fn conditions_with_and_without_particles() {
    let poison = condition_particles(ConditionKind::Poisoned).unwrap();
    assert_eq!(poison.priority, 140);
    assert_eq!(poison.glyphs, vec!['·', '•', '◦', '○']);
    assert!(poison.random_glyphs);
    assert_eq!(poison.colors, vec![0x06DD06, 0x074D43]);
    assert!(poison.background.is_none());
    assert_eq!(poison.distribution, Distribution::Uniform);
    let fire = condition_particles(ConditionKind::Burning).unwrap();
    assert_eq!(fire.priority, 145);
    assert_eq!(fire.background, Some(vec![0xFF1100, 0xFFD000]));
    assert_eq!(fire.distribution, Distribution::Gaussian);
    let blood = condition_particles(ConditionKind::Bleeding).unwrap();
    assert_eq!(blood.priority, 150);
    assert_eq!(blood.glyphs, vec!['•', '☻']);
    assert!(!blood.random_glyphs);
    assert!(condition_particles(ConditionKind::Feared).is_none());
    assert!(condition_particles(ConditionKind::Taunted).is_none());
    assert!(condition_particles(ConditionKind::Confused).is_none());
}
