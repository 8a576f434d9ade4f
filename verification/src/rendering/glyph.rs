use vstd::prelude::*;

use crate::rendering::render_layer::{Layer, RenderTargetType};

verus! {

/// Foreground color of a dormant (shrouded) glyph.
pub const SHROUD_FG_COLOR: u32 = 0x8F8F8F;

/// Background color of a dormant glyph that has a background.
pub const SHROUD_BG_COLOR: u32 = 0x535353;

/// Outline color of a dormant glyph that has an outline.
pub const SHROUD_OUTLINE_COLOR: u32 = 0x1F1F1F;

/// The colors a glyph is drawn with; a missing color is drawn transparent.
#[derive(Clone, Copy, Debug, PartialEq, Eq, Structural)]
pub struct StyleColors {
    pub fg1: Option<u32>,
    pub fg2: Option<u32>,
    pub bg: Option<u32>,
    pub outline: Option<u32>,
}

/// The colors of a glyph. A dormant glyph is drawn in the shroud colors,
/// keeping only whether it has a background and an outline; otherwise the
/// glyph's own colors are used, an outline override taking precedence over
/// the outline.
pub open spec fn style_colors_spec(
    is_dormant: bool,
    fg1: Option<u32>,
    fg2: Option<u32>,
    bg: Option<u32>,
    outline: Option<u32>,
    outline_override: Option<u32>,
) -> StyleColors {
    if is_dormant {
        StyleColors {
            fg1: Some(SHROUD_FG_COLOR),
            fg2: Some(SHROUD_FG_COLOR),
            bg: if bg is Some { Some(SHROUD_BG_COLOR) } else { None },
            outline: if outline is Some { Some(SHROUD_OUTLINE_COLOR) } else { None },
        }
    } else {
        StyleColors {
            fg1,
            fg2,
            bg,
            outline: if outline_override is Some { outline_override } else { outline },
        }
    }
}

/// Picks the colors a glyph is drawn with.
pub fn glyph_style_colors(
    is_dormant: bool,
    fg1: Option<u32>,
    fg2: Option<u32>,
    bg: Option<u32>,
    outline: Option<u32>,
    outline_override: Option<u32>,
) -> (c: StyleColors)
    ensures
        c == style_colors_spec(is_dormant, fg1, fg2, bg, outline, outline_override),
{
    if is_dormant {
        return StyleColors {
            fg1: Some(SHROUD_FG_COLOR),
            fg2: Some(SHROUD_FG_COLOR),
            bg: match bg {
                Some(_) => Some(SHROUD_BG_COLOR),
                None => None,
            },
            outline: match outline {
                Some(_) => Some(SHROUD_OUTLINE_COLOR),
                None => None,
            },
        };
    }
    StyleColors {
        fg1,
        fg2,
        bg,
        outline: match outline_override {
            Some(o) => Some(o),
            None => outline,
        },
    }
}

/// How a glyph on a world layer is drawn once its visibility markers are
/// known: not at all, or drawn, shrouded or not.
#[derive(Clone, Copy, Debug, PartialEq, Eq, Structural)]
pub enum WorldGlyphVisibility {
    Hidden,
    Drawn { shrouded: bool },
}

/// A glyph that hides when out of sight is not drawn while not visible; a
/// glyph subject to visibility effects is not drawn before it is explored and
/// is shrouded while explored but not visible.
pub open spec fn world_visibility_spec(
    is_visible: bool,
    is_explored: bool,
    apply_visibility_effects: bool,
    hide_when_not_visible: bool,
) -> WorldGlyphVisibility {
    if (hide_when_not_visible && !is_visible) || (apply_visibility_effects && !is_explored) {
        WorldGlyphVisibility::Hidden
    } else {
        WorldGlyphVisibility::Drawn { shrouded: apply_visibility_effects && is_explored && !is_visible }
    }
}

/// Decides whether and how a world-layer glyph is drawn.
pub fn world_glyph_visibility(
    is_visible: bool,
    is_explored: bool,
    apply_visibility_effects: bool,
    hide_when_not_visible: bool,
) -> (v: WorldGlyphVisibility)
    ensures
        v == world_visibility_spec(is_visible, is_explored, apply_visibility_effects, hide_when_not_visible),
{
    if (hide_when_not_visible && !is_visible) || (apply_visibility_effects && !is_explored) {
        WorldGlyphVisibility::Hidden
    } else {
        WorldGlyphVisibility::Drawn { shrouded: apply_visibility_effects && is_explored && !is_visible }
    }
}

/// Whether a glyph is dimmed while a dialog is open: everything but the
/// dialog's own layers.
pub fn dims_for_dialog(dialog_open: bool, layer: Layer) -> (b: bool)
    ensures
        b == (dialog_open && layer != Layer::DialogPanels && layer != Layer::DialogContent),
{
    dialog_open && layer != Layer::DialogPanels && layer != Layer::DialogContent
}

/// Whether a glyph is considered for drawing at all: it must be shown, not
/// dormant, and, on a world layer, on the player's level.
pub fn glyph_in_view(hidden: bool, is_dormant: bool, layer: Layer, glyph_level: i64, player_level: i64) -> (b: bool)
    ensures
        b == (!hidden && !is_dormant && (layer.target_of() == RenderTargetType::World ==> glyph_level
            == player_level)),
{
    if hidden {
        return false;
    }
    let is_world_layer = layer.get_target_type() == RenderTargetType::World;
    !(is_dormant || (is_world_layer && glyph_level != player_level))
}

/// Status of the zone an entity belongs to.
#[derive(Clone, Copy, Debug, PartialEq, Eq, Structural)]
pub enum ZoneStatus {
    Active,
    Dormant,
}

/// A glyph is dormant exactly when its zone is.
pub fn on_zone_status_change(status: ZoneStatus) -> (is_dormant: bool)
    ensures
        is_dormant == (status == ZoneStatus::Dormant),
{
    status == ZoneStatus::Dormant
}

/// A shrouded glyph is always an explored one that is out of sight, and a
/// visible glyph (explored, where that matters) is drawn unshrouded.
pub proof fn lemma_shroud_only_when_explored(
    is_visible: bool,
    is_explored: bool,
    apply_visibility_effects: bool,
    hide_when_not_visible: bool,
)
    ensures
        ({
            let v = world_visibility_spec(is_visible, is_explored, apply_visibility_effects, hide_when_not_visible);
            v matches WorldGlyphVisibility::Drawn { shrouded } && shrouded ==> is_explored && !is_visible
        }),
        ({
            let v = world_visibility_spec(is_visible, is_explored, apply_visibility_effects, hide_when_not_visible);
            is_visible && (apply_visibility_effects ==> is_explored) ==> (v matches WorldGlyphVisibility::Drawn { shrouded } && !shrouded)
        }),
{
}

} // verus!
