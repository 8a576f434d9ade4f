pub mod projection;
pub mod text;
pub mod text_wrap;
pub mod render_layer;
pub mod glyph;
pub mod particles;
pub mod animated_glyph;
pub mod lighting_data;
pub mod position_systems;
pub mod visual_effects;
pub mod styled_break;
