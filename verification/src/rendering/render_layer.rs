use vstd::prelude::*;

verus! {

/// Where a layer is drawn: into the world view or onto the screen.
#[derive(Clone, Copy, PartialEq, Eq, Debug, Structural)]
pub enum RenderTargetType {
    World,
    Screen,
}

/// The tilesets glyphs are drawn from.
#[derive(Clone, Copy, PartialEq, Eq, Default, Debug, Structural)]
pub enum GlyphTextureId {
    #[default]
    Cowboy,
    BodyFont,
    Creatures,
    Bitmasks,
}

impl GlyphTextureId {
    pub open spec fn texture_index(self) -> int {
        match self {
            GlyphTextureId::Cowboy => 0,
            GlyphTextureId::BodyFont => 1,
            GlyphTextureId::Creatures => 2,
            GlyphTextureId::Bitmasks => 3,
        }
    }

    /// Position of this tileset among the textures bound for drawing.
    pub fn get_texture_idx(&self) -> (i: usize)
        ensures
            i == self.texture_index(),
    {
        match self {
            GlyphTextureId::Cowboy => 0,
            GlyphTextureId::BodyFont => 1,
            GlyphTextureId::Creatures => 2,
            GlyphTextureId::Bitmasks => 3,
        }
    }
}

/// Drawing layers, from the ground up.
#[derive(Clone, Copy, PartialEq, Eq, Hash, Default, Debug, Structural)]
pub enum Layer {
    Terrain,
    GroundOverlay,
    #[default]
    Objects,
    Actors,
    Overlay,
    Particles,
    UiPanels,
    Ui,
    DialogPanels,
    DialogContent,
}

impl Layer {
    /// Number of layers.
    pub const COUNT: usize = 10;

    pub open spec fn index_of(self) -> int {
        match self {
            Layer::Terrain => 0,
            Layer::GroundOverlay => 1,
            Layer::Objects => 2,
            Layer::Actors => 3,
            Layer::Overlay => 4,
            Layer::Particles => 5,
            Layer::UiPanels => 6,
            Layer::Ui => 7,
            Layer::DialogPanels => 8,
            Layer::DialogContent => 9,
        }
    }

    /// The six lowest layers belong to the world, the rest to the screen.
    pub open spec fn target_of(self) -> RenderTargetType {
        if self.index_of() < 6 {
            RenderTargetType::World
        } else {
            RenderTargetType::Screen
        }
    }

    /// All layers, in drawing order.
    pub fn get_all() -> (all: Vec<Layer>)
        ensures
            all@.len() == Layer::COUNT,
            forall|i: int| 0 <= i < all@.len() ==> (#[trigger] all@[i]).index_of() == i,
    {
        vec![
            Layer::Terrain,
            Layer::GroundOverlay,
            Layer::Objects,
            Layer::Actors,
            Layer::Overlay,
            Layer::Particles,
            Layer::UiPanels,
            Layer::Ui,
            Layer::DialogPanels,
            Layer::DialogContent,
        ]
    }

    /// Position of this layer in drawing order.
    pub fn as_index(&self) -> (i: usize)
        ensures
            i == self.index_of(),
            i < Layer::COUNT,
    {
        match self {
            Layer::Terrain => 0,
            Layer::GroundOverlay => 1,
            Layer::Objects => 2,
            Layer::Actors => 3,
            Layer::Overlay => 4,
            Layer::Particles => 5,
            Layer::UiPanels => 6,
            Layer::Ui => 7,
            Layer::DialogPanels => 8,
            Layer::DialogContent => 9,
        }
    }

    /// The render target this layer is drawn into.
    pub fn get_target_type(&self) -> (t: RenderTargetType)
        ensures
            t == self.target_of(),
    {
        match self {
            Layer::Terrain => RenderTargetType::World,
            Layer::GroundOverlay => RenderTargetType::World,
            Layer::Objects => RenderTargetType::World,
            Layer::Actors => RenderTargetType::World,
            Layer::Overlay => RenderTargetType::World,
            Layer::Particles => RenderTargetType::World,
            Layer::UiPanels => RenderTargetType::Screen,
            Layer::Ui => RenderTargetType::Screen,
            Layer::DialogPanels => RenderTargetType::Screen,
            Layer::DialogContent => RenderTargetType::Screen,
        }
    }
}

/// Layer indices are distinct: a layer is identified by its index.
pub proof fn lemma_layer_index_injective(a: Layer, b: Layer)
    ensures
        a.index_of() == b.index_of() <==> a == b,
        0 <= a.index_of() < Layer::COUNT,
{
}

} // verus!
