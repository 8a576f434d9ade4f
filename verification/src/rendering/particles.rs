use vstd::prelude::*;

use crate::rendering::projection::{world_to_zone_idx, world_zone_index};

verus! {

/// Shape of a value's change over a particle's life; each keyed curve goes
/// through its values in order.
#[derive(Clone, Debug)]
pub enum AnimationCurve<T> {
    Constant(T),
    Linear { values: Vec<T> },
    EaseOut { values: Vec<T> },
}

/// How spawn positions spread over a spawn area.
#[derive(Clone, Copy, Debug, PartialEq, Eq, Structural)]
pub enum Distribution {
    /// Even spread throughout the area.
    Uniform,
    /// Only on the perimeter.
    EdgeOnly,
    /// Clustered toward the center.
    Gaussian,
}

/// How spawn positions spread along a line.
#[derive(Clone, Copy, Debug, PartialEq, Eq, Structural)]
pub enum SpawnSpacing {
    /// Even spacing along the line.
    Uniform,
    /// Random positions along the line.
    Random,
    /// A given number of evenly spaced points.
    Count(u32),
}

/// Index of the element with the highest priority; among equal highest
/// priorities the last one wins, as `Iterator::max_by_key` picks.
pub open spec fn is_highest_priority(priorities: Seq<u8>, k: int) -> bool {
    &&& 0 <= k < priorities.len()
    &&& forall|j: int| 0 <= j < k ==> #[trigger] priorities[j] <= priorities[k]
    &&& forall|j: int| k < j < priorities.len() ==> #[trigger] priorities[j] < priorities[k]
}

/// Picks the fragment drawn in a cell from the priorities of the fragments
/// stacked there.
pub fn highest_priority(priorities: &Vec<u8>) -> (k: Option<usize>)
    ensures
        priorities@.len() == 0 <==> k is None,
        k matches Some(i) ==> is_highest_priority(priorities@, i as int),
{
    if priorities.len() == 0 {
        return None;
    }
    let mut best: usize = 0;
    let mut i: usize = 1;
    while i < priorities.len()
        invariant
            1 <= i <= priorities@.len(),
            best < i,
            forall|j: int| 0 <= j < best ==> #[trigger] priorities@[j] <= priorities@[best as int],
            forall|j: int| best < j < i ==> #[trigger] priorities@[j] < priorities@[best as int],
        decreases priorities@.len() - i,
    {
        if priorities[i] >= priorities[best] {
            best = i;
        }
        i = i + 1;
    }
    Some(best)
}

/// Draw order of grid particles: smoke under impacts under bullets.
#[derive(Clone, Copy, Debug, PartialEq, Eq, Structural)]
pub enum ParticlePriority {
    Smoke,
    Impact,
    Bullet,
}

impl ParticlePriority {
    pub open spec fn rank_spec(self) -> u8 {
        match self {
            ParticlePriority::Smoke => 10,
            ParticlePriority::Impact => 90,
            ParticlePriority::Bullet => 100,
        }
    }

    /// The number that orders priorities.
    pub fn rank(&self) -> (r: u8)
        ensures
            r == self.rank_spec(),
    {
        match self {
            ParticlePriority::Smoke => 10,
            ParticlePriority::Impact => 90,
            ParticlePriority::Bullet => 100,
        }
    }
}

/// Width of the particle grid of one level, in tiles.
pub const PARTICLE_GRID_WIDTH: usize = 80;

/// Height of the particle grid of one level, in tiles.
pub const PARTICLE_GRID_HEIGHT: usize = 40;

/// Whether a tile lies on the particle grid; particles elsewhere are dropped.
pub fn on_particle_grid(x: usize, y: usize) -> (b: bool)
    ensures
        b == (x < PARTICLE_GRID_WIDTH && y < PARTICLE_GRID_HEIGHT),
{
    x < PARTICLE_GRID_WIDTH && y < PARTICLE_GRID_HEIGHT
}

/// One particle's contribution to a cell of the fragment grid; the alpha is
/// the caller's value, carried through unread.
pub struct Fragment<A> {
    pub priority: u8,
    pub glyph_idx: usize,
    pub fg1: Option<u32>,
    pub bg: Option<u32>,
    pub alpha: A,
}

/// The priorities of a cell's fragments, in the order they were pushed.
pub open spec fn fragment_priorities<A>(cell: Seq<Fragment<A>>) -> Seq<u8> {
    cell.map_values(|f: Fragment<A>| f.priority)
}

/// Width of the fragment grid: twice a zone's width.
pub const FRAGMENT_GRID_WIDTH: usize = 160;

/// Height of the fragment grid: twice a zone's height.
pub const FRAGMENT_GRID_HEIGHT: usize = 80;

/// Whether `(x, y)` is a cell of the fragment grid.
pub open spec fn on_fragment_grid(x: int, y: int) -> bool {
    0 <= x < FRAGMENT_GRID_WIDTH && 0 <= y < FRAGMENT_GRID_HEIGHT
}

/// Position of cell `(x, y)` in the row-major cell list.
pub open spec fn fragment_cell_index(x: int, y: int) -> int {
    y * FRAGMENT_GRID_WIDTH + x
}

/// The fragments that live particles leave on the screen this frame, stacked
/// per cell; the one with the highest priority is drawn.
pub struct ParticleGrid<A> {
    cells: Vec<Vec<Fragment<A>>>,
}

impl<A> ParticleGrid<A> {
    #[verifier::type_invariant]
    closed spec fn inv(&self) -> bool {
        self.cells@.len() == FRAGMENT_GRID_WIDTH * FRAGMENT_GRID_HEIGHT
    }

    /// The fragments stacked on cell `(x, y)`, oldest first; none off the grid.
    pub closed spec fn cell(&self, x: int, y: int) -> Seq<Fragment<A>> {
        if on_fragment_grid(x, y) {
            self.cells@[fragment_cell_index(x, y)]@
        } else {
            Seq::empty()
        }
    }

    /// The fragment drawn on `(x, y)`: the one with the highest priority, the
    /// last pushed among equals; `None` off the grid or on an empty cell.
    pub fn get(&self, x: usize, y: usize) -> (r: Option<&Fragment<A>>)
        ensures
            r is None <==> self.cell(x as int, y as int).len() == 0,
            r matches Some(f) ==> exists|k: int|
                #[trigger] is_highest_priority(fragment_priorities(self.cell(x as int, y as int)), k)
                    && self.cell(x as int, y as int)[k] == *f,
    {
        proof {
            use_type_invariant(self);
        }
        if x >= FRAGMENT_GRID_WIDTH || y >= FRAGMENT_GRID_HEIGHT {
            return None;
        }
        let cell = &self.cells[y * FRAGMENT_GRID_WIDTH + x];
        match highest_fragment(cell) {
            None => None,
            Some(k) => {
                assert(is_highest_priority(fragment_priorities(cell@), k as int));
                Some(&cell[k])
            },
        }
    }

    /// Empties every cell.
    pub fn clear(&mut self)
        ensures
            forall|x: int, y: int| #[trigger] final(self).cell(x, y).len() == 0,
    {
        proof {
            use_type_invariant(&*self);
        }
        let n = self.cells.len();
        let mut i: usize = 0;
        while i < n
            invariant
                n == FRAGMENT_GRID_WIDTH * FRAGMENT_GRID_HEIGHT,
                self.cells@.len() == n,
                i <= n,
                forall|j: int| 0 <= j < i ==> (#[trigger] self.cells@[j])@.len() == 0,
            decreases n - i,
        {
            self.cells[i].clear();
            i = i + 1;
        }
        assert forall|x: int, y: int| #[trigger] self.cell(x, y).len() == 0 by {
            if on_fragment_grid(x, y) {
                assert(0 <= fragment_cell_index(x, y) < n);
            }
        }
    }

    /// Adds a fragment on top of cell `(x, y)`; off the grid nothing changes.
    pub fn push(&mut self, x: usize, y: usize, fragment: Fragment<A>)
        ensures
            on_fragment_grid(x as int, y as int) ==> final(self).cell(x as int, y as int)
                == old(self).cell(x as int, y as int).push(fragment),
            forall|x2: int, y2: int|
                (x2 != x || y2 != y || !on_fragment_grid(x as int, y as int)) ==> #[trigger] final(self).cell(x2, y2)
                    == old(self).cell(x2, y2),
    {
        proof {
            use_type_invariant(&*self);
        }
        if x >= FRAGMENT_GRID_WIDTH || y >= FRAGMENT_GRID_HEIGHT {
            return;
        }
        let i = y * FRAGMENT_GRID_WIDTH + x;
        self.cells[i].push(fragment);
        assert forall|x2: int, y2: int|
            (x2 != x || y2 != y) implies #[trigger] self.cell(x2, y2)
                == old(self).cell(x2, y2) by {
            if on_fragment_grid(x2, y2) {
                assert(fragment_cell_index(x2, y2) != i);
            }
        }
    }
}

impl<A> Default for ParticleGrid<A> {
    /// A grid with every cell empty.
    fn default() -> (g: Self)
        ensures
            forall|x: int, y: int| #[trigger] g.cell(x, y).len() == 0,
    {
        let n = FRAGMENT_GRID_WIDTH * FRAGMENT_GRID_HEIGHT;
        let mut cells: Vec<Vec<Fragment<A>>> = Vec::new();
        let mut i: usize = 0;
        while i < n
            invariant
                n == FRAGMENT_GRID_WIDTH * FRAGMENT_GRID_HEIGHT,
                cells@.len() == i,
                i <= n,
                forall|j: int| 0 <= j < i ==> (#[trigger] cells@[j])@.len() == 0,
            decreases n - i,
        {
            cells.push(Vec::new());
            i = i + 1;
        }
        let g = ParticleGrid { cells };
        assert forall|x: int, y: int| #[trigger] g.cell(x, y).len() == 0 by {
            if on_fragment_grid(x, y) {
                assert(0 <= fragment_cell_index(x, y) < n);
            }
        }
        g
    }
}

/// Index of the fragment of a cell that is drawn.
fn highest_fragment<A>(cell: &Vec<Fragment<A>>) -> (k: Option<usize>)
    ensures
        cell@.len() == 0 <==> k is None,
        k matches Some(i) ==> is_highest_priority(fragment_priorities(cell@), i as int),
{
    if cell.len() == 0 {
        return None;
    }
    let ghost p = fragment_priorities(cell@);
    let mut best: usize = 0;
    let mut i: usize = 1;
    while i < cell.len()
        invariant
            p == fragment_priorities(cell@),
            p.len() == cell@.len(),
            1 <= i <= cell@.len(),
            best < i,
            forall|j: int| 0 <= j < best ==> #[trigger] p[j] <= p[best as int],
            forall|j: int| best < j < i ==> #[trigger] p[j] < p[best as int],
        decreases cell@.len() - i,
    {
        assert(p[i as int] == cell@[i as int].priority);
        assert(p[best as int] == cell@[best as int].priority);
        if cell[i].priority >= cell[best].priority {
            best = i;
        }
        i = i + 1;
    }
    Some(best)
}

/// A fragment pushed onto a cell that no fragment already there outranks is
/// the one drawn on that cell.
pub proof fn lemma_pushed_fragment_drawn<A>(cell: Seq<Fragment<A>>, fragment: Fragment<A>)
    requires
        forall|j: int| 0 <= j < cell.len() ==> #[trigger] cell[j].priority <= fragment.priority,
    ensures
        is_highest_priority(fragment_priorities(cell.push(fragment)), cell.len() as int),
{
    let p = fragment_priorities(cell.push(fragment));
    assert forall|j: int| 0 <= j < cell.len() implies #[trigger] p[j] <= p[cell.len() as int] by {
        assert(cell.push(fragment)[j] == cell[j]);
    }
}

/// Calls `macroquad::rand::gen_range(0, len)`, quad-rand's generator: for
/// `usize` it scales a 32-bit draw `r` below 2^32 to `len * r / 2^32` and
/// truncates, which stays below `len` for every nonzero `len`. Which index
/// comes out depends on the generator's state and is not stated.
#[verifier::external_body]
fn random_index(len: usize) -> (i: usize)
    requires
        0 < len,
    ensures
        i < len,
{
    macroquad::rand::gen_range(0, len)
}

/// The glyph a particle with a random pool of glyphs shows next: one of the
/// pool, or `*` when the pool is empty.
pub fn pick_pool_glyph(glyphs: &Vec<char>) -> (c: char)
    ensures
        glyphs@.len() == 0 ==> c == '*',
        glyphs@.len() > 0 ==> glyphs@.contains(c),
{
    if glyphs.len() == 0 {
        return '*';
    }
    let index = random_index(glyphs.len());
    let c = glyphs[index];
    assert(glyphs@[index as int] == c);
    c
}

/// A status condition, as far as its particle effect goes.
#[derive(Clone, Copy, Debug, PartialEq, Eq, Structural)]
pub enum ConditionKind {
    Poisoned,
    Burning,
    Bleeding,
    Feared,
    Taunted,
    Confused,
}

/// The plain part of a condition's particle effect: draw priority, the
/// glyphs shown (a random pool, or a sequence played once over the
/// particle's life), the colors the glyph and background go through, and how
/// spawn points spread around the bearer.
pub struct ConditionParticles {
    pub priority: u8,
    pub glyphs: Vec<char>,
    pub random_glyphs: bool,
    pub colors: Vec<u32>,
    pub background: Option<Vec<u32>>,
    pub distribution: Distribution,
}

/// The particle effect of a condition; the behavioral conditions (feared,
/// taunted, confused) have none.
pub fn condition_particles(kind: ConditionKind) -> (r: Option<ConditionParticles>)
    ensures
        r is None <==> (kind == ConditionKind::Feared || kind == ConditionKind::Taunted || kind
            == ConditionKind::Confused),
        kind == ConditionKind::Poisoned ==> (r matches Some(c) && c.priority == 140 && c.glyphs@
            == seq!['·', '•', '◦', '○'] && c.random_glyphs && c.colors@ == seq![0x06DD06u32, 0x074D43u32]
            && c.background is None && c.distribution == Distribution::Uniform),
        kind == ConditionKind::Burning ==> (r matches Some(c) && c.priority == 145 && c.glyphs@
            == seq!['*', '✦', '●', '○'] && c.random_glyphs && c.colors@ == seq![0xFF1100u32, 0xFFD000u32]
            && (c.background matches Some(b) && b@ == seq![0xFF1100u32, 0xFFD000u32])
            && c.distribution == Distribution::Gaussian),
        kind == ConditionKind::Bleeding ==> (r matches Some(c) && c.priority == 150 && c.glyphs@
            == seq!['•', '☻'] && !c.random_glyphs && c.colors@ == seq![0xC43131u32, 0x880000u32]
            && c.background is None && c.distribution == Distribution::Gaussian),
{
    match kind {
        ConditionKind::Poisoned => Some(
            ConditionParticles {
                priority: 140,
                glyphs: vec!['·', '•', '◦', '○'],
                random_glyphs: true,
                colors: vec![0x06DD06, 0x074D43],
                background: None,
                distribution: Distribution::Uniform,
            },
        ),
        ConditionKind::Burning => Some(
            ConditionParticles {
                priority: 145,
                glyphs: vec!['*', '✦', '●', '○'],
                random_glyphs: true,
                colors: vec![0xFF1100, 0xFFD000],
                background: Some(vec![0xFF1100, 0xFFD000]),
                distribution: Distribution::Gaussian,
            },
        ),
        ConditionKind::Bleeding => Some(
            ConditionParticles {
                priority: 150,
                glyphs: vec!['•', '☻'],
                random_glyphs: false,
                colors: vec![0xC43131, 0x880000],
                background: None,
                distribution: Distribution::Gaussian,
            },
        ),
        ConditionKind::Feared | ConditionKind::Taunted | ConditionKind::Confused => None,
    }
}

/// Whether an effect at world tile `pos` is spawned: always when there is
/// no player, otherwise only inside the player's zone.
pub fn effect_in_active_zone(pos: (usize, usize, usize), player_zone: Option<usize>) -> (b: bool)
    requires
        player_zone is Some ==> world_zone_index(pos.0 as int, pos.1 as int, pos.2 as int) <= usize::MAX,
    ensures
        b == match player_zone {
            None => true,
            Some(z) => world_zone_index(pos.0 as int, pos.1 as int, pos.2 as int) == z,
        },
{
    match player_zone {
        None => true,
        Some(z) => world_to_zone_idx(pos.0, pos.1, pos.2) == z,
    }
}

} // verus!
