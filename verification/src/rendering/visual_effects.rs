use std::collections::HashMap;

use vstd::prelude::*;
use vstd::std_specs::hash::{obeys_key_model, spec_keys_iter};
use vstd::multiset::Multiset;
use vstd::std_specs::iter::IteratorSpec;

use crate::rendering::particles::{
    is_highest_priority, ParticlePriority, PARTICLE_GRID_HEIGHT, PARTICLE_GRID_WIDTH,
};

verus! {

broadcast use vstd::std_specs::hash::group_hash_axioms;

/// What a grid particle is, with the glyphs it can show.
#[derive(Clone, Debug)]
pub enum ParticleType {
    Bullet { glyph: usize },
    Smoke { glyphs: Vec<usize> },
    Explosion { glyphs: Vec<usize> },
    /// Impact sparks.
    Spark { glyphs: Vec<usize> },
    /// Ricochets and hits.
    Impact { glyphs: Vec<usize> },
}

/// The glyph of a particle whose pool of glyphs is empty.
pub const FALLBACK_PARTICLE_GLYPH: usize = 225;

impl ParticleType {
    pub open spec fn priority_spec(&self) -> ParticlePriority {
        match self {
            ParticleType::Bullet { .. } => ParticlePriority::Bullet,
            ParticleType::Smoke { .. } => ParticlePriority::Smoke,
            _ => ParticlePriority::Impact,
        }
    }

    /// The draw priority of this kind of particle; explosions and sparks
    /// count as impacts.
    pub fn get_priority(&self) -> (p: ParticlePriority)
        ensures
            p == self.priority_spec(),
    {
        match self {
            ParticleType::Bullet { .. } => ParticlePriority::Bullet,
            ParticleType::Smoke { .. } => ParticlePriority::Smoke,
            ParticleType::Explosion { .. } => ParticlePriority::Impact,
            ParticleType::Spark { .. } => ParticlePriority::Impact,
            ParticleType::Impact { .. } => ParticlePriority::Impact,
        }
    }

    /// The pool a particle picks its glyph from; a bullet has none.
    pub open spec fn glyph_pool(&self) -> Option<Seq<usize>> {
        match self {
            ParticleType::Bullet { .. } => None,
            ParticleType::Smoke { glyphs } => Some(glyphs@),
            ParticleType::Explosion { glyphs } => Some(glyphs@),
            ParticleType::Spark { glyphs } => Some(glyphs@),
            ParticleType::Impact { glyphs } => Some(glyphs@),
        }
    }

    /// The glyph shown this frame: a bullet's own glyph; otherwise the glyph
    /// of the pool at `pick`, a random index into the pool, or the fallback
    /// glyph when the pool is empty.
    pub fn get_glyph(&self, pick: usize) -> (g: usize)
        requires
            self.glyph_pool() matches Some(pool) ==> pool.len() == 0 || pick < pool.len(),
        ensures
            self matches ParticleType::Bullet { glyph } ==> g == glyph,
            self.glyph_pool() matches Some(pool) ==> g == if pool.len() == 0 {
                FALLBACK_PARTICLE_GLYPH
            } else {
                pool[pick as int]
            },
    {
        match self {
            ParticleType::Bullet { glyph } => *glyph,
            ParticleType::Smoke { glyphs } => pool_glyph(glyphs, pick),
            ParticleType::Explosion { glyphs } => pool_glyph(glyphs, pick),
            ParticleType::Spark { glyphs } => pool_glyph(glyphs, pick),
            ParticleType::Impact { glyphs } => pool_glyph(glyphs, pick),
        }
    }
}

fn pool_glyph(glyphs: &Vec<usize>, pick: usize) -> (g: usize)
    requires
        glyphs@.len() == 0 || pick < glyphs@.len(),
    ensures
        g == if glyphs@.len() == 0 {
            FALLBACK_PARTICLE_GLYPH
        } else {
            glyphs@[pick as int]
        },
{
    if glyphs.len() == 0 {
        FALLBACK_PARTICLE_GLYPH
    } else {
        glyphs[pick]
    }
}

/// A particle on the grid: what it is, how it is drawn over others, where it
/// is, and its timing and colors, which the grid carries unread.
pub struct ParticleData<S> {
    pub particle_type: ParticleType,
    pub priority: ParticlePriority,
    pub position: (usize, usize, usize),
    pub state: S,
}

impl<S> ParticleData<S> {
    /// A particle whose priority follows from its type.
    pub fn new(particle_type: ParticleType, position: (usize, usize, usize), state: S) -> (p: Self)
        ensures
            p.particle_type == particle_type,
            p.priority == particle_type.priority_spec(),
            p.position == position,
            p.state == state,
    {
        let priority = particle_type.get_priority();
        ParticleData { particle_type, priority, position, state }
    }
}

/// Whether `(x, y)` is a cell of a level of the particle grid.
pub open spec fn in_particle_grid(x: int, y: int) -> bool {
    0 <= x < PARTICLE_GRID_WIDTH && 0 <= y < PARTICLE_GRID_HEIGHT
}

/// The draw ranks of a cell's particles, in the order they were added.
pub open spec fn particle_ranks<S>(cell: Seq<ParticleData<S>>) -> Seq<u8> {
    cell.map_values(|p: ParticleData<S>| p.priority.rank_spec())
}

/// Whether `p` is the particle drawn on a cell: the one of highest priority,
/// the last added among equals.
pub open spec fn drawn_particle<S>(cell: Seq<ParticleData<S>>, p: ParticleData<S>) -> bool {
    exists|k: int| #[trigger] is_highest_priority(particle_ranks(cell), k) && cell[k] == p
}

type Level<S> = Vec<Vec<Vec<ParticleData<S>>>>;

spec fn level_shaped<S>(level: Level<S>) -> bool {
    &&& level@.len() == PARTICLE_GRID_HEIGHT
    &&& forall|y: int| 0 <= y < PARTICLE_GRID_HEIGHT ==> (#[trigger] level@[y])@.len() == PARTICLE_GRID_WIDTH
}

/// Particles per cell, one grid of cells for each level that has had one.
pub struct ParticleGrid<S> {
    grids: HashMap<usize, Level<S>>,
}

impl<S> ParticleGrid<S> {
    #[verifier::type_invariant]
    closed spec fn inv(&self) -> bool {
        forall|z: usize| #[trigger] self.grids@.contains_key(z) ==> level_shaped(self.grids@[z])
    }

    /// The levels that have a grid.
    pub closed spec fn levels(&self) -> Set<usize> {
        self.grids@.dom()
    }

    /// The particles on cell `(x, y)` of level `z`, oldest first; none off
    /// the grid or on a level without one.
    pub closed spec fn cell(&self, x: int, y: int, z: usize) -> Seq<ParticleData<S>> {
        if self.grids@.contains_key(z) && in_particle_grid(x, y) {
            self.grids@[z]@[y]@[x]@
        } else {
            Seq::empty()
        }
    }

    /// Off the grid there are no particles.
    pub proof fn lemma_off_grid_cells_empty(&self, x: int, y: int, z: usize)
        requires
            !in_particle_grid(x, y),
        ensures
            self.cell(x, y, z).len() == 0,
    {
    }

    /// A grid without levels.
    pub fn new() -> (g: Self)
        ensures
            g.levels() == Set::<usize>::empty(),
            forall|x: int, y: int, z: usize| (#[trigger] g.cell(x, y, z)).len() == 0,
    {
        ParticleGrid { grids: HashMap::new() }
    }

    /// Gives level `z` a grid of empty cells if it has none.
    pub fn ensure_z_level(&mut self, z: usize)
        ensures
            final(self).levels() == old(self).levels().insert(z),
            forall|x: int, y: int, z2: usize| #[trigger] final(self).cell(x, y, z2) == old(self).cell(x, y, z2),
    {
        proof {
            use_type_invariant(&*self);
            assert(obeys_key_model::<usize>());
        }
        let mut grids: HashMap<usize, Level<S>> = HashMap::new();
        std::mem::swap(&mut self.grids, &mut grids);
        if !grids.contains_key(&z) {
            let level = empty_level();
            grids.insert(z, level);
        }
        self.grids = grids;
        assert(self.levels() =~= old(self).levels().insert(z));
        assert forall|x: int, y: int, z2: usize| #[trigger] self.cell(x, y, z2) == old(self).cell(x, y, z2) by {
            if z2 == z && in_particle_grid(x, y) && !old(self).grids@.contains_key(z) {
                assert(self.cell(x, y, z2) =~= Seq::<ParticleData<S>>::empty());
            }
        }
    }

    /// Adds a particle to the cell at its position, giving its level a grid
    /// if needed; a particle off the grid is dropped.
    pub fn add_particle(&mut self, particle: ParticleData<S>)
        ensures
            in_particle_grid(particle.position.0 as int, particle.position.1 as int) ==> final(self).levels()
                == old(self).levels().insert(particle.position.2),
            !in_particle_grid(particle.position.0 as int, particle.position.1 as int) ==> final(self).levels()
                == old(self).levels(),
            in_particle_grid(particle.position.0 as int, particle.position.1 as int) ==> final(self).cell(
                particle.position.0 as int,
                particle.position.1 as int,
                particle.position.2,
            ) == old(self).cell(
                particle.position.0 as int,
                particle.position.1 as int,
                particle.position.2,
            ).push(particle),
            forall|x: int, y: int, z: usize|
                !in_particle_grid(particle.position.0 as int, particle.position.1 as int) || x != particle.position.0
                    || y != particle.position.1 || z != particle.position.2
                    ==> #[trigger] final(self).cell(x, y, z) == old(self).cell(x, y, z),
            particle_added(*old(self), *final(self), particle),
    {
        let (x, y, z) = particle.position;
        if x >= PARTICLE_GRID_WIDTH || y >= PARTICLE_GRID_HEIGHT {
            return;
        }
        self.ensure_z_level(z);
        proof {
            use_type_invariant(&*self);
            assert(obeys_key_model::<usize>());
        }
        let ghost mid = self.grids@;
        let ghost mid_self = *self;
        assert(mid.contains_key(z));
        assert(forall|x2: int, y2: int, z2: usize| #[trigger] mid_self.cell(x2, y2, z2) == old(self).cell(x2, y2, z2));
        let mut grids: HashMap<usize, Level<S>> = HashMap::new();
        std::mem::swap(&mut self.grids, &mut grids);
        match grids.remove(&z) {
            Some(mut level) => {
                assert(level == mid[z]);
                let ghost before = level;
                level[y][x].push(particle);
                assert(level@[y as int]@[x as int]@ == before@[y as int]@[x as int]@.push(particle));
                assert(forall|y2: int| 0 <= y2 < before@.len() && y2 != y ==> level@[y2] == before@[y2]);
                assert(forall|x2: int| 0 <= x2 < before@[y as int]@.len() && x2 != x ==> level@[y as int]@[x2] == before@[y as int]@[x2]);
                assert(level_shaped(level));
                grids.insert(z, level);
                assert(grids@ =~= mid.insert(z, level));
            },
            None => {},
        }
        self.grids = grids;
        assert(self.levels() =~= old(self).levels().insert(z));
        assert(self.cell(x as int, y as int, z) == mid_self.cell(x as int, y as int, z).push(particle));
        assert forall|x2: int, y2: int, z2: usize|
            x2 != x || y2 != y || z2 != z implies #[trigger] self.cell(x2, y2, z2)
                == old(self).cell(x2, y2, z2) by {
            assert(mid_self.cell(x2, y2, z2) == old(self).cell(x2, y2, z2));
            if z2 == z && in_particle_grid(x2, y2) {
                if y2 != y {
                    assert(self.grids@[z]@[y2] == mid[z]@[y2]);
                } else {
                    assert(self.grids@[z]@[y2]@[x2] == mid[z]@[y2]@[x2]);
                }
            } else if z2 != z {
                assert(self.grids@.contains_key(z2) == mid.contains_key(z2));
            }
        }
        assert(particle_added(*old(self), *self, particle));
    }

    /// Empties every cell of every level; the levels stay.
    pub fn clear_all(&mut self)
        ensures
            final(self).levels() == old(self).levels(),
            forall|x: int, y: int, z: usize| (#[trigger] final(self).cell(x, y, z)).len() == 0,
    {
        proof {
            assert(obeys_key_model::<usize>());
        }
        let zs = level_keys(&self.grids);
        let mut fresh: HashMap<usize, Level<S>> = HashMap::new();
        let mut i: usize = 0;
        while i < zs.len()
            invariant
                i <= zs@.len(),
                obeys_key_model::<usize>(),
                fresh@.dom() == zs@.take(i as int).to_set(),
                forall|z: usize| #[trigger] fresh@.contains_key(z) ==> level_shaped(fresh@[z]),
                forall|z: usize, x: int, y: int|
                    fresh@.contains_key(z) && in_particle_grid(x, y) ==> (#[trigger] fresh@[z]@[y]@[x])@.len() == 0,
            decreases zs@.len() - i,
        {
            let level = empty_level();
            fresh.insert(zs[i], level);
            assert(zs@.take(i + 1) =~= zs@.take(i as int).push(zs@[i as int]));
            proof {
                zs@.take(i as int).lemma_push_to_set_commute(zs@[i as int]);
            }
            assert(fresh@.dom() =~= zs@.take(i + 1).to_set());
            i = i + 1;
        }
        assert(zs@.take(zs@.len() as int) =~= zs@);
        self.grids = fresh;
    }

    /// The particle drawn on cell `(x, y)` of level `z`; `None` off the grid
    /// or on an empty cell.
    pub fn get_highest_priority_particle(&self, x: usize, y: usize, z: usize) -> (r: Option<&ParticleData<S>>)
        ensures
            r is None <==> self.cell(x as int, y as int, z).len() == 0,
            !in_particle_grid(x as int, y as int) ==> r is None,
            r matches Some(p) ==> drawn_particle(self.cell(x as int, y as int, z), *p),
    {
        proof {
            use_type_invariant(self);
            assert(obeys_key_model::<usize>());
        }
        if x >= PARTICLE_GRID_WIDTH || y >= PARTICLE_GRID_HEIGHT {
            return None;
        }
        match self.grids.get(&z) {
            Some(level) => {
                let particles = &level[y][x];
                highest_particle(particles)
            },
            None => None,
        }
    }

    /// For each non-empty cell of level `z`, row by row, its position and the
    /// particle drawn there.
    pub fn iter_positions(&self, z: usize) -> (r: Vec<(usize, usize, &ParticleData<S>)>)
        ensures
            forall|i: int| 0 <= i < r@.len() ==> {
                let (x, y, p) = #[trigger] r@[i];
                &&& in_particle_grid(x as int, y as int)
                &&& drawn_particle(self.cell(x as int, y as int, z), *p)
            },
            forall|i: int, j: int| 0 <= i < j < r@.len() ==> row_major(r@[i].0, r@[i].1) < row_major(r@[j].0, r@[j].1),
            forall|x: int, y: int| in_particle_grid(x, y) && self.cell(x, y, z).len() > 0 ==> exists|i: int|
                0 <= i < r@.len() && (#[trigger] r@[i]).0 == x && r@[i].1 == y,
    {
        proof {
            use_type_invariant(self);
            assert(obeys_key_model::<usize>());
        }
        let mut out: Vec<(usize, usize, &ParticleData<S>)> = Vec::new();
        match self.grids.get(&z) {
            None => {},
            Some(level) => {
                let mut y: usize = 0;
                while y < PARTICLE_GRID_HEIGHT
                    invariant
                        self.grids@.contains_key(z),
                        *level == self.grids@[z],
                        level_shaped(*level),
                        y <= PARTICLE_GRID_HEIGHT,
                        forall|i: int| 0 <= i < out@.len() ==> {
                            let (px, py, p) = #[trigger] out@[i];
                            &&& in_particle_grid(px as int, py as int)
                            &&& py < y
                            &&& drawn_particle(self.cell(px as int, py as int, z), *p)
                        },
                        forall|i: int, j: int| 0 <= i < j < out@.len() ==> row_major(out@[i].0, out@[i].1) < row_major(out@[j].0, out@[j].1),
                        forall|cx: int, cy: int| in_particle_grid(cx, cy) && cy < y && self.cell(cx, cy, z).len() > 0 ==> exists|i: int|
                            0 <= i < out@.len() && (#[trigger] out@[i]).0 == cx && out@[i].1 == cy,
                    decreases PARTICLE_GRID_HEIGHT - y,
                {
                    let row = &level[y];
                    let mut x: usize = 0;
                    while x < PARTICLE_GRID_WIDTH
                        invariant
                            self.grids@.contains_key(z),
                            *level == self.grids@[z],
                            level_shaped(*level),
                            y < PARTICLE_GRID_HEIGHT,
                            *row == level@[y as int],
                            x <= PARTICLE_GRID_WIDTH,
                            forall|i: int| 0 <= i < out@.len() ==> {
                                let (px, py, p) = #[trigger] out@[i];
                                &&& in_particle_grid(px as int, py as int)
                                &&& (py < y || (py == y && px < x))
                                &&& drawn_particle(self.cell(px as int, py as int, z), *p)
                            },
                            forall|i: int, j: int| 0 <= i < j < out@.len() ==> row_major(out@[i].0, out@[i].1) < row_major(out@[j].0, out@[j].1),
                            forall|cx: int, cy: int|
                                in_particle_grid(cx, cy) && (cy < y || (cy == y && cx < x)) && self.cell(cx, cy, z).len() > 0
                                    ==> exists|i: int| 0 <= i < out@.len() && (#[trigger] out@[i]).0 == cx && out@[i].1 == cy,
                        decreases PARTICLE_GRID_WIDTH - x,
                    {
                        let particles = &row[x];
                        match highest_particle(particles) {
                            Some(p) => {
                                let ghost before = out@;
                                out.push((x, y, p));
                                assert forall|i: int, j: int| 0 <= i < j < out@.len() implies row_major(out@[i].0, out@[i].1) < row_major(out@[j].0, out@[j].1) by {
                                    if j == out@.len() - 1 {
                                        assert(out@[i] == before[i]);
                                    }
                                }
                                assert forall|cx: int, cy: int|
                                    in_particle_grid(cx, cy) && (cy < y || (cy == y && cx < x + 1)) && self.cell(cx, cy, z).len() > 0
                                        implies exists|i: int| 0 <= i < out@.len() && (#[trigger] out@[i]).0 == cx && out@[i].1 == cy by {
                                    if cy == y && cx == x {
                                        assert(out@[out@.len() - 1].0 == cx);
                                    } else {
                                        let i = choose|i: int| 0 <= i < before.len() && (#[trigger] before[i]).0 == cx && before[i].1 == cy;
                                        assert(out@[i] == before[i]);
                                    }
                                }
                            },
                            None => {},
                        }
                        x = x + 1;
                    }
                    y = y + 1;
                }
            },
        }
        out
    }
}

/// A particle added to a cell that no particle already there outranks is the
/// one drawn on that cell.
pub proof fn lemma_added_particle_drawn<S>(cell: Seq<ParticleData<S>>, particle: ParticleData<S>)
    requires
        forall|j: int| 0 <= j < cell.len() ==> #[trigger] cell[j].priority.rank_spec() <= particle.priority.rank_spec(),
    ensures
        drawn_particle(cell.push(particle), particle),
{
    let all = cell.push(particle);
    let ranks = particle_ranks(all);
    assert forall|j: int| 0 <= j < cell.len() implies #[trigger] ranks[j] <= ranks[cell.len() as int] by {
        assert(all[j] == cell[j]);
    }
    assert(is_highest_priority(ranks, cell.len() as int));
    assert(all[cell.len() as int] == particle);
}

/// Whether particle `p` is added to cell `(x, y)` of level `z`: it lies on
/// the grid there.
pub open spec fn lands_on<S>(p: ParticleData<S>, x: int, y: int, z: usize) -> bool {
    &&& in_particle_grid(p.position.0 as int, p.position.1 as int)
    &&& p.position.0 == x
    &&& p.position.1 == y
    &&& p.position.2 == z
}

/// Whether `after` is `before` with particle `p` added: `p` goes on top of
/// the cell it lands on, and every other cell stays as it was.
pub open spec fn particle_added<S>(before: ParticleGrid<S>, after: ParticleGrid<S>, p: ParticleData<S>) -> bool {
    forall|x: int, y: int, z: usize|
        #[trigger] after.cell(x, y, z) == if lands_on(p, x, y, z) {
            before.cell(x, y, z).push(p)
        } else {
            before.cell(x, y, z)
        }
}

/// A grid with every cell empty (as `new` and `clear_all` leave it), to
/// which `ps` are added in order, holds on each cell exactly the particles of
/// `ps` that land there, in the order they were added; so the particle drawn
/// there is one of them, with no priority below any of theirs, and a cell
/// that none lands on (every cell off the grid among them) is empty.
pub proof fn lemma_cells_after_additions<S>(
    gs: Seq<ParticleGrid<S>>,
    ps: Seq<ParticleData<S>>,
    x: int,
    y: int,
    z: usize,
)
    requires
        gs.len() == ps.len() + 1,
        forall|x2: int, y2: int, z2: usize| (#[trigger] gs[0].cell(x2, y2, z2)).len() == 0,
        forall|i: int| 0 <= i < ps.len() ==> particle_added(#[trigger] gs[i], gs[i + 1], ps[i]),
    ensures
        gs.last().cell(x, y, z) == ps.filter(|p: ParticleData<S>| lands_on(p, x, y, z)),
        forall|q: ParticleData<S>| #[trigger] drawn_particle(gs.last().cell(x, y, z), q) ==> {
            &&& ps.contains(q)
            &&& lands_on(q, x, y, z)
            &&& forall|i: int| 0 <= i < ps.len() && lands_on(ps[i], x, y, z)
                ==> #[trigger] ps[i].priority.rank_spec() <= q.priority.rank_spec()
        },
    decreases ps.len(),
{
    let pred = |p: ParticleData<S>| lands_on(p, x, y, z);
    let cell = gs.last().cell(x, y, z);
    if ps.len() == 0 {
        reveal(Seq::filter);
        assert(cell =~= ps.filter(pred));
    } else {
        let n = ps.len() - 1;
        lemma_cells_after_additions(gs.drop_last(), ps.drop_last(), x, y, z);
        assert(gs.drop_last().last() == gs[n]);
        assert(particle_added(gs[n], gs[n + 1], ps[n]));
        assert(gs[n + 1].cell(x, y, z) == if lands_on(ps[n], x, y, z) {
            gs[n].cell(x, y, z).push(ps[n])
        } else {
            gs[n].cell(x, y, z)
        });
        reveal(Seq::filter);
        assert(ps.drop_last().filter(pred) == gs[n].cell(x, y, z));
        assert(cell =~= ps.filter(pred));
    }
    assert forall|q: ParticleData<S>| #[trigger] drawn_particle(cell, q) implies {
        &&& ps.contains(q)
        &&& lands_on(q, x, y, z)
        &&& forall|i: int| 0 <= i < ps.len() && lands_on(ps[i], x, y, z)
            ==> #[trigger] ps[i].priority.rank_spec() <= q.priority.rank_spec()
    } by {
        broadcast use vstd::seq_lib::group_filter_ensures;
        let ranks = particle_ranks(cell);
        let k = choose|k: int| #[trigger] is_highest_priority(ranks, k) && cell[k] == q;
        assert(pred(cell[k]));
        assert(cell.contains(q));
        ps.lemma_filter_contains_rev(pred, q);
        assert forall|i: int| 0 <= i < ps.len() && lands_on(ps[i], x, y, z)
            implies #[trigger] ps[i].priority.rank_spec() <= q.priority.rank_spec() by {
            assert(cell.contains(ps[i]));
            let m = choose|m: int| 0 <= m < cell.len() && cell[m] == ps[i];
            assert(ranks[m] == cell[m].priority.rank_spec());
            assert(ranks[k] == cell[k].priority.rank_spec());
            if m < k {
                assert(ranks[m] <= ranks[k]);
            } else if m > k {
                assert(ranks[m] < ranks[k]);
            }
        }
    }
}

/// Position of cell `(x, y)` in row-by-row order.
pub open spec fn row_major(x: usize, y: usize) -> int {
    y * PARTICLE_GRID_WIDTH + x
}

/// The particle drawn on a cell, if any.
fn highest_particle<S>(cell: &Vec<ParticleData<S>>) -> (r: Option<&ParticleData<S>>)
    ensures
        r is None <==> cell@.len() == 0,
        r matches Some(p) ==> drawn_particle(cell@, *p),
{
    if cell.len() == 0 {
        return None;
    }
    let ghost ranks = particle_ranks(cell@);
    let mut best: usize = 0;
    let mut i: usize = 1;
    while i < cell.len()
        invariant
            ranks == particle_ranks(cell@),
            ranks.len() == cell@.len(),
            1 <= i <= cell@.len(),
            best < i,
            forall|j: int| 0 <= j < best ==> #[trigger] ranks[j] <= ranks[best as int],
            forall|j: int| best < j < i ==> #[trigger] ranks[j] < ranks[best as int],
        decreases cell@.len() - i,
    {
        assert(ranks[i as int] == cell@[i as int].priority.rank_spec());
        assert(ranks[best as int] == cell@[best as int].priority.rank_spec());
        if cell[i].priority.rank() >= cell[best].priority.rank() {
            best = i;
        }
        i = i + 1;
    }
    assert(is_highest_priority(ranks, best as int));
    Some(&cell[best])
}

/// A row of empty cells.
fn empty_row<S>() -> (row: Vec<Vec<ParticleData<S>>>)
    ensures
        row@.len() == PARTICLE_GRID_WIDTH,
        forall|x: int| 0 <= x < PARTICLE_GRID_WIDTH ==> (#[trigger] row@[x])@.len() == 0,
{
    let mut row: Vec<Vec<ParticleData<S>>> = Vec::new();
    let mut x: usize = 0;
    while x < PARTICLE_GRID_WIDTH
        invariant
            x <= PARTICLE_GRID_WIDTH,
            row@.len() == x,
            forall|i: int| 0 <= i < x ==> (#[trigger] row@[i])@.len() == 0,
        decreases PARTICLE_GRID_WIDTH - x,
    {
        row.push(Vec::new());
        x = x + 1;
    }
    row
}

/// A level of empty cells.
fn empty_level<S>() -> (level: Level<S>)
    ensures
        level_shaped(level),
        forall|x: int, y: int| in_particle_grid(x, y) ==> (#[trigger] level@[y]@[x])@.len() == 0,
{
    let mut level: Level<S> = Vec::new();
    let mut y: usize = 0;
    while y < PARTICLE_GRID_HEIGHT
        invariant
            y <= PARTICLE_GRID_HEIGHT,
            level@.len() == y,
            forall|i: int| 0 <= i < y ==> (#[trigger] level@[i])@.len() == PARTICLE_GRID_WIDTH,
            forall|x: int, i: int| 0 <= i < y && 0 <= x < PARTICLE_GRID_WIDTH ==> (#[trigger] level@[i]@[x])@.len() == 0,
        decreases PARTICLE_GRID_HEIGHT - y,
    {
        level.push(empty_row());
        y = y + 1;
    }
    level
}

/// The levels of a grid map, each once.
fn level_keys<S>(m: &HashMap<usize, Level<S>>) -> (zs: Vec<usize>)
    ensures
        zs@.to_set() == m@.dom(),
        zs@.no_duplicates(),
{
    proof {
        assert(obeys_key_model::<usize>());
    }
    let ghost dom = m@.dom();
    let ghost all: Seq<usize> = spec_keys_iter(m).remaining().unref();
    let mut zs: Vec<usize> = Vec::new();
    for z in it: m.keys()
        invariant
            zs@.len() == it.index(),
            forall|i: int| 0 <= i < it.index() ==> zs@[i] == *it.seq()[i],
            it.seq().unref() == all,
            all.to_set() == dom,
            all.no_duplicates(),
    {
        zs.push(*z);
    }
    assert(zs@ =~= all);
    zs
}

type GridPos = (usize, usize, usize);

/// Whether some entry of `s` is at `p`.
pub open spec fn assoc_has<E>(s: Seq<(GridPos, E)>, p: GridPos) -> bool {
    exists|i: int| 0 <= i < s.len() && (#[trigger] s[i]).0 == p
}

/// Index of the entry of `s` at `p`.
pub open spec fn assoc_index<E>(s: Seq<(GridPos, E)>, p: GridPos) -> int {
    choose|i: int| 0 <= i < s.len() && (#[trigger] s[i]).0 == p
}

/// The entries of `s` as a map from position to entity.
pub open spec fn assoc_map<E>(s: Seq<(GridPos, E)>) -> Map<GridPos, E> {
    Map::new(|p: GridPos| assoc_has(s, p), |p: GridPos| s[assoc_index(s, p)].1)
}

/// No two entries of `s` share a position.
pub open spec fn positions_distinct<E>(s: Seq<(GridPos, E)>) -> bool {
    forall|i: int, j: int| 0 <= i < s.len() && 0 <= j < s.len() && i != j ==> (#[trigger] s[i]).0 != (#[trigger] s[j]).0
}

proof fn lemma_assoc_index_unique<E>(s: Seq<(GridPos, E)>, i: int)
    requires
        positions_distinct(s),
        0 <= i < s.len(),
    ensures
        assoc_has(s, s[i].0),
        assoc_index(s, s[i].0) == i,
{
    let p = s[i].0;
    assert(0 <= i < s.len() && s[i].0 == p);
    let j = assoc_index(s, p);
    assert(0 <= j < s.len() && s[j].0 == p);
}

proof fn lemma_assoc_push<E>(s: Seq<(GridPos, E)>, p: GridPos, e: E)
    requires
        positions_distinct(s),
        !assoc_has(s, p),
    ensures
        positions_distinct(s.push((p, e))),
        assoc_map(s.push((p, e))) == assoc_map(s).insert(p, e),
{
    let t = s.push((p, e));
    assert forall|i: int, j: int| 0 <= i < t.len() && 0 <= j < t.len() && i != j implies (#[trigger] t[i]).0 != (#[trigger] t[j]).0 by {
        if i == s.len() {
            assert(t[j] == s[j]);
        } else if j == s.len() {
            assert(t[i] == s[i]);
        } else {
            assert(t[i] == s[i] && t[j] == s[j]);
        }
    }
    assert forall|q: GridPos| #[trigger] assoc_has(t, q) == (assoc_has(s, q) || q == p) by {
        if assoc_has(s, q) {
            let k = assoc_index(s, q);
            assert(t[k] == s[k]);
        }
        if q == p {
            assert(t[s.len() as int].0 == p);
        }
        if assoc_has(t, q) && q != p {
            let k = assoc_index(t, q);
            assert(k != s.len());
            assert(t[k] == s[k]);
        }
    }
    assert forall|q: GridPos| assoc_has(t, q) implies #[trigger] assoc_map(t)[q] == assoc_map(s).insert(p, e)[q] by {
        if q == p {
            lemma_assoc_index_unique(t, s.len() as int);
        } else {
            let k = assoc_index(s, q);
            lemma_assoc_index_unique(s, k);
            assert(t[k] == s[k]);
            lemma_assoc_index_unique(t, k);
        }
    }
    assert(assoc_map(t) =~= assoc_map(s).insert(p, e));
}

proof fn lemma_assoc_remove<E>(s: Seq<(GridPos, E)>, i: int)
    requires
        positions_distinct(s),
        0 <= i < s.len(),
    ensures
        positions_distinct(s.remove(i)),
        assoc_map(s.remove(i)) == assoc_map(s).remove(s[i].0),
{
    let t = s.remove(i);
    let p = s[i].0;
    assert forall|a: int, b: int| 0 <= a < t.len() && 0 <= b < t.len() && a != b implies (#[trigger] t[a]).0 != (#[trigger] t[b]).0 by {
        let a2 = if a < i { a } else { a + 1 };
        let b2 = if b < i { b } else { b + 1 };
        assert(t[a] == s[a2] && t[b] == s[b2]);
    }
    assert forall|q: GridPos| #[trigger] assoc_has(t, q) == (assoc_has(s, q) && q != p) by {
        if assoc_has(t, q) {
            let k = assoc_index(t, q);
            let k2 = if k < i { k } else { k + 1 };
            assert(t[k] == s[k2]);
            assert(s[k2].0 == q);
            if q == p {
                assert(k2 != i);
            }
        }
        if assoc_has(s, q) && q != p {
            let k = assoc_index(s, q);
            assert(k != i);
            let k2 = if k < i { k } else { k - 1 };
            assert(t[k2] == s[k]);
        }
    }
    assert forall|q: GridPos| assoc_has(t, q) implies #[trigger] assoc_map(t)[q] == assoc_map(s)[q] by {
        let k = assoc_index(t, q);
        let k2 = if k < i { k } else { k + 1 };
        assert(t[k] == s[k2]);
        lemma_assoc_index_unique(s, k2);
    }
    assert(assoc_map(t) =~= assoc_map(s).remove(p));
}

/// The entities that show the particles of the grid, reused from frame to
/// frame: those showing a particle, by position, and those free for reuse.
/// The active entities are kept as (position, entity) pairs with distinct
/// positions, whose model is a map from position to entity: vstd states
/// `HashMap`'s lookups only for keys that obey its key model, which it
/// grants to integer keys but not to a triple of positions.
pub struct ParticleEntityPool<E> {
    available_entities: Vec<E>,
    active_entities: Vec<(GridPos, E)>,
}

impl<E> ParticleEntityPool<E> {
    #[verifier::type_invariant]
    closed spec fn inv(&self) -> bool {
        positions_distinct(self.active_entities@)
    }

    /// The entities free for reuse; the last is reused first.
    pub closed spec fn available(&self) -> Seq<E> {
        self.available_entities@
    }

    /// The entity showing the particle at each position.
    pub closed spec fn active(&self) -> Map<GridPos, E> {
        assoc_map(self.active_entities@)
    }

    /// The entities in use, each as often as it is used.
    pub closed spec fn active_entities(&self) -> Multiset<E> {
        self.active_entities@.map_values(|entry: (GridPos, E)| entry.1).to_multiset()
    }
}

impl<E: Copy> ParticleEntityPool<E> {
    /// A pool without entities.
    pub fn new() -> (pool: Self)
        ensures
            pool.available() == Seq::<E>::empty(),
            pool.active() == Map::<GridPos, E>::empty(),
    {
        let pool = ParticleEntityPool { available_entities: Vec::new(), active_entities: Vec::new() };
        assert(pool.active() =~= Map::<GridPos, E>::empty());
        pool
    }

    /// Index of the active entry at `position`.
    fn find_active(&self, position: GridPos) -> (r: Option<usize>)
        ensures
            r matches Some(i) ==> i < self.active_entities@.len() && self.active_entities@[i as int].0 == position,
            r is None ==> !assoc_has(self.active_entities@, position),
    {
        let mut i: usize = 0;
        while i < self.active_entities.len()
            invariant
                i <= self.active_entities@.len(),
                forall|j: int| 0 <= j < i ==> (#[trigger] self.active_entities@[j]).0 != position,
            decreases self.active_entities@.len() - i,
        {
            let p = self.active_entities[i].0;
            if p.0 == position.0 && p.1 == position.1 && p.2 == position.2 {
                return Some(i);
            }
            i = i + 1;
        }
        None
    }

    /// The entity that shows the particle at `position`: the one already
    /// there, else the last free one, else a new one from `spawn`.
    pub fn get_or_spawn_entity<F: FnOnce() -> E>(&mut self, position: GridPos, spawn: F) -> (e: E)
        requires
            call_requires(spawn, ()),
        ensures
            old(self).active().contains_key(position) ==> {
                &&& e == old(self).active()[position]
                &&& final(self).active() == old(self).active()
                &&& final(self).available() == old(self).available()
            },
            !old(self).active().contains_key(position) && old(self).available().len() > 0 ==> {
                &&& e == old(self).available().last()
                &&& final(self).available() == old(self).available().drop_last()
            },
            !old(self).active().contains_key(position) && old(self).available().len() == 0 ==> {
                &&& call_ensures(spawn, (), e)
                &&& final(self).available() == old(self).available()
            },
            !old(self).active().contains_key(position) ==> final(self).active() == old(self).active().insert(position, e),
    {
        proof {
            use_type_invariant(&*self);
        }
        match self.find_active(position) {
            Some(i) => {
                proof {
                    lemma_assoc_index_unique(self.active_entities@, i as int);
                }
                self.active_entities[i].1
            },
            None => {
                let mut available = Vec::new();
                std::mem::swap(&mut available, &mut self.available_entities);
                let e = match available.pop() {
                    Some(e) => e,
                    None => spawn(),
                };
                self.available_entities = available;
                proof {
                    lemma_assoc_push(self.active_entities@, position, e);
                }
                let mut active = Vec::new();
                std::mem::swap(&mut active, &mut self.active_entities);
                active.push((position, e));
                self.active_entities = active;
                e
            },
        }
    }

    /// Frees the entity at `position`, if any, for reuse.
    pub fn release_entity(&mut self, position: GridPos)
        ensures
            final(self).active() == old(self).active().remove(position),
            old(self).active().contains_key(position) ==> final(self).available() == old(self).available().push(
                old(self).active()[position],
            ),
            !old(self).active().contains_key(position) ==> final(self).available() == old(self).available(),
    {
        proof {
            use_type_invariant(&*self);
        }
        match self.find_active(position) {
            Some(i) => {
                proof {
                    lemma_assoc_index_unique(self.active_entities@, i as int);
                    lemma_assoc_remove(self.active_entities@, i as int);
                }
                let mut active = Vec::new();
                std::mem::swap(&mut active, &mut self.active_entities);
                let (_, e) = active.remove(i);
                self.active_entities = active;
                let mut available = Vec::new();
                std::mem::swap(&mut available, &mut self.available_entities);
                available.push(e);
                self.available_entities = available;
            },
            None => {
                assert(old(self).active().remove(position) =~= old(self).active());
            },
        }
    }

    /// Frees every entity in use.
    pub fn clear_all(&mut self)
        ensures
            final(self).active() == Map::<GridPos, E>::empty(),
            final(self).available().to_multiset() == old(self).available().to_multiset().add(old(self).active_entities()),
    {
        broadcast use vstd::seq_lib::group_to_multiset_ensures;
        let mut active = Vec::new();
        std::mem::swap(&mut active, &mut self.active_entities);
        let mut available = Vec::new();
        std::mem::swap(&mut available, &mut self.available_entities);
        let ghost entities = active@.map_values(|entry: (GridPos, E)| entry.1);
        let mut i: usize = 0;
        while i < active.len()
            invariant
                i <= active@.len(),
                entities == active@.map_values(|entry: (GridPos, E)| entry.1),
                available@ == old(self).available_entities@ + entities.take(i as int),
            decreases active@.len() - i,
        {
            available.push(active[i].1);
            assert(entities.take(i + 1) =~= entities.take(i as int).push(entities[i as int]));
            i = i + 1;
        }
        assert(entities.take(active@.len() as int) =~= entities);
        self.available_entities = available;
        proof {
            vstd::seq_lib::lemma_multiset_commutative(old(self).available_entities@, entities);
        }
        assert(self.active() =~= Map::<GridPos, E>::empty());
    }
}

} // verus!
