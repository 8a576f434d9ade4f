use quadboy::rendering::particles::{
    effect_in_active_zone, Fragment, ParticleGrid as FragmentGrid, ParticlePriority,
};
use quadboy::rendering::visual_effects::{
    ParticleData, ParticleEntityPool, ParticleGrid, ParticleType, FALLBACK_PARTICLE_GLYPH,
};

fn fragment(priority: u8, glyph_idx: usize, alpha: f32) -> Fragment<f32> {
    Fragment { priority, glyph_idx, fg1: Some(0xff0000), bg: None, alpha }
}

#[test]
fn fragment_grid_starts_empty() {
    let grid: FragmentGrid<f32> = FragmentGrid::default();
    assert!(grid.get(0, 0).is_none());
    assert!(grid.get(159, 79).is_none());
    assert!(grid.get(160, 0).is_none());
    assert!(grid.get(0, 80).is_none());
}

#[test]
fn fragment_grid_draws_highest_priority() {
    let mut grid: FragmentGrid<f32> = FragmentGrid::default();
    grid.push(3, 4, fragment(5, 10, 1.0));
    grid.push(3, 4, fragment(9, 11, 0.5));
    grid.push(3, 4, fragment(2, 12, 0.25));
    let drawn = grid.get(3, 4).unwrap();
    assert_eq!(drawn.glyph_idx, 11);
    assert_eq!(drawn.alpha, 0.5);
    assert!(grid.get(4, 3).is_none());
}

#[test]
fn fragment_grid_ties_go_to_the_last_pushed() {
    let mut grid: FragmentGrid<f32> = FragmentGrid::default();
    grid.push(0, 0, fragment(7, 1, 1.0));
    grid.push(0, 0, fragment(7, 2, 1.0));
    assert_eq!(grid.get(0, 0).unwrap().glyph_idx, 2);
}

#[test]
fn fragment_grid_drops_pushes_off_the_grid() {
    let mut grid: FragmentGrid<f32> = FragmentGrid::default();
    grid.push(160, 0, fragment(1, 1, 1.0));
    grid.push(0, 80, fragment(1, 1, 1.0));
    assert!(grid.get(160, 0).is_none());
    assert!(grid.get(0, 80).is_none());
    assert!(grid.get(0, 0).is_none());
}

#[test]
fn fragment_grid_clear_empties_cells() {
    let mut grid: FragmentGrid<f32> = FragmentGrid::default();
    grid.push(1, 1, fragment(1, 1, 1.0));
    grid.push(159, 79, fragment(1, 1, 1.0));
    grid.clear();
    assert!(grid.get(1, 1).is_none());
    assert!(grid.get(159, 79).is_none());
}

#[test]
fn particle_types_have_priorities() {
    assert_eq!(ParticleType::Bullet { glyph: 140 }.get_priority(), ParticlePriority::Bullet);
    assert_eq!(ParticleType::Smoke { glyphs: vec![1] }.get_priority(), ParticlePriority::Smoke);
    assert_eq!(ParticleType::Explosion { glyphs: vec![] }.get_priority(), ParticlePriority::Impact);
    assert_eq!(ParticleType::Spark { glyphs: vec![138, 139] }.get_priority(), ParticlePriority::Impact);
    assert_eq!(ParticleType::Impact { glyphs: vec![137] }.get_priority(), ParticlePriority::Impact);
}

#[test]
fn particle_glyphs_come_from_the_pool() {
    assert_eq!(ParticleType::Bullet { glyph: 140 }.get_glyph(0), 140);
    assert_eq!(ParticleType::Spark { glyphs: vec![138, 139] }.get_glyph(1), 139);
    assert_eq!(ParticleType::Smoke { glyphs: vec![] }.get_glyph(3), FALLBACK_PARTICLE_GLYPH);
    assert_eq!(FALLBACK_PARTICLE_GLYPH, 225);
}

fn particle(kind: ParticleType, position: (usize, usize, usize), tag: u32) -> ParticleData<u32> {
    ParticleData::new(kind, position, tag)
}

#[test]
fn particle_data_takes_priority_from_type() {
    let p = particle(ParticleType::Bullet { glyph: 140 }, (1, 2, 3), 9);
    assert_eq!(p.priority, ParticlePriority::Bullet);
    assert_eq!(p.position, (1, 2, 3));
    assert_eq!(p.state, 9);
}

#[test]
fn particle_grid_draws_bullets_over_smoke() {
    let mut grid: ParticleGrid<u32> = ParticleGrid::new();
    assert!(grid.get_highest_priority_particle(5, 5, 0).is_none());
    grid.add_particle(particle(ParticleType::Smoke { glyphs: vec![1] }, (5, 5, 0), 1));
    grid.add_particle(particle(ParticleType::Bullet { glyph: 140 }, (5, 5, 0), 2));
    grid.add_particle(particle(ParticleType::Impact { glyphs: vec![137] }, (5, 5, 0), 3));
    assert_eq!(grid.get_highest_priority_particle(5, 5, 0).unwrap().state, 2);
    assert!(grid.get_highest_priority_particle(5, 5, 1).is_none());
}

#[test]
fn particle_grid_drops_particles_off_the_grid() {
    let mut grid: ParticleGrid<u32> = ParticleGrid::new();
    grid.add_particle(particle(ParticleType::Bullet { glyph: 140 }, (80, 0, 0), 1));
    grid.add_particle(particle(ParticleType::Bullet { glyph: 140 }, (0, 40, 0), 1));
    assert!(grid.iter_positions(0).is_empty());
    assert!(grid.get_highest_priority_particle(80, 0, 0).is_none());
}

#[test]
fn particle_grid_lists_cells_row_by_row() {
    let mut grid: ParticleGrid<u32> = ParticleGrid::new();
    grid.add_particle(particle(ParticleType::Smoke { glyphs: vec![1] }, (7, 2, 1), 1));
    grid.add_particle(particle(ParticleType::Smoke { glyphs: vec![1] }, (3, 9, 1), 2));
    grid.add_particle(particle(ParticleType::Spark { glyphs: vec![1] }, (70, 2, 1), 3));
    grid.add_particle(particle(ParticleType::Smoke { glyphs: vec![1] }, (70, 2, 1), 4));
    grid.add_particle(particle(ParticleType::Smoke { glyphs: vec![1] }, (1, 1, 2), 5));
    let cells: Vec<(usize, usize, u32)> =
        grid.iter_positions(1).into_iter().map(|(x, y, p)| (x, y, p.state)).collect();
    assert_eq!(cells, vec![(7, 2, 1), (70, 2, 3), (3, 9, 2)]);
    assert!(grid.iter_positions(3).is_empty());
}

#[test]
fn particle_grid_clear_keeps_levels_empty() {
    let mut grid: ParticleGrid<u32> = ParticleGrid::new();
    grid.add_particle(particle(ParticleType::Smoke { glyphs: vec![1] }, (7, 2, 1), 1));
    grid.ensure_z_level(4);
    grid.clear_all();
    assert!(grid.get_highest_priority_particle(7, 2, 1).is_none());
    assert!(grid.iter_positions(1).is_empty());
    grid.add_particle(particle(ParticleType::Smoke { glyphs: vec![1] }, (7, 2, 1), 6));
    assert_eq!(grid.get_highest_priority_particle(7, 2, 1).unwrap().state, 6);
}

#[test]
fn entity_pool_spawns_reuses_and_frees() {
    let mut pool: ParticleEntityPool<u64> = ParticleEntityPool::new();
    let mut next = 100u64;
    let mut spawned = 0;
    let a = pool.get_or_spawn_entity((1, 1, 0), || {
        spawned += 1;
        next
    });
    assert_eq!(a, 100);
    assert_eq!(spawned, 1);
    // the same position keeps its entity without spawning
    let again = pool.get_or_spawn_entity((1, 1, 0), || 999);
    assert_eq!(again, 100);
    next = 101;
    let b = pool.get_or_spawn_entity((2, 1, 0), || next);
    assert_eq!(b, 101);
    // a freed entity is reused before spawning
    pool.release_entity((1, 1, 0));
    let c = pool.get_or_spawn_entity((5, 5, 0), || 999);
    assert_eq!(c, 100);
    // releasing an unknown position changes nothing
    pool.release_entity((9, 9, 9));
    let d = pool.get_or_spawn_entity((6, 6, 0), || 102);
    assert_eq!(d, 102);
}

#[test]
fn entity_pool_clear_frees_everything() {
    let mut pool: ParticleEntityPool<u64> = ParticleEntityPool::new();
    pool.get_or_spawn_entity((1, 1, 0), || 7);
    pool.get_or_spawn_entity((2, 1, 0), || 8);
    pool.clear_all();
    let mut reused = vec![
        pool.get_or_spawn_entity((3, 3, 0), || 999),
        pool.get_or_spawn_entity((4, 3, 0), || 999),
    ];
    reused.sort();
    assert_eq!(reused, vec![7, 8]);
    assert_eq!(pool.get_or_spawn_entity((5, 3, 0), || 9), 9);
}

#[test]
fn effects_only_spawn_in_the_players_zone() {
    assert!(effect_in_active_zone((10, 10, 0), None));
    assert!(effect_in_active_zone((10, 10, 0), Some(0)));
    // x 81 lies in zone column 1: index 1 * 32 * 4
    assert!(effect_in_active_zone((81, 10, 0), Some(128)));
    assert!(!effect_in_active_zone((81, 10, 0), Some(0)));
}

#[test]
fn particle_grid_after_additions_draws_the_best_that_landed() {
    let mut grid: ParticleGrid<u32> = ParticleGrid::new();
    let adds = vec![
        (ParticleType::Impact { glyphs: vec![1] }, (2, 3, 0), 1),
        (ParticleType::Smoke { glyphs: vec![1] }, (2, 3, 0), 2),
        (ParticleType::Impact { glyphs: vec![1] }, (2, 3, 0), 3),
        (ParticleType::Bullet { glyph: 140 }, (2, 4, 0), 4),
        (ParticleType::Bullet { glyph: 140 }, (79, 39, 5), 5),
        (ParticleType::Bullet { glyph: 140 }, (85, 3, 0), 6),
    ];
    for (kind, pos, tag) in adds {
        grid.add_particle(particle(kind, pos, tag));
    }
    assert_eq!(grid.get_highest_priority_particle(2, 3, 0).unwrap().state, 3);
    assert_eq!(grid.get_highest_priority_particle(2, 4, 0).unwrap().state, 4);
    assert_eq!(grid.get_highest_priority_particle(79, 39, 5).unwrap().state, 5);
    assert!(grid.get_highest_priority_particle(85, 3, 0).is_none());
    assert!(grid.get_highest_priority_particle(3, 2, 0).is_none());
}
