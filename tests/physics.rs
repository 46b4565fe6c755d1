use particle_sim::collision::check_collision_between;
use particle_sim::engine::{Command, GlobalContext};
use particle_sim::grid::{SpatialGrid, CELL_SIZE};
use particle_sim::math::isqrt;
use particle_sim::particle::{Body, Particle, Trace, TRACE_LIMIT};
use particle_sim::particle_collisions::ParticleCollisionScene;

fn px(v: i64) -> i64 {
    v * 1000
}

fn energy(b: &Body) -> i128 {
    b.vx as i128 * b.vx as i128 + b.vy as i128 * b.vy as i128
}

fn dist_sq(a: &Body, b: &Body) -> i128 {
    let dx = (b.x - a.x) as i128;
    let dy = (b.y - a.y) as i128;
    dx * dx + dy * dy
}

#[test]
fn integer_square_roots() {
    assert_eq!(isqrt(0), 0);
    assert_eq!(isqrt(1), 1);
    assert_eq!(isqrt(15), 3);
    assert_eq!(isqrt(16), 4);
    assert_eq!(isqrt(17), 4);
    assert_eq!(isqrt(u128::MAX), u64::MAX as u128);
}

#[test]
fn head_on_collision_conserves_energy() {
    let a = Body { x: px(100), y: px(50), vx: px(50), vy: px(7), radius: px(10) };
    let b = Body { x: px(115), y: px(50), vx: px(-30), vy: px(-2), radius: px(10) };
    let (na, nb) = check_collision_between(a, b);
    assert_eq!(na.vx, b.vx);
    assert_eq!(nb.vx, a.vx);
    assert_eq!(na.vy, a.vy);
    assert_eq!(nb.vy, b.vy);
    assert_eq!(energy(&na) + energy(&nb), energy(&a) + energy(&b));
}

#[test]
fn vertical_head_on_collision_swaps_vertical_speed() {
    let a = Body { x: px(40), y: px(100), vx: 0, vy: px(20), radius: px(10) };
    let b = Body { x: px(40), y: px(112), vx: 0, vy: px(-60), radius: px(10) };
    let (na, nb) = check_collision_between(a, b);
    assert_eq!(na.vy, px(-60));
    assert_eq!(nb.vy, px(20));
    assert_eq!(dist_sq(&na, &nb), (px(20) as i128) * (px(20) as i128));
}

#[test]
fn separated_bodies_are_untouched() {
    let a = Body { x: px(100), y: px(100), vx: px(50), vy: px(3), radius: px(10) };
    let b = Body { x: px(121), y: px(100), vx: px(-50), vy: px(1), radius: px(10) };
    assert_eq!(check_collision_between(a, b), (a, b));
    let c = Body { x: px(115), y: px(115), vx: px(-50), vy: px(1), radius: px(10) };
    assert_eq!(check_collision_between(a, c), (a, c));
}

#[test]
fn touching_bodies_exchange_without_moving() {
    let a = Body { x: px(100), y: px(100), vx: px(50), vy: 0, radius: px(10) };
    let b = Body { x: px(120), y: px(100), vx: px(-50), vy: 0, radius: px(10) };
    let (na, nb) = check_collision_between(a, b);
    assert_eq!((na.x, nb.x), (a.x, b.x));
    assert_eq!((na.vx, nb.vx), (px(-50), px(50)));
}

#[test]
fn coincident_centres_are_skipped() {
    let a = Body { x: px(100), y: px(100), vx: px(50), vy: 0, radius: px(10) };
    let b = Body { x: px(100), y: px(100), vx: px(-50), vy: 0, radius: px(10) };
    assert_eq!(check_collision_between(a, b), (a, b));
}

#[test]
fn oblique_collision_exchanges_normal_components() {
    // normal along (3, 4) / 5; a moves along the normal, b is at rest
    let a = Body { x: 0, y: 0, vx: 3000, vy: 4000, radius: 5000 };
    let b = Body { x: 3000, y: 4000, vx: 0, vy: 0, radius: 5000 };
    let (na, nb) = check_collision_between(a, b);
    assert_eq!((na.vx, na.vy), (0, 0));
    assert_eq!((nb.vx, nb.vy), (3000, 4000));
    // pushed apart along the normal until 10 000 apart
    assert_eq!((na.x, na.y), (-1500, -2000));
    assert_eq!((nb.x, nb.y), (4500, 6000));
}

#[test]
fn overlapping_pair_separates_after_one_resolve() {
    let a = Body { x: px(200), y: px(300), vx: px(50), vy: 0, radius: px(10) };
    let b = Body { x: px(212), y: px(300), vx: px(-50), vy: 0, radius: px(10) };
    let (na, nb) = check_collision_between(a, b);
    assert_eq!(na.vx, px(-50));
    assert_eq!(nb.vx, px(50));
    assert_eq!(nb.x - na.x, a.radius + b.radius);
    assert_eq!(na.x, px(196));
    assert_eq!(nb.x, px(216));
}

#[test]
fn overlapping_pair_separates_in_scene_tick() {
    let ctx = GlobalContext::new(800, 600);
    let mut scene = ParticleCollisionScene::new(&ctx);
    scene.particles.push(Particle::new(px(200), px(300), px(50), 0, px(10)));
    scene.particles.push(Particle::new(px(212), px(300), px(-50), 0, px(10)));
    scene.update(&ctx, 0);
    let (a, b) = (&scene.particles[0], &scene.particles[1]);
    assert_eq!(a.vx, px(-50));
    assert_eq!(b.vx, px(50));
    assert_eq!(b.x - a.x, px(20));
    assert_eq!(a.y, px(300));
}

#[test]
fn left_wall_reflects_particle() {
    let mut p = Particle::new(px(10), px(300), px(-50), 0, px(10));
    p.update(16_000, 800, 600, true);
    assert_eq!(p.vx, px(50));
    assert_eq!(p.x, px(10));
    assert_eq!(p.vy, 15_680);
}

#[test]
fn walls_reflect_on_every_side() {
    let mut p = Particle::new(px(795), px(595), px(100), px(100), px(10));
    p.update(10_000, 800, 600, false);
    assert_eq!(p.x, px(790));
    assert_eq!(p.y, px(590));
    assert_eq!(p.vx, px(-100));
    assert_eq!(p.vy, -(px(100) + 9_800));
    let mut q = Particle::new(px(400), px(5), 0, px(-100), px(10));
    q.update(10_000, 800, 600, false);
    assert_eq!(q.y, px(10));
    assert_eq!(q.vy, px(100) - 9_800);
}

#[test]
fn free_flight_follows_semi_implicit_euler() {
    let mut p = Particle::new(px(100), px(100), px(30), px(-20), px(10));
    p.update(100_000, 800, 600, true);
    // vy = -20 000 + 980 000 * 0.1 = 78 000; y += 78 000 * 0.1
    assert_eq!(p.vy, 78_000);
    assert_eq!(p.x, px(103));
    assert_eq!(p.y, px(100) + 7_800);
    assert_eq!(p.traces, vec![Trace { x: px(100), y: px(100) }, Trace { x: px(103), y: px(100) + 7_800 }]);
}

#[test]
fn trail_keeps_latest_twenty() {
    let mut p = Particle::new(px(400), px(100), px(3), 0, px(10));
    let mut seen = vec![Trace { x: p.x, y: p.y }];
    for _ in 0..25 {
        p.update(16_000, 800, 600, true);
        seen.push(Trace { x: p.x, y: p.y });
    }
    assert_eq!(p.traces.len(), TRACE_LIMIT);
    assert_eq!(p.traces[..], seen[seen.len() - TRACE_LIMIT..]);
}

#[test]
fn trail_cleared_when_tracing_off() {
    let mut p = Particle::new(px(400), px(100), 0, 0, px(10));
    p.update(16_000, 800, 600, true);
    assert_eq!(p.traces.len(), 2);
    p.update(16_000, 800, 600, false);
    assert!(p.traces.is_empty());
    p.update(16_000, 800, 600, true);
    assert_eq!(p.traces, vec![Trace { x: p.x, y: p.y }]);
}

#[test]
fn set_position_keeps_velocity() {
    let mut p = Particle::new(px(1), px(2), px(3), px(4), px(5));
    p.set_position(px(7), px(8));
    assert_eq!((p.x, p.y, p.vx, p.vy, p.radius), (px(7), px(8), px(3), px(4), px(5)));
}

fn sorted(mut v: Vec<(usize, usize)>) -> Vec<(usize, usize)> {
    v.sort();
    v
}

#[test]
fn grid_pairs_same_and_forward_cells() {
    let mut grid = SpatialGrid::new(100, 100, CELL_SIZE);
    assert_eq!((grid.cols, grid.rows), (5, 5));
    let at = |x: i64, y: i64| Particle::new(px(x), px(y), 0, 0, px(10));
    let particles = vec![
        at(10, 10),  // 0: cell (0, 0)
        at(20, 20),  // 1: cell (0, 0)
        at(30, 10),  // 2: cell (1, 0), east of 0 and 1
        at(10, 30),  // 3: cell (0, 1), south of 0 and 1
        at(30, 30),  // 4: cell (1, 1)
        at(90, 90),  // 5: cell (3, 3), alone
        at(-5, 10),  // 6: negative x counts as column 0
        at(200, 10), // 7: beyond the grid
    ];
    grid.rebuild(&particles);
    assert_eq!(grid.cells[0], vec![0, 1, 6]);
    assert_eq!(grid.cells[5], vec![2]);
    assert_eq!(grid.cells[1], vec![3]);
    assert_eq!(grid.cells[6], vec![4]);
    assert_eq!(grid.cells[18], vec![5]);
    let pairs = grid.candidate_pairs();
    let expected = sorted(vec![
        (0, 1), (0, 6), (1, 6),
        (0, 2), (1, 2), (6, 2),
        (0, 3), (1, 3), (6, 3),
        (0, 4), (1, 4), (6, 4),
        (2, 4), (3, 4),
    ]);
    assert_eq!(sorted(pairs.clone()), expected);
    // the south-west neighbour (2 and 3) is not a forward cell
    assert!(!pairs.contains(&(2, 3)) && !pairs.contains(&(3, 2)));
}

#[test]
fn grid_rebuild_forgets_old_positions() {
    let mut grid = SpatialGrid::new(100, 100, CELL_SIZE);
    let mut particles = vec![Particle::new(px(10), px(10), 0, 0, px(5)), Particle::new(px(12), px(12), 0, 0, px(5))];
    grid.rebuild(&particles);
    assert_eq!(grid.candidate_pairs(), vec![(0, 1)]);
    particles[1].set_position(px(90), px(90));
    grid.rebuild(&particles);
    assert!(grid.candidate_pairs().is_empty());
    assert_eq!(grid.cells.iter().map(|c| c.len()).sum::<usize>(), 2);
}

#[test]
fn grid_pairs_every_unordered_pair_once() {
    let mut grid = SpatialGrid::new(200, 150, CELL_SIZE);
    let mut particles = Vec::new();
    for i in 0..60i64 {
        particles.push(Particle::new(px((i * 37) % 200), px((i * 53) % 150), 0, 0, px(3)));
    }
    grid.rebuild(&particles);
    let pairs = grid.candidate_pairs();
    let mut unordered: Vec<(usize, usize)> = pairs.iter().map(|&(a, b)| (a.min(b), a.max(b))).collect();
    unordered.sort();
    let n = unordered.len();
    unordered.dedup();
    assert_eq!(unordered.len(), n);
    assert!(pairs.iter().all(|&(a, b)| a != b));
}

#[test]
fn context_speed_controls() {
    let mut ctx = GlobalContext::new(800, 600);
    assert_eq!(ctx.simulation_speed, 10);
    assert_eq!(ctx.scaled_step(16_000), 16_000);
    ctx.adjust_speed(-5);
    assert_eq!(ctx.scaled_step(16_000), 8_000);
    ctx.set_speed(-10);
    assert_eq!(ctx.scaled_step(16_000), -16_000);
    ctx.set_speed(i64::MAX);
    assert_eq!(ctx.simulation_speed, 1_000_000);
    ctx.adjust_speed(5);
    assert_eq!(ctx.simulation_speed, 1_000_000);
    ctx.toggle_pause();
    assert!(ctx.paused);
}

#[test]
fn paused_scene_does_not_move() {
    let mut ctx = GlobalContext::new(800, 600);
    let mut scene = ParticleCollisionScene::new(&ctx);
    scene.spawn_with(100, 100, 150, -150);
    scene.handle_event(&mut ctx, Command::TogglePause);
    scene.update(&ctx, 16_000);
    assert_eq!((scene.particles[0].x, scene.particles[0].y), (px(100), px(100)));
    scene.handle_event(&mut ctx, Command::TogglePause);
    scene.update(&ctx, 16_000);
    assert_ne!(scene.particles[0].x, px(100));
}

#[test]
fn spawn_with_converts_draws() {
    let ctx = GlobalContext::new(800, 600);
    let mut scene = ParticleCollisionScene::new(&ctx);
    scene.spawn_with(100, 200, 150, -150);
    let p = &scene.particles[0];
    assert_eq!((p.x, p.y, p.vx, p.vy, p.radius), (px(100), px(200), 100_000, -100_000, px(10)));
    assert_eq!(p.traces, vec![Trace { x: px(100), y: px(200) }]);
    scene.spawn_with(0, 0, -1, 1);
    assert_eq!((scene.particles[1].vx, scene.particles[1].vy), (-666, 666));
}

#[test]
fn spawn_command_places_random_particles() {
    let mut ctx = GlobalContext::new(800, 600);
    let mut scene = ParticleCollisionScene::new(&ctx);
    scene.handle_event(&mut ctx, Command::Spawn(50));
    assert_eq!(scene.particles.len(), 50);
    for p in &scene.particles {
        assert!(p.x >= 0 && p.x < px(800) && p.x % 1000 == 0);
        assert!(p.y >= 0 && p.y < px(600) && p.y % 1000 == 0);
        assert!(p.vx.abs() <= 133_333 && p.vy.abs() <= 133_333);
        assert_eq!(p.radius, px(10));
    }
    assert!(scene.particles.iter().any(|p| p.x != scene.particles[0].x));
    assert!(scene.particles.iter().any(|p| p.vx != scene.particles[0].vx));
}

#[test]
fn spawn_on_empty_screen_adds_nothing() {
    let mut ctx = GlobalContext::new(0, 600);
    let mut scene = ParticleCollisionScene::new(&ctx);
    scene.handle_event(&mut ctx, Command::Spawn(3));
    assert!(scene.particles.is_empty());
}

#[test]
fn scene_commands() {
    let mut ctx = GlobalContext::new(800, 600);
    let mut scene = ParticleCollisionScene::new(&ctx);
    assert!(scene.enable_traces);
    scene.handle_event(&mut ctx, Command::ToggleTraces);
    assert!(!scene.enable_traces);
    scene.handle_event(&mut ctx, Command::AdjustSpeed(1));
    assert_eq!(ctx.simulation_speed, 11);
    scene.handle_event(&mut ctx, Command::SetSpeed(-10));
    assert_eq!(ctx.simulation_speed, -10);
    scene.handle_event(&mut ctx, Command::Spawn(2));
    assert_eq!(scene.particles.len(), 2);
    scene.handle_event(&mut ctx, Command::ClearParticles);
    assert!(scene.particles.is_empty());
    assert!(!scene.is_done());
    scene.handle_event(&mut ctx, Command::Exit);
    assert!(scene.is_done());
}

#[test]
fn new_scene_is_empty() {
    let ctx = GlobalContext::new(800, 600);
    let scene = ParticleCollisionScene::new(&ctx);
    assert_eq!((scene.grid.cell_size, scene.grid.cols, scene.grid.rows), (25, 33, 25));
    assert!(scene.grid.cells.iter().all(|c| c.is_empty()));
    assert!(scene.particles.is_empty());
    assert!(!scene.done);
    assert!(scene.enable_traces);
}

#[test]
fn scene_grid_covers_screen() {
    let ctx = GlobalContext::new(2048, 1280);
    let scene = ParticleCollisionScene::new(&ctx);
    assert_eq!((scene.grid.cols, scene.grid.rows), (82, 52));
    assert_eq!(scene.grid.cells.len(), 82 * 52);
}
