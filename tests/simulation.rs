use black_hole::fixed::{div_toward_zero, isqrt};
use black_hole::particle::{advance, SCALE};
use black_hole::simulation::RESEED_COUNT;
use black_hole::spawn::{distance_squared, particle_from_draw};
use black_hole::{BlackHole, BlackHoleSimulation, Color, Fate, Particle, Point, SpawnDraw};

fn pt(x: i64, y: i64) -> Point {
    Point { x, y }
}

fn particle(x: i64, y: i64, vx: i64, vy: i64) -> Particle {
    Particle { position: pt(x, y), velocity: pt(vx, vy), color: Color { r: 1, g: 2, b: 3 } }
}

fn sim(particles: Vec<Particle>, kill_boundary: bool) -> BlackHoleSimulation {
    let mut s = BlackHoleSimulation::default();
    s.particles = particles;
    s.kill_boundary = kill_boundary;
    s
}

fn in_ring(center: Point, min: i64, max: i64, p: Point) -> bool {
    let e = distance_squared(center, p);
    (min as i128) * (min as i128) <= e && e <= (max as i128) * (max as i128)
}

#[test]
fn floor_square_roots() {
    assert_eq!(isqrt(0), 0);
    assert_eq!(isqrt(1), 1);
    assert_eq!(isqrt(24), 4);
    assert_eq!(isqrt(25), 5);
    assert_eq!(isqrt(1_000_000_000_000), 1_000_000);
}

#[test]
fn division_rounds_toward_zero() {
    assert_eq!(div_toward_zero(7, 2), 3);
    assert_eq!(div_toward_zero(-7, 2), -3);
    assert_eq!(div_toward_zero(-1, 10), 0);
}

#[test]
fn gravity_accelerates_toward_the_well() {
    let w = BlackHole { position: pt(0, 0), radius: 5 * SCALE, gravity: 500 };
    let r = advance(&w, 500 * SCALE, true, &particle(500 * SCALE, 0, 0, 0));
    assert_eq!(r, Fate::Moved(particle(500 * SCALE - 2, 0, -2, 0)));
    let r = advance(&w, 500 * SCALE, true, &particle(0, -100 * SCALE, 0, 0));
    assert_eq!(r, Fate::Moved(particle(0, -100 * SCALE + 50, 0, 50)));
}

#[test]
fn particle_on_the_radius_is_absorbed() {
    let w = BlackHole { position: pt(640_000, 400_000), radius: 5 * SCALE, gravity: 500 };
    assert_eq!(advance(&w, 500 * SCALE, false, &particle(643_000, 404_000, 0, 0)), Fate::Absorbed);
    assert_eq!(advance(&w, 500 * SCALE, false, &particle(640_000, 400_000, 0, 0)), Fate::Absorbed);
}

#[test]
fn absorption_brings_two_particles_in_the_ring() {
    let mut s = sim(vec![particle(643_000, 404_000, 7, 7)], false);
    s.update();
    assert_eq!(s.particles.len(), 2);
    for p in &s.particles {
        assert!(in_ring(s.black_hole.position, s.min_spawn_dist, s.max_spawn_dist, p.position));
    }
}

#[test]
fn kill_boundary_removes_without_replacement() {
    let w = BlackHole { position: pt(0, 0), radius: 0, gravity: 0 };
    assert_eq!(advance(&w, 1000, true, &particle(600, 800, 600, 800)), Fate::Escaped);
    let mut s = sim(vec![particle(640_000 + 499_000, 400_000, 5_000, 0), particle(700_000, 400_000, 0, 1_000)], true);
    s.update();
    assert_eq!(s.particles.len(), 1);
    assert_eq!(s.particles[0].color, Color { r: 1, g: 2, b: 3 });
}

#[test]
fn sticky_boundary_clamps_and_slows() {
    let w = BlackHole { position: pt(0, 0), radius: 0, gravity: 0 };
    let r = advance(&w, 1000, false, &particle(600, 800, 600, 800));
    assert_eq!(r, Fate::Moved(particle(600, 800, 60, 80)));
    if let Fate::Moved(q) = r {
        assert_eq!(distance_squared(w.position, q.position), 1000 * 1000);
    }
    let r = advance(&w, 1000, false, &particle(1, 1, 2000, 2000));
    assert_eq!(r, Fate::Moved(particle(500, 500, 200, 200)));
    if let Fate::Moved(q) = r {
        assert!(distance_squared(w.position, q.position) <= 1000 * 1000);
    }
    let mut s = sim(vec![particle(640_000 + 499_000, 400_000, 5_000, 0)], false);
    s.update();
    assert_eq!(s.particles.len(), 1);
    assert_eq!(s.particles[0].position, pt(640_000 + 500_000, 400_000));
    assert_eq!(s.particles[0].velocity, pt(499, 0));
}

#[test]
fn paused_step_changes_nothing() {
    let mut s = sim(vec![particle(700_000, 400_000, 3, -4), particle(643_000, 404_000, 0, 0)], true);
    s.paused = true;
    let before = s.particles.clone();
    for _ in 0..10 {
        s.update();
    }
    assert_eq!(s.particles, before);
    assert_eq!(s.black_hole, BlackHole { position: pt(640_000, 400_000), radius: 5_000, gravity: 500 });
    let mut empty = sim(Vec::new(), true);
    empty.paused = true;
    empty.update();
    assert!(empty.particles.is_empty());
}

#[test]
fn integrate_is_a_bare_pass() {
    let mut s = sim(Vec::new(), true);
    s.integrate();
    assert!(s.particles.is_empty());
    let mut t = sim(vec![particle(643_000, 404_000, 0, 0)], true);
    t.paused = true;
    t.integrate();
    assert_eq!(t.particles.len(), 2);
}

#[test]
fn empty_population_is_reseeded() {
    let mut s = BlackHoleSimulation::default();
    s.reseed_if_empty();
    assert_eq!(s.particles.len(), RESEED_COUNT);
    for p in &s.particles {
        assert!(in_ring(s.black_hole.position, s.min_spawn_dist, s.max_spawn_dist, p.position));
    }
    let mut t = BlackHoleSimulation::default();
    t.update();
    assert_eq!(t.particles.len(), 50);
}

#[test]
fn fall_from_the_boundary_ends_in_the_well() {
    let mut s = sim(vec![particle(640_000 + 500_000, 400_000, 0, 0)], false);
    let c = s.black_hole.position;
    let mut last = distance_squared(c, s.particles[0].position);
    let mut steps = 0;
    while s.particles.len() == 1 && steps < 5000 {
        s.update();
        steps += 1;
        if s.particles.len() == 1 {
            let now = distance_squared(c, s.particles[0].position);
            assert!(now < last);
            assert!(now <= 500_000 * 500_000);
            last = now;
        }
    }
    assert!(last <= 5_000 * 5_000);
    assert_eq!(steps, 583);
    assert_eq!(s.particles.len(), 2);
}

#[test]
fn drawn_particle_orbits_its_centre() {
    let d = SpawnDraw { dir: pt(3, 4), distance: 500, speed: 10, color: Color { r: 9, g: 8, b: 7 } };
    let p = particle_from_draw(pt(1000, 2000), d);
    assert_eq!(p.position, pt(1300, 2400));
    assert_eq!(p.velocity, pt(-8, 6));
    assert_eq!(p.color, Color { r: 9, g: 8, b: 7 });
}

#[test]
fn random_particles_stay_in_the_ring() {
    for _ in 0..200 {
        let p = Particle::new_random(pt(640_000, 400_000), 50_000, 100_000);
        assert!(in_ring(pt(640_000, 400_000), 50_000, 100_000, p.position));
        assert!(p.velocity.x.abs() <= 3 * SCALE && p.velocity.y.abs() <= 3 * SCALE);
    }
    let mut colours = Vec::new();
    for _ in 0..20 {
        let p = Particle::new_random(pt(0, 0), 7_000, 7_000);
        assert!(in_ring(pt(0, 0), 7_000, 7_000, p.position));
        assert!(p.velocity.x.abs() + p.velocity.y.abs() >= SCALE);
        colours.push(p.color);
    }
    assert!(colours.iter().any(|c| *c != colours[0]));
}

#[test]
fn spawn_range_settings_stay_ordered() {
    let mut s = BlackHoleSimulation::default();
    s.set_min_spawn_dist(300_000);
    assert_eq!((s.min_spawn_dist, s.max_spawn_dist), (300_000, 301_000));
    s.set_max_spawn_dist(200_000);
    assert_eq!((s.min_spawn_dist, s.max_spawn_dist), (199_000, 200_000));
    s.set_min_spawn_dist(100_000);
    assert_eq!((s.min_spawn_dist, s.max_spawn_dist), (100_000, 200_000));
}

#[test]
fn new_restores_only_valid_state() {
    let d = BlackHoleSimulation::new(None);
    assert_eq!(d.max_dist, 500_000);
    assert!(d.particles.is_empty());
    let mut good = BlackHoleSimulation::default();
    good.max_dist = 700_000;
    assert!(good.is_valid());
    assert_eq!(BlackHoleSimulation::new(Some(good)).max_dist, 700_000);
    let mut bad = BlackHoleSimulation::default();
    bad.min_spawn_dist = 200_000;
    assert!(!bad.is_valid());
    assert_eq!(BlackHoleSimulation::new(Some(bad)).min_spawn_dist, 50_000);
}

#[test]
fn snapshot_lists_positions_and_colours() {
    let s = sim(vec![particle(1, 2, 0, 0), particle(3, 4, 0, 0)], true);
    let shot = s.render_snapshot();
    assert_eq!(shot, vec![(pt(1, 2), Color { r: 1, g: 2, b: 3 }), (pt(3, 4), Color { r: 1, g: 2, b: 3 })]);
}

#[test]
fn order_of_particles_does_not_change_the_outcome() {
    let a = particle(700_000, 400_000, 0, 1_000);
    let b = particle(640_000, 300_000, 2_000, 0);
    let c = particle(640_000 + 499_000, 400_000, 5_000, 0);
    let mut one = sim(vec![a, b, c], false);
    let mut two = sim(vec![c, b, a], false);
    one.update();
    two.update();
    let mut x = one.particles.clone();
    x.reverse();
    assert_eq!(x.len(), 3);
    assert_eq!(x, two.particles);
}
