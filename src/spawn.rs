use vstd::prelude::*;
use rand::Rng;
use crate::fixed::{abs, floor_sqrt, tdiv, isqrt, div_toward_zero};
use crate::fixed::{lemma_component_le_root, lemma_tdiv_bound, lemma_floor_sqrt_is};
use crate::particle::{Point, Color, Particle, dist2, SCALE, MAX_COORD, MAX_RANGE};

verus! {

/// Largest magnitude of a drawn direction component.
pub const DIR_RANGE: i64 = 1000;

/// Smallest length of a drawn direction that is kept, so that rounding stays small.
pub const DIR_MIN: i64 = 500;

/// Largest initial speed, in units per frame.
pub const MAX_SPEED: i64 = 3 * SCALE;

/// How many draws a spawn tries before it falls back to a fixed direction.
pub const SPAWN_ATTEMPTS: u32 = 32;

/// The random values that decide one new particle: a direction (any non-zero
/// vector; its length does not matter), a distance from the centre, a speed and a
/// colour.
#[derive(Clone, Copy, Debug, PartialEq, Eq, Structural)]
pub struct SpawnDraw {
    pub dir: Point,
    pub distance: i64,
    pub speed: i64,
    pub color: Color,
}

impl SpawnDraw {
    pub open spec fn wf(self) -> bool {
        &&& self.dir.within(DIR_RANGE as int)
        &&& (self.dir.x != 0 || self.dir.y != 0)
        &&& 0 <= self.distance <= MAX_RANGE
        &&& 0 <= self.speed <= MAX_SPEED
    }
}

/// True when `p` lies in the closed ring between `min` and `max` around `center`.
pub open spec fn in_annulus(center: Point, min: int, max: int, p: Point) -> bool {
    min * min <= dist2(center, p) && dist2(center, p) <= max * max
}

/// The particle that a draw gives: `distance` along the direction from `center`, and
/// `speed` along the direction turned a quarter turn, so that it starts to orbit.
pub open spec fn drawn_particle(center: Point, draw: SpawnDraw) -> Particle {
    let ux = draw.dir.x as int;
    let uy = draw.dir.y as int;
    let l = floor_sqrt(ux * ux + uy * uy);
    Particle {
        position: Point {
            x: (center.x + tdiv(ux * draw.distance, l)) as i64,
            y: (center.y + tdiv(uy * draw.distance, l)) as i64,
        },
        velocity: Point { x: (-tdiv(uy * draw.speed, l)) as i64, y: tdiv(ux * draw.speed, l) as i64 },
        color: draw.color,
    }
}

/// Relies on rand's `thread_rng().gen_range(lo..=hi)`: a value of the closed range.
#[verifier::external_body]
fn random_in(lo: i64, hi: i64) -> (r: i64)
    requires
        lo <= hi,
    ensures
        lo <= r <= hi,
{
    rand::thread_rng().gen_range(lo..=hi)
}

/// Squared distance between two points of bounded coordinates.
pub fn distance_squared(a: Point, b: Point) -> (r: i128)
    requires
        a.within(10_000_000_000_000),
        b.within(10_000_000_000_000),
    ensures
        r == dist2(a, b),
{
    let ex = a.x as i128 - b.x as i128;
    let ey = a.y as i128 - b.y as i128;
    assert(ex * ex <= 400_000_000_000_000_000_000_000_000 && ey * ey <= 400_000_000_000_000_000_000_000_000) by (nonlinear_arith)
        requires
            -20_000_000_000_000 <= ex <= 20_000_000_000_000,
            -20_000_000_000_000 <= ey <= 20_000_000_000_000,
    ;
    assert(ex * ex >= 0 && ey * ey >= 0) by (nonlinear_arith);
    ex * ex + ey * ey
}

/// Builds the particle that `draw` decides; see `drawn_particle`.
pub fn particle_from_draw(center: Point, draw: SpawnDraw) -> (r: Particle)
    requires
        center.within(MAX_COORD as int),
        draw.wf(),
    ensures
        r == drawn_particle(center, draw),
        r.wf(),
        r.velocity.within(MAX_SPEED as int),
{
    let ux = draw.dir.x as i128;
    let uy = draw.dir.y as i128;
    assert(ux * ux <= 1_000_000 && uy * uy <= 1_000_000 && ux * ux >= 0 && uy * uy >= 0) by (nonlinear_arith)
        requires
            -1000 <= ux <= 1000,
            -1000 <= uy <= 1000,
    ;
    let n = ux * ux + uy * uy;
    let l = isqrt(n as u64) as i128;
    let dist = draw.distance as i128;
    let speed = draw.speed as i128;
    proof {
        lemma_component_le_root(ux as int, n as int, l as int);
        lemma_component_le_root(uy as int, n as int, l as int);
        if l == 0 {
            assert(ux * ux >= 1 || uy * uy >= 1) by (nonlinear_arith)
                requires
                    ux != 0 || uy != 0,
            ;
        }
        assert(abs(ux * dist) <= dist * l && abs(uy * dist) <= dist * l
            && abs(ux * speed) <= speed * l && abs(uy * speed) <= speed * l
            && abs(ux * dist) <= 2_000_000_000 && abs(uy * dist) <= 2_000_000_000
            && abs(ux * speed) <= 3_000_000 && abs(uy * speed) <= 3_000_000) by (nonlinear_arith)
            requires
                abs(ux as int) <= l,
                abs(uy as int) <= l,
                abs(ux as int) <= 1000,
                abs(uy as int) <= 1000,
                abs(ux as int) == ux || abs(ux as int) == -ux,
                abs(uy as int) == uy || abs(uy as int) == -uy,
                0 <= dist <= 2_000_000,
                0 <= speed <= 3000,
        ;
        lemma_tdiv_bound(ux * dist, l as int, dist as int);
        lemma_tdiv_bound(uy * dist, l as int, dist as int);
        lemma_tdiv_bound(ux * speed, l as int, speed as int);
        lemma_tdiv_bound(uy * speed, l as int, speed as int);
    }
    let ox = div_toward_zero(ux * dist, l);
    let oy = div_toward_zero(uy * dist, l);
    let vx = div_toward_zero(uy * speed, l);
    let vy = div_toward_zero(ux * speed, l);
    Particle {
        position: Point { x: (center.x as i128 + ox) as i64, y: (center.y as i128 + oy) as i64 },
        velocity: Point { x: (-vx) as i64, y: vy as i64 },
        color: draw.color,
    }
}

/// Draws a random direction (uniform in angle), distance, speed and colour.
fn random_draw(min_distance: i64, max_distance: i64) -> (r: SpawnDraw)
    requires
        0 <= min_distance <= max_distance <= MAX_RANGE,
    ensures
        r.dir.within(DIR_RANGE as int),
        min_distance <= r.distance <= max_distance,
        SCALE <= r.speed <= MAX_SPEED,
{
    let x = random_in(-DIR_RANGE, DIR_RANGE);
    let y = random_in(-DIR_RANGE, DIR_RANGE);
    let distance = random_in(min_distance, max_distance);
    let speed = random_in(SCALE, MAX_SPEED);
    let r = random_in(0, 255) as u8;
    let g = random_in(0, 255) as u8;
    let b = random_in(0, 255) as u8;
    SpawnDraw { dir: Point { x, y }, distance, speed, color: Color { r, g, b } }
}

impl Particle {
    /// A new particle in the ring between `min_distance` and `max_distance` around
    /// `center`, moving tangentially, with a random colour: the particle of some
    /// valid draw.
    ///
    /// Directions are drawn uniformly from a ring of the integer grid; a draw whose
    /// rounded position misses the ring is drawn again. After `SPAWN_ATTEMPTS`
    /// misses the last draw is kept with its direction turned to the nearest axis,
    /// where its position lands exactly at its distance.
    pub fn new_random(center: Point, min_distance: i64, max_distance: i64) -> (r: Particle)
        requires
            center.within(MAX_COORD as int),
            0 <= min_distance <= max_distance <= MAX_RANGE,
        ensures
            in_annulus(center, min_distance as int, max_distance as int, r.position),
            r.wf(),
            r.velocity.within(MAX_SPEED as int),
            exists|d: SpawnDraw|
                {
                    &&& d.wf()
                    &&& min_distance <= d.distance <= max_distance
                    &&& SCALE <= d.speed <= MAX_SPEED
                    &&& #[trigger] drawn_particle(center, d) == r
                },
    {
        let mn = min_distance as i128;
        let mx = max_distance as i128;
        assert(mn * mn <= 4_000_000_000_000 && mx * mx <= 4_000_000_000_000 && mn * mn <= mx * mx)
            by (nonlinear_arith)
            requires
                0 <= mn <= mx <= 2_000_000,
        ;
        let lo = mn * mn;
        let hi = mx * mx;
        let mut draw = random_draw(min_distance, max_distance);
        let mut attempt: u32 = 0;
        while attempt < SPAWN_ATTEMPTS
            invariant
                center.within(MAX_COORD as int),
                0 <= min_distance <= max_distance <= MAX_RANGE,
                lo == min_distance * min_distance,
                hi == max_distance * max_distance,
                draw.dir.within(DIR_RANGE as int),
                min_distance <= draw.distance <= max_distance,
                SCALE <= draw.speed <= MAX_SPEED,
            decreases SPAWN_ATTEMPTS - attempt,
        {
            let x = draw.dir.x;
            let y = draw.dir.y;
            assert(x * x <= 1_000_000 && y * y <= 1_000_000 && x * x >= 0 && y * y >= 0) by (nonlinear_arith)
                requires
                    -1000 <= x <= 1000,
                    -1000 <= y <= 1000,
            ;
            let n = x * x + y * y;
            if DIR_MIN * DIR_MIN <= n && n <= DIR_RANGE * DIR_RANGE {
                assert(x != 0 || y != 0) by (nonlinear_arith)
                    requires
                        n == x * x + y * y,
                        n >= 250_000,
                ;
                let p = particle_from_draw(center, draw);
                let e = distance_squared(center, p.position);
                if lo <= e && e <= hi {
                    assert(drawn_particle(center, draw) == p);
                    return p;
                }
            }
            draw = random_draw(min_distance, max_distance);
            attempt = attempt + 1;
        }
        let x = draw.dir.x;
        let y = draw.dir.y;
        let ax = if x < 0 { -x } else { x };
        let ay = if y < 0 { -y } else { y };
        let dir = if ax >= ay {
            Point { x: if x < 0 { -1 } else { 1 }, y: 0 }
        } else {
            Point { x: 0, y: if y < 0 { -1 } else { 1 } }
        };
        let fallback = SpawnDraw { dir, distance: draw.distance, speed: draw.speed, color: draw.color };
        let p = particle_from_draw(center, fallback);
        proof {
            lemma_floor_sqrt_is(1, 1);
            assert(dir.x * dir.x + dir.y * dir.y == 1) by (nonlinear_arith)
                requires
                    (dir.x == 0 && (dir.y == 1 || dir.y == -1)) || (dir.y == 0 && (dir.x == 1 || dir.x == -1)),
            ;
            assert(floor_sqrt(dir.x * dir.x + dir.y * dir.y) == 1);
            let m = draw.distance as int;
            let ox = tdiv(dir.x * m, 1);
            let oy = tdiv(dir.y * m, 1);
            assert(ox == dir.x * m && oy == dir.y * m);
            assert(ox * ox + oy * oy == m * m) by (nonlinear_arith)
                requires
                    ox == dir.x * m,
                    oy == dir.y * m,
                    (dir.x == 0 && (dir.y == 1 || dir.y == -1)) || (dir.y == 0 && (dir.x == 1 || dir.x == -1)),
            ;
            assert(center.x - p.position.x == -ox);
            assert(center.y - p.position.y == -oy);
            assert((-ox) * (-ox) + (-oy) * (-oy) == ox * ox + oy * oy) by (nonlinear_arith);
            assert(dist2(center, p.position) == m * m);
            assert(min_distance * min_distance <= m * m && m * m <= max_distance * max_distance) by (nonlinear_arith)
                requires
                    0 <= min_distance <= m <= max_distance,
            ;
            assert(drawn_particle(center, fallback) == p);
        }
        p
    }
}

} // verus!
