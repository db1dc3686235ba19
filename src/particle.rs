use vstd::prelude::*;
use crate::fixed::{abs, floor_sqrt, ceil_sqrt, tdiv, isqrt, div_toward_zero};
use crate::fixed::{lemma_component_le_root, lemma_square_bound, lemma_tdiv_bound, lemma_scaled_offset_within};

verus! {

/// Fixed-point lengths: one pixel is this many units.
pub const SCALE: i64 = 1000;

/// Largest magnitude of a well coordinate, in units.
pub const MAX_COORD: i64 = 2_000_000;

/// Largest well radius, boundary distance or spawn distance, in units.
pub const MAX_RANGE: i64 = 2_000_000;

/// Largest well gravity, in pixel units.
pub const MAX_GRAVITY: i64 = 10_000;

/// Largest magnitude of a particle coordinate, in units.
pub const POS_BOUND: i64 = 4_000_000;

/// Largest magnitude of a particle velocity component, in units per frame.
pub const VEL_BOUND: i64 = 2_000_000_000_000;

/// A point or a vector in the plane, in fixed-point units.
#[derive(Clone, Copy, Debug, PartialEq, Eq, Structural)]
pub struct Point {
    pub x: i64,
    pub y: i64,
}

#[derive(Clone, Copy, Debug, PartialEq, Eq, Structural)]
pub struct Color {
    pub r: u8,
    pub g: u8,
    pub b: u8,
}

#[derive(Clone, Copy, Debug, PartialEq, Eq, Structural)]
pub struct Particle {
    pub position: Point,
    pub velocity: Point,
    pub color: Color,
}

/// The attracting body at the centre of the simulation.
#[derive(Clone, Copy, Debug, PartialEq, Eq, Structural)]
pub struct BlackHole {
    pub position: Point,
    pub radius: i64,
    pub gravity: i64,
}

/// What one step does to one particle.
#[derive(Clone, Copy, Debug, PartialEq, Eq, Structural)]
pub enum Fate {
    /// Reached the well: removed, and two replacements are owed.
    Absorbed,
    /// Crossed the outer boundary while it removes particles.
    Escaped,
    /// Still live, with its new state.
    Moved(Particle),
}

pub open spec fn dist2(a: Point, b: Point) -> int {
    (a.x - b.x) * (a.x - b.x) + (a.y - b.y) * (a.y - b.y)
}

impl Point {
    pub open spec fn within(self, bound: int) -> bool {
        abs(self.x as int) <= bound && abs(self.y as int) <= bound
    }
}

impl Particle {
    /// Coordinates and velocity stay within the ranges that the arithmetic allows.
    pub open spec fn wf(self) -> bool {
        self.position.within(POS_BOUND as int) && self.velocity.within(VEL_BOUND as int)
    }
}

impl BlackHole {
    pub open spec fn wf(self) -> bool {
        &&& self.position.within(MAX_COORD as int)
        &&& 0 <= self.radius <= MAX_RANGE
        &&& 0 <= self.gravity <= MAX_GRAVITY
    }
}

/// Velocity change along one axis from the inverse-square pull: the axis share
/// `delta / d` of the magnitude `gravity / d²`, in units (hence `SCALE³`).
pub open spec fn pull(delta: int, d: int, gravity: int) -> int {
    tdiv(delta * (gravity * (SCALE * SCALE * SCALE)), d * d * d)
}

/// True when `p` lies on or inside the well.
pub open spec fn is_absorbed(w: BlackHole, p: Particle) -> bool {
    dist2(w.position, p.position) <= w.radius * w.radius
}

/// The velocity after the pull of the well.
pub open spec fn pulled_velocity(w: BlackHole, p: Particle) -> Point {
    let dx = w.position.x - p.position.x;
    let dy = w.position.y - p.position.y;
    let d = floor_sqrt(dist2(w.position, p.position));
    Point {
        x: (p.velocity.x + pull(dx, d, w.gravity as int)) as i64,
        y: (p.velocity.y + pull(dy, d, w.gravity as int)) as i64,
    }
}

/// Where the particle would go with its pulled velocity.
pub open spec fn tentative_position(w: BlackHole, p: Particle) -> Point {
    let v = pulled_velocity(w, p);
    Point { x: (p.position.x + v.x) as i64, y: (p.position.y + v.y) as i64 }
}

/// True when the tentative position lies beyond `max_dist` from the well.
pub open spec fn crosses_boundary(w: BlackHole, max_dist: int, p: Particle) -> bool {
    dist2(w.position, tentative_position(w, p)) > max_dist * max_dist
}

/// The point at `max_dist` from the well on the ray from the well through `p`. The
/// offset is divided by the ceiling of `p`'s distance and rounded toward the well,
/// so the point never lies outside the boundary.
pub open spec fn boundary_point(w: BlackHole, max_dist: int, p: Particle) -> Point {
    let dx = w.position.x - p.position.x;
    let dy = w.position.y - p.position.y;
    let c = ceil_sqrt(dist2(w.position, p.position));
    Point {
        x: (w.position.x - tdiv(dx * max_dist, c)) as i64,
        y: (w.position.y - tdiv(dy * max_dist, c)) as i64,
    }
}

/// One step of one particle: absorption, then the pull and an Euler move, then the
/// outer boundary, which either removes the particle or holds it at `max_dist` with a
/// tenth of its velocity.
pub open spec fn fate(w: BlackHole, max_dist: int, kill_boundary: bool, p: Particle) -> Fate {
    if is_absorbed(w, p) {
        Fate::Absorbed
    } else if crosses_boundary(w, max_dist, p) {
        if kill_boundary {
            Fate::Escaped
        } else {
            let v = pulled_velocity(w, p);
            Fate::Moved(
                Particle {
                    position: boundary_point(w, max_dist, p),
                    velocity: Point { x: tdiv(v.x as int, 10) as i64, y: tdiv(v.y as int, 10) as i64 },
                    color: p.color,
                },
            )
        }
    } else {
        Fate::Moved(
            Particle {
                position: tentative_position(w, p),
                velocity: pulled_velocity(w, p),
                color: p.color,
            },
        )
    }
}

/// The velocity change along one axis, with `|delta| <= d`; at most the full pull.
fn axis_pull(delta: i128, d: i128, k: i128) -> (r: i128)
    requires
        1 <= d <= 10_000_000,
        abs(delta as int) <= d,
        0 <= k <= MAX_GRAVITY * (SCALE * SCALE * SCALE),
    ensures
        r == tdiv(delta * k, d * d * d),
        abs(r as int) <= k,
{
    assert(d * d <= 100_000_000_000_000 && d * d * d <= 1_000_000_000_000_000_000_000) by (nonlinear_arith)
        requires
            1 <= d <= 10_000_000,
    ;
    assert(abs(delta * k) <= k * (d * d * d) && abs(delta * k) <= 100_000_000_000_000_000_000_000_000) by (nonlinear_arith)
        requires
            1 <= d <= 10_000_000,
            abs(delta as int) <= d,
            abs(delta as int) == delta || abs(delta as int) == -delta,
            0 <= k <= 10_000_000_000_000,
    ;
    assert(d * d * d >= 1) by (nonlinear_arith)
        requires
            1 <= d,
    ;
    let d3 = d * d * d;
    let r = div_toward_zero(delta * k, d3);
    proof {
        lemma_tdiv_bound(delta * k, d3 as int, k as int);
    }
    r
}

/// Advances one particle by one step under the well's pull; see `fate`.
pub fn advance(w: &BlackHole, max_dist: i64, kill_boundary: bool, p: &Particle) -> (r: Fate)
    requires
        w.wf(),
        0 <= max_dist <= MAX_RANGE,
        p.wf(),
    ensures
        r == fate(*w, max_dist as int, kill_boundary, *p),
        r matches Fate::Moved(q) ==> q.wf(),
        r matches Fate::Moved(q) ==> dist2(w.position, q.position) <= max_dist * max_dist,
{
    let cx = w.position.x as i128;
    let cy = w.position.y as i128;
    let dx: i128 = cx - p.position.x as i128;
    let dy: i128 = cy - p.position.y as i128;
    assert(dx * dx <= 36_000_000_000_000 && dy * dy <= 36_000_000_000_000) by (nonlinear_arith)
        requires
            -6_000_000 <= dx <= 6_000_000,
            -6_000_000 <= dy <= 6_000_000,
    ;
    assert(dx * dx >= 0 && dy * dy >= 0) by (nonlinear_arith);
    let n: i128 = dx * dx + dy * dy;
    let radius = w.radius as i128;
    assert(radius * radius <= 4_000_000_000_000) by (nonlinear_arith)
        requires
            0 <= radius <= 2_000_000,
    ;
    if n <= radius * radius {
        return Fate::Absorbed;
    }
    assert(radius * radius >= 0) by (nonlinear_arith);
    let d = isqrt(n as u64) as i128;
    proof {
        lemma_component_le_root(dx as int, n as int, d as int);
        lemma_component_le_root(dy as int, n as int, d as int);
        assert(d >= 1) by (nonlinear_arith)
            requires
                n > radius * radius,
                radius * radius >= 0,
                n < (d + 1) * (d + 1),
                d >= 0,
        ;
        assert(d * d <= 72_000_000_000_000);
        if d > 10_000_000 {
            assert(d * d > 100_000_000_000_000) by (nonlinear_arith)
                requires
                    d > 10_000_000,
            ;
        }
    }
    let k: i128 = w.gravity as i128 * 1_000_000_000;
    let ax = axis_pull(dx, d, k);
    let ay = axis_pull(dy, d, k);
    let vx: i128 = p.velocity.x as i128 + ax;
    let vy: i128 = p.velocity.y as i128 + ay;
    let nx: i128 = p.position.x as i128 + vx;
    let ny: i128 = p.position.y as i128 + vy;
    let ex: i128 = cx - nx;
    let ey: i128 = cy - ny;
    assert(ex * ex <= 400_000_000_000_000_000_000_000_000 && ey * ey <= 400_000_000_000_000_000_000_000_000) by (nonlinear_arith)
        requires
            -20_000_000_000_000 <= ex <= 20_000_000_000_000,
            -20_000_000_000_000 <= ey <= 20_000_000_000_000,
    ;
    assert(ex * ex >= 0 && ey * ey >= 0) by (nonlinear_arith);
    let m = max_dist as i128;
    assert(m * m <= 4_000_000_000_000) by (nonlinear_arith)
        requires
            0 <= m <= 2_000_000,
    ;
    if ex * ex + ey * ey > m * m {
        if kill_boundary {
            return Fate::Escaped;
        }
        let c: i128 = if d * d == n {
            d
        } else {
            d + 1
        };
        assert(c * c >= n) by (nonlinear_arith)
            requires
                n < (d + 1) * (d + 1),
                d * d <= n,
                (d * d == n && c == d) || (d * d != n && c == d + 1),
        ;
        assert(abs(dx * m) <= m * c && abs(dy * m) <= m * c
            && abs(dx * m) <= 20_000_000_000_000 && abs(dy * m) <= 20_000_000_000_000) by (nonlinear_arith)
            requires
                abs(dx as int) <= d,
                abs(dy as int) <= d,
                d <= c,
                abs(dx as int) == dx || abs(dx as int) == -dx,
                abs(dy as int) == dy || abs(dy as int) == -dy,
                0 <= m <= 2_000_000,
                d <= 10_000_000,
        ;
        let ox = div_toward_zero(dx * m, c);
        let oy = div_toward_zero(dy * m, c);
        proof {
            lemma_tdiv_bound(dx * m, c as int, m as int);
            lemma_tdiv_bound(dy * m, c as int, m as int);
            lemma_scaled_offset_within(dx as int, dy as int, c as int, m as int);
            assert(dist2(w.position, Point { x: (cx - ox) as i64, y: (cy - oy) as i64 }) == ox * ox + oy * oy)
                by (nonlinear_arith)
                requires
                    cx - (cx - ox) == ox,
                    cy - (cy - oy) == oy,
                    cx == w.position.x,
                    cy == w.position.y,
                    -2_000_000 <= ox <= 2_000_000,
                    -2_000_000 <= oy <= 2_000_000,
                    -2_000_000 <= cx <= 2_000_000,
                    -2_000_000 <= cy <= 2_000_000,
            ;
            lemma_tdiv_bound(vx as int, 10, 1_300_000_000_000);
            lemma_tdiv_bound(vy as int, 10, 1_300_000_000_000);
        }
        let q = Particle {
            position: Point { x: (cx - ox) as i64, y: (cy - oy) as i64 },
            velocity: Point {
                x: div_toward_zero(vx, 10) as i64,
                y: div_toward_zero(vy, 10) as i64,
            },
            color: p.color,
        };
        Fate::Moved(q)
    } else {
        proof {
            lemma_square_bound(ex as int, m as int);
            lemma_square_bound(ey as int, m as int);
        }
        let q = Particle {
            position: Point { x: nx as i64, y: ny as i64 },
            velocity: Point { x: vx as i64, y: vy as i64 },
            color: p.color,
        };
        Fate::Moved(q)
    }
}

} // verus!
