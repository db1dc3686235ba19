use vstd::prelude::*;
use crate::fixed::{abs, floor_sqrt, ceil_sqrt, tdiv, is_floor_sqrt, lemma_floor_sqrt_exists};
use crate::fixed::{lemma_component_le_root, lemma_tdiv_bound, lemma_tdiv_times, lemma_scaled_offset_within};
use crate::particle::{Particle, BlackHole, Fate, fate, dist2, pull, is_absorbed};
use crate::particle::{pulled_velocity, crosses_boundary, boundary_point, SCALE, MAX_RANGE};
use crate::simulation::{survivors, absorbed_count, is_pass};
use crate::spawn::in_annulus;

verus! {

/// Facts about a particle outside the well: its distance `d` is at least one unit,
/// no axis offset exceeds it, and the pull along each axis is bounded and has the
/// sign of the offset.
proof fn lemma_outside_well(w: BlackHole, p: Particle)
    requires
        w.wf(),
        p.wf(),
        !is_absorbed(w, p),
    ensures
        ({
            let dx = w.position.x - p.position.x;
            let dy = w.position.y - p.position.y;
            let d = floor_sqrt(dist2(w.position, p.position));
            let k = w.gravity * (SCALE * SCALE * SCALE);
            &&& is_floor_sqrt(dist2(w.position, p.position), d)
            &&& d >= 1
            &&& abs(dx) <= d
            &&& abs(dy) <= d
            &&& abs(pull(dx, d, w.gravity as int)) <= k
            &&& abs(pull(dy, d, w.gravity as int)) <= k
            &&& dx * pull(dx, d, w.gravity as int) >= 0
            &&& dy * pull(dy, d, w.gravity as int) >= 0
            &&& k <= 10_000_000_000_000
        }),
{
    let dx = w.position.x - p.position.x;
    let dy = w.position.y - p.position.y;
    let n = dist2(w.position, p.position);
    assert(dx * dx >= 0 && dy * dy >= 0 && w.radius * w.radius >= 0) by (nonlinear_arith);
    lemma_floor_sqrt_exists(n);
    let d = floor_sqrt(n);
    lemma_component_le_root(dx, n, d);
    lemma_component_le_root(dy, n, d);
    assert(is_floor_sqrt(n, d));
    assert(d >= 1) by (nonlinear_arith)
        requires
            n > w.radius * w.radius,
            w.radius * w.radius >= 0,
            n < (d + 1) * (d + 1),
            d >= 0,
    ;
    let k = w.gravity * (SCALE * SCALE * SCALE);
    assert(k <= 10_000_000_000_000) by (nonlinear_arith)
        requires
            k == w.gravity * 1_000_000_000,
            w.gravity <= 10_000,
    ;
    assert(abs(dx * k) <= k * (d * d * d) && abs(dy * k) <= k * (d * d * d) && d * d * d >= 1) by (nonlinear_arith)
        requires
            1 <= d,
            abs(dx) <= d,
            abs(dy) <= d,
            abs(dx) == dx || abs(dx) == -dx,
            abs(dy) == dy || abs(dy) == -dy,
            0 <= k,
    ;
    lemma_tdiv_bound(dx * k, d * d * d, k);
    lemma_tdiv_bound(dy * k, d * d * d, k);
    let ax = pull(dx, d, w.gravity as int);
    let ay = pull(dy, d, w.gravity as int);
    assert(dx * ax >= 0 && dy * ay >= 0) by (nonlinear_arith)
        requires
            k >= 0,
            dx * k >= 0 ==> ax >= 0,
            dx * k <= 0 ==> ax <= 0,
            dy * k >= 0 ==> ay >= 0,
            dy * k <= 0 ==> ay <= 0,
    ;
}

/// Gravity pulls inward: for a particle outside the well, the change that the pull
/// makes to its velocity never points away from the well along either axis.
pub proof fn lemma_gravity_pulls_inward(w: BlackHole, p: Particle)
    requires
        w.wf(),
        p.wf(),
        !is_absorbed(w, p),
    ensures
        (w.position.x - p.position.x) * (pulled_velocity(w, p).x - p.velocity.x) >= 0,
        (w.position.y - p.position.y) * (pulled_velocity(w, p).y - p.velocity.y) >= 0,
{
    lemma_outside_well(w, p);
}

/// Absorption: a particle exactly at the well's radius is removed, and one pass over
/// it alone leaves exactly two particles, both in the spawn ring.
pub proof fn lemma_absorption_replaces_with_two(
    w: BlackHole,
    max_dist: int,
    kill_boundary: bool,
    min_spawn: int,
    max_spawn: int,
    p: Particle,
    after: Seq<Particle>,
)
    requires
        dist2(w.position, p.position) == w.radius * w.radius,
        is_pass(w, max_dist, kill_boundary, min_spawn, max_spawn, seq![p], after),
    ensures
        fate(w, max_dist, kill_boundary, p) == Fate::Absorbed,
        after.len() == 2,
        in_annulus(w.position, min_spawn, max_spawn, after[0].position),
        in_annulus(w.position, min_spawn, max_spawn, after[1].position),
{
    let s = seq![p];
    assert(s.drop_last() == Seq::<Particle>::empty());
    assert(survivors(w, max_dist, kill_boundary, Seq::<Particle>::empty()) == Seq::<Particle>::empty());
    assert(absorbed_count(w, Seq::<Particle>::empty()) == 0);
    assert(is_absorbed(w, p));
    assert(s.last() == p);
    assert(survivors(w, max_dist, kill_boundary, s).len() == 0);
    assert(absorbed_count(w, s) == 1);
    assert(in_annulus(w.position, min_spawn, max_spawn, after[0].position));
    assert(in_annulus(w.position, min_spawn, max_spawn, after[1].position));
}

/// Kill boundary: a particle outside the well whose tentative position lies beyond
/// the boundary leaves the population and adds nothing to it.
pub proof fn lemma_kill_boundary_removes(
    w: BlackHole,
    max_dist: int,
    before: Seq<Particle>,
    p: Particle,
)
    requires
        !is_absorbed(w, p),
        crosses_boundary(w, max_dist, p),
    ensures
        fate(w, max_dist, true, p) == Fate::Escaped,
        survivors(w, max_dist, true, before.push(p)) == survivors(w, max_dist, true, before),
        absorbed_count(w, before.push(p)) == absorbed_count(w, before),
{
    assert(before.push(p).drop_last() == before);
    assert(before.push(p).last() == p);
}

/// Sticky boundary: a particle outside the well whose tentative position lies beyond
/// the boundary is placed on the ray from the well through its old position, at most
/// `max_dist` from the well. Each axis of its offset is the exact point at `max_dist`
/// (with the distance rounded up to an integer `c`) rounded toward the well by less
/// than one unit. It keeps a tenth of its velocity, rounded toward zero on each axis.
pub proof fn lemma_sticky_boundary_holds(w: BlackHole, max_dist: int, p: Particle)
    requires
        w.wf(),
        p.wf(),
        0 <= max_dist <= MAX_RANGE,
        !is_absorbed(w, p),
        crosses_boundary(w, max_dist, p),
    ensures
        ({
            let v = pulled_velocity(w, p);
            let dx = w.position.x - p.position.x;
            let dy = w.position.y - p.position.y;
            let n = dist2(w.position, p.position);
            let c = ceil_sqrt(n);
            let q = fate(w, max_dist, false, p)->Moved_0;
            &&& fate(w, max_dist, false, p) is Moved
            &&& q.position == boundary_point(w, max_dist, p)
            &&& c * c >= n && (c - 1) * (c - 1) < n
            &&& q.position.x == w.position.x - tdiv(dx * max_dist, c)
            &&& q.position.y == w.position.y - tdiv(dy * max_dist, c)
            &&& dist2(w.position, q.position) <= max_dist * max_dist
            &&& abs(dx * max_dist) < (abs(w.position.x - q.position.x) + 1) * c
            &&& abs(dy * max_dist) < (abs(w.position.y - q.position.y) + 1) * c
            &&& 10 * abs(q.velocity.x as int) <= abs(v.x as int)
            &&& abs(v.x as int) < 10 * abs(q.velocity.x as int) + 10
            &&& 10 * abs(q.velocity.y as int) <= abs(v.y as int)
            &&& abs(v.y as int) < 10 * abs(q.velocity.y as int) + 10
        }),
{
    lemma_outside_well(w, p);
    let dx = w.position.x - p.position.x;
    let dy = w.position.y - p.position.y;
    let n = dist2(w.position, p.position);
    let d = floor_sqrt(n);
    let c = ceil_sqrt(n);
    assert(c * c >= n && (c - 1) * (c - 1) < n && d <= c) by (nonlinear_arith)
        requires
            d >= 1,
            d * d <= n,
            n < (d + 1) * (d + 1),
            (d * d == n && c == d) || (d * d != n && c == d + 1),
    ;
    assert(abs(dx * max_dist) <= max_dist * c && abs(dy * max_dist) <= max_dist * c) by (nonlinear_arith)
        requires
            abs(dx) <= d,
            abs(dy) <= d,
            d <= c,
            abs(dx) == dx || abs(dx) == -dx,
            abs(dy) == dy || abs(dy) == -dy,
            0 <= max_dist,
    ;
    lemma_tdiv_bound(dx * max_dist, c, max_dist);
    lemma_tdiv_bound(dy * max_dist, c, max_dist);
    lemma_tdiv_times(dx * max_dist, c);
    lemma_tdiv_times(dy * max_dist, c);
    lemma_scaled_offset_within(dx, dy, c, max_dist);
    let ox = tdiv(dx * max_dist, c);
    let oy = tdiv(dy * max_dist, c);
    let q = boundary_point(w, max_dist, p);
    assert(w.position.x - q.x == ox && w.position.y - q.y == oy);
}

/// Particles do not interact: a pass over two groups together keeps the survivors of
/// the first group followed by those of the second, and absorbs as many particles as
/// the two groups apart, whichever group comes first.
pub proof fn lemma_pass_is_per_particle(
    w: BlackHole,
    max_dist: int,
    kill_boundary: bool,
    a: Seq<Particle>,
    b: Seq<Particle>,
)
    ensures
        survivors(w, max_dist, kill_boundary, a + b) == survivors(w, max_dist, kill_boundary, a) + survivors(
            w,
            max_dist,
            kill_boundary,
            b,
        ),
        absorbed_count(w, a + b) == absorbed_count(w, a) + absorbed_count(w, b),
        absorbed_count(w, a + b) == absorbed_count(w, b + a),
        survivors(w, max_dist, kill_boundary, a + b).len() == survivors(w, max_dist, kill_boundary, b + a).len(),
{
    lemma_survivors_append(w, max_dist, kill_boundary, a, b);
    lemma_survivors_append(w, max_dist, kill_boundary, b, a);
}

proof fn lemma_survivors_append(w: BlackHole, max_dist: int, kill_boundary: bool, a: Seq<Particle>, b: Seq<Particle>)
    ensures
        survivors(w, max_dist, kill_boundary, a + b) == survivors(w, max_dist, kill_boundary, a) + survivors(
            w,
            max_dist,
            kill_boundary,
            b,
        ),
        absorbed_count(w, a + b) == absorbed_count(w, a) + absorbed_count(w, b),
    decreases b.len(),
{
    let sa = survivors(w, max_dist, kill_boundary, a);
    if b.len() == 0 {
        assert(a + b == a);
        assert(sa + Seq::<Particle>::empty() == sa);
    } else {
        let c = b.drop_last();
        lemma_survivors_append(w, max_dist, kill_boundary, a, c);
        assert((a + b).drop_last() == a + c);
        assert((a + b).last() == b.last());
        let sc = survivors(w, max_dist, kill_boundary, c);
        match fate(w, max_dist, kill_boundary, b.last()) {
            Fate::Moved(q) => {
                assert((sa + sc).push(q) == sa + sc.push(q));
            },
            _ => {},
        }
    }
}

} // verus!
