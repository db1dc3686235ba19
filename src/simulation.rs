use vstd::prelude::*;
use crate::particle::{Point, Color, Particle, BlackHole, Fate, fate, is_absorbed, advance, dist2};
use crate::particle::{SCALE, MAX_COORD, MAX_RANGE, MAX_GRAVITY, POS_BOUND, VEL_BOUND};
use crate::spawn::in_annulus;

verus! {

/// How many particles an empty simulation is seeded with.
pub const RESEED_COUNT: usize = 50;

/// The particles around one black hole, with the settings that govern them.
/// Lengths are fixed-point units (`SCALE` per pixel).
pub struct BlackHoleSimulation {
    pub particles: Vec<Particle>,
    pub black_hole: BlackHole,
    /// Outer boundary: the largest distance a particle may have from the well.
    pub max_dist: i64,
    /// Radius with which particles are drawn.
    pub particle_radius: i64,
    pub max_spawn_dist: i64,
    pub min_spawn_dist: i64,
    pub paused: bool,
    /// True when crossing the boundary removes a particle, false when it stops it.
    pub kill_boundary: bool,
    pub dark_mode: bool,
}

/// The particles that stay live after one pass over `s`, in order.
pub open spec fn survivors(w: BlackHole, max_dist: int, kill_boundary: bool, s: Seq<Particle>) -> Seq<Particle>
    decreases s.len(),
{
    if s.len() == 0 {
        Seq::empty()
    } else {
        let prev = survivors(w, max_dist, kill_boundary, s.drop_last());
        match fate(w, max_dist, kill_boundary, s.last()) {
            Fate::Moved(q) => prev.push(q),
            _ => prev,
        }
    }
}

/// How many particles of `s` the well absorbs.
pub open spec fn absorbed_count(w: BlackHole, s: Seq<Particle>) -> nat
    decreases s.len(),
{
    if s.len() == 0 {
        0
    } else {
        absorbed_count(w, s.drop_last()) + if is_absorbed(w, s.last()) {
            1nat
        } else {
            0nat
        }
    }
}

/// `after` is one pass of the physics over `before`: the survivors in order, each
/// within `max_dist` of the well, then two replacements in the spawn ring for each
/// absorbed particle.
pub open spec fn is_pass(
    w: BlackHole,
    max_dist: int,
    kill_boundary: bool,
    min_spawn: int,
    max_spawn: int,
    before: Seq<Particle>,
    after: Seq<Particle>,
) -> bool {
    let kept = survivors(w, max_dist, kill_boundary, before);
    &&& after.len() == kept.len() + 2 * absorbed_count(w, before)
    &&& after.take(kept.len() as int) == kept
    &&& forall|j: int|
        0 <= j < kept.len() ==> dist2(w.position, #[trigger] after[j].position) <= max_dist * max_dist
    &&& forall|j: int|
        kept.len() <= j < after.len() ==> in_annulus(w.position, min_spawn, max_spawn, #[trigger] after[j].position)
}

impl BlackHoleSimulation {
    /// The settings lie in the ranges that the arithmetic allows, and the spawn
    /// ring is not inverted.
    pub open spec fn config_wf(self) -> bool {
        &&& self.black_hole.wf()
        &&& 0 <= self.max_dist <= MAX_RANGE
        &&& 0 <= self.min_spawn_dist <= self.max_spawn_dist <= MAX_RANGE
        &&& self.particle_radius >= 0
    }

    pub open spec fn wf(self) -> bool {
        &&& self.config_wf()
        &&& forall|i: int| 0 <= i < self.particles@.len() ==> (#[trigger] self.particles@[i]).wf()
    }

    /// Everything but the particles is the same in `self` and `other`.
    pub open spec fn same_settings(self, other: Self) -> bool {
        &&& self.black_hole == other.black_hole
        &&& self.max_dist == other.max_dist
        &&& self.particle_radius == other.particle_radius
        &&& self.max_spawn_dist == other.max_spawn_dist
        &&& self.min_spawn_dist == other.min_spawn_dist
        &&& self.paused == other.paused
        &&& self.kill_boundary == other.kill_boundary
        &&& self.dark_mode == other.dark_mode
    }

    pub open spec fn pass_of(self, before: Seq<Particle>, after: Seq<Particle>) -> bool {
        is_pass(
            self.black_hole,
            self.max_dist as int,
            self.kill_boundary,
            self.min_spawn_dist as int,
            self.max_spawn_dist as int,
            before,
            after,
        )
    }

    /// One pass of the physics over the live particles, replacements added after it,
    /// whether or not the simulation is paused.
    pub fn integrate(&mut self)
        requires
            old(self).wf(),
        ensures
            final(self).wf(),
            final(self).same_settings(*old(self)),
            old(self).pass_of(old(self).particles@, final(self).particles@),
    {
        let ghost start = self.particles@;
        let n = self.particles.len();
        let mut kept: Vec<Particle> = Vec::new();
        let mut born: Vec<Particle> = Vec::new();
        let mut i: usize = 0;
        while i < n
            invariant
                self.wf(),
                self.particles@ == start,
                n == start.len(),
                i <= n,
                kept@ == survivors(self.black_hole, self.max_dist as int, self.kill_boundary, start.take(i as int)),
                born@.len() == 2 * absorbed_count(self.black_hole, start.take(i as int)),
                forall|j: int| 0 <= j < kept@.len() ==> (#[trigger] kept@[j]).wf(),
                forall|j: int|
                    0 <= j < kept@.len() ==> dist2(self.black_hole.position, (#[trigger] kept@[j]).position)
                        <= self.max_dist * self.max_dist,
                forall|j: int|
                    0 <= j < born@.len() ==> (#[trigger] born@[j]).wf() && in_annulus(
                        self.black_hole.position,
                        self.min_spawn_dist as int,
                        self.max_spawn_dist as int,
                        born@[j].position,
                    ),
            decreases n - i,
        {
            proof {
                assert(start.take(i + 1).drop_last() == start.take(i as int));
                assert(start.take(i + 1).last() == start[i as int]);
            }
            let p = self.particles[i];
            match advance(&self.black_hole, self.max_dist, self.kill_boundary, &p) {
                Fate::Absorbed => {
                    let a = Particle::new_random(self.black_hole.position, self.min_spawn_dist, self.max_spawn_dist);
                    let b = Particle::new_random(self.black_hole.position, self.min_spawn_dist, self.max_spawn_dist);
                    born.push(a);
                    born.push(b);
                },
                Fate::Escaped => {},
                Fate::Moved(q) => {
                    kept.push(q);
                },
            }
            i = i + 1;
        }
        proof {
            assert(start.take(n as int) == start);
        }
        let ghost k = kept@;
        let ghost b = born@;
        kept.append(&mut born);
        self.particles = kept;
        proof {
            assert(self.particles@.take(k.len() as int) == k);
            assert forall|j: int| 0 <= j < k.len() implies dist2(
                self.black_hole.position,
                #[trigger] self.particles@[j].position,
            ) <= self.max_dist * self.max_dist by {
                assert(self.particles@[j] == k[j]);
            }
            assert forall|j: int| 0 <= j < self.particles@.len() implies (#[trigger] self.particles@[j]).wf() by {
                if j >= k.len() {
                    assert(self.particles@[j] == b[j - k.len()]);
                }
            }
            assert forall|j: int| k.len() <= j < self.particles@.len() implies in_annulus(
                self.black_hole.position,
                self.min_spawn_dist as int,
                self.max_spawn_dist as int,
                #[trigger] self.particles@[j].position,
            ) by {
                assert(self.particles@[j] == b[j - k.len()]);
            }
        }
    }
    /// Seeds an empty simulation with `RESEED_COUNT` particles in the spawn ring;
    /// leaves a populated one as it is.
    pub fn reseed_if_empty(&mut self)
        requires
            old(self).wf(),
        ensures
            final(self).wf(),
            final(self).same_settings(*old(self)),
            old(self).particles@.len() > 0 ==> final(self).particles@ == old(self).particles@,
            old(self).particles@.len() == 0 ==> final(self).particles@.len() == RESEED_COUNT,
            forall|j: int|
                0 <= j < final(self).particles@.len() && old(self).particles@.len() == 0 ==> in_annulus(
                    final(self).black_hole.position,
                    final(self).min_spawn_dist as int,
                    final(self).max_spawn_dist as int,
                    #[trigger] final(self).particles@[j].position,
                ),
    {
        if self.particles.len() > 0 {
            return;
        }
        let mut i: usize = 0;
        while i < RESEED_COUNT
            invariant
                self.wf(),
                self.same_settings(*old(self)),
                i <= RESEED_COUNT,
                self.particles@.len() == i,
                forall|j: int|
                    0 <= j < self.particles@.len() ==> in_annulus(
                        self.black_hole.position,
                        self.min_spawn_dist as int,
                        self.max_spawn_dist as int,
                        #[trigger] self.particles@[j].position,
                    ),
            decreases RESEED_COUNT - i,
        {
            let p = Particle::new_random(self.black_hole.position, self.min_spawn_dist, self.max_spawn_dist);
            self.particles.push(p);
            i = i + 1;
        }
    }

    /// Advances the simulation by one frame: nothing while paused; otherwise an empty
    /// simulation is seeded first, then every particle takes one step.
    pub fn update(&mut self)
        requires
            old(self).wf(),
        ensures
            final(self).wf(),
            old(self).paused ==> *final(self) == *old(self),
            final(self).same_settings(*old(self)),
            !old(self).paused && old(self).particles@.len() > 0 ==> old(self).pass_of(
                old(self).particles@,
                final(self).particles@,
            ),
            !old(self).paused && old(self).particles@.len() == 0 ==> exists|seeded: Seq<Particle>|
                {
                    &&& seeded.len() == RESEED_COUNT
                    &&& forall|j: int|
                        0 <= j < seeded.len() ==> in_annulus(
                            old(self).black_hole.position,
                            old(self).min_spawn_dist as int,
                            old(self).max_spawn_dist as int,
                            #[trigger] seeded[j].position,
                        )
                    &&& #[trigger] old(self).pass_of(seeded, final(self).particles@)
                },
    {
        if self.paused {
            return;
        }
        self.reseed_if_empty();
        let ghost seeded = self.particles@;
        self.integrate();
        proof {
            if old(self).particles@.len() == 0 {
                assert(old(self).pass_of(seeded, self.particles@));
            }
        }
    }

    /// Reports whether the settings and every particle lie in the allowed ranges.
    pub fn is_valid(&self) -> (r: bool)
        ensures
            r == self.wf(),
    {
        let w = &self.black_hole;
        if !(-MAX_COORD <= w.position.x && w.position.x <= MAX_COORD && -MAX_COORD <= w.position.y
            && w.position.y <= MAX_COORD && 0 <= w.radius && w.radius <= MAX_RANGE && 0 <= w.gravity
            && w.gravity <= MAX_GRAVITY && 0 <= self.max_dist && self.max_dist <= MAX_RANGE && 0
            <= self.min_spawn_dist && self.min_spawn_dist <= self.max_spawn_dist
            && self.max_spawn_dist <= MAX_RANGE && self.particle_radius >= 0) {
            return false;
        }
        let mut i: usize = 0;
        while i < self.particles.len()
            invariant
                self.config_wf(),
                i <= self.particles@.len(),
                forall|j: int| 0 <= j < i ==> (#[trigger] self.particles@[j]).wf(),
            decreases self.particles@.len() - i,
        {
            let p = self.particles[i];
            if !(-POS_BOUND <= p.position.x && p.position.x <= POS_BOUND && -POS_BOUND <= p.position.y
                && p.position.y <= POS_BOUND && -VEL_BOUND <= p.velocity.x && p.velocity.x <= VEL_BOUND
                && -VEL_BOUND <= p.velocity.y && p.velocity.y <= VEL_BOUND) {
                assert(!self.particles@[i as int].wf());
                return false;
            }
            i = i + 1;
        }
        true
    }

    /// A restored simulation when one is given and valid, the default otherwise.
    pub fn new(restored: Option<BlackHoleSimulation>) -> (r: Self)
        ensures
            r.wf(),
            restored is Some && restored->Some_0.wf() ==> r == restored->Some_0,
            !(restored is Some && restored->Some_0.wf()) ==> r.is_default(),
    {
        match restored {
            Some(s) => {
                if s.is_valid() {
                    return s;
                }
                Self::default()
            },
            None => Self::default(),
        }
    }

    /// The settings of a fresh simulation, and no particles.
    pub open spec fn is_default(self) -> bool {
        &&& self.particles@.len() == 0
        &&& self.black_hole == BlackHole {
            position: Point { x: 640_000, y: 400_000 },
            radius: 5_000,
            gravity: 500,
        }
        &&& self.max_dist == 500_000
        &&& self.particle_radius == 2_000
        &&& self.min_spawn_dist == 50_000
        &&& self.max_spawn_dist == 100_000
        &&& !self.paused
        &&& self.kill_boundary
        &&& self.dark_mode
    }

    /// Sets the inner spawn distance; the outer one moves out to a pixel beyond it
    /// when it would fall inside.
    pub fn set_min_spawn_dist(&mut self, v: i64)
        requires
            old(self).wf(),
            0 <= v <= MAX_RANGE - SCALE,
        ensures
            final(self).wf(),
            final(self).particles == old(self).particles,
            final(self).black_hole == old(self).black_hole,
            final(self).max_dist == old(self).max_dist,
            final(self).particle_radius == old(self).particle_radius,
            final(self).paused == old(self).paused,
            final(self).kill_boundary == old(self).kill_boundary,
            final(self).dark_mode == old(self).dark_mode,
            final(self).min_spawn_dist == v,
            final(self).max_spawn_dist == if v > old(self).max_spawn_dist {
                v + SCALE
            } else {
                old(self).max_spawn_dist as int
            },
    {
        self.min_spawn_dist = v;
        if self.min_spawn_dist > self.max_spawn_dist {
            self.max_spawn_dist = self.min_spawn_dist + SCALE;
        }
    }

    /// Sets the outer spawn distance; the inner one moves in to a pixel below it
    /// when it would fall outside.
    pub fn set_max_spawn_dist(&mut self, v: i64)
        requires
            old(self).wf(),
            SCALE <= v <= MAX_RANGE,
        ensures
            final(self).wf(),
            final(self).particles == old(self).particles,
            final(self).black_hole == old(self).black_hole,
            final(self).max_dist == old(self).max_dist,
            final(self).particle_radius == old(self).particle_radius,
            final(self).paused == old(self).paused,
            final(self).kill_boundary == old(self).kill_boundary,
            final(self).dark_mode == old(self).dark_mode,
            final(self).max_spawn_dist == v,
            final(self).min_spawn_dist == if v < old(self).min_spawn_dist {
                v - SCALE
            } else {
                old(self).min_spawn_dist as int
            },
    {
        self.max_spawn_dist = v;
        if self.max_spawn_dist < self.min_spawn_dist {
            self.min_spawn_dist = self.max_spawn_dist - SCALE;
        }
    }

    /// What the host draws: each particle's position and colour, in order.
    pub fn render_snapshot(&self) -> (r: Vec<(Point, Color)>)
        ensures
            r@.len() == self.particles@.len(),
            forall|j: int|
                0 <= j < r@.len() ==> #[trigger] r@[j] == (self.particles@[j].position, self.particles@[j].color),
    {
        let mut r: Vec<(Point, Color)> = Vec::new();
        let mut i: usize = 0;
        while i < self.particles.len()
            invariant
                i <= self.particles@.len(),
                r@.len() == i,
                forall|j: int| 0 <= j < i ==> #[trigger] r@[j] == (self.particles@[j].position, self.particles@[j].color),
            decreases self.particles@.len() - i,
        {
            r.push((self.particles[i].position, self.particles[i].color));
            i = i + 1;
        }
        r
    }
}

impl Default for BlackHoleSimulation {
    fn default() -> (r: Self)
        ensures
            r.is_default(),
            r.wf(),
    {
        BlackHoleSimulation {
            particles: Vec::new(),
            black_hole: BlackHole {
                position: Point { x: 640 * SCALE, y: 400 * SCALE },
                radius: 5 * SCALE,
                gravity: 500,
            },
            max_dist: 500 * SCALE,
            particle_radius: 2 * SCALE,
            min_spawn_dist: 50 * SCALE,
            max_spawn_dist: 100 * SCALE,
            paused: false,
            kill_boundary: true,
            dark_mode: true,
        }
    }
}

} // verus!
