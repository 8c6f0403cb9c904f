//! The burst particle field: particles pushed away from the pointer, drawn to each other
//! by an inverse-square pull, clamped inside the canvas, and spawned in batches on click.
use crate::color::{mix_rgb, mix_spec, Rgb};
use crate::render::{connection_strength, connection_strength_exec, DrawCmd};
use crate::geom::{
    ceil_sqrt, dist_sq, isqrt_ceil, lemma_norm_sq_monotone, lemma_scale_shrinks, limit_speed, limit_speed_i64,
    norm_sq, pull, pull_cubed, scale, scale_i64, COORD_LIMIT,
};
use crate::random::random_range;
use vstd::prelude::*;

verus! {

/// Fastest a burst particle moves, in milli-units per tick.
pub const MAX_SPEED: i64 = 3000;

/// Square of the distance within which the pointer pushes a particle (80 pixels).
pub const POINTER_REACH_SQ: u128 = 6_400_000_000;

/// Strength of the pointer's push: half a pixel over the distance in pixels.
pub const REPULSION: i64 = 500_000;

/// Strength of the pull between two particles: 0.02 over the squared distance in pixels,
/// applied along the offset as `0.02 * dx / d³`; in milli-units the factor is `0.02 * 10⁹`.
pub const ATTRACTION: i64 = 20_000_000;

/// Full life, in thousandths.
pub const LIFE_FULL: i64 = 1000;

/// Life lost per tick by a particle that is not at full life.
pub const LIFE_STEP: i64 = 10;

/// Life a burst particle starts with.
pub const BURST_LIFE: i64 = 700;

/// Particles spawned by one burst.
pub const BURST_COUNT: usize = 8;

/// Population that a burst does not exceed.
pub const MAX_PARTICLES: usize = 120;

/// Largest population a field can hold: each pair pulls by at most `ATTRACTION`, so with
/// this many particles the summed pull stays within `ACCEL_LIMIT`.
pub const PARTICLE_LIMIT: usize = 10_000;

/// Largest magnitude an acceleration component may take.
pub const ACCEL_LIMIT: i64 = 0x80_0000_0000;

/// Largest canvas side.
pub const CANVAS_LIMIT: i64 = 0x80_0000_0000;

/// Largest particle radius.
pub const RADIUS_LIMIT: i64 = 0x4000_0000;

/// A point or a displacement, in milli-units.
#[derive(Clone, Copy, Debug, PartialEq, Eq, Structural)]
pub struct Vec2 {
    pub x: i64,
    pub y: i64,
}

/// A burst-field particle. Alpha and life are in thousandths.
#[derive(Clone, Copy, Debug, PartialEq, Eq, Structural)]
pub struct Particle {
    pub position: Vec2,
    pub velocity: Vec2,
    pub acceleration: Vec2,
    pub radius: i64,
    pub color: Rgb,
    pub alpha: i64,
    pub life: i64,
}

/// A position reflected into `[lo, hi]`: a coordinate past a bound is set to the bound and
/// its velocity reversed and kept at six tenths.
pub open spec fn bounce(pos: int, vel: int, lo: int, hi: int) -> (int, int) {
    if pos < lo {
        (lo, scale(-vel, 6, 10))
    } else if pos > hi {
        (hi, scale(-vel, 6, 10))
    } else {
        (pos, vel)
    }
}

/// The pointer's push along one axis, `dx` being the pointer's offset from the particle.
pub open spec fn repulsion(dx: int, d2: int) -> int {
    if 0 < d2 < POINTER_REACH_SQ {
        -scale(dx, REPULSION as int, d2)
    } else {
        0
    }
}

/// Life and alpha after a tick: a particle below full life loses a step and shows its life
/// as alpha; one that reaches zero comes back at full life with the alpha `fresh`.
pub open spec fn next_life(life: int, alpha: int, fresh: int) -> (int, int) {
    if life < LIFE_FULL {
        let l = life - LIFE_STEP;
        if l <= 0 {
            (LIFE_FULL as int, fresh)
        } else {
            (l, l)
        }
    } else {
        (life, alpha)
    }
}

/// Whether a tick brings the particle back to full life.
pub open spec fn recycles(p: Particle) -> bool {
    p.life < LIFE_FULL && p.life - LIFE_STEP <= 0
}

/// One tick of a particle on a `w` by `h` canvas with the pointer at `(mx, my)`; `fresh`
/// is the alpha a recycled particle takes.
pub open spec fn step_spec(p: Particle, w: int, h: int, mx: int, my: int, fresh: int) -> Particle {
    let v = limit_speed(
        p.velocity.x + p.acceleration.x,
        p.velocity.y + p.acceleration.y,
        MAX_SPEED as int,
    );
    let bx = bounce(p.position.x + v.0, v.0, p.radius as int, w - p.radius);
    let by = bounce(p.position.y + v.1, v.1, p.radius as int, h - p.radius);
    let d2 = norm_sq(mx - bx.0, my - by.0);
    let lf = next_life(p.life as int, p.alpha as int, fresh);
    Particle {
        position: Vec2 { x: bx.0 as i64, y: by.0 as i64 },
        velocity: Vec2 { x: scale(bx.1, 99, 100) as i64, y: scale(by.1, 99, 100) as i64 },
        acceleration: Vec2 {
            x: repulsion(mx - bx.0, d2) as i64,
            y: repulsion(my - by.0, d2) as i64,
        },
        radius: p.radius,
        color: p.color,
        alpha: lf.1 as i64,
        life: lf.0 as i64,
    }
}

/// What holds of every particle that `Particle::new` makes at `(x, y)`.
pub open spec fn fresh_particle(p: Particle, x: int, y: int, is_burst: bool) -> bool {
    let vmax: int = if is_burst {
        2000
    } else {
        250
    };
    &&& p.position == Vec2 { x: x as i64, y: y as i64 }
    &&& -vmax <= p.velocity.x < vmax
    &&& -vmax <= p.velocity.y < vmax
    &&& p.acceleration == Vec2 { x: 0, y: 0 }
    &&& 150 <= p.color.r < 200
    &&& 180 <= p.color.g < 255
    &&& 200 <= p.color.b < 255
    &&& 2000 <= p.radius < 4000
    &&& 700 <= p.alpha < 1000
    &&& p.life == if is_burst {
        BURST_LIFE
    } else {
        LIFE_FULL
    }
}

pub open spec fn positions(ps: Seq<Particle>) -> Seq<Vec2> {
    ps.map_values(|p: Particle| p.position)
}

/// The pull on particle `i` from particle `j` within `reach2` (squared) of it: magnitude
/// `ATTRACTION / d²` toward `j`, zero where the two coincide.
pub open spec fn pair_force(pos: Seq<Vec2>, i: int, j: int, reach2: int) -> (int, int) {
    let dx = pos[j].x - pos[i].x;
    let dy = pos[j].y - pos[i].y;
    let d2 = norm_sq(dx, dy);
    if i != j && 0 < d2 < reach2 {
        let d = ceil_sqrt(d2);
        (scale(dx, ATTRACTION as int, d2 * d), scale(dy, ATTRACTION as int, d2 * d))
    } else {
        (0, 0)
    }
}

/// The pull on particle `i` from the particles before `k`.
pub open spec fn force_sum(pos: Seq<Vec2>, i: int, k: int, reach2: int) -> (int, int)
    decreases k,
{
    if k <= 0 {
        (0, 0)
    } else {
        let s = force_sum(pos, i, k - 1, reach2);
        let f = pair_force(pos, i, k - 1, reach2);
        (s.0 + f.0, s.1 + f.1)
    }
}

pub open spec fn add_accel(p: Particle, f: (int, int)) -> Particle {
    Particle {
        acceleration: Vec2 {
            x: (p.acceleration.x + f.0) as i64,
            y: (p.acceleration.y + f.1) as i64,
        },
        ..p
    }
}

/// Every particle with the pull of all the others added to its acceleration.
pub open spec fn with_forces(ps: Seq<Particle>, reach2: int) -> Seq<Particle> {
    Seq::new(ps.len(), |i: int| add_accel(ps[i], force_sum(positions(ps), i, ps.len() as int, reach2)))
}

/// Every particle after one tick, particle `i` taking the alpha `alphas[i]` if recycled.
pub open spec fn step_all(
    ps: Seq<Particle>,
    w: int,
    h: int,
    mx: int,
    my: int,
    alphas: Seq<i64>,
) -> Seq<Particle> {
    Seq::new(ps.len(), |i: int| step_spec(ps[i], w, h, mx, my, alphas[i] as int))
}

/// The squared reach of the pull between particles: four fifths of the connection distance.
pub open spec fn pull_reach_sq(max_dist: int) -> int {
    (max_dist * 4 / 5) * (max_dist * 4 / 5)
}

impl Particle {
    pub open spec fn wf(&self) -> bool {
        &&& -COORD_LIMIT <= self.position.x <= COORD_LIMIT
        &&& -COORD_LIMIT <= self.position.y <= COORD_LIMIT
        &&& norm_sq(self.velocity.x as int, self.velocity.y as int) <= MAX_SPEED * MAX_SPEED
        &&& -ACCEL_LIMIT <= self.acceleration.x <= ACCEL_LIMIT
        &&& -ACCEL_LIMIT <= self.acceleration.y <= ACCEL_LIMIT
        &&& 0 < self.radius <= RADIUS_LIMIT
        &&& 0 <= self.alpha <= LIFE_FULL
        &&& 0 <= self.life <= LIFE_FULL
    }

    /// A particle at `(x, y)` with a random velocity, colour, radius and alpha; a burst
    /// particle moves faster and starts below full life.
    pub fn new(x: i64, y: i64, is_burst: bool) -> (p: Particle)
        requires
            -COORD_LIMIT <= x <= COORD_LIMIT,
            -COORD_LIMIT <= y <= COORD_LIMIT,
        ensures
            fresh_particle(p, x as int, y as int, is_burst),
            p.wf(),
    {
        let vmax: i64 = if is_burst {
            2000
        } else {
            250
        };
        let vx = random_range(-vmax, vmax);
        let vy = random_range(-vmax, vmax);
        let r = random_range(150, 200) as u8;
        let g = random_range(180, 255) as u8;
        let b = random_range(200, 255) as u8;
        let radius = random_range(2000, 4000);
        let alpha = random_range(700, 1000);
        assert(vx * vx + vy * vy <= 2000 * 2000 + 2000 * 2000) by (nonlinear_arith)
            requires
                -2000 <= vx <= 2000,
                -2000 <= vy <= 2000,
        ;
        Particle {
            position: Vec2 { x, y },
            velocity: Vec2 { x: vx, y: vy },
            acceleration: Vec2 { x: 0, y: 0 },
            radius,
            color: Rgb { r, g, b },
            alpha,
            life: if is_burst {
                BURST_LIFE
            } else {
                LIFE_FULL
            },
        }
    }

    /// One tick on a `width` by `height` canvas with the pointer at `(mouse_x, mouse_y)`;
    /// a particle that reaches the end of its life takes the alpha `fresh_alpha`.
    pub fn step(&mut self, width: i64, height: i64, mouse_x: i64, mouse_y: i64, fresh_alpha: i64)
        requires
            old(self).wf(),
            0 < width <= CANVAS_LIMIT,
            0 < height <= CANVAS_LIMIT,
            -COORD_LIMIT <= mouse_x <= COORD_LIMIT,
            -COORD_LIMIT <= mouse_y <= COORD_LIMIT,
            0 <= fresh_alpha <= LIFE_FULL,
        ensures
            *final(self) == step_spec(
                *old(self),
                width as int,
                height as int,
                mouse_x as int,
                mouse_y as int,
                fresh_alpha as int,
            ),
            final(self).wf(),
            norm_sq(final(self).velocity.x as int, final(self).velocity.y as int) <= MAX_SPEED
                * MAX_SPEED,
            2 * old(self).radius <= width ==> old(self).radius <= final(self).position.x <= width
                - old(self).radius,
            2 * old(self).radius <= height ==> old(self).radius <= final(self).position.y
                <= height - old(self).radius,
            -REPULSION <= final(self).acceleration.x <= REPULSION,
            -REPULSION <= final(self).acceleration.y <= REPULSION,
    {
        proof {
            lemma_component_bound(self.velocity.x as int, self.velocity.y as int);
        }
        let v = limit_speed_i64(
            self.velocity.x + self.acceleration.x,
            self.velocity.y + self.acceleration.y,
            MAX_SPEED,
        );
        proof {
            lemma_component_bound(v.0 as int, v.1 as int);
        }
        let bx = bounce_exec(self.position.x + v.0, v.0, self.radius, width - self.radius);
        let by = bounce_exec(self.position.y + v.1, v.1, self.radius, height - self.radius);
        let d2 = dist_sq(bx.0, by.0, mouse_x, mouse_y);
        let dx = mouse_x - bx.0;
        let dy = mouse_y - by.0;
        assert(dx * dx <= d2 && dy * dy <= d2) by (nonlinear_arith)
            requires
                d2 == dx * dx + dy * dy,
        ;
        let (ax, ay) = if 0 < d2 && d2 < POINTER_REACH_SQ {
            (-pull(dx, REPULSION, d2), -pull(dy, REPULSION, d2))
        } else {
            (0, 0)
        };
        let vx = scale_i64(bx.1, 99, 100);
        let vy = scale_i64(by.1, 99, 100);
        proof {
            lemma_scale_shrinks(bx.1 as int, 99, 100);
            lemma_scale_shrinks(by.1 as int, 99, 100);
            lemma_scale_shrinks(-v.0, 6, 10);
            lemma_scale_shrinks(-v.1, 6, 10);
            lemma_norm_sq_monotone(vx as int, vy as int, v.0 as int, v.1 as int);
        }
        let (life, alpha) = if self.life < LIFE_FULL {
            let l = self.life - LIFE_STEP;
            if l <= 0 {
                (LIFE_FULL, fresh_alpha)
            } else {
                (l, l)
            }
        } else {
            (self.life, self.alpha)
        };
        self.position = Vec2 { x: bx.0, y: by.0 };
        self.velocity = Vec2 { x: vx, y: vy };
        self.acceleration = Vec2 { x: ax, y: ay };
        self.life = life;
        self.alpha = alpha;
    }

    /// One tick, as `step`; a particle that reaches the end of its life takes a random
    /// alpha in `[700, 1000)`.
    pub fn update(&mut self, width: i64, height: i64, mouse_x: i64, mouse_y: i64)
        requires
            old(self).wf(),
            0 < width <= CANVAS_LIMIT,
            0 < height <= CANVAS_LIMIT,
            -COORD_LIMIT <= mouse_x <= COORD_LIMIT,
            -COORD_LIMIT <= mouse_y <= COORD_LIMIT,
        ensures
            *final(self) == step_spec(
                *old(self),
                width as int,
                height as int,
                mouse_x as int,
                mouse_y as int,
                final(self).alpha as int,
            ),
            recycles(*old(self)) ==> 700 <= final(self).alpha < 1000,
            final(self).wf(),
            norm_sq(final(self).velocity.x as int, final(self).velocity.y as int) <= MAX_SPEED
                * MAX_SPEED,
            2 * old(self).radius <= width ==> old(self).radius <= final(self).position.x <= width
                - old(self).radius,
            2 * old(self).radius <= height ==> old(self).radius <= final(self).position.y
                <= height - old(self).radius,
            -REPULSION <= final(self).acceleration.x <= REPULSION,
            -REPULSION <= final(self).acceleration.y <= REPULSION,
    {
        let fresh = if self.life < LIFE_FULL && self.life - LIFE_STEP <= 0 {
            random_range(700, 1000)
        } else {
            self.alpha
        };
        self.step(width, height, mouse_x, mouse_y, fresh);
    }
}

/// A burst particle field on a `width` by `height` canvas.
pub struct ParticleSystem {
    pub particles: Vec<Particle>,
    pub width: i64,
    pub height: i64,
    /// Distance within which two particles are joined by a line; four fifths of it is the
    /// reach of their pull.
    pub max_connection_dist: i64,
}

pub open spec fn min_int(a: int, b: int) -> int {
    if a <= b {
        a
    } else {
        b
    }
}

pub open spec fn alphas(ps: Seq<Particle>) -> Seq<i64> {
    ps.map_values(|p: Particle| p.alpha)
}

impl ParticleSystem {
    pub open spec fn wf(&self) -> bool {
        &&& self.particles@.len() <= PARTICLE_LIMIT
        &&& forall|k: int| 0 <= k < self.particles@.len() ==> (#[trigger] self.particles@[k]).wf()
        &&& 0 < self.width <= CANVAS_LIMIT
        &&& 0 < self.height <= CANVAS_LIMIT
        &&& 0 < self.max_connection_dist <= CANVAS_LIMIT
    }

    /// A field of `count` slow particles at random places on the canvas.
    pub fn new(count: usize, width: i64, height: i64, max_connection_dist: i64) -> (s: Self)
        requires
            count <= PARTICLE_LIMIT,
            0 < width <= CANVAS_LIMIT,
            0 < height <= CANVAS_LIMIT,
            0 < max_connection_dist <= CANVAS_LIMIT,
        ensures
            s.wf(),
            s.particles@.len() == count,
            s.width == width,
            s.height == height,
            s.max_connection_dist == max_connection_dist,
            forall|k: int|
                0 <= k < count ==> {
                    let p = #[trigger] s.particles@[k];
                    &&& 0 <= p.position.x < width
                    &&& 0 <= p.position.y < height
                    &&& fresh_particle(p, p.position.x as int, p.position.y as int, false)
                },
    {
        let mut particles: Vec<Particle> = Vec::new();
        let mut i: usize = 0;
        while i < count
            invariant
                i <= count <= PARTICLE_LIMIT,
                0 < width <= CANVAS_LIMIT,
                0 < height <= CANVAS_LIMIT,
                particles@.len() == i,
                forall|k: int|
                    0 <= k < i ==> {
                        let p = #[trigger] particles@[k];
                        &&& p.wf()
                        &&& 0 <= p.position.x < width
                        &&& 0 <= p.position.y < height
                        &&& fresh_particle(p, p.position.x as int, p.position.y as int, false)
                    },
            decreases count - i,
        {
            let x = random_range(0, width);
            let y = random_range(0, height);
            particles.push(Particle::new(x, y, false));
            i = i + 1;
        }
        ParticleSystem { particles, width, height, max_connection_dist }
    }

    /// One tick: every particle moves, then each is pulled toward the others within reach.
    /// A particle that reaches the end of its life takes a random alpha in `[700, 1000)`.
    pub fn update(&mut self, mouse_x: i64, mouse_y: i64)
        requires
            old(self).wf(),
            -COORD_LIMIT <= mouse_x <= COORD_LIMIT,
            -COORD_LIMIT <= mouse_y <= COORD_LIMIT,
        ensures
            final(self).wf(),
            final(self).width == old(self).width,
            final(self).height == old(self).height,
            final(self).max_connection_dist == old(self).max_connection_dist,
            final(self).particles@ == with_forces(
                step_all(
                    old(self).particles@,
                    old(self).width as int,
                    old(self).height as int,
                    mouse_x as int,
                    mouse_y as int,
                    alphas(final(self).particles@),
                ),
                pull_reach_sq(old(self).max_connection_dist as int),
            ),
            forall|k: int|
                0 <= k < final(self).particles@.len() ==> {
                    let p = #[trigger] final(self).particles@[k];
                    let r = old(self).particles@[k].radius;
                    &&& norm_sq(p.velocity.x as int, p.velocity.y as int) <= MAX_SPEED * MAX_SPEED
                    &&& 2 * r <= old(self).width ==> r <= p.position.x <= old(self).width - r
                    &&& 2 * r <= old(self).height ==> r <= p.position.y <= old(self).height - r
                    &&& recycles(old(self).particles@[k]) ==> 700 <= p.alpha < 1000
                },
    {
        let n = self.particles.len();
        let ghost w = self.width as int;
        let ghost h = self.height as int;
        let mut i: usize = 0;
        while i < n
            invariant
                self.wf(),
                i <= n == self.particles@.len(),
                w == self.width as int,
                h == self.height as int,
                self.width == old(self).width,
                self.height == old(self).height,
                self.max_connection_dist == old(self).max_connection_dist,
                -COORD_LIMIT <= mouse_x <= COORD_LIMIT,
                -COORD_LIMIT <= mouse_y <= COORD_LIMIT,
                forall|k: int|
                    0 <= k < i ==> {
                        let p = #[trigger] self.particles@[k];
                        let r = old(self).particles@[k].radius;
                        &&& p == step_spec(
                            old(self).particles@[k],
                            w,
                            h,
                            mouse_x as int,
                            mouse_y as int,
                            p.alpha as int,
                        )
                        &&& -REPULSION <= p.acceleration.x <= REPULSION
                        &&& -REPULSION <= p.acceleration.y <= REPULSION
                        &&& norm_sq(p.velocity.x as int, p.velocity.y as int) <= MAX_SPEED
                            * MAX_SPEED
                        &&& 2 * r <= w ==> r <= p.position.x <= w - r
                        &&& 2 * r <= h ==> r <= p.position.y <= h - r
                        &&& recycles(old(self).particles@[k]) ==> 700 <= p.alpha < 1000
                    },
                forall|k: int| i <= k < n ==> #[trigger] self.particles@[k] == old(self).particles@[k],
            decreases n - i,
        {
            let mut p = self.particles[i];
            let ghost before = self.particles@;
            assert(p == old(self).particles@[i as int]);
            p.update(self.width, self.height, mouse_x, mouse_y);
            self.particles.set(i, p);
            assert(self.particles@[i as int] == p);
            assert(forall|k: int| 0 <= k < n && k != i ==> self.particles@[k] == before[k]);
            i = i + 1;
        }
        let ghost stepped = self.particles@;
        assert(step_all(old(self).particles@, w, h, mouse_x as int, mouse_y as int, alphas(stepped))
            =~= stepped);
        self.apply_particle_forces();
        assert(alphas(self.particles@) =~= alphas(stepped));
    }

    /// Adds to each particle's acceleration the pull of every other particle within four
    /// fifths of the connection distance: `0.02 / distance²` toward it, in pixels (`pair_force`).
    fn apply_particle_forces(&mut self)
        requires
            old(self).wf(),
            forall|k: int|
                0 <= k < old(self).particles@.len() ==> {
                    let p = #[trigger] old(self).particles@[k];
                    &&& -REPULSION <= p.acceleration.x <= REPULSION
                    &&& -REPULSION <= p.acceleration.y <= REPULSION
                },
        ensures
            final(self).wf(),
            final(self).width == old(self).width,
            final(self).height == old(self).height,
            final(self).max_connection_dist == old(self).max_connection_dist,
            final(self).particles@ == with_forces(
                old(self).particles@,
                pull_reach_sq(old(self).max_connection_dist as int),
            ),
    {
        let n = self.particles.len();
        let ghost ps = self.particles@;
        let ghost pos = positions(ps);
        let reach = self.max_connection_dist / 5 * 4 + self.max_connection_dist % 5 * 4 / 5;
        assert(reach == self.max_connection_dist * 4 / 5);
        assert(0 <= reach * reach <= 0x4000_0000_0000_0000_0000) by (nonlinear_arith)
            requires
                0 <= reach <= 0x80_0000_0000,
        ;
        let reach2 = (reach as u128) * (reach as u128);
        let mut snapshot: Vec<Vec2> = Vec::new();
        let mut k: usize = 0;
        while k < n
            invariant
                k <= n == ps.len(),
                self.particles@ == ps,
                snapshot@ == pos.subrange(0, k as int),
                pos == positions(ps),
            decreases n - k,
        {
            snapshot.push(self.particles[k].position);
            k = k + 1;
            assert(snapshot@ =~= pos.subrange(0, k as int));
        }
        assert(snapshot@ =~= pos);
        let mut i: usize = 0;
        while i < n
            invariant
                self.wf(),
                i <= n == ps.len() == snapshot@.len(),
                self.particles@.len() == n,
                n <= PARTICLE_LIMIT,
                snapshot@ == pos,
                pos == positions(ps),
                reach2 == pull_reach_sq(old(self).max_connection_dist as int),
                reach2 <= 0x4000_0000_0000_0000_0000,
                0 <= reach <= 0x80_0000_0000,
                reach2 == reach * reach,
                ps == old(self).particles@,
                self.width == old(self).width,
                self.height == old(self).height,
                self.max_connection_dist == old(self).max_connection_dist,
                forall|q: int| 0 <= q < n ==> -COORD_LIMIT <= (#[trigger] pos[q]).x <= COORD_LIMIT,
                forall|q: int| 0 <= q < n ==> -COORD_LIMIT <= (#[trigger] pos[q]).y <= COORD_LIMIT,
                forall|q: int|
                    0 <= q < i ==> #[trigger] self.particles@[q] == with_forces(ps, reach2 as int)[q],
                forall|q: int|
                    i <= q < n ==> {
                        let p = #[trigger] self.particles@[q];
                        &&& p == ps[q]
                        &&& -REPULSION <= p.acceleration.x <= REPULSION
                        &&& -REPULSION <= p.acceleration.y <= REPULSION
                    },
            decreases n - i,
        {
            let mut fx: i64 = 0;
            let mut fy: i64 = 0;
            let mut j: usize = 0;
            let pi = snapshot[i];
            while j < n
                invariant
                    i < n == snapshot@.len(),
                    j <= n <= PARTICLE_LIMIT,
                    snapshot@ == pos,
                    pi == pos[i as int],
                    forall|q: int| 0 <= q < n ==> -COORD_LIMIT <= (#[trigger] pos[q]).x <= COORD_LIMIT,
                    forall|q: int| 0 <= q < n ==> -COORD_LIMIT <= (#[trigger] pos[q]).y <= COORD_LIMIT,
                    (fx as int, fy as int) == force_sum(pos, i as int, j as int, reach2 as int),
                    -20_000_000 * (j as int) <= fx <= 20_000_000 * (j as int),
                    -20_000_000 * (j as int) <= fy <= 20_000_000 * (j as int),
                    reach2 <= 0x4000_0000_0000_0000_0000,
                    0 <= reach <= 0x80_0000_0000,
                    reach2 == reach * reach,
                decreases n - j,
            {
                let pj = snapshot[j];
                let d2 = dist_sq(pi.x, pi.y, pj.x, pj.y);
                let dx = pj.x - pi.x;
                let dy = pj.y - pi.y;
                assert(dx * dx <= d2 && dy * dy <= d2) by (nonlinear_arith)
                    requires
                        d2 == dx * dx + dy * dy,
                ;
                if i != j && 0 < d2 && d2 < reach2 {
                    let d = isqrt_ceil(d2);
                    assert(0 < d <= reach) by (nonlinear_arith)
                        requires
                            d2 < reach * reach,
                            d2 <= d * d,
                            d == 0 || (d - 1) * (d - 1) < d2,
                            d >= 0,
                            d2 > 0,
                            reach >= 0,
                    ;
                    fx = fx + pull_cubed(dx, ATTRACTION, d2, d);
                    fy = fy + pull_cubed(dy, ATTRACTION, d2, d);
                }
                j = j + 1;
            }
            let mut p = self.particles[i];
            let ghost before = self.particles@;
            p.acceleration = Vec2 { x: p.acceleration.x + fx, y: p.acceleration.y + fy };
            assert(p == with_forces(ps, reach2 as int)[i as int]);
            self.particles.set(i, p);
            assert(self.particles@[i as int] == p);
            assert(forall|k: int| 0 <= k < n && k != i ==> self.particles@[k] == before[k]);
            i = i + 1;
        }
        assert(self.particles@ =~= with_forces(ps, reach2 as int));
    }

    /// Spawns a burst of eight particles at `(x, y)`, first dropping the oldest particles
    /// where the population would pass 120.
    pub fn create_burst(&mut self, x: i64, y: i64)
        requires
            old(self).wf(),
            -COORD_LIMIT <= x <= COORD_LIMIT,
            -COORD_LIMIT <= y <= COORD_LIMIT,
        ensures
            final(self).wf(),
            final(self).width == old(self).width,
            final(self).height == old(self).height,
            final(self).max_connection_dist == old(self).max_connection_dist,
            final(self).particles@.len() == min_int(
                old(self).particles@.len() + BURST_COUNT,
                MAX_PARTICLES as int,
            ),
            forall|k: int|
                0 <= k < final(self).particles@.len() - BURST_COUNT ==> #[trigger] final(self).particles@[k]
                    == old(self).particles@[old(self).particles@.len() + BURST_COUNT - final(self).particles@.len() + k],
            forall|k: int|
                final(self).particles@.len() - BURST_COUNT <= k < final(self).particles@.len()
                    ==> fresh_particle(#[trigger] final(self).particles@[k], x as int, y as int, true),
    {
        let n = self.particles.len();
        if n + BURST_COUNT > MAX_PARTICLES {
            let drop = n + BURST_COUNT - MAX_PARTICLES;
            let mut kept: Vec<Particle> = Vec::new();
            let mut k: usize = drop;
            while k < n
                invariant
                    drop <= k <= n == old(self).particles@.len(),
                    self.particles@ == old(self).particles@,
                    kept@ == old(self).particles@.subrange(drop as int, k as int),
                decreases n - k,
            {
                kept.push(self.particles[k]);
                k = k + 1;
                assert(kept@ =~= old(self).particles@.subrange(drop as int, k as int));
            }
            self.particles = kept;
        }
        let ghost base = self.particles@;
        let mut c: usize = 0;
        while c < BURST_COUNT
            invariant
                c <= BURST_COUNT,
                self.particles@.len() == base.len() + c,
                base.len() + BURST_COUNT == min_int(n + BURST_COUNT, MAX_PARTICLES as int),
                self.particles@.subrange(0, base.len() as int) == base,
                forall|q: int| 0 <= q < base.len() ==> (#[trigger] base[q]).wf(),
                forall|q: int|
                    base.len() <= q < self.particles@.len() ==> {
                        &&& fresh_particle(#[trigger] self.particles@[q], x as int, y as int, true)
                        &&& self.particles@[q].wf()
                    },
                self.width == old(self).width,
                self.height == old(self).height,
                self.max_connection_dist == old(self).max_connection_dist,
                old(self).wf(),
                -COORD_LIMIT <= x <= COORD_LIMIT,
                -COORD_LIMIT <= y <= COORD_LIMIT,
                forall|q: int|
                    0 <= q < base.len() ==> #[trigger] base[q] == old(self).particles@[n - base.len() + q],
            decreases BURST_COUNT - c,
        {
            let ghost before = self.particles@;
            self.particles.push(Particle::new(x, y, true));
            assert(self.particles@.subrange(0, base.len() as int) =~= before.subrange(
                0,
                base.len() as int,
            ));
            c = c + 1;
        }
        assert forall|q: int| 0 <= q < base.len() implies #[trigger] self.particles@[q] == base[q] by {
            assert(self.particles@.subrange(0, base.len() as int)[q] == self.particles@[q]);
        }
    }
}

/// The colour of a particle's glow.
pub open spec fn glow_color() -> Rgb {
    Rgb { r: 200, g: 220, b: 255 }
}

/// The line joining two particles closer than `max`, in the mean of their colours: its
/// alpha is half its strength times both alphas, its width 0.8 pixels times its strength.
pub open spec fn burst_line(p: Particle, q: Particle, max: int) -> Seq<DrawCmd> {
    let d2 = norm_sq(p.position.x - q.position.x, p.position.y - q.position.y);
    if d2 < max * max {
        let st = connection_strength(ceil_sqrt(d2), max);
        seq![
            DrawCmd::Line {
                x1: p.position.x,
                y1: p.position.y,
                x2: q.position.x,
                y2: q.position.y,
                color: mix_spec(p.color, q.color),
                alpha: (st * p.alpha * q.alpha / 2_000_000) as i64,
                width: (st * 8 / 10_000) as i64,
            },
        ]
    } else {
        seq![]
    }
}

/// The lines from particle `i` to the particles after it and before `k`.
pub open spec fn burst_lines_from(ps: Seq<Particle>, i: int, k: int, max: int) -> Seq<DrawCmd>
    decreases k - i,
{
    if k <= i + 1 {
        seq![]
    } else {
        burst_lines_from(ps, i, k - 1, max) + burst_line(ps[i], ps[k - 1], max)
    }
}

/// The lines of every pair whose first particle comes before `i`.
pub open spec fn burst_all_lines(ps: Seq<Particle>, i: int, max: int) -> Seq<DrawCmd>
    decreases i,
{
    if i <= 0 {
        seq![]
    } else {
        burst_all_lines(ps, i - 1, max) + burst_lines_from(ps, i - 1, ps.len() as int, max)
    }
}

/// A particle as a disc with a faint glow twice its radius around it.
pub open spec fn particle_cmds(p: Particle) -> Seq<DrawCmd> {
    seq![
        DrawCmd::Circle {
            x: p.position.x,
            y: p.position.y,
            radius: p.radius,
            color: p.color,
            alpha: (p.alpha * 1000) as i64,
        },
        DrawCmd::Circle {
            x: p.position.x,
            y: p.position.y,
            radius: (p.radius * 2) as i64,
            color: glow_color(),
            alpha: (p.alpha * 200) as i64,
        },
    ]
}

/// The discs of the particles before `k`.
pub open spec fn all_particle_cmds(ps: Seq<Particle>, k: int) -> Seq<DrawCmd>
    decreases k,
{
    if k <= 0 {
        seq![]
    } else {
        all_particle_cmds(ps, k - 1) + particle_cmds(ps[k - 1])
    }
}

impl Particle {
    /// The drawing commands of the particle.
    pub fn draw(&self) -> (cmds: Vec<DrawCmd>)
        requires
            self.wf(),
        ensures
            cmds@ == particle_cmds(*self),
    {
        let mut cmds: Vec<DrawCmd> = Vec::new();
        cmds.push(
            DrawCmd::Circle {
                x: self.position.x,
                y: self.position.y,
                radius: self.radius,
                color: self.color,
                alpha: self.alpha * 1000,
            },
        );
        cmds.push(
            DrawCmd::Circle {
                x: self.position.x,
                y: self.position.y,
                radius: self.radius * 2,
                color: Rgb { r: 200, g: 220, b: 255 },
                alpha: self.alpha * 200,
            },
        );
        assert(cmds@ =~= particle_cmds(*self));
        cmds
    }
}

fn burst_line_between(p: &Particle, q: &Particle, max: i64) -> (r: Option<DrawCmd>)
    requires
        p.wf(),
        q.wf(),
        0 < max <= CANVAS_LIMIT,
    ensures
        burst_line(*p, *q, max as int) == match r {
            Some(c) => seq![c],
            None => Seq::<DrawCmd>::empty(),
        },
{
    let d2 = dist_sq(q.position.x, q.position.y, p.position.x, p.position.y);
    assert(0 <= max * max <= 0x40_0000_0000_0000_0000_0000) by (nonlinear_arith)
        requires
            0 < max <= 0x80_0000_0000,
    ;
    if d2 < (max as u128) * (max as u128) {
        let d = isqrt_ceil(d2);
        assert(d <= max) by (nonlinear_arith)
            requires
                d2 < max * max,
                d == 0 || (d - 1) * (d - 1) < d2,
                d >= 0,
                max > 0,
        ;
        let st = connection_strength_exec(d as i64, max);
        assert(0 <= st * p.alpha <= 1_000_000_000 && 0 <= st * p.alpha * q.alpha <= 1_000_000_000_000)
            by (nonlinear_arith)
            requires
                0 <= st <= 1_000_000,
                0 <= p.alpha <= 1000,
                0 <= q.alpha <= 1000,
        ;
        Some(
            DrawCmd::Line {
                x1: p.position.x,
                y1: p.position.y,
                x2: q.position.x,
                y2: q.position.y,
                color: mix_rgb(p.color, q.color),
                alpha: st * p.alpha * q.alpha / 2_000_000,
                width: st * 8 / 10_000,
            },
        )
    } else {
        None
    }
}

impl ParticleSystem {
    /// The connection lines of one frame, every close pair once.
    pub fn draw_connections(&self) -> (cmds: Vec<DrawCmd>)
        requires
            self.wf(),
        ensures
            cmds@ == burst_all_lines(
                self.particles@,
                self.particles@.len() as int,
                self.max_connection_dist as int,
            ),
    {
        let ps = &self.particles;
        let max = self.max_connection_dist;
        let mut out: Vec<DrawCmd> = Vec::new();
        let n = ps.len();
        let mut i: usize = 0;
        while i < n
            invariant
                i <= n == ps@.len(),
                self.wf(),
                ps == &self.particles,
                max == self.max_connection_dist,
                out@ == burst_all_lines(ps@, i as int, max as int),
            decreases n - i,
        {
            let mut j: usize = i + 1;
            let ghost base = out@;
            assert(burst_lines_from(ps@, i as int, j as int, max as int) =~= seq![]);
            assert(base =~= base + burst_lines_from(ps@, i as int, j as int, max as int));
            while j < n
                invariant
                    i < j <= n == ps@.len(),
                    self.wf(),
                    ps == &self.particles,
                    max == self.max_connection_dist,
                    base == burst_all_lines(ps@, i as int, max as int),
                    out@ == base + burst_lines_from(ps@, i as int, j as int, max as int),
                decreases n - j,
            {
                let c = burst_line_between(&ps[i], &ps[j], max);
                let ghost before = out@;
                match c {
                    Some(cmd) => {
                        out.push(cmd);
                    },
                    None => {},
                }
                assert(out@ =~= before + burst_line(ps@[i as int], ps@[j as int], max as int));
                j = j + 1;
                assert(out@ =~= base + burst_lines_from(ps@, i as int, j as int, max as int));
            }
            i = i + 1;
            assert(out@ =~= burst_all_lines(ps@, i as int, max as int));
        }
        out
    }

    /// The drawing commands of one frame: the connection lines, then the particles.
    pub fn draw(&self) -> (cmds: Vec<DrawCmd>)
        requires
            self.wf(),
        ensures
            cmds@ == burst_all_lines(
                self.particles@,
                self.particles@.len() as int,
                self.max_connection_dist as int,
            ) + all_particle_cmds(self.particles@, self.particles@.len() as int),
    {
        let mut cmds = self.draw_connections();
        let ghost head = cmds@;
        let n = self.particles.len();
        let mut i: usize = 0;
        while i < n
            invariant
                i <= n == self.particles@.len(),
                self.wf(),
                cmds@ == head + all_particle_cmds(self.particles@, i as int),
            decreases n - i,
        {
            let mut more = self.particles[i].draw();
            let ghost before = cmds@;
            cmds.append(&mut more);
            i = i + 1;
            assert(cmds@ =~= head + all_particle_cmds(self.particles@, i as int));
        }
        cmds
    }
}

/// A velocity within the speed limit has components within it.
proof fn lemma_component_bound(vx: int, vy: int)
    requires
        norm_sq(vx, vy) <= MAX_SPEED * MAX_SPEED,
    ensures
        -MAX_SPEED <= vx <= MAX_SPEED,
        -MAX_SPEED <= vy <= MAX_SPEED,
{
    assert(-3000 <= vx <= 3000 && -3000 <= vy <= 3000) by (nonlinear_arith)
        requires
            vx * vx + vy * vy <= 3000 * 3000,
    ;
}

fn bounce_exec(pos: i64, vel: i64, lo: i64, hi: i64) -> (r: (i64, i64))
    requires
        -MAX_SPEED <= vel <= MAX_SPEED,
    ensures
        r.0 == bounce(pos as int, vel as int, lo as int, hi as int).0,
        r.1 == bounce(pos as int, vel as int, lo as int, hi as int).1,
{
    if pos < lo {
        (lo, scale_i64(-vel, 6, 10))
    } else if pos > hi {
        (hi, scale_i64(-vel, 6, 10))
    } else {
        (pos, vel)
    }
}

} // verus!
