//! The ambient particle field: slow particles with depth, jittering, reflected at the canvas
//! edges, drawn toward the pressed pointer or away from the hovering one, and joined by
//! lines when close.
use crate::color::{mix_rgb, mix_spec, Rgb};
use crate::geom::{
    ceil_sqrt, clamp, clamp_i64, dist_sq, isqrt_ceil, limit_speed,
    limit_speed_i64, norm_sq, scale, scale_i64, COORD_LIMIT,
};
use crate::random::{random_range, rng_range, seeded_rng};
use crate::render::{connection_strength, connection_strength_exec, DrawCmd};
use rand::rngs::SmallRng;
use vstd::prelude::*;

verus! {

/// Fastest an ambient particle moves, in milli-units per tick.
pub const MAX_SPEED: i64 = 1500;

/// Largest random change of a velocity component per tick.
pub const JITTER: i64 = 80;

/// Distance within which the pointer acts on a particle (80 pixels).
pub const POINTER_REACH: i64 = 80_000;

/// Distance within which two particles are joined by a line (60 pixels).
pub const CONNECT_DIST: i64 = 60_000;

/// Width of a connection line.
pub const LINE_WIDTH: i64 = 500;

/// Largest particle size a configuration may ask for.
pub const SIZE_LIMIT: i64 = 0x4000_0000;

/// Largest canvas side.
pub const CANVAS_LIMIT: i64 = 0x80_0000_0000;

/// Seed of the generator that places and shapes the particles.
pub const SEED: u64 = 42;

/// Settings of an ambient field; sizes are in milli-units.
#[derive(Clone, Copy, Debug, PartialEq, Eq, Structural)]
pub struct ParticleConfig {
    pub initial_count: usize,
    pub click_add_count: usize,
    pub min_size: i64,
    pub max_size: i64,
}

/// An ambient particle. Depth `z` and opacity are in thousandths.
#[derive(Clone, Copy, Debug, PartialEq, Eq, Structural)]
pub struct AmbientParticle {
    pub x: i64,
    pub y: i64,
    pub z: i64,
    pub size: i64,
    pub speed_x: i64,
    pub speed_y: i64,
    pub color: Rgb,
    pub opacity: i64,
}

impl ParticleConfig {
    pub open spec fn wf(&self) -> bool {
        &&& 0 <= self.min_size < self.max_size <= SIZE_LIMIT
    }

    /// The settings used unless others are given: 400 particles, 10 more per click, sizes
    /// from 3 to 6 pixels.
    pub fn new() -> (c: ParticleConfig)
        ensures
            c.wf(),
            c == (ParticleConfig { initial_count: 400, click_add_count: 10, min_size: 3000, max_size: 6000 }),
    {
        ParticleConfig { initial_count: 400, click_add_count: 10, min_size: 3000, max_size: 6000 }
    }
}

/// Replaces the settings in `config` when their sizes are usable
/// (`0 <= min_size < max_size`) and says whether it did.
pub fn set_particle_config(
    config: &mut ParticleConfig,
    initial_count: usize,
    click_add_count: usize,
    min_size: i64,
    max_size: i64,
) -> (applied: bool)
    ensures
        applied == (0 <= min_size < max_size <= SIZE_LIMIT),
        applied ==> *final(config) == (ParticleConfig {
            initial_count,
            click_add_count,
            min_size,
            max_size,
        }),
        !applied ==> *final(config) == *old(config),
{
    if 0 <= min_size && min_size < max_size && max_size <= SIZE_LIMIT {
        *config = ParticleConfig { initial_count, click_add_count, min_size, max_size };
        true
    } else {
        false
    }
}

/// Whether `c` belongs to colour scheme `k`: blue, purple, green, orange or pink.
pub open spec fn in_scheme(c: Rgb, k: int) -> bool {
    if k == 0 {
        50 <= c.r < 150 && 120 <= c.g < 200 && 180 <= c.b < 255
    } else if k == 1 {
        120 <= c.r < 200 && 50 <= c.g < 150 && 180 <= c.b < 255
    } else if k == 2 {
        50 <= c.r < 150 && 180 <= c.g < 255 && 100 <= c.b < 200
    } else if k == 3 {
        200 <= c.r < 255 && 150 <= c.g < 230 && 50 <= c.b < 120
    } else {
        200 <= c.r < 255 && 100 <= c.g < 180 && 150 <= c.b < 230
    }
}

/// `v` scaled by the depth `z` (in thousandths).
pub open spec fn by_depth(v: int, z: int) -> int {
    v * z / 1000
}

/// What holds of every particle that `AmbientParticle::new` makes at `(x, y)`.
pub open spec fn fresh_ambient(p: AmbientParticle, x: int, y: int, config: ParticleConfig) -> bool {
    &&& p.x == x
    &&& p.y == y
    &&& 100 <= p.z < 1000
    &&& (exists|k: int| 0 <= k < 5 && in_scheme(p.color, k))
    &&& (exists|s: int| config.min_size <= s < config.max_size && p.size == #[trigger] by_depth(s, p.z as int))
    &&& -300 <= p.speed_x < 300
    &&& -300 <= p.speed_y < 300
    &&& (exists|o: int| 300 <= o < 800 && p.opacity == #[trigger] by_depth(o, p.z as int))
}

/// The pointer's pull (pressed) or push (hovering) on one velocity component: `dx` is the
/// pointer's offset from the particle and `d` the distance, rounded up.
pub open spec fn pointer_force(dx: int, d: int, pressed: bool) -> int {
    if pressed {
        scale(dx, 8, d + 1000)
    } else {
        -scale(dx, 4, d + 1000)
    }
}

/// One tick of an ambient particle on a `w` by `h` canvas, with the pointer at `(mx, my)`
/// and the random velocity changes `(jx, jy)`.
pub open spec fn ambient_step(
    p: AmbientParticle,
    mx: int,
    my: int,
    pressed: bool,
    w: int,
    h: int,
    jx: int,
    jy: int,
) -> AmbientParticle {
    let sx = p.speed_x + jx;
    let sy = p.speed_y + jy;
    let x = clamp(p.x + sx, -COORD_LIMIT, COORD_LIMIT as int);
    let y = clamp(p.y + sy, -COORD_LIMIT, COORD_LIMIT as int);
    let sx1 = if x < 0 || x > w {
        -sx
    } else {
        sx
    };
    let sy1 = if y < 0 || y > h {
        -sy
    } else {
        sy
    };
    let d2 = norm_sq(mx - x, my - y);
    let d = ceil_sqrt(d2);
    let sx2 = if d2 < POINTER_REACH * POINTER_REACH {
        sx1 + pointer_force(mx - x, d, pressed)
    } else {
        sx1
    };
    let sy2 = if d2 < POINTER_REACH * POINTER_REACH {
        sy1 + pointer_force(my - y, d, pressed)
    } else {
        sy1
    };
    let v = limit_speed(scale(sx2, 99, 100), scale(sy2, 99, 100), MAX_SPEED as int);
    AmbientParticle { x: x as i64, y: y as i64, speed_x: v.0 as i64, speed_y: v.1 as i64, ..p }
}

/// Whether `p` is what a tick makes of `q` for some random velocity changes; then `p`
/// is within the speed limit, and within one step of the canvas if `q` was on it.
pub open spec fn ticked(
    p: AmbientParticle,
    q: AmbientParticle,
    mx: int,
    my: int,
    pressed: bool,
    w: int,
    h: int,
) -> bool {
    &&& exists|jx: int, jy: int|
        -JITTER <= jx < JITTER && -JITTER <= jy < JITTER && p == #[trigger] ambient_step(
            q,
            mx,
            my,
            pressed,
            w,
            h,
            jx,
            jy,
        )
    &&& norm_sq(p.speed_x as int, p.speed_y as int) <= MAX_SPEED * MAX_SPEED
    &&& 0 <= q.x <= w ==> -(MAX_SPEED + JITTER) <= p.x <= w + MAX_SPEED + JITTER
    &&& 0 <= q.y <= h ==> -(MAX_SPEED + JITTER) <= p.y <= h + MAX_SPEED + JITTER
}

/// The velocity `(sx, sy)` of a particle at `(x, y)` after the pointer's pull or push.
fn pointer_velocity(x: i64, y: i64, mouse_x: i64, mouse_y: i64, pressed: bool, sx: i64, sy: i64) -> (r: (i64, i64))
    requires
        -COORD_LIMIT <= x <= COORD_LIMIT,
        -COORD_LIMIT <= y <= COORD_LIMIT,
        -COORD_LIMIT <= mouse_x <= COORD_LIMIT,
        -COORD_LIMIT <= mouse_y <= COORD_LIMIT,
        -(MAX_SPEED + JITTER) <= sx <= MAX_SPEED + JITTER,
        -(MAX_SPEED + JITTER) <= sy <= MAX_SPEED + JITTER,
    ensures
        ({
            let d2 = norm_sq(mouse_x - x, mouse_y - y);
            let d = ceil_sqrt(d2);
            &&& r.0 == if d2 < POINTER_REACH * POINTER_REACH {
                sx + pointer_force(mouse_x - x, d, pressed)
            } else {
                sx as int
            }
            &&& r.1 == if d2 < POINTER_REACH * POINTER_REACH {
                sy + pointer_force(mouse_y - y, d, pressed)
            } else {
                sy as int
            }
        }),
        -(MAX_SPEED + JITTER + 80_000) <= r.0 <= MAX_SPEED + JITTER + 80_000,
        -(MAX_SPEED + JITTER + 80_000) <= r.1 <= MAX_SPEED + JITTER + 80_000,
{
    let d2 = dist_sq(x, y, mouse_x, mouse_y);
    let dx = mouse_x - x;
    let dy = mouse_y - y;
    if d2 < (POINTER_REACH as u128) * (POINTER_REACH as u128) {
        let d = isqrt_ceil(d2);
        assert(d <= POINTER_REACH) by (nonlinear_arith)
            requires
                d2 < POINTER_REACH * POINTER_REACH,
                d2 <= d * d,
                d == 0 || (d - 1) * (d - 1) < d2,
                d >= 0,
        ;
        assert(-80_000 <= dx <= 80_000 && -80_000 <= dy <= 80_000) by (nonlinear_arith)
            requires
                d2 == dx * dx + dy * dy,
                d2 < 80_000 * 80_000,
        ;
        let den = d as i64 + 1000;
        if pressed {
            (sx + scale_i64(dx, 8, den), sy + scale_i64(dy, 8, den))
        } else {
            (sx - scale_i64(dx, 4, den), sy - scale_i64(dy, 4, den))
        }
    } else {
        (sx, sy)
    }
}

impl AmbientParticle {
    pub open spec fn wf(&self) -> bool {
        &&& -COORD_LIMIT <= self.x <= COORD_LIMIT
        &&& -COORD_LIMIT <= self.y <= COORD_LIMIT
        &&& norm_sq(self.speed_x as int, self.speed_y as int) <= MAX_SPEED * MAX_SPEED
        &&& 100 <= self.z < 1000
        &&& 0 <= self.size <= SIZE_LIMIT
        &&& 0 <= self.opacity <= 1000
    }

    /// A particle at `(x, y)` with a random depth, colour scheme, size, velocity and
    /// opacity drawn from `rng`; size and opacity are scaled by the depth.
    pub fn new(x: i64, y: i64, rng: &mut SmallRng, config: &ParticleConfig) -> (p: AmbientParticle)
        requires
            config.wf(),
            -COORD_LIMIT <= x <= COORD_LIMIT,
            -COORD_LIMIT <= y <= COORD_LIMIT,
        ensures
            p.wf(),
            fresh_ambient(p, x as int, y as int, *config),
    {
        let z = rng_range(rng, 100, 1000);
        let scheme = rng_range(rng, 0, 5);
        let color = if scheme == 0 {
            let b = rng_range(rng, 180, 255) as u8;
            let g = rng_range(rng, 120, 200) as u8;
            let r = rng_range(rng, 50, 150) as u8;
            Rgb { r, g, b }
        } else if scheme == 1 {
            let r = rng_range(rng, 120, 200) as u8;
            let b = rng_range(rng, 180, 255) as u8;
            let g = rng_range(rng, 50, 150) as u8;
            Rgb { r, g, b }
        } else if scheme == 2 {
            let g = rng_range(rng, 180, 255) as u8;
            let b = rng_range(rng, 100, 200) as u8;
            let r = rng_range(rng, 50, 150) as u8;
            Rgb { r, g, b }
        } else if scheme == 3 {
            let r = rng_range(rng, 200, 255) as u8;
            let g = rng_range(rng, 150, 230) as u8;
            let b = rng_range(rng, 50, 120) as u8;
            Rgb { r, g, b }
        } else {
            let r = rng_range(rng, 200, 255) as u8;
            let g = rng_range(rng, 100, 180) as u8;
            let b = rng_range(rng, 150, 230) as u8;
            Rgb { r, g, b }
        };
        assert(in_scheme(color, scheme as int));
        let s = rng_range(rng, config.min_size, config.max_size);
        assert(0 <= s * z <= SIZE_LIMIT * 1000) by (nonlinear_arith)
            requires
                0 <= s <= SIZE_LIMIT,
                100 <= z < 1000,
        ;
        assert(s * z / 1000 <= s) by (nonlinear_arith)
            requires
                0 <= s,
                100 <= z < 1000,
        ;
        let speed_x = rng_range(rng, -300, 300);
        let speed_y = rng_range(rng, -300, 300);
        let o = rng_range(rng, 300, 800);
        assert(0 <= o * z <= 800 * 1000) by (nonlinear_arith)
            requires
                300 <= o < 800,
                100 <= z < 1000,
        ;
        assert(speed_x * speed_x + speed_y * speed_y <= 1500 * 1500) by (nonlinear_arith)
            requires
                -300 <= speed_x < 300,
                -300 <= speed_y < 300,
        ;
        let p = AmbientParticle { x, y, z, size: s * z / 1000, speed_x, speed_y, color, opacity: o * z / 1000 };
        assert(in_scheme(p.color, scheme as int));
        assert(p.size == by_depth(s as int, p.z as int));
        assert(p.opacity == by_depth(o as int, p.z as int));
        p
    }

    /// One tick with the velocity changes `(jitter_x, jitter_y)`: move, reverse a velocity
    /// component whose coordinate left the canvas, take the pointer's pull or push within
    /// reach, damp by one percent and limit the speed to 1.5 pixels a tick.
    pub fn step(
        &mut self,
        mouse_x: i64,
        mouse_y: i64,
        pressed: bool,
        width: i64,
        height: i64,
        jitter_x: i64,
        jitter_y: i64,
    )
        requires
            old(self).wf(),
            -COORD_LIMIT <= mouse_x <= COORD_LIMIT,
            -COORD_LIMIT <= mouse_y <= COORD_LIMIT,
            0 < width <= CANVAS_LIMIT,
            0 < height <= CANVAS_LIMIT,
            -JITTER <= jitter_x <= JITTER,
            -JITTER <= jitter_y <= JITTER,
        ensures
            *final(self) == ambient_step(
                *old(self),
                mouse_x as int,
                mouse_y as int,
                pressed,
                width as int,
                height as int,
                jitter_x as int,
                jitter_y as int,
            ),
            final(self).wf(),
            norm_sq(final(self).speed_x as int, final(self).speed_y as int) <= MAX_SPEED
                * MAX_SPEED,
            0 <= old(self).x <= width ==> -(MAX_SPEED + JITTER) <= final(self).x <= width
                + MAX_SPEED + JITTER,
            0 <= old(self).y <= height ==> -(MAX_SPEED + JITTER) <= final(self).y <= height
                + MAX_SPEED + JITTER,
    {
        assert(-1500 <= self.speed_x <= 1500 && -1500 <= self.speed_y <= 1500) by (nonlinear_arith)
            requires
                self.speed_x * self.speed_x + self.speed_y * self.speed_y <= 1500 * 1500,
        ;
        let sx = self.speed_x + jitter_x;
        let sy = self.speed_y + jitter_y;
        let x = clamp_i64(self.x + sx, -COORD_LIMIT, COORD_LIMIT);
        let y = clamp_i64(self.y + sy, -COORD_LIMIT, COORD_LIMIT);
        let sx1 = if x < 0 || x > width {
            -sx
        } else {
            sx
        };
        let sy1 = if y < 0 || y > height {
            -sy
        } else {
            sy
        };
        let (sx2, sy2) = pointer_velocity(x, y, mouse_x, mouse_y, pressed, sx1, sy1);
        let v = limit_speed_i64(scale_i64(sx2, 99, 100), scale_i64(sy2, 99, 100), MAX_SPEED);
        self.x = x;
        self.y = y;
        self.speed_x = v.0;
        self.speed_y = v.1;
    }

    /// One tick, as `step`, with velocity changes drawn from `[-0.08, 0.08)` pixels.
    pub fn update(&mut self, mouse_x: i64, mouse_y: i64, pressed: bool, width: i64, height: i64)
        requires
            old(self).wf(),
            -COORD_LIMIT <= mouse_x <= COORD_LIMIT,
            -COORD_LIMIT <= mouse_y <= COORD_LIMIT,
            0 < width <= CANVAS_LIMIT,
            0 < height <= CANVAS_LIMIT,
        ensures
            ticked(
                *final(self),
                *old(self),
                mouse_x as int,
                mouse_y as int,
                pressed,
                width as int,
                height as int,
            ),
            final(self).wf(),
    {
        let jx = random_range(-JITTER, JITTER);
        let jy = random_range(-JITTER, JITTER);
        self.step(mouse_x, mouse_y, pressed, width, height, jx, jy);
        assert(*self == ambient_step(
            *old(self),
            mouse_x as int,
            mouse_y as int,
            pressed,
            width as int,
            height as int,
            jx as int,
            jy as int,
        ));
    }
}

/// White, the field's background.
pub open spec fn white() -> Rgb {
    Rgb { r: 255, g: 255, b: 255 }
}

/// The line joining two particles closer than the connection distance: its strength
/// scaled by a fifth and by both depths, in the mean of their colours.
pub open spec fn ambient_line(p: AmbientParticle, q: AmbientParticle) -> Seq<DrawCmd> {
    let d2 = norm_sq(p.x - q.x, p.y - q.y);
    if d2 < CONNECT_DIST * CONNECT_DIST {
        let st = connection_strength(ceil_sqrt(d2), CONNECT_DIST as int);
        seq![
            DrawCmd::Line {
                x1: p.x,
                y1: p.y,
                x2: q.x,
                y2: q.y,
                color: mix_spec(p.color, q.color),
                alpha: (st * 2 * p.z * q.z / 10_000_000) as i64,
                width: LINE_WIDTH,
            },
        ]
    } else {
        seq![]
    }
}

/// The lines from particle `i` to the particles after it and before `k`.
pub open spec fn lines_from(ps: Seq<AmbientParticle>, i: int, k: int) -> Seq<DrawCmd>
    decreases k - i,
{
    if k <= i + 1 {
        seq![]
    } else {
        lines_from(ps, i, k - 1) + ambient_line(ps[i], ps[k - 1])
    }
}

/// The lines of every pair whose first particle comes before `i`.
pub open spec fn all_lines(ps: Seq<AmbientParticle>, i: int) -> Seq<DrawCmd>
    decreases i,
{
    if i <= 0 {
        seq![]
    } else {
        all_lines(ps, i - 1) + lines_from(ps, i - 1, ps.len() as int)
    }
}

pub open spec fn dot(p: AmbientParticle) -> DrawCmd {
    DrawCmd::Circle { x: p.x, y: p.y, radius: p.size, color: p.color, alpha: (p.opacity * 1000) as i64 }
}

/// A frame of the field: a white background, the connection lines, then the particles.
pub open spec fn ambient_frame(ps: Seq<AmbientParticle>, w: i64, h: i64) -> Seq<DrawCmd> {
    seq![DrawCmd::FillRect { x: 0, y: 0, width: w, height: h, color: white() }] + all_lines(
        ps,
        ps.len() as int,
    ) + ps.map_values(|p: AmbientParticle| dot(p))
}

/// The ambient field: its particles, the pointer, the canvas and the settings.
pub struct AmbientField {
    pub particles: Vec<AmbientParticle>,
    pub mouse_x: i64,
    pub mouse_y: i64,
    pub is_mouse_down: bool,
    pub canvas_width: i64,
    pub canvas_height: i64,
    pub config: ParticleConfig,
    /// The generator that shapes new particles.
    pub rng: SmallRng,
}

fn line_between(p: &AmbientParticle, q: &AmbientParticle) -> (r: Option<DrawCmd>)
    requires
        p.wf(),
        q.wf(),
    ensures
        ambient_line(*p, *q) == match r {
            Some(c) => seq![c],
            None => Seq::<DrawCmd>::empty(),
        },
{
    let d2 = dist_sq(q.x, q.y, p.x, p.y);
    if d2 < 3_600_000_000 {
        let d = isqrt_ceil(d2);
        let st = connection_strength_exec(d as i64, CONNECT_DIST);
        assert(0 <= st * 2 * p.z <= 2_000_000_000 && 0 <= st * 2 * p.z * q.z <= 1_000_000 * 2 * 1000 * 1000) by (nonlinear_arith)
            requires
                0 <= st <= 1_000_000,
                100 <= p.z < 1000,
                100 <= q.z < 1000,
        ;
        Some(
            DrawCmd::Line {
                x1: p.x,
                y1: p.y,
                x2: q.x,
                y2: q.y,
                color: mix_rgb(p.color, q.color),
                alpha: st * 2 * p.z * q.z / 10_000_000,
                width: LINE_WIDTH,
            },
        )
    } else {
        None
    }
}

/// Appends the connection lines of every close pair of `ps`.
fn push_connections(ps: &Vec<AmbientParticle>, out: &mut Vec<DrawCmd>)
    requires
        forall|k: int| 0 <= k < ps@.len() ==> (#[trigger] ps@[k]).wf(),
    ensures
        final(out)@ == old(out)@ + all_lines(ps@, ps@.len() as int),
{
    let n = ps.len();
    let mut i: usize = 0;
    while i < n
        invariant
            i <= n == ps@.len(),
            forall|k: int| 0 <= k < ps@.len() ==> (#[trigger] ps@[k]).wf(),
            out@ == old(out)@ + all_lines(ps@, i as int),
        decreases n - i,
    {
        let mut j: usize = i + 1;
        let ghost base = out@;
        assert(lines_from(ps@, i as int, j as int) =~= seq![]);
        assert(base =~= base + lines_from(ps@, i as int, j as int));
        while j < n
            invariant
                i < j <= n == ps@.len(),
                forall|k: int| 0 <= k < ps@.len() ==> (#[trigger] ps@[k]).wf(),
                base == old(out)@ + all_lines(ps@, i as int),
                out@ == base + lines_from(ps@, i as int, j as int),
            decreases n - j,
        {
            let c = line_between(&ps[i], &ps[j]);
            let ghost before = out@;
            match c {
                Some(cmd) => {
                    out.push(cmd);
                },
                None => {},
            }
            assert(out@ =~= before + ambient_line(ps@[i as int], ps@[j as int]));
            j = j + 1;
            assert(out@ =~= base + lines_from(ps@, i as int, j as int));
        }
        i = i + 1;
        assert(out@ =~= old(out)@ + all_lines(ps@, i as int));
    }
}

impl AmbientParticle {
    /// The particle as a disc of its size, colour and opacity.
    pub fn draw(&self) -> (cmd: DrawCmd)
        requires
            self.wf(),
        ensures
            cmd == dot(*self),
    {
        DrawCmd::Circle { x: self.x, y: self.y, radius: self.size, color: self.color, alpha: self.opacity * 1000 }
    }
}

impl AmbientField {
    pub open spec fn wf(&self) -> bool {
        &&& forall|k: int| 0 <= k < self.particles@.len() ==> (#[trigger] self.particles@[k]).wf()
        &&& -COORD_LIMIT <= self.mouse_x <= COORD_LIMIT
        &&& -COORD_LIMIT <= self.mouse_y <= COORD_LIMIT
        &&& 0 < self.canvas_width <= CANVAS_LIMIT
        &&& 0 < self.canvas_height <= CANVAS_LIMIT
        &&& self.config.wf()
    }

    /// A field of `config.initial_count` particles placed on the canvas by a generator
    /// seeded with a fixed value, with the pointer at the centre and not pressed.
    pub fn new(width: i64, height: i64, config: ParticleConfig) -> (f: AmbientField)
        requires
            0 < width <= CANVAS_LIMIT,
            0 < height <= CANVAS_LIMIT,
            config.wf(),
        ensures
            f.wf(),
            f.particles@.len() == config.initial_count,
            f.mouse_x == width / 2,
            f.mouse_y == height / 2,
            !f.is_mouse_down,
            f.canvas_width == width,
            f.canvas_height == height,
            f.config == config,
            forall|k: int|
                0 <= k < f.particles@.len() ==> {
                    let p = #[trigger] f.particles@[k];
                    &&& 0 <= p.x < width
                    &&& 0 <= p.y < height
                    &&& fresh_ambient(p, p.x as int, p.y as int, config)
                },
    {
        let mut rng = seeded_rng(SEED);
        let mut particles: Vec<AmbientParticle> = Vec::new();
        let mut i: usize = 0;
        while i < config.initial_count
            invariant
                i <= config.initial_count,
                config.wf(),
                0 < width <= CANVAS_LIMIT,
                0 < height <= CANVAS_LIMIT,
                particles@.len() == i,
                forall|k: int|
                    0 <= k < i ==> {
                        let p = #[trigger] particles@[k];
                        &&& p.wf()
                        &&& 0 <= p.x < width
                        &&& 0 <= p.y < height
                        &&& fresh_ambient(p, p.x as int, p.y as int, config)
                    },
            decreases config.initial_count - i,
        {
            let x = rng_range(&mut rng, 0, width);
            let y = rng_range(&mut rng, 0, height);
            particles.push(AmbientParticle::new(x, y, &mut rng, &config));
            i = i + 1;
        }
        AmbientField {
            particles,
            mouse_x: width / 2,
            mouse_y: height / 2,
            is_mouse_down: false,
            canvas_width: width,
            canvas_height: height,
            config,
            rng,
        }
    }

    /// One tick of every particle, with the pointer as last reported.
    pub fn update(&mut self)
        requires
            old(self).wf(),
        ensures
            final(self).wf(),
            final(self).particles@.len() == old(self).particles@.len(),
            forall|k: int|
                0 <= k < final(self).particles@.len() ==> ticked(
                        #[trigger] final(self).particles@[k],
                        old(self).particles@[k],
                        old(self).mouse_x as int,
                        old(self).mouse_y as int,
                        old(self).is_mouse_down,
                        old(self).canvas_width as int,
                        old(self).canvas_height as int,
                    ),
            final(self).mouse_x == old(self).mouse_x,
            final(self).mouse_y == old(self).mouse_y,
            final(self).is_mouse_down == old(self).is_mouse_down,
            final(self).canvas_width == old(self).canvas_width,
            final(self).canvas_height == old(self).canvas_height,
            final(self).config == old(self).config,
    {
        let n = self.particles.len();
        let mut i: usize = 0;
        while i < n
            invariant
                self.wf(),
                i <= n == self.particles@.len(),
                self.mouse_x == old(self).mouse_x,
                self.mouse_y == old(self).mouse_y,
                self.is_mouse_down == old(self).is_mouse_down,
                self.canvas_width == old(self).canvas_width,
                self.canvas_height == old(self).canvas_height,
                self.config == old(self).config,
                forall|k: int|
                    0 <= k < i ==> ticked(
                        #[trigger] self.particles@[k],
                        old(self).particles@[k],
                        old(self).mouse_x as int,
                        old(self).mouse_y as int,
                        old(self).is_mouse_down,
                        old(self).canvas_width as int,
                        old(self).canvas_height as int,
                    ),
                forall|k: int| i <= k < n ==> #[trigger] self.particles@[k] == old(self).particles@[k],
            decreases n - i,
        {
            let mut p = self.particles[i];
            let ghost before = self.particles@;
            assert(p == old(self).particles@[i as int]);
            p.update(self.mouse_x, self.mouse_y, self.is_mouse_down, self.canvas_width, self.canvas_height);
            self.particles.set(i, p);
            assert(self.particles@[i as int] == p);
            assert(forall|k: int| 0 <= k < n && k != i ==> self.particles@[k] == before[k]);
            i = i + 1;
        }
    }

    /// Adds `config.click_add_count` particles at `(x, y)`; the field is never trimmed.
    pub fn add_particles_at(&mut self, x: i64, y: i64)
        requires
            old(self).wf(),
            -COORD_LIMIT <= x <= COORD_LIMIT,
            -COORD_LIMIT <= y <= COORD_LIMIT,
        ensures
            final(self).wf(),
            final(self).particles@.len() == old(self).particles@.len() + old(self).config.click_add_count,
            final(self).particles@.subrange(0, old(self).particles@.len() as int) == old(self).particles@,
            forall|k: int|
                old(self).particles@.len() <= k < final(self).particles@.len() ==> fresh_ambient(
                    #[trigger] final(self).particles@[k],
                    x as int,
                    y as int,
                    old(self).config,
                ),
            final(self).mouse_x == old(self).mouse_x,
            final(self).mouse_y == old(self).mouse_y,
            final(self).is_mouse_down == old(self).is_mouse_down,
            final(self).canvas_width == old(self).canvas_width,
            final(self).canvas_height == old(self).canvas_height,
            final(self).config == old(self).config,
    {
        let n = self.particles.len();
        let count = self.config.click_add_count;
        let mut c: usize = 0;
        while c < count
            invariant
                self.wf(),
                c <= count,
                n == old(self).particles@.len(),
                count == old(self).config.click_add_count,
                self.particles@.len() == n + c,
                self.particles@.subrange(0, n as int) == old(self).particles@,
                forall|k: int|
                    n <= k < self.particles@.len() ==> fresh_ambient(
                        #[trigger] self.particles@[k],
                        x as int,
                        y as int,
                        old(self).config,
                    ),
                -COORD_LIMIT <= x <= COORD_LIMIT,
                -COORD_LIMIT <= y <= COORD_LIMIT,
                self.mouse_x == old(self).mouse_x,
                self.mouse_y == old(self).mouse_y,
                self.is_mouse_down == old(self).is_mouse_down,
                self.canvas_width == old(self).canvas_width,
                self.canvas_height == old(self).canvas_height,
                self.config == old(self).config,
            decreases count - c,
        {
            let p = AmbientParticle::new(x, y, &mut self.rng, &self.config);
            let ghost before = self.particles@;
            self.particles.push(p);
            assert(self.particles@.subrange(0, n as int) =~= before.subrange(0, n as int));
            c = c + 1;
        }
    }

    /// The pointer moved to `(x, y)`.
    pub fn mouse_move(&mut self, x: i64, y: i64)
        requires
            old(self).wf(),
            -COORD_LIMIT <= x <= COORD_LIMIT,
            -COORD_LIMIT <= y <= COORD_LIMIT,
        ensures
            final(self).wf(),
            final(self).mouse_x == x,
            final(self).mouse_y == y,
            final(self).particles@ == old(self).particles@,
            final(self).is_mouse_down == old(self).is_mouse_down,
            final(self).canvas_width == old(self).canvas_width,
            final(self).canvas_height == old(self).canvas_height,
            final(self).config == old(self).config,
    {
        self.mouse_x = x;
        self.mouse_y = y;
    }

    /// The pointer was pressed at `(x, y)`: particles are drawn toward it from now on and
    /// new ones appear there.
    pub fn mouse_down(&mut self, x: i64, y: i64)
        requires
            old(self).wf(),
            -COORD_LIMIT <= x <= COORD_LIMIT,
            -COORD_LIMIT <= y <= COORD_LIMIT,
        ensures
            final(self).wf(),
            final(self).mouse_x == x,
            final(self).mouse_y == y,
            final(self).is_mouse_down,
            final(self).particles@.len() == old(self).particles@.len() + old(self).config.click_add_count,
            final(self).particles@.subrange(0, old(self).particles@.len() as int) == old(self).particles@,
            forall|k: int|
                old(self).particles@.len() <= k < final(self).particles@.len() ==> fresh_ambient(
                    #[trigger] final(self).particles@[k],
                    x as int,
                    y as int,
                    old(self).config,
                ),
            final(self).canvas_width == old(self).canvas_width,
            final(self).canvas_height == old(self).canvas_height,
            final(self).config == old(self).config,
    {
        self.is_mouse_down = true;
        self.mouse_x = x;
        self.mouse_y = y;
        self.add_particles_at(x, y);
    }

    /// The pointer was released: particles are pushed away from it from now on.
    pub fn mouse_up(&mut self)
        requires
            old(self).wf(),
        ensures
            final(self).wf(),
            !final(self).is_mouse_down,
            final(self).particles@ == old(self).particles@,
            final(self).mouse_x == old(self).mouse_x,
            final(self).mouse_y == old(self).mouse_y,
            final(self).canvas_width == old(self).canvas_width,
            final(self).canvas_height == old(self).canvas_height,
            final(self).config == old(self).config,
    {
        self.is_mouse_down = false;
    }

    /// The drawing commands of one frame.
    pub fn draw(&self) -> (cmds: Vec<DrawCmd>)
        requires
            self.wf(),
        ensures
            cmds@ == ambient_frame(self.particles@, self.canvas_width, self.canvas_height),
    {
        let mut cmds: Vec<DrawCmd> = Vec::new();
        cmds.push(
            DrawCmd::FillRect {
                x: 0,
                y: 0,
                width: self.canvas_width,
                height: self.canvas_height,
                color: Rgb { r: 255, g: 255, b: 255 },
            },
        );
        push_connections(&self.particles, &mut cmds);
        let ghost head = cmds@;
        let n = self.particles.len();
        let mut i: usize = 0;
        while i < n
            invariant
                i <= n == self.particles@.len(),
                self.wf(),
                cmds@ == head + self.particles@.subrange(0, i as int).map_values(
                    |p: AmbientParticle| dot(p),
                ),
            decreases n - i,
        {
            cmds.push(self.particles[i].draw());
            i = i + 1;
            assert(cmds@ =~= head + self.particles@.subrange(0, i as int).map_values(
                |p: AmbientParticle| dot(p),
            ));
        }
        assert(self.particles@.subrange(0, n as int) =~= self.particles@);
        assert(cmds@ =~= ambient_frame(self.particles@, self.canvas_width, self.canvas_height));
        cmds
    }
}

} // verus!
