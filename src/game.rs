//! The brick-breaker game: a ball moved by elapsed time, bouncing off the walls, the paddle
//! and a grid of bricks.
//!
//! Lengths are in milli-units, velocities in milli-units per second, times in microseconds
//! and angles in millidegrees.
use crate::geom::{abs, ceil_sqrt, clamp, clamp_i64, dist_sq, is_ceil_sqrt, isqrt_ceil, norm_sq,
    scale, scale_i64, COORD_LIMIT, lemma_ceil_sqrt_exists, lemma_ceil_sqrt_unique};
use crate::color::Rgb;
use crate::random::{random_range, random_ratio};
use crate::render::{DrawCmd, Message, OPAQUE};
use vstd::prelude::*;

verus! {

pub const CANVAS_WIDTH: i64 = 440_000;

pub const CANVAS_HEIGHT: i64 = 330_000;

pub const BALL_RADIUS: i64 = 8_000;

pub const PADDLE_WIDTH: i64 = 80_000;

pub const PADDLE_HEIGHT: i64 = 12_000;

/// Top edge of the paddle.
pub const PADDLE_Y: i64 = 300_000;

pub const BRICK_WIDTH: i64 = 50_000;

pub const BRICK_HEIGHT: i64 = 20_000;

pub const BRICK_ROWS: usize = 5;

pub const BRICK_COLS: usize = 7;

pub const BRICK_TOP_OFFSET: i64 = 40_000;

pub const BRICK_PADDING: i64 = 5_000;

/// Speed of a launched ball: 300 pixels a second.
pub const BALL_SPEED: i64 = 300_000;

/// Longest time step, so that a stalled frame does not carry the ball through a wall.
pub const MAX_STEP: i64 = 100_000;

/// Microseconds in a second.
pub const MICROS: i64 = 1_000_000;

/// Largest bounce angle from the vertical.
pub const MAX_ANGLE: i64 = 60_000;

/// Largest magnitude of a brick's coordinates and sides.
pub const BRICK_LIMIT: i64 = 0x80_0000_0000;

/// A brick; an inactive one has been struck and is neither drawn nor hit.
#[derive(Clone, Copy, Debug, PartialEq, Eq, Structural)]
pub struct Brick {
    pub x: i64,
    pub y: i64,
    pub width: i64,
    pub height: i64,
    pub active: bool,
}

/// The whole state of a game.
pub struct GameState {
    pub ball_x: i64,
    pub ball_y: i64,
    pub ball_dx: i64,
    pub ball_dy: i64,
    pub paddle_x: i64,
    pub bricks: Vec<Brick>,
    pub game_over: bool,
    pub game_started: bool,
    /// Clock reading of the last update, in microseconds.
    pub last_time: i64,
}

/// A game state as mathematical values.
pub struct GameView {
    pub ball_x: int,
    pub ball_y: int,
    pub ball_dx: int,
    pub ball_dy: int,
    pub paddle_x: int,
    pub bricks: Seq<Brick>,
    pub game_over: bool,
    pub game_started: bool,
    pub last_time: int,
}

impl View for GameState {
    type V = GameView;

    open spec fn view(&self) -> GameView {
        GameView {
            ball_x: self.ball_x as int,
            ball_y: self.ball_y as int,
            ball_dx: self.ball_dx as int,
            ball_dy: self.ball_dy as int,
            paddle_x: self.paddle_x as int,
            bricks: self.bricks@,
            game_over: self.game_over,
            game_started: self.game_started,
            last_time: self.last_time as int,
        }
    }
}

/// The brick of grid cell `cell`, counted row by row.
pub open spec fn grid_brick(cell: int) -> Brick {
    Brick {
        x: ((cell % BRICK_COLS as int) * (BRICK_WIDTH + BRICK_PADDING) + BRICK_PADDING) as i64,
        y: ((cell / BRICK_COLS as int) * (BRICK_HEIGHT + BRICK_PADDING) + BRICK_TOP_OFFSET) as i64,
        width: BRICK_WIDTH,
        height: BRICK_HEIGHT,
        active: true,
    }
}

/// The bricks of the first `k` grid cells whose entry in `mask` is true, in order.
pub open spec fn grid_bricks(mask: Seq<bool>, k: int) -> Seq<Brick>
    decreases k,
{
    if k <= 0 {
        Seq::empty()
    } else if mask[k - 1] {
        grid_bricks(mask, k - 1).push(grid_brick(k - 1))
    } else {
        grid_bricks(mask, k - 1)
    }
}

pub open spec fn grid_size() -> int {
    (BRICK_ROWS * BRICK_COLS) as int
}

pub open spec fn any_active(bricks: Seq<Brick>) -> bool {
    exists|i: int| 0 <= i < bricks.len() && (#[trigger] bricks[i]).active
}

/// The offset from the point of `b` nearest to `(x, y)` to `(x, y)`.
pub open spec fn brick_offset(b: Brick, x: int, y: int) -> (int, int) {
    (x - clamp(x, b.x as int, b.x + b.width), y - clamp(y, b.y as int, b.y + b.height))
}

/// Whether the ball centred at `(x, y)` overlaps the active brick `b`.
pub open spec fn hits(b: Brick, x: int, y: int) -> bool {
    let o = brick_offset(b, x, y);
    b.active && norm_sq(o.0, o.1) < BALL_RADIUS * BALL_RADIUS
}

/// The index of the first brick from `k` on that the ball hits, or the number of bricks.
pub open spec fn first_hit(bricks: Seq<Brick>, x: int, y: int, k: int) -> int
    decreases bricks.len() - k,
{
    if k >= bricks.len() {
        bricks.len() as int
    } else if hits(bricks[k], x, y) {
        k
    } else {
        first_hit(bricks, x, y, k + 1)
    }
}

/// `sin(a)` in millionths for `0 <= a <= 90` degrees (given in millidegrees), by
/// Bhaskara's rational approximation `4x(180 - x) / (40500 - x(180 - x))`.
pub open spec fn sine(a: int) -> int {
    let p = a * (180_000 - a);
    4 * p * 1_000_000 / (40_500_000_000 - p)
}

/// The horizontal component of a velocity of magnitude `speed` at angle `angle` from the
/// vertical, positive angles to the right.
pub open spec fn aim_dx(speed: int, angle: int) -> int {
    if angle >= 0 {
        speed * sine(angle) / 1_000_000
    } else {
        -(speed * sine(-angle) / 1_000_000)
    }
}

/// The greatest natural number whose square is at most `n`.
pub open spec fn floor_sqrt(n: int) -> int {
    let c = ceil_sqrt(n);
    if c * c == n {
        c
    } else {
        c - 1
    }
}

/// An upward velocity of magnitude `speed` at angle `angle` from the vertical; the vertical
/// component is rounded up so that the magnitude is not below `speed`.
pub open spec fn aim(speed: int, angle: int) -> (int, int) {
    let dx = aim_dx(speed, angle);
    (dx, -ceil_sqrt(speed * speed - dx * dx))
}

/// Whether the ball centred at `(x, y)` touches the top of the paddle at `paddle_x`.
pub open spec fn on_paddle(x: int, y: int, paddle_x: int) -> bool {
    &&& y + BALL_RADIUS >= PADDLE_Y
    &&& y + BALL_RADIUS <= PADDLE_Y + PADDLE_HEIGHT
    &&& x >= paddle_x
    &&& x <= paddle_x + PADDLE_WIDTH
}

/// The bounce angle for a ball at `x` on the paddle at `paddle_x`: zero at the centre,
/// growing linearly to 60 degrees at the edges, to the right for the left half.
pub open spec fn bounce_angle(x: int, paddle_x: int) -> int {
    scale(paddle_x + PADDLE_WIDTH / 2 - x, 3, 2)
}

/// The velocity after the ball at `x` bounces off the paddle at `paddle_x`: the current
/// speed (rounded down) sent upward at the bounce angle.
pub open spec fn paddle_bounce_spec(x: int, paddle_x: int, dx: int, dy: int) -> (int, int) {
    aim(floor_sqrt(norm_sq(dx, dy)), bounce_angle(x, paddle_x))
}

/// The velocity after striking brick `b`: the axis along which the ball is further from
/// the brick is reversed.
pub open spec fn brick_bounce(b: Brick, x: int, y: int, dx: int, dy: int) -> (int, int) {
    let o = brick_offset(b, x, y);
    if abs(o.0) > abs(o.1) {
        (-dx, dy)
    } else {
        (dx, -dy)
    }
}

/// Where a running ball is at `now`, and its velocity after the walls and the paddle
/// and before any brick: `(x, y, dx, dy)`.
pub open spec fn advance(s: GameView, now: int) -> (int, int, int, int) {
    let dt = clamp(now - s.last_time, 0, MAX_STEP as int);
    let x = clamp(s.ball_x + scale(s.ball_dx, dt, MICROS as int), -COORD_LIMIT, COORD_LIMIT as int);
    let y = clamp(s.ball_y + scale(s.ball_dy, dt, MICROS as int), -COORD_LIMIT, COORD_LIMIT as int);
    let dx1 = if x - BALL_RADIUS <= 0 || x + BALL_RADIUS >= CANVAS_WIDTH {
        -s.ball_dx
    } else {
        s.ball_dx
    };
    let dy1 = if y - BALL_RADIUS <= 0 {
        -s.ball_dy
    } else {
        s.ball_dy
    };
    let v2 = if on_paddle(x, y, s.paddle_x) {
        paddle_bounce_spec(x, s.paddle_x, dx1, dy1)
    } else {
        (dx1, dy1)
    };
    (x, y, v2.0, v2.1)
}

/// One update at clock reading `now`, without the reset that follows clearing the bricks.
pub open spec fn tick_spec(s: GameView, now: int) -> GameView {
    if s.game_over {
        s
    } else if !s.game_started {
        GameView {
            ball_x: s.paddle_x + PADDLE_WIDTH / 2,
            ball_y: (PADDLE_Y - BALL_RADIUS) as int,
            last_time: now,
            ..s
        }
    } else {
        let a = advance(s, now);
        let i = first_hit(s.bricks, a.0, a.1, 0);
        let v3 = if i < s.bricks.len() {
            brick_bounce(s.bricks[i], a.0, a.1, a.2, a.3)
        } else {
            (a.2, a.3)
        };
        let bricks = if i < s.bricks.len() {
            s.bricks.update(i, Brick { active: false, ..s.bricks[i] })
        } else {
            s.bricks
        };
        GameView {
            ball_x: a.0,
            ball_y: a.1,
            ball_dx: v3.0,
            ball_dy: v3.1,
            paddle_x: s.paddle_x,
            bricks,
            game_over: a.1 + BALL_RADIUS >= CANVAS_HEIGHT,
            game_started: true,
            last_time: now,
        }
    }
}

/// Whether the update at `now` clears the last brick, which resets the game.
pub open spec fn clears(s: GameView, now: int) -> bool {
    !s.game_over && s.game_started && !any_active(tick_spec(s, now).bricks)
}

/// A game that is ready to start: a full grid drawn from some mask, the ball resting on the
/// centre of the paddle at `paddle_x`, aimed upward at full speed.
pub open spec fn fresh_game(s: GameView, paddle_x: int, now: int) -> bool {
    &&& (exists|mask: Seq<bool>| mask.len() == grid_size() && s.bricks == grid_bricks(mask, grid_size()))
    &&& forall|i: int| 0 <= i < s.bricks.len() ==> (#[trigger] s.bricks[i]).active
    &&& s.paddle_x == paddle_x
    &&& s.ball_x == paddle_x + PADDLE_WIDTH / 2
    &&& s.ball_y == PADDLE_Y - BALL_RADIUS
    &&& (exists|angle: int| -MAX_ANGLE <= angle < MAX_ANGLE && (s.ball_dx, s.ball_dy) == aim(BALL_SPEED as int, angle))
    &&& !s.game_over
    &&& !s.game_started
    &&& s.last_time == now
}

pub open spec fn brick_wf(b: Brick) -> bool {
    &&& -BRICK_LIMIT <= b.x <= BRICK_LIMIT
    &&& -BRICK_LIMIT <= b.y <= BRICK_LIMIT
    &&& 0 <= b.width <= BRICK_LIMIT
    &&& 0 <= b.height <= BRICK_LIMIT
}

impl GameState {
    pub open spec fn wf(&self) -> bool {
        &&& -COORD_LIMIT <= self.ball_x <= COORD_LIMIT
        &&& -COORD_LIMIT <= self.ball_y <= COORD_LIMIT
        &&& norm_sq(self.ball_dx as int, self.ball_dy as int) < (BALL_SPEED + 1) * (BALL_SPEED + 1)
        &&& 0 <= self.paddle_x <= CANVAS_WIDTH - PADDLE_WIDTH
        &&& self.bricks@.len() <= grid_size()
        &&& forall|i: int| 0 <= i < self.bricks@.len() ==> brick_wf(#[trigger] self.bricks@[i])
        &&& 0 <= self.last_time
    }
}

/// The sine approximation stays within `[0, 1]` on a quarter turn.
proof fn lemma_sine_bounds(a: int)
    requires
        0 <= a <= 90_000,
    ensures
        0 <= sine(a) <= 1_000_000,
        a == 0 ==> sine(a) == 0,
{
    let p = a * (180_000 - a);
    assert(0 <= p <= 8_100_000_000) by (nonlinear_arith)
        requires
            0 <= a <= 90_000,
            p == a * (180_000 - a),
    ;
    assert(4 * p * 1_000_000 <= 1_000_000 * (40_500_000_000 - p)) by (nonlinear_arith)
        requires
            0 <= p <= 8_100_000_000,
    ;
    assert(4 * p * 1_000_000 / (40_500_000_000 - p) <= 1_000_000) by (nonlinear_arith)
        requires
            0 <= p <= 8_100_000_000,
            4 * p * 1_000_000 <= 1_000_000 * (40_500_000_000 - p),
    ;
    assert(0 <= 4 * p * 1_000_000 / (40_500_000_000 - p)) by (nonlinear_arith)
        requires
            0 <= p <= 8_100_000_000,
    ;
}

/// `sine(a)` for `0 <= a <= 90000`.
fn sine_exec(a: i64) -> (r: i64)
    requires
        0 <= a <= 90_000,
    ensures
        r == sine(a as int),
        0 <= r <= 1_000_000,
{
    proof {
        lemma_sine_bounds(a as int);
    }
    assert(0 <= a * (180_000 - a) <= 8_100_000_000) by (nonlinear_arith)
        requires
            0 <= a <= 90_000,
    ;
    let p = a * (180_000 - a);
    4 * p * 1_000_000 / (40_500_000_000 - p)
}

/// The greatest natural number whose square is at most `n`.
fn isqrt_floor(n: u128) -> (r: u128)
    requires
        n <= 0x1_0000_0000_0000_0000_0000_0000,
    ensures
        r == floor_sqrt(n as int),
        r * r <= n < (r + 1) * (r + 1),
{
    let c = isqrt_ceil(n);
    assert(c * c <= 0x10_0000_0000_0000_0000_0000_0000) by (nonlinear_arith)
        requires
            c <= 0x4_0000_0000_0000,
    ;
    if c * c == n {
        assert(n < (c + 1) * (c + 1)) by (nonlinear_arith)
            requires
                c * c == n,
                c >= 0,
        ;
        c
    } else {
        assert(c > 0) by (nonlinear_arith)
            requires
                c * c != n,
                n <= c * c,
                c >= 0,
        ;
        assert((c - 1) * (c - 1) < n);
        c - 1
    }
}

/// An upward velocity of magnitude `speed` at angle `angle` (in millidegrees) from the
/// vertical: its squared magnitude is at least `speed²` and below `(speed + 1)²`.
pub fn aim_exec(speed: i64, angle: i64) -> (r: (i64, i64))
    requires
        0 <= speed <= BALL_SPEED,
        -MAX_ANGLE <= angle <= MAX_ANGLE,
    ensures
        r.0 == aim(speed as int, angle as int).0,
        r.1 == aim(speed as int, angle as int).1,
        speed * speed <= norm_sq(r.0 as int, r.1 as int) < (speed + 1) * (speed + 1),
        r.1 <= 0,
{
    let s = if angle >= 0 {
        sine_exec(angle)
    } else {
        sine_exec(-angle)
    };
    assert(0 <= speed * s <= 300_000 * 1_000_000) by (nonlinear_arith)
        requires
            0 <= speed <= 300_000,
            0 <= s <= 1_000_000,
    ;
    let m = speed * s / 1_000_000;
    assert(m <= speed) by (nonlinear_arith)
        requires
            0 <= speed,
            0 <= s <= 1_000_000,
            m == speed * s / 1_000_000,
    ;
    let dx = if angle >= 0 {
        m
    } else {
        -m
    };
    assert(0 <= speed * speed - dx * dx <= 90_000_000_000 && speed * speed <= 90_000_000_000 && 0 <= dx * dx <= 90_000_000_000) by (nonlinear_arith)
        requires
            0 <= speed <= 300_000,
            -speed <= dx <= speed,
    ;
    let n = (speed * speed - dx * dx) as u128;
    let c = isqrt_ceil(n);
    assert(c <= speed) by (nonlinear_arith)
        requires
            is_ceil_sqrt(c as int, n as int),
            n <= speed * speed,
            speed >= 0,
    ;
    assert(dx * dx + c * c < (speed + 1) * (speed + 1)) by (nonlinear_arith)
        requires
            is_ceil_sqrt(c as int, n as int),
            n == speed * speed - dx * dx,
            0 <= c <= speed,
    ;
    assert(speed * speed <= dx * dx + c * c);
    assert((-(c as int)) * (-(c as int)) == c * c) by (nonlinear_arith);
    (dx, -(c as i64))
}

/// The velocity after the ball at `x` strikes the paddle at `paddle_x` moving at
/// `(dx, dy)`: the speed rounded down to `s` and sent upward at an angle from the vertical
/// that grows linearly from zero at the centre to 60 degrees at the edges. Its squared
/// magnitude lies in `[s², (s + 1)²)`, so the speed is kept to within a milli-unit; a ball
/// at the centre goes straight up at speed `s`.
pub fn paddle_bounce(x: i64, paddle_x: i64, dx: i64, dy: i64) -> (r: (i64, i64))
    requires
        paddle_x <= x <= paddle_x + PADDLE_WIDTH,
        -COORD_LIMIT <= paddle_x <= COORD_LIMIT,
        norm_sq(dx as int, dy as int) < (BALL_SPEED + 1) * (BALL_SPEED + 1),
    ensures
        r.0 == paddle_bounce_spec(x as int, paddle_x as int, dx as int, dy as int).0,
        r.1 == paddle_bounce_spec(x as int, paddle_x as int, dx as int, dy as int).1,
        ({
            let s = floor_sqrt(norm_sq(dx as int, dy as int));
            &&& 0 <= s <= BALL_SPEED
            &&& s * s <= norm_sq(dx as int, dy as int) < (s + 1) * (s + 1)
            &&& s * s <= norm_sq(r.0 as int, r.1 as int) < (s + 1) * (s + 1)
            &&& x == paddle_x + PADDLE_WIDTH / 2 ==> r.0 == 0 && r.1 == -s
            &&& x == paddle_x ==> r.0 == s * sine(MAX_ANGLE as int) / 1_000_000
            &&& x == paddle_x + PADDLE_WIDTH ==> r.0 == -(s * sine(MAX_ANGLE as int) / 1_000_000)
        }),
        r.1 <= 0,
{
    let rel = paddle_x + PADDLE_WIDTH / 2 - x;
    let angle = if rel >= 0 {
        rel * 3 / 2
    } else {
        -((-rel) * 3 / 2)
    };
    assert(-300_001 <= dx <= 300_001 && -300_001 <= dy <= 300_001) by (nonlinear_arith)
        requires
            dx * dx + dy * dy < 300_001 * 300_001,
    ;
    let n = dist_sq(0, 0, dx, dy);
    let s = isqrt_floor(n);
    assert(s <= 300_000) by (nonlinear_arith)
        requires
            s * s <= n,
            n < 300_001 * 300_001,
            s >= 0,
    ;
    assert(s * s <= norm_sq(dx as int, dy as int) < (s + 1) * (s + 1));
    proof {
        if x == paddle_x + PADDLE_WIDTH / 2 {
            assert(angle == 0);
            lemma_sine_bounds(0);
            assert(is_ceil_sqrt(s as int, s * s)) by (nonlinear_arith)
                requires
                    s >= 0,
            ;
            lemma_ceil_sqrt_exists(s * s);
            lemma_ceil_sqrt_unique(s as int, ceil_sqrt(s * s), s * s);
            assert(sine(0) == 0);
            assert((s as int) * sine(0) == 0) by (nonlinear_arith)
                requires
                    sine(0) == 0,
            ;
            assert(aim_dx(s as int, 0) == 0);
            assert((s as int) * (s as int) - 0 * 0 == s * s);
            assert(aim(s as int, 0).1 == -(s as int));
        }
    }
    let r = aim_exec(s as i64, angle);
    assert(x == paddle_x + PADDLE_WIDTH / 2 ==> r.0 == 0 && r.1 == -s);
    assert(x == paddle_x ==> angle == MAX_ANGLE);
    assert(x == paddle_x + PADDLE_WIDTH ==> angle == -MAX_ANGLE);
    r
}

/// The bricks of the grid cells whose entry in `mask` is true, row by row.
pub fn bricks_from_mask(mask: &Vec<bool>) -> (bricks: Vec<Brick>)
    requires
        mask@.len() == grid_size(),
    ensures
        bricks@ == grid_bricks(mask@, grid_size()),
        bricks@.len() <= grid_size(),
        forall|i: int| 0 <= i < bricks@.len() ==> (#[trigger] bricks@[i]).active && brick_wf(bricks@[i]),
{
    let mut bricks: Vec<Brick> = Vec::new();
    let mut cell: usize = 0;
    while cell < BRICK_ROWS * BRICK_COLS
        invariant
            cell <= grid_size(),
            mask@.len() == grid_size(),
            bricks@ == grid_bricks(mask@, cell as int),
            bricks@.len() <= cell,
            forall|i: int| 0 <= i < bricks@.len() ==> (#[trigger] bricks@[i]).active && brick_wf(bricks@[i]),
        decreases grid_size() - cell,
    {
        if mask[cell] {
            let row = (cell / BRICK_COLS) as i64;
            let col = (cell % BRICK_COLS) as i64;
            assert(0 <= row <= 4 && 0 <= col <= 6);
            assert(0 <= row * (BRICK_HEIGHT + BRICK_PADDING) <= 100_000) by (nonlinear_arith)
                requires
                    0 <= row <= 4,
            ;
            assert(0 <= col * (BRICK_WIDTH + BRICK_PADDING) <= 330_000) by (nonlinear_arith)
                requires
                    0 <= col <= 6,
            ;
            bricks.push(
                Brick {
                    x: col * (BRICK_WIDTH + BRICK_PADDING) + BRICK_PADDING,
                    y: row * (BRICK_HEIGHT + BRICK_PADDING) + BRICK_TOP_OFFSET,
                    width: BRICK_WIDTH,
                    height: BRICK_HEIGHT,
                    active: true,
                },
            );
        }
        cell = cell + 1;
    }
    bricks
}

/// A full grid of bricks, each cell holding one with probability four in five.
pub fn create_bricks() -> (bricks: Vec<Brick>)
    ensures
        exists|mask: Seq<bool>| mask.len() == grid_size() && bricks@ == grid_bricks(mask, grid_size()),
        bricks@.len() <= grid_size(),
        forall|i: int| 0 <= i < bricks@.len() ==> (#[trigger] bricks@[i]).active && brick_wf(bricks@[i]),
{
    let mut mask: Vec<bool> = Vec::new();
    let mut cell: usize = 0;
    while cell < BRICK_ROWS * BRICK_COLS
        invariant
            cell <= grid_size(),
            mask@.len() == cell,
        decreases grid_size() - cell,
    {
        mask.push(random_ratio(4, 5));
        cell = cell + 1;
    }
    bricks_from_mask(&mask)
}

proof fn lemma_norm_sq_neg(a: int, b: int)
    ensures
        norm_sq(-a, b) == norm_sq(a, b),
        norm_sq(a, -b) == norm_sq(a, b),
{
    assert((-a) * (-a) == a * a) by (nonlinear_arith);
    assert((-b) * (-b) == b * b) by (nonlinear_arith);
}

/// Whether the ball centred at `(x, y)` overlaps the active brick `b`, and if so whether it
/// bounces off sideways.
fn brick_contact(b: &Brick, x: i64, y: i64) -> (r: (bool, bool))
    requires
        brick_wf(*b),
        -COORD_LIMIT <= x <= COORD_LIMIT,
        -COORD_LIMIT <= y <= COORD_LIMIT,
    ensures
        r.0 == hits(*b, x as int, y as int),
        r.1 == (abs(brick_offset(*b, x as int, y as int).0) > abs(
            brick_offset(*b, x as int, y as int).1,
        )),
{
    let cx = clamp_i64(x, b.x, b.x + b.width);
    let cy = clamp_i64(y, b.y, b.y + b.height);
    let d2 = dist_sq(cx, cy, x, y);
    let ox = x - cx;
    let oy = y - cy;
    let ax = if ox >= 0 {
        ox
    } else {
        -ox
    };
    let ay = if oy >= 0 {
        oy
    } else {
        -oy
    };
    (b.active && d2 < (BALL_RADIUS * BALL_RADIUS) as u128, ax > ay)
}

impl GameState {
    /// A fresh game: a random grid of bricks, the paddle centred, the ball resting on it
    /// aimed upward at a random angle within 60 degrees of the vertical.
    pub fn new(now: i64) -> (g: GameState)
        requires
            0 <= now,
        ensures
            g.wf(),
            fresh_game(g@, ((CANVAS_WIDTH - PADDLE_WIDTH) / 2) as int, now as int),
    {
        let mut g = GameState {
            ball_x: 0,
            ball_y: 0,
            ball_dx: 0,
            ball_dy: 0,
            paddle_x: (CANVAS_WIDTH - PADDLE_WIDTH) / 2,
            bricks: Vec::new(),
            game_over: false,
            game_started: false,
            last_time: now,
        };
        g.reset(now);
        g
    }

    /// Starts over: a new random grid and launch angle, the ball resting on the paddle,
    /// which stays where it is.
    pub fn reset(&mut self, now: i64)
        requires
            old(self).wf(),
            0 <= now,
        ensures
            final(self).wf(),
            fresh_game(final(self)@, old(self).paddle_x as int, now as int),
    {
        let angle = random_range(-MAX_ANGLE, MAX_ANGLE);
        let v = aim_exec(BALL_SPEED, angle);
        self.ball_x = self.paddle_x + PADDLE_WIDTH / 2;
        self.ball_y = PADDLE_Y - BALL_RADIUS;
        self.ball_dx = v.0;
        self.ball_dy = v.1;
        self.game_over = false;
        self.game_started = false;
        self.bricks = create_bricks();
        self.last_time = now;
        assert((self.ball_dx as int, self.ball_dy as int) == aim(BALL_SPEED as int, angle as int));
    }

    /// Whether any brick is still active.
    pub fn any_brick_active(&self) -> (r: bool)
        ensures
            r == any_active(self.bricks@),
    {
        let mut i: usize = 0;
        while i < self.bricks.len()
            invariant
                i <= self.bricks@.len(),
                forall|k: int| 0 <= k < i ==> !(#[trigger] self.bricks@[k]).active,
            decreases self.bricks@.len() - i,
        {
            if self.bricks[i].active {
                return true;
            }
            i = i + 1;
        }
        false
    }

    /// One update at clock reading `now` (microseconds), without the reset that follows
    /// clearing the bricks. A finished game does not change; a game not yet started keeps
    /// the ball on the paddle; a running one moves the ball by the elapsed time, at most a
    /// tenth of a second, bounces it off the walls, the paddle and the first brick it
    /// overlaps, which is struck out, and ends when the ball reaches the bottom.
    pub fn tick(&mut self, now: i64)
        requires
            old(self).wf(),
            0 <= now,
        ensures
            final(self).wf(),
            final(self)@ == tick_spec(old(self)@, now as int),
    {
        if self.game_over {
            return;
        }
        if !self.game_started {
            self.ball_x = self.paddle_x + PADDLE_WIDTH / 2;
            self.ball_y = PADDLE_Y - BALL_RADIUS;
            self.last_time = now;
            return;
        }
        let ghost s0 = self@;
        assert(-300_001 <= self.ball_dx <= 300_001 && -300_001 <= self.ball_dy <= 300_001)
            by (nonlinear_arith)
            requires
                self.ball_dx * self.ball_dx + self.ball_dy * self.ball_dy < 300_001 * 300_001,
        ;
        let dt = clamp_i64(now - self.last_time, 0, MAX_STEP);
        let x = clamp_i64(self.ball_x + scale_i64(self.ball_dx, dt, MICROS), -COORD_LIMIT, COORD_LIMIT);
        let y = clamp_i64(self.ball_y + scale_i64(self.ball_dy, dt, MICROS), -COORD_LIMIT, COORD_LIMIT);
        let dx1 = if x - BALL_RADIUS <= 0 || x + BALL_RADIUS >= CANVAS_WIDTH {
            -self.ball_dx
        } else {
            self.ball_dx
        };
        let dy1 = if y - BALL_RADIUS <= 0 {
            -self.ball_dy
        } else {
            self.ball_dy
        };
        proof {
            lemma_norm_sq_neg(self.ball_dx as int, self.ball_dy as int);
            lemma_norm_sq_neg(self.ball_dx as int, -self.ball_dy);
        }
        let v2 = if y + BALL_RADIUS >= PADDLE_Y && y + BALL_RADIUS <= PADDLE_Y + PADDLE_HEIGHT && x
            >= self.paddle_x && x <= self.paddle_x + PADDLE_WIDTH {
            paddle_bounce(x, self.paddle_x, dx1, dy1)
        } else {
            (dx1, dy1)
        };
        assert(norm_sq(v2.0 as int, v2.1 as int) < (BALL_SPEED + 1) * (BALL_SPEED + 1)) by {
            if on_paddle(x as int, y as int, self.paddle_x as int) {
                let s = floor_sqrt(norm_sq(dx1 as int, dy1 as int));
                assert((s + 1) * (s + 1) <= 300_001 * 300_001) by (nonlinear_arith)
                    requires
                        0 <= s <= 300_000,
                ;
            }
        }
        assert((x as int, y as int, v2.0 as int, v2.1 as int) == advance(s0, now as int));
        let mut i: usize = 0;
        let n = self.bricks.len();
        let mut sideways = false;
        let mut found = false;
        while i < n && !found
            invariant
                n == self.bricks@.len(),
                self.bricks@ == s0.bricks,
                self.wf(),
                -COORD_LIMIT <= x <= COORD_LIMIT,
                -COORD_LIMIT <= y <= COORD_LIMIT,
                i <= n,
                found ==> i < n && first_hit(s0.bricks, x as int, y as int, 0) == i && sideways == (
                abs(brick_offset(s0.bricks[i as int], x as int, y as int).0) > abs(
                    brick_offset(s0.bricks[i as int], x as int, y as int).1,
                )),
                !found ==> first_hit(s0.bricks, x as int, y as int, 0) == first_hit(
                    s0.bricks,
                    x as int,
                    y as int,
                    i as int,
                ),
            decreases n - i + (if found {
                0int
            } else {
                1int
            }),
        {
            let c = brick_contact(&self.bricks[i], x, y);
            if c.0 {
                found = true;
                sideways = c.1;
            } else {
                i = i + 1;
            }
        }
        let ghost hit = first_hit(s0.bricks, x as int, y as int, 0);
        assert(i as int == hit);
        proof {
            lemma_norm_sq_neg(v2.0 as int, v2.1 as int);
        }
        assert(-300_001 <= v2.0 <= 300_001 && -300_001 <= v2.1 <= 300_001) by (nonlinear_arith)
            requires
                v2.0 * v2.0 + v2.1 * v2.1 < 300_001 * 300_001,
        ;
        let v3 = if i < n {
            let mut b = self.bricks[i];
            b.active = false;
            self.bricks.set(i, b);
            if sideways {
                (-v2.0, v2.1)
            } else {
                (v2.0, -v2.1)
            }
        } else {
            v2
        };
        self.ball_x = x;
        self.ball_y = y;
        self.ball_dx = v3.0;
        self.ball_dy = v3.1;
        self.game_over = y + BALL_RADIUS >= CANVAS_HEIGHT;
        self.last_time = now;
        assert(self@.bricks =~= tick_spec(s0, now as int).bricks);
    }

    /// One frame of the game at clock reading `now` (microseconds): `tick`, then a fresh
    /// game on the same paddle position if the running game has just lost its last brick.
    pub fn update(&mut self, now: i64)
        requires
            old(self).wf(),
            0 <= now,
        ensures
            final(self).wf(),
            !clears(old(self)@, now as int) ==> final(self)@ == tick_spec(old(self)@, now as int),
            clears(old(self)@, now as int) ==> fresh_game(
                final(self)@,
                old(self).paddle_x as int,
                now as int,
            ),
            old(self).game_over ==> final(self)@ == old(self)@,
            old(self).game_started && !old(self).game_over && !clears(old(self)@, now as int) ==> (
            final(self).game_over <==> final(self).ball_y + BALL_RADIUS >= CANVAS_HEIGHT),
    {
        let running = !self.game_over && self.game_started;
        self.tick(now);
        if running && !self.any_brick_active() {
            self.reset(now);
        }
    }

    /// Moves the paddle so that its centre follows the pointer, keeping it on the canvas.
    pub fn set_paddle(&mut self, pointer_x: i64)
        requires
            old(self).wf(),
        ensures
            final(self).wf(),
            final(self).paddle_x == clamp(
                pointer_x - PADDLE_WIDTH / 2,
                0,
                (CANVAS_WIDTH - PADDLE_WIDTH) as int,
            ),
            final(self)@ == (GameView { paddle_x: final(self).paddle_x as int, ..old(self)@ }),
    {
        let p = clamp_i64(pointer_x, PADDLE_WIDTH / 2, CANVAS_WIDTH - PADDLE_WIDTH / 2);
        self.paddle_x = p - PADDLE_WIDTH / 2;
    }

    /// A click at `(x, y)` (in milli-units) at clock reading `now`. Inside the canvas it
    /// replaces a finished game by a fresh one and launches the ball of a game not yet
    /// started at a random angle within 60 degrees of the vertical; otherwise nothing
    /// changes.
    pub fn click(&mut self, x: i64, y: i64, now: i64)
        requires
            old(self).wf(),
            0 <= now,
        ensures
            final(self).wf(),
            !(0 <= x <= CANVAS_WIDTH && 0 <= y <= CANVAS_HEIGHT) ==> final(self)@ == old(self)@,
            (0 <= x <= CANVAS_WIDTH && 0 <= y <= CANVAS_HEIGHT && old(self).game_over) ==> fresh_game(
                final(self)@,
                ((CANVAS_WIDTH - PADDLE_WIDTH) / 2) as int,
                now as int,
            ),
            (0 <= x <= CANVAS_WIDTH && 0 <= y <= CANVAS_HEIGHT && !old(self).game_over
                && !old(self).game_started) ==> {
                &&& (exists|angle: int|
                    -MAX_ANGLE <= angle < MAX_ANGLE
                        && (final(self).ball_dx as int, final(self).ball_dy as int) == aim(BALL_SPEED as int, angle))
                &&& final(self)@ == (GameView {
                    ball_dx: final(self).ball_dx as int,
                    ball_dy: final(self).ball_dy as int,
                    game_started: true,
                    last_time: now as int,
                    ..old(self)@
                })
            },
            (old(self).game_started && !old(self).game_over) ==> final(self)@ == old(self)@,
    {
        if 0 <= x && x <= CANVAS_WIDTH && 0 <= y && y <= CANVAS_HEIGHT {
            if self.game_over {
                *self = GameState::new(now);
            } else if !self.game_started {
                let angle = random_range(-MAX_ANGLE, MAX_ANGLE);
                let v = aim_exec(BALL_SPEED, angle);
                self.ball_dx = v.0;
                self.ball_dy = v.1;
                self.game_started = true;
                self.last_time = now;
                assert((self.ball_dx as int, self.ball_dy as int) == aim(
                    BALL_SPEED as int,
                    angle as int,
                ));
            }
        }
    }
}

/// A brick is struck at most once per update: at most one brick changes, from active to
/// inactive, and then exactly one component of the ball's velocity is reversed.
pub proof fn lemma_one_brick_per_tick(s: GameView, now: int)
    requires
        s.game_started,
        !s.game_over,
    ensures
        ({
            let t = tick_spec(s, now);
            let a = advance(s, now);
            &&& t.bricks.len() == s.bricks.len()
            &&& forall|i: int, j: int|
                0 <= i < s.bricks.len() && 0 <= j < s.bricks.len() && t.bricks[i] != s.bricks[i]
                    && t.bricks[j] != s.bricks[j] ==> i == j
            &&& forall|i: int|
                0 <= i < s.bricks.len() && #[trigger] t.bricks[i] != s.bricks[i] ==> {
                    &&& s.bricks[i].active
                    &&& !t.bricks[i].active
                    &&& t.bricks[i] == Brick { active: false, ..s.bricks[i] }
                    &&& (t.ball_dx == -a.2 && t.ball_dy == a.3) || (t.ball_dx == a.2 && t.ball_dy
                        == -a.3)
                }
            &&& (forall|i: int| 0 <= i < s.bricks.len() ==> #[trigger] t.bricks[i] == s.bricks[i])
                ==> t.ball_dx == a.2 && t.ball_dy == a.3
        }),
{
    let a = advance(s, now);
    let h = first_hit(s.bricks, a.0, a.1, 0);
    lemma_first_hit(s.bricks, a.0, a.1, 0);
    let t = tick_spec(s, now);
    if h < s.bricks.len() {
        assert(t.bricks[h] != s.bricks[h]);
    }
}

proof fn lemma_first_hit(bricks: Seq<Brick>, x: int, y: int, k: int)
    requires
        0 <= k <= bricks.len(),
    ensures
        k <= first_hit(bricks, x, y, k) <= bricks.len(),
        first_hit(bricks, x, y, k) < bricks.len() ==> hits(bricks[first_hit(bricks, x, y, k)], x, y),
    decreases bricks.len() - k,
{
    if k < bricks.len() && !hits(bricks[k], x, y) {
        lemma_first_hit(bricks, x, y, k + 1);
    }
}

pub open spec fn black() -> Rgb {
    Rgb { r: 0, g: 0, b: 0 }
}

/// The active bricks among the first `k`, in order.
pub open spec fn brick_cmds(bricks: Seq<Brick>, k: int) -> Seq<DrawCmd>
    decreases k,
{
    if k <= 0 {
        seq![]
    } else {
        let b = bricks[k - 1];
        if b.active {
            brick_cmds(bricks, k - 1).push(
                DrawCmd::Brick { x: b.x, y: b.y, width: b.width, height: b.height },
            )
        } else {
            brick_cmds(bricks, k - 1)
        }
    }
}

/// The messages shown over the game: the end and how to restart, or how to start.
pub open spec fn message_cmds(s: GameView) -> Seq<DrawCmd> {
    if s.game_over {
        seq![
            DrawCmd::Text {
                message: Message::GameOver,
                x: (CANVAS_WIDTH / 2) as i64,
                y: (CANVAS_HEIGHT / 2 + 20_000) as i64,
                size: 36,
            },
            DrawCmd::Text {
                message: Message::ClickToRestart,
                x: (CANVAS_WIDTH / 2) as i64,
                y: (CANVAS_HEIGHT / 2 + 70_000) as i64,
                size: 20,
            },
        ]
    } else if !s.game_started {
        seq![
            DrawCmd::Text {
                message: Message::ClickToStart,
                x: (CANVAS_WIDTH / 2) as i64,
                y: (CANVAS_HEIGHT / 2 + 50_000) as i64,
                size: 20,
            },
        ]
    } else {
        seq![]
    }
}

/// A frame of the game: a cleared canvas, the ball, the paddle, the active bricks, then
/// the messages.
pub open spec fn game_frame(s: GameView) -> Seq<DrawCmd> {
    seq![
        DrawCmd::Clear { width: CANVAS_WIDTH, height: CANVAS_HEIGHT },
        DrawCmd::Circle {
            x: s.ball_x as i64,
            y: s.ball_y as i64,
            radius: BALL_RADIUS,
            color: black(),
            alpha: OPAQUE,
        },
        DrawCmd::FillRect {
            x: s.paddle_x as i64,
            y: PADDLE_Y,
            width: PADDLE_WIDTH,
            height: PADDLE_HEIGHT,
            color: black(),
        },
    ] + brick_cmds(s.bricks, s.bricks.len() as int) + message_cmds(s)
}

impl GameState {
    /// The drawing commands of one frame.
    pub fn render(&self) -> (cmds: Vec<DrawCmd>)
        ensures
            cmds@ == game_frame(self@),
    {
        let black = Rgb { r: 0, g: 0, b: 0 };
        let mut cmds: Vec<DrawCmd> = Vec::new();
        cmds.push(DrawCmd::Clear { width: CANVAS_WIDTH, height: CANVAS_HEIGHT });
        cmds.push(
            DrawCmd::Circle {
                x: self.ball_x,
                y: self.ball_y,
                radius: BALL_RADIUS,
                color: black,
                alpha: OPAQUE,
            },
        );
        cmds.push(
            DrawCmd::FillRect {
                x: self.paddle_x,
                y: PADDLE_Y,
                width: PADDLE_WIDTH,
                height: PADDLE_HEIGHT,
                color: black,
            },
        );
        let ghost head = cmds@;
        let mut i: usize = 0;
        while i < self.bricks.len()
            invariant
                i <= self.bricks@.len(),
                cmds@ == head + brick_cmds(self.bricks@, i as int),
            decreases self.bricks@.len() - i,
        {
            let b = self.bricks[i];
            if b.active {
                cmds.push(DrawCmd::Brick { x: b.x, y: b.y, width: b.width, height: b.height });
            }
            i = i + 1;
            assert(cmds@ =~= head + brick_cmds(self.bricks@, i as int));
        }
        let ghost mid = cmds@;
        if self.game_over {
            cmds.push(
                DrawCmd::Text {
                    message: Message::GameOver,
                    x: CANVAS_WIDTH / 2,
                    y: CANVAS_HEIGHT / 2 + 20_000,
                    size: 36,
                },
            );
            cmds.push(
                DrawCmd::Text {
                    message: Message::ClickToRestart,
                    x: CANVAS_WIDTH / 2,
                    y: CANVAS_HEIGHT / 2 + 70_000,
                    size: 20,
                },
            );
        } else if !self.game_started {
            cmds.push(
                DrawCmd::Text {
                    message: Message::ClickToStart,
                    x: CANVAS_WIDTH / 2,
                    y: CANVAS_HEIGHT / 2 + 50_000,
                    size: 20,
                },
            );
        }
        assert(cmds@ =~= mid + message_cmds(self@));
        assert(cmds@ =~= game_frame(self@));
        cmds
    }
}

/// Once the ball has reached the bottom, the game stays as it is: a further update changes
/// nothing, until a click starts a new game.
pub proof fn lemma_game_over_freezes(s: GameView, now: int, later: int)
    requires
        s.game_started,
        !s.game_over,
        advance(s, now).1 + BALL_RADIUS >= CANVAS_HEIGHT,
    ensures
        tick_spec(s, now).game_over,
        tick_spec(tick_spec(s, now), later) == tick_spec(s, now),
{
}

} // verus!
