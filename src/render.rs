//! Drawing commands: what the simulations hand to a 2D drawing surface.
//!
//! Coordinates and widths are in milli-units; alphas are in millionths.
use crate::color::Rgb;
use vstd::prelude::*;

verus! {

/// Full opacity, in millionths.
pub const OPAQUE: i64 = 1_000_000;

/// A text the game shows.
#[derive(Clone, Copy, Debug, PartialEq, Eq, Structural)]
pub enum Message {
    GameOver,
    ClickToRestart,
    ClickToStart,
}

/// One drawing operation.
#[derive(Clone, Copy, Debug, PartialEq, Eq, Structural)]
pub enum DrawCmd {
    /// Clears a rectangle from the origin to transparent.
    Clear { width: i64, height: i64 },
    /// Fills a rectangle.
    FillRect { x: i64, y: i64, width: i64, height: i64, color: Rgb },
    /// Fills a rectangle in black and outlines it in white.
    Brick { x: i64, y: i64, width: i64, height: i64 },
    /// Fills a circle.
    Circle { x: i64, y: i64, radius: i64, color: Rgb, alpha: i64 },
    /// Strokes a line segment.
    Line { x1: i64, y1: i64, x2: i64, y2: i64, color: Rgb, alpha: i64, width: i64 },
    /// Writes a message centred on a point, in a font of the given size in pixels.
    Text { message: Message, x: i64, y: i64, size: i64 },
}

/// How strongly two particles `d` apart are joined when lines reach to `max`, in
/// millionths: `1 - d / max` rounded up, and zero from `max` on.
pub open spec fn connection_strength(d: int, max: int) -> int {
    if d < max {
        ((max - d) * OPAQUE + max - 1) / max
    } else {
        0
    }
}

/// `connection_strength(d, max)`.
pub fn connection_strength_exec(d: i64, max: i64) -> (r: i64)
    requires
        0 <= d,
        0 < max <= 0x100_0000_0000,
    ensures
        r == connection_strength(d as int, max as int),
        0 <= r <= OPAQUE,
{
    if d < max {
        proof {
            lemma_connection_strength_range(d as int, max as int);
        }
        assert(0 <= (max - d) * OPAQUE + max - 1 <= 0x100_0000_0000 * 1_000_001) by (nonlinear_arith)
            requires
                0 <= d < max <= 0x100_0000_0000,
        ;
        (((max - d) as i128 * OPAQUE as i128 + max as i128 - 1) / max as i128) as i64
    } else {
        0
    }
}

proof fn lemma_connection_strength_range(d: int, max: int)
    requires
        0 <= d < max,
    ensures
        0 < connection_strength(d, max) <= OPAQUE,
{
    let n = (max - d) * OPAQUE + max - 1;
    assert(n >= max) by (nonlinear_arith)
        requires
            n == (max - d) * OPAQUE + max - 1,
            0 <= d < max,
    ;
    assert(n <= max * OPAQUE + max - 1) by (nonlinear_arith)
        requires
            n == (max - d) * OPAQUE + max - 1,
            0 <= d,
    ;
    assert(n / max >= 1) by (nonlinear_arith)
        requires
            n >= max,
            max > 0,
    ;
    assert(n / max <= OPAQUE) by (nonlinear_arith)
        requires
            n <= max * OPAQUE + max - 1,
            max > 0,
    ;
}

/// Connection strength falls as the distance grows, is full at distance zero, positive
/// below the reach and zero from the reach on.
pub proof fn lemma_connection_strength(d1: int, d2: int, max: int)
    requires
        0 <= d1 <= d2,
        0 < max,
    ensures
        connection_strength(d2, max) <= connection_strength(d1, max),
        connection_strength(0, max) == OPAQUE,
        connection_strength(max, max) == 0,
        d1 < max ==> connection_strength(d1, max) > 0,
        d1 >= max ==> connection_strength(d1, max) == 0,
{
    if d1 < max {
        lemma_connection_strength_range(d1, max);
    }
    if d2 < max {
        let a = (max - d1) * OPAQUE + max - 1;
        let b = (max - d2) * OPAQUE + max - 1;
        assert(b <= a) by (nonlinear_arith)
            requires
                a == (max - d1) * OPAQUE + max - 1,
                b == (max - d2) * OPAQUE + max - 1,
                d1 <= d2,
        ;
        assert(b / max <= a / max) by (nonlinear_arith)
            requires
                0 <= b <= a,
                max > 0,
        ;
    }
    assert((max * OPAQUE + max - 1) / max == OPAQUE) by (nonlinear_arith)
        requires
            max > 0,
    ;
}

} // verus!
