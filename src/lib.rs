//! A fixed-point simulation of two canvas widgets: an ambient particle field, a burst
//! particle field and a brick-breaker game, with a render adapter that turns their
//! state into drawing commands.
pub mod ambient;
pub mod burst;
pub mod color;
pub mod frame;
pub mod game;
pub mod geom;
pub mod random;
pub mod render;
