//! The logic of a reaction game on a small touch panel.
//!
//! The panel shows colors. Blue is to be answered with a swipe, every other
//! color with a touch; the right gesture earns points by how fast it comes, the
//! wrong one costs points. The points are shown in huge digits.
//!
//! - [`touch`] turns readings of the touch controller into gestures,
//! - [`game`] judges gestures and keeps the score,
//! - [`palette`] holds the colors and draws the next one,
//! - [`screen`] lays numbers and labels out as filled squares of the panel,
//! - [`framebuffer`] is the small framebuffer that text is rendered into,
//! - [`decimal`] and [`sqrt`] are the arithmetic these need.
//!
//! The library does no input or output: the firmware around it reads the
//! touch controller and the clock and fills the squares.
pub mod decimal;
pub mod framebuffer;
pub mod game;
pub mod palette;
pub mod screen;
pub mod sqrt;
pub mod touch;

pub use crate::game::{Game, Report, Round};
pub use crate::touch::{GestureEvent, TouchAction, TouchRead, TouchTracker};
