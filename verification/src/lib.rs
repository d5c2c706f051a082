//! Terminal word animation: colours, a character/colour pixel grid, and
//! the choice of visual effects.

pub mod color;
pub mod palette;
pub mod text;
pub mod pixels;
pub mod effects;
pub mod cli;
