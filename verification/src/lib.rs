//! Driver logic for the Spectra tri-colour (white, black, red) e-paper
//! panels of Pervasive Displays: the framebuffer with its two bit planes,
//! and the command sequences of the panel protocol.
pub mod driver;
pub mod graphics;
pub mod operation;
pub mod steps;

pub use crate::driver::Active;
pub use crate::driver::Command;
pub use crate::driver::Epd;
pub use crate::driver::EpdState;
pub use crate::driver::Error;
pub use crate::driver::Inactive;
pub use crate::driver::Transition;
pub use crate::graphics::Display1in54;
pub use crate::graphics::Display2in13;
pub use crate::graphics::Display2in66;
pub use crate::graphics::Display2in71;
pub use crate::graphics::Display2in87;
pub use crate::graphics::Display3in70;
pub use crate::graphics::Display4in17;
pub use crate::graphics::Display4in37;
pub use crate::graphics::Display;
pub use crate::graphics::DisplayBuffer;
pub use crate::graphics::DisplayRotation;
pub use crate::graphics::Pixel;
pub use crate::graphics::TriColor;
pub use crate::operation::Operation;
pub use crate::operation::Report;
pub use crate::steps::Step;
