//! A terminal countdown timer: duration parsing, clock formatting, bitmap-font
//! rendering of the clock face, and the timer's state machine.
pub mod raster;
pub mod duration;
pub mod clock;
pub mod key;
pub mod frame;
pub mod countdown;
pub mod term;
