//! Control logic for a display backlight exposed as a pair of numeric
//! pseudo-file endpoints: a writable current value and a constant maximum.
//!
//! The library holds everything the controller decides: how endpoint text is
//! parsed and rendered, how a requested value is clamped into range, how a
//! percentage maps to an absolute value, and when a write must be refused.
//! The caller performs the actual file reads and writes, handing raw text in
//! and carrying chosen values out.

pub mod controller;
pub mod decimal;
pub mod error;
