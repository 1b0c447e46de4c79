//! A configurable, generic two-pass assembler core.
//!
//! Plain-text source is matched token by token against configured rules;
//! each firing rule appends words to a set of parallel output segments.
//! Tags (named or directional) mark positions; a linking pass patches
//! deferred references into the emitted words; a serializer renders each
//! segment as little-endian, big-endian, or hexadecimal text.

pub mod config;
pub mod error;
pub mod laws;
pub mod model;
pub mod parse;
pub mod rex;
pub mod serialize;
pub mod shift;
pub mod step;
pub mod text;

pub use shift::shift_left_or_right;
