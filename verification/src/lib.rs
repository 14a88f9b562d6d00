//! Core of an RGB light controller.
//!
//! The controller drives one light fixture from several concurrent input
//! channels while a renderer loop continuously samples the shared state.
//! This crate holds the logic those loops share, with contracts:
//!
//! - [`color`]: the color value type and its `#rrggbb` text codec;
//! - [`pattern`]: what to show — off, a solid color, or a cyclic animation;
//! - [`lights`]: the engine that decides the current color, advances
//!   animations by elapsed time with drift correction, and suppresses
//!   redundant writes to the output;
//! - [`control`]: dispatch of decoded control-protocol messages;
//! - [`wire`]: the color's JSON wire form for push-socket subscribers;
//! - [`socket`]: the push-socket receive policy and the change broadcaster.
//!
//! Everything that touches a clock, a socket or the hardware output stays
//! with the caller: time enters as milliseconds, decoded messages as plain
//! values, and the engine returns the color to render instead of writing it.

pub mod color;
pub mod control;
pub mod lights;
pub mod pattern;
pub mod socket;
pub mod wire;
