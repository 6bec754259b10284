//! A verified CHIP-8 interpreter core.
//!
//! The library holds the machine state (registers, memory, call stack,
//! timers and the sparse lit-pixel display) and the instruction engine
//! that fetches, decodes and executes one 16-bit instruction per cycle.
//! Rendering, input polling, ROM file loading and frame pacing are left
//! to the surrounding application, which drives the core through the
//! [`Interface`] trait and the public machine operations.

pub mod engine;
pub mod globals;
pub mod interface;
pub mod laws;
pub mod machine;
pub mod pixels;
pub mod semantics;

pub use globals::Keys;
pub use interface::Interface;
pub use machine::Chip8;
pub use pixels::PixelSet;
pub use semantics::Fault;
