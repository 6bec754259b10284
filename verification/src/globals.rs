//! Shared constants and the input message type.

use std::collections::HashSet;
use vstd::prelude::*;

verus! {

/// Display frames per second the driving loop should aim for.
pub const FRAMES_PER_SECOND: i32 = 60;

/// Instruction cycles the driving loop runs per frame: a throughput
/// knob, not part of the core's correctness contract.
pub const INSTRUCTIONS_PER_FRAME: i32 = 16;

/// Width of the screen in pixels.
pub const DISPLAY_WIDTH: i32 = 64;

/// Height of the screen in pixels.
pub const DISPLAY_HEIGHT: i32 = 32;

/// What an input reader hands back each frame: the currently held key
/// codes, or a request to stop the emulator.
pub enum Keys {
    Break,
    Keys(HashSet<u8>),
}

} // verus!
