//! The contract between the core and a rendering/input backend.

use vstd::prelude::*;

use crate::globals::Keys;
use crate::machine::Chip8;

verus! {

/// An error from an interface backend, carried as text.
pub struct InterfaceError {
    pub message: String,
}

/// A GUI/TUI interface for the emulator. The surrounding application
/// implements it over its rendering and input backends; the driving
/// loop talks to the core only through these operations.
pub trait Interface {
    /// Run the whole emulator loop on the given machine.
    fn run(&mut self, chip_8: &mut Chip8) -> Result<(), InterfaceError>;

    /// Set up the interface for the run loop. Called just before the
    /// run loop.
    fn setup(&mut self) -> Result<(), InterfaceError>;

    /// Load a ROM image into the machine's memory.
    fn load_rom(&mut self, chip_8: &mut Chip8) -> Result<(), InterfaceError>;

    /// Read the held keys, or a break signal.
    fn read_keys(&mut self) -> Result<Keys, InterfaceError>;

    /// Draw the machine's display buffer to the screen.
    fn draw(&mut self, chip_8: &mut Chip8) -> Result<(), InterfaceError>;

    /// Restore the screen and input state on shutdown.
    fn cleanup(&mut self) -> Result<(), InterfaceError>;
}

} // verus!
