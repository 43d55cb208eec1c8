//! A CHIP-8 virtual-machine core: 4KB of memory, sixteen 8-bit registers, a
//! 16-entry call stack, a 64x32 monochrome framebuffer, a 16-key pad and two
//! countdown timers, driven by a fetch-decode-execute cycle whose per-opcode
//! semantics are stated against a mathematical transition function.

pub mod emu;
pub mod inst;
pub mod keymap;
pub mod laws;
pub mod ram;
pub mod sem;

pub use emu::Emu;
pub use keymap::key_from_char;
pub use inst::Instruction;
pub use ram::Ram;
pub use sem::EmuError;
pub use sem::EmuView;

use vstd::prelude::*;

verus! {

/// Width of the framebuffer in pixels.
pub const SCREEN_WIDTH: usize = 64;

/// Height of the framebuffer in pixels.
pub const SCREEN_HEIGHT: usize = 32;

} // verus!
