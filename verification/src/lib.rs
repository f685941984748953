//! A verified CHIP-8 virtual machine core.
//!
//! The crate models the machine's architectural state (memory, registers,
//! program counter, call stack, timers, display bitmap, pending input) and
//! implements the fetch-decode-execute cycle for the base CHIP-8 instruction
//! set. Every step of the interpreter is proved equal to a mathematical
//! description of the instruction semantics, including wraparound arithmetic,
//! the carry/borrow/collision conventions of register `vF`, and sprite
//! clipping at the display edges.
//!
//! Window creation, rendering, audio synthesis, key mapping and wall-clock
//! pacing are the caller's concern; the core exposes plain-value operations
//! (a single-step function, a timer tick that takes elapsed time, pixel and
//! key accessors) that an outer loop drives.

use vstd::prelude::*;

pub mod chip8_context;
pub mod emulator;
pub mod instructions;
pub mod laws;

verus! {

/// Display width in pixels.
pub const WIDTH: usize = 64;

/// Display height in pixels.
pub const HEIGHT: usize = 32;

/// Errors surfaced by the machine core. Stack misuse and a program counter
/// that runs past addressable memory are fatal for the emulation session;
/// the caller decides whether to halt, reset, or report.
#[derive(Clone, Copy, Debug, PartialEq, Eq, Structural)]
pub enum Chip8Error {
    /// A 17th nested call would overflow the 16-entry call stack.
    StackOverflow,
    /// A return was executed with an empty call stack.
    StackUnderflow,
    /// The program counter points past the last addressable instruction.
    PcOutOfBounds,
    /// A memory block instruction reaches past the 4096-byte address space.
    MemoryOutOfBounds,
    /// A key-skip instruction queried a key code outside 0..16.
    KeyOutOfRange,
    /// A program image longer than the available RAM was offered for loading.
    RomTooLarge,
}

} // verus!
