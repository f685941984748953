//! The emulation session: machine state plus the run/step mode, program
//! image loading, the built-in character font, and the key table that the
//! skip-on-key instructions query. The external input collaborator maps
//! physical keys to logical key codes 0..16 and calls `set_keydown` /
//! `set_keyup`; the blocking-input instruction consumes the pending-input
//! mailbox those calls fill.

use vstd::prelude::*;

use crate::chip8_context::{Chip8Context, StateView};
use crate::Chip8Error;

verus! {

/// Memory offset of the built-in font sprites.
pub const FONT_OFFSET: u8 = 0x050;

/// Memory offset at which program images are loaded.
pub const ROM_OFFSET: usize = 0x200;

/// Largest program image that fits between the load offset and the end of
/// addressable memory.
pub const MAX_ROM_LEN: usize = 4096 - 0x200;

/// The built-in font: sixteen 5-byte sprites for the hexadecimal digits
/// 0..=F. The exact bit patterns are a compatibility contract with programs
/// that address glyphs through the font instruction.
pub open spec fn spec_font() -> Seq<u8> {
    seq![
        0xF0u8, 0x90, 0x90, 0x90, 0xF0,  // 0
        0x20, 0x60, 0x20, 0x20, 0x70,  // 1
        0xF0, 0x10, 0xF0, 0x80, 0xF0,  // 2
        0xF0, 0x10, 0xF0, 0x10, 0xF0,  // 3
        0x90, 0x90, 0xF0, 0x10, 0x10,  // 4
        0xF0, 0x80, 0xF0, 0x10, 0xF0,  // 5
        0xF0, 0x80, 0xF0, 0x90, 0xF0,  // 6
        0xF0, 0x10, 0x20, 0x40, 0x40,  // 7
        0xF0, 0x90, 0xF0, 0x90, 0xF0,  // 8
        0xF0, 0x90, 0xF0, 0x10, 0xF0,  // 9
        0xF0, 0x90, 0xF0, 0x90, 0x90,  // A
        0xE0, 0x90, 0xE0, 0x90, 0xE0,  // B
        0xF0, 0x80, 0x80, 0x80, 0xF0,  // C
        0xE0, 0x90, 0x90, 0x90, 0xE0,  // D
        0xF0, 0x80, 0xF0, 0x80, 0xF0,  // E
        0xF0, 0x80, 0xF0, 0x80, 0x80,  // F
    ]
}

/// The font as an executable byte table.
pub fn font_table() -> (v: Vec<u8>)
    ensures
        v@ == spec_font(),
{
    let mut v: Vec<u8> = Vec::new();
    v.push(0xF0);
    v.push(0x90);
    v.push(0x90);
    v.push(0x90);
    v.push(0xF0);
    v.push(0x20);
    v.push(0x60);
    v.push(0x20);
    v.push(0x20);
    v.push(0x70);
    v.push(0xF0);
    v.push(0x10);
    v.push(0xF0);
    v.push(0x80);
    v.push(0xF0);
    v.push(0xF0);
    v.push(0x10);
    v.push(0xF0);
    v.push(0x10);
    v.push(0xF0);
    v.push(0x90);
    v.push(0x90);
    v.push(0xF0);
    v.push(0x10);
    v.push(0x10);
    v.push(0xF0);
    v.push(0x80);
    v.push(0xF0);
    v.push(0x10);
    v.push(0xF0);
    v.push(0xF0);
    v.push(0x80);
    v.push(0xF0);
    v.push(0x90);
    v.push(0xF0);
    v.push(0xF0);
    v.push(0x10);
    v.push(0x20);
    v.push(0x40);
    v.push(0x40);
    v.push(0xF0);
    v.push(0x90);
    v.push(0xF0);
    v.push(0x90);
    v.push(0xF0);
    v.push(0xF0);
    v.push(0x90);
    v.push(0xF0);
    v.push(0x10);
    v.push(0xF0);
    v.push(0xF0);
    v.push(0x90);
    v.push(0xF0);
    v.push(0x90);
    v.push(0x90);
    v.push(0xE0);
    v.push(0x90);
    v.push(0xE0);
    v.push(0x90);
    v.push(0xE0);
    v.push(0xF0);
    v.push(0x80);
    v.push(0x80);
    v.push(0x80);
    v.push(0xF0);
    v.push(0xE0);
    v.push(0x90);
    v.push(0x90);
    v.push(0x90);
    v.push(0xE0);
    v.push(0xF0);
    v.push(0x80);
    v.push(0xF0);
    v.push(0x80);
    v.push(0xF0);
    v.push(0xF0);
    v.push(0x80);
    v.push(0xF0);
    v.push(0x80);
    v.push(0x80);
    proof {
        assert(v@ =~= spec_font());
    }
    v
}

/// Whether the emulation session runs freely or advances one instruction per
/// user request.
#[derive(Clone, Copy, Debug, PartialEq, Eq, Structural)]
pub enum EmulatorMode {
    Run,
    Step,
}

/// An emulation session: the machine state together with the mode the outer
/// loop drives it in.
pub struct Chip8Emulator {
    pub context: Chip8Context,
    pub mode: EmulatorMode,
}

impl Chip8Emulator {
    /// A fresh session: a powered-on machine with the font loaded.
    pub fn new(mode: EmulatorMode) -> (emu: Chip8Emulator)
        ensures
            emu.mode == mode,
            emu.context@.wf(),
            emu.context@.pc == 0x200,
            emu.context@.sp == 0,
            emu.context@.i == 0,
            emu.context@.delay == 0,
            emu.context@.sound == 0,
            emu.context@.timer_accum == 0,
            forall|j: int|
                FONT_OFFSET <= j < FONT_OFFSET + 80 ==> emu.context@.memory[j] == spec_font()[j
                    - FONT_OFFSET],
            forall|j: int|
                0 <= j < 4096 && !(FONT_OFFSET <= j < FONT_OFFSET + 80)
                    ==> emu.context@.memory[j] == 0,
            forall|j: int| 0 <= j < 16 ==> emu.context@.v[j] == 0,
            forall|j: int| 0 <= j < 16 ==> emu.context@.stack[j] == 0,
            forall|j: int| 0 <= j < 64 * 32 ==> !emu.context@.frame.pixels[j],
            !emu.context@.frame.dirty,
            forall|j: int| 0 <= j < 16 ==> !emu.context@.held_keys[j],
            emu.context@.input is None,
    {
        let mut out = Chip8Emulator { context: Chip8Context::new(), mode };
        out.load_font();
        out
    }

    /// Writes the built-in font into its reserved memory region, leaving all
    /// other state untouched.
    pub fn load_font(&mut self)
        requires
            old(self).context@.wf(),
        ensures
            final(self).mode == old(self).mode,
            final(self).context@ == (StateView {
                memory: final(self).context@.memory,
                ..old(self).context@
            }),
            final(self).context@.memory.len() == 4096,
            forall|j: int|
                FONT_OFFSET <= j < FONT_OFFSET + 80 ==> final(self).context@.memory[j]
                    == spec_font()[j - FONT_OFFSET],
            forall|j: int|
                0 <= j < 4096 && !(FONT_OFFSET <= j < FONT_OFFSET + 80)
                    ==> final(self).context@.memory[j] == old(self).context@.memory[j],
    {
        let font = font_table();
        let base: usize = FONT_OFFSET as usize;
        let mut k: usize = 0;
        while k < 80
            invariant
                k <= 80,
                base == FONT_OFFSET,
                font@ == spec_font(),
                self.mode == old(self).mode,
                self.context@ == (StateView {
                    memory: self.context@.memory,
                    ..old(self).context@
                }),
                self.context@.memory.len() == 4096,
                forall|j: int|
                    base <= j < base + k ==> self.context@.memory[j] == spec_font()[j - base],
                forall|j: int|
                    0 <= j < 4096 && !(base <= j < base + k) ==> self.context@.memory[j]
                        == old(self).context@.memory[j],
            decreases 80 - k,
    {
            self.context.memory[base + k] = font[k];
            k = k + 1;
        }
    }

    /// Copies a program image verbatim into memory at the load offset. An
    /// image longer than the available RAM is rejected whole rather than
    /// truncated; on success the number of bytes copied is returned.
    pub fn read_rom_into_memory(&mut self, rom: &[u8]) -> (r: Result<usize, Chip8Error>)
        requires
            old(self).context@.wf(),
        ensures
            final(self).mode == old(self).mode,
            rom@.len() > MAX_ROM_LEN ==> r == Err::<usize, Chip8Error>(Chip8Error::RomTooLarge)
                && final(self).context@ == old(self).context@,
            rom@.len() <= MAX_ROM_LEN ==> {
                &&& r == Ok::<usize, Chip8Error>(rom@.len() as usize)
                &&& final(self).context@ == (StateView {
                    memory: final(self).context@.memory,
                    ..old(self).context@
                })
                &&& final(self).context@.memory.len() == 4096
                &&& forall|j: int|
                    ROM_OFFSET <= j < ROM_OFFSET + rom@.len() ==> final(self).context@.memory[j]
                        == rom@[j - ROM_OFFSET]
                &&& forall|j: int|
                    0 <= j < 4096 && !(ROM_OFFSET <= j < ROM_OFFSET + rom@.len())
                        ==> final(self).context@.memory[j] == old(self).context@.memory[j]
            },
    {
        if rom.len() > MAX_ROM_LEN {
            return Err(Chip8Error::RomTooLarge);
        }
        let mut k: usize = 0;
        while k < rom.len()
            invariant
                k <= rom@.len() <= MAX_ROM_LEN,
                self.mode == old(self).mode,
                self.context@ == (StateView {
                    memory: self.context@.memory,
                    ..old(self).context@
                }),
                self.context@.memory.len() == 4096,
                forall|j: int|
                    ROM_OFFSET <= j < ROM_OFFSET + k ==> self.context@.memory[j] == rom@[j
                        - ROM_OFFSET],
                forall|j: int|
                    0 <= j < 4096 && !(ROM_OFFSET <= j < ROM_OFFSET + k) ==> self.context@.memory[j]
                        == old(self).context@.memory[j],
            decreases rom@.len() - k,
        {
            self.context.memory[ROM_OFFSET + k] = rom[k];
            k = k + 1;
        }
        Ok(rom.len())
    }

    /// Records that the logical key `key` went down, and offers it to the
    /// pending-input mailbox.
    pub fn set_keydown(&mut self, key: u8)
        requires
            key < 16,
            old(self).context@.held_keys.len() == 16,
        ensures
            final(self).mode == old(self).mode,
            final(self).context@ == (StateView {
                held_keys: old(self).context@.held_keys.update(key as int, true),
                input: Some(key),
                ..old(self).context@
            }),
    {
        self.context.held_keys[key as usize] = true;
        self.context.input = Some(key);
    }

    /// Records that the logical key `key` went up.
    pub fn set_keyup(&mut self, key: u8)
        requires
            key < 16,
            old(self).context@.held_keys.len() == 16,
        ensures
            final(self).mode == old(self).mode,
            final(self).context@ == (StateView {
                held_keys: old(self).context@.held_keys.update(key as int, false),
                ..old(self).context@
            }),
    {
        self.context.held_keys[key as usize] = false;
    }
}

} // verus!
