//! The machine state of the CHIP-8 virtual machine: addressable memory, the
//! sixteen general-purpose registers, the index register, the program
//! counter, the call stack, the two 60 Hz timers, the display bitmap and the
//! pending-input mailbox. The operations here are the primitive, total steps
//! that the instruction interpreter composes; none of them carries any
//! control-flow policy of its own.

use vstd::prelude::*;

use crate::{Chip8Error, HEIGHT, WIDTH};

verus! {

/// One timer tick at 60 Hz, to the nearest nanosecond.
pub const TIMER_INTERVAL_NANOS: u64 = 16_666_667;

/// Mathematical view of the display: one boolean per pixel, plus the dirty
/// flag that tells the external renderer a redraw is warranted. Pixel
/// `(x, y)` lives at flat index `x * HEIGHT + y`.
#[verifier::ext_equal]
pub struct FrameBufferView {
    pub pixels: Seq<bool>,
    pub dirty: bool,
}

impl FrameBufferView {
    pub open spec fn wf(self) -> bool {
        self.pixels.len() == WIDTH * HEIGHT
    }
}

/// Flat index of pixel `(x, y)` in the display bitmap.
pub open spec fn pixel_index(x: int, y: int) -> int {
    x * (HEIGHT as int) + y
}

/// The 64x32 display bitmap. Out-of-range reads return `None` and
/// out-of-range writes are ignored: sprites at the display edge are clipped,
/// never wrapped.
pub struct FrameBuffer {
    buffer: Vec<bool>,
    dirty: bool,
}

impl View for FrameBuffer {
    type V = FrameBufferView;

    closed spec fn view(&self) -> FrameBufferView {
        FrameBufferView { pixels: self.buffer@, dirty: self.dirty }
    }
}

/// A buffer of `n` pixels, all off.
fn blank_pixels(n: usize) -> (v: Vec<bool>)
    ensures
        v@.len() == n,
        forall|j: int| 0 <= j < n ==> !v@[j],
{
    let mut v: Vec<bool> = Vec::new();
    let mut j: usize = 0;
    while j < n
        invariant
            j <= n,
            v@.len() == j,
            forall|k: int| 0 <= k < j ==> !v@[k],
        decreases n - j,
    {
        v.push(false);
        j = j + 1;
    }
    v
}

impl FrameBuffer {
    /// A blank, clean display.
    pub fn new() -> (fb: FrameBuffer)
        ensures
            fb@.wf(),
            forall|j: int| 0 <= j < WIDTH * HEIGHT ==> !fb@.pixels[j],
            !fb@.dirty,
    {
        FrameBuffer { buffer: blank_pixels(WIDTH * HEIGHT), dirty: false }
    }

    /// The state of pixel `(x, y)`, or `None` when the coordinates lie
    /// outside the display.
    pub fn get_pixel(&self, x: usize, y: usize) -> (r: Option<bool>)
        requires
            self@.wf(),
        ensures
            x < WIDTH && y < HEIGHT ==> r == Some(self@.pixels[pixel_index(x as int, y as int)]),
            !(x < WIDTH && y < HEIGHT) ==> r is None,
    {
        if x < WIDTH && y < HEIGHT {
            Some(self.buffer[x * HEIGHT + y])
        } else {
            None
        }
    }

    /// Writes pixel `(x, y)` and marks the display dirty. A write outside the
    /// display is silently ignored: it changes neither a pixel nor the dirty
    /// flag.
    pub fn set_pixel(&mut self, x: usize, y: usize, value: bool)
        requires
            old(self)@.wf(),
        ensures
            final(self)@.wf(),
            x < WIDTH && y < HEIGHT ==> final(self)@ == (FrameBufferView {
                pixels: old(self)@.pixels.update(pixel_index(x as int, y as int), value),
                dirty: true,
            }),
            !(x < WIDTH && y < HEIGHT) ==> final(self)@ == old(self)@,
    {
        if x < WIDTH && y < HEIGHT {
            self.buffer[x * HEIGHT + y] = value;
            self.dirty = true;
        }
    }

    /// Whether the display changed since the renderer last consumed a frame.
    pub fn is_dirty(&self) -> (r: bool)
        ensures
            r == self@.dirty,
    {
        self.dirty
    }

    /// Marks the current frame as consumed by the renderer.
    pub fn mark_rendered(&mut self)
        ensures
            final(self)@ == (FrameBufferView { dirty: false, ..old(self)@ }),
    {
        self.dirty = false;
    }

    /// Turns every pixel off and marks the display dirty.
    pub fn clear(&mut self)
        ensures
            final(self)@.wf(),
            forall|j: int| 0 <= j < WIDTH * HEIGHT ==> !final(self)@.pixels[j],
            final(self)@.dirty,
    {
        self.buffer = blank_pixels(WIDTH * HEIGHT);
        self.dirty = true;
    }

    /// Runtime check of the display's structural invariant.
    pub fn is_well_formed(&self) -> (b: bool)
        ensures
            b == self@.wf(),
    {
        self.buffer.len() == WIDTH * HEIGHT
    }
}

impl Default for FrameBuffer {
    fn default() -> (fb: FrameBuffer)
        ensures
            fb@.wf(),
            forall|j: int| 0 <= j < WIDTH * HEIGHT ==> !fb@.pixels[j],
            !fb@.dirty,
    {
        FrameBuffer::new()
    }
}

/// Mathematical view of the whole machine state. Scalars widen to `int` so
/// that contracts can state wraparound arithmetic explicitly.
#[verifier::ext_equal]
pub struct StateView {
    pub memory: Seq<u8>,
    pub v: Seq<u8>,
    pub stack: Seq<u16>,
    pub sp: int,
    pub i: int,
    pub pc: int,
    pub delay: int,
    pub sound: int,
    pub timer_accum: int,
    pub frame: FrameBufferView,
    pub held_keys: Seq<bool>,
    pub input: Option<u8>,
}

impl StateView {
    /// Structural invariant of the machine state: every array has its
    /// architectural size, the stack pointer stays within the stack, and the
    /// program counter fits the 16-bit addresses the call stack stores.
    pub open spec fn wf(self) -> bool {
        &&& self.memory.len() == 4096
        &&& self.v.len() == 16
        &&& self.stack.len() == 16
        &&& 0 <= self.sp <= 16
        &&& 0 <= self.i <= 0xFFFF
        &&& 0 <= self.pc <= 0xFFFF
        &&& 0 <= self.delay <= 0xFF
        &&& 0 <= self.sound <= 0xFF
        &&& 0 <= self.timer_accum <= u64::MAX
        &&& self.frame.wf()
        &&& self.held_keys.len() == 16
    }
}

/// The architectural state of one emulation session.
pub struct Chip8Context {
    /// RAM, addressable 0..4096.
    pub memory: Vec<u8>,
    /// General-purpose registers v0..vF. vF doubles as the
    /// carry/borrow/collision flag; programs rely on reading it back as data.
    pub v: Vec<u8>,
    /// The call stack: up to 16 return addresses.
    pub stack: Vec<u16>,
    /// Stack pointer: number of return addresses currently stored.
    pub sp: usize,
    /// The index register, pointing into memory for sprite and block moves.
    pub i: u16,
    /// Address of the next instruction to fetch.
    pub pc: usize,
    /// Delay timer, decremented toward zero at 60 Hz.
    pub delay: u8,
    /// Sound timer, decremented toward zero at 60 Hz; nonzero means a tone
    /// should be playing.
    pub sound: u8,
    /// Elapsed time not yet consumed by a timer tick, in nanoseconds.
    pub timer_accum_nanos: u64,
    /// The display bitmap.
    pub frame_buffer: FrameBuffer,
    /// Held/not-held table for the sixteen logical keys.
    pub held_keys: Vec<bool>,
    /// Single-slot mailbox for the blocking-input instruction.
    pub input: Option<u8>,
}

impl View for Chip8Context {
    type V = StateView;

    open spec fn view(&self) -> StateView {
        StateView {
            memory: self.memory@,
            v: self.v@,
            stack: self.stack@,
            sp: self.sp as int,
            i: self.i as int,
            pc: self.pc as int,
            delay: self.delay as int,
            sound: self.sound as int,
            timer_accum: self.timer_accum_nanos as int,
            frame: self.frame_buffer@,
            held_keys: self.held_keys@,
            input: self.input,
        }
    }
}

/// A buffer of `n` zero bytes.
fn zero_bytes(n: usize) -> (v: Vec<u8>)
    ensures
        v@.len() == n,
        forall|j: int| 0 <= j < n ==> v@[j] == 0,
{
    let mut v: Vec<u8> = Vec::new();
    let mut j: usize = 0;
    while j < n
        invariant
            j <= n,
            v@.len() == j,
            forall|k: int| 0 <= k < j ==> v@[k] == 0,
        decreases n - j,
    {
        v.push(0);
        j = j + 1;
    }
    v
}

/// A buffer of `n` zero words.
fn zero_words(n: usize) -> (v: Vec<u16>)
    ensures
        v@.len() == n,
        forall|j: int| 0 <= j < n ==> v@[j] == 0,
{
    let mut v: Vec<u16> = Vec::new();
    let mut j: usize = 0;
    while j < n
        invariant
            j <= n,
            v@.len() == j,
            forall|k: int| 0 <= k < j ==> v@[k] == 0,
        decreases n - j,
    {
        v.push(0);
        j = j + 1;
    }
    v
}

impl Chip8Context {
    /// A freshly powered-on machine: all memory, registers and timers zero,
    /// the display blank, and the program counter at the 0x200 load offset.
    pub fn new() -> (ctx: Chip8Context)
        ensures
            ctx@.wf(),
            forall|j: int| 0 <= j < 4096 ==> ctx@.memory[j] == 0,
            forall|j: int| 0 <= j < 16 ==> ctx@.v[j] == 0,
            forall|j: int| 0 <= j < 16 ==> ctx@.stack[j] == 0,
            ctx@.sp == 0,
            ctx@.i == 0,
            ctx@.pc == 0x200,
            ctx@.delay == 0,
            ctx@.sound == 0,
            ctx@.timer_accum == 0,
            forall|j: int| 0 <= j < WIDTH * HEIGHT ==> !ctx@.frame.pixels[j],
            !ctx@.frame.dirty,
            forall|j: int| 0 <= j < 16 ==> !ctx@.held_keys[j],
            ctx@.input is None,
    {
        Chip8Context {
            memory: zero_bytes(4096),
            v: zero_bytes(16),
            stack: zero_words(16),
            sp: 0,
            i: 0,
            pc: 0x200,
            delay: 0,
            sound: 0,
            timer_accum_nanos: 0,
            frame_buffer: FrameBuffer::new(),
            held_keys: blank_pixels(16),
            input: None,
        }
    }

    /// The two instruction bytes at the program counter.
    pub fn get_next_instruction(&self) -> (r: (u8, u8))
        requires
            self@.wf(),
            self@.pc + 1 < 4096,
        ensures
            r.0 == self@.memory[self@.pc],
            r.1 == self@.memory[self@.pc + 1],
    {
        (self.memory[self.pc], self.memory[self.pc + 1])
    }

    /// Moves the program counter to the next instruction.
    pub fn increment_pc(&mut self)
        requires
            old(self)@.pc + 2 <= usize::MAX,
        ensures
            final(self)@ == (StateView { pc: old(self)@.pc + 2, ..old(self)@ }),
    {
        self.pc = self.pc + 2;
    }

    /// Moves the program counter back onto the instruction just fetched; used
    /// only by the blocking-input instruction to re-fetch itself.
    pub fn decrement_pc(&mut self)
        requires
            old(self)@.pc >= 2,
        ensures
            final(self)@ == (StateView { pc: old(self)@.pc - 2, ..old(self)@ }),
    {
        self.pc = self.pc - 2;
    }

    /// Stores a return address; fails when the 16-entry stack is full.
    pub fn stack_push(&mut self, value: u16) -> (r: Result<(), Chip8Error>)
        requires
            old(self)@.stack.len() == 16,
            old(self)@.sp <= 16,
        ensures
            old(self)@.sp == 16 ==> r == Err::<(), Chip8Error>(Chip8Error::StackOverflow)
                && final(self)@ == old(self)@,
            old(self)@.sp < 16 ==> r == Ok::<(), Chip8Error>(()) && final(self)@ == (StateView {
                stack: old(self)@.stack.update(old(self)@.sp, value),
                sp: old(self)@.sp + 1,
                ..old(self)@
            }),
    {
        if self.sp >= 16 {
            Err(Chip8Error::StackOverflow)
        } else {
            self.stack[self.sp] = value;
            self.sp = self.sp + 1;
            Ok(())
        }
    }

    /// Removes and returns the most recent return address; fails when the
    /// stack is empty.
    pub fn stack_pop(&mut self) -> (r: Result<u16, Chip8Error>)
        requires
            old(self)@.stack.len() == 16,
            old(self)@.sp <= 16,
        ensures
            old(self)@.sp == 0 ==> r == Err::<u16, Chip8Error>(Chip8Error::StackUnderflow)
                && final(self)@ == old(self)@,
            old(self)@.sp > 0 ==> r == Ok::<u16, Chip8Error>(
                old(self)@.stack[old(self)@.sp - 1],
            ) && final(self)@ == (StateView { sp: old(self)@.sp - 1, ..old(self)@ }),
    {
        if self.sp == 0 {
            Err(Chip8Error::StackUnderflow)
        } else {
            self.sp = self.sp - 1;
            Ok(self.stack[self.sp])
        }
    }

    /// Accounts `elapsed_nanos` of wall-clock time toward the 60 Hz timers.
    /// Once the accumulated time reaches one interval, both timers are
    /// decremented (never below zero) and the excess is retained for the next
    /// call, so a timer tick is never lost and never doubled.
    pub fn update_timers(&mut self, elapsed_nanos: u64)
        ensures
            ({
                let sum = if old(self)@.timer_accum + elapsed_nanos <= u64::MAX {
                    old(self)@.timer_accum + elapsed_nanos
                } else {
                    u64::MAX as int
                };
                if sum >= TIMER_INTERVAL_NANOS {
                    final(self)@ == (StateView {
                        delay: if old(self)@.delay > 0 {
                            old(self)@.delay - 1
                        } else {
                            0
                        },
                        sound: if old(self)@.sound > 0 {
                            old(self)@.sound - 1
                        } else {
                            0
                        },
                        timer_accum: sum % (TIMER_INTERVAL_NANOS as int),
                        ..old(self)@
                    })
                } else {
                    final(self)@ == (StateView { timer_accum: sum, ..old(self)@ })
                }
            }),
    {
        let sum: u64 = if self.timer_accum_nanos <= u64::MAX - elapsed_nanos {
            self.timer_accum_nanos + elapsed_nanos
        } else {
            u64::MAX
        };
        if sum >= TIMER_INTERVAL_NANOS {
            if self.delay > 0 {
                self.delay = self.delay - 1;
            }
            if self.sound > 0 {
                self.sound = self.sound - 1;
            }
            self.timer_accum_nanos = sum % TIMER_INTERVAL_NANOS;
        } else {
            self.timer_accum_nanos = sum;
        }
    }

    /// Consumes the pending-input mailbox: at most one key per call.
    pub fn read_input(&mut self) -> (r: Option<u8>)
        ensures
            r == old(self)@.input,
            final(self)@ == (StateView { input: None::<u8>, ..old(self)@ }),
    {
        let r = self.input;
        self.input = None;
        r
    }

    /// Runtime check of the machine state's structural invariant.
    pub fn is_well_formed(&self) -> (b: bool)
        ensures
            b == self@.wf(),
    {
        self.memory.len() == 4096 && self.v.len() == 16 && self.stack.len() == 16 && self.sp <= 16
            && self.pc <= 0xFFFF && self.frame_buffer.is_well_formed() && self.held_keys.len()
            == 16
    }
}

impl Default for Chip8Context {
    fn default() -> (ctx: Chip8Context)
        ensures
            ctx@.wf(),
            forall|j: int| 0 <= j < 4096 ==> ctx@.memory[j] == 0,
            forall|j: int| 0 <= j < 16 ==> ctx@.v[j] == 0,
            forall|j: int| 0 <= j < 16 ==> ctx@.stack[j] == 0,
            ctx@.sp == 0,
            ctx@.i == 0,
            ctx@.pc == 0x200,
            ctx@.delay == 0,
            ctx@.sound == 0,
            ctx@.timer_accum == 0,
            forall|j: int| 0 <= j < WIDTH * HEIGHT ==> !ctx@.frame.pixels[j],
            !ctx@.frame.dirty,
            forall|j: int| 0 <= j < 16 ==> !ctx@.held_keys[j],
            ctx@.input is None,
    {
        Chip8Context::new()
    }
}

} // verus!
