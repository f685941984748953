//! The instruction interpreter. `step_spec` is the mathematical description
//! of one fetch-decode-execute step; `execute_instruction` is the executable
//! interpreter, proved to realize `step_spec` for some value of the byte that
//! the random-number instruction draws.

use vstd::prelude::*;

use crate::chip8_context::{pixel_index, Chip8Context, FrameBufferView, StateView};
use crate::emulator::{Chip8Emulator, FONT_OFFSET};
use crate::{Chip8Error, HEIGHT, WIDTH};

verus! {

/// What a successful interpreter step reports.
#[derive(Clone, Copy, Debug, PartialEq, Eq, Structural)]
pub enum StepOutcome {
    /// The fetched word was recognized and executed.
    Executed,
    /// The fetched word matches no instruction. It was treated as a no-op;
    /// the word is carried for the caller's observability channel, since
    /// programs in the wild do reach unused opcode space.
    UnknownOpcode(u16),
}

/// Relies on rand::random (rand 0.8): a byte drawn from the thread-local
/// generator. Nothing can be promised of the value.
#[verifier::external_body]
fn random_byte() -> u8 {
    rand::random::<u8>()
}

/// Whether bit `j` of a sprite row byte is set, counting the most significant
/// bit as bit 0: sprites are drawn leftmost-bit first.
pub open spec fn sprite_bit(byte: u8, j: int) -> bool {
    ((byte >> ((7 - j) as u8)) & 1) == 1
}

/// Blits bits `j..8` of one sprite row byte onto the display, on row `y`
/// starting at column `x0 + j`. Returns the updated display and whether any
/// target pixel was already on (a collision). Set bits toggle their pixel and
/// mark the display dirty; columns past the right edge are clipped.
pub open spec fn draw_row_from(
    fb: FrameBufferView,
    byte: u8,
    x0: int,
    y: int,
    j: int,
) -> (FrameBufferView, bool)
    decreases 8 - j,
{
    if j < 0 || j >= 8 || x0 + j >= WIDTH {
        (fb, false)
    } else if !sprite_bit(byte, j) {
        draw_row_from(fb, byte, x0, y, j + 1)
    } else {
        let cur = fb.pixels[pixel_index(x0 + j, y)];
        let fb2 = FrameBufferView {
            pixels: fb.pixels.update(pixel_index(x0 + j, y), !cur),
            dirty: true,
        };
        let rest = draw_row_from(fb2, byte, x0, y, j + 1);
        (rest.0, cur || rest.1)
    }
}

/// Blits sprite rows `r..n` onto the display: row `r` comes from memory at
/// `i + r` and lands on display row `y0 + r`. Rows past the bottom edge are
/// clipped. Returns the updated display and whether any row collided.
pub open spec fn draw_sprite_from(
    fb: FrameBufferView,
    mem: Seq<u8>,
    i: int,
    x0: int,
    y0: int,
    r: int,
    n: int,
) -> (FrameBufferView, bool)
    decreases n - r,
{
    if r < 0 || r >= n || y0 + r >= HEIGHT {
        (fb, false)
    } else {
        let row = draw_row_from(fb, mem[i + r], x0, y0 + r, 0);
        let rest = draw_sprite_from(row.0, mem, i, x0, y0, r + 1, n);
        (rest.0, row.1 || rest.1)
    }
}

/// Blitting one row touches only in-range pixels of row `y`, in columns
/// `x0 + j` and rightward (up to `x0 + 8`, clipped at the edge); every other
/// pixel keeps its state, and the bitmap keeps its size.
pub proof fn lemma_draw_row_frame(fb: FrameBufferView, byte: u8, x0: int, y: int, j: int)
    requires
        fb.wf(),
        0 <= x0 < WIDTH,
        0 <= y < HEIGHT,
    ensures
        draw_row_from(fb, byte, x0, y, j).0.wf(),
        forall|px: int, py: int|
            0 <= px < WIDTH && 0 <= py < HEIGHT && (py != y || px < x0 + j || px >= x0 + 8)
                ==> draw_row_from(fb, byte, x0, y, j).0.pixels[pixel_index(px, py)]
                == fb.pixels[pixel_index(px, py)],
    decreases 8 - j,
{
    if j < 0 || j >= 8 || x0 + j >= WIDTH {
    } else if !sprite_bit(byte, j) {
        lemma_draw_row_frame(fb, byte, x0, y, j + 1);
        assert forall|px: int, py: int|
            0 <= px < WIDTH && 0 <= py < HEIGHT && (py != y || px < x0 + j || px >= x0 + 8)
            implies draw_row_from(fb, byte, x0, y, j).0.pixels[pixel_index(px, py)]
            == fb.pixels[pixel_index(px, py)] by {
            assert(py != y || px < x0 + j + 1 || px >= x0 + 8);
        }
    } else {
        let cur = fb.pixels[pixel_index(x0 + j, y)];
        let fb2 = FrameBufferView {
            pixels: fb.pixels.update(pixel_index(x0 + j, y), !cur),
            dirty: true,
        };
        lemma_draw_row_frame(fb2, byte, x0, y, j + 1);
        assert forall|px: int, py: int|
            0 <= px < WIDTH && 0 <= py < HEIGHT && (py != y || px < x0 + j || px >= x0 + 8)
            implies draw_row_from(fb, byte, x0, y, j).0.pixels[pixel_index(px, py)]
            == fb.pixels[pixel_index(px, py)] by {
            assert(pixel_index(px, py) != pixel_index(x0 + j, y));
            assert(fb2.pixels[pixel_index(px, py)] == fb.pixels[pixel_index(px, py)]);
        }
    }
}

/// Blitting a sprite touches only in-range pixels in the 8-column band at
/// `x0` and the `n`-row band at `y0` (each clipped at the display edge);
/// every other pixel keeps its state, and the bitmap keeps its size.
pub proof fn lemma_draw_sprite_frame(
    fb: FrameBufferView,
    mem: Seq<u8>,
    i: int,
    x0: int,
    y0: int,
    r: int,
    n: int,
)
    requires
        fb.wf(),
        0 <= x0 < WIDTH,
        0 <= y0 < HEIGHT,
    ensures
        draw_sprite_from(fb, mem, i, x0, y0, r, n).0.wf(),
        forall|px: int, py: int|
            0 <= px < WIDTH && 0 <= py < HEIGHT && (py < y0 + r || py >= y0 + n || px < x0 || px
                >= x0 + 8) ==> draw_sprite_from(fb, mem, i, x0, y0, r, n).0.pixels[pixel_index(
                px,
                py,
            )] == fb.pixels[pixel_index(px, py)],
    decreases n - r,
{
    if r < 0 || r >= n || y0 + r >= HEIGHT {
    } else {
        let row = draw_row_from(fb, mem[i + r], x0, y0 + r, 0);
        lemma_draw_row_frame(fb, mem[i + r], x0, y0 + r, 0);
        lemma_draw_sprite_frame(row.0, mem, i, x0, y0, r + 1, n);
        assert forall|px: int, py: int|
            0 <= px < WIDTH && 0 <= py < HEIGHT && (py < y0 + r || py >= y0 + n || px < x0 || px
                >= x0 + 8) implies draw_sprite_from(fb, mem, i, x0, y0, r, n).0.pixels[pixel_index(
            px,
            py,
        )] == fb.pixels[pixel_index(px, py)] by {
            assert(py != y0 + r || px < x0 + 0 || px >= x0 + 8);
            assert(row.0.pixels[pixel_index(px, py)] == fb.pixels[pixel_index(px, py)]);
            assert(py < y0 + (r + 1) || py >= y0 + n || px < x0 || px >= x0 + 8);
        }
    }
}

impl Chip8Context {
    /// Blits an `n`-row sprite taken from memory at the index register onto
    /// the display with origin `(x0, y0)`: set bits toggle their pixel, rows
    /// and columns that run past the display edge are clipped. Returns
    /// whether any toggled pixel was already on.
    pub fn draw_sprite(&mut self, x0: usize, y0: usize, n: usize) -> (collision: bool)
        requires
            old(self)@.wf(),
            x0 < WIDTH,
            y0 < HEIGHT,
            n <= 15,
            old(self)@.i + n <= 4096,
        ensures
            final(self)@ == (StateView {
                frame: draw_sprite_from(
                    old(self)@.frame,
                    old(self)@.memory,
                    old(self)@.i,
                    x0 as int,
                    y0 as int,
                    0,
                    n as int,
                ).0,
                ..old(self)@
            }),
            collision == draw_sprite_from(
                old(self)@.frame,
                old(self)@.memory,
                old(self)@.i,
                x0 as int,
                y0 as int,
                0,
                n as int,
            ).1,
    {
        let ghost pre = self@;
        let ghost full = draw_sprite_from(
            pre.frame,
            pre.memory,
            pre.i,
            x0 as int,
            y0 as int,
            0,
            n as int,
        );
        let mut collision = false;
        let mut r: usize = 0;
        while r < n && y0 + r < HEIGHT
            invariant
                pre.wf(),
                self@ == (StateView { frame: self@.frame, ..pre }),
                self@.frame.wf(),
                x0 < WIDTH,
                y0 < HEIGHT,
                n <= 15,
                pre.i + n <= 4096,
                r <= n,
                full == draw_sprite_from(pre.frame, pre.memory, pre.i, x0 as int, y0 as int, 0, n as int),
                ({
                    let rest = draw_sprite_from(
                        self@.frame,
                        pre.memory,
                        pre.i,
                        x0 as int,
                        y0 as int,
                        r as int,
                        n as int,
                    );
                    full.0 == rest.0 && full.1 == (collision || rest.1)
                }),
            decreases n - r,
        {
            let byte = self.memory[self.i as usize + r];
            let ghost fb_row = self@.frame;
            let ghost c0 = collision;
            let ghost rowfull = draw_row_from(fb_row, byte, x0 as int, (y0 + r) as int, 0);
            let mut j: usize = 0;
            while j < 8 && x0 + j < WIDTH
                invariant
                    self@ == (StateView { frame: self@.frame, ..pre }),
                    self@.frame.wf(),
                    fb_row.wf(),
                    x0 < WIDTH,
                    y0 + r < HEIGHT,
                    j <= 8,
                    rowfull == draw_row_from(fb_row, byte, x0 as int, (y0 + r) as int, 0),
                    c0 ==> collision,
                    ({
                        let restrow = draw_row_from(
                            self@.frame,
                            byte,
                            x0 as int,
                            (y0 + r) as int,
                            j as int,
                        );
                        rowfull.0 == restrow.0 && (c0 || rowfull.1) == (collision || restrow.1)
                    }),
                decreases 8 - j,
            {
                let bit = (byte >> ((7 - j) as u8)) & 1;
                if bit == 1 {
                    let cur = self.frame_buffer.get_pixel(x0 + j, y0 + r).unwrap();
                    if cur {
                        collision = true;
                    }
                    self.frame_buffer.set_pixel(x0 + j, y0 + r, !cur);
                }
                j = j + 1;
            }
            r = r + 1;
        }
        collision
    }
}

/// The full 16-bit instruction word built from its two bytes.
pub open spec fn op_word(b0: u8, b1: u8) -> u16 {
    ((b0 as int) * 256 + (b1 as int)) as u16
}

/// The effect of the instruction word `b0 b1` on machine state `s`, whose
/// program counter has already advanced past the word. `rnd` stands for the
/// byte the random-number instruction draws; no other instruction reads it.
pub open spec fn op_spec(s: StateView, b0: u8, b1: u8, rnd: u8) -> (StateView, Result<
    StepOutcome,
    Chip8Error,
>) {
    let op = b0 / 16;
    let x = (b0 % 16) as int;
    let y = (b1 / 16) as int;
    let n = (b1 % 16) as int;
    let nn = b1;
    let nnn = ((b0 % 16) as int) * 256 + (b1 as int);
    let vx = s.v[x];
    let vy = s.v[y];
    let executed = Ok::<StepOutcome, Chip8Error>(StepOutcome::Executed);
    let unknown = Ok::<StepOutcome, Chip8Error>(StepOutcome::UnknownOpcode(op_word(b0, b1)));
    if op == 0 {
        if b0 == 0 && b1 == 0xE0 {
            // 00E0: clear the display.
            (
                StateView {
                    frame: FrameBufferView {
                        pixels: Seq::new((WIDTH * HEIGHT) as nat, |k: int| false),
                        dirty: true,
                    },
                    ..s
                },
                executed,
            )
        } else if b0 == 0 && b1 == 0xEE {
            // 00EE: return from subroutine.
            if s.sp == 0 {
                (s, Err(Chip8Error::StackUnderflow))
            } else {
                (
                    StateView { pc: s.stack[s.sp - 1] as int, sp: s.sp - 1, ..s },
                    executed,
                )
            }
        } else {
            // 0nnn: machine-code routine, conventionally ignored.
            (s, executed)
        }
    } else if op == 1 {
        // 1nnn: jump.
        (StateView { pc: nnn, ..s }, executed)
    } else if op == 2 {
        // 2nnn: call subroutine.
        if s.sp == 16 {
            (s, Err(Chip8Error::StackOverflow))
        } else {
            (
                StateView { stack: s.stack.update(s.sp, s.pc as u16), sp: s.sp + 1, pc: nnn, ..s },
                executed,
            )
        }
    } else if op == 3 {
        // 3xnn: skip next instruction if vx == nn.
        if vx == nn {
            (StateView { pc: s.pc + 2, ..s }, executed)
        } else {
            (s, executed)
        }
    } else if op == 4 {
        // 4xnn: skip next instruction if vx != nn.
        if vx != nn {
            (StateView { pc: s.pc + 2, ..s }, executed)
        } else {
            (s, executed)
        }
    } else if op == 5 {
        // 5xy0: skip next instruction if vx == vy.
        if n != 0 {
            (s, unknown)
        } else if vx == vy {
            (StateView { pc: s.pc + 2, ..s }, executed)
        } else {
            (s, executed)
        }
    } else if op == 6 {
        // 6xnn: load immediate.
        (StateView { v: s.v.update(x, nn), ..s }, executed)
    } else if op == 7 {
        // 7xnn: add immediate, wrapping, no flag.
        (StateView { v: s.v.update(x, (((vx as int) + (nn as int)) % 256) as u8), ..s }, executed)
    } else if op == 8 {
        if n == 0 {
            // 8xy0: copy register.
            (StateView { v: s.v.update(x, vy), ..s }, executed)
        } else if n == 1 {
            (StateView { v: s.v.update(x, vx | vy), ..s }, executed)
        } else if n == 2 {
            (StateView { v: s.v.update(x, vx & vy), ..s }, executed)
        } else if n == 3 {
            (StateView { v: s.v.update(x, vx ^ vy), ..s }, executed)
        } else if n == 4 {
            // 8xy4: add, wrapping; vF reports the carry.
            let sum = (vx as int) + (vy as int);
            let flag: u8 = if sum > 255 { 1 } else { 0 };
            (StateView { v: s.v.update(x, (sum % 256) as u8).update(15, flag), ..s }, executed)
        } else if n == 5 {
            // 8xy5: vx - vy, wrapping; vF is 0 exactly when the subtraction
            // borrowed (inverted relative to a typical carry flag).
            let res = if vx >= vy { (vx as int) - (vy as int) } else { (vx as int) - (vy as int) + 256 };
            let flag: u8 = if vx >= vy { 1 } else { 0 };
            (StateView { v: s.v.update(x, res as u8).update(15, flag), ..s }, executed)
        } else if n == 6 {
            // 8xy6: vx takes vy, vF takes the bit that will be shifted out
            // (bit 7, as 0 or 1), then vx shifts left.
            let moved = s.v.update(x, vy);
            let flagged = moved.update(15, moved[x] >> 7u8);
            (StateView { v: flagged.update(x, flagged[x] << 1u8), ..s }, executed)
        } else if n == 7 {
            // 8xy7: vy - vx, wrapping; same inverted borrow flag as 8xy5.
            let res = if vy >= vx { (vy as int) - (vx as int) } else { (vy as int) - (vx as int) + 256 };
            let flag: u8 = if vy >= vx { 1 } else { 0 };
            (StateView { v: s.v.update(x, res as u8).update(15, flag), ..s }, executed)
        } else if n == 14 {
            // 8xyE: vx takes vy, vF takes bit 0, then vx shifts right.
            let moved = s.v.update(x, vy);
            let flagged = moved.update(15, moved[x] & 1);
            (StateView { v: flagged.update(x, flagged[x] >> 1u8), ..s }, executed)
        } else {
            (s, unknown)
        }
    } else if op == 9 {
        // 9xy0: skip next instruction if vx != vy.
        if n != 0 {
            (s, unknown)
        } else if vx != vy {
            (StateView { pc: s.pc + 2, ..s }, executed)
        } else {
            (s, executed)
        }
    } else if op == 10 {
        // Annn: load the index register.
        (StateView { i: nnn, ..s }, executed)
    } else if op == 11 {
        // Bnnn: jump with offset v0.
        (StateView { pc: nnn + (s.v[0] as int), ..s }, executed)
    } else if op == 12 {
        // Cxnn: random byte masked by nn.
        (StateView { v: s.v.update(x, rnd & nn), ..s }, executed)
    } else if op == 13 {
        // Dxyn: sprite blit. The origin wraps; the drawn pixels clip.
        if s.i + n > 4096 {
            (s, Err(Chip8Error::MemoryOutOfBounds))
        } else {
            let d = draw_sprite_from(s.frame, s.memory, s.i, (vx as int) % 64, (vy as int) % 32, 0, n);
            (
                StateView {
                    frame: d.0,
                    v: s.v.update(15, if d.1 { 1u8 } else { 0u8 }),
                    ..s
                },
                executed,
            )
        }
    } else if op == 14 {
        if b1 == 0x9E {
            // Ex9E: skip if the key numbered vx is held.
            if vx >= 16 {
                (s, Err(Chip8Error::KeyOutOfRange))
            } else if s.held_keys[vx as int] {
                (StateView { pc: s.pc + 2, ..s }, executed)
            } else {
                (s, executed)
            }
        } else if b1 == 0xA1 {
            // ExA1: skip if the key numbered vx is not held.
            if vx >= 16 {
                (s, Err(Chip8Error::KeyOutOfRange))
            } else if !s.held_keys[vx as int] {
                (StateView { pc: s.pc + 2, ..s }, executed)
            } else {
                (s, executed)
            }
        } else {
            (s, unknown)
        }
    } else {
        if b1 == 0x07 {
            // Fx07: read the delay timer.
            (StateView { v: s.v.update(x, s.delay as u8), ..s }, executed)
        } else if b1 == 0x0A {
            // Fx0A: blocking input. With nothing pending, the program counter
            // moves back onto this instruction, to be fetched again next step.
            match s.input {
                Some(k) => (StateView { v: s.v.update(x, k), input: None, ..s }, executed),
                None => (StateView { pc: s.pc - 2, ..s }, executed),
            }
        } else if b1 == 0x15 {
            (StateView { delay: vx as int, ..s }, executed)
        } else if b1 == 0x18 {
            (StateView { sound: vx as int, ..s }, executed)
        } else if b1 == 0x1E {
            // Fx1E: add vx to the index register, wrapping at 16 bits. vF is
            // set on overflow and otherwise left alone (never cleared here).
            let sum = s.i + (vx as int);
            let wrapped = if sum > 0xFFFF { sum - 0x10000 } else { sum };
            let v2 = if sum > 0xFFFF { s.v.update(15, 1u8) } else { s.v };
            (StateView { i: wrapped, v: v2, ..s }, executed)
        } else if b1 == 0x29 {
            // Fx29: point the index register at the font glyph for vx.
            (StateView { i: (FONT_OFFSET as int) + (vx as int) * 5, ..s }, executed)
        } else if b1 == 0x55 {
            // Fx55: store v0..=vx into memory at the index register.
            if s.i + x >= 4096 {
                (s, Err(Chip8Error::MemoryOutOfBounds))
            } else {
                (
                    StateView {
                        memory: Seq::new(
                            4096,
                            |jj: int|
                                if s.i <= jj <= s.i + x {
                                    s.v[jj - s.i]
                                } else {
                                    s.memory[jj]
                                },
                        ),
                        ..s
                    },
                    executed,
                )
            }
        } else if b1 == 0x65 {
            // Fx65: load v0..=vx from memory at the index register.
            if s.i + x >= 4096 {
                (s, Err(Chip8Error::MemoryOutOfBounds))
            } else {
                (
                    StateView {
                        v: Seq::new(
                            16,
                            |k: int|
                                if k <= x {
                                    s.memory[s.i + k]
                                } else {
                                    s.v[k]
                                },
                        ),
                        ..s
                    },
                    executed,
                )
            }
        } else {
            (s, unknown)
        }
    }
}

/// One interpreter step as a mathematical function: fetch the word at the
/// program counter, advance past it, then execute it. A fetch that would read
/// past addressable memory is the fatal runaway-program condition and leaves
/// the state untouched.
pub open spec fn step_spec(pre: StateView, rnd: u8) -> (StateView, Result<
    StepOutcome,
    Chip8Error,
>) {
    if pre.pc + 1 >= 4096 {
        (pre, Err(Chip8Error::PcOutOfBounds))
    } else {
        let b0 = pre.memory[pre.pc];
        let b1 = pre.memory[pre.pc + 1];
        op_spec(StateView { pc: pre.pc + 2, ..pre }, b0, b1, rnd)
    }
}

/// Whether one interpreter step can turn `pre` into `post` reporting `r`:
/// some value of the drawn random byte explains the transition. For every
/// instruction except the random one, the byte is irrelevant and the
/// transition is deterministic.
pub open spec fn steps_to(
    pre: StateView,
    post: StateView,
    r: Result<StepOutcome, Chip8Error>,
) -> bool {
    exists|rnd: u8| #[trigger] step_spec(pre, rnd) == (post, r)
}

impl Chip8Emulator {
    /// One fetch-decode-execute step. The two bytes at the program counter
    /// are fetched, the counter advances past them, and the decoded
    /// instruction runs; jumps, skips and the blocking-input retry overwrite
    /// or further adjust the counter. A fatal condition (runaway fetch, stack
    /// misuse, a memory block past the address space) is returned to the
    /// caller; an unrecognized word is a reported no-op.
    #[verifier::rlimit(60)]
    pub fn execute_instruction(&mut self) -> (r: Result<StepOutcome, Chip8Error>)
        requires
            old(self).context@.wf(),
        ensures
            final(self).mode == old(self).mode,
            final(self).context@.wf(),
            steps_to(old(self).context@, final(self).context@, r),
    {
        let ghost pre = self.context@;
        let ghost mut w: u8 = 0u8;
        if self.context.pc + 1 >= 4096 {
            proof {
                assert(step_spec(pre, w) == (
                    self.context@,
                    Err::<StepOutcome, Chip8Error>(Chip8Error::PcOutOfBounds),
                ));
                assert(steps_to(
                    pre,
                    self.context@,
                    Err::<StepOutcome, Chip8Error>(Chip8Error::PcOutOfBounds),
                ));
            }
            return Err(Chip8Error::PcOutOfBounds);
        }
        let (start, end) = self.context.get_next_instruction();
        let op = start / 16;
        let x = (start % 16) as usize;
        let y = (end / 16) as usize;
        let n = end % 16;
        let nn = end;
        let nnn: usize = ((start % 16) as usize) * 256 + (end as usize);
        self.context.increment_pc();
        let ghost s = StateView { pc: pre.pc + 2, ..pre };
        let ghost done: Result<StepOutcome, Chip8Error> = Ok(StepOutcome::Executed);
        let ghost unknown: Result<StepOutcome, Chip8Error> = Ok(
            StepOutcome::UnknownOpcode(op_word(start, end)),
        );
        proof {
            assert(self.context@ =~= s);
        }
        let r: Result<StepOutcome, Chip8Error> = if op == 0 {
            if start == 0 && end == 0xE0 {
                self.context.frame_buffer.clear();
                proof {
                    assert(self.context@ =~= (StateView {
                        frame: FrameBufferView {
                            pixels: Seq::new((WIDTH * HEIGHT) as nat, |k: int| false),
                            dirty: true,
                        },
                        ..s
                    }));
                    assert(op_spec(s, start, end, w) == (self.context@, done));
                }
                Ok(StepOutcome::Executed)
            } else if start == 0 && end == 0xEE {
                match self.context.stack_pop() {
                    Ok(ret) => {
                        self.context.pc = ret as usize;
                        proof {
                            assert(self.context@ =~= (StateView {
                                pc: s.stack[s.sp - 1] as int,
                                sp: s.sp - 1,
                                ..s
                            }));
                            assert(op_spec(s, start, end, w) == (self.context@, done));
                        }
                        Ok(StepOutcome::Executed)
                    },
                    Err(e) => {
                        proof {
                            assert(op_spec(s, start, end, w) == (
                                self.context@,
                                Err::<StepOutcome, Chip8Error>(Chip8Error::StackUnderflow),
                            ));
                        }
                        Err(e)
                    },
                }
            } else {
                proof {
                    assert(op_spec(s, start, end, w) == (self.context@, done));
                }
                Ok(StepOutcome::Executed)
            }
        } else if op == 1 {
            self.context.pc = nnn;
            proof {
                assert(self.context@ =~= (StateView { pc: nnn as int, ..s }));
                assert(op_spec(s, start, end, w) == (self.context@, done));
            }
            Ok(StepOutcome::Executed)
        } else if op == 2 {
            let ret = self.context.pc as u16;
            match self.context.stack_push(ret) {
                Ok(()) => {
                    self.context.pc = nnn;
                    proof {
                        assert(self.context@ =~= (StateView {
                            stack: s.stack.update(s.sp, s.pc as u16),
                            sp: s.sp + 1,
                            pc: nnn as int,
                            ..s
                        }));
                        assert(op_spec(s, start, end, w) == (self.context@, done));
                    }
                    Ok(StepOutcome::Executed)
                },
                Err(e) => {
                    proof {
                        assert(op_spec(s, start, end, w) == (
                            self.context@,
                            Err::<StepOutcome, Chip8Error>(Chip8Error::StackOverflow),
                        ));
                    }
                    Err(e)
                },
            }
        } else if op == 3 {
            if nn == self.context.v[x] {
                self.context.increment_pc();
            }
            proof {
                assert(op_spec(s, start, end, w) == (self.context@, done));
            }
            Ok(StepOutcome::Executed)
        } else if op == 4 {
            if nn != self.context.v[x] {
                self.context.increment_pc();
            }
            proof {
                assert(op_spec(s, start, end, w) == (self.context@, done));
            }
            Ok(StepOutcome::Executed)
        } else if op == 5 {
            if n != 0 {
                proof {
                    assert(op_spec(s, start, end, w) == (self.context@, unknown));
                }
                Ok(StepOutcome::UnknownOpcode((start as u16) * 256 + (end as u16)))
            } else {
                if self.context.v[x] == self.context.v[y] {
                    self.context.increment_pc();
                }
                proof {
                    assert(op_spec(s, start, end, w) == (self.context@, done));
                }
                Ok(StepOutcome::Executed)
            }
        } else if op == 6 {
            self.context.v[x] = nn;
            proof {
                assert(self.context@ =~= (StateView { v: s.v.update(x as int, nn), ..s }));
                assert(op_spec(s, start, end, w) == (self.context@, done));
            }
            Ok(StepOutcome::Executed)
        } else if op == 7 {
            let sum: u16 = (self.context.v[x] as u16) + (nn as u16);
            self.context.v[x] = (sum % 256) as u8;
            proof {
                assert(self.context@ =~= (StateView {
                    v: s.v.update(x as int, (((s.v[x as int] as int) + (nn as int)) % 256) as u8),
                    ..s
                }));
                assert(op_spec(s, start, end, w) == (self.context@, done));
            }
            Ok(StepOutcome::Executed)
        } else if op == 8 {
            if n == 0 {
                self.context.v[x] = self.context.v[y];
                proof {
                    assert(self.context@ =~= (StateView {
                        v: s.v.update(x as int, s.v[y as int]),
                        ..s
                    }));
                    assert(op_spec(s, start, end, w) == (self.context@, done));
                }
                Ok(StepOutcome::Executed)
            } else if n == 1 {
                self.context.v[x] = self.context.v[x] | self.context.v[y];
                proof {
                    assert(self.context@ =~= (StateView {
                        v: s.v.update(x as int, s.v[x as int] | s.v[y as int]),
                        ..s
                    }));
                    assert(op_spec(s, start, end, w) == (self.context@, done));
                }
                Ok(StepOutcome::Executed)
            } else if n == 2 {
                self.context.v[x] = self.context.v[x] & self.context.v[y];
                proof {
                    assert(self.context@ =~= (StateView {
                        v: s.v.update(x as int, s.v[x as int] & s.v[y as int]),
                        ..s
                    }));
                    assert(op_spec(s, start, end, w) == (self.context@, done));
                }
                Ok(StepOutcome::Executed)
            } else if n == 3 {
                self.context.v[x] = self.context.v[x] ^ self.context.v[y];
                proof {
                    assert(self.context@ =~= (StateView {
                        v: s.v.update(x as int, s.v[x as int] ^ s.v[y as int]),
                        ..s
                    }));
                    assert(op_spec(s, start, end, w) == (self.context@, done));
                }
                Ok(StepOutcome::Executed)
            } else if n == 4 {
                let sum: u16 = (self.context.v[x] as u16) + (self.context.v[y] as u16);
                self.context.v[x] = (sum % 256) as u8;
                self.context.v[15] = if sum > 255 {
                    1
                } else {
                    0
                };
                proof {
                    let spec_sum = (s.v[x as int] as int) + (s.v[y as int] as int);
                    let flag: u8 = if spec_sum > 255 {
                        1
                    } else {
                        0
                    };
                    assert(self.context@ =~= (StateView {
                        v: s.v.update(x as int, (spec_sum % 256) as u8).update(15, flag),
                        ..s
                    }));
                    assert(op_spec(s, start, end, w) == (self.context@, done));
                }
                Ok(StepOutcome::Executed)
            } else if n == 5 {
                let vx = self.context.v[x];
                let vy = self.context.v[y];
                let res: u8 = if vx >= vy {
                    vx - vy
                } else {
                    (((vx as u16) + 256) - (vy as u16)) as u8
                };
                self.context.v[x] = res;
                self.context.v[15] = if vx >= vy {
                    1
                } else {
                    0
                };
                proof {
                    let spec_res = if s.v[x as int] >= s.v[y as int] {
                        (s.v[x as int] as int) - (s.v[y as int] as int)
                    } else {
                        (s.v[x as int] as int) - (s.v[y as int] as int) + 256
                    };
                    let flag: u8 = if s.v[x as int] >= s.v[y as int] {
                        1
                    } else {
                        0
                    };
                    assert(self.context@ =~= (StateView {
                        v: s.v.update(x as int, spec_res as u8).update(15, flag),
                        ..s
                    }));
                    assert(op_spec(s, start, end, w) == (self.context@, done));
                }
                Ok(StepOutcome::Executed)
            } else if n == 6 {
                self.context.v[x] = self.context.v[y];
                self.context.v[15] = self.context.v[x] >> 7u8;
                self.context.v[x] = self.context.v[x] << 1u8;
                proof {
                    let moved = s.v.update(x as int, s.v[y as int]);
                    let flagged = moved.update(15, moved[x as int] >> 7u8);
                    assert(self.context@ =~= (StateView {
                        v: flagged.update(x as int, flagged[x as int] << 1u8),
                        ..s
                    }));
                    assert(op_spec(s, start, end, w) == (self.context@, done));
                }
                Ok(StepOutcome::Executed)
            } else if n == 7 {
                let vx = self.context.v[x];
                let vy = self.context.v[y];
                let res: u8 = if vy >= vx {
                    vy - vx
                } else {
                    (((vy as u16) + 256) - (vx as u16)) as u8
                };
                self.context.v[x] = res;
                self.context.v[15] = if vy >= vx {
                    1
                } else {
                    0
                };
                proof {
                    let spec_res = if s.v[y as int] >= s.v[x as int] {
                        (s.v[y as int] as int) - (s.v[x as int] as int)
                    } else {
                        (s.v[y as int] as int) - (s.v[x as int] as int) + 256
                    };
                    let flag: u8 = if s.v[y as int] >= s.v[x as int] {
                        1
                    } else {
                        0
                    };
                    assert(self.context@ =~= (StateView {
                        v: s.v.update(x as int, spec_res as u8).update(15, flag),
                        ..s
                    }));
                    assert(op_spec(s, start, end, w) == (self.context@, done));
                }
                Ok(StepOutcome::Executed)
            } else if n == 14 {
                self.context.v[x] = self.context.v[y];
                self.context.v[15] = self.context.v[x] & 1;
                self.context.v[x] = self.context.v[x] >> 1u8;
                proof {
                    let moved = s.v.update(x as int, s.v[y as int]);
                    let flagged = moved.update(15, moved[x as int] & 1);
                    assert(self.context@ =~= (StateView {
                        v: flagged.update(x as int, flagged[x as int] >> 1u8),
                        ..s
                    }));
                    assert(op_spec(s, start, end, w) == (self.context@, done));
                }
                Ok(StepOutcome::Executed)
            } else {
                proof {
                    assert(op_spec(s, start, end, w) == (self.context@, unknown));
                }
                Ok(StepOutcome::UnknownOpcode((start as u16) * 256 + (end as u16)))
            }
        } else if op == 9 {
            if n != 0 {
                proof {
                    assert(op_spec(s, start, end, w) == (self.context@, unknown));
                }
                Ok(StepOutcome::UnknownOpcode((start as u16) * 256 + (end as u16)))
            } else {
                if self.context.v[x] != self.context.v[y] {
                    self.context.increment_pc();
                }
                proof {
                    assert(op_spec(s, start, end, w) == (self.context@, done));
                }
                Ok(StepOutcome::Executed)
            }
        } else if op == 10 {
            self.context.i = nnn as u16;
            proof {
                assert(self.context@ =~= (StateView { i: nnn as int, ..s }));
                assert(op_spec(s, start, end, w) == (self.context@, done));
            }
            Ok(StepOutcome::Executed)
        } else if op == 11 {
            self.context.pc = nnn + (self.context.v[0] as usize);
            proof {
                assert(self.context@ =~= (StateView { pc: nnn as int + (s.v[0] as int), ..s }));
                assert(op_spec(s, start, end, w) == (self.context@, done));
            }
            Ok(StepOutcome::Executed)
        } else if op == 12 {
            let g = random_byte();
            self.context.v[x] = g & nn;
            proof {
                w = g;
                assert(self.context@ =~= (StateView { v: s.v.update(x as int, g & nn), ..s }));
                assert(op_spec(s, start, end, w) == (self.context@, done));
            }
            Ok(StepOutcome::Executed)
        } else if op == 13 {
            let ii = self.context.i as usize;
            if ii + (n as usize) > 4096 {
                proof {
                    assert(op_spec(s, start, end, w) == (
                        self.context@,
                        Err::<StepOutcome, Chip8Error>(Chip8Error::MemoryOutOfBounds),
                    ));
                }
                Err(Chip8Error::MemoryOutOfBounds)
            } else {
                let x0 = (self.context.v[x] % 64) as usize;
                let y0 = (self.context.v[y] % 32) as usize;
                let collision = self.context.draw_sprite(x0, y0, n as usize);
                self.context.v[15] = if collision {
                    1
                } else {
                    0
                };
                proof {
                    let d = draw_sprite_from(
                        s.frame,
                        s.memory,
                        s.i,
                        (s.v[x as int] as int) % 64,
                        (s.v[y as int] as int) % 32,
                        0,
                        n as int,
                    );
                    lemma_draw_sprite_frame(
                        s.frame,
                        s.memory,
                        s.i,
                        (s.v[x as int] as int) % 64,
                        (s.v[y as int] as int) % 32,
                        0,
                        n as int,
                    );
                    assert(self.context@ =~= (StateView {
                        frame: d.0,
                        v: s.v.update(15, if d.1 {
                            1u8
                        } else {
                            0u8
                        }),
                        ..s
                    }));
                    assert(op_spec(s, start, end, w) == (self.context@, done));
                }
                Ok(StepOutcome::Executed)
            }
        } else if op == 14 {
            if end == 0x9E {
                let key = self.context.v[x];
                if key >= 16 {
                    proof {
                        assert(op_spec(s, start, end, w) == (
                            self.context@,
                            Err::<StepOutcome, Chip8Error>(Chip8Error::KeyOutOfRange),
                        ));
                    }
                    Err(Chip8Error::KeyOutOfRange)
                } else {
                    if self.context.held_keys[key as usize] {
                        self.context.increment_pc();
                    }
                    proof {
                        assert(op_spec(s, start, end, w) == (self.context@, done));
                    }
                    Ok(StepOutcome::Executed)
                }
            } else if end == 0xA1 {
                let key = self.context.v[x];
                if key >= 16 {
                    proof {
                        assert(op_spec(s, start, end, w) == (
                            self.context@,
                            Err::<StepOutcome, Chip8Error>(Chip8Error::KeyOutOfRange),
                        ));
                    }
                    Err(Chip8Error::KeyOutOfRange)
                } else {
                    if !self.context.held_keys[key as usize] {
                        self.context.increment_pc();
                    }
                    proof {
                        assert(op_spec(s, start, end, w) == (self.context@, done));
                    }
                    Ok(StepOutcome::Executed)
                }
            } else {
                proof {
                    assert(op_spec(s, start, end, w) == (self.context@, unknown));
                }
                Ok(StepOutcome::UnknownOpcode((start as u16) * 256 + (end as u16)))
            }
        } else {
            if end == 0x07 {
                self.context.v[x] = self.context.delay;
                proof {
                    assert(self.context@ =~= (StateView {
                        v: s.v.update(x as int, s.delay as u8),
                        ..s
                    }));
                    assert(op_spec(s, start, end, w) == (self.context@, done));
                }
                Ok(StepOutcome::Executed)
            } else if end == 0x0A {
                let inp = self.context.read_input();
                match inp {
                    Some(ch) => {
                        self.context.v[x] = ch;
                        proof {
                            assert(self.context@ =~= (StateView {
                                v: s.v.update(x as int, ch),
                                input: None::<u8>,
                                ..s
                            }));
                            assert(op_spec(s, start, end, w) == (self.context@, done));
                        }
                    },
                    None => {
                        self.context.decrement_pc();
                        proof {
                            assert(self.context@ =~= (StateView { pc: s.pc - 2, ..s }));
                            assert(op_spec(s, start, end, w) == (self.context@, done));
                        }
                    },
                }
                Ok(StepOutcome::Executed)
            } else if end == 0x15 {
                self.context.delay = self.context.v[x];
                proof {
                    assert(self.context@ =~= (StateView { delay: s.v[x as int] as int, ..s }));
                    assert(op_spec(s, start, end, w) == (self.context@, done));
                }
                Ok(StepOutcome::Executed)
            } else if end == 0x18 {
                self.context.sound = self.context.v[x];
                proof {
                    assert(self.context@ =~= (StateView { sound: s.v[x as int] as int, ..s }));
                    assert(op_spec(s, start, end, w) == (self.context@, done));
                }
                Ok(StepOutcome::Executed)
            } else if end == 0x1E {
                let sum: u32 = (self.context.i as u32) + (self.context.v[x] as u32);
                if sum > 0xFFFF {
                    self.context.i = (sum - 0x10000) as u16;
                    self.context.v[15] = 1;
                } else {
                    self.context.i = sum as u16;
                }
                proof {
                    let spec_sum = s.i + (s.v[x as int] as int);
                    let wrapped = if spec_sum > 0xFFFF {
                        spec_sum - 0x10000
                    } else {
                        spec_sum
                    };
                    let v2 = if spec_sum > 0xFFFF {
                        s.v.update(15, 1u8)
                    } else {
                        s.v
                    };
                    assert(self.context@ =~= (StateView { i: wrapped, v: v2, ..s }));
                    assert(op_spec(s, start, end, w) == (self.context@, done));
                }
                Ok(StepOutcome::Executed)
            } else if end == 0x29 {
                self.context.i = (FONT_OFFSET as u16) + (self.context.v[x] as u16) * 5;
                proof {
                    assert(self.context@ =~= (StateView {
                        i: (FONT_OFFSET as int) + (s.v[x as int] as int) * 5,
                        ..s
                    }));
                    assert(op_spec(s, start, end, w) == (self.context@, done));
                }
                Ok(StepOutcome::Executed)
            } else if end == 0x55 {
                let ii = self.context.i as usize;
                if ii + x >= 4096 {
                    proof {
                        assert(op_spec(s, start, end, w) == (
                            self.context@,
                            Err::<StepOutcome, Chip8Error>(Chip8Error::MemoryOutOfBounds),
                        ));
                    }
                    Err(Chip8Error::MemoryOutOfBounds)
                } else {
                    let mut k: usize = 0;
                    while k < x + 1
                        invariant
                            s.wf(),
                            ii == s.i,
                            x < 16,
                            ii + x < 4096,
                            k <= x + 1,
                            self.mode == old(self).mode,
                            self.context@ == (StateView {
                                memory: self.context@.memory,
                                ..s
                            }),
                            self.context@.memory.len() == 4096,
                            forall|jj: int|
                                ii <= jj < ii + k ==> self.context@.memory[jj] == s.v[jj - ii],
                            forall|jj: int|
                                0 <= jj < 4096 && !(ii <= jj < ii + k)
                                    ==> self.context@.memory[jj] == s.memory[jj],
                        decreases x + 1 - k,
                    {
                        self.context.memory[ii + k] = self.context.v[k];
                        k = k + 1;
                    }
                    proof {
                        assert(self.context@.memory =~= Seq::new(
                            4096,
                            |jj: int|
                                if s.i <= jj <= s.i + x {
                                    s.v[jj - s.i]
                                } else {
                                    s.memory[jj]
                                },
                        ));
                        assert(self.context@ =~= (StateView {
                            memory: Seq::new(
                                4096,
                                |jj: int|
                                    if s.i <= jj <= s.i + x {
                                        s.v[jj - s.i]
                                    } else {
                                        s.memory[jj]
                                    },
                            ),
                            ..s
                        }));
                        assert(op_spec(s, start, end, w) == (self.context@, done));
                    }
                    Ok(StepOutcome::Executed)
                }
            } else if end == 0x65 {
                let ii = self.context.i as usize;
                if ii + x >= 4096 {
                    proof {
                        assert(op_spec(s, start, end, w) == (
                            self.context@,
                            Err::<StepOutcome, Chip8Error>(Chip8Error::MemoryOutOfBounds),
                        ));
                    }
                    Err(Chip8Error::MemoryOutOfBounds)
                } else {
                    let mut k: usize = 0;
                    while k < x + 1
                        invariant
                            s.wf(),
                            ii == s.i,
                            x < 16,
                            ii + x < 4096,
                            k <= x + 1,
                            self.mode == old(self).mode,
                            self.context@ == (StateView { v: self.context@.v, ..s }),
                            self.context@.v.len() == 16,
                            forall|kk: int|
                                0 <= kk < k ==> self.context@.v[kk] == s.memory[s.i + kk],
                            forall|kk: int| k <= kk < 16 ==> self.context@.v[kk] == s.v[kk],
                        decreases x + 1 - k,
                    {
                        self.context.v[k] = self.context.memory[ii + k];
                        k = k + 1;
                    }
                    proof {
                        assert(self.context@.v =~= Seq::new(
                            16,
                            |kk: int|
                                if kk <= x {
                                    s.memory[s.i + kk]
                                } else {
                                    s.v[kk]
                                },
                        ));
                        assert(self.context@ =~= (StateView {
                            v: Seq::new(
                                16,
                                |kk: int|
                                    if kk <= x {
                                        s.memory[s.i + kk]
                                    } else {
                                        s.v[kk]
                                    },
                            ),
                            ..s
                        }));
                        assert(op_spec(s, start, end, w) == (self.context@, done));
                    }
                    Ok(StepOutcome::Executed)
                }
            } else {
                proof {
                    assert(op_spec(s, start, end, w) == (self.context@, unknown));
                }
                Ok(StepOutcome::UnknownOpcode((start as u16) * 256 + (end as u16)))
            }
        };
        proof {
            assert(step_spec(pre, w) == (self.context@, r));
            assert(steps_to(pre, self.context@, r));
        }
        r
    }
}

} // verus!
