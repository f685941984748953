//! Laws of the instruction set, proved once and for all over `step_spec`:
//! register arithmetic wraps at 256, the call/return pair round-trips the
//! program counter, clearing blanks every pixel, blocking input is a pure
//! poll, font addressing is exact, and sprite drawing clips instead of
//! wrapping. Each law quantifies over machine states and operands; the
//! accompanying tests exercise the same facts on concrete programs.

use vstd::prelude::*;

use crate::chip8_context::{pixel_index, FrameBufferView, StateView};
use crate::instructions::{draw_row_from, draw_sprite_from, sprite_bit, step_spec, StepOutcome};
use crate::{Chip8Error, HEIGHT, WIDTH};

verus! {

/// Loading an immediate: a 6xnn step sets `vx` to exactly `nn` (that is,
/// `(0 + nn) mod 256`), advances the program counter by two, and touches
/// nothing else.
pub proof fn lemma_load_register(pre: StateView, rnd: u8, xr: u8, nn: u8)
    requires
        pre.wf(),
        pre.pc + 1 < 4096,
        xr < 16,
        pre.memory[pre.pc] == 0x60 + xr,
        pre.memory[pre.pc + 1] == nn,
    ensures
        step_spec(pre, rnd) == (
            (StateView { pc: pre.pc + 2, v: pre.v.update(xr as int, nn), ..pre }),
            Ok::<StepOutcome, Chip8Error>(StepOutcome::Executed),
        ),
{
    let s = StateView { pc: pre.pc + 2, ..pre };
    assert(step_spec(pre, rnd).0 =~= (StateView {
        pc: pre.pc + 2,
        v: pre.v.update(xr as int, nn),
        ..pre
    }));
}

/// Adding an immediate: a 7xnn step sets `vx` to `(vx + nn) mod 256` — each
/// repetition wraps at 256 — leaves every other register (the flag register
/// included, when it is not the target) alone, and sets no flag.
pub proof fn lemma_add_immediate_wraps(pre: StateView, rnd: u8, xr: u8, nn: u8)
    requires
        pre.wf(),
        pre.pc + 1 < 4096,
        xr < 16,
        pre.memory[pre.pc] == 0x70 + xr,
        pre.memory[pre.pc + 1] == nn,
    ensures
        step_spec(pre, rnd) == (
            (StateView {
                pc: pre.pc + 2,
                v: pre.v.update(xr as int, (((pre.v[xr as int] as int) + nn) % 256) as u8),
                ..pre
            }),
            Ok::<StepOutcome, Chip8Error>(StepOutcome::Executed),
        ),
{
    assert(step_spec(pre, rnd).0 =~= (StateView {
        pc: pre.pc + 2,
        v: pre.v.update(xr as int, (((pre.v[xr as int] as int) + nn) % 256) as u8),
        ..pre
    }));
}

/// Executing 6xnn and then 7xmm on the same register leaves it holding
/// `(nn + mm) mod 256`, whatever it held before.
pub proof fn lemma_load_then_add(pre: StateView, rnd1: u8, rnd2: u8, xr: u8, nn: u8, mm: u8)
    requires
        pre.wf(),
        pre.pc + 3 < 4096,
        xr < 16,
        pre.memory[pre.pc] == 0x60 + xr,
        pre.memory[pre.pc + 1] == nn,
        pre.memory[pre.pc + 2] == 0x70 + xr,
        pre.memory[pre.pc + 3] == mm,
    ensures
        ({
            let first = step_spec(pre, rnd1);
            let second = step_spec(first.0, rnd2);
            &&& first.1 == Ok::<StepOutcome, Chip8Error>(StepOutcome::Executed)
            &&& second.1 == Ok::<StepOutcome, Chip8Error>(StepOutcome::Executed)
            &&& second.0.v[xr as int] == ((nn as int) + (mm as int)) % 256
        }),
{
    lemma_load_register(pre, rnd1, xr, nn);
    let mid = step_spec(pre, rnd1).0;
    assert(mid.wf());
    lemma_add_immediate_wraps(mid, rnd2, xr, mm);
}

/// Call/return round trip: a 2nnn step followed by a 00EE step at address
/// `nnn` brings the program counter to exactly the instruction after the
/// call, restores the stack pointer, and changes nothing but the stack slot
/// the call wrote.
pub proof fn lemma_call_return_round_trip(pre: StateView, rnd1: u8, rnd2: u8, hi: u8, lo: u8)
    requires
        pre.wf(),
        pre.pc + 1 < 4096,
        hi < 16,
        pre.memory[pre.pc] == 0x20 + hi,
        pre.memory[pre.pc + 1] == lo,
        (hi as int) * 256 + (lo as int) + 1 < 4096,
        pre.memory[(hi as int) * 256 + (lo as int)] == 0x00,
        pre.memory[(hi as int) * 256 + (lo as int) + 1] == 0xEE,
        pre.sp < 16,
    ensures
        ({
            let first = step_spec(pre, rnd1);
            let second = step_spec(first.0, rnd2);
            &&& first.1 == Ok::<StepOutcome, Chip8Error>(StepOutcome::Executed)
            &&& second.1 == Ok::<StepOutcome, Chip8Error>(StepOutcome::Executed)
            &&& second.0 == (StateView {
                pc: pre.pc + 2,
                stack: pre.stack.update(pre.sp, (pre.pc + 2) as u16),
                ..pre
            })
        }),
{
    let nnn = (hi as int) * 256 + (lo as int);
    let called = StateView {
        pc: nnn,
        stack: pre.stack.update(pre.sp, (pre.pc + 2) as u16),
        sp: pre.sp + 1,
        ..pre
    };
    assert(step_spec(pre, rnd1).0 =~= called);
    assert(called.stack[called.sp - 1] == (pre.pc + 2) as u16);
    assert(step_spec(called, rnd2).0 =~= (StateView {
        pc: pre.pc + 2,
        stack: pre.stack.update(pre.sp, (pre.pc + 2) as u16),
        ..pre
    }));
}

/// Clearing the display: after a 00E0 step every pixel reads off, the display
/// is marked dirty, and nothing else changes.
pub proof fn lemma_clear_blanks_display(pre: StateView, rnd: u8)
    requires
        pre.wf(),
        pre.pc + 1 < 4096,
        pre.memory[pre.pc] == 0x00,
        pre.memory[pre.pc + 1] == 0xE0,
    ensures
        step_spec(pre, rnd).1 == Ok::<StepOutcome, Chip8Error>(StepOutcome::Executed),
        step_spec(pre, rnd).0 == (StateView {
            pc: pre.pc + 2,
            frame: FrameBufferView {
                pixels: Seq::new((WIDTH * HEIGHT) as nat, |k: int| false),
                dirty: true,
            },
            ..pre
        }),
        forall|px: int, py: int|
            0 <= px < WIDTH && 0 <= py < HEIGHT ==> !step_spec(pre, rnd).0.frame.pixels[
                pixel_index(px, py)
            ],
{
    assert(step_spec(pre, rnd).0 =~= (StateView {
        pc: pre.pc + 2,
        frame: FrameBufferView {
            pixels: Seq::new((WIDTH * HEIGHT) as nat, |k: int| false),
            dirty: true,
        },
        ..pre
    }));
    assert forall|px: int, py: int| 0 <= px < WIDTH && 0 <= py < HEIGHT implies !step_spec(
        pre,
        rnd,
    ).0.frame.pixels[pixel_index(px, py)] by {
        assert(0 <= pixel_index(px, py) < WIDTH * HEIGHT);
    }
}

/// Blocking input, waiting: an Fx0A step with nothing in the pending-input
/// mailbox is the identity on the machine state — the program counter returns
/// to the same instruction, so repeated steps change nothing until a key
/// arrives.
pub proof fn lemma_blocking_input_waits(pre: StateView, rnd: u8)
    requires
        pre.wf(),
        pre.pc + 1 < 4096,
        pre.memory[pre.pc] / 16 == 0xF,
        pre.memory[pre.pc + 1] == 0x0A,
        pre.input is None,
    ensures
        step_spec(pre, rnd) == (pre, Ok::<StepOutcome, Chip8Error>(StepOutcome::Executed)),
{
    assert(step_spec(pre, rnd).0 =~= pre);
}

/// Blocking input, resuming: an Fx0A step with key `k` pending stores `k` in
/// the targeted register, consumes the mailbox, and advances the program
/// counter normally.
pub proof fn lemma_blocking_input_consumes(pre: StateView, rnd: u8, xr: u8, k: u8)
    requires
        pre.wf(),
        pre.pc + 1 < 4096,
        xr < 16,
        pre.memory[pre.pc] == 0xF0 + xr,
        pre.memory[pre.pc + 1] == 0x0A,
        pre.input == Some(k),
    ensures
        step_spec(pre, rnd) == (
            (StateView {
                pc: pre.pc + 2,
                v: pre.v.update(xr as int, k),
                input: None::<u8>,
                ..pre
            }),
            Ok::<StepOutcome, Chip8Error>(StepOutcome::Executed),
        ),
{
    assert(step_spec(pre, rnd).0 =~= (StateView {
        pc: pre.pc + 2,
        v: pre.v.update(xr as int, k),
        input: None::<u8>,
        ..pre
    }));
}

/// Font addressing: an Fx29 step points the index register at the 5-byte
/// glyph for the value of `vx`, at `0x050 + vx * 5`, and changes nothing
/// else.
pub proof fn lemma_font_addressing(pre: StateView, rnd: u8, xr: u8)
    requires
        pre.wf(),
        pre.pc + 1 < 4096,
        xr < 16,
        pre.memory[pre.pc] == 0xF0 + xr,
        pre.memory[pre.pc + 1] == 0x29,
    ensures
        step_spec(pre, rnd) == (
            (StateView { pc: pre.pc + 2, i: 0x050 + (pre.v[xr as int] as int) * 5, ..pre }),
            Ok::<StepOutcome, Chip8Error>(StepOutcome::Executed),
        ),
{
    assert(step_spec(pre, rnd).0 =~= (StateView {
        pc: pre.pc + 2,
        i: 0x050 + (pre.v[xr as int] as int) * 5,
        ..pre
    }));
}

/// Register addition: an 8xy4 step stores `(vx + vy) mod 256` and overwrites
/// the flag register with 1 exactly when the addition overflowed, else 0.
pub proof fn lemma_add_registers_carry(pre: StateView, rnd: u8, xr: u8, yr: u8)
    requires
        pre.wf(),
        pre.pc + 1 < 4096,
        xr < 16,
        yr < 16,
        pre.memory[pre.pc] == 0x80 + xr,
        pre.memory[pre.pc + 1] == yr * 16 + 4,
    ensures
        ({
            let sum = (pre.v[xr as int] as int) + (pre.v[yr as int] as int);
            step_spec(pre, rnd) == (
                (StateView {
                    pc: pre.pc + 2,
                    v: pre.v.update(xr as int, (sum % 256) as u8).update(
                        15,
                        if sum > 255 {
                            1u8
                        } else {
                            0u8
                        },
                    ),
                    ..pre
                }),
                Ok::<StepOutcome, Chip8Error>(StepOutcome::Executed),
            )
        }),
{
    let sum = (pre.v[xr as int] as int) + (pre.v[yr as int] as int);
    assert(step_spec(pre, rnd).0 =~= (StateView {
        pc: pre.pc + 2,
        v: pre.v.update(xr as int, (sum % 256) as u8).update(
            15,
            if sum > 255 {
                1u8
            } else {
                0u8
            },
        ),
        ..pre
    }));
}

/// Register subtraction: an 8xy5 step stores `(vx - vy) mod 256` and
/// overwrites the flag register with 0 exactly when the subtraction borrowed
/// — the polarity is inverted relative to a typical carry flag.
pub proof fn lemma_sub_registers_borrow(pre: StateView, rnd: u8, xr: u8, yr: u8)
    requires
        pre.wf(),
        pre.pc + 1 < 4096,
        xr < 16,
        yr < 16,
        pre.memory[pre.pc] == 0x80 + xr,
        pre.memory[pre.pc + 1] == yr * 16 + 5,
    ensures
        ({
            let vx = pre.v[xr as int];
            let vy = pre.v[yr as int];
            let res = if vx >= vy {
                (vx as int) - (vy as int)
            } else {
                (vx as int) - (vy as int) + 256
            };
            step_spec(pre, rnd) == (
                (StateView {
                    pc: pre.pc + 2,
                    v: pre.v.update(xr as int, res as u8).update(
                        15,
                        if vx >= vy {
                            1u8
                        } else {
                            0u8
                        },
                    ),
                    ..pre
                }),
                Ok::<StepOutcome, Chip8Error>(StepOutcome::Executed),
            )
        }),
{
    let vx = pre.v[xr as int];
    let vy = pre.v[yr as int];
    let res = if vx >= vy {
        (vx as int) - (vy as int)
    } else {
        (vx as int) - (vy as int) + 256
    };
    assert(step_spec(pre, rnd).0 =~= (StateView {
        pc: pre.pc + 2,
        v: pre.v.update(xr as int, res as u8).update(
            15,
            if vx >= vy {
                1u8
            } else {
                0u8
            },
        ),
        ..pre
    }));
}

/// Drawing one sprite row never clears the dirty flag.
proof fn lemma_draw_row_dirty_monotone(fb: FrameBufferView, byte: u8, x0: int, y: int, j: int)
    requires
        fb.dirty,
    ensures
        draw_row_from(fb, byte, x0, y, j).0.dirty,
    decreases 8 - j,
{
    if j < 0 || j >= 8 || x0 + j >= WIDTH {
    } else if !sprite_bit(byte, j) {
        lemma_draw_row_dirty_monotone(fb, byte, x0, y, j + 1);
    } else {
        let cur = fb.pixels[pixel_index(x0 + j, y)];
        let fb2 = FrameBufferView {
            pixels: fb.pixels.update(pixel_index(x0 + j, y), !cur),
            dirty: true,
        };
        lemma_draw_row_dirty_monotone(fb2, byte, x0, y, j + 1);
    }
}

/// Drawing one sprite row commutes with rewriting a pixel the row does not
/// touch: the draw reads and toggles the same pixels either way.
proof fn lemma_draw_row_update_commutes(
    fb: FrameBufferView,
    byte: u8,
    x0: int,
    y: int,
    j: int,
    qx: int,
    qy: int,
    val: bool,
)
    requires
        fb.wf(),
        0 <= x0 < WIDTH,
        0 <= y < HEIGHT,
        0 <= qx < WIDTH,
        0 <= qy < HEIGHT,
        qy != y || qx < x0 + j || qx >= x0 + 8,
    ensures
        ({
            let fbu = FrameBufferView {
                pixels: fb.pixels.update(pixel_index(qx, qy), val),
                dirty: fb.dirty,
            };
            let drawn = draw_row_from(fb, byte, x0, y, j);
            let drawnu = draw_row_from(fbu, byte, x0, y, j);
            &&& drawnu.0.pixels == drawn.0.pixels.update(pixel_index(qx, qy), val)
            &&& drawnu.0.dirty == drawn.0.dirty
            &&& drawnu.1 == drawn.1
        }),
    decreases 8 - j,
{
    let idx = pixel_index(qx, qy);
    let fbu = FrameBufferView { pixels: fb.pixels.update(idx, val), dirty: fb.dirty };
    if j < 0 || j >= 8 || x0 + j >= WIDTH {
    } else if !sprite_bit(byte, j) {
        lemma_draw_row_update_commutes(fb, byte, x0, y, j + 1, qx, qy, val);
    } else {
        let tidx = pixel_index(x0 + j, y);
        assert(tidx != idx);
        let cur = fb.pixels[tidx];
        assert(fbu.pixels[tidx] == cur);
        let fb2 = FrameBufferView { pixels: fb.pixels.update(tidx, !cur), dirty: true };
        let fb2u = FrameBufferView { pixels: fbu.pixels.update(tidx, !cur), dirty: true };
        assert(fb2u.pixels =~= fb2.pixels.update(idx, val));
        lemma_draw_row_update_commutes(fb2, byte, x0, y, j + 1, qx, qy, val);
    }
}

/// What pixel values in `fb` the row draw toggles from off to on: exactly
/// these collide when the identical row is drawn a second time.
pub open spec fn second_draw_collides(
    fb: FrameBufferView,
    byte: u8,
    x0: int,
    y: int,
    j: int,
) -> bool {
    exists|jj: int|
        j <= jj < 8 && x0 + jj < WIDTH && #[trigger] sprite_bit(byte, jj) && !fb.pixels[
            pixel_index(x0 + jj, y)
        ]
}

/// Double-draw identity: blitting the same sprite row twice at the same spot
/// restores every pixel (XOR is an involution), and the second blit reports a
/// collision exactly when the first blit turned some pixel on.
pub proof fn lemma_draw_row_involution(fb: FrameBufferView, byte: u8, x0: int, y: int, j: int)
    requires
        fb.wf(),
        0 <= x0 < WIDTH,
        0 <= y < HEIGHT,
        0 <= j,
    ensures
        ({
            let once = draw_row_from(fb, byte, x0, y, j);
            let twice = draw_row_from(once.0, byte, x0, y, j);
            &&& twice.0.pixels == fb.pixels
            &&& twice.1 == second_draw_collides(fb, byte, x0, y, j)
        }),
    decreases 8 - j,
{
    let once = draw_row_from(fb, byte, x0, y, j);
    let twice = draw_row_from(once.0, byte, x0, y, j);
    if j >= 8 || x0 + j >= WIDTH {
        if second_draw_collides(fb, byte, x0, y, j) {
            let jw = choose|jj: int|
                j <= jj < 8 && x0 + jj < WIDTH && #[trigger] sprite_bit(byte, jj) && !fb.pixels[
                    pixel_index(x0 + jj, y)
                ];
            assert(false);
        }
    } else if !sprite_bit(byte, j) {
        lemma_draw_row_involution(fb, byte, x0, y, j + 1);
        if second_draw_collides(fb, byte, x0, y, j) {
            let jw = choose|jj: int|
                j <= jj < 8 && x0 + jj < WIDTH && #[trigger] sprite_bit(byte, jj) && !fb.pixels[
                    pixel_index(x0 + jj, y)
                ];
            assert(jw != j);
            assert(second_draw_collides(fb, byte, x0, y, j + 1));
        }
        if second_draw_collides(fb, byte, x0, y, j + 1) {
            let jw = choose|jj: int|
                j + 1 <= jj < 8 && x0 + jj < WIDTH && #[trigger] sprite_bit(byte, jj)
                    && !fb.pixels[pixel_index(x0 + jj, y)];
            assert(second_draw_collides(fb, byte, x0, y, j));
        }
    } else {
        let tidx = pixel_index(x0 + j, y);
        let orig = fb.pixels[tidx];
        let fb2 = FrameBufferView { pixels: fb.pixels.update(tidx, !orig), dirty: true };
        let once2 = draw_row_from(fb2, byte, x0, y, j + 1);
        assert(once == (once2.0, orig || once2.1));
        // The recursive draw does not touch column x0 + j, so the second pass
        // reads back the toggled value.
        crate::instructions::lemma_draw_row_frame(fb2, byte, x0, y, j + 1);
        assert(once2.0.pixels[tidx] == !orig);
        assert(once2.0.wf());
        let fb3 = FrameBufferView { pixels: once2.0.pixels.update(tidx, orig), dirty: true };
        assert(once2.0.dirty) by {
            lemma_draw_row_dirty_monotone(fb2, byte, x0, y, j + 1);
        }
        assert(twice == (
            draw_row_from(fb3, byte, x0, y, j + 1).0,
            !orig || draw_row_from(fb3, byte, x0, y, j + 1).1,
        ));
        // Undoing the toggle commutes with the rest of the second pass.
        lemma_draw_row_update_commutes(once2.0, byte, x0, y, j + 1, x0 + j, y, orig);
        let reonce2 = draw_row_from(once2.0, byte, x0, y, j + 1);
        assert(draw_row_from(fb3, byte, x0, y, j + 1).0.pixels == reonce2.0.pixels.update(
            tidx,
            orig,
        ));
        assert(draw_row_from(fb3, byte, x0, y, j + 1).1 == reonce2.1);
        // Induction: the tail of the row is itself an involution.
        lemma_draw_row_involution(fb2, byte, x0, y, j + 1);
        assert(reonce2.0.pixels == fb2.pixels);
        assert(reonce2.1 == second_draw_collides(fb2, byte, x0, y, j + 1));
        assert(twice.0.pixels =~= fb.pixels);
        // The toggled pixel sits in its own column, so the tail collides over
        // `fb2` exactly as it does over `fb`.
        assert(second_draw_collides(fb2, byte, x0, y, j + 1) == second_draw_collides(
            fb,
            byte,
            x0,
            y,
            j + 1,
        )) by {
            if second_draw_collides(fb2, byte, x0, y, j + 1) {
                let jw = choose|jj: int|
                    j + 1 <= jj < 8 && x0 + jj < WIDTH && #[trigger] sprite_bit(byte, jj)
                        && !fb2.pixels[pixel_index(x0 + jj, y)];
                assert(pixel_index(x0 + jw, y) != tidx);
                assert(!fb.pixels[pixel_index(x0 + jw, y)]);
                assert(second_draw_collides(fb, byte, x0, y, j + 1));
            }
            if second_draw_collides(fb, byte, x0, y, j + 1) {
                let jw = choose|jj: int|
                    j + 1 <= jj < 8 && x0 + jj < WIDTH && #[trigger] sprite_bit(byte, jj)
                        && !fb.pixels[pixel_index(x0 + jj, y)];
                assert(pixel_index(x0 + jw, y) != tidx);
                assert(!fb2.pixels[pixel_index(x0 + jw, y)]);
                assert(second_draw_collides(fb2, byte, x0, y, j + 1));
            }
        }
        // Fold the head bit back in: it collides on the second pass exactly
        // when the pixel started off.
        assert(twice.1 == (!orig || second_draw_collides(fb, byte, x0, y, j + 1)));
        if !orig {
            assert(second_draw_collides(fb, byte, x0, y, j));
        }
        if second_draw_collides(fb, byte, x0, y, j + 1) {
            let jw = choose|jj: int|
                j + 1 <= jj < 8 && x0 + jj < WIDTH && #[trigger] sprite_bit(byte, jj)
                    && !fb.pixels[pixel_index(x0 + jj, y)];
            assert(second_draw_collides(fb, byte, x0, y, j));
        }
        if second_draw_collides(fb, byte, x0, y, j) && orig {
            let jw = choose|jj: int|
                j <= jj < 8 && x0 + jj < WIDTH && #[trigger] sprite_bit(byte, jj) && !fb.pixels[
                    pixel_index(x0 + jj, y)
                ];
            assert(jw != j);
            assert(second_draw_collides(fb, byte, x0, y, j + 1));
        }
    }
}

/// Clear-then-draw idempotence at the instruction level: two identical Dxy1
/// steps (a one-row sprite, same operands, back to back) restore every pixel
/// to its prior state, and the second step's flag register reports a
/// collision exactly when the first step turned some pixel on.
pub proof fn lemma_double_draw_round_trip(pre: StateView, rnd1: u8, rnd2: u8, xr: u8, yr: u8)
    requires
        pre.wf(),
        pre.pc + 3 < 4096,
        xr < 15,
        yr < 15,
        pre.memory[pre.pc] == 0xD0 + xr,
        pre.memory[pre.pc + 1] == yr * 16 + 1,
        pre.memory[pre.pc + 2] == 0xD0 + xr,
        pre.memory[pre.pc + 3] == yr * 16 + 1,
        pre.i + 1 <= 4096,
    ensures
        ({
            let first = step_spec(pre, rnd1);
            let second = step_spec(first.0, rnd2);
            let x0 = (pre.v[xr as int] as int) % 64;
            let y0 = (pre.v[yr as int] as int) % 32;
            let byte = pre.memory[pre.i];
            &&& first.1 == Ok::<StepOutcome, Chip8Error>(StepOutcome::Executed)
            &&& second.1 == Ok::<StepOutcome, Chip8Error>(StepOutcome::Executed)
            &&& second.0.frame.pixels == pre.frame.pixels
            &&& second.0.v[15] == (if second_draw_collides(pre.frame, byte, x0, y0, 0) {
                1u8
            } else {
                0u8
            })
        }),
{
    let x0 = (pre.v[xr as int] as int) % 64;
    let y0 = (pre.v[yr as int] as int) % 32;
    let byte = pre.memory[pre.i];
    let row1 = draw_row_from(pre.frame, byte, x0, y0, 0);
    assert(draw_sprite_from(row1.0, pre.memory, pre.i, x0, y0, 1, 1) == (row1.0, false));
    let d1 = draw_sprite_from(pre.frame, pre.memory, pre.i, x0, y0, 0, 1);
    assert(d1 == (row1.0, row1.1));
    let mid = step_spec(pre, rnd1).0;
    assert(mid.memory == pre.memory);
    assert(mid.frame == row1.0);
    assert(mid.v[xr as int] == pre.v[xr as int]);
    assert(mid.v[yr as int] == pre.v[yr as int]);
    let row2 = draw_row_from(row1.0, byte, x0, y0, 0);
    assert(draw_sprite_from(row2.0, pre.memory, pre.i, x0, y0, 1, 1) == (row2.0, false));
    let d2 = draw_sprite_from(row1.0, pre.memory, pre.i, x0, y0, 0, 1);
    assert(d2 == (row2.0, row2.1));
    lemma_draw_row_involution(pre.frame, byte, x0, y0, 0);
}

/// Sprite clipping: a Dxyn step leaves every pixel outside the sprite's
/// 8-column, n-row band untouched. Rows and columns that would run past the
/// display edge are dropped, never wrapped to the opposite edge.
pub proof fn lemma_sprite_clipping(
    pre: StateView,
    rnd: u8,
    xr: u8,
    yr: u8,
    nr: u8,
    px: int,
    py: int,
)
    requires
        pre.wf(),
        pre.pc + 1 < 4096,
        xr < 16,
        yr < 16,
        nr < 16,
        pre.memory[pre.pc] == 0xD0 + xr,
        pre.memory[pre.pc + 1] == yr * 16 + nr,
        pre.i + nr <= 4096,
        0 <= px < WIDTH,
        0 <= py < HEIGHT,
        ({
            let x0 = (pre.v[xr as int] as int) % 64;
            let y0 = (pre.v[yr as int] as int) % 32;
            !(x0 <= px < x0 + 8 && y0 <= py < y0 + nr)
        }),
    ensures
        step_spec(pre, rnd).1 == Ok::<StepOutcome, Chip8Error>(StepOutcome::Executed),
        step_spec(pre, rnd).0.frame.pixels[pixel_index(px, py)] == pre.frame.pixels[pixel_index(
            px,
            py,
        )],
{
    let x0 = (pre.v[xr as int] as int) % 64;
    let y0 = (pre.v[yr as int] as int) % 32;
    crate::instructions::lemma_draw_sprite_frame(
        pre.frame,
        pre.memory,
        pre.i,
        x0,
        y0,
        0,
        nr as int,
    );
}

} // verus!
