//! Behavioral tests for the instruction interpreter, driven through the
//! public API: programs are loaded at the standard offset and stepped one
//! instruction at a time.

use chip8_rs::emulator::{Chip8Emulator, EmulatorMode};
use chip8_rs::instructions::StepOutcome;
use chip8_rs::Chip8Error;

fn emu_with(program: &[u8]) -> Chip8Emulator {
    let mut emu = Chip8Emulator::new(EmulatorMode::Run);
    emu.read_rom_into_memory(program).expect("program fits");
    emu
}

fn step_ok(emu: &mut Chip8Emulator) {
    assert_eq!(emu.execute_instruction(), Ok(StepOutcome::Executed));
}

#[test]
fn load_then_add_wraps_at_256() {
    // 6A FA: vA = 250; 7A 0A: vA += 10, wrapping, no flag.
    let mut emu = emu_with(&[0x6A, 0xFA, 0x7A, 0x0A]);
    step_ok(&mut emu);
    assert_eq!(emu.context.v[0xA], 250);
    step_ok(&mut emu);
    assert_eq!(emu.context.v[0xA], 4);
    assert_eq!(emu.context.v[0xF], 0);
    assert_eq!(emu.context.pc, 0x204);
}

#[test]
fn add_registers_sets_carry() {
    // v0 = 200, v1 = 100; 8014: v0 = 44 (mod 256), vF = 1.
    let mut emu = emu_with(&[0x60, 0xC8, 0x61, 0x64, 0x80, 0x14]);
    step_ok(&mut emu);
    step_ok(&mut emu);
    step_ok(&mut emu);
    assert_eq!(emu.context.v[0], 44);
    assert_eq!(emu.context.v[0xF], 1);
}

#[test]
fn sub_registers_reports_borrow_inverted() {
    // v0 = 100, v1 = 200; 8015: v0 = 156 (100 - 200 + 256), vF = 0.
    let mut emu = emu_with(&[0x60, 0x64, 0x61, 0xC8, 0x80, 0x15]);
    step_ok(&mut emu);
    step_ok(&mut emu);
    step_ok(&mut emu);
    assert_eq!(emu.context.v[0], 156);
    assert_eq!(emu.context.v[0xF], 0);
}

#[test]
fn sub_without_borrow_sets_flag() {
    let mut emu = emu_with(&[0x60, 0xC8, 0x61, 0x64, 0x80, 0x15]);
    step_ok(&mut emu);
    step_ok(&mut emu);
    step_ok(&mut emu);
    assert_eq!(emu.context.v[0], 100);
    assert_eq!(emu.context.v[0xF], 1);
}

#[test]
fn sub_reversed_uses_same_flag_convention() {
    // 8017: v0 = v1 - v0.
    let mut emu = emu_with(&[0x60, 0x64, 0x61, 0xC8, 0x80, 0x17]);
    step_ok(&mut emu);
    step_ok(&mut emu);
    step_ok(&mut emu);
    assert_eq!(emu.context.v[0], 100);
    assert_eq!(emu.context.v[0xF], 1);
}

#[test]
fn call_then_return_resumes_after_call() {
    // 2300: call 0x300; at 0x300 (program offset 0x100): 00EE.
    let mut program = vec![0u8; 0x102];
    program[0] = 0x23;
    program[1] = 0x00;
    program[0x100] = 0x00;
    program[0x101] = 0xEE;
    let mut emu = emu_with(&program);
    step_ok(&mut emu);
    assert_eq!(emu.context.pc, 0x300);
    assert_eq!(emu.context.sp, 1);
    assert_eq!(emu.context.stack[0], 0x202);
    step_ok(&mut emu);
    assert_eq!(emu.context.pc, 0x202);
    assert_eq!(emu.context.sp, 0);
}

#[test]
fn clear_blanks_every_pixel_then_double_draw_restores() {
    // 00E0; v0 = 0; v1 = 0; i = 0x250 (sprite 0xFF); D011 twice.
    let mut program = vec![0u8; 0x51];
    let code = [0x00, 0xE0, 0x60, 0x00, 0x61, 0x00, 0xA2, 0x50, 0xD0, 0x11, 0xD0, 0x11];
    program[..code.len()].copy_from_slice(&code);
    program[0x50] = 0xFF;
    let mut emu = emu_with(&program);
    for _ in 0..4 {
        step_ok(&mut emu);
    }
    for x in 0..64 {
        for y in 0..32 {
            assert_eq!(emu.context.frame_buffer.get_pixel(x, y), Some(false));
        }
    }
    // First draw: all eight pixels turn on, no collision.
    step_ok(&mut emu);
    for x in 0..8 {
        assert_eq!(emu.context.frame_buffer.get_pixel(x, 0), Some(true));
    }
    assert_eq!(emu.context.v[0xF], 0);
    // Second identical draw: every touched pixel back off, collision flagged.
    step_ok(&mut emu);
    for x in 0..8 {
        assert_eq!(emu.context.frame_buffer.get_pixel(x, 0), Some(false));
    }
    assert_eq!(emu.context.v[0xF], 1);
}

#[test]
fn blocking_input_polls_until_key_arrives() {
    // F30A: wait for a key into v3.
    let mut emu = emu_with(&[0xF3, 0x0A]);
    step_ok(&mut emu);
    assert_eq!(emu.context.pc, 0x200);
    step_ok(&mut emu);
    assert_eq!(emu.context.pc, 0x200);
    emu.set_keydown(5);
    step_ok(&mut emu);
    assert_eq!(emu.context.pc, 0x202);
    assert_eq!(emu.context.v[3], 5);
    assert_eq!(emu.context.input, None);
}

#[test]
fn font_instruction_addresses_eleventh_glyph() {
    // v0 = 0xA; F029: i = 0x050 + 10 * 5 = 0x082, the font table's 11th entry.
    let mut emu = emu_with(&[0x60, 0x0A, 0xF0, 0x29]);
    step_ok(&mut emu);
    step_ok(&mut emu);
    assert_eq!(emu.context.i, 0x050 + 10 * 5);
    // The glyph for 'A' sits there, bit for bit.
    assert_eq!(
        &emu.context.memory[0x082..0x087],
        &[0xF0, 0x90, 0xF0, 0x90, 0x90]
    );
}

#[test]
fn sprite_at_edge_clips_instead_of_wrapping() {
    // v0 = 60, v1 = 30; i -> two rows of 0xFF; D012.
    let mut program = vec![0u8; 0x52];
    let code = [0x60, 0x3C, 0x61, 0x1E, 0xA2, 0x50, 0xD0, 0x12];
    program[..code.len()].copy_from_slice(&code);
    program[0x50] = 0xFF;
    program[0x51] = 0xFF;
    let mut emu = emu_with(&program);
    for _ in 0..4 {
        step_ok(&mut emu);
    }
    // The in-range corner is drawn.
    for x in 60..64 {
        for y in 30..32 {
            assert_eq!(emu.context.frame_buffer.get_pixel(x, y), Some(true));
        }
    }
    // Nothing wrapped to the opposite edges.
    for x in 0..5 {
        for y in 0..32 {
            assert_eq!(emu.context.frame_buffer.get_pixel(x, y), Some(false));
        }
    }
    for x in 0..64 {
        for y in 0..3 {
            assert_eq!(emu.context.frame_buffer.get_pixel(x, y), Some(false));
        }
    }
}

#[test]
fn origin_wraps_even_though_pixels_clip() {
    // v0 = 64 wraps to column 0; one row of 0xFF paints (0..8, 0).
    let mut program = vec![0u8; 0x51];
    let code = [0x60, 0x40, 0x61, 0x00, 0xA2, 0x50, 0xD0, 0x11];
    program[..code.len()].copy_from_slice(&code);
    program[0x50] = 0xFF;
    let mut emu = emu_with(&program);
    for _ in 0..4 {
        step_ok(&mut emu);
    }
    for x in 0..8 {
        assert_eq!(emu.context.frame_buffer.get_pixel(x, 0), Some(true));
    }
    assert_eq!(emu.context.frame_buffer.get_pixel(8, 0), Some(false));
}

#[test]
fn zero_row_sprite_draws_nothing() {
    // D010: n = 0 touches no pixel and reports no collision.
    let mut emu = emu_with(&[0x60, 0x00, 0x61, 0x00, 0xA2, 0x50, 0xD0, 0x10]);
    for _ in 0..4 {
        step_ok(&mut emu);
    }
    for x in 0..64 {
        for y in 0..32 {
            assert_eq!(emu.context.frame_buffer.get_pixel(x, y), Some(false));
        }
    }
    assert_eq!(emu.context.v[0xF], 0);
}

#[test]
fn jumps_and_skips_move_the_counter() {
    // 1206: jump to 0x206.
    let mut emu = emu_with(&[0x12, 0x06]);
    step_ok(&mut emu);
    assert_eq!(emu.context.pc, 0x206);

    // 3xnn skips when equal, 4xnn when different.
    let mut emu = emu_with(&[0x60, 0x07, 0x30, 0x07, 0x00, 0x00, 0x40, 0x07]);
    step_ok(&mut emu);
    step_ok(&mut emu);
    assert_eq!(emu.context.pc, 0x206);
    step_ok(&mut emu);
    assert_eq!(emu.context.pc, 0x208);

    // 5xy0 and 9xy0 compare registers.
    let mut emu = emu_with(&[0x60, 0x07, 0x61, 0x07, 0x50, 0x10, 0x00, 0x00, 0x90, 0x10]);
    step_ok(&mut emu);
    step_ok(&mut emu);
    step_ok(&mut emu);
    assert_eq!(emu.context.pc, 0x208);
    step_ok(&mut emu);
    assert_eq!(emu.context.pc, 0x20A);
}

#[test]
fn jump_with_offset_adds_v0() {
    let mut emu = emu_with(&[0x60, 0x10, 0xB3, 0x00]);
    step_ok(&mut emu);
    step_ok(&mut emu);
    assert_eq!(emu.context.pc, 0x310);
}

#[test]
fn alu_bitwise_ops() {
    // v0 = 0b1100, v1 = 0b1010; OR, AND, XOR in sequence (reloading v0).
    let mut emu = emu_with(&[
        0x60, 0x0C, 0x61, 0x0A, 0x80, 0x11, 0x60, 0x0C, 0x80, 0x12, 0x60, 0x0C, 0x80, 0x13,
    ]);
    step_ok(&mut emu);
    step_ok(&mut emu);
    step_ok(&mut emu);
    assert_eq!(emu.context.v[0], 0x0E);
    step_ok(&mut emu);
    step_ok(&mut emu);
    assert_eq!(emu.context.v[0], 0x08);
    step_ok(&mut emu);
    step_ok(&mut emu);
    assert_eq!(emu.context.v[0], 0x06);
}

#[test]
fn copy_register() {
    let mut emu = emu_with(&[0x61, 0x2A, 0x80, 0x10]);
    step_ok(&mut emu);
    step_ok(&mut emu);
    assert_eq!(emu.context.v[0], 0x2A);
}

#[test]
fn shift_left_takes_vy_and_reports_bit7() {
    // v1 = 0xC3; 8016: v0 = v1 << 1 = 0x86, vF holds the shifted-out bit, 1.
    let mut emu = emu_with(&[0x61, 0xC3, 0x80, 0x16]);
    step_ok(&mut emu);
    step_ok(&mut emu);
    assert_eq!(emu.context.v[0], 0x86);
    assert_eq!(emu.context.v[0xF], 1);
    // With bit 7 clear the flag is written as 0.
    let mut emu = emu_with(&[0x61, 0x43, 0x80, 0x16]);
    step_ok(&mut emu);
    step_ok(&mut emu);
    assert_eq!(emu.context.v[0], 0x86);
    assert_eq!(emu.context.v[0xF], 0);
}

#[test]
fn shift_right_takes_vy_and_reports_bit0() {
    // v1 = 0xC3; 801E: v0 = v1 >> 1 = 0x61, vF = 1.
    let mut emu = emu_with(&[0x61, 0xC3, 0x80, 0x1E]);
    step_ok(&mut emu);
    step_ok(&mut emu);
    assert_eq!(emu.context.v[0], 0x61);
    assert_eq!(emu.context.v[0xF], 1);
}

#[test]
fn random_byte_is_masked() {
    // C00F: v0 = random & 0x0F.
    let mut emu = emu_with(&[0xC0, 0x0F]);
    step_ok(&mut emu);
    assert!(emu.context.v[0] <= 0x0F);
    // C100: the mask zero forces zero whatever was drawn.
    let mut emu = emu_with(&[0xC1, 0x00]);
    step_ok(&mut emu);
    assert_eq!(emu.context.v[1], 0);
}

#[test]
fn index_add_sets_flag_only_on_overflow() {
    // vF = 7 (data write); i stays small; F01E must leave vF alone.
    let mut emu = emu_with(&[0x6F, 0x07, 0x60, 0x20, 0xA3, 0x00, 0xF0, 0x1E]);
    step_ok(&mut emu);
    step_ok(&mut emu);
    step_ok(&mut emu);
    step_ok(&mut emu);
    assert_eq!(emu.context.i, 0x320);
    assert_eq!(emu.context.v[0xF], 7);
    // Overflow wraps at 16 bits and sets the flag.
    let mut emu = emu_with(&[0x60, 0x20, 0xF0, 0x1E]);
    emu.context.i = 0xFFF0;
    step_ok(&mut emu);
    step_ok(&mut emu);
    assert_eq!(emu.context.i, 0x0010);
    assert_eq!(emu.context.v[0xF], 1);
}

#[test]
fn store_and_load_register_block() {
    // v0..v2 = 1, 2, 3; i = 0x400; F255 stores them; clear v0..v2; F265 loads.
    let mut emu = emu_with(&[
        0x60, 0x01, 0x61, 0x02, 0x62, 0x03, 0xA4, 0x00, 0xF2, 0x55, 0x60, 0x00, 0x61, 0x00, 0x62,
        0x00, 0xF2, 0x65,
    ]);
    for _ in 0..5 {
        step_ok(&mut emu);
    }
    assert_eq!(&emu.context.memory[0x400..0x403], &[1, 2, 3]);
    assert_eq!(emu.context.i, 0x400);
    for _ in 0..4 {
        step_ok(&mut emu);
    }
    assert_eq!(emu.context.v[0], 1);
    assert_eq!(emu.context.v[1], 2);
    assert_eq!(emu.context.v[2], 3);
}

#[test]
fn delay_and_sound_timers_via_instructions() {
    // v0 = 9; F015 sets delay; F018 sets sound; F107 reads delay into v1.
    let mut emu = emu_with(&[0x60, 0x09, 0xF0, 0x15, 0xF0, 0x18, 0xF1, 0x07]);
    step_ok(&mut emu);
    step_ok(&mut emu);
    assert_eq!(emu.context.delay, 9);
    step_ok(&mut emu);
    assert_eq!(emu.context.sound, 9);
    step_ok(&mut emu);
    assert_eq!(emu.context.v[1], 9);
}

#[test]
fn key_skips_query_the_held_table() {
    // v0 = 4; E09E skips only while key 4 is held; E0A1 skips while it is
    // not. Each successful skip jumps over the following slot.
    let mut emu = emu_with(&[0x60, 0x04, 0xE0, 0x9E, 0x00, 0x00, 0xE0, 0xA1]);
    step_ok(&mut emu);
    emu.set_keydown(4);
    step_ok(&mut emu);
    assert_eq!(emu.context.pc, 0x206);
    emu.set_keyup(4);
    step_ok(&mut emu);
    assert_eq!(emu.context.pc, 0x20A);
}

#[test]
fn key_skip_with_out_of_range_key_is_fatal() {
    let mut emu = emu_with(&[0x60, 0x10, 0xE0, 0x9E]);
    step_ok(&mut emu);
    assert_eq!(emu.execute_instruction(), Err(Chip8Error::KeyOutOfRange));
}

#[test]
fn machine_routine_is_silently_ignored() {
    let mut emu = emu_with(&[0x01, 0x23]);
    assert_eq!(emu.execute_instruction(), Ok(StepOutcome::Executed));
    assert_eq!(emu.context.pc, 0x202);
}

#[test]
fn unknown_opcodes_are_reported_no_ops() {
    // 5xy with a nonzero low nibble is outside the instruction set.
    let mut emu = emu_with(&[0x50, 0x11]);
    assert_eq!(
        emu.execute_instruction(),
        Ok(StepOutcome::UnknownOpcode(0x5011))
    );
    assert_eq!(emu.context.pc, 0x202);
    // So is 8xy with an unassigned ALU selector.
    let mut emu = emu_with(&[0x80, 0x18]);
    assert_eq!(
        emu.execute_instruction(),
        Ok(StepOutcome::UnknownOpcode(0x8018))
    );
}

#[test]
fn stack_overflow_on_seventeenth_call() {
    // 2200 at 0x200 calls itself forever; the 17th nesting must fail.
    let mut emu = emu_with(&[0x22, 0x00]);
    for _ in 0..16 {
        step_ok(&mut emu);
    }
    assert_eq!(emu.context.sp, 16);
    assert_eq!(emu.execute_instruction(), Err(Chip8Error::StackOverflow));
}

#[test]
fn return_with_empty_stack_is_fatal() {
    let mut emu = emu_with(&[0x00, 0xEE]);
    assert_eq!(emu.execute_instruction(), Err(Chip8Error::StackUnderflow));
}

#[test]
fn runaway_program_counter_is_fatal() {
    let mut emu = emu_with(&[0x00, 0x00]);
    emu.context.pc = 4095;
    assert_eq!(emu.execute_instruction(), Err(Chip8Error::PcOutOfBounds));
}

#[test]
fn sprite_read_past_memory_is_fatal() {
    let mut emu = emu_with(&[0xD0, 0x12]);
    emu.context.i = 4095;
    assert_eq!(emu.execute_instruction(), Err(Chip8Error::MemoryOutOfBounds));
}

#[test]
fn register_store_past_memory_is_fatal() {
    let mut emu = emu_with(&[0xF2, 0x55]);
    emu.context.i = 4095;
    assert_eq!(emu.execute_instruction(), Err(Chip8Error::MemoryOutOfBounds));
}
