//! Tests for the machine-state primitives: initialization, the font region,
//! program loading, the stack, the timers, the display bitmap and the input
//! mailbox.

use chip8_rs::chip8_context::{Chip8Context, FrameBuffer, TIMER_INTERVAL_NANOS};
use chip8_rs::emulator::{font_table, Chip8Emulator, EmulatorMode};
use chip8_rs::Chip8Error;

#[test]
fn new_machine_is_zeroed_with_pc_at_load_offset() {
    let ctx = Chip8Context::new();
    assert_eq!(ctx.pc, 0x200);
    assert_eq!(ctx.sp, 0);
    assert_eq!(ctx.i, 0);
    assert_eq!(ctx.delay, 0);
    assert_eq!(ctx.sound, 0);
    assert_eq!(ctx.input, None);
    assert!(ctx.memory.iter().all(|&b| b == 0));
    assert!(ctx.v.iter().all(|&b| b == 0));
    assert!(ctx.held_keys.iter().all(|&k| !k));
    assert!(ctx.is_well_formed());
}

#[test]
fn session_loads_font_at_its_offset() {
    let emu = Chip8Emulator::new(EmulatorMode::Run);
    let font = font_table();
    assert_eq!(font.len(), 80);
    assert_eq!(&emu.context.memory[0x050..0x0A0], font.as_slice());
    // Glyph 0 starts the table; everything outside the region stays zero.
    assert_eq!(&emu.context.memory[0x050..0x055], &[0xF0, 0x90, 0x90, 0x90, 0xF0]);
    assert!(emu.context.memory[..0x050].iter().all(|&b| b == 0));
    assert!(emu.context.memory[0x0A0..].iter().all(|&b| b == 0));
    assert!(emu.context.is_well_formed());
}

#[test]
fn font_table_is_bit_for_bit_standard() {
    let expected: [u8; 80] = [
        0xF0, 0x90, 0x90, 0x90, 0xF0, // 0
        0x20, 0x60, 0x20, 0x20, 0x70, // 1
        0xF0, 0x10, 0xF0, 0x80, 0xF0, // 2
        0xF0, 0x10, 0xF0, 0x10, 0xF0, // 3
        0x90, 0x90, 0xF0, 0x10, 0x10, // 4
        0xF0, 0x80, 0xF0, 0x10, 0xF0, // 5
        0xF0, 0x80, 0xF0, 0x90, 0xF0, // 6
        0xF0, 0x10, 0x20, 0x40, 0x40, // 7
        0xF0, 0x90, 0xF0, 0x90, 0xF0, // 8
        0xF0, 0x90, 0xF0, 0x10, 0xF0, // 9
        0xF0, 0x90, 0xF0, 0x90, 0x90, // A
        0xE0, 0x90, 0xE0, 0x90, 0xE0, // B
        0xF0, 0x80, 0x80, 0x80, 0xF0, // C
        0xE0, 0x90, 0x90, 0x90, 0xE0, // D
        0xF0, 0x80, 0xF0, 0x80, 0xF0, // E
        0xF0, 0x80, 0xF0, 0x80, 0x80, // F
    ];
    assert_eq!(font_table().as_slice(), &expected);
}

#[test]
fn rom_bytes_land_at_the_load_offset() {
    let mut emu = Chip8Emulator::new(EmulatorMode::Step);
    let rom = [0xDE, 0xAD, 0xBE, 0xEF];
    assert_eq!(emu.read_rom_into_memory(&rom), Ok(4));
    assert_eq!(&emu.context.memory[0x200..0x204], &rom);
    assert_eq!(emu.context.memory[0x204], 0);
}

#[test]
fn oversized_rom_is_rejected_whole() {
    let mut emu = Chip8Emulator::new(EmulatorMode::Run);
    let too_big = vec![0xAA; 3585];
    assert_eq!(
        emu.read_rom_into_memory(&too_big),
        Err(Chip8Error::RomTooLarge)
    );
    // Nothing was copied.
    assert!(emu.context.memory[0x200..].iter().all(|&b| b == 0));
    // The largest image that fits is accepted in full.
    let max = vec![0xBB; 3584];
    assert_eq!(emu.read_rom_into_memory(&max), Ok(3584));
    assert_eq!(emu.context.memory[4095], 0xBB);
}

#[test]
fn stack_push_and_pop_are_lifo_and_checked() {
    let mut ctx = Chip8Context::new();
    for k in 0..16 {
        assert_eq!(ctx.stack_push(0x300 + k as u16), Ok(()));
    }
    assert_eq!(ctx.stack_push(0xBAD), Err(Chip8Error::StackOverflow));
    for k in (0..16).rev() {
        assert_eq!(ctx.stack_pop(), Ok(0x300 + k as u16));
    }
    assert_eq!(ctx.stack_pop(), Err(Chip8Error::StackUnderflow));
}

#[test]
fn program_counter_moves_by_two() {
    let mut ctx = Chip8Context::new();
    ctx.increment_pc();
    assert_eq!(ctx.pc, 0x202);
    ctx.decrement_pc();
    assert_eq!(ctx.pc, 0x200);
}

#[test]
fn fetch_returns_the_two_bytes_at_pc() {
    let mut ctx = Chip8Context::new();
    ctx.memory[0x200] = 0x12;
    ctx.memory[0x201] = 0x34;
    assert_eq!(ctx.get_next_instruction(), (0x12, 0x34));
}

#[test]
fn timers_tick_once_per_interval_and_keep_the_excess() {
    let mut ctx = Chip8Context::new();
    ctx.delay = 2;
    ctx.sound = 1;
    // Less than one interval: nothing happens, time accumulates.
    ctx.update_timers(TIMER_INTERVAL_NANOS / 2);
    assert_eq!(ctx.delay, 2);
    assert_eq!(ctx.sound, 1);
    // The second half crosses the boundary: one decrement each.
    ctx.update_timers(TIMER_INTERVAL_NANOS / 2 + 1);
    assert_eq!(ctx.delay, 1);
    assert_eq!(ctx.sound, 0);
    // A huge gap still decrements only once per call, and never below zero.
    ctx.update_timers(10 * TIMER_INTERVAL_NANOS);
    assert_eq!(ctx.delay, 0);
    assert_eq!(ctx.sound, 0);
    ctx.update_timers(TIMER_INTERVAL_NANOS);
    assert_eq!(ctx.delay, 0);
    assert_eq!(ctx.sound, 0);
}

#[test]
fn pixels_read_back_and_clip_out_of_range() {
    let mut fb = FrameBuffer::new();
    assert_eq!(fb.get_pixel(0, 0), Some(false));
    assert!(!fb.is_dirty());
    fb.set_pixel(3, 4, true);
    assert_eq!(fb.get_pixel(3, 4), Some(true));
    assert!(fb.is_dirty());
    // Out-of-range coordinates: reads say so, writes vanish entirely — they
    // neither touch a pixel nor mark the display dirty.
    assert_eq!(fb.get_pixel(64, 0), None);
    assert_eq!(fb.get_pixel(0, 32), None);
    fb.mark_rendered();
    fb.set_pixel(64, 0, true);
    fb.set_pixel(0, 32, true);
    assert_eq!(fb.get_pixel(63, 0), Some(false));
    assert_eq!(fb.get_pixel(0, 31), Some(false));
    assert!(!fb.is_dirty());
}

#[test]
fn clear_turns_everything_off_and_marks_dirty() {
    let mut fb = FrameBuffer::new();
    fb.set_pixel(10, 10, true);
    fb.mark_rendered();
    assert!(!fb.is_dirty());
    fb.clear();
    assert!(fb.is_dirty());
    for x in 0..64 {
        for y in 0..32 {
            assert_eq!(fb.get_pixel(x, y), Some(false));
        }
    }
}

#[test]
fn key_events_feed_the_table_and_the_mailbox() {
    let mut emu = Chip8Emulator::new(EmulatorMode::Run);
    emu.set_keydown(0xC);
    assert!(emu.context.held_keys[0xC]);
    assert_eq!(emu.context.input, Some(0xC));
    emu.set_keyup(0xC);
    assert!(!emu.context.held_keys[0xC]);
    // Key-up does not disturb the pending mailbox.
    assert_eq!(emu.context.input, Some(0xC));
    assert_eq!(emu.context.read_input(), Some(0xC));
    assert_eq!(emu.context.read_input(), None);
}

#[test]
fn default_machine_matches_new() {
    let ctx = Chip8Context::default();
    assert_eq!(ctx.pc, 0x200);
    let fb = FrameBuffer::default();
    assert_eq!(fb.get_pixel(0, 0), Some(false));
}
