use shinobu8_core::{Emu, EmuError, Instruction, Ram};

fn boot(rom: &[u8]) -> Emu {
    assert!(rom.len() <= 4096 - 0x200);
    let mut emu = Emu::new();
    emu.load(rom);
    emu
}

#[test]
fn test_pong2() {
    // A known-good program in the spirit of a bouncing-ball game loop:
    // draw a glyph sprite, advance the x coordinate, wrap it, repeat.
    let rom: Vec<u8> = vec![
        0x60, 0x05, // V0 = 5
        0x61, 0x03, // V1 = 3
        0xA0, 0x00, // I = 0x000 (glyph 0)
        0xD0, 0x15, // draw 5 rows at (V0, V1)
        0x70, 0x01, // V0 += 1
        0x30, 0x40, // skip if V0 == 0x40
        0x12, 0x06, // jump 0x206
        0x60, 0x00, // V0 = 0
        0x12, 0x06, // jump 0x206
    ];
    let mut emu = boot(&rom);
    for _i in 0..10000 {
        emu.step().unwrap();
    }
    assert_eq!(10000, emu.get_steps());
}

#[test]
fn test_15puzzle() {
    // A known-good program in the spirit of a puzzle's input loop: call a
    // subroutine, copy a register, return, count, repeat.
    let rom: Vec<u8> = vec![
        0x60, 0x00, // V0 = 0
        0x22, 0x0A, // call 0x20A
        0x70, 0x01, // V0 += 1
        0x12, 0x02, // jump 0x202
        0x00, 0x00, // no-op filler
        0x81, 0x00, // V1 = V0
        0x00, 0xEE, // return
    ];
    let mut emu = boot(&rom);
    for _i in 0..10000 {
        emu.step().unwrap();
    }
    assert_eq!(10000, emu.get_steps());
}

#[test]
fn decode_splits_nibbles_and_fields() {
    let ins = Instruction(0x1234);
    assert_eq!(ins.decode(), (0x1, 0x2, 0x3, 0x4));
    assert_eq!(ins.nnn(), 0x234);
    assert_eq!(ins.kk(), 0x34);
    let ins = Instruction(0xFEDC);
    assert_eq!(ins.decode(), (0xF, 0xE, 0xD, 0xC));
    assert_eq!(ins.nnn(), 0xEDC);
    assert_eq!(ins.kk(), 0xDC);
    // Decoding the same word twice gives the same fields.
    assert_eq!(Instruction(0xABCD).decode(), Instruction(0xABCD).decode());
}

#[test]
fn load_installs_font_and_program() {
    let mut ram = Ram::new();
    ram.store(0, 0x55);
    ram.store(0x300, 0x77);
    ram.load(&[0xAA, 0xBB]);
    // Font re-installed over whatever was at 0x000.
    assert_eq!(ram.read(0), 0xF0);
    assert_eq!(ram.read(4), 0xF0);
    assert_eq!(ram.read(79), 0x80);
    // Program bytes verbatim at 0x200.
    assert_eq!(ram.read(0x200), 0xAA);
    assert_eq!(ram.read(0x201), 0xBB);
    // The rest untouched.
    assert_eq!(ram.read(0x202), 0x00);
    assert_eq!(ram.read(0x300), 0x77);
}

#[test]
fn emu_load_reinstalls_font() {
    let mut emu = Emu::new();
    emu.load(&[0x12, 0x00]);
    assert_eq!(emu.read_mem(0), 0xF0);
    assert_eq!(emu.read_mem(0x4F), 0x80);
    assert_eq!(emu.read_mem(0x200), 0x12);
    assert_eq!(emu.get_pc(), 0x200);
}

#[test]
fn clear_draw_clear_leaves_display_dark() {
    let rom: Vec<u8> = vec![
        0x00, 0xE0, // clear
        0xA0, 0x00, // I = 0
        0xD0, 0x05, // draw 5 rows at (V0, V0) = (0, 0)
        0x00, 0xE0, // clear
    ];
    let mut emu = boot(&rom);
    emu.step().unwrap();
    emu.step().unwrap();
    emu.step().unwrap();
    assert!(emu.get_diaplay().iter().any(|p| *p));
    emu.step().unwrap();
    assert!(emu.get_diaplay().iter().all(|p| !*p));
}

#[test]
fn add_immediate_wraps_without_flag() {
    let rom: Vec<u8> = vec![
        0x6F, 0x05, // V15 = 5 (sentinel: 7xkk must not touch the flag)
        0x60, 0xFF, // V0 = 0xFF
        0x70, 0x01, // V0 += 1
    ];
    let mut emu = boot(&rom);
    for _i in 0..3 {
        emu.step().unwrap();
    }
    assert_eq!(emu.get_reg(0), 0x00);
    assert_eq!(emu.get_reg(15), 5);
}

#[test]
fn add_register_sets_carry() {
    let rom: Vec<u8> = vec![
        0x60, 0xFF, // V0 = 0xFF
        0x61, 0x01, // V1 = 1
        0x80, 0x14, // V0 += V1
    ];
    let mut emu = boot(&rom);
    for _i in 0..3 {
        emu.step().unwrap();
    }
    assert_eq!(emu.get_reg(0), 0x00);
    assert_eq!(emu.get_reg(15), 1);

    let rom: Vec<u8> = vec![
        0x60, 0x01, // V0 = 1
        0x61, 0x01, // V1 = 1
        0x80, 0x14, // V0 += V1
    ];
    let mut emu = boot(&rom);
    for _i in 0..3 {
        emu.step().unwrap();
    }
    assert_eq!(emu.get_reg(0), 0x02);
    assert_eq!(emu.get_reg(15), 0);
}

#[test]
fn sub_register_borrow_convention() {
    let rom: Vec<u8> = vec![
        0x60, 0x01, // V0 = 1
        0x61, 0x02, // V1 = 2
        0x80, 0x15, // V0 -= V1
    ];
    let mut emu = boot(&rom);
    for _i in 0..3 {
        emu.step().unwrap();
    }
    assert_eq!(emu.get_reg(0), 0xFF);
    assert_eq!(emu.get_reg(15), 0);

    let rom: Vec<u8> = vec![
        0x60, 0x05, // V0 = 5
        0x61, 0x02, // V1 = 2
        0x80, 0x15, // V0 -= V1
    ];
    let mut emu = boot(&rom);
    for _i in 0..3 {
        emu.step().unwrap();
    }
    assert_eq!(emu.get_reg(0), 0x03);
    assert_eq!(emu.get_reg(15), 1);
}

#[test]
fn sub_reversed_borrow_convention() {
    let rom: Vec<u8> = vec![
        0x60, 0x02, // V0 = 2
        0x61, 0x07, // V1 = 7
        0x80, 0x17, // V0 = V1 - V0
    ];
    let mut emu = boot(&rom);
    for _i in 0..3 {
        emu.step().unwrap();
    }
    assert_eq!(emu.get_reg(0), 0x05);
    assert_eq!(emu.get_reg(15), 1);
}

#[test]
fn call_and_return_round_trip() {
    let rom: Vec<u8> = vec![
        0x22, 0x08, // 0x200: call 0x208
        0x00, 0x00, // 0x202
        0x00, 0x00, // 0x204
        0x00, 0x00, // 0x206
        0x00, 0xEE, // 0x208: return
    ];
    let mut emu = boot(&rom);
    assert_eq!(emu.get_sp(), 0);
    emu.step().unwrap();
    assert_eq!(emu.get_pc(), 0x208);
    assert_eq!(emu.get_sp(), 1);
    emu.step().unwrap();
    // Back at the instruction after the call, stack pointer as before it.
    assert_eq!(emu.get_pc(), 0x202);
    assert_eq!(emu.get_sp(), 0);
}

#[test]
fn draw_twice_restores_display_and_collides() {
    let rom: Vec<u8> = vec![
        0xA0, 0x00, // I = 0 (glyph 0)
        0x60, 0x05, // V0 = 5
        0x61, 0x03, // V1 = 3
        0xD0, 0x15, // draw
        0xD0, 0x15, // draw again
    ];
    let mut emu = boot(&rom);
    for _i in 0..3 {
        emu.step().unwrap();
    }
    emu.step().unwrap();
    assert_eq!(emu.get_reg(15), 0);
    assert!(emu.get_diaplay().iter().any(|p| *p));
    emu.step().unwrap();
    // XOR self-inverse: back to the all-dark pre-draw state, collision set.
    assert!(emu.get_diaplay().iter().all(|p| !*p));
    assert_eq!(emu.get_reg(15), 1);
}

#[test]
fn draw_wraps_coordinates() {
    let rom: Vec<u8> = vec![
        0xA0, 0x00, // I = 0
        0x60, 0x3E, // V0 = 62
        0x61, 0x1F, // V1 = 31
        0xD0, 0x12, // draw 2 rows at (62, 31)
    ];
    let mut emu = boot(&rom);
    for _i in 0..4 {
        emu.step().unwrap();
    }
    let d = emu.get_diaplay();
    // Glyph 0's first row is 0xF0: bits at columns 62, 63, 0, 1 of row 31.
    assert!(d[31 * 64 + 62] && d[31 * 64 + 63] && d[31 * 64 + 0] && d[31 * 64 + 1]);
    // Second row 0x90 wraps to row 0: bits at columns 62 and 1.
    assert!(d[0 * 64 + 62] && !d[0 * 64 + 63] && !d[0 * 64 + 0] && d[0 * 64 + 1]);
}

#[test]
fn skips_advance_pc_by_4_when_taken() {
    // 3xkk taken.
    let mut emu = boot(&[0x60, 0x05, 0x30, 0x05]);
    emu.step().unwrap();
    emu.step().unwrap();
    assert_eq!(emu.get_pc(), 0x206);
    // 4xkk taken.
    let mut emu = boot(&[0x60, 0x05, 0x40, 0x06]);
    emu.step().unwrap();
    emu.step().unwrap();
    assert_eq!(emu.get_pc(), 0x206);
    // 5xy0 taken (V0 == V1 == 5).
    let mut emu = boot(&[0x60, 0x05, 0x61, 0x05, 0x50, 0x10]);
    emu.step().unwrap();
    emu.step().unwrap();
    emu.step().unwrap();
    assert_eq!(emu.get_pc(), 0x208);
    // 9xy0 taken (V0 != V1).
    let mut emu = boot(&[0x60, 0x05, 0x61, 0x06, 0x90, 0x10]);
    emu.step().unwrap();
    emu.step().unwrap();
    emu.step().unwrap();
    assert_eq!(emu.get_pc(), 0x208);
}

#[test]
fn skips_advance_pc_by_2_when_not_taken() {
    let mut emu = boot(&[0x60, 0x05, 0x30, 0x06]);
    emu.step().unwrap();
    emu.step().unwrap();
    assert_eq!(emu.get_pc(), 0x204);
    let mut emu = boot(&[0x60, 0x05, 0x40, 0x05]);
    emu.step().unwrap();
    emu.step().unwrap();
    assert_eq!(emu.get_pc(), 0x204);
    let mut emu = boot(&[0x60, 0x05, 0x61, 0x06, 0x50, 0x10]);
    emu.step().unwrap();
    emu.step().unwrap();
    emu.step().unwrap();
    assert_eq!(emu.get_pc(), 0x206);
    let mut emu = boot(&[0x60, 0x05, 0x61, 0x05, 0x90, 0x10]);
    emu.step().unwrap();
    emu.step().unwrap();
    emu.step().unwrap();
    assert_eq!(emu.get_pc(), 0x206);
}

#[test]
fn shifts_set_flag_from_shifted_out_bit() {
    // 8xy6: flag takes the low bit.
    let mut emu = boot(&[0x60, 0x03, 0x80, 0x06]);
    emu.step().unwrap();
    emu.step().unwrap();
    assert_eq!(emu.get_reg(0), 0x01);
    assert_eq!(emu.get_reg(15), 1);
    // 8xyE: flag takes the original high bit.
    let mut emu = boot(&[0x60, 0x81, 0x80, 0x0E]);
    emu.step().unwrap();
    emu.step().unwrap();
    assert_eq!(emu.get_reg(0), 0x02);
    assert_eq!(emu.get_reg(15), 1);
    let mut emu = boot(&[0x60, 0x40, 0x80, 0x0E]);
    emu.step().unwrap();
    emu.step().unwrap();
    assert_eq!(emu.get_reg(0), 0x80);
    assert_eq!(emu.get_reg(15), 0);
}

#[test]
fn bitwise_ops_combine_registers() {
    let mut emu = boot(&[0x60, 0x0C, 0x61, 0x0A, 0x80, 0x11]);
    for _i in 0..3 {
        emu.step().unwrap();
    }
    assert_eq!(emu.get_reg(0), 0x0E);
    let mut emu = boot(&[0x60, 0x0C, 0x61, 0x0A, 0x80, 0x12]);
    for _i in 0..3 {
        emu.step().unwrap();
    }
    assert_eq!(emu.get_reg(0), 0x08);
    let mut emu = boot(&[0x60, 0x0C, 0x61, 0x0A, 0x80, 0x13]);
    for _i in 0..3 {
        emu.step().unwrap();
    }
    assert_eq!(emu.get_reg(0), 0x06);
}

#[test]
fn jumps_and_index_register() {
    let mut emu = boot(&[0x12, 0x34]);
    emu.step().unwrap();
    assert_eq!(emu.get_pc(), 0x234);

    let mut emu = boot(&[0xA1, 0x23]);
    emu.step().unwrap();
    assert_eq!(emu.get_index(), 0x123);

    // Bnnn: pc = nnn + V0.
    let mut emu = boot(&[0x60, 0x04, 0xB3, 0x00]);
    emu.step().unwrap();
    emu.step().unwrap();
    assert_eq!(emu.get_pc(), 0x304);
}

#[test]
fn timers_set_and_read_back() {
    let rom: Vec<u8> = vec![
        0x60, 0x30, // V0 = 0x30
        0xF0, 0x15, // delay = V0
        0xF0, 0x18, // sound = V0
        0xF1, 0x07, // V1 = delay
    ];
    let mut emu = boot(&rom);
    for _i in 0..4 {
        emu.step().unwrap();
    }
    assert_eq!(emu.get_delay(), 0x30);
    assert_eq!(emu.get_sound(), 0x30);
    assert_eq!(emu.get_reg(1), 0x30);
}

#[test]
fn random_byte_is_masked() {
    let mut emu = boot(&[0xC0, 0x0F]);
    emu.step().unwrap();
    assert!(emu.get_reg(0) <= 0x0F);
    let mut emu = boot(&[0xC0, 0x00]);
    emu.step().unwrap();
    assert_eq!(emu.get_reg(0), 0);
}

#[test]
fn chosen_random_byte_is_anded_with_immediate() {
    let mut emu = boot(&[0xC0, 0xFF, 0xC1, 0x0F]);
    emu.step_with_random(0xAB).unwrap();
    assert_eq!(emu.get_reg(0), 0xAB);
    emu.step_with_random(0xAB).unwrap();
    assert_eq!(emu.get_reg(1), 0x0B);
}

#[test]
fn glyph_address_and_bcd() {
    // Fx29: I = Vx * 5.
    let mut emu = boot(&[0x62, 0x07, 0xF2, 0x29]);
    emu.step().unwrap();
    emu.step().unwrap();
    assert_eq!(emu.get_index(), 35);

    // Fx33: decimal digits of 254 at I, I+1, I+2.
    let mut emu = boot(&[0x60, 0xFE, 0xA3, 0x00, 0xF0, 0x33]);
    for _i in 0..3 {
        emu.step().unwrap();
    }
    assert_eq!(emu.read_mem(0x300), 2);
    assert_eq!(emu.read_mem(0x301), 5);
    assert_eq!(emu.read_mem(0x302), 4);
}

#[test]
fn store_and_load_registers() {
    let rom: Vec<u8> = vec![
        0x60, 0x11, // V0 = 0x11
        0x61, 0x22, // V1 = 0x22
        0x62, 0x33, // V2 = 0x33
        0xA3, 0x10, // I = 0x310
        0xF2, 0x55, // store V0..=V2
        0x60, 0x00, // V0 = 0
        0x61, 0x00, // V1 = 0
        0x62, 0x00, // V2 = 0
        0xF2, 0x65, // load V0..=V2
    ];
    let mut emu = boot(&rom);
    for _i in 0..5 {
        emu.step().unwrap();
    }
    assert_eq!(emu.read_mem(0x310), 0x11);
    assert_eq!(emu.read_mem(0x311), 0x22);
    assert_eq!(emu.read_mem(0x312), 0x33);
    for _i in 0..4 {
        emu.step().unwrap();
    }
    assert_eq!(emu.get_reg(0), 0x11);
    assert_eq!(emu.get_reg(1), 0x22);
    assert_eq!(emu.get_reg(2), 0x33);
}

#[test]
fn key_skips_observe_keypad() {
    // Ex9E skips when the key in Vx is pressed.
    let mut emu = boot(&[0x60, 0x05, 0xE0, 0x9E]);
    emu.key_down(5);
    emu.step().unwrap();
    emu.step().unwrap();
    assert_eq!(emu.get_pc(), 0x206);
    // ExA1 skips when it is not pressed.
    let mut emu = boot(&[0x60, 0x05, 0xE0, 0xA1]);
    emu.step().unwrap();
    emu.step().unwrap();
    assert_eq!(emu.get_pc(), 0x206);
}

#[test]
fn wait_for_key_stores_pressed_index() {
    let mut emu = boot(&[0xF0, 0x0A]);
    emu.key_down(5);
    emu.step().unwrap();
    assert_eq!(emu.get_reg(0), 5);
    assert_eq!(emu.get_pc(), 0x202);
}

#[test]
fn wait_for_key_yields_until_a_key_appears() {
    let mut emu = boot(&[0xF0, 0x0A]);
    emu.step().unwrap();
    // No key: the cycle completes but the instruction will re-execute.
    assert_eq!(emu.get_pc(), 0x200);
    assert_eq!(emu.get_steps(), 1);
    emu.step().unwrap();
    assert_eq!(emu.get_pc(), 0x200);
    emu.key_down(9);
    emu.step().unwrap();
    assert_eq!(emu.get_reg(0), 9);
    assert_eq!(emu.get_pc(), 0x202);
}

#[test]
fn unknown_instruction_halts() {
    let mut emu = boot(&[0xFF, 0xFF]);
    assert_eq!(emu.step(), Err(EmuError::UnknownInstruction));
    // An execute failure leaves the program counter advanced past the fetch.
    assert_eq!(emu.get_pc(), 0x202);
    let mut emu = boot(&[0x00, 0x01]);
    assert_eq!(emu.step(), Err(EmuError::UnknownInstruction));
    assert_eq!(emu.get_steps(), 0);
}

#[test]
fn return_with_empty_stack_underflows() {
    let mut emu = boot(&[0x00, 0xEE]);
    assert_eq!(emu.step(), Err(EmuError::StackUnderflow));
}

#[test]
fn seventeenth_nested_call_overflows() {
    // 0x200: call 0x200, forever.
    let mut emu = boot(&[0x22, 0x00]);
    for _i in 0..16 {
        emu.step().unwrap();
    }
    assert_eq!(emu.get_sp(), 16);
    assert_eq!(emu.step(), Err(EmuError::StackOverflow));
}

#[test]
fn bcd_outside_memory_is_out_of_bounds() {
    let mut emu = boot(&[0xAF, 0xFF, 0xF0, 0x33]);
    emu.step().unwrap();
    assert_eq!(emu.step(), Err(EmuError::OutOfBounds));
}

#[test]
fn fetch_past_memory_is_out_of_bounds() {
    // Jump to 0xFFE; the two bytes there are zero (a no-op), and the next
    // fetch falls off the end of memory.
    let mut emu = boot(&[0x1F, 0xFE]);
    emu.step().unwrap();
    emu.step().unwrap();
    assert_eq!(emu.get_pc(), 0x1000);
    assert_eq!(emu.step(), Err(EmuError::OutOfBounds));
}

#[test]
fn odd_jump_target_misaligns_pc() {
    let mut emu = boot(&[0x12, 0x01]);
    emu.step().unwrap();
    assert_eq!(emu.step(), Err(EmuError::MisalignedPc));
    // A fetch failure leaves the state untouched.
    assert_eq!(emu.get_pc(), 0x201);
}

#[test]
fn key_index_past_keypad_is_invalid() {
    let mut emu = boot(&[0x60, 0x14, 0xE0, 0x9E]);
    emu.step().unwrap();
    assert_eq!(emu.step(), Err(EmuError::InvalidKey));
}

#[test]
fn run_stops_on_quit_and_propagates_errors() {
    let mut emu = boot(&[0x12, 0x00]);
    emu.quit();
    assert_eq!(emu.run(), Ok(()));
    // With the flag already set, run returns at once, state untouched.
    assert_eq!(emu.get_steps(), 0);
    assert_eq!(emu.get_pc(), 0x200);

    let mut emu = boot(&[0xFF, 0xFF]);
    assert_eq!(emu.run(), Err(EmuError::UnknownInstruction));
}

#[test]
fn index_add_accumulates() {
    let mut emu = boot(&[0xA1, 0x00, 0x60, 0x22, 0xF0, 0x1E]);
    for _i in 0..3 {
        emu.step().unwrap();
    }
    assert_eq!(emu.get_index(), 0x122);
}

#[test]
fn fresh_display_is_dark() {
    let emu = Emu::new();
    assert_eq!(emu.get_diaplay().len(), 64 * 32);
    assert!(emu.get_diaplay().iter().all(|p| !*p));
    assert_eq!(emu.get_steps(), 0);
    assert_eq!(emu.get_sp(), 0);
    assert_eq!(emu.get_pc(), 0x200);
}
