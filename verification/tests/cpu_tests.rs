use chip8rs::Chip8;
use chip8rs::Chip8Error;

/// A machine running the given code from `0x200`, padded so that addresses
/// up to `0x400` exist in the program space.
fn machine(code: &[u8]) -> Chip8 {
    let mut rom = vec![0u8; 0x200];
    rom[..code.len()].copy_from_slice(code);
    Chip8::new(&rom).unwrap()
}

fn run(m: &mut Chip8, steps: usize) {
    for _ in 0..steps {
        m.step().unwrap();
    }
}

#[test]
fn set_and_add_immediate() {
    let mut m = machine(&[0x61, 0x2A, 0x71, 0x05]);
    run(&mut m, 2);
    assert_eq!(m.cpu.regs.v[1], 0x2F);
    assert_eq!(m.cpu.pc, 0x204);
}

#[test]
fn add_immediate_wraps_modulo_256_without_flag() {
    // VF is parked at 7 first to show 7XNN leaves it alone
    let mut m = machine(&[0x6F, 0x07, 0x60, 0xFF, 0x70, 0x02]);
    run(&mut m, 3);
    assert_eq!(m.cpu.regs.v[0], 0x01);
    assert_eq!(m.cpu.regs.v[15], 7);
}

#[test]
fn add_registers_wraps_and_sets_carry() {
    let mut m = machine(&[0x61, 0xC8, 0x62, 0x64, 0x81, 0x24]);
    run(&mut m, 3);
    // 200 + 100 = 300 = 44 mod 256, with carry
    assert_eq!(m.cpu.regs.v[1], 44);
    assert_eq!(m.cpu.regs.v[15], 1);
}

#[test]
fn add_registers_without_overflow_clears_carry() {
    let mut m = machine(&[0x6F, 0x01, 0x61, 0x02, 0x62, 0x03, 0x81, 0x24]);
    run(&mut m, 4);
    assert_eq!(m.cpu.regs.v[1], 5);
    assert_eq!(m.cpu.regs.v[15], 0);
}

#[test]
fn sub_sets_flag_on_borrow() {
    // V1 = 5 - 9 borrows: VF = 1, result wraps
    let mut m = machine(&[0x61, 0x05, 0x62, 0x09, 0x81, 0x25]);
    run(&mut m, 3);
    assert_eq!(m.cpu.regs.v[1], 252);
    assert_eq!(m.cpu.regs.v[15], 1);
}

#[test]
fn sub_without_borrow_clears_flag() {
    let mut m = machine(&[0x61, 0x09, 0x62, 0x05, 0x81, 0x25]);
    run(&mut m, 3);
    assert_eq!(m.cpu.regs.v[1], 4);
    assert_eq!(m.cpu.regs.v[15], 0);
}

#[test]
fn sub_from_reverses_operands() {
    // V1 = V2 - V1 = 9 - 5, no borrow
    let mut m = machine(&[0x61, 0x05, 0x62, 0x09, 0x81, 0x27]);
    run(&mut m, 3);
    assert_eq!(m.cpu.regs.v[1], 4);
    assert_eq!(m.cpu.regs.v[15], 0);
    // and with borrow
    let mut m = machine(&[0x61, 0x09, 0x62, 0x05, 0x81, 0x27]);
    run(&mut m, 3);
    assert_eq!(m.cpu.regs.v[1], 252);
    assert_eq!(m.cpu.regs.v[15], 1);
}

#[test]
fn bitwise_or_and_xor() {
    let mut m = machine(&[0x61, 0x0C, 0x62, 0x0A, 0x81, 0x21]);
    run(&mut m, 3);
    assert_eq!(m.cpu.regs.v[1], 0x0E);
    let mut m = machine(&[0x61, 0x0C, 0x62, 0x0A, 0x81, 0x22]);
    run(&mut m, 3);
    assert_eq!(m.cpu.regs.v[1], 0x08);
    let mut m = machine(&[0x61, 0x0C, 0x62, 0x0A, 0x81, 0x23]);
    run(&mut m, 3);
    assert_eq!(m.cpu.regs.v[1], 0x06);
}

#[test]
fn move_copies_register() {
    let mut m = machine(&[0x62, 0x77, 0x81, 0x20]);
    run(&mut m, 2);
    assert_eq!(m.cpu.regs.v[1], 0x77);
}

#[test]
fn shift_right_flags_old_lsb_and_shifts_vy() {
    // VF = lsb of V1 (1); V1 = V2 >> 1
    let mut m = machine(&[0x61, 0x03, 0x62, 0x09, 0x81, 0x26]);
    run(&mut m, 3);
    assert_eq!(m.cpu.regs.v[1], 4);
    assert_eq!(m.cpu.regs.v[15], 1);
    // lsb clear
    let mut m = machine(&[0x61, 0x02, 0x62, 0x09, 0x81, 0x26]);
    run(&mut m, 3);
    assert_eq!(m.cpu.regs.v[1], 4);
    assert_eq!(m.cpu.regs.v[15], 0);
}

#[test]
fn shift_left_flags_old_msb_and_shifts_vy() {
    // VF = msb of V1 (set); V1 = V2 << 1 mod 256
    let mut m = machine(&[0x61, 0x80, 0x62, 0x81, 0x81, 0x2E]);
    run(&mut m, 3);
    assert_eq!(m.cpu.regs.v[1], 0x02);
    assert_eq!(m.cpu.regs.v[15], 1);
    // msb clear
    let mut m = machine(&[0x61, 0x40, 0x62, 0x03, 0x81, 0x2E]);
    run(&mut m, 3);
    assert_eq!(m.cpu.regs.v[1], 0x06);
    assert_eq!(m.cpu.regs.v[15], 0);
}

#[test]
fn jump_sets_pc() {
    let mut m = machine(&[0x13, 0x00]);
    run(&mut m, 1);
    assert_eq!(m.cpu.pc, 0x300);
}

#[test]
fn call_and_return_round_trip() {
    let mut code = vec![0u8; 0x110];
    code[0] = 0x23; // 2300: call 0x300
    code[1] = 0x00;
    code[0x100] = 0x00; // at 0x300: 00EE return
    code[0x101] = 0xEE;
    let mut m = machine(&code);
    run(&mut m, 1);
    assert_eq!(m.cpu.pc, 0x300);
    assert_eq!(m.cpu.stack.entries, vec![0x200]);
    run(&mut m, 1);
    // return lands just past the call
    assert_eq!(m.cpu.pc, 0x202);
    assert!(m.cpu.stack.entries.is_empty());
}

#[test]
fn return_on_empty_stack_is_bounds_error() {
    let mut m = machine(&[0x00, 0xEE]);
    assert_eq!(m.step(), Err(Chip8Error::Bounds));
    assert_eq!(m.cpu.pc, 0x200);
}

#[test]
fn seventeen_nested_calls_overflow_the_stack() {
    let mut code = vec![0u8; 36];
    for k in 0..17u16 {
        let target = 0x200 + 2 * (k + 1);
        code[2 * k as usize] = 0x20 | (target >> 8) as u8;
        code[2 * k as usize + 1] = (target & 0xFF) as u8;
    }
    let mut m = machine(&code);
    for _ in 0..16 {
        m.step().unwrap();
    }
    assert_eq!(m.cpu.stack.entries.len(), 16);
    assert_eq!(m.step(), Err(Chip8Error::Bounds));
}

#[test]
fn skips_on_immediate_comparison() {
    // 3XNN taken: the skip at 0x202 advances the pc by 4
    let mut m = machine(&[0x60, 0x05, 0x30, 0x05]);
    run(&mut m, 2);
    assert_eq!(m.cpu.pc, 0x206);
    // 3XNN not taken
    let mut m = machine(&[0x60, 0x05, 0x30, 0x06]);
    run(&mut m, 2);
    assert_eq!(m.cpu.pc, 0x204);
    // 4XNN taken
    let mut m = machine(&[0x60, 0x05, 0x40, 0x06]);
    run(&mut m, 2);
    assert_eq!(m.cpu.pc, 0x206);
    // 4XNN not taken
    let mut m = machine(&[0x60, 0x05, 0x40, 0x05]);
    run(&mut m, 2);
    assert_eq!(m.cpu.pc, 0x204);
}

#[test]
fn skips_on_register_comparison() {
    // 5XY0 taken: the skip at 0x204 advances the pc by 4
    let mut m = machine(&[0x60, 0x05, 0x61, 0x05, 0x50, 0x10]);
    run(&mut m, 3);
    assert_eq!(m.cpu.pc, 0x208);
    // 9XY0 taken
    let mut m = machine(&[0x60, 0x05, 0x61, 0x06, 0x90, 0x10]);
    run(&mut m, 3);
    assert_eq!(m.cpu.pc, 0x208);
    // 9XY0 not taken
    let mut m = machine(&[0x60, 0x05, 0x61, 0x05, 0x90, 0x10]);
    run(&mut m, 3);
    assert_eq!(m.cpu.pc, 0x206);
}

#[test]
fn set_index_and_add_index() {
    let mut m = machine(&[0xA3, 0x21, 0x61, 0x10, 0xF1, 0x1E]);
    run(&mut m, 3);
    assert_eq!(m.cpu.regs.i, 0x331);
}

#[test]
fn font_address_is_five_bytes_per_glyph() {
    let mut m = machine(&[0x61, 0x0A, 0xF1, 0x29]);
    run(&mut m, 2);
    assert_eq!(m.cpu.regs.i, 0x50 + 10 * 5);
}

#[test]
fn bcd_splits_decimal_digits() {
    let mut m = machine(&[0x61, 0x9C, 0xA3, 0x00, 0xF1, 0x33]);
    run(&mut m, 3);
    // V1 = 156
    assert_eq!(m.interconnect.ram.bytes[0x300], 1);
    assert_eq!(m.interconnect.ram.bytes[0x301], 5);
    assert_eq!(m.interconnect.ram.bytes[0x302], 6);
    assert_eq!(m.cpu.regs.i, 0x300, "BCD leaves I alone");
}

#[test]
fn bcd_near_end_of_ram_is_bounds_error() {
    let mut m = machine(&[0xAF, 0xFF, 0xF1, 0x33]);
    run(&mut m, 1);
    assert_eq!(m.step(), Err(Chip8Error::Bounds));
}

#[test]
fn register_dump_and_load_round_trip() {
    // V0..V3 = 1,2,3,4; dump at 0x300; zero them; load back
    let mut m = machine(&[
        0x60, 0x01, 0x61, 0x02, 0x62, 0x03, 0x63, 0x04, // set V0..V3
        0xA3, 0x00, 0xF3, 0x55, // I = 0x300, dump V0..=V3
        0x60, 0x00, 0x61, 0x00, 0x62, 0x00, 0x63, 0x00, // clear V0..V3
        0xA3, 0x00, 0xF3, 0x65, // I = 0x300, load V0..=V3
    ]);
    run(&mut m, 6);
    assert_eq!(&m.interconnect.ram.bytes[0x300..0x304], &[1, 2, 3, 4]);
    assert_eq!(m.cpu.regs.i, 0x304, "I ends at I + X + 1 after a dump");
    run(&mut m, 5);
    assert_eq!(m.cpu.regs.v[0], 0);
    run(&mut m, 1);
    assert_eq!(&m.cpu.regs.v[0..4], &[1, 2, 3, 4]);
    assert_eq!(m.cpu.regs.i, 0x304, "I ends at I + X + 1 after a load");
}

#[test]
fn register_dump_past_end_of_ram_is_bounds_error() {
    let mut m = machine(&[0xAF, 0xFE, 0xF3, 0x55]);
    run(&mut m, 1);
    // 0xFFE + 3 + 1 > 4096
    assert_eq!(m.step(), Err(Chip8Error::Bounds));
}

#[test]
fn delay_timer_read_and_write() {
    let mut m = machine(&[0x61, 0x30, 0xF1, 0x15, 0xF2, 0x07]);
    run(&mut m, 3);
    assert_eq!(m.interconnect.delay_timer, 0x30);
    assert_eq!(m.cpu.regs.v[2], 0x30);
    assert_eq!(m.cpu.pc, 0x206);
}

#[test]
fn sound_timer_write() {
    let mut m = machine(&[0x61, 0x21, 0xF1, 0x18]);
    run(&mut m, 2);
    assert_eq!(m.interconnect.sound_timer, 0x21);
}

#[test]
fn skip_if_key_down_and_up() {
    // EX9E with key 4 down: the skip at 0x202 advances the pc by 4
    let mut m = machine(&[0x61, 0x04, 0xE1, 0x9E]);
    m.set_key(4, true);
    run(&mut m, 2);
    assert_eq!(m.cpu.pc, 0x206);
    // EX9E with key 4 up: no skip
    let mut m = machine(&[0x61, 0x04, 0xE1, 0x9E]);
    run(&mut m, 2);
    assert_eq!(m.cpu.pc, 0x204);
    // EXA1 with key 4 up: skip
    let mut m = machine(&[0x61, 0x04, 0xE1, 0xA1]);
    run(&mut m, 2);
    assert_eq!(m.cpu.pc, 0x206);
    // EXA1 with key 4 down: no skip
    let mut m = machine(&[0x61, 0x04, 0xE1, 0xA1]);
    m.set_key(4, true);
    run(&mut m, 2);
    assert_eq!(m.cpu.pc, 0x204);
}

#[test]
fn key_index_out_of_range_is_bounds_error() {
    let mut m = machine(&[0x61, 0xC8, 0xE1, 0x9E]);
    run(&mut m, 1);
    assert_eq!(m.step(), Err(Chip8Error::Bounds));
}

#[test]
fn key_wait_blocks_then_takes_lowest_down_key() {
    let mut m = machine(&[0xF1, 0x0A]);
    // no key down: the pc does not move, however often we cycle
    for _ in 0..5 {
        m.step().unwrap();
        assert_eq!(m.cpu.pc, 0x200);
    }
    // keys 5 and 2 go down: the wait ends once, V1 = 2
    m.set_key(5, true);
    m.set_key(2, true);
    m.step().unwrap();
    assert_eq!(m.cpu.pc, 0x202);
    assert_eq!(m.cpu.regs.v[1], 2);
}

#[test]
fn draw_opcode_sets_collision_flag() {
    // I = 0x204 where the ROM holds 0xFF; draw twice at (0, 0)
    let mut m = machine(&[0xA2, 0x04, 0xD0, 0x01, 0xFF, 0x00]);
    run(&mut m, 2);
    assert_eq!(m.cpu.regs.v[15], 0);
    for x in 0..8 {
        assert_ne!(m.interconnect.gfx.buf[x], 0);
    }
    // jump back and draw again
    m.cpu.pc = 0x202;
    run(&mut m, 1);
    assert_eq!(m.cpu.regs.v[15], 1);
    assert!(m.interconnect.gfx.buf.iter().all(|p| *p == 0));
}

#[test]
fn draw_past_end_of_ram_is_bounds_error() {
    let mut m = machine(&[0xAF, 0xFF, 0xD0, 0x02]);
    run(&mut m, 1);
    assert_eq!(m.step(), Err(Chip8Error::Bounds));
}

#[test]
fn clear_screen_opcode_blanks_display() {
    let mut m = machine(&[0xA2, 0x06, 0xD0, 0x01, 0x00, 0xE0, 0xFF, 0x00]);
    run(&mut m, 2);
    assert!(m.interconnect.gfx.buf.iter().any(|p| *p != 0));
    run(&mut m, 1);
    assert!(m.interconnect.gfx.buf.iter().all(|p| *p == 0));
    assert_eq!(m.cpu.pc, 0x206);
}

#[test]
fn unknown_opcodes_are_decode_errors() {
    for code in [
        [0x00u8, 0x00], // 0NNN machine-code call
        [0x02, 0x34],
        [0xB1, 0x23], // no jump-plus-V0 on this machine
        [0xC1, 0x23], // no random on this machine
        [0x51, 0x21], // 5XY1 is not a skip
        [0x91, 0x27],
        [0x81, 0x28], // no such arithmetic op
        [0xE1, 0x00],
        [0xF1, 0x99],
    ] {
        let mut m = machine(&code);
        assert_eq!(m.step(), Err(Chip8Error::Decode), "opcode {:02X}{:02X}", code[0], code[1]);
        assert_eq!(m.cpu.pc, 0x200, "a failed cycle must not move the pc");
    }
}

#[test]
fn pc_runs_off_ram_is_bounds_error() {
    let mut m = machine(&[0x1F, 0xFF]);
    run(&mut m, 1);
    assert_eq!(m.cpu.pc, 0xFFF);
    assert_eq!(m.step(), Err(Chip8Error::Bounds));
}
