use chip8rs::Chip8Error;
use chip8rs::ram::Ram;

#[test]
fn ram_starts_zeroed_with_4096_bytes() {
    let r = Ram::new();
    assert_eq!(r.bytes.len(), 4096);
    assert!(r.bytes.iter().all(|b| *b == 0));
}

#[test]
fn load_at_copies_data_in_place() {
    let mut r = Ram::new();
    r.load_at(0x200, &[1, 2, 3]).unwrap();
    assert_eq!(r.bytes[0x1FF], 0);
    assert_eq!(r.bytes[0x200], 1);
    assert_eq!(r.bytes[0x201], 2);
    assert_eq!(r.bytes[0x202], 3);
    assert_eq!(r.bytes[0x203], 0);
}

#[test]
fn load_at_rejects_overrun() {
    let mut r = Ram::new();
    assert_eq!(r.load_at(4094, &[1, 2, 3]), Err(Chip8Error::Bounds));
    // nothing was written
    assert_eq!(r.bytes[4094], 0);
    // the last two bytes are still reachable
    assert_eq!(r.load_at(4094, &[7, 8]), Ok(()));
    assert_eq!(r.bytes[4095], 8);
}

#[test]
fn read_write_are_bounds_checked() {
    let mut r = Ram::new();
    r.write(0xABC, 0x42).unwrap();
    assert_eq!(r.read(0xABC), Ok(0x42));
    assert_eq!(r.write(4096, 1), Err(Chip8Error::Bounds));
    assert_eq!(r.read(4096), Err(Chip8Error::Bounds));
}

#[test]
fn get_sprite_returns_rows_and_checks_bounds() {
    let mut r = Ram::new();
    r.load_at(0x300, &[0xAA, 0xBB, 0xCC]).unwrap();
    let sprite = r.get_sprite(0x300, 3).unwrap();
    assert_eq!(sprite, vec![0xAA, 0xBB, 0xCC]);
    assert_eq!(r.get_sprite(4095, 1).unwrap(), vec![0]);
    assert!(r.get_sprite(4095, 2).is_err());
}

#[test]
fn fetch_opcode_composes_big_endian() {
    let m = chip8rs::Chip8::new(&[0xAB, 0xCD]).unwrap();
    assert_eq!(m.interconnect.fetch_opcode(0x200), Ok(0xABCD));
    assert_eq!(m.interconnect.fetch_opcode(0x201), Ok(0xCD00));
    assert_eq!(m.interconnect.fetch_opcode(4095), Err(Chip8Error::Bounds));
}

#[test]
fn timers_tick_down_and_stop_at_zero() {
    let mut m = chip8rs::Chip8::new(&[]).unwrap();
    m.interconnect.delay_timer = 2;
    m.interconnect.sound_timer = 1;
    m.interconnect.tick();
    assert_eq!(m.interconnect.delay_timer, 1);
    assert_eq!(m.interconnect.sound_timer, 0);
    m.interconnect.tick();
    m.interconnect.tick();
    // ticking an already-zero timer leaves it at zero: no wraparound
    assert_eq!(m.interconnect.delay_timer, 0);
    assert_eq!(m.interconnect.sound_timer, 0);
}
