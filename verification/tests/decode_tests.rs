use chip8rs::cpu::Instr;
use chip8rs::cpu::Registers;
use chip8rs::cpu::decode_opcode;

#[test]
fn decode_covers_every_instruction_form() {
    assert_eq!(decode_opcode(0x00E0), Some(Instr::ClearScreen));
    assert_eq!(decode_opcode(0x00EE), Some(Instr::Return));
    assert_eq!(decode_opcode(0x1ABC), Some(Instr::Jump { addr: 0xABC }));
    assert_eq!(decode_opcode(0x2ABC), Some(Instr::Call { addr: 0xABC }));
    assert_eq!(decode_opcode(0x3142), Some(Instr::SkipEqImm { x: 1, value: 0x42 }));
    assert_eq!(decode_opcode(0x4142), Some(Instr::SkipNeImm { x: 1, value: 0x42 }));
    assert_eq!(decode_opcode(0x5120), Some(Instr::SkipEqReg { x: 1, y: 2 }));
    assert_eq!(decode_opcode(0x6142), Some(Instr::SetImm { x: 1, value: 0x42 }));
    assert_eq!(decode_opcode(0x7142), Some(Instr::AddImm { x: 1, value: 0x42 }));
    assert_eq!(decode_opcode(0x8120), Some(Instr::Move { x: 1, y: 2 }));
    assert_eq!(decode_opcode(0x8121), Some(Instr::Or { x: 1, y: 2 }));
    assert_eq!(decode_opcode(0x8122), Some(Instr::And { x: 1, y: 2 }));
    assert_eq!(decode_opcode(0x8123), Some(Instr::Xor { x: 1, y: 2 }));
    assert_eq!(decode_opcode(0x8124), Some(Instr::Add { x: 1, y: 2 }));
    assert_eq!(decode_opcode(0x8125), Some(Instr::Sub { x: 1, y: 2 }));
    assert_eq!(decode_opcode(0x8126), Some(Instr::ShiftRight { x: 1, y: 2 }));
    assert_eq!(decode_opcode(0x8127), Some(Instr::SubFrom { x: 1, y: 2 }));
    assert_eq!(decode_opcode(0x812E), Some(Instr::ShiftLeft { x: 1, y: 2 }));
    assert_eq!(decode_opcode(0x9120), Some(Instr::SkipNeReg { x: 1, y: 2 }));
    assert_eq!(decode_opcode(0xAABC), Some(Instr::SetIndex { addr: 0xABC }));
    assert_eq!(decode_opcode(0xD125), Some(Instr::Draw { x: 1, y: 2, height: 5 }));
    assert_eq!(decode_opcode(0xE19E), Some(Instr::SkipKeyDown { x: 1 }));
    assert_eq!(decode_opcode(0xE1A1), Some(Instr::SkipKeyUp { x: 1 }));
    assert_eq!(decode_opcode(0xF107), Some(Instr::ReadDelay { x: 1 }));
    assert_eq!(decode_opcode(0xF10A), Some(Instr::WaitKey { x: 1 }));
    assert_eq!(decode_opcode(0xF115), Some(Instr::SetDelay { x: 1 }));
    assert_eq!(decode_opcode(0xF118), Some(Instr::SetSound { x: 1 }));
    assert_eq!(decode_opcode(0xF11E), Some(Instr::AddIndex { x: 1 }));
    assert_eq!(decode_opcode(0xF129), Some(Instr::FontAddr { x: 1 }));
    assert_eq!(decode_opcode(0xF133), Some(Instr::StoreBcd { x: 1 }));
    assert_eq!(decode_opcode(0xF155), Some(Instr::DumpRegs { x: 1 }));
    assert_eq!(decode_opcode(0xF165), Some(Instr::LoadRegs { x: 1 }));
}

#[test]
fn decode_rejects_what_is_not_an_instruction() {
    assert_eq!(decode_opcode(0x0000), None);
    assert_eq!(decode_opcode(0x0123), None, "machine-code calls are not supported");
    assert_eq!(decode_opcode(0x5121), None, "5XY0 requires a zero low nibble");
    assert_eq!(decode_opcode(0x9125), None, "9XY0 requires a zero low nibble");
    assert_eq!(decode_opcode(0x8128), None);
    assert_eq!(decode_opcode(0x812F), None);
    assert_eq!(decode_opcode(0xB123), None);
    assert_eq!(decode_opcode(0xC123), None);
    assert_eq!(decode_opcode(0xE19F), None);
    assert_eq!(decode_opcode(0xF108), None);
    assert_eq!(decode_opcode(0xF156), None);
}

#[test]
fn set_carry_writes_vf_only() {
    let mut regs = Registers::new();
    regs.set_carry(true);
    assert_eq!(regs.v[15], 1);
    assert!(regs.v[..15].iter().all(|r| *r == 0));
    regs.set_carry(false);
    assert_eq!(regs.v[15], 0);
}
