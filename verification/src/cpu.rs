//! The CPU of the CHIP-8 machine.
//!
//! Each cycle fetches a 16-bit opcode at the program counter, decodes it and
//! executes it against the CPU's own registers and stack and against the
//! bus.  The whole cycle is specified by [`cycle_spec`], a transition
//! function over [`MachineView`], and [`Cpu::emulate_cycle`] is proved to
//! implement it exactly.

use vstd::prelude::*;

use crate::Chip8Error;
use crate::gfx::draw_collision;
use crate::gfx::drawn_buf;
use crate::interconnect::Interconnect;
use crate::interconnect::NUM_KEYS;
use crate::interconnect::opcode_at;
use crate::ram::RAM_SIZE;
use crate::ram::ram_loaded;

verus! {

/// Address where program ROMs are loaded and where execution starts.
pub const PROG_ADDR: u16 = 0x200;

/// Address of the built-in font glyph table.
pub const FONT_DATA_ADDR: u16 = 0x50;

/// Number of general-purpose registers.
pub const NUM_REGS: usize = 16;

/// Depth of the call stack.
pub const STACK_DEPTH: usize = 16;

/// The register file: 16 general-purpose 8-bit registers `V0..VF` (`VF`
/// doubles as the carry, borrow and collision flag) and the 16-bit index
/// register `I`.
pub struct Registers {
    pub v: Vec<u8>,
    pub i: u16,
}

impl Registers {
    pub open spec fn wf(self) -> bool {
        self.v@.len() == NUM_REGS
    }

    /// All registers zeroed.
    pub fn new() -> (r: Registers)
        ensures
            r.wf(),
            r.i == 0u16,
            forall|k: int| 0 <= k < NUM_REGS ==> r.v@[k] == 0u8,
    {
        let mut v: Vec<u8> = Vec::new();
        let mut k: usize = 0;
        while k < NUM_REGS
            invariant
                k <= NUM_REGS,
                v@.len() == k,
                forall|j: int| 0 <= j < k ==> v@[j] == 0u8,
            decreases NUM_REGS - k,
        {
            v.push(0u8);
            k = k + 1;
        }
        Registers { v, i: 0 }
    }

    /// Set `VF` to 1 or 0: the single path by which every arithmetic, shift
    /// and draw opcode reports carry, borrow, shifted-out bit or collision.
    pub fn set_carry(&mut self, flag: bool)
        requires
            old(self).wf(),
        ensures
            final(self).wf(),
            final(self).v@ == old(self).v@.update(15, flag_byte(flag)),
            final(self).i == old(self).i,
    {
        let b: u8 = if flag { 1 } else { 0 };
        self.v[15] = b;
    }
}

/// 1 for a raised flag, 0 for a cleared one.
pub open spec fn flag_byte(flag: bool) -> u8 {
    if flag { 1u8 } else { 0u8 }
}

/// The return-address stack: LIFO, at most `STACK_DEPTH` entries.
pub struct Stack {
    pub entries: Vec<u16>,
}

impl Stack {
    pub open spec fn wf(self) -> bool {
        self.entries@.len() <= STACK_DEPTH
    }

    /// An empty stack.
    pub fn new() -> (r: Stack)
        ensures
            r.wf(),
            r.entries@.len() == 0,
    {
        Stack { entries: Vec::new() }
    }

    /// Append a return address; rejected exactly when the stack already
    /// holds `STACK_DEPTH` entries.
    pub fn push(&mut self, v: u16) -> (r: Result<(), Chip8Error>)
        requires
            old(self).wf(),
        ensures
            final(self).wf(),
            match r {
                Ok(()) => old(self).entries@.len() < STACK_DEPTH
                    && final(self).entries@ == old(self).entries@.push(v),
                Err(e) => e == Chip8Error::Bounds
                    && old(self).entries@.len() == STACK_DEPTH
                    && final(self).entries@ == old(self).entries@,
            },
    {
        if self.entries.len() >= STACK_DEPTH {
            Err(Chip8Error::Bounds)
        } else {
            self.entries.push(v);
            Ok(())
        }
    }

    /// Remove and return the most recently pushed address; rejected exactly
    /// when the stack is empty.
    pub fn pop(&mut self) -> (r: Result<u16, Chip8Error>)
        requires
            old(self).wf(),
        ensures
            final(self).wf(),
            match r {
                Ok(v) => old(self).entries@.len() > 0
                    && v == old(self).entries@.last()
                    && final(self).entries@ == old(self).entries@.drop_last(),
                Err(e) => e == Chip8Error::Bounds
                    && old(self).entries@.len() == 0
                    && final(self).entries@ == old(self).entries@,
            },
    {
        match self.entries.pop() {
            Some(v) => Ok(v),
            None => Err(Chip8Error::Bounds),
        }
    }
}

/// A decoded CHIP-8 instruction.  Register selectors are 4-bit, addresses
/// 12-bit; [`decode`] only ever produces values in those ranges.
#[derive(Clone, Copy, Debug, PartialEq, Eq, Structural)]
pub enum Instr {
    /// 00E0: clear the display.
    ClearScreen,
    /// 00EE: return from a subroutine.
    Return,
    /// 1NNN: jump to `addr`.
    Jump { addr: u16 },
    /// 2NNN: call the subroutine at `addr`.
    Call { addr: u16 },
    /// 3XNN: skip the next instruction if `VX == value`.
    SkipEqImm { x: u8, value: u8 },
    /// 4XNN: skip the next instruction if `VX != value`.
    SkipNeImm { x: u8, value: u8 },
    /// 5XY0: skip the next instruction if `VX == VY`.
    SkipEqReg { x: u8, y: u8 },
    /// 6XNN: `VX = value`.
    SetImm { x: u8, value: u8 },
    /// 7XNN: `VX += value`, wrapping, no flag.
    AddImm { x: u8, value: u8 },
    /// 8XY0: `VX = VY`.
    Move { x: u8, y: u8 },
    /// 8XY1: `VX |= VY`.
    Or { x: u8, y: u8 },
    /// 8XY2: `VX &= VY`.
    And { x: u8, y: u8 },
    /// 8XY3: `VX ^= VY`.
    Xor { x: u8, y: u8 },
    /// 8XY4: `VX += VY` wrapping; `VF` = 1 iff the sum overflowed 8 bits.
    Add { x: u8, y: u8 },
    /// 8XY5: `VX -= VY` wrapping; `VF` = 1 iff the subtraction borrowed.
    Sub { x: u8, y: u8 },
    /// 8XY6: `VF` = least significant bit of `VX`; `VX = VY >> 1`.
    ShiftRight { x: u8, y: u8 },
    /// 8XY7: `VX = VY - VX` wrapping; `VF` = 1 iff the subtraction borrowed.
    SubFrom { x: u8, y: u8 },
    /// 8XYE: `VF` = most significant bit of `VX`; `VX = VY << 1`.
    ShiftLeft { x: u8, y: u8 },
    /// 9XY0: skip the next instruction if `VX != VY`.
    SkipNeReg { x: u8, y: u8 },
    /// ANNN: `I = addr`.
    SetIndex { addr: u16 },
    /// DXYN: draw the `height`-row sprite at RAM address `I` at `(VX, VY)`;
    /// `VF` = collision flag.
    Draw { x: u8, y: u8, height: u8 },
    /// EX9E: skip the next instruction if key `VX` is down.
    SkipKeyDown { x: u8 },
    /// EXA1: skip the next instruction if key `VX` is not down.
    SkipKeyUp { x: u8 },
    /// FX07: `VX` = delay timer.
    ReadDelay { x: u8 },
    /// FX0A: block until a key is down; then `VX` = lowest-indexed down key.
    WaitKey { x: u8 },
    /// FX15: delay timer = `VX`.
    SetDelay { x: u8 },
    /// FX18: sound timer = `VX`.
    SetSound { x: u8 },
    /// FX1E: `I += VX`, 16-bit wrapping, no flag.
    AddIndex { x: u8 },
    /// FX29: `I` = address of the font glyph for the value in `VX`.
    FontAddr { x: u8 },
    /// FX33: store the decimal digits of `VX` at `I`, `I+1`, `I+2`.
    StoreBcd { x: u8 },
    /// FX55: copy `V0..=VX` into RAM at `I`; `I` ends at `I + X + 1`.
    DumpRegs { x: u8 },
    /// FX65: load `V0..=VX` from RAM at `I`; `I` ends at `I + X + 1`.
    LoadRegs { x: u8 },
}

/// The `X` field of an opcode: bits 8..12.
pub open spec fn op_x(op: u16) -> u8 {
    ((op >> 8) & 0xF) as u8
}

/// The `Y` field of an opcode: bits 4..8.
pub open spec fn op_y(op: u16) -> u8 {
    ((op >> 4) & 0xF) as u8
}

/// The low nibble of an opcode.
pub open spec fn op_n(op: u16) -> u8 {
    (op & 0xF) as u8
}

/// The low byte of an opcode.
pub open spec fn op_nn(op: u16) -> u8 {
    (op & 0xFF) as u8
}

/// The 12-bit address field of an opcode.
pub open spec fn op_nnn(op: u16) -> u16 {
    op & 0xFFF
}

/// What a 16-bit opcode means, or `None` for anything that is not a CHIP-8
/// instruction (including the RCA 1802 machine-code call 0NNN).
pub open spec fn decode(op: u16) -> Option<Instr> {
    let x = op_x(op);
    let y = op_y(op);
    let n = op_n(op);
    let nn = op_nn(op);
    let nnn = op_nnn(op);
    let group = op >> 12;
    if op == 0x00E0 {
        Some(Instr::ClearScreen)
    } else if op == 0x00EE {
        Some(Instr::Return)
    } else if group == 0x1 {
        Some(Instr::Jump { addr: nnn })
    } else if group == 0x2 {
        Some(Instr::Call { addr: nnn })
    } else if group == 0x3 {
        Some(Instr::SkipEqImm { x, value: nn })
    } else if group == 0x4 {
        Some(Instr::SkipNeImm { x, value: nn })
    } else if group == 0x5 && n == 0 {
        Some(Instr::SkipEqReg { x, y })
    } else if group == 0x6 {
        Some(Instr::SetImm { x, value: nn })
    } else if group == 0x7 {
        Some(Instr::AddImm { x, value: nn })
    } else if group == 0x8 {
        if n == 0x0 {
            Some(Instr::Move { x, y })
        } else if n == 0x1 {
            Some(Instr::Or { x, y })
        } else if n == 0x2 {
            Some(Instr::And { x, y })
        } else if n == 0x3 {
            Some(Instr::Xor { x, y })
        } else if n == 0x4 {
            Some(Instr::Add { x, y })
        } else if n == 0x5 {
            Some(Instr::Sub { x, y })
        } else if n == 0x6 {
            Some(Instr::ShiftRight { x, y })
        } else if n == 0x7 {
            Some(Instr::SubFrom { x, y })
        } else if n == 0xE {
            Some(Instr::ShiftLeft { x, y })
        } else {
            None
        }
    } else if group == 0x9 && n == 0 {
        Some(Instr::SkipNeReg { x, y })
    } else if group == 0xA {
        Some(Instr::SetIndex { addr: nnn })
    } else if group == 0xD {
        Some(Instr::Draw { x, y, height: n })
    } else if group == 0xE && nn == 0x9E {
        Some(Instr::SkipKeyDown { x })
    } else if group == 0xE && nn == 0xA1 {
        Some(Instr::SkipKeyUp { x })
    } else if group == 0xF {
        if nn == 0x07 {
            Some(Instr::ReadDelay { x })
        } else if nn == 0x0A {
            Some(Instr::WaitKey { x })
        } else if nn == 0x15 {
            Some(Instr::SetDelay { x })
        } else if nn == 0x18 {
            Some(Instr::SetSound { x })
        } else if nn == 0x1E {
            Some(Instr::AddIndex { x })
        } else if nn == 0x29 {
            Some(Instr::FontAddr { x })
        } else if nn == 0x33 {
            Some(Instr::StoreBcd { x })
        } else if nn == 0x55 {
            Some(Instr::DumpRegs { x })
        } else if nn == 0x65 {
            Some(Instr::LoadRegs { x })
        } else {
            None
        }
    } else {
        None
    }
}

/// The opcode fields stay inside their ranges: register selectors are below
/// 16 and addresses below 4096.
pub proof fn lemma_op_field_bounds(op: u16)
    by (bit_vector)
    ensures
        op_x(op) < 16,
        op_y(op) < 16,
        op_n(op) < 16,
        op_nnn(op) < 4096,
{
}

/// The ranges decoded instruction fields always lie in.
pub open spec fn instr_fields_ok(instr: Instr) -> bool {
    match instr {
        Instr::ClearScreen => true,
        Instr::Return => true,
        Instr::Jump { addr } => addr < RAM_SIZE,
        Instr::Call { addr } => addr < RAM_SIZE,
        Instr::SkipEqImm { x, value } => x < 16,
        Instr::SkipNeImm { x, value } => x < 16,
        Instr::SkipEqReg { x, y } => x < 16 && y < 16,
        Instr::SetImm { x, value } => x < 16,
        Instr::AddImm { x, value } => x < 16,
        Instr::Move { x, y } => x < 16 && y < 16,
        Instr::Or { x, y } => x < 16 && y < 16,
        Instr::And { x, y } => x < 16 && y < 16,
        Instr::Xor { x, y } => x < 16 && y < 16,
        Instr::Add { x, y } => x < 16 && y < 16,
        Instr::Sub { x, y } => x < 16 && y < 16,
        Instr::ShiftRight { x, y } => x < 16 && y < 16,
        Instr::SubFrom { x, y } => x < 16 && y < 16,
        Instr::ShiftLeft { x, y } => x < 16 && y < 16,
        Instr::SkipNeReg { x, y } => x < 16 && y < 16,
        Instr::SetIndex { addr } => addr < RAM_SIZE,
        Instr::Draw { x, y, height } => x < 16 && y < 16 && height < 16,
        Instr::SkipKeyDown { x } => x < 16,
        Instr::SkipKeyUp { x } => x < 16,
        Instr::ReadDelay { x } => x < 16,
        Instr::WaitKey { x } => x < 16,
        Instr::SetDelay { x } => x < 16,
        Instr::SetSound { x } => x < 16,
        Instr::AddIndex { x } => x < 16,
        Instr::FontAddr { x } => x < 16,
        Instr::StoreBcd { x } => x < 16,
        Instr::DumpRegs { x } => x < 16,
        Instr::LoadRegs { x } => x < 16,
    }
}

/// Whatever `decode` produces has its fields in range.
pub proof fn lemma_decode_fields(op: u16)
    ensures
        decode(op) is Some ==> instr_fields_ok(decode(op)->Some_0),
{
    lemma_op_field_bounds(op);
}

/// Decode an opcode.
pub fn decode_opcode(op: u16) -> (r: Option<Instr>)
    ensures
        r == decode(op),
{
    let x = ((op >> 8) & 0xF) as u8;
    let y = ((op >> 4) & 0xF) as u8;
    let n = (op & 0xF) as u8;
    let nn = (op & 0xFF) as u8;
    let nnn = op & 0xFFF;
    let group = op >> 12;
    if op == 0x00E0 {
        Some(Instr::ClearScreen)
    } else if op == 0x00EE {
        Some(Instr::Return)
    } else if group == 0x1 {
        Some(Instr::Jump { addr: nnn })
    } else if group == 0x2 {
        Some(Instr::Call { addr: nnn })
    } else if group == 0x3 {
        Some(Instr::SkipEqImm { x, value: nn })
    } else if group == 0x4 {
        Some(Instr::SkipNeImm { x, value: nn })
    } else if group == 0x5 && n == 0 {
        Some(Instr::SkipEqReg { x, y })
    } else if group == 0x6 {
        Some(Instr::SetImm { x, value: nn })
    } else if group == 0x7 {
        Some(Instr::AddImm { x, value: nn })
    } else if group == 0x8 {
        if n == 0x0 {
            Some(Instr::Move { x, y })
        } else if n == 0x1 {
            Some(Instr::Or { x, y })
        } else if n == 0x2 {
            Some(Instr::And { x, y })
        } else if n == 0x3 {
            Some(Instr::Xor { x, y })
        } else if n == 0x4 {
            Some(Instr::Add { x, y })
        } else if n == 0x5 {
            Some(Instr::Sub { x, y })
        } else if n == 0x6 {
            Some(Instr::ShiftRight { x, y })
        } else if n == 0x7 {
            Some(Instr::SubFrom { x, y })
        } else if n == 0xE {
            Some(Instr::ShiftLeft { x, y })
        } else {
            None
        }
    } else if group == 0x9 && n == 0 {
        Some(Instr::SkipNeReg { x, y })
    } else if group == 0xA {
        Some(Instr::SetIndex { addr: nnn })
    } else if group == 0xD {
        Some(Instr::Draw { x, y, height: n })
    } else if group == 0xE && nn == 0x9E {
        Some(Instr::SkipKeyDown { x })
    } else if group == 0xE && nn == 0xA1 {
        Some(Instr::SkipKeyUp { x })
    } else if group == 0xF {
        if nn == 0x07 {
            Some(Instr::ReadDelay { x })
        } else if nn == 0x0A {
            Some(Instr::WaitKey { x })
        } else if nn == 0x15 {
            Some(Instr::SetDelay { x })
        } else if nn == 0x18 {
            Some(Instr::SetSound { x })
        } else if nn == 0x1E {
            Some(Instr::AddIndex { x })
        } else if nn == 0x29 {
            Some(Instr::FontAddr { x })
        } else if nn == 0x33 {
            Some(Instr::StoreBcd { x })
        } else if nn == 0x55 {
            Some(Instr::DumpRegs { x })
        } else if nn == 0x65 {
            Some(Instr::LoadRegs { x })
        } else {
            None
        }
    } else {
        None
    }
}

/// The whole machine state as one mathematical value: the CPU's own
/// registers and stack together with everything it reaches over the bus.
#[verifier::ext_equal]
pub struct MachineView {
    pub pc: u16,
    pub regs: Seq<u8>,
    pub index: u16,
    pub stack: Seq<u16>,
    pub ram: Seq<u8>,
    pub gfx: Seq<u8>,
    pub dirty: bool,
    pub delay: u8,
    pub sound: u8,
    pub keys: Seq<bool>,
}

/// The state a CPU and a bus stand for.
pub open spec fn machine_view(cpu: Cpu, ic: Interconnect) -> MachineView {
    MachineView {
        pc: cpu.pc,
        regs: cpu.regs.v@,
        index: cpu.regs.i,
        stack: cpu.stack.entries@,
        ram: ic.ram.bytes@,
        gfx: ic.gfx.buf@,
        dirty: ic.gfx.dirty,
        delay: ic.delay_timer,
        sound: ic.sound_timer,
        keys: ic.keys@,
    }
}

/// Dimensions every reachable machine state has.
pub open spec fn view_wf(s: MachineView) -> bool {
    &&& s.regs.len() == NUM_REGS
    &&& s.stack.len() <= STACK_DEPTH
    &&& s.ram.len() == RAM_SIZE
    &&& s.gfx.len() == crate::gfx::GFX_SIZE
    &&& s.keys.len() == NUM_KEYS
}

/// 8-bit addition, wrapping modulo 256.
pub open spec fn wrap_add8(a: u8, b: u8) -> u8 {
    ((a + b) % 256) as u8
}

/// 8-bit subtraction, wrapping modulo 256.
pub open spec fn wrap_sub8(a: u8, b: u8) -> u8 {
    ((a - b) % 256) as u8
}

/// 16-bit addition, wrapping modulo 2^16.
pub open spec fn wrap_add16(a: u16, b: u16) -> u16 {
    ((a + b) % 0x10000) as u16
}

/// The lowest-indexed key at or after `k` that is down, if any.
pub open spec fn first_down_from(keys: Seq<bool>, k: int) -> Option<int>
    decreases keys.len() - k when 0 <= k <= keys.len()
{
    if k >= keys.len() {
        None
    } else if keys[k] {
        Some(k)
    } else {
        first_down_from(keys, k + 1)
    }
}

/// What executing one decoded instruction does to the machine, or which
/// error stops it.  Meaningful when `view_wf(s)` holds, the instruction came
/// out of [`decode`], and `s.pc + 1 < RAM_SIZE` (so the advanced program
/// counter stays a `u16`).
pub open spec fn apply_instr(s: MachineView, instr: Instr) -> Result<MachineView, Chip8Error> {
    let pc2 = (s.pc + 2) as u16;
    let pc4 = (s.pc + 4) as u16;
    match instr {
        Instr::ClearScreen => Ok(MachineView {
            pc: pc2,
            gfx: Seq::new(s.gfx.len(), |j: int| 0u8),
            dirty: true,
            ..s
        }),
        Instr::Return => if s.stack.len() == 0 {
            Err(Chip8Error::Bounds)
        } else {
            Ok(MachineView {
                pc: wrap_add16(s.stack.last(), 2),
                stack: s.stack.drop_last(),
                ..s
            })
        },
        Instr::Jump { addr } => Ok(MachineView { pc: addr, ..s }),
        Instr::Call { addr } => if s.stack.len() >= STACK_DEPTH {
            Err(Chip8Error::Bounds)
        } else {
            Ok(MachineView { pc: addr, stack: s.stack.push(s.pc), ..s })
        },
        Instr::SkipEqImm { x, value } => Ok(MachineView {
            pc: if s.regs[x as int] == value { pc4 } else { pc2 },
            ..s
        }),
        Instr::SkipNeImm { x, value } => Ok(MachineView {
            pc: if s.regs[x as int] != value { pc4 } else { pc2 },
            ..s
        }),
        Instr::SkipEqReg { x, y } => Ok(MachineView {
            pc: if s.regs[x as int] == s.regs[y as int] { pc4 } else { pc2 },
            ..s
        }),
        Instr::SetImm { x, value } => Ok(MachineView {
            pc: pc2,
            regs: s.regs.update(x as int, value),
            ..s
        }),
        Instr::AddImm { x, value } => Ok(MachineView {
            pc: pc2,
            regs: s.regs.update(x as int, wrap_add8(s.regs[x as int], value)),
            ..s
        }),
        Instr::Move { x, y } => Ok(MachineView {
            pc: pc2,
            regs: s.regs.update(x as int, s.regs[y as int]),
            ..s
        }),
        Instr::Or { x, y } => Ok(MachineView {
            pc: pc2,
            regs: s.regs.update(x as int, s.regs[x as int] | s.regs[y as int]),
            ..s
        }),
        Instr::And { x, y } => Ok(MachineView {
            pc: pc2,
            regs: s.regs.update(x as int, s.regs[x as int] & s.regs[y as int]),
            ..s
        }),
        Instr::Xor { x, y } => Ok(MachineView {
            pc: pc2,
            regs: s.regs.update(x as int, s.regs[x as int] ^ s.regs[y as int]),
            ..s
        }),
        Instr::Add { x, y } => Ok(MachineView {
            pc: pc2,
            regs: s.regs
                .update(x as int, wrap_add8(s.regs[x as int], s.regs[y as int]))
                .update(15, flag_byte(s.regs[x as int] + s.regs[y as int] > 255)),
            ..s
        }),
        Instr::Sub { x, y } => Ok(MachineView {
            pc: pc2,
            regs: s.regs
                .update(x as int, wrap_sub8(s.regs[x as int], s.regs[y as int]))
                .update(15, flag_byte(s.regs[x as int] < s.regs[y as int])),
            ..s
        }),
        Instr::ShiftRight { x, y } => Ok(MachineView {
            pc: pc2,
            regs: s.regs
                .update(x as int, s.regs[y as int] >> 1u8)
                .update(15, flag_byte(s.regs[x as int] & 1 == 1)),
            ..s
        }),
        Instr::SubFrom { x, y } => Ok(MachineView {
            pc: pc2,
            regs: s.regs
                .update(x as int, wrap_sub8(s.regs[y as int], s.regs[x as int]))
                .update(15, flag_byte(s.regs[y as int] < s.regs[x as int])),
            ..s
        }),
        Instr::ShiftLeft { x, y } => Ok(MachineView {
            pc: pc2,
            regs: s.regs
                .update(x as int, s.regs[y as int] << 1u8)
                .update(15, flag_byte(s.regs[x as int] & 0x80 != 0)),
            ..s
        }),
        Instr::SkipNeReg { x, y } => Ok(MachineView {
            pc: if s.regs[x as int] != s.regs[y as int] { pc4 } else { pc2 },
            ..s
        }),
        Instr::SetIndex { addr } => Ok(MachineView { pc: pc2, index: addr, ..s }),
        Instr::Draw { x, y, height } => if s.index + height > RAM_SIZE {
            Err(Chip8Error::Bounds)
        } else {
            let sprite = s.ram.subrange(s.index as int, s.index + height);
            let x0 = (s.regs[x as int] % 64) as int;
            let y0 = (s.regs[y as int] % 32) as int;
            Ok(MachineView {
                pc: pc2,
                regs: s.regs.update(15, flag_byte(draw_collision(s.gfx, x0, y0, sprite))),
                gfx: drawn_buf(s.gfx, x0, y0, sprite),
                dirty: true,
                ..s
            })
        },
        Instr::SkipKeyDown { x } => if s.regs[x as int] >= NUM_KEYS {
            Err(Chip8Error::Bounds)
        } else {
            Ok(MachineView {
                pc: if s.keys[s.regs[x as int] as int] { pc4 } else { pc2 },
                ..s
            })
        },
        Instr::SkipKeyUp { x } => if s.regs[x as int] >= NUM_KEYS {
            Err(Chip8Error::Bounds)
        } else {
            Ok(MachineView {
                pc: if !s.keys[s.regs[x as int] as int] { pc4 } else { pc2 },
                ..s
            })
        },
        Instr::ReadDelay { x } => Ok(MachineView {
            pc: pc2,
            regs: s.regs.update(x as int, s.delay),
            ..s
        }),
        Instr::WaitKey { x } => match first_down_from(s.keys, 0) {
            Some(k) => Ok(MachineView {
                pc: pc2,
                regs: s.regs.update(x as int, k as u8),
                ..s
            }),
            None => Ok(s),
        },
        Instr::SetDelay { x } => Ok(MachineView { pc: pc2, delay: s.regs[x as int], ..s }),
        Instr::SetSound { x } => Ok(MachineView { pc: pc2, sound: s.regs[x as int], ..s }),
        Instr::AddIndex { x } => Ok(MachineView {
            pc: pc2,
            index: wrap_add16(s.index, s.regs[x as int] as u16),
            ..s
        }),
        Instr::FontAddr { x } => Ok(MachineView {
            pc: pc2,
            index: (FONT_DATA_ADDR + s.regs[x as int] * 5) as u16,
            ..s
        }),
        Instr::StoreBcd { x } => if s.index + 2 >= RAM_SIZE {
            Err(Chip8Error::Bounds)
        } else {
            let v = s.regs[x as int];
            Ok(MachineView {
                pc: pc2,
                ram: s.ram
                    .update(s.index as int, ((v as int) / 100) as u8)
                    .update(s.index + 1, (((v as int) / 10) % 10) as u8)
                    .update(s.index + 2, ((v as int) % 10) as u8),
                ..s
            })
        },
        Instr::DumpRegs { x } => if s.index + x + 1 > RAM_SIZE {
            Err(Chip8Error::Bounds)
        } else {
            Ok(MachineView {
                pc: pc2,
                index: (s.index + x + 1) as u16,
                ram: ram_loaded(s.ram, s.index as int, s.regs.take(x + 1)),
                ..s
            })
        },
        Instr::LoadRegs { x } => if s.index + x + 1 > RAM_SIZE {
            Err(Chip8Error::Bounds)
        } else {
            Ok(MachineView {
                pc: pc2,
                index: (s.index + x + 1) as u16,
                regs: Seq::new(s.regs.len(), |k: int| if 0 <= k <= x {
                    s.ram[s.index + k]
                } else {
                    s.regs[k]
                }),
                ..s
            })
        },
    }
}

/// The CPU: the program counter, the register file and the call stack.
pub struct Cpu {
    pub pc: u16,
    pub regs: Registers,
    pub stack: Stack,
}

impl Cpu {
    pub open spec fn wf(self) -> bool {
        &&& self.regs.wf()
        &&& self.stack.wf()
    }

    /// A CPU about to execute its first instruction at `PROG_ADDR`, with all
    /// registers zeroed and an empty stack.
    pub fn new() -> (r: Cpu)
        ensures
            r.wf(),
            r.pc == PROG_ADDR,
            r.regs.i == 0u16,
            forall|k: int| 0 <= k < NUM_REGS ==> r.regs.v@[k] == 0u8,
            r.stack.entries@.len() == 0,
    {
        Cpu { pc: PROG_ADDR, regs: Registers::new(), stack: Stack::new() }
    }
}

/// One whole CPU cycle: fetch the opcode at the program counter, decode it
/// and execute it.  `Err` tells which fault stopped the machine; the state
/// is then unchanged.
pub open spec fn cycle_spec(s: MachineView) -> Result<MachineView, Chip8Error> {
    if s.pc + 1 >= RAM_SIZE {
        Err(Chip8Error::Bounds)
    } else {
        match decode(opcode_at(s.ram, s.pc as int)) {
            Some(instr) => apply_instr(s, instr),
            None => Err(Chip8Error::Decode),
        }
    }
}

/// Pushing a return address and then popping gives the same address back
/// and leaves the stack as it was, whenever the push is accepted at all:
/// the round trip stated over the stack's model, which `Stack::push` and
/// `Stack::pop` are specified against.
pub proof fn lemma_stack_round_trip(st: Seq<u16>, v: u16)
    requires
        st.len() < STACK_DEPTH,
    ensures
        st.push(v).last() == v,
        st.push(v).drop_last() == st,
{
    assert(st.push(v).drop_last() =~= st);
}

/// After one successful cycle the program counter is exactly the old one
/// plus 2, the old one plus 4 (a taken skip), the explicit target of a jump,
/// call or return, or — only for a blocked key-wait — unchanged.  Nothing
/// else can come out.
pub proof fn lemma_pc_after_cycle(s: MachineView)
    requires
        view_wf(s),
        cycle_spec(s) is Ok,
    ensures
        ({
            let s2 = cycle_spec(s)->Ok_0;
            match decode(opcode_at(s.ram, s.pc as int)) {
                Some(Instr::Jump { addr }) => s2.pc == addr,
                Some(Instr::Call { addr }) => s2.pc == addr,
                Some(Instr::Return) => s2.pc == wrap_add16(s.stack.last(), 2),
                Some(Instr::WaitKey { x }) => s2.pc == s.pc + 2 || s2.pc == s.pc,
                Some(i) => s2.pc == s.pc + 2 || s2.pc == s.pc + 4,
                None => false,
            }
        }),
{
}

/// No key is down below `k`, so the scan from `k` finds nothing.
proof fn lemma_first_down_none(keys: Seq<bool>, k: int)
    requires
        0 <= k <= keys.len(),
        forall|j: int| k <= j < keys.len() ==> !keys[j],
    ensures
        first_down_from(keys, k) is None,
    decreases keys.len() - k,
{
    if k < keys.len() {
        lemma_first_down_none(keys, k + 1);
    }
}

/// Some key at or after `k` is down, so the scan from `k` finds the lowest
/// such key.
proof fn lemma_first_down_some(keys: Seq<bool>, k: int)
    requires
        0 <= k <= keys.len(),
        exists|j: int| k <= j < keys.len() && keys[j],
    ensures
        match first_down_from(keys, k) {
            Some(m) => k <= m < keys.len() && keys[m]
                && forall|j: int| k <= j < m ==> !keys[j],
            None => false,
        },
    decreases keys.len() - k,
{
    if k < keys.len() && !keys[k] {
        lemma_first_down_some(keys, k + 1);
    }
}

/// A key-wait with no key down changes nothing at all: the program counter
/// stays put and the very same instruction re-executes next cycle.
pub proof fn lemma_key_wait_blocks(s: MachineView)
    requires
        view_wf(s),
        s.pc + 1 < RAM_SIZE,
        decode(opcode_at(s.ram, s.pc as int)) is Some,
        decode(opcode_at(s.ram, s.pc as int))->Some_0 is WaitKey,
        forall|k: int| 0 <= k < s.keys.len() ==> !s.keys[k],
    ensures
        cycle_spec(s) == Ok::<MachineView, Chip8Error>(s),
{
    lemma_first_down_none(s.keys, 0);
}

/// A key-wait with some key down advances the program counter by exactly 2
/// and stores the lowest-indexed down key in `VX`.
pub proof fn lemma_key_wait_releases(s: MachineView, x: u8)
    requires
        view_wf(s),
        s.pc + 1 < RAM_SIZE,
        decode(opcode_at(s.ram, s.pc as int)) == Some(Instr::WaitKey { x }),
        exists|k: int| 0 <= k < s.keys.len() && s.keys[k],
    ensures
        cycle_spec(s) is Ok,
        ({
            let s2 = cycle_spec(s)->Ok_0;
            let key = s2.regs[x as int];
            &&& s2.pc == s.pc + 2
            &&& s2.regs == s.regs.update(x as int, key)
            &&& 0 <= key < s.keys.len()
            &&& s.keys[key as int]
            &&& forall|j: int| 0 <= j < key ==> !s.keys[j]
        }),
{
    lemma_decode_fields(opcode_at(s.ram, s.pc as int));
    lemma_first_down_some(s.keys, 0);
}

/// 7XNN adds modulo 256 instead of trapping: the register ends up holding
/// the arithmetic sum reduced mod 256, for every starting value.
pub proof fn lemma_add_imm_wraps(s: MachineView, x: u8, value: u8)
    requires
        view_wf(s),
        x < 16,
    ensures
        apply_instr(s, Instr::AddImm { x, value }) is Ok,
        apply_instr(s, Instr::AddImm { x, value })->Ok_0.regs[x as int]
            == (s.regs[x as int] + value) % 256,
{
}

/// 8XY4 adds modulo 256 instead of trapping, and reports the overflow in
/// `VF`: 1 exactly when the arithmetic sum exceeds 255.
pub proof fn lemma_add_reg_wraps(s: MachineView, x: u8, y: u8)
    requires
        view_wf(s),
        x < 16,
        y < 16,
    ensures
        apply_instr(s, Instr::Add { x, y }) is Ok,
        ({
            let regs2 = apply_instr(s, Instr::Add { x, y })->Ok_0.regs;
            &&& x != 15 ==> regs2[x as int] == (s.regs[x as int] + s.regs[y as int]) % 256
            &&& regs2[15] == flag_byte(s.regs[x as int] + s.regs[y as int] > 255)
        }),
{
}

/// `u8::wrapping_add` is addition modulo 256.
proof fn lemma_wrap_add8(a: u8, b: u8)
    ensures
        vstd::wrapping::u8_specs::wrapping_add(a, b) == wrap_add8(a, b),
{
}

/// `u8::wrapping_sub` is subtraction modulo 256.
proof fn lemma_wrap_sub8(a: u8, b: u8)
    ensures
        vstd::wrapping::u8_specs::wrapping_sub(a, b) == wrap_sub8(a, b),
{
}

/// `u16::wrapping_add` is addition modulo 2^16.
proof fn lemma_wrap_add16(a: u16, b: u16)
    ensures
        vstd::wrapping::u16_specs::wrapping_add(a, b) == wrap_add16(a, b),
{
}

impl Cpu {
    /// Run one fetch-decode-execute cycle against the bus: exactly the
    /// transition [`cycle_spec`] describes.  On an error the machine is left
    /// unchanged and the driver is expected to halt it.
    #[verifier::rlimit(100)]
    pub fn emulate_cycle(&mut self, ic: &mut Interconnect) -> (r: Result<(), Chip8Error>)
        requires
            old(self).wf(),
            old(ic).wf(),
        ensures
            final(self).wf(),
            final(ic).wf(),
            match r {
                Ok(()) => cycle_spec(machine_view(*old(self), *old(ic)))
                    == Ok::<MachineView, Chip8Error>(machine_view(*final(self), *final(ic))),
                Err(e) => cycle_spec(machine_view(*old(self), *old(ic)))
                    == Err::<MachineView, Chip8Error>(e)
                    && machine_view(*final(self), *final(ic))
                        == machine_view(*old(self), *old(ic)),
            },
    {
        let ghost s0 = machine_view(*old(self), *old(ic));

        let opcode = match ic.fetch_opcode(self.pc) {
            Ok(op) => op,
            Err(e) => {
                proof {
                    assert(machine_view(*self, *ic) =~= s0);
                }
                return Err(e);
            },
        };
        let instr = match decode_opcode(opcode) {
            Some(i) => i,
            None => {
                proof {
                    assert(machine_view(*self, *ic) =~= s0);
                }
                return Err(Chip8Error::Decode);
            },
        };
        proof {
            lemma_decode_fields(opcode);
        }

        match instr {
            Instr::ClearScreen => {
                ic.gfx.clear();
                self.pc = self.pc + 2;
                proof {
                    assert(apply_instr(s0, instr)->Ok_0 =~= machine_view(*self, *ic));
                }
                Ok(())
            },
            Instr::Return => {
                let addr = match self.stack.pop() {
                    Ok(a) => a,
                    Err(e) => {
                        proof {
                            assert(machine_view(*self, *ic) =~= s0);
                        }
                        return Err(e);
                    },
                };
                self.pc = addr.wrapping_add(2);
                proof {
                    lemma_wrap_add16(addr, 2);
                    assert(apply_instr(s0, instr)->Ok_0 =~= machine_view(*self, *ic));
                }
                Ok(())
            },
            Instr::Jump { addr } => {
                self.pc = addr;
                proof {
                    assert(apply_instr(s0, instr)->Ok_0 =~= machine_view(*self, *ic));
                }
                Ok(())
            },
            Instr::Call { addr } => {
                match self.stack.push(self.pc) {
                    Ok(()) => {},
                    Err(e) => {
                        proof {
                            assert(machine_view(*self, *ic) =~= s0);
                        }
                        return Err(e);
                    },
                }
                self.pc = addr;
                proof {
                    assert(apply_instr(s0, instr)->Ok_0 =~= machine_view(*self, *ic));
                }
                Ok(())
            },
            Instr::SkipEqImm { x, value } => {
                if self.regs.v[x as usize] == value {
                    self.pc = self.pc + 4;
                } else {
                    self.pc = self.pc + 2;
                }
                proof {
                    assert(apply_instr(s0, instr)->Ok_0 =~= machine_view(*self, *ic));
                }
                Ok(())
            },
            Instr::SkipNeImm { x, value } => {
                if self.regs.v[x as usize] != value {
                    self.pc = self.pc + 4;
                } else {
                    self.pc = self.pc + 2;
                }
                proof {
                    assert(apply_instr(s0, instr)->Ok_0 =~= machine_view(*self, *ic));
                }
                Ok(())
            },
            Instr::SkipEqReg { x, y } => {
                if self.regs.v[x as usize] == self.regs.v[y as usize] {
                    self.pc = self.pc + 4;
                } else {
                    self.pc = self.pc + 2;
                }
                proof {
                    assert(apply_instr(s0, instr)->Ok_0 =~= machine_view(*self, *ic));
                }
                Ok(())
            },
            Instr::SetImm { x, value } => {
                self.regs.v[x as usize] = value;
                self.pc = self.pc + 2;
                proof {
                    assert(apply_instr(s0, instr)->Ok_0 =~= machine_view(*self, *ic));
                }
                Ok(())
            },
            Instr::AddImm { x, value } => {
                let vx = self.regs.v[x as usize];
                self.regs.v[x as usize] = vx.wrapping_add(value);
                self.pc = self.pc + 2;
                proof {
                    lemma_wrap_add8(vx, value);
                    assert(apply_instr(s0, instr)->Ok_0 =~= machine_view(*self, *ic));
                }
                Ok(())
            },
            Instr::Move { x, y } => {
                self.regs.v[x as usize] = self.regs.v[y as usize];
                self.pc = self.pc + 2;
                proof {
                    assert(apply_instr(s0, instr)->Ok_0 =~= machine_view(*self, *ic));
                }
                Ok(())
            },
            Instr::Or { x, y } => {
                self.regs.v[x as usize] = self.regs.v[x as usize] | self.regs.v[y as usize];
                self.pc = self.pc + 2;
                proof {
                    assert(apply_instr(s0, instr)->Ok_0 =~= machine_view(*self, *ic));
                }
                Ok(())
            },
            Instr::And { x, y } => {
                self.regs.v[x as usize] = self.regs.v[x as usize] & self.regs.v[y as usize];
                self.pc = self.pc + 2;
                proof {
                    assert(apply_instr(s0, instr)->Ok_0 =~= machine_view(*self, *ic));
                }
                Ok(())
            },
            Instr::Xor { x, y } => {
                self.regs.v[x as usize] = self.regs.v[x as usize] ^ self.regs.v[y as usize];
                self.pc = self.pc + 2;
                proof {
                    assert(apply_instr(s0, instr)->Ok_0 =~= machine_view(*self, *ic));
                }
                Ok(())
            },
            Instr::Add { x, y } => {
                let vx = self.regs.v[x as usize];
                let vy = self.regs.v[y as usize];
                let carry = (vx as u16) + (vy as u16) > 255;
                self.regs.v[x as usize] = vx.wrapping_add(vy);
                self.regs.set_carry(carry);
                self.pc = self.pc + 2;
                proof {
                    lemma_wrap_add8(vx, vy);
                    assert(apply_instr(s0, instr)->Ok_0 =~= machine_view(*self, *ic));
                }
                Ok(())
            },
            Instr::Sub { x, y } => {
                let vx = self.regs.v[x as usize];
                let vy = self.regs.v[y as usize];
                let borrow = vx < vy;
                self.regs.v[x as usize] = vx.wrapping_sub(vy);
                self.regs.set_carry(borrow);
                self.pc = self.pc + 2;
                proof {
                    lemma_wrap_sub8(vx, vy);
                    assert(apply_instr(s0, instr)->Ok_0 =~= machine_view(*self, *ic));
                }
                Ok(())
            },
            Instr::ShiftRight { x, y } => {
                let lsb = self.regs.v[x as usize] & 1;
                self.regs.v[x as usize] = self.regs.v[y as usize] >> 1u8;
                self.regs.set_carry(lsb == 1);
                self.pc = self.pc + 2;
                proof {
                    assert(apply_instr(s0, instr)->Ok_0 =~= machine_view(*self, *ic));
                }
                Ok(())
            },
            Instr::SubFrom { x, y } => {
                let vx = self.regs.v[x as usize];
                let vy = self.regs.v[y as usize];
                let borrow = vy < vx;
                self.regs.v[x as usize] = vy.wrapping_sub(vx);
                self.regs.set_carry(borrow);
                self.pc = self.pc + 2;
                proof {
                    lemma_wrap_sub8(vy, vx);
                    assert(apply_instr(s0, instr)->Ok_0 =~= machine_view(*self, *ic));
                }
                Ok(())
            },
            Instr::ShiftLeft { x, y } => {
                let msb = self.regs.v[x as usize] & 0x80;
                self.regs.v[x as usize] = self.regs.v[y as usize] << 1u8;
                self.regs.set_carry(msb != 0);
                self.pc = self.pc + 2;
                proof {
                    assert(apply_instr(s0, instr)->Ok_0 =~= machine_view(*self, *ic));
                }
                Ok(())
            },
            Instr::SkipNeReg { x, y } => {
                if self.regs.v[x as usize] != self.regs.v[y as usize] {
                    self.pc = self.pc + 4;
                } else {
                    self.pc = self.pc + 2;
                }
                proof {
                    assert(apply_instr(s0, instr)->Ok_0 =~= machine_view(*self, *ic));
                }
                Ok(())
            },
            Instr::SetIndex { addr } => {
                self.regs.i = addr;
                self.pc = self.pc + 2;
                proof {
                    assert(apply_instr(s0, instr)->Ok_0 =~= machine_view(*self, *ic));
                }
                Ok(())
            },
            Instr::Draw { x, y, height } => {
                let vx = self.regs.v[x as usize];
                let vy = self.regs.v[y as usize];
                let collision = match ic.draw_sprite(self.regs.i, vx, vy, height) {
                    Ok(c) => c,
                    Err(e) => {
                        proof {
                            assert(machine_view(*self, *ic) =~= s0);
                        }
                        return Err(e);
                    },
                };
                self.regs.set_carry(collision);
                self.pc = self.pc + 2;
                proof {
                    assert(apply_instr(s0, instr)->Ok_0 =~= machine_view(*self, *ic));
                }
                Ok(())
            },
            Instr::SkipKeyDown { x } => {
                let key = self.regs.v[x as usize];
                if key as usize >= NUM_KEYS {
                    proof {
                        assert(machine_view(*self, *ic) =~= s0);
                    }
                    return Err(Chip8Error::Bounds);
                }
                if ic.keys[key as usize] {
                    self.pc = self.pc + 4;
                } else {
                    self.pc = self.pc + 2;
                }
                proof {
                    assert(apply_instr(s0, instr)->Ok_0 =~= machine_view(*self, *ic));
                }
                Ok(())
            },
            Instr::SkipKeyUp { x } => {
                let key = self.regs.v[x as usize];
                if key as usize >= NUM_KEYS {
                    proof {
                        assert(machine_view(*self, *ic) =~= s0);
                    }
                    return Err(Chip8Error::Bounds);
                }
                if !ic.keys[key as usize] {
                    self.pc = self.pc + 4;
                } else {
                    self.pc = self.pc + 2;
                }
                proof {
                    assert(apply_instr(s0, instr)->Ok_0 =~= machine_view(*self, *ic));
                }
                Ok(())
            },
            Instr::ReadDelay { x } => {
                self.regs.v[x as usize] = ic.delay_timer;
                self.pc = self.pc + 2;
                proof {
                    assert(apply_instr(s0, instr)->Ok_0 =~= machine_view(*self, *ic));
                }
                Ok(())
            },
            Instr::WaitKey { x } => {
                let mut hit: Option<u8> = None;
                let mut k: usize = 0;
                while k < NUM_KEYS
                    invariant
                        k <= NUM_KEYS,
                        ic.keys@.len() == NUM_KEYS,
                        match hit {
                            Some(h) => first_down_from(ic.keys@, 0) == Some(h as int),
                            None => first_down_from(ic.keys@, 0)
                                == first_down_from(ic.keys@, k as int),
                        },
                    decreases NUM_KEYS - k,
                {
                    if hit.is_none() && ic.keys[k] {
                        hit = Some(k as u8);
                    }
                    k = k + 1;
                }
                match hit {
                    Some(h) => {
                        self.regs.v[x as usize] = h;
                        self.pc = self.pc + 2;
                    },
                    None => {},
                }
                proof {
                    assert(apply_instr(s0, instr)->Ok_0 =~= machine_view(*self, *ic));
                }
                Ok(())
            },
            Instr::SetDelay { x } => {
                ic.delay_timer = self.regs.v[x as usize];
                self.pc = self.pc + 2;
                proof {
                    assert(apply_instr(s0, instr)->Ok_0 =~= machine_view(*self, *ic));
                }
                Ok(())
            },
            Instr::SetSound { x } => {
                ic.sound_timer = self.regs.v[x as usize];
                self.pc = self.pc + 2;
                proof {
                    assert(apply_instr(s0, instr)->Ok_0 =~= machine_view(*self, *ic));
                }
                Ok(())
            },
            Instr::AddIndex { x } => {
                let vx = self.regs.v[x as usize];
                self.regs.i = self.regs.i.wrapping_add(vx as u16);
                self.pc = self.pc + 2;
                proof {
                    lemma_wrap_add16(old(self).regs.i, vx as u16);
                    assert(apply_instr(s0, instr)->Ok_0 =~= machine_view(*self, *ic));
                }
                Ok(())
            },
            Instr::FontAddr { x } => {
                let vx = self.regs.v[x as usize];
                self.regs.i = FONT_DATA_ADDR + (vx as u16) * 5;
                self.pc = self.pc + 2;
                proof {
                    assert(apply_instr(s0, instr)->Ok_0 =~= machine_view(*self, *ic));
                }
                Ok(())
            },
            Instr::StoreBcd { x } => {
                let i0 = self.regs.i;
                if i0 as usize + 2 >= RAM_SIZE {
                    proof {
                        assert(machine_view(*self, *ic) =~= s0);
                    }
                    return Err(Chip8Error::Bounds);
                }
                let v = self.regs.v[x as usize];
                ic.ram.bytes[i0 as usize] = v / 100;
                ic.ram.bytes[i0 as usize + 1] = (v / 10) % 10;
                ic.ram.bytes[i0 as usize + 2] = v % 10;
                self.pc = self.pc + 2;
                proof {
                    assert(apply_instr(s0, instr)->Ok_0 =~= machine_view(*self, *ic));
                }
                Ok(())
            },
            Instr::DumpRegs { x } => {
                let i0 = self.regs.i;
                if i0 as usize + x as usize + 1 > RAM_SIZE {
                    proof {
                        assert(machine_view(*self, *ic) =~= s0);
                    }
                    return Err(Chip8Error::Bounds);
                }
                self.pc = self.pc + 2;
                let mut k: usize = 0;
                while k < x as usize + 1
                    invariant
                        k <= x as usize + 1,
                        x < 16,
                        i0 + x + 1 <= RAM_SIZE,
                        self.regs.wf(),
                        ic.ram.bytes@.len() == RAM_SIZE,
                        self.regs == old(self).regs,
                        self.regs.i == i0,
                        self.pc == old(self).pc + 2,
                        self.stack == old(self).stack,
                        ic.gfx == old(ic).gfx,
                        ic.delay_timer == old(ic).delay_timer,
                        ic.sound_timer == old(ic).sound_timer,
                        ic.keys == old(ic).keys,
                        ic.ram.bytes@ =~= ram_loaded(
                            old(ic).ram.bytes@, i0 as int, self.regs.v@.take(k as int)),
                    decreases x as usize + 1 - k,
                {
                    ic.ram.bytes[i0 as usize + k] = self.regs.v[k];
                    proof {
                        assert(ic.ram.bytes@ =~= ram_loaded(
                            old(ic).ram.bytes@, i0 as int, self.regs.v@.take(k + 1)));
                    }
                    k = k + 1;
                }
                self.regs.i = i0 + x as u16 + 1;
                proof {
                    assert(apply_instr(s0, instr)->Ok_0 =~= machine_view(*self, *ic));
                }
                Ok(())
            },
            Instr::LoadRegs { x } => {
                let i0 = self.regs.i;
                if i0 as usize + x as usize + 1 > RAM_SIZE {
                    proof {
                        assert(machine_view(*self, *ic) =~= s0);
                    }
                    return Err(Chip8Error::Bounds);
                }
                self.pc = self.pc + 2;
                let mut k: usize = 0;
                while k < x as usize + 1
                    invariant
                        k <= x as usize + 1,
                        x < 16,
                        i0 + x + 1 <= RAM_SIZE,
                        self.regs.wf(),
                        ic.ram.bytes@.len() == RAM_SIZE,
                        self.regs.i == i0,
                        self.pc == old(self).pc + 2,
                        self.stack == old(self).stack,
                        *ic == *old(ic),
                        self.regs.v@ =~= Seq::new(NUM_REGS as nat, |j: int| if 0 <= j < k {
                            old(ic).ram.bytes@[i0 + j]
                        } else {
                            old(self).regs.v@[j]
                        }),
                    decreases x as usize + 1 - k,
                {
                    self.regs.v[k] = ic.ram.bytes[i0 as usize + k];
                    k = k + 1;
                }
                self.regs.i = i0 + x as u16 + 1;
                proof {
                    assert(apply_instr(s0, instr)->Ok_0 =~= machine_view(*self, *ic));
                }
                Ok(())
            },
        }
    }
}

} // verus!
