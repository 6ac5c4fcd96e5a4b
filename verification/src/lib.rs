//! A verified CHIP-8 machine core.
//!
//! The crate models the classic CHIP-8 virtual machine: a 4096-byte RAM, a
//! 16-register file with a 16-bit index register and program counter, a
//! 16-deep call stack, a 64x32 monochrome XOR display, two countdown timers
//! and a 16-key input pad.  Every instruction's effect on the machine state
//! is stated as a specification-level transition function and the executable
//! cycle is proved to implement it exactly.
//!
//! Window handling, host keyboard mapping and ROM files live outside the
//! library: a driver hands in plain bytes and key states and reads frames
//! back out.

use vstd::prelude::*;

pub mod cpu;
pub mod gfx;
pub mod interconnect;
pub mod ram;

use crate::cpu::Cpu;
use crate::cpu::FONT_DATA_ADDR;
use crate::cpu::MachineView;
use crate::cpu::PROG_ADDR;
use crate::cpu::cycle_spec;
use crate::cpu::machine_view;
use crate::interconnect::Interconnect;
use crate::interconnect::NUM_KEYS;
use crate::interconnect::timer_ticked;
use crate::ram::RAM_SIZE;
use crate::ram::Ram;
use crate::ram::ram_loaded;

verus! {

/// The ways a running machine can fail.  All of them are fatal for the
/// current run: CHIP-8 defines no fault handling, so the driver is expected
/// to stop the machine when one is returned.
#[derive(Clone, Copy, Debug, PartialEq, Eq, Structural)]
pub enum Chip8Error {
    /// The fetched opcode is not a CHIP-8 instruction.
    Decode,
    /// A memory, stack or key index fell outside its valid range.
    Bounds,
    /// A ROM image too large for the program space above `PROG_ADDR`.
    Resource,
}

/// Largest ROM that fits between `PROG_ADDR` and the end of RAM.
pub const MAX_ROM_SIZE: usize = 0xE00;

/// Number of CPU cycles per 60 Hz timer tick in [`Chip8::step`].
pub const CYCLES_PER_TICK: u64 = 16;

/// The built-in font: 16 glyphs for the hexadecimal digits, 5 bytes each,
/// one sprite row per byte.
pub open spec fn font_seq() -> Seq<u8> {
    seq![
        0xF0u8, 0x90, 0x90, 0x90, 0xF0, // 0
        0x20, 0x60, 0x20, 0x20, 0x70, // 1
        0xF0, 0x10, 0xF0, 0x80, 0xF0, // 2
        0xF0, 0x10, 0xF0, 0x10, 0xF0, // 3
        0x90, 0x90, 0xF0, 0x10, 0x10, // 4
        0xF0, 0x80, 0xF0, 0x10, 0xF0, // 5
        0xF0, 0x80, 0xF0, 0x90, 0xF0, // 6
        0xF0, 0x10, 0x20, 0x40, 0x40, // 7
        0xF0, 0x90, 0xF0, 0x90, 0xF0, // 8
        0xF0, 0x90, 0xF0, 0x10, 0xF0, // 9
        0xF0, 0x90, 0xF0, 0x90, 0x90, // A
        0xE0, 0x90, 0xE0, 0x90, 0xE0, // B
        0xF0, 0x80, 0x80, 0x80, 0xF0, // C
        0xE0, 0x90, 0x90, 0x90, 0xE0, // D
        0xF0, 0x80, 0xF0, 0x80, 0xF0, // E
        0xF0, 0x80, 0xF0, 0x90, 0x80, // F
    ]
}

/// The font table as bytes.
pub fn font_data() -> (r: Vec<u8>)
    ensures
        r@ == font_seq(),
{
    let font: [u8; 80] = [
        0xF0, 0x90, 0x90, 0x90, 0xF0, // 0
        0x20, 0x60, 0x20, 0x20, 0x70, // 1
        0xF0, 0x10, 0xF0, 0x80, 0xF0, // 2
        0xF0, 0x10, 0xF0, 0x10, 0xF0, // 3
        0x90, 0x90, 0xF0, 0x10, 0x10, // 4
        0xF0, 0x80, 0xF0, 0x10, 0xF0, // 5
        0xF0, 0x80, 0xF0, 0x90, 0xF0, // 6
        0xF0, 0x10, 0x20, 0x40, 0x40, // 7
        0xF0, 0x90, 0xF0, 0x90, 0xF0, // 8
        0xF0, 0x90, 0xF0, 0x10, 0xF0, // 9
        0xF0, 0x90, 0xF0, 0x90, 0x90, // A
        0xE0, 0x90, 0xE0, 0x90, 0xE0, // B
        0xF0, 0x80, 0x80, 0x80, 0xF0, // C
        0xE0, 0x90, 0x90, 0x90, 0xE0, // D
        0xF0, 0x80, 0xF0, 0x80, 0xF0, // E
        0xF0, 0x80, 0xF0, 0x90, 0x80, // F
    ];
    let v = vstd::slice::slice_to_vec(font.as_slice());
    proof {
        assert(v@ =~= font_seq());
    }
    v
}

/// A blank RAM image: all zeroes.
pub open spec fn zero_ram() -> Seq<u8> {
    Seq::new(RAM_SIZE as nat, |j: int| 0u8)
}

/// The machine state right after construction: font and ROM in RAM,
/// execution about to start at `PROG_ADDR`, everything else cleared.
pub open spec fn initial_view(rom: Seq<u8>) -> MachineView {
    MachineView {
        pc: PROG_ADDR,
        regs: Seq::new(crate::cpu::NUM_REGS as nat, |k: int| 0u8),
        index: 0u16,
        stack: Seq::empty(),
        ram: ram_loaded(
            ram_loaded(zero_ram(), FONT_DATA_ADDR as int, font_seq()),
            PROG_ADDR as int,
            rom,
        ),
        gfx: Seq::new(crate::gfx::GFX_SIZE as nat, |j: int| 0u8),
        dirty: true,
        delay: 0u8,
        sound: 0u8,
        keys: Seq::new(NUM_KEYS as nat, |k: int| false),
    }
}

/// What one driver step does: one CPU cycle, and on every
/// `CYCLES_PER_TICK`-th step a 60 Hz timer tick.
pub open spec fn step_spec(s: MachineView, ticks: u64) -> Result<(MachineView, u64), Chip8Error> {
    match cycle_spec(s) {
        Ok(s1) => if ticks + 1 == CYCLES_PER_TICK {
            Ok((
                MachineView {
                    delay: timer_ticked(s1.delay),
                    sound: timer_ticked(s1.sound),
                    ..s1
                },
                0u64,
            ))
        } else {
            Ok((s1, (ticks + 1) as u64))
        },
        Err(e) => Err(e),
    }
}

/// The whole CHIP-8 virtual machine: a CPU plus the bus it talks to, and a
/// cycle counter that paces the 60 Hz timers.
pub struct Chip8 {
    pub cpu: Cpu,
    pub interconnect: Interconnect,
    pub ticks: u64,
}

impl Chip8 {
    pub open spec fn wf(self) -> bool {
        &&& self.cpu.wf()
        &&& self.interconnect.wf()
        &&& self.ticks < CYCLES_PER_TICK
    }

    /// The machine state as one mathematical value.
    pub open spec fn view_spec(self) -> MachineView {
        machine_view(self.cpu, self.interconnect)
    }

    /// A machine with `rom` loaded at `PROG_ADDR` and the font table at
    /// `FONT_DATA_ADDR`, ready to run.  Rejected exactly when the ROM does
    /// not fit in the program space.
    pub fn new(rom: &[u8]) -> (r: Result<Chip8, Chip8Error>)
        ensures
            match r {
                Ok(m) => rom@.len() <= MAX_ROM_SIZE
                    && m.wf()
                    && m.ticks == 0
                    && m.view_spec() == initial_view(rom@),
                Err(e) => e == Chip8Error::Resource && rom@.len() > MAX_ROM_SIZE,
            },
    {
        if rom.len() > MAX_ROM_SIZE {
            return Err(Chip8Error::Resource);
        }
        let mut ram = Ram::new();
        let font = font_data();
        match ram.load_at(FONT_DATA_ADDR, font.as_slice()) {
            Ok(()) => {},
            Err(_) => {
                proof {
                    assert(false);
                }
                return Err(Chip8Error::Resource);
            },
        }
        proof {
            assert(ram.bytes@ =~= ram_loaded(zero_ram(), FONT_DATA_ADDR as int, font_seq()));
        }
        match ram.load_at(PROG_ADDR, rom) {
            Ok(()) => {},
            Err(_) => {
                proof {
                    assert(false);
                }
                return Err(Chip8Error::Resource);
            },
        }
        let m = Chip8 {
            cpu: Cpu::new(),
            interconnect: Interconnect::new(ram),
            ticks: 0,
        };
        proof {
            assert(m.view_spec() =~= initial_view(rom@));
        }
        Ok(m)
    }

    /// The current frame, one byte per pixel, 0 off and nonzero on; reading
    /// it clears the display's dirty flag.
    pub fn gfx_buffer(&mut self) -> (r: &Vec<u8>)
        requires
            old(self).wf(),
        ensures
            final(self).wf(),
            r@ == old(self).interconnect.gfx.buf@,
            final(self).interconnect.gfx.buf@ == old(self).interconnect.gfx.buf@,
            !final(self).interconnect.gfx.dirty,
            final(self).cpu == old(self).cpu,
            final(self).ticks == old(self).ticks,
            final(self).interconnect.ram == old(self).interconnect.ram,
            final(self).interconnect.delay_timer == old(self).interconnect.delay_timer,
            final(self).interconnect.sound_timer == old(self).interconnect.sound_timer,
            final(self).interconnect.keys == old(self).interconnect.keys,
    {
        self.interconnect.gfx.get_frame()
    }

    /// Record that key `key` is down or up; the driver calls this as the
    /// host keyboard changes.
    pub fn set_key(&mut self, key: u8, is_down: bool)
        requires
            old(self).wf(),
            key < NUM_KEYS,
        ensures
            final(self).wf(),
            final(self).interconnect.keys@
                == old(self).interconnect.keys@.update(key as int, is_down),
            final(self).cpu == old(self).cpu,
            final(self).ticks == old(self).ticks,
            final(self).interconnect.ram == old(self).interconnect.ram,
            final(self).interconnect.gfx == old(self).interconnect.gfx,
            final(self).interconnect.delay_timer == old(self).interconnect.delay_timer,
            final(self).interconnect.sound_timer == old(self).interconnect.sound_timer,
    {
        self.interconnect.keys[key as usize] = is_down;
    }

    /// Drive the machine forward by one CPU cycle, ticking the timers once
    /// every `CYCLES_PER_TICK` cycles.  On an error the machine is left
    /// unchanged for the driver to inspect.
    pub fn step(&mut self) -> (r: Result<(), Chip8Error>)
        requires
            old(self).wf(),
        ensures
            final(self).wf(),
            match r {
                Ok(()) => step_spec(old(self).view_spec(), old(self).ticks)
                    == Ok::<(MachineView, u64), Chip8Error>(
                        (final(self).view_spec(), final(self).ticks)),
                Err(e) => step_spec(old(self).view_spec(), old(self).ticks)
                    == Err::<(MachineView, u64), Chip8Error>(e)
                    && final(self).view_spec() == old(self).view_spec()
                    && final(self).ticks == old(self).ticks,
            },
    {
        match self.cpu.emulate_cycle(&mut self.interconnect) {
            Ok(()) => {},
            Err(e) => {
                return Err(e);
            },
        }
        if self.ticks == CYCLES_PER_TICK - 1 {
            self.interconnect.tick();
            self.ticks = 0;
        } else {
            self.ticks = self.ticks + 1;
        }
        Ok(())
    }
}

} // verus!
