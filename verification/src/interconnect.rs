//! The bus of the CHIP-8 machine: it bundles the RAM, the display, the two
//! countdown timers and the key states, and offers the CPU instruction
//! fetch, sprite drawing and timer access.

use vstd::prelude::*;

use crate::Chip8Error;
use crate::gfx::Gfx;
use crate::gfx::draw_collision;
use crate::gfx::drawn_buf;
use crate::ram::RAM_SIZE;
use crate::ram::Ram;

verus! {

/// Number of keys on the CHIP-8 keypad.
pub const NUM_KEYS: usize = 16;

/// Everything the CPU reaches besides its own registers and stack.
pub struct Interconnect {
    pub ram: Ram,
    pub gfx: Gfx,
    pub delay_timer: u8,
    pub sound_timer: u8,
    pub keys: Vec<bool>,
}

/// One 60 Hz tick of a countdown timer: decrement, floored at zero.
pub open spec fn timer_ticked(t: u8) -> u8 {
    if t > 0 { (t - 1) as u8 } else { 0 }
}

/// The big-endian 16-bit opcode stored at `pc`, `pc + 1`.
pub open spec fn opcode_at(ram: Seq<u8>, pc: int) -> u16 {
    ((ram[pc] as u16) << 8) | (ram[pc + 1] as u16)
}

/// Ticking never wraps a timer around: once a timer reaches zero, any number
/// of further ticks leaves it at zero.
pub proof fn lemma_timer_floor(t: u8)
    ensures
        timer_ticked(0u8) == 0u8,
        t == 0 ==> timer_ticked(t) == 0u8,
{
}

impl Interconnect {
    pub open spec fn wf(self) -> bool {
        &&& self.ram.wf()
        &&& self.gfx.wf()
        &&& self.keys@.len() == NUM_KEYS
    }

    /// A bus over the given RAM: blank display, zero timers, no key down.
    pub fn new(ram: Ram) -> (r: Interconnect)
        requires
            ram.wf(),
        ensures
            r.wf(),
            r.ram == ram,
            r.gfx.dirty,
            forall|j: int| 0 <= j < crate::gfx::GFX_SIZE ==> r.gfx.buf@[j] == 0u8,
            r.delay_timer == 0u8,
            r.sound_timer == 0u8,
            forall|k: int| 0 <= k < NUM_KEYS ==> !r.keys@[k],
    {
        let mut keys: Vec<bool> = Vec::new();
        let mut i: usize = 0;
        while i < NUM_KEYS
            invariant
                i <= NUM_KEYS,
                keys@.len() == i,
                forall|k: int| 0 <= k < i ==> !keys@[k],
            decreases NUM_KEYS - i,
        {
            keys.push(false);
            i = i + 1;
        }
        Interconnect { ram, gfx: Gfx::new(), delay_timer: 0, sound_timer: 0, keys }
    }

    /// One tick of the external 60 Hz cadence: both timers count down toward
    /// zero and stop there.
    pub fn tick(&mut self)
        requires
            old(self).wf(),
        ensures
            final(self).wf(),
            final(self).delay_timer == timer_ticked(old(self).delay_timer),
            final(self).sound_timer == timer_ticked(old(self).sound_timer),
            final(self).ram == old(self).ram,
            final(self).gfx == old(self).gfx,
            final(self).keys == old(self).keys,
    {
        if self.delay_timer > 0 {
            self.delay_timer = self.delay_timer - 1;
        }
        if self.sound_timer > 0 {
            self.sound_timer = self.sound_timer - 1;
        }
    }

    /// The two-byte big-endian instruction at address `pc`; rejected when
    /// `pc + 1` falls outside RAM.
    pub fn fetch_opcode(&self, pc: u16) -> (r: Result<u16, Chip8Error>)
        requires
            self.wf(),
        ensures
            match r {
                Ok(op) => pc + 1 < RAM_SIZE && op == opcode_at(self.ram.bytes@, pc as int),
                Err(e) => e == Chip8Error::Bounds && pc + 1 >= RAM_SIZE,
            },
    {
        if (pc as usize) + 1 >= RAM_SIZE {
            return Err(Chip8Error::Bounds);
        }
        let hi = self.ram.bytes[pc as usize];
        let lo = self.ram.bytes[pc as usize + 1];
        Ok(((hi as u16) << 8) | (lo as u16))
    }

    /// XOR-draw the `n`-row sprite stored in RAM at `addr` with its top-left
    /// corner at `(vx % 64, vy % 32)`; rejected when the sprite bytes run
    /// past the end of RAM.  Returns whether a collision occurred.
    pub fn draw_sprite(&mut self, addr: u16, vx: u8, vy: u8, n: u8) -> (r: Result<bool, Chip8Error>)
        requires
            old(self).wf(),
        ensures
            final(self).wf(),
            final(self).ram == old(self).ram,
            final(self).delay_timer == old(self).delay_timer,
            final(self).sound_timer == old(self).sound_timer,
            final(self).keys == old(self).keys,
            match r {
                Ok(collision) => addr + n <= RAM_SIZE
                    && final(self).gfx.dirty
                    && final(self).gfx.buf@ == drawn_buf(
                        old(self).gfx.buf@, (vx % 64) as int, (vy % 32) as int,
                        old(self).ram.bytes@.subrange(addr as int, addr + n))
                    && collision == draw_collision(
                        old(self).gfx.buf@, (vx % 64) as int, (vy % 32) as int,
                        old(self).ram.bytes@.subrange(addr as int, addr + n)),
                Err(e) => e == Chip8Error::Bounds
                    && addr + n > RAM_SIZE
                    && final(self).gfx == old(self).gfx,
            },
    {
        let sprite = match self.ram.get_sprite(addr, n) {
            Ok(s) => s,
            Err(e) => {
                return Err(e);
            },
        };
        Ok(self.gfx.draw_sprite(vx, vy, n, sprite.as_slice()))
    }
}

} // verus!
