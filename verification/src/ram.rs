//! The RAM of the CHIP-8 machine: 4096 bytes, individually addressable with
//! 16-bit addresses, bounds-checked on every access.

use vstd::prelude::*;

use crate::Chip8Error;

verus! {

/// Number of bytes of RAM.
pub const RAM_SIZE: usize = 4096;

/// The byte store.  `bytes` always holds exactly `RAM_SIZE` entries.
pub struct Ram {
    pub bytes: Vec<u8>,
}

/// The contents of `ram` after copying `data` into it starting at `addr`.
/// Meaningful when `addr + data.len() <= ram.len()`.
pub open spec fn ram_loaded(ram: Seq<u8>, addr: int, data: Seq<u8>) -> Seq<u8> {
    Seq::new(ram.len(), |j: int| if addr <= j < addr + data.len() {
        data[j - addr]
    } else {
        ram[j]
    })
}

impl Default for Ram {
    /// The same zeroed RAM as [`Ram::new`].
    fn default() -> (r: Ram)
        ensures
            r.wf(),
            forall|j: int| 0 <= j < RAM_SIZE ==> r.bytes@[j] == 0u8,
    {
        Ram::new()
    }
}

impl Ram {
    /// Every address in `[0, RAM_SIZE)` is valid.
    pub open spec fn wf(self) -> bool {
        self.bytes@.len() == RAM_SIZE
    }

    /// A zeroed RAM.
    pub fn new() -> (r: Ram)
        ensures
            r.wf(),
            forall|j: int| 0 <= j < RAM_SIZE ==> r.bytes@[j] == 0u8,
    {
        let mut bytes: Vec<u8> = Vec::new();
        let mut i: usize = 0;
        while i < RAM_SIZE
            invariant
                i <= RAM_SIZE,
                bytes@.len() == i,
                forall|j: int| 0 <= j < i ==> bytes@[j] == 0u8,
            decreases RAM_SIZE - i,
        {
            bytes.push(0u8);
            i = i + 1;
        }
        Ram { bytes }
    }

    /// Copy the whole of `data` into RAM starting at `addr`; rejected when it
    /// would run past the end of RAM.
    pub fn load_at(&mut self, addr: u16, data: &[u8]) -> (r: Result<(), Chip8Error>)
        requires
            old(self).wf(),
        ensures
            final(self).wf(),
            match r {
                Ok(()) => addr + data@.len() <= RAM_SIZE
                    && final(self).bytes@ == ram_loaded(old(self).bytes@, addr as int, data@),
                Err(e) => e == Chip8Error::Bounds
                    && addr + data@.len() > RAM_SIZE
                    && final(self).bytes@ == old(self).bytes@,
            },
    {
        let len = data.len();
        if len > RAM_SIZE || (addr as usize) > RAM_SIZE - len {
            return Err(Chip8Error::Bounds);
        }
        let base = addr as usize;
        let mut i: usize = 0;
        while i < len
            invariant
                i <= len,
                base + len <= RAM_SIZE,
                data@.len() == len,
                self.bytes@.len() == RAM_SIZE,
                forall|j: int| base <= j < base + i ==> self.bytes@[j] == data@[j - base],
                forall|j: int| 0 <= j < RAM_SIZE && !(base <= j < base + i)
                    ==> self.bytes@[j] == old(self).bytes@[j],
            decreases len - i,
        {
            let b = *vstd::slice::slice_index_get(data, i);
            self.bytes[base + i] = b;
            i = i + 1;
        }
        proof {
            assert(self.bytes@ =~= ram_loaded(old(self).bytes@, addr as int, data@));
        }
        Ok(())
    }

    /// Read one byte; rejected outside `[0, RAM_SIZE)`.
    pub fn read(&self, addr: u16) -> (r: Result<u8, Chip8Error>)
        requires
            self.wf(),
        ensures
            match r {
                Ok(b) => addr < RAM_SIZE && b == self.bytes@[addr as int],
                Err(e) => e == Chip8Error::Bounds && addr >= RAM_SIZE,
            },
    {
        if (addr as usize) < RAM_SIZE {
            Ok(self.bytes[addr as usize])
        } else {
            Err(Chip8Error::Bounds)
        }
    }

    /// Write one byte; rejected outside `[0, RAM_SIZE)`.
    pub fn write(&mut self, addr: u16, value: u8) -> (r: Result<(), Chip8Error>)
        requires
            old(self).wf(),
        ensures
            final(self).wf(),
            match r {
                Ok(()) => addr < RAM_SIZE
                    && final(self).bytes@ == old(self).bytes@.update(addr as int, value),
                Err(e) => e == Chip8Error::Bounds
                    && addr >= RAM_SIZE
                    && final(self).bytes@ == old(self).bytes@,
            },
    {
        if (addr as usize) < RAM_SIZE {
            self.bytes[addr as usize] = value;
            Ok(())
        } else {
            Err(Chip8Error::Bounds)
        }
    }

    /// The `height` consecutive bytes starting at `addr`: one sprite row per
    /// byte.  Rejected when the range runs past the end of RAM.
    pub fn get_sprite(&self, addr: u16, height: u8) -> (r: Result<Vec<u8>, Chip8Error>)
        requires
            self.wf(),
        ensures
            match r {
                Ok(v) => addr + height <= RAM_SIZE
                    && v@ == self.bytes@.subrange(addr as int, addr + height),
                Err(e) => e == Chip8Error::Bounds && addr + height > RAM_SIZE,
            },
    {
        if (addr as usize) > RAM_SIZE - (height as usize) {
            return Err(Chip8Error::Bounds);
        }
        let mut v: Vec<u8> = Vec::new();
        let mut i: usize = 0;
        while i < height as usize
            invariant
                i <= height,
                addr + height <= RAM_SIZE,
                self.bytes@.len() == RAM_SIZE,
                v@.len() == i,
                forall|j: int| 0 <= j < i ==> v@[j] == self.bytes@[addr + j],
            decreases height - i,
        {
            v.push(self.bytes[addr as usize + i]);
            i = i + 1;
        }
        proof {
            assert(v@ =~= self.bytes@.subrange(addr as int, addr + height));
        }
        Ok(v)
    }
}

} // verus!
