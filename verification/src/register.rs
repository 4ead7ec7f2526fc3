//! The register file: 32 general-purpose word registers plus PC, HI and LO.

use vstd::prelude::*;

use crate::exception::Exception;
use crate::exception::Unstable;
use crate::mem::TEXT_START;

verus! {

/// The registers of a MIPS32 CPU: the 32 regular registers, the program
/// counter and the HI/LO multiply results. All registers hold one word.
///
/// Register 0 is the architectural `$zero`: writes to it are discarded, so it
/// always reads as zero. An instruction reads all of its operands by copy
/// before writing its result, so no two live handles to the same register
/// ever exist.
#[derive(Debug)]
pub struct Registers {
    pub regular: Vec<u32>,
    pub pc: u32,
    pub hi: u32,
    pub lo: u32,
}

impl Registers {
    /// The regular registers as a sequence of 32 words.
    pub open spec fn regs(self) -> Seq<u32> {
        self.regular@
    }

    /// There are exactly 32 regular registers, and `$zero` holds zero.
    pub open spec fn wf(self) -> bool {
        &&& self.regs().len() == 32
        &&& self.regs()[0] == 0
    }

    /// The register values on reset: all zero, except two seed values used
    /// for sanity checks in the absence of a loader.
    pub open spec fn spec_reset_regs() -> Seq<u32> {
        Seq::new(32, |i: int| if i == 8 { 3u32 } else if i == 9 { 4u32 } else { 0u32 })
    }

    /// Initialize the registers: PC at the start of `.text`, HI and LO zero,
    /// and the regular registers holding their reset values.
    pub fn init() -> (r: Registers)
        ensures
            r.wf(),
            r.pc == TEXT_START,
            r.hi == 0,
            r.lo == 0,
            r.regs() == Self::spec_reset_regs(),
    {
        let mut regular: Vec<u32> = Vec::new();
        let mut i: usize = 0;
        while i < 32
            invariant
                i <= 32,
                regular@.len() == i,
                forall|j: int| 0 <= j < i ==> regular@[j] == Self::spec_reset_regs()[j],
            decreases 32 - i,
        {
            if i == 8 {
                regular.push(3);
            } else if i == 9 {
                regular.push(4);
            } else {
                regular.push(0);
            }
            i += 1;
        }
        proof {
            assert(regular@ =~= Self::spec_reset_regs());
        }
        Registers { regular, pc: TEXT_START, hi: 0, lo: 0 }
    }

    /// Read regular register `n`, known to be in range.
    pub fn read(&self, n: usize) -> (value: u32)
        requires
            self.wf(),
            n < 32,
        ensures
            value == self.regs()[n as int],
    {
        self.regular[n]
    }

    /// Read regular register `n`. Returns a VM-internal fault if `n` is not
    /// in the range `0..32`; a fault is a host bug, never an architectural
    /// exception.
    pub fn r(&self, n: usize) -> (result: Result<u32, Unstable<Exception>>)
        requires
            self.wf(),
        ensures
            n < 32 ==> result == Ok::<u32, Unstable<Exception>>(self.regs()[n as int]),
            n >= 32 ==> result matches Err(Unstable::VmError(_)),
    {
        if n < 32 {
            Ok(self.regular[n])
        } else {
            Err(Unstable::VmError(String::from_str("requested register out of range")))
        }
    }

    /// The regular registers after writing `value` to register `n`: a write
    /// to register 0 is discarded.
    pub open spec fn spec_write(self, n: int, value: u32) -> Seq<u32> {
        if n == 0 {
            self.regs()
        } else {
            self.regs().update(n, value)
        }
    }

    /// Write `value` to regular register `n`. Writes to register 0 are
    /// silently discarded, so `$zero` keeps reading as zero.
    pub fn write(&mut self, n: usize, value: u32)
        requires
            old(self).wf(),
            n < 32,
        ensures
            final(self).wf(),
            final(self).regs() == old(self).spec_write(n as int, value),
            final(self).pc == old(self).pc,
            final(self).hi == old(self).hi,
            final(self).lo == old(self).lo,
    {
        if n != 0 {
            self.regular[n] = value;
        }
    }

    /// PC + 4 truncated to a word: the return address a link writes.
    pub open spec fn spec_link_value(self) -> u32 {
        if self.pc + 4 < 0x1_0000_0000 {
            (self.pc + 4) as u32
        } else {
            (self.pc + 4 - 0x1_0000_0000) as u32
        }
    }

    /// Load the next instruction address (PC + 4) into register `n`: the
    /// typical operation of jump-and-link and branch-and-link instructions.
    /// Returns a VM-internal fault if `n` is out of range.
    pub fn link(&mut self, n: usize) -> (result: Result<(), Unstable<Exception>>)
        requires
            old(self).wf(),
        ensures
            final(self).wf(),
            final(self).pc == old(self).pc,
            final(self).hi == old(self).hi,
            final(self).lo == old(self).lo,
            n < 32 ==> {
                &&& result is Ok
                &&& final(self).regs() == old(self).spec_write(
                    n as int,
                    old(self).spec_link_value(),
                )
            },
            n >= 32 ==> {
                &&& result matches Err(Unstable::VmError(_))
                &&& final(self).regs() == old(self).regs()
            },
    {
        if n < 32 {
            let value = self.pc.wrapping_add(4);
            assert(value == self.spec_link_value());
            self.write(n, value);
            Ok(())
        } else {
            Err(Unstable::VmError(String::from_str("requested register out of range")))
        }
    }

    /// A snapshot of the 32 regular register values, for debug display.
    pub fn regular_values(&self) -> (values: Vec<u32>)
        requires
            self.wf(),
        ensures
            values@ == self.regs(),
    {
        let mut values: Vec<u32> = Vec::new();
        let mut i: usize = 0;
        while i < 32
            invariant
                self.wf(),
                i <= 32,
                values@.len() == i,
                forall|j: int| 0 <= j < i ==> values@[j] == self.regs()[j],
            decreases 32 - i,
        {
            values.push(self.regular[i]);
            i += 1;
        }
        proof {
            assert(values@ =~= self.regs());
        }
        values
    }
}

} // verus!
