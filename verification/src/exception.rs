//! Architectural exceptions and the VM-internal fault channel.

use vstd::prelude::*;

verus! {

/// An unexpected change in control flow that guest code could observe
/// (through a kernel handler, once one exists).
#[derive(Clone, Copy, Debug, PartialEq, Eq, Structural)]
pub enum Exception {
    /// Address error caused by a load or an instruction fetch: the address is
    /// unmapped, denied to the current context, or misaligned.
    AddrLoadFetch,
    /// Address error caused by a store: the address is unmapped, not writable
    /// in the current context, or misaligned.
    AddrStore,
    /// Exception raised by the `syscall` instruction.
    Syscall,
    /// Signed arithmetic overflow on `add`, `sub` or `addi`.
    Overflow,
    /// A conditional trap instruction (`teq`, `tne`, `tgeu`, `tltu`) fired.
    Trap,
}

impl Exception {
    /// The canonical MIPS cause code of the exception.
    pub open spec fn spec_code(self) -> u8 {
        match self {
            Exception::AddrLoadFetch => 0x4,
            Exception::AddrStore => 0x5,
            Exception::Syscall => 0x8,
            Exception::Overflow => 0xb,
            Exception::Trap => 0xc,
        }
    }

    /// The canonical MIPS cause code of the exception.
    pub fn code(&self) -> (code: u8)
        ensures
            code == self.spec_code(),
    {
        match self {
            Exception::AddrLoadFetch => 0x4,
            Exception::AddrStore => 0x5,
            Exception::Syscall => 0x8,
            Exception::Overflow => 0xb,
            Exception::Trap => 0xc,
        }
    }
}

/// Either an error of type `T`, or a VM-internal fault: a bug in the host
/// implementation, never visible to guest code as an architectural exception.
#[derive(Debug)]
pub enum Unstable<T> {
    Normal(T),
    VmError(String),
}

} // verus!
