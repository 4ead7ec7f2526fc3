//! The object shape a loader hands to the CPU.

use vstd::prelude::*;

verus! {

/// A block of data with labels at certain byte positions.
#[derive(Debug)]
pub struct LabeledBlock {
    pub raw_data: Vec<u8>,
}

/// The object definition of a MIPS32 assembly source: the raw `.text` bytes
/// to execute.
#[derive(Debug)]
pub struct Object {
    pub text: LabeledBlock,
}

} // verus!
