//! A uniform read interface over the three storage backends.

use vstd::prelude::*;

use crate::storage::continuous::Continuous;
use crate::storage::hybrid_store::HybridStore;
use crate::storage::segmented_store::SegmentedStore;

verus! {

/// Encapsulates read operations over whichever storage backend a section
/// uses.
pub enum IoInterface<'a> {
    Continuous(&'a Continuous),
    Hybrid(&'a HybridStore),
    Segmented(&'a SegmentedStore),
}

impl<'a> IoInterface<'a> {
    /// The borrowed backend is well-formed.
    pub open spec fn wf(self) -> bool {
        match self {
            IoInterface::Continuous(c) => c.wf(),
            IoInterface::Hybrid(h) => h.wf(),
            IoInterface::Segmented(s) => s.wf(),
        }
    }

    /// What a byte read returns, whatever the backend.
    pub open spec fn spec_byte(self, i: int) -> Option<u8> {
        match self {
            IoInterface::Continuous(c) => c.spec_byte(i),
            IoInterface::Hybrid(h) => h.spec_byte(i),
            IoInterface::Segmented(s) => s.spec_byte(i),
        }
    }

    /// What a halfword read returns.
    pub open spec fn spec_halfword(self, i: int) -> Option<u16> {
        crate::storage::compose_halfword(self.spec_byte(i), self.spec_byte(i + 1))
    }

    /// What a word read returns.
    pub open spec fn spec_word(self, i: int) -> Option<u32> {
        crate::storage::compose_word(
            self.spec_byte(i),
            self.spec_byte(i + 1),
            self.spec_byte(i + 2),
            self.spec_byte(i + 3),
        )
    }

    /// Read a single byte at a section-relative offset.
    pub fn read_byte(&self, index: usize) -> (r: Option<u8>)
        requires
            self.wf(),
        ensures
            r == self.spec_byte(index as int),
    {
        match self {
            IoInterface::Continuous(c) => c.read_byte(index),
            IoInterface::Hybrid(h) => h.read_byte(index),
            IoInterface::Segmented(s) => s.read_byte(index),
        }
    }

    /// Read a halfword (little-endian) at a section-relative offset.
    pub fn read_halfword(&self, index: usize) -> (r: Option<u16>)
        requires
            self.wf(),
        ensures
            r == self.spec_halfword(index as int),
    {
        match self {
            IoInterface::Continuous(c) => c.read_halfword(index),
            IoInterface::Hybrid(h) => h.read_halfword(index),
            IoInterface::Segmented(s) => s.read_halfword(index),
        }
    }

    /// Read a word (little-endian) at a section-relative offset.
    pub fn read_word(&self, index: usize) -> (r: Option<u32>)
        requires
            self.wf(),
        ensures
            r == self.spec_word(index as int),
    {
        match self {
            IoInterface::Continuous(c) => c.read_word(index),
            IoInterface::Hybrid(h) => h.read_word(index),
            IoInterface::Segmented(s) => s.read_word(index),
        }
    }
}

} // verus!
