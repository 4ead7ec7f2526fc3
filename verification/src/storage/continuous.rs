//! A size-bound continuous byte store: a flat, growable vector.

use vstd::prelude::*;

use crate::storage::compose_halfword;
use crate::storage::compose_word;
use crate::storage::le_halfword;
use crate::storage::le_word;

verus! {

/// The store's bytes after writing `b` at offset `i`: positions between the
/// old end and `i` are filled with zeroes.
pub open spec fn spec_written(s: Seq<u8>, i: int, b: u8) -> Seq<u8> {
    if i < s.len() {
        s.update(i, b)
    } else {
        s + Seq::new((i - s.len()) as nat, |_j: int| 0u8) + seq![b]
    }
}

/// A size-bound continuous byte store. Reads outside the populated prefix
/// return absent; writes up to the declared bound grow the store, filling the
/// gap with zeroes.
#[derive(Debug)]
pub struct Continuous {
    pub data: Vec<u8>,
    pub max_size: usize,
}

impl Continuous {
    /// The populated bytes never exceed the declared bound.
    pub open spec fn wf(self) -> bool {
        self.data@.len() <= self.max_size
    }

    /// The populated prefix of the store.
    pub open spec fn bytes(self) -> Seq<u8> {
        self.data@
    }

    /// The declared size bound of the region this store backs.
    pub open spec fn capacity(self) -> nat {
        self.max_size as nat
    }

    /// What a byte read returns: present inside the populated prefix, absent
    /// beyond it.
    pub open spec fn spec_byte(self, i: int) -> Option<u8> {
        if 0 <= i < self.bytes().len() {
            Some(self.bytes()[i])
        } else {
            None
        }
    }

    /// What a halfword read returns.
    pub open spec fn spec_halfword(self, i: int) -> Option<u16> {
        compose_halfword(self.spec_byte(i), self.spec_byte(i + 1))
    }

    /// What a word read returns.
    pub open spec fn spec_word(self, i: int) -> Option<u32> {
        compose_word(self.spec_byte(i), self.spec_byte(i + 1), self.spec_byte(i + 2), self.spec_byte(i + 3))
    }

    /// Create an empty store with the given size bound.
    pub fn init(max_size: usize) -> (s: Self)
        ensures
            s.wf(),
            s.bytes() == Seq::<u8>::empty(),
            s.capacity() == max_size as nat,
    {
        Continuous { data: Vec::new(), max_size }
    }

    /// Read a single byte out of the store.
    pub fn read_byte(&self, index: usize) -> (r: Option<u8>)
        ensures
            r == self.spec_byte(index as int),
    {
        if index < self.data.len() {
            Some(self.data[index])
        } else {
            None
        }
    }

    /// Read a halfword (2 bytes, little-endian) out of the store.
    pub fn read_halfword(&self, index: usize) -> (r: Option<u16>)
        ensures
            r == self.spec_halfword(index as int),
    {
        if index < self.data.len() && index + 1 < self.data.len() {
            let b0 = self.data[index];
            let b1 = self.data[index + 1];
            proof {
                assert((b0 as u16) | ((b1 as u16) << 8) == le_halfword(b0, b1));
            }
            Some((b0 as u16) | ((b1 as u16) << 8))
        } else {
            None
        }
    }

    /// Read a word (4 bytes, little-endian) out of the store.
    pub fn read_word(&self, index: usize) -> (r: Option<u32>)
        ensures
            r == self.spec_word(index as int),
    {
        if index < self.data.len() && self.data.len() - index >= 4 {
            let b0 = self.data[index];
            let b1 = self.data[index + 1];
            let b2 = self.data[index + 2];
            let b3 = self.data[index + 3];
            proof {
                assert((b0 as u32) | ((b1 as u32) << 8) | ((b2 as u32) << 16) | ((b3 as u32) << 24)
                    == le_word(b0, b1, b2, b3));
            }
            Some((b0 as u32) | ((b1 as u32) << 8) | ((b2 as u32) << 16) | ((b3 as u32) << 24))
        } else {
            None
        }
    }

    /// Write one byte at `index`, growing the populated prefix with zeroes if
    /// the index lies beyond it. The index must respect the declared bound.
    pub fn write_byte(&mut self, index: usize, value: u8)
        requires
            old(self).wf(),
            index < old(self).capacity(),
        ensures
            final(self).wf(),
            final(self).capacity() == old(self).capacity(),
            final(self).bytes() == spec_written(old(self).bytes(), index as int, value),
    {
        if index < self.data.len() {
            self.data[index] = value;
        } else {
            let ghost start = self.data@;
            while self.data.len() < index
                invariant
                    self.max_size == old(self).max_size,
                    index < self.max_size,
                    start == old(self).data@,
                    start.len() <= self.data@.len() <= index,
                    self.data@ == start + Seq::new((self.data@.len() - start.len()) as nat, |_j: int| 0u8),
                decreases index - self.data.len(),
            {
                self.data.push(0);
                proof {
                    assert(self.data@ =~= start + Seq::new((self.data@.len() - start.len()) as nat, |_j: int| 0u8));
                }
            }
            self.data.push(value);
            proof {
                assert(self.data@ =~= spec_written(start, index as int, value));
            }
        }
    }
}

} // verus!
