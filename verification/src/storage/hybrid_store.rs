//! A hybrid byte store: continuous spans over a sparse segmented fallback.

use vstd::prelude::*;

use crate::storage::compose_halfword;
use crate::storage::compose_word;
use crate::storage::le_halfword;
use crate::storage::le_word;
use crate::storage::segmented_store::SegmentedStore;

verus! {

/// A continuous chunk of bytes installed at a fixed offset.
#[derive(Debug)]
pub struct ContinuousRegion {
    pub index: usize,
    pub data: Vec<u8>,
}

impl ContinuousRegion {
    /// The region ends within the addressable range.
    pub open spec fn wf(self) -> bool {
        self.index + self.data@.len() <= usize::MAX
    }

    /// Whether offset `i` falls in this region.
    pub open spec fn spec_contains(self, i: int) -> bool {
        self.index <= i < self.index + self.data@.len()
    }

    /// The half-open offset range the region covers, as its bounds.
    pub fn range(&self) -> (r: (usize, usize))
        requires
            self.wf(),
        ensures
            r.0 == self.index,
            r.1 == self.index + self.data@.len(),
    {
        (self.index, self.index + self.data.len())
    }
}

/// An ordered list of continuous spans with a segmented fallback: reads
/// inside a span answer from the span, reads outside all spans fall back to
/// the sparse store.
#[derive(Debug)]
pub struct HybridStore {
    pub regions: Vec<ContinuousRegion>,
    pub fallback: SegmentedStore,
}

impl HybridStore {
    /// Spans are well-formed and pairwise disjoint, and the fallback is
    /// well-formed.
    pub open spec fn wf(self) -> bool {
        &&& self.fallback.wf()
        &&& forall|k: int| 0 <= k < self.regions@.len() ==> (#[trigger] self.regions@[k]).wf()
        &&& forall|k1: int, k2: int|
            #![trigger self.regions@[k1], self.regions@[k2]]
            0 <= k1 < self.regions@.len() && 0 <= k2 < self.regions@.len() && k1 != k2
                ==> (self.regions@[k1].index + self.regions@[k1].data@.len() <= self.regions@[k2].index
                    || self.regions@[k2].index + self.regions@[k2].data@.len() <= self.regions@[k1].index)
    }

    /// Whether some span covers offset `i`.
    pub open spec fn spec_in_region(self, i: int) -> bool {
        exists|k: int| 0 <= k < self.regions@.len() && (#[trigger] self.regions@[k]).spec_contains(i)
    }

    /// What a byte read returns: the covering span's byte, else the fallback.
    pub open spec fn spec_byte(self, i: int) -> Option<u8> {
        if self.spec_in_region(i) {
            let k = choose|k: int|
                0 <= k < self.regions@.len() && (#[trigger] self.regions@[k]).spec_contains(i);
            Some(self.regions@[k].data@[i - self.regions@[k].index])
        } else {
            self.fallback.spec_byte(i)
        }
    }

    /// What a halfword read returns.
    pub open spec fn spec_halfword(self, i: int) -> Option<u16> {
        compose_halfword(self.spec_byte(i), self.spec_byte(i + 1))
    }

    /// What a word read returns.
    pub open spec fn spec_word(self, i: int) -> Option<u32> {
        compose_word(self.spec_byte(i), self.spec_byte(i + 1), self.spec_byte(i + 2), self.spec_byte(i + 3))
    }

    /// In a well-formed store the covering span is unique, so the byte read
    /// is the one of any covering span.
    pub proof fn lemma_byte_in_region(self, k: int, i: int)
        requires
            self.wf(),
            0 <= k < self.regions@.len(),
            self.regions@[k].spec_contains(i),
        ensures
            self.spec_byte(i) == Some(self.regions@[k].data@[i - self.regions@[k].index]),
    {
        assert(self.spec_in_region(i));
        let k2 = choose|k2: int|
            0 <= k2 < self.regions@.len() && (#[trigger] self.regions@[k2]).spec_contains(i);
        if k2 != k {
            assert(self.regions@[k].index + self.regions@[k].data@.len() <= self.regions@[k2].index
                || self.regions@[k2].index + self.regions@[k2].data@.len()
                <= self.regions@[k].index);
            assert(false);
        }
    }

    /// Create an empty store.
    pub fn new() -> (s: Self)
        ensures
            s.wf(),
            s.regions@.len() == 0,
            forall|i: int| s.spec_byte(i) is None,
    {
        let s = HybridStore { regions: Vec::new(), fallback: SegmentedStore::new() };
        proof {
            assert(forall|i: int| !s.spec_in_region(i));
        }
        s
    }

    /// Install a continuous chunk of bytes at the given offset. The chunk
    /// must not overlap any span installed before.
    pub fn insert_continuous(&mut self, index: usize, data: Vec<u8>)
        requires
            old(self).wf(),
            index + data@.len() <= usize::MAX,
            forall|k: int|
                0 <= k < old(self).regions@.len()
                    ==> (index + data@.len() <= (#[trigger] old(self).regions@[k]).index
                        || old(self).regions@[k].index + old(self).regions@[k].data@.len() <= index),
        ensures
            final(self).wf(),
            forall|j: int|
                index <= j < index + data@.len() ==> final(self).spec_byte(j) == Some(
                    data@[j - index],
                ),
            forall|j: int|
                !(index <= j < index + data@.len()) ==> final(self).spec_byte(j) == old(
                    self,
                ).spec_byte(j),
    {
        let ghost pre = *self;
        let ghost d = data@;
        self.regions.push(ContinuousRegion { index, data });
        proof {
            let regs = self.regions@;
            let n = pre.regions@.len() as int;
            assert(regs.len() == n + 1);
            assert(regs[n].index == index && regs[n].data@ == d);
            assert(forall|k: int| 0 <= k < n ==> regs[k] == pre.regions@[k]);
            assert forall|k1: int, k2: int|
                #![trigger regs[k1], regs[k2]]
                0 <= k1 < regs.len() && 0 <= k2 < regs.len() && k1 != k2 implies (regs[k1].index
                + regs[k1].data@.len() <= regs[k2].index || regs[k2].index + regs[k2].data@.len()
                <= regs[k1].index) by {
                if k1 < n && k2 < n {
                    assert(regs[k1] == pre.regions@[k1]);
                    assert(regs[k2] == pre.regions@[k2]);
                } else if k1 == n {
                    assert(regs[k2] == pre.regions@[k2]);
                } else {
                    assert(regs[k1] == pre.regions@[k1]);
                }
            }
            assert(self.wf());
            assert forall|j: int| index <= j < index + d.len() implies self.spec_byte(j) == Some(
                d[j - index],
            ) by {
                assert(regs[n].spec_contains(j));
                self.lemma_byte_in_region(n, j);
            }
            assert forall|j: int| !(index <= j < index + d.len()) implies self.spec_byte(j)
                == pre.spec_byte(j) by {
                if pre.spec_in_region(j) {
                    let k = choose|k: int|
                        0 <= k < pre.regions@.len() && (#[trigger] pre.regions@[k]).spec_contains(
                            j,
                        );
                    pre.lemma_byte_in_region(k, j);
                    assert(regs[k].spec_contains(j));
                    self.lemma_byte_in_region(k, j);
                } else {
                    if self.spec_in_region(j) {
                        let k = choose|k: int|
                            0 <= k < regs.len() && (#[trigger] regs[k]).spec_contains(j);
                        if k == n {
                            assert(false);
                        } else {
                            assert(pre.regions@[k].spec_contains(j));
                            assert(false);
                        }
                    }
                }
            }
        }
    }

    /// The continuous chunk of raw backing bytes at `index`: a span's tail if
    /// a span covers the offset, else the fallback frame's tail. Only the
    /// first byte is guaranteed visible unshadowed; a later span may shadow
    /// the tail of a fallback chunk.
    pub fn read(&self, index: usize) -> (r: Option<&[u8]>)
        requires
            self.wf(),
        ensures
            match r {
                Some(sl) => {
                    &&& sl@.len() > 0
                    &&& self.spec_byte(index as int) == Some(sl@[0])
                },
                None => self.spec_byte(index as int) is None,
            },
    {
        match self.try_read_continuous(index) {
            Some(sl) => Some(sl),
            None => {
                let r = self.fallback.read_continuous(index);
                proof {
                    match r {
                        Some(sl) => {
                            crate::storage::segmented_store::lemma_frame_floor_bounds(index as int);
                            assert(self.fallback.spec_byte(index as int) == Some(sl@[0]));
                        },
                        None => {},
                    }
                }
                r
            },
        }
    }

    /// Read a single byte out of the store.
    pub fn read_byte(&self, index: usize) -> (r: Option<u8>)
        requires
            self.wf(),
        ensures
            r == self.spec_byte(index as int),
    {
        match self.try_read_continuous(index) {
            Some(sl) => Some(sl[0]),
            None => self.fallback.read_byte(index),
        }
    }

    /// Read a halfword (little-endian); the two bytes may have different
    /// provenance (span or fallback).
    pub fn read_halfword(&self, index: usize) -> (r: Option<u16>)
        requires
            self.wf(),
        ensures
            r == self.spec_halfword(index as int),
    {
        if index > usize::MAX - 1 {
            proof {
                self.lemma_out_of_range(index as int + 1);
            }
            return None;
        }
        let b0 = match self.read_byte(index) {
            Some(b) => b,
            None => {
                return None;
            },
        };
        let b1 = match self.read_byte(index + 1) {
            Some(b) => b,
            None => {
                return None;
            },
        };
        proof {
            assert((b0 as u16) | ((b1 as u16) << 8) == le_halfword(b0, b1));
        }
        Some((b0 as u16) | ((b1 as u16) << 8))
    }

    /// Read a word (little-endian); the four bytes may have different
    /// provenance (span or fallback).
    pub fn read_word(&self, index: usize) -> (r: Option<u32>)
        requires
            self.wf(),
        ensures
            r == self.spec_word(index as int),
    {
        if index > usize::MAX - 3 {
            proof {
                self.lemma_out_of_range(index as int + 3);
            }
            return None;
        }
        let b0 = match self.read_byte(index) {
            Some(b) => b,
            None => {
                return None;
            },
        };
        let b1 = match self.read_byte(index + 1) {
            Some(b) => b,
            None => {
                return None;
            },
        };
        let b2 = match self.read_byte(index + 2) {
            Some(b) => b,
            None => {
                return None;
            },
        };
        let b3 = match self.read_byte(index + 3) {
            Some(b) => b,
            None => {
                return None;
            },
        };
        proof {
            assert((b0 as u32) | ((b1 as u32) << 8) | ((b2 as u32) << 16) | ((b3 as u32) << 24)
                == le_word(b0, b1, b2, b3));
        }
        Some((b0 as u32) | ((b1 as u32) << 8) | ((b2 as u32) << 16) | ((b3 as u32) << 24))
    }

    /// Offsets beyond the addressable range are absent.
    proof fn lemma_out_of_range(self, j: int)
        requires
            self.wf(),
            j > usize::MAX - 1,
        ensures
            self.spec_byte(j) is None,
    {
        if self.spec_in_region(j) {
            let k = choose|k: int|
                0 <= k < self.regions@.len() && (#[trigger] self.regions@[k]).spec_contains(j);
            assert(false);
        }
        if self.fallback.spec_has(j) {
            let k = choose|k: int|
                0 <= k < self.fallback.segments@.len() && (#[trigger] self.fallback.segments@[k])
                    .spec_contains(j);
            assert(false);
        }
    }

    /// The tail of the span covering `index`, if one does.
    fn try_read_continuous(&self, index: usize) -> (r: Option<&[u8]>)
        requires
            self.wf(),
        ensures
            match r {
                Some(sl) => {
                    &&& self.spec_in_region(index as int)
                    &&& sl@.len() > 0
                    &&& forall|t: int|
                        0 <= t < sl@.len() ==> self.spec_byte(index + t) == Some(sl@[t])
                },
                None => !self.spec_in_region(index as int),
            },
    {
        let n = self.regions.len();
        let mut k: usize = 0;
        while k < n
            invariant
                self.wf(),
                n == self.regions@.len(),
                k <= n,
                forall|k2: int| 0 <= k2 < k ==> !(#[trigger] self.regions@[k2]).spec_contains(
                    index as int,
                ),
            decreases n - k,
        {
            let region = &self.regions[k];
            if index >= region.index && index - region.index < region.data.len() {
                let rel = index - region.index;
                let sl = vstd::slice::slice_subrange(region.data.as_slice(), rel, region.data.len());
                proof {
                    assert forall|t: int| 0 <= t < sl@.len() implies self.spec_byte(index + t)
                        == Some(sl@[t]) by {
                        assert(self.regions@[k as int].spec_contains(index + t));
                        self.lemma_byte_in_region(k as int, index + t);
                        assert(sl@[t] == region.data@[rel + t]);
                    }
                }
                return Some(sl);
            }
            k += 1;
        }
        proof {
            if self.spec_in_region(index as int) {
                let k2 = choose|k2: int|
                    0 <= k2 < self.regions@.len() && (#[trigger] self.regions@[k2]).spec_contains(
                        index as int,
                    );
                assert(false);
            }
        }
        None
    }
}

} // verus!
