//! Sparse byte storage in 2 KiB frames, allocated zeroed on first touch.

use vstd::prelude::*;

use vstd::arithmetic::div_mod::lemma_fundamental_div_mod;
use vstd::arithmetic::div_mod::lemma_fundamental_div_mod_converse;
use vstd::arithmetic::div_mod::lemma_mod_division_less_than_divisor;
use vstd::arithmetic::mul::lemma_mul_inequality;
use vstd::slice::slice_subrange;

use crate::storage::compose_halfword;
use crate::storage::compose_word;
use crate::storage::le_halfword;
use crate::storage::le_word;

verus! {

/// Frames span 2 KiB.
pub const SEGMENT_SIZE: usize = 2048;

/// The start of the frame holding offset `i`.
pub open spec fn spec_frame_floor(i: int) -> int {
    (i / 2048) * 2048
}

/// Every offset lies inside its own frame, and the frame start is aligned.
pub proof fn lemma_frame_floor_bounds(i: int)
    ensures
        spec_frame_floor(i) <= i < spec_frame_floor(i) + 2048,
        spec_frame_floor(i) % 2048 == 0,
{
    lemma_fundamental_div_mod(i, 2048);
    lemma_mod_division_less_than_divisor(i, 2048);
    let q = i / 2048;
    lemma_fundamental_div_mod_converse(q * 2048, 2048, q, 0);
}

/// An aligned frame start is the floor of every offset it covers.
pub proof fn lemma_floor_of_contained(start: int, i: int)
    requires
        start % 2048 == 0,
        start <= i < start + 2048,
    ensures
        spec_frame_floor(i) == start,
{
    lemma_fundamental_div_mod(start, 2048);
    let q = start / 2048;
    lemma_fundamental_div_mod_converse(i, 2048, q, i - start);
}

/// Distinct aligned frame starts are at least one frame apart.
pub proof fn lemma_aligned_gap(a: int, b: int)
    requires
        a % 2048 == 0,
        b % 2048 == 0,
        a < b,
    ensures
        a + 2048 <= b,
{
    lemma_fundamental_div_mod(a, 2048);
    lemma_fundamental_div_mod(b, 2048);
    let p = a / 2048;
    let q = b / 2048;
    if q < p + 1 {
        lemma_mul_inequality(q, p, 2048);
        assert(false);
    }
    lemma_mul_inequality(p + 1, q, 2048);
}

/// One 2 KiB frame of sparse storage, starting at an aligned offset.
#[derive(Debug)]
pub struct Segment {
    pub index: usize,
    pub data: Vec<u8>,
}

impl Segment {
    /// The frame holds exactly 2 KiB, starts aligned, and ends within the
    /// addressable range.
    pub open spec fn wf(self) -> bool {
        &&& self.data@.len() == 2048
        &&& self.index % 2048 == 0
        &&& self.index <= usize::MAX - 2048
    }

    /// Whether offset `i` falls in this frame.
    pub open spec fn spec_contains(self, i: int) -> bool {
        self.index <= i < self.index + 2048
    }

    /// A fresh, zero-filled frame starting at the given aligned offset.
    pub fn zeroed(index: usize) -> (s: Self)
        requires
            index % 2048 == 0,
            index <= usize::MAX - 2048,
        ensures
            s.wf(),
            s.index == index,
            s.data@ == Seq::new(2048, |_j: int| 0u8),
    {
        Segment { index, data: vec![0u8; 2048] }
    }

    /// The first offset of the frame.
    pub fn start(&self) -> (r: usize)
        ensures
            r == self.index,
    {
        self.index
    }

    /// One past the last offset of the frame.
    pub fn end(&self) -> (r: usize)
        requires
            self.wf(),
        ensures
            r == self.index + 2048,
    {
        self.index + 2048
    }

    /// Whether the absolute offset `index` is located in this frame.
    pub fn contains(&self, index: usize) -> (r: bool)
        ensures
            r == self.spec_contains(index as int),
    {
        index >= self.index && index - self.index < 2048
    }

    /// Turn an absolute offset into a frame-relative one; absent when the
    /// offset lies before the frame.
    pub fn to_relative_index(&self, absolute: usize) -> (r: Option<usize>)
        ensures
            absolute >= self.index ==> r == Some((absolute - self.index) as usize),
            absolute < self.index ==> r is None,
    {
        if absolute >= self.index {
            Some(absolute - self.index)
        } else {
            None
        }
    }

    /// The frame's bytes from the given relative offset to its end.
    pub fn bytes_at(&self, index: usize) -> (r: &[u8])
        requires
            self.wf(),
            index < 2048,
        ensures
            r@ == self.data@.subrange(index as int, 2048),
    {
        slice_subrange(self.data.as_slice(), index, 2048)
    }

    /// Overwrite one byte of the frame at a relative offset.
    pub fn put(&mut self, at: usize, value: u8)
        requires
            old(self).wf(),
            at < 2048,
        ensures
            final(self).wf(),
            final(self).index == old(self).index,
            final(self).data@ == old(self).data@.update(at as int, value),
    {
        self.data[at] = value;
    }
}

/// Sparse storage in 2 KiB frames, kept sorted by start offset. Reads from a
/// never-touched frame return absent; writes allocate zeroed frames on first
/// touch.
#[derive(Debug)]
pub struct SegmentedStore {
    pub segments: Vec<Segment>,
}

impl SegmentedStore {
    /// Every frame is well-formed and the frames are sorted and disjoint.
    pub open spec fn wf(self) -> bool {
        &&& forall|k: int| 0 <= k < self.segments@.len() ==> (#[trigger] self.segments@[k]).wf()
        &&& forall|k1: int, k2: int|
            #![trigger self.segments@[k1], self.segments@[k2]]
            0 <= k1 < k2 < self.segments@.len()
                ==> self.segments@[k1].index + 2048 <= self.segments@[k2].index
    }

    /// Whether some allocated frame covers offset `i`.
    pub open spec fn spec_has(self, i: int) -> bool {
        exists|k: int| 0 <= k < self.segments@.len() && (#[trigger] self.segments@[k]).spec_contains(i)
    }

    /// What a byte read returns: the byte of the covering frame, or absent.
    pub open spec fn spec_byte(self, i: int) -> Option<u8> {
        if self.spec_has(i) {
            let k = choose|k: int|
                0 <= k < self.segments@.len() && (#[trigger] self.segments@[k]).spec_contains(i);
            Some(self.segments@[k].data@[i - self.segments@[k].index])
        } else {
            None
        }
    }

    /// What a halfword read returns.
    pub open spec fn spec_halfword(self, i: int) -> Option<u16> {
        compose_halfword(self.spec_byte(i), self.spec_byte(i + 1))
    }

    /// What a word read returns.
    pub open spec fn spec_word(self, i: int) -> Option<u32> {
        compose_word(self.spec_byte(i), self.spec_byte(i + 1), self.spec_byte(i + 2), self.spec_byte(i + 3))
    }

    /// In a well-formed store, the frame covering an offset is unique, so the
    /// byte read is the one of any covering frame.
    pub proof fn lemma_byte_in_seg(self, k: int, i: int)
        requires
            self.wf(),
            0 <= k < self.segments@.len(),
            self.segments@[k].spec_contains(i),
        ensures
            self.spec_byte(i) == Some(self.segments@[k].data@[i - self.segments@[k].index]),
    {
        assert(self.spec_has(i));
        let k2 = choose|k2: int|
            0 <= k2 < self.segments@.len() && (#[trigger] self.segments@[k2]).spec_contains(i);
        if k2 < k {
            assert(self.segments@[k2].index + 2048 <= self.segments@[k].index);
            assert(false);
        }
        if k < k2 {
            assert(self.segments@[k].index + 2048 <= self.segments@[k2].index);
            assert(false);
        }
    }

    /// A frame covering an offset starts at that offset's frame floor.
    pub proof fn lemma_cover_is_floor(self, k: int, i: int)
        requires
            self.wf(),
            0 <= k < self.segments@.len(),
            self.segments@[k].spec_contains(i),
        ensures
            self.segments@[k].index == spec_frame_floor(i),
    {
        lemma_floor_of_contained(self.segments@[k].index as int, i);
    }

    /// Create an empty store.
    pub fn new() -> (s: Self)
        ensures
            s.wf(),
            s.segments@.len() == 0,
            forall|i: int| s.spec_byte(i) is None,
    {
        let s = SegmentedStore { segments: Vec::new() };
        proof {
            assert(forall|i: int| !s.spec_has(i));
        }
        s
    }

    /// Binary search for the frame starting exactly at `key`: its position,
    /// or the position where such a frame would be inserted.
    fn locate(&self, key: usize) -> (r: Result<usize, usize>)
        requires
            self.wf(),
        ensures
            match r {
                Ok(pos) => pos < self.segments@.len() && self.segments@[pos as int].index == key,
                Err(pos) => {
                    &&& pos <= self.segments@.len()
                    &&& forall|k: int|
                        0 <= k < pos ==> (#[trigger] self.segments@[k]).index < key
                    &&& forall|k: int|
                        pos <= k < self.segments@.len()
                            ==> (#[trigger] self.segments@[k]).index > key
                },
            },
    {
        let mut lo: usize = 0;
        let mut hi: usize = self.segments.len();
        while lo < hi
            invariant
                self.wf(),
                lo <= hi <= self.segments@.len(),
                forall|k: int| 0 <= k < lo ==> (#[trigger] self.segments@[k]).index < key,
                forall|k: int|
                    hi <= k < self.segments@.len() ==> (#[trigger] self.segments@[k]).index > key,
            decreases hi - lo,
        {
            let mid = lo + (hi - lo) / 2;
            let mi = self.segments[mid].index;
            if mi == key {
                return Ok(mid);
            } else if mi < key {
                proof {
                    assert forall|k: int| 0 <= k < mid + 1 implies (#[trigger] self.segments@[k]).index
                        < key by {
                        if k < mid {
                            assert(self.segments@[k].index + 2048 <= self.segments@[mid as int].index);
                        }
                    }
                }
                lo = mid + 1;
            } else {
                proof {
                    assert forall|k: int| mid <= k < self.segments@.len() implies (#[trigger] self
                        .segments@[k]).index > key by {
                        if k > mid {
                            assert(self.segments@[mid as int].index + 2048 <= self.segments@[k].index);
                        }
                    }
                }
                hi = mid;
            }
        }
        Err(lo)
    }

    /// Returns the frame covering `index`, if one is allocated.
    pub fn find_segment(&self, index: usize) -> (r: Option<&Segment>)
        requires
            self.wf(),
        ensures
            match r {
                Some(seg) => {
                    &&& seg.wf()
                    &&& seg.spec_contains(index as int)
                    &&& forall|j: int|
                        seg.spec_contains(j) ==> self.spec_byte(j) == Some(
                            seg.data@[j - seg.index],
                        )
                },
                None => !self.spec_has(index as int),
            },
    {
        let floor = index / 2048 * 2048;
        proof {
            lemma_frame_floor_bounds(index as int);
        }
        match self.locate(floor) {
            Ok(pos) => {
                let seg = &self.segments[pos];
                proof {
                    assert forall|j: int| seg.spec_contains(j) implies self.spec_byte(j) == Some(
                        seg.data@[j - seg.index],
                    ) by {
                        self.lemma_byte_in_seg(pos as int, j);
                    }
                }
                Some(seg)
            },
            Err(_) => {
                proof {
                    if self.spec_has(index as int) {
                        let k = choose|k: int|
                            0 <= k < self.segments@.len() && (#[trigger] self.segments@[k])
                                .spec_contains(index as int);
                        self.lemma_cover_is_floor(k, index as int);
                        assert(false);
                    }
                }
                None
            },
        }
    }

    /// Position of the frame covering `index`, allocating it zero-filled if
    /// no frame covers the offset yet.
    pub fn find_segment_or_insert(&mut self, index: usize) -> (pos: usize)
        requires
            old(self).wf(),
            index <= usize::MAX - 2048,
        ensures
            final(self).wf(),
            pos < final(self).segments@.len(),
            final(self).segments@[pos as int].wf(),
            final(self).segments@[pos as int].spec_contains(index as int),
            final(self).segments@[pos as int].index == spec_frame_floor(index as int),
            old(self).spec_has(index as int) ==> *final(self) == *old(self),
            !old(self).spec_has(index as int) ==> {
                &&& forall|j: int|
                    spec_frame_floor(j) == spec_frame_floor(index as int) ==> final(self).spec_byte(
                        j,
                    ) == Some(0u8)
                &&& forall|j: int|
                    spec_frame_floor(j) != spec_frame_floor(index as int) ==> final(self).spec_byte(
                        j,
                    ) == old(self).spec_byte(j)
            },
    {
        let floor = index / 2048 * 2048;
        proof {
            lemma_frame_floor_bounds(index as int);
        }
        match self.locate(floor) {
            Ok(pos) => {
                proof {
                    assert(self.segments@[pos as int].spec_contains(index as int));
                    assert(self.spec_has(index as int));
                }
                pos
            },
            Err(pos) => {
                proof {
                    if self.spec_has(index as int) {
                        let k = choose|k: int|
                            0 <= k < self.segments@.len() && (#[trigger] self.segments@[k])
                                .spec_contains(index as int);
                        self.lemma_cover_is_floor(k, index as int);
                        assert(false);
                    }
                }
                let ghost pre = *self;
                let seg = Segment::zeroed(floor);
                self.segments.insert(pos, seg);
                proof {
                    let segs = self.segments@;
                    // Sortedness and disjointness survive the insertion.
                    assert forall|k1: int, k2: int|
                        #![trigger segs[k1], segs[k2]]
                        0 <= k1 < k2 < segs.len() implies segs[k1].index + 2048 <= segs[k2].index by {
                        if k1 == pos as int {
                            assert(segs[k2] == pre.segments@[k2 - 1]);
                            lemma_aligned_gap(floor as int, segs[k2].index as int);
                        } else if k2 == pos as int {
                            assert(segs[k1] == pre.segments@[k1]);
                            lemma_aligned_gap(segs[k1].index as int, floor as int);
                        } else {
                            let j1 = if k1 < pos as int { k1 } else { k1 - 1 };
                            let j2 = if k2 < pos as int { k2 } else { k2 - 1 };
                            assert(segs[k1] == pre.segments@[j1]);
                            assert(segs[k2] == pre.segments@[j2]);
                        }
                    }
                    assert(self.wf());
                    // Bytes of the fresh frame read as zero.
                    assert forall|j: int|
                        spec_frame_floor(j) == spec_frame_floor(index as int) implies self
                        .spec_byte(j) == Some(0u8) by {
                        lemma_frame_floor_bounds(j);
                        assert(segs[pos as int].spec_contains(j));
                        self.lemma_byte_in_seg(pos as int, j);
                    }
                    // Bytes of every other frame are untouched.
                    assert forall|j: int|
                        spec_frame_floor(j) != spec_frame_floor(index as int) implies self
                        .spec_byte(j) == pre.spec_byte(j) by {
                        if pre.spec_has(j) {
                            let k = choose|k: int|
                                0 <= k < pre.segments@.len() && (#[trigger] pre.segments@[k])
                                    .spec_contains(j);
                            let k2 = if k < pos as int { k } else { k + 1 };
                            assert(segs[k2] == pre.segments@[k]);
                            pre.lemma_byte_in_seg(k, j);
                            self.lemma_byte_in_seg(k2, j);
                        } else {
                            if self.spec_has(j) {
                                let k = choose|k: int|
                                    0 <= k < segs.len() && (#[trigger] segs[k]).spec_contains(j);
                                if k == pos as int {
                                    self.lemma_cover_is_floor(k, j);
                                    assert(false);
                                } else {
                                    let k0 = if k < pos as int { k } else { k - 1 };
                                    assert(pre.segments@[k0] == segs[k]);
                                    assert(pre.spec_has(j));
                                    assert(false);
                                }
                            }
                        }
                    }
                }
                pos
            },
        }
    }

    /// The continuous chunk of bytes from `index` to the end of its frame,
    /// if that frame is allocated.
    pub fn read_continuous(&self, index: usize) -> (r: Option<&[u8]>)
        requires
            self.wf(),
        ensures
            match r {
                Some(sl) => {
                    &&& sl@.len() == spec_frame_floor(index as int) + 2048 - index
                    &&& forall|t: int|
                        0 <= t < sl@.len() ==> self.spec_byte(index + t) == Some(sl@[t])
                },
                None => !self.spec_has(index as int),
            },
    {
        match self.find_segment(index) {
            Some(seg) => {
                proof {
                    lemma_floor_of_contained(seg.index as int, index as int);
                }
                let rel = index - seg.start();
                let sl = seg.bytes_at(rel);
                proof {
                    assert forall|t: int| 0 <= t < sl@.len() implies self.spec_byte(index + t)
                        == Some(sl@[t]) by {
                        assert(seg.spec_contains(index + t));
                        assert(sl@[t] == seg.data@[index + t - seg.index]);
                    }
                }
                Some(sl)
            },
            None => None,
        }
    }

    /// Read a single byte out of the store.
    pub fn read_byte(&self, index: usize) -> (r: Option<u8>)
        requires
            self.wf(),
        ensures
            r == self.spec_byte(index as int),
    {
        match self.find_segment(index) {
            Some(seg) => {
                let rel = index - seg.start();
                Some(seg.data[rel])
            },
            None => None,
        }
    }

    /// Read a halfword (little-endian) out of the store.
    pub fn read_halfword(&self, index: usize) -> (r: Option<u16>)
        requires
            self.wf(),
        ensures
            r == self.spec_halfword(index as int),
    {
        if index > usize::MAX - 1 {
            proof {
                self.lemma_out_of_range(index as int + 1);
            }
            return None;
        }
        let b0 = match self.read_byte(index) {
            Some(b) => b,
            None => {
                return None;
            },
        };
        let b1 = match self.read_byte(index + 1) {
            Some(b) => b,
            None => {
                return None;
            },
        };
        proof {
            assert((b0 as u16) | ((b1 as u16) << 8) == le_halfword(b0, b1));
        }
        Some((b0 as u16) | ((b1 as u16) << 8))
    }

    /// Read a word (little-endian) out of the store; the four bytes may span
    /// a frame boundary.
    pub fn read_word(&self, index: usize) -> (r: Option<u32>)
        requires
            self.wf(),
        ensures
            r == self.spec_word(index as int),
    {
        if index > usize::MAX - 3 {
            proof {
                self.lemma_out_of_range(index as int + 3);
            }
            return None;
        }
        let b0 = match self.read_byte(index) {
            Some(b) => b,
            None => {
                return None;
            },
        };
        let b1 = match self.read_byte(index + 1) {
            Some(b) => b,
            None => {
                return None;
            },
        };
        let b2 = match self.read_byte(index + 2) {
            Some(b) => b,
            None => {
                return None;
            },
        };
        let b3 = match self.read_byte(index + 3) {
            Some(b) => b,
            None => {
                return None;
            },
        };
        proof {
            assert((b0 as u32) | ((b1 as u32) << 8) | ((b2 as u32) << 16) | ((b3 as u32) << 24)
                == le_word(b0, b1, b2, b3));
        }
        Some((b0 as u32) | ((b1 as u32) << 8) | ((b2 as u32) << 16) | ((b3 as u32) << 24))
    }

    /// Offsets beyond the last addressable frame are absent.
    proof fn lemma_out_of_range(self, j: int)
        requires
            self.wf(),
            j > usize::MAX - 1,
        ensures
            self.spec_byte(j) is None,
    {
        if self.spec_has(j) {
            let k = choose|k: int|
                0 <= k < self.segments@.len() && (#[trigger] self.segments@[k]).spec_contains(j);
            assert(self.segments@[k].index <= usize::MAX - 2048);
            assert(false);
        }
    }

    /// Write one byte at `index`, allocating its frame zero-filled if it is
    /// not allocated yet. Every other byte keeps its read value, or surfaces
    /// as a fresh zero in the newly allocated frame.
    pub fn write_byte(&mut self, index: usize, value: u8)
        requires
            old(self).wf(),
            index <= usize::MAX - 2048,
        ensures
            final(self).wf(),
            final(self).spec_byte(index as int) == Some(value),
            forall|j: int|
                j != index ==> (final(self).spec_byte(j) == old(self).spec_byte(j) || (old(
                    self,
                ).spec_byte(j) is None && final(self).spec_byte(j) == Some(0u8))),
            forall|j: int|
                spec_frame_floor(j) != spec_frame_floor(index as int) ==> final(self).spec_byte(j)
                    == old(self).spec_byte(j),
    {
        let ghost orig = *self;
        let pos = self.find_segment_or_insert(index);
        let ghost mid = *self;
        self.put_present(pos, index, value);
        proof {
            assert forall|j: int|
                j != index implies (self.spec_byte(j) == orig.spec_byte(j) || (orig.spec_byte(
                j,
            ) is None && self.spec_byte(j) == Some(0u8))) by {
                assert(self.spec_byte(j) == mid.spec_byte(j));
                if orig.spec_has(index as int) {
                    assert(mid == orig);
                } else {
                    if spec_frame_floor(j) == spec_frame_floor(index as int) {
                        assert(mid.spec_byte(j) == Some(0u8));
                        if orig.spec_byte(j) is Some {
                            let k = choose|k: int|
                                0 <= k < orig.segments@.len() && (#[trigger] orig.segments@[k])
                                    .spec_contains(j);
                            orig.lemma_cover_is_floor(k, j);
                            lemma_frame_floor_bounds(j);
                            assert(orig.segments@[k].spec_contains(index as int));
                            assert(false);
                        }
                    } else {
                        assert(mid.spec_byte(j) == orig.spec_byte(j));
                    }
                }
            }
            assert forall|j: int|
                spec_frame_floor(j) != spec_frame_floor(index as int) implies self.spec_byte(j)
                    == orig.spec_byte(j) by {
                assert(self.spec_byte(j) == mid.spec_byte(j));
                if orig.spec_has(index as int) {
                    assert(mid == orig);
                } else {
                    assert(mid.spec_byte(j) == orig.spec_byte(j));
                }
            }
        }
    }

    /// Overwrite one byte in the frame at position `pos`, which covers the
    /// absolute offset `at`.
    fn put_present(&mut self, pos: usize, at: usize, value: u8)
        requires
            old(self).wf(),
            pos < old(self).segments@.len(),
            old(self).segments@[pos as int].spec_contains(at as int),
        ensures
            final(self).wf(),
            final(self).segments@.len() == old(self).segments@.len(),
            final(self).spec_byte(at as int) == Some(value),
            forall|j: int| j != at ==> final(self).spec_byte(j) == old(self).spec_byte(j),
            forall|j: int| final(self).spec_has(j) == old(self).spec_has(j),
    {
        let ghost pre = *self;
        let rel = at - self.segments[pos].index;
        let seg = &mut self.segments[pos];
        proof {
            assert(seg.wf());
        }
        seg.put(rel, value);
        proof {
            let segs = self.segments@;
            assert(segs == pre.segments@.update(pos as int, segs[pos as int]));
            assert(segs[pos as int].index == pre.segments@[pos as int].index);
            assert forall|k1: int, k2: int|
                #![trigger segs[k1], segs[k2]]
                0 <= k1 < k2 < segs.len() implies segs[k1].index + 2048 <= segs[k2].index by {
                assert(pre.segments@[k1].index + 2048 <= pre.segments@[k2].index);
                assert(segs[k1].index == pre.segments@[k1].index);
                assert(segs[k2].index == pre.segments@[k2].index);
            }
            assert(self.wf());
            self.lemma_byte_in_seg(pos as int, at as int);
            assert forall|j: int| j != at implies self.spec_byte(j) == pre.spec_byte(j) by {
                if pre.spec_has(j) {
                    let k = choose|k: int|
                        0 <= k < pre.segments@.len() && (#[trigger] pre.segments@[k]).spec_contains(
                            j,
                        );
                    pre.lemma_byte_in_seg(k, j);
                    assert(segs[k].spec_contains(j));
                    self.lemma_byte_in_seg(k, j);
                    if k == pos as int {
                        assert(segs[k].data@[j - segs[k].index] == pre.segments@[k].data@[j
                            - pre.segments@[k].index]);
                    }
                } else {
                    if self.spec_has(j) {
                        let k = choose|k: int|
                            0 <= k < segs.len() && (#[trigger] segs[k]).spec_contains(j);
                        assert(pre.segments@[k].spec_contains(j));
                        assert(false);
                    }
                }
            }
            assert forall|j: int| self.spec_has(j) == pre.spec_has(j) by {
                if pre.spec_has(j) {
                    let k = choose|k: int|
                        0 <= k < pre.segments@.len() && (#[trigger] pre.segments@[k]).spec_contains(
                            j,
                        );
                    assert(segs[k].spec_contains(j));
                }
                if self.spec_has(j) {
                    let k = choose|k: int|
                        0 <= k < segs.len() && (#[trigger] segs[k]).spec_contains(j);
                    assert(pre.segments@[k].spec_contains(j));
                }
            }
        }
    }

    /// Copy `data` into the store starting at `index`, allocating zeroed
    /// frames as needed. Bytes outside the written range keep their read
    /// value, and frames away from the written range are untouched.
    pub fn write(&mut self, index: usize, data: &[u8])
        requires
            old(self).wf(),
            index + data@.len() <= usize::MAX - 2048,
        ensures
            final(self).wf(),
            data@.len() == 0 ==> *final(self) == *old(self),
            forall|j: int|
                index <= j < index + data@.len() ==> final(self).spec_byte(j) == Some(
                    data@[j - index],
                ),
            forall|j: int|
                !(index <= j < index + data@.len()) ==> (final(self).spec_byte(j) == old(
                    self,
                ).spec_byte(j) || (old(self).spec_byte(j) is None && final(self).spec_byte(j)
                    == Some(0u8))),
            forall|j: int|
                data@.len() > 0 && (j < spec_frame_floor(index as int) || j >= spec_frame_floor(
                    index + data@.len() - 1,
                ) + 2048) ==> final(self).spec_byte(j) == old(self).spec_byte(j),
    {
        let ghost orig = *self;
        let mut t: usize = 0;
        while t < data.len()
            invariant
                self.wf(),
                t <= data@.len(),
                index + data@.len() <= usize::MAX - 2048,
                t == 0 ==> *self == orig,
                forall|j: int|
                    index <= j < index + t ==> self.spec_byte(j) == Some(data@[j - index]),
                forall|j: int|
                    !(index <= j < index + t) ==> (self.spec_byte(j) == orig.spec_byte(j) || (
                    orig.spec_byte(j) is None && self.spec_byte(j) == Some(0u8))),
                forall|j: int|
                    t > 0 && (j < spec_frame_floor(index as int) || j >= spec_frame_floor(
                        index + t - 1,
                    ) + 2048) ==> self.spec_byte(j) == orig.spec_byte(j),
            decreases data@.len() - t,
        {
            let at = index + t;
            let ghost pre = *self;
            let pos = self.find_segment_or_insert(at);
            let ghost mid = *self;
            self.put_present(pos, at, data[t]);
            proof {
                lemma_frame_floor_bounds(at as int);
                // Written bytes, including the one just stored.
                assert forall|j: int| index <= j < index + t + 1 implies self.spec_byte(j) == Some(
                    data@[j - index],
                ) by {
                    if j == at {
                    } else {
                        assert(self.spec_byte(j) == mid.spec_byte(j));
                        if pre.spec_has(at as int) {
                            assert(mid == pre);
                        } else {
                            if spec_frame_floor(j) == spec_frame_floor(at as int) {
                                // The frame was just created, yet an earlier
                                // byte of it was already written: that byte's
                                // covering frame is this one, so it existed.
                                assert(pre.spec_byte(j) == Some(data@[j - index]));
                                let k = choose|k: int|
                                    0 <= k < pre.segments@.len() && (#[trigger] pre.segments@[k])
                                        .spec_contains(j);
                                pre.lemma_cover_is_floor(k, j);
                                lemma_frame_floor_bounds(j);
                                assert(pre.segments@[k].spec_contains(at as int));
                                assert(false);
                            } else {
                                assert(mid.spec_byte(j) == pre.spec_byte(j));
                            }
                        }
                    }
                }
                // Unwritten bytes keep their value, or surface as zero.
                assert forall|j: int| !(index <= j < index + t + 1) implies (self.spec_byte(j)
                    == orig.spec_byte(j) || (orig.spec_byte(j) is None && self.spec_byte(j) == Some(
                    0u8,
                ))) by {
                    assert(self.spec_byte(j) == mid.spec_byte(j));
                    if pre.spec_has(at as int) {
                        assert(mid == pre);
                    } else {
                        if spec_frame_floor(j) != spec_frame_floor(at as int) {
                            assert(mid.spec_byte(j) == pre.spec_byte(j));
                        } else {
                            assert(mid.spec_byte(j) == Some(0u8));
                            if pre.spec_byte(j) is Some {
                                let k = choose|k: int|
                                    0 <= k < pre.segments@.len() && (#[trigger] pre.segments@[k])
                                        .spec_contains(j);
                                pre.lemma_cover_is_floor(k, j);
                                lemma_frame_floor_bounds(j);
                                assert(pre.segments@[k].spec_contains(at as int));
                                assert(false);
                            }
                            assert(pre.spec_byte(j) is None);
                            if orig.spec_byte(j) is Some {
                                assert(!(index <= j < index + t));
                                assert(pre.spec_byte(j) == orig.spec_byte(j) || (orig.spec_byte(
                                    j,
                                ) is None && pre.spec_byte(j) == Some(0u8)));
                                assert(false);
                            }
                        }
                    }
                }
                // Frames away from the written range stay untouched.
                assert forall|j: int|
                    j < spec_frame_floor(index as int) || j >= spec_frame_floor(index + t) + 2048
                    implies self.spec_byte(j) == orig.spec_byte(j) by {
                    assert(spec_frame_floor(index as int) <= spec_frame_floor(at as int));
                    if j < spec_frame_floor(index as int) {
                        assert(spec_frame_floor(j) <= j) by { lemma_frame_floor_bounds(j) };
                        assert(spec_frame_floor(j) != spec_frame_floor(at as int));
                    } else {
                        assert(j >= spec_frame_floor(at as int) + 2048);
                        assert(spec_frame_floor(j) > j - 2048) by { lemma_frame_floor_bounds(j) };
                        assert(spec_frame_floor(j) != spec_frame_floor(at as int));
                    }
                    assert(self.spec_byte(j) == mid.spec_byte(j));
                    if pre.spec_has(at as int) {
                        assert(mid == pre);
                    } else {
                        assert(mid.spec_byte(j) == pre.spec_byte(j));
                    }
                    if t > 0 {
                        assert(spec_frame_floor(index + t - 1) <= spec_frame_floor(index + t)) by {
                            lemma_frame_floor_bounds(index + t - 1);
                            lemma_frame_floor_bounds(index + t);
                            if spec_frame_floor(index + t - 1) > spec_frame_floor(index + t) {
                                lemma_aligned_gap(
                                    spec_frame_floor(index + t),
                                    spec_frame_floor(index + t - 1),
                                );
                            }
                        }
                        assert(pre.spec_byte(j) == orig.spec_byte(j));
                    } else {
                        assert(pre == orig);
                    }
                }
            }
            t += 1;
        }
    }
}

} // verus!
