//! The program image: six labeled sections with read/write restrictions.

use vstd::prelude::*;

use crate::interface::IoInterface;
use crate::storage::continuous::Continuous;
use crate::storage::hybrid_store::HybridStore;
use crate::storage::segmented_store::SegmentedStore;

verus! {

/// A named position inside a section, like `msg`, `main` or `loop` in an
/// assembly source. The position is relative to the section's start.
#[derive(Debug)]
pub struct Label {
    pub position: usize,
    pub name: String,
}

/// A storage backend together with the labels of the section it backs.
#[derive(Debug)]
pub struct Labeled<S> {
    pub storage: S,
    pub labels: Vec<Label>,
}

impl<S> Labeled<S> {
    /// Wrap a storage backend with an empty label list.
    pub fn with_no_labels(storage: S) -> (r: Self)
        ensures
            r.storage == storage,
            r.labels@.len() == 0,
    {
        Labeled { storage, labels: Vec::new() }
    }
}

/// One of the six sections of the MIPS address-space layout.
#[derive(Clone, Copy, Debug, PartialEq, Eq, Hash, Structural)]
pub enum Section {
    Text,
    Extern,
    Data,
    Heap,
    Ktext,
    Kdata,
}

/// Who is asking for an access: user code, kernel code, or an external
/// writer linking globals into place.
#[derive(Clone, Copy, Debug, PartialEq, Eq, Hash, Structural)]
pub enum Context {
    User,
    Kernel,
    External,
}

/// The read policy: user code reads the four user sections, kernel code
/// reads everything, and an external writer only touches globals.
pub open spec fn spec_readable(section: Section, context: Context) -> bool {
    match context {
        Context::User => match section {
            Section::Text | Section::Extern | Section::Data | Section::Heap => true,
            Section::Ktext | Section::Kdata => false,
        },
        Context::Kernel => true,
        Context::External => section is Extern,
    }
}

/// The write policy: user code writes static data and the heap, kernel code
/// additionally writes kernel data, and an external writer fills globals.
/// Code sections are never written (no self-modifying code).
pub open spec fn spec_writable(section: Section, context: Context) -> bool {
    match context {
        Context::User => section is Data || section is Heap,
        Context::Kernel => section is Data || section is Heap || section is Kdata,
        Context::External => section is Extern,
    }
}

/// Whether `context` may read `section`.
pub fn readable(section: Section, context: Context) -> (r: bool)
    ensures
        r == spec_readable(section, context),
{
    match context {
        Context::User => match section {
            Section::Text | Section::Extern | Section::Data | Section::Heap => true,
            Section::Ktext | Section::Kdata => false,
        },
        Context::Kernel => true,
        Context::External => matches!(section, Section::Extern),
    }
}

/// Whether `context` may write `section`.
pub fn writable(section: Section, context: Context) -> (r: bool)
    ensures
        r == spec_writable(section, context),
{
    match context {
        Context::User => matches!(section, Section::Data | Section::Heap),
        Context::Kernel => matches!(section, Section::Data | Section::Heap | Section::Kdata),
        Context::External => matches!(section, Section::Extern),
    }
}

/// The byte length of each section in the address-space layout.
pub open spec fn spec_section_len(section: Section) -> int {
    match section {
        Section::Text => 0x0FC00000,
        Section::Extern => 0x10000,
        Section::Data => 0x30000,
        Section::Heap => 0x6FFC0000,
        Section::Ktext => 0x10000000,
        Section::Kdata => 0x70000000,
    }
}

/// All data needed to run a MIPS program, with read/write restrictions.
///
/// `.text` and `.ktext` use hybrid storage: code arrives as continuous
/// chunks, while stray reads elsewhere in those large sections fall back to
/// sparse zero-filled frames. `.extern` and `.data` are short and dense, so a
/// flat buffer serves them. The heap and `.kdata` can be large and sparse,
/// so they use segmented storage.
#[derive(Debug)]
pub struct ProgramData {
    pub text: Labeled<HybridStore>,
    pub ext: Labeled<Continuous>,
    pub data: Labeled<Continuous>,
    pub heap: Labeled<SegmentedStore>,
    pub ktext: Labeled<HybridStore>,
    pub kdata: Labeled<SegmentedStore>,
}

impl ProgramData {
    /// Every backend is well-formed, and the flat backends are bounded by
    /// their section's length.
    pub open spec fn wf(self) -> bool {
        &&& self.text.storage.wf()
        &&& self.ext.storage.wf()
        &&& self.data.storage.wf()
        &&& self.heap.storage.wf()
        &&& self.ktext.storage.wf()
        &&& self.kdata.storage.wf()
        &&& self.ext.storage.capacity() == spec_section_len(Section::Extern)
        &&& self.data.storage.capacity() == spec_section_len(Section::Data)
    }

    /// What a byte read at a section-relative offset returns.
    pub open spec fn section_byte(self, section: Section, i: int) -> Option<u8> {
        match section {
            Section::Text => self.text.storage.spec_byte(i),
            Section::Extern => self.ext.storage.spec_byte(i),
            Section::Data => self.data.storage.spec_byte(i),
            Section::Heap => self.heap.storage.spec_byte(i),
            Section::Ktext => self.ktext.storage.spec_byte(i),
            Section::Kdata => self.kdata.storage.spec_byte(i),
        }
    }

    /// Start building a program image.
    pub fn builder() -> (r: ProgramDataBuilder)
        ensures
            r.text is None,
    {
        ProgramDataBuilder::new()
    }

    /// The labels attached to a section.
    pub fn labels(&self, section: Section) -> (r: &Vec<Label>)
        ensures
            r@ == match section {
                Section::Text => self.text.labels@,
                Section::Extern => self.ext.labels@,
                Section::Data => self.data.labels@,
                Section::Heap => self.heap.labels@,
                Section::Ktext => self.ktext.labels@,
                Section::Kdata => self.kdata.labels@,
            },
    {
        match section {
            Section::Text => &self.text.labels,
            Section::Extern => &self.ext.labels,
            Section::Data => &self.data.labels,
            Section::Heap => &self.heap.labels,
            Section::Ktext => &self.ktext.labels,
            Section::Kdata => &self.kdata.labels,
        }
    }

    /// Request to read a memory section. Returns the read interface when the
    /// policy authorizes the context, and nothing otherwise.
    pub fn read(&self, section: Section, context: Context) -> (r: Option<IoInterface<'_>>)
        requires
            self.wf(),
        ensures
            match r {
                Some(io) => {
                    &&& spec_readable(section, context)
                    &&& io.wf()
                    &&& forall|i: int| io.spec_byte(i) == self.section_byte(section, i)
                },
                None => !spec_readable(section, context),
            },
    {
        if !readable(section, context) {
            return None;
        }
        match section {
            Section::Text => Some(IoInterface::Hybrid(&self.text.storage)),
            Section::Extern => Some(IoInterface::Continuous(&self.ext.storage)),
            Section::Data => Some(IoInterface::Continuous(&self.data.storage)),
            Section::Heap => Some(IoInterface::Segmented(&self.heap.storage)),
            Section::Ktext => Some(IoInterface::Hybrid(&self.ktext.storage)),
            Section::Kdata => Some(IoInterface::Segmented(&self.kdata.storage)),
        }
    }

    /// Write one byte at a section-relative offset, if the policy authorizes
    /// the context. On refusal nothing changes; on success the byte is
    /// stored, every other offset of the section keeps its read value (or
    /// surfaces as a fresh zero where sparse storage materialized a frame),
    /// and the other sections are untouched.
    pub fn write_byte(&mut self, section: Section, context: Context, offset: usize, value: u8) -> (ok:
        bool)
        requires
            old(self).wf(),
            offset < spec_section_len(section),
        ensures
            final(self).wf(),
            ok == spec_writable(section, context),
            !ok ==> *final(self) == *old(self),
            ok ==> final(self).section_byte(section, offset as int) == Some(value),
            ok ==> forall|j: int|
                j != offset ==> (final(self).section_byte(section, j) == old(self).section_byte(
                    section,
                    j,
                ) || (old(self).section_byte(section, j) is None && final(self).section_byte(
                    section,
                    j,
                ) == Some(0u8))),
            ok ==> forall|s2: Section, j: int|
                s2 != section ==> final(self).section_byte(s2, j) == old(self).section_byte(s2, j),
            ok ==> {
                &&& final(self).text.labels@ == old(self).text.labels@
                &&& final(self).ext.labels@ == old(self).ext.labels@
                &&& final(self).data.labels@ == old(self).data.labels@
                &&& final(self).heap.labels@ == old(self).heap.labels@
                &&& final(self).ktext.labels@ == old(self).ktext.labels@
                &&& final(self).kdata.labels@ == old(self).kdata.labels@
            },
    {
        if !writable(section, context) {
            return false;
        }
        match section {
            Section::Data => {
                self.data.storage.write_byte(offset, value);
            },
            Section::Heap => {
                self.heap.storage.write_byte(offset, value);
            },
            Section::Kdata => {
                self.kdata.storage.write_byte(offset, value);
            },
            Section::Extern => {
                self.ext.storage.write_byte(offset, value);
            },
            Section::Text | Section::Ktext => {
                proof {
                    assert(false);
                }
            },
        }
        true
    }
}

/// Builder for a program image. The loader hands over the `.text` bytes; the
/// remaining sections start empty.
#[derive(Debug)]
pub struct ProgramDataBuilder {
    pub text: Option<Vec<u8>>,
}

impl ProgramDataBuilder {
    /// A builder with no sections installed yet.
    pub fn new() -> (r: Self)
        ensures
            r.text is None,
    {
        ProgramDataBuilder { text: None }
    }

    /// Install the `.text` bytes, to be placed at the section's start.
    pub fn text(self, text: Vec<u8>) -> (r: Self)
        ensures
            match r.text {
                Some(t) => t@ == text@,
                None => false,
            },
    {
        ProgramDataBuilder { text: Some(text) }
    }

    /// Build the program image: the `.text` image (if any) at offset 0 of
    /// its section, everything else empty.
    pub fn build(self) -> (r: ProgramData)
        ensures
            r.wf(),
            match self.text {
                Some(img) => {
                    &&& forall|j: int|
                        0 <= j < img@.len() ==> r.section_byte(Section::Text, j) == Some(img@[j])
                    &&& forall|j: int|
                        !(0 <= j < img@.len()) ==> r.section_byte(Section::Text, j) is None
                },
                None => forall|j: int| r.section_byte(Section::Text, j) is None,
            },
            forall|s: Section, j: int|
                s != Section::Text ==> r.section_byte(s, j) is None,
    {
        let mut text_store = HybridStore::new();
        match self.text {
            Some(text) => {
                let n = text.len();
                proof {
                    assert(n == text@.len());
                }
                text_store.insert_continuous(0, text);
            },
            None => {},
        }
        let r = ProgramData {
            text: Labeled::with_no_labels(text_store),
            ext: Labeled::with_no_labels(Continuous::init(0x10000)),
            data: Labeled::with_no_labels(Continuous::init(0x30000)),
            heap: Labeled::with_no_labels(SegmentedStore::new()),
            ktext: Labeled::with_no_labels(HybridStore::new()),
            kdata: Labeled::with_no_labels(SegmentedStore::new()),
        };
        r
    }
}

} // verus!
