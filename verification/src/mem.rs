//! The MIPS32 address-space layout and the memory map.
//!
//! The memory map routes a 32-bit guest address to a section and a
//! section-relative offset, enforcing the access policy and the alignment
//! rules. At a valid, authorized address a load of an absent byte returns
//! zero (sparse semantics); the exceptions are reserved for policy denials,
//! misalignment and addresses outside every section.

use vstd::prelude::*;

use crate::exception::Exception;
use crate::interface::IoInterface;
use crate::program::spec_readable;
use crate::program::spec_section_len;
use crate::program::spec_writable;
use crate::program::Context;
use crate::program::ProgramData;
use crate::program::Section;
use crate::storage::compose_halfword;
use crate::storage::compose_word;

verus! {

/// Start of `.text`, the section holding user code. Execution begins here.
pub const TEXT_START: u32 = 0x00400000;
/// End of `.text`, inclusive.
pub const TEXT_END: u32 = 0x0FFFFFFF;
/// Start of `.extern`, the section reserved for global variables. Like the
/// MARS simulator, the first `2^16` bytes of the static-data region are set
/// aside for globals, so `.data` proper starts `0x10000` bytes later.
pub const EXTERN_START: u32 = 0x10000000;
/// End of `.extern`, inclusive.
pub const EXTERN_END: u32 = 0x1000FFFF;
/// Start of `.data`, the section holding static program data.
pub const DATA_START: u32 = 0x10010000;
/// End of `.data`, inclusive.
pub const DATA_END: u32 = 0x1003FFFF;
/// Start of `.heap`, the region served by the `sbrk` system call.
pub const HEAP_START: u32 = 0x10040000;
/// End of `.heap`, inclusive.
pub const HEAP_END: u32 = 0x7FFFFFFF;
/// Start of `.ktext`, the section holding kernel code.
pub const KTEXT_START: u32 = 0x80000000;
/// End of `.ktext`, inclusive.
pub const KTEXT_END: u32 = 0x8FFFFFFF;
/// Start of `.kdata`, the section holding kernel static data.
pub const KDATA_START: u32 = 0x90000000;
/// End of `.kdata`, inclusive.
pub const KDATA_END: u32 = 0xFFFFFFFF;

/// The section holding a guest address, if any. Addresses below the start
/// of `.text` belong to no section.
pub open spec fn spec_section_of(addr: u32) -> Option<Section> {
    if addr < 0x00400000 {
        None
    } else if addr <= 0x0FFFFFFF {
        Some(Section::Text)
    } else if addr <= 0x1000FFFF {
        Some(Section::Extern)
    } else if addr <= 0x1003FFFF {
        Some(Section::Data)
    } else if addr <= 0x7FFFFFFF {
        Some(Section::Heap)
    } else if addr <= 0x8FFFFFFF {
        Some(Section::Ktext)
    } else {
        Some(Section::Kdata)
    }
}

/// The first guest address of a section.
pub open spec fn spec_section_start(section: Section) -> u32 {
    match section {
        Section::Text => 0x00400000,
        Section::Extern => 0x10000000,
        Section::Data => 0x10010000,
        Section::Heap => 0x10040000,
        Section::Ktext => 0x80000000,
        Section::Kdata => 0x90000000,
    }
}

/// An absent byte at a valid, authorized address loads as zero.
pub open spec fn or_zero_byte(b: Option<u8>) -> u8 {
    match b {
        Some(x) => x,
        None => 0,
    }
}

/// An absent halfword at a valid, authorized address loads as zero.
pub open spec fn or_zero_halfword(h: Option<u16>) -> u16 {
    match h {
        Some(x) => x,
        None => 0,
    }
}

/// An absent word at a valid, authorized address loads as zero.
pub open spec fn or_zero_word(w: Option<u32>) -> u32 {
    match w {
        Some(x) => x,
        None => 0,
    }
}

/// What a user-context byte load returns.
pub open spec fn spec_load_byte(p: ProgramData, addr: u32) -> Result<u8, Exception> {
    match spec_section_of(addr) {
        None => Err(Exception::AddrLoadFetch),
        Some(s) => if !spec_readable(s, Context::User) {
            Err(Exception::AddrLoadFetch)
        } else {
            Ok(or_zero_byte(p.section_byte(s, addr - spec_section_start(s))))
        },
    }
}

/// What a user-context halfword load returns: misaligned addresses raise the
/// load address exception.
pub open spec fn spec_load_halfword(p: ProgramData, addr: u32) -> Result<u16, Exception> {
    if addr % 2 != 0 {
        Err(Exception::AddrLoadFetch)
    } else {
        match spec_section_of(addr) {
            None => Err(Exception::AddrLoadFetch),
            Some(s) => if !spec_readable(s, Context::User) {
                Err(Exception::AddrLoadFetch)
            } else {
                Ok(
                    or_zero_halfword(
                        {
                            let off = addr - spec_section_start(s);
                            compose_halfword(p.section_byte(s, off), p.section_byte(s, off + 1))
                        },
                    ),
                )
            },
        }
    }
}

/// What a user-context word load returns: misaligned addresses raise the
/// load address exception.
pub open spec fn spec_load_word(p: ProgramData, addr: u32) -> Result<u32, Exception> {
    if addr % 4 != 0 {
        Err(Exception::AddrLoadFetch)
    } else {
        match spec_section_of(addr) {
            None => Err(Exception::AddrLoadFetch),
            Some(s) => if !spec_readable(s, Context::User) {
                Err(Exception::AddrLoadFetch)
            } else {
                Ok(
                    or_zero_word(
                        {
                            let off = addr - spec_section_start(s);
                            compose_word(
                                p.section_byte(s, off),
                                p.section_byte(s, off + 1),
                                p.section_byte(s, off + 2),
                                p.section_byte(s, off + 3),
                            )
                        },
                    ),
                )
            },
        }
    }
}

/// Whether a user-context store of `len` bytes at `addr` is accepted: the
/// address must be aligned to `len`, belong to a section, and the section
/// must be writable by user code.
pub open spec fn spec_store_ok(addr: u32, len: int) -> bool {
    &&& addr as int % len == 0
    &&& match spec_section_of(addr) {
        Some(s) => spec_writable(s, Context::User),
        None => false,
    }
}

/// The relation between the image before and after a store of `bytes` at
/// offset `off` of `section`: the bytes are stored, the rest of the section
/// keeps its read value (or surfaces as a fresh zero where sparse storage
/// materialized a frame), and other sections are untouched.
pub open spec fn spec_section_written(
    pre: ProgramData,
    post: ProgramData,
    section: Section,
    off: int,
    bytes: Seq<u8>,
) -> bool {
    &&& forall|j: int|
        off <= j < off + bytes.len() ==> post.section_byte(section, j) == Some(bytes[j - off])
    &&& forall|j: int|
        !(off <= j < off + bytes.len()) ==> (post.section_byte(section, j) == pre.section_byte(
            section,
            j,
        ) || (pre.section_byte(section, j) is None && post.section_byte(section, j) == Some(0u8)))
    &&& forall|s2: Section, j: int|
        s2 != section ==> post.section_byte(s2, j) == pre.section_byte(s2, j)
}

/// An interface mapping guest addresses in the MIPS memory layout to
/// sections of the program image.
#[derive(Debug)]
pub struct MemoryMap {
    pub program: ProgramData,
}

impl MemoryMap {
    /// The backing image is well-formed.
    pub open spec fn wf(self) -> bool {
        self.program.wf()
    }

    /// Create a memory map over a program image.
    pub fn from_program(program: ProgramData) -> (r: MemoryMap)
        ensures
            r.program == program,
    {
        MemoryMap { program }
    }

    /// Route an address to its section: the section's start address and a
    /// read interface, or the load exception when the address is unmapped or
    /// the policy denies user code.
    fn core_load(&self, addr: u32) -> (r: Result<(u32, IoInterface<'_>), Exception>)
        requires
            self.wf(),
        ensures
            match spec_section_of(addr) {
                Some(s) => if spec_readable(s, Context::User) {
                    match r {
                        Ok(pair) => {
                            &&& pair.0 == spec_section_start(s)
                            &&& pair.1.wf()
                            &&& forall|i: int|
                                pair.1.spec_byte(i) == self.program.section_byte(s, i)
                        },
                        Err(_) => false,
                    }
                } else {
                    r matches Err(e) && e == Exception::AddrLoadFetch
                },
                None => r matches Err(e) && e == Exception::AddrLoadFetch,
            },
    {
        let section: Section;
        let start: u32;
        if addr < TEXT_START {
            return Err(Exception::AddrLoadFetch);
        } else if addr <= TEXT_END {
            section = Section::Text;
            start = TEXT_START;
        } else if addr <= EXTERN_END {
            section = Section::Extern;
            start = EXTERN_START;
        } else if addr <= DATA_END {
            section = Section::Data;
            start = DATA_START;
        } else if addr <= HEAP_END {
            section = Section::Heap;
            start = HEAP_START;
        } else if addr <= KTEXT_END {
            section = Section::Ktext;
            start = KTEXT_START;
        } else {
            section = Section::Kdata;
            start = KDATA_START;
        }
        match self.program.read(section, Context::User) {
            Some(io) => Ok((start, io)),
            None => Err(Exception::AddrLoadFetch),
        }
    }

    /// Load a byte under the user context.
    pub fn load_byte(&self, addr: u32) -> (r: Result<u8, Exception>)
        requires
            self.wf(),
        ensures
            r == spec_load_byte(self.program, addr),
    {
        match self.core_load(addr) {
            Ok((sub, io)) => {
                let off = (addr - sub) as usize;
                match io.read_byte(off) {
                    Some(b) => Ok(b),
                    None => Ok(0),
                }
            },
            Err(e) => Err(e),
        }
    }

    /// Load a halfword under the user context. The address must be 2-aligned
    /// or the load address exception is raised.
    pub fn load_halfword(&self, addr: u32) -> (r: Result<u16, Exception>)
        requires
            self.wf(),
        ensures
            r == spec_load_halfword(self.program, addr),
    {
        if addr % 2 != 0 {
            return Err(Exception::AddrLoadFetch);
        }
        match self.core_load(addr) {
            Ok((sub, io)) => {
                let off = (addr - sub) as usize;
                match io.read_halfword(off) {
                    Some(h) => Ok(h),
                    None => Ok(0),
                }
            },
            Err(e) => Err(e),
        }
    }

    /// Load a word under the user context. The address must be 4-aligned or
    /// the load address exception is raised.
    pub fn load_word(&self, addr: u32) -> (r: Result<u32, Exception>)
        requires
            self.wf(),
        ensures
            r == spec_load_word(self.program, addr),
    {
        if addr % 4 != 0 {
            return Err(Exception::AddrLoadFetch);
        }
        match self.core_load(addr) {
            Ok((sub, io)) => {
                let off = (addr - sub) as usize;
                match io.read_word(off) {
                    Some(w) => Ok(w),
                    None => Ok(0),
                }
            },
            Err(e) => Err(e),
        }
    }

    /// Route an address for a store: its section and section-relative
    /// offset, or the store exception.
    fn core_store(&self, addr: u32) -> (r: Result<(Section, usize), Exception>)
        ensures
            match spec_section_of(addr) {
                Some(s) => {
                    &&& r matches Ok(pair) && pair.0 == s && pair.1 == addr
                        - spec_section_start(s)
                    &&& addr - spec_section_start(s) < spec_section_len(s)
                },
                None => r matches Err(e) && e == Exception::AddrStore,
            },
    {
        if addr < TEXT_START {
            Err(Exception::AddrStore)
        } else if addr <= TEXT_END {
            Ok((Section::Text, (addr - TEXT_START) as usize))
        } else if addr <= EXTERN_END {
            Ok((Section::Extern, (addr - EXTERN_START) as usize))
        } else if addr <= DATA_END {
            Ok((Section::Data, (addr - DATA_START) as usize))
        } else if addr <= HEAP_END {
            Ok((Section::Heap, (addr - HEAP_START) as usize))
        } else if addr <= KTEXT_END {
            Ok((Section::Ktext, (addr - KTEXT_START) as usize))
        } else {
            Ok((Section::Kdata, (addr - KDATA_START) as usize))
        }
    }

    /// Store a byte under the user context. A store to an unmapped address
    /// or to a section user code may not write raises the store address
    /// exception and changes nothing.
    pub fn store_byte(&mut self, addr: u32, value: u8) -> (r: Result<(), Exception>)
        requires
            old(self).wf(),
        ensures
            final(self).wf(),
            r is Ok <==> spec_store_ok(addr, 1),
            r is Err ==> (r == Err::<(), Exception>(Exception::AddrStore) && *final(self)
                == *old(self)),
            r is Ok ==> spec_section_written(
                old(self).program,
                final(self).program,
                spec_section_of(addr).unwrap(),
                addr - spec_section_start(spec_section_of(addr).unwrap()),
                seq![value],
            ),
    {
        match self.core_store(addr) {
            Ok((section, off)) => {
                let ok = self.program.write_byte(section, Context::User, off, value);
                if ok {
                    Ok(())
                } else {
                    Err(Exception::AddrStore)
                }
            },
            Err(e) => Err(e),
        }
    }

    /// Store a halfword under the user context. The address must be
    /// 2-aligned; on refusal nothing changes, and the two bytes are stored
    /// little-endian otherwise.
    pub fn store_halfword(&mut self, addr: u32, value: u16) -> (r: Result<(), Exception>)
        requires
            old(self).wf(),
        ensures
            final(self).wf(),
            r is Ok <==> spec_store_ok(addr, 2),
            r is Err ==> (r == Err::<(), Exception>(Exception::AddrStore) && *final(self)
                == *old(self)),
            r is Ok ==> spec_section_written(
                old(self).program,
                final(self).program,
                spec_section_of(addr).unwrap(),
                addr - spec_section_start(spec_section_of(addr).unwrap()),
                seq![(value & 0xFF) as u8, ((value >> 8) & 0xFF) as u8],
            ),
    {
        if addr % 2 != 0 {
            return Err(Exception::AddrStore);
        }
        match self.core_store(addr) {
            Ok((section, off)) => {
                let ghost pre = self.program;
                let ok = self.program.write_byte(
                    section,
                    Context::User,
                    off,
                    (value & 0xFF) as u8,
                );
                if ok {
                    let ghost mid = self.program;
                    let ok2 = self.program.write_byte(
                        section,
                        Context::User,
                        off + 1,
                        ((value >> 8) & 0xFF) as u8,
                    );
                    proof {
                        assert(ok2);
                        let s = section;
                        let o = off as int;
                        let bytes = seq![(value & 0xFF) as u8, ((value >> 8) & 0xFF) as u8];
                        assert forall|j: int| o <= j < o + bytes.len() implies self.program
                            .section_byte(s, j) == Some(bytes[j - o]) by {
                            if j == o {
                                assert(mid.section_byte(s, o) == Some(bytes[0]));
                            }
                        }
                    }
                    Ok(())
                } else {
                    Err(Exception::AddrStore)
                }
            },
            Err(e) => Err(e),
        }
    }

    /// Store a word under the user context. The address must be 4-aligned;
    /// on refusal nothing changes, and the four bytes are stored
    /// little-endian otherwise.
    pub fn store_word(&mut self, addr: u32, value: u32) -> (r: Result<(), Exception>)
        requires
            old(self).wf(),
        ensures
            final(self).wf(),
            r is Ok <==> spec_store_ok(addr, 4),
            r is Err ==> (r == Err::<(), Exception>(Exception::AddrStore) && *final(self)
                == *old(self)),
            r is Ok ==> spec_section_written(
                old(self).program,
                final(self).program,
                spec_section_of(addr).unwrap(),
                addr - spec_section_start(spec_section_of(addr).unwrap()),
                seq![
                    (value & 0xFF) as u8,
                    ((value >> 8) & 0xFF) as u8,
                    ((value >> 16) & 0xFF) as u8,
                    ((value >> 24) & 0xFF) as u8,
                ],
            ),
    {
        if addr % 4 != 0 {
            return Err(Exception::AddrStore);
        }
        match self.core_store(addr) {
            Ok((section, off)) => {
                let ghost pre = self.program;
                let ok = self.program.write_byte(
                    section,
                    Context::User,
                    off,
                    (value & 0xFF) as u8,
                );
                if ok {
                    let ghost m1 = self.program;
                    let ok2 = self.program.write_byte(
                        section,
                        Context::User,
                        off + 1,
                        ((value >> 8) & 0xFF) as u8,
                    );
                    let ghost m2 = self.program;
                    let ok3 = self.program.write_byte(
                        section,
                        Context::User,
                        off + 2,
                        ((value >> 16) & 0xFF) as u8,
                    );
                    let ghost m3 = self.program;
                    let ok4 = self.program.write_byte(
                        section,
                        Context::User,
                        off + 3,
                        ((value >> 24) & 0xFF) as u8,
                    );
                    proof {
                        assert(ok2 && ok3 && ok4);
                        let s = section;
                        let o = off as int;
                        let bytes = seq![
                            (value & 0xFF) as u8,
                            ((value >> 8) & 0xFF) as u8,
                            ((value >> 16) & 0xFF) as u8,
                            ((value >> 24) & 0xFF) as u8,
                        ];
                        assert forall|j: int| o <= j < o + bytes.len() implies self.program
                            .section_byte(s, j) == Some(bytes[j - o]) by {
                            if j == o {
                                assert(m1.section_byte(s, o) == Some(bytes[0]));
                                assert(m2.section_byte(s, o) == Some(bytes[0]));
                                assert(m3.section_byte(s, o) == Some(bytes[0]));
                            } else if j == o + 1 {
                                assert(m2.section_byte(s, j) == Some(bytes[1]));
                                assert(m3.section_byte(s, j) == Some(bytes[1]));
                            } else if j == o + 2 {
                                assert(m3.section_byte(s, j) == Some(bytes[2]));
                            }
                        }
                    }
                    Ok(())
                } else {
                    Err(Exception::AddrStore)
                }
            },
            Err(e) => Err(e),
        }
    }
}

} // verus!
