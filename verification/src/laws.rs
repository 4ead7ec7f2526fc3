//! Machine-wide laws of the interpreter, stated over the cycle model and
//! proved once and for all.

use vstd::prelude::*;

use crate::cycle::data::spec_funct;
use crate::cycle::data::spec_imm16;
use crate::cycle::data::spec_opcode;
use crate::cycle::data::spec_rd;
use crate::cycle::data::spec_rs;
use crate::cycle::data::spec_rt;
use crate::cycle::data::word_add;
use crate::cycle::model::step;
use crate::cycle::model::step_mem;
use crate::cycle::model::store_bytes;
use crate::cycle::model::Machine;
use crate::cycle::model::Step;
use crate::exception::Exception;
use crate::mem::spec_load_word;
use crate::mem::spec_section_of;
use crate::mem::spec_section_start;
use crate::mem::spec_section_written;
use crate::mem::spec_store_ok;
use crate::program::ProgramData;
use crate::program::Section;
use crate::register::Registers;
use crate::storage::le_word;

verus! {

/// Register 0 reads as zero regardless of writes: writing any value to any
/// register of a well-formed register file leaves `$zero` at zero.
pub proof fn r0_reads_zero(r: Registers, n: int, v: u32)
    requires
        r.wf(),
        0 <= n < 32,
    ensures
        r.spec_write(n, v)[0] == 0,
{
}

/// Every cycle preserves the register file's well-formedness; in particular
/// `$zero` still reads as zero afterwards.
#[verifier::rlimit(100)]
pub proof fn step_preserves_wf(prog: ProgramData, m: Machine)
    requires
        m.wf(),
    ensures
        step(prog, m).m.wf(),
        step(prog, m).m.regs[0] == 0,
{
    match spec_load_word(prog, m.pc) {
        Ok(instr) => {
            crate::cycle::data::lemma_field_bounds(instr);
            assert forall|n: int, v: u32| 0 <= n < 32 implies (#[trigger] crate::cycle::model::set_reg(
                m,
                n,
                v,
            )).wf() by {}
        },
        Err(_) => {},
    }
}

/// Whether the instruction about to execute is a register jump (`jr` or
/// `jalr`): the only instructions that can install an arbitrary, possibly
/// misaligned, PC.
pub open spec fn is_register_jump(prog: ProgramData, m: Machine) -> bool {
    match spec_load_word(prog, m.pc) {
        Ok(instr) => spec_opcode(instr) == 0 && (spec_funct(instr) == 0x08 || spec_funct(instr)
            == 0x09),
        Err(_) => false,
    }
}

/// The PC the driver holds after applying a cycle's outcome.
pub open spec fn next_pc(prog: ProgramData, m: Machine) -> u32 {
    match step(prog, m).out {
        Step::Forward => word_add(m.pc, 4),
        Step::Branch(t) => t,
        Step::Exception(_) => m.pc,
        Step::Stuck => m.pc,
    }
}

/// A conditional branch target is word-aligned whenever the branch's own PC
/// is.
proof fn lemma_branch_target_aligned(pc: u32, offset: u16)
    requires
        pc % 4 == 0,
    ensures
        crate::cycle::data::spec_branch_target(pc, offset) % 4 == 0,
{
    assert(crate::cycle::data::spec_branch_target(pc, offset) % 4 == 0) by (bit_vector)
        requires
            pc % 4 == 0,
    ;
}

/// An absolute jump target is always word-aligned.
proof fn lemma_jump_target_aligned(pc: u32, target26: u32)
    ensures
        crate::cycle::data::spec_jump_target(pc, target26) % 4 == 0,
{
    assert(crate::cycle::data::spec_jump_target(pc, target26) % 4 == 0) by (bit_vector);
}

/// The core never forges a misaligned PC: starting from an aligned PC, the
/// PC after the cycle is still aligned, unless the instruction was a
/// register jump (which installs whatever the register holds).
pub proof fn pc_stays_aligned(prog: ProgramData, m: Machine)
    requires
        m.wf(),
        m.pc % 4 == 0,
        !is_register_jump(prog, m),
    ensures
        next_pc(prog, m) % 4 == 0,
{
    let pc = m.pc;
    match spec_load_word(prog, m.pc) {
        Ok(instr) => {
            lemma_branch_target_aligned(pc, spec_imm16(instr));
            lemma_jump_target_aligned(pc, crate::cycle::data::spec_target_26(instr));
            assert(word_add(pc, 4) % 4 == 0) by (bit_vector)
                requires
                    pc % 4 == 0,
            ;
        },
        Err(_) => {},
    }
}

/// Register and memory state after an `Exception` outcome equal the state
/// before the cycle: no instruction writes anything before raising one.
pub proof fn exception_preserves_state(prog: ProgramData, m: Machine, post: ProgramData)
    requires
        m.wf(),
        step(prog, m).out is Exception,
        step_mem(prog, m, post),
    ensures
        step(prog, m).m == m,
        post == prog,
{
}

/// A word load inside the populated `.text` image equals the little-endian
/// interpretation of its four image bytes.
pub proof fn text_load_is_little_endian(p: ProgramData, img: Seq<u8>, a: u32)
    requires
        forall|j: int| 0 <= j < img.len() ==> p.section_byte(Section::Text, j) == Some(img[j]),
        a % 4 == 0,
        0x00400000 <= a <= 0x0FFFFFFF,
        a - 0x00400000 + 3 < img.len(),
    ensures
        spec_load_word(p, a) == Ok::<u32, Exception>(
            le_word(
                img[a - 0x00400000],
                img[a - 0x00400000 + 1],
                img[a - 0x00400000 + 2],
                img[a - 0x00400000 + 3],
            ),
        ),
{
}

/// Reassembling the four little-endian bytes of a word gives the word back.
proof fn lemma_le_word_roundtrip(v: u32)
    ensures
        le_word(
            (v & 0xff) as u8,
            ((v >> 8) & 0xff) as u8,
            ((v >> 16) & 0xff) as u8,
            ((v >> 24) & 0xff) as u8,
        ) == v,
{
    assert(le_word(
        (v & 0xff) as u8,
        ((v >> 8) & 0xff) as u8,
        ((v >> 16) & 0xff) as u8,
        ((v >> 24) & 0xff) as u8,
    ) == v) by (bit_vector);
}

/// Store-then-load round trip: after an accepted word store, a word load at
/// the same (aligned, writable, hence readable) address yields the stored
/// value.
pub proof fn store_then_load_word(pre: ProgramData, post: ProgramData, addr: u32, value: u32)
    requires
        spec_store_ok(addr, 4),
        spec_section_written(
            pre,
            post,
            spec_section_of(addr).unwrap(),
            addr - spec_section_start(spec_section_of(addr).unwrap()),
            store_bytes(value, 4),
        ),
    ensures
        spec_load_word(post, addr) == Ok::<u32, Exception>(value),
{
    lemma_le_word_roundtrip(value);
    let s = spec_section_of(addr).unwrap();
    let off = addr - spec_section_start(s);
    assert(post.section_byte(s, off + 0) == Some(store_bytes(value, 4)[0]));
    assert(post.section_byte(s, off + 1) == Some(store_bytes(value, 4)[1]));
    assert(post.section_byte(s, off + 2) == Some(store_bytes(value, 4)[2]));
    assert(post.section_byte(s, off + 3) == Some(store_bytes(value, 4)[3]));
}

/// Reassembling the two little-endian bytes of a halfword gives the
/// halfword back.
proof fn lemma_le_halfword_roundtrip(v: u16)
    ensures
        crate::storage::le_halfword(
            ((v as u32) & 0xff) as u8,
            (((v as u32) >> 8) & 0xff) as u8,
        ) == v,
{
    assert(crate::storage::le_halfword(
        ((v as u32) & 0xff) as u8,
        (((v as u32) >> 8) & 0xff) as u8,
    ) == v) by (bit_vector);
}

/// Store-then-load round trip for a single byte.
pub proof fn store_then_load_byte(pre: ProgramData, post: ProgramData, addr: u32, value: u8)
    requires
        spec_store_ok(addr, 1),
        spec_section_written(
            pre,
            post,
            spec_section_of(addr).unwrap(),
            addr - spec_section_start(spec_section_of(addr).unwrap()),
            seq![value],
        ),
    ensures
        crate::mem::spec_load_byte(post, addr) == Ok::<u8, Exception>(value),
{
    let s = spec_section_of(addr).unwrap();
    let off = addr - spec_section_start(s);
    assert(post.section_byte(s, off + 0) == Some(seq![value][0]));
}

/// Store-then-load round trip for a halfword at a 2-aligned address.
pub proof fn store_then_load_halfword(pre: ProgramData, post: ProgramData, addr: u32, value: u16)
    requires
        spec_store_ok(addr, 2),
        spec_section_written(
            pre,
            post,
            spec_section_of(addr).unwrap(),
            addr - spec_section_start(spec_section_of(addr).unwrap()),
            seq![((value as u32) & 0xff) as u8, (((value as u32) >> 8) & 0xff) as u8],
        ),
    ensures
        crate::mem::spec_load_halfword(post, addr) == Ok::<u16, Exception>(value),
{
    lemma_le_halfword_roundtrip(value);
    let s = spec_section_of(addr).unwrap();
    let off = addr - spec_section_start(s);
    let bytes = seq![((value as u32) & 0xff) as u8, (((value as u32) >> 8) & 0xff) as u8];
    assert(post.section_byte(s, off + 0) == Some(bytes[0]));
    assert(post.section_byte(s, off + 1) == Some(bytes[1]));
}

/// `lui rt, i1` followed by `ori rt, rt, i2` materializes `(i1 << 16) | i2`
/// into `rt` (a real register: a write to `$zero` is discarded). The two
/// instruction words are the ones fetched at the PC and its successor.
pub proof fn lui_then_ori_materializes(
    prog: ProgramData,
    m: Machine,
    w1: u32,
    w2: u32,
    rt: u32,
    i1: u16,
    i2: u16,
)
    requires
        m.wf(),
        0 < rt < 32,
        spec_load_word(prog, m.pc) == Ok::<u32, Exception>(w1),
        spec_opcode(w1) == 0x0f,
        spec_rt(w1) == rt,
        spec_imm16(w1) == i1,
        spec_load_word(prog, word_add(m.pc, 4)) == Ok::<u32, Exception>(w2),
        spec_opcode(w2) == 0x0d,
        spec_rs(w2) == rt,
        spec_rt(w2) == rt,
        spec_imm16(w2) == i2,
    ensures
        step(prog, m).out is Forward,
        ({
            let m2 = Machine {
                regs: step(prog, m).m.regs,
                pc: word_add(m.pc, 4),
                hi: step(prog, m).m.hi,
                lo: step(prog, m).m.lo,
            };
            &&& step(prog, m2).out is Forward
            &&& step(prog, m2).m.regs[rt as int] == ((i1 as u32) << 16) | (i2 as u32)
        }),
{
}

/// `addu rt, rs, rt` followed by `subu rt, rt, rs` restores `rt` modulo
/// 2^32, for distinct source registers (with `rs == rt` the first sum
/// overwrites the subtrahend, so nothing is restored).
pub proof fn addu_then_subu_restores(
    prog: ProgramData,
    m: Machine,
    w1: u32,
    w2: u32,
    rs: u32,
    rt: u32,
)
    requires
        m.wf(),
        rs < 32,
        rt < 32,
        rs != rt,
        spec_load_word(prog, m.pc) == Ok::<u32, Exception>(w1),
        spec_opcode(w1) == 0,
        spec_funct(w1) == 0x21,
        spec_rd(w1) == rt,
        spec_rs(w1) == rs,
        spec_rt(w1) == rt,
        spec_load_word(prog, word_add(m.pc, 4)) == Ok::<u32, Exception>(w2),
        spec_opcode(w2) == 0,
        spec_funct(w2) == 0x23,
        spec_rd(w2) == rt,
        spec_rs(w2) == rt,
        spec_rt(w2) == rs,
    ensures
        step(prog, m).out is Forward,
        ({
            let m2 = Machine {
                regs: step(prog, m).m.regs,
                pc: word_add(m.pc, 4),
                hi: step(prog, m).m.hi,
                lo: step(prog, m).m.lo,
            };
            &&& step(prog, m2).out is Forward
            &&& step(prog, m2).m.regs[rt as int] == m.regs[rt as int]
        }),
{
}

} // verus!
