//! Operations on instruction words: field isolation, sign extension, and
//! the word arithmetic the instruction semantics are stated with.

use vstd::prelude::*;

verus! {

/// Bits `[31:26]` of an instruction word.
pub open spec fn spec_opcode(instr: u32) -> u32 {
    (instr >> 26) & 0x3f
}

/// Bits `[5:0]` of an instruction word.
pub open spec fn spec_funct(instr: u32) -> u32 {
    instr & 0x3f
}

/// Bits `[25:21]` of an instruction word.
pub open spec fn spec_rs(instr: u32) -> u32 {
    (instr >> 21) & 0x1f
}

/// Bits `[20:16]` of an instruction word.
pub open spec fn spec_rt(instr: u32) -> u32 {
    (instr >> 16) & 0x1f
}

/// Bits `[15:11]` of an instruction word.
pub open spec fn spec_rd(instr: u32) -> u32 {
    (instr >> 11) & 0x1f
}

/// Bits `[10:6]` of an instruction word.
pub open spec fn spec_shamt(instr: u32) -> u32 {
    (instr >> 6) & 0x1f
}

/// Bits `[15:0]` of an instruction word.
pub open spec fn spec_imm16(instr: u32) -> u16 {
    (instr & 0xffff) as u16
}

/// Bits `[25:0]` of an instruction word.
pub open spec fn spec_target_26(instr: u32) -> u32 {
    instr & 0x3ff_ffff
}

/// Each field fits its width; in particular every register number is a
/// valid index below 32.
pub proof fn lemma_field_bounds(instr: u32)
    by (bit_vector)
    ensures
        spec_opcode(instr) < 64,
        spec_funct(instr) < 64,
        spec_rs(instr) < 32,
        spec_rt(instr) < 32,
        spec_rd(instr) < 32,
        spec_shamt(instr) < 32,
        spec_target_26(instr) < 0x400_0000,
{
}

/// Addition of words, truncated to 32 bits.
pub open spec fn word_add(a: u32, b: u32) -> u32 {
    if a + b < 0x1_0000_0000 {
        (a + b) as u32
    } else {
        (a + b - 0x1_0000_0000) as u32
    }
}

/// Subtraction of words, truncated to 32 bits.
pub open spec fn word_sub(a: u32, b: u32) -> u32 {
    if a >= b {
        (a - b) as u32
    } else {
        (a - b + 0x1_0000_0000) as u32
    }
}

/// The two's-complement value of a word.
pub open spec fn to_signed(w: u32) -> int {
    if w < 0x8000_0000 {
        w as int
    } else {
        w as int - 0x1_0000_0000
    }
}

/// A halfword extended to a word by replicating its sign bit.
pub open spec fn spec_sign_extend16(n: u16) -> u32 {
    if n < 0x8000 {
        n as u32
    } else {
        (n as u32) | 0xffff_0000
    }
}

/// A byte extended to a word by replicating its sign bit.
pub open spec fn spec_sign_extend8(n: u8) -> u32 {
    if n < 0x80 {
        n as u32
    } else {
        (n as u32) | 0xffff_ff00
    }
}

/// The target of a conditional branch: the instruction after the branch,
/// plus the sign-extended offset in words.
pub open spec fn spec_branch_target(pc: u32, offset: u16) -> u32 {
    word_add(word_add(pc, 4), spec_sign_extend16(offset) << 2)
}

/// The target of an absolute jump: the 26-bit field shifted into place,
/// under the top four bits of the PC.
pub open spec fn spec_jump_target(pc: u32, target26: u32) -> u32 {
    (pc & 0xf000_0000) | (target26 << 2)
}

/// Whether a two's-complement addition leaves the 32-bit signed range.
pub open spec fn spec_add_overflows(a: u32, b: u32) -> bool {
    to_signed(a) + to_signed(b) > 0x7fff_ffff || to_signed(a) + to_signed(b) < -0x8000_0000
}

/// Whether a two's-complement subtraction leaves the 32-bit signed range.
pub open spec fn spec_sub_overflows(a: u32, b: u32) -> bool {
    to_signed(a) - to_signed(b) > 0x7fff_ffff || to_signed(a) - to_signed(b) < -0x8000_0000
}

/// An arithmetic (sign-replicating) right shift.
pub open spec fn spec_sra(w: u32, sh: u32) -> u32
    recommends
        sh < 32,
{
    if sh == 0 {
        w
    } else if w < 0x8000_0000 {
        w >> sh
    } else {
        (w >> sh) | (0xffff_ffffu32 << ((32 - sh) as u32))
    }
}

/// The upper word of the 64-bit unsigned product.
pub open spec fn spec_mult_hi(a: u32, b: u32) -> u32 {
    (((a as int) * (b as int)) / 0x1_0000_0000) as u32
}

/// The lower word of the 64-bit unsigned product.
pub open spec fn spec_mult_lo(a: u32, b: u32) -> u32 {
    (((a as int) * (b as int)) % 0x1_0000_0000) as u32
}

/// The hardware-style signed-overflow test: the operands have the same
/// sign, and the truncated sum's sign differs. `r` must be the truncated
/// sum of `n1` and `n2`.
pub fn twos_complement_overflowed(n1: u32, n2: u32, r: u32) -> (b: bool)
    ensures
        b == ((n1 ^ n2) < 0x8000_0000 && (n1 ^ r) >= 0x8000_0000),
{
    (n1 ^ n2) < 0x80000000 && (n1 ^ r) > 0x7fffffff
}

/// The bitwise overflow test agrees with the arithmetic one on a truncated
/// sum.
pub proof fn lemma_add_overflow_bits(a: u32, b: u32)
    ensures
        ((a ^ b) < 0x8000_0000 && (a ^ word_add(a, b)) >= 0x8000_0000) == spec_add_overflows(a, b),
{
    assert(((a ^ b) < 0x8000_0000 && (a ^ word_add(a, b)) >= 0x8000_0000) == spec_add_overflows(
        a,
        b,
    )) by (bit_vector);
}

/// The bitwise overflow test for subtraction: the operands have different
/// signs, and the truncated difference's sign differs from the minuend's.
pub proof fn lemma_sub_overflow_bits(a: u32, b: u32)
    ensures
        ((a ^ b) >= 0x8000_0000 && (a ^ word_sub(a, b)) >= 0x8000_0000) == spec_sub_overflows(
            a,
            b,
        ),
{
    assert(((a ^ b) >= 0x8000_0000 && (a ^ word_sub(a, b)) >= 0x8000_0000) == spec_sub_overflows(
        a,
        b,
    )) by (bit_vector);
}

/// Isolate the opcode field, bits `[31:26]`.
pub fn isolate_opcode(instr: u32) -> (r: u32)
    ensures
        r == spec_opcode(instr),
        r < 64,
{
    proof {
        lemma_field_bounds(instr);
    }
    (instr >> 26) & 0x3f
}

/// Isolate the function field, bits `[5:0]`.
pub fn isolate_funct(instr: u32) -> (r: u32)
    ensures
        r == spec_funct(instr),
        r < 64,
{
    proof {
        lemma_field_bounds(instr);
    }
    instr & 0x3f
}

/// Isolate the first source register field, bits `[25:21]`.
pub fn isolate_rs(instr: u32) -> (r: u32)
    ensures
        r == spec_rs(instr),
        r < 32,
{
    proof {
        lemma_field_bounds(instr);
    }
    (instr >> 21) & 0x1f
}

/// Isolate the second source / target register field, bits `[20:16]`.
pub fn isolate_rt(instr: u32) -> (r: u32)
    ensures
        r == spec_rt(instr),
        r < 32,
{
    proof {
        lemma_field_bounds(instr);
    }
    (instr >> 16) & 0x1f
}

/// Isolate the destination register field, bits `[15:11]`.
pub fn isolate_rd(instr: u32) -> (r: u32)
    ensures
        r == spec_rd(instr),
        r < 32,
{
    proof {
        lemma_field_bounds(instr);
    }
    (instr >> 11) & 0x1f
}

/// Isolate the shift amount field, bits `[10:6]`.
pub fn isolate_shamt(instr: u32) -> (r: u32)
    ensures
        r == spec_shamt(instr),
        r < 32,
{
    proof {
        lemma_field_bounds(instr);
    }
    (instr >> 6) & 0x1f
}

/// Isolate the immediate field, bits `[15:0]`.
pub fn isolate_imm16(instr: u32) -> (r: u16)
    ensures
        r == spec_imm16(instr),
{
    (instr & 0xffff) as u16
}

/// Isolate the jump target field, bits `[25:0]`.
pub fn isolate_target_26(instr: u32) -> (r: u32)
    ensures
        r == spec_target_26(instr),
        r < 0x400_0000,
{
    proof {
        lemma_field_bounds(instr);
    }
    instr & 0x3ff_ffff
}

/// Extend a halfword to a word by replicating its sign bit.
pub fn sign_extend(n: u16) -> (r: u32)
    ensures
        r == spec_sign_extend16(n),
{
    if n < 0x8000 {
        n as u32
    } else {
        (n as u32) | 0xffff_0000
    }
}

/// Extend a byte to a word by replicating its sign bit.
pub fn sign_extend_byte(n: u8) -> (r: u32)
    ensures
        r == spec_sign_extend8(n),
{
    if n < 0x80 {
        n as u32
    } else {
        (n as u32) | 0xffff_ff00
    }
}

/// The target of a conditional branch relative to the branch's own PC.
pub fn branch_target(pc: u32, offset: u16) -> (r: u32)
    ensures
        r == spec_branch_target(pc, offset),
{
    pc.wrapping_add(4).wrapping_add(sign_extend(offset) << 2)
}

/// The target of an absolute jump from the given PC.
pub fn jump_target(pc: u32, target26: u32) -> (r: u32)
    requires
        target26 < 0x400_0000,
    ensures
        r == spec_jump_target(pc, target26),
{
    (pc & 0xf000_0000) | (target26 << 2)
}

} // verus!
