//! The executable cycle engine, proved against the machine model.

use vstd::prelude::*;

use crate::cycle::data;
use crate::cycle::data::lemma_add_overflow_bits;
use crate::cycle::data::lemma_sub_overflow_bits;
use crate::cycle::data::spec_imm16;
use crate::cycle::data::spec_rd;
use crate::cycle::data::spec_rs;
use crate::cycle::data::spec_rt;
use crate::cycle::data::to_signed;
use crate::cycle::model::machine_of;
use crate::cycle::model::step;
use crate::cycle::model::step_instr;
use crate::cycle::model::step_mem;
use crate::cycle::model::step_regimm;
use crate::cycle::model::step_special;
use crate::cycle::model::store_bytes;
use crate::cycle::model::Step;
use crate::cycle::Next;
use crate::exception::Exception;
use crate::mem::MemoryMap;
use crate::register::Registers;

verus! {

/// Parses instructions in format `i rd, rs, rt`: the destination register
/// index, and the two operand values read by copy. Reading all operands
/// before any write removes register aliasing within a cycle.
fn parse_arithm_r(instr: u32, reg: &Registers) -> (r: (usize, u32, u32))
    requires
        reg.wf(),
    ensures
        r.0 == spec_rd(instr) as usize,
        r.0 < 32,
        r.1 == reg.regs()[spec_rs(instr) as int],
        r.2 == reg.regs()[spec_rt(instr) as int],
{
    let rd = data::isolate_rd(instr) as usize;
    let rs_val = reg.read(data::isolate_rs(instr) as usize);
    let rt_val = reg.read(data::isolate_rt(instr) as usize);
    (rd, rs_val, rt_val)
}

/// Parses instructions in format `i rt, rs, imm16`: the target register
/// index, both register values, and the immediate.
fn parse_arithm_i(instr: u32, reg: &Registers) -> (r: (usize, u32, u32, u16))
    requires
        reg.wf(),
    ensures
        r.0 == spec_rt(instr) as usize,
        r.0 < 32,
        r.1 == reg.regs()[spec_rs(instr) as int],
        r.2 == reg.regs()[spec_rt(instr) as int],
        r.3 == spec_imm16(instr),
{
    let rt = data::isolate_rt(instr) as usize;
    let rs_val = reg.read(data::isolate_rs(instr) as usize);
    let rt_val = reg.read(rt);
    let imm16 = data::isolate_imm16(instr);
    (rt, rs_val, rt_val, imm16)
}

/// Parses instructions in format `i rs, rt`: both operand values.
fn parse_trap_r(instr: u32, reg: &Registers) -> (r: (u32, u32))
    requires
        reg.wf(),
    ensures
        r.0 == reg.regs()[spec_rs(instr) as int],
        r.1 == reg.regs()[spec_rt(instr) as int],
{
    let rs_val = reg.read(data::isolate_rs(instr) as usize);
    let rt_val = reg.read(data::isolate_rt(instr) as usize);
    (rs_val, rt_val)
}

/// Write the link value (PC + 4) into register `n`, which is in range, so
/// the register file cannot fault.
fn do_link(registers: &mut Registers, n: usize)
    requires
        old(registers).wf(),
        n < 32,
    ensures
        final(registers).wf(),
        final(registers).regs() == old(registers).spec_write(
            n as int,
            old(registers).spec_link_value(),
        ),
        final(registers).pc == old(registers).pc,
        final(registers).hi == old(registers).hi,
        final(registers).lo == old(registers).lo,
{
    match registers.link(n) {
        Ok(_) => {},
        Err(_) => {
            proof {
                assert(false);
            }
        },
    }
}

/// Perform the next cycle (as pointed by the current program counter). This
/// function does NOT write to the program counter: the caller is responsible
/// for updating the PC depending on the cycle result.
#[verifier::rlimit(100)]
pub fn perform_cycle(memory: &mut MemoryMap, registers: &mut Registers) -> (r: Next)
    requires
        old(memory).wf(),
        old(registers).wf(),
    ensures
        final(memory).wf(),
        final(registers).wf(),
        final(registers).pc == old(registers).pc,
        ({
            let sr = step(old(memory).program, machine_of(*old(registers)));
            &&& match sr.out {
                Step::Forward => r == Next::Forward,
                Step::Branch(t) => r == Next::Branch(t),
                Step::Exception(e) => r == Next::Exception(e),
                Step::Stuck => r matches Next::VmError(_),
            }
            &&& machine_of(*final(registers)) == sr.m
            &&& step_mem(old(memory).program, machine_of(*old(registers)), final(memory).program)
        }),
{
    let instr = match memory.load_word(registers.pc) {
        Ok(v) => v,
        Err(e) => {
            return Next::Exception(e);
        },
    };

    let opcode = data::isolate_opcode(instr);

    match opcode {
        0x0 => handle_opcode_zero(instr, memory, registers),
        0x1 => handle_opcode_one(instr, memory, registers),

        0x2 => {
            // j target
            let target = data::isolate_target_26(instr);
            Next::Branch(data::jump_target(registers.pc, target))
        },

        0x3 => {
            // jal target
            let target = data::jump_target(registers.pc, data::isolate_target_26(instr));
            do_link(registers, 31);
            Next::Branch(target)
        },

        0x4 => {
            // beq rs, rt, offset
            let (_, rs_val, rt_val, offset) = parse_arithm_i(instr, registers);
            let addr = data::branch_target(registers.pc, offset);
            if rt_val == rs_val {
                Next::Branch(addr)
            } else {
                Next::Forward
            }
        },

        0x5 => {
            // bne rs, rt, offset
            let (_, rs_val, rt_val, offset) = parse_arithm_i(instr, registers);
            let addr = data::branch_target(registers.pc, offset);
            if rt_val != rs_val {
                Next::Branch(addr)
            } else {
                Next::Forward
            }
        },

        0x6 => {
            // blez rs, offset: signed comparison against zero
            let (_, rs_val, _, offset) = parse_arithm_i(instr, registers);
            let addr = data::branch_target(registers.pc, offset);
            if rs_val == 0 || rs_val >= 0x8000_0000 {
                Next::Branch(addr)
            } else {
                Next::Forward
            }
        },

        0x7 => {
            // bgtz rs, offset: signed comparison against zero
            let (_, rs_val, _, offset) = parse_arithm_i(instr, registers);
            let addr = data::branch_target(registers.pc, offset);
            if 1 <= rs_val && rs_val < 0x8000_0000 {
                Next::Branch(addr)
            } else {
                Next::Forward
            }
        },

        0x8 => {
            // addi rt, rs, imm16: overflow raises an exception, rt untouched
            let (rt, rs_val, _, imm16) = parse_arithm_i(instr, registers);
            let addend = data::sign_extend(imm16);
            let sum = rs_val.wrapping_add(addend);
            proof {
                lemma_add_overflow_bits(rs_val, addend);
            }
            if data::twos_complement_overflowed(rs_val, addend, sum) {
                return Next::Exception(Exception::Overflow);
            }
            registers.write(rt, sum);
            Next::Forward
        },

        0x9 => {
            // addiu rt, rs, imm16: wrapping, despite the sign extension
            let (rt, rs_val, _, imm16) = parse_arithm_i(instr, registers);
            registers.write(rt, rs_val.wrapping_add(data::sign_extend(imm16)));
            Next::Forward
        },

        0xa => {
            // slti rt, rs, imm16: signed compare
            let (rt, rs_val, _, imm16) = parse_arithm_i(instr, registers);
            let bound = data::sign_extend(imm16);
            let lt = if (rs_val >= 0x8000_0000) != (bound >= 0x8000_0000) {
                rs_val >= 0x8000_0000
            } else {
                rs_val < bound
            };
            proof {
                assert(lt == (to_signed(rs_val) < to_signed(bound)));
            }
            registers.write(rt, if lt { 1 } else { 0 });
            Next::Forward
        },

        0xb => {
            // sltiu rt, rs, imm16: unsigned compare
            let (rt, rs_val, _, imm16) = parse_arithm_i(instr, registers);
            let lt = rs_val < data::sign_extend(imm16);
            registers.write(rt, if lt { 1 } else { 0 });
            Next::Forward
        },

        0xc => {
            // andi rt, rs, imm16: zero-extended immediate
            let (rt, rs_val, _, imm16) = parse_arithm_i(instr, registers);
            registers.write(rt, rs_val & imm16 as u32);
            Next::Forward
        },

        0xd => {
            // ori rt, rs, imm16: zero-extended immediate
            let (rt, rs_val, _, imm16) = parse_arithm_i(instr, registers);
            registers.write(rt, rs_val | imm16 as u32);
            Next::Forward
        },

        0xe => {
            // xori rt, rs, imm16: zero-extended immediate
            let (rt, rs_val, _, imm16) = parse_arithm_i(instr, registers);
            registers.write(rt, rs_val ^ imm16 as u32);
            Next::Forward
        },

        0xf => {
            // lui rt, imm16
            let hword = data::isolate_imm16(instr);
            let rt = data::isolate_rt(instr) as usize;
            registers.write(rt, (hword as u32) << 16);
            Next::Forward
        },

        0x20 => {
            // lb rt, offset(rs)
            let (rt, rs_val, _, offset) = parse_arithm_i(instr, registers);
            let addr = rs_val.wrapping_add(data::sign_extend(offset));
            match memory.load_byte(addr) {
                Ok(b) => {
                    registers.write(rt, data::sign_extend_byte(b));
                    Next::Forward
                },
                Err(e) => Next::Exception(e),
            }
        },

        0x21 => {
            // lh rt, offset(rs)
            let (rt, rs_val, _, offset) = parse_arithm_i(instr, registers);
            let addr = rs_val.wrapping_add(data::sign_extend(offset));
            match memory.load_halfword(addr) {
                Ok(h) => {
                    registers.write(rt, data::sign_extend(h));
                    Next::Forward
                },
                Err(e) => Next::Exception(e),
            }
        },

        0x23 => {
            // lw rt, offset(rs)
            let (rt, rs_val, _, offset) = parse_arithm_i(instr, registers);
            let addr = rs_val.wrapping_add(data::sign_extend(offset));
            match memory.load_word(addr) {
                Ok(w) => {
                    registers.write(rt, w);
                    Next::Forward
                },
                Err(e) => Next::Exception(e),
            }
        },

        0x24 => {
            // lbu rt, offset(rs)
            let (rt, rs_val, _, offset) = parse_arithm_i(instr, registers);
            let addr = rs_val.wrapping_add(data::sign_extend(offset));
            match memory.load_byte(addr) {
                Ok(b) => {
                    registers.write(rt, b as u32);
                    Next::Forward
                },
                Err(e) => Next::Exception(e),
            }
        },

        0x25 => {
            // lhu rt, offset(rs)
            let (rt, rs_val, _, offset) = parse_arithm_i(instr, registers);
            let addr = rs_val.wrapping_add(data::sign_extend(offset));
            match memory.load_halfword(addr) {
                Ok(h) => {
                    registers.write(rt, h as u32);
                    Next::Forward
                },
                Err(e) => Next::Exception(e),
            }
        },

        0x28 => {
            // sb rt, offset(rs)
            let (_, rs_val, rt_val, offset) = parse_arithm_i(instr, registers);
            let addr = rs_val.wrapping_add(data::sign_extend(offset));
            match memory.store_byte(addr, (rt_val & 0xff) as u8) {
                Ok(_) => {
                    proof {
                        assert(seq![(rt_val & 0xff) as u8] =~= store_bytes(rt_val, 1));
                    }
                    Next::Forward
                },
                Err(e) => Next::Exception(e),
            }
        },

        0x29 => {
            // sh rt, offset(rs)
            let (_, rs_val, rt_val, offset) = parse_arithm_i(instr, registers);
            let addr = rs_val.wrapping_add(data::sign_extend(offset));
            let half = (rt_val & 0xffff) as u16;
            match memory.store_halfword(addr, half) {
                Ok(_) => {
                    proof {
                        assert((half & 0xff) as u8 == (rt_val & 0xff) as u8) by (bit_vector)
                            requires
                                half == (rt_val & 0xffff) as u16,
                        ;
                        assert(((half >> 8) & 0xff) as u8 == ((rt_val >> 8) & 0xff) as u8)
                            by (bit_vector)
                            requires
                                half == (rt_val & 0xffff) as u16,
                        ;
                        assert(seq![(half & 0xff) as u8, ((half >> 8) & 0xff) as u8]
                            =~= store_bytes(rt_val, 2));
                    }
                    Next::Forward
                },
                Err(e) => Next::Exception(e),
            }
        },

        0x2b => {
            // sw rt, offset(rs)
            let (_, rs_val, rt_val, offset) = parse_arithm_i(instr, registers);
            let addr = rs_val.wrapping_add(data::sign_extend(offset));
            match memory.store_word(addr, rt_val) {
                Ok(_) => {
                    proof {
                        assert(seq![
                            (rt_val & 0xff) as u8,
                            ((rt_val >> 8) & 0xff) as u8,
                            ((rt_val >> 16) & 0xff) as u8,
                            ((rt_val >> 24) & 0xff) as u8,
                        ] =~= store_bytes(rt_val, 4));
                    }
                    Next::Forward
                },
                Err(e) => Next::Exception(e),
            }
        },

        _ => Next::VmError(String::from_str("unimplemented opcode")),
    }
}

/// Execute an R-type instruction (opcode 0), dispatching on the function
/// code.
#[verifier::rlimit(100)]
fn handle_opcode_zero(instr: u32, _memory: &mut MemoryMap, registers: &mut Registers) -> (r: Next)
    requires
        old(registers).wf(),
    ensures
        *final(_memory) == *old(_memory),
        final(registers).wf(),
        final(registers).pc == old(registers).pc,
        ({
            let sr = step_special(machine_of(*old(registers)), instr);
            &&& match sr.out {
                Step::Forward => r == Next::Forward,
                Step::Branch(t) => r == Next::Branch(t),
                Step::Exception(e) => r == Next::Exception(e),
                Step::Stuck => r matches Next::VmError(_),
            }
            &&& machine_of(*final(registers)) == sr.m
        }),
{
    let funct = data::isolate_funct(instr);

    match funct {
        0x0 => {
            // sll rd, rt, shamt
            let (rd, _, rt_val) = parse_arithm_r(instr, registers);
            let shamt = data::isolate_shamt(instr);
            registers.write(rd, rt_val << shamt);
        },

        0x2 => {
            // srl rd, rt, shamt
            let (rd, _, rt_val) = parse_arithm_r(instr, registers);
            let shamt = data::isolate_shamt(instr);
            registers.write(rd, rt_val >> shamt);
        },

        0x3 => {
            // sra rd, rt, shamt: the sign bit is replicated into the gap
            let (rd, _, rt_val) = parse_arithm_r(instr, registers);
            let shamt = data::isolate_shamt(instr);
            let shifted = if shamt == 0 {
                rt_val
            } else if rt_val < 0x8000_0000 {
                rt_val >> shamt
            } else {
                (rt_val >> shamt) | (0xffff_ffffu32 << (32 - shamt))
            };
            registers.write(rd, shifted);
        },

        0x4 => {
            // sllv rd, rt, rs: only the low five bits of rs shift
            let (rd, rs_val, rt_val) = parse_arithm_r(instr, registers);
            let amount = rs_val & 0x1f;
            proof {
                assert(amount < 32) by (bit_vector)
                    requires
                        amount == rs_val & 0x1f,
                ;
            }
            registers.write(rd, rt_val << amount);
        },

        0x8 => {
            // jr rs
            let rs_val = registers.read(data::isolate_rs(instr) as usize);
            return Next::Branch(rs_val);
        },

        0x9 => {
            // jalr rs, rd
            let rs_val = registers.read(data::isolate_rs(instr) as usize);
            do_link(registers, data::isolate_rd(instr) as usize);
            return Next::Branch(rs_val);
        },

        0xa => {
            // movz rd, rs, rt
            let (rd, rs_val, rt_val) = parse_arithm_r(instr, registers);
            if rt_val == 0 {
                registers.write(rd, rs_val);
            }
        },

        0xb => {
            // movn rd, rs, rt
            let (rd, rs_val, rt_val) = parse_arithm_r(instr, registers);
            if rt_val != 0 {
                registers.write(rd, rs_val);
            }
        },

        0xc => {
            // syscall: its side effects are out of scope, only the
            // architectural exception is raised
            return Next::Exception(Exception::Syscall);
        },

        0x10 => {
            // mfhi rd
            let rd = data::isolate_rd(instr) as usize;
            let hi = registers.hi;
            registers.write(rd, hi);
        },

        0x11 => {
            // mthi rs
            let rs_val = registers.read(data::isolate_rs(instr) as usize);
            registers.hi = rs_val;
        },

        0x12 => {
            // mflo rd
            let rd = data::isolate_rd(instr) as usize;
            let lo = registers.lo;
            registers.write(rd, lo);
        },

        0x13 => {
            // mtlo rs
            let rs_val = registers.read(data::isolate_rs(instr) as usize);
            registers.lo = rs_val;
        },

        0x19 => {
            // multu rs, rt: widening unsigned multiply into HI and LO
            let (_, rs_val, rt_val) = parse_arithm_r(instr, registers);
            proof {
                vstd::arithmetic::mul::lemma_mul_upper_bound(
                    rs_val as int,
                    0xffff_ffff,
                    rt_val as int,
                    0xffff_ffff,
                );
            }
            let product = (rs_val as u64) * (rt_val as u64);
            let hi = (product >> 32) as u32;
            let lo = (product & 0xffff_ffff) as u32;
            proof {
                assert(hi == crate::cycle::data::spec_mult_hi(rs_val, rt_val) && lo
                    == crate::cycle::data::spec_mult_lo(rs_val, rt_val)) by (bit_vector)
                    requires
                        product == (rs_val as u64) * (rt_val as u64),
                        hi == (product >> 32) as u32,
                        lo == (product & 0xffff_ffff) as u32,
                ;
            }
            registers.hi = hi;
            registers.lo = lo;
        },

        0x20 => {
            // add rd, rs, rt: overflow raises an exception, rd untouched
            let (rd, rs_val, rt_val) = parse_arithm_r(instr, registers);
            let result = u32::wrapping_add(rs_val, rt_val);
            proof {
                lemma_add_overflow_bits(rs_val, rt_val);
            }
            if data::twos_complement_overflowed(rs_val, rt_val, result) {
                return Next::Exception(Exception::Overflow);
            }
            registers.write(rd, result);
        },

        0x21 => {
            // addu rd, rs, rt
            let (rd, rs_val, rt_val) = parse_arithm_r(instr, registers);
            registers.write(rd, u32::wrapping_add(rs_val, rt_val));
        },

        0x22 => {
            // sub rd, rs, rt: overflow raises an exception, rd untouched
            let (rd, rs_val, rt_val) = parse_arithm_r(instr, registers);
            let result = u32::wrapping_sub(rs_val, rt_val);
            proof {
                lemma_sub_overflow_bits(rs_val, rt_val);
            }
            if (rs_val ^ rt_val) >= 0x8000_0000 && (rs_val ^ result) >= 0x8000_0000 {
                return Next::Exception(Exception::Overflow);
            }
            registers.write(rd, result);
        },

        0x23 => {
            // subu rd, rs, rt
            let (rd, rs_val, rt_val) = parse_arithm_r(instr, registers);
            registers.write(rd, u32::wrapping_sub(rs_val, rt_val));
        },

        0x24 => {
            // and rd, rs, rt
            let (rd, rs_val, rt_val) = parse_arithm_r(instr, registers);
            registers.write(rd, rs_val & rt_val);
        },

        0x25 => {
            // or rd, rs, rt
            let (rd, rs_val, rt_val) = parse_arithm_r(instr, registers);
            registers.write(rd, rs_val | rt_val);
        },

        0x26 => {
            // xor rd, rs, rt
            let (rd, rs_val, rt_val) = parse_arithm_r(instr, registers);
            registers.write(rd, rs_val ^ rt_val);
        },

        0x27 => {
            // nor rd, rs, rt
            let (rd, rs_val, rt_val) = parse_arithm_r(instr, registers);
            registers.write(rd, !(rs_val | rt_val));
        },

        0x31 => {
            // tgeu rs, rt
            let (rs_val, rt_val) = parse_trap_r(instr, registers);
            if rs_val >= rt_val {
                return Next::Exception(Exception::Trap);
            } else {
                return Next::Forward;
            }
        },

        0x33 => {
            // tltu rs, rt
            let (rs_val, rt_val) = parse_trap_r(instr, registers);
            if rs_val < rt_val {
                return Next::Exception(Exception::Trap);
            } else {
                return Next::Forward;
            }
        },

        0x34 => {
            // teq rs, rt
            let (rs_val, rt_val) = parse_trap_r(instr, registers);
            if rs_val == rt_val {
                return Next::Exception(Exception::Trap);
            } else {
                return Next::Forward;
            }
        },

        0x36 => {
            // tne rs, rt
            let (rs_val, rt_val) = parse_trap_r(instr, registers);
            if rs_val != rt_val {
                return Next::Exception(Exception::Trap);
            } else {
                return Next::Forward;
            }
        },

        _ => {
            return Next::VmError(String::from_str("unimplemented function code"));
        },
    }

    Next::Forward
}

/// Execute a REGIMM instruction (opcode 1): a branch on a sign condition,
/// possibly linking the return address.
#[verifier::rlimit(100)]
fn handle_opcode_one(instr: u32, _memory: &mut MemoryMap, registers: &mut Registers) -> (r: Next)
    requires
        old(registers).wf(),
    ensures
        *final(_memory) == *old(_memory),
        final(registers).wf(),
        final(registers).pc == old(registers).pc,
        ({
            let sr = step_regimm(machine_of(*old(registers)), instr);
            &&& match sr.out {
                Step::Forward => r == Next::Forward,
                Step::Branch(t) => r == Next::Branch(t),
                Step::Exception(e) => r == Next::Exception(e),
                Step::Stuck => r matches Next::VmError(_),
            }
            &&& machine_of(*final(registers)) == sr.m
        }),
{
    let cond = data::isolate_rt(instr);
    let rs_val = registers.read(data::isolate_rs(instr) as usize);
    let imm16 = data::isolate_imm16(instr);
    let addr = data::branch_target(registers.pc, imm16);

    match cond {
        0x0 => {
            // bltz rs, offset: the sign bit decides
            if rs_val >= 0x8000_0000 {
                Next::Branch(addr)
            } else {
                Next::Forward
            }
        },

        0x1 => {
            // bgez rs, offset
            if rs_val < 0x8000_0000 {
                Next::Branch(addr)
            } else {
                Next::Forward
            }
        },

        0x10 => {
            // bltzal rs, offset: link only on the taken branch
            if rs_val >= 0x8000_0000 {
                do_link(registers, 31);
                Next::Branch(addr)
            } else {
                Next::Forward
            }
        },

        0x11 => {
            // bgezal rs, offset: link only on the taken branch
            if rs_val < 0x8000_0000 {
                do_link(registers, 31);
                Next::Branch(addr)
            } else {
                Next::Forward
            }
        },

        _ => Next::VmError(String::from_str("unimplemented branch condition")),
    }
}

} // verus!
