//! The specification-level machine the cycle engine is proved against.
//!
//! `step` says, for every well-formed pre-state, which outcome a cycle
//! reports and which register values it leaves behind; `step_mem` relates
//! the program image before and after the cycle (only a store changes it).
//! The program counter itself is never written by the engine: the driver
//! applies the outcome.

use vstd::prelude::*;

use crate::cycle::data::spec_add_overflows;
use crate::cycle::data::spec_branch_target;
use crate::cycle::data::spec_funct;
use crate::cycle::data::spec_imm16;
use crate::cycle::data::spec_jump_target;
use crate::cycle::data::spec_mult_hi;
use crate::cycle::data::spec_mult_lo;
use crate::cycle::data::spec_opcode;
use crate::cycle::data::spec_rd;
use crate::cycle::data::spec_rs;
use crate::cycle::data::spec_rt;
use crate::cycle::data::spec_shamt;
use crate::cycle::data::spec_sign_extend16;
use crate::cycle::data::spec_sign_extend8;
use crate::cycle::data::spec_sra;
use crate::cycle::data::spec_sub_overflows;
use crate::cycle::data::spec_target_26;
use crate::cycle::data::to_signed;
use crate::cycle::data::word_add;
use crate::cycle::data::word_sub;
use crate::exception::Exception;
use crate::mem::spec_load_byte;
use crate::mem::spec_load_halfword;
use crate::mem::spec_load_word;
use crate::mem::spec_section_of;
use crate::mem::spec_section_start;
use crate::mem::spec_section_written;
use crate::mem::spec_store_ok;
use crate::program::ProgramData;
use crate::register::Registers;

verus! {

/// The register half of the architectural state: the 32 regular registers,
/// the program counter, and HI/LO.
pub ghost struct Machine {
    pub regs: Seq<u32>,
    pub pc: u32,
    pub hi: u32,
    pub lo: u32,
}

impl Machine {
    /// 32 registers, with `$zero` reading as zero.
    pub open spec fn wf(self) -> bool {
        &&& self.regs.len() == 32
        &&& self.regs[0] == 0
    }
}

/// The register state a register file holds.
pub open spec fn machine_of(r: Registers) -> Machine {
    Machine { regs: r.regs(), pc: r.pc, hi: r.hi, lo: r.lo }
}

/// The outcome of a cycle at the specification level. `Stuck` marks an
/// opcode or function code the engine does not implement; the executable
/// engine reports it as a VM error.
pub ghost enum Step {
    Forward,
    Branch(u32),
    Exception(Exception),
    Stuck,
}

/// What one cycle computes: its outcome and the register state after it.
pub ghost struct StepResult {
    pub out: Step,
    pub m: Machine,
}

/// The machine after writing `v` to register `n`: a write to `$zero` is
/// discarded.
pub open spec fn set_reg(m: Machine, n: int, v: u32) -> Machine {
    Machine {
        regs: if n == 0 {
            m.regs
        } else {
            m.regs.update(n, v)
        },
        pc: m.pc,
        hi: m.hi,
        lo: m.lo,
    }
}

/// Forward progress with the given register state.
pub open spec fn forward(m: Machine) -> StepResult {
    StepResult { out: Step::Forward, m }
}

/// The given outcome with the register state untouched.
pub open spec fn stay(m: Machine, out: Step) -> StepResult {
    StepResult { out, m }
}

/// One cycle's effect for an R-type instruction (opcode 0), by function
/// code.
pub open spec fn step_special(m: Machine, instr: u32) -> StepResult {
    let f = spec_funct(instr);
    let rs = m.regs[spec_rs(instr) as int];
    let rt = m.regs[spec_rt(instr) as int];
    let rd = spec_rd(instr) as int;
    let sh = spec_shamt(instr);
    if f == 0x00 {
        // sll rd, rt, shamt
        forward(set_reg(m, rd, rt << sh))
    } else if f == 0x02 {
        // srl rd, rt, shamt
        forward(set_reg(m, rd, rt >> sh))
    } else if f == 0x03 {
        // sra rd, rt, shamt
        forward(set_reg(m, rd, spec_sra(rt, sh)))
    } else if f == 0x04 {
        // sllv rd, rt, rs
        forward(set_reg(m, rd, rt << (rs & 0x1f)))
    } else if f == 0x08 {
        // jr rs
        stay(m, Step::Branch(rs))
    } else if f == 0x09 {
        // jalr rs, rd
        StepResult { out: Step::Branch(rs), m: set_reg(m, rd, word_add(m.pc, 4)) }
    } else if f == 0x0a {
        // movz rd, rs, rt
        if rt == 0 {
            forward(set_reg(m, rd, rs))
        } else {
            forward(m)
        }
    } else if f == 0x0b {
        // movn rd, rs, rt
        if rt != 0 {
            forward(set_reg(m, rd, rs))
        } else {
            forward(m)
        }
    } else if f == 0x0c {
        // syscall: no side effects in user mode, only the exception
        stay(m, Step::Exception(Exception::Syscall))
    } else if f == 0x10 {
        // mfhi rd
        forward(set_reg(m, rd, m.hi))
    } else if f == 0x11 {
        // mthi rs
        forward(Machine { hi: rs, ..m })
    } else if f == 0x12 {
        // mflo rd
        forward(set_reg(m, rd, m.lo))
    } else if f == 0x13 {
        // mtlo rs
        forward(Machine { lo: rs, ..m })
    } else if f == 0x19 {
        // multu rs, rt
        forward(Machine { hi: spec_mult_hi(rs, rt), lo: spec_mult_lo(rs, rt), ..m })
    } else if f == 0x20 {
        // add rd, rs, rt
        if spec_add_overflows(rs, rt) {
            stay(m, Step::Exception(Exception::Overflow))
        } else {
            forward(set_reg(m, rd, word_add(rs, rt)))
        }
    } else if f == 0x21 {
        // addu rd, rs, rt
        forward(set_reg(m, rd, word_add(rs, rt)))
    } else if f == 0x22 {
        // sub rd, rs, rt
        if spec_sub_overflows(rs, rt) {
            stay(m, Step::Exception(Exception::Overflow))
        } else {
            forward(set_reg(m, rd, word_sub(rs, rt)))
        }
    } else if f == 0x23 {
        // subu rd, rs, rt
        forward(set_reg(m, rd, word_sub(rs, rt)))
    } else if f == 0x24 {
        // and rd, rs, rt
        forward(set_reg(m, rd, rs & rt))
    } else if f == 0x25 {
        // or rd, rs, rt
        forward(set_reg(m, rd, rs | rt))
    } else if f == 0x26 {
        // xor rd, rs, rt
        forward(set_reg(m, rd, rs ^ rt))
    } else if f == 0x27 {
        // nor rd, rs, rt
        forward(set_reg(m, rd, !(rs | rt)))
    } else if f == 0x31 {
        // tgeu rs, rt
        if rs >= rt {
            stay(m, Step::Exception(Exception::Trap))
        } else {
            forward(m)
        }
    } else if f == 0x33 {
        // tltu rs, rt
        if rs < rt {
            stay(m, Step::Exception(Exception::Trap))
        } else {
            forward(m)
        }
    } else if f == 0x34 {
        // teq rs, rt
        if rs == rt {
            stay(m, Step::Exception(Exception::Trap))
        } else {
            forward(m)
        }
    } else if f == 0x36 {
        // tne rs, rt
        if rs != rt {
            stay(m, Step::Exception(Exception::Trap))
        } else {
            forward(m)
        }
    } else {
        stay(m, Step::Stuck)
    }
}

/// One cycle's effect for a REGIMM instruction (opcode 1), by the condition
/// encoded in the `rt` field. A negative word has its sign bit set.
pub open spec fn step_regimm(m: Machine, instr: u32) -> StepResult {
    let cond = spec_rt(instr);
    let rs = m.regs[spec_rs(instr) as int];
    let target = spec_branch_target(m.pc, spec_imm16(instr));
    if cond == 0x00 {
        // bltz rs, offset
        if rs >= 0x8000_0000 {
            stay(m, Step::Branch(target))
        } else {
            forward(m)
        }
    } else if cond == 0x01 {
        // bgez rs, offset
        if rs < 0x8000_0000 {
            stay(m, Step::Branch(target))
        } else {
            forward(m)
        }
    } else if cond == 0x10 {
        // bltzal rs, offset
        if rs >= 0x8000_0000 {
            StepResult { out: Step::Branch(target), m: set_reg(m, 31, word_add(m.pc, 4)) }
        } else {
            forward(m)
        }
    } else if cond == 0x11 {
        // bgezal rs, offset
        if rs < 0x8000_0000 {
            StepResult { out: Step::Branch(target), m: set_reg(m, 31, word_add(m.pc, 4)) }
        } else {
            forward(m)
        }
    } else {
        stay(m, Step::Stuck)
    }
}

/// One cycle's effect given the fetched instruction word.
pub open spec fn step_instr(prog: ProgramData, m: Machine, instr: u32) -> StepResult {
    let op = spec_opcode(instr);
    let rs = m.regs[spec_rs(instr) as int];
    let rt = m.regs[spec_rt(instr) as int];
    let rt_idx = spec_rt(instr) as int;
    let imm = spec_imm16(instr);
    if op == 0x00 {
        step_special(m, instr)
    } else if op == 0x01 {
        step_regimm(m, instr)
    } else if op == 0x02 {
        // j target
        stay(m, Step::Branch(spec_jump_target(m.pc, spec_target_26(instr))))
    } else if op == 0x03 {
        // jal target
        StepResult {
            out: Step::Branch(spec_jump_target(m.pc, spec_target_26(instr))),
            m: set_reg(m, 31, word_add(m.pc, 4)),
        }
    } else if op == 0x04 {
        // beq rs, rt, offset
        if rs == rt {
            stay(m, Step::Branch(spec_branch_target(m.pc, imm)))
        } else {
            forward(m)
        }
    } else if op == 0x05 {
        // bne rs, rt, offset
        if rs != rt {
            stay(m, Step::Branch(spec_branch_target(m.pc, imm)))
        } else {
            forward(m)
        }
    } else if op == 0x06 {
        // blez rs, offset
        if rs == 0 || rs >= 0x8000_0000 {
            stay(m, Step::Branch(spec_branch_target(m.pc, imm)))
        } else {
            forward(m)
        }
    } else if op == 0x07 {
        // bgtz rs, offset
        if 1 <= rs && rs < 0x8000_0000 {
            stay(m, Step::Branch(spec_branch_target(m.pc, imm)))
        } else {
            forward(m)
        }
    } else if op == 0x08 {
        // addi rt, rs, imm16
        if spec_add_overflows(rs, spec_sign_extend16(imm)) {
            stay(m, Step::Exception(Exception::Overflow))
        } else {
            forward(set_reg(m, rt_idx, word_add(rs, spec_sign_extend16(imm))))
        }
    } else if op == 0x09 {
        // addiu rt, rs, imm16
        forward(set_reg(m, rt_idx, word_add(rs, spec_sign_extend16(imm))))
    } else if op == 0x0a {
        // slti rt, rs, imm16
        forward(
            set_reg(
                m,
                rt_idx,
                if to_signed(rs) < to_signed(spec_sign_extend16(imm)) {
                    1u32
                } else {
                    0u32
                },
            ),
        )
    } else if op == 0x0b {
        // sltiu rt, rs, imm16
        forward(
            set_reg(
                m,
                rt_idx,
                if rs < spec_sign_extend16(imm) {
                    1u32
                } else {
                    0u32
                },
            ),
        )
    } else if op == 0x0c {
        // andi rt, rs, imm16
        forward(set_reg(m, rt_idx, rs & (imm as u32)))
    } else if op == 0x0d {
        // ori rt, rs, imm16
        forward(set_reg(m, rt_idx, rs | (imm as u32)))
    } else if op == 0x0e {
        // xori rt, rs, imm16
        forward(set_reg(m, rt_idx, rs ^ (imm as u32)))
    } else if op == 0x0f {
        // lui rt, imm16
        forward(set_reg(m, rt_idx, (imm as u32) << 16))
    } else if op == 0x20 {
        // lb rt, offset(rs)
        match spec_load_byte(prog, word_add(rs, spec_sign_extend16(imm))) {
            Ok(b) => forward(set_reg(m, rt_idx, spec_sign_extend8(b))),
            Err(e) => stay(m, Step::Exception(e)),
        }
    } else if op == 0x21 {
        // lh rt, offset(rs)
        match spec_load_halfword(prog, word_add(rs, spec_sign_extend16(imm))) {
            Ok(h) => forward(set_reg(m, rt_idx, spec_sign_extend16(h))),
            Err(e) => stay(m, Step::Exception(e)),
        }
    } else if op == 0x23 {
        // lw rt, offset(rs)
        match spec_load_word(prog, word_add(rs, spec_sign_extend16(imm))) {
            Ok(w) => forward(set_reg(m, rt_idx, w)),
            Err(e) => stay(m, Step::Exception(e)),
        }
    } else if op == 0x24 {
        // lbu rt, offset(rs)
        match spec_load_byte(prog, word_add(rs, spec_sign_extend16(imm))) {
            Ok(b) => forward(set_reg(m, rt_idx, b as u32)),
            Err(e) => stay(m, Step::Exception(e)),
        }
    } else if op == 0x25 {
        // lhu rt, offset(rs)
        match spec_load_halfword(prog, word_add(rs, spec_sign_extend16(imm))) {
            Ok(h) => forward(set_reg(m, rt_idx, h as u32)),
            Err(e) => stay(m, Step::Exception(e)),
        }
    } else if op == 0x28 {
        // sb rt, offset(rs)
        if spec_store_ok(word_add(rs, spec_sign_extend16(imm)), 1) {
            forward(m)
        } else {
            stay(m, Step::Exception(Exception::AddrStore))
        }
    } else if op == 0x29 {
        // sh rt, offset(rs)
        if spec_store_ok(word_add(rs, spec_sign_extend16(imm)), 2) {
            forward(m)
        } else {
            stay(m, Step::Exception(Exception::AddrStore))
        }
    } else if op == 0x2b {
        // sw rt, offset(rs)
        if spec_store_ok(word_add(rs, spec_sign_extend16(imm)), 4) {
            forward(m)
        } else {
            stay(m, Step::Exception(Exception::AddrStore))
        }
    } else {
        stay(m, Step::Stuck)
    }
}

/// One full cycle: fetch the word at the PC, then decode and execute it. A
/// fetch failure is the fetched exception with nothing changed.
pub open spec fn step(prog: ProgramData, m: Machine) -> StepResult {
    match spec_load_word(prog, m.pc) {
        Ok(instr) => step_instr(prog, m, instr),
        Err(e) => stay(m, Step::Exception(e)),
    }
}

/// A successful fetch pins the PC to a word-aligned address in a section
/// user code may read, so the next sequential PC cannot overflow a word.
pub proof fn lemma_fetch_pc_bound(prog: ProgramData, pc: u32)
    requires
        spec_load_word(prog, pc) is Ok,
    ensures
        pc % 4 == 0,
        pc <= 0x7fff_fffc,
{
}

/// The little-endian bytes a store instruction writes out of `rt`.
pub open spec fn store_bytes(rt: u32, len: int) -> Seq<u8> {
    if len == 1 {
        seq![(rt & 0xff) as u8]
    } else if len == 2 {
        seq![(rt & 0xff) as u8, ((rt >> 8) & 0xff) as u8]
    } else {
        seq![
            (rt & 0xff) as u8,
            ((rt >> 8) & 0xff) as u8,
            ((rt >> 16) & 0xff) as u8,
            ((rt >> 24) & 0xff) as u8,
        ]
    }
}

/// How the program image before a cycle relates to the image after it: a
/// store instruction that is accepted writes its bytes, and every other
/// cycle leaves the image untouched.
pub open spec fn step_mem(prog: ProgramData, m: Machine, post: ProgramData) -> bool {
    match spec_load_word(prog, m.pc) {
        Err(_) => post == prog,
        Ok(instr) => {
            let op = spec_opcode(instr);
            let rs = m.regs[spec_rs(instr) as int];
            let rt = m.regs[spec_rt(instr) as int];
            let addr = word_add(rs, spec_sign_extend16(spec_imm16(instr)));
            let len: int = if op == 0x28 {
                1
            } else if op == 0x29 {
                2
            } else if op == 0x2b {
                4
            } else {
                0
            };
            if len > 0 && spec_store_ok(addr, len) {
                spec_section_written(
                    prog,
                    post,
                    spec_section_of(addr).unwrap(),
                    addr - spec_section_start(spec_section_of(addr).unwrap()),
                    store_bytes(rt, len),
                )
            } else {
                post == prog
            }
        },
    }
}

} // verus!
