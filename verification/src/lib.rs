//! A user-mode MIPS32 interpreter.
//!
//! The crate models a small MIPS32 machine: a register file with a program
//! counter and the HI/LO pair, a segmented little-endian address space backed
//! by three kinds of byte storage, and a cycle engine that fetches, decodes
//! and executes one instruction at a time, reporting forward progress, a
//! control transfer, or a precise architectural exception.
//!
//! The engine's behaviour is specified by the machine model in
//! [`cycle::model`]: every cycle of the executable CPU is proved to compute
//! exactly what the model says.

use vstd::prelude::*;

pub mod cycle;
pub mod exception;
pub mod interface;
pub mod laws;
pub mod mem;
pub mod object;
pub mod program;
pub mod register;
pub mod render;
pub mod storage;

use crate::cycle::model::machine_of;
use crate::cycle::model::lemma_fetch_pc_bound;
use crate::cycle::model::step;
use crate::cycle::model::step_mem;
use crate::cycle::model::Step;
use crate::cycle::perform_cycle;
use crate::cycle::Next;
use crate::mem::MemoryMap;
use crate::mem::TEXT_START;
use crate::object::Object;
use crate::program::ProgramData;
use crate::program::Section;
use crate::register::Registers;

verus! {

/// A MIPS bytecode interpreter that runs one program.
#[derive(Debug)]
pub struct Cpu {
    pub memory: MemoryMap,
    pub registers: Registers,
}

impl Cpu {
    /// The memory map and the register file are well-formed.
    pub open spec fn wf(self) -> bool {
        &&& self.memory.wf()
        &&& self.registers.wf()
    }

    /// Prepare a runnable program instance: map the object's `.text` bytes
    /// onto CPU memory and reset the registers.
    pub fn new(obj: Object) -> (cpu: Cpu)
        ensures
            cpu.wf(),
            cpu.registers.pc == TEXT_START,
            cpu.registers.hi == 0,
            cpu.registers.lo == 0,
            cpu.registers.regs() == Registers::spec_reset_regs(),
            forall|j: int|
                0 <= j < obj.text.raw_data@.len() ==> cpu.memory.program.section_byte(
                    Section::Text,
                    j,
                ) == Some(obj.text.raw_data@[j]),
            forall|j: int|
                !(0 <= j < obj.text.raw_data@.len()) ==> cpu.memory.program.section_byte(
                    Section::Text,
                    j,
                ) is None,
            forall|s: Section, j: int|
                s != Section::Text ==> cpu.memory.program.section_byte(s, j) is None,
    {
        let registers = Registers::init();
        let program = ProgramData::builder().text(obj.text.raw_data).build();
        Cpu { memory: MemoryMap::from_program(program), registers }
    }

    /// Run one CPU cycle and update the PC according to the outcome: forward
    /// progress steps to the next instruction, a branch lands on its target,
    /// and an exception or a VM error leaves the PC in place for the driver
    /// to inspect.
    pub fn cycle(&mut self) -> (r: Next)
        requires
            old(self).wf(),
        ensures
            final(self).wf(),
            ({
                let sr = step(old(self).memory.program, machine_of(old(self).registers));
                &&& match sr.out {
                    Step::Forward => r == Next::Forward && final(self).registers.pc == old(
                        self,
                    ).registers.pc + 4,
                    Step::Branch(t) => r == Next::Branch(t) && final(self).registers.pc == t,
                    Step::Exception(e) => r == Next::Exception(e) && final(self).registers.pc
                        == old(self).registers.pc,
                    Step::Stuck => (r matches Next::VmError(_)) && final(self).registers.pc == old(
                        self,
                    ).registers.pc,
                }
                &&& final(self).registers.regs() == sr.m.regs
                &&& final(self).registers.hi == sr.m.hi
                &&& final(self).registers.lo == sr.m.lo
                &&& step_mem(
                    old(self).memory.program,
                    machine_of(old(self).registers),
                    final(self).memory.program,
                )
            }),
    {
        let result = perform_cycle(&mut self.memory, &mut self.registers);

        match &result {
            Next::Forward => {
                proof {
                    lemma_fetch_pc_bound(old(self).memory.program, old(self).registers.pc);
                }
                self.registers.pc = self.registers.pc + 4;
            },
            Next::Branch(value) => {
                self.registers.pc = *value;
            },
            Next::Exception(_) => {},
            Next::VmError(_) => {},
        }

        result
    }

    /// The debug snapshot: PC, HI and LO in hex with decimal echoes, then
    /// the 32 register values in hex, one line each.
    pub fn dump(&self) -> (r: String)
        requires
            self.wf(),
        ensures
            r@ == crate::render::spec_dump(
                self.registers.pc,
                self.registers.hi,
                self.registers.lo,
                self.registers.regs(),
            ),
    {
        let values = self.registers.regular_values();
        crate::render::render_dump(self.registers.pc, self.registers.hi, self.registers.lo, &values)
    }
}

} // verus!
