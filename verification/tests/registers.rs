//! Tests of the register file, the decode helpers, the exception codes and
//! the debug dump.

use mips_cpu::cycle::data;
use mips_cpu::exception::Exception;
use mips_cpu::exception::Unstable;
use mips_cpu::object::LabeledBlock;
use mips_cpu::object::Object;
use mips_cpu::register::Registers;
use mips_cpu::Cpu;

#[test]
fn registers_reset_state() {
    let regs = Registers::init();
    assert_eq!(regs.pc, 0x00400000);
    assert_eq!(regs.hi, 0);
    assert_eq!(regs.lo, 0);
    let values = regs.regular_values();
    assert_eq!(values.len(), 32);
    for (i, v) in values.iter().enumerate() {
        let expected = match i {
            8 => 3,
            9 => 4,
            _ => 0,
        };
        assert_eq!(*v, expected);
    }
}

#[test]
fn register_zero_reads_zero_after_write() {
    let mut regs = Registers::init();
    regs.write(0, 0xdeadbeef);
    assert_eq!(regs.r(0).unwrap(), 0);
    regs.write(5, 0xdeadbeef);
    assert_eq!(regs.r(5).unwrap(), 0xdeadbeef);
}

#[test]
fn register_out_of_range_is_a_vm_fault() {
    let regs = Registers::init();
    assert!(matches!(regs.r(32), Err(Unstable::VmError(_))));
    assert!(matches!(regs.r(1000), Err(Unstable::VmError(_))));
}

#[test]
fn link_writes_the_return_address() {
    let mut regs = Registers::init();
    regs.pc = 0x00400008;
    assert!(regs.link(31).is_ok());
    assert_eq!(regs.r(31).unwrap(), 0x0040000c);
    assert!(matches!(regs.link(40), Err(Unstable::VmError(_))));
}

#[test]
fn decode_field_isolation() {
    let instr: u32 = 0x01095021; // addu $10, $8, $9
    assert_eq!(data::isolate_opcode(instr), 0);
    assert_eq!(data::isolate_rs(instr), 8);
    assert_eq!(data::isolate_rt(instr), 9);
    assert_eq!(data::isolate_rd(instr), 10);
    assert_eq!(data::isolate_shamt(instr), 0);
    assert_eq!(data::isolate_funct(instr), 0x21);

    let itype: u32 = (0x9 << 26) | (8 << 21) | (9 << 16) | 0x8123;
    assert_eq!(data::isolate_opcode(itype), 0x9);
    assert_eq!(data::isolate_imm16(itype), 0x8123);

    let jump: u32 = (0x3 << 26) | 0x100004;
    assert_eq!(data::isolate_opcode(jump), 0x3);
    assert_eq!(data::isolate_target_26(jump), 0x100004);
}

#[test]
fn sign_extension() {
    assert_eq!(data::sign_extend(0x0005), 0x00000005);
    assert_eq!(data::sign_extend(0x7fff), 0x00007fff);
    assert_eq!(data::sign_extend(0x8000), 0xffff8000);
    assert_eq!(data::sign_extend(0xffff), 0xffffffff);
    assert_eq!(data::sign_extend_byte(0x7f), 0x0000007f);
    assert_eq!(data::sign_extend_byte(0x80), 0xffffff80);
    assert_eq!(data::sign_extend_byte(0xff), 0xffffffff);
}

#[test]
fn branch_and_jump_targets() {
    // offset +1 from 0x00400008 lands two instructions further
    assert_eq!(data::branch_target(0x00400008, 1), 0x00400010);
    // offset -1 from 0x00400008 lands on 0x00400008 again
    assert_eq!(data::branch_target(0x00400008, 0xffff), 0x00400008);
    assert_eq!(data::jump_target(0x00400000, 0x100004), 0x00400010);
    assert_eq!(data::jump_target(0x90400000, 0), 0x90000000);
}

#[test]
fn overflow_detection() {
    let wrap = |a: u32, b: u32| a.wrapping_add(b);
    assert!(data::twos_complement_overflowed(0x7fffffff, 1, wrap(0x7fffffff, 1)));
    assert!(!data::twos_complement_overflowed(0x7ffffffe, 1, wrap(0x7ffffffe, 1)));
    assert!(data::twos_complement_overflowed(0x80000000, 0xffffffff, wrap(0x80000000, 0xffffffff)));
    assert!(!data::twos_complement_overflowed(0xffffffff, 1, wrap(0xffffffff, 1)));
}

#[test]
fn next_from_exception() {
    let next = mips_cpu::cycle::Next::from(Exception::Trap);
    assert!(matches!(next, mips_cpu::cycle::Next::Exception(Exception::Trap)));
}

#[test]
fn exception_codes() {
    assert_eq!(Exception::AddrLoadFetch.code(), 0x4);
    assert_eq!(Exception::AddrStore.code(), 0x5);
    assert_eq!(Exception::Syscall.code(), 0x8);
    assert_eq!(Exception::Overflow.code(), 0xb);
    assert_eq!(Exception::Trap.code(), 0xc);
}

#[test]
fn dump_format() {
    let cpu = Cpu::new(Object { text: LabeledBlock { raw_data: vec![] } });
    let dump = cpu.dump();
    let mut expected = String::new();
    expected.push_str("PC: 0x00400000 (4194304)\n");
    expected.push_str("HI: 0x00000000 (0)\n");
    expected.push_str("LO: 0x00000000 (0)\n");
    for i in 0..32 {
        let value: u32 = match i {
            8 => 3,
            9 => 4,
            _ => 0,
        };
        expected.push_str(&format!("r{}: 0x{:08x}\n", i, value));
    }
    assert_eq!(dump, expected);
}

#[test]
fn dump_shows_hex_and_decimal() {
    let mut cpu = Cpu::new(Object { text: LabeledBlock { raw_data: vec![] } });
    cpu.registers.pc = 0xdeadbeef;
    cpu.registers.hi = 10;
    let dump = cpu.dump();
    assert!(dump.starts_with("PC: 0xdeadbeef (3735928559)\nHI: 0x0000000a (10)\n"));
}
