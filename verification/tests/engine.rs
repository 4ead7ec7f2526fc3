//! End-to-end tests of the cycle engine: whole programs run through the CPU.

use mips_cpu::cycle::Next;
use mips_cpu::exception::Exception;
use mips_cpu::object::LabeledBlock;
use mips_cpu::object::Object;
use mips_cpu::Cpu;

fn rtype(rs: u32, rt: u32, rd: u32, shamt: u32, funct: u32) -> u32 {
    (rs << 21) | (rt << 16) | (rd << 11) | (shamt << 6) | funct
}

fn itype(op: u32, rs: u32, rt: u32, imm16: u32) -> u32 {
    (op << 26) | (rs << 21) | (rt << 16) | (imm16 & 0xffff)
}

fn jtype(op: u32, target26: u32) -> u32 {
    (op << 26) | target26
}

fn program(words: &[u32]) -> Cpu {
    let mut raw_data = Vec::new();
    for w in words {
        raw_data.extend_from_slice(&w.to_le_bytes());
    }
    Cpu::new(Object { text: LabeledBlock { raw_data } })
}

fn reg(cpu: &Cpu, n: usize) -> u32 {
    match cpu.registers.r(n) {
        Ok(v) => v,
        Err(_) => panic!("register read fault"),
    }
}

#[test]
fn three_register_add() {
    // addu $10, $8, $9 with the reset seeds $8 = 3, $9 = 4
    let mut cpu = program(&[0x01095021]);
    assert_eq!(rtype(8, 9, 10, 0, 0x21), 0x01095021);
    let out = cpu.cycle();
    assert!(matches!(out, Next::Forward));
    assert_eq!(reg(&cpu, 10), 7);
    assert_eq!(cpu.registers.pc, 0x00400004);
}

#[test]
fn immediate_add_and_branch() {
    let mut cpu = program(&[
        itype(0x9, 0, 8, 5),   // addiu $8, $0, 5
        itype(0x9, 0, 9, 5),   // addiu $9, $0, 5
        itype(0x4, 8, 9, 1),   // beq $8, $9, +1
        itype(0x9, 0, 10, 999),// addiu $10, $0, 999 (skipped)
        itype(0x9, 0, 11, 1),  // addiu $11, $0, 1
    ]);
    assert!(matches!(cpu.cycle(), Next::Forward));
    assert!(matches!(cpu.cycle(), Next::Forward));
    let branch = cpu.cycle();
    assert!(matches!(branch, Next::Branch(0x00400010)));
    assert_eq!(cpu.registers.pc, 0x00400010);
    assert!(matches!(cpu.cycle(), Next::Forward));
    assert!(matches!(cpu.cycle(), Next::Forward));
    assert_eq!(reg(&cpu, 8), 5);
    assert_eq!(reg(&cpu, 9), 5);
    assert_eq!(reg(&cpu, 10), 0);
    assert_eq!(reg(&cpu, 11), 1);
}

#[test]
fn overflow_trap() {
    let mut cpu = program(&[
        itype(0xf, 0, 8, 0x7fff),  // lui $8, 0x7FFF
        itype(0xd, 8, 8, 0xffff),  // ori $8, $8, 0xFFFF
        itype(0x8, 8, 9, 1),       // addi $9, $8, 1
    ]);
    assert!(matches!(cpu.cycle(), Next::Forward));
    assert!(matches!(cpu.cycle(), Next::Forward));
    let before = reg(&cpu, 9);
    let out = cpu.cycle();
    assert!(matches!(out, Next::Exception(Exception::Overflow)));
    assert_eq!(reg(&cpu, 9), before);
    assert_eq!(reg(&cpu, 8), 0x7fffffff);
}

#[test]
fn addiu_wraps_without_exception() {
    let mut cpu = program(&[
        itype(0xf, 0, 8, 0x7fff),  // lui $8, 0x7FFF
        itype(0xd, 8, 8, 0xffff),  // ori $8, $8, 0xFFFF
        itype(0x9, 8, 9, 1),       // addiu $9, $8, 1
    ]);
    cpu.cycle();
    cpu.cycle();
    let out = cpu.cycle();
    assert!(matches!(out, Next::Forward));
    assert_eq!(reg(&cpu, 9), 0x80000000);
}

#[test]
fn jump_and_link() {
    // jal 0x100004 from 0x00400000
    let mut cpu = program(&[jtype(0x3, 0x100004)]);
    let out = cpu.cycle();
    assert!(matches!(out, Next::Branch(0x00400010)));
    assert_eq!(cpu.registers.pc, 0x00400010);
    assert_eq!(reg(&cpu, 31), 0x00400004);
}

#[test]
fn load_byte_sign_extension() {
    let mut cpu = program(&[
        itype(0xf, 0, 8, 0x1001),  // lui $8, 0x1001
        itype(0x20, 8, 9, 0),      // lb $9, 0($8)
    ]);
    cpu.memory.store_byte(0x10010000, 0xff).expect("data section is writable");
    assert!(matches!(cpu.cycle(), Next::Forward));
    assert!(matches!(cpu.cycle(), Next::Forward));
    assert_eq!(reg(&cpu, 9), 0xffffffff);
}

#[test]
fn trap_on_equal() {
    let mut cpu = program(&[
        itype(0x9, 0, 8, 7),       // addiu $8, $0, 7
        itype(0x9, 0, 9, 7),       // addiu $9, $0, 7
        rtype(8, 9, 0, 0, 0x34),   // teq $8, $9
    ]);
    assert!(matches!(cpu.cycle(), Next::Forward));
    assert!(matches!(cpu.cycle(), Next::Forward));
    let out = cpu.cycle();
    assert!(matches!(out, Next::Exception(Exception::Trap)));
}

#[test]
fn sra_replicates_the_sign() {
    let mut cpu = program(&[
        itype(0xf, 0, 8, 0x8000),  // lui $8, 0x8000
        rtype(0, 8, 9, 1, 0x03),   // sra $9, $8, 1
        rtype(0, 8, 10, 4, 0x03),  // sra $10, $8, 4
    ]);
    cpu.cycle();
    assert!(matches!(cpu.cycle(), Next::Forward));
    assert_eq!(reg(&cpu, 9), 0xc0000000);
    cpu.cycle();
    assert_eq!(reg(&cpu, 10), 0xf8000000);
}

#[test]
fn multu_widening() {
    let mut cpu = program(&[
        itype(0xf, 0, 8, 0xffff),  // lui $8, 0xFFFF
        itype(0xd, 8, 8, 0xffff),  // ori $8, $8, 0xFFFF
        rtype(8, 0, 9, 0, 0x21),   // addu $9, $8, $0
        rtype(8, 9, 0, 0, 0x19),   // multu $8, $9
    ]);
    cpu.cycle();
    cpu.cycle();
    cpu.cycle();
    assert!(matches!(cpu.cycle(), Next::Forward));
    assert_eq!(cpu.registers.hi, 0xfffffffe);
    assert_eq!(cpu.registers.lo, 0x00000001);
}

#[test]
fn unaligned_load_word_raises() {
    let mut cpu = program(&[
        itype(0xf, 0, 8, 0x0040),  // lui $8, 0x0040
        itype(0xd, 8, 8, 1),       // ori $8, $8, 1
        itype(0x23, 8, 9, 0),      // lw $9, 0($8)
    ]);
    cpu.cycle();
    cpu.cycle();
    let out = cpu.cycle();
    assert!(matches!(out, Next::Exception(Exception::AddrLoadFetch)));
}

#[test]
fn lui_ori_materializes_constant() {
    let mut cpu = program(&[
        itype(0xf, 0, 8, 0x1234),  // lui $8, 0x1234
        itype(0xd, 8, 8, 0x5678),  // ori $8, $8, 0x5678
    ]);
    cpu.cycle();
    cpu.cycle();
    assert_eq!(reg(&cpu, 8), 0x12345678);
}

#[test]
fn addu_then_subu_restores() {
    // addu $9, $8, $9 then subu $9, $9, $8 with the seeds $8 = 3, $9 = 4
    let mut cpu = program(&[
        rtype(8, 9, 9, 0, 0x21),   // addu $9, $8, $9
        rtype(9, 8, 9, 0, 0x23),   // subu $9, $9, $8
    ]);
    cpu.cycle();
    assert_eq!(reg(&cpu, 9), 7);
    cpu.cycle();
    assert_eq!(reg(&cpu, 9), 4);
}

#[test]
fn store_word_then_load_word_through_engine() {
    let mut cpu = program(&[
        itype(0xf, 0, 8, 0x1001),   // lui $8, 0x1001
        itype(0x9, 0, 9, 0x1234),   // addiu $9, $0, 0x1234
        itype(0x2b, 8, 9, 4),       // sw $9, 4($8)
        itype(0x23, 8, 10, 4),      // lw $10, 4($8)
    ]);
    cpu.cycle();
    cpu.cycle();
    assert!(matches!(cpu.cycle(), Next::Forward));
    assert!(matches!(cpu.cycle(), Next::Forward));
    assert_eq!(reg(&cpu, 10), 0x1234);
}

#[test]
fn store_to_text_raises_addr_store() {
    let mut cpu = program(&[
        itype(0xf, 0, 8, 0x0040),  // lui $8, 0x0040  ($8 = 0x00400000)
        itype(0x2b, 8, 9, 0),      // sw $9, 0($8)
    ]);
    cpu.cycle();
    let out = cpu.cycle();
    assert!(matches!(out, Next::Exception(Exception::AddrStore)));
}

#[test]
fn zero_register_ignores_writes() {
    let mut cpu = program(&[
        itype(0x9, 0, 0, 5),       // addiu $0, $0, 5
        itype(0xf, 0, 0, 0x1234),  // lui $0, 0x1234
    ]);
    cpu.cycle();
    cpu.cycle();
    assert_eq!(reg(&cpu, 0), 0);
}

#[test]
fn slti_signed_boundary() {
    // $8 = 0x80000000 (most negative); slti $9, $8, 1 must set $9 = 1
    let mut cpu = program(&[
        itype(0xf, 0, 8, 0x8000),  // lui $8, 0x8000
        itype(0xa, 8, 9, 1),       // slti $9, $8, 1
        itype(0xb, 8, 10, 1),      // sltiu $10, $8, 1 (unsigned: large, so 0)
    ]);
    cpu.cycle();
    cpu.cycle();
    assert_eq!(reg(&cpu, 9), 1);
    cpu.cycle();
    assert_eq!(reg(&cpu, 10), 0);
}

#[test]
fn conditional_branches_and_links() {
    // bltz on a negative register branches and bltzal links
    let mut cpu = program(&[
        itype(0xf, 0, 8, 0x8000),  // lui $8, 0x8000 (negative)
        itype(0x1, 8, 0x10, 2),    // bltzal $8, +2
    ]);
    cpu.cycle();
    let out = cpu.cycle();
    assert!(matches!(out, Next::Branch(0x00400010)));
    assert_eq!(reg(&cpu, 31), 0x00400008);
}

#[test]
fn syscall_raises_its_exception() {
    let mut cpu = program(&[0x0000000c]); // syscall
    let out = cpu.cycle();
    assert!(matches!(out, Next::Exception(Exception::Syscall)));
    assert_eq!(cpu.registers.pc, 0x00400000);
}

#[test]
fn unknown_opcode_is_a_vm_error() {
    let mut cpu = program(&[itype(0x3f, 0, 0, 0)]);
    let out = cpu.cycle();
    assert!(matches!(out, Next::VmError(_)));
    assert_eq!(cpu.registers.pc, 0x00400000);
}

#[test]
fn fetch_outside_sections_raises() {
    // jr to an unmapped address, then the next fetch fails
    let mut cpu = program(&[
        itype(0xf, 0, 8, 0x0010),  // lui $8, 0x0010 ($8 = 0x00100000, unmapped)
        rtype(8, 0, 0, 0, 0x08),   // jr $8
    ]);
    cpu.cycle();
    let out = cpu.cycle();
    assert!(matches!(out, Next::Branch(0x00100000)));
    let fetch = cpu.cycle();
    assert!(matches!(fetch, Next::Exception(Exception::AddrLoadFetch)));
}
