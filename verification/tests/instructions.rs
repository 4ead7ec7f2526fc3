//! One test per instruction family not already covered by the end-to-end
//! scenarios, each with exact expected register values.

use mips_cpu::cycle::Next;
use mips_cpu::exception::Exception;
use mips_cpu::object::LabeledBlock;
use mips_cpu::object::Object;
use mips_cpu::Cpu;

fn rtype(rs: u32, rt: u32, rd: u32, shamt: u32, funct: u32) -> u32 {
    (rs << 21) | (rt << 16) | (rd << 11) | (shamt << 6) | funct
}

fn itype(op: u32, rs: u32, rt: u32, imm16: u32) -> u32 {
    (op << 26) | (rs << 21) | (rt << 16) | (imm16 & 0xffff)
}

fn jtype(op: u32, target26: u32) -> u32 {
    (op << 26) | target26
}

fn program(words: &[u32]) -> Cpu {
    let mut raw_data = Vec::new();
    for w in words {
        raw_data.extend_from_slice(&w.to_le_bytes());
    }
    Cpu::new(Object { text: LabeledBlock { raw_data } })
}

fn reg(cpu: &Cpu, n: usize) -> u32 {
    match cpu.registers.r(n) {
        Ok(v) => v,
        Err(_) => panic!("register read fault"),
    }
}

fn run(cpu: &mut Cpu, cycles: usize) {
    for _ in 0..cycles {
        match cpu.cycle() {
            Next::Forward | Next::Branch(_) => {},
            Next::Exception(e) => panic!("unexpected exception (cause {:#x})", e.code()),
            Next::VmError(reason) => panic!("internal VM error ({reason})"),
        }
    }
}

#[test]
fn shifts_logical() {
    let mut cpu = program(&[
        itype(0x9, 0, 8, 0x00f0),  // addiu $8, $0, 0x00F0
        rtype(0, 8, 9, 4, 0x00),   // sll $9, $8, 4
        rtype(0, 8, 10, 4, 0x02),  // srl $10, $8, 4
        rtype(0, 9, 11, 0, 0x00),  // sll $11, $9, 0
    ]);
    run(&mut cpu, 4);
    assert_eq!(reg(&cpu, 9), 0x0f00);
    assert_eq!(reg(&cpu, 10), 0x000f);
    assert_eq!(reg(&cpu, 11), 0x0f00);
}

#[test]
fn shift_variable_masks_the_amount() {
    let mut cpu = program(&[
        itype(0x9, 0, 8, 1),       // addiu $8, $0, 1
        itype(0x9, 0, 9, 0x24),    // addiu $9, $0, 36 (36 & 31 == 4)
        rtype(9, 8, 10, 0, 0x04),  // sllv $10, $8, $9
    ]);
    run(&mut cpu, 3);
    assert_eq!(reg(&cpu, 10), 16);
}

#[test]
fn conditional_moves() {
    let mut cpu = program(&[
        rtype(8, 0, 10, 0, 0x0a),  // movz $10, $8, $0 (moves: $0 == 0)
        rtype(9, 8, 11, 0, 0x0a),  // movz $11, $9, $8 (no move: $8 != 0)
        rtype(9, 8, 12, 0, 0x0b),  // movn $12, $9, $8 (moves: $8 != 0)
        rtype(9, 0, 13, 0, 0x0b),  // movn $13, $9, $0 (no move: $0 == 0)
    ]);
    run(&mut cpu, 4);
    assert_eq!(reg(&cpu, 10), 3);
    assert_eq!(reg(&cpu, 11), 0);
    assert_eq!(reg(&cpu, 12), 4);
    assert_eq!(reg(&cpu, 13), 0);
}

#[test]
fn hi_lo_moves() {
    let mut cpu = program(&[
        rtype(8, 0, 0, 0, 0x11),   // mthi $8
        rtype(9, 0, 0, 0, 0x13),   // mtlo $9
        rtype(0, 0, 10, 0, 0x10),  // mfhi $10
        rtype(0, 0, 11, 0, 0x12),  // mflo $11
    ]);
    run(&mut cpu, 4);
    assert_eq!(cpu.registers.hi, 3);
    assert_eq!(cpu.registers.lo, 4);
    assert_eq!(reg(&cpu, 10), 3);
    assert_eq!(reg(&cpu, 11), 4);
}

#[test]
fn add_and_sub_in_range() {
    let mut cpu = program(&[
        rtype(8, 9, 10, 0, 0x20),  // add $10, $8, $9
        rtype(8, 9, 11, 0, 0x22),  // sub $11, $8, $9
    ]);
    run(&mut cpu, 2);
    assert_eq!(reg(&cpu, 10), 7);
    assert_eq!(reg(&cpu, 11), 0xffffffff); // 3 - 4 == -1
}

#[test]
fn sub_overflow_raises() {
    // $8 = 0x7FFFFFFF (max positive), $9 = -1; $8 - $9 overflows
    let mut cpu = program(&[
        itype(0xf, 0, 8, 0x7fff),  // lui $8, 0x7FFF
        itype(0xd, 8, 8, 0xffff),  // ori $8, $8, 0xFFFF
        itype(0x9, 0, 9, 0xffff),  // addiu $9, $0, -1
        rtype(8, 9, 10, 0, 0x22),  // sub $10, $8, $9
    ]);
    run(&mut cpu, 3);
    let before = reg(&cpu, 10);
    let out = cpu.cycle();
    assert!(matches!(out, Next::Exception(Exception::Overflow)));
    assert_eq!(reg(&cpu, 10), before);
}

#[test]
fn subu_wraps_silently() {
    let mut cpu = program(&[
        rtype(0, 8, 10, 0, 0x23),  // subu $10, $0, $8  (0 - 3)
    ]);
    run(&mut cpu, 1);
    assert_eq!(reg(&cpu, 10), 0xfffffffd);
}

#[test]
fn bitwise_operations() {
    let mut cpu = program(&[
        itype(0x9, 0, 8, 0x00ff),  // addiu $8, $0, 0x00FF
        itype(0x9, 0, 9, 0x0f0f),  // addiu $9, $0, 0x0F0F
        rtype(8, 9, 10, 0, 0x24),  // and $10, $8, $9
        rtype(8, 9, 11, 0, 0x25),  // or $11, $8, $9
        rtype(8, 9, 12, 0, 0x26),  // xor $12, $8, $9
        rtype(8, 9, 13, 0, 0x27),  // nor $13, $8, $9
    ]);
    run(&mut cpu, 6);
    assert_eq!(reg(&cpu, 10), 0x000f);
    assert_eq!(reg(&cpu, 11), 0x0fff);
    assert_eq!(reg(&cpu, 12), 0x0ff0);
    assert_eq!(reg(&cpu, 13), 0xfffff000);
}

#[test]
fn immediate_bitwise_zero_extends() {
    let mut cpu = program(&[
        itype(0xf, 0, 8, 0xffff),  // lui $8, 0xFFFF
        itype(0xc, 8, 9, 0xf00f),  // andi $9, $8, 0xF00F (immediate not extended)
        itype(0xe, 0, 10, 0x8000), // xori $10, $0, 0x8000
    ]);
    run(&mut cpu, 3);
    assert_eq!(reg(&cpu, 9), 0x00000000);
    assert_eq!(reg(&cpu, 10), 0x00008000);
}

#[test]
fn unsigned_traps() {
    // tgeu fires on equal values, tltu and tne stay quiet, tgeu compares unsigned
    let mut cpu = program(&[rtype(8, 8, 0, 0, 0x31)]); // tgeu $8, $8
    let out = cpu.cycle();
    assert!(matches!(out, Next::Exception(Exception::Trap)));

    let mut cpu = program(&[rtype(8, 9, 0, 0, 0x33)]); // tltu $8, $9: 3 < 4 fires
    let out = cpu.cycle();
    assert!(matches!(out, Next::Exception(Exception::Trap)));

    let mut cpu = program(&[rtype(8, 8, 0, 0, 0x33)]); // tltu $8, $8: quiet
    assert!(matches!(cpu.cycle(), Next::Forward));

    let mut cpu = program(&[rtype(8, 9, 0, 0, 0x36)]); // tne $8, $9: 3 != 4 fires
    let out = cpu.cycle();
    assert!(matches!(out, Next::Exception(Exception::Trap)));

    let mut cpu = program(&[rtype(8, 8, 0, 0, 0x36)]); // tne $8, $8: quiet
    assert!(matches!(cpu.cycle(), Next::Forward));
}

#[test]
fn jump_without_link() {
    let mut cpu = program(&[jtype(0x2, 0x100008)]); // j 0x100008
    let out = cpu.cycle();
    assert!(matches!(out, Next::Branch(0x00400020)));
    assert_eq!(reg(&cpu, 31), 0); // no link
}

#[test]
fn jalr_links_into_rd() {
    let mut cpu = program(&[
        itype(0xf, 0, 8, 0x0040),  // lui $8, 0x0040 ($8 = 0x00400000)
        rtype(8, 0, 12, 0, 0x09),  // jalr $8, $12
    ]);
    run(&mut cpu, 1);
    let out = cpu.cycle();
    assert!(matches!(out, Next::Branch(0x00400000)));
    assert_eq!(reg(&cpu, 12), 0x00400008);
    assert_eq!(cpu.registers.pc, 0x00400000);
}

#[test]
fn bne_and_bgtz_and_blez() {
    let mut cpu = program(&[
        itype(0x5, 8, 9, 3),       // bne $8, $9, +3 (3 != 4: taken)
    ]);
    let out = cpu.cycle();
    assert!(matches!(out, Next::Branch(0x00400010)));

    let mut cpu = program(&[
        itype(0x7, 8, 0, 3),       // bgtz $8, +3 (3 > 0: taken)
    ]);
    assert!(matches!(cpu.cycle(), Next::Branch(0x00400010)));

    let mut cpu = program(&[
        itype(0x6, 8, 0, 3),       // blez $8, +3 (3 > 0: not taken)
    ]);
    assert!(matches!(cpu.cycle(), Next::Forward));

    let mut cpu = program(&[
        itype(0x6, 0, 0, 3),       // blez $0, +3 (0 <= 0: taken)
    ]);
    assert!(matches!(cpu.cycle(), Next::Branch(0x00400010)));
}

#[test]
fn bltz_bgez_conditions() {
    let mut cpu = program(&[
        itype(0x1, 8, 0x00, 3),    // bltz $8, +3 ($8 = 3: not taken)
        itype(0x1, 8, 0x01, 3),    // bgez $8, +3 ($8 = 3: taken)
    ]);
    assert!(matches!(cpu.cycle(), Next::Forward));
    let out = cpu.cycle();
    assert!(matches!(out, Next::Branch(0x00400014)));
    // bgezal on a non-negative register links and branches
    let mut cpu = program(&[itype(0x1, 8, 0x11, 1)]); // bgezal $8, +1
    let out = cpu.cycle();
    assert!(matches!(out, Next::Branch(0x00400008)));
    assert_eq!(reg(&cpu, 31), 0x00400004);
}

#[test]
fn halfword_loads_sign_and_zero_extend() {
    let mut cpu = program(&[
        itype(0xf, 0, 8, 0x1001),  // lui $8, 0x1001
        itype(0x21, 8, 9, 0),      // lh $9, 0($8)
        itype(0x25, 8, 10, 0),     // lhu $10, 0($8)
        itype(0x24, 8, 11, 1),     // lbu $11, 1($8)
    ]);
    cpu.memory.store_halfword(0x10010000, 0x8001).expect("data is writable");
    run(&mut cpu, 4);
    assert_eq!(reg(&cpu, 9), 0xffff8001);
    assert_eq!(reg(&cpu, 10), 0x00008001);
    assert_eq!(reg(&cpu, 11), 0x00000080);
}

#[test]
fn byte_and_halfword_stores_through_engine() {
    let mut cpu = program(&[
        itype(0xf, 0, 8, 0x1001),  // lui $8, 0x1001
        itype(0x9, 0, 9, 0x7fab),  // addiu $9, $0, 0x7FAB
        itype(0x28, 8, 9, 0),      // sb $9, 0($8)
        itype(0x29, 8, 9, 2),      // sh $9, 2($8)
        itype(0x23, 8, 10, 0),     // lw $10, 0($8)
    ]);
    run(&mut cpu, 5);
    // byte 0 = 0xAB (low byte of $9), bytes 2-3 = 0x7FAB little-endian
    assert_eq!(reg(&cpu, 10), 0x7fab00ab);
}

#[test]
fn misaligned_stores_raise_addr_store() {
    let mut cpu = program(&[
        itype(0xf, 0, 8, 0x1001),  // lui $8, 0x1001
        itype(0x2b, 8, 9, 2),      // sw $9, 2($8): misaligned
    ]);
    run(&mut cpu, 1);
    let out = cpu.cycle();
    assert!(matches!(out, Next::Exception(Exception::AddrStore)));

    let mut cpu = program(&[
        itype(0xf, 0, 8, 0x1001),  // lui $8, 0x1001
        itype(0x29, 8, 9, 1),      // sh $9, 1($8): misaligned
    ]);
    run(&mut cpu, 1);
    let out = cpu.cycle();
    assert!(matches!(out, Next::Exception(Exception::AddrStore)));
}

#[test]
fn misaligned_halfword_load_raises() {
    let mut cpu = program(&[
        itype(0xf, 0, 8, 0x1001),  // lui $8, 0x1001
        itype(0x21, 8, 9, 1),      // lh $9, 1($8): misaligned
    ]);
    run(&mut cpu, 1);
    let out = cpu.cycle();
    assert!(matches!(out, Next::Exception(Exception::AddrLoadFetch)));
}

#[test]
fn unknown_funct_is_a_vm_error() {
    let mut cpu = program(&[rtype(8, 9, 10, 0, 0x3f)]);
    let out = cpu.cycle();
    assert!(matches!(out, Next::VmError(_)));
}

#[test]
fn unknown_branch_condition_is_a_vm_error() {
    let mut cpu = program(&[itype(0x1, 8, 0x05, 1)]);
    let out = cpu.cycle();
    assert!(matches!(out, Next::VmError(_)));
}
