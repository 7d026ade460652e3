use microcode::amd64::{Instruction, Mnemoic, Operand, Register};
use microcode::ir::{Location, MemoryMapped, MicroEncoder, MicroOperation, Temporary};
use microcode::num::DataType;

fn inst(mnemoic: Mnemoic, operands: Vec<Operand>) -> Instruction {
    Instruction::new(mnemoic, operands)
}

fn test(instruction: Instruction, display: &str) {
    test_with_encoder(&mut MicroEncoder::new(), instruction, display);
}

fn test_with_encoder(encoder: &mut MicroEncoder, instruction: Instruction, display: &str) {
    encoder.encode(&instruction).unwrap();
    let code = encoder.finish();
    let display = codify(display);
    println!("encoded: {}", code.to_string());
    println!("display: {}", display);
    assert_eq!(code.to_string(), display);
}

fn codify(code: &str) -> String {
    let mut output = "Microcode [\n".to_string();
    for line in code.lines() {
        if !line.chars().all(|c| c.is_whitespace()) {
            output.push_str("    ");
            output.push_str(line.trim());
            output.push('\n');
        }
    }
    output.push(']');
    output
}

#[test]
fn binops() {
    // Instruction: add r8, qword ptr [rdi+0xa]
    test(inst(Mnemoic::Add, vec![
        Operand::Direct(Register::R8),
        Operand::IndirectDisplaced(DataType::N64, Register::RDI, 0xa),
    ]), "
        mov T0:n64 = [m1][0x40:n64]
        mov T1:n64 = [m1][0x38:n64]
        const T2:n64 = 0xa:n64
        add T3:n64 = T1:n64 + T2:n64
        mov T4:n64 = [m0][(T3:n64):n64]
        add T5:n64 = T0:n64 + T4:n64
        mov [m1][0x40:n64] = T5:n64
    ");

    // Instruction: sub rsp, 0x10
    test(inst(Mnemoic::Sub, vec![
        Operand::Direct(Register::RSP),
        Operand::Immediate(DataType::N8, 0x10),
    ]), "
        mov T0:n64 = [m1][0x20:n64]
        const T1:n8 = 0x10:n8
        cast T1:n8 to n64 signed
        sub T2:n64 = T0:n64 - T1:n64
        mov [m1][0x20:n64] = T2:n64
    ");

    // Instruction: sub eax, 0x20
    test(inst(Mnemoic::Sub, vec![
        Operand::Direct(Register::EAX),
        Operand::Immediate(DataType::N8, 0x20),
    ]), "
        mov T0:n32 = [m1][0x0:n32]
        const T1:n8 = 0x20:n8
        cast T1:n8 to n32 signed
        sub T2:n32 = T0:n32 - T1:n32
        mov [m1][0x0:n32] = T2:n32
    ");
}

#[test]
fn moves() {
    // Instruction: mov esi, edx
    test(inst(Mnemoic::Mov, vec![
        Operand::Direct(Register::ESI),
        Operand::Direct(Register::EDX),
    ]), "mov [m1][0x30:n32] = [m1][0x10:n32]");

    // Instruction: mov rax, 0x3c
    test(inst(Mnemoic::Mov, vec![
        Operand::Direct(Register::RAX),
        Operand::Immediate(DataType::N32, 0x3c),
    ]), "
        const T0:n32 = 0x3c:n32
        cast T0:n32 to n64 signed
        mov [m1][0x0:n64] = T0:n64
    ");

    // Instruction: mov dword ptr [rbp-0x4], edi
    test(inst(Mnemoic::Mov, vec![
        Operand::IndirectDisplaced(DataType::N32, Register::RBP, -0x4),
        Operand::Direct(Register::EDI),
    ]), "
        mov T0:n64 = [m1][0x28:n64]
        const T1:n64 = 0xfffffffffffffffc:n64
        add T2:n64 = T0:n64 + T1:n64
        mov [m0][(T2:n64):n32] = [m1][0x38:n32]
    ");

    // Instruction: mov dword ptr [rbp-0x8], 0xa
    test(inst(Mnemoic::Mov, vec![
        Operand::IndirectDisplaced(DataType::N32, Register::RBP, -0x8),
        Operand::Immediate(DataType::N32, 0xa),
    ]), "
        mov T0:n64 = [m1][0x28:n64]
        const T1:n64 = 0xfffffffffffffff8:n64
        add T2:n64 = T0:n64 + T1:n64
        const T3:n32 = 0xa:n32
        mov [m0][(T2:n64):n32] = T3:n32
    ");

    // Instruction: lea rax, qword ptr [rbp-0xc]
    test(inst(Mnemoic::Lea, vec![
        Operand::Direct(Register::RAX),
        Operand::IndirectDisplaced(DataType::N64, Register::RBP, -0xc),
    ]), "
        mov T0:n64 = [m1][0x28:n64]
        const T1:n64 = 0xfffffffffffffff4:n64
        add T2:n64 = T0:n64 + T1:n64
        mov [m1][0x0:n64] = T2:n64
    ");

    // Instruction: movzx eax, al
    test(inst(Mnemoic::Movzx, vec![
        Operand::Direct(Register::EAX),
        Operand::Direct(Register::AL),
    ]), "
        mov T0:n8 = [m1][0x0:n8]
        cast T0:n8 to n32 unsigned
        mov [m1][0x0:n32] = T0:n32
    ");

    // Instruction: push rbp
    test(inst(Mnemoic::Push, vec![Operand::Direct(Register::RBP)]), "
        mov T0:n64 = [m1][0x20:n64]
        const T1:n64 = 0x8:n64
        sub T0:n64 = T0:n64 - T1:n64
        mov [m0][(T0:n64):n64] = [m1][0x28:n64]
        mov [m1][0x20:n64] = T0:n64
    ");

    // Instruction: pop rbp
    test(inst(Mnemoic::Pop, vec![Operand::Direct(Register::RBP)]), "
        mov T0:n64 = [m1][0x20:n64]
        mov [m1][0x28:n64] = [m0][(T0:n64):n64]
        const T1:n64 = 0x8:n64
        add T0:n64 = T0:n64 + T1:n64
        mov [m1][0x20:n64] = T0:n64
    ");
}

#[test]
fn compares() {
    // Instruction: cmp eax, dword ptr [rbp-0x8]
    test(inst(Mnemoic::Cmp, vec![
        Operand::Direct(Register::EAX),
        Operand::IndirectDisplaced(DataType::N32, Register::RBP, -0x8),
    ]), "
        mov T0:n32 = [m1][0x0:n32]
        mov T1:n64 = [m1][0x28:n64]
        const T2:n64 = 0xfffffffffffffff8:n64
        add T3:n64 = T1:n64 + T2:n64
        mov T4:n32 = [m0][(T3:n64):n32]
    ");

    let mut enc = MicroEncoder::new();

    // Instruction: test eax, eax
    test_with_encoder(&mut enc, inst(Mnemoic::Test, vec![
        Operand::Direct(Register::EAX),
        Operand::Direct(Register::EAX),
    ]), "
        mov T0:n32 = [m1][0x0:n32]
        mov T1:n32 = [m1][0x0:n32]
    ");

    // Instruction: setl al
    test_with_encoder(&mut enc, inst(Mnemoic::Setl, vec![Operand::Direct(Register::AL)]), "
        set T2:n8 if T0:n32 & T1:n32 less
        mov [m1][0x0:n8] = T2:n8
    ");
}

#[test]
fn jumps() {
    // Instruction: jmp +0x7
    test(inst(Mnemoic::Jmp, vec![Operand::Offset(0x7)]), "
        const T0:n64 = 0x7:n64
        jump by T0:n64
    ");

    let mut enc = MicroEncoder::new();

    // Instruction: test eax, eax
    test_with_encoder(&mut enc, inst(Mnemoic::Test, vec![
        Operand::Direct(Register::EAX),
        Operand::Direct(Register::EAX),
    ]), "
        mov T0:n32 = [m1][0x0:n32]
        mov T1:n32 = [m1][0x0:n32]
    ");

    // Instruction: jg +0x9
    test_with_encoder(&mut enc, inst(Mnemoic::Jg, vec![Operand::Offset(0x9)]), "
        const T2:n64 = 0x9:n64
        jump by T2:n64 if T0:n32 & T1:n32 greater
    ");

    // Instruction: sub rsp, 0x10
    test_with_encoder(&mut enc, inst(Mnemoic::Sub, vec![
        Operand::Direct(Register::RSP),
        Operand::Immediate(DataType::N8, 0x10),
    ]), "
        mov T3:n64 = [m1][0x20:n64]
        const T4:n8 = 0x10:n8
        cast T4:n8 to n64 signed
        sub T5:n64 = T3:n64 - T4:n64
        mov [m1][0x20:n64] = T5:n64
    ");

    // Instruction: je +0xe
    test_with_encoder(&mut enc, inst(Mnemoic::Je, vec![Operand::Offset(0xe)]), "
        const T6:n64 = 0xe:n64
        jump by T6:n64 if T3:n64 - T4:n64 equal
    ");

    // Instruction: call -0x76
    test(inst(Mnemoic::Call, vec![Operand::Offset(-0x76)]), "
        mov T0:n64 = [m1][0x20:n64]
        const T1:n64 = 0x8:n64
        sub T0:n64 = T0:n64 - T1:n64
        mov [m0][(T0:n64):n64] = [m1][0x80:n64]
        mov [m1][0x20:n64] = T0:n64
        const T2:n64 = 0xffffffffffffff8a:n64
        jump by T2:n64
    ");

    // Instruction: leave
    test(inst(Mnemoic::Leave, vec![]), "
        mov [m1][0x20:n64] = [m1][0x28:n64]
        mov T0:n64 = [m1][0x20:n64]
        mov [m1][0x28:n64] = [m0][(T0:n64):n64]
        const T1:n64 = 0x8:n64
        add T0:n64 = T0:n64 + T1:n64
        mov [m1][0x20:n64] = T0:n64
    ");

    // Instruction: ret
    test(inst(Mnemoic::Ret, vec![]), "
        mov T1:n64 = [m1][0x20:n64]
        mov T0:n64 = [m0][(T1:n64):n64]
        const T2:n64 = 0x8:n64
        add T1:n64 = T1:n64 + T2:n64
        mov [m1][0x20:n64] = T1:n64
        jump to T0:n64
    ");
}

#[test]
fn moves_and_jumps_are_well_typed() {
    let mut enc = MicroEncoder::new();
    let program = vec![
        inst(Mnemoic::Mov, vec![Operand::Direct(Register::RAX), Operand::Immediate(DataType::N32, 0x3c)]),
        inst(Mnemoic::Movzx, vec![Operand::Direct(Register::EAX), Operand::Direct(Register::AL)]),
        inst(Mnemoic::Push, vec![Operand::Direct(Register::RBP)]),
        inst(Mnemoic::Cmp, vec![Operand::Direct(Register::EAX), Operand::Immediate(DataType::N8, 1)]),
        inst(Mnemoic::Je, vec![Operand::Offset(4)]),
        inst(Mnemoic::Ret, vec![]),
    ];
    for i in &program {
        enc.encode(i).unwrap();
    }
    let code = enc.finish();
    for op in &code.ops {
        match op {
            MicroOperation::Mov { dest, src } => assert_eq!(dest.data_type(), src.data_type()),
            MicroOperation::Jump { target, .. } => assert_eq!(target.0, DataType::N64),
            _ => {},
        }
    }
}

#[test]
fn cast_retypes_target() {
    // Instruction: sub eax, 0x20 casts T1 to n32 and then reads it as n32.
    let mut enc = MicroEncoder::new();
    enc.encode(&inst(Mnemoic::Sub, vec![
        Operand::Direct(Register::EAX),
        Operand::Immediate(DataType::N8, 0x20),
    ])).unwrap();
    let code = enc.finish();
    assert_eq!(code.ops[2], MicroOperation::Cast {
        target: Temporary(DataType::N8, 1),
        new: DataType::N32,
        signed: true,
    });
    assert_eq!(code.ops[3], MicroOperation::Sub {
        diff: Temporary(DataType::N32, 2),
        a: Temporary(DataType::N32, 0),
        b: Temporary(DataType::N32, 1),
    });
}

#[test]
fn replay_gives_identical_text() {
    let program = vec![
        inst(Mnemoic::Test, vec![Operand::Direct(Register::EAX), Operand::Direct(Register::EAX)]),
        inst(Mnemoic::Jg, vec![Operand::Offset(0x9)]),
        inst(Mnemoic::Sub, vec![Operand::Direct(Register::RSP), Operand::Immediate(DataType::N8, 0x10)]),
    ];
    let run = || {
        let mut enc = MicroEncoder::new();
        for i in &program {
            enc.encode(i).unwrap();
        }
        enc.finish().to_string()
    };
    assert_eq!(run(), run());
}

#[test]
fn finish_keeps_counter_and_comparison() {
    let mut enc = MicroEncoder::new();
    let push = inst(Mnemoic::Push, vec![Operand::Direct(Register::RBP)]);
    enc.encode(&push).unwrap();
    let first = enc.finish();
    assert_eq!(first.ops.len(), 5);
    assert!(enc.ops.is_empty());
    assert_eq!(enc.finish().to_string(), "Microcode []");
    enc.encode(&push).unwrap();
    assert_eq!(enc.finish().to_string(), codify("
        mov T2:n64 = [m1][0x20:n64]
        const T3:n64 = 0x8:n64
        sub T2:n64 = T2:n64 - T3:n64
        mov [m0][(T2:n64):n64] = [m1][0x28:n64]
        mov [m1][0x20:n64] = T2:n64
    "));
}

#[test]
fn lea_into_narrow_register_is_an_error() {
    // lea eax, qword ptr [rbp-0xc]: the 64-bit address does not fit eax.
    let mut enc = MicroEncoder::new();
    let err = enc.encode(&inst(Mnemoic::Lea, vec![
        Operand::Direct(Register::EAX),
        Operand::IndirectDisplaced(DataType::N64, Register::RBP, -0xc),
    ])).unwrap_err();
    assert_eq!(err.message, "incompatible data types for move: n64 and n32");
    assert_eq!(err.to_string(), "Failed to encode instruction: incompatible data types for move: n64 and n32.");
}

#[test]
fn syscall_and_nop() {
    let mut enc = MicroEncoder::new();
    enc.encode(&inst(Mnemoic::Syscall, vec![])).unwrap();
    enc.encode(&inst(Mnemoic::Nop, vec![])).unwrap();
    assert_eq!(enc.finish().to_string(), "Microcode [\n    syscall\n]");
}

#[test]
fn diverges_only_for_jumps() {
    let t = Temporary(DataType::N64, 0);
    assert!(MicroOperation::Jump { target: t, condition: microcode::ir::Condition::True, relative: true }.diverges());
    assert!(!MicroOperation::Syscall.diverges());
    assert!(!MicroOperation::Not { not: t, a: t }.diverges());
}

#[test]
fn location_widths_and_text() {
    let t = Temporary(DataType::N16, 12);
    assert_eq!(Location::Temp(t).data_type(), DataType::N16);
    assert_eq!(Location::Direct(DataType::N8, 1, 0x30).data_type(), DataType::N8);
    assert_eq!(Location::Indirect(DataType::N32, 0, t).data_type(), DataType::N32);
    assert_eq!(Location::Temp(t).to_string(), "T12:n16");
    assert_eq!(Location::Direct(DataType::N8, 1, 0x0).to_string(), "[m1][0x0:n8]");
    assert_eq!(Location::Indirect(DataType::N32, 0, t).to_string(), "[m0][(T12:n16):n32]");
    assert_eq!(MicroOperation::Or { or: t, a: t, b: t }.to_string(), "or T12:n16 = T12:n16 | T12:n16");
    assert_eq!(MicroOperation::Not { not: t, a: t }.to_string(), "not T12:n16 = !T12:n16");
}

#[test]
fn register_addresses() {
    assert_eq!(Register::AH.address(), 0x20);
    assert_eq!(Register::BH.address(), 0x38);
    assert_eq!(Register::R15.address(), 0x78);
    assert_eq!(Register::EIP.address(), 0x80);
    assert_eq!(Register::SI.data_type(), DataType::N16);
    assert_eq!(DataType::N32.bytes(), 4);
}
