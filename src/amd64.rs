//! Decoded instructions: mnemonics, registers and operands.

use vstd::prelude::*;
use crate::num::DataType;

verus! {

/// The mnemonics that can be lifted.
#[derive(Debug, Clone, Copy, PartialEq, Eq, Structural)]
pub enum Mnemoic {
    Add,
    Sub,
    Imul,
    Mov,
    Movzx,
    Lea,
    Push,
    Pop,
    Jmp,
    Je,
    Jg,
    Call,
    Leave,
    Ret,
    Cmp,
    Test,
    Setl,
    Syscall,
    Nop,
}

/// General purpose registers and their subregisters.
#[derive(Debug, Clone, Copy, PartialEq, Eq, Structural)]
pub enum Register {
    RAX, RCX, RDX, RBX, RSP, RBP, RSI, RDI,
    EAX, ECX, EDX, EBX, ESP, EBP, ESI, EDI,
    AX, CX, DX, BX, SP, BP, SI, DI,
    AL, CL, DL, BL, AH, CH, DH, BH,
    R8, R9, R10, R11, R12, R13, R14, R15,
    RIP, EIP, IP,
}

/// The natural width of a register.
pub open spec fn register_width(r: Register) -> DataType {
    match r {
        Register::AL | Register::CL | Register::DL | Register::BL
        | Register::AH | Register::CH | Register::DH | Register::BH => DataType::N8,
        Register::AX | Register::CX | Register::DX | Register::BX
        | Register::SP | Register::BP | Register::SI | Register::DI
        | Register::IP => DataType::N16,
        Register::EAX | Register::ECX | Register::EDX | Register::EBX
        | Register::ESP | Register::EBP | Register::ESI | Register::EDI
        | Register::EIP => DataType::N32,
        _ => DataType::N64,
    }
}

impl Register {
    /// The natural width of this register.
    pub fn data_type(&self) -> (r: DataType)
        ensures
            r == register_width(*self),
    {
        match self {
            Register::AL | Register::CL | Register::DL | Register::BL
            | Register::AH | Register::CH | Register::DH | Register::BH => DataType::N8,
            Register::AX | Register::CX | Register::DX | Register::BX
            | Register::SP | Register::BP | Register::SI | Register::DI
            | Register::IP => DataType::N16,
            Register::EAX | Register::ECX | Register::EDX | Register::EBX
            | Register::ESP | Register::EBP | Register::ESI | Register::EDI
            | Register::EIP => DataType::N32,
            _ => DataType::N64,
        }
    }
}

/// An operand of a decoded instruction.
#[derive(Debug, Clone, Copy, PartialEq, Eq, Structural)]
pub enum Operand {
    /// A register.
    Direct(Register),
    /// Memory at the address held in a register.
    Indirect(DataType, Register),
    /// Memory at the address held in a register plus a displacement.
    IndirectDisplaced(DataType, Register, i64),
    /// An immediate value.
    Immediate(DataType, u64),
    /// A branch offset relative to the next instruction.
    Offset(i64),
}

/// A decoded instruction.
#[derive(Debug, Clone, PartialEq, Eq)]
pub struct Instruction {
    pub mnemoic: Mnemoic,
    pub operands: Vec<Operand>,
}

impl Instruction {
    /// An instruction from its mnemonic and operands.
    pub fn new(mnemoic: Mnemoic, operands: Vec<Operand>) -> (r: Instruction)
        ensures
            r.mnemoic == mnemoic,
            r.operands@ == operands@,
    {
        Instruction { mnemoic, operands }
    }
}

} // verus!
