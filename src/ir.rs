//! Microcode: typed micro-operations and the encoder that lifts instructions into them.

use vstd::prelude::*;
use crate::amd64::{Instruction, Mnemoic, Operand, Register, register_width};
use crate::num::{DataType, Integer, byte_count};
use crate::text::{move_error_message, move_error_text};
use crate::laws::{all_well_typed, casts_retype};

verus! {

/// Upper bound on the temporaries that one instruction allocates.
pub const TEMPS_PER_INSTRUCTION: usize = 16;

/// Microcode composed of any number of micro-operations.
#[derive(Debug, Clone, PartialEq)]
pub struct Microcode {
    pub ops: Vec<MicroOperation>,
}

/// Strongly typed temporary identified by an index.
#[derive(Debug, Clone, Copy, PartialEq, Eq, Structural)]
pub struct Temporary(pub DataType, pub usize);

/// Strongly typed target for moves.
#[derive(Debug, Clone, Copy, PartialEq, Eq, Structural)]
pub enum Location {
    /// The value lives in a temporary.
    Temp(Temporary),
    /// The value lives at a fixed address of a memory space.
    Direct(DataType, usize, u64),
    /// The value lives at the address held by a temporary in a memory space.
    Indirect(DataType, usize, Temporary),
}

/// Comparison that the flags of the last flag-producing operation describe.
#[derive(Debug, Clone, Copy, PartialEq, Eq, Structural)]
pub enum Comparison {
    Add(Temporary, Temporary),
    Sub(Temporary, Temporary),
    Mul(Temporary, Temporary),
    And(Temporary, Temporary),
}

/// Condition for jumps and sets.
#[derive(Debug, Clone, Copy, PartialEq, Eq, Structural)]
pub enum Condition {
    True,
    Equal(Comparison),
    Greater(Comparison),
    Less(Comparison),
}

/// Describes one atomic operation.
#[derive(Debug, Clone, Copy, PartialEq, Eq, Structural)]
pub enum MicroOperation {
    /// Store the value at location `src` in location `dest`.
    Mov { dest: Location, src: Location },
    /// Store a constant in location `dest`.
    Const { dest: Location, constant: Integer },
    /// Cast the temporary `target` to another type: truncating when narrowing,
    /// sign- or zero-extending when widening.
    Cast { target: Temporary, new: DataType, signed: bool },
    /// Store the sum of `a` and `b` in `sum`.
    Add { sum: Temporary, a: Temporary, b: Temporary },
    /// Store the difference of `a` and `b` in `diff`.
    Sub { diff: Temporary, a: Temporary, b: Temporary },
    /// Store the product of `a` and `b` in `prod`.
    Mul { prod: Temporary, a: Temporary, b: Temporary },
    /// Store the bitwise AND of `a` and `b` in `and`.
    And { and: Temporary, a: Temporary, b: Temporary },
    /// Store the bitwise OR of `a` and `b` in `or`.
    Or { or: Temporary, a: Temporary, b: Temporary },
    /// Store the bitwise NOT of `a` in `not`.
    Not { not: Temporary, a: Temporary },
    /// Set the target to one if the condition holds and to zero otherwise.
    SetCond { target: Temporary, condition: Condition },
    /// Jump by (`relative`) or to the target if the condition holds.
    Jump { target: Temporary, condition: Condition, relative: bool },
    /// Perform a system call.
    Syscall,
}

impl MicroOperation {
    /// Whether this micro-operation diverges the control flow.
    pub fn diverges(&self) -> (r: bool)
        ensures
            r == (*self is Jump),
    {
        match self {
            MicroOperation::Jump { .. } => true,
            _ => false,
        }
    }
}

/// The width of the values at a location.
pub open spec fn location_width(l: Location) -> DataType {
    match l {
        Location::Temp(t) => t.0,
        Location::Direct(d, _, _) => d,
        Location::Indirect(d, _, _) => d,
    }
}

impl Location {
    /// Underlying data type of values at the location.
    pub fn data_type(&self) -> (r: DataType)
        ensures
            r == location_width(*self),
    {
        match *self {
            Location::Temp(temp) => temp.0,
            Location::Direct(data, _, _) => data,
            Location::Indirect(data, _, _) => data,
        }
    }
}

/// Addresses of things stored in memory.
pub trait MemoryMapped {
    /// The address, as a value.
    spec fn spec_address(&self) -> u64;

    /// Address of the memory mapped thing.
    fn address(&self) -> (r: u64)
        ensures
            r == self.spec_address(),
    ;
}

/// Address of a register's family in the register memory space.
pub open spec fn register_address(r: Register) -> u64 {
    match r {
        Register::AL | Register::AX | Register::EAX | Register::RAX => 0x00,
        Register::CL | Register::CX | Register::ECX | Register::RCX => 0x08,
        Register::DL | Register::DX | Register::EDX | Register::RDX => 0x10,
        Register::BL | Register::BX | Register::EBX | Register::RBX => 0x18,
        Register::AH | Register::SP | Register::ESP | Register::RSP => 0x20,
        Register::CH | Register::BP | Register::EBP | Register::RBP => 0x28,
        Register::DH | Register::SI | Register::ESI | Register::RSI => 0x30,
        Register::BH | Register::DI | Register::EDI | Register::RDI => 0x38,
        Register::R8 => 0x40,
        Register::R9 => 0x48,
        Register::R10 => 0x50,
        Register::R11 => 0x58,
        Register::R12 => 0x60,
        Register::R13 => 0x68,
        Register::R14 => 0x70,
        Register::R15 => 0x78,
        Register::IP | Register::EIP | Register::RIP => 0x80,
    }
}

impl MemoryMapped for Register {
    open spec fn spec_address(&self) -> u64 {
        register_address(*self)
    }

    fn address(&self) -> (r: u64) {
        match self {
            Register::AL | Register::AX | Register::EAX | Register::RAX => 0x00,
            Register::CL | Register::CX | Register::ECX | Register::RCX => 0x08,
            Register::DL | Register::DX | Register::EDX | Register::RDX => 0x10,
            Register::BL | Register::BX | Register::EBX | Register::RBX => 0x18,
            Register::AH | Register::SP | Register::ESP | Register::RSP => 0x20,
            Register::CH | Register::BP | Register::EBP | Register::RBP => 0x28,
            Register::DH | Register::SI | Register::ESI | Register::RSI => 0x30,
            Register::BH | Register::DI | Register::EDI | Register::RDI => 0x38,
            Register::R8 => 0x40,
            Register::R9 => 0x48,
            Register::R10 => 0x50,
            Register::R11 => 0x58,
            Register::R12 => 0x60,
            Register::R13 => 0x68,
            Register::R14 => 0x70,
            Register::R15 => 0x78,
            Register::IP | Register::EIP | Register::RIP => 0x80,
        }
    }
}

/// Width of the location that an operand resolves to.
pub open spec fn operand_width(o: Operand) -> DataType {
    match o {
        Operand::Direct(reg) => register_width(reg),
        Operand::Indirect(d, _) => d,
        Operand::IndirectDisplaced(d, _, _) => d,
        Operand::Immediate(d, _) => d,
        Operand::Offset(_) => DataType::N64,
    }
}

/// The temporary with width `d` and index `t`.
pub open spec fn temp(d: DataType, t: nat) -> Temporary {
    Temporary(d, t as usize)
}

/// The register as a location of the register file.
pub open spec fn register_location(reg: Register) -> Location {
    Location::Direct(register_width(reg), 1, register_address(reg))
}

/// Micro-operation loading the register into temporary `t`.
pub open spec fn load_reg_op(reg: Register, t: nat) -> MicroOperation {
    MicroOperation::Mov {
        dest: Location::Temp(temp(register_width(reg), t)),
        src: register_location(reg),
    }
}

/// Micro-operation loading the constant `v` of width `d` into temporary `t`.
pub open spec fn const_op(d: DataType, v: u64, t: nat) -> MicroOperation {
    MicroOperation::Const { dest: Location::Temp(temp(d, t)), constant: Integer(d, v) }
}

/// What resolving an operand to a location emits, starting at counter `t`: the
/// micro-operations, the counter after them, and the location.
pub open spec fn location_of(o: Operand, t: nat) -> (Seq<MicroOperation>, nat, Location) {
    match o {
        Operand::Direct(reg) => (Seq::empty(), t, register_location(reg)),
        Operand::Indirect(d, reg) => (
            seq![load_reg_op(reg, t)],
            t + 1,
            Location::Indirect(d, 0, temp(register_width(reg), t)),
        ),
        Operand::IndirectDisplaced(d, reg, disp) => (
            seq![
                load_reg_op(reg, t),
                const_op(DataType::N64, disp as u64, t + 1),
                MicroOperation::Add {
                    sum: temp(DataType::N64, t + 2),
                    a: temp(register_width(reg), t),
                    b: temp(DataType::N64, t + 1),
                },
            ],
            t + 3,
            Location::Indirect(d, 0, temp(DataType::N64, t + 2)),
        ),
        Operand::Immediate(d, v) => (seq![const_op(d, v, t)], t + 1, Location::Temp(temp(d, t))),
        Operand::Offset(off) => (
            seq![const_op(DataType::N64, off as u64, t)],
            t + 1,
            Location::Temp(temp(DataType::N64, t)),
        ),
    }
}

/// What loading an operand into a temporary emits: the micro-operations, the
/// counter after them, the operand's location and the temporary holding its value.
pub open spec fn load_operand(o: Operand, t: nat) -> (Seq<MicroOperation>, nat, Location, Temporary) {
    let (ops, t1, loc) = location_of(o, t);
    match loc {
        Location::Temp(tmp) => (ops, t1, loc, tmp),
        _ => {
            let tmp = temp(location_width(loc), t1);
            (ops.push(MicroOperation::Mov { dest: Location::Temp(tmp), src: loc }), t1 + 1, loc, tmp)
        },
    }
}

/// What loading both operands emits: the right one is cast, sign-extending, to
/// the width of the left one where they differ. Yields the micro-operations, the
/// counter after them, the left operand's location and the two temporaries.
pub open spec fn load_both(o0: Operand, o1: Operand, t: nat) -> (
    Seq<MicroOperation>,
    nat,
    Location,
    Temporary,
    Temporary,
) {
    let (ops0, t1, dest, left) = load_operand(o0, t);
    let (ops1, t2, _src, right) = load_operand(o1, t1);
    if left.0 != right.0 {
        (
            ops0 + ops1.push(MicroOperation::Cast { target: right, new: left.0, signed: true }),
            t2,
            dest,
            left,
            Temporary(left.0, right.1),
        )
    } else {
        (ops0 + ops1, t2, dest, left, right)
    }
}

/// The kinds of binary operations that arithmetic instructions lift to.
#[derive(Debug, Clone, Copy, PartialEq, Eq, Structural)]
pub enum BinopKind {
    Add,
    Sub,
    Mul,
}

/// The binary micro-operation of a kind.
pub open spec fn binop_op(k: BinopKind, target: Temporary, a: Temporary, b: Temporary) -> MicroOperation {
    match k {
        BinopKind::Add => MicroOperation::Add { sum: target, a, b },
        BinopKind::Sub => MicroOperation::Sub { diff: target, a, b },
        BinopKind::Mul => MicroOperation::Mul { prod: target, a, b },
    }
}

/// What a binary arithmetic instruction emits: both operands are loaded, combined
/// into a fresh temporary and the result is moved back into the first operand.
/// Yields the micro-operations, the counter after them and the two inputs.
pub open spec fn binop_ops(k: BinopKind, o0: Operand, o1: Operand, t: nat) -> (
    Seq<MicroOperation>,
    nat,
    Temporary,
    Temporary,
) {
    let (ops, t1, dest, left, right) = load_both(o0, o1, t);
    let target = temp(left.0, t1);
    (
        ops.push(binop_op(k, target, left, right)).push(
            MicroOperation::Mov { dest, src: Location::Temp(target) },
        ),
        t1 + 1,
        left,
        right,
    )
}

/// What a relative jump by an offset emits.
pub open spec fn jump_ops(off: i64, c: Condition, t: nat) -> (Seq<MicroOperation>, nat) {
    (
        seq![
            const_op(DataType::N64, off as u64, t),
            MicroOperation::Jump { target: temp(DataType::N64, t), condition: c, relative: true },
        ],
        t + 1,
    )
}

/// What setting an operand on a condition emits.
pub open spec fn set_ops(o: Operand, c: Condition, t: nat) -> (Seq<MicroOperation>, nat) {
    let (ops, t1, loc) = location_of(o, t);
    let tmp = temp(location_width(loc), t1);
    (
        ops.push(MicroOperation::SetCond { target: tmp, condition: c }).push(
            MicroOperation::Mov { dest: loc, src: Location::Temp(tmp) },
        ),
        t1 + 1,
    )
}

/// The stack pointer as a location of the register file.
pub open spec fn rsp_location() -> Location {
    register_location(Register::RSP)
}

/// What pushing the value at `src` emits.
pub open spec fn push_ops(src: Location, t: nat) -> (Seq<MicroOperation>, nat) {
    let d = location_width(src);
    let stack = temp(DataType::N64, t);
    let offset = temp(DataType::N64, t + 1);
    (
        seq![
            load_reg_op(Register::RSP, t),
            const_op(DataType::N64, byte_count(d), t + 1),
            MicroOperation::Sub { diff: stack, a: stack, b: offset },
            MicroOperation::Mov { dest: Location::Indirect(d, 0, stack), src },
            MicroOperation::Mov { dest: rsp_location(), src: Location::Temp(stack) },
        ],
        t + 2,
    )
}

/// What popping the value on top of the stack into `dest` emits.
pub open spec fn pop_ops(dest: Location, t: nat) -> (Seq<MicroOperation>, nat) {
    let d = location_width(dest);
    let stack = temp(DataType::N64, t);
    let offset = temp(DataType::N64, t + 1);
    (
        seq![
            load_reg_op(Register::RSP, t),
            MicroOperation::Mov { dest, src: Location::Indirect(d, 0, stack) },
            const_op(DataType::N64, byte_count(d), t + 1),
            MicroOperation::Add { sum: stack, a: stack, b: offset },
            MicroOperation::Mov { dest: rsp_location(), src: Location::Temp(stack) },
        ],
        t + 2,
    )
}

/// What moving the second operand into the first with a cast to the
/// destination's width emits.
pub open spec fn move_casted_ops(o0: Operand, o1: Operand, signed: bool, t: nat) -> (
    Seq<MicroOperation>,
    nat,
) {
    let (ops0, t1, dest) = location_of(o0, t);
    let (ops1, t2, _src, tmp) = load_operand(o1, t1);
    let new = location_width(dest);
    (
        ops0 + ops1.push(MicroOperation::Cast { target: tmp, new, signed }).push(
            MicroOperation::Mov { dest, src: Location::Temp(Temporary(new, tmp.1)) },
        ),
        t2,
    )
}

/// Whether the encoder can lift the instruction, given the last comparison:
/// enough operands, an offset for jumps and calls, a memory source for `lea`,
/// and a prior comparison for conditional jumps and sets.
pub open spec fn encodable(inst: Instruction, last: Option<Comparison>) -> bool {
    let n = inst.operands@.len();
    match inst.mnemoic {
        Mnemoic::Add | Mnemoic::Sub | Mnemoic::Imul | Mnemoic::Mov | Mnemoic::Movzx
        | Mnemoic::Cmp | Mnemoic::Test => n >= 2,
        Mnemoic::Lea => n >= 2 && (inst.operands@[1] is Indirect
            || inst.operands@[1] is IndirectDisplaced),
        Mnemoic::Push | Mnemoic::Pop => n >= 1,
        Mnemoic::Jmp | Mnemoic::Call => n >= 1 && inst.operands@[0] is Offset,
        Mnemoic::Je | Mnemoic::Jg => n >= 1 && inst.operands@[0] is Offset && last is Some,
        Mnemoic::Setl => n >= 1 && last is Some,
        Mnemoic::Leave | Mnemoic::Ret | Mnemoic::Syscall | Mnemoic::Nop => true,
    }
}

/// The message of the error for a `lea` whose destination is not as wide as the
/// address: the move of the address temporary into it is refused.
pub open spec fn lea_error_text(inst: Instruction, t: nat) -> Seq<char> {
    let (_ops0, t1, dest) = location_of(inst.operands@[0], t);
    let (_ops1, _t2, src) = location_of(inst.operands@[1], t1);
    move_error_text(src->Indirect_2.0, location_width(dest))
}

/// The result of lifting one instruction.
pub struct Lifted {
    /// The micro-operations emitted.
    pub ops: Seq<MicroOperation>,
    /// The temporary counter afterwards.
    pub temps: nat,
    /// The last comparison afterwards.
    pub last: Option<Comparison>,
    /// Whether lifting succeeded.
    pub ok: bool,
}

/// Lifting of an encodable instruction with the temporary counter at `t` and the
/// last comparison `last`.
pub open spec fn lift(inst: Instruction, t: nat, last: Option<Comparison>) -> Lifted {
    let o = inst.operands@;
    match inst.mnemoic {
        Mnemoic::Add => {
            let (ops, t1, l, r) = binop_ops(BinopKind::Add, o[0], o[1], t);
            Lifted { ops, temps: t1, last: Some(Comparison::Add(l, r)), ok: true }
        },
        Mnemoic::Sub => {
            let (ops, t1, l, r) = binop_ops(BinopKind::Sub, o[0], o[1], t);
            Lifted { ops, temps: t1, last: Some(Comparison::Sub(l, r)), ok: true }
        },
        Mnemoic::Imul => {
            let (ops, t1, l, r) = binop_ops(BinopKind::Mul, o[0], o[1], t);
            Lifted { ops, temps: t1, last: Some(Comparison::Mul(l, r)), ok: true }
        },
        Mnemoic::Mov => {
            if operand_width(o[0]) != operand_width(o[1]) {
                let (ops, t1) = move_casted_ops(o[0], o[1], true, t);
                Lifted { ops, temps: t1, last, ok: true }
            } else {
                let (ops0, t1, dest) = location_of(o[0], t);
                let (ops1, t2, src) = location_of(o[1], t1);
                Lifted {
                    ops: (ops0 + ops1).push(MicroOperation::Mov { dest, src }),
                    temps: t2,
                    last,
                    ok: true,
                }
            }
        },
        Mnemoic::Movzx => {
            let (ops, t1) = move_casted_ops(o[0], o[1], false, t);
            Lifted { ops, temps: t1, last, ok: true }
        },
        Mnemoic::Lea => {
            let (ops0, t1, dest) = location_of(o[0], t);
            let (ops1, t2, src) = location_of(o[1], t1);
            let addr = src->Indirect_2;
            if location_width(dest) == addr.0 {
                Lifted {
                    ops: (ops0 + ops1).push(
                        MicroOperation::Mov { dest, src: Location::Temp(addr) },
                    ),
                    temps: t2,
                    last,
                    ok: true,
                }
            } else {
                Lifted { ops: ops0 + ops1, temps: t2, last, ok: false }
            }
        },
        Mnemoic::Push => {
            let (ops0, t1, src) = location_of(o[0], t);
            let (ops1, t2) = push_ops(src, t1);
            Lifted { ops: ops0 + ops1, temps: t2, last, ok: true }
        },
        Mnemoic::Pop => {
            let (ops0, t1, dest) = location_of(o[0], t);
            let (ops1, t2) = pop_ops(dest, t1);
            Lifted { ops: ops0 + ops1, temps: t2, last, ok: true }
        },
        Mnemoic::Jmp => {
            let (ops, t1) = jump_ops(o[0]->Offset_0, Condition::True, t);
            Lifted { ops, temps: t1, last, ok: true }
        },
        Mnemoic::Je => {
            let (ops, t1) = jump_ops(o[0]->Offset_0, Condition::Equal(last->0), t);
            Lifted { ops, temps: t1, last, ok: true }
        },
        Mnemoic::Jg => {
            let (ops, t1) = jump_ops(o[0]->Offset_0, Condition::Greater(last->0), t);
            Lifted { ops, temps: t1, last, ok: true }
        },
        Mnemoic::Call => {
            let (ops0, t1) = push_ops(register_location(Register::RIP), t);
            let (ops1, t2) = jump_ops(o[0]->Offset_0, Condition::True, t1);
            Lifted { ops: ops0 + ops1, temps: t2, last, ok: true }
        },
        Mnemoic::Leave => {
            let rbp = register_location(Register::RBP);
            let (ops, t1) = pop_ops(rbp, t);
            Lifted {
                ops: seq![MicroOperation::Mov { dest: rsp_location(), src: rbp }] + ops,
                temps: t1,
                last,
                ok: true,
            }
        },
        Mnemoic::Ret => {
            let target = temp(DataType::N64, t);
            let (ops, t1) = pop_ops(Location::Temp(target), t + 1);
            Lifted {
                ops: ops.push(
                    MicroOperation::Jump { target, condition: Condition::True, relative: false },
                ),
                temps: t1,
                last,
                ok: true,
            }
        },
        Mnemoic::Cmp => {
            let (ops, t1, _dest, l, r) = load_both(o[0], o[1], t);
            Lifted { ops, temps: t1, last: Some(Comparison::Sub(l, r)), ok: true }
        },
        Mnemoic::Test => {
            let (ops, t1, _dest, l, r) = load_both(o[0], o[1], t);
            Lifted { ops, temps: t1, last: Some(Comparison::And(l, r)), ok: true }
        },
        Mnemoic::Setl => {
            let (ops, t1) = set_ops(o[0], Condition::Less(last->0), t);
            Lifted { ops, temps: t1, last, ok: true }
        },
        Mnemoic::Syscall => Lifted { ops: seq![MicroOperation::Syscall], temps: t, last, ok: true },
        Mnemoic::Nop => Lifted { ops: Seq::empty(), temps: t, last, ok: true },
    }
}

/// Encodes instructions into microcode.
#[derive(Debug, Clone)]
pub struct MicroEncoder {
    pub ops: Vec<MicroOperation>,
    temps: usize,
    last_comparison: Option<Comparison>,
}

impl MicroEncoder {
    /// The micro-operations buffered since the last `finish`.
    pub closed spec fn buffer(&self) -> Seq<MicroOperation> {
        self.ops@
    }

    /// The next temporary index that will be allocated.
    pub closed spec fn counter(&self) -> nat {
        self.temps as nat
    }

    /// The comparison recorded by the last flag-producing instruction.
    pub closed spec fn last(&self) -> Option<Comparison> {
        self.last_comparison
    }

    /// Create a new encoder.
    pub fn new() -> (r: MicroEncoder)
        ensures
            r.buffer() == Seq::<MicroOperation>::empty(),
            r.counter() == 0,
            r.last() is None,
    {
        MicroEncoder { ops: Vec::new(), temps: 0, last_comparison: None }
    }

    /// Drain the buffered operations but keep the context.
    pub fn finish(&mut self) -> (r: Microcode)
        ensures
            r.ops@ == old(self).buffer(),
            final(self).buffer() == Seq::<MicroOperation>::empty(),
            final(self).counter() == old(self).counter(),
            final(self).last() == old(self).last(),
    {
        let mut ops = Vec::new();
        std::mem::swap(&mut ops, &mut self.ops);
        Microcode { ops }
    }

    /// Encode the instruction into microcode, appending to the buffer.
    ///
    /// A `mov` whose operands differ in width is encoded as a sign-extending
    /// cast-then-move, decided before anything of the instruction is emitted, so
    /// that earlier buffered instructions are never discarded.
    pub fn encode(&mut self, inst: &Instruction) -> (r: Result<(), EncodeError>)
        requires
            old(self).counter() + TEMPS_PER_INSTRUCTION <= usize::MAX,
            encodable(*inst, old(self).last()),
        ensures
            final(self).buffer() == old(self).buffer() + lift(*inst, old(self).counter(), old(self).last()).ops,
            final(self).counter() == lift(*inst, old(self).counter(), old(self).last()).temps,
            final(self).last() == lift(*inst, old(self).counter(), old(self).last()).last,
            r is Ok <==> lift(*inst, old(self).counter(), old(self).last()).ok,
            r is Err ==> r->Err_0.message@ == lea_error_text(*inst, old(self).counter()),
            all_well_typed(lift(*inst, old(self).counter(), old(self).last()).ops),
            casts_retype(lift(*inst, old(self).counter(), old(self).last()).ops),
    {
        proof {
            crate::laws::lemma_lift_well_typed(*inst, self.counter(), self.last());
            crate::laws::lemma_lift_retypes(*inst, self.counter(), self.last());
        }
        let ghost t0 = self.temps as nat;
        let ghost ops0 = self.ops@;
        let ghost last0 = self.last_comparison;
        match inst.mnemoic {
            Mnemoic::Add => {
                let (left, right) = self.encode_binop(inst, BinopKind::Add);
                self.last_comparison = Some(Comparison::Add(left, right));
            },
            Mnemoic::Sub => {
                let (left, right) = self.encode_binop(inst, BinopKind::Sub);
                self.last_comparison = Some(Comparison::Sub(left, right));
            },
            Mnemoic::Imul => {
                let (left, right) = self.encode_binop(inst, BinopKind::Mul);
                self.last_comparison = Some(Comparison::Mul(left, right));
            },
            Mnemoic::Mov => {
                if operand_data_type(inst.operands[0]) != operand_data_type(inst.operands[1]) {
                    self.encode_move_casted(inst, true);
                } else {
                    let dest = self.encode_get_location(inst.operands[0]);
                    let ghost ops1 = self.ops@;
                    let src = self.encode_get_location(inst.operands[1]);
                    proof {
                        lemma_location_width(inst.operands@[0], t0);
                        lemma_location_width(inst.operands@[1], location_of(inst.operands@[0], t0).1);
                    }
                    let _moved = self.encode_move(dest, src);
                    proof {
                        let (a, t1, _d) = location_of(inst.operands@[0], t0);
                        let (b, _t2, _s) = location_of(inst.operands@[1], t1);
                        assert(self.ops@ =~= ops0 + (a + b).push(MicroOperation::Mov { dest, src }));
                    }
                }
            },
            Mnemoic::Movzx => self.encode_move_casted(inst, false),
            Mnemoic::Lea => {
                let dest = self.encode_get_location(inst.operands[0]);
                let src = self.encode_get_location(inst.operands[1]);
                if let Location::Indirect(_, _, addr) = src {
                    let moved = self.encode_move(dest, Location::Temp(addr));
                    proof {
                        let (a, t1, _d) = location_of(inst.operands@[0], t0);
                        let (b, _t2, _s) = location_of(inst.operands@[1], t1);
                        if moved is Ok {
                            assert(self.ops@ =~= ops0 + (a + b).push(
                                MicroOperation::Mov { dest, src: Location::Temp(addr) }));
                        } else {
                            assert(self.ops@ =~= ops0 + (a + b));
                        }
                    }
                    if moved.is_err() {
                        return moved;
                    }
                }
            },
            Mnemoic::Push => {
                let src = self.encode_get_location(inst.operands[0]);
                self.encode_push(src);
                assert(self.ops@ =~= ops0 + lift(*inst, t0, last0).ops);
            },
            Mnemoic::Pop => {
                let dest = self.encode_get_location(inst.operands[0]);
                self.encode_pop(dest);
                assert(self.ops@ =~= ops0 + lift(*inst, t0, last0).ops);
            },
            Mnemoic::Jmp => self.encode_jump(inst.operands[0], Condition::True),
            Mnemoic::Je => {
                let cmp = self.get_comparison();
                self.encode_jump(inst.operands[0], Condition::Equal(cmp));
            },
            Mnemoic::Jg => {
                let cmp = self.get_comparison();
                self.encode_jump(inst.operands[0], Condition::Greater(cmp));
            },
            Mnemoic::Call => {
                let rip = self.encode_get_location(Operand::Direct(Register::RIP));
                self.encode_push(rip);
                self.encode_jump(inst.operands[0], Condition::True);
                assert(self.ops@ =~= ops0 + lift(*inst, t0, last0).ops);
            },
            Mnemoic::Leave => {
                let rbp = self.encode_get_location(Operand::Direct(Register::RBP));
                let rsp = self.encode_get_location(Operand::Direct(Register::RSP));
                let _moved = self.encode_move(rsp, rbp);
                self.encode_pop(rbp);
                assert(self.ops@ =~= ops0 + lift(*inst, t0, last0).ops);
            },
            Mnemoic::Ret => {
                let target = Temporary(DataType::N64, self.temps);
                self.temps = self.temps + 1;
                self.encode_pop(Location::Temp(target));
                self.ops.push(MicroOperation::Jump {
                    target,
                    condition: Condition::True,
                    relative: false,
                });
                assert(self.ops@ =~= ops0 + lift(*inst, t0, last0).ops);
            },
            Mnemoic::Cmp => {
                let (_dest, left, right) = self.encode_load_both(inst);
                self.last_comparison = Some(Comparison::Sub(left, right));
            },
            Mnemoic::Test => {
                let (_dest, left, right) = self.encode_load_both(inst);
                self.last_comparison = Some(Comparison::And(left, right));
            },
            Mnemoic::Setl => {
                let cmp = self.get_comparison();
                self.encode_set(inst.operands[0], Condition::Less(cmp));
            },
            Mnemoic::Syscall => {
                self.ops.push(MicroOperation::Syscall);
                assert(self.ops@ =~= ops0 + lift(*inst, t0, last0).ops);
            },
            Mnemoic::Nop => {
                assert(self.ops@ =~= ops0 + lift(*inst, t0, last0).ops);
            },
        }
        Ok(())
    }

    /// Encode a move, refusing one whose sides differ in width.
    fn encode_move(&mut self, dest: Location, src: Location) -> (r: Result<(), EncodeError>)
        ensures
            location_width(src) == location_width(dest) ==> {
                &&& r is Ok
                &&& final(self).ops@ == old(self).ops@.push(MicroOperation::Mov { dest, src })
            },
            location_width(src) != location_width(dest) ==> {
                &&& r is Err
                &&& r->Err_0.message@ == move_error_text(location_width(src), location_width(dest))
                &&& final(self).ops@ == old(self).ops@
            },
            final(self).temps == old(self).temps,
            final(self).last_comparison == old(self).last_comparison,
    {
        if src.data_type() != dest.data_type() {
            return Err(EncodeError::new(move_error_message(src.data_type(), dest.data_type())));
        }
        self.ops.push(MicroOperation::Mov { dest, src });
        Ok(())
    }

    /// The comparison of the last flag-producing instruction.
    fn get_comparison(&self) -> (r: Comparison)
        requires
            self.last_comparison is Some,
        ensures
            r == self.last_comparison->0,
    {
        match self.last_comparison {
            Some(cmp) => cmp,
            None => {
                proof {
                    assert(false);
                }
                Comparison::And(Temporary(DataType::N64, 0), Temporary(DataType::N64, 0))
            },
        }
    }

    /// Encode a binary operation like add or subtract.
    fn encode_binop(&mut self, inst: &Instruction, kind: BinopKind) -> (r: (Temporary, Temporary))
        requires
            old(self).temps + 9 <= usize::MAX,
            inst.operands@.len() >= 2,
        ensures
            ({
                let (ops, t1, l, rt) = binop_ops(kind, inst.operands@[0], inst.operands@[1], old(self).temps as nat);
                &&& final(self).ops@ == old(self).ops@ + ops
                &&& final(self).temps == t1
                &&& r == (l, rt)
            }),
            final(self).last_comparison == old(self).last_comparison,
    {
        let ghost t0 = self.temps as nat;
        let ghost ops0 = self.ops@;
        let (dest, left, right) = self.encode_load_both(inst);
        let target = Temporary(left.0, self.temps);
        let op = match kind {
            BinopKind::Add => MicroOperation::Add { sum: target, a: left, b: right },
            BinopKind::Sub => MicroOperation::Sub { diff: target, a: left, b: right },
            BinopKind::Mul => MicroOperation::Mul { prod: target, a: left, b: right },
        };
        self.ops.push(op);
        self.ops.push(MicroOperation::Mov { dest, src: Location::Temp(target) });
        self.temps = self.temps + 1;
        proof {
            let (lops, t1, d, l, rt) = load_both(inst.operands@[0], inst.operands@[1], t0);
            assert(self.ops@ =~= ops0 + lops.push(binop_op(kind, target, l, rt)).push(
                MicroOperation::Mov { dest: d, src: Location::Temp(target) }));
        }
        (left, right)
    }

    /// Load both operands into temporaries, casting the right one to the width of
    /// the left one where they differ.
    fn encode_load_both(&mut self, inst: &Instruction) -> (r: (Location, Temporary, Temporary))
        requires
            old(self).temps + 8 <= usize::MAX,
            inst.operands@.len() >= 2,
        ensures
            ({
                let (ops, t1, d, l, rt) = load_both(inst.operands@[0], inst.operands@[1], old(self).temps as nat);
                &&& final(self).ops@ == old(self).ops@ + ops
                &&& final(self).temps == t1
                &&& r == (d, l, rt)
            }),
            final(self).last_comparison == old(self).last_comparison,
    {
        let ghost t0 = self.temps as nat;
        let ghost ops0 = self.ops@;
        let (dest, left) = self.encode_load_operand(inst.operands[0]);
        let ghost ops1 = self.ops@;
        let (_src, right) = self.encode_load_operand(inst.operands[1]);
        proof {
            let (a, t1, _d, _l) = load_operand(inst.operands@[0], t0);
            let (b, _t2, _s, _r) = load_operand(inst.operands@[1], t1);
            assert(self.ops@ =~= ops0 + (a + b));
        }
        if left.0 != right.0 {
            self.ops.push(MicroOperation::Cast { target: right, new: left.0, signed: true });
            proof {
                let (a, t1, _d, _l) = load_operand(inst.operands@[0], t0);
                let (b, _t2, _s, _r) = load_operand(inst.operands@[1], t1);
                assert(self.ops@ =~= ops0 + (a + b.push(
                    MicroOperation::Cast { target: right, new: left.0, signed: true })));
            }
            (dest, left, Temporary(left.0, right.1))
        } else {
            (dest, left, right)
        }
    }

    /// Encode a relative jump by the offset operand.
    fn encode_jump(&mut self, operand: Operand, condition: Condition)
        requires
            old(self).temps + 1 <= usize::MAX,
            operand is Offset,
        ensures
            final(self).ops@ == old(self).ops@ + jump_ops(operand->Offset_0, condition, old(self).temps as nat).0,
            final(self).temps == jump_ops(operand->Offset_0, condition, old(self).temps as nat).1,
            final(self).last_comparison == old(self).last_comparison,
    {
        let ghost ops0 = self.ops@;
        if let Operand::Offset(offset) = operand {
            let target = Temporary(DataType::N64, self.temps);
            let constant = Integer(DataType::N64, offset as u64);
            self.ops.push(MicroOperation::Const { dest: Location::Temp(target), constant });
            self.ops.push(MicroOperation::Jump { target, condition, relative: true });
            self.temps = self.temps + 1;
            assert(self.ops@ =~= ops0 + jump_ops(offset, condition, (self.temps - 1) as nat).0);
        }
    }

    /// Encode setting the operand to whether the condition holds.
    fn encode_set(&mut self, operand: Operand, condition: Condition)
        requires
            old(self).temps + 4 <= usize::MAX,
        ensures
            final(self).ops@ == old(self).ops@ + set_ops(operand, condition, old(self).temps as nat).0,
            final(self).temps == set_ops(operand, condition, old(self).temps as nat).1,
            final(self).last_comparison == old(self).last_comparison,
    {
        let ghost t0 = self.temps as nat;
        let ghost ops0 = self.ops@;
        let location = self.encode_get_location(operand);
        let tmp = Temporary(location.data_type(), self.temps);
        self.temps = self.temps + 1;
        self.ops.push(MicroOperation::SetCond { target: tmp, condition });
        self.ops.push(MicroOperation::Mov { dest: location, src: Location::Temp(tmp) });
        assert(self.ops@ =~= ops0 + set_ops(operand, condition, t0).0);
    }

    /// Decrement the stack pointer by the width of `src` and store `src` on the stack.
    fn encode_push(&mut self, src: Location)
        requires
            old(self).temps + 4 <= usize::MAX,
        ensures
            final(self).ops@ == old(self).ops@ + push_ops(src, old(self).temps as nat).0,
            final(self).temps == push_ops(src, old(self).temps as nat).1,
            final(self).last_comparison == old(self).last_comparison,
    {
        let ghost t0 = self.temps as nat;
        let ghost ops0 = self.ops@;
        let (sp, stack) = self.encode_load_operand(Operand::Direct(Register::RSP));
        let data_type = src.data_type();
        let offset = Temporary(DataType::N64, self.temps);
        let constant = Integer(DataType::N64, data_type.bytes());
        self.ops.push(MicroOperation::Const { dest: Location::Temp(offset), constant });
        self.ops.push(MicroOperation::Sub { diff: stack, a: stack, b: offset });
        self.temps = self.temps + 1;
        self.ops.push(MicroOperation::Mov { dest: Location::Indirect(data_type, 0, stack), src });
        self.ops.push(MicroOperation::Mov { dest: sp, src: Location::Temp(stack) });
        assert(self.ops@ =~= ops0 + push_ops(src, t0).0);
    }

    /// Load the value on top of the stack into `dest` and increment the stack
    /// pointer by its width.
    fn encode_pop(&mut self, dest: Location)
        requires
            old(self).temps + 4 <= usize::MAX,
        ensures
            final(self).ops@ == old(self).ops@ + pop_ops(dest, old(self).temps as nat).0,
            final(self).temps == pop_ops(dest, old(self).temps as nat).1,
            final(self).last_comparison == old(self).last_comparison,
    {
        let ghost t0 = self.temps as nat;
        let ghost ops0 = self.ops@;
        let (sp, stack) = self.encode_load_operand(Operand::Direct(Register::RSP));
        let data_type = dest.data_type();
        self.ops.push(MicroOperation::Mov { dest, src: Location::Indirect(data_type, 0, stack) });
        let offset = Temporary(DataType::N64, self.temps);
        let constant = Integer(DataType::N64, data_type.bytes());
        self.ops.push(MicroOperation::Const { dest: Location::Temp(offset), constant });
        self.ops.push(MicroOperation::Add { sum: stack, a: stack, b: offset });
        self.temps = self.temps + 1;
        self.ops.push(MicroOperation::Mov { dest: sp, src: Location::Temp(stack) });
        assert(self.ops@ =~= ops0 + pop_ops(dest, t0).0);
    }

    /// Move the second operand into the first with a cast to the destination's width.
    fn encode_move_casted(&mut self, inst: &Instruction, signed: bool)
        requires
            old(self).temps + 7 <= usize::MAX,
            inst.operands@.len() >= 2,
        ensures
            final(self).ops@ == old(self).ops@ + move_casted_ops(inst.operands@[0], inst.operands@[1], signed, old(self).temps as nat).0,
            final(self).temps == move_casted_ops(inst.operands@[0], inst.operands@[1], signed, old(self).temps as nat).1,
            final(self).last_comparison == old(self).last_comparison,
    {
        let ghost t0 = self.temps as nat;
        let ghost ops0 = self.ops@;
        let dest = self.encode_get_location(inst.operands[0]);
        let (_src, tmp) = self.encode_load_operand(inst.operands[1]);
        let new = dest.data_type();
        self.ops.push(MicroOperation::Cast { target: tmp, new, signed });
        self.ops.push(MicroOperation::Mov { dest, src: Location::Temp(Temporary(new, tmp.1)) });
        proof {
            let (a, t1, _d) = location_of(inst.operands@[0], t0);
            let (b, _t2, _s, _tm) = load_operand(inst.operands@[1], t1);
            assert(self.ops@ =~= ops0 + (a + b.push(MicroOperation::Cast { target: tmp, new, signed }).push(
                MicroOperation::Mov { dest, src: Location::Temp(Temporary(new, tmp.1)) })));
        }
    }

    /// Load the operand into a temporary, unless it already is one.
    fn encode_load_operand(&mut self, operand: Operand) -> (r: (Location, Temporary))
        requires
            old(self).temps + 4 <= usize::MAX,
        ensures
            ({
                let (ops, t1, loc, tmp) = load_operand(operand, old(self).temps as nat);
                &&& final(self).ops@ == old(self).ops@ + ops
                &&& final(self).temps == t1
                &&& r == (loc, tmp)
            }),
            final(self).last_comparison == old(self).last_comparison,
    {
        let ghost ops0 = self.ops@;
        let location = self.encode_get_location(operand);
        if let Location::Temp(tmp) = location {
            (location, tmp)
        } else {
            let ghost ops1 = self.ops@;
            let tmp = Temporary(location.data_type(), self.temps);
            self.ops.push(MicroOperation::Mov { dest: Location::Temp(tmp), src: location });
            self.temps = self.temps + 1;
            assert(self.ops@ =~= ops0 + (ops1.subrange(ops0.len() as int, ops1.len() as int)).push(
                MicroOperation::Mov { dest: Location::Temp(tmp), src: location }));
            (location, tmp)
        }
    }

    /// Resolve the operand to a location. Memory operands get their address
    /// computed into a temporary, immediates and offsets are loaded into one,
    /// registers need nothing.
    fn encode_get_location(&mut self, operand: Operand) -> (r: Location)
        requires
            old(self).temps + 3 <= usize::MAX,
        ensures
            final(self).ops@ == old(self).ops@ + location_of(operand, old(self).temps as nat).0,
            final(self).temps == location_of(operand, old(self).temps as nat).1,
            r == location_of(operand, old(self).temps as nat).2,
            final(self).last_comparison == old(self).last_comparison,
    {
        let ghost t0 = self.temps as nat;
        let ghost ops0 = self.ops@;
        match operand {
            Operand::Direct(reg) => {
                assert(self.ops@ =~= ops0 + Seq::<MicroOperation>::empty());
                Location::Direct(reg.data_type(), 1, reg.address())
            },
            Operand::Indirect(data_type, reg) => {
                let base = self.encode_load_reg(reg);
                assert(self.ops@ =~= ops0 + location_of(operand, t0).0);
                Location::Indirect(data_type, 0, base)
            },
            Operand::IndirectDisplaced(data_type, reg, displace) => {
                let base = self.encode_load_reg(reg);
                let constant = Temporary(DataType::N64, self.temps);
                self.ops.push(MicroOperation::Const {
                    dest: Location::Temp(constant),
                    constant: Integer(DataType::N64, displace as u64),
                });
                let sum = Temporary(DataType::N64, self.temps + 1);
                self.ops.push(MicroOperation::Add { sum, a: base, b: constant });
                self.temps = self.temps + 2;
                assert(self.ops@ =~= ops0 + location_of(operand, t0).0);
                Location::Indirect(data_type, 0, sum)
            },
            Operand::Immediate(data_type, immediate) => {
                let tmp = self.encode_load_constant(data_type, immediate);
                assert(self.ops@ =~= ops0 + location_of(operand, t0).0);
                Location::Temp(tmp)
            },
            Operand::Offset(offset) => {
                let tmp = self.encode_load_constant(DataType::N64, offset as u64);
                assert(self.ops@ =~= ops0 + location_of(operand, t0).0);
                Location::Temp(tmp)
            },
        }
    }

    /// Load a register from the register file into a temporary of its width.
    fn encode_load_reg(&mut self, reg: Register) -> (r: Temporary)
        requires
            old(self).temps + 1 <= usize::MAX,
        ensures
            final(self).ops@ == old(self).ops@.push(load_reg_op(reg, old(self).temps as nat)),
            final(self).temps == old(self).temps + 1,
            r == temp(register_width(reg), old(self).temps as nat),
            final(self).last_comparison == old(self).last_comparison,
    {
        let data_type = reg.data_type();
        let tmp = Temporary(data_type, self.temps);
        let src = Location::Direct(data_type, 1, reg.address());
        self.ops.push(MicroOperation::Mov { dest: Location::Temp(tmp), src });
        self.temps = self.temps + 1;
        tmp
    }

    /// Load a constant into a temporary.
    fn encode_load_constant(&mut self, data_type: DataType, constant: u64) -> (r: Temporary)
        requires
            old(self).temps + 1 <= usize::MAX,
        ensures
            final(self).ops@ == old(self).ops@.push(const_op(data_type, constant, old(self).temps as nat)),
            final(self).temps == old(self).temps + 1,
            r == temp(data_type, old(self).temps as nat),
            final(self).last_comparison == old(self).last_comparison,
    {
        let tmp = Temporary(data_type, self.temps);
        self.ops.push(MicroOperation::Const {
            dest: Location::Temp(tmp),
            constant: Integer(data_type, constant),
        });
        self.temps = self.temps + 1;
        tmp
    }
}

/// Width of an operand's location, known before it is resolved.
fn operand_data_type(o: Operand) -> (r: DataType)
    ensures
        r == operand_width(o),
{
    match o {
        Operand::Direct(reg) => reg.data_type(),
        Operand::Indirect(d, _) => d,
        Operand::IndirectDisplaced(d, _, _) => d,
        Operand::Immediate(d, _) => d,
        Operand::Offset(_) => DataType::N64,
    }
}

/// An operand resolves to a location of the operand's width.
pub proof fn lemma_location_width(o: Operand, t: nat)
    ensures
        location_width(location_of(o, t).2) == operand_width(o),
{
}

/// Error type for microcode encoding.
#[derive(Debug, PartialEq, Eq)]
pub struct EncodeError {
    pub message: String,
}

impl EncodeError {
    /// Create a new encoding error with a message.
    pub fn new(message: String) -> (r: EncodeError)
        ensures
            r.message@ == message@,
    {
        EncodeError { message }
    }
}

} // verus!
