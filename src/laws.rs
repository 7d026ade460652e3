//! Laws of the microcode that the encoder emits: moves and jumps are well
//! typed, casts retype their target, and encoding is a pure function of its
//! context.

use vstd::prelude::*;
use crate::amd64::{Instruction, Mnemoic, Operand, Register, register_width};
use crate::ir::{
    BinopKind, Comparison, Condition, Location, MicroEncoder, MicroOperation, TEMPS_PER_INSTRUCTION,
    Temporary, binop_op, binop_ops, encodable, jump_ops, lemma_location_width, lift, load_both,
    load_operand, location_of, location_width, move_casted_ops, operand_width, pop_ops, push_ops,
    register_location, rsp_location, temp,
};
use crate::num::DataType;

verus! {

/// A micro-operation is well typed when a move's two sides agree in width and a
/// jump's target is a 64-bit temporary.
pub open spec fn well_typed(op: MicroOperation) -> bool {
    match op {
        MicroOperation::Mov { dest, src } => location_width(dest) == location_width(src),
        MicroOperation::Jump { target, .. } => target.0 == DataType::N64,
        _ => true,
    }
}

/// Every micro-operation of the sequence is well typed.
pub open spec fn all_well_typed(ops: Seq<MicroOperation>) -> bool {
    forall|i: int| 0 <= i < ops.len() ==> #[trigger] well_typed(ops[i])
}

/// Two well-typed sequences of micro-operations are well typed together.
pub proof fn lemma_concat_well_typed(a: Seq<MicroOperation>, b: Seq<MicroOperation>)
    requires
        all_well_typed(a),
        all_well_typed(b),
    ensures
        all_well_typed(a + b),
{
    assert forall|i: int| 0 <= i < (a + b).len() implies #[trigger] well_typed((a + b)[i]) by {
        if i < a.len() {
            assert((a + b)[i] == a[i]);
        } else {
            assert((a + b)[i] == b[i - a.len()]);
        }
    }
}

proof fn lemma_location_well_typed(o: Operand, t: nat)
    ensures
        all_well_typed(location_of(o, t).0),
{
}

proof fn lemma_load_operand_well_typed(o: Operand, t: nat)
    ensures
        all_well_typed(load_operand(o, t).0),
        location_width(load_operand(o, t).2) == load_operand(o, t).3.0,
{
    lemma_location_well_typed(o, t);
}

proof fn lemma_load_both_well_typed(o0: Operand, o1: Operand, t: nat)
    ensures
        all_well_typed(load_both(o0, o1, t).0),
        location_width(load_both(o0, o1, t).2) == load_both(o0, o1, t).3.0,
{
    lemma_load_operand_well_typed(o0, t);
    lemma_load_operand_well_typed(o1, load_operand(o0, t).1);
    let (a, t1, _d, l) = load_operand(o0, t);
    let (b, _t2, _s, r) = load_operand(o1, t1);
    lemma_concat_well_typed(a, b);
    lemma_concat_well_typed(a, b.push(MicroOperation::Cast { target: r, new: l.0, signed: true }));
}

/// Every micro-operation that lifting an encodable instruction emits is well
/// typed: the two sides of each move agree in width, and the target of each jump
/// is a 64-bit temporary.
pub proof fn lemma_lift_well_typed(inst: Instruction, t: nat, last: Option<Comparison>)
    requires
        encodable(inst, last),
    ensures
        all_well_typed(lift(inst, t, last).ops),
{
    let o = inst.operands@;
    match inst.mnemoic {
        Mnemoic::Add | Mnemoic::Sub | Mnemoic::Imul => {
            lemma_load_both_well_typed(o[0], o[1], t);
        },
        Mnemoic::Cmp | Mnemoic::Test => {
            lemma_load_both_well_typed(o[0], o[1], t);
        },
        Mnemoic::Mov | Mnemoic::Movzx | Mnemoic::Lea => {
            let (a, t1, dest) = location_of(o[0], t);
            lemma_location_well_typed(o[0], t);
            lemma_location_well_typed(o[1], t1);
            lemma_location_width(o[0], t);
            lemma_location_width(o[1], t1);
            lemma_load_operand_well_typed(o[1], t1);
            let (b, _t2, _s) = location_of(o[1], t1);
            let (c, _t3, _s2, tmp) = load_operand(o[1], t1);
            lemma_concat_well_typed(a, b);
            lemma_concat_well_typed(a, c.push(
                MicroOperation::Cast { target: tmp, new: location_width(dest), signed: inst.mnemoic == Mnemoic::Mov },
            ).push(MicroOperation::Mov {
                dest,
                src: Location::Temp(Temporary(location_width(dest), tmp.1)),
            }));
        },
        Mnemoic::Push | Mnemoic::Pop => {
            let (a, t1, l) = location_of(o[0], t);
            lemma_location_well_typed(o[0], t);
            lemma_concat_well_typed(a, push_ops(l, t1).0);
            lemma_concat_well_typed(a, pop_ops(l, t1).0);
        },
        Mnemoic::Call => {
            let (a, t1) = push_ops(register_location(Register::RIP), t);
            lemma_concat_well_typed(a, jump_ops(o[0]->Offset_0, Condition::True, t1).0);
        },
        Mnemoic::Leave => {
            let rbp = register_location(Register::RBP);
            lemma_concat_well_typed(
                seq![MicroOperation::Mov { dest: rsp_location(), src: rbp }],
                pop_ops(rbp, t).0,
            );
        },
        Mnemoic::Setl => {
            lemma_location_well_typed(o[0], t);
        },
        _ => {},
    }
}

/// Encoding is a pure function of the instruction, the temporary counter and the
/// last comparison: two encoders that agree on the counter and the last
/// comparison append the same micro-operations for the same instruction, and
/// agree on both again afterwards.
pub proof fn lemma_encoding_is_pure(a: MicroEncoder, b: MicroEncoder, inst: Instruction)
    requires
        a.counter() == b.counter(),
        a.last() == b.last(),
    ensures
        lift(inst, a.counter(), a.last()).ops == lift(inst, b.counter(), b.last()).ops,
        lift(inst, a.counter(), a.last()).temps == lift(inst, b.counter(), b.last()).temps,
        lift(inst, a.counter(), a.last()).last == lift(inst, b.counter(), b.last()).last,
        lift(inst, a.counter(), a.last()).ok == lift(inst, b.counter(), b.last()).ok,
        crate::ir::lea_error_text(inst, a.counter()) == crate::ir::lea_error_text(inst, b.counter()),
{
}

/// The temporaries that a location names.
pub open spec fn location_temps(l: Location) -> Seq<Temporary> {
    match l {
        Location::Temp(t) => seq![t],
        Location::Direct(_, _, _) => Seq::empty(),
        Location::Indirect(_, _, t) => seq![t],
    }
}

/// The temporaries that a comparison names.
pub open spec fn comparison_temps(c: Comparison) -> Seq<Temporary> {
    match c {
        Comparison::Add(a, b) | Comparison::Sub(a, b) | Comparison::Mul(a, b)
        | Comparison::And(a, b) => seq![a, b],
    }
}

/// The temporaries that a condition names.
pub open spec fn condition_temps(c: Condition) -> Seq<Temporary> {
    match c {
        Condition::True => Seq::empty(),
        Condition::Equal(cmp) | Condition::Greater(cmp) | Condition::Less(cmp) => comparison_temps(cmp),
    }
}

/// The temporaries that a micro-operation reads or writes, including those that
/// hold an address.
pub open spec fn op_temps(op: MicroOperation) -> Seq<Temporary> {
    match op {
        MicroOperation::Mov { dest, src } => location_temps(dest) + location_temps(src),
        MicroOperation::Const { dest, .. } => location_temps(dest),
        MicroOperation::Cast { target, .. } => seq![target],
        MicroOperation::Add { sum: r, a, b } | MicroOperation::Sub { diff: r, a, b }
        | MicroOperation::Mul { prod: r, a, b } | MicroOperation::And { and: r, a, b }
        | MicroOperation::Or { or: r, a, b } => seq![r, a, b],
        MicroOperation::Not { not, a } => seq![not, a],
        MicroOperation::SetCond { target, condition } => seq![target] + condition_temps(condition),
        MicroOperation::Jump { target, condition, .. } => seq![target] + condition_temps(condition),
        MicroOperation::Syscall => Seq::empty(),
    }
}

/// After each cast in the sequence, the micro-operations that follow name the
/// cast temporary's index only at the width it was cast to.
pub open spec fn casts_retype(ops: Seq<MicroOperation>) -> bool {
    forall|i: int, j: int, k: int|
        #![trigger ops[i], op_temps(ops[j])[k]]
        0 <= i < j < ops.len() && ops[i] is Cast && 0 <= k < op_temps(ops[j]).len() && op_temps(
            ops[j],
        )[k].1 == ops[i]->Cast_target.1 ==> op_temps(ops[j])[k].0 == ops[i]->Cast_new
}

spec fn no_casts(ops: Seq<MicroOperation>) -> bool {
    forall|i: int| 0 <= i < ops.len() ==> !((#[trigger] ops[i]) is Cast)
}

/// Every temporary of the sequence that has index `x` has width `d`.
spec fn index_at_width(ops: Seq<MicroOperation>, x: usize, d: DataType) -> bool {
    forall|j: int, k: int|
        0 <= j < ops.len() && 0 <= k < op_temps(ops[j]).len() && (#[trigger] op_temps(ops[j])[k]).1
            == x ==> op_temps(ops[j])[k].0 == d
}

proof fn lemma_no_casts_concat(a: Seq<MicroOperation>, b: Seq<MicroOperation>)
    requires
        no_casts(a),
        no_casts(b),
    ensures
        no_casts(a + b),
{
    assert forall|i: int| 0 <= i < (a + b).len() implies !((#[trigger] (a + b)[i]) is Cast) by {
        if i < a.len() {
            assert((a + b)[i] == a[i]);
        } else {
            assert((a + b)[i] == b[i - a.len()]);
        }
    }
}

proof fn lemma_no_casts_retype(ops: Seq<MicroOperation>)
    requires
        no_casts(ops),
    ensures
        casts_retype(ops),
{
}

/// A sequence with one cast, whose later micro-operations name the cast index
/// only at the new width, retypes.
proof fn lemma_one_cast_retypes(pre: Seq<MicroOperation>, cast: MicroOperation, post: Seq<MicroOperation>)
    requires
        no_casts(pre),
        no_casts(post),
        cast is Cast,
        index_at_width(post, cast->Cast_target.1, cast->Cast_new),
    ensures
        casts_retype(pre.push(cast) + post),
{
    let ops = pre.push(cast) + post;
    assert forall|i: int, j: int, k: int|
        #![trigger ops[i], op_temps(ops[j])[k]]
        0 <= i < j < ops.len() && ops[i] is Cast && 0 <= k < op_temps(ops[j]).len() && op_temps(
            ops[j],
        )[k].1 == ops[i]->Cast_target.1 implies op_temps(ops[j])[k].0 == ops[i]->Cast_new by {
        if i < pre.len() {
            assert(ops[i] == pre[i]);
        } else {
            assert(i == pre.len());
            assert(ops[i] == cast);
            assert(ops[j] == post[j - pre.len() - 1]);
        }
    }
}

/// Resolving an operand names only temporaries it allocates, emits no cast, and
/// allocates at most three.
proof fn lemma_location_fresh(o: Operand, t: nat)
    requires
        t + 3 <= usize::MAX,
    ensures
        ({
            let (ops, t1, loc) = location_of(o, t);
            &&& no_casts(ops)
            &&& t <= t1 <= t + 3
            &&& forall|j: int, k: int|
                0 <= j < ops.len() && 0 <= k < op_temps(ops[j]).len() ==> t
                    <= (#[trigger] op_temps(ops[j])[k]).1 < t1
            &&& forall|k: int|
                0 <= k < location_temps(loc).len() ==> t <= #[trigger] location_temps(loc)[k].1 < t1
        }),
{
    let (ops, t1, loc) = location_of(o, t);
    assert forall|j: int, k: int|
        0 <= j < ops.len() && 0 <= k < op_temps(ops[j]).len() implies t
        <= (#[trigger] op_temps(ops[j])[k]).1 < t1 by {
        let x = op_temps(ops[j]);
        match o {
            Operand::IndirectDisplaced(_, _, _) => {
                if j == 0 {
                    assert(x =~= seq![temp(register_width(o->IndirectDisplaced_1), t)]);
                } else if j == 1 {
                    assert(x =~= seq![temp(DataType::N64, t + 1)]);
                } else {
                    assert(x =~= seq![
                        temp(DataType::N64, t + 2),
                        temp(register_width(o->IndirectDisplaced_1), t),
                        temp(DataType::N64, t + 1),
                    ]);
                }
            },
            Operand::Indirect(_, reg) => {
                assert(x =~= seq![temp(register_width(reg), t)]);
            },
            Operand::Immediate(d, _) => {
                assert(x =~= seq![temp(d, t)]);
            },
            Operand::Offset(_) => {
                assert(x =~= seq![temp(DataType::N64, t)]);
            },
            Operand::Direct(_) => {},
        }
    }
}

/// Loading an operand names only temporaries it allocates, emits no cast, and
/// yields a temporary among them.
proof fn lemma_load_fresh(o: Operand, t: nat)
    requires
        t + 4 <= usize::MAX,
    ensures
        ({
            let (ops, t1, loc, tmp) = load_operand(o, t);
            &&& no_casts(ops)
            &&& t <= t1 <= t + 4
            &&& t <= tmp.1 < t1
            &&& forall|j: int, k: int|
                0 <= j < ops.len() && 0 <= k < op_temps(ops[j]).len() ==> t
                    <= (#[trigger] op_temps(ops[j])[k]).1 < t1
            &&& forall|k: int|
                0 <= k < location_temps(loc).len() ==> t <= #[trigger] location_temps(loc)[k].1 < t1
        }),
{
    lemma_location_fresh(o, t);
    let (a, t1, loc) = location_of(o, t);
    if !(loc is Temp) {
        let tmp = temp(location_width(loc), t1);
        let m = MicroOperation::Mov { dest: Location::Temp(tmp), src: loc };
        let ops = a.push(m);
        assert forall|j: int, k: int|
            0 <= j < ops.len() && 0 <= k < op_temps(ops[j]).len() implies t
            <= (#[trigger] op_temps(ops[j])[k]).1 < t1 + 1 by {
            if j < a.len() {
                assert(ops[j] == a[j]);
            } else {
                let x = op_temps(m);
                assert(x == location_temps(Location::Temp(tmp)) + location_temps(loc));
                if k >= 1 {
                    assert(x[k] == location_temps(loc)[k - 1]);
                }
            }
        }
        assert forall|i: int| 0 <= i < ops.len() implies !((#[trigger] ops[i]) is Cast) by {
            if i < a.len() {
                assert(ops[i] == a[i]);
            }
        }
    } else {
        assert(location_temps(loc)[0] == loc->Temp_0);
    }
}

proof fn lemma_load_both_retypes(o0: Operand, o1: Operand, t: nat, post: Seq<MicroOperation>)
    requires
        t + 8 <= usize::MAX,
        no_casts(post),
        ({
            let (_ops, _t2, _dest, left, right) = load_both(o0, o1, t);
            index_at_width(post, right.1, left.0)
        }),
    ensures
        casts_retype(load_both(o0, o1, t).0 + post),
{
    lemma_load_fresh(o0, t);
    let (a, t1, _d, left) = load_operand(o0, t);
    lemma_load_fresh(o1, t1);
    let (b, _t2, _s, right) = load_operand(o1, t1);
    lemma_no_casts_concat(a, b);
    if left.0 != right.0 {
        let cast = MicroOperation::Cast { target: right, new: left.0, signed: true };
        assert(a + b.push(cast) =~= (a + b).push(cast));
        lemma_one_cast_retypes(a + b, cast, post);
    } else {
        lemma_no_casts_concat(a + b, post);
        lemma_no_casts_retype(a + b + post);
    }
}

proof fn lemma_binop_retypes(k: BinopKind, o0: Operand, o1: Operand, t: nat)
    requires
        t + 9 <= usize::MAX,
    ensures
        casts_retype(binop_ops(k, o0, o1, t).0),
{
    lemma_load_fresh(o0, t);
    let (a, t1, dest, left) = load_operand(o0, t);
    lemma_load_fresh(o1, t1);
    let (l_ops, t2, d2, l2, right) = load_both(o0, o1, t);
    let target = temp(left.0, t2);
    let post = seq![
        binop_op(k, target, left, right),
        MicroOperation::Mov { dest, src: Location::Temp(target) },
    ];
    assert forall|j: int, i: int|
        0 <= j < post.len() && 0 <= i < op_temps(post[j]).len() && (#[trigger] op_temps(
            post[j],
        )[i]).1 == right.1 implies op_temps(post[j])[i].0 == left.0 by {
        if j == 1 {
            assert(op_temps(post[1]) == location_temps(dest) + seq![target]);
            if i < location_temps(dest).len() {
                assert(op_temps(post[1])[i] == location_temps(dest)[i]);
            }
        }
    }
    assert(no_casts(post));
    lemma_load_both_retypes(o0, o1, t, post);
    assert(binop_ops(k, o0, o1, t).0 =~= l_ops + post);
}

proof fn lemma_move_casted_retypes(o0: Operand, o1: Operand, signed: bool, t: nat)
    requires
        t + 7 <= usize::MAX,
    ensures
        casts_retype(move_casted_ops(o0, o1, signed, t).0),
{
    lemma_location_fresh(o0, t);
    let (a, t1, dest) = location_of(o0, t);
    lemma_load_fresh(o1, t1);
    let (b, _t2, _s, tmp) = load_operand(o1, t1);
    lemma_no_casts_concat(a, b);
    let new = location_width(dest);
    let cast = MicroOperation::Cast { target: tmp, new, signed };
    let mv = MicroOperation::Mov { dest, src: Location::Temp(Temporary(new, tmp.1)) };
    let post = seq![mv];
    assert forall|j: int, i: int|
        0 <= j < post.len() && 0 <= i < op_temps(post[j]).len() && (#[trigger] op_temps(
            post[j],
        )[i]).1 == tmp.1 implies op_temps(post[j])[i].0 == new by {
        assert(op_temps(mv) == location_temps(dest) + seq![Temporary(new, tmp.1)]);
        if i < location_temps(dest).len() {
            assert(op_temps(mv)[i] == location_temps(dest)[i]);
        }
    }
    lemma_one_cast_retypes(a + b, cast, post);
    assert(move_casted_ops(o0, o1, signed, t).0 =~= (a + b).push(cast) + post);
}

proof fn lemma_two_locations_no_casts(o0: Operand, o1: Operand, t: nat)
    requires
        t + 6 <= usize::MAX,
    ensures
        no_casts(location_of(o0, t).0 + location_of(o1, location_of(o0, t).1).0),
{
    lemma_location_fresh(o0, t);
    let (a, t1, _d) = location_of(o0, t);
    lemma_location_fresh(o1, t1);
    lemma_no_casts_concat(a, location_of(o1, t1).0);
}

/// Every cast that lifting an encodable instruction emits retypes its target:
/// the micro-operations after it name the target's index only at the new width.
pub proof fn lemma_lift_retypes(inst: Instruction, t: nat, last: Option<Comparison>)
    requires
        encodable(inst, last),
        t + TEMPS_PER_INSTRUCTION <= usize::MAX,
    ensures
        casts_retype(lift(inst, t, last).ops),
{
    let o = inst.operands@;
    let ops = lift(inst, t, last).ops;
    match inst.mnemoic {
        Mnemoic::Add => lemma_binop_retypes(BinopKind::Add, o[0], o[1], t),
        Mnemoic::Sub => lemma_binop_retypes(BinopKind::Sub, o[0], o[1], t),
        Mnemoic::Imul => lemma_binop_retypes(BinopKind::Mul, o[0], o[1], t),
        Mnemoic::Cmp | Mnemoic::Test => {
            lemma_load_both_retypes(o[0], o[1], t, Seq::empty());
            assert(ops =~= load_both(o[0], o[1], t).0 + Seq::<MicroOperation>::empty());
        },
        Mnemoic::Movzx => lemma_move_casted_retypes(o[0], o[1], false, t),
        Mnemoic::Mov => {
            if operand_width(o[0]) != operand_width(o[1]) {
                lemma_move_casted_retypes(o[0], o[1], true, t);
            } else {
                lemma_two_locations_no_casts(o[0], o[1], t);
                let pre = location_of(o[0], t).0 + location_of(o[1], location_of(o[0], t).1).0;
                assert(forall|i: int| 0 <= i < pre.len() ==> ops[i] == pre[i]);
            }
        },
        Mnemoic::Lea => {
            lemma_two_locations_no_casts(o[0], o[1], t);
            let pre = location_of(o[0], t).0 + location_of(o[1], location_of(o[0], t).1).0;
            assert(forall|i: int| 0 <= i < pre.len() ==> ops[i] == pre[i]);
        },
        Mnemoic::Push | Mnemoic::Pop => {
            lemma_location_fresh(o[0], t);
            let (a, t1, l) = location_of(o[0], t);
            lemma_no_casts_concat(a, push_ops(l, t1).0);
            lemma_no_casts_concat(a, pop_ops(l, t1).0);
        },
        Mnemoic::Call => {
            let (a, t1) = push_ops(register_location(Register::RIP), t);
            lemma_no_casts_concat(a, jump_ops(o[0]->Offset_0, Condition::True, t1).0);
        },
        Mnemoic::Leave => {
            let rbp = register_location(Register::RBP);
            lemma_no_casts_concat(
                seq![MicroOperation::Mov { dest: rsp_location(), src: rbp }],
                pop_ops(rbp, t).0,
            );
        },
        Mnemoic::Setl => {
            lemma_location_fresh(o[0], t);
            let (a, t1, l) = location_of(o[0], t);
            let tmp = temp(location_width(l), t1);
            let post = seq![
                MicroOperation::SetCond { target: tmp, condition: Condition::Less(last->0) },
                MicroOperation::Mov { dest: l, src: Location::Temp(tmp) },
            ];
            lemma_no_casts_concat(a, post);
            assert(ops =~= a + post);
        },
        _ => {},
    }
}

/// Encoding keeps a whole buffer well typed: if every move and jump already
/// buffered is well typed, so is every one after the instruction's microcode is
/// appended.
pub proof fn lemma_buffer_stays_well_typed(buffer: Seq<MicroOperation>, inst: Instruction, t: nat, last: Option<Comparison>)
    requires
        all_well_typed(buffer),
        encodable(inst, last),
    ensures
        all_well_typed(buffer + lift(inst, t, last).ops),
{
    lemma_lift_well_typed(inst, t, last);
    lemma_concat_well_typed(buffer, lift(inst, t, last).ops);
}

/// Numbering continues: lifting allocates temporaries upward from the counter,
/// so the counter after an instruction is never below the one before it.
pub proof fn lemma_counter_grows(inst: Instruction, t: nat, last: Option<Comparison>)
    requires
        encodable(inst, last),
        t + TEMPS_PER_INSTRUCTION <= usize::MAX,
    ensures
        lift(inst, t, last).temps >= t,
{
    let o = inst.operands@;
    match inst.mnemoic {
        Mnemoic::Add | Mnemoic::Sub | Mnemoic::Imul | Mnemoic::Cmp | Mnemoic::Test => {
            lemma_load_fresh(o[0], t);
            lemma_load_fresh(o[1], load_operand(o[0], t).1);
        },
        Mnemoic::Mov | Mnemoic::Movzx | Mnemoic::Lea => {
            lemma_location_fresh(o[0], t);
            lemma_location_fresh(o[1], location_of(o[0], t).1);
            lemma_load_fresh(o[1], location_of(o[0], t).1);
        },
        Mnemoic::Push | Mnemoic::Pop | Mnemoic::Setl => {
            lemma_location_fresh(o[0], t);
        },
        _ => {},
    }
}

/// The temporaries that a micro-operation names for its own work: all it names
/// but those of the comparison that a set or a jump tests.
pub open spec fn own_temps(op: MicroOperation) -> Seq<Temporary> {
    match op {
        MicroOperation::SetCond { target, .. } => seq![target],
        MicroOperation::Jump { target, .. } => seq![target],
        _ => op_temps(op),
    }
}

/// Every temporary that the micro-operations name for their own work has an
/// index in `lo..hi`.
pub open spec fn names_within(ops: Seq<MicroOperation>, lo: nat, hi: nat) -> bool {
    forall|j: int, k: int|
        0 <= j < ops.len() && 0 <= k < own_temps(ops[j]).len() ==> lo <= (#[trigger] own_temps(ops[j])[k]).1 < hi
}

proof fn lemma_within_of_op_temps(ops: Seq<MicroOperation>, lo: nat, hi: nat)
    requires
        forall|j: int, k: int|
            0 <= j < ops.len() && 0 <= k < op_temps(ops[j]).len() ==> lo <= (#[trigger] op_temps(ops[j])[k]).1 < hi,
    ensures
        names_within(ops, lo, hi),
{
    assert forall|j: int, k: int| 0 <= j < ops.len() && 0 <= k < own_temps(ops[j]).len() implies lo
        <= (#[trigger] own_temps(ops[j])[k]).1 < hi by {
        if ops[j] is SetCond || ops[j] is Jump {
            assert(own_temps(ops[j])[k] == op_temps(ops[j])[0]);
        } else {
            assert(own_temps(ops[j])[k] == op_temps(ops[j])[k]);
        }
    }
}

proof fn lemma_within_concat(a: Seq<MicroOperation>, b: Seq<MicroOperation>, lo: nat, hi: nat)
    requires
        names_within(a, lo, hi),
        names_within(b, lo, hi),
    ensures
        names_within(a + b, lo, hi),
{
    assert forall|j: int, k: int| 0 <= j < (a + b).len() && 0 <= k < own_temps((a + b)[j]).len() implies lo
        <= (#[trigger] own_temps((a + b)[j])[k]).1 < hi by {
        if j < a.len() {
            assert((a + b)[j] == a[j]);
        } else {
            assert((a + b)[j] == b[j - a.len()]);
        }
    }
}

proof fn lemma_within_widen(a: Seq<MicroOperation>, lo: nat, hi: nat, hi2: nat)
    requires
        names_within(a, lo, hi),
        hi <= hi2,
    ensures
        names_within(a, lo, hi2),
{
}

proof fn lemma_within_push(a: Seq<MicroOperation>, op: MicroOperation, lo: nat, hi: nat)
    requires
        names_within(a, lo, hi),
        forall|k: int| 0 <= k < own_temps(op).len() ==> lo <= (#[trigger] own_temps(op)[k]).1 < hi,
    ensures
        names_within(a.push(op), lo, hi),
{
    assert forall|j: int, k: int| 0 <= j < a.push(op).len() && 0 <= k < own_temps(a.push(op)[j]).len() implies lo
        <= (#[trigger] own_temps(a.push(op)[j])[k]).1 < hi by {
        if j < a.len() {
            assert(a.push(op)[j] == a[j]);
        }
    }
}

proof fn lemma_location_within(o: Operand, t: nat)
    requires
        t + 3 <= usize::MAX,
    ensures
        names_within(location_of(o, t).0, t, location_of(o, t).1),
{
    lemma_location_fresh(o, t);
    lemma_within_of_op_temps(location_of(o, t).0, t, location_of(o, t).1);
}

proof fn lemma_load_within(o: Operand, t: nat)
    requires
        t + 4 <= usize::MAX,
    ensures
        names_within(load_operand(o, t).0, t, load_operand(o, t).1),
{
    lemma_load_fresh(o, t);
    lemma_within_of_op_temps(load_operand(o, t).0, t, load_operand(o, t).1);
}

proof fn lemma_push_within(src: Location, lo: nat, t: nat)
    requires
        lo <= t,
        t + 2 <= usize::MAX,
        forall|k: int| 0 <= k < location_temps(src).len() ==> lo <= #[trigger] location_temps(src)[k].1 < t,
    ensures
        names_within(push_ops(src, t).0, lo, t + 2),
        names_within(pop_ops(src, t).0, lo, t + 2),
{
    let d = location_width(src);
    let stack = temp(DataType::N64, t);
    let m1 = MicroOperation::Mov { dest: Location::Indirect(d, 0, stack), src };
    let m2 = MicroOperation::Mov { dest: src, src: Location::Indirect(d, 0, stack) };
    assert forall|k: int| 0 <= k < own_temps(m1).len() implies lo <= (#[trigger] own_temps(m1)[k]).1 < t + 2 by {
        assert(own_temps(m1) == seq![stack] + location_temps(src));
        if k > 0 {
            assert(own_temps(m1)[k] == location_temps(src)[k - 1]);
        }
    }
    assert forall|k: int| 0 <= k < own_temps(m2).len() implies lo <= (#[trigger] own_temps(m2)[k]).1 < t + 2 by {
        assert(own_temps(m2) == location_temps(src) + seq![stack]);
        if k < location_temps(src).len() {
            assert(own_temps(m2)[k] == location_temps(src)[k]);
        }
    }
    let ops = push_ops(src, t).0;
    assert forall|j: int, k: int| 0 <= j < ops.len() && 0 <= k < own_temps(ops[j]).len() implies lo
        <= (#[trigger] own_temps(ops[j])[k]).1 < t + 2 by {
        if j == 3 {
            assert(ops[j] == m1);
        }
    }
    let ops2 = pop_ops(src, t).0;
    assert forall|j: int, k: int| 0 <= j < ops2.len() && 0 <= k < own_temps(ops2[j]).len() implies lo
        <= (#[trigger] own_temps(ops2[j])[k]).1 < t + 2 by {
        if j == 1 {
            assert(ops2[j] == m2);
        }
    }
}

proof fn lemma_load_both_within(o0: Operand, o1: Operand, t: nat)
    requires
        t + 8 <= usize::MAX,
    ensures
        ({
            let (ops, t2, dest, left, right) = load_both(o0, o1, t);
            &&& names_within(ops, t, t2)
            &&& t <= t2 <= t + 8
            &&& t <= left.1 < t2
            &&& t <= right.1 < t2
            &&& forall|k: int| 0 <= k < location_temps(dest).len() ==> t <= #[trigger] location_temps(dest)[k].1 < t2
        }),
{
    lemma_load_fresh(o0, t);
    lemma_load_within(o0, t);
    let (a, t1, _d, left) = load_operand(o0, t);
    lemma_load_fresh(o1, t1);
    lemma_load_within(o1, t1);
    let (b, t2, _s, right) = load_operand(o1, t1);
    lemma_within_widen(a, t, t1, t2);
    assert(names_within(b, t, t2));
    lemma_within_concat(a, b, t, t2);
    if left.0 != right.0 {
        let cast = MicroOperation::Cast { target: right, new: left.0, signed: true };
        lemma_within_push(a + b, cast, t, t2);
        assert(a + b.push(cast) =~= (a + b).push(cast));
    }
}

proof fn lemma_binop_within(k: BinopKind, o0: Operand, o1: Operand, t: nat)
    requires
        t + 9 <= usize::MAX,
    ensures
        names_within(binop_ops(k, o0, o1, t).0, t, binop_ops(k, o0, o1, t).1),
{
    lemma_load_both_within(o0, o1, t);
    let (l_ops, t2, dest, left, right) = load_both(o0, o1, t);
    let target = temp(left.0, t2);
    let op = binop_op(k, target, left, right);
    let mv = MicroOperation::Mov { dest, src: Location::Temp(target) };
    lemma_within_widen(l_ops, t, t2, t2 + 1);
    assert(own_temps(op) == seq![target, left, right]);
    lemma_within_push(l_ops, op, t, t2 + 1);
    assert forall|i: int| 0 <= i < own_temps(mv).len() implies t <= (#[trigger] own_temps(mv)[i]).1 < t2 + 1 by {
        assert(own_temps(mv) == location_temps(dest) + seq![target]);
        if i < location_temps(dest).len() {
            assert(own_temps(mv)[i] == location_temps(dest)[i]);
        }
    }
    lemma_within_push(l_ops.push(op), mv, t, t2 + 1);
}

proof fn lemma_move_casted_within(o0: Operand, o1: Operand, signed: bool, t: nat)
    requires
        t + 7 <= usize::MAX,
    ensures
        names_within(move_casted_ops(o0, o1, signed, t).0, t, move_casted_ops(o0, o1, signed, t).1),
{
    lemma_location_fresh(o0, t);
    lemma_location_within(o0, t);
    let (a, t1, dest) = location_of(o0, t);
    lemma_load_fresh(o1, t1);
    lemma_load_within(o1, t1);
    let (b, t2, _s, tmp) = load_operand(o1, t1);
    lemma_within_widen(a, t, t1, t2);
    lemma_within_concat(a, b, t, t2);
    let new = location_width(dest);
    let cast = MicroOperation::Cast { target: tmp, new, signed };
    let mv = MicroOperation::Mov { dest, src: Location::Temp(Temporary(new, tmp.1)) };
    lemma_within_push(a + b, cast, t, t2);
    assert forall|i: int| 0 <= i < own_temps(mv).len() implies t <= (#[trigger] own_temps(mv)[i]).1 < t2 by {
        assert(own_temps(mv) == location_temps(dest) + seq![Temporary(new, tmp.1)]);
        if i < location_temps(dest).len() {
            assert(own_temps(mv)[i] == location_temps(dest)[i]);
        }
    }
    lemma_within_push((a + b).push(cast), mv, t, t2);
    assert(move_casted_ops(o0, o1, signed, t).0 =~= (a + b).push(cast).push(mv));
}

proof fn lemma_two_locations_within(o0: Operand, o1: Operand, t: nat, extra: MicroOperation)
    requires
        t + 6 <= usize::MAX,
        ({
            let (_a, t1, dest) = location_of(o0, t);
            let (_b, t2, src) = location_of(o1, t1);
            forall|i: int| 0 <= i < own_temps(extra).len() ==> t <= (#[trigger] own_temps(extra)[i]).1 < t2
        }),
    ensures
        ({
            let (a, t1, _dest) = location_of(o0, t);
            let (b, t2, _src) = location_of(o1, t1);
            names_within((a + b).push(extra), t, t2) && names_within(a + b, t, t2) && t <= t2
        }),
{
    lemma_location_fresh(o0, t);
    lemma_location_within(o0, t);
    let (a, t1, _d) = location_of(o0, t);
    lemma_location_fresh(o1, t1);
    lemma_location_within(o1, t1);
    let (b, t2, _s) = location_of(o1, t1);
    lemma_within_widen(a, t, t1, t2);
    lemma_within_concat(a, b, t, t2);
    lemma_within_push(a + b, extra, t, t2);
}

/// Numbering continues where it stood: every temporary that an instruction's
/// microcode names for its own work (all but the temporaries of the comparison
/// that a conditional set or jump tests) has an index from the counter before
/// the instruction up to, not including, the counter after it.
pub proof fn lemma_lift_names_within(inst: Instruction, t: nat, last: Option<Comparison>)
    requires
        encodable(inst, last),
        t + TEMPS_PER_INSTRUCTION <= usize::MAX,
    ensures
        t <= lift(inst, t, last).temps,
        names_within(lift(inst, t, last).ops, t, lift(inst, t, last).temps),
{
    lemma_counter_grows(inst, t, last);
    let o = inst.operands@;
    let ops = lift(inst, t, last).ops;
    match inst.mnemoic {
        Mnemoic::Add => lemma_binop_within(BinopKind::Add, o[0], o[1], t),
        Mnemoic::Sub => lemma_binop_within(BinopKind::Sub, o[0], o[1], t),
        Mnemoic::Imul => lemma_binop_within(BinopKind::Mul, o[0], o[1], t),
        Mnemoic::Cmp | Mnemoic::Test => lemma_load_both_within(o[0], o[1], t),
        Mnemoic::Movzx => lemma_move_casted_within(o[0], o[1], false, t),
        Mnemoic::Mov => {
            if operand_width(o[0]) != operand_width(o[1]) {
                lemma_move_casted_within(o[0], o[1], true, t);
            } else {
                lemma_location_fresh(o[0], t);
                let (_a, t1, dest) = location_of(o[0], t);
                lemma_location_fresh(o[1], t1);
                let (_b, _t2, src) = location_of(o[1], t1);
                let mv = MicroOperation::Mov { dest, src };
                assert forall|i: int| 0 <= i < own_temps(mv).len() implies t <= (#[trigger] own_temps(mv)[i]).1 < _t2 by {
                    if i < location_temps(dest).len() {
                        assert(own_temps(mv)[i] == location_temps(dest)[i]);
                    } else {
                        assert(own_temps(mv)[i] == location_temps(src)[i - location_temps(dest).len()]);
                    }
                }
                lemma_two_locations_within(o[0], o[1], t, mv);
            }
        },
        Mnemoic::Lea => {
            lemma_location_fresh(o[0], t);
            let (_a, t1, dest) = location_of(o[0], t);
            lemma_location_fresh(o[1], t1);
            let (_b, _t2, src) = location_of(o[1], t1);
            let addr = src->Indirect_2;
            assert(location_temps(src)[0] == addr);
            let mv = MicroOperation::Mov { dest, src: Location::Temp(addr) };
            assert forall|i: int| 0 <= i < own_temps(mv).len() implies t <= (#[trigger] own_temps(mv)[i]).1 < _t2 by {
                if i < location_temps(dest).len() {
                    assert(own_temps(mv)[i] == location_temps(dest)[i]);
                } else {
                    assert(own_temps(mv)[i] == addr);
                }
            }
            lemma_two_locations_within(o[0], o[1], t, mv);
        },
        Mnemoic::Push | Mnemoic::Pop => {
            lemma_location_fresh(o[0], t);
            lemma_location_within(o[0], t);
            let (a, t1, l) = location_of(o[0], t);
            lemma_push_within(l, t, t1);
            lemma_within_widen(a, t, t1, t1 + 2);
            lemma_within_concat(a, push_ops(l, t1).0, t, t1 + 2);
            lemma_within_concat(a, pop_ops(l, t1).0, t, t1 + 2);
        },
        Mnemoic::Jmp | Mnemoic::Je | Mnemoic::Jg => {
            assert(forall|j: int, k: int| 0 <= j < ops.len() && 0 <= k < own_temps(ops[j]).len() ==>
                (#[trigger] own_temps(ops[j])[k]) == temp(DataType::N64, t));
        },
        Mnemoic::Call => {
            let rip = register_location(Register::RIP);
            lemma_push_within(rip, t, t);
            let (a, t1) = push_ops(rip, t);
            let j_ops = jump_ops(o[0]->Offset_0, Condition::True, t1).0;
            assert(forall|j: int, k: int| 0 <= j < j_ops.len() && 0 <= k < own_temps(j_ops[j]).len() ==>
                (#[trigger] own_temps(j_ops[j])[k]) == temp(DataType::N64, t1));
            lemma_within_widen(a, t, t + 2, t + 3);
            lemma_within_concat(a, j_ops, t, t + 3);
        },
        Mnemoic::Leave => {
            let rbp = register_location(Register::RBP);
            lemma_push_within(rbp, t, t);
            let mv = MicroOperation::Mov { dest: rsp_location(), src: rbp };
            assert(own_temps(mv).len() == 0);
            lemma_within_push(Seq::empty(), mv, t, t + 2);
            assert(seq![mv] =~= Seq::<MicroOperation>::empty().push(mv));
            lemma_within_concat(seq![mv], pop_ops(rbp, t).0, t, t + 2);
        },
        Mnemoic::Ret => {
            let target = temp(DataType::N64, t);
            let tl = Location::Temp(target);
            assert(location_temps(tl)[0] == target);
            lemma_push_within(tl, t, t + 1);
            let jmp = MicroOperation::Jump { target, condition: Condition::True, relative: false };
            lemma_within_push(pop_ops(tl, t + 1).0, jmp, t, t + 3);
        },
        Mnemoic::Setl => {
            lemma_location_fresh(o[0], t);
            lemma_location_within(o[0], t);
            let (a, t1, l) = location_of(o[0], t);
            let tmp = temp(location_width(l), t1);
            let set = MicroOperation::SetCond { target: tmp, condition: Condition::Less(last->0) };
            let mv = MicroOperation::Mov { dest: l, src: Location::Temp(tmp) };
            lemma_within_widen(a, t, t1, t1 + 1);
            lemma_within_push(a, set, t, t1 + 1);
            assert forall|i: int| 0 <= i < own_temps(mv).len() implies t <= (#[trigger] own_temps(mv)[i]).1 < t1 + 1 by {
                if i < location_temps(l).len() {
                    assert(own_temps(mv)[i] == location_temps(l)[i]);
                } else {
                    assert(own_temps(mv)[i] == tmp);
                }
            }
            lemma_within_push(a.push(set), mv, t, t1 + 1);
        },
        _ => {},
    }
}

/// The condition holds always, or tests the last comparison.
pub open spec fn tests_last(c: Condition, last: Option<Comparison>) -> bool {
    c is True || (last is Some && condition_temps(c) == comparison_temps(last->0))
}

/// Every set and jump of the sequence tests the last comparison or nothing.
pub open spec fn conditions_from(ops: Seq<MicroOperation>, last: Option<Comparison>) -> bool {
    forall|j: int| 0 <= j < ops.len() ==> match #[trigger] ops[j] {
        MicroOperation::SetCond { condition, .. } => tests_last(condition, last),
        MicroOperation::Jump { condition, .. } => tests_last(condition, last),
        _ => true,
    }
}

proof fn lemma_conditions_concat(a: Seq<MicroOperation>, b: Seq<MicroOperation>, last: Option<Comparison>)
    requires
        conditions_from(a, last),
        conditions_from(b, last),
    ensures
        conditions_from(a + b, last),
{
    assert forall|j: int| 0 <= j < (a + b).len() implies match #[trigger] (a + b)[j] {
        MicroOperation::SetCond { condition, .. } => tests_last(condition, last),
        MicroOperation::Jump { condition, .. } => tests_last(condition, last),
        _ => true,
    } by {
        if j < a.len() {
            assert((a + b)[j] == a[j]);
        } else {
            assert((a + b)[j] == b[j - a.len()]);
        }
    }
}

proof fn lemma_load_conditions(o: Operand, t: nat, last: Option<Comparison>)
    ensures
        conditions_from(location_of(o, t).0, last),
        conditions_from(load_operand(o, t).0, last),
{
    let (a, t1, loc) = location_of(o, t);
    if !(loc is Temp) {
        let ops = load_operand(o, t).0;
        assert forall|j: int| 0 <= j < ops.len() implies match #[trigger] ops[j] {
            MicroOperation::SetCond { condition, .. } => tests_last(condition, last),
            MicroOperation::Jump { condition, .. } => tests_last(condition, last),
            _ => true,
        } by {
            if j < a.len() {
                assert(ops[j] == a[j]);
            }
        }
    }
}

/// Every set and jump that lifting emits tests the last comparison, or nothing.
pub proof fn lemma_lift_conditions(inst: Instruction, t: nat, last: Option<Comparison>)
    requires
        encodable(inst, last),
    ensures
        conditions_from(lift(inst, t, last).ops, last),
{
    let o = inst.operands@;
    let ops = lift(inst, t, last).ops;
    match inst.mnemoic {
        Mnemoic::Add | Mnemoic::Sub | Mnemoic::Imul | Mnemoic::Cmp | Mnemoic::Test => {
            lemma_load_conditions(o[0], t, last);
            lemma_load_conditions(o[1], load_operand(o[0], t).1, last);
            let a = load_operand(o[0], t).0;
            let b = load_operand(o[1], load_operand(o[0], t).1).0;
            lemma_conditions_concat(a, b, last);
            assert forall|j: int| 0 <= j < ops.len() implies match #[trigger] ops[j] {
                MicroOperation::SetCond { condition, .. } => tests_last(condition, last),
                MicroOperation::Jump { condition, .. } => tests_last(condition, last),
                _ => true,
            } by {
                if j < (a + b).len() {
                    assert(ops[j] == (a + b)[j]);
                }
            }
        },
        Mnemoic::Mov | Mnemoic::Movzx | Mnemoic::Lea | Mnemoic::Push | Mnemoic::Pop | Mnemoic::Setl => {
            lemma_load_conditions(o[0], t, last);
            let t1 = location_of(o[0], t).1;
            let a = location_of(o[0], t).0;
            let b = if inst.mnemoic == Mnemoic::Push || inst.mnemoic == Mnemoic::Pop || inst.mnemoic == Mnemoic::Setl {
                Seq::<MicroOperation>::empty()
            } else if inst.mnemoic == Mnemoic::Lea || (inst.mnemoic == Mnemoic::Mov && operand_width(o[0]) == operand_width(o[1])) {
                location_of(o[1], t1).0
            } else {
                load_operand(o[1], t1).0
            };
            if o.len() >= 2 {
                lemma_load_conditions(o[1], t1, last);
            }
            lemma_conditions_concat(a, b, last);
            assert forall|j: int| 0 <= j < ops.len() implies match #[trigger] ops[j] {
                MicroOperation::SetCond { condition, .. } => tests_last(condition, last),
                MicroOperation::Jump { condition, .. } => tests_last(condition, last),
                _ => true,
            } by {
                if j < (a + b).len() {
                    assert(ops[j] == (a + b)[j]);
                }
            }
        },
        _ => {},
    }
}

/// Casts retype their target across instructions: if the buffered microcode
/// retypes its casts, names only temporaries below the counter, and the last
/// comparison names each cast index at its new width, then the buffer with the
/// next instruction's microcode appended still retypes its casts.
pub proof fn lemma_buffer_retypes(buffer: Seq<MicroOperation>, inst: Instruction, t: nat, last: Option<Comparison>)
    requires
        encodable(inst, last),
        t + TEMPS_PER_INSTRUCTION <= usize::MAX,
        casts_retype(buffer),
        forall|j: int, k: int|
            0 <= j < buffer.len() && 0 <= k < op_temps(buffer[j]).len() ==> (#[trigger] op_temps(buffer[j])[k]).1 < t,
        last is Some ==> forall|i: int, k: int|
            0 <= i < buffer.len() && buffer[i] is Cast && 0 <= k < comparison_temps(last->0).len()
                && (#[trigger] comparison_temps(last->0)[k]).1 == (#[trigger] buffer[i])->Cast_target.1
                ==> comparison_temps(last->0)[k].0 == buffer[i]->Cast_new,
    ensures
        casts_retype(buffer + lift(inst, t, last).ops),
{
    let ops = lift(inst, t, last).ops;
    let all = buffer + ops;
    lemma_lift_retypes(inst, t, last);
    lemma_lift_names_within(inst, t, last);
    lemma_lift_conditions(inst, t, last);
    assert forall|i: int, j: int, k: int|
        #![trigger all[i], op_temps(all[j])[k]]
        0 <= i < j < all.len() && all[i] is Cast && 0 <= k < op_temps(all[j]).len() && op_temps(
            all[j],
        )[k].1 == all[i]->Cast_target.1 implies op_temps(all[j])[k].0 == all[i]->Cast_new by {
        if j < buffer.len() {
            assert(all[i] == buffer[i] && all[j] == buffer[j]);
        } else if i >= buffer.len() {
            assert(all[i] == ops[i - buffer.len()] && all[j] == ops[j - buffer.len()]);
        } else {
            let c = buffer[i];
            assert(all[i] == c);
            assert(op_temps(c)[0] == c->Cast_target);
            let op = ops[j - buffer.len()];
            assert(all[j] == op);
            let x = op_temps(op)[k];
            match op {
                MicroOperation::SetCond { target, condition } => {
                    if k == 0 {
                        assert(own_temps(op)[0] == x);
                    } else {
                        assert(tests_last(condition, last));
                        assert(x == condition_temps(condition)[k - 1]);
                        assert(x == comparison_temps(last->0)[k - 1]);
                    }
                },
                MicroOperation::Jump { target, condition, .. } => {
                    if k == 0 {
                        assert(own_temps(op)[0] == x);
                    } else {
                        assert(tests_last(condition, last));
                        assert(x == condition_temps(condition)[k - 1]);
                        assert(x == comparison_temps(last->0)[k - 1]);
                    }
                },
                _ => {
                    assert(own_temps(op)[k] == x);
                },
            }
        }
    }
}

} // verus!
