use microcode::amd64::{Instruction, Mnemoic, Operand, Register};
use microcode::ir::{Comparison, Condition, Location, MicroEncoder, MicroOperation, Temporary};
use microcode::num::{DataType, Integer};
use microcode::state::{Event, StdioKind, StorageLocation, SymState};
use microcode::sym::{
    cast_value, BinOp, FlagTest, MemoryStrategy, Namespace, Solver, SymCond, SymExpr, SymMemory, Symbol,
};

/// Answers that no two different address expressions can be equal.
#[derive(Clone)]
struct NoSolver;

impl Solver for NoSolver {
    fn check_equal_sat(&self, _a: &SymExpr, _b: &SymExpr) -> bool {
        false
    }

    fn simplify_condition(&self, c: &SymCond) -> SymCond {
        c.clone()
    }
}

/// Answers that any two address expressions can be equal, and simplifies nothing.
#[derive(Clone)]
struct AnySolver;

impl Solver for AnySolver {
    fn check_equal_sat(&self, _a: &SymExpr, _b: &SymExpr) -> bool {
        true
    }

    fn simplify_condition(&self, c: &SymCond) -> SymCond {
        c.clone()
    }
}

fn fresh_state() -> SymState<NoSolver> {
    SymState::new(MemoryStrategy::PerfectMatches, NoSolver)
}

fn constant(d: DataType, v: u64) -> SymExpr {
    SymExpr::Int(Integer(d, v))
}

fn sym(d: DataType, ns: Namespace, i: usize) -> SymExpr {
    SymExpr::Sym(Symbol(d, ns, i))
}

#[test]
fn exit_scenario_emits_one_exit_event() {
    let mut enc = MicroEncoder::new();
    enc.encode(&Instruction::new(Mnemoic::Mov, vec![
        Operand::Direct(Register::EAX),
        Operand::Immediate(DataType::N32, 0x3c),
    ])).unwrap();
    enc.encode(&Instruction::new(Mnemoic::Syscall, vec![])).unwrap();
    let code = enc.finish();
    let mut state = fresh_state();
    let mut events = vec![];
    for op in &code.ops {
        if let Some(event) = state.step(0x400000, op) {
            events.push(event);
        }
    }
    assert_eq!(events.len(), 1);
    assert!(matches!(events[0], Event::Exit));
    assert_eq!(state.ip, 0x400000);
    assert_eq!(state.get_reg(Register::RIP), constant(DataType::N64, 0x400000));
}

#[test]
fn read_syscall_stores_stdin_symbols() {
    let mut state = fresh_state();
    state.set_reg(Register::RAX, constant(DataType::N64, 0));
    state.set_reg(Register::RSI, constant(DataType::N64, 0x2000));
    state.set_reg(Register::RDX, constant(DataType::N64, 2));
    let event = state.step(0x10, &MicroOperation::Syscall).unwrap();
    match event {
        Event::Stdio(kind, bytes) => {
            assert_eq!(kind, StdioKind::Stdin);
            assert_eq!(bytes.len(), 2);
            for (i, (symbol, access)) in bytes.iter().enumerate() {
                assert_eq!(*symbol, Symbol(DataType::N8, Namespace::Stdin, i));
                let cell = constant(DataType::N64, 0x2000).add(constant(DataType::N64, i as u64));
                assert_eq!(access.0, cell);
                assert_eq!(access.1, DataType::N8);
                let t = Temporary(DataType::N64, 7);
                state.set_temp(t, cell);
                let read = state.read_location(Location::Indirect(DataType::N8, 0, t));
                assert_eq!(read, SymExpr::Sym(*symbol));
            }
        },
        _ => panic!("expected a stdio event"),
    }
}

#[test]
fn write_syscall_uses_stdout_symbols() {
    let mut state = fresh_state();
    state.set_reg(Register::RAX, constant(DataType::N64, 1));
    state.set_reg(Register::RDX, constant(DataType::N64, 3));
    let event = state.step(0x10, &MicroOperation::Syscall).unwrap();
    match event {
        Event::Stdio(kind, bytes) => {
            assert_eq!(kind, StdioKind::Stdout);
            assert_eq!(bytes.len(), 3);
            assert_eq!(bytes[2].0, Symbol(DataType::N8, Namespace::Stdout, 2));
            // The buffer register was never written: its default symbol is the base.
            let base = sym(DataType::N64, Namespace::Reg, 0);
            assert_eq!(bytes[2].1.0, base.add(constant(DataType::N64, 2)));
        },
        _ => panic!("expected a stdio event"),
    }
}

#[test]
fn executor_binops_casts_and_jumps() {
    let mut state = fresh_state();
    let t0 = Temporary(DataType::N8, 0);
    let t1 = Temporary(DataType::N32, 1);
    state.step(0, &MicroOperation::Const { dest: Location::Temp(t0), constant: Integer(DataType::N8, 0xf0) });
    state.step(0, &MicroOperation::Cast { target: t0, new: DataType::N32, signed: true });
    assert_eq!(state.get_temp(Temporary(DataType::N32, 0)), constant(DataType::N32, 0xfffffff0));
    state.step(0, &MicroOperation::Mov { dest: Location::Temp(t1), src: Location::Direct(DataType::N32, 1, 0x08) });
    let ecx = sym(DataType::N32, Namespace::Reg, 0);
    assert_eq!(state.get_temp(t1), ecx.clone());
    let t2 = Temporary(DataType::N32, 2);
    state.step(0, &MicroOperation::Sub { diff: t2, a: t1, b: Temporary(DataType::N32, 0) });
    let diff = SymExpr::Bin(BinOp::Sub, Box::new(ecx.clone()), Box::new(constant(DataType::N32, 0xfffffff0)));
    assert_eq!(state.get_temp(t2), diff);
    let t3 = Temporary(DataType::N8, 3);
    let cmp = Comparison::Sub(t1, Temporary(DataType::N32, 0));
    assert!(state.step(0, &MicroOperation::SetCond { target: t3, condition: Condition::Less(cmp) }).is_none());
    assert_eq!(state.get_temp(t3), SymExpr::Flag(
        FlagTest::Less,
        BinOp::Sub,
        Box::new(ecx.clone()),
        Box::new(constant(DataType::N32, 0xfffffff0)),
        DataType::N8,
    ));
    let t4 = Temporary(DataType::N64, 4);
    state.step(0, &MicroOperation::Const { dest: Location::Temp(t4), constant: Integer(DataType::N64, 9) });
    match state.step(0x20, &MicroOperation::Jump { target: t4, condition: Condition::Equal(cmp), relative: true }) {
        Some(Event::Jump { target, condition, relative }) => {
            assert_eq!(target, constant(DataType::N64, 9));
            assert_eq!(condition, Condition::Equal(cmp));
            assert!(relative);
        },
        _ => panic!("expected a jump event"),
    }
}

#[test]
fn track_follows_calls_and_returns() {
    let mut state = fresh_state();
    state.track(&Instruction::new(Mnemoic::Call, vec![Operand::Offset(4)]), 0x10);
    state.track(&Instruction::new(Mnemoic::Call, vec![Operand::Offset(4)]), 0x20);
    state.track(&Instruction::new(Mnemoic::Nop, vec![]), 0x30);
    assert_eq!(state.trace, vec![0x10, 0x20]);
    state.track(&Instruction::new(Mnemoic::Ret, vec![]), 0x40);
    assert_eq!(state.trace, vec![0x10]);
}

#[test]
fn reads_without_write_are_memoized() {
    let mut mem = SymMemory::new(Namespace::Mem, MemoryStrategy::PerfectMatches);
    let first = mem.read_direct(0x100, DataType::N32, &NoSolver);
    let second = mem.read_direct(0x100, DataType::N32, &NoSolver);
    assert_eq!(first, sym(DataType::N32, Namespace::Mem, 0));
    assert_eq!(first, second);
    let other = mem.read_direct(0x104, DataType::N32, &NoSolver);
    assert_eq!(other, sym(DataType::N32, Namespace::Mem, 1));
}

#[test]
fn write_then_read_is_identity() {
    let mut mem = SymMemory::new(Namespace::Reg, MemoryStrategy::PerfectMatches);
    let addr = sym(DataType::N64, Namespace::Temp, 3).add(constant(DataType::N64, 8));
    let value = sym(DataType::N16, Namespace::Stdin, 5);
    mem.write_expr(addr.clone(), value.clone());
    assert_eq!(mem.read_expr(addr, DataType::N16, &NoSolver), value);
}

#[test]
fn last_write_wins() {
    let mut mem = SymMemory::new(Namespace::Mem, MemoryStrategy::PerfectMatches);
    let _ = mem.read_direct(0x40, DataType::N64, &NoSolver);
    mem.write_direct(0x40, constant(DataType::N64, 1));
    mem.write_direct(0x40, constant(DataType::N64, 2));
    assert_eq!(mem.read_direct(0x40, DataType::N64, &NoSolver), constant(DataType::N64, 2));
}

#[test]
fn narrower_read_casts_the_value() {
    let mut mem = SymMemory::new(Namespace::Mem, MemoryStrategy::PerfectMatches);
    mem.write_direct(0x0, constant(DataType::N64, 0x1ff));
    assert_eq!(mem.read_direct(0x0, DataType::N8, &NoSolver), constant(DataType::N8, 0xff));
    let s = sym(DataType::N64, Namespace::Stdin, 0);
    mem.write_direct(0x8, s.clone());
    assert_eq!(mem.read_direct(0x8, DataType::N32, &NoSolver), SymExpr::Cast(Box::new(s), DataType::N32, false));
}

#[test]
fn cast_values() {
    assert_eq!(cast_value(0xff, DataType::N8, DataType::N32, true), 0xffff_ffff);
    assert_eq!(cast_value(0x80, DataType::N8, DataType::N16, false), 0x80);
    assert_eq!(cast_value(0x1234, DataType::N16, DataType::N8, true), 0x34);
    assert_eq!(cast_value(0xffff_fffc, DataType::N32, DataType::N64, true), 0xffff_ffff_ffff_fffc);
    assert_eq!(cast_value(0x7f, DataType::N8, DataType::N64, true), 0x7f);
    assert_eq!(cast_value(u64::MAX, DataType::N64, DataType::N64, true), u64::MAX);
}

#[test]
fn expression_widths() {
    let e = constant(DataType::N16, 3).add(constant(DataType::N16, 4));
    assert_eq!(e.data_type(), DataType::N16);
    assert_eq!(e.clone().bitnot().data_type(), DataType::N16);
    assert_eq!(e.cast(DataType::N64, false).data_type(), DataType::N64);
    assert_eq!(SymExpr::from_ptr(5), constant(DataType::N64, 5));
}

#[test]
fn stdio_symbols_get_abstract_locations() {
    let mut state = fresh_state();
    state.track(&Instruction::new(Mnemoic::Call, vec![Operand::Offset(4)]), 0x30);
    state.set_reg(Register::RAX, constant(DataType::N64, 0));
    state.set_reg(Register::RDX, constant(DataType::N64, 2));
    state.step(0x44, &MicroOperation::Syscall);
    assert_eq!(state.symbol_map.len(), 2);
    let (first, loc0) = &state.symbol_map[0];
    assert_eq!(*first, Symbol(DataType::N8, Namespace::Stdin, 0));
    assert_eq!(loc0.addr, 0x44);
    assert_eq!(loc0.trace, vec![0x30]);
    assert_eq!(loc0.storage, StorageLocation::Indirect {
        data_type: DataType::N8,
        base: Register::RSI,
        scaled_offset: None,
        displacement: None,
    });
    let (_, loc1) = &state.symbol_map[1];
    assert_eq!(loc1.storage, StorageLocation::Indirect {
        data_type: DataType::N8,
        base: Register::RSI,
        scaled_offset: None,
        displacement: Some(1),
    });

    let e = SymExpr::Sym(Symbol(DataType::N8, Namespace::Stdin, 1)).add(constant(DataType::N8, 1));
    let found = state.symbol_map_for(&e);
    assert_eq!(found.len(), 1);
    assert_eq!(found[0].0, Symbol(DataType::N8, Namespace::Stdin, 1));
    assert_eq!(found[0].1.storage, loc1.storage);
    assert!(state.symbol_map_for(&constant(DataType::N8, 1)).is_empty());
}

#[test]
fn access_for_storage_locations() {
    let mut state = fresh_state();
    assert!(state.get_access_for_location(StorageLocation::Direct(Register::RAX)).is_none());
    state.set_reg(Register::RBP, constant(DataType::N64, 0x7000));
    state.set_reg(Register::RCX, constant(DataType::N64, 3));
    let access = state.get_access_for_location(StorageLocation::Indirect {
        data_type: DataType::N32,
        base: Register::RBP,
        scaled_offset: Some((Register::RCX, 4)),
        displacement: Some(-8),
    }).unwrap();
    let scaled = SymExpr::Bin(BinOp::Mul, Box::new(constant(DataType::N64, 3)), Box::new(constant(DataType::N64, 4)));
    let expected = constant(DataType::N64, 0x7000)
        .add(scaled)
        .add(constant(DataType::N64, 0xffff_ffff_ffff_fff8));
    assert_eq!(access.0, expected);
    assert_eq!(access.1, DataType::N32);
}

#[test]
fn cloned_states_evolve_independently() {
    let mut state = fresh_state();
    state.set_reg(Register::RBX, constant(DataType::N64, 1));
    let mut fork = state.clone();
    fork.set_reg(Register::RBX, constant(DataType::N64, 2));
    assert_eq!(state.get_reg(Register::RBX), constant(DataType::N64, 1));
    assert_eq!(fork.get_reg(Register::RBX), constant(DataType::N64, 2));
    assert_eq!(state.get_reg(Register::BL), constant(DataType::N8, 1));
}

#[test]
fn constant_into_fresh_temporary_and_memory() {
    let mut state = fresh_state();
    let t = Temporary(DataType::N16, 9);
    state.step(1, &MicroOperation::Const { dest: Location::Temp(t), constant: Integer(DataType::N16, 0xbeef) });
    state.step(2, &MicroOperation::Mov { dest: Location::Direct(DataType::N16, 0, 0x500), src: Location::Temp(t) });
    assert_eq!(state.read_location(Location::Direct(DataType::N16, 0, 0x500)), constant(DataType::N16, 0xbeef));
    assert_eq!(state.read_location(Location::Direct(DataType::N64, 0, 0x500)), constant(DataType::N64, 0xbeef));
    assert_eq!(state.ip, 2);
}

fn addr_sym(i: usize) -> SymExpr {
    sym(DataType::N64, Namespace::Stdin, i)
}

fn equal(a: SymExpr, b: SymExpr) -> SymCond {
    SymCond::Equal(Box::new(a), Box::new(b))
}

#[test]
fn conditional_read_builds_tree_newest_first() {
    let mut mem = SymMemory::new(Namespace::Mem, MemoryStrategy::ConditionalTrees);
    let v1 = constant(DataType::N32, 1);
    let v2 = constant(DataType::N32, 2);
    mem.write_expr(addr_sym(0), v1.clone());
    mem.write_direct(0x10, v2.clone());
    let default = sym(DataType::N32, Namespace::Mem, 0);
    let expected = SymExpr::Ite(
        Box::new(equal(constant(DataType::N64, 0x10), addr_sym(1))),
        Box::new(v2.clone()),
        Box::new(SymExpr::Ite(
            Box::new(equal(addr_sym(0), addr_sym(1))),
            Box::new(v1.clone()),
            Box::new(default),
        )),
    );
    let first = mem.read_expr(addr_sym(1), DataType::N32, &AnySolver);
    assert_eq!(first, expected);
    // The default symbol is remembered: a second read builds the same tree.
    let second = mem.read_expr(addr_sym(1), DataType::N32, &AnySolver);
    assert_eq!(second, first);
}

#[test]
fn conditional_read_stops_at_identical_address() {
    let mut mem = SymMemory::new(Namespace::Mem, MemoryStrategy::ConditionalTrees);
    mem.write_expr(addr_sym(0), constant(DataType::N16, 1));
    mem.write_expr(addr_sym(1), constant(DataType::N16, 2));
    assert_eq!(mem.read_expr(addr_sym(1), DataType::N16, &AnySolver), constant(DataType::N16, 2));
    mem.write_expr(addr_sym(1), constant(DataType::N16, 3));
    assert_eq!(mem.read_expr(addr_sym(1), DataType::N16, &AnySolver), constant(DataType::N16, 3));
    // An older identical entry under a newer possible match is guarded by it.
    assert_eq!(
        mem.read_expr(addr_sym(0), DataType::N16, &AnySolver),
        SymExpr::Ite(
            Box::new(equal(addr_sym(1), addr_sym(0))),
            Box::new(constant(DataType::N16, 3)),
            Box::new(constant(DataType::N16, 1)),
        ),
    );
}

#[test]
fn conditional_read_without_possible_matches_is_a_perfect_read() {
    let mut mem = SymMemory::new(Namespace::Mem, MemoryStrategy::ConditionalTrees);
    mem.write_expr(addr_sym(0), constant(DataType::N64, 7));
    assert_eq!(mem.read_expr(addr_sym(0), DataType::N64, &NoSolver), constant(DataType::N64, 7));
    assert_eq!(mem.read_expr(addr_sym(1), DataType::N8, &NoSolver), sym(DataType::N8, Namespace::Mem, 0));
    assert_eq!(mem.read_expr(addr_sym(1), DataType::N8, &NoSolver), sym(DataType::N8, Namespace::Mem, 0));
}

#[test]
fn conditional_read_with_given_answers() {
    let mut mem = SymMemory::new(Namespace::Mem, MemoryStrategy::ConditionalTrees);
    mem.write_expr(addr_sym(0), constant(DataType::N8, 5));
    mem.write_expr(addr_sym(1), constant(DataType::N8, 6));
    // The solver proved the first address equal to the query: its condition is true.
    let r = mem.read_conditional(addr_sym(2), DataType::N8, vec![Some(SymCond::True), None]);
    assert_eq!(r, constant(DataType::N8, 5));
    // No default symbol was made: the next fresh read gets index 0.
    assert_eq!(mem.read_conditional(addr_sym(3), DataType::N8, vec![None, None]), sym(DataType::N8, Namespace::Mem, 0));
}

#[test]
fn exit_scenario_with_conditional_main_memory() {
    let mut enc = MicroEncoder::new();
    enc.encode(&Instruction::new(Mnemoic::Mov, vec![
        Operand::Direct(Register::EAX),
        Operand::Immediate(DataType::N32, 0x3c),
    ])).unwrap();
    enc.encode(&Instruction::new(Mnemoic::Syscall, vec![])).unwrap();
    let code = enc.finish();
    let mut state = SymState::new(MemoryStrategy::ConditionalTrees, AnySolver);
    let events: Vec<Event> = code.ops.iter().filter_map(|op| state.step(0x400000, op)).collect();
    assert_eq!(events.len(), 1);
    assert!(matches!(events[0], Event::Exit));
}

#[test]
fn events_and_accesses_compare_and_hash() {
    let mut state = fresh_state();
    state.set_reg(Register::RAX, constant(DataType::N64, 60));
    assert_eq!(state.step(0, &MicroOperation::Syscall), Some(Event::Exit));
    let a = microcode::state::TypedMemoryAccess(addr_sym(0), DataType::N8);
    let b = microcode::state::TypedMemoryAccess(addr_sym(0), DataType::N8);
    let mut set = std::collections::HashSet::new();
    set.insert(a.clone());
    assert!(set.contains(&b));
    assert_eq!(a, b);
    assert_ne!(a, microcode::state::TypedMemoryAccess(addr_sym(1), DataType::N8));
}

#[test]
fn writes_shadow_default_symbols() {
    let mut mem = SymMemory::new(Namespace::Mem, MemoryStrategy::ConditionalTrees);
    let default = mem.read_expr(addr_sym(0), DataType::N8, &AnySolver);
    assert_eq!(default, sym(DataType::N8, Namespace::Mem, 0));
    mem.write_expr(addr_sym(1), constant(DataType::N8, 9));
    assert_eq!(
        mem.read_expr(addr_sym(0), DataType::N8, &AnySolver),
        SymExpr::Ite(
            Box::new(equal(addr_sym(1), addr_sym(0))),
            Box::new(constant(DataType::N8, 9)),
            Box::new(default),
        ),
    );
}
