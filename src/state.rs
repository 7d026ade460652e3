//! Symbolic execution of microcode against a symbolic machine state.

use std::collections::HashMap;
use vstd::prelude::*;
use crate::amd64::{Instruction, Mnemoic, Register, register_width};
use crate::ir::{
    Comparison, Condition, Location, MemoryMapped, MicroOperation, Temporary, location_width,
    register_address,
};
use crate::num::{DataType, Integer};
use crate::sym::{
    BinOp, FlagTest, MemoryStrategy, MemoryView, Namespace, SymExpr, SymMemory, Symbol, after_read, after_write,
    expr_width, mem_after_read, mem_read, occurs, read_value, Solver, SymCond,
};

verus! {

broadcast use vstd::std_specs::hash::group_hash_axioms;

/// Kinds of standard interfaces.
#[derive(Debug, Clone, Copy, PartialEq, Eq, Structural)]
pub enum StdioKind {
    Stdin,
    Stdout,
}

/// A typed symbolic memory access: an address expression and a width.
#[derive(Debug, Clone, PartialEq, Eq, Hash)]
pub struct TypedMemoryAccess(pub SymExpr, pub DataType);

/// Events occurring during symbolic execution.
#[derive(Debug, Clone, PartialEq, Eq)]
pub enum Event {
    /// A jump by or to the target, if the (unevaluated) condition holds.
    Jump { target: SymExpr, condition: Condition, relative: bool },
    /// Bytes read from standard input or written to standard output: one symbol
    /// per byte with the memory cell it belongs to.
    Stdio(StdioKind, Vec<(Symbol, TypedMemoryAccess)>),
    /// The program exits.
    Exit,
}

/// Where a value is stored in an actual execution, relative to registers.
#[derive(Debug, Clone, Copy, PartialEq, Eq)]
pub enum StorageLocation {
    /// In a register.
    Direct(Register),
    /// In memory, at the address in `base`, plus `index` times `scale`, plus
    /// the displacement.
    Indirect {
        data_type: DataType,
        base: Register,
        scaled_offset: Option<(Register, u8)>,
        displacement: Option<i64>,
    },
}

/// When and where a symbol would be observed in an actual execution: the
/// instruction pointer, the call trace and the storage.
#[derive(Debug, Clone)]
pub struct AbstractLocation {
    pub addr: u64,
    pub trace: Vec<u64>,
    pub storage: StorageLocation,
}

/// What an abstract location holds.
pub struct AbstractView {
    pub addr: u64,
    pub trace: Seq<u64>,
    pub storage: StorageLocation,
}

impl View for AbstractLocation {
    type V = AbstractView;

    open spec fn view(&self) -> AbstractView {
        AbstractView { addr: self.addr, trace: self.trace@, storage: self.storage }
    }
}

/// What a state holds.
pub struct StateView {
    pub temps: Map<usize, SymExpr>,
    pub main: MemoryView,
    pub regs: MemoryView,
    pub ip: u64,
    pub trace: Seq<u64>,
    pub stdin: nat,
    pub stdout: nat,
    pub symbols: Seq<(Symbol, AbstractView)>,
}

/// The symbolic execution state.
#[derive(Debug, Clone)]
pub struct SymState<S> {
    temporaries: HashMap<usize, SymExpr>,
    main: SymMemory,
    regs: SymMemory,
    /// The return addresses of the calls that were entered and not yet left.
    pub trace: Vec<u64>,
    /// The current instruction pointer.
    pub ip: u64,
    stdin_symbols: usize,
    stdout_symbols: usize,
    /// The abstract locations of the symbols of standard input and output,
    /// in the order they were made.
    pub symbol_map: Vec<(Symbol, AbstractLocation)>,
    /// The solver that reads of main memory consult.
    pub solver: S,
}

/// The memory space with the given number: 0 is main memory, 1 the register file.
pub open spec fn space(s: StateView, sp: usize) -> MemoryView {
    if sp == 0 {
        s.main
    } else {
        s.regs
    }
}

/// The state with memory space `sp` replaced.
pub open spec fn with_space(s: StateView, sp: usize, m: MemoryView) -> StateView {
    if sp == 0 {
        StateView { main: m, ..s }
    } else {
        StateView { regs: m, ..s }
    }
}

/// A temporary holds a value of its width.
pub open spec fn temp_ready(s: StateView, t: Temporary) -> bool {
    s.temps.contains_key(t.1) && expr_width(s.temps[t.1]) == t.0
}

/// A location can be accessed: a memory space that exists, and temporaries that
/// hold values of their width, 64 bits for an address.
pub open spec fn location_ready(s: StateView, l: Location) -> bool {
    match l {
        Location::Temp(t) => temp_ready(s, t),
        Location::Direct(_, sp, _) => sp < 2,
        Location::Indirect(_, sp, t) => sp < 2 && temp_ready(s, t) && t.0 == DataType::N64,
    }
}

/// A location can be written: a memory space that exists, and a 64-bit
/// temporary holding the address of an indirect one.
pub open spec fn dest_ready(s: StateView, l: Location) -> bool {
    match l {
        Location::Temp(_) => true,
        _ => location_ready(s, l),
    }
}

/// The address expression of a memory location.
pub open spec fn address_of(s: StateView, l: Location) -> SymExpr {
    match l {
        Location::Direct(_, _, a) => SymExpr::Int(Integer(DataType::N64, a)),
        Location::Indirect(_, _, t) => s.temps[t.1],
        Location::Temp(_) => SymExpr::Int(Integer(DataType::N64, 0)),
    }
}

/// The space of a memory location.
pub open spec fn space_of(l: Location) -> usize {
    match l {
        Location::Direct(_, sp, _) => sp,
        Location::Indirect(_, sp, _) => sp,
        Location::Temp(_) => 0,
    }
}

/// What reading a location returns, given the solver's answers for a memory read.
pub open spec fn read_loc_value(s: StateView, l: Location, ans: Seq<Option<SymCond>>) -> SymExpr {
    match l {
        Location::Temp(t) => s.temps[t.1],
        _ => mem_read(space(s, space_of(l)), address_of(s, l), location_width(l), ans),
    }
}

/// The state after reading a location, given the solver's answers for a memory read.
pub open spec fn after_read_loc(s: StateView, l: Location, ans: Seq<Option<SymCond>>) -> StateView {
    match l {
        Location::Temp(_) => s,
        _ => with_space(
            s,
            space_of(l),
            mem_after_read(space(s, space_of(l)), address_of(s, l), location_width(l), ans),
        ),
    }
}

/// The state after writing a value to a location.
pub open spec fn after_write_loc(s: StateView, l: Location, v: SymExpr) -> StateView {
    match l {
        Location::Temp(t) => StateView { temps: s.temps.insert(t.1, v), ..s },
        _ => with_space(s, space_of(l), after_write(space(s, space_of(l)), address_of(s, l), v)),
    }
}

/// The state with the register holding `v`.
pub open spec fn with_reg(s: StateView, reg: Register, v: SymExpr) -> StateView {
    StateView { regs: after_write(s.regs, reg_cell(reg), v), ..s }
}

/// The state at the start of a step at `addr`: the instruction pointer holds it.
pub open spec fn enter(s: StateView, addr: u64) -> StateView {
    StateView {
        regs: after_write(s.regs, reg_cell(Register::RIP), SymExpr::Int(Integer(DataType::N64, addr))),
        ip: addr,
        ..s
    }
}

/// The operation and operands of a comparison.
pub open spec fn comparison_parts(c: Comparison) -> (BinOp, Temporary, Temporary) {
    match c {
        Comparison::Add(a, b) => (BinOp::Add, a, b),
        Comparison::Sub(a, b) => (BinOp::Sub, a, b),
        Comparison::Mul(a, b) => (BinOp::Mul, a, b),
        Comparison::And(a, b) => (BinOp::And, a, b),
    }
}

/// A condition can be evaluated: the temporaries it compares hold values of
/// their widths.
pub open spec fn condition_ready(s: StateView, c: Condition) -> bool {
    match c {
        Condition::True => true,
        Condition::Equal(cmp) | Condition::Greater(cmp) | Condition::Less(cmp) => {
            let (_, a, b) = comparison_parts(cmp);
            temp_ready(s, a) && temp_ready(s, b)
        },
    }
}

/// The value, of width `d`, that a set on the condition stores: one for an
/// unconditional set, else the flag test on the compared values.
pub open spec fn condition_value(s: StateView, c: Condition, d: DataType) -> SymExpr {
    match c {
        Condition::True => SymExpr::Int(Integer(d, 1)),
        Condition::Equal(cmp) => {
            let (op, a, b) = comparison_parts(cmp);
            SymExpr::Flag(FlagTest::Equal, op, Box::new(s.temps[a.1]), Box::new(s.temps[b.1]), d)
        },
        Condition::Greater(cmp) => {
            let (op, a, b) = comparison_parts(cmp);
            SymExpr::Flag(FlagTest::Greater, op, Box::new(s.temps[a.1]), Box::new(s.temps[b.1]), d)
        },
        Condition::Less(cmp) => {
            let (op, a, b) = comparison_parts(cmp);
            SymExpr::Flag(FlagTest::Less, op, Box::new(s.temps[a.1]), Box::new(s.temps[b.1]), d)
        },
    }
}

/// The state has room for `k` more default symbols in each memory.
pub open spec fn room(s: StateView, k: nat) -> bool {
    s.main.symbols + k < usize::MAX && s.regs.symbols + k < usize::MAX
}

/// The address expression of a register in the register file.
pub open spec fn reg_cell(reg: Register) -> SymExpr {
    SymExpr::Int(Integer(DataType::N64, register_address(reg)))
}

/// The value that reading a register at its width yields.
pub open spec fn reg_value(s: StateView, reg: Register) -> SymExpr {
    read_value(s.regs, reg_cell(reg), register_width(reg))
}

/// The state after reading a register.
pub open spec fn after_reg_read(s: StateView, reg: Register) -> StateView {
    StateView { regs: after_read(s.regs, reg_cell(reg), register_width(reg)), ..s }
}

/// The namespace of the symbols of a standard interface.
pub open spec fn stdio_namespace(k: StdioKind) -> Namespace {
    match k {
        StdioKind::Stdin => Namespace::Stdin,
        StdioKind::Stdout => Namespace::Stdout,
    }
}

/// The address expression of byte `i` of a buffer.
pub open spec fn stdio_cell(buf: SymExpr, i: nat) -> SymExpr {
    SymExpr::Bin(BinOp::Add, Box::new(buf), Box::new(SymExpr::Int(Integer(DataType::N64, i as u64))))
}

/// The symbol of byte `i` of a transfer whose first symbol has index `base`.
pub open spec fn stdio_symbol(k: StdioKind, base: nat, i: nat) -> Symbol {
    Symbol(DataType::N8, stdio_namespace(k), (base + i) as usize)
}

/// Main memory after the first `n` bytes read from standard input were stored.
pub open spec fn stdin_stored(m: MemoryView, buf: SymExpr, base: nat, n: nat) -> MemoryView
    decreases n,
{
    if n == 0 {
        m
    } else {
        after_write(
            stdin_stored(m, buf, base, (n - 1) as nat),
            stdio_cell(buf, (n - 1) as nat),
            SymExpr::Sym(stdio_symbol(StdioKind::Stdin, base, (n - 1) as nat)),
        )
    }
}

/// The bytes of a transfer of `n` bytes: each one's symbol and memory cell.
pub open spec fn stdio_bytes(k: StdioKind, base: nat, buf: SymExpr, n: nat) -> Seq<(Symbol, TypedMemoryAccess)> {
    Seq::new(n, |i: int| (stdio_symbol(k, base, i as nat), TypedMemoryAccess(stdio_cell(buf, i as nat), DataType::N8)))
}

/// The system call number, read from the accumulator.
pub open spec fn syscall_number(s: StateView) -> SymExpr {
    reg_value(s, Register::RAX)
}

/// The state after the number, buffer and count of a system call were read.
pub open spec fn syscall_args_read(s: StateView) -> StateView {
    after_reg_read(after_reg_read(after_reg_read(s, Register::RAX), Register::RSI), Register::RDX)
}

/// The buffer of a read or write call.
pub open spec fn syscall_buffer(s: StateView) -> SymExpr {
    reg_value(after_reg_read(s, Register::RAX), Register::RSI)
}

/// The byte count of a read or write call.
pub open spec fn syscall_count(s: StateView) -> SymExpr {
    reg_value(after_reg_read(after_reg_read(s, Register::RAX), Register::RSI), Register::RDX)
}

/// A system call can be emulated: its number is a constant, 60 (exit), or 0
/// (read) or 1 (write) with a constant 64-bit byte count for which the symbol
/// counters have room.
pub open spec fn syscall_ready(s: StateView) -> bool {
    match syscall_number(s) {
        SymExpr::Int(n) => n.1 == 60 || ((n.1 == 0 || n.1 == 1) && match syscall_count(s) {
            SymExpr::Int(c) => c.0 == DataType::N64 && s.stdin + c.1 <= usize::MAX && s.stdout
                + c.1 <= usize::MAX,
            _ => false,
        }),
        _ => false,
    }
}

/// A micro-operation can be executed in the state: what it reads is there with
/// the widths it names, and what it writes has the width of the value.
pub open spec fn step_ready(s: StateView, op: MicroOperation) -> bool {
    match op {
        MicroOperation::Mov { dest, src } => location_ready(s, src) && dest_ready(s, dest)
            && location_width(dest) == location_width(src),
        MicroOperation::Const { dest, constant } => dest_ready(s, dest) && location_width(dest)
            == constant.0,
        MicroOperation::Cast { target, .. } => temp_ready(s, target),
        MicroOperation::Add { sum: r, a, b } | MicroOperation::Sub { diff: r, a, b }
        | MicroOperation::Mul { prod: r, a, b } | MicroOperation::And { and: r, a, b }
        | MicroOperation::Or { or: r, a, b } => temp_ready(s, a) && temp_ready(s, b) && b.0 == a.0
            && r.0 == a.0,
        MicroOperation::Not { not, a } => temp_ready(s, a) && not.0 == a.0,
        MicroOperation::SetCond { condition, .. } => condition_ready(s, condition),
        MicroOperation::Jump { target, .. } => temp_ready(s, target),
        MicroOperation::Syscall => syscall_ready(s),
    }
}

/// The state with temporary `t` holding `v`.
pub open spec fn with_temp(s: StateView, t: usize, v: SymExpr) -> StateView {
    StateView { temps: s.temps.insert(t, v), ..s }
}

/// The state after a micro-operation other than a system call, given the
/// solver's answers for a memory read.
pub open spec fn step_state(s: StateView, op: MicroOperation, ans: Seq<Option<SymCond>>) -> StateView {
    match op {
        MicroOperation::Mov { dest, src } => after_write_loc(
            after_read_loc(s, src, ans),
            dest,
            read_loc_value(s, src, ans),
        ),
        MicroOperation::Const { dest, constant } => after_write_loc(s, dest, SymExpr::Int(constant)),
        MicroOperation::Cast { target, new, signed } => with_temp(
            s,
            target.1,
            crate::sym::cast_expr(s.temps[target.1], new, signed),
        ),
        MicroOperation::Add { sum, a, b } => with_temp(s, sum.1, bin_value(s, BinOp::Add, a, b)),
        MicroOperation::Sub { diff, a, b } => with_temp(s, diff.1, bin_value(s, BinOp::Sub, a, b)),
        MicroOperation::Mul { prod, a, b } => with_temp(s, prod.1, bin_value(s, BinOp::Mul, a, b)),
        MicroOperation::And { and, a, b } => with_temp(s, and.1, bin_value(s, BinOp::And, a, b)),
        MicroOperation::Or { or, a, b } => with_temp(s, or.1, bin_value(s, BinOp::Or, a, b)),
        MicroOperation::Not { not, a } => with_temp(s, not.1, SymExpr::Not(Box::new(s.temps[a.1]))),
        MicroOperation::SetCond { target, condition } => with_temp(
            s,
            target.1,
            condition_value(s, condition, target.0),
        ),
        _ => s,
    }
}

/// The binary operation on the values of two temporaries.
pub open spec fn bin_value(s: StateView, op: BinOp, a: Temporary, b: Temporary) -> SymExpr {
    SymExpr::Bin(op, Box::new(s.temps[a.1]), Box::new(s.temps[b.1]))
}

/// The state after the first `i` bytes of a read (`read`) or write call with
/// buffer `buf` were handled, from the state `s` in which its arguments were read.
pub open spec fn stdio_progress(s: StateView, read: bool, buf: SymExpr, i: nat) -> StateView {
    let kind = if read { StdioKind::Stdin } else { StdioKind::Stdout };
    let base = if read { s.stdin } else { s.stdout };
    let symbols = s.symbols + stdio_locations(kind, base, s.ip, s.trace, i);
    if read {
        StateView { main: stdin_stored(s.main, buf, s.stdin, i), stdin: s.stdin + i, symbols, ..s }
    } else {
        StateView { stdout: s.stdout + i, symbols, ..s }
    }
}

/// Where byte `i` of a transfer lives: at the address in `rsi`, displaced by `i`.
pub open spec fn stdio_storage(i: nat) -> StorageLocation {
    StorageLocation::Indirect {
        data_type: DataType::N8,
        base: Register::RSI,
        scaled_offset: None,
        displacement: if i > 0 { Some(i as i64) } else { None },
    }
}

/// The abstract locations of the first `n` bytes of a transfer made at
/// instruction address `ip` with call trace `trace`.
pub open spec fn stdio_locations(k: StdioKind, base: nat, ip: u64, trace: Seq<u64>, n: nat) -> Seq<(Symbol, AbstractView)> {
    Seq::new(n, |i: int| (stdio_symbol(k, base, i as nat), AbstractView { addr: ip, trace, storage: stdio_storage(i as nat) }))
}

/// The outcome of a system call from state `s`: the state `after` it and the
/// event `r`. Exit leaves only the number read and yields an exit event. Read
/// and write read their buffer and count, take a fresh symbol per byte, and
/// yield one event listing them; a read also stores each byte's symbol at its
/// address in main memory.
pub open spec fn syscall_done(s: StateView, after: StateView, r: Option<Event>) -> bool {
    let n = syscall_number(s)->Int_0.1;
    if n == 60 {
        &&& after == after_reg_read(s, Register::RAX)
        &&& r is Some
        &&& r->Some_0 is Exit
    } else {
        let read = n == 0;
        let kind = if read { StdioKind::Stdin } else { StdioKind::Stdout };
        let args = syscall_args_read(s);
        let count = syscall_count(s)->Int_0.1 as nat;
        let base = if read { s.stdin } else { s.stdout };
        &&& after == stdio_progress(args, read, syscall_buffer(s), count)
        &&& r is Some
        &&& r->Some_0 is Stdio
        &&& r->Some_0->Stdio_0 == kind
        &&& r->Some_0->Stdio_1@ == stdio_bytes(kind, base, syscall_buffer(s), count)
    }
}

/// The event of a micro-operation other than a system call: a jump yields its
/// target's value with the condition as it stands, the others nothing.
pub open spec fn step_event(s: StateView, op: MicroOperation, r: Option<Event>) -> bool {
    match op {
        MicroOperation::Jump { target, condition, relative } => {
            &&& r is Some
            &&& r->Some_0 is Jump
            &&& r->Some_0->Jump_target == s.temps[target.1]
            &&& r->Some_0->Jump_condition == condition
            &&& r->Some_0->Jump_relative == relative
        },
        _ => r is None,
    }
}

/// The entries of a symbol map whose symbols occur in the expression, in order.
pub open spec fn entries_for(entries: Seq<(Symbol, AbstractView)>, e: SymExpr) -> Seq<(Symbol, AbstractView)>
    decreases entries.len(),
{
    if entries.len() == 0 {
        Seq::empty()
    } else if occurs(e, entries.last().0) {
        entries_for(entries.drop_last(), e).push(entries.last())
    } else {
        entries_for(entries.drop_last(), e)
    }
}

/// The address expression of a memory storage location, from the registers it
/// names: the base, plus the index times the scale, plus the displacement.
pub open spec fn access_address(s: StateView, base: Register, scaled: Option<(Register, u8)>, disp: Option<i64>) -> SymExpr {
    let b = reg_value(s, base);
    let with_offset = match scaled {
        Some((index, scale)) => SymExpr::Bin(
            BinOp::Add,
            Box::new(b),
            Box::new(SymExpr::Bin(
                BinOp::Mul,
                Box::new(reg_value(after_reg_read(s, base), index)),
                Box::new(SymExpr::Int(Integer(DataType::N64, scale as u64))),
            )),
        ),
        None => b,
    };
    match disp {
        Some(d) => SymExpr::Bin(
            BinOp::Add,
            Box::new(with_offset),
            Box::new(SymExpr::Int(Integer(DataType::N64, d as u64))),
        ),
        None => with_offset,
    }
}

/// The state after the registers of a memory storage location were read.
pub open spec fn after_access(s: StateView, base: Register, scaled: Option<(Register, u8)>) -> StateView {
    match scaled {
        Some((index, _)) => after_reg_read(after_reg_read(s, base), index),
        None => after_reg_read(s, base),
    }
}

/// The symbol was made for standard input or output before the counters
/// reached `stdin` and `stdout`.
pub open spec fn stdio_made(s: Symbol, stdin: nat, stdout: nat) -> bool {
    s.0 == DataType::N8 && ((s.1 == Namespace::Stdin && (s.2 as nat) < stdin) || (s.1
        == Namespace::Stdout && (s.2 as nat) < stdout))
}

/// The symbol map holds each symbol once, and only symbols made for standard
/// input or output before the counters reached `stdin` and `stdout`.
pub open spec fn symbol_map_sound(symbols: Seq<(Symbol, AbstractView)>, stdin: nat, stdout: nat) -> bool {
    &&& forall|i: int, j: int|
        0 <= i < j < symbols.len() ==> (#[trigger] symbols[i]).0 != (#[trigger] symbols[j]).0
    &&& forall|i: int| 0 <= i < symbols.len() ==> stdio_made((#[trigger] symbols[i]).0, stdin, stdout)
}

/// Well-formedness of a state: both memories are well formed, default symbols
/// of main memory and of the register file live in their own namespaces, the
/// register file matches addresses syntactically, and the symbol map is sound.
pub open spec fn state_wf(v: StateView) -> bool {
    &&& crate::sym::memory_wf(v.main)
    &&& crate::sym::memory_wf(v.regs)
    &&& v.main.namespace == Namespace::Mem
    &&& v.regs.namespace == Namespace::Reg
    &&& v.regs.strategy == MemoryStrategy::PerfectMatches
    &&& symbol_map_sound(v.symbols, v.stdin, v.stdout)
}

impl<S> View for SymState<S> {
    type V = StateView;

    closed spec fn view(&self) -> StateView {
        StateView {
            temps: self.temporaries@,
            main: self.main@,
            regs: self.regs@,
            ip: self.ip,
            trace: self.trace@,
            stdin: self.stdin_symbols as nat,
            stdout: self.stdout_symbols as nat,
            symbols: self.symbol_map@.map_values(|p: (Symbol, AbstractLocation)| (p.0, p.1@)),
        }
    }
}

impl<S: Solver> SymState<S> {
    /// The solver that reads of main memory consult.
    pub closed spec fn held_solver(&self) -> S {
        self.solver
    }

    /// Well-formedness of the state, as `state_wf` states it of the view.
    pub open spec fn wf(&self) -> bool {
        state_wf(self@)
    }

    /// Create a blank symbolic state whose main memory reads follow
    /// `mem_strategy`, consulting `solver`; the register file matches addresses
    /// syntactically.
    pub fn new(mem_strategy: MemoryStrategy, solver: S) -> (r: SymState<S>)
        ensures
            r@.main.strategy == mem_strategy,
            r.wf(),
            r@.temps == Map::<usize, SymExpr>::empty(),
            r@.main.contents == Map::<SymExpr, SymExpr>::empty(),
            r@.regs.contents == Map::<SymExpr, SymExpr>::empty(),
            r@.main.entries == Seq::<crate::sym::MemoryEntry>::empty(),
            r@.regs.entries == Seq::<crate::sym::MemoryEntry>::empty(),
            r@.main.epoch == 1,
            r@.regs.epoch == 1,
            r@.main.namespace == Namespace::Mem,
            r@.regs.namespace == Namespace::Reg,
            r@.regs.strategy == MemoryStrategy::PerfectMatches,
            r.held_solver() == solver,
            r@.main.symbols == 0,
            r@.regs.symbols == 0,
            r@.ip == 0,
            r@.trace == Seq::<u64>::empty(),
            r@.stdin == 0,
            r@.stdout == 0,
            r@.symbols == Seq::<(Symbol, AbstractView)>::empty(),
    {
        SymState {
            temporaries: HashMap::new(),
            main: SymMemory::new(Namespace::Mem, mem_strategy),
            regs: SymMemory::new(Namespace::Reg, MemoryStrategy::PerfectMatches),
            trace: Vec::new(),
            ip: 0,
            stdin_symbols: 0,
            stdout_symbols: 0,
            symbol_map: Vec::new(),
            solver,
        }
    }

    /// Adjust the call trace: a call pushes its address, a return pops.
    pub fn track(&mut self, instruction: &Instruction, addr: u64)
        ensures
            instruction.mnemoic == Mnemoic::Call ==> final(self)@.trace == old(self)@.trace.push(addr),
            instruction.mnemoic == Mnemoic::Ret ==> final(self)@.trace == if old(self)@.trace.len() == 0 {
                old(self)@.trace
            } else {
                old(self)@.trace.drop_last()
            },
            instruction.mnemoic != Mnemoic::Call && instruction.mnemoic != Mnemoic::Ret
                ==> final(self)@.trace == old(self)@.trace,
            final(self)@.temps == old(self)@.temps,
            final(self)@.main == old(self)@.main,
            final(self)@.regs == old(self)@.regs,
            final(self)@.ip == old(self)@.ip,
            final(self)@.stdin == old(self)@.stdin,
            final(self)@.stdout == old(self)@.stdout,
            final(self)@.symbols == old(self)@.symbols,
            final(self).wf() == old(self).wf(),
    {
        match instruction.mnemoic {
            Mnemoic::Call => self.trace.push(addr),
            Mnemoic::Ret => {
                let _ = self.trace.pop();
            },
            _ => {},
        }
    }

    /// The value of the temporary.
    pub fn get_temp(&self, temp: Temporary) -> (r: SymExpr)
        requires
            temp_ready(self@, temp),
        ensures
            r == self@.temps[temp.1],
    {
        match self.temporaries.get(&temp.1) {
            Some(v) => v.duplicate(),
            None => {
                proof {
                    assert(false);
                }
                SymExpr::from_ptr(0)
            },
        }
    }

    /// Set the temporary to a value of its width.
    pub fn set_temp(&mut self, temp: Temporary, value: SymExpr)
        requires
            temp.0 == expr_width(value),
        ensures
            final(self)@ == with_temp(old(self)@, temp.1, value),
            final(self).wf() == old(self).wf(),
    {
        self.temporaries.insert(temp.1, value);
    }

    /// Read `d` bytes at an address of a memory space.
    fn read_space(&mut self, sp: usize, addr: SymExpr, d: DataType) -> (r: SymExpr)
        requires
            old(self).wf(),
            room(old(self)@, 1),
            sp < 2,
        ensures
            final(self).wf(),
            exists|ans: Seq<Option<SymCond>>|
                #![trigger mem_read(space(old(self)@, sp), addr, d, ans)]
                r == mem_read(space(old(self)@, sp), addr, d, ans) && final(self)@ == with_space(
                    old(self)@,
                    sp,
                    mem_after_read(space(old(self)@, sp), addr, d, ans),
                ),
    {
        let ghost m = space(self@, sp);
        if sp == 0 {
            let r = self.main.read_expr(addr, d, &self.solver);
            proof {
                let ans = choose|ans: Seq<Option<SymCond>>|
                    #![trigger mem_read(m, addr, d, ans)]
                    ans.len() == m.entries.len() && r == mem_read(m, addr, d, ans) && self.main@
                        == mem_after_read(m, addr, d, ans);
                assert(r == mem_read(m, addr, d, ans));
                assert(self@ == with_space(old(self)@, sp, mem_after_read(m, addr, d, ans)));
            }
            r
        } else {
            let r = self.regs.read_perfect(addr, d);
            proof {
                let ans = Seq::<Option<SymCond>>::empty();
                assert(r == mem_read(m, addr, d, ans));
                assert(self@ == with_space(old(self)@, sp, mem_after_read(m, addr, d, ans)));
            }
            r
        }
    }

    /// Write a value at an address of a memory space.
    fn write_space(&mut self, sp: usize, addr: SymExpr, value: SymExpr)
        requires
            old(self).wf(),
            sp < 2,
        ensures
            final(self).wf(),
            final(self)@ == with_space(old(self)@, sp, after_write(space(old(self)@, sp), addr, value)),
    {
        if sp == 0 {
            self.main.write_expr(addr, value)
        } else {
            self.regs.write_expr(addr, value)
        }
    }

    /// Retrieve the value at a location.
    pub fn read_location(&mut self, src: Location) -> (r: SymExpr)
        requires
            old(self).wf(),
            room(old(self)@, 1),
            location_ready(old(self)@, src),
        ensures
            final(self).wf(),
            exists|ans: Seq<Option<SymCond>>|
                #![trigger read_loc_value(old(self)@, src, ans)]
                r == read_loc_value(old(self)@, src, ans) && final(self)@ == after_read_loc(
                    old(self)@,
                    src,
                    ans,
                ),
    {
        let ghost s0 = self@;
        let r = match src {
            Location::Temp(temp) => self.get_temp(temp),
            Location::Direct(data_type, sp, addr) => self.read_space(sp, SymExpr::from_ptr(addr), data_type),
            Location::Indirect(data_type, sp, temp) => {
                let addr = self.get_temp(temp);
                self.read_space(sp, addr, data_type)
            },
        };
        proof {
            if src is Temp {
                assert(r == read_loc_value(s0, src, Seq::empty()));
                assert(self@ == after_read_loc(s0, src, Seq::empty()));
            } else {
                let m = space(s0, space_of(src));
                let ans = choose|ans: Seq<Option<SymCond>>|
                    #![trigger mem_read(m, address_of(s0, src), location_width(src), ans)]
                    r == mem_read(m, address_of(s0, src), location_width(src), ans) && self@ == with_space(
                        s0,
                        space_of(src),
                        mem_after_read(m, address_of(s0, src), location_width(src), ans),
                    );
                assert(r == read_loc_value(s0, src, ans));
                assert(self@ == after_read_loc(s0, src, ans));
            }
        }
        r
    }

    /// Write a value of the location's width to a location.
    pub fn write_location(&mut self, dest: Location, value: SymExpr)
        requires
            old(self).wf(),
            dest_ready(old(self)@, dest),
            location_width(dest) == expr_width(value),
        ensures
            final(self).wf(),
            final(self)@ == after_write_loc(old(self)@, dest, value),
    {
        match dest {
            Location::Temp(temp) => self.set_temp(temp, value),
            Location::Direct(_, sp, addr) => self.write_space(sp, SymExpr::from_ptr(addr), value),
            Location::Indirect(_, sp, temp) => {
                let addr = self.get_temp(temp);
                self.write_space(sp, addr, value)
            },
        }
    }

    /// The value of a register, at the register's width.
    pub fn get_reg(&mut self, reg: Register) -> (r: SymExpr)
        requires
            old(self).wf(),
            room(old(self)@, 1),
        ensures
            final(self).wf(),
            r == reg_value(old(self)@, reg),
            final(self)@ == after_reg_read(old(self)@, reg),
    {
        self.regs.read_perfect(SymExpr::from_ptr(reg.address()), reg.data_type())
    }

    /// Set a register to a value.
    pub fn set_reg(&mut self, reg: Register, value: SymExpr)
        requires
            old(self).wf(),
        ensures
            final(self).wf(),
            final(self)@ == with_reg(old(self)@, reg, value),
    {
        self.regs.write_direct(reg.address(), value)
    }

    /// The value, of width `d`, that a set on the condition stores.
    pub fn evaluate_condition(&self, condition: Condition, d: DataType) -> (r: SymExpr)
        requires
            condition_ready(self@, condition),
        ensures
            r == condition_value(self@, condition, d),
    {
        let (test, cmp) = match condition {
            Condition::True => {
                return SymExpr::Int(Integer(d, 1));
            },
            Condition::Equal(cmp) => (FlagTest::Equal, cmp),
            Condition::Greater(cmp) => (FlagTest::Greater, cmp),
            Condition::Less(cmp) => (FlagTest::Less, cmp),
        };
        let (op, a, b) = match cmp {
            Comparison::Add(a, b) => (BinOp::Add, a, b),
            Comparison::Sub(a, b) => (BinOp::Sub, a, b),
            Comparison::Mul(a, b) => (BinOp::Mul, a, b),
            Comparison::And(a, b) => (BinOp::And, a, b),
        };
        SymExpr::Flag(test, op, Box::new(self.get_temp(a)), Box::new(self.get_temp(b)), d)
    }

    /// Apply a binary operation to two temporaries.
    fn do_binop(&mut self, target: Temporary, a: Temporary, b: Temporary, op: BinOp)
        requires
            temp_ready(old(self)@, a),
            temp_ready(old(self)@, b),
            target.0 == a.0,
        ensures
            final(self)@ == with_temp(old(self)@, target.1, bin_value(old(self)@, op, a, b)),
            final(self).wf() == old(self).wf(),
    {
        let value = self.get_temp(a).binop(op, self.get_temp(b));
        self.set_temp(target, value);
    }

    /// Move a value from a location to another location of the same width.
    fn do_move(&mut self, dest: Location, src: Location)
        requires
            old(self).wf(),
            room(old(self)@, 1),
            location_ready(old(self)@, src),
            dest_ready(old(self)@, dest),
            location_width(dest) == location_width(src),
        ensures
            final(self).wf(),
            exists|ans: Seq<Option<SymCond>>|
                #![trigger read_loc_value(old(self)@, src, ans)]
                final(self)@ == after_write_loc(
                    after_read_loc(old(self)@, src, ans),
                    dest,
                    read_loc_value(old(self)@, src, ans),
                ),
    {
        let ghost s0 = self@;
        let value = self.read_location(src);
        let ghost ans = choose|ans: Seq<Option<SymCond>>|
            #![trigger read_loc_value(s0, src, ans)]
            value == read_loc_value(s0, src, ans) && self@ == after_read_loc(s0, src, ans);
        proof {
            crate::sym::lemma_mem_read_width(space(s0, space_of(src)), address_of(s0, src), location_width(src), ans);
        }
        self.write_location(dest, value);
        assert(self@ == after_write_loc(after_read_loc(s0, src, ans), dest, read_loc_value(s0, src, ans)));
    }

    /// Execute a micro-operation at instruction address `addr`: the instruction
    /// pointer is set to `addr` first.
    pub fn step(&mut self, addr: u64, operation: &MicroOperation) -> (r: Option<Event>)
        requires
            old(self).wf(),
            room(old(self)@, 4),
            step_ready(enter(old(self)@, addr), *operation),
        ensures
            final(self).wf(),
            !(*operation is Syscall) ==> exists|ans: Seq<Option<SymCond>>|
                #![trigger step_state(enter(old(self)@, addr), *operation, ans)]
                final(self)@ == step_state(enter(old(self)@, addr), *operation, ans),
            !(*operation is Syscall) ==> step_event(enter(old(self)@, addr), *operation, r),
            *operation is Syscall ==> syscall_done(enter(old(self)@, addr), final(self)@, r),
    {
        self.set_reg(Register::RIP, SymExpr::from_ptr(addr));
        self.ip = addr;
        let ghost e = self@;
        match *operation {
            MicroOperation::Mov { dest, src } => self.do_move(dest, src),
            MicroOperation::Const { dest, constant } => self.write_location(dest, SymExpr::Int(constant)),
            MicroOperation::Cast { target, new, signed } => {
                let value = self.get_temp(target).cast(new, signed);
                proof {
                    crate::sym::lemma_cast_width(self@.temps[target.1], new, signed);
                }
                self.set_temp(Temporary(new, target.1), value);
            },
            MicroOperation::Add { sum, a, b } => self.do_binop(sum, a, b, BinOp::Add),
            MicroOperation::Sub { diff, a, b } => self.do_binop(diff, a, b, BinOp::Sub),
            MicroOperation::Mul { prod, a, b } => self.do_binop(prod, a, b, BinOp::Mul),
            MicroOperation::And { and, a, b } => self.do_binop(and, a, b, BinOp::And),
            MicroOperation::Or { or, a, b } => self.do_binop(or, a, b, BinOp::Or),
            MicroOperation::Not { not, a } => {
                let value = self.get_temp(a).bitnot();
                self.set_temp(not, value);
            },
            MicroOperation::SetCond { target, condition } => {
                let value = self.evaluate_condition(condition, target.0);
                self.set_temp(target, value);
            },
            MicroOperation::Jump { target, condition, relative } => {
                assert(self@ == step_state(e, *operation, Seq::empty()));
                return Some(Event::Jump { target: self.get_temp(target), condition, relative });
            },
            MicroOperation::Syscall => {
                return self.do_syscall();
            },
        }
        proof {
            if let MicroOperation::Mov { dest, src } = *operation {
                let ans = choose|ans: Seq<Option<SymCond>>|
                    #![trigger read_loc_value(e, src, ans)]
                    self@ == after_write_loc(after_read_loc(e, src, ans), dest, read_loc_value(e, src, ans));
                assert(self@ == step_state(e, *operation, ans));
            } else {
                assert(self@ == step_state(e, *operation, Seq::empty()));
            }
        }
        None
    }

    /// Emulate a system call: exit, or a read or write of bytes.
    fn do_syscall(&mut self) -> (r: Option<Event>)
        requires
            old(self).wf(),
            room(old(self)@, 3),
            syscall_ready(old(self)@),
        ensures
            final(self).wf(),
            syscall_done(old(self)@, final(self)@, r),
    {
        let number = self.get_reg(Register::RAX);
        let num = match number {
            SymExpr::Int(i) => i.1,
            _ => {
                proof {
                    assert(false);
                }
                0
            },
        };
        if num == 60 {
            return Some(Event::Exit);
        }
        let read = num == 0;
        let buf = self.get_reg(Register::RSI);
        let count = self.get_reg(Register::RDX);
        let byte_count = match count {
            SymExpr::Int(i) => i.1,
            _ => {
                proof {
                    assert(false);
                }
                0
            },
        };
        let kind = if read { StdioKind::Stdin } else { StdioKind::Stdout };
        let ghost args = self@;
        let ghost base = if read { args.stdin } else { args.stdout };
        let mut locs: Vec<(Symbol, TypedMemoryAccess)> = Vec::new();
        let mut i: u64 = 0;
        while i < byte_count
            invariant
                self.wf(),
                i <= byte_count,
                base + byte_count <= usize::MAX,
                base == if read { args.stdin } else { args.stdout },
                kind == if read { StdioKind::Stdin } else { StdioKind::Stdout },
                self@ == stdio_progress(args, read, buf, i as nat),
                locs@ == stdio_bytes(kind, base, buf, i as nat),
            decreases byte_count - i,
        {
            let index = if read { self.stdin_symbols } else { self.stdout_symbols };
            let symbol = Symbol(DataType::N8, if read { Namespace::Stdin } else { Namespace::Stdout }, index);
            let target = buf.duplicate().add(SymExpr::from_ptr(i));
            let location = AbstractLocation {
                addr: self.ip,
                trace: self.trace.clone(),
                storage: StorageLocation::Indirect {
                    data_type: DataType::N8,
                    base: Register::RSI,
                    scaled_offset: None,
                    displacement: if i > 0 { Some(i as i64) } else { None },
                },
            };
            proof {
                assert(location.trace@ =~= self.trace@);
            }
            let ghost map0 = self.symbol_map@;
            self.symbol_map.push((symbol, location));
            proof {
                assert(self.symbol_map@.map_values(|p: (Symbol, AbstractLocation)| (p.0, p.1@)) =~= map0.map_values(
                    |p: (Symbol, AbstractLocation)| (p.0, p.1@),
                ).push((symbol, location@)));
            }
            if read {
                self.main.write_expr(target.duplicate(), SymExpr::Sym(symbol));
                self.stdin_symbols = self.stdin_symbols + 1;
            } else {
                self.stdout_symbols = self.stdout_symbols + 1;
            }
            locs.push((symbol, TypedMemoryAccess(target, DataType::N8)));
            proof {
                assert(index == base + i);
                assert(symbol == stdio_symbol(kind, base, i as nat));
                assert(target == stdio_cell(buf, i as nat));
                assert(locs@ =~= stdio_bytes(kind, base, buf, (i + 1) as nat));
                assert(stdio_locations(kind, base, args.ip, args.trace, (i + 1) as nat) =~= stdio_locations(
                    kind,
                    base,
                    args.ip,
                    args.trace,
                    i as nat,
                ).push((symbol, location@)));
                assert(self@ =~= stdio_progress(args, read, buf, (i + 1) as nat));
            }
            i = i + 1;
        }
        Some(Event::Stdio(kind, locs))
    }

    /// The entries of the symbol map whose symbols occur in the expression.
    pub fn symbol_map_for(&self, e: &SymExpr) -> (r: Vec<(Symbol, AbstractLocation)>)
        ensures
            r@.map_values(|p: (Symbol, AbstractLocation)| (p.0, p.1@)) == entries_for(self@.symbols, *e),
    {
        let mut r: Vec<(Symbol, AbstractLocation)> = Vec::new();
        let mut i: usize = 0;
        while i < self.symbol_map.len()
            invariant
                i <= self.symbol_map@.len(),
                r@.map_values(|p: (Symbol, AbstractLocation)| (p.0, p.1@)) == entries_for(
                    self@.symbols.take(i as int),
                    *e,
                ),
            decreases self.symbol_map@.len() - i,
        {
            let ghost before = r@;
            let symbol = self.symbol_map[i].0;
            let ghost taken = self@.symbols.take(i + 1);
            proof {
                assert(taken.drop_last() =~= self@.symbols.take(i as int));
                assert(taken.last() == (symbol, self.symbol_map@[i as int].1@));
            }
            if e.contains_symbol(symbol) {
                let location = AbstractLocation {
                    addr: self.symbol_map[i].1.addr,
                    trace: self.symbol_map[i].1.trace.clone(),
                    storage: self.symbol_map[i].1.storage,
                };
                proof {
                    assert(location.trace@ =~= self.symbol_map@[i as int].1.trace@);
                }
                r.push((symbol, location));
                proof {
                    assert(r@.map_values(|p: (Symbol, AbstractLocation)| (p.0, p.1@)) =~= before.map_values(
                        |p: (Symbol, AbstractLocation)| (p.0, p.1@),
                    ).push((symbol, location@)));
                }
            }
            i = i + 1;
        }
        proof {
            assert(self@.symbols.take(self@.symbols.len() as int) =~= self@.symbols);
        }
        r
    }

    /// The address and width of a storage location in memory; `None` for a register.
    pub fn get_access_for_location(&mut self, location: StorageLocation) -> (r: Option<TypedMemoryAccess>)
        requires
            old(self).wf(),
            room(old(self)@, 2),
        ensures
            final(self).wf(),
            match location {
                StorageLocation::Direct(_) => r is None && final(self)@ == old(self)@,
                StorageLocation::Indirect { data_type, base, scaled_offset, displacement } => {
                    &&& r is Some
                    &&& r->Some_0.0 == access_address(old(self)@, base, scaled_offset, displacement)
                    &&& r->Some_0.1 == data_type
                    &&& final(self)@ == after_access(old(self)@, base, scaled_offset)
                },
            },
    {
        match location {
            StorageLocation::Direct(_) => None,
            StorageLocation::Indirect { data_type, base, scaled_offset, displacement } => {
                let mut addr = self.get_reg(base);
                if let Some((index, scale)) = scaled_offset {
                    let offset = self.get_reg(index).binop(BinOp::Mul, SymExpr::from_ptr(scale as u64));
                    addr = addr.add(offset);
                }
                if let Some(disp) = displacement {
                    addr = addr.add(SymExpr::from_ptr(disp as u64));
                }
                Some(TypedMemoryAccess(addr, data_type))
            },
        }
    }
}

} // verus!
