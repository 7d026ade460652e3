//! Symbolic memory: a store of symbolic values keyed by symbolic address expressions.

use vstd::prelude::*;
use crate::num::{DataType, Integer};

verus! {

/// The namespace that a symbol belongs to.
#[derive(Debug, Clone, Copy, PartialEq, Eq, Hash, Structural)]
pub enum Namespace {
    /// Default symbols of main memory.
    Mem,
    /// Default symbols of the register file.
    Reg,
    /// Temporaries.
    Temp,
    /// Bytes read from standard input.
    Stdin,
    /// Bytes written to standard output.
    Stdout,
}

/// A named symbolic value: its width, its namespace and its index there.
#[derive(Debug, Clone, Copy, PartialEq, Eq, Hash, Structural)]
pub struct Symbol(pub DataType, pub Namespace, pub usize);

/// Binary operations of the expression algebra.
#[derive(Debug, Clone, Copy, PartialEq, Eq, Hash, Structural)]
pub enum BinOp {
    Add,
    Sub,
    Mul,
    And,
    Or,
}

/// What a flag test asks of the flags that an operation on two values sets.
#[derive(Debug, Clone, Copy, PartialEq, Eq, Hash, Structural)]
pub enum FlagTest {
    Equal,
    Greater,
    Less,
}

/// A symbolic expression.
#[derive(Debug, Hash)]
pub enum SymExpr {
    /// A constant.
    Int(Integer),
    /// A symbol.
    Sym(Symbol),
    /// A binary operation on two expressions of one width.
    Bin(BinOp, Box<SymExpr>, Box<SymExpr>),
    /// The bitwise complement.
    Not(Box<SymExpr>),
    /// The expression cast to a width, sign-extending (`true`) or zero-extending.
    Cast(Box<SymExpr>, DataType, bool),
    /// One, of the given width, if the test holds of the flags that the
    /// operation on the two expressions sets, and zero otherwise.
    Flag(FlagTest, BinOp, Box<SymExpr>, Box<SymExpr>, DataType),
    /// The second expression if the condition holds, else the third.
    Ite(Box<SymCond>, Box<SymExpr>, Box<SymExpr>),
}

/// A symbolic condition.
#[derive(Debug, Hash)]
pub enum SymCond {
    /// Holds always.
    True,
    /// The two expressions are equal.
    Equal(Box<SymExpr>, Box<SymExpr>),
}

/// The width of an expression's value.
pub open spec fn expr_width(e: SymExpr) -> DataType
    decreases e,
{
    match e {
        SymExpr::Int(i) => i.0,
        SymExpr::Sym(s) => s.0,
        SymExpr::Bin(_, a, _) => expr_width(*a),
        SymExpr::Not(a) => expr_width(*a),
        SymExpr::Cast(_, d, _) => d,
        SymExpr::Flag(_, _, _, _, d) => d,
        SymExpr::Ite(_, a, _) => expr_width(*a),
    }
}

/// Number of distinct values of a width.
pub open spec fn modulus(d: DataType) -> int {
    match d {
        DataType::N8 => 0x100,
        DataType::N16 => 0x1_0000,
        DataType::N32 => 0x1_0000_0000,
        DataType::N64 => 0x1_0000_0000_0000_0000,
    }
}

/// The bit pattern `v` of width `from` cast to width `to`: the low bits of `v`,
/// sign-extended when `signed` and the top bit of width `from` is set, then
/// truncated to width `to`.
pub open spec fn cast_bits(v: u64, from: DataType, to: DataType, signed: bool) -> u64 {
    let low = v as int % modulus(from);
    let ext = if signed && low >= modulus(from) / 2 {
        low + 0x1_0000_0000_0000_0000 - modulus(from)
    } else {
        low
    };
    (ext % modulus(to)) as u64
}

/// The expression cast to width `d`: itself where the width agrees, a constant
/// for a constant, else a cast node.
pub open spec fn cast_expr(e: SymExpr, d: DataType, signed: bool) -> SymExpr {
    if expr_width(e) == d {
        e
    } else {
        match e {
            SymExpr::Int(i) => SymExpr::Int(Integer(d, cast_bits(i.1, i.0, d, signed))),
            _ => SymExpr::Cast(Box::new(e), d, signed),
        }
    }
}

/// The expression, cast without sign extension to width `d` where its width differs.
pub open spec fn fit(e: SymExpr, d: DataType) -> SymExpr {
    cast_expr(e, d, false)
}

fn mask(d: DataType) -> (r: u64)
    ensures
        r as int == modulus(d) - 1,
{
    match d {
        DataType::N8 => 0xff,
        DataType::N16 => 0xffff,
        DataType::N32 => 0xffff_ffff,
        DataType::N64 => 0xffff_ffff_ffff_ffff,
    }
}

/// The bit pattern `v` of width `from` cast to width `to`.
pub fn cast_value(v: u64, from: DataType, to: DataType, signed: bool) -> (r: u64)
    ensures
        r == cast_bits(v, from, to, signed),
{
    let m = mask(from);
    let low: u64 = if m == u64::MAX {
        proof {
            vstd::arithmetic::div_mod::lemma_small_mod(v as nat, 0x1_0000_0000_0000_0000);
        }
        v
    } else {
        v % (m + 1)
    };
    assert(low as int == v as int % modulus(from));
    assert(low > m / 2 <==> low as int >= modulus(from) / 2);
    let ext: u64 = if signed && low > m / 2 { low + (u64::MAX - m) } else { low };
    let n = mask(to);
    let r: u64 = if n == u64::MAX {
        proof {
            vstd::arithmetic::div_mod::lemma_small_mod(ext as nat, 0x1_0000_0000_0000_0000);
        }
        ext
    } else {
        ext % (n + 1)
    };
    assert(r as int == ext as int % modulus(to));
    r
}

impl SymExpr {
    /// A 64-bit constant holding an address.
    pub fn from_ptr(addr: u64) -> (r: SymExpr)
        ensures
            r == SymExpr::Int(Integer(DataType::N64, addr)),
    {
        SymExpr::Int(Integer(DataType::N64, addr))
    }

    /// The width of the expression's value.
    pub fn data_type(&self) -> (r: DataType)
        ensures
            r == expr_width(*self),
        decreases self,
    {
        match self {
            SymExpr::Int(i) => i.0,
            SymExpr::Sym(s) => s.0,
            SymExpr::Bin(_, a, _) => a.data_type(),
            SymExpr::Not(a) => a.data_type(),
            SymExpr::Cast(_, d, _) => *d,
            SymExpr::Flag(_, _, _, _, d) => *d,
            SymExpr::Ite(_, a, _) => a.data_type(),
        }
    }

    /// The binary operation on the two expressions.
    pub fn binop(self, op: BinOp, other: SymExpr) -> (r: SymExpr)
        ensures
            r == SymExpr::Bin(op, Box::new(self), Box::new(other)),
    {
        SymExpr::Bin(op, Box::new(self), Box::new(other))
    }

    /// The sum of the two expressions.
    pub fn add(self, other: SymExpr) -> (r: SymExpr)
        ensures
            r == SymExpr::Bin(BinOp::Add, Box::new(self), Box::new(other)),
    {
        self.binop(BinOp::Add, other)
    }

    /// The bitwise complement of the expression.
    pub fn bitnot(self) -> (r: SymExpr)
        ensures
            r == SymExpr::Not(Box::new(self)),
    {
        SymExpr::Not(Box::new(self))
    }

    /// The expression cast to width `d`.
    pub fn cast(self, d: DataType, signed: bool) -> (r: SymExpr)
        ensures
            r == cast_expr(self, d, signed),
    {
        if self.data_type() == d {
            self
        } else {
            match self {
                SymExpr::Int(i) => SymExpr::Int(Integer(d, cast_value(i.1, i.0, d, signed))),
                e => SymExpr::Cast(Box::new(e), d, signed),
            }
        }
    }

    /// A copy of the expression.
    pub fn duplicate(&self) -> (r: SymExpr)
        ensures
            r == *self,
        decreases self,
    {
        match self {
            SymExpr::Int(i) => SymExpr::Int(*i),
            SymExpr::Sym(s) => SymExpr::Sym(*s),
            SymExpr::Bin(op, a, b) => SymExpr::Bin(*op, Box::new(a.duplicate()), Box::new(b.duplicate())),
            SymExpr::Not(a) => SymExpr::Not(Box::new(a.duplicate())),
            SymExpr::Cast(a, d, s) => SymExpr::Cast(Box::new(a.duplicate()), *d, *s),
            SymExpr::Flag(t, op, a, b, d) => SymExpr::Flag(
                *t,
                *op,
                Box::new(a.duplicate()),
                Box::new(b.duplicate()),
                *d,
            ),
            SymExpr::Ite(c, a, b) => SymExpr::Ite(
                Box::new(c.duplicate()),
                Box::new(a.duplicate()),
                Box::new(b.duplicate()),
            ),
        }
    }

    /// Whether the two expressions are syntactically equal.
    pub fn same(&self, other: &SymExpr) -> (r: bool)
        ensures
            r == (*self == *other),
        decreases self,
    {
        match (self, other) {
            (SymExpr::Int(a), SymExpr::Int(b)) => *a == *b,
            (SymExpr::Sym(a), SymExpr::Sym(b)) => *a == *b,
            (SymExpr::Bin(o1, a1, b1), SymExpr::Bin(o2, a2, b2)) => {
                let r = *o1 == *o2 && a1.same(a2) && b1.same(b2);
                proof {
                    if r {
                        assert(*self == *other);
                    }
                }
                r
            },
            (SymExpr::Not(a1), SymExpr::Not(a2)) => {
                let r = a1.same(a2);
                proof {
                    if r {
                        assert(*self == *other);
                    }
                }
                r
            },
            (SymExpr::Cast(a1, d1, s1), SymExpr::Cast(a2, d2, s2)) => {
                let r = *d1 == *d2 && *s1 == *s2 && a1.same(a2);
                proof {
                    if r {
                        assert(*self == *other);
                    }
                }
                r
            },
            (SymExpr::Flag(t1, o1, a1, b1, d1), SymExpr::Flag(t2, o2, a2, b2, d2)) => {
                let r = *t1 == *t2 && *o1 == *o2 && *d1 == *d2 && a1.same(a2) && b1.same(b2);
                proof {
                    if r {
                        assert(*self == *other);
                    }
                }
                r
            },
            (SymExpr::Ite(c1, a1, b1), SymExpr::Ite(c2, a2, b2)) => {
                let r = c1.same(c2) && a1.same(a2) && b1.same(b2);
                proof {
                    if r {
                        assert(*self == *other);
                    }
                }
                r
            },
            _ => false,
        }
    }
}

impl Clone for SymExpr {
    fn clone(&self) -> (r: SymExpr)
        ensures
            r == *self,
    {
        self.duplicate()
    }
}

impl PartialEq for SymExpr {
    fn eq(&self, other: &SymExpr) -> (r: bool) {
        self.same(other)
    }
}

impl Eq for SymExpr {}

impl vstd::std_specs::cmp::PartialEqSpecImpl for SymExpr {
    open spec fn obeys_eq_spec() -> bool {
        true
    }

    open spec fn eq_spec(&self, other: &SymExpr) -> bool {
        *self == *other
    }
}

/// A value written to memory at an address, with the epoch of its insertion
/// (zero for a default symbol).
#[derive(Debug, Clone)]
pub struct MemoryEntry {
    pub addr: SymExpr,
    pub value: SymExpr,
    pub epoch: u64,
}

/// How a memory answers reads at address expressions that are not identical to
/// a written one.
#[derive(Debug, Clone, Copy, PartialEq, Eq, Hash, Structural)]
pub enum MemoryStrategy {
    /// Build an if-then-else tree of the values whose addresses could match.
    ConditionalTrees,
    /// Only use the value at an identical address expression.
    PerfectMatches,
}

/// What a memory holds: the value at each address expression that was written
/// or read, the entries in the order they were made with their epochs, the
/// epoch the next write takes, the number of default symbols generated so far,
/// the namespace of those symbols and the strategy of reads.
pub struct MemoryView {
    pub contents: Map<SymExpr, SymExpr>,
    pub entries: Seq<MemoryEntry>,
    pub epoch: u64,
    pub symbols: nat,
    pub namespace: Namespace,
    pub strategy: MemoryStrategy,
}

/// Symbolic memory keyed by address expressions. A read of an address never
/// seen yields a fresh symbol, which is remembered for that address with epoch
/// zero, so that every write shadows it.
#[derive(Debug, Clone)]
pub struct SymMemory {
    namespace: Namespace,
    strategy: MemoryStrategy,
    entries: Vec<MemoryEntry>,
    symbols: usize,
    epoch: u64,
}

spec fn contents_of(entries: Seq<MemoryEntry>) -> Map<SymExpr, SymExpr>
    decreases entries.len(),
{
    if entries.len() == 0 {
        Map::empty()
    } else {
        contents_of(entries.drop_last()).insert(entries.last().addr, entries.last().value)
    }
}

/// No two entries have the same address expression.
pub open spec fn addresses_unique(entries: Seq<MemoryEntry>) -> bool {
    forall|i: int, j: int|
        0 <= i < entries.len() && 0 <= j < entries.len() && i != j ==> entries[i].addr
            != entries[j].addr
}

proof fn lemma_contents_lookup(entries: Seq<MemoryEntry>, k: int)
    requires
        addresses_unique(entries),
        0 <= k < entries.len(),
    ensures
        contents_of(entries).contains_key(entries[k].addr),
        contents_of(entries)[entries[k].addr] == entries[k].value,
    decreases entries.len(),
{
    if k < entries.len() - 1 {
        let rest = entries.drop_last();
        assert(rest[k] == entries[k]);
        lemma_contents_lookup(rest, k);
        assert(entries.last() == entries[entries.len() - 1]);
    }
}

proof fn lemma_contents_absent(entries: Seq<MemoryEntry>, a: SymExpr)
    requires
        forall|k: int| 0 <= k < entries.len() ==> entries[k].addr != a,
    ensures
        !contents_of(entries).contains_key(a),
    decreases entries.len(),
{
    if entries.len() > 0 {
        let rest = entries.drop_last();
        assert forall|k: int| 0 <= k < rest.len() implies rest[k].addr != a by {
            assert(rest[k] == entries[k]);
        }
        lemma_contents_absent(rest, a);
    }
}

proof fn lemma_contents_update(entries: Seq<MemoryEntry>, k: int, e: MemoryEntry)
    requires
        addresses_unique(entries),
        0 <= k < entries.len(),
        e.addr == entries[k].addr,
    ensures
        contents_of(entries.update(k, e)) =~= contents_of(entries).insert(e.addr, e.value),
    decreases entries.len(),
{
    let updated = entries.update(k, e);
    assert(updated.drop_last() =~= if k < entries.len() - 1 {
        entries.drop_last().update(k, e)
    } else {
        entries.drop_last()
    });
    if k < entries.len() - 1 {
        let rest = entries.drop_last();
        assert(rest[k] == entries[k]);
        lemma_contents_update(rest, k, e);
        assert(entries.last() == entries[entries.len() - 1]);
        assert(entries.last().addr != e.addr);
    }
}

proof fn lemma_contents_push(entries: Seq<MemoryEntry>, e: MemoryEntry)
    ensures
        contents_of(entries.push(e)) == contents_of(entries).insert(e.addr, e.value),
{
    assert(entries.push(e).drop_last() =~= entries);
}

/// The fresh symbol of width `d` that the memory would generate next.
pub open spec fn default_symbol(m: MemoryView, d: DataType) -> SymExpr {
    SymExpr::Sym(Symbol(d, m.namespace, m.symbols as usize))
}

/// What reading `d` bytes at `addr` returns: the value held there, cast to
/// width `d` where it differs, or else the next default symbol.
pub open spec fn read_value(m: MemoryView, addr: SymExpr, d: DataType) -> SymExpr {
    if m.contents.contains_key(addr) {
        fit(m.contents[addr], d)
    } else {
        default_symbol(m, d)
    }
}

/// The memory after reading at `addr`: unchanged where the address holds a
/// value, else holding there the default symbol that the read returned.
pub open spec fn after_read(m: MemoryView, addr: SymExpr, d: DataType) -> MemoryView {
    if m.contents.contains_key(addr) {
        m
    } else {
        MemoryView {
            contents: m.contents.insert(addr, default_symbol(m, d)),
            entries: m.entries.push(MemoryEntry { addr, value: default_symbol(m, d), epoch: 0 }),
            symbols: m.symbols + 1,
            ..m
        }
    }
}

/// Some entry has the address expression `addr`.
pub open spec fn has_entry(m: MemoryView, addr: SymExpr) -> bool {
    exists|k: int| 0 <= k < m.entries.len() && (#[trigger] m.entries[k]).addr == addr
}

/// The memory after writing `value` at `addr`: the entry with that address
/// expression is replaced, with the current epoch; otherwise a new entry with
/// the current epoch is appended and the epoch advances.
pub open spec fn after_write(m: MemoryView, addr: SymExpr, value: SymExpr) -> MemoryView {
    let e = MemoryEntry { addr, value, epoch: m.epoch };
    if has_entry(m, addr) {
        let k = choose|k: int| 0 <= k < m.entries.len() && (#[trigger] m.entries[k]).addr == addr;
        MemoryView { contents: m.contents.insert(addr, value), entries: m.entries.update(k, e), ..m }
    } else {
        MemoryView {
            contents: m.contents.insert(addr, value),
            entries: m.entries.push(e),
            epoch: if m.epoch < u64::MAX { (m.epoch + 1) as u64 } else { m.epoch },
            ..m
        }
    }
}

/// Well-formedness of a memory: at most one entry per address expression, and
/// an epoch counter of at least one, so that every write takes a nonzero epoch
/// and shadows the default symbols, which have epoch zero.
pub open spec fn memory_wf(m: MemoryView) -> bool {
    addresses_unique(m.entries) && m.epoch >= 1
}

impl View for SymMemory {
    type V = MemoryView;

    closed spec fn view(&self) -> MemoryView {
        MemoryView {
            contents: contents_of(self.entries@),
            entries: self.entries@,
            epoch: self.epoch,
            symbols: self.symbols as nat,
            namespace: self.namespace,
            strategy: self.strategy,
        }
    }
}

impl SymMemory {
    /// Well-formedness: no two entries have the same address expression.
    pub open spec fn wf(&self) -> bool {
        memory_wf(self@)
    }

    /// Every address that the memory holds a value at has an entry.
    pub proof fn lemma_contents_have_entries(&self)
        requires
            self.wf(),
        ensures
            forall|a: SymExpr| #[trigger] self@.contents.contains_key(a) ==> has_entry(self@, a),
    {
        assert forall|a: SymExpr| #[trigger] self@.contents.contains_key(a) implies has_entry(self@, a) by {
            if !has_entry(self@, a) {
                lemma_contents_absent(self.entries@, a);
            }
        }
    }

    /// Create a new blank memory whose default symbols live in `namespace` and
    /// whose reads follow `strategy`.
    pub fn new(namespace: Namespace, strategy: MemoryStrategy) -> (r: SymMemory)
        ensures
            r.wf(),
            r@.contents == Map::<SymExpr, SymExpr>::empty(),
            r@.entries == Seq::<MemoryEntry>::empty(),
            r@.epoch == 1,
            r@.symbols == 0,
            r@.namespace == namespace,
            r@.strategy == strategy,
    {
        let r = SymMemory { namespace, strategy, entries: Vec::new(), symbols: 0, epoch: 1 };
        assert(r.entries@.len() == 0);
        r
    }

    /// Read `data_type` bytes from a fixed address, under the memory's strategy.
    pub fn read_direct<S: Solver>(&mut self, addr: u64, data_type: DataType, solver: &S) -> (r: SymExpr)
        requires
            old(self).wf(),
            old(self)@.symbols < usize::MAX,
        ensures
            final(self).wf(),
            exists|ans: Seq<Option<SymCond>>|
                #![trigger mem_read(old(self)@, SymExpr::Int(Integer(DataType::N64, addr)), data_type, ans)]
                ans.len() == old(self)@.entries.len() && r == mem_read(
                    old(self)@,
                    SymExpr::Int(Integer(DataType::N64, addr)),
                    data_type,
                    ans,
                ) && final(self)@ == mem_after_read(
                    old(self)@,
                    SymExpr::Int(Integer(DataType::N64, addr)),
                    data_type,
                    ans,
                ),
    {
        self.read_expr(SymExpr::from_ptr(addr), data_type, solver)
    }

    /// Read `data_type` bytes at an address expression, under the memory's
    /// strategy. A conditional-tree read asks the solver, for each entry whose
    /// address is not identical, whether the addresses can be equal, and if so
    /// for the simplified equality condition; what holds is stated for every
    /// answer the solver may give.
    pub fn read_expr<S: Solver>(&mut self, addr: SymExpr, data_type: DataType, solver: &S) -> (r: SymExpr)
        requires
            old(self).wf(),
            old(self)@.symbols < usize::MAX,
        ensures
            final(self).wf(),
            exists|ans: Seq<Option<SymCond>>|
                #![trigger mem_read(old(self)@, addr, data_type, ans)]
                ans.len() == old(self)@.entries.len() && r == mem_read(old(self)@, addr, data_type, ans)
                    && final(self)@ == mem_after_read(old(self)@, addr, data_type, ans),
    {
        let ghost m = self@;
        if self.strategy == MemoryStrategy::PerfectMatches {
            let r = self.read_perfect(addr, data_type);
            proof {
                let w = Seq::new(m.entries.len(), |i: int| None::<SymCond>);
                assert(r == mem_read(m, addr, data_type, w));
                assert(self@ == mem_after_read(m, addr, data_type, w));
            }
            return r;
        }
        let mut answers: Vec<Option<SymCond>> = Vec::new();
        let mut k: usize = 0;
        while k < self.entries.len()
            invariant
                *self == *old(self),
                k <= self.entries@.len(),
                answers@.len() == k,
            decreases self.entries@.len() - k,
        {
            if self.entries[k].addr.same(&addr) {
                answers.push(None);
            } else if solver.check_equal_sat(&self.entries[k].addr, &addr) {
                let c = SymCond::equal(self.entries[k].addr.duplicate(), addr.duplicate());
                answers.push(Some(solver.simplify_condition(&c)));
            } else {
                answers.push(None);
            }
            k = k + 1;
        }
        let ghost ans = answers@;
        let r = self.read_conditional(addr, data_type, answers);
        proof {
            assert(r == mem_read(m, addr, data_type, ans));
        }
        r
    }

    /// Read at an address expression as an if-then-else tree over the entries,
    /// newest first, given the solver's answers: `answers[i]` is `None` where
    /// entry `i`'s address cannot equal `addr`, else the simplified equality
    /// condition. An identical address counts as the condition that always
    /// holds. The tree ends at the first such condition with its value, or with
    /// a fresh default symbol, which is then remembered at `addr`.
    pub fn read_conditional(&mut self, addr: SymExpr, data_type: DataType, answers: Vec<Option<SymCond>>) -> (r: SymExpr)
        requires
            old(self).wf(),
            old(self)@.symbols < usize::MAX,
            answers@.len() == old(self)@.entries.len(),
        ensures
            final(self).wf(),
            r == fit(conditional_tree(old(self)@, addr, data_type, answers@), data_type),
            final(self)@ == after_conditional(old(self)@, addr, data_type, answers@),
    {
        let ghost m = self@;
        let ghost g = guards_of(m, addr, answers@);
        let mut guards: Vec<Option<SymCond>> = Vec::new();
        let mut cands: Vec<usize> = Vec::new();
        let mut found = false;
        let mut k: usize = 0;
        while k < self.entries.len()
            invariant
                *self == *old(self),
                m == self@,
                g == guards_of(m, addr, answers@),
                k <= self.entries@.len(),
                answers@.len() == self.entries@.len(),
                guards@ =~= g.take(k as int),
                cands@ == candidates(g, k as nat),
                found == (exists|j: int| 0 <= j < k && #[trigger] g[j] == Some(SymCond::True)),
            decreases self.entries@.len() - k,
        {
            let guard = if self.entries[k].addr.same(&addr) {
                Some(SymCond::True)
            } else {
                match &answers[k] {
                    Some(c) => Some(c.duplicate()),
                    None => None,
                }
            };
            assert(guard == g[k as int]);
            if let Some(c) = &guard {
                cands.push(k);
                if c.is_true() {
                    found = true;
                }
            }
            guards.push(guard);
            proof {
                assert(guards@ =~= g.take(k + 1));
                assert(candidates(g, (k + 1) as nat) == if g[k as int] is Some {
                    candidates(g, k as nat).push(k)
                } else {
                    candidates(g, k as nat)
                });
            }
            k = k + 1;
        }
        proof {
            assert(guards@ =~= g);
            lemma_candidates(g, g.len());
        }
        let fallback = SymExpr::Sym(Symbol(data_type, self.namespace, self.symbols));
        let tree = build_tree(&self.entries, &guards, cands, fallback.duplicate());
        if !found {
            proof {
                assert forall|j: int| 0 <= j < self.entries@.len() implies self.entries@[j].addr != addr by {
                    if self.entries@[j].addr == addr {
                        assert(g[j] == Some(SymCond::True));
                    }
                }
                lemma_contents_absent(self.entries@, addr);
            }
            let entry = MemoryEntry { addr, value: fallback, epoch: 0 };
            proof {
                lemma_contents_push(self.entries@, entry);
            }
            self.entries.push(entry);
            self.symbols = self.symbols + 1;
        }
        tree.cast(data_type, false)
    }

    /// Write a value to a fixed address.
    pub fn write_direct(&mut self, addr: u64, value: SymExpr)
        requires
            old(self).wf(),
        ensures
            final(self).wf(),
            final(self)@ == after_write(old(self)@, SymExpr::Int(Integer(DataType::N64, addr)), value),
    {
        self.write_expr(SymExpr::from_ptr(addr), value)
    }

    /// Read `data_type` bytes at an address expression, matching addresses
    /// syntactically.
    pub fn read_perfect(&mut self, addr: SymExpr, data_type: DataType) -> (r: SymExpr)
        requires
            old(self).wf(),
            old(self)@.symbols < usize::MAX,
        ensures
            final(self).wf(),
            r == read_value(old(self)@, addr, data_type),
            final(self)@ == after_read(old(self)@, addr, data_type),
    {
        let mut i: usize = 0;
        while i < self.entries.len()
            invariant
                self.wf(),
                *self == *old(self),
                i <= self.entries@.len(),
                forall|k: int| 0 <= k < i ==> self.entries@[k].addr != addr,
            decreases self.entries@.len() - i,
        {
            if self.entries[i].addr.same(&addr) {
                proof {
                    lemma_contents_lookup(self.entries@, i as int);
                }
                let value = self.entries[i].value.duplicate();
                return value.cast(data_type, false);
            }
            i = i + 1;
        }
        proof {
            lemma_contents_absent(self.entries@, addr);
        }
        let symbol = SymExpr::Sym(Symbol(data_type, self.namespace, self.symbols));
        let entry = MemoryEntry { addr, value: symbol.duplicate(), epoch: 0 };
        proof {
            lemma_contents_push(self.entries@, entry);
        }
        self.entries.push(entry);
        self.symbols = self.symbols + 1;
        symbol
    }

    /// Write a value to a symbolic address, replacing what an identical address
    /// expression held.
    pub fn write_expr(&mut self, addr: SymExpr, value: SymExpr)
        requires
            old(self).wf(),
        ensures
            final(self).wf(),
            final(self)@ == after_write(old(self)@, addr, value),
    {
        let mut i: usize = 0;
        while i < self.entries.len()
            invariant
                self.wf(),
                *self == *old(self),
                i <= self.entries@.len(),
                forall|k: int| 0 <= k < i ==> self.entries@[k].addr != addr,
            decreases self.entries@.len() - i,
        {
            if self.entries[i].addr.same(&addr) {
                let entry = MemoryEntry { addr, value, epoch: self.epoch };
                proof {
                    lemma_contents_update(self.entries@, i as int, entry);
                    assert(has_entry(self@, entry.addr));
                    let k = choose|k: int| 0 <= k < self.entries@.len() && (#[trigger] self.entries@[k]).addr == entry.addr;
                    assert(k == i);
                }
                self.entries.set(i, entry);
                return;
            }
            i = i + 1;
        }
        let entry = MemoryEntry { addr, value, epoch: self.epoch };
        proof {
            lemma_contents_push(self.entries@, entry);
            assert(!has_entry(self@, entry.addr));
        }
        self.entries.push(entry);
        proof {
            assert(addresses_unique(self.entries@));
        }
        if self.epoch < u64::MAX {
            self.epoch = self.epoch + 1;
        }
    }
}

/// The guard of each entry for a read at `addr`: always true at an identical
/// address expression, else the solver's answer (`None` where the addresses
/// cannot be equal).
pub open spec fn guards_of(m: MemoryView, addr: SymExpr, answers: Seq<Option<SymCond>>) -> Seq<Option<SymCond>> {
    Seq::new(
        m.entries.len(),
        |k: int| if m.entries[k].addr == addr { Some(SymCond::True) } else { answers[k] },
    )
}

/// The indices below `n` whose guard exists, in increasing order.
pub open spec fn candidates(g: Seq<Option<SymCond>>, n: nat) -> Seq<usize>
    decreases n,
{
    if n == 0 {
        Seq::empty()
    } else if g[n - 1] is Some {
        candidates(g, (n - 1) as nat).push((n - 1) as usize)
    } else {
        candidates(g, (n - 1) as nat)
    }
}

/// The position in `c` of the newest entry: the highest epoch, the first of
/// equal ones.
pub open spec fn newest(es: Seq<MemoryEntry>, c: Seq<usize>) -> int
    decreases c.len(),
{
    if c.len() <= 1 {
        0
    } else {
        let p = newest(es, c.drop_last());
        if es[c.last() as int].epoch > es[c[p] as int].epoch {
            c.len() - 1
        } else {
            p
        }
    }
}

/// The if-then-else tree over the candidates `c`, newest first: a true guard
/// ends it with its value, another guard chooses its value over the tree of the
/// older candidates, and `fallback` ends a tree without a true guard.
pub open spec fn tree(es: Seq<MemoryEntry>, g: Seq<Option<SymCond>>, c: Seq<usize>, fallback: SymExpr) -> SymExpr
    decreases c.len(),
{
    if c.len() == 0 {
        fallback
    } else {
        let p0 = newest(es, c);
        let p = if 0 <= p0 < c.len() { p0 } else { 0 };
        let k = c[p] as int;
        if g[k] == Some(SymCond::True) {
            es[k].value
        } else {
            SymExpr::Ite(Box::new(g[k]->Some_0), Box::new(es[k].value), Box::new(tree(es, g, c.remove(p), fallback)))
        }
    }
}

/// Some entry's guard for a read at `addr` is the condition that always holds.
pub open spec fn hits_true(m: MemoryView, addr: SymExpr, answers: Seq<Option<SymCond>>) -> bool {
    exists|k: int| 0 <= k < m.entries.len() && #[trigger] guards_of(m, addr, answers)[k] == Some(SymCond::True)
}

/// The expression that a conditional-tree read at `addr` builds from the
/// solver's answers, before it is cast to the width read.
pub open spec fn conditional_tree(m: MemoryView, addr: SymExpr, d: DataType, answers: Seq<Option<SymCond>>) -> SymExpr {
    let g = guards_of(m, addr, answers);
    tree(m.entries, g, candidates(g, g.len()), default_symbol(m, d))
}

/// The memory after a conditional-tree read: unchanged where a guard is true,
/// else holding the default symbol at `addr`.
pub open spec fn after_conditional(m: MemoryView, addr: SymExpr, d: DataType, answers: Seq<Option<SymCond>>) -> MemoryView {
    if hits_true(m, addr, answers) {
        m
    } else {
        after_read(m, addr, d)
    }
}

/// What a read returns under the memory's strategy, given the solver's answers
/// (which a perfect-match read does not use).
pub open spec fn mem_read(m: MemoryView, addr: SymExpr, d: DataType, answers: Seq<Option<SymCond>>) -> SymExpr {
    if m.strategy == MemoryStrategy::PerfectMatches {
        read_value(m, addr, d)
    } else {
        fit(conditional_tree(m, addr, d, answers), d)
    }
}

/// The memory after a read under its strategy, given the solver's answers.
pub open spec fn mem_after_read(m: MemoryView, addr: SymExpr, d: DataType, answers: Seq<Option<SymCond>>) -> MemoryView {
    if m.strategy == MemoryStrategy::PerfectMatches {
        after_read(m, addr, d)
    } else {
        after_conditional(m, addr, d, answers)
    }
}

proof fn lemma_newest_range(es: Seq<MemoryEntry>, c: Seq<usize>)
    requires
        c.len() >= 1,
    ensures
        0 <= newest(es, c) < c.len(),
    decreases c.len(),
{
    if c.len() > 1 {
        lemma_newest_range(es, c.drop_last());
    }
}

proof fn lemma_candidates(g: Seq<Option<SymCond>>, n: nat)
    requires
        n <= g.len(),
        g.len() <= usize::MAX,
    ensures
        forall|j: int| 0 <= j < candidates(g, n).len() ==> (#[trigger] candidates(g, n)[j]) < n && g[candidates(g, n)[j] as int] is Some,
    decreases n,
{
    if n > 0 {
        lemma_candidates(g, (n - 1) as nat);
        let prev = candidates(g, (n - 1) as nat);
        let c = candidates(g, n);
        assert forall|j: int| 0 <= j < c.len() implies (#[trigger] c[j]) < n && g[c[j] as int] is Some by {
            if j < prev.len() {
                assert(c[j] == prev[j]);
            }
        }
    }
}

/// Build the tree over the candidates `c`.
fn build_tree(es: &Vec<MemoryEntry>, g: &Vec<Option<SymCond>>, c: Vec<usize>, fallback: SymExpr) -> (r: SymExpr)
    requires
        forall|j: int| 0 <= j < c@.len() ==> (#[trigger] c@[j]) < es@.len() && c@[j] < g@.len() && g@[c@[j] as int] is Some,
    ensures
        r == tree(es@, g@, c@, fallback),
    decreases c@.len(),
{
    if c.len() == 0 {
        return fallback;
    }
    let mut best: usize = 0;
    let mut i: usize = 1;
    while i < c.len()
        invariant
            1 <= i <= c@.len(),
            best == newest(es@, c@.take(i as int)),
            0 <= best < i,
            forall|j: int| 0 <= j < c@.len() ==> (#[trigger] c@[j]) < es@.len(),
        decreases c@.len() - i,
    {
        proof {
            let t = c@.take(i + 1);
            assert(t.drop_last() =~= c@.take(i as int));
            assert(t.last() == c@[i as int]);
            assert(t[best as int] == c@[best as int]);
        }
        if es[c[i]].epoch > es[c[best]].epoch {
            best = i;
        }
        i = i + 1;
    }
    proof {
        assert(c@.take(c@.len() as int) =~= c@);
        lemma_newest_range(es@, c@);
    }
    let k = c[best];
    match &g[k] {
        Some(cond) => {
            if cond.is_true() {
                es[k].value.duplicate()
            } else {
                let mut rest = c;
                rest.remove(best);
                let older = build_tree(es, g, rest, fallback);
                SymExpr::Ite(Box::new(cond.duplicate()), Box::new(es[k].value.duplicate()), Box::new(older))
            }
        },
        None => {
            proof {
                assert(false);
            }
            fallback
        },
    }
}

/// The solver that a conditional-tree read consults.
pub trait Solver {
    /// Whether the two address expressions can be equal.
    fn check_equal_sat(&self, a: &SymExpr, b: &SymExpr) -> bool;

    /// A simpler form of the condition.
    fn simplify_condition(&self, c: &SymCond) -> SymCond;
}

/// Reads are memoized: reading twice at one address and width, with no write
/// in between, returns the same expression both times.
pub proof fn lemma_read_twice(m: MemoryView, addr: SymExpr, d: DataType)
    ensures
        read_value(after_read(m, addr, d), addr, d) == read_value(m, addr, d),
{
}

/// A read at the address expression of a write, at the written value's width,
/// returns the written value.
pub proof fn lemma_write_then_read(m: MemoryView, addr: SymExpr, value: SymExpr)
    ensures
        read_value(after_write(m, addr, value), addr, expr_width(value)) == value,
{
}

/// Of two writes at one address expression, a later read sees the last one.
pub proof fn lemma_last_write_wins(m: MemoryView, addr: SymExpr, first: SymExpr, second: SymExpr)
    ensures
        read_value(
            after_write(after_write(m, addr, first), addr, second),
            addr,
            expr_width(second),
        ) == second,
{
}

/// A read returns a value of the width read.
pub proof fn lemma_read_width(m: MemoryView, addr: SymExpr, d: DataType)
    ensures
        expr_width(read_value(m, addr, d)) == d,
{
}

/// A cast yields a value of the width cast to.
pub proof fn lemma_cast_width(e: SymExpr, d: DataType, signed: bool)
    ensures
        expr_width(cast_expr(e, d, signed)) == d,
{
}

/// Whether the symbol occurs in the expression.
pub open spec fn occurs(e: SymExpr, s: Symbol) -> bool
    decreases e,
{
    match e {
        SymExpr::Int(_) => false,
        SymExpr::Sym(x) => x == s,
        SymExpr::Bin(_, a, b) => occurs(*a, s) || occurs(*b, s),
        SymExpr::Not(a) => occurs(*a, s),
        SymExpr::Cast(a, _, _) => occurs(*a, s),
        SymExpr::Flag(_, _, a, b, _) => occurs(*a, s) || occurs(*b, s),
        SymExpr::Ite(c, a, b) => cond_occurs(*c, s) || occurs(*a, s) || occurs(*b, s),
    }
}

/// Whether the symbol occurs in the condition.
pub open spec fn cond_occurs(c: SymCond, s: Symbol) -> bool
    decreases c,
{
    match c {
        SymCond::True => false,
        SymCond::Equal(a, b) => occurs(*a, s) || occurs(*b, s),
    }
}

impl SymExpr {
    /// Whether the symbol occurs in the expression.
    pub fn contains_symbol(&self, s: Symbol) -> (r: bool)
        ensures
            r == occurs(*self, s),
        decreases self,
    {
        match self {
            SymExpr::Int(_) => false,
            SymExpr::Sym(x) => *x == s,
            SymExpr::Bin(_, a, b) => a.contains_symbol(s) || b.contains_symbol(s),
            SymExpr::Not(a) => a.contains_symbol(s),
            SymExpr::Cast(a, _, _) => a.contains_symbol(s),
            SymExpr::Flag(_, _, a, b, _) => a.contains_symbol(s) || b.contains_symbol(s),
            SymExpr::Ite(c, a, b) => c.contains_symbol(s) || a.contains_symbol(s) || b.contains_symbol(s),
        }
    }
}

impl SymCond {
    /// The condition that the two expressions are equal.
    pub fn equal(a: SymExpr, b: SymExpr) -> (r: SymCond)
        ensures
            r == SymCond::Equal(Box::new(a), Box::new(b)),
    {
        SymCond::Equal(Box::new(a), Box::new(b))
    }

    /// Whether the condition is the condition that always holds.
    pub fn is_true(&self) -> (r: bool)
        ensures
            r == (*self is True),
    {
        match self {
            SymCond::True => true,
            _ => false,
        }
    }

    /// Whether the symbol occurs in the condition.
    pub fn contains_symbol(&self, s: Symbol) -> (r: bool)
        ensures
            r == cond_occurs(*self, s),
        decreases self,
    {
        match self {
            SymCond::True => false,
            SymCond::Equal(a, b) => a.contains_symbol(s) || b.contains_symbol(s),
        }
    }

    /// A copy of the condition.
    pub fn duplicate(&self) -> (r: SymCond)
        ensures
            r == *self,
        decreases self,
    {
        match self {
            SymCond::True => SymCond::True,
            SymCond::Equal(a, b) => SymCond::Equal(Box::new(a.duplicate()), Box::new(b.duplicate())),
        }
    }

    /// Whether the two conditions are syntactically equal.
    pub fn same(&self, other: &SymCond) -> (r: bool)
        ensures
            r == (*self == *other),
        decreases self,
    {
        match (self, other) {
            (SymCond::True, SymCond::True) => true,
            (SymCond::Equal(a1, b1), SymCond::Equal(a2, b2)) => {
                let r = a1.same(a2) && b1.same(b2);
                proof {
                    if r {
                        assert(*self == *other);
                    }
                }
                r
            },
            _ => false,
        }
    }
}

impl Clone for SymCond {
    fn clone(&self) -> (r: SymCond)
        ensures
            r == *self,
    {
        self.duplicate()
    }
}

impl PartialEq for SymCond {
    fn eq(&self, other: &SymCond) -> (r: bool) {
        self.same(other)
    }
}

impl Eq for SymCond {}

impl vstd::std_specs::cmp::PartialEqSpecImpl for SymCond {
    open spec fn obeys_eq_spec() -> bool {
        true
    }

    open spec fn eq_spec(&self, other: &SymCond) -> bool {
        *self == *other
    }
}

/// Zero-extending a value that fits its width keeps the value.
pub proof fn lemma_zero_extend(v: u64, from: DataType, to: DataType)
    requires
        (v as int) < modulus(from),
        modulus(from) <= modulus(to),
    ensures
        cast_bits(v, from, to, false) == v,
{
    vstd::arithmetic::div_mod::lemma_small_mod(v as nat, modulus(from) as nat);
    vstd::arithmetic::div_mod::lemma_small_mod(v as nat, modulus(to) as nat);
}

/// A read under either strategy returns a value of the width read.
pub proof fn lemma_mem_read_width(m: MemoryView, addr: SymExpr, d: DataType, ans: Seq<Option<SymCond>>)
    ensures
        expr_width(mem_read(m, addr, d, ans)) == d,
{
    lemma_cast_width(conditional_tree(m, addr, d, ans), d, false);
}

proof fn lemma_candidates_prefix(g: Seq<Option<SymCond>>, x: Option<SymCond>, n: nat)
    requires
        n <= g.len(),
    ensures
        candidates(g.push(x), n) == candidates(g, n),
    decreases n,
{
    if n > 0 {
        lemma_candidates_prefix(g, x, (n - 1) as nat);
        assert(g.push(x)[n - 1] == g[n - 1]);
    }
}

proof fn lemma_newest_prefix(es: Seq<MemoryEntry>, e: MemoryEntry, c: Seq<usize>)
    requires
        forall|j: int| 0 <= j < c.len() ==> (#[trigger] c[j] as int) < es.len(),
    ensures
        newest(es.push(e), c) == newest(es, c),
    decreases c.len(),
{
    if c.len() > 1 {
        lemma_newest_prefix(es, e, c.drop_last());
        lemma_newest_range(es, c.drop_last());
        assert(c.drop_last()[newest(es, c.drop_last())] == c[newest(es, c.drop_last())]);
        assert(es.push(e)[c.last() as int] == es[c.last() as int]);
        let p = newest(es, c.drop_last());
        assert(es.push(e)[c[p] as int] == es[c[p] as int]);
    }
}

/// A remembered default symbol, with epoch zero and the last index, ends the
/// tree as the fallback did.
proof fn lemma_tree_remembered(
    es: Seq<MemoryEntry>,
    g: Seq<Option<SymCond>>,
    c: Seq<usize>,
    e: MemoryEntry,
    f: SymExpr,
)
    requires
        e.epoch == 0,
        es.len() == g.len(),
        es.len() < usize::MAX,
        forall|j: int| 0 <= j < c.len() ==> (#[trigger] c[j] as int) < es.len() && g[c[j] as int] is Some
            && g[c[j] as int] != Some(SymCond::True),
    ensures
        tree(es.push(e), g.push(Some(SymCond::True)), c.push(es.len() as usize), f) == tree(es, g, c, e.value),
    decreases c.len(),
{
    let es2 = es.push(e);
    let g2 = g.push(Some(SymCond::True));
    let n = es.len() as usize;
    let c2 = c.push(n);
    lemma_newest_range(es2, c2);
    if c.len() == 0 {
        assert(newest(es2, c2) == 0);
        assert(c2[0] == n);
    } else {
        lemma_newest_prefix(es, e, c);
        lemma_newest_range(es, c);
        let p = newest(es, c);
        assert(c2.drop_last() =~= c);
        assert(c2[p] == c[p]);
        assert(newest(es2, c2) == p);
        let k = c[p] as int;
        assert(g2[k] == g[k]);
        assert(es2[k] == es[k]);
        let rest = c.remove(p);
        assert(c2.remove(p) =~= rest.push(n));
        assert forall|j: int| 0 <= j < rest.len() implies (#[trigger] rest[j] as int) < es.len() && g[rest[j] as int] is Some
            && g[rest[j] as int] != Some(SymCond::True) by {
            if j < p {
                assert(rest[j] == c[j]);
            } else {
                assert(rest[j] == c[j + 1]);
            }
        }
        lemma_tree_remembered(es, g, rest, e, f);
    }
}

/// Conditional-tree reads are memoized: a second read at the same address and
/// width, with no write in between and the solver answering as before for the
/// entries that were there, returns the same expression and changes nothing.
pub proof fn lemma_conditional_read_twice(
    m: MemoryView,
    addr: SymExpr,
    d: DataType,
    ans: Seq<Option<SymCond>>,
    again: Seq<Option<SymCond>>,
)
    requires
        ans.len() == m.entries.len(),
        m.entries.len() + 1 < usize::MAX,
        m.contents.contains_key(addr) ==> has_entry(m, addr),
        again.len() == after_conditional(m, addr, d, ans).entries.len(),
        forall|k: int| 0 <= k < ans.len() ==> again[k] == ans[k],
    ensures
        ({
            let m1 = after_conditional(m, addr, d, ans);
            &&& conditional_tree(m1, addr, d, again) == conditional_tree(m, addr, d, ans)
            &&& after_conditional(m1, addr, d, again) == m1
        }),
{
    let m1 = after_conditional(m, addr, d, ans);
    let g = guards_of(m, addr, ans);
    if hits_true(m, addr, ans) {
        assert(guards_of(m1, addr, again) =~= g);
        let k = choose|k: int| 0 <= k < m.entries.len() && #[trigger] guards_of(m, addr, ans)[k] == Some(SymCond::True);
        assert(guards_of(m1, addr, again)[k] == Some(SymCond::True));
    } else {
        let e = MemoryEntry { addr, value: default_symbol(m, d), epoch: 0 };
        if has_entry(m, addr) {
            let k = choose|k: int| 0 <= k < m.entries.len() && (#[trigger] m.entries[k]).addr == addr;
            assert(g[k] == Some(SymCond::True));
        }
        let g1 = guards_of(m1, addr, again);
        assert(m1.entries == m.entries.push(e));
        assert(g1 =~= g.push(Some(SymCond::True)));
        let n = m.entries.len();
        lemma_candidates_prefix(g, Some(SymCond::True), n);
        assert(candidates(g1, n + 1) == candidates(g, n).push(n as usize));
        lemma_candidates(g, n);
        let c = candidates(g, n);
        assert forall|j: int| 0 <= j < c.len() implies (#[trigger] c[j] as int) < m.entries.len() && g[c[j] as int] is Some
            && g[c[j] as int] != Some(SymCond::True) by {
            if g[c[j] as int] == Some(SymCond::True) {
                assert(guards_of(m, addr, ans)[c[j] as int] == Some(SymCond::True));
            }
        }
        lemma_tree_remembered(m.entries, g, c, e, default_symbol(m1, d));
        assert(g1[n as int] == Some(SymCond::True));
        assert(hits_true(m1, addr, again));
    }
}

proof fn lemma_candidates_contain(g: Seq<Option<SymCond>>, n: nat, k: int)
    requires
        n <= g.len(),
        g.len() <= usize::MAX,
        0 <= k < n,
        g[k] is Some,
    ensures
        exists|j: int| 0 <= j < candidates(g, n).len() && #[trigger] candidates(g, n)[j] as int == k,
    decreases n,
{
    let c = candidates(g, n);
    if k == n - 1 {
        assert(c[c.len() - 1] as int == k);
    } else {
        lemma_candidates_contain(g, (n - 1) as nat, k);
        let prev = candidates(g, (n - 1) as nat);
        let j = choose|j: int| 0 <= j < prev.len() && #[trigger] prev[j] as int == k;
        assert(c[j] == prev[j]);
    }
}

proof fn lemma_newest_is_max(es: Seq<MemoryEntry>, c: Seq<usize>, w: usize)
    requires
        exists|j: int| 0 <= j < c.len() && #[trigger] c[j] == w,
        forall|j: int| 0 <= j < c.len() ==> (#[trigger] c[j] as int) < es.len(),
        (w as int) < es.len(),
        forall|j: int| 0 <= j < c.len() && #[trigger] c[j] != w ==> es[c[j] as int].epoch < es[w as int].epoch,
    ensures
        0 <= newest(es, c) < c.len(),
        c[newest(es, c)] == w,
    decreases c.len(),
{
    lemma_newest_range(es, c);
    if c.len() > 1 {
        let d = c.drop_last();
        if exists|j: int| 0 <= j < d.len() && #[trigger] d[j] == w {
            assert forall|j: int| 0 <= j < d.len() && #[trigger] d[j] != w implies es[d[j] as int].epoch < es[w as int].epoch by {
                assert(d[j] == c[j]);
            }
            lemma_newest_is_max(es, d, w);
            assert(c[newest(es, d)] == d[newest(es, d)]);
        } else {
            let j = choose|j: int| 0 <= j < c.len() && #[trigger] c[j] == w;
            if j < d.len() {
                assert(d[j] == c[j]);
            }
            lemma_newest_range(es, d);
            let p = newest(es, d);
            assert(d[p] == c[p]);
            assert(c[p] != w);
        }
    }
}

/// Under conditional trees, a read at the address expression of a write, at
/// the written value's width, returns the written value, provided no entry at
/// another address holds an epoch as new as the write's.
pub proof fn lemma_conditional_write_then_read(
    m: MemoryView,
    addr: SymExpr,
    value: SymExpr,
    ans: Seq<Option<SymCond>>,
)
    requires
        m.entries.len() + 1 < usize::MAX,
        addresses_unique(m.entries),
        forall|k: int| 0 <= k < m.entries.len() && (#[trigger] m.entries[k]).addr != addr ==> m.entries[k].epoch < m.epoch,
        ans.len() == after_write(m, addr, value).entries.len(),
    ensures
        fit(conditional_tree(after_write(m, addr, value), addr, expr_width(value), ans), expr_width(value)) == value,
{
    let m2 = after_write(m, addr, value);
    let g = guards_of(m2, addr, ans);
    let n = m2.entries.len();
    let w: int = if has_entry(m, addr) {
        choose|k: int| 0 <= k < m.entries.len() && (#[trigger] m.entries[k]).addr == addr
    } else {
        m.entries.len() as int
    };
    assert(m2.entries[w].addr == addr && m2.entries[w].value == value && m2.entries[w].epoch == m.epoch);
    assert(g[w] == Some(SymCond::True));
    lemma_candidates(g, n);
    lemma_candidates_contain(g, n, w);
    let c = candidates(g, n);
    assert forall|j: int| 0 <= j < c.len() && #[trigger] c[j] != w as usize implies m2.entries[c[j] as int].epoch
        < m2.entries[w].epoch by {
        let k = c[j] as int;
        assert(k != w);
        if has_entry(m, addr) {
            assert(m2.entries[k] == m.entries[k]);
        } else {
            assert(m2.entries[k] == m.entries[k]);
        }
    }
    lemma_newest_is_max(m2.entries, c, w as usize);
}

/// Under conditional trees, of two writes at one address expression a later
/// read sees the last one, provided no entry at another address holds an epoch
/// as new as the first write's.
pub proof fn lemma_conditional_last_write_wins(
    m: MemoryView,
    addr: SymExpr,
    first: SymExpr,
    second: SymExpr,
    ans: Seq<Option<SymCond>>,
)
    requires
        m.entries.len() + 2 < usize::MAX,
        addresses_unique(m.entries),
        forall|k: int| 0 <= k < m.entries.len() && (#[trigger] m.entries[k]).addr != addr ==> m.entries[k].epoch < m.epoch,
        ans.len() == after_write(after_write(m, addr, first), addr, second).entries.len(),
    ensures
        fit(
            conditional_tree(after_write(after_write(m, addr, first), addr, second), addr, expr_width(second), ans),
            expr_width(second),
        ) == second,
{
    let m1 = after_write(m, addr, first);
    if has_entry(m, addr) {
        let w = choose|k: int| 0 <= k < m.entries.len() && (#[trigger] m.entries[k]).addr == addr;
        assert forall|i: int, j: int|
            0 <= i < m1.entries.len() && 0 <= j < m1.entries.len() && i != j implies (#[trigger] m1.entries[i]).addr
                != (#[trigger] m1.entries[j]).addr by {
            if i != w && j != w {
                assert(m1.entries[i] == m.entries[i] && m1.entries[j] == m.entries[j]);
            } else if i == w {
                assert(m1.entries[j] == m.entries[j]);
            } else {
                assert(m1.entries[i] == m.entries[i]);
            }
        }
        assert forall|k: int| 0 <= k < m1.entries.len() && (#[trigger] m1.entries[k]).addr != addr implies m1.entries[k].epoch
            < m1.epoch by {
            assert(m1.entries[k] == m.entries[k]);
        }
    } else {
        assert forall|i: int, j: int|
            0 <= i < m1.entries.len() && 0 <= j < m1.entries.len() && i != j implies (#[trigger] m1.entries[i]).addr
                != (#[trigger] m1.entries[j]).addr by {
            if i < m.entries.len() && j < m.entries.len() {
                assert(m1.entries[i] == m.entries[i] && m1.entries[j] == m.entries[j]);
            } else if i < m.entries.len() {
                assert(m1.entries[i] == m.entries[i]);
                assert(!(m.entries[i].addr == addr));
            } else {
                assert(m1.entries[j] == m.entries[j]);
                assert(!(m.entries[j].addr == addr));
            }
        }
        assert forall|k: int| 0 <= k < m1.entries.len() && (#[trigger] m1.entries[k]).addr != addr implies m1.entries[k].epoch
            < m1.epoch by {
            assert(m1.entries[k] == m.entries[k]);
        }
    }
    lemma_conditional_write_then_read(m1, addr, second, ans);
}

} // verus!
