//! Text rendering of widths, integers, temporaries, locations and microcode.

use vstd::prelude::*;
use vstd::string::StringExecFns;
use crate::num::{DataType, Integer};
use crate::ir::{Comparison, Condition, EncodeError, Location, MicroOperation, Microcode, Temporary};

verus! {

/// The name of a width.
pub open spec fn width_text(d: DataType) -> Seq<char> {
    match d {
        DataType::N8 => "n8"@,
        DataType::N16 => "n16"@,
        DataType::N32 => "n32"@,
        DataType::N64 => "n64"@,
    }
}

/// The name of a width.
pub fn width_str(d: DataType) -> (r: &'static str)
    ensures
        r@ == width_text(d),
{
    match d {
        DataType::N8 => "n8",
        DataType::N16 => "n16",
        DataType::N32 => "n32",
        DataType::N64 => "n64",
    }
}

/// Message of the error for a move between locations of different widths.
pub open spec fn move_error_text(src: DataType, dest: DataType) -> Seq<char> {
    "incompatible data types for move: "@ + width_text(src) + " and "@ + width_text(dest)
}

/// Message of the error for a move between locations of different widths.
pub fn move_error_message(src: DataType, dest: DataType) -> (r: String)
    ensures
        r@ == move_error_text(src, dest),
{
    let mut s = String::from_str("incompatible data types for move: ");
    s.append(width_str(src));
    s.append(" and ");
    s.append(width_str(dest));
    s
}

/// A digit of a number written in base 16, lower case.
pub open spec fn hex_digit_text(d: nat) -> Seq<char> {
    if d == 0 { "0"@ } else if d == 1 { "1"@ } else if d == 2 { "2"@ } else if d == 3 { "3"@ }
    else if d == 4 { "4"@ } else if d == 5 { "5"@ } else if d == 6 { "6"@ } else if d == 7 { "7"@ }
    else if d == 8 { "8"@ } else if d == 9 { "9"@ } else if d == 10 { "a"@ } else if d == 11 { "b"@ }
    else if d == 12 { "c"@ } else if d == 13 { "d"@ } else if d == 14 { "e"@ } else { "f"@ }
}

/// The digits of `v` in base 16, most significant first, without leading
/// zeros; zero is written as one digit.
pub open spec fn hex_digits(v: nat) -> Seq<char>
    decreases v,
{
    if v < 16 {
        hex_digit_text(v)
    } else {
        hex_digits(v / 16) + hex_digit_text(v % 16)
    }
}

/// The digits of `v` in base 10, most significant first, without leading
/// zeros; zero is written as one digit.
pub open spec fn dec_digits(v: nat) -> Seq<char>
    decreases v,
{
    if v < 10 {
        hex_digit_text(v)
    } else {
        dec_digits(v / 10) + hex_digit_text(v % 10)
    }
}

/// A number in base 16 with the `0x` prefix.
pub open spec fn hex_text(v: nat) -> Seq<char> {
    "0x"@ + hex_digits(v)
}

/// A number in base 10.
pub open spec fn dec_text(v: nat) -> Seq<char> {
    dec_digits(v)
}

/// The digit for a value below sixteen.
fn digit_str(d: u64) -> (r: &'static str)
    requires
        d < 16,
    ensures
        r@ == hex_digit_text(d as nat),
{
    if d == 0 { "0" } else if d == 1 { "1" } else if d == 2 { "2" } else if d == 3 { "3" }
    else if d == 4 { "4" } else if d == 5 { "5" } else if d == 6 { "6" } else if d == 7 { "7" }
    else if d == 8 { "8" } else if d == 9 { "9" } else if d == 10 { "a" } else if d == 11 { "b" }
    else if d == 12 { "c" } else if d == 13 { "d" } else if d == 14 { "e" } else { "f" }
}

/// Append the base-16 digits of a number.
fn push_hex(s: &mut String, v: u64)
    ensures
        final(s)@ == old(s)@ + hex_digits(v as nat),
    decreases v,
{
    if v >= 16 {
        push_hex(s, v / 16);
    }
    s.append(digit_str(v % 16));
}

/// Append the base-10 digits of a number.
fn push_dec(s: &mut String, v: u64)
    ensures
        final(s)@ == old(s)@ + dec_digits(v as nat),
    decreases v,
{
    if v >= 10 {
        push_dec(s, v / 10);
    }
    s.append(digit_str(v % 10));
}

/// The text of a temporary: `T<index>:<width>`.
pub open spec fn temp_text(t: Temporary) -> Seq<char> {
    "T"@ + dec_text(t.1 as nat) + ":"@ + width_text(t.0)
}

/// The text of an integer: `<hex>:<width>`.
pub open spec fn integer_text(i: Integer) -> Seq<char> {
    hex_text(i.1 as nat) + ":"@ + width_text(i.0)
}

/// The text of a location.
pub open spec fn location_text(l: Location) -> Seq<char> {
    match l {
        Location::Temp(t) => temp_text(t),
        Location::Direct(d, space, addr) => "[m"@ + dec_text(space as nat) + "]["@ + hex_text(
            addr as nat,
        ) + ":"@ + width_text(d) + "]"@,
        Location::Indirect(d, space, t) => "[m"@ + dec_text(space as nat) + "][("@ + temp_text(t)
            + "):"@ + width_text(d) + "]"@,
    }
}

/// The text of a comparison.
pub open spec fn comparison_text(c: Comparison) -> Seq<char> {
    match c {
        Comparison::Add(a, b) => temp_text(a) + " + "@ + temp_text(b),
        Comparison::Sub(a, b) => temp_text(a) + " - "@ + temp_text(b),
        Comparison::Mul(a, b) => temp_text(a) + " * "@ + temp_text(b),
        Comparison::And(a, b) => temp_text(a) + " & "@ + temp_text(b),
    }
}

/// The text of a condition.
pub open spec fn condition_text(c: Condition) -> Seq<char> {
    match c {
        Condition::True => "true"@,
        Condition::Equal(cmp) => comparison_text(cmp) + " equal"@,
        Condition::Greater(cmp) => comparison_text(cmp) + " greater"@,
        Condition::Less(cmp) => comparison_text(cmp) + " less"@,
    }
}

/// The guard that follows a set or a jump: nothing for an unconditional one.
pub open spec fn guard_text(c: Condition) -> Seq<char> {
    if c is True {
        Seq::empty()
    } else {
        " if "@ + condition_text(c)
    }
}

/// The text of a binary micro-operation.
pub open spec fn binop_text(name: Seq<char>, r: Temporary, a: Temporary, sym: Seq<char>, b: Temporary) -> Seq<char> {
    name + " "@ + temp_text(r) + " = "@ + temp_text(a) + sym + temp_text(b)
}

/// The text of a micro-operation.
pub open spec fn op_text(op: MicroOperation) -> Seq<char> {
    match op {
        MicroOperation::Mov { dest, src } => "mov "@ + location_text(dest) + " = "@ + location_text(src),
        MicroOperation::Const { dest, constant } => "const "@ + location_text(dest) + " = "@
            + integer_text(constant),
        MicroOperation::Cast { target, new, signed } => "cast "@ + temp_text(target) + " to "@
            + width_text(new) + if signed { " signed"@ } else { " unsigned"@ },
        MicroOperation::Add { sum, a, b } => binop_text("add"@, sum, a, " + "@, b),
        MicroOperation::Sub { diff, a, b } => binop_text("sub"@, diff, a, " - "@, b),
        MicroOperation::Mul { prod, a, b } => binop_text("mul"@, prod, a, " * "@, b),
        MicroOperation::And { and, a, b } => binop_text("and"@, and, a, " & "@, b),
        MicroOperation::Or { or, a, b } => binop_text("or"@, or, a, " | "@, b),
        MicroOperation::Not { not, a } => "not "@ + temp_text(not) + " = !"@ + temp_text(a),
        MicroOperation::SetCond { target, condition } => "set "@ + temp_text(target) + guard_text(
            condition,
        ),
        MicroOperation::Jump { target, condition, relative } => "jump "@ + if relative {
            "by "@
        } else {
            "to "@
        } + temp_text(target) + guard_text(condition),
        MicroOperation::Syscall => "syscall"@,
    }
}

/// One indented line per micro-operation.
pub open spec fn lines_text(ops: Seq<MicroOperation>) -> Seq<char>
    decreases ops.len(),
{
    if ops.len() == 0 {
        Seq::empty()
    } else {
        lines_text(ops.drop_last()) + "    "@ + op_text(ops.last()) + "\n"@
    }
}

/// The text of microcode: its operations, one per line, inside `Microcode [ ]`.
pub open spec fn microcode_text(ops: Seq<MicroOperation>) -> Seq<char> {
    "Microcode ["@ + if ops.len() == 0 { Seq::empty() } else { "\n"@ } + lines_text(ops) + "]"@
}

/// The text of an encoding error.
pub open spec fn error_text(message: Seq<char>) -> Seq<char> {
    "Failed to encode instruction: "@ + message + "."@
}

/// Append the text of a temporary.
pub fn push_temp(s: &mut String, t: Temporary)
    ensures
        final(s)@ == old(s)@ + temp_text(t),
{
    let ghost s0 = s@;
    s.append("T");
    push_dec(s, t.1 as u64);
    s.append(":");
    s.append(width_str(t.0));
    assert(s@ =~= s0 + temp_text(t));
}

/// Append the text of an integer.
pub fn push_integer(s: &mut String, i: Integer)
    ensures
        final(s)@ == old(s)@ + integer_text(i),
{
    let ghost s0 = s@;
    s.append("0x");
    push_hex(s, i.1);
    s.append(":");
    s.append(width_str(i.0));
    assert(s@ =~= s0 + integer_text(i));
}

/// Append the text of a location.
pub fn push_location(s: &mut String, l: Location)
    ensures
        final(s)@ == old(s)@ + location_text(l),
{
    let ghost s0 = s@;
    match l {
        Location::Temp(t) => push_temp(s, t),
        Location::Direct(d, space, addr) => {
            s.append("[m");
            push_dec(s, space as u64);
            s.append("][");
            s.append("0x");
            push_hex(s, addr);
            s.append(":");
            s.append(width_str(d));
            s.append("]");
            assert(s@ =~= s0 + location_text(l));
        },
        Location::Indirect(d, space, t) => {
            s.append("[m");
            push_dec(s, space as u64);
            s.append("][(");
            push_temp(s, t);
            s.append("):");
            s.append(width_str(d));
            s.append("]");
            assert(s@ =~= s0 + location_text(l));
        },
    }
}

/// Append the text of a comparison.
pub fn push_comparison(s: &mut String, c: Comparison)
    ensures
        final(s)@ == old(s)@ + comparison_text(c),
{
    let ghost s0 = s@;
    let (a, b, sym) = match c {
        Comparison::Add(a, b) => (a, b, " + "),
        Comparison::Sub(a, b) => (a, b, " - "),
        Comparison::Mul(a, b) => (a, b, " * "),
        Comparison::And(a, b) => (a, b, " & "),
    };
    push_temp(s, a);
    s.append(sym);
    push_temp(s, b);
    assert(s@ =~= s0 + comparison_text(c));
}

/// Append the text of a condition.
pub fn push_condition(s: &mut String, c: Condition)
    ensures
        final(s)@ == old(s)@ + condition_text(c),
{
    let ghost s0 = s@;
    match c {
        Condition::True => s.append("true"),
        Condition::Equal(cmp) => {
            push_comparison(s, cmp);
            s.append(" equal");
        },
        Condition::Greater(cmp) => {
            push_comparison(s, cmp);
            s.append(" greater");
        },
        Condition::Less(cmp) => {
            push_comparison(s, cmp);
            s.append(" less");
        },
    }
    assert(s@ =~= s0 + condition_text(c));
}

/// Append the guard of a set or a jump.
fn push_guard(s: &mut String, c: Condition)
    ensures
        final(s)@ == old(s)@ + guard_text(c),
{
    let ghost s0 = s@;
    if let Condition::True = c {
        assert(s@ =~= s0 + guard_text(c));
    } else {
        s.append(" if ");
        push_condition(s, c);
        assert(s@ =~= s0 + guard_text(c));
    }
}

/// Append the text of a binary micro-operation.
fn push_binop(s: &mut String, name: &str, r: Temporary, a: Temporary, sym: &str, b: Temporary)
    ensures
        final(s)@ == old(s)@ + binop_text(name@, r, a, sym@, b),
{
    let ghost s0 = s@;
    s.append(name);
    s.append(" ");
    push_temp(s, r);
    s.append(" = ");
    push_temp(s, a);
    s.append(sym);
    push_temp(s, b);
    assert(s@ =~= s0 + binop_text(name@, r, a, sym@, b));
}

/// Append the text of a micro-operation.
pub fn push_op(s: &mut String, op: MicroOperation)
    ensures
        final(s)@ == old(s)@ + op_text(op),
{
    let ghost s0 = s@;
    match op {
        MicroOperation::Mov { dest, src } => {
            s.append("mov ");
            push_location(s, dest);
            s.append(" = ");
            push_location(s, src);
        },
        MicroOperation::Const { dest, constant } => {
            s.append("const ");
            push_location(s, dest);
            s.append(" = ");
            push_integer(s, constant);
        },
        MicroOperation::Cast { target, new, signed } => {
            s.append("cast ");
            push_temp(s, target);
            s.append(" to ");
            s.append(width_str(new));
            if signed {
                s.append(" signed");
            } else {
                s.append(" unsigned");
            }
        },
        MicroOperation::Add { sum, a, b } => push_binop(s, "add", sum, a, " + ", b),
        MicroOperation::Sub { diff, a, b } => push_binop(s, "sub", diff, a, " - ", b),
        MicroOperation::Mul { prod, a, b } => push_binop(s, "mul", prod, a, " * ", b),
        MicroOperation::And { and, a, b } => push_binop(s, "and", and, a, " & ", b),
        MicroOperation::Or { or, a, b } => push_binop(s, "or", or, a, " | ", b),
        MicroOperation::Not { not, a } => {
            s.append("not ");
            push_temp(s, not);
            s.append(" = !");
            push_temp(s, a);
        },
        MicroOperation::SetCond { target, condition } => {
            s.append("set ");
            push_temp(s, target);
            push_guard(s, condition);
        },
        MicroOperation::Jump { target, condition, relative } => {
            s.append("jump ");
            if relative {
                s.append("by ");
            } else {
                s.append("to ");
            }
            push_temp(s, target);
            push_guard(s, condition);
        },
        MicroOperation::Syscall => s.append("syscall"),
    }
    assert(s@ =~= s0 + op_text(op));
}

impl Temporary {
    /// The text of the temporary, such as `T3:n64`.
    pub fn to_string(&self) -> (r: String)
        ensures
            r@ == temp_text(*self),
    {
        let mut s = String::new();
        push_temp(&mut s, *self);
        s
    }
}

impl Location {
    /// The text of the location, such as `[m1][0x20:n64]` or `[m0][(T2:n64):n32]`.
    pub fn to_string(&self) -> (r: String)
        ensures
            r@ == location_text(*self),
    {
        let mut s = String::new();
        push_location(&mut s, *self);
        s
    }
}

impl Comparison {
    /// The text of the comparison, such as `T0:n32 & T1:n32`.
    pub fn to_string(&self) -> (r: String)
        ensures
            r@ == comparison_text(*self),
    {
        let mut s = String::new();
        push_comparison(&mut s, *self);
        s
    }
}

impl Condition {
    /// The text of the condition, such as `T3:n64 - T4:n64 equal`.
    pub fn to_string(&self) -> (r: String)
        ensures
            r@ == condition_text(*self),
    {
        let mut s = String::new();
        push_condition(&mut s, *self);
        s
    }
}

impl MicroOperation {
    /// The text of the micro-operation, such as `add T3:n64 = T1:n64 + T2:n64`.
    pub fn to_string(&self) -> (r: String)
        ensures
            r@ == op_text(*self),
    {
        let mut s = String::new();
        push_op(&mut s, *self);
        s
    }
}

impl Microcode {
    /// The text of the microcode: one indented line per operation inside
    /// `Microcode [` and `]`.
    pub fn to_string(&self) -> (r: String)
        ensures
            r@ == microcode_text(self.ops@),
    {
        let mut s = String::from_str("Microcode [");
        if self.ops.len() > 0 {
            s.append("\n");
        }
        let ghost head = s@;
        let mut i: usize = 0;
        while i < self.ops.len()
            invariant
                i <= self.ops@.len(),
                s@ == head + lines_text(self.ops@.take(i as int)),
            decreases self.ops@.len() - i,
        {
            let ghost before = s@;
            s.append("    ");
            push_op(&mut s, self.ops[i]);
            s.append("\n");
            proof {
                let t = self.ops@.take(i + 1);
                assert(t.drop_last() =~= self.ops@.take(i as int));
                assert(t.last() == self.ops@[i as int]);
                assert(s@ =~= head + lines_text(t));
            }
            i = i + 1;
        }
        assert(self.ops@.take(self.ops@.len() as int) =~= self.ops@);
        s.append("]");
        assert(s@ =~= microcode_text(self.ops@));
        s
    }
}

impl EncodeError {
    /// The text of the error: `Failed to encode instruction: <message>.`
    pub fn to_string(&self) -> (r: String)
        ensures
            r@ == error_text(self.message@),
    {
        let mut s = String::from_str("Failed to encode instruction: ");
        s.append(self.message.as_str());
        s.append(".");
        assert(s@ =~= error_text(self.message@));
        s
    }
}

} // verus!
