//! Lifting of decoded 64-bit instructions into typed microcode, and symbolic
//! execution of that microcode against a symbolic machine state.
//!
//! - `num`: integer widths and width-tagged integers.
//! - `amd64`: decoded instructions, registers and operands.
//! - `ir`: micro-operations and the encoder that lifts instructions into them.
//! - `laws`: the laws that the emitted microcode obeys.
//! - `text`: the text rendering of microcode.
//! - `sym`: symbolic expressions and the symbolic memory.
//! - `state`: the symbolic machine state and the execution of one micro-operation.

pub mod amd64;
pub mod num;
pub mod ir;
pub mod laws;
pub mod text;
pub mod sym;
pub mod state;
