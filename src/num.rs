//! Integer widths and width-tagged integers.

use vstd::prelude::*;

verus! {

/// The width of an integer value.
#[derive(Debug, Clone, Copy, PartialEq, Eq, Hash, Structural)]
pub enum DataType {
    N8,
    N16,
    N32,
    N64,
}

/// Number of bytes that a value of the given width occupies.
pub open spec fn byte_count(d: DataType) -> u64 {
    match d {
        DataType::N8 => 1,
        DataType::N16 => 2,
        DataType::N32 => 4,
        DataType::N64 => 8,
    }
}

impl DataType {
    /// Number of bytes that a value of this width occupies.
    pub fn bytes(&self) -> (r: u64)
        ensures
            r == byte_count(*self),
    {
        match self {
            DataType::N8 => 1,
            DataType::N16 => 2,
            DataType::N32 => 4,
            DataType::N64 => 8,
        }
    }
}

/// An integer value as a bit pattern together with its width.
#[derive(Debug, Clone, Copy, PartialEq, Eq, Hash, Structural)]
pub struct Integer(pub DataType, pub u64);

} // verus!
