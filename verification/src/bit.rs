//! A single hardware bit.

use vstd::prelude::*;

verus! {

/// One bit: low or high.
#[derive(Clone, Copy, PartialEq, Eq, Structural, Debug)]
pub enum Bit {
    Low,
    High,
}

/// The high bit.
pub const H: Bit = Bit::High;

/// The low bit.
pub const L: Bit = Bit::Low;

impl Bit {
    pub open spec fn as_bool_spec(self) -> bool {
        self == Bit::High
    }

    pub fn as_bool(self) -> (r: bool)
        ensures
            r == self.as_bool_spec(),
    {
        match self {
            Bit::High => true,
            Bit::Low => false,
        }
    }

    pub fn from_bool(b: bool) -> (r: Bit)
        ensures
            r.as_bool_spec() == b,
    {
        if b {
            Bit::High
        } else {
            Bit::Low
        }
    }
}

} // verus!
