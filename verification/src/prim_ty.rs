//! Source-level value types as the front end sees them: a primitive width, or
//! a recursively grouped shape.

use vstd::prelude::*;

verus! {

/// A primitive value type and its bit width.
#[derive(Clone, Copy, PartialEq, Eq, Structural, Debug)]
pub enum PrimTy {
    Bool,
    Bit,
    U128,
    Unsigned(u8),
    Clock,
}

impl PrimTy {
    pub open spec fn is_bool_spec(self) -> bool {
        self == PrimTy::Bool
    }

    pub fn is_bool(&self) -> (r: bool)
        ensures
            r == self.is_bool_spec(),
    {
        match self {
            PrimTy::Bool => true,
            _ => false,
        }
    }

    pub open spec fn width_spec(self) -> u8 {
        match self {
            PrimTy::Bool => 1,
            PrimTy::Bit => 1,
            PrimTy::U128 => 128,
            PrimTy::Unsigned(n) => n,
            PrimTy::Clock => 1,
        }
    }

    pub fn width(&self) -> (r: u8)
        ensures
            r == self.width_spec(),
    {
        match self {
            PrimTy::Bool => 1,
            PrimTy::Bit => 1,
            PrimTy::U128 => 128,
            PrimTy::Unsigned(n) => *n,
            PrimTy::Clock => 1,
        }
    }
}

/// A type with a fixed primitive representation.
pub trait IsPrimTy {
    /// The primitive type this type lowers to.
    fn prim_ty_of() -> PrimTy;
}

impl IsPrimTy for bool {
    fn prim_ty_of() -> (r: PrimTy)
        ensures
            r == PrimTy::Bool,
    {
        PrimTy::Bool
    }
}

/// A source-level value shape: one primitive, or a group of shapes built
/// recursively from primitives.
#[derive(Debug)]
pub enum SignalTy {
    Prim(PrimTy),
    Group(Vec<SignalTy>),
}

/// The mathematical form of a value shape.
pub enum SignalTyV {
    Prim(PrimTy),
    Group(Seq<SignalTyV>),
}

impl SignalTy {
    /// The mathematical form of this shape.
    pub open spec fn view_spec(self) -> SignalTyV
        decreases self, 0int,
    {
        match self {
            SignalTy::Prim(pt) => SignalTyV::Prim(pt),
            SignalTy::Group(items) => SignalTyV::Group(
                Seq::new(
                    items.len() as nat,
                    |i: int|
                        if 0 <= i < items.len() {
                            items[i].view_spec()
                        } else {
                            SignalTyV::Prim(PrimTy::Bool)
                        },
                ),
            ),
        }
    }
}

impl SignalTy {
    /// Groups a list of shapes.
    pub fn group(items: Vec<SignalTy>) -> (r: SignalTy)
        ensures
            r == SignalTy::Group(items),
    {
        SignalTy::Group(items)
    }

    pub open spec fn is_prim(self) -> bool {
        self is Prim
    }

    /// The primitive type of a non-grouped shape.
    pub fn prim_ty(&self) -> (r: PrimTy)
        requires
            self.is_prim(),
        ensures
            *self == SignalTy::Prim(r),
    {
        match self {
            SignalTy::Prim(p) => *p,
            SignalTy::Group(_) => PrimTy::Bool,
        }
    }
}

} // verus!
