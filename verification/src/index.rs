//! A wrapping index counter over the range `0 .. bound`.

use vstd::prelude::*;

verus! {

/// An index below its bound that steps forward and backward with wraparound.
#[derive(Clone, Copy, PartialEq, Eq, Structural, Debug)]
pub struct Idx {
    pub val: usize,
    pub bound: usize,
}

impl Idx {
    /// Well-formed: the value stays below the bound.
    pub open spec fn wf(self) -> bool {
        self.val < self.bound
    }

    pub open spec fn val_spec(self) -> usize {
        self.val
    }

    pub open spec fn bound_spec(self) -> usize {
        self.bound
    }

    /// The first index of the range `0 .. bound`.
    pub fn new(bound: usize) -> (r: Self)
        requires
            bound >= 1,
        ensures
            r.wf(),
            r.val_spec() == 0,
            r.bound_spec() == bound,
    {
        Idx { val: 0, bound }
    }

    pub fn val(self) -> (r: usize)
        ensures
            r == self.val_spec(),
    {
        self.val
    }

    /// The next index, wrapping from the last back to zero.
    pub fn succ(self) -> (r: Self)
        requires
            self.wf(),
        ensures
            r.wf(),
            r.bound_spec() == self.bound_spec(),
            r.val_spec() == if self.val_spec() == self.bound_spec() - 1 {
                0int
            } else {
                self.val_spec() + 1
            },
    {
        if self.is_max() {
            Idx { val: 0, bound: self.bound }
        } else {
            Idx { val: self.val + 1, bound: self.bound }
        }
    }

    /// The previous index, wrapping from zero up to the last.
    pub fn pred(self) -> (r: Self)
        requires
            self.wf(),
        ensures
            r.wf(),
            r.bound_spec() == self.bound_spec(),
            r.val_spec() == if self.val_spec() == 0 {
                self.bound_spec() - 1
            } else {
                self.val_spec() - 1
            },
    {
        if self.is_min() {
            Idx { val: self.bound - 1, bound: self.bound }
        } else {
            Idx { val: self.val - 1, bound: self.bound }
        }
    }

    pub fn is_max(&self) -> (r: bool)
        requires
            self.wf(),
        ensures
            r == (self.val_spec() == self.bound_spec() - 1),
    {
        self.val == self.bound - 1
    }

    pub fn is_min(&self) -> (r: bool)
        ensures
            r == (self.val_spec() == 0),
    {
        self.val == 0
    }
}

} // verus!
