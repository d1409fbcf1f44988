//! Fixed-shape arrays of hardware values, and their signal bundling.

use vstd::prelude::*;
use crate::signal::Signal;

verus! {

/// An array of hardware values.
#[derive(Clone, PartialEq, Eq, Debug)]
pub struct Array<T> {
    pub values: Vec<T>,
}

impl<T> Array<T> {
    pub open spec fn view_spec(self) -> Seq<T> {
        self.values@
    }

    pub fn from_vec(values: Vec<T>) -> (r: Self)
        ensures
            r.view_spec() == values@,
    {
        Array { values }
    }

    pub fn len(&self) -> (r: usize)
        ensures
            r == self.view_spec().len(),
    {
        self.values.len()
    }

    /// The underlying values.
    pub fn into_inner(self) -> (r: Vec<T>)
        ensures
            r@ == self.view_spec(),
    {
        self.values
    }
}

impl<T: Copy> Array<T> {

    /// The element at one position.
    pub fn at(&self, m: usize) -> (r: T)
        requires
            m < self.view_spec().len(),
        ensures
            r == self.view_spec()[m as int],
    {
        self.values[m]
    }

    /// The `m` elements starting at position `s`.
    pub fn slice(&self, s: usize, m: usize) -> (r: Array<T>)
        requires
            s + m <= self.view_spec().len(),
        ensures
            r.view_spec() == self.view_spec().subrange(s as int, (s + m) as int),
    {
        let mut out: Vec<T> = Vec::new();
        let mut k: usize = 0;
        while k < m
            invariant
                k <= m,
                s + m <= self.values.len(),
                out.len() == k,
                forall|j: int| 0 <= j < k ==> out@[j] == self.values@[s + j],
            decreases m - k,
        {
            out.push(self.values[s + k]);
            k = k + 1;
        }
        proof {
            assert(out@ =~= self.values@.subrange(s as int, (s + m) as int));
        }
        Array { values: out }
    }

    /// The same elements in the opposite order.
    pub fn reverse(&self) -> (r: Array<T>)
        ensures
            r.view_spec().len() == self.view_spec().len(),
            forall|i: int|
                0 <= i < self.view_spec().len() ==> #[trigger] r.view_spec()[i]
                    == self.view_spec()[self.view_spec().len() - 1 - i],
    {
        let n = self.values.len();
        let mut out: Vec<T> = Vec::new();
        let mut k: usize = 0;
        while k < n
            invariant
                k <= n,
                n == self.values.len(),
                out.len() == k,
                forall|j: int| 0 <= j < k ==> #[trigger] out@[j] == self.values@[n - 1 - j],
            decreases n - k,
        {
            out.push(self.values[n - 1 - k]);
            k = k + 1;
        }
        Array { values: out }
    }

    /// Bundles an array of signals into one signal of arrays: the value at
    /// cycle `t` is the array of each member signal's value at `t`. All
    /// member signals must cover the same cycles.
    pub fn bundle(signals: Array<Signal<T>>) -> (r: Signal<Array<T>>)
        requires
            forall|i: int|
                0 <= i < signals.values@.len() ==> (#[trigger] signals.values@[i]).values.len()
                    == cycle_count(signals),
        ensures
            r.values.len() == cycle_count(signals),
            forall|t: int|
                0 <= t < r.values.len() ==> (#[trigger] r.values@[t]).values@.len()
                    == signals.values@.len(),
            forall|t: int, i: int|
                0 <= t < r.values.len() && 0 <= i < signals.values@.len() ==> (
                #[trigger] r.values@[t].values@[i]) == signals.values@[i].values@[t],
    {
        let cycles: usize = if signals.values.len() == 0 {
            0
        } else {
            signals.values[0].values.len()
        };
        let n = signals.values.len();
        let mut out: Vec<Array<T>> = Vec::new();
        let mut t: usize = 0;
        while t < cycles
            invariant
                t <= cycles,
                n == signals.values.len(),
                cycles == cycle_count(signals),
                out.len() == t,
                forall|i: int|
                    0 <= i < n ==> (#[trigger] signals.values@[i]).values.len() == cycles,
                forall|tt: int|
                    0 <= tt < t ==> (#[trigger] out@[tt]).values@.len() == n,
                forall|tt: int, i: int|
                    0 <= tt < t && 0 <= i < n ==> (#[trigger] out@[tt].values@[i])
                        == signals.values@[i].values@[tt],
            decreases cycles - t,
        {
            let mut row: Vec<T> = Vec::new();
            let mut i: usize = 0;
            while i < n
                invariant
                    i <= n,
                    t < cycles,
                    n == signals.values.len(),
                    row.len() == i,
                    forall|ii: int|
                        0 <= ii < n ==> (#[trigger] signals.values@[ii]).values.len() == cycles,
                    forall|ii: int|
                        0 <= ii < i ==> #[trigger] row@[ii] == signals.values@[ii].values@[t as int],
                decreases n - i,
            {
                row.push(signals.values[i].values[t]);
                i = i + 1;
            }
            out.push(Array { values: row });
            t = t + 1;
        }
        Signal { values: out }
    }

    /// Unbundles a signal of arrays into an array of signals: member `i`
    /// carries the `i`-th element of each cycle's array. All cycles must
    /// carry arrays of the same shape.
    pub fn unbundle(signal: Signal<Array<T>>) -> (r: Array<Signal<T>>)
        requires
            forall|t: int|
                0 <= t < signal.values@.len() ==> (#[trigger] signal.values@[t]).values.len()
                    == member_count(signal),
        ensures
            r.values@.len() == member_count(signal),
            forall|i: int, t: int|
                0 <= i < r.values@.len() && 0 <= t < signal.values@.len() ==> (
                #[trigger] r.values@[i].values@[t]) == signal.values@[t].values@[i],
            forall|i: int|
                0 <= i < r.values@.len() ==> (#[trigger] r.values@[i]).values@.len()
                    == signal.values@.len(),
    {
        let n: usize = if signal.values.len() == 0 {
            0
        } else {
            signal.values[0].values.len()
        };
        let cycles = signal.values.len();
        let mut out: Vec<Signal<T>> = Vec::new();
        let mut i: usize = 0;
        while i < n
            invariant
                i <= n,
                cycles == signal.values.len(),
                n == member_count(signal),
                out.len() == i,
                forall|t: int|
                    0 <= t < cycles ==> (#[trigger] signal.values@[t]).values.len() == n,
                forall|ii: int, t: int|
                    0 <= ii < i && 0 <= t < cycles ==> (#[trigger] out@[ii].values@[t])
                        == signal.values@[t].values@[ii],
                forall|ii: int|
                    0 <= ii < i ==> (#[trigger] out@[ii]).values@.len() == cycles,
            decreases n - i,
        {
            let mut col: Vec<T> = Vec::new();
            let mut t: usize = 0;
            while t < cycles
                invariant
                    t <= cycles,
                    i < n,
                    cycles == signal.values.len(),
                    col.len() == t,
                    forall|tt: int|
                        0 <= tt < cycles ==> (#[trigger] signal.values@[tt]).values.len() == n,
                    forall|tt: int|
                        0 <= tt < t ==> #[trigger] col@[tt] == signal.values@[tt].values@[i as int],
                decreases cycles - t,
            {
                col.push(signal.values[t].values[i]);
                t = t + 1;
            }
            out.push(Signal { values: col });
            i = i + 1;
        }
        Array { values: out }
    }
}

/// How many cycles a bundle of signals covers: the first member's cycle
/// count, or zero with no members.
pub open spec fn cycle_count<T>(signals: Array<Signal<T>>) -> int {
    if signals.values@.len() == 0 {
        0
    } else {
        signals.values@[0].values.len() as int
    }
}

/// How many members each cycle of an array signal carries: the first cycle's
/// element count, or zero with no cycles.
pub open spec fn member_count<T>(signal: Signal<Array<T>>) -> int {
    if signal.values@.len() == 0 {
        0
    } else {
        signal.values@[0].values.len() as int
    }
}

} // verus!
