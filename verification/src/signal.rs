//! Clocked signals, observed over a finite window of cycles.
//!
//! A [`Signal`] holds the values it produces, one per cycle, in order; the
//! combinators map and combine signals cycle by cycle.

use vstd::prelude::*;

verus! {

/// A value stream: the signal's value at each observed cycle.
#[derive(Clone, PartialEq, Eq, Debug)]
pub struct Signal<T> {
    pub values: Vec<T>,
}

impl<T> Signal<T> {
    pub fn new(values: Vec<T>) -> (r: Self)
        ensures
            r.values == values,
    {
        Signal { values }
    }

    pub fn len(&self) -> (r: usize)
        ensures
            r == self.values.len(),
    {
        self.values.len()
    }

    /// A cursor over the signal's cycles.
    pub fn iter(self) -> (r: SignalIter<T>)
        ensures
            r.values == self.values,
            r.pos == 0,
    {
        SignalIter { values: self.values, pos: 0 }
    }
}

impl<T: Copy> Signal<T> {
    /// The value at one cycle.
    pub fn at(&self, t: usize) -> (r: T)
        requires
            t < self.values.len(),
        ensures
            r == self.values@[t as int],
    {
        self.values[t]
    }

    /// The signal that applies `f` to every cycle's value.
    pub fn smap<U, F: Fn(T) -> U>(&self, f: F) -> (r: MapSignal<U>)
        requires
            forall|x: T| call_requires(f, (x,)),
        ensures
            r.values.len() == self.values.len(),
            forall|i: int|
                0 <= i < self.values.len() ==> call_ensures(
                    f,
                    (self.values@[i],),
                    #[trigger] r.values@[i],
                ),
    {
        let mut out: Vec<U> = Vec::new();
        let mut i: usize = 0;
        while i < self.values.len()
            invariant
                i <= self.values.len(),
                out.len() == i,
                forall|x: T| call_requires(f, (x,)),
                forall|j: int|
                    0 <= j < i ==> call_ensures(f, (self.values@[j],), #[trigger] out@[j]),
            decreases self.values.len() - i,
        {
            out.push(f(self.values[i]));
            i = i + 1;
        }
        MapSignal { values: out }
    }
}

/// A cursor that hands out a signal's values in cycle order.
#[derive(Clone, PartialEq, Eq, Debug)]
pub struct SignalIter<T> {
    pub values: Vec<T>,
    pub pos: usize,
}

impl<T: Copy> SignalIter<T> {
    /// The next cycle's value, if one is left.
    pub fn next(&mut self) -> (r: Option<T>)
        ensures
            final(self).values == old(self).values,
            old(self).pos < old(self).values.len() ==> r == Some(
                old(self).values@[old(self).pos as int],
            ) && final(self).pos == old(self).pos + 1,
            old(self).pos >= old(self).values.len() ==> r is None && final(self).pos == old(
                self,
            ).pos,
    {
        if self.pos < self.values.len() {
            let v = self.values[self.pos];
            self.pos = self.pos + 1;
            Some(v)
        } else {
            None
        }
    }

    /// The first `n` remaining values.
    pub fn take(&mut self, n: usize) -> (r: Vec<T>)
        ensures
            final(self).values == old(self).values,
            r.len() <= n,
            forall|i: int|
                0 <= i < r.len() ==> #[trigger] r@[i] == old(self).values@[old(self).pos + i],
    {
        let mut out: Vec<T> = Vec::new();
        let mut k: usize = 0;
        while k < n
            invariant
                k <= n,
                out.len() <= k,
                self.values == old(self).values,
                old(self).pos <= self.pos,
                out.len() == self.pos - old(self).pos,
                forall|i: int|
                    0 <= i < out.len() ==> #[trigger] out@[i] == old(self).values@[old(self).pos
                        + i],
            decreases n - k,
        {
            match self.next() {
                Some(v) => out.push(v),
                None => {
                    return out;
                },
            }
            k = k + 1;
        }
        out
    }
}

/// The result of mapping a signal cycle by cycle.
#[derive(Clone, PartialEq, Eq, Debug)]
pub struct MapSignal<T> {
    pub values: Vec<T>,
}

impl<T: Copy> MapSignal<T> {
    /// The mapped stream as a plain signal.
    pub fn into_signal(self) -> (r: Signal<T>)
        ensures
            r.values == self.values,
    {
        Signal { values: self.values }
    }
}

/// The result of combining two signals cycle by cycle.
#[derive(Clone, PartialEq, Eq, Debug)]
pub struct Apply2<T> {
    pub values: Vec<T>,
}

impl<T: Copy> Apply2<T> {
    /// The combined stream as a plain signal.
    pub fn into_signal(self) -> (r: Signal<T>)
        ensures
            r.values == self.values,
    {
        Signal { values: self.values }
    }
}

/// Combines two signals pointwise over the cycles both cover.
pub fn apply2<T1: Copy, T2: Copy, U, F: Fn(T1, T2) -> U>(
    s1: &Signal<T1>,
    s2: &Signal<T2>,
    f: F,
) -> (r: Apply2<U>)
    requires
        forall|x: T1, y: T2| call_requires(f, (x, y)),
    ensures
        r.values.len() == vstd::math::min(s1.values.len() as int, s2.values.len() as int),
        forall|i: int|
            0 <= i < r.values.len() ==> call_ensures(
                f,
                (s1.values@[i], s2.values@[i]),
                #[trigger] r.values@[i],
            ),
{
    let n = if s1.values.len() <= s2.values.len() {
        s1.values.len()
    } else {
        s2.values.len()
    };
    let mut out: Vec<U> = Vec::new();
    let mut i: usize = 0;
    while i < n
        invariant
            i <= n,
            out.len() == i,
            n <= s1.values.len() && n <= s2.values.len(),
            forall|x: T1, y: T2| call_requires(f, (x, y)),
            forall|j: int|
                0 <= j < i ==> call_ensures(
                    f,
                    (s1.values@[j], s2.values@[j]),
                    #[trigger] out@[j],
                ),
        decreases n - i,
    {
        out.push(f(s1.values[i], s2.values[i]));
        i = i + 1;
    }
    Apply2 { values: out }
}

/// A clock: a pure synchronization token.
#[derive(Clone, Copy, PartialEq, Eq, Structural, Debug)]
pub struct Clock {
}

impl Clock {
    pub fn new() -> (r: Self) {
        Clock {  }
    }
}

/// A registered value: the current output and the value latched for the next
/// cycle.
#[derive(Clone, Copy, PartialEq, Eq, Structural, Debug)]
pub struct Register<T> {
    pub value: T,
    pub next_value: T,
}

impl<T: Copy> Register<T> {
    /// A register holding its reset value.
    pub fn new(clock: Clock, reset_value: T) -> (r: Self)
        ensures
            r.value == reset_value,
            r.next_value == reset_value,
    {
        let _ = clock;
        Register { value: reset_value, next_value: reset_value }
    }

    /// One clock tick: the latched value becomes the output, and `comb` of
    /// that output is latched for the next cycle.
    pub fn next_with<F: Fn(T) -> T>(&mut self, comb: F) -> (r: T)
        requires
            forall|x: T| call_requires(comb, (x,)),
        ensures
            r == old(self).next_value,
            final(self).value == old(self).next_value,
            call_ensures(comb, (old(self).next_value,), final(self).next_value),
    {
        self.value = self.next_value;
        self.next_value = comb(self.value);
        self.value
    }
}

/// A fresh register clocked by `clock`, holding `reset_value`.
pub fn reg<T: Copy>(clock: Clock, reset_value: T) -> (r: Register<T>)
    ensures
        r.value == reset_value,
        r.next_value == reset_value,
{
    Register::new(clock, reset_value)
}

} // verus!
