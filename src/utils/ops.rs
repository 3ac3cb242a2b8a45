use vstd::prelude::*;
use std::ops::{Range, RangeFrom, RangeFull, RangeInclusive, RangeTo};

verus! {

#[verifier::external_type_specification]
pub struct ExRangeFrom<Idx>(RangeFrom<Idx>);

#[verifier::external_type_specification]
pub struct ExRangeTo<Idx>(RangeTo<Idx>);

#[verifier::external_type_specification]
pub struct ExRangeFull(RangeFull);

/// Relies on `RangeInclusive::start`: the first index that the range was built with.
pub assume_specification<Idx>[ RangeInclusive::<Idx>::start ](r: &RangeInclusive<Idx>) -> (s: &Idx)
    ensures
        *s == r@.start,
;

/// Relies on `RangeInclusive::end`: the last index that the range was built with.
pub assume_specification<Idx>[ RangeInclusive::<Idx>::end ](r: &RangeInclusive<Idx>) -> (e: &Idx)
    ensures
        *e == r@.end,
;

/// Something with a number of items.
pub trait Len {
    spec fn spec_len(&self) -> nat;

    fn len(&self) -> (r: usize)
        ensures
            r as nat == self.spec_len(),
    ;
}

impl<T: Len> Len for &T {
    open spec fn spec_len(&self) -> nat {
        (**self).spec_len()
    }

    fn len(&self) -> usize {
        T::len(*self)
    }
}

impl<T: Len> Len for &mut T {
    open spec fn spec_len(&self) -> nat {
        (**self).spec_len()
    }

    fn len(&self) -> usize {
        T::len(&**self)
    }
}

impl<T, const N: usize> Len for [T; N] {
    open spec fn spec_len(&self) -> nat {
        N as nat
    }

    fn len(&self) -> usize {
        N
    }
}

impl<T> Len for Vec<T> {
    open spec fn spec_len(&self) -> nat {
        self@.len()
    }

    fn len(&self) -> usize {
        Vec::len(self)
    }
}

impl<T> Len for &[T] {
    open spec fn spec_len(&self) -> nat {
        self@.len()
    }

    fn len(&self) -> usize {
        <[T]>::len(*self)
    }
}

impl<T> Len for &mut [T] {
    open spec fn spec_len(&self) -> nat {
        (**self)@.len()
    }

    fn len(&self) -> usize {
        <[T]>::len(&**self)
    }
}

/// An index type that has a successor.
pub trait RangeIdx: Sized {
    spec fn has_next(&self) -> bool;

    spec fn spec_next(&self) -> Self;

    fn next(&self) -> (r: Self)
        requires
            self.has_next(),
        ensures
            r == self.spec_next(),
    ;
}

impl RangeIdx for usize {
    open spec fn has_next(&self) -> bool {
        *self < usize::MAX
    }

    open spec fn spec_next(&self) -> usize {
        (*self + 1) as usize
    }

    fn next(&self) -> usize {
        *self + 1
    }
}

/// A range expression over `usize` that can be resolved, against a default
/// `[start, end)`, into a half-open range: a missing start becomes the default
/// start, a missing end the default end, and an inclusive end `e` becomes `e + 1`.
pub trait IntoRange: Sized {
    /// The resolved start, against the default range `d`.
    spec fn start_in(&self, d: Range<usize>) -> int;

    /// The resolved end, against the default range `d`.
    spec fn end_in(&self, d: Range<usize>) -> int;

    /// Whether the bounds can be resolved without leaving `usize`.
    spec fn resolvable(&self) -> bool;

    fn into_range(self, unbounded: Range<usize>) -> (r: Range<usize>)
        requires
            self.resolvable(),
        ensures
            r.start == self.start_in(unbounded),
            r.end == self.end_in(unbounded),
    ;
}

impl IntoRange for Range<usize> {
    open spec fn start_in(&self, d: Range<usize>) -> int {
        self.start as int
    }

    open spec fn end_in(&self, d: Range<usize>) -> int {
        self.end as int
    }

    open spec fn resolvable(&self) -> bool {
        true
    }

    fn into_range(self, unbounded: Range<usize>) -> Range<usize> {
        Range { start: self.start, end: self.end }
    }
}

impl IntoRange for RangeInclusive<usize> {
    open spec fn start_in(&self, d: Range<usize>) -> int {
        self@.start as int
    }

    open spec fn end_in(&self, d: Range<usize>) -> int {
        self@.end + 1
    }

    /// A range that an iteration has used up is not taken.
    open spec fn resolvable(&self) -> bool {
        !self@.exhausted && self@.end < usize::MAX
    }

    fn into_range(self, unbounded: Range<usize>) -> Range<usize> {
        let start: usize = *self.start();
        let end: usize = *self.end();
        Range { start, end: end.next() }
    }
}

impl IntoRange for RangeFrom<usize> {
    open spec fn start_in(&self, d: Range<usize>) -> int {
        self.start as int
    }

    open spec fn end_in(&self, d: Range<usize>) -> int {
        d.end as int
    }

    open spec fn resolvable(&self) -> bool {
        true
    }

    fn into_range(self, unbounded: Range<usize>) -> Range<usize> {
        Range { start: self.start, end: unbounded.end }
    }
}

impl IntoRange for RangeTo<usize> {
    open spec fn start_in(&self, d: Range<usize>) -> int {
        d.start as int
    }

    open spec fn end_in(&self, d: Range<usize>) -> int {
        self.end as int
    }

    open spec fn resolvable(&self) -> bool {
        true
    }

    fn into_range(self, unbounded: Range<usize>) -> Range<usize> {
        Range { start: unbounded.start, end: self.end }
    }
}

impl IntoRange for RangeFull {
    open spec fn start_in(&self, d: Range<usize>) -> int {
        d.start as int
    }

    open spec fn end_in(&self, d: Range<usize>) -> int {
        d.end as int
    }

    open spec fn resolvable(&self) -> bool {
        true
    }

    fn into_range(self, unbounded: Range<usize>) -> Range<usize> {
        unbounded
    }
}

/// A value from which a read-only window can be cut by a range expression.
pub trait Slice<'a, Rng> {
    type Output;

    /// Whether `range` selects a window that lies inside the value.
    spec fn slice_ok(&self, range: Rng) -> bool;

    fn slice(&'a self, range: Rng) -> Self::Output
        requires
            self.slice_ok(range),
    ;
}

/// A value from which a mutable window can be cut by a range expression.
pub trait SliceMut<'a, Rng> {
    type Output;

    /// Whether `range` selects a window that lies inside the value.
    spec fn slice_mut_ok(&self, range: Rng) -> bool;

    fn slice_mut(&'a mut self, range: Rng) -> Self::Output
        requires
            old(self).slice_mut_ok(range),
    ;
}

} // verus!
