//! Values that a search can rank.
//!
//! An evaluation hands back a value of some type; all that a search asks of
//! the type is a total preorder, a zero to hold a draw against, and a way
//! to tell which of two values ranks higher.

use std::cmp::Ordering;
use vstd::prelude::*;

verus! {

/// How two values are ordered of which the first ranks no higher than the
/// second if `le` holds, and the second no higher than the first if `ge`
/// does.
pub open spec fn ordering_of(le: bool, ge: bool) -> Ordering {
    if le && ge {
        Ordering::Equal
    } else if le {
        Ordering::Less
    } else {
        Ordering::Greater
    }
}

/// A type whose well-formed values are totally preordered.
pub trait Ranked: Copy {
    /// Whether the value can take part in comparisons.
    spec fn well_formed(&self) -> bool;

    /// Whether `self` ranks no higher than `other`.
    spec fn rank_le(&self, other: &Self) -> bool;

    /// The value that stands for an even position.
    spec fn zero_spec() -> Self;

    /// The zero can take part in comparisons.
    proof fn lemma_zero_well_formed()
        ensures
            Self::zero_spec().well_formed(),
    ;

    /// Of two values, one ranks no higher than the other.
    proof fn lemma_rank_total(a: Self, b: Self)
        requires
            a.well_formed(),
            b.well_formed(),
        ensures
            a.rank_le(&b) || b.rank_le(&a),
    ;

    /// Ranking carries over a value in between.
    proof fn lemma_rank_transitive(a: Self, b: Self, c: Self)
        requires
            a.well_formed(),
            b.well_formed(),
            c.well_formed(),
            a.rank_le(&b),
            b.rank_le(&c),
        ensures
            a.rank_le(&c),
    ;

    /// Returns the value that stands for an even position.
    fn zero() -> (z: Self)
        ensures
            z == Self::zero_spec(),
            z.well_formed(),
    ;

    /// Whether `self` ranks strictly higher than `other`.
    fn outranks(&self, other: &Self) -> (r: bool)
        requires
            self.well_formed(),
            other.well_formed(),
        ensures
            r == !self.rank_le(other),
    ;
}

impl Ranked for i8 {
    open spec fn well_formed(&self) -> bool {
        true
    }

    open spec fn rank_le(&self, other: &i8) -> bool {
        *self <= *other
    }

    open spec fn zero_spec() -> i8 {
        0
    }

    proof fn lemma_zero_well_formed() {
    }

    proof fn lemma_rank_total(a: i8, b: i8) {
    }

    proof fn lemma_rank_transitive(a: i8, b: i8, c: i8) {
    }

    fn zero() -> (z: i8) {
        0
    }

    fn outranks(&self, other: &i8) -> (r: bool) {
        *self > *other
    }
}

/// The higher of two values, the first where they rank alike.
pub open spec fn higher_of<T: Ranked>(a: T, b: T) -> T {
    if a.rank_le(&b) && !b.rank_le(&a) {
        b
    } else {
        a
    }
}

/// The lower of two values, the first where they rank alike.
pub open spec fn lower_of<T: Ranked>(a: T, b: T) -> T {
    if b.rank_le(&a) && !a.rank_le(&b) {
        b
    } else {
        a
    }
}

/// Orders two values by their rank.
pub fn three_way<T: Ranked>(a: &T, b: &T) -> (o: Ordering)
    requires
        a.well_formed(),
        b.well_formed(),
    ensures
        o == ordering_of(a.rank_le(b), b.rank_le(a)),
{
    proof {
        T::lemma_rank_total(*a, *b);
    }
    if a.outranks(b) {
        Ordering::Greater
    } else if b.outranks(a) {
        Ordering::Less
    } else {
        Ordering::Equal
    }
}

/// The higher of two values, the first where they rank alike.
pub fn higher<T: Ranked>(a: T, b: T) -> (r: T)
    requires
        a.well_formed(),
        b.well_formed(),
    ensures
        r == higher_of(a, b),
        r.well_formed(),
        a.rank_le(&r),
        b.rank_le(&r),
{
    proof {
        T::lemma_rank_total(a, b);
        T::lemma_rank_total(a, a);
        T::lemma_rank_total(b, b);
    }
    if b.outranks(&a) {
        b
    } else {
        a
    }
}

/// The lower of two values, the first where they rank alike.
pub fn lower<T: Ranked>(a: T, b: T) -> (r: T)
    requires
        a.well_formed(),
        b.well_formed(),
    ensures
        r == lower_of(a, b),
        r.well_formed(),
        r.rank_le(&a),
        r.rank_le(&b),
{
    proof {
        T::lemma_rank_total(a, b);
        T::lemma_rank_total(a, a);
        T::lemma_rank_total(b, b);
    }
    if a.outranks(&b) {
        b
    } else {
        a
    }
}

} // verus!
