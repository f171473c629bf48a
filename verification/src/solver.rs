//! Triples that count as solved when a rotation brings them to an expected
//! triple.

use vstd::prelude::*;
use vstd::std_specs::cmp::PartialEqSpec;

verus! {

/// Three values in a fixed order.
#[derive(Clone, Debug, PartialEq)]
pub struct Trinity<T> {
    pub a: T,
    pub b: T,
    pub c: T,
}

impl<T> Trinity<T> {
    /// The triple moved on by one place: `a b c` becomes `b c a`.
    pub open spec fn rotated(self) -> Self {
        Trinity { a: self.b, b: self.c, c: self.a }
    }
}

impl<T: Clone> Trinity<T> {
    /// Moves the triple on by one place: `a b c` becomes `b c a`.
    pub fn rotate(&mut self)
        ensures
            *final(self) == old(self).rotated(),
    {
        // a b c - Initial
        std::mem::swap(&mut self.a, &mut self.b);
        // b a c
        std::mem::swap(&mut self.b, &mut self.c);
        // b c a - Rotated
    }
}

impl<T: PartialEq> Trinity<T> {
    /// The two triples are equal place by place, as `T` compares.
    pub open spec fn same(self, other: Self) -> bool {
        self.a.eq_spec(&other.a) && self.b.eq_spec(&other.b) && self.c.eq_spec(&other.c)
    }

    /// Whether some rotation of the triple is the same as `expected`.
    pub open spec fn solved_by(self, expected: Self) -> bool {
        self.rotated().same(expected) || self.rotated().rotated().same(expected) || self.same(
            expected,
        )
    }

    /// Compares the two triples place by place.
    pub fn is_same(&self, other: &Self) -> (same: bool)
        ensures
            T::obeys_eq_spec() ==> same == self.same(*other),
    {
        self.a == other.a && self.b == other.b && self.c == other.c
    }
}

/// The triples that are still to be solved, and the triple that solves one.
#[derive(Debug)]
pub struct Solver<T> {
    pub expected: Trinity<T>,
    pub unsolved: Vec<Trinity<T>>,
}

impl<T: Clone + PartialEq> Solver<T> {
    /// Drops every triple that some rotation brings to the expected one.
    /// The others stay as they are and in their order.
    pub fn resolve(&mut self)
        ensures
            final(self).expected == old(self).expected,
            T::obeys_eq_spec() ==> final(self).unsolved@ == old(self).unsolved@.filter(
                |t: Trinity<T>| !t.solved_by(old(self).expected),
            ),
    {
        let mut unsolved: Vec<Trinity<T>> = Vec::new();
        std::mem::swap(&mut unsolved, &mut self.unsolved);
        let ghost all = unsolved@;
        let ghost expected = self.expected;
        let ghost stays = |t: Trinity<T>| !t.solved_by(expected);
        let mut kept: Vec<Trinity<T>> = Vec::new();
        for t in iter: unsolved
            invariant
                iter.seq() == all,
                self.expected == expected,
                stays == |t: Trinity<T>| !t.solved_by(expected),
                T::obeys_eq_spec() ==> kept@ == all.take(iter.index()).filter(stays),
        {
            let ghost before = t;
            let mut t = t;
            // Solve inplace
            t.rotate();
            let first = t.is_same(&self.expected);
            t.rotate();
            let second = t.is_same(&self.expected);
            t.rotate();
            let third = t.is_same(&self.expected);
            proof {
                reveal(Seq::filter);
                let longer = all.take(iter.index() + 1);
                assert(t == before);
                assert(longer.drop_last() =~= all.take(iter.index()));
                assert(longer.last() == before);
                assert(T::obeys_eq_spec() ==> stays(before) == !(first || second || third));
                assert(longer.filter(stays) == if stays(before) {
                    longer.drop_last().filter(stays).push(before)
                } else {
                    longer.drop_last().filter(stays)
                });
            }
            if !(first || second || third) {
                kept.push(t);
            }
        }
        proof {
            assert(all.take(all.len() as int) =~= all);
        }
        self.unsolved = kept;
    }
}

} // verus!
