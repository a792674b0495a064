//! Access to the two halves of a pair, by value or through a reference.
use vstd::prelude::*;

verus! {

pub trait TupleTraits {
    type Lhs;
    type Rhs;

    /// The first element of the tuple.
    fn first(self) -> Self::Lhs;

    /// The second element of the tuple.
    fn second(self) -> Self::Rhs;
}

impl<L, R> TupleTraits for (L, R) {
    type Lhs = L;
    type Rhs = R;

    fn first(self) -> (r: L)
        ensures
            r == self.0,
    {
        self.0
    }

    fn second(self) -> (r: R)
        ensures
            r == self.1,
    {
        self.1
    }
}

impl<'a, L, R> TupleTraits for &'a (L, R) {
    type Lhs = &'a L;
    type Rhs = &'a R;

    fn first(self) -> (r: &'a L)
        ensures
            *r == self.0,
    {
        &self.0
    }

    fn second(self) -> (r: &'a R)
        ensures
            *r == self.1,
    {
        &self.1
    }
}

impl<'a, L, R> TupleTraits for &'a mut (L, R) {
    type Lhs = &'a mut L;
    type Rhs = &'a mut R;

    fn first(self) -> (r: &'a mut L)
        ensures
            *r == old(self).0,
            *final(self) == (*final(r), old(self).1),
    {
        &mut self.0
    }

    fn second(self) -> (r: &'a mut R)
        ensures
            *r == old(self).1,
            *final(self) == (old(self).0, *final(r)),
    {
        &mut self.1
    }
}

} // verus!
