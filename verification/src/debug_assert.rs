//! Comparisons that must hold where they are made. The caller proves each
//! one; the check itself is made again, and proved to succeed.
use vstd::prelude::*;
use vstd::std_specs::cmp::{PartialOrdIs, PartialOrdSpec};

verus! {

/// `lhs <= rhs` must hold.
pub fn debug_assert_le<T: PartialOrd>(lhs: T, rhs: T)
    requires
        T::obeys_partial_cmp_spec(),
        lhs.is_le(&rhs),
{
    let holds = lhs <= rhs;
    assert(holds);
}

/// `lhs < rhs` must hold.
pub fn debug_assert_lt<T: PartialOrd>(lhs: T, rhs: T)
    requires
        T::obeys_partial_cmp_spec(),
        lhs.is_lt(&rhs),
{
    let holds = lhs < rhs;
    assert(holds);
}

/// `lhs >= rhs` must hold.
pub fn debug_assert_ge<T: PartialOrd>(lhs: T, rhs: T)
    requires
        T::obeys_partial_cmp_spec(),
        lhs.is_ge(&rhs),
{
    let holds = lhs >= rhs;
    assert(holds);
}

/// `lhs > rhs` must hold.
pub fn debug_assert_gt<T: PartialOrd>(lhs: T, rhs: T)
    requires
        T::obeys_partial_cmp_spec(),
        lhs.is_gt(&rhs),
{
    let holds = lhs > rhs;
    assert(holds);
}

} // verus!
