//! A convenience on `Option`.
use vstd::prelude::*;

verus! {

pub trait OptionUtil: Sized {
    type Inner;

    /// Erases the inner value from `Some(..)`, yielding an `Option<()>`.
    fn erase_some(self) -> Option<()>;
}

impl<T> OptionUtil for Option<T> {
    type Inner = T;

    fn erase_some(self) -> (r: Option<()>)
        ensures
            r is Some <==> self is Some,
    {
        match self {
            Some(_) => Some(()),
            None => None,
        }
    }
}

} // verus!
