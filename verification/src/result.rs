//! Conveniences on `Result`.
use vstd::prelude::*;

verus! {

pub trait EraseOk<E> {
    /// Erases the value of a result, replacing it with `()`. Equivalent to
    /// calling `.map(|_| ())` on the result.
    fn erase_ok(self) -> Result<(), E>;
}

impl<T, E> EraseOk<E> for Result<T, E> {
    fn erase_ok(self) -> (r: Result<(), E>)
        ensures
            r == match self {
                Ok(_) => Ok::<(), E>(()),
                Err(e) => Err(e),
            },
    {
        match self {
            Ok(_) => Ok(()),
            Err(e) => Err(e),
        }
    }
}

pub trait CloneErr<T, E> {
    /// Clones an error through a reference to a result. This is like
    /// `Option::as_ref`.
    fn clone_err(&self) -> Result<&T, E>;
}

impl<T, E: Clone> CloneErr<T, E> for Result<T, E> {
    fn clone_err(&self) -> (r: Result<&T, E>)
        ensures
            match *self {
                Ok(v) => r == Ok::<&T, E>(&v),
                Err(e) => r is Err && cloned(e, r->Err_0),
            },
    {
        match self {
            Ok(value) => Ok(value),
            Err(err) => Err(err.clone()),
        }
    }
}

} // verus!
