//! Extensions for `Result`.

use vstd::prelude::*;
use crate::report::Report;

verus! {

/// Extensions for `Result`: unwrapping with a message computed on demand, and
/// wrapping the error in a `Report`.
pub trait ResultExt {
    /// Success value.
    type T;

    /// Error value.
    type E;

    /// The result that this value stands for.
    spec fn outcome(&self) -> Result<Self::T, Self::E>;

    /// Keeps an `Ok` value as it is and wraps an error in a `Report`.
    fn map_err_report(self) -> (r: Result<Self::T, Report<Self::E>>) where Self: Sized
        ensures
            r == match self.outcome() {
                Ok(t) => Ok(t),
                Err(e) => Err(Report { error: e }),
            },
    ;

    /// The `Ok` value. The closure `f`, which gives the message that an error
    /// would be reported with, is called only on an error, which the caller
    /// has ruled out.
    fn expect_with<M, F: FnOnce() -> M>(self, f: F) -> (r: Self::T) where
        Self: Sized,
        Self::E: core::fmt::Debug,
        M: AsRef<str>,
        requires
            self.outcome() is Ok,
        ensures
            r == self.outcome()->Ok_0,
    ;
}

impl<T, E> ResultExt for Result<T, E> {
    type T = T;

    type E = E;

    open spec fn outcome(&self) -> Result<T, E> {
        *self
    }

    fn map_err_report(self) -> (r: Result<T, Report<E>>) {
        match self {
            Ok(t) => Ok(t),
            Err(e) => Err(Report::from(e)),
        }
    }

    fn expect_with<M, F: FnOnce() -> M>(self, f: F) -> (r: T) where
        E: core::fmt::Debug,
        M: AsRef<str>,
    {
        match self {
            Ok(t) => t,
            Err(_) => unreached(),
        }
    }
}

} // verus!
