//! Extensions for `Option`.

use vstd::prelude::*;

verus! {

/// Extensions for `Option`: asserting that a value is absent.
pub trait OptionExt<T> {
    /// Asserts that the option is `None`. The closure `f`, which gives the
    /// message that a present value would be reported with, is called only
    /// on a `Some`, which the caller has ruled out.
    fn assert_none<M, F>(&self, f: F) where F: FnOnce(&T) -> M, M: AsRef<str>
        requires
            self.is_none_value(),
    ;

    /// The same assertion as `assert_none`, meant for checks that only debug
    /// builds need.
    fn debug_assert_none<M, F>(&self, f: F) where F: FnOnce(&T) -> M, M: AsRef<str>
        requires
            self.is_none_value(),
    ;

    /// Whether this value is `None`.
    spec fn is_none_value(&self) -> bool;
}

impl<T> OptionExt<T> for Option<T> {
    open spec fn is_none_value(&self) -> bool {
        self is None
    }

    fn assert_none<M, F>(&self, f: F) where F: FnOnce(&T) -> M, M: AsRef<str> {
        match self {
            Some(_) => unreached(),
            None => {},
        }
    }

    fn debug_assert_none<M, F>(&self, f: F) where F: FnOnce(&T) -> M, M: AsRef<str> {
        self.assert_none(f)
    }
}

} // verus!
