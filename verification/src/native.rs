use vstd::prelude::*;
use vstd::std_specs::cmp::PartialEqSpec;

verus! {

/// A transparent wrapper that adapts any type that can be deserialized on its
/// own into one that takes an allocator handle (the handle is ignored).
#[derive(Debug, Clone, Copy, PartialEq, Eq, PartialOrd, Ord, Hash, Default)]
pub struct Native<T>(pub T);

impl<T> Native<T> {
    /// Unwraps the inner value.
    pub fn into_inner(self) -> (inner: T)
        ensures
            inner == self.0,
    {
        self.0
    }

    /// A value read on its own, wrapped.
    pub fn wrap_result<E>(inner: Result<T, E>) -> (r: Result<Native<T>, E>)
        ensures
            r == (match inner {
                Ok(v) => Ok::<Native<T>, E>(Native(v)),
                Err(e) => Err(e),
            }),
    {
        match inner {
            Ok(v) => Ok(Native(v)),
            Err(e) => Err(e),
        }
    }
}

} // verus!

verus! {

impl<T: PartialEq> PartialEq<T> for Native<T> {
    fn eq(&self, other: &T) -> (r: bool) {
        self.0.eq(other)
    }
}

impl<T: PartialEq> vstd::std_specs::cmp::PartialEqSpecImpl<T> for Native<T> {
    open spec fn obeys_eq_spec() -> bool {
        <T as PartialEqSpec<T>>::obeys_eq_spec()
    }

    open spec fn eq_spec(&self, other: &T) -> bool {
        <T as PartialEqSpec<T>>::eq_spec(&self.0, other)
    }
}

} // verus!
