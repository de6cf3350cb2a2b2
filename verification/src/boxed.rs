use vstd::prelude::*;

verus! {

/// A value read for a boxed field, moved into its box.
pub fn boxed<T, E>(inner: Result<T, E>) -> (r: Result<Box<T>, E>)
    ensures
        r == (match inner {
            Ok(v) => Ok::<Box<T>, E>(Box::new(v)),
            Err(e) => Err(e),
        }),
{
    match inner {
        Ok(v) => Ok(Box::new(v)),
        Err(e) => Err(e),
    }
}

} // verus!
