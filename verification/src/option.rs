use vstd::prelude::*;

verus! {

/// The value of an optional field when the input holds nothing there (a
/// null or a unit).
pub fn option_absent<T, E>() -> (r: Result<Option<T>, E>)
    ensures
        r == Ok::<Option<T>, E>(None),
{
    Ok(None)
}

/// The value of an optional field when the input holds something there:
/// whatever reading the inner value gave, as `Some`.
pub fn option_present<T, E>(inner: Result<T, E>) -> (r: Result<Option<T>, E>)
    ensures
        r == (match inner {
            Ok(v) => Ok::<Option<T>, E>(Some(v)),
            Err(e) => Err(e),
        }),
{
    match inner {
        Ok(v) => Ok(Some(v)),
        Err(e) => Err(e),
    }
}

} // verus!
