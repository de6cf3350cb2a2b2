use core::marker::PhantomData;
use vstd::prelude::*;

verus! {

/// A deserialization seed that carries the allocator handle which the value
/// of type `T`, and everything nested in it, is to be built with.
pub struct WithAllocSeed<T, A> {
    handle: A,
    _marker: PhantomData<T>,
}

impl<T, A> WithAllocSeed<T, A> {
    /// The allocator handle that the seed hands to the value it builds.
    pub closed spec fn allocator(&self) -> A {
        self.handle
    }

    /// Makes a seed that builds its value with `alloc`.
    pub fn new(alloc: A) -> (seed: Self)
        ensures
            seed.allocator() == alloc,
    {
        Self { handle: alloc, _marker: PhantomData }
    }

    /// The allocator handle held by the seed.
    pub fn handle(&self) -> (a: &A)
        ensures
            *a == self.allocator(),
    {
        &self.handle
    }

    /// Gives up the seed and returns its allocator handle.
    pub fn into_alloc(self) -> (a: A)
        ensures
            a == self.allocator(),
    {
        self.handle
    }
}

} // verus!
