use vstd::prelude::*;

use crate::seed::WithAllocSeed;

verus! {

/// What the driver of a sequence or map visitor does after an element.
#[derive(Debug, Clone, Copy, PartialEq, Eq)]
pub enum Step<E> {
    /// Ask for the next element.
    Continue,
    /// The input has no more elements: return the collection.
    Done,
    /// Reading the element failed: return this error.
    Failed(E),
}

/// The step that follows an element that was read (`Ok(Some(_))`), the end of
/// the input (`Ok(None)`) or a failure (`Err(_)`).
pub open spec fn step_after<T, E>(next: Result<Option<T>, E>) -> Step<E> {
    match next {
        Ok(Some(_)) => Step::Continue,
        Ok(None) => Step::Done,
        Err(e) => Step::Failed(e),
    }
}

/// The elements of a sequence read so far, and the allocator handle that each
/// of them is built with.
pub struct SeqCollector<T, A> {
    items: Vec<T>,
    handle: A,
}

impl<T, A: Clone> SeqCollector<T, A> {
    /// The elements read so far, in the order the input yielded them.
    pub closed spec fn items(&self) -> Seq<T> {
        self.items@
    }

    /// The allocator handle the elements are built with.
    pub closed spec fn allocator(&self) -> A {
        self.handle
    }

    /// An empty collection with room for `size_hint` elements, or none when
    /// the input gives no hint.
    pub fn new(size_hint: Option<usize>, alloc: A) -> (c: Self)
        ensures
            c.items() == Seq::<T>::empty(),
            c.allocator() == alloc,
    {
        SeqCollector { items: Vec::with_capacity(size_hint.unwrap_or(0)), handle: alloc }
    }

    /// The seed for the next element: it builds the element with a clone of
    /// the collection's allocator handle.
    pub fn element_seed(&self) -> (seed: WithAllocSeed<T, A>)
        ensures
            cloned(self.allocator(), seed.allocator()),
    {
        WithAllocSeed::new(self.handle.clone())
    }

    /// Takes what the input gave for the next element and says how to go on.
    pub fn accept<E>(&mut self, next: Result<Option<T>, E>) -> (s: Step<E>)
        ensures
            s == step_after(next),
            final(self).allocator() == old(self).allocator(),
            final(self).items() == (match next {
                Ok(Some(v)) => old(self).items().push(v),
                _ => old(self).items(),
            }),
    {
        match next {
            Ok(Some(v)) => {
                self.items.push(v);
                Step::Continue
            },
            Ok(None) => Step::Done,
            Err(e) => Step::Failed(e),
        }
    }

    /// The elements read, in order.
    pub fn finish(self) -> (v: Vec<T>)
        ensures
            v@ == self.items(),
    {
        self.items
    }
}

} // verus!
