//! A handler function kept with the event type it handles.
use vstd::prelude::*;
use std::marker::PhantomData;

verus! {

/// Wraps a handler function of events of type `E`.
pub struct HandlerFn<E, F> {
    f: F,
    _marker: PhantomData<E>,
}

impl<E, F> HandlerFn<E, F> {
    /// The wrapped function.
    pub closed spec fn function(&self) -> F {
        self.f
    }

    /// Wraps a handler function.
    pub fn new(f: F) -> (r: Self)
        ensures
            r.function() == f,
    {
        HandlerFn { f, _marker: PhantomData }
    }

    /// The wrapped function, to call.
    pub fn handler(&self) -> (r: &F)
        ensures
            *r == self.function(),
    {
        &self.f
    }
}

} // verus!
