//! A stack over one value that already exists.
use vstd::prelude::*;

use super::Stack as SvcStack;
use crate::route::Error;

verus! {

/// Hands out a clone of one service, whatever the target.
#[derive(Debug)]
pub struct Stack<S> {
    inner: S,
}

impl<S> Stack<S> {
    /// The service that clones are made of.
    pub closed spec fn inner(&self) -> S {
        self.inner
    }
}

/// A stack over `inner`.
pub fn stack<S>(inner: S) -> (res: Stack<S>)
    ensures
        res.inner() == inner,
{
    Stack { inner }
}

impl<T, S: Clone> SvcStack<T> for Stack<S> {
    type Value = S;

    type Error = Error;

    fn make(&self, _target: &T) -> (res: Result<S, Error>)
        ensures
            res matches Ok(value) && cloned(self.inner(), value),
    {
        Ok(self.inner.clone())
    }
}

} // verus!
