//! How services are put together: a stack makes a value for a target, a layer
//! wraps one stack in another.
use vstd::prelude::*;

pub mod shared;

verus! {

/// Makes a value for a target of type `T`.
pub trait Stack<T> {
    type Value;

    type Error;

    fn make(&self, target: &T) -> Result<Self::Value, Self::Error>;
}

/// Wraps a stack `S`, which serves targets of type `U`, in a stack that serves
/// targets of type `T`.
pub trait Layer<T, U, S> {
    type Value;

    type Error;

    type Stack: Stack<T, Value = Self::Value, Error = Self::Error>;

    fn bind(&self, next: S) -> Self::Stack;
}

} // verus!
