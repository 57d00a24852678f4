//! What the states of the indicators have in common.
use crate::arith::Arith;
use crate::errors::TechalibError;
use vstd::prelude::*;

verus! {

/// A state that takes one more sample.
pub trait State<T>: Sized {
    /// Moves the state on by `sample`. A state that refuses the sample stays
    /// as it was.
    fn update<A: Arith>(&mut self, ar: &A, sample: T) -> (r: Result<(), TechalibError>)
        ensures
            r is Err ==> *final(self) == *old(self),
    ;
}

} // verus!
