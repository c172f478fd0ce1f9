//! Byte counts that are not zero.
use vstd::prelude::*;

verus! {

/// A number of bytes that is not zero.
#[derive(Clone, Copy, Debug, PartialEq, Eq)]
pub struct NonZeroSize {
    value: usize,
}

impl View for NonZeroSize {
    type V = usize;

    closed spec fn view(&self) -> usize {
        self.value
    }
}

impl NonZeroSize {
    #[verifier::type_invariant]
    spec fn is_positive(self) -> bool {
        self.value > 0
    }

    /// Wraps `value`, unless it is zero.
    pub fn new(value: usize) -> (size: Option<Self>)
        ensures
            size is Some <==> value != 0,
            size matches Some(size) ==> size@ == value,
    {
        if value == 0 {
            None
        } else {
            Some(NonZeroSize { value })
        }
    }

    /// Returns the number.
    pub fn get(self) -> (value: usize)
        ensures
            value == self@,
            value > 0,
    {
        proof {
            use_type_invariant(&self);
        }
        self.value
    }
}

} // verus!
