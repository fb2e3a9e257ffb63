//! Numeric types that can take part in the statistics.
use vstd::prelude::*;

verus! {

/// A numeric scalar that can be fed to the statistics: a copyable value with a
/// non-negative integral meaning, readable as a `usize`.
pub trait Sample: Sized + Copy {
    /// The quantity this sample stands for.
    spec fn value(&self) -> nat;

    /// The sample itself.
    fn from(&self) -> (r: Self)
        ensures
            r == *self,
    ;

    /// The sample as an unsigned count, used for running sums.
    fn into_usize(&self) -> (r: usize)
        ensures
            r as nat == self.value(),
    ;
}

impl Sample for u8 {
    open spec fn value(&self) -> nat {
        *self as nat
    }

    fn from(&self) -> (r: u8) {
        *self
    }

    fn into_usize(&self) -> (r: usize) {
        *self as usize
    }
}

impl Sample for u16 {
    open spec fn value(&self) -> nat {
        *self as nat
    }

    fn from(&self) -> (r: u16) {
        *self
    }

    fn into_usize(&self) -> (r: usize) {
        *self as usize
    }
}

impl Sample for u32 {
    open spec fn value(&self) -> nat {
        *self as nat
    }

    fn from(&self) -> (r: u32) {
        *self
    }

    fn into_usize(&self) -> (r: usize) {
        *self as usize
    }
}

impl Sample for u64 {
    /// The value as a `usize` holds it: all of it where `usize` has 64 bits.
    open spec fn value(&self) -> nat {
        (*self as usize) as nat
    }

    fn from(&self) -> (r: u64) {
        *self
    }

    fn into_usize(&self) -> (r: usize) {
        #[verifier::truncate]
        (*self as usize)
    }
}

impl Sample for usize {
    open spec fn value(&self) -> nat {
        *self as nat
    }

    fn from(&self) -> (r: usize) {
        *self
    }

    fn into_usize(&self) -> (r: usize) {
        *self
    }
}

} // verus!
