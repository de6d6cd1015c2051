//! The error type shared by the metrics whose preconditions can fail.

use vstd::prelude::*;

verus! {

/// A violated precondition, reported to the caller instead of aborting.
#[derive(Clone, Copy, Debug, PartialEq, Eq, Structural)]
pub enum MetricError {
    /// The Hamming distance was asked of two strings of different lengths.
    LengthMismatch,
    /// An n-gram tokenization was asked of a string shorter than the n-gram
    /// length.
    SequenceTooShort,
}

impl MetricError {
    /// A short description of the violated precondition.
    pub fn message(&self) -> (r: &'static str)
        ensures
            self is LengthMismatch ==> r@ == "Hamming distance is only defined for strings of equal length"@,
            self is SequenceTooShort ==> r@ == "Can't create n-grams from text shorter than n-gram length"@,
    {
        match self {
            MetricError::LengthMismatch => "Hamming distance is only defined for strings of equal length",
            MetricError::SequenceTooShort => "Can't create n-grams from text shorter than n-gram length",
        }
    }
}

} // verus!
