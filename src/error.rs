use vstd::prelude::*;

verus! {

/// The ways in which a computation can be refused.
#[derive(Debug, Clone, Copy, PartialEq, Eq, Structural)]
pub enum ChromaError {
    /// A sequence is not rectangular, or the two sequences differ in width.
    InvalidDimensions,
    /// A sequence holds no frame.
    EmptyInput,
    /// A stacking or shift-count parameter is zero.
    InvalidConfiguration,
}

impl ChromaError {
    /// A short human-readable description of the error.
    pub fn message(&self) -> &'static str {
        match self {
            ChromaError::InvalidDimensions => "input sequences have inconsistent dimensions",
            ChromaError::EmptyInput => "input sequence is empty",
            ChromaError::InvalidConfiguration => "stacking size, stride and shift count must be positive",
        }
    }
}

} // verus!
