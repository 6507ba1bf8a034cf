use vstd::prelude::*;

verus! {

/// Why a grid operation was refused.
#[derive(Clone, Copy, Debug, PartialEq, Eq, Structural)]
pub enum ConvolveError {
    /// The shapes involved do not fit: a buffer whose length is not `rows * cols`, an
    /// empty kernel, or a kernel larger than its source along some axis.
    DimensionError,
    /// A row or column index lies outside the grid.
    OutOfBounds,
}

impl ConvolveError {
    /// A short human-readable description of the error.
    pub fn message(&self) -> (text: &'static str)
        ensures
            text@ == (match *self {
                ConvolveError::DimensionError => "grid dimensions do not fit"@,
                ConvolveError::OutOfBounds => "index outside the grid"@,
            }),
    {
        match self {
            ConvolveError::DimensionError => "grid dimensions do not fit",
            ConvolveError::OutOfBounds => "index outside the grid",
        }
    }
}

} // verus!
