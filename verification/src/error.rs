use vstd::prelude::*;

verus! {

/// Why an operation on a dataset or a pipeline was refused.
#[derive(Debug, Clone, Copy, PartialEq, Eq, Structural)]
pub enum Error {
    /// A 1-based frame number is 0 or larger than the number of frames.
    OutOfRange { frame: usize },
    /// A selection would keep no frame at all.
    EmptySelection,
    /// Array lengths disagree, or a matrix cannot take the requested shape.
    ShapeMismatch,
    /// Too few points, frames or rows for the algorithm.
    InsufficientData,
    /// The input lies outside the domain of a numeric routine.
    DomainError,
    /// The frame to subtract is listed among the frames to subtract it from.
    SubtrahendAmongMinuends,
    /// A provenance segment carries a `transformation: ` entry that cannot be
    /// read; `segment` counts the segments of the log from 0.
    ConfigParseError { segment: usize },
    /// A provenance segment names a transformer that does not exist.
    UnknownTransformer { segment: usize },
    /// A numeric search did not converge.
    OptimizationFailure,
}

} // verus!
