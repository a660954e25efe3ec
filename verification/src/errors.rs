use vstd::prelude::*;

verus! {

/// Failures of the routing engine.
///
/// Configuration errors arise once, while a strategy or a topology is being
/// built or initialized; routing-time errors may arise for any packet and are
/// always surfaced as values, never as panics.
#[derive(Clone, Copy, PartialEq, Eq, Structural, Debug)]
pub enum Error {
    /// `next` found no admissible candidate egress.
    NoCandidates { current_router: usize, target_router: usize },
    /// Every selected path of a source-adaptive routing has been abandoned.
    SelectionsExhausted { current_router: usize, target_router: usize },
    /// A confirmed hop does not match the recorded selection.
    SelectionMismatch { current_router: usize },
    /// The topology tables handed to the constructor are inconsistent.
    MalformedTopology,
    /// A logical adjacency has no physical counterpart under the embedding.
    LogicalEdgeNotPhysical { logical_origin: usize, logical_neighbour: usize },
    /// A link weight exceeds the allowed range.
    WeightOutOfRange { origin: usize, destination: usize },
    /// A link weight is used twice although repetition is forbidden.
    WeightRepeated { origin: usize, destination: usize },
    /// A size that must be a power of two is not.
    NotPowerOfTwo { size: usize },
    /// A table size beyond what the weight range can hold.
    SizeOutOfRange { size: usize },
    /// No precomputed path exists between the two routers.
    NoPathFound { source_router: usize, target_router: usize },
    /// Sizes of paired configuration lists disagree.
    MismatchedSizes,
    /// A configuration object names something this library does not know.
    UnknownName,
}

impl Error {
    /// A short human-readable description, for the surrounding simulator.
    pub fn description(&self) -> String {
        match self {
            Error::NoCandidates { .. } => "no candidate egress found".to_string(),
            Error::SelectionsExhausted { .. } => "all selected paths were abandoned".to_string(),
            Error::SelectionMismatch { .. } => "confirmed hop does not match the selection".to_string(),
            Error::MalformedTopology => "inconsistent topology tables".to_string(),
            Error::LogicalEdgeNotPhysical { .. } => "logical edge has no physical counterpart".to_string(),
            Error::WeightOutOfRange { .. } => "link weight out of range".to_string(),
            Error::WeightRepeated { .. } => "link weight repeated".to_string(),
            Error::NotPowerOfTwo { .. } => "size is not a power of two".to_string(),
            Error::SizeOutOfRange { .. } => "size out of range".to_string(),
            Error::NoPathFound { .. } => "no path between the routers".to_string(),
            Error::MismatchedSizes => "configuration lists have mismatched sizes".to_string(),
            Error::UnknownName => "unknown configuration name".to_string(),
        }
    }
}

} // verus!
