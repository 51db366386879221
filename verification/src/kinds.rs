//! Plain option enums that select among the variants of an algorithm.

use vstd::prelude::*;

verus! {

/// Analysis window shape.
#[derive(Debug, Clone, Copy, PartialEq, Eq, Structural)]
pub enum Window {
    Hann,
    Hamming,
}

impl Default for Window {
    fn default() -> (w: Self)
        ensures
            w == Window::Hann,
    {
        Window::Hann
    }
}

/// Operation applied between every sample and a scalar.
#[derive(Debug, Clone, Copy, PartialEq, Eq, Structural)]
pub enum ScalarOp {
    Add,
    Subtract,
    Multiply,
    Divide,
}

/// Norm used to normalise feature vectors.
#[derive(Debug, Clone, Copy, PartialEq, Eq, Structural)]
pub enum FeatureNorm {
    L1,
    L2,
    LInf,
}

/// How the frames inside one beat interval are summarised.
#[derive(Debug, Clone, Copy, PartialEq, Eq, Structural)]
pub enum Aggregate {
    Mean,
    Median,
    Max,
    Min,
}

impl Default for Aggregate {
    fn default() -> (a: Self)
        ensures
            a == Aggregate::Mean,
    {
        Aggregate::Mean
    }
}

/// Similarity measure between feature frames.
#[derive(Debug, Clone, Copy, PartialEq, Eq, Structural)]
pub enum SimilarityMetric {
    Cosine,
    Euclidean,
    Manhattan,
}

/// Whether a recurrence matrix keeps affinities or thresholds them.
#[derive(Debug, Clone, Copy, PartialEq, Eq, Structural)]
pub enum RecurrenceMode {
    Affinity,
    Binary,
}

/// Local distance used by dynamic time warping.
#[derive(Debug, Clone, Copy, PartialEq, Eq, Structural)]
pub enum DtwMetric {
    Euclidean,
    Cosine,
    Manhattan,
}

} // verus!
