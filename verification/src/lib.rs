//! Structural core of an audio signal-processing library: sample containers,
//! framing arithmetic, segment and interval bookkeeping, and path recovery for
//! sequence alignment, each with a machine-checked contract.

pub mod amplitude;
pub mod audio;
pub mod decompose;
pub mod effects;
pub mod errors;
pub mod framing;
pub mod generators;
pub mod harmonics;
pub mod kinds;
pub mod manipulation;
pub mod ops;
pub mod rhythm;
pub mod scaling;
pub mod segment;
pub mod sequence;
pub mod spectral;
pub mod text;
pub mod time_domain;
