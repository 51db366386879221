//! Error types of the library. Each variant carries only what a caller needs
//! to tell the failure apart; descriptive text travels as a `String`.

use vstd::prelude::*;

verus! {

/// `std::io::Error`, carried unchanged inside [`AudioError::IoError`].
#[verifier::external_type_specification]
#[verifier::external_body]
pub struct ExIoError(std::io::Error);

/// `hound::Error`, carried unchanged inside [`AudioError::HoundError`].
#[verifier::external_type_specification]
#[verifier::external_body]
pub struct ExHoundError(hound::Error);

/// `ndarray::ShapeError`, carried unchanged inside [`AudioError::ShapeError`].
#[verifier::external_type_specification]
#[verifier::external_body]
pub struct ExShapeError(ndarray::ShapeError);

/// Failure of the resampler.
#[derive(Debug)]
pub enum ResampleError {
    RubatoError(String),
}

/// Error conditions of audio I/O and of the sample container.
#[derive(Debug)]
pub enum AudioError {
    OpenError(String),
    UnsupportedFormat,
    InvalidRange,
    IoError(std::io::Error),
    HoundError(hound::Error),
    ResampleError(ResampleError),
    StreamError,
    ShapeError(ndarray::ShapeError),
    InsufficientData(String),
    InvalidInput(String),
    ComputationFailed(String),
    FileNotFound(String),
}

/// Failures of sample-wise signal operations.
#[derive(Debug)]
pub enum SignalOpError {
    LengthMismatch(usize, usize),
    DivisionByZero(usize),
    InvalidInput(String),
    ComputationFailed(String),
}

/// Failures of time-domain editing.
#[derive(Debug)]
pub enum TimeDomainError {
    InvalidTime(String),
    InvalidCropRange(usize, usize, usize),
    InvalidLength(String),
    Audio(AudioError),
}

/// Failures of channel mixing.
#[derive(Debug)]
pub enum MixingError {
    LengthMismatch(usize, usize),
    InvalidSignalCount(String),
    InvalidParameter(String),
    IncompatibleFormat(String),
}

/// Failures of panning.
#[derive(Debug)]
pub enum PanningError {
    NotMono(u16),
    InvalidParameter(String),
    UnsupportedChannels(u16),
}

/// Failures of gain changes.
#[derive(Debug)]
pub enum AmplitudeError {
    InvalidGain(String),
    InvalidSignal(String),
}

/// Failures of audio effects.
#[derive(Debug)]
pub enum EffectsError {
    InvalidParameter(String),
    Dsp(String),
}

/// Failures of signal generators.
#[derive(Debug)]
pub enum GeneratorError {
    InvalidInput(String),
}

/// Failures of feature manipulation.
#[derive(Debug)]
pub enum ManipulationError {
    InvalidInput(String),
}

/// Failures of phase recovery.
#[derive(Debug)]
pub enum PhaseRecoveryError {
    ComputationFailed(String),
}

/// Failures of spectral feature extraction.
#[derive(Debug)]
pub enum SpectralError {
    InvalidParameter(String),
    InvalidSize(String),
    Numerical(String),
    Audio(AudioError),
    TimeDomain(String),
    TimeFrequency(String),
}

/// Failures of harmonic analysis.
#[derive(Debug)]
pub enum HarmonicsError {
    LengthMismatch(usize, usize),
    InvalidInput(String),
    NonFiniteInput(String),
    ComputationFailed(String),
}

/// Failures of rhythm analysis.
#[derive(Debug)]
pub enum RhythmError {
    InvalidInput(String),
    ComputationFailed(String),
}

/// Failures of feature inversion.
#[derive(Debug)]
pub enum MfccError {
    InvalidDimensions(String),
    InvalidInput(String),
    ComputationFailed(String),
}

/// Failures of sequence alignment and decoding.
#[derive(Debug)]
pub enum SequenceError {
    InvalidInput(String),
}

/// Failures of matrix decomposition.
#[derive(Debug)]
pub enum DecomposeError {
    InvalidInput(String),
}

/// Failures of magnitude scaling.
#[derive(Debug)]
pub enum ScalingError {
    InsufficientData(String),
    InvalidInput(String),
}

/// Failures of pitch tracking and tuning estimation.
#[derive(Debug)]
pub enum TuningError {
    InvalidFrequencyRange(String),
    InsufficientData(String),
    ComputationFailed(String),
    InvalidInput(String),
}

impl From<TuningError> for AudioError {
    /// Maps each tuning failure to the audio error of the same meaning; a
    /// frequency range error becomes an invalid input.
    fn from(err: TuningError) -> (r: Self) {
        match err {
            TuningError::InvalidFrequencyRange(msg) => AudioError::InvalidInput(msg),
            TuningError::InsufficientData(msg) => AudioError::InsufficientData(msg),
            TuningError::ComputationFailed(msg) => AudioError::ComputationFailed(msg),
            TuningError::InvalidInput(msg) => AudioError::InvalidInput(msg),
        }
    }
}

impl vstd::std_specs::convert::FromSpecImpl<TuningError> for AudioError {
    open spec fn obeys_from_spec() -> bool {
        true
    }

    open spec fn from_spec(err: TuningError) -> AudioError {
        match err {
            TuningError::InvalidFrequencyRange(msg) => AudioError::InvalidInput(msg),
            TuningError::InsufficientData(msg) => AudioError::InsufficientData(msg),
            TuningError::ComputationFailed(msg) => AudioError::ComputationFailed(msg),
            TuningError::InvalidInput(msg) => AudioError::InvalidInput(msg),
        }
    }
}

impl From<ScalingError> for AudioError {
    /// Maps each scaling failure to the audio error of the same name.
    fn from(err: ScalingError) -> (r: Self) {
        match err {
            ScalingError::InsufficientData(msg) => AudioError::InsufficientData(msg),
            ScalingError::InvalidInput(msg) => AudioError::InvalidInput(msg),
        }
    }
}

impl vstd::std_specs::convert::FromSpecImpl<ScalingError> for AudioError {
    open spec fn obeys_from_spec() -> bool {
        true
    }

    open spec fn from_spec(err: ScalingError) -> AudioError {
        match err {
            ScalingError::InsufficientData(msg) => AudioError::InsufficientData(msg),
            ScalingError::InvalidInput(msg) => AudioError::InvalidInput(msg),
        }
    }
}

impl From<ResampleError> for AudioError {
    /// Wraps a resampling failure.
    fn from(err: ResampleError) -> (r: Self) {
        AudioError::ResampleError(err)
    }
}

impl vstd::std_specs::convert::FromSpecImpl<ResampleError> for AudioError {
    open spec fn obeys_from_spec() -> bool {
        true
    }

    open spec fn from_spec(err: ResampleError) -> AudioError {
        AudioError::ResampleError(err)
    }
}

impl From<hound::Error> for AudioError {
    /// Wraps a WAV encoder failure.
    fn from(err: hound::Error) -> (r: Self) {
        AudioError::HoundError(err)
    }
}

impl vstd::std_specs::convert::FromSpecImpl<hound::Error> for AudioError {
    open spec fn obeys_from_spec() -> bool {
        true
    }

    open spec fn from_spec(err: hound::Error) -> AudioError {
        AudioError::HoundError(err)
    }
}

impl From<std::io::Error> for AudioError {
    /// Wraps a file-system failure.
    fn from(err: std::io::Error) -> (r: Self) {
        AudioError::IoError(err)
    }
}

impl vstd::std_specs::convert::FromSpecImpl<std::io::Error> for AudioError {
    open spec fn obeys_from_spec() -> bool {
        true
    }

    open spec fn from_spec(err: std::io::Error) -> AudioError {
        AudioError::IoError(err)
    }
}

impl From<ndarray::ShapeError> for AudioError {
    /// Wraps an array shape failure.
    fn from(err: ndarray::ShapeError) -> (r: Self) {
        AudioError::ShapeError(err)
    }
}

impl vstd::std_specs::convert::FromSpecImpl<ndarray::ShapeError> for AudioError {
    open spec fn obeys_from_spec() -> bool {
        true
    }

    open spec fn from_spec(err: ndarray::ShapeError) -> AudioError {
        AudioError::ShapeError(err)
    }
}

impl From<AudioError> for TimeDomainError {
    /// Wraps an audio failure met during time-domain processing.
    fn from(err: AudioError) -> (r: Self) {
        TimeDomainError::Audio(err)
    }
}

impl vstd::std_specs::convert::FromSpecImpl<AudioError> for TimeDomainError {
    open spec fn obeys_from_spec() -> bool {
        true
    }

    open spec fn from_spec(err: AudioError) -> TimeDomainError {
        TimeDomainError::Audio(err)
    }
}

impl From<AudioError> for SpectralError {
    /// Wraps an audio failure met during feature extraction.
    fn from(err: AudioError) -> (r: Self) {
        SpectralError::Audio(err)
    }
}

impl vstd::std_specs::convert::FromSpecImpl<AudioError> for SpectralError {
    open spec fn obeys_from_spec() -> bool {
        true
    }

    open spec fn from_spec(err: AudioError) -> SpectralError {
        SpectralError::Audio(err)
    }
}

} // verus!
