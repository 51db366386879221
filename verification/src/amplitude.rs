//! The checks of a normalisation request: a signal to normalise and a mode
//! named case-insensitively.

use vstd::prelude::*;
use crate::errors::AmplitudeError;
use crate::text::push_text;

verus! {

/// What a signal is normalised by.
#[derive(Debug, Clone, Copy, PartialEq, Eq, Structural)]
pub enum NormMode {
    /// The largest absolute sample.
    Peak,
    /// The root mean square of the samples.
    Rms,
}

/// The lowercase form of `s` as `str::to_lowercase` computes it, character
/// by character with the Unicode lowercase mapping.
pub uninterp spec fn lowercase(s: Seq<char>) -> Seq<char>;

/// `str::to_lowercase`. The contract only names the result: it is the
/// lowercase form of the argument, a function of the argument alone.
#[verifier::external_body]
fn to_lowercase(s: &str) -> (r: String)
    ensures
        r@ == lowercase(s@),
{
    s.to_lowercase()
}

/// The mode that an already lowercased name selects, if any.
pub open spec fn mode_named(lower: Seq<char>) -> Option<NormMode> {
    if lower == "peak"@ {
        Some(NormMode::Peak)
    } else if lower == "rms"@ {
        Some(NormMode::Rms)
    } else {
        None
    }
}

/// The normalisation mode given its lowercased name `lower` and the name
/// `mode` as written, which an unknown name's error repeats.
pub fn mode_from_lowercase(lower: &str, mode: &str) -> (r: Result<NormMode, AmplitudeError>)
    ensures
        mode_named(lower@) is Some ==> r == Ok::<NormMode, AmplitudeError>(mode_named(lower@)->0),
        mode_named(lower@) is None ==> (r matches Err(AmplitudeError::InvalidGain(m))
            && m@ == "Unknown normalization mode: "@ + mode@),
{
    let name = String::from_str(lower);
    if name == String::from_str("peak") {
        Ok(NormMode::Peak)
    } else if name == String::from_str("rms") {
        Ok(NormMode::Rms)
    } else {
        let mut m = String::from_str("Unknown normalization mode: ");
        push_text(&mut m, mode);
        Err(AmplitudeError::InvalidGain(m))
    }
}

/// The checks of normalising a signal of `len` samples in the mode named
/// `mode`, made once the target level is known to be positive: the signal
/// must not be empty, and the mode, compared in lowercase, must be "peak"
/// or "rms".
pub fn check_normalize(len: usize, mode: &str) -> (r: Result<NormMode, AmplitudeError>)
    ensures
        len == 0 ==> (r matches Err(AmplitudeError::InvalidSignal(m)) && m@ == "Signal cannot be empty"@),
        len != 0 && mode_named(lowercase(mode@)) is Some
            ==> r == Ok::<NormMode, AmplitudeError>(mode_named(lowercase(mode@))->0),
        len != 0 && mode_named(lowercase(mode@)) is None ==> (r matches Err(AmplitudeError::InvalidGain(m))
            && m@ == "Unknown normalization mode: "@ + mode@),
{
    if len == 0 {
        return Err(AmplitudeError::InvalidSignal(String::from_str("Signal cannot be empty")));
    }
    let lower = to_lowercase(mode);
    mode_from_lowercase(lower.as_str(), mode)
}

} // verus!
