//! The choice of a frequency-weighting curve by name, and the checks of a
//! request for several curves at once.

use vstd::prelude::*;
use crate::errors::ScalingError;
use crate::text::{decimal, push_decimal, push_text};

verus! {

/// The standard frequency-weighting curves.
#[derive(Debug, Clone, Copy, PartialEq, Eq, Structural)]
pub enum WeightingKind {
    A,
    B,
    C,
    D,
}

/// The curve that a name selects, if any.
pub open spec fn weighting_named(k: Seq<char>) -> Option<WeightingKind> {
    if k == "A"@ {
        Some(WeightingKind::A)
    } else if k == "B"@ {
        Some(WeightingKind::B)
    } else if k == "C"@ {
        Some(WeightingKind::C)
    } else if k == "D"@ {
        Some(WeightingKind::D)
    } else {
        None
    }
}

/// The weighting curve named by `kind`, "A" when none is named; any other
/// name is refused.
pub fn parse_weighting_kind(kind: Option<&str>) -> (r: Result<WeightingKind, ScalingError>)
    ensures
        kind is None ==> r == Ok::<WeightingKind, ScalingError>(WeightingKind::A),
        forall|k: &str| kind == Some(k) && weighting_named(k@) is Some
            ==> r == Ok::<WeightingKind, ScalingError>(weighting_named(k@)->0),
        forall|k: &str| kind == Some(k) && weighting_named(k@) is None
            ==> (r matches Err(ScalingError::InvalidInput(m)) && m@ == "Unknown weighting kind: "@ + k@),
{
    let k = match kind {
        None => return Ok(WeightingKind::A),
        Some(k) => k,
    };
    let name = String::from_str(k);
    if name == String::from_str("A") {
        Ok(WeightingKind::A)
    } else if name == String::from_str("B") {
        Ok(WeightingKind::B)
    } else if name == String::from_str("C") {
        Ok(WeightingKind::C)
    } else if name == String::from_str("D") {
        Ok(WeightingKind::D)
    } else {
        let mut m = String::from_str("Unknown weighting kind: ");
        push_text(&mut m, k);
        Err(ScalingError::InvalidInput(m))
    }
}

/// The checks before computing several weighting curves over `n_freqs`
/// frequencies: some frequencies, then some curve names.
pub fn check_weighting_request(n_freqs: usize, n_kinds: usize) -> (r: Result<(), ScalingError>)
    ensures
        n_freqs == 0 ==> (r matches Err(ScalingError::InsufficientData(m)) && m@ == "Frequency array is empty"@),
        n_freqs != 0 && n_kinds == 0 ==> (r matches Err(ScalingError::InvalidInput(m))
            && m@ == "No weighting kinds provided"@),
        n_freqs != 0 && n_kinds != 0 ==> r is Ok,
{
    if n_freqs == 0 {
        return Err(ScalingError::InsufficientData(String::from_str("Frequency array is empty")));
    }
    if n_kinds == 0 {
        return Err(ScalingError::InvalidInput(String::from_str("No weighting kinds provided")));
    }
    Ok(())
}

/// The emptiness check of a spectrogram of `size` cells, named `context` in
/// the message.
pub fn check_spectrogram_size(size: usize, context: &str) -> (r: Result<(), ScalingError>)
    ensures
        size == 0 ==> (r matches Err(ScalingError::InsufficientData(m)) && m@ == context@ + " spectrogram is empty"@),
        size != 0 ==> r is Ok,
{
    if size == 0 {
        let mut m = String::new();
        push_text(&mut m, context);
        push_text(&mut m, " spectrogram is empty");
        proof {
            assert(m@ =~= context@ + " spectrogram is empty"@);
        }
        return Err(ScalingError::InsufficientData(m));
    }
    Ok(())
}

/// The check that a weighting has one frequency per spectrogram row.
pub fn check_frequency_rows(n_freqs: usize, n_rows: usize) -> (r: Result<(), ScalingError>)
    ensures
        n_freqs != n_rows ==> (r matches Err(ScalingError::InvalidInput(m)) && m@ == "Frequency length "@
            + decimal(n_freqs as nat) + " does not match spectrogram rows "@ + decimal(n_rows as nat)),
        n_freqs == n_rows ==> r is Ok,
{
    if n_freqs != n_rows {
        let mut m = String::from_str("Frequency length ");
        push_decimal(&mut m, n_freqs);
        push_text(&mut m, " does not match spectrogram rows ");
        push_decimal(&mut m, n_rows);
        return Err(ScalingError::InvalidInput(m));
    }
    Ok(())
}

} // verus!
