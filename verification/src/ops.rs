//! The checks that decide whether a sample-wise operation between signals may
//! run, and which error it reports when it may not.

use vstd::prelude::*;
use crate::audio::AudioData;
use crate::errors::{MixingError, PanningError, SignalOpError};
use crate::kinds::ScalarOp;
use crate::text::{decimal, format_indices, joined_decimals, push_decimal, push_text};

verus! {

/// The message reported when two signals differ in sample rate or channels.
pub open spec fn metadata_message(sr1: u32, ch1: u16, sr2: u32, ch2: u16) -> Seq<char> {
    "Metadata mismatch: expected "@ + decimal(sr1 as nat) + " Hz, "@ + decimal(ch1 as nat)
        + " channels; got "@ + decimal(sr2 as nat) + " Hz, "@ + decimal(ch2 as nat)
        + " channels"@
}

/// Checks that two signals share sample rate and channel count.
pub fn validate_metadata<S>(signal1: &AudioData<S>, signal2: &AudioData<S>) -> (r: Result<(), SignalOpError>)
    ensures
        (signal1.sample_rate == signal2.sample_rate && signal1.channels == signal2.channels)
            ==> r is Ok,
        !(signal1.sample_rate == signal2.sample_rate && signal1.channels == signal2.channels)
            ==> (r matches Err(SignalOpError::InvalidInput(m)) && m@ == metadata_message(
            signal1.sample_rate, signal1.channels, signal2.sample_rate, signal2.channels)),
{
    if signal1.sample_rate != signal2.sample_rate || signal1.channels != signal2.channels {
        let mut m = String::from_str("Metadata mismatch: expected ");
        push_decimal(&mut m, signal1.sample_rate as usize);
        push_text(&mut m, " Hz, ");
        push_decimal(&mut m, signal1.channels as usize);
        push_text(&mut m, " channels; got ");
        push_decimal(&mut m, signal2.sample_rate as usize);
        push_text(&mut m, " Hz, ");
        push_decimal(&mut m, signal2.channels as usize);
        push_text(&mut m, " channels");
        return Err(SignalOpError::InvalidInput(m));
    }
    Ok(())
}

/// The checks shared by subtraction, multiplication and division of two
/// signals: equal length, not empty, same sample rate and channels.
pub fn check_operands<S>(signal1: &AudioData<S>, signal2: &AudioData<S>) -> (r: Result<(), SignalOpError>)
    ensures
        signal1.samples@.len() != signal2.samples@.len() ==> r == Err::<(), SignalOpError>(
            SignalOpError::LengthMismatch(signal1.samples@.len() as usize, signal2.samples@.len() as usize)),
        signal1.samples@.len() == signal2.samples@.len() && signal1.samples@.len() == 0 ==> (r matches Err(
            SignalOpError::InvalidInput(m)) && m@ == "Signal samples are empty"@),
        signal1.samples@.len() == signal2.samples@.len() && signal1.samples@.len() != 0 ==> {
            &&& (signal1.sample_rate == signal2.sample_rate && signal1.channels == signal2.channels)
                ==> r is Ok
            &&& !(signal1.sample_rate == signal2.sample_rate && signal1.channels == signal2.channels)
                ==> (r matches Err(SignalOpError::InvalidInput(m)) && m@ == metadata_message(
                signal1.sample_rate, signal1.channels, signal2.sample_rate, signal2.channels))
        },
{
    if signal1.samples.len() != signal2.samples.len() {
        return Err(SignalOpError::LengthMismatch(signal1.samples.len(), signal2.samples.len()));
    }
    if signal1.samples.len() == 0 {
        return Err(SignalOpError::InvalidInput(String::from_str("Signal samples are empty")));
    }
    validate_metadata(signal1, signal2)
}

/// Turns the positions at which an operation produced a non-finite sample
/// into the error that reports them, or `Ok` when there are none.
pub fn report_non_finite(indices: &[usize]) -> (r: Result<(), SignalOpError>)
    ensures
        indices@.len() == 0 ==> r is Ok,
        indices@.len() != 0 ==> (r matches Err(SignalOpError::ComputationFailed(m))
            && m@ == "Non-finite results at indices "@ + joined_decimals(indices@)),
{
    if indices.len() == 0 {
        return Ok(());
    }
    let mut m = String::from_str("Non-finite results at indices ");
    let list = format_indices(indices);
    push_text(&mut m, list.as_str());
    Err(SignalOpError::ComputationFailed(m))
}

/// The decision of a scalar operation on a signal of `len` samples: an
/// empty signal is refused; dividing by zero fails at the first sample;
/// otherwise `non_finite` lists, in increasing order, the positions whose
/// result is not finite, and they are reported.
pub fn check_scalar_operation(len: usize, op: ScalarOp, scalar_is_zero: bool, non_finite: &[usize]) -> (r: Result<(), SignalOpError>)
    ensures
        len == 0 ==> (r matches Err(SignalOpError::InvalidInput(m)) && m@ == "Signal samples are empty"@),
        len != 0 && op == ScalarOp::Divide && scalar_is_zero
            ==> r == Err::<(), SignalOpError>(SignalOpError::DivisionByZero(0)),
        len != 0 && !(op == ScalarOp::Divide && scalar_is_zero) && non_finite@.len() == 0 ==> r is Ok,
        len != 0 && !(op == ScalarOp::Divide && scalar_is_zero) && non_finite@.len() != 0
            ==> (r matches Err(SignalOpError::ComputationFailed(m))
            && m@ == "Non-finite results at indices "@ + joined_decimals(non_finite@)),
{
    if len == 0 {
        return Err(SignalOpError::InvalidInput(String::from_str("Signal samples are empty")));
    }
    if op == ScalarOp::Divide && scalar_is_zero {
        return Err(SignalOpError::DivisionByZero(0));
    }
    report_non_finite(non_finite)
}

/// The message part that describes signal `i` of a mix when it does not
/// match the first signal, if it does not.
pub open spec fn mix_mismatch<S>(i: nat, sig: AudioData<S>, length: nat, sr: u32, ch: u16) -> Option<Seq<char>> {
    if sig.samples@.len() != length {
        Some("Signal "@ + decimal(i) + ": length mismatch ("@ + decimal(sig.samples@.len())
            + " vs "@ + decimal(length) + ")"@)
    } else if sig.sample_rate != sr || sig.channels != ch {
        Some("Signal "@ + decimal(i) + ": metadata mismatch (expected "@ + decimal(sr as nat)
            + " Hz, "@ + decimal(ch as nat) + " channels; got "@ + decimal(sig.sample_rate as nat)
            + " Hz, "@ + decimal(sig.channels as nat) + " channels)"@)
    } else {
        None
    }
}

/// The descriptions of the mismatching signals among `sigs[1..k]`, joined by
/// a semicolon and a space.
pub open spec fn mix_report<S>(sigs: Seq<AudioData<S>>, k: nat) -> Seq<char>
    decreases k,
{
    if k <= 1 || sigs.len() == 0 {
        Seq::empty()
    } else {
        let prev = mix_report(sigs, (k - 1) as nat);
        match mix_mismatch((k - 1) as nat, sigs[k - 1], sigs[0].samples@.len(), sigs[0].sample_rate, sigs[0].channels) {
            None => prev,
            Some(m) => if prev.len() == 0 { m } else { prev + "; "@ + m },
        }
    }
}

/// Whether some signal after the first does not match it.
pub open spec fn mix_has_mismatch<S>(sigs: Seq<AudioData<S>>, k: nat) -> bool {
    exists|j: int| 1 <= j < k && #[trigger] mix_mismatch(j as nat, sigs[j], sigs[0].samples@.len(),
        sigs[0].sample_rate, sigs[0].channels) is Some
}

proof fn lemma_report_empty<S>(sigs: Seq<AudioData<S>>, k: nat)
    requires
        sigs.len() > 0,
        k <= sigs.len(),
    ensures
        mix_report(sigs, k).len() == 0 <==> !mix_has_mismatch(sigs, k),
    decreases k,
{
    if k > 1 {
        lemma_report_empty(sigs, (k - 1) as nat);
        let m = mix_mismatch((k - 1) as nat, sigs[k - 1], sigs[0].samples@.len(), sigs[0].sample_rate, sigs[0].channels);
        if m is Some {
            reveal_strlit("Signal ");
            assert(mix_report(sigs, k).len() > 0);
        } else {
            assert(mix_has_mismatch(sigs, k) == mix_has_mismatch(sigs, (k - 1) as nat)) by {
                if mix_has_mismatch(sigs, k) {
                    let j = choose|j: int| 1 <= j < k && #[trigger] mix_mismatch(j as nat, sigs[j],
                        sigs[0].samples@.len(), sigs[0].sample_rate, sigs[0].channels) is Some;
                    assert(j < k - 1);
                }
            }
        }
    }
}

fn mismatch_text<S>(i: usize, sig: &AudioData<S>, length: usize, sr: u32, ch: u16) -> (r: Option<String>)
    ensures
        match mix_mismatch(i as nat, *sig, length as nat, sr, ch) {
            None => r is None,
            Some(t) => r matches Some(m) && m@ == t,
        },
{
    if sig.samples.len() != length {
        let mut m = String::from_str("Signal ");
        push_decimal(&mut m, i);
        push_text(&mut m, ": length mismatch (");
        push_decimal(&mut m, sig.samples.len());
        push_text(&mut m, " vs ");
        push_decimal(&mut m, length);
        push_text(&mut m, ")");
        Some(m)
    } else if sig.sample_rate != sr || sig.channels != ch {
        let mut m = String::from_str("Signal ");
        push_decimal(&mut m, i);
        push_text(&mut m, ": metadata mismatch (expected ");
        push_decimal(&mut m, sr as usize);
        push_text(&mut m, " Hz, ");
        push_decimal(&mut m, ch as usize);
        push_text(&mut m, " channels; got ");
        push_decimal(&mut m, sig.sample_rate as usize);
        push_text(&mut m, " Hz, ");
        push_decimal(&mut m, sig.channels as usize);
        push_text(&mut m, " channels)");
        Some(m)
    } else {
        None
    }
}

/// The checks before averaging several signals: at least one signal, a
/// non-empty first signal, and every other signal of the same length, sample
/// rate and channel count, with every mismatch described in the error.
pub fn check_mix<S>(signals: &[AudioData<S>]) -> (r: Result<(), SignalOpError>)
    ensures
        signals@.len() == 0 ==> (r matches Err(SignalOpError::InvalidInput(m))
            && m@ == "Signal array is empty"@),
        signals@.len() != 0 && signals@[0].samples@.len() == 0 ==> (r matches Err(
            SignalOpError::InvalidInput(m)) && m@ == "Signal samples are empty"@),
        signals@.len() != 0 && signals@[0].samples@.len() != 0 ==> {
            &&& !mix_has_mismatch(signals@, signals@.len()) ==> r is Ok
            &&& mix_has_mismatch(signals@, signals@.len()) ==> (r matches Err(
                SignalOpError::InvalidInput(m)) && m@ == mix_report(signals@, signals@.len()))
        },
{
    if signals.len() == 0 {
        return Err(SignalOpError::InvalidInput(String::from_str("Signal array is empty")));
    }
    let length = signals[0].samples.len();
    let sample_rate = signals[0].sample_rate;
    let channels = signals[0].channels;
    if length == 0 {
        return Err(SignalOpError::InvalidInput(String::from_str("Signal samples are empty")));
    }
    let mut report = String::new();
    let mut any = false;
    let mut k: usize = 1;
    while k < signals.len()
        invariant
            signals@.len() > 0,
            1 <= k <= signals@.len(),
            length == signals@[0].samples@.len(),
            sample_rate == signals@[0].sample_rate,
            channels == signals@[0].channels,
            report@ == mix_report(signals@, k as nat),
            any <==> report@.len() > 0,
        decreases signals.len() - k,
    {
        let part = mismatch_text(k, &signals[k], length, sample_rate, channels);
        proof {
            reveal_strlit("Signal ");
            reveal_strlit("; ");
        }
        match part {
            None => {},
            Some(m) => {
                if any {
                    push_text(&mut report, "; ");
                }
                push_text(&mut report, m.as_str());
                any = true;
            },
        }
        k += 1;
    }
    proof {
        lemma_report_empty(signals@, signals@.len());
    }
    if any {
        return Err(SignalOpError::InvalidInput(report));
    }
    Ok(())
}


/// The layout checks of panning a signal onto `channels` output channels:
/// the input must be mono and the output stereo, quad or 5.1.
pub fn check_pan_layout<S>(signal: &AudioData<S>, channels: u16) -> (r: Result<(), PanningError>)
    ensures
        signal.channels != 1 ==> r == Err::<(), PanningError>(PanningError::NotMono(signal.channels)),
        signal.channels == 1 && !(channels == 2 || channels == 4 || channels == 6)
            ==> r == Err::<(), PanningError>(PanningError::UnsupportedChannels(channels)),
        signal.channels == 1 && (channels == 2 || channels == 4 || channels == 6) ==> r is Ok,
{
    if signal.channels != 1 {
        return Err(PanningError::NotMono(signal.channels));
    }
    if !(channels == 2 || channels == 4 || channels == 6) {
        return Err(PanningError::UnsupportedChannels(channels));
    }
    Ok(())
}

/// The checks of a dry/wet blend made once the blend amount is in range:
/// equal lengths, then equal sample rate and channels.
pub fn check_dry_wet<S>(dry: &AudioData<S>, wet: &AudioData<S>) -> (r: Result<(), MixingError>)
    ensures
        dry.samples@.len() != wet.samples@.len() ==> r == Err::<(), MixingError>(
            MixingError::LengthMismatch(dry.samples@.len() as usize, wet.samples@.len() as usize)),
        dry.samples@.len() == wet.samples@.len() && !(dry.sample_rate == wet.sample_rate && dry.channels == wet.channels)
            ==> (r matches Err(MixingError::InvalidParameter(m)) && m@ == "Sample rate and channels must match"@),
        dry.samples@.len() == wet.samples@.len() && dry.sample_rate == wet.sample_rate && dry.channels == wet.channels
            ==> r is Ok,
{
    if dry.samples.len() != wet.samples.len() {
        return Err(MixingError::LengthMismatch(dry.samples.len(), wet.samples.len()));
    }
    if dry.sample_rate != wet.sample_rate || dry.channels != wet.channels {
        return Err(MixingError::InvalidParameter(String::from_str("Sample rate and channels must match")));
    }
    Ok(())
}

} // verus!
