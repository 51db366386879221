//! The parameter checks and frame counts that precede the spectral
//! features and the constant-Q transforms: default sizes, positive sizes,
//! and enough signal for one frame or one FFT window.

use vstd::prelude::*;
use crate::errors::{AudioError, PhaseRecoveryError, SpectralError};
use crate::text::{decimal, push_decimal, push_text};

verus! {

/// The value of an optional size, or `default` when it is absent.
pub open spec fn size_or(o: Option<usize>, default: nat) -> nat {
    match o {
        Some(v) => v as nat,
        None => default,
    }
}

/// The number of whole frames of `frame_len` samples, `hop` apart, in a
/// signal of `len >= frame_len` samples.
pub open spec fn whole_frames(len: nat, frame_len: nat, hop: nat) -> nat
    recommends
        frame_len <= len,
        hop > 0,
{
    ((len - frame_len) as nat) / hop + 1
}

/// The FFT size (2048 by default) and hop (a quarter of the FFT size by
/// default) of a spectral feature of a signal of `len` samples: both must
/// be positive, and the signal at least one FFT window long.
pub fn stft_params(len: usize, n_fft: Option<usize>, hop_length: Option<usize>) -> (r: Result<(usize, usize), SpectralError>)
    ensures
        ({
            let n = size_or(n_fft, 2048);
            let h = size_or(hop_length, n / 4);
            &&& (n == 0 || h == 0) ==> (r matches Err(SpectralError::InvalidParameter(m))
                && m@ == "n_fft and hop_length must be positive"@)
            &&& (n != 0 && h != 0 && len < n) ==> (r matches Err(SpectralError::InvalidSize(m))
                && m@ == "Signal length must be at least n_fft"@)
            &&& (n != 0 && h != 0 && len >= n) ==> (r matches Ok((a, b)) && a == n && b == h)
        }),
{
    let n = match n_fft { Some(v) => v, None => 2048 };
    let h = match hop_length { Some(v) => v, None => n / 4 };
    if n == 0 || h == 0 {
        return Err(SpectralError::InvalidParameter(String::from_str("n_fft and hop_length must be positive")));
    }
    if len < n {
        return Err(SpectralError::InvalidSize(String::from_str("Signal length must be at least n_fft")));
    }
    Ok((n, h))
}

/// The frame length (2048 by default) and hop (a quarter of the frame
/// length by default) of a frame-wise feature: both must be positive.
pub fn frame_params(frame_length: Option<usize>, hop_length: Option<usize>) -> (r: Result<(usize, usize), SpectralError>)
    ensures
        ({
            let f = size_or(frame_length, 2048);
            let h = size_or(hop_length, f / 4);
            &&& (f == 0 || h == 0) ==> (r matches Err(SpectralError::InvalidParameter(m))
                && m@ == "frame_length and hop_length must be positive"@)
            &&& (f != 0 && h != 0) ==> (r matches Ok((a, b)) && a == f && b == h)
        }),
{
    let f = match frame_length { Some(v) => v, None => 2048 };
    let h = match hop_length { Some(v) => v, None => f / 4 };
    if f == 0 || h == 0 {
        return Err(SpectralError::InvalidParameter(String::from_str("frame_length and hop_length must be positive")));
    }
    Ok((f, h))
}

/// The number of whole frames of `frame_len` samples, `hop` apart, in a
/// signal of `len` samples; the signal must hold at least one frame.
pub fn frame_count(len: usize, frame_len: usize, hop: usize) -> (r: Result<usize, SpectralError>)
    requires
        frame_len > 0,
        hop > 0,
    ensures
        len < frame_len ==> (r matches Err(SpectralError::InvalidSize(m))
            && m@ == "Signal length must be at least frame_length"@),
        len >= frame_len ==> (r matches Ok(n) && n == whole_frames(len as nat, frame_len as nat, hop as nat)),
{
    if len < frame_len {
        return Err(SpectralError::InvalidSize(String::from_str("Signal length must be at least frame_length")));
    }
    Ok((len - frame_len) / hop + 1)
}

/// The parameters of harmonic/percussive separation of a signal of `len`
/// samples: FFT size (2048), hop (a quarter of it), and the harmonic and
/// percussive median widths (31 each), all positive, with the signal at
/// least one FFT window long.
pub fn hpss_params(
    len: usize,
    n_fft: Option<usize>,
    hop_length: Option<usize>,
    harm_win: Option<usize>,
    perc_win: Option<usize>,
) -> (r: Result<(usize, usize, usize, usize), SpectralError>)
    ensures
        ({
            let n = size_or(n_fft, 2048);
            let h = size_or(hop_length, n / 4);
            let hw = size_or(harm_win, 31);
            let pw = size_or(perc_win, 31);
            let positive = n != 0 && h != 0 && hw != 0 && pw != 0;
            &&& !positive ==> (r matches Err(SpectralError::InvalidParameter(m))
                && m@ == "n_fft, hop_length, harm_win, and perc_win must be positive"@)
            &&& (positive && len < n) ==> (r matches Err(SpectralError::InvalidSize(m))
                && m@ == "Signal length must be at least n_fft"@)
            &&& (positive && len >= n) ==> (r matches Ok((a, b, c, d)) && a == n && b == h && c == hw && d == pw)
        }),
{
    let n = match n_fft { Some(v) => v, None => 2048 };
    let h = match hop_length { Some(v) => v, None => n / 4 };
    let hw = match harm_win { Some(v) => v, None => 31 };
    let pw = match perc_win { Some(v) => v, None => 31 };
    if n == 0 || h == 0 || hw == 0 || pw == 0 {
        return Err(SpectralError::InvalidParameter(
            String::from_str("n_fft, hop_length, harm_win, and perc_win must be positive"),
        ));
    }
    if len < n {
        return Err(SpectralError::InvalidSize(String::from_str("Signal length must be at least n_fft")));
    }
    Ok((n, h, hw, pw))
}

/// The parameters of voice-activity features of a signal of `len` samples:
/// frame length (2048), hop (a quarter of it) and FFT size (2048), all
/// positive, with the signal at least one frame and one FFT window long;
/// also the number of whole frames.
pub fn vad_params(
    len: usize,
    frame_length: Option<usize>,
    hop_length: Option<usize>,
    n_fft: Option<usize>,
) -> (r: Result<(usize, usize, usize, usize), SpectralError>)
    ensures
        ({
            let f = size_or(frame_length, 2048);
            let h = size_or(hop_length, f / 4);
            let n = size_or(n_fft, 2048);
            let positive = f != 0 && h != 0 && n != 0;
            &&& !positive ==> (r matches Err(SpectralError::InvalidParameter(m))
                && m@ == "frame_length, hop_length, and n_fft must be positive"@)
            &&& (positive && (len < f || len < n)) ==> (r matches Err(SpectralError::InvalidSize(m))
                && m@ == "Signal length must be at least max(frame_length, n_fft)"@)
            &&& (positive && len >= f && len >= n) ==> (r matches Ok((a, b, c, k)) && a == f && b == h && c == n
                && k == whole_frames(len as nat, f, h))
        }),
{
    let f = match frame_length { Some(v) => v, None => 2048 };
    let h = match hop_length { Some(v) => v, None => f / 4 };
    let n = match n_fft { Some(v) => v, None => 2048 };
    if f == 0 || h == 0 || n == 0 {
        return Err(SpectralError::InvalidParameter(
            String::from_str("frame_length, hop_length, and n_fft must be positive"),
        ));
    }
    if len < f || len < n {
        return Err(SpectralError::InvalidSize(
            String::from_str("Signal length must be at least max(frame_length, n_fft)"),
        ));
    }
    Ok((f, h, n, (len - f) / h + 1))
}

/// The axis along which cepstral mean (and variance) normalisation runs
/// over a `rows × cols` feature matrix: a negative axis (the default) means
/// along the columns (axis 1), any other along the rows (axis 0); that axis
/// must hold at least two values.
pub fn cmvn_axis(axis: Option<isize>, rows: usize, cols: usize) -> (r: Result<usize, SpectralError>)
    ensures
        ({
            let ax: usize = match axis { Some(a) => if a < 0 { 1 } else { 0 }, None => 1 };
            let dim = if ax == 1 { cols } else { rows };
            &&& dim < 2 ==> (r matches Err(SpectralError::InvalidSize(m))
                && m@ == "Feature dimension too small for normalization"@)
            &&& dim >= 2 ==> (r matches Ok(a) && a == ax)
        }),
{
    let a = match axis { Some(v) => v, None => -1 };
    let ax: usize = if a < 0 { 1 } else { 0 };
    let dim = if ax == 1 { cols } else { rows };
    if dim < 2 {
        return Err(SpectralError::InvalidSize(String::from_str("Feature dimension too small for normalization")));
    }
    Ok(ax)
}

/// A transform that reads whole windows of `min` samples needs a signal of
/// at least that many samples.
pub fn check_min_length(len: usize, min: usize) -> (r: Result<(), AudioError>)
    ensures
        len < min ==> (r matches Err(AudioError::InsufficientData(m))
            && m@ == "Signal too short: "@ + decimal(len as nat) + " < "@ + decimal(min as nat)),
        len >= min ==> r is Ok,
{
    if len < min {
        let mut m = String::from_str("Signal too short: ");
        push_decimal(&mut m, len);
        push_text(&mut m, " < ");
        push_decimal(&mut m, min);
        return Err(AudioError::InsufficientData(m));
    }
    Ok(())
}

/// Phase recovery from a constant-Q magnitude needs at least one bin and one frame.
pub fn check_cqt_magnitude(n_bins: usize, n_frames: usize) -> (r: Result<(), PhaseRecoveryError>)
    ensures
        (n_bins == 0 || n_frames == 0) ==> (r matches Err(PhaseRecoveryError::ComputationFailed(m))
            && m@ == "Empty CQT magnitude spectrogram"@),
        !(n_bins == 0 || n_frames == 0) ==> r is Ok,
{
    if n_bins == 0 || n_frames == 0 {
        return Err(PhaseRecoveryError::ComputationFailed(String::from_str("Empty CQT magnitude spectrogram")));
    }
    Ok(())
}

/// The lags searched by the autocorrelation pitch tracker among `len`
/// autocorrelation values: from `lag_min` up to (not including) `lag_max`,
/// cut at the last value; empty when `lag_min` lies past that end.
pub fn autocorr_lag_range(lag_min: usize, lag_max: usize, len: usize) -> (r: (usize, usize))
    ensures
        r.1 == (if lag_max < len { lag_max } else { len }),
        r.0 == (if lag_min < r.1 { lag_min } else { r.1 }),
        r.0 <= r.1 <= len,
{
    let hi = if lag_max < len { lag_max } else { len };
    let lo = if lag_min < hi { lag_min } else { hi };
    (lo, hi)
}

} // verus!
