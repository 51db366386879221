//! Time-domain editing of a signal once times have been converted to sample
//! counts: delaying, reversing, cropping, padding, and the framing and
//! crossing bookkeeping of the analysis functions.

use vstd::prelude::*;
use crate::audio::AudioData;
use crate::errors::{AudioError, TimeDomainError};
use crate::text::{decimal, push_decimal, push_text};

verus! {

/// `n` copies of `x`.
pub open spec fn repeat<S>(x: S, n: nat) -> Seq<S> {
    Seq::new(n, |i: int| x)
}

pub fn push_repeat<S: Copy>(v: &mut Vec<S>, x: S, n: usize)
    ensures
        final(v)@ == old(v)@ + repeat(x, n as nat),
{
    let ghost start = v@;
    let mut i: usize = 0;
    while i < n
        invariant
            i <= n,
            v@ =~= start + repeat(x, i as nat),
        decreases n - i,
    {
        v.push(x);
        i += 1;
    }
}

pub fn push_slice<S: Copy>(v: &mut Vec<S>, s: &[S], from: usize, to: usize)
    requires
        from <= to <= s@.len(),
    ensures
        final(v)@ == old(v)@ + s@.subrange(from as int, to as int),
{
    let ghost start = v@;
    let mut i: usize = from;
    while i < to
        invariant
            from <= i <= to,
            to <= s@.len(),
            v@ =~= start + s@.subrange(from as int, i as int),
        decreases to - i,
    {
        v.push(s[i]);
        i += 1;
    }
}

/// Shifts the signal later by `delay_samples` samples of `silence`; with
/// `preserve_length` the tail that would run past the input length is cut.
pub fn delay<S: Copy>(signal: &AudioData<S>, delay_samples: usize, preserve_length: bool, silence: S) -> (r: AudioData<S>)
    ensures
        r.sample_rate == signal.sample_rate,
        r.channels == signal.channels,
        preserve_length ==> r.samples@ == repeat(silence, delay_samples as nat)
            + signal.samples@.take(if delay_samples <= signal.samples@.len() {
            signal.samples@.len() - delay_samples } else { 0 }),
        !preserve_length ==> r.samples@ == repeat(silence, delay_samples as nat) + signal.samples@,
{
    let n = signal.samples.len();
    let mut samples: Vec<S> = Vec::new();
    push_repeat(&mut samples, silence, delay_samples);
    if preserve_length {
        let take = n.saturating_sub(delay_samples);
        push_slice(&mut samples, signal.samples.as_slice(), 0, take);
    } else {
        push_slice(&mut samples, signal.samples.as_slice(), 0, n);
    }
    proof {
        assert(signal.samples@.subrange(0, n as int) =~= signal.samples@);
    }
    AudioData { samples, sample_rate: signal.sample_rate, channels: signal.channels }
}

/// Reverses the order of the samples; an empty signal is refused.
pub fn time_reversal<S: Copy>(signal: &AudioData<S>) -> (r: Result<AudioData<S>, TimeDomainError>)
    ensures
        signal.samples@.len() == 0 ==> (r matches Err(TimeDomainError::InvalidLength(m))
            && m@ == "Signal cannot be empty"@),
        signal.samples@.len() != 0 ==> (r matches Ok(a) && a.samples@ == signal.samples@.reverse()
            && a.sample_rate == signal.sample_rate && a.channels == signal.channels),
{
    if signal.samples.len() == 0 {
        return Err(TimeDomainError::InvalidLength(String::from_str("Signal cannot be empty")));
    }
    let n = signal.samples.len();
    let mut samples: Vec<S> = Vec::new();
    let mut i: usize = 0;
    while i < n
        invariant
            n == signal.samples@.len(),
            i <= n,
            samples@ =~= signal.samples@.reverse().take(i as int),
        decreases n - i,
    {
        samples.push(signal.samples[n - 1 - i]);
        i += 1;
    }
    Ok(AudioData { samples, sample_rate: signal.sample_rate, channels: signal.channels })
}

/// Reversing twice gives the signal back.
pub proof fn lemma_reversal_involution<S>(s: Seq<S>)
    ensures
        s.reverse().reverse() =~= s,
{
}

/// Keeps `duration_samples` samples starting at `start_samples`, cut short at
/// the end of the signal; a start at or past the end is refused.
pub fn time_crop<S: Copy>(signal: &AudioData<S>, start_samples: usize, duration_samples: usize) -> (r: Result<AudioData<S>, TimeDomainError>)
    ensures
        start_samples >= signal.samples@.len() ==> r == Err::<AudioData<S>, TimeDomainError>(
            TimeDomainError::InvalidCropRange(start_samples, duration_samples, signal.samples@.len() as usize)),
        start_samples < signal.samples@.len() ==> (r matches Ok(a)
            && a.samples@ == signal.samples@.subrange(start_samples as int,
                crop_end(start_samples as nat, duration_samples as nat, signal.samples@.len()) as int)
            && a.sample_rate == signal.sample_rate && a.channels == signal.channels),
{
    let n = signal.samples.len();
    let end_samples = start_samples.saturating_add(duration_samples);
    if start_samples >= n {
        return Err(TimeDomainError::InvalidCropRange(start_samples, duration_samples, n));
    }
    let end = if end_samples < n { end_samples } else { n };
    let mut samples: Vec<S> = Vec::new();
    push_slice(&mut samples, signal.samples.as_slice(), start_samples, end);
    Ok(AudioData { samples, sample_rate: signal.sample_rate, channels: signal.channels })
}

/// The end of a crop: the start plus the duration (saturating at the largest
/// count), but never past the end of the signal.
pub open spec fn crop_end(start: nat, duration: nat, len: nat) -> nat {
    let e = if start + duration > usize::MAX { usize::MAX as nat } else { start + duration };
    if e < len { e } else { len }
}

/// Surrounds the signal with `start_samples` and `end_samples` samples of
/// `silence`.
pub fn zero_padding<S: Copy>(signal: &AudioData<S>, start_samples: usize, end_samples: usize, silence: S) -> (r: AudioData<S>)
    ensures
        r.samples@ == repeat(silence, start_samples as nat) + signal.samples@ + repeat(silence, end_samples as nat),
        r.sample_rate == signal.sample_rate,
        r.channels == signal.channels,
{
    let mut samples: Vec<S> = Vec::new();
    push_repeat(&mut samples, silence, start_samples);
    push_slice(&mut samples, signal.samples.as_slice(), 0, signal.samples.len());
    push_repeat(&mut samples, silence, end_samples);
    proof {
        assert(signal.samples@.subrange(0, signal.samples@.len() as int) =~= signal.samples@);
    }
    AudioData { samples, sample_rate: signal.sample_rate, channels: signal.channels }
}

/// Cropping a padded signal at the end of the leading padding, for the
/// length of the unpadded signal, gives that signal back.
pub proof fn lemma_crop_undoes_padding<S>(s: Seq<S>, silence: S, a: nat, b: nat)
    requires
        s.len() > 0,
        a + s.len() + b <= usize::MAX,
    ensures
        ({
            let p = repeat(silence, a) + s + repeat(silence, b);
            &&& a < p.len()
            &&& p.subrange(a as int, crop_end(a, s.len(), p.len()) as int) =~= s
        }),
{
}

/// The number of lags an autocorrelation computes: `max_size` when given,
/// else the whole length; empty signals and lags beyond the length are
/// refused.
pub fn autocorrelate_lags(len: usize, max_size: Option<usize>) -> (r: Result<usize, TimeDomainError>)
    ensures
        len == 0 ==> (r matches Err(TimeDomainError::InvalidLength(m)) && m@ == "Signal cannot be empty"@),
        len != 0 ==> {
            let lags = match max_size { Some(m) => m, None => len };
            &&& lags <= len ==> r == Ok::<usize, TimeDomainError>(lags)
            &&& lags > len ==> (r matches Err(TimeDomainError::InvalidTime(m))
                && m@ == "Max lag "@ + decimal(lags as nat) + " exceeds signal length "@ + decimal(len as nat))
        },
{
    if len == 0 {
        return Err(TimeDomainError::InvalidLength(String::from_str("Signal cannot be empty")));
    }
    let max_lag = match max_size { Some(m) => m, None => len };
    if max_lag > len {
        let mut m = String::from_str("Max lag ");
        push_decimal(&mut m, max_lag);
        push_text(&mut m, " exceeds signal length ");
        push_decimal(&mut m, len);
        return Err(TimeDomainError::InvalidTime(m));
    }
    Ok(max_lag)
}

/// The precondition of linear prediction of order `order`: more samples than
/// the order.
pub fn check_lpc_order(len: usize, order: usize) -> (r: Result<(), TimeDomainError>)
    ensures
        len <= order ==> (r matches Err(TimeDomainError::Audio(AudioError::InvalidRange))),
        len > order ==> r is Ok,
{
    if len <= order {
        return Err(TimeDomainError::Audio(AudioError::InvalidRange));
    }
    Ok(())
}

/// Positions `i >= 1` at which `signs[i]` differs from `signs[i - 1]`.
pub open spec fn crossings(signs: Seq<bool>, k: int) -> Seq<usize>
    decreases k,
{
    if k <= 1 {
        Seq::empty()
    } else if signs[k - 1] != signs[k - 2] {
        crossings(signs, k - 1).push((k - 1) as usize)
    } else {
        crossings(signs, k - 1)
    }
}

/// Zero crossings of a signal, given for each sample whether it lies at or
/// above the threshold: the positions where that changes; with `pad`, a
/// signal without crossings reports position 0.
pub fn zero_crossings(signs: &[bool], pad: bool) -> (r: Result<Vec<usize>, TimeDomainError>)
    ensures
        signs@.len() == 0 ==> (r matches Err(TimeDomainError::InvalidLength(m)) && m@ == "Signal cannot be empty"@),
        signs@.len() != 0 ==> (r matches Ok(v) && v@ == (if pad && crossings(signs@, signs@.len() as int).len() == 0 {
            seq![0usize] } else { crossings(signs@, signs@.len() as int) })),
{
    if signs.len() == 0 {
        return Err(TimeDomainError::InvalidLength(String::from_str("Signal cannot be empty")));
    }
    let mut out: Vec<usize> = Vec::new();
    let mut prev = signs[0];
    let mut i: usize = 1;
    while i < signs.len()
        invariant
            1 <= i <= signs@.len(),
            prev == signs@[i - 1],
            out@ == crossings(signs@, i as int),
        decreases signs.len() - i,
    {
        let sign = signs[i];
        if sign != prev {
            out.push(i);
        }
        prev = sign;
        i += 1;
    }
    if pad && out.len() == 0 {
        out.push(0);
    }
    Ok(out)
}

/// Every reported crossing lies inside the signal and marks a change.
pub proof fn lemma_crossings_mark_changes(signs: Seq<bool>, k: int)
    requires
        0 <= k <= signs.len(),
        k <= usize::MAX,
    ensures
        forall|j: int| 0 <= j < crossings(signs, k).len() ==> {
            let p = #[trigger] crossings(signs, k)[j] as int;
            1 <= p < k && signs[p] != signs[p - 1]
        },
    decreases k,
{
    if k > 1 {
        lemma_crossings_mark_changes(signs, k - 1);
        let c = crossings(signs, k);
        let pc = crossings(signs, k - 1);
        assert forall|j: int| 0 <= j < c.len() implies {
            let p = #[trigger] c[j] as int;
            1 <= p < k && signs[p] != signs[p - 1]
        } by {
            if j < pc.len() {
                assert(c[j] == pc[j]);
            }
        }
    }
}

/// Frame length, hop and frame count of the log-energy analysis, after the
/// checks that the signal is not empty, the frame is positive and fits, and
/// the hop (by default a quarter of the frame) is positive.
pub fn log_energy_frames(len: usize, frame_length: Option<usize>, hop_length: Option<usize>) -> (r: Result<(usize, usize, usize), TimeDomainError>)
    ensures
        len == 0 ==> (r matches Err(TimeDomainError::InvalidLength(m)) && m@ == "Signal cannot be empty"@),
        len != 0 ==> {
            let fl = match frame_length { Some(f) => f, None => 2048usize };
            let hop = match hop_length { Some(h) => h, None => (fl / 4) as usize };
            &&& fl == 0 ==> (r matches Err(TimeDomainError::InvalidTime(m)) && m@ == "Frame length must be positive"@)
            &&& fl != 0 && fl > len ==> (r matches Err(TimeDomainError::InvalidTime(m))
                && m@ == "Frame length "@ + decimal(fl as nat) + " exceeds signal length "@ + decimal(len as nat))
            &&& fl != 0 && fl <= len && hop == 0 ==> (r matches Err(TimeDomainError::InvalidTime(m))
                && m@ == "Hop length must be positive"@)
            &&& fl != 0 && fl <= len && hop != 0 ==> r == Ok::<(usize, usize, usize), TimeDomainError>(
                (fl, hop, ((len - fl) / (hop as int) + 1) as usize))
        },
{
    if len == 0 {
        return Err(TimeDomainError::InvalidLength(String::from_str("Signal cannot be empty")));
    }
    let frame_len = match frame_length { Some(f) => f, None => 2048 };
    if frame_len == 0 {
        return Err(TimeDomainError::InvalidTime(String::from_str("Frame length must be positive")));
    }
    if frame_len > len {
        let mut m = String::from_str("Frame length ");
        push_decimal(&mut m, frame_len);
        push_text(&mut m, " exceeds signal length ");
        push_decimal(&mut m, len);
        return Err(TimeDomainError::InvalidTime(m));
    }
    let hop = match hop_length { Some(h) => h, None => frame_len / 4 };
    if hop == 0 {
        return Err(TimeDomainError::InvalidTime(String::from_str("Hop length must be positive")));
    }
    Ok((frame_len, hop, (len - frame_len) / hop + 1))
}

} // verus!
