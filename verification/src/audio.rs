//! The interleaved sample container and the channel layout operations on it.
//!
//! The container is generic in its sample type: every operation here only
//! moves samples between positions, so what a sample is does not matter.

use vstd::prelude::*;
use crate::errors::{AudioError, MixingError};
use crate::text::{push_decimal, push_text};

verus! {

/// Interleaved samples (`[L1, R1, L2, R2, ...]` for stereo) together with
/// the sample rate in Hz and the number of channels.
#[derive(Debug, Clone)]
pub struct AudioData<S> {
    pub samples: Vec<S>,
    pub sample_rate: u32,
    pub channels: u16,
}

/// Channel `c` of the interleaved sequence `s` with `ch` channels: the
/// samples at positions `c`, `c + ch`, `c + 2 ch`, ... of the complete frames.
pub open spec fn channel_of<S>(s: Seq<S>, ch: nat, c: nat) -> Seq<S> {
    Seq::new(s.len() / ch, |f: int| s[f * ch + c])
}

/// All channels of the interleaved sequence `s` with `ch` channels.
pub open spec fn deinterleave<S>(s: Seq<S>, ch: nat) -> Seq<Seq<S>> {
    Seq::new(ch, |c: int| channel_of(s, ch, c as nat))
}

/// Interleaves `chans`, each `len` samples long: position `f * n + c` holds
/// sample `f` of channel `c`, where `n` is the number of channels.
pub open spec fn interleave<S>(chans: Seq<Seq<S>>, len: nat) -> Seq<S> {
    Seq::new(len * chans.len(), |i: int| chans[i % (chans.len() as int)][i / (chans.len() as int)])
}

proof fn lemma_index_split(f: int, ch: int, c: int)
    requires
        ch > 0,
        0 <= c < ch,
        f >= 0,
    ensures
        (f * ch + c) / ch == f,
        (f * ch + c) % ch == c,
{
    vstd::arithmetic::div_mod::lemma_fundamental_div_mod_converse(f * ch + c, ch, f, c);
}

proof fn lemma_frame_bound(f: int, ch: int, c: int, n: int)
    requires
        ch > 0,
        0 <= c < ch,
        0 <= f < n / ch,
        n >= 0,
    ensures
        0 <= f * ch + c < n,
{
    vstd::arithmetic::div_mod::lemma_fundamental_div_mod(n, ch);
    assert(f * ch + c < n) by (nonlinear_arith)
        requires
            f + 1 <= n / ch,
            c < ch,
            n == ch * (n / ch) + n % ch,
            n % ch >= 0,
            ch > 0,
    {
        assert((f + 1) * ch <= (n / ch) * ch) by (nonlinear_arith)
            requires f + 1 <= n / ch, ch > 0;
    }
    assert(0 <= f * ch) by (nonlinear_arith) requires f >= 0, ch > 0;
}

/// Splitting an interleaved sequence whose length is a whole number of frames
/// and interleaving the channels again gives the sequence back.
pub proof fn lemma_interleave_deinterleave<S>(s: Seq<S>, ch: nat)
    requires
        ch > 0,
        s.len() % ch == 0,
    ensures
        interleave(deinterleave(s, ch), s.len() / ch) =~= s,
{
    let d = deinterleave(s, ch);
    let n = s.len() / ch;
    vstd::arithmetic::div_mod::lemma_fundamental_div_mod(s.len() as int, ch as int);
    assert(n * ch == s.len()) by (nonlinear_arith)
        requires s.len() == ch * n + 0;
    assert forall|i: int| 0 <= i < s.len() implies #[trigger] interleave(d, n)[i] == s[i] by {
        let f = i / (ch as int);
        let c = i % (ch as int);
        vstd::arithmetic::div_mod::lemma_fundamental_div_mod(i, ch as int);
        assert(i == f * ch + c) by (nonlinear_arith) requires i == ch * f + c;
        assert(0 <= c < ch);
        assert(f < n) by (nonlinear_arith)
            requires i == f * ch + c, i < n * ch, c >= 0, ch > 0;
        assert(0 <= f) by (nonlinear_arith)
            requires i == f * ch + c, i >= 0, c < ch, ch > 0;
    }
}

/// Interleaving channels of equal length and splitting the result again
/// gives the channels back.
pub proof fn lemma_deinterleave_interleave<S>(chans: Seq<Seq<S>>, len: nat)
    requires
        chans.len() > 0,
        forall|c: int| 0 <= c < chans.len() ==> (#[trigger] chans[c]).len() == len,
    ensures
        deinterleave(interleave(chans, len), chans.len()) =~= chans,
{
    let ch = chans.len();
    let s = interleave(chans, len);
    assert(s.len() / ch == len) by {
        vstd::arithmetic::div_mod::lemma_div_by_multiple(len as int, ch as int);
        assert(len * ch == s.len());
    }
    assert forall|c: int| 0 <= c < ch implies #[trigger] deinterleave(s, ch)[c] =~= chans[c] by {
        assert forall|f: int| 0 <= f < len implies #[trigger] channel_of(s, ch, c as nat)[f]
            == chans[c][f] by {
            lemma_index_split(f, ch as int, c);
            lemma_frame_bound(f, ch as int, c, s.len() as int);
        }
    }
}

impl<S> AudioData<S> {
    /// Builds a container after checking that the sample rate and the channel
    /// count are positive.
    pub fn new(samples: Vec<S>, sample_rate: u32, channels: u16) -> (r: Result<Self, AudioError>)
        ensures
            sample_rate == 0 ==> (r matches Err(AudioError::InvalidInput(m))
                && m@ == "Sample rate must be positive"@),
            sample_rate != 0 && channels == 0 ==> (r matches Err(AudioError::InvalidInput(m))
                && m@ == "Channel count must be positive"@),
            sample_rate != 0 && channels != 0 ==> (r matches Ok(a) && a.samples@ == samples@
                && a.sample_rate == sample_rate && a.channels == channels),
    {
        if sample_rate == 0 {
            return Err(AudioError::InvalidInput(String::from_str("Sample rate must be positive")));
        }
        if channels == 0 {
            return Err(AudioError::InvalidInput(String::from_str("Channel count must be positive")));
        }
        Ok(AudioData { samples, sample_rate, channels })
    }

    /// Number of frames, that is of samples per channel.
    pub fn frame_count(&self) -> (n: usize)
        requires
            self.channels > 0,
        ensures
            n == self.samples@.len() / (self.channels as nat),
    {
        self.samples.len() / (self.channels as usize)
    }

    /// The samples, the sample rate and the channel count.
    pub fn to_raw(&self) -> (r: (&[S], u32, u16))
        ensures
            r.0@ == self.samples@,
            r.1 == self.sample_rate,
            r.2 == self.channels,
    {
        (self.samples.as_slice(), self.sample_rate, self.channels)
    }
}

impl<S: Copy> AudioData<S> {
    /// Separates the interleaved samples into one vector per channel; fails
    /// when the samples do not form whole frames.
    pub fn split_channels(&self) -> (r: Result<Vec<Vec<S>>, AudioError>)
        requires
            self.channels > 0,
        ensures
            self.samples@.len() % (self.channels as nat) != 0 ==> (r matches Err(
                AudioError::InvalidInput(m)) && m@ == "Sample length must be a multiple of channels"@),
            self.samples@.len() % (self.channels as nat) == 0 ==> (r matches Ok(v)
                && v@.len() == self.channels as nat
                && forall|c: int| 0 <= c < v@.len() ==> (#[trigger] v@[c])@
                    == deinterleave(self.samples@, self.channels as nat)[c]),
    {
        let ch = self.channels as usize;
        if self.samples.len() % ch != 0 {
            return Err(AudioError::InvalidInput(
                String::from_str("Sample length must be a multiple of channels"),
            ));
        }
        let frames = self.samples.len() / ch;
        let ghost s = self.samples@;
        let mut out: Vec<Vec<S>> = Vec::new();
        let mut c: usize = 0;
        while c < ch
            invariant
                ch == self.channels as usize,
                ch > 0,
                s == self.samples@,
                frames == s.len() / (ch as nat),
                c <= ch,
                out@.len() == c,
                forall|k: int| 0 <= k < c ==> (#[trigger] out@[k])@
                    == deinterleave(s, ch as nat)[k],
            decreases ch - c,
        {
            let mut chan: Vec<S> = Vec::new();
            let mut f: usize = 0;
            while f < frames
                invariant
                    ch == self.channels as usize,
                    ch > 0,
                    c < ch,
                    s == self.samples@,
                    frames == s.len() / (ch as nat),
                    f <= frames,
                    chan@ =~= channel_of(s, ch as nat, c as nat).take(f as int),
                decreases frames - f,
            {
                proof {
                    lemma_frame_bound(f as int, ch as int, c as int, s.len() as int);
                    assert(f * ch + c < s.len());
                    assert(0 <= f * ch) by (nonlinear_arith) requires f >= 0, ch > 0;
                    assert(f * ch + c < self.samples.len());
                }
                let idx = f * ch + c;
                chan.push(self.samples[idx]);
                f += 1;
            }
            proof {
                assert(chan@ =~= channel_of(s, ch as nat, c as nat));
            }
            out.push(chan);
            c += 1;
        }
        Ok(out)
    }
}

/// Interleaves two mono signals of the same length and sample rate into one
/// stereo signal.
pub fn stereo_mix<S: Copy>(left: &AudioData<S>, right: &AudioData<S>) -> (r: Result<AudioData<S>, MixingError>)
    ensures
        (left.channels != 1 || right.channels != 1) ==> (r matches Err(
            MixingError::IncompatibleFormat(m)) && m@ == "Both signals must be mono"@),
        (left.channels == 1 && right.channels == 1 && left.samples@.len() != right.samples@.len())
            ==> r == Err::<AudioData<S>, MixingError>(MixingError::LengthMismatch(
            left.samples@.len() as usize, right.samples@.len() as usize)),
        (left.channels == 1 && right.channels == 1 && left.samples@.len() == right.samples@.len()
            && left.sample_rate != right.sample_rate) ==> (r matches Err(
            MixingError::InvalidParameter(m)) && m@ == "Sample rates must match"@),
        (left.channels == 1 && right.channels == 1 && left.samples@.len() == right.samples@.len()
            && left.sample_rate == right.sample_rate) ==> (r matches Ok(a)
            && a.channels == 2 && a.sample_rate == left.sample_rate
            && a.samples@ == interleave(seq![left.samples@, right.samples@], left.samples@.len())),
{
    if left.channels != 1 || right.channels != 1 {
        return Err(MixingError::IncompatibleFormat(String::from_str("Both signals must be mono")));
    }
    if left.samples.len() != right.samples.len() {
        return Err(MixingError::LengthMismatch(left.samples.len(), right.samples.len()));
    }
    if left.sample_rate != right.sample_rate {
        return Err(MixingError::InvalidParameter(String::from_str("Sample rates must match")));
    }
    let n = left.samples.len();
    let ghost chans = seq![left.samples@, right.samples@];
    let mut samples: Vec<S> = Vec::new();
    let mut i: usize = 0;
    while i < n
        invariant
            n == left.samples@.len(),
            n == right.samples@.len(),
            chans == seq![left.samples@, right.samples@],
            i <= n,
            samples@ =~= interleave(chans, n as nat).take(2 * i),
        decreases n - i,
    {
        let ghost t = interleave(chans, n as nat);
        proof {
            lemma_index_split(i as int, 2, 0);
            lemma_index_split(i as int, 2, 1);
            assert(t.len() == n * 2);
            assert(t[2 * i] == left.samples@[i as int]);
            assert(t[2 * i + 1] == right.samples@[i as int]);
        }
        samples.push(left.samples[i]);
        samples.push(right.samples[i]);
        proof {
            assert(samples@ =~= t.take(2 * i + 2));
        }
        i += 1;
    }
    proof {
        assert(samples@ =~= interleave(chans, n as nat));
    }
    Ok(AudioData { samples, sample_rate: left.sample_rate, channels: 2 })
}

/// Whether signal `sig` can take part in a channel mix whose first signal
/// has `length` samples at `sample_rate`.
pub open spec fn fits_mix<S>(sig: AudioData<S>, length: nat, sample_rate: u32) -> bool {
    sig.channels == 1 && sig.samples@.len() == length && sig.sample_rate == sample_rate
}

/// The error that the channel mix reports for a signal that does not fit.
pub open spec fn mix_error_for<S>(e: MixingError, sig: AudioData<S>, length: nat, sample_rate: u32) -> bool {
    if sig.channels != 1 {
        e matches MixingError::IncompatibleFormat(m) && m@ == "All signals must be mono"@
    } else if sig.samples@.len() != length {
        e == MixingError::LengthMismatch(length as usize, sig.samples@.len() as usize)
    } else {
        e matches MixingError::InvalidParameter(m) && m@ == "Sample rates must match"@
    }
}

/// The samples of each of the signals.
pub open spec fn sample_seqs<S>(signals: Seq<&AudioData<S>>) -> Seq<Seq<S>> {
    Seq::new(signals.len(), |c: int| signals[c].samples@)
}

/// Interleaves mono signals of equal length and sample rate, one per output
/// channel, in the order given.
pub fn multi_channel_mix<S: Copy>(signals: &[&AudioData<S>], channels: u16) -> (r: Result<AudioData<S>, MixingError>)
    ensures
        signals@.len() == 0 ==> (r matches Err(MixingError::InvalidSignalCount(m))
            && m@ == "At least one signal is required"@),
        signals@.len() != 0 && signals@.len() != channels as nat ==> (r matches Err(
            MixingError::InvalidSignalCount(m)) && m@ == "Number of signals ("@
            + crate::text::decimal(signals@.len()) + ") must match target channels ("@
            + crate::text::decimal(channels as nat) + ")"@),
        signals@.len() != 0 && signals@.len() == channels as nat ==> {
            let length = signals@[0].samples@.len();
            let sr = signals@[0].sample_rate;
            &&& (forall|k: int| 0 <= k < signals@.len() ==> fits_mix(*#[trigger] signals@[k], length, sr))
                ==> (r matches Ok(a) && a.channels == channels && a.sample_rate == sr
                    && a.samples@ == interleave(sample_seqs(signals@), length))
            &&& forall|k: int| 0 <= k < signals@.len() && !fits_mix(*#[trigger] signals@[k], length, sr)
                && (forall|j: int| 0 <= j < k ==> fits_mix(*signals@[j], length, sr))
                ==> (r matches Err(e) && mix_error_for(e, *signals@[k], length, sr))
        },
{
    if signals.len() == 0 {
        return Err(MixingError::InvalidSignalCount(String::from_str("At least one signal is required")));
    }
    if signals.len() != channels as usize {
        let mut m = String::from_str("Number of signals (");
        push_decimal(&mut m, signals.len());
        push_text(&mut m, ") must match target channels (");
        push_decimal(&mut m, channels as usize);
        push_text(&mut m, ")");
        return Err(MixingError::InvalidSignalCount(m));
    }
    let n = signals.len();
    let length = signals[0].samples.len();
    let sample_rate = signals[0].sample_rate;
    let mut k: usize = 0;
    while k < n
        invariant
            n == signals@.len(),
            n > 0,
            n == channels as nat,
            length == signals@[0].samples@.len(),
            sample_rate == signals@[0].sample_rate,
            k <= n,
            forall|j: int| 0 <= j < k ==> fits_mix(*#[trigger] signals@[j], length as nat, sample_rate),
        decreases n - k,
    {
        let sig = signals[k];
        if sig.channels != 1 {
            return Err(MixingError::IncompatibleFormat(String::from_str("All signals must be mono")));
        }
        if sig.samples.len() != length {
            return Err(MixingError::LengthMismatch(length, sig.samples.len()));
        }
        if sig.sample_rate != sample_rate {
            return Err(MixingError::InvalidParameter(String::from_str("Sample rates must match")));
        }
        k += 1;
    }
    let ghost chans = sample_seqs(signals@);
    let ghost t = interleave(chans, length as nat);
    let mut samples: Vec<S> = Vec::new();
    let mut i: usize = 0;
    while i < length
        invariant
            n == signals@.len(),
            n > 0,
            chans == sample_seqs(signals@),
            t == interleave(chans, length as nat),
            forall|j: int| 0 <= j < n ==> fits_mix(*#[trigger] signals@[j], length as nat, sample_rate),
            i <= length,
            samples@ =~= t.take(i * n),
        decreases length - i,
    {
        let mut c: usize = 0;
        while c < n
            invariant
                n == signals@.len(),
                n > 0,
                chans == sample_seqs(signals@),
                t == interleave(chans, length as nat),
                forall|j: int| 0 <= j < n ==> fits_mix(*#[trigger] signals@[j], length as nat, sample_rate),
                i < length,
                c <= n,
                samples@ =~= t.take(i * n + c),
            decreases n - c,
        {
            proof {
                lemma_index_split(i as int, n as int, c as int);
                assert(fits_mix(*signals@[c as int], length as nat, sample_rate));
                assert(i * n + c < length * n) by (nonlinear_arith)
                    requires i < length, c < n;
                assert(t[i * n + c] == signals@[c as int].samples@[i as int]);
            }
            samples.push(signals[c].samples[i]);
            proof {
                assert(samples@ =~= t.take(i * n + c + 1));
            }
            c += 1;
        }
        proof {
            assert((i + 1) * n == i * n + n) by (nonlinear_arith);
        }
        i += 1;
    }
    proof {
        assert(t.len() == length * n);
        assert(samples@ =~= t);
    }
    Ok(AudioData { samples, sample_rate, channels })
}

} // verus!
