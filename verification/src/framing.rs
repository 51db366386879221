use vstd::prelude::*;
use crate::errors::{AudioError, TuningError};
use crate::text::{decimal, push_decimal, push_text};
use crate::time_domain::{push_repeat, push_slice, repeat};

verus! {

/// Number of analysis frames of length `frame_length` taken every
/// `hop_length` samples from a signal of `signal_len` samples; a signal
/// shorter than one frame still yields a single frame.
pub open spec fn spec_n_frames(signal_len: nat, frame_length: nat, hop_length: nat) -> nat {
    if signal_len < frame_length {
        1
    } else {
        ((signal_len - frame_length) as nat / hop_length + 1) as nat
    }
}

/// The frame count of a signal at least one frame long: the last frame ends
/// inside the signal and one more hop would run past its end.
pub proof fn lemma_frames_cover(signal_len: nat, frame_length: nat, hop_length: nat)
    requires
        hop_length > 0,
        signal_len >= frame_length,
    ensures
        spec_n_frames(signal_len, frame_length, hop_length) >= 1,
        (spec_n_frames(signal_len, frame_length, hop_length) - 1) * hop_length + frame_length
            <= signal_len,
        signal_len < spec_n_frames(signal_len, frame_length, hop_length) * hop_length
            + frame_length,
{
    let d = (signal_len - frame_length) as nat;
    let q = d / hop_length;
    vstd::arithmetic::div_mod::lemma_fundamental_div_mod(d as int, hop_length as int);
    assert(q * hop_length <= d) by (nonlinear_arith)
        requires d == hop_length * q + d % hop_length, d % hop_length >= 0, q >= 0;
    let r = d % hop_length;
    assert(d < (q + 1) * hop_length) by (nonlinear_arith)
        requires d == hop_length * q + r, r < hop_length;
}

/// Counts the frames used by the pitch trackers.
pub fn calculate_n_frames(signal_len: usize, frame_length: usize, hop_length: usize) -> (n: usize)
    requires
        signal_len >= frame_length ==> hop_length > 0,
        spec_n_frames(signal_len as nat, frame_length as nat, hop_length as nat) <= usize::MAX,
    ensures
        n == spec_n_frames(signal_len as nat, frame_length as nat, hop_length as nat),
        n >= 1,
{
    if signal_len < frame_length {
        1
    } else {
        (signal_len - frame_length) / hop_length + 1
    }
}

/// The sample range of frame `i`: it starts `i` hops in and is cut at the
/// end of the signal.
pub open spec fn frame_range(len: nat, frame_length: nat, hop_length: nat, i: nat) -> (nat, nat) {
    let start = i * hop_length;
    (start, if start + frame_length < len { (start + frame_length) as nat } else { len })
}

/// The sample ranges of the first `n_frames` analysis frames.
pub fn frame_ranges(len: usize, frame_length: usize, hop_length: usize, n_frames: usize) -> (r: Vec<(usize, usize)>)
    requires
        n_frames == 0 || (n_frames - 1) * hop_length <= len,
        n_frames == 0 || (n_frames - 1) * hop_length + frame_length <= usize::MAX,
    ensures
        r@.len() == n_frames,
        forall|i: int| 0 <= i < n_frames ==> (#[trigger] r@[i]).0 as nat
            == frame_range(len as nat, frame_length as nat, hop_length as nat, i as nat).0
            && r@[i].1 as nat == frame_range(len as nat, frame_length as nat, hop_length as nat, i as nat).1
            && r@[i].0 <= r@[i].1 <= len,
{
    let mut out: Vec<(usize, usize)> = Vec::new();
    let mut i: usize = 0;
    while i < n_frames
        invariant
            i <= n_frames,
            n_frames == 0 || (n_frames - 1) * hop_length <= len,
            n_frames == 0 || (n_frames - 1) * hop_length + frame_length <= usize::MAX,
            out@.len() == i,
            forall|k: int| 0 <= k < i ==> (#[trigger] out@[k]).0 as nat
                == frame_range(len as nat, frame_length as nat, hop_length as nat, k as nat).0
                && out@[k].1 as nat == frame_range(len as nat, frame_length as nat, hop_length as nat, k as nat).1
                && out@[k].0 <= out@[k].1 <= len,
        decreases n_frames - i,
    {
        proof {
            assert(i * hop_length <= (n_frames - 1) * hop_length) by (nonlinear_arith)
                requires i <= n_frames - 1;
        }
        let start = i * hop_length;
        let end = if start + frame_length < len { start + frame_length } else { len };
        out.push((start, end));
        i += 1;
    }
    out
}

/// Hop and frame count of the pitch trackers: the hop defaults to a quarter
/// of the frame and is at least one sample. With the default hop, a short
/// signal (shorter than two frames) is analysed as a single frame;
/// otherwise every whole frame, one hop apart, is analysed.
pub fn pitch_frames(signal_len: usize, frame_length: usize, hop_length: Option<usize>) -> (r: (usize, usize))
    requires
        signal_len >= frame_length,
        signal_len < usize::MAX,
    ensures
        r.0 == (match hop_length { Some(h) => if h >= 1 { h } else { 1 }, None => if frame_length / 4 >= 1 {
            (frame_length / 4) as usize } else { 1 } }),
        r.1 == (if hop_length is None && signal_len < 2 * frame_length { 1 }
            else { spec_n_frames(signal_len as nat, frame_length as nat, r.0 as nat) }),
        r.1 >= 1,
        (r.1 - 1) * r.0 + frame_length <= signal_len,
{
    let h = match hop_length { Some(h) => h, None => frame_length / 4 };
    let hop = if h >= 1 { h } else { 1 };
    proof {
        lemma_frames_cover(signal_len as nat, frame_length as nat, hop as nat);
        vstd::arithmetic::div_mod::lemma_div_is_ordered_by_denominator(
            (signal_len - frame_length) as int, 1, hop as int);
    }
    if hop_length.is_none() && signal_len - frame_length < frame_length {
        return (hop, 1);
    }
    let n = calculate_n_frames(signal_len, frame_length, hop);
    (hop, n)
}

/// The length check of the pitch trackers, made after the frequency range
/// has been checked.
pub fn check_signal_length(signal_len: usize, frame_length: usize) -> (r: Result<(), TuningError>)
    ensures
        signal_len < frame_length ==> (r matches Err(TuningError::InsufficientData(m))
            && m@ == "Signal length is less than frame length"@),
        signal_len >= frame_length ==> r is Ok,
{
    if signal_len < frame_length {
        return Err(TuningError::InsufficientData(String::from_str("Signal length is less than frame length")));
    }
    Ok(())
}

/// The padding added on each side of a centred signal: `pad` mirrored
/// samples (not repeating the edge sample) when the signal is longer than
/// `pad`, else `pad` samples of silence.
pub open spec fn reflect_padded<S>(y: Seq<S>, pad: nat, silence: S) -> Seq<S> {
    if y.len() > pad {
        Seq::new(pad, |i: int| y[pad - i]) + y + Seq::new(pad, |i: int| y[y.len() - 2 - i])
    } else {
        repeat(silence, pad) + y + repeat(silence, pad)
    }
}

/// Reflect padding keeps the signal in the middle and mirrors it about its
/// first and its last sample: `pad` samples on each side, the padded signal
/// symmetric about both ends of the original. A signal no longer than `pad`
/// is padded with silence instead.
pub proof fn lemma_reflect_padding_mirrors<S>(y: Seq<S>, pad: nat, silence: S)
    ensures
        ({
            let r = reflect_padded(y, pad, silence);
            let n = y.len();
            &&& r.len() == n + 2 * pad
            &&& r.subrange(pad as int, (pad + n) as int) == y
            &&& n > pad ==> forall|k: int| 1 <= k <= pad ==> #[trigger] r[pad - k] == r[pad + k]
                && r[pad + n - 1 + k] == r[pad + n - 1 - k]
            &&& n <= pad ==> forall|i: int| 0 <= i < pad ==> #[trigger] r[i] == silence && r[pad + n + i] == silence
        }),
{
    let r = reflect_padded(y, pad, silence);
    let n = y.len();
    if n > pad {
        let left = Seq::new(pad, |i: int| y[pad - i]);
        let right = Seq::new(pad, |i: int| y[n - 2 - i]);
        assert(r == left + y + right);
        assert forall|k: int| 1 <= k <= pad implies #[trigger] r[pad - k] == r[pad + k]
            && r[pad + n - 1 + k] == r[pad + n - 1 - k] by {
            assert(r[pad - k] == left[pad - k]);
            assert(r[pad + k] == y[k]);
            assert(r[pad + n - 1 + k] == right[k - 1]);
            assert(r[pad + n - 1 - k] == y[n - 1 - k]);
        }
        assert(r.subrange(pad as int, (pad + n) as int) =~= y);
    } else {
        assert(r.subrange(pad as int, (pad + n) as int) =~= y);
    }
}

/// Pads a signal on both sides by reflection, or with silence when it is
/// too short to reflect.
pub fn reflect_pad<S: Copy>(y: &[S], pad: usize, silence: S) -> (r: Vec<S>)
    ensures
        r@ == reflect_padded(y@, pad as nat, silence),
        r@.len() == y@.len() + 2 * pad,
        r@.subrange(pad as int, pad + y@.len()) == y@,
        y@.len() > pad ==> forall|k: int| 1 <= k <= pad ==> #[trigger] r@[pad - k] == r@[pad + k]
            && r@[pad + y@.len() - 1 + k] == r@[pad + y@.len() - 1 - k],
{
    proof {
        lemma_reflect_padding_mirrors(y@, pad as nat, silence);
    }
    let n = y.len();
    let mut out: Vec<S> = Vec::new();
    if n > pad {
        let mut i: usize = 0;
        while i < pad
            invariant
                n == y@.len(),
                n > pad,
                i <= pad,
                out@ =~= Seq::new(pad as nat, |k: int| y@[pad - k]).take(i as int),
            decreases pad - i,
        {
            out.push(y[pad - i]);
            i += 1;
        }
        push_slice(&mut out, y, 0, n);
        let ghost mid = out@;
        let mut j: usize = 0;
        while j < pad
            invariant
                n == y@.len(),
                n > pad,
                j <= pad,
                out@ =~= mid + Seq::new(pad as nat, |k: int| y@[n - 2 - k]).take(j as int),
            decreases pad - j,
        {
            out.push(y[n - 2 - j]);
            j += 1;
        }
        proof {
            assert(y@.subrange(0, n as int) =~= y@);
        }
    } else {
        push_repeat(&mut out, silence, pad);
        push_slice(&mut out, y, 0, n);
        push_repeat(&mut out, silence, pad);
        proof {
            assert(y@.subrange(0, n as int) =~= y@);
        }
    }
    out
}

/// The window as it sits in an FFT frame of `n_fft` samples: centred with
/// silence on both sides when shorter, its centre part when longer.
pub open spec fn fitted_window<S>(win: Seq<S>, n_fft: nat, silence: S) -> Seq<S> {
    if win.len() <= n_fft {
        let lpad = ((n_fft - win.len()) as nat / 2) as nat;
        repeat(silence, lpad) + win + repeat(silence, (n_fft - win.len() - lpad) as nat)
    } else {
        let start = (win.len() - n_fft) as nat / 2;
        win.subrange(start as int, (start + n_fft) as int)
    }
}

/// Places an analysis window of any length in an FFT frame of `n_fft`
/// samples.
pub fn fit_window<S: Copy>(win: &[S], n_fft: usize, silence: S) -> (r: Vec<S>)
    ensures
        r@ == fitted_window(win@, n_fft as nat, silence),
        r@.len() == n_fft,
{
    let wl = win.len();
    let mut out: Vec<S> = Vec::new();
    if wl <= n_fft {
        let lpad = (n_fft - wl) / 2;
        push_repeat(&mut out, silence, lpad);
        push_slice(&mut out, win, 0, wl);
        push_repeat(&mut out, silence, n_fft - wl - lpad);
        proof {
            assert(win@.subrange(0, wl as int) =~= win@);
        }
    } else {
        let start = (wl - n_fft) / 2;
        push_slice(&mut out, win, start, start + n_fft);
    }
    out
}

/// Number of frames of a short-time Fourier transform of `y_len` samples,
/// after centring pads `n_fft / 2` samples on each side; refuses an empty
/// FFT size and a signal shorter than one frame.
pub fn stft_frames(y_len: usize, n_fft: usize, hop_length: usize, center: bool) -> (r: Result<usize, AudioError>)
    requires
        y_len + n_fft <= usize::MAX,
    ensures
        n_fft == 0 ==> (r matches Err(AudioError::InvalidInput(m)) && m@ == "n_fft must be positive"@),
        n_fft != 0 ==> {
            let padded = if center { y_len + 2 * (n_fft / 2) } else { y_len as int };
            let hop = if hop_length >= 1 { hop_length as int } else { 1 };
            &&& padded < n_fft ==> (r matches Err(AudioError::InsufficientData(m))
                && m@ == "Signal too short: "@ + decimal(padded as nat) + " < n_fft "@ + decimal(n_fft as nat))
            &&& padded >= n_fft ==> r == Ok::<usize, AudioError>((1 + (padded - n_fft) / hop) as usize)
        },
{
    if n_fft == 0 {
        return Err(AudioError::InvalidInput(String::from_str("n_fft must be positive")));
    }
    let hop = if hop_length >= 1 { hop_length } else { 1 };
    let padded = if center { y_len + 2 * (n_fft / 2) } else { y_len };
    if padded < n_fft {
        let mut m = String::from_str("Signal too short: ");
        push_decimal(&mut m, padded);
        push_text(&mut m, " < n_fft ");
        push_decimal(&mut m, n_fft);
        return Err(AudioError::InsufficientData(m));
    }
    proof {
        vstd::arithmetic::div_mod::lemma_div_is_ordered_by_denominator((padded - n_fft) as int, 1, hop as int);
    }
    Ok(1 + (padded - n_fft) / hop)
}

/// The number of frequency bins of an STFT with `n_fft`-sample frames: the
/// non-negative frequencies `0..=n_fft / 2`.
pub fn stft_bins(n_fft: usize) -> (r: usize)
    ensures
        r == n_fft / 2 + 1,
{
    n_fft / 2 + 1
}

/// The hop of an inverse STFT: the given hop, else a quarter of the window,
/// and at least one sample.
pub open spec fn istft_hop(win_length: nat, hop_length: Option<usize>) -> nat {
    let h = match hop_length { Some(h) => h as nat, None => win_length / 4 };
    if h >= 1 { h } else { 1 }
}

/// The layout of an inverse STFT of `n_bins` frequency bins by `n_frames`
/// frames: the FFT size, the window length (the FFT size by default), the
/// hop, the length of the overlap-added signal, where the output starts in
/// it (past the centring pad), and the output length (the given `length`,
/// else the signal without its centring pads).
pub fn istft_layout(
    n_bins: usize,
    n_frames: usize,
    hop_length: Option<usize>,
    win_length: Option<usize>,
    center: bool,
    length: Option<usize>,
) -> (r: (usize, usize, usize, usize, usize, usize))
    requires
        n_bins >= 1,
        (n_bins - 1) * 2 <= usize::MAX,
        n_frames == 0 || istft_hop(match win_length { Some(w) => w as nat, None => ((n_bins - 1) * 2) as nat },
            hop_length) * (n_frames - 1) + (n_bins - 1) * 2 <= usize::MAX,
    ensures
        ({
            let n_fft = (n_bins - 1) * 2;
            let win = match win_length { Some(w) => w as int, None => n_fft };
            let hop = istft_hop(win as nat, hop_length);
            let full = if n_frames == 0 { 0 } else { hop * (n_frames - 1) + n_fft };
            &&& r.0 == n_fft
            &&& r.1 == win
            &&& r.2 == hop
            &&& r.3 == full
            &&& r.4 == (if center { n_fft / 2 } else { 0 })
            &&& r.5 == (match length { Some(l) => l as int, None => if center {
                    if full >= n_fft { full - n_fft } else { 0 } } else { full } })
        }),
{
    let n_fft = (n_bins - 1) * 2;
    let win = match win_length { Some(w) => w, None => n_fft };
    let h = match hop_length { Some(h) => h, None => win / 4 };
    let hop = if h >= 1 { h } else { 1 };
    let full = if n_frames == 0 { 0 } else { hop * (n_frames - 1) + n_fft };
    let start = if center { n_fft / 2 } else { 0 };
    let target = match length {
        Some(l) => l,
        None => if center { full.saturating_sub(n_fft) } else { full },
    };
    (n_fft, win, hop, full, start, target)
}

/// The layout of Griffin-Lim phase recovery for a magnitude spectrogram of
/// `n_bins` frequency bins by `n_frames` frames: the FFT size, the hop (the
/// given hop, else a quarter of the FFT size, and at least one sample) and
/// the length of the reconstructed signal.
pub fn griffinlim_layout(n_bins: usize, n_frames: usize, hop_length: Option<usize>) -> (r: (usize, usize, usize))
    requires
        n_bins >= 1,
        n_frames >= 1,
        (n_bins - 1) * 2 + istft_hop(((n_bins - 1) * 2) as nat, hop_length) * (n_frames - 1) <= usize::MAX,
    ensures
        r.0 == (n_bins - 1) * 2,
        r.1 == istft_hop(r.0 as nat, hop_length),
        r.2 == r.1 * (n_frames - 1) + r.0,
        r.1 >= 1,
{
    let n_fft = (n_bins - 1) * 2;
    let h = match hop_length { Some(h) => h, None => n_fft / 4 };
    let hop = if h >= 1 { h } else { 1 };
    (n_fft, hop, hop * (n_frames - 1) + n_fft)
}

/// `len` samples read from `signal` from position `start` on, with `silence`
/// past its end.
pub open spec fn excerpt<S>(signal: Seq<S>, start: nat, len: nat, silence: S) -> Seq<S> {
    Seq::new(len, |i: int| if start + i < signal.len() { signal[start + i] } else { silence })
}

/// Reads `len` samples from position `start` on, filling past the end of
/// the signal with `silence`.
pub fn centered_excerpt<S: Copy>(signal: &[S], start: usize, len: usize, silence: S) -> (r: Vec<S>)
    requires
        start + len <= usize::MAX,
    ensures
        r@ == excerpt(signal@, start as nat, len as nat, silence),
{
    let mut out: Vec<S> = Vec::new();
    let mut i: usize = 0;
    while i < len
        invariant
            i <= len,
            start + len <= usize::MAX,
            out@ =~= excerpt(signal@, start as nat, len as nat, silence).take(i as int),
        decreases len - i,
    {
        let idx = start + i;
        if idx < signal.len() {
            out.push(signal[idx]);
        } else {
            out.push(silence);
        }
        i += 1;
    }
    out
}

/// The blocks cut from `s` starting at `pos`, at most `left` of them: whole
/// frames every `hop` samples, then the remaining tail padded with silence
/// to a full frame, which ends the stream.
pub open spec fn blocks_from<S>(s: Seq<S>, frame_length: nat, hop: nat, silence: S, pos: nat, left: nat) -> Seq<Seq<S>>
    decreases left,
{
    if left == 0 {
        Seq::empty()
    } else if pos + frame_length <= s.len() {
        seq![s.subrange(pos as int, (pos + frame_length) as int)] + blocks_from(s, frame_length, hop, silence, pos + hop, (left - 1) as nat)
    } else if pos < s.len() {
        seq![s.subrange(pos as int, s.len() as int) + repeat(silence, (frame_length - (s.len() - pos)) as nat)]
    } else {
        Seq::empty()
    }
}

/// Every block of a stream holds exactly `frame_length` samples, and a
/// stream never has more blocks than were asked for.
pub proof fn lemma_blocks_have_frame_length<S>(s: Seq<S>, frame_length: nat, hop: nat, silence: S, pos: nat, left: nat)
    ensures
        blocks_from(s, frame_length, hop, silence, pos, left).len() <= left,
        forall|k: int| 0 <= k < blocks_from(s, frame_length, hop, silence, pos, left).len()
            ==> (#[trigger] blocks_from(s, frame_length, hop, silence, pos, left)[k]).len() == frame_length,
    decreases left,
{
    let b = blocks_from(s, frame_length, hop, silence, pos, left);
    if left > 0 && pos + frame_length <= s.len() {
        let rest = blocks_from(s, frame_length, hop, silence, pos + hop, (left - 1) as nat);
        lemma_blocks_have_frame_length(s, frame_length, hop, silence, pos + hop, (left - 1) as nat);
        assert forall|k: int| 0 <= k < b.len() implies (#[trigger] b[k]).len() == frame_length by {
            if k > 0 {
                assert(b[k] == rest[k - 1]);
            }
        }
    }
}

/// The samples that a run of non-overlapping blocks adds after the signal to
/// fill the last block.
pub open spec fn tail_padding(remaining: nat, frame_length: nat) -> nat {
    if remaining % frame_length == 0 { 0 } else { (frame_length - remaining % frame_length) as nat }
}

/// Non-overlapping blocks (the hop equal to the frame length), when enough
/// of them are asked for, put back together give the signal from `pos` on,
/// followed by the silence that fills the last block: no sample is lost or
/// repeated.
pub proof fn lemma_blocks_reassemble<S>(s: Seq<S>, frame_length: nat, silence: S, pos: nat, left: nat)
    requires
        frame_length > 0,
        pos <= s.len(),
        left * frame_length >= s.len() - pos,
    ensures
        blocks_from(s, frame_length, frame_length, silence, pos, left).flatten()
            =~= s.subrange(pos as int, s.len() as int) + repeat(silence, tail_padding((s.len() - pos) as nat, frame_length)),
    decreases left,
{
    let fl = frame_length;
    let r = (s.len() - pos) as nat;
    let b = blocks_from(s, fl, fl, silence, pos, left);
    if left == 0 {
        assert(r == 0) by (nonlinear_arith) requires left * fl >= r, left == 0;
        assert(r % fl == 0) by {
            vstd::arithmetic::div_mod::lemma_small_mod(0, fl);
        }
    } else if pos + fl <= s.len() {
        let rest = blocks_from(s, fl, fl, silence, pos + fl, (left - 1) as nat);
        assert((left - 1) * fl >= s.len() - (pos + fl)) by (nonlinear_arith)
            requires left * fl >= r, r == s.len() - pos, left >= 1;
        lemma_blocks_reassemble(s, fl, silence, pos + fl, (left - 1) as nat);
        let first = s.subrange(pos as int, (pos + fl) as int);
        assert(b == seq![first] + rest);
        assert((seq![first] + rest).drop_first() =~= rest);
        assert((r - fl) as nat % fl == r % fl) by {
            vstd::arithmetic::div_mod::lemma_mod_sub_multiples_vanish(r as int, fl as int);
        }
        assert(s.subrange(pos as int, s.len() as int) =~= first + s.subrange((pos + fl) as int, s.len() as int));
        assert(tail_padding((r - fl) as nat, fl) == tail_padding(r, fl));
        assert(b.first() == first);
        assert(b.drop_first() == rest);
        assert(b.flatten() == first + rest.flatten());
    } else if pos < s.len() {
        let last = s.subrange(pos as int, s.len() as int) + repeat(silence, (fl - (s.len() - pos)) as nat);
        assert(b == seq![last]);
        assert(seq![last].drop_first() =~= Seq::<Seq<S>>::empty());
        assert(r % fl == r) by {
            vstd::arithmetic::div_mod::lemma_small_mod(r, fl);
        }
        assert(b.flatten() == last + Seq::<Seq<S>>::empty().flatten());
        assert(b.flatten() =~= last);
    } else {
        assert(r % fl == 0) by {
            vstd::arithmetic::div_mod::lemma_small_mod(0, fl);
        }
    }
}

/// Cuts a decoded signal into at most `block_length` blocks of
/// `frame_length` samples, one every `hop` samples.
pub fn stream_blocks_from<S: Copy>(samples: &[S], block_length: usize, frame_length: usize, hop: usize, silence: S) -> (r: Vec<Vec<S>>)
    requires
        hop > 0,
        samples@.len() + frame_length + hop <= usize::MAX,
    ensures
        r@.len() == blocks_from(samples@, frame_length as nat, hop as nat, silence, 0, block_length as nat).len(),
        forall|k: int| 0 <= k < r@.len() ==> (#[trigger] r@[k])@
            == blocks_from(samples@, frame_length as nat, hop as nat, silence, 0, block_length as nat)[k],
{
    let n = samples.len();
    let ghost full = blocks_from(samples@, frame_length as nat, hop as nat, silence, 0, block_length as nat);
    let mut blocks: Vec<Vec<S>> = Vec::new();
    let mut pos: usize = 0;
    let mut count: usize = 0;
    while count < block_length
        invariant_except_break
            blocks@.len() == count,
            pos <= n + hop,
            count <= block_length,
            full =~= Seq::new(count as nat, |k: int| blocks@[k]@)
                + blocks_from(samples@, frame_length as nat, hop as nat, silence, pos as nat, (block_length - count) as nat),
        invariant
            n == samples@.len(),
            hop > 0,
            n + frame_length + hop <= usize::MAX,
            full == blocks_from(samples@, frame_length as nat, hop as nat, silence, 0, block_length as nat),
        ensures
            full =~= Seq::new(blocks@.len() as nat, |k: int| blocks@[k]@),
        decreases block_length - count,
    {
        if pos + frame_length <= n {
            let mut b: Vec<S> = Vec::new();
            push_slice(&mut b, samples, pos, pos + frame_length);
            blocks.push(b);
            proof {
                assert(Seq::new((count + 1) as nat, |k: int| blocks@[k]@)
                    =~= Seq::new(count as nat, |k: int| blocks@[k]@) + seq![b@]);
            }
            count += 1;
            pos = pos + hop;
        } else if pos < n {
            let mut b: Vec<S> = Vec::new();
            push_slice(&mut b, samples, pos, n);
            push_repeat(&mut b, silence, frame_length - (n - pos));
            blocks.push(b);
            proof {
                assert(Seq::new((count + 1) as nat, |k: int| blocks@[k]@)
                    =~= Seq::new(count as nat, |k: int| blocks@[k]@) + seq![b@]);
            }
            break;
        } else {
            break;
        }
    }
    blocks
}


/// The hop of a block stream: the frame length when none is given. Refuses
/// an empty frame and an empty hop.
pub fn stream_hop(frame_length: usize, hop_length: Option<usize>) -> (r: Result<usize, AudioError>)
    ensures
        frame_length == 0 ==> (r matches Err(AudioError::InvalidInput(m))
            && m@ == "Frame length must be positive"@),
        frame_length != 0 && hop_length == Some(0usize) ==> (r matches Err(AudioError::InvalidInput(m))
            && m@ == "Hop length must be positive"@),
        frame_length != 0 && hop_length != Some(0usize) ==> r == Ok::<usize, AudioError>(
            match hop_length { Some(h) => h, None => frame_length }),
{
    if frame_length == 0 {
        return Err(AudioError::InvalidInput(String::from_str("Frame length must be positive")));
    }
    let hop = match hop_length { Some(h) => h, None => frame_length };
    if hop == 0 {
        return Err(AudioError::InvalidInput(String::from_str("Hop length must be positive")));
    }
    Ok(hop)
}

/// Splits decoded samples into at most `block_length` blocks of
/// `frame_length` samples, one every hop; the last, partial block is padded
/// with `silence`. Refuses bad lengths, and a signal that gives no block.
pub fn stream_blocks<S: Copy>(samples: &[S], block_length: usize, frame_length: usize, hop_length: Option<usize>, silence: S)
    -> (r: Result<Vec<Vec<S>>, AudioError>)
    requires
        samples@.len() + frame_length + match hop_length { Some(h) => h, None => frame_length } <= usize::MAX,
    ensures
        frame_length == 0 ==> (r matches Err(AudioError::InvalidInput(m))
            && m@ == "Frame length must be positive"@),
        frame_length != 0 && hop_length == Some(0usize) ==> (r matches Err(AudioError::InvalidInput(m))
            && m@ == "Hop length must be positive"@),
        frame_length != 0 && hop_length != Some(0usize) && (samples@.len() == 0 || block_length == 0)
            ==> (r matches Err(AudioError::InsufficientData(m)) && m@ == "No blocks generated"@),
        frame_length != 0 && hop_length != Some(0usize) && samples@.len() > 0 && block_length > 0
            ==> (r matches Ok(blocks) && blocks@.len() == blocks_from(samples@, frame_length as nat,
                (match hop_length { Some(h) => h, None => frame_length }) as nat, silence, 0, block_length as nat).len()
            && blocks@.len() >= 1
            && forall|k: int| 0 <= k < blocks@.len() ==> (#[trigger] blocks@[k])@
                == blocks_from(samples@, frame_length as nat,
                (match hop_length { Some(h) => h, None => frame_length }) as nat, silence, 0, block_length as nat)[k]),
{
    let hop = match stream_hop(frame_length, hop_length) {
        Ok(h) => h,
        Err(e) => return Err(e),
    };
    if samples.len() == 0 {
        return Err(AudioError::InsufficientData(String::from_str("No blocks generated")));
    }
    let blocks = stream_blocks_from(samples, block_length, frame_length, hop, silence);
    if blocks.len() == 0 {
        proof {
            if block_length > 0 {
                assert(blocks_from(samples@, frame_length as nat, hop as nat, silence, 0, block_length as nat).len() >= 1);
            }
        }
        return Err(AudioError::InsufficientData(String::from_str("No blocks generated")));
    }
    Ok(blocks)
}

/// The samples `[start, start + len)` of a decoded signal, cut at its end;
/// without a length, everything from `start` on.
pub open spec fn segment_bounds(n: nat, start: nat, len: Option<usize>) -> (nat, nat) {
    let end = match len {
        Some(l) => if start + l < n { (start + l) as nat } else { n },
        None => n,
    };
    (if start < n { start } else { n }, end)
}

/// Selects the part of a decoded signal that a load asks for, and refuses
/// an empty selection.
pub fn select_segment<S: Copy>(raw: &[S], start: usize, len: Option<usize>) -> (r: Result<Vec<S>, AudioError>)
    requires
        match len { Some(l) => start + l <= usize::MAX, None => true },
    ensures
        ({
            let (a, b) = segment_bounds(raw@.len(), start as nat, len);
            &&& a < b ==> (r matches Ok(v) && v@ == raw@.subrange(a as int, b as int))
            &&& b <= a ==> (r matches Err(AudioError::InsufficientData(m)) && m@ == "No samples available"@)
        }),
{
    let n = raw.len();
    let end = match len {
        Some(l) => if start + l < n { start + l } else { n },
        None => n,
    };
    let a = if start < n { start } else { n };
    if end <= a {
        return Err(AudioError::InsufficientData(String::from_str("No samples available")));
    }
    let mut out: Vec<S> = Vec::new();
    push_slice(&mut out, raw, a, end);
    Ok(out)
}

} // verus!
