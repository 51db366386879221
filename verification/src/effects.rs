//! Sample intervals of the silence-based effects: trimming, splitting into
//! non-silent intervals, and remixing intervals, given for each analysis
//! frame whether it is loud enough and for each sample whether it is
//! non-negative.

use vstd::prelude::*;
use crate::time_domain::push_slice;

verus! {

/// Number of RMS frames of a signal of `len` samples; none when the signal,
/// the frame or the hop is empty.
pub open spec fn spec_rms_frame_count(len: nat, frame_length: nat, hop_length: nat) -> nat {
    if len == 0 || frame_length == 0 || hop_length == 0 {
        0
    } else {
        ((if len >= frame_length { len - frame_length } else { 0 }) as nat / hop_length + 1) as nat
    }
}

/// Counts the RMS frames used to find silence.
pub fn rms_frame_count(len: usize, frame_length: usize, hop_length: usize) -> (n: usize)
    ensures
        n == spec_rms_frame_count(len as nat, frame_length as nat, hop_length as nat),
        len > 0 && frame_length > 0 && hop_length > 0 ==> n >= 1,
{
    proof {
        lemma_rms_frames_fit(len as nat, frame_length as nat, hop_length as nat);
    }
    if len == 0 || frame_length == 0 || hop_length == 0 {
        return 0;
    }
    proof {
        vstd::arithmetic::div_mod::lemma_div_is_ordered_by_denominator(
            (if len >= frame_length { len - frame_length } else { 0 }) as int, 1, hop_length as int);
    }
    len.saturating_sub(frame_length) / hop_length + 1
}

/// Every non-empty signal with a positive frame and hop has at least one
/// RMS frame: a signal of at most one frame has exactly one, and a longer
/// one has as many as fit whole, one hop apart (the last ends inside the
/// signal and one more would run past its end); there are none when the
/// signal, the frame or the hop is empty.
pub proof fn lemma_rms_frames_fit(len: nat, frame_length: nat, hop_length: nat)
    ensures
        (len == 0 || frame_length == 0 || hop_length == 0) ==> spec_rms_frame_count(len, frame_length, hop_length) == 0,
        (len > 0 && frame_length > 0 && hop_length > 0) ==> spec_rms_frame_count(len, frame_length, hop_length) >= 1,
        (len > 0 && frame_length > 0 && hop_length > 0 && len <= frame_length)
            ==> spec_rms_frame_count(len, frame_length, hop_length) == 1,
        (len > 0 && frame_length > 0 && hop_length > 0 && len >= frame_length) ==> {
            let c = spec_rms_frame_count(len, frame_length, hop_length);
            &&& (c - 1) * hop_length + frame_length <= len
            &&& len < c * hop_length + frame_length
        },
{
    if len > 0 && frame_length > 0 && hop_length > 0 && len >= frame_length {
        let d = (len - frame_length) as nat;
        let q = d / hop_length;
        let r = d % hop_length;
        vstd::arithmetic::div_mod::lemma_fundamental_div_mod(d as int, hop_length as int);
        assert(q * hop_length <= d) by (nonlinear_arith)
            requires d == hop_length * q + r, r >= 0, q >= 0;
        assert(d < (q + 1) * hop_length) by (nonlinear_arith)
            requires d == hop_length * q + r, r < hop_length;
        assert(spec_rms_frame_count(len, frame_length, hop_length) == q + 1);
    }
    if len > 0 && frame_length > 0 && hop_length > 0 && len <= frame_length {
        assert(((if len >= frame_length { len - frame_length } else { 0 }) as nat) == 0);
        assert(0nat / hop_length == 0);
    }
}

/// Position of the first loud frame, or 0 when none is.
pub open spec fn first_active(active: Seq<bool>) -> int {
    if exists|i: int| 0 <= i < active.len() && active[i] {
        choose|i: int| 0 <= i < active.len() && active[i] && forall|j: int| 0 <= j < i ==> !active[j]
    } else {
        0
    }
}

/// Position of the last loud frame, or the last frame when none is.
pub open spec fn last_active(active: Seq<bool>) -> int {
    if exists|i: int| 0 <= i < active.len() && active[i] {
        choose|i: int| 0 <= i < active.len() && active[i] && forall|j: int| i < j < active.len() ==> !active[j]
    } else {
        active.len() - 1
    }
}

/// The sample range kept by trimming: from the start of the first loud frame
/// to the end of the frame after the last loud one, within the signal.
pub open spec fn trim_range(active: Seq<bool>, frame_length: nat, hop_length: nat, len: nat) -> (nat, nat) {
    if active.len() == 0 {
        (0, len)
    } else {
        let s = first_active(active) * hop_length;
        let e = (last_active(active) + 1) * hop_length + frame_length;
        ((if s < len { s } else { len as int }) as nat, (if e < len { e } else { len as int }) as nat)
    }
}

proof fn lemma_mul_le(a: int, b: int, c: int)
    requires
        0 <= a <= b,
        c >= 0,
    ensures
        a * c <= b * c,
{
    assert(a * c <= b * c) by (nonlinear_arith) requires 0 <= a <= b, c >= 0;
}

/// Removes leading and trailing silence: returns the kept samples and their
/// range `[start, end)` in the signal.
pub fn trim<S: Copy>(y: &[S], active: &[bool], frame_length: usize, hop_length: usize) -> (r: (Vec<S>, (usize, usize)))
    requires
        active@.len() * hop_length + frame_length <= usize::MAX,
    ensures
        r.1.0 as nat == trim_range(active@, frame_length as nat, hop_length as nat, y@.len()).0,
        r.1.1 as nat == trim_range(active@, frame_length as nat, hop_length as nat, y@.len()).1,
        r.1.0 <= r.1.1 <= y@.len(),
        r.0@ == y@.subrange(r.1.0 as int, r.1.1 as int),
{
    let len = y.len();
    if active.len() == 0 {
        let mut out: Vec<S> = Vec::new();
        push_slice(&mut out, y, 0, len);
        proof {
            assert(y@.subrange(0, len as int) =~= y@);
        }
        return (out, (0, len));
    }
    let n = active.len();
    let mut first: usize = 0;
    let mut found = false;
    let mut i: usize = 0;
    while i < n
        invariant
            n == active@.len(),
            i <= n,
            !found ==> forall|j: int| 0 <= j < i ==> !active@[j],
            !found ==> first == 0,
            found ==> first < n && active@[first as int] && forall|j: int| 0 <= j < first ==> !active@[j],
        decreases n - i,
    {
        if !found && active[i] {
            first = i;
            found = true;
        }
        i += 1;
    }
    let mut last: usize = n - 1;
    if found {
        let mut k: usize = n;
        let mut got = false;
        while k > 0 && !got
            invariant
                n == active@.len(),
                k <= n,
                found && active@[first as int],
                !got ==> forall|j: int| k <= j < n ==> !active@[j],
                got ==> last < n && active@[last as int] && forall|j: int| last < j < n ==> !active@[j],
                !got ==> first < k,
            decreases k,
        {
            k -= 1;
            if active[k] {
                last = k;
                got = true;
            }
        }
        proof {
            assert(got);
        }
    }
    proof {
        let a = active@;
        if found {
            assert(exists|i: int| 0 <= i < a.len() && a[i]);
            let f = first_active(a);
            assert(f == first) by {
                if f < first { assert(!a[f]); }
                if f > first { assert(!a[first as int]); }
            }
            let l = last_active(a);
            assert(l == last) by {
                if l < last { assert(!a[last as int]); }
                if l > last { assert(!a[l]); }
            }
        } else {
            assert(!(exists|i: int| 0 <= i < a.len() && a[i]));
        }
        assert(first <= last) by {
            if found {
                if first > last { assert(!active@[first as int]); }
            }
        }
        lemma_mul_le(first as int, n as int, hop_length as int);
        lemma_mul_le(last as int + 1, n as int, hop_length as int);
        lemma_mul_le(first as int, last as int + 1, hop_length as int);
    }
    let s0 = first * hop_length;
    let start = if s0 < len { s0 } else { len };
    let e0 = (last + 1) * hop_length + frame_length;
    let end = if e0 < len { e0 } else { len };
    let mut out: Vec<S> = Vec::new();
    push_slice(&mut out, y, start, end);
    (out, (start, end))
}

proof fn lemma_has_first(active: Seq<bool>, k: int)
    requires
        0 <= k < active.len(),
        active[k],
    ensures
        exists|i: int| 0 <= i < active.len() && active[i] && forall|j: int| 0 <= j < i ==> !active[j],
    decreases k,
{
    if exists|j: int| 0 <= j < k && active[j] {
        let j = choose|j: int| 0 <= j < k && active[j];
        lemma_has_first(active, j);
    } else {
        assert(forall|j: int| 0 <= j < k ==> !active[j]);
    }
}

proof fn lemma_has_last(active: Seq<bool>, k: int)
    requires
        0 <= k < active.len(),
        active[k],
    ensures
        exists|i: int| 0 <= i < active.len() && active[i] && forall|j: int| i < j < active.len() ==> !active[j],
    decreases active.len() - k,
{
    if exists|j: int| k < j < active.len() && active[j] {
        let j = choose|j: int| k < j < active.len() && active[j];
        lemma_has_last(active, j);
    } else {
        assert(forall|j: int| k < j < active.len() ==> !active[j]);
    }
}

proof fn lemma_first_active_le(active: Seq<bool>, k: int)
    requires
        0 <= k < active.len(),
        active[k],
    ensures
        0 <= first_active(active) <= k,
{
    lemma_has_first(active, k);
    let f = first_active(active);
    assert(active[f] && forall|j: int| 0 <= j < f ==> !active[j]);
    if f > k {
        assert(!active[k]);
    }
}

proof fn lemma_last_active_ge(active: Seq<bool>, k: int)
    requires
        0 <= k < active.len(),
        active[k],
    ensures
        k <= last_active(active) < active.len(),
{
    lemma_has_last(active, k);
    let l = last_active(active);
    assert(active[l] && forall|j: int| l < j < active.len() ==> !active[j]);
    if k > l {
        assert(!active[k]);
    }
}

/// Trimming keeps the first sample of every loud frame that starts inside
/// the signal.
pub proof fn lemma_trim_keeps_loud_frames(active: Seq<bool>, frame_length: nat, hop_length: nat, len: nat, k: int)
    requires
        hop_length > 0,
        0 <= k < active.len(),
        active[k],
        k * hop_length < len,
    ensures
        trim_range(active, frame_length, hop_length, len).0 <= k * hop_length,
        k * hop_length < trim_range(active, frame_length, hop_length, len).1,
{
    lemma_first_active_le(active, k);
    lemma_last_active_ge(active, k);
    let f = first_active(active);
    let l = last_active(active);
    let h = hop_length as int;
    assert(f * h <= k * h) by {
        lemma_mul_le(f, k, h);
    }
    assert(k * h < (l + 1) * h) by (nonlinear_arith)
        requires k <= l, h > 0;
}

/// Frame `a` begins a run of loud frames: it is loud and the frame before
/// it, if any, is quiet.
pub open spec fn run_start(active: Seq<bool>, a: int) -> bool {
    0 <= a < active.len() && active[a] && (a == 0 || !active[a - 1])
}

/// The first quiet frame at or after frame `a`, or the frame count when
/// every frame from `a` on is loud.
pub open spec fn run_end(active: Seq<bool>, a: nat) -> nat
    decreases active.len() - a,
{
    if a >= active.len() {
        active.len()
    } else if !active[a as int] {
        a
    } else {
        run_end(active, a + 1)
    }
}

/// The starts of the runs of loud frames among the first `k` frames, in order.
pub open spec fn run_starts(active: Seq<bool>, k: int) -> Seq<nat>
    decreases k,
{
    if k <= 0 {
        Seq::empty()
    } else if run_start(active, k - 1) {
        run_starts(active, k - 1).push((k - 1) as nat)
    } else {
        run_starts(active, k - 1)
    }
}

/// The samples of the run of loud frames that starts at frame `a`: from the
/// start of frame `a` to the end of the first quiet frame after the run,
/// cut at the signal's end, or to the signal's end when the run reaches the
/// last frame.
pub open spec fn run_interval(active: Seq<bool>, frame_length: nat, hop_length: nat, len: nat, a: nat) -> (usize, usize) {
    let b = run_end(active, a);
    let e = b * hop_length + frame_length;
    ((a * hop_length) as usize, (if b < active.len() && e < len { e } else { len }) as usize)
}

/// The loud intervals of a signal: one per maximal run of loud frames, in
/// order.
pub open spec fn split_intervals_spec(active: Seq<bool>, frame_length: nat, hop_length: nat, len: nat) -> Seq<(usize, usize)> {
    run_starts(active, active.len() as int).map_values(|a: nat| run_interval(active, frame_length, hop_length, len, a))
}

/// A run of loud frames from `a` that is still loud up to frame `i` and
/// quiet at `i` (or ends with the frames) ends at `i`.
proof fn lemma_run_end_at(active: Seq<bool>, a: nat, i: nat)
    requires
        a <= i <= active.len(),
        forall|j: int| a <= j < i ==> #[trigger] active[j],
        i == active.len() || !active[i as int],
    ensures
        run_end(active, a) == i,
    decreases i - a,
{
    if a < i {
        lemma_run_end_at(active, a + 1, i);
    }
}

/// Splits a signal into its non-silent intervals.
pub fn split_intervals(active: &[bool], frame_length: usize, hop_length: usize, len: usize) -> (r: Vec<(usize, usize)>)
    requires
        active@.len() * hop_length + frame_length <= usize::MAX,
    ensures
        r@ == split_intervals_spec(active@, frame_length as nat, hop_length as nat, len as nat),
{
    let n = active.len();
    let ghost fl = frame_length as nat;
    let ghost hl = hop_length as nat;
    let ghost ln = len as nat;
    let ghost f = |a: nat| run_interval(active@, fl, hl, ln, a);
    let mut out: Vec<(usize, usize)> = Vec::new();
    let mut in_segment = false;
    let mut seg_start: usize = 0;
    let ghost mut run_a: nat = 0;
    let mut i: usize = 0;
    while i < n
        invariant
            n == active@.len(),
            n * hop_length + frame_length <= usize::MAX,
            i <= n,
            f == (|a: nat| run_interval(active@, fl, hl, ln, a)),
            fl == frame_length, hl == hop_length, ln == len,
            !in_segment ==> out@ == run_starts(active@, i as int).map_values(f),
            !in_segment ==> (i == 0 || !active@[i - 1]),
            in_segment ==> {
                &&& run_starts(active@, i as int).len() >= 1
                &&& run_starts(active@, i as int).last() == run_a
                &&& run_a < i
                &&& seg_start == run_a * hop_length
                &&& forall|j: int| run_a <= j < i ==> #[trigger] active@[j]
                &&& out@ == run_starts(active@, i as int).drop_last().map_values(f)
            },
        decreases n - i,
    {
        proof {
            lemma_mul_le(i as int, n as int, hop_length as int);
        }
        let ghost rs = run_starts(active@, i as int);
        if active[i] && !in_segment {
            proof {
                assert(run_start(active@, i as int));
                assert(run_starts(active@, i + 1) == rs.push(i as nat));
                assert(rs.push(i as nat).drop_last() =~= rs);
                run_a = i as nat;
            }
            seg_start = i * hop_length;
            in_segment = true;
        } else if !active[i] && in_segment {
            let e = i * hop_length + frame_length;
            proof {
                assert(!run_start(active@, i as int));
                assert(run_starts(active@, i + 1) == rs);
                lemma_run_end_at(active@, run_a, i as nat);
                assert(rs =~= rs.drop_last().push(run_a));
                assert(rs.map_values(f) =~= rs.drop_last().map_values(f).push(f(run_a)));
            }
            out.push((seg_start, if e < len { e } else { len }));
            in_segment = false;
        } else {
            proof {
                if active[i as int] {
                    assert(!run_start(active@, i as int));
                } else {
                    assert(!run_start(active@, i as int));
                }
                assert(run_starts(active@, i + 1) == rs);
            }
        }
        i += 1;
    }
    if in_segment {
        proof {
            let rs = run_starts(active@, n as int);
            lemma_run_end_at(active@, run_a, n as nat);
            assert(rs =~= rs.drop_last().push(run_a));
            assert(rs.map_values(f) =~= rs.drop_last().map_values(f).push(f(run_a)));
        }
        out.push((seg_start, len));
    }
    out
}

/// The fold of the crossing search around `idx` over candidates `lo..k`: the
/// best position so far and its distance to `idx`.
pub open spec fn crossing_scan(nonneg: Seq<bool>, idx: nat, lo: nat, k: int) -> (nat, nat)
    decreases k - lo,
{
    if k <= lo {
        (idx, usize::MAX as nat)
    } else {
        let (best, dist) = crossing_scan(nonneg, idx, lo, k - 1);
        let i = k - 1;
        let d = (if i >= idx { i - idx } else { idx - i }) as nat;
        if nonneg[i] != nonneg[i + 1] && d < dist { (i as nat, d) } else { (best, dist) }
    }
}

/// The window searched around position `idx` of a signal of `n` samples.
pub open spec fn crossing_window(idx: nat, n: nat) -> (nat, nat) {
    let lo = if idx >= 256 { idx - 256 } else { 0 };
    let hi: int = if idx + 256 < n - 1 { (idx + 256) as int } else { if n >= 1 { n - 1 } else { 0 } };
    (lo as nat, hi as nat)
}

/// The position nearest to `idx`, within 256 samples on either side of it,
/// where the sign changes between a sample and the next one; `idx` itself when there is
/// none, or when `idx` is the first position or past the signal.
pub open spec fn nearest_crossing_spec(nonneg: Seq<bool>, idx: nat) -> nat {
    let n = nonneg.len();
    if idx == 0 || idx >= n {
        idx
    } else {
        let (lo, hi) = crossing_window(idx, n);
        crossing_scan(nonneg, idx, lo, hi as int).0
    }
}

/// Finds the sign change nearest to position `idx`, given for each sample
/// whether it is non-negative.
pub fn nearest_zero_crossing(nonneg: &[bool], idx: usize) -> (r: usize)
    ensures
        r as nat == nearest_crossing_spec(nonneg@, idx as nat),
        r != idx ==> (r as int) + 1 < nonneg@.len() && nonneg@[r as int] != nonneg@[r as int + 1],
{
    let n = nonneg.len();
    if idx == 0 || idx >= n {
        return idx;
    }
    let lo = idx.saturating_sub(256);
    let hi = if n >= 257 && idx < n - 257 { idx + 256 } else { n - 1 };
    proof {
        assert((lo as nat, hi as nat) == crossing_window(idx as nat, n as nat));
    }
    let mut best = idx;
    let mut best_dist = usize::MAX;
    let mut i = lo;
    while i < hi
        invariant
            n == nonneg@.len(),
            lo <= hi < n,
            lo <= i <= hi,
            crossing_scan(nonneg@, idx as nat, lo as nat, i as int) == (best as nat, best_dist as nat),
            best != idx ==> (best as int) + 1 < n && nonneg@[best as int] != nonneg@[best as int + 1],
        decreases hi - i,
    {
        if nonneg[i] != nonneg[i + 1] {
            let dist = if i >= idx { i - idx } else { idx - i };
            if dist < best_dist {
                best_dist = dist;
                best = i;
            }
        }
        i += 1;
    }
    best
}

/// The sign changes between sample `i` and the next one.
pub open spec fn sign_change(nonneg: Seq<bool>, i: int) -> bool {
    0 <= i && i + 1 < nonneg.len() && nonneg[i] != nonneg[i + 1]
}

/// The distance between two positions.
pub open spec fn gap(a: int, b: int) -> int {
    if a >= b { a - b } else { b - a }
}

/// Over candidates `lo..k`, the scan holds the sign change nearest to `idx`
/// (the earliest of equally near ones) and its distance, or `idx` when
/// there is none.
proof fn lemma_crossing_scan_nearest(nonneg: Seq<bool>, idx: nat, lo: nat, k: int)
    requires
        lo <= k,
        k < nonneg.len(),
        idx <= lo + 256,
        k <= idx + 256,
    ensures
        ({
            let (b, d) = crossing_scan(nonneg, idx, lo, k);
            &&& (forall|i: int| lo <= i < k ==> !#[trigger] sign_change(nonneg, i)) ==> b == idx && d == usize::MAX
            &&& (exists|i: int| lo <= i < k && #[trigger] sign_change(nonneg, i)) ==> {
                &&& lo <= b < k
                &&& sign_change(nonneg, b as int)
                &&& d == gap(b as int, idx as int)
                &&& forall|i: int| lo <= i < k && #[trigger] sign_change(nonneg, i) ==> gap(b as int, idx as int)
                    <= gap(i, idx as int) && (gap(b as int, idx as int) == gap(i, idx as int) ==> b <= i)
            }
        }),
    decreases k - lo,
{
    if k > lo {
        lemma_crossing_scan_nearest(nonneg, idx, lo, k - 1);
        let i = k - 1;
        if exists|j: int| lo <= j < k - 1 && #[trigger] sign_change(nonneg, j) {
        } else {
            assert forall|j: int| lo <= j < k - 1 implies !#[trigger] sign_change(nonneg, j) by {}
        }
        assert(sign_change(nonneg, i) == (nonneg[i] != nonneg[i + 1]));
    }
}

/// The zero-crossing search returns, for a position `idx` inside the
/// signal other than the first, the sign change nearest to `idx` among
/// those from 256 positions before `idx` up to (not including) 256 after it
/// or the last position, whichever comes first, on either side of `idx`,
/// the earlier of two equally near ones; `idx` itself when that window has
/// none, and also when `idx` is the first position or past the signal.
pub proof fn lemma_nearest_crossing(nonneg: Seq<bool>, idx: nat)
    ensures
        ({
            let n = nonneg.len();
            let c = nearest_crossing_spec(nonneg, idx);
            let lo: int = if idx >= 256 { idx - 256 } else { 0int };
            let hi: int = if idx + 256 < n - 1 { (idx + 256) as int } else { n - 1 };
            &&& (idx == 0 || idx >= n) ==> c == idx
            &&& (0 < idx < n && forall|i: int| lo <= i < hi ==> !#[trigger] sign_change(nonneg, i)) ==> c == idx
            &&& (0 < idx < n && exists|i: int| lo <= i < hi && #[trigger] sign_change(nonneg, i)) ==> {
                &&& lo <= c < hi
                &&& sign_change(nonneg, c as int)
                &&& forall|i: int| lo <= i < hi && #[trigger] sign_change(nonneg, i) ==> gap(c as int, idx as int)
                    <= gap(i, idx as int) && (gap(c as int, idx as int) == gap(i, idx as int) ==> c <= i)
            }
        }),
{
    let n = nonneg.len();
    if 0 < idx < n {
        let (lo, hi) = crossing_window(idx, n);
        lemma_crossing_scan_nearest(nonneg, idx, lo, hi as int);
    }
}

/// The remix of the first `k` intervals: each interval clipped to the signal
/// and, when aligning, moved to the nearest sign changes.
pub open spec fn remix_spec<S>(y: Seq<S>, nonneg: Seq<bool>, intervals: Seq<(usize, usize)>, align: bool, k: int) -> Seq<S>
    decreases k,
{
    if k <= 0 {
        Seq::empty()
    } else {
        let prev = remix_spec(y, nonneg, intervals, align, k - 1);
        let (start, end) = intervals[k - 1];
        let n = y.len();
        let s = if start < n { start as nat } else { n };
        let e = if end < n { end as nat } else { n };
        if s >= e {
            prev
        } else {
            let sa = if align { let c = nearest_crossing_spec(nonneg, s); if c < e { c } else { e } } else { s };
            let ea = if align { let c = nearest_crossing_spec(nonneg, e); if c < n { c } else { n } } else { e };
            if sa < ea { prev + y.subrange(sa as int, ea as int) } else { prev }
        }
    }
}

/// Concatenates the given intervals of a signal, optionally moving each
/// boundary to the nearest sign change.
pub fn remix<S: Copy>(y: &[S], intervals: &[(usize, usize)], align_zeros: bool, nonneg: &[bool]) -> (r: Vec<S>)
    requires
        nonneg@.len() == y@.len(),
    ensures
        r@ == remix_spec(y@, nonneg@, intervals@, align_zeros, intervals@.len() as int),
{
    let n = y.len();
    let mut out: Vec<S> = Vec::new();
    let mut k: usize = 0;
    while k < intervals.len()
        invariant
            n == y@.len(),
            nonneg@.len() == n,
            k <= intervals@.len(),
            out@ == remix_spec(y@, nonneg@, intervals@, align_zeros, k as int),
        decreases intervals.len() - k,
    {
        let (start, end) = intervals[k];
        let s = if start < n { start } else { n };
        let e = if end < n { end } else { n };
        if s < e {
            let (sa, ea) = if align_zeros {
                let a = nearest_zero_crossing(nonneg, s);
                let b = nearest_zero_crossing(nonneg, e);
                (if a < e { a } else { e }, if b < n { b } else { n })
            } else {
                (s, e)
            };
            if sa < ea {
                push_slice(&mut out, y, sa, ea);
            }
        }
        k += 1;
    }
    out
}

/// Remixing one interval copies the samples from its clipped start to its
/// clipped end; when aligning, the copy starts at the sign change the
/// zero-crossing search finds nearest the clipped start (no later than the
/// clipped end) and ends at the one it finds nearest the clipped end (no
/// later than the signal's end). Remixing several intervals concatenates
/// the remixes of each.
pub proof fn lemma_remix_intervals<S>(y: Seq<S>, nonneg: Seq<bool>, intervals: Seq<(usize, usize)>, align: bool, k: int)
    requires
        0 < k <= intervals.len(),
    ensures
        remix_spec(y, nonneg, intervals, align, k) == remix_spec(y, nonneg, intervals, align, k - 1)
            + remix_spec(y, nonneg, seq![intervals[k - 1]], align, 1),
        ({
            let n = y.len();
            let (start, end) = intervals[k - 1];
            let s: int = if start < n { start as int } else { n as int };
            let e: int = if end < n { end as int } else { n as int };
            let cs = nearest_crossing_spec(nonneg, s as nat) as int;
            let ce = nearest_crossing_spec(nonneg, e as nat) as int;
            let a: int = if !align { s } else if cs < e { cs } else { e };
            let b: int = if !align { e } else if ce < n { ce } else { n as int };
            remix_spec(y, nonneg, seq![intervals[k - 1]], align, 1)
                == (if s < e && a < b { y.subrange(a, b) } else { Seq::<S>::empty() })
        }),
{
    let one = seq![intervals[k - 1]];
    assert(remix_spec(y, nonneg, one, align, 0) =~= Seq::<S>::empty());
    assert(one[0] == intervals[k - 1]);
    let r1 = remix_spec(y, nonneg, one, align, 1);
    let prev = remix_spec(y, nonneg, intervals, align, k - 1);
    assert(remix_spec(y, nonneg, intervals, align, k) =~= prev + r1);
}

} // verus!
