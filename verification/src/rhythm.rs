//! Integer bookkeeping of onset and beat analysis: spacing of detected
//! onsets, recovery of the beat sequence from its back-links, and the frame
//! intervals that beat-synchronous aggregation averages over, and the
//! input checks and frequency bands of onset strength.

use vstd::prelude::*;
use crate::errors::RhythmError;
use crate::text::push_text;

verus! {

/// The peaks kept when successive detections must be at least `wait` frames
/// apart: each peak is kept when nothing has been kept yet or it lies at
/// least `wait` frames after the last kept peak.
pub open spec fn spaced_peaks(peaks: Seq<usize>, wait: nat, k: int) -> Seq<usize>
    decreases k,
{
    if k <= 0 {
        Seq::empty()
    } else {
        let prev = spaced_peaks(peaks, wait, k - 1);
        let p = peaks[k - 1];
        if prev.len() == 0 || (if p >= prev.last() { p - prev.last() } else { 0 }) >= wait {
            prev.push(p)
        } else {
            prev
        }
    }
}

/// Enforces a minimum spacing of `wait` frames between detected onsets;
/// a wait of at most one frame keeps every peak.
pub fn filter_by_wait(peaks: &[usize], wait: usize) -> (r: Vec<usize>)
    ensures
        wait <= 1 ==> r@ == peaks@,
        wait > 1 ==> r@ == spaced_peaks(peaks@, wait as nat, peaks@.len() as int),
        (forall|a: int, b: int| 0 <= a < b < peaks@.len() ==> peaks@[a] < peaks@[b]) ==> forall|j: int|
            0 <= j < peaks@.len() ==> (r@.contains(#[trigger] peaks@[j]) <==> !exists|q: int| 0 <= q < r@.len()
                && #[trigger] r@[q] < peaks@[j] && peaks@[j] < r@[q] + wait),
{
    let mut out: Vec<usize> = Vec::new();
    if wait <= 1 {
        let mut i: usize = 0;
        while i < peaks.len()
            invariant
                i <= peaks@.len(),
                out@ =~= peaks@.take(i as int),
            decreases peaks.len() - i,
        {
            out.push(peaks[i]);
            i += 1;
        }
        proof {
            assert(out@ =~= peaks@);
            assert forall|j: int| 0 <= j < peaks@.len() implies (out@.contains(#[trigger] peaks@[j]) <==> !exists|q: int|
                0 <= q < out@.len() && #[trigger] out@[q] < peaks@[j] && peaks@[j] < out@[q] + wait) by {
                assert(out@[j] == peaks@[j]);
            }
        }
        return out;
    }
    let mut last: usize = 0;
    let mut i: usize = 0;
    while i < peaks.len()
        invariant
            i <= peaks@.len(),
            out@ == spaced_peaks(peaks@, wait as nat, i as int),
            out@.len() > 0 ==> last == out@.last(),
        decreases peaks.len() - i,
    {
        let p = peaks[i];
        if out.len() == 0 || p.saturating_sub(last) >= wait {
            out.push(p);
            last = p;
        }
        i += 1;
    }
    proof {
        if forall|a: int, b: int| 0 <= a < b < peaks@.len() ==> peaks@[a] < peaks@[b] {
            lemma_spaced_peaks_keep_rule(peaks@, wait as nat, peaks@.len() as int);
        }
    }
    out
}

/// Kept peaks of increasing detections are at least `wait` frames apart.
pub proof fn lemma_spaced_peaks_apart(peaks: Seq<usize>, wait: nat, k: int)
    requires
        0 <= k <= peaks.len(),
        forall|a: int, b: int| 0 <= a < b < peaks.len() ==> peaks[a] < peaks[b],
    ensures
        forall|a: int| 0 < a < spaced_peaks(peaks, wait, k).len() ==>
            #[trigger] spaced_peaks(peaks, wait, k)[a] >= spaced_peaks(peaks, wait, k)[a - 1] + wait,
        forall|a: int| 0 <= a < spaced_peaks(peaks, wait, k).len() ==> exists|b: int| 0 <= b < k
            && #[trigger] spaced_peaks(peaks, wait, k)[a] == peaks[b],
    decreases k,
{
    if k > 0 {
        lemma_spaced_peaks_apart(peaks, wait, k - 1);
        let prev = spaced_peaks(peaks, wait, k - 1);
        let cur = spaced_peaks(peaks, wait, k);
        assert forall|a: int| 0 <= a < cur.len() implies exists|b: int| 0 <= b < k
            && #[trigger] cur[a] == peaks[b] by {
            if a < prev.len() {
                assert(cur[a] == prev[a]);
                let b = choose|b: int| 0 <= b < k - 1 && prev[a] == peaks[b];
                assert(cur[a] == peaks[b]);
            } else {
                assert(cur[a] == peaks[k - 1]);
            }
        }
        assert forall|a: int| 0 < a < cur.len() implies #[trigger] cur[a] >= cur[a - 1] + wait by {
            if a < prev.len() {
                assert(cur[a] == prev[a] && cur[a - 1] == prev[a - 1]);
            } else {
                assert(cur[a] == peaks[k - 1]);
                assert(cur[a - 1] == prev.last());
                let b = choose|b: int| 0 <= b < k - 1 && prev[prev.len() - 1] == peaks[b];
                assert(peaks[b] < peaks[k - 1]);
            }
        }
    }
}

/// The peaks kept from increasing detections are themselves increasing.
proof fn lemma_spaced_peaks_sorted(peaks: Seq<usize>, wait: nat, k: int)
    requires
        0 <= k <= peaks.len(),
        forall|a: int, b: int| 0 <= a < b < peaks.len() ==> peaks[a] < peaks[b],
    ensures
        forall|a: int, b: int| 0 <= a < b < spaced_peaks(peaks, wait, k).len() ==>
            spaced_peaks(peaks, wait, k)[a] < spaced_peaks(peaks, wait, k)[b],
        forall|a: int| 0 <= a < spaced_peaks(peaks, wait, k).len() ==>
            #[trigger] spaced_peaks(peaks, wait, k)[a] < (if k < peaks.len() { peaks[k] as int } else { usize::MAX as int + 1 }),
    decreases k,
{
    if k > 0 {
        lemma_spaced_peaks_sorted(peaks, wait, k - 1);
        lemma_spaced_peaks_apart(peaks, wait, k - 1);
        let prev = spaced_peaks(peaks, wait, k - 1);
        let cur = spaced_peaks(peaks, wait, k);
        assert forall|a: int| 0 <= a < prev.len() implies #[trigger] prev[a] < peaks[k - 1] by {
            let b = choose|b: int| 0 <= b < k - 1 && prev[a] == peaks[b];
        }
        assert forall|a: int, b: int| 0 <= a < b < cur.len() implies cur[a] < cur[b] by {
            if b < prev.len() {
                assert(cur[a] == prev[a] && cur[b] == prev[b]);
            } else {
                assert(cur[a] == prev[a]);
                assert(prev[a] < peaks[k - 1]);
            }
        }
        assert forall|a: int| 0 <= a < cur.len() implies #[trigger] cur[a] < (if k < peaks.len() { peaks[k] as int }
            else { usize::MAX as int + 1 }) by {
            if a < prev.len() {
                assert(cur[a] == prev[a]);
                assert(prev[a] < peaks[k - 1]);
            } else {
                assert(cur[a] == peaks[k - 1]);
            }
        }
    }
}

/// Peak picking keeps a detection exactly when no kept detection lies less
/// than `wait` frames before it: the kept peaks are spaced at least `wait`
/// apart, and no dropped peak lies `wait` or more frames after the kept
/// peak that precedes it.
pub proof fn lemma_spaced_peaks_keep_rule(peaks: Seq<usize>, wait: nat, k: int)
    requires
        0 <= k <= peaks.len(),
        forall|a: int, b: int| 0 <= a < b < peaks.len() ==> peaks[a] < peaks[b],
    ensures
        forall|j: int| 0 <= j < k ==> (spaced_peaks(peaks, wait, k).contains(#[trigger] peaks[j]) <==>
            !exists|q: int| 0 <= q < spaced_peaks(peaks, wait, k).len()
                && #[trigger] spaced_peaks(peaks, wait, k)[q] < peaks[j]
                && peaks[j] < spaced_peaks(peaks, wait, k)[q] + wait),
    decreases k,
{
    if k > 0 {
        lemma_spaced_peaks_keep_rule(peaks, wait, k - 1);
        lemma_spaced_peaks_sorted(peaks, wait, k - 1);
        let prev = spaced_peaks(peaks, wait, k - 1);
        let cur = spaced_peaks(peaks, wait, k);
        let p = peaks[k - 1];
        let kept = prev.len() == 0 || (if p >= prev.last() { p - prev.last() } else { 0 }) >= wait;
        assert forall|a: int| 0 <= a < prev.len() implies #[trigger] prev[a] < p by {}
        if kept {
            assert(cur == prev.push(p));
        } else {
            assert(cur == prev);
        }
        assert forall|j: int| 0 <= j < k implies (cur.contains(#[trigger] peaks[j]) <==>
            !exists|q: int| 0 <= q < cur.len() && #[trigger] cur[q] < peaks[j] && peaks[j] < cur[q] + wait) by {
            if j < k - 1 {
                assert(peaks[j] < p);
                // The same kept peaks lie before `peaks[j]`, and it is kept in both or neither.
                if cur.contains(peaks[j]) {
                    let q = choose|q: int| 0 <= q < cur.len() && cur[q] == peaks[j];
                    if q == prev.len() {
                        assert(cur[q] == p);
                    }
                    assert(prev[q] == peaks[j]);
                    assert(prev.contains(peaks[j]));
                } else if prev.contains(peaks[j]) {
                    let q = choose|q: int| 0 <= q < prev.len() && prev[q] == peaks[j];
                    assert(cur[q] == prev[q]);
                }
                if exists|q: int| 0 <= q < cur.len() && #[trigger] cur[q] < peaks[j] && peaks[j] < cur[q] + wait {
                    let q = choose|q: int| 0 <= q < cur.len() && #[trigger] cur[q] < peaks[j] && peaks[j] < cur[q] + wait;
                    if q == prev.len() {
                        assert(cur[q] == p);
                    }
                    assert(cur[q] == prev[q]);
                    assert(exists|q2: int| 0 <= q2 < prev.len() && #[trigger] prev[q2] < peaks[j] && peaks[j] < prev[q2] + wait);
                }
                if exists|q: int| 0 <= q < prev.len() && #[trigger] prev[q] < peaks[j] && peaks[j] < prev[q] + wait {
                    let q = choose|q: int| 0 <= q < prev.len() && #[trigger] prev[q] < peaks[j] && peaks[j] < prev[q] + wait;
                    assert(cur[q] == prev[q]);
                }
            } else {
                assert(j == k - 1);
                if kept {
                    assert(cur[prev.len() as int] == p);
                    assert(cur.contains(p));
                    assert forall|q: int| 0 <= q < cur.len() && #[trigger] cur[q] < p implies !(p < cur[q] + wait) by {
                        if q < prev.len() {
                            assert(cur[q] == prev[q]);
                            if q < prev.len() - 1 {
                                assert(prev[q] < prev[prev.len() - 1]);
                            }
                        }
                    }
                } else {
                    let q = prev.len() - 1;
                    assert(cur[q] == prev.last());
                    assert(cur[q] < p && p < cur[q] + wait);
                    assert(!cur.contains(p)) by {
                        if cur.contains(p) {
                            let r = choose|r: int| 0 <= r < cur.len() && cur[r] == p;
                            assert(prev[r] < p);
                        }
                    }
                }
            }
        }
    }
}

/// The beats that end at frame `t`, found by following the back-links
/// `backlink[t]` towards the start while they point strictly earlier.
pub open spec fn beat_chain(backlink: Seq<usize>, t: usize) -> Seq<usize>
    decreases t,
{
    if t == 0 || backlink[t as int] >= t {
        seq![t]
    } else {
        beat_chain(backlink, backlink[t as int]).push(t)
    }
}

/// Beats found by following back-links from `last` form an increasing
/// sequence of frames that ends at `last`.
pub proof fn lemma_beat_chain_increasing(backlink: Seq<usize>, t: usize)
    requires
        (t as int) < backlink.len(),
        forall|k: int| 0 <= k < backlink.len() ==> #[trigger] backlink[k] < backlink.len(),
    ensures
        beat_chain(backlink, t).len() >= 1,
        beat_chain(backlink, t).last() == t,
        forall|a: int, b: int| 0 <= a < b < beat_chain(backlink, t).len() ==>
            beat_chain(backlink, t)[a] < beat_chain(backlink, t)[b],
        forall|a: int| 0 <= a < beat_chain(backlink, t).len() ==> #[trigger] beat_chain(backlink, t)[a] <= t,
    decreases t,
{
    if !(t == 0 || backlink[t as int] >= t) {
        let p = backlink[t as int];
        lemma_beat_chain_increasing(backlink, p);
        let prev = beat_chain(backlink, p);
        let cur = beat_chain(backlink, t);
        assert forall|a: int| 0 <= a < cur.len() implies #[trigger] cur[a] <= t by {
            if a < prev.len() {
                assert(cur[a] == prev[a]);
            }
        }
        assert forall|a: int, b: int| 0 <= a < b < cur.len() implies cur[a] < cur[b] by {
            if b < prev.len() {
                assert(cur[a] == prev[a] && cur[b] == prev[b]);
            } else {
                assert(cur[a] == prev[a]);
                assert(prev[a] <= p);
            }
        }
    }
}

/// Recovers the beat frames of the dynamic-programming beat tracker from
/// the back-link of every frame and the best final frame `last`.
pub fn beat_backtrack(backlink: &[usize], last: usize) -> (beats: Vec<usize>)
    requires
        (last as int) < backlink@.len(),
        forall|k: int| 0 <= k < backlink@.len() ==> #[trigger] backlink@[k] < backlink@.len(),
    ensures
        beats@ == beat_chain(backlink@, last),
        forall|a: int, b: int| 0 <= a < b < beats@.len() ==> beats@[a] < beats@[b],
{
    let mut rev: Vec<usize> = Vec::new();
    let mut t = last;
    let ghost full = beat_chain(backlink@, last);
    loop
        invariant_except_break
            full =~= beat_chain(backlink@, t).drop_last() + rev@.push(t).reverse(),
        invariant
            (t as int) < backlink@.len(),
            forall|k: int| 0 <= k < backlink@.len() ==> #[trigger] backlink@[k] < backlink@.len(),
            full == beat_chain(backlink@, last),
        ensures
            full =~= rev@.reverse(),
        decreases t,
    {
        if t == 0 {
            proof {
                assert(beat_chain(backlink@, t).drop_last() =~= Seq::<usize>::empty());
            }
            rev.push(t);
            break;
        }
        let prev = backlink[t];
        if prev >= t {
            proof {
                assert(beat_chain(backlink@, t).drop_last() =~= Seq::<usize>::empty());
            }
            rev.push(t);
            break;
        }
        proof {
            let b = beat_chain(backlink@, prev);
            lemma_beat_chain_increasing(backlink@, prev);
            assert(beat_chain(backlink@, t) == b.push(t));
            assert(b =~= b.drop_last().push(prev));
            assert(rev@.push(t).push(prev).reverse() =~= seq![prev] + rev@.push(t).reverse());
        }
        rev.push(t);
        t = prev;
    }
    let mut beats: Vec<usize> = Vec::new();
    let mut k: usize = rev.len();
    while k > 0
        invariant
            k <= rev@.len(),
            beats@ =~= rev@.reverse().take(rev@.len() - k),
        decreases k,
    {
        k -= 1;
        beats.push(rev[k]);
    }
    proof {
        lemma_beat_chain_increasing(backlink@, last);
    }
    beats
}

/// Frame `prev` may precede beat frame `t` when the gap between them is more
/// than `lag_min` and at most `lag_max` frames.
pub open spec fn in_beat_window(t: int, prev: int, lag_min: nat, lag_max: nat) -> bool {
    lag_min < t - prev <= lag_max
}

/// Every frame links either to itself (no predecessor) or to a frame in its
/// window.
pub open spec fn links_in_windows(links: Seq<usize>, lag_min: nat, lag_max: nat) -> bool {
    forall|t: int| 0 <= t < links.len() ==> (#[trigger] links[t] == t
        || in_beat_window(t, links[t] as int, lag_min, lag_max))
}

/// The candidate predecessors `[start, end)` of beat frame `t`: the frames
/// between `lag_max` and `lag_min` frames back (none before frame 0).
pub fn beat_window(t: usize, lag_min: usize, lag_max: usize) -> (r: (usize, usize))
    ensures
        r.0 == (if t >= lag_max { t - lag_max } else { 0 }),
        r.1 == (if t >= lag_min { t - lag_min } else { 0 }),
        forall|p: int| r.0 <= p < r.1 ==> #[trigger] in_beat_window(t as int, p, lag_min as nat, lag_max as nat),
{
    (t.saturating_sub(lag_max), t.saturating_sub(lag_min))
}

/// Following the links of frames whose links stay in their windows, every
/// gap between successive beats is in the window.
pub proof fn lemma_beat_gaps_in_window(links: Seq<usize>, lag_min: nat, lag_max: nat, t: usize)
    requires
        (t as int) < links.len(),
        links_in_windows(links, lag_min, lag_max),
    ensures
        forall|k: int| 0 <= k < beat_chain(links, t).len() - 1 ==> #[trigger] in_beat_window(
            beat_chain(links, t)[k + 1] as int, beat_chain(links, t)[k] as int, lag_min, lag_max),
    decreases t,
{
    if !(t == 0 || links[t as int] >= t) {
        let p = links[t as int];
        assert(links[t as int] == t || in_beat_window(t as int, p as int, lag_min, lag_max));
        lemma_beat_gaps_in_window(links, lag_min, lag_max, p);
        let prev = beat_chain(links, p);
        let cur = beat_chain(links, t);
        assert(cur == prev.push(t));
        assert forall|k: int| 0 <= k < cur.len() - 1 implies #[trigger] in_beat_window(
            cur[k + 1] as int, cur[k] as int, lag_min, lag_max) by {
            if k < prev.len() - 1 {
                assert(cur[k] == prev[k] && cur[k + 1] == prev[k + 1]);
                assert(in_beat_window(prev[k + 1] as int, prev[k] as int, lag_min, lag_max));
            } else {
                assert(beat_chain(links, p).last() == p) by {
                    lemma_last_of_chain(links, p);
                }
                assert(cur[k] == p && cur[k + 1] == t);
            }
        }
    }
}

proof fn lemma_last_of_chain(links: Seq<usize>, t: usize)
    ensures
        beat_chain(links, t).len() >= 1,
        beat_chain(links, t).last() == t,
    decreases t,
{
    if !(t == 0 || links[t as int] >= t) {
        lemma_last_of_chain(links, links[t as int]);
    }
}

/// The back-links of the dynamic-programming beat tracker: for every frame,
/// the best preceding beat, always within the frame's window of
/// `(lag_min, lag_max]` frames back, or the frame itself.
pub struct BeatLinks {
    links: Vec<usize>,
    lag_min: usize,
    lag_max: usize,
}

impl BeatLinks {
    /// The link of every frame.
    pub closed spec fn links(&self) -> Seq<usize> {
        self.links@
    }

    /// The least gap allowed is one frame more than this.
    pub closed spec fn lag_min(&self) -> nat {
        self.lag_min as nat
    }

    /// The greatest gap allowed.
    pub closed spec fn lag_max(&self) -> nat {
        self.lag_max as nat
    }

    #[verifier::type_invariant]
    spec fn links_stay_in_windows(&self) -> bool {
        links_in_windows(self.links@, self.lag_min as nat, self.lag_max as nat)
    }

    /// `n` frames, each linked to itself.
    pub fn new(n: usize, lag_min: usize, lag_max: usize) -> (r: Self)
        ensures
            r.links().len() == n,
            forall|t: int| 0 <= t < n ==> #[trigger] r.links()[t] == t,
            r.lag_min() == lag_min,
            r.lag_max() == lag_max,
    {
        let mut links: Vec<usize> = Vec::new();
        let mut i: usize = 0;
        while i < n
            invariant
                i <= n,
                links@.len() == i,
                forall|t: int| 0 <= t < i ==> #[trigger] links@[t] == t,
            decreases n - i,
        {
            links.push(i);
            i += 1;
        }
        BeatLinks { links, lag_min, lag_max }
    }

    /// The number of frames.
    pub fn len(&self) -> (r: usize)
        ensures
            r == self.links().len(),
    {
        self.links.len()
    }

    /// The candidate predecessors `[start, end)` of frame `t`.
    pub fn window(&self, t: usize) -> (r: (usize, usize))
        ensures
            r.0 == (if t >= self.lag_max() { t - self.lag_max() } else { 0 }),
            r.1 == (if t >= self.lag_min() { t - self.lag_min() } else { 0 }),
            forall|p: int| r.0 <= p < r.1 ==> #[trigger] in_beat_window(t as int, p, self.lag_min(), self.lag_max()),
    {
        beat_window(t, self.lag_min, self.lag_max)
    }

    /// Links frame `t` to `prev` when `t` is a frame and `prev` lies in its
    /// window; otherwise changes nothing.
    pub fn link(&mut self, t: usize, prev: usize)
        ensures
            final(self).lag_min() == old(self).lag_min(),
            final(self).lag_max() == old(self).lag_max(),
            ((t as int) < old(self).links().len() && in_beat_window(t as int, prev as int, old(self).lag_min(),
                old(self).lag_max())) ==> final(self).links() == old(self).links().update(t as int, prev),
            !((t as int) < old(self).links().len() && in_beat_window(t as int, prev as int, old(self).lag_min(),
                old(self).lag_max())) ==> final(self).links() == old(self).links(),
    {
        proof {
            use_type_invariant(&*self);
        }
        if t < self.links.len() && prev < t && t - prev > self.lag_min && t - prev <= self.lag_max {
            let mut links: Vec<usize> = Vec::new();
            crate::time_domain::push_slice(&mut links, self.links.as_slice(), 0, self.links.len());
            proof {
                assert(self.links@.subrange(0, self.links@.len() as int) =~= self.links@);
            }
            links.set(t, prev);
            let (lag_min, lag_max) = (self.lag_min, self.lag_max);
            proof {
                assert forall|q: int| 0 <= q < links@.len() implies (#[trigger] links@[q] == q
                    || in_beat_window(q, links@[q] as int, lag_min as nat, lag_max as nat)) by {
                    if q != t {
                        assert(links@[q] == self.links@[q]);
                    }
                }
            }
            *self = BeatLinks { links, lag_min, lag_max };
        }
    }

    /// The beats that end at frame `last`, found by following the links:
    /// an increasing sequence of frames ending at `last` whose every gap is
    /// more than `lag_min` and at most `lag_max` frames.
    pub fn backtrack(&self, last: usize) -> (beats: Vec<usize>)
        requires
            (last as int) < self.links().len(),
        ensures
            beats@ == beat_chain(self.links(), last),
            beats@.len() >= 1,
            beats@.last() == last,
            forall|a: int, b: int| 0 <= a < b < beats@.len() ==> beats@[a] < beats@[b],
            forall|k: int| 0 <= k < beats@.len() - 1 ==> self.lag_min() < #[trigger] beats@[k + 1] - beats@[k]
                <= self.lag_max(),
    {
        proof {
            use_type_invariant(self);
            assert forall|k: int| 0 <= k < self.links@.len() implies #[trigger] self.links@[k] < self.links@.len() by {
                assert(self.links@[k] == k || in_beat_window(k, self.links@[k] as int, self.lag_min as nat,
                    self.lag_max as nat));
            }
            lemma_last_of_chain(self.links@, last);
            lemma_beat_gaps_in_window(self.links@, self.lag_min as nat, self.lag_max as nat, last);
        }
        let beats = beat_backtrack(self.links.as_slice(), last);
        proof {
            assert forall|k: int| 0 <= k < beats@.len() - 1 implies self.lag_min() < #[trigger] beats@[k + 1] - beats@[k]
                <= self.lag_max() by {
                assert(in_beat_window(beats@[k + 1] as int, beats@[k] as int, self.lag_min as nat, self.lag_max as nat));
            }
        }
        beats
    }
}

/// Removes consecutive repeats, keeping the first of each run.
pub open spec fn dedup_runs(s: Seq<usize>) -> Seq<usize>
    decreases s.len(),
{
    if s.len() <= 1 {
        s
    } else {
        let prev = dedup_runs(s.drop_last());
        if s.last() == s[s.len() - 2] { prev } else { prev.push(s.last()) }
    }
}

proof fn lemma_dedup_last(s: Seq<usize>)
    requires
        s.len() >= 1,
    ensures
        dedup_runs(s).len() >= 1,
        dedup_runs(s).last() == s.last(),
    decreases s.len(),
{
    if s.len() > 1 {
        lemma_dedup_last(s.drop_last());
    }
}

/// The boundaries before deduplication: 0 when padding, each beat frame cut
/// at the number of frames, and the number of frames when padding.
pub open spec fn raw_beat_bounds(beats: Seq<usize>, n_total: usize, pad: bool) -> Seq<usize> {
    (if pad { seq![0usize] } else { Seq::empty() })
        + beats.map_values(|f: usize| if f < n_total { f } else { n_total })
        + (if pad { seq![n_total] } else { Seq::empty() })
}

/// Segment boundaries for beat-synchronous aggregation over `n_total`
/// frames; consecutive equal boundaries are merged.
pub fn beat_sync_bounds(beat_frames: &[usize], n_total: usize, pad: bool) -> (bounds: Vec<usize>)
    ensures
        bounds@ == dedup_runs(raw_beat_bounds(beat_frames@, n_total, pad)),
        forall|k: int| 0 <= k < bounds@.len() ==> #[trigger] bounds@[k] <= n_total,
{
    let mut raw: Vec<usize> = Vec::new();
    if pad {
        raw.push(0);
    }
    let ghost head: Seq<usize> = if pad { seq![0usize] } else { Seq::empty() };
    let mut i: usize = 0;
    while i < beat_frames.len()
        invariant
            i <= beat_frames@.len(),
            head == (if pad { seq![0usize] } else { Seq::<usize>::empty() }),
            raw@ =~= head + beat_frames@.take(i as int).map_values(|f: usize| if f < n_total { f } else { n_total }),
        decreases beat_frames.len() - i,
    {
        let f = beat_frames[i];
        raw.push(if f < n_total { f } else { n_total });
        proof {
            assert(beat_frames@.take(i as int + 1) =~= beat_frames@.take(i as int).push(f));
        }
        i += 1;
    }
    if pad {
        raw.push(n_total);
    }
    proof {
        assert(beat_frames@.take(beat_frames@.len() as int) =~= beat_frames@);
        assert(raw@ =~= raw_beat_bounds(beat_frames@, n_total, pad));
    }
    let ghost r = raw@;
    let mut out: Vec<usize> = Vec::new();
    let mut j: usize = 0;
    while j < raw.len()
        invariant
            r == raw@,
            j <= r.len(),
            out@ == dedup_runs(r.take(j as int)),
            forall|k: int| 0 <= k < r.len() ==> #[trigger] r[k] <= n_total,
            forall|k: int| 0 <= k < out@.len() ==> #[trigger] out@[k] <= n_total,
        decreases raw.len() - j,
    {
        proof {
            assert(r.take(j as int + 1).drop_last() =~= r.take(j as int));
            if j > 0 {
                lemma_dedup_last(r.take(j as int));
            }
        }
        if j == 0 || raw[j] != raw[j - 1] {
            out.push(raw[j]);
        }
        j += 1;
    }
    proof {
        assert(r.take(r.len() as int) =~= r);
    }
    out
}

/// Onset strength needs a non-empty signal.
pub fn check_onset_signal(len: usize) -> (r: Result<(), RhythmError>)
    ensures
        len == 0 ==> (r matches Err(RhythmError::InvalidInput(m)) && m@ == "Signal is empty"@),
        len != 0 ==> r is Ok,
{
    if len == 0 {
        return Err(RhythmError::InvalidInput(String::from_str("Signal is empty")));
    }
    Ok(())
}

/// A size parameter called `name` must be positive.
pub fn check_positive(value: usize, name: &str) -> (r: Result<(), RhythmError>)
    ensures
        value == 0 ==> (r matches Err(RhythmError::InvalidInput(m)) && m@ == name@ + " must be > 0"@),
        value != 0 ==> r is Ok,
{
    if value == 0 {
        let mut m = String::new();
        push_text(&mut m, name);
        push_text(&mut m, " must be > 0");
        proof {
            assert(m@ =~= name@ + " must be > 0"@);
        }
        return Err(RhythmError::InvalidInput(m));
    }
    Ok(())
}

/// The number of frequency bins per band when `n_freqs` bins are split into
/// `n_bands` bands: the larger of the two, divided by the band count.
pub open spec fn band_width(n_freqs: nat, n_bands: nat) -> nat {
    (if n_freqs >= n_bands { n_freqs } else { n_bands }) / n_bands
}

/// Band `b` of width `w` over `n_freqs` bins spans `[b * w, (b + 1) * w)`,
/// clipped to the bins.
pub open spec fn band_bounds(band: (usize, usize), b: int, n_freqs: nat, w: nat) -> bool {
    &&& band.0 == b * w
    &&& band.1 == (if (b + 1) * w <= n_freqs { (b + 1) * w } else { n_freqs as int })
}

/// The bins `[lo, hi)` of every band of multi-band onset strength: band `b`
/// starts at `b` band widths and ends one band width later, clipped to the
/// `n_freqs` bins (a band starting past the last bin is empty).
pub fn onset_bands(n_freqs: usize, n_bands: usize) -> (r: Vec<(usize, usize)>)
    requires
        n_bands > 0,
    ensures
        r@.len() == n_bands,
        forall|b: int| 0 <= b < n_bands ==> band_bounds(r@[b], b, n_freqs as nat, band_width(n_freqs as nat, n_bands as nat)),
{
    let top = if n_freqs >= n_bands { n_freqs } else { n_bands };
    let w = top / n_bands;
    assert(w * n_bands <= top) by (nonlinear_arith)
        requires
            w == top / n_bands,
            n_bands > 0,
            top >= 0;
    let mut r: Vec<(usize, usize)> = Vec::new();
    let mut b: usize = 0;
    while b < n_bands
        invariant
            b <= n_bands,
            n_bands > 0,
            w == band_width(n_freqs as nat, n_bands as nat),
            w * n_bands <= top,
            top <= usize::MAX,
            r@.len() == b,
            forall|q: int| 0 <= q < b ==> band_bounds(r@[q], q, n_freqs as nat, w as nat),
        decreases n_bands - b,
    {
        assert(b * w <= (b + 1) * w <= top) by (nonlinear_arith)
            requires
                b + 1 <= n_bands,
                w * n_bands <= top,
                w >= 0;
        let lo = b * w;
        let end = (b + 1) * w;
        let hi = if end <= n_freqs { end } else { n_freqs };
        r.push((lo, hi));
        b += 1;
    }
    r
}

} // verus!
