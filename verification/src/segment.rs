//! Structural bookkeeping of segmentation: sorted boundary lists, the
//! contiguous partitions that bottom-up clustering merges, and the frame
//! labels and boundaries read off them.

use vstd::prelude::*;
use crate::time_domain::push_slice;

verus! {

/// Strictly increasing.
pub open spec fn strictly_increasing(s: Seq<usize>) -> bool {
    forall|a: int, b: int| 0 <= a < b < s.len() ==> s[a] < s[b]
}

fn insert_sorted(v: &mut Vec<usize>, x: usize)
    requires
        strictly_increasing(old(v)@),
    ensures
        strictly_increasing(final(v)@),
        forall|y: usize| final(v)@.contains(y) <==> (old(v)@.contains(y) || y == x),
{
    let mut p: usize = 0;
    while p < v.len() && v[p] < x
        invariant
            p <= v@.len(),
            v@ == old(v)@,
            forall|q: int| 0 <= q < p ==> #[trigger] v@[q] < x,
        decreases v.len() - p,
    {
        p += 1;
    }
    if p < v.len() && v[p] == x {
        proof {
            assert(v@[p as int] == x);
        }
        return;
    }
    let ghost before = v@;
    assert(before == old(v)@);
    v.insert(p, x);
    proof {
        assert forall|a: int, b: int| 0 <= a < b < v@.len() implies v@[a] < v@[b] by {
            if b < p {
            } else if b == p {
                assert(v@[a] == before[a]);
            } else if a < p {
                assert(v@[b] == before[b - 1]);
                assert(before[p as int] > x);
                if b - 1 > p {
                    assert(before[p as int] < before[b - 1]);
                }
            } else if a == p {
                assert(v@[b] == before[b - 1]);
                assert(before[p as int] > x);
                if b - 1 > p {
                    assert(before[p as int] < before[b - 1]);
                }
            } else {
                assert(v@[a] == before[a - 1] && v@[b] == before[b - 1]);
            }
        }
        assert forall|y: usize| v@.contains(y) <==> (before.contains(y) || y == x) by {
            if v@.contains(y) {
                let i = choose|i: int| 0 <= i < v@.len() && v@[i] == y;
                if i < p {
                    assert(before[i] == y);
                } else if i > p {
                    assert(before[i - 1] == y);
                }
            }
            if before.contains(y) {
                let i = choose|i: int| 0 <= i < before.len() && before[i] == y;
                if i < p {
                    assert(v@[i] == y);
                } else {
                    assert(v@[i + 1] == y);
                }
            }
            if y == x {
                assert(v@[p as int] == x);
            }
        }
        assert(forall|y: usize| v@.contains(y) <==> (old(v)@.contains(y) || y == x));
    }
}

/// The distinct values of `values` in increasing order.
pub fn sorted_unique(values: &[usize]) -> (r: Vec<usize>)
    ensures
        strictly_increasing(r@),
        forall|y: usize| r@.contains(y) <==> values@.contains(y),
{
    let mut out: Vec<usize> = Vec::new();
    let mut i: usize = 0;
    while i < values.len()
        invariant
            i <= values@.len(),
            strictly_increasing(out@),
            forall|y: usize| out@.contains(y) <==> values@.take(i as int).contains(y),
        decreases values.len() - i,
    {
        insert_sorted(&mut out, values[i]);
        proof {
            let t = values@.take(i as int + 1);
            assert(t =~= values@.take(i as int).push(values@[i as int]));
            assert forall|y: usize| t.contains(y) <==> (values@.take(i as int).contains(y) || y == values@[i as int]) by {
                if t.contains(y) {
                    let j = choose|j: int| 0 <= j < t.len() && t[j] == y;
                    if j < i {
                        assert(values@.take(i as int)[j] == y);
                    }
                }
                if values@.take(i as int).contains(y) {
                    let j = choose|j: int| 0 <= j < i && values@.take(i as int)[j] == y;
                    assert(t[j] == y);
                }
                if y == values@[i as int] {
                    assert(t[i as int] == y);
                }
            }
        }
        i += 1;
    }
    proof {
        assert(values@.take(values@.len() as int) =~= values@);
    }
    out
}

/// The boundaries of the segments between the given frames over `n` frames:
/// 0, each frame cut at `n`, and `n`, without repeats, in increasing order.
pub fn segment_boundaries(frames: &[usize], n: usize) -> (r: Vec<usize>)
    ensures
        strictly_increasing(r@),
        forall|y: usize| r@.contains(y) <==> (y == 0 || y == n
            || exists|i: int| 0 <= i < frames@.len() && y == (if frames@[i] < n { frames@[i] } else { n })),
        r@.len() >= 1,
        r@[0] == 0,
        r@.last() == n,
{
    let mut all: Vec<usize> = Vec::new();
    all.push(0);
    let mut i: usize = 0;
    while i < frames.len()
        invariant
            i <= frames@.len(),
            all@.len() == i + 1,
            all@[0] == 0,
            forall|k: int| 0 <= k < i ==> #[trigger] all@[k + 1] == (if frames@[k] < n { frames@[k] } else { n }),
        decreases frames.len() - i,
    {
        let f = frames[i];
        all.push(if f < n { f } else { n });
        i += 1;
    }
    all.push(n);
    let r = sorted_unique(all.as_slice());
    proof {
        let a = all@;
        assert forall|y: usize| a.contains(y) <==> (y == 0 || y == n
            || exists|i: int| 0 <= i < frames@.len() && y == (if frames@[i] < n { frames@[i] } else { n })) by {
            if a.contains(y) {
                let j = choose|j: int| 0 <= j < a.len() && a[j] == y;
                if 0 < j < a.len() - 1 {
                    let k = j - 1;
                    assert(a[k + 1] == (if frames@[k] < n { frames@[k] } else { n }));
                }
            }
            if y == 0 {
                assert(a[0] == y);
            }
            if y == n {
                assert(a[a.len() - 1] == y);
            }
            if exists|i: int| 0 <= i < frames@.len() && y == (if frames@[i] < n { frames@[i] } else { n }) {
                let i = choose|i: int| 0 <= i < frames@.len() && y == (if frames@[i] < n { frames@[i] } else { n });
                assert(a[i + 1] == y);
            }
        }
        assert(r@.contains(0usize));
        assert(r@.contains(n));
        assert forall|k: int| 0 <= k < r@.len() implies #[trigger] r@[k] <= n by {
            assert(r@.contains(r@[k]));
        }
        let j0 = choose|j: int| 0 <= j < r@.len() && r@[j] == 0;
        if j0 > 0 {
            assert(r@[0] < r@[j0]);
        }
        let jn = choose|j: int| 0 <= j < r@.len() && r@[j] == n;
        if jn < r@.len() - 1 {
            assert(r@[jn] < r@[r@.len() - 1]);
        }
    }
    r
}

/// Positions `offset + i` with `1 <= i < k` at which `labels[i]` differs from
/// `labels[i - 1]`.
pub open spec fn label_changes(labels: Seq<usize>, offset: nat, k: int) -> Seq<usize>
    decreases k,
{
    if k <= 1 {
        Seq::empty()
    } else if labels[k - 1] != labels[k - 2] {
        label_changes(labels, offset, k - 1).push((offset + k - 1) as usize)
    } else {
        label_changes(labels, offset, k - 1)
    }
}

/// The frames, shifted by `offset`, at which a sequence of cluster labels
/// changes value.
pub fn label_change_points(labels: &[usize], offset: usize) -> (r: Vec<usize>)
    requires
        offset + labels@.len() <= usize::MAX,
    ensures
        r@ == label_changes(labels@, offset as nat, labels@.len() as int),
{
    let mut out: Vec<usize> = Vec::new();
    if labels.len() == 0 {
        return out;
    }
    let mut prev = labels[0];
    let mut i: usize = 1;
    while i < labels.len()
        invariant
            1 <= i <= labels@.len(),
            offset + labels@.len() <= usize::MAX,
            prev == labels@[i - 1],
            out@ == label_changes(labels@, offset as nat, i as int),
        decreases labels.len() - i,
    {
        if labels[i] != prev {
            out.push(offset + i);
            prev = labels[i];
        } else {
            prev = labels[i];
        }
        i += 1;
    }
    out
}

/// Whether `y` is a boundary contributed by one of the first `k` segments:
/// the segment's start when it is not frame 0, or a frame at which the
/// labels found inside the segment change.
pub open spec fn seen_point(bounds: Seq<usize>, labels: Seq<Seq<usize>>, k: int, y: usize) -> bool {
    ||| exists|s: int| 0 <= s < k && bounds[s] > 0 && #[trigger] bounds[s] == y
    ||| exists|s: int| 0 <= s < k
        && #[trigger] label_changes(labels[s], bounds[s] as nat, labels[s].len() as int).contains(y)
}

/// Whether `y` is a boundary of a segmentation with segment starts `bounds`
/// refined by the cluster labels `labels[s]` found inside each segment.
pub open spec fn subsegment_point(bounds: Seq<usize>, labels: Seq<Seq<usize>>, y: usize) -> bool {
    seen_point(bounds, labels, bounds.len() - 1, y)
}

proof fn lemma_seen_step(bounds: Seq<usize>, labels: Seq<Seq<usize>>, k: int, y: usize)
    requires
        0 <= k,
    ensures
        seen_point(bounds, labels, k + 1, y) <==> (seen_point(bounds, labels, k, y)
            || (bounds[k] > 0 && bounds[k] == y)
            || label_changes(labels[k], bounds[k] as nat, labels[k].len() as int).contains(y)),
{
    if seen_point(bounds, labels, k + 1, y) {
        if exists|s: int| 0 <= s < k + 1 && bounds[s] > 0 && #[trigger] bounds[s] == y {
            let s = choose|s: int| 0 <= s < k + 1 && bounds[s] > 0 && #[trigger] bounds[s] == y;
            if s < k {
                assert(0 <= s < k && bounds[s] > 0 && bounds[s] == y);
            }
        } else {
            let s = choose|s: int| 0 <= s < k + 1
                && #[trigger] label_changes(labels[s], bounds[s] as nat, labels[s].len() as int).contains(y);
            if s < k {
                assert(label_changes(labels[s], bounds[s] as nat, labels[s].len() as int).contains(y));
            }
        }
    }
    if seen_point(bounds, labels, k, y) {
        if exists|s: int| 0 <= s < k && bounds[s] > 0 && #[trigger] bounds[s] == y {
            let s = choose|s: int| 0 <= s < k && bounds[s] > 0 && #[trigger] bounds[s] == y;
            assert(0 <= s < k + 1 && bounds[s] > 0 && bounds[s] == y);
        } else {
            let s = choose|s: int| 0 <= s < k
                && #[trigger] label_changes(labels[s], bounds[s] as nat, labels[s].len() as int).contains(y);
            assert(label_changes(labels[s], bounds[s] as nat, labels[s].len() as int).contains(y));
        }
    }
    if bounds[k] > 0 && bounds[k] == y {
        assert(0 <= k < k + 1 && bounds[k] > 0 && bounds[k] == y);
    }
    if label_changes(labels[k], bounds[k] as nat, labels[k].len() as int).contains(y) {
        assert(0 <= k < k + 1);
    }
}

proof fn lemma_push_contains(before: Seq<usize>, x: usize)
    ensures
        forall|y: usize| #[trigger] before.push(x).contains(y) <==> (before.contains(y) || y == x),
{
    assert forall|y: usize| #[trigger] before.push(x).contains(y) <==> (before.contains(y) || y == x) by {
        let after = before.push(x);
        if after.contains(y) {
            let i = choose|i: int| 0 <= i < after.len() && after[i] == y;
            if i < before.len() {
                assert(before[i] == y);
            }
        }
        if before.contains(y) {
            let i = choose|i: int| 0 <= i < before.len() && before[i] == y;
            assert(after[i] == y);
        }
        if y == x {
            assert(after[before.len() as int] == y);
        }
    }
}

/// The boundaries of a segmentation refined inside each segment: the
/// segment starts after frame 0 and, for segment `s`, the frames at which
/// the cluster labels `labels[s]` of its frames change, in increasing order
/// without repeats.
pub fn subsegment_boundaries(bounds: &[usize], labels: &Vec<Vec<usize>>) -> (r: Vec<usize>)
    requires
        bounds@.len() >= 1,
        labels@.len() == bounds@.len() - 1,
        forall|s: int| 0 <= s < labels@.len() ==> bounds@[s] + (#[trigger] labels@[s])@.len() <= usize::MAX,
    ensures
        strictly_increasing(r@),
        forall|y: usize| r@.contains(y) <==> subsegment_point(bounds@, Seq::new(labels@.len(), |s: int| labels@[s]@), y),
{
    let ghost ls = Seq::new(labels@.len(), |s: int| labels@[s]@);
    let n_segs = bounds.len() - 1;
    let mut points: Vec<usize> = Vec::new();
    let mut k: usize = 0;
    while k < n_segs
        invariant
            n_segs == bounds@.len() - 1,
            labels@.len() == n_segs,
            k <= n_segs,
            ls == Seq::new(labels@.len(), |s: int| labels@[s]@),
            forall|s: int| 0 <= s < labels@.len() ==> bounds@[s] + (#[trigger] labels@[s])@.len() <= usize::MAX,
            forall|y: usize| #[trigger] points@.contains(y) <==> seen_point(bounds@, ls, k as int, y),
        decreases n_segs - k,
    {
        let ghost before = points@;
        let start = bounds[k];
        if start > 0 {
            points.push(start);
            proof {
                lemma_push_contains(before, start);
                assert(points@ == before.push(start));
            }
        }
        let ghost mid = points@;
        let changes = label_change_points(&labels[k], start);
        proof {
            assert(ls[k as int] == labels@[k as int]@);
        }
        let mut j: usize = 0;
        while j < changes.len()
            invariant
                j <= changes@.len(),
                forall|y: usize| #[trigger] points@.contains(y) <==> (mid.contains(y) || changes@.take(j as int).contains(y)),
            decreases changes@.len() - j,
        {
            let ghost pre = points@;
            let c = changes[j];
            points.push(c);
            proof {
                lemma_push_contains(pre, c);
                lemma_push_contains(changes@.take(j as int), c);
                assert(changes@.take(j as int + 1) =~= changes@.take(j as int).push(c));
                assert(points@ == pre.push(c));
                assert forall|y: usize| #[trigger] points@.contains(y) <==> (mid.contains(y)
                    || changes@.take(j as int + 1).contains(y)) by {
                    assert(pre.contains(y) <==> (mid.contains(y) || changes@.take(j as int).contains(y)));
                    assert(pre.push(c).contains(y) <==> (pre.contains(y) || y == c));
                    assert(changes@.take(j as int).push(c).contains(y) <==> (changes@.take(j as int).contains(y) || y == c));
                }
            }
            j += 1;
        }
        proof {
            assert(changes@.take(changes@.len() as int) =~= changes@);
            assert forall|y: usize| #[trigger] points@.contains(y) <==> seen_point(bounds@, ls, k + 1, y) by {
                lemma_seen_step(bounds@, ls, k as int, y);
                assert(mid.contains(y) <==> (before.contains(y) || (start > 0 && y == start)));
            }
        }
        k += 1;
    }
    let r = sorted_unique(&points);
    proof {
        assert forall|y: usize| r@.contains(y) <==> subsegment_point(bounds@, ls, y) by {
            assert(points@.contains(y) <==> seen_point(bounds@, ls, n_segs as int, y));
        }
    }
    r
}

/// Contiguous segments `[start, end)` that cover the frames `0..n` in order,
/// none of them empty.
pub open spec fn is_partition(segs: Seq<(usize, usize)>, n: nat) -> bool {
    &&& segs.len() >= 1
    &&& segs[0].0 == 0
    &&& segs.last().1 == n
    &&& forall|k: int| 0 <= k < segs.len() ==> (#[trigger] segs[k]).0 < segs[k].1
    &&& forall|k: int| 0 <= k < segs.len() - 1 ==> (#[trigger] segs[k]).1 == segs[k + 1].0
}

/// One segment per frame, the starting point of bottom-up clustering.
pub fn unit_segments(n: usize) -> (segs: Vec<(usize, usize)>)
    requires
        n > 0,
    ensures
        segs@.len() == n,
        forall|k: int| 0 <= k < n ==> #[trigger] segs@[k] == (k as usize, (k + 1) as usize),
        is_partition(segs@, n as nat),
{
    let mut segs: Vec<(usize, usize)> = Vec::new();
    let mut i: usize = 0;
    while i < n
        invariant
            i <= n,
            segs@.len() == i,
            forall|k: int| 0 <= k < i ==> #[trigger] segs@[k] == (k as usize, (k + 1) as usize),
        decreases n - i,
    {
        segs.push((i, i + 1));
        i += 1;
    }
    segs
}

/// Merges segment `i` with the segment after it.
pub fn merge_adjacent(segs: &mut Vec<(usize, usize)>, i: usize)
    requires
        i + 1 < old(segs)@.len(),
    ensures
        final(segs)@ == old(segs)@.take(i as int).push((old(segs)@[i as int].0, old(segs)@[i + 1].1))
            + old(segs)@.skip(i + 2),
{
    proof {
        assert(i + 1 < segs.len());
    }
    let merged = (segs[i].0, segs[i + 1].1);
    let ghost before = segs@;
    segs.set(i, merged);
    segs.remove(i + 1);
    proof {
        assert(segs@ =~= before.take(i as int).push(merged) + before.skip(i + 2));
    }
}

/// Merging two neighbouring segments of a partition gives a partition with
/// one segment fewer.
pub proof fn lemma_merge_keeps_partition(segs: Seq<(usize, usize)>, n: nat, i: int)
    requires
        is_partition(segs, n),
        0 <= i,
        i + 1 < segs.len(),
    ensures
        ({
            let m = segs.take(i).push((segs[i].0, segs[i + 1].1)) + segs.skip(i + 2);
            &&& m.len() == segs.len() - 1
            &&& is_partition(m, n)
        }),
{
    let m = segs.take(i).push((segs[i].0, segs[i + 1].1)) + segs.skip(i + 2);
    assert forall|k: int| 0 <= k < m.len() implies #[trigger] m[k] == (if k < i { segs[k] } else if k == i {
        (segs[i].0, segs[i + 1].1) } else { segs[k + 1] }) by {}
    assert forall|k: int| 0 <= k < m.len() implies (#[trigger] m[k]).0 < m[k].1 by {
        if k == i {
            assert(segs[i].0 < segs[i].1 && segs[i].1 == segs[i + 1].0 && segs[i + 1].0 < segs[i + 1].1);
        }
    }
    assert forall|k: int| 0 <= k < m.len() - 1 implies (#[trigger] m[k]).1 == m[k + 1].0 by {
        if k == i - 1 {
            assert(segs[i - 1].1 == segs[i].0);
        } else if k == i {
            assert(segs[i + 1].1 == segs[i + 2].0);
        } else if k > i {
            assert(segs[k + 1].1 == segs[k + 2].0);
        }
    }
    if i == 0 {
        assert(m[0] == (segs[0].0, segs[1].1));
    }
    assert(m.last() == (if m.len() - 1 == i { (segs[i].0, segs[i + 1].1) } else { segs.last() }));
}

/// The frame label of a partition: every frame carries the index of the
/// segment that contains it.
pub fn segment_labels(segs: &Vec<(usize, usize)>, n: usize) -> (labels: Vec<usize>)
    requires
        is_partition(segs@, n as nat),
    ensures
        labels@.len() == n,
        forall|t: int| 0 <= t < n ==> (#[trigger] labels@[t]) < segs@.len()
            && segs@[labels@[t] as int].0 <= t < segs@[labels@[t] as int].1,
        forall|a: int, b: int| 0 <= a <= b < n ==> labels@[a] <= labels@[b],
{
    let mut labels: Vec<usize> = Vec::new();
    let mut k: usize = 0;
    while k < segs.len()
        invariant
            is_partition(segs@, n as nat),
            k <= segs@.len(),
            labels@.len() == (if k == 0 { 0 } else { segs@[k - 1].1 as int }),
            forall|t: int| 0 <= t < labels@.len() ==> (#[trigger] labels@[t]) < k
                && segs@[labels@[t] as int].0 <= t < segs@[labels@[t] as int].1,
            forall|a: int, b: int| 0 <= a <= b < labels@.len() ==> labels@[a] <= labels@[b],
        decreases segs.len() - k,
    {
        let (s, e) = segs[k];
        proof {
            if k > 0 {
                assert(segs@[k - 1].1 == segs@[k as int].0);
            }
        }
        let mut t: usize = s;
        while t < e
            invariant
                is_partition(segs@, n as nat),
                k < segs@.len(),
                (s, e) == segs@[k as int],
                s <= t <= e,
                labels@.len() == t,
                forall|q: int| 0 <= q < labels@.len() ==> (#[trigger] labels@[q]) <= k
                    && segs@[labels@[q] as int].0 <= q < segs@[labels@[q] as int].1,
                forall|a: int, b: int| 0 <= a <= b < labels@.len() ==> labels@[a] <= labels@[b],
            decreases e - t,
        {
            labels.push(k);
            t += 1;
        }
        k += 1;
    }
    labels
}

/// A partition of the frames `0..n` into contiguous, non-empty segments,
/// the state of bottom-up temporal clustering.
pub struct Partition {
    segs: Vec<(usize, usize)>,
    n: usize,
}

impl Partition {
    /// The segments, in order.
    pub closed spec fn segments(&self) -> Seq<(usize, usize)> {
        self.segs@
    }

    /// The number of frames covered.
    pub closed spec fn frames(&self) -> nat {
        self.n as nat
    }

    #[verifier::type_invariant]
    spec fn covers_frames(&self) -> bool {
        is_partition(self.segs@, self.n as nat)
    }

    /// One segment per frame.
    pub fn singletons(n: usize) -> (p: Self)
        requires
            n > 0,
        ensures
            p.frames() == n,
            is_partition(p.segments(), p.frames()),
            p.segments().len() == n,
            forall|k: int| 0 <= k < n ==> #[trigger] p.segments()[k] == (k as usize, (k + 1) as usize),
    {
        Partition { segs: unit_segments(n), n }
    }

    /// The number of segments.
    pub fn len(&self) -> (r: usize)
        ensures
            r == self.segments().len(),
            r >= 1,
    {
        proof {
            use_type_invariant(self);
        }
        self.segs.len()
    }

    /// Segment `i`.
    pub fn segment(&self, i: usize) -> (r: (usize, usize))
        requires
            i < self.segments().len(),
        ensures
            r == self.segments()[i as int],
    {
        self.segs[i]
    }

    /// Merges segment `i` with the one after it.
    pub fn merge(&mut self, i: usize)
        requires
            i + 1 < old(self).segments().len(),
        ensures
            is_partition(old(self).segments(), old(self).frames()),
            is_partition(final(self).segments(), final(self).frames()),
            final(self).frames() == old(self).frames(),
            final(self).segments() == old(self).segments().take(i as int).push(
                (old(self).segments()[i as int].0, old(self).segments()[i + 1].1))
                + old(self).segments().skip(i + 2),
    {
        proof {
            use_type_invariant(&*self);
            lemma_merge_keeps_partition(self.segs@, self.n as nat, i as int);
        }
        let mut segs: Vec<(usize, usize)> = Vec::new();
        push_slice(&mut segs, self.segs.as_slice(), 0, self.segs.len());
        proof {
            assert(self.segs@.subrange(0, self.segs@.len() as int) =~= self.segs@);
        }
        merge_adjacent(&mut segs, i);
        let n = self.n;
        *self = Partition { segs, n };
    }

    /// The index of the segment that holds each frame.
    pub fn labels(&self) -> (labels: Vec<usize>)
        ensures
            labels@.len() == self.frames(),
            forall|t: int| 0 <= t < self.frames() ==> (#[trigger] labels@[t]) < self.segments().len()
                && self.segments()[labels@[t] as int].0 <= t < self.segments()[labels@[t] as int].1,
            forall|a: int, b: int| 0 <= a <= b < self.frames() ==> labels@[a] <= labels@[b],
    {
        proof {
            use_type_invariant(self);
        }
        segment_labels(&self.segs, self.n)
    }
}

/// Whether the diagonal step `k` from cell `(i, j)` of a `rows × cols`
/// matrix stays within `half` steps and inside the matrix.
pub open spec fn on_diagonal(rows: nat, cols: nat, i: nat, j: nat, half: nat, k: int) -> bool {
    -half <= k <= half && 0 <= i + k < rows && 0 <= j + k < cols
}

/// The diagonal neighbourhood of cell `(i, j)` in a `rows × cols` matrix:
/// the cells `(i + k, j + k)` with `|k| <= half` inside the matrix run from
/// `(r.0, r.1)` along the diagonal for `r.2` cells.
pub fn diagonal_window(rows: usize, cols: usize, i: usize, j: usize, half: usize) -> (r: (usize, usize, usize))
    requires
        i < rows,
        j < cols,
    ensures
        r.0 <= i,
        r.1 <= j,
        i - r.0 == j - r.1,
        r.2 >= 1,
        forall|k: int| #[trigger] on_diagonal(rows as nat, cols as nat, i as nat, j as nat, half as nat, k)
            <==> r.0 <= i + k < r.0 + r.2,
{
    let back = if half < i { half } else { i };
    let back = if back < j { back } else { j };
    let fwd = if half < rows - 1 - i { half } else { rows - 1 - i };
    let fwd = if fwd < cols - 1 - j { fwd } else { cols - 1 - j };
    (i - back, j - back, back + fwd + 1)
}

} // verus!
