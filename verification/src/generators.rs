//! Click tracks: a silent signal with a click at each requested sample.

use vstd::prelude::*;
use crate::errors::GeneratorError;

verus! {

/// The largest value of `s`, 0 for an empty sequence.
pub open spec fn seq_max(s: Seq<usize>) -> nat
    decreases s.len(),
{
    if s.len() == 0 {
        0
    } else {
        let m = seq_max(s.drop_last());
        if s.last() > m { s.last() as nat } else { m }
    }
}

proof fn lemma_seq_max_bounds(s: Seq<usize>)
    ensures
        forall|k: int| 0 <= k < s.len() ==> #[trigger] s[k] <= seq_max(s),
        s.len() > 0 ==> exists|k: int| 0 <= k < s.len() && #[trigger] s[k] == seq_max(s),
    decreases s.len(),
{
    if s.len() > 0 {
        lemma_seq_max_bounds(s.drop_last());
        assert forall|k: int| 0 <= k < s.len() implies #[trigger] s[k] <= seq_max(s) by {
            if k < s.len() - 1 {
                assert(s.drop_last()[k] == s[k]);
            }
        }
        if s.last() <= seq_max(s.drop_last()) && s.len() > 1 {
            let k = choose|k: int| 0 <= k < s.drop_last().len() && #[trigger] s.drop_last()[k] == seq_max(s.drop_last());
            assert(s[k] == seq_max(s));
        } else {
            assert(s[s.len() - 1] == seq_max(s));
        }
    }
}

/// The largest entry of `values`, 0 when it is empty.
pub fn max_value(values: &[usize]) -> (m: usize)
    ensures
        m == seq_max(values@),
        forall|k: int| 0 <= k < values@.len() ==> #[trigger] values@[k] <= m,
{
    let mut m: usize = 0;
    let mut i: usize = 0;
    while i < values.len()
        invariant
            i <= values@.len(),
            m == seq_max(values@.take(i as int)),
        decreases values@.len() - i,
    {
        proof {
            assert(values@.take(i as int + 1).drop_last() =~= values@.take(i as int));
        }
        if values[i] > m {
            m = values[i];
        }
        i += 1;
    }
    proof {
        assert(values@.take(values@.len() as int) =~= values@);
        lemma_seq_max_bounds(values@);
    }
    m
}

/// `len` samples of `silence` with `click` at every listed index that falls
/// inside the signal.
pub open spec fn click_signal<S>(indices: Seq<usize>, len: nat, silence: S, click: S) -> Seq<S> {
    Seq::new(len, |i: int| if indices.contains(i as usize) { click } else { silence })
}

/// A signal of `len` samples of `silence`, with `click` at each of
/// `indices`; indices past the end are ignored.
pub fn click_track<S: Copy>(indices: &[usize], len: usize, silence: S, click: S) -> (r: Vec<S>)
    ensures
        r@ == click_signal(indices@, len as nat, silence, click),
{
    let mut out: Vec<S> = Vec::new();
    let mut i: usize = 0;
    while i < len
        invariant
            i <= len,
            out@ =~= Seq::new(i as nat, |k: int| silence),
        decreases len - i,
    {
        out.push(silence);
        i += 1;
    }
    let mut j: usize = 0;
    while j < indices.len()
        invariant
            j <= indices@.len(),
            out@ =~= click_signal(indices@.take(j as int), len as nat, silence, click),
        decreases indices@.len() - j,
    {
        let idx = indices[j];
        let ghost prev = indices@.take(j as int);
        let ghost next = indices@.take(j as int + 1);
        proof {
            assert(next =~= prev.push(idx));
            assert forall|x: usize| #[trigger] next.contains(x) == (prev.contains(x) || x == idx) by {
                if next.contains(x) {
                    let k = choose|k: int| 0 <= k < next.len() && next[k] == x;
                    if k < prev.len() {
                        assert(prev[k] == x);
                    }
                }
                if prev.contains(x) {
                    let k = choose|k: int| 0 <= k < prev.len() && prev[k] == x;
                    assert(next[k] == x);
                }
                if x == idx {
                    assert(next[j as int] == x);
                }
            }
        }
        if idx < len {
            out.set(idx, click);
        }
        proof {
            assert(out@ =~= click_signal(next, len as nat, silence, click));
        }
        j += 1;
    }
    proof {
        assert(indices@.take(indices@.len() as int) =~= indices@);
    }
    out
}

/// Whether some frame of `frames` starts at sample `i` with the given hop.
pub open spec fn frame_clicked(frames: Seq<usize>, hop: nat, i: int) -> bool {
    exists|k: int| 0 <= k < frames.len() && #[trigger] frames[k] * hop == i
}

/// A click track with a click at the first sample of each listed frame:
/// the signal runs to one sample past the latest frame start. The hop
/// defaults to 512 samples; an empty frame list is refused.
pub fn clicks_from_frames<S: Copy>(frames: &[usize], hop_length: Option<usize>, silence: S, click: S)
    -> (r: Result<Vec<S>, GeneratorError>)
    requires
        seq_max(frames@) * (match hop_length { Some(h) => h, None => 512 }) + 1 <= usize::MAX,
    ensures
        frames@.len() == 0 ==> (r matches Err(GeneratorError::InvalidInput(m))
            && m@ == "Frames array cannot be empty"@),
        frames@.len() > 0 ==> (r matches Ok(v)
            && v@.len() == seq_max(frames@) * (match hop_length { Some(h) => h, None => 512 }) + 1
            && forall|i: int| 0 <= i < v@.len() ==> #[trigger] v@[i] == if frame_clicked(frames@,
                (match hop_length { Some(h) => h, None => 512 }) as nat, i) { click } else { silence }),
{
    let hop = match hop_length { Some(h) => h, None => 512 };
    if frames.len() == 0 {
        return Err(GeneratorError::InvalidInput(String::from_str("Frames array cannot be empty")));
    }
    let m = max_value(frames);
    let len = m * hop + 1;
    let mut starts: Vec<usize> = Vec::new();
    let mut k: usize = 0;
    while k < frames.len()
        invariant
            k <= frames@.len(),
            m == seq_max(frames@),
            m * hop + 1 <= usize::MAX,
            forall|u: int| 0 <= u < frames@.len() ==> #[trigger] frames@[u] <= m,
            starts@.len() == k,
            forall|u: int| 0 <= u < k ==> #[trigger] starts@[u] == frames@[u] * hop,
        decreases frames@.len() - k,
    {
        proof {
            assert(frames@[k as int] * hop <= m * hop) by (nonlinear_arith)
                requires frames@[k as int] <= m;
        }
        starts.push(frames[k] * hop);
        k += 1;
    }
    let v = click_track(&starts, len, silence, click);
    proof {
        assert forall|i: int| 0 <= i < v@.len() implies #[trigger] v@[i] == if frame_clicked(frames@, hop as nat, i) {
            click } else { silence } by {
            if starts@.contains(i as usize) {
                let u = choose|u: int| 0 <= u < starts@.len() && starts@[u] == i as usize;
                assert(frames@[u] * hop == i);
            }
            if frame_clicked(frames@, hop as nat, i) {
                let u = choose|u: int| 0 <= u < frames@.len() && #[trigger] frames@[u] * hop == i;
                assert(starts@[u] == i as usize);
            }
        }
    }
    Ok(v)
}

} // verus!
