//! Path recovery for dynamic time warping and Viterbi decoding, and the
//! shape checks that precede both.

use vstd::prelude::*;
use crate::errors::SequenceError;
use crate::text::{decimal, push_decimal, push_text};

verus! {

/// Which neighbour a cell of the warping cost matrix was reached from.
#[derive(Debug, Clone, Copy, PartialEq, Eq, Structural)]
pub enum DtwStep {
    /// From `(i - 1, j - 1)`.
    Diagonal,
    /// From `(i - 1, j)`.
    Up,
    /// From `(i, j - 1)`.
    Left,
}

/// The predecessor of cell `(i, j)` on the warping path: along the first
/// row or column the only neighbour, elsewhere the recorded step.
pub open spec fn dtw_prev(steps: Seq<Seq<DtwStep>>, i: nat, j: nat) -> (nat, nat) {
    if i == 0 {
        (0, (j - 1) as nat)
    } else if j == 0 {
        ((i - 1) as nat, 0)
    } else {
        match steps[i as int][j as int] {
            DtwStep::Diagonal => ((i - 1) as nat, (j - 1) as nat),
            DtwStep::Up => ((i - 1) as nat, j),
            DtwStep::Left => (i, (j - 1) as nat),
        }
    }
}

/// The warping path from `(0, 0)` to `(i, j)` obtained by following the
/// predecessors back from `(i, j)`.
pub open spec fn dtw_path_to(steps: Seq<Seq<DtwStep>>, i: nat, j: nat) -> Seq<(usize, usize)>
    decreases i + j,
{
    if i == 0 && j == 0 {
        seq![(0usize, 0usize)]
    } else {
        let p = dtw_prev(steps, i, j);
        dtw_path_to(steps, p.0, p.1).push((i as usize, j as usize))
    }
}

/// A warping path through an `n` by `m` grid: it starts at `(0, 0)`, ends at
/// `(n - 1, m - 1)`, and each step advances one or both coordinates by one.
pub open spec fn is_warping_path(p: Seq<(usize, usize)>, n: nat, m: nat) -> bool {
    &&& p.len() >= 1
    &&& p[0] == (0usize, 0usize)
    &&& p.last() == ((n - 1) as usize, (m - 1) as usize)
    &&& forall|k: int| 0 <= k < p.len() ==> (#[trigger] p[k]).0 < n && p[k].1 < m
    &&& forall|k: int| 1 <= k < p.len() ==> {
        let a = p[k - 1];
        let b = #[trigger] p[k];
        &&& (b.0 == a.0 || b.0 == a.0 + 1)
        &&& (b.1 == a.1 || b.1 == a.1 + 1)
        &&& b != a
    }
}

/// Following recorded steps back from any cell gives a warping path to it.
pub proof fn lemma_dtw_path_is_warping(steps: Seq<Seq<DtwStep>>, i: nat, j: nat)
    requires
        i <= usize::MAX,
        j <= usize::MAX,
    ensures
        is_warping_path(dtw_path_to(steps, i, j), i + 1, j + 1),
    decreases i + j,
{
    if !(i == 0 && j == 0) {
        let pr = dtw_prev(steps, i, j);
        lemma_dtw_path_is_warping(steps, pr.0, pr.1);
        let q = dtw_path_to(steps, pr.0, pr.1);
        let p = dtw_path_to(steps, i, j);
        assert(p == q.push((i as usize, j as usize)));
        assert forall|k: int| 0 <= k < p.len() implies (#[trigger] p[k]).0 < i + 1 && p[k].1 < j + 1 by {
            if k < q.len() {
                assert(p[k] == q[k]);
            }
        }
        assert forall|k: int| 1 <= k < p.len() implies {
            let a = p[k - 1];
            let b = #[trigger] p[k];
            &&& (b.0 == a.0 || b.0 == a.0 + 1)
            &&& (b.1 == a.1 || b.1 == a.1 + 1)
            &&& b != a
        } by {
            if k < q.len() {
                assert(p[k] == q[k]);
                assert(p[k - 1] == q[k - 1]);
            } else {
                assert(p[k - 1] == q.last());
            }
        }
    }
}

/// Recovers the warping path of an `n` by `m` alignment from the step
/// recorded at each interior cell, from `(0, 0)` to `(n - 1, m - 1)`.
pub fn dtw_path(n: usize, m: usize, steps: &Vec<Vec<DtwStep>>) -> (path: Vec<(usize, usize)>)
    requires
        n >= 1,
        m >= 1,
        steps@.len() == n,
        forall|i: int| 0 <= i < n ==> (#[trigger] steps@[i])@.len() == m,
    ensures
        path@ == dtw_path_to(Seq::new(n as nat, |i: int| steps@[i]@), (n - 1) as nat, (m - 1) as nat),
        is_warping_path(path@, n as nat, m as nat),
{
    let ghost st = Seq::new(n as nat, |i: int| steps@[i]@);
    let ghost full = dtw_path_to(st, (n - 1) as nat, (m - 1) as nat);
    let mut rev: Vec<(usize, usize)> = Vec::new();
    let mut i: usize = n - 1;
    let mut j: usize = m - 1;
    rev.push((i, j));
    while i > 0 || j > 0
        invariant
            i < n,
            j < m,
            steps@.len() == n,
            forall|k: int| 0 <= k < n ==> (#[trigger] steps@[k])@.len() == m,
            st == Seq::new(n as nat, |k: int| steps@[k]@),
            full == dtw_path_to(st, (n - 1) as nat, (m - 1) as nat),
            full =~= dtw_path_to(st, i as nat, j as nat).drop_last() + rev@.reverse(),
            rev@.len() >= 1,
            rev@.last() == (i, j),
        decreases i + j,
    {
        let ghost before = dtw_path_to(st, i as nat, j as nat);
        let (pi, pj) = if i == 0 {
            (0, j - 1)
        } else if j == 0 {
            (i - 1, 0)
        } else {
            match steps[i][j] {
                DtwStep::Diagonal => (i - 1, j - 1),
                DtwStep::Up => (i - 1, j),
                DtwStep::Left => (i, j - 1),
            }
        };
        proof {
            assert(dtw_prev(st, i as nat, j as nat) == (pi as nat, pj as nat));
            let after = dtw_path_to(st, pi as nat, pj as nat);
            assert(before == after.push((i, j)));
            assert(before.drop_last() =~= after);
            assert(after.last() == (pi, pj)) by {
                if pi == 0 && pj == 0 {
                } else {
                    let pp = dtw_prev(st, pi as nat, pj as nat);
                    assert(after == dtw_path_to(st, pp.0, pp.1).push((pi, pj)));
                }
            }
            assert(after =~= after.drop_last().push((pi, pj)));
            assert(rev@.push((pi, pj)).reverse() =~= seq![(pi, pj)] + rev@.reverse());
        }
        rev.push((pi, pj));
        i = pi;
        j = pj;
    }
    proof {
        assert(dtw_path_to(st, 0, 0).drop_last() =~= Seq::<(usize, usize)>::empty());
        assert(full =~= rev@.reverse());
    }
    let mut path: Vec<(usize, usize)> = Vec::new();
    let mut k: usize = rev.len();
    while k > 0
        invariant
            k <= rev@.len(),
            path@ =~= rev@.reverse().take(rev@.len() - k),
        decreases k,
    {
        k -= 1;
        path.push(rev[k]);
    }
    proof {
        lemma_dtw_path_is_warping(st, (n - 1) as nat, (m - 1) as nat);
    }
    path
}

/// The shape checks of dynamic time warping between an `nf_x` by `n` and an
/// `nf_y` by `m` feature matrix: both sequences need frames and the feature
/// dimensions must agree.
pub fn check_dtw_shapes(n: usize, m: usize, nf_x: usize, nf_y: usize) -> (r: Result<(), SequenceError>)
    ensures
        (n == 0 || m == 0) ==> (r matches Err(SequenceError::InvalidInput(s))
            && s@ == "Input sequence has zero frames"@),
        n != 0 && m != 0 && nf_x != nf_y ==> (r matches Err(SequenceError::InvalidInput(s))
            && s@ == "Feature dimension mismatch: x="@ + decimal(nf_x as nat) + ", y="@ + decimal(nf_y as nat)),
        n != 0 && m != 0 && nf_x == nf_y ==> r is Ok,
{
    if n == 0 || m == 0 {
        return Err(SequenceError::InvalidInput(String::from_str("Input sequence has zero frames")));
    }
    if nf_x != nf_y {
        let mut s = String::from_str("Feature dimension mismatch: x=");
        push_decimal(&mut s, nf_x);
        push_text(&mut s, ", y=");
        push_decimal(&mut s, nf_y);
        return Err(SequenceError::InvalidInput(s));
    }
    Ok(())
}

/// The state at frame `t` of the decoded sequence: `last` at the final
/// frame, and before that the recorded best predecessor of the next state.
pub open spec fn viterbi_state(psi: Seq<Seq<usize>>, last: usize, t: int) -> usize
    decreases psi.len() - t,
    when t < psi.len()
{
    if t >= psi.len() - 1 {
        last
    } else {
        psi[t + 1][viterbi_state(psi, last, t + 1) as int]
    }
}

/// Reads the decoded state sequence back from the table of best
/// predecessors `psi[t][s]` and the best final state `last`.
pub fn viterbi_backtrack(psi: &Vec<Vec<usize>>, n_states: usize, last: usize) -> (states: Vec<usize>)
    requires
        psi@.len() >= 1,
        last < n_states,
        forall|t: int| 0 <= t < psi@.len() ==> (#[trigger] psi@[t])@.len() == n_states,
        forall|t: int, s: int| 0 <= t < psi@.len() && 0 <= s < n_states ==> #[trigger] psi@[t]@[s] < n_states,
    ensures
        states@.len() == psi@.len(),
        forall|t: int| 0 <= t < states@.len() ==> #[trigger] states@[t]
            == viterbi_state(Seq::new(psi@.len(), |k: int| psi@[k]@), last, t),
        forall|t: int| 0 <= t < states@.len() ==> #[trigger] states@[t] < n_states,
        states@[states@.len() - 1] == last,
        forall|t: int| 0 <= t < states@.len() - 1 ==> #[trigger] states@[t] == psi@[t + 1]@[states@[t + 1] as int],
{
    let n = psi.len();
    let ghost p = Seq::new(n as nat, |k: int| psi@[k]@);
    let mut rev: Vec<usize> = Vec::new();
    let mut cur = last;
    rev.push(cur);
    let mut t: usize = n - 1;
    while t > 0
        invariant
            n == psi@.len(),
            t < n,
            p == Seq::new(n as nat, |k: int| psi@[k]@),
            cur < n_states,
            cur == viterbi_state(p, last, t as int),
            rev@.len() == n - t,
            forall|k: int| 0 <= k < rev@.len() ==> #[trigger] rev@[k] == viterbi_state(p, last, n - 1 - k),
            forall|k: int| 0 <= k < rev@.len() ==> #[trigger] rev@[k] < n_states,
            forall|k: int| 0 <= k < n ==> (#[trigger] psi@[k])@.len() == n_states,
            forall|k: int, s: int| 0 <= k < n && 0 <= s < n_states ==> #[trigger] psi@[k]@[s] < n_states,
        decreases t,
    {
        let next = psi[t][cur];
        proof {
            assert(viterbi_state(p, last, t - 1) == p[t as int][cur as int]);
        }
        rev.push(next);
        cur = next;
        t -= 1;
    }
    let mut states: Vec<usize> = Vec::new();
    let mut k: usize = n;
    while k > 0
        invariant
            rev@.len() == n,
            k <= n,
            states@.len() == n - k,
            forall|q: int| 0 <= q < states@.len() ==> #[trigger] states@[q] == rev@[n - 1 - q],
        decreases k,
    {
        k -= 1;
        states.push(rev[k]);
    }
    proof {
        assert forall|q: int| 0 <= q < n - 1 implies #[trigger] states@[q] == psi@[q + 1]@[states@[q + 1] as int] by {
            assert(states@[q] == viterbi_state(p, last, q));
            assert(states@[q + 1] == viterbi_state(p, last, q + 1));
        }
    }
    states
}

/// The shape checks of Viterbi decoding with `n_states` states over
/// `n_frames` frames and a `rows` by `cols` transition matrix.
pub fn check_viterbi_shapes(n_states: usize, n_frames: usize, rows: usize, cols: usize) -> (r: Result<(), SequenceError>)
    ensures
        (n_states == 0 || n_frames == 0) ==> (r matches Err(SequenceError::InvalidInput(s)) && s@ == "Empty input"@),
        n_states != 0 && n_frames != 0 && (rows != n_states || cols != n_states) ==> (r matches Err(
            SequenceError::InvalidInput(s)) && s@ == "log_trans shape ["@ + decimal(rows as nat) + ", "@
            + decimal(cols as nat) + "] does not match n_states="@ + decimal(n_states as nat)),
        n_states != 0 && n_frames != 0 && rows == n_states && cols == n_states ==> r is Ok,
{
    if n_states == 0 || n_frames == 0 {
        return Err(SequenceError::InvalidInput(String::from_str("Empty input")));
    }
    if rows != n_states || cols != n_states {
        let mut s = String::from_str("log_trans shape [");
        push_decimal(&mut s, rows);
        push_text(&mut s, ", ");
        push_decimal(&mut s, cols);
        push_text(&mut s, "] does not match n_states=");
        push_decimal(&mut s, n_states);
        return Err(SequenceError::InvalidInput(s));
    }
    Ok(())
}

/// The range `[lo, hi)` of states reachable in one step from state `i` under
/// a local transition matrix of half-width `width` over `n_states` states.
pub fn local_band(n_states: usize, width: usize, i: usize) -> (r: (usize, usize))
    requires
        i < n_states,
    ensures
        r.0 == (if i >= width { i - width } else { 0 }),
        r.1 == (if i + width + 1 < n_states { i + width + 1 } else { n_states as int }),
        r.0 <= i < r.1 <= n_states,
{
    let lo = i.saturating_sub(width);
    let hi = if width < n_states - i - 1 { i + width + 1 } else { n_states };
    (lo, hi)
}

/// The checks of discriminative Viterbi decoding over `n_states` states and
/// `n_frames` frames, with `p_len` state priors when they are given.
pub fn check_discriminative(n_states: usize, n_frames: usize, p_len: Option<usize>) -> (r: Result<(), SequenceError>)
    ensures
        (n_states == 0 || n_frames == 0) ==> (r matches Err(SequenceError::InvalidInput(s)) && s@ == "Empty input"@),
        forall|p: usize| n_states != 0 && n_frames != 0 && p_len == Some(p) && p != n_states
            ==> (r matches Err(SequenceError::InvalidInput(s)) && s@ == "p_state length "@ + decimal(p as nat)
                + " does not match n_states "@ + decimal(n_states as nat)),
        n_states != 0 && n_frames != 0 && (p_len is None || p_len == Some(n_states)) ==> r is Ok,
{
    if n_states == 0 || n_frames == 0 {
        return Err(SequenceError::InvalidInput(String::from_str("Empty input")));
    }
    if let Some(p) = p_len {
        if p != n_states {
            let mut s = String::from_str("p_state length ");
            push_decimal(&mut s, p);
            push_text(&mut s, " does not match n_states ");
            push_decimal(&mut s, n_states);
            return Err(SequenceError::InvalidInput(s));
        }
    }
    Ok(())
}

/// The checks of binary Viterbi decoding: some frames, and a 2 by 2
/// transition matrix.
pub fn check_binary_viterbi(n_frames: usize, rows: usize, cols: usize) -> (r: Result<(), SequenceError>)
    ensures
        n_frames == 0 ==> (r matches Err(SequenceError::InvalidInput(s)) && s@ == "prob is empty"@),
        n_frames != 0 && !(rows == 2 && cols == 2) ==> (r matches Err(SequenceError::InvalidInput(s))
            && s@ == "log_trans must be 2\u{d7}2 for binary Viterbi"@),
        n_frames != 0 && rows == 2 && cols == 2 ==> r is Ok,
{
    if n_frames == 0 {
        return Err(SequenceError::InvalidInput(String::from_str("prob is empty")));
    }
    if !(rows == 2 && cols == 2) {
        return Err(SequenceError::InvalidInput(String::from_str("log_trans must be 2\u{d7}2 for binary Viterbi")));
    }
    Ok(())
}

} // verus!
