//! Feature-matrix bookkeeping: stacking delayed copies of a feature matrix
//! and the shape checks and neighbour indices of delta features. A matrix
//! is a vector of rows of equal length.

use vstd::prelude::*;
use crate::errors::MfccError;
use crate::text::{decimal, push_decimal, push_signed_decimal, push_text, signed_decimal};

verus! {

/// Every row of `rows` has `cols` entries.
pub open spec fn is_rect<S>(rows: Seq<Vec<S>>, cols: nat) -> bool {
    forall|r: int| 0 <= r < rows.len() ==> (#[trigger] rows[r])@.len() == cols
}

/// The frame that `t` looks back to at stacking step `step`: `step * delay`
/// frames earlier, held at the first frame.
pub open spec fn lagged_frame(t: nat, step: nat, delay: nat) -> nat {
    if t >= step * delay { (t - step * delay) as nat } else { 0 }
}

/// Stacks `n_steps` copies of a `features × frames` matrix, copy `step`
/// delayed by `step * delay` frames (the first frame repeated at the start).
/// Steps and delay default to 2 and 1.
pub fn stack_memory<S: Copy>(data: &Vec<Vec<S>>, n_frames: usize, n_steps: Option<usize>, delay: Option<usize>)
    -> (r: Vec<Vec<S>>)
    requires
        is_rect(data@, n_frames as nat),
        data@.len() * (match n_steps { Some(s) => s, None => 2 }) <= usize::MAX,
        (match n_steps { Some(s) => s, None => 2 }) * (match delay { Some(d) => d, None => 1 }) <= usize::MAX,
    ensures
        r@.len() == data@.len() * (match n_steps { Some(s) => s, None => 2 }),
        is_rect(r@, n_frames as nat),
        forall|step: int, f: int, t: int|
            0 <= step < (match n_steps { Some(s) => s, None => 2 }) && 0 <= f < data@.len() && 0 <= t < n_frames
            ==> #[trigger] r@[f + step * data@.len()]@[t] == data@[f]@[lagged_frame(
                t as nat, step as nat, (match delay { Some(d) => d, None => 1 }) as nat) as int],
{
    let steps = match n_steps { Some(s) => s, None => 2 };
    let dl = match delay { Some(d) => d, None => 1 };
    let nf = data.len();
    let mut out: Vec<Vec<S>> = Vec::new();
    let mut step: usize = 0;
    while step < steps
        invariant
            step <= steps,
            nf == data@.len(),
            nf * steps <= usize::MAX,
            steps * dl <= usize::MAX,
            is_rect(data@, n_frames as nat),
            out@.len() == step * nf,
            is_rect(out@, n_frames as nat),
            forall|s: int, f: int, t: int| 0 <= s < step && 0 <= f < nf && 0 <= t < n_frames
                ==> #[trigger] out@[f + s * nf]@[t] == data@[f]@[lagged_frame(t as nat, s as nat, dl as nat) as int],
        decreases steps - step,
    {
        proof {
            assert(step * dl <= steps * dl) by (nonlinear_arith)
                requires step <= steps;
        }
        let offset = step * dl;
        let mut f: usize = 0;
        while f < nf
            invariant
                step < steps,
                f <= nf,
                nf == data@.len(),
                offset == step * dl,
                is_rect(data@, n_frames as nat),
                out@.len() == step * nf + f,
                is_rect(out@, n_frames as nat),
                forall|s: int, g: int, t: int| 0 <= s < step && 0 <= g < nf && 0 <= t < n_frames
                    ==> #[trigger] out@[g + s * nf]@[t] == data@[g]@[lagged_frame(t as nat, s as nat, dl as nat) as int],
                forall|g: int, t: int| 0 <= g < f && 0 <= t < n_frames
                    ==> #[trigger] out@[step * nf + g]@[t] == data@[g]@[lagged_frame(t as nat, step as nat, dl as nat) as int],
            decreases nf - f,
        {
            let row = &data[f];
            let mut new_row: Vec<S> = Vec::new();
            let mut t: usize = 0;
            while t < n_frames
                invariant
                    t <= n_frames,
                    row@.len() == n_frames,
                    new_row@.len() == t,
                    forall|u: int| 0 <= u < t ==> #[trigger] new_row@[u]
                        == row@[lagged_frame(u as nat, step as nat, dl as nat) as int],
                    offset == step * dl,
                decreases n_frames - t,
            {
                let src = if t >= offset { t - offset } else { 0 };
                new_row.push(row[src]);
                t += 1;
            }
            proof {
                assert(step * nf + f < steps * nf) by (nonlinear_arith)
                    requires step < steps, f < nf;
            }
            let ghost before = out@;
            out.push(new_row);
            proof {
                assert forall|s: int, g: int, t: int| 0 <= s < step && 0 <= g < nf && 0 <= t < n_frames
                    implies #[trigger] out@[g + s * nf]@[t] == data@[g]@[lagged_frame(t as nat, s as nat, dl as nat) as int] by {
                    assert(g + s * nf < step * nf) by (nonlinear_arith)
                        requires s < step, g < nf, 0 <= s, 0 <= g;
                    assert(out@[g + s * nf] == before[g + s * nf]);
                }
                assert forall|g: int, t: int| 0 <= g < f + 1 && 0 <= t < n_frames
                    implies #[trigger] out@[step * nf + g]@[t] == data@[g]@[lagged_frame(t as nat, step as nat, dl as nat) as int] by {
                    if g < f {
                        assert(out@[step * nf + g] == before[step * nf + g]);
                    }
                }
            }
            f += 1;
        }
        proof {
            assert((step + 1) * nf == step * nf + nf) by (nonlinear_arith);
            assert forall|s: int, g: int, t: int| 0 <= s < step + 1 && 0 <= g < nf && 0 <= t < n_frames
                implies #[trigger] out@[g + s * nf]@[t] == data@[g]@[lagged_frame(t as nat, s as nat, dl as nat) as int] by {
                if s == step {
                    assert(g + s * nf == step * nf + g) by (nonlinear_arith)
                        requires s == step;
                    assert(out@[step * nf + g]@[t] == data@[g]@[lagged_frame(t as nat, step as nat, dl as nat) as int]);
                }
            }
        }
        step += 1;
    }
    proof {
        assert(steps * nf == nf * steps) by (nonlinear_arith);
        assert forall|s: int, f: int, t: int|
            0 <= s < steps && 0 <= f < nf && 0 <= t < n_frames
            implies #[trigger] out@[f + s * data@.len()]@[t] == data@[f]@[lagged_frame(t as nat, s as nat, dl as nat) as int] by {
            assert(out@[f + s * nf]@[t] == data@[f]@[lagged_frame(t as nat, s as nat, dl as nat) as int]);
        }
    }
    out
}

/// Window width and time axis of a delta computation: the width defaults to
/// 9 and must be a positive odd number; a negative axis (the default) means
/// frames run along the columns.
pub fn delta_params(width: Option<usize>, axis: Option<isize>) -> (r: Result<(usize, bool), MfccError>)
    ensures
        ({
            let w = match width { Some(w) => w, None => 9 };
            let ax = match axis { Some(a) => a, None => -1isize };
            &&& (w == 0 || w % 2 == 0) ==> (r matches Err(MfccError::InvalidInput(m))
                && m@ == "Width must be a positive odd integer"@)
            &&& !(w == 0 || w % 2 == 0) ==> r == Ok::<(usize, bool), MfccError>((w, ax < 0))
        }),
{
    let w = match width { Some(w) => w, None => 9 };
    let ax = match axis { Some(a) => a, None => -1 };
    if w == 0 || w % 2 == 0 {
        return Err(MfccError::InvalidInput(String::from_str("Width must be a positive odd integer")));
    }
    Ok((w, ax < 0))
}

/// The shape checks of a delta computation over `n_series` series of
/// `n_frames` frames each with a window of `width` frames; a window of one
/// frame has no slope, so its normalisation (the sum of the squared tap
/// offsets) is zero and it is refused.
pub fn check_delta_shape(n_series: usize, n_frames: usize, width: usize) -> (r: Result<(), MfccError>)
    ensures
        (n_frames == 0 || n_series == 0) ==> (r matches Err(MfccError::InvalidDimensions(m))
            && m@ == "MFCC matrix is empty"@),
        !(n_frames == 0 || n_series == 0) && n_frames < width ==> (r matches Err(MfccError::InvalidDimensions(m))
            && m@ == "Time axis length "@ + decimal(n_frames as nat) + " less than width "@ + decimal(width as nat)),
        !(n_frames == 0 || n_series == 0) && n_frames >= width && width <= 1 ==> (r matches Err(
            MfccError::ComputationFailed(m)) && m@ == "Normalization factor is zero"@),
        !(n_frames == 0 || n_series == 0) && n_frames >= width && width > 1 ==> r is Ok,
{
    if n_frames == 0 || n_series == 0 {
        return Err(MfccError::InvalidDimensions(String::from_str("MFCC matrix is empty")));
    }
    if n_frames < width {
        let mut m = String::from_str("Time axis length ");
        push_decimal(&mut m, n_frames);
        push_text(&mut m, " less than width ");
        push_decimal(&mut m, width);
        return Err(MfccError::InvalidDimensions(m));
    }
    if width <= 1 {
        return Err(MfccError::ComputationFailed(String::from_str("Normalization factor is zero")));
    }
    Ok(())
}

/// The checks of inverting MFCCs to a mel spectrogram of a `rows × cols`
/// coefficient matrix: the matrix must not be empty and the DCT type (2 by
/// default) must be one of 1 to 4; also the number of mel bands (128 by
/// default).
pub fn check_mfcc_to_mel(rows: usize, cols: usize, n_mels: Option<usize>, dct_type: Option<i32>)
    -> (r: Result<(usize, i32), MfccError>)
    ensures
        ({
            let d = match dct_type { Some(d) => d, None => 2i32 };
            let m = match n_mels { Some(m) => m, None => 128usize };
            &&& (rows == 0 || cols == 0) ==> (r matches Err(MfccError::InvalidDimensions(s))
                && s@ == "MFCC matrix is empty"@)
            &&& !(rows == 0 || cols == 0) && !(1 <= d <= 4) ==> (r matches Err(MfccError::InvalidInput(s))
                && s@ == "Unsupported DCT type: "@ + signed_decimal(d as int))
            &&& !(rows == 0 || cols == 0) && 1 <= d <= 4 ==> r == Ok::<(usize, i32), MfccError>((m, d))
        }),
{
    let m = match n_mels { Some(m) => m, None => 128 };
    let d = match dct_type { Some(d) => d, None => 2 };
    if rows == 0 || cols == 0 {
        return Err(MfccError::InvalidDimensions(String::from_str("MFCC matrix is empty")));
    }
    if !(1 <= d && d <= 4) {
        let mut s = String::from_str("Unsupported DCT type: ");
        push_signed_decimal(&mut s, d);
        return Err(MfccError::InvalidInput(s));
    }
    Ok((m, d))
}

/// The frame that tap `k` of a delta window centred on frame `j` reads:
/// `j + k - half_width`, held inside `[0, len)`.
pub open spec fn delta_tap(j: int, k: int, half_width: int, len: int) -> int {
    let idx = j + k - half_width;
    if idx < 0 { 0 } else if idx > len - 1 { len - 1 } else { idx }
}

/// The frames read by the `2 * half_width + 1` taps of a delta window
/// centred on frame `j` of a series of `len` frames.
pub fn delta_taps(j: usize, half_width: usize, len: usize) -> (r: Vec<usize>)
    requires
        len > 0,
        j < len,
        2 * half_width + 1 <= usize::MAX,
        j + 2 * half_width <= usize::MAX,
    ensures
        r@.len() == 2 * half_width + 1,
        forall|k: int| 0 <= k < r@.len() ==> #[trigger] r@[k] as int
            == delta_tap(j as int, k, half_width as int, len as int),
        forall|k: int| 0 <= k < r@.len() ==> #[trigger] r@[k] < len,
{
    let taps = 2 * half_width + 1;
    let mut out: Vec<usize> = Vec::new();
    let mut k: usize = 0;
    while k < taps
        invariant
            taps == 2 * half_width + 1,
            k <= taps,
            j < len,
            j + 2 * half_width <= usize::MAX,
            out@.len() == k,
            forall|u: int| 0 <= u < k ==> #[trigger] out@[u] as int
                == delta_tap(j as int, u, half_width as int, len as int),
            forall|u: int| 0 <= u < k ==> #[trigger] out@[u] < len,
        decreases taps - k,
    {
        let idx = if j + k < half_width {
            0
        } else if j + k - half_width > len - 1 {
            len - 1
        } else {
            j + k - half_width
        };
        out.push(idx);
        k += 1;
    }
    out
}

} // verus!
