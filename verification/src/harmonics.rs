//! The shape checks that precede harmonic analysis: named input arrays must
//! not be empty and, when asked, must share one length; spectrograms must
//! have both dimensions.

use vstd::prelude::*;
use crate::errors::HarmonicsError;
use crate::text::push_text;

verus! {

/// Position `k` is the first at which `lens` is zero.
pub open spec fn first_empty(lens: Seq<usize>, k: int) -> bool {
    0 <= k < lens.len() && lens[k] == 0 && forall|j: int| 0 <= j < k ==> #[trigger] lens[j] != 0
}

/// Position `k >= 1` is the first whose length differs from the first one.
pub open spec fn first_mismatch(lens: Seq<usize>, k: int) -> bool {
    1 <= k < lens.len() && lens[k] != lens[0] && forall|j: int| 1 <= j < k ==> #[trigger] lens[j] == lens[0]
}

/// Whether an optional `rows × cols` shape is present and empty.
pub open spec fn empty_shape(shape: Option<(usize, usize)>) -> bool {
    match shape {
        Some((a, b)) => a == 0 || b == 0,
        None => false,
    }
}

fn shape_is_empty(shape: Option<(usize, usize)>) -> (r: bool)
    ensures
        r == empty_shape(shape),
{
    match shape {
        Some((a, b)) => a == 0 || b == 0,
        None => false,
    }
}

/// Checks the arrays of lengths `lens`, called `names`, and the shapes of
/// the optional magnitude and complex spectrograms, in this order: the
/// first empty array, an empty spectrogram, an empty complex spectrogram,
/// and (with `check_lengths`) the first array whose length differs from the
/// first array's.
pub fn check_harmonic_inputs(
    lens: &[usize],
    names: &[&str],
    spectrogram: Option<(usize, usize)>,
    complex_spectrogram: Option<(usize, usize)>,
    check_lengths: bool,
) -> (r: Result<(), HarmonicsError>)
    requires
        lens@.len() == names@.len(),
    ensures
        forall|k: int| first_empty(lens@, k) ==> (r matches Err(HarmonicsError::InvalidInput(m))
            && m@ == names@[k]@ + " array is empty"@),
        !lens@.contains(0usize) && empty_shape(spectrogram) ==> (r matches Err(HarmonicsError::InvalidInput(m))
            && m@ == "Spectrogram is empty"@),
        !lens@.contains(0usize) && !empty_shape(spectrogram) && empty_shape(complex_spectrogram)
            ==> (r matches Err(HarmonicsError::InvalidInput(m)) && m@ == "Complex spectrogram is empty"@),
        forall|k: int| !lens@.contains(0usize) && !empty_shape(spectrogram) && !empty_shape(complex_spectrogram)
            && check_lengths && first_mismatch(lens@, k)
            ==> r == Err::<(), HarmonicsError>(HarmonicsError::LengthMismatch(lens@[0], lens@[k])),
        !lens@.contains(0usize) && !empty_shape(spectrogram) && !empty_shape(complex_spectrogram)
            && !(check_lengths && exists|k: int| first_mismatch(lens@, k)) ==> r is Ok,
{
    let mut i: usize = 0;
    while i < lens.len()
        invariant
            i <= lens@.len(),
            lens@.len() == names@.len(),
            forall|j: int| 0 <= j < i ==> #[trigger] lens@[j] != 0,
        decreases lens.len() - i,
    {
        if lens[i] == 0 {
            let mut m = String::new();
            push_text(&mut m, names[i]);
            push_text(&mut m, " array is empty");
            proof {
                assert(first_empty(lens@, i as int));
                assert forall|k: int| first_empty(lens@, k) implies k == i by {
                    if k < i {
                        assert(lens@[k] != 0);
                    } else if k > i {
                        assert(lens@[i as int] != 0);
                    }
                }
                assert(m@ =~= names@[i as int]@ + " array is empty"@);
            }
            return Err(HarmonicsError::InvalidInput(m));
        }
        i += 1;
    }
    proof {
        assert(!lens@.contains(0usize)) by {
            if lens@.contains(0usize) {
                let k = choose|k: int| 0 <= k < lens@.len() && lens@[k] == 0usize;
                assert(lens@[k] != 0);
            }
        }
        assert forall|k: int| !first_empty(lens@, k) by {
            if first_empty(lens@, k) {
                assert(lens@[k] != 0);
            }
        }
    }
    if shape_is_empty(spectrogram) {
        return Err(HarmonicsError::InvalidInput(String::from_str("Spectrogram is empty")));
    }
    if shape_is_empty(complex_spectrogram) {
        return Err(HarmonicsError::InvalidInput(String::from_str("Complex spectrogram is empty")));
    }
    if check_lengths && lens.len() > 0 {
        let base = lens[0];
        let mut k: usize = 1;
        while k < lens.len()
            invariant
                1 <= k <= lens@.len(),
                base == lens@[0],
                forall|j: int| 1 <= j < k ==> #[trigger] lens@[j] == base,
                !lens@.contains(0usize),
                forall|q: int| !first_empty(lens@, q),
                !empty_shape(spectrogram),
                !empty_shape(complex_spectrogram),
                check_lengths,
            decreases lens.len() - k,
        {
            if lens[k] != base {
                proof {
                    assert(first_mismatch(lens@, k as int));
                    assert forall|q: int| first_mismatch(lens@, q) implies q == k by {
                        if q < k {
                            assert(lens@[q] == base);
                        } else if q > k {
                            assert(lens@[k as int] == lens@[0]);
                        }
                    }
                }
                return Err(HarmonicsError::LengthMismatch(base, lens[k]));
            }
            k += 1;
        }
        proof {
            assert forall|q: int| !first_mismatch(lens@, q) by {
                if first_mismatch(lens@, q) {
                    assert(lens@[q] == base);
                }
            }
        }
    }
    Ok(())
}

} // verus!
