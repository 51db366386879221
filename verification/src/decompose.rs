//! The integer side of non-negative matrix factorisation: the input checks
//! and the deterministic hash that seeds the factor matrices.

use vstd::prelude::*;
use crate::errors::DecomposeError;
use crate::text::{decimal, push_decimal, push_text};

verus! {

/// The low 16 bits of the seeding hash of entry `(i, j)`:
/// `i * 2654435761 + j * 40503 + seed`, taken modulo 2^64.
pub open spec fn nmf_seed_bits(i: nat, j: nat, seed: nat) -> nat {
    ((i * 2654435761 + j * 40503 + seed) % 0x1_0000_0000_0000_0000) % 0x10000
}

proof fn lemma_wrapping_add_mod(x: u64, y: u64)
    ensures
        vstd::wrapping::u64_specs::wrapping_add(x, y) as int == (x as int + y as int) % 0x1_0000_0000_0000_0000,
{
    let m: int = 0x1_0000_0000_0000_0000;
    if x as int + y as int > u64::MAX as int {
        vstd::arithmetic::div_mod::lemma_fundamental_div_mod_converse(x as int + y as int, m, 1, x as int + y as int - m);
    } else {
        vstd::arithmetic::div_mod::lemma_small_mod((x as int + y as int) as nat, m as nat);
    }
}

/// The 16-bit value that seeds entry `(i, j)` of a factor matrix.
pub fn nmf_seed_value(i: u64, j: u64, seed: u64) -> (r: u64)
    ensures
        r == nmf_seed_bits(i as nat, j as nat, seed as nat),
        r < 0x10000,
{
    let a = i.wrapping_mul(2_654_435_761);
    let b = j.wrapping_mul(40_503);
    let ab = a.wrapping_add(b);
    let h = ab.wrapping_add(seed);
    proof {
        let m: int = 0x1_0000_0000_0000_0000;
        let x = i as int * 2654435761;
        let y = j as int * 40503;
        lemma_wrapping_add_mod(a, b);
        lemma_wrapping_add_mod(ab, seed);
        assert(a as int == x % m);
        assert(b as int == y % m);
        vstd::arithmetic::div_mod::lemma_add_mod_noop(x, y, m);
        assert(ab as int == (x + y) % m);
        vstd::arithmetic::div_mod::lemma_small_mod(seed as nat, m as nat);
        vstd::arithmetic::div_mod::lemma_add_mod_noop(x + y, seed as int, m);
        assert(h as int == (x + y + seed) % m);
        assert(h & 0xFFFF == h % 0x10000) by (bit_vector);
        assert(h & 0xFFFF < 0x10000) by (bit_vector);
    }
    h & 0xFFFF
}

/// The checks of a factorisation of an `n_bins × n_frames` spectrogram into
/// `n_components` components: the spectrogram must not be empty, and the
/// number of components must be positive and at most the smaller dimension.
pub fn check_decompose(n_bins: usize, n_frames: usize, n_components: usize) -> (r: Result<(), DecomposeError>)
    ensures
        (n_bins == 0 || n_frames == 0) ==> (r matches Err(DecomposeError::InvalidInput(m)) && m@ == "Empty spectrogram"@),
        n_bins != 0 && n_frames != 0 && n_components == 0 ==> (r matches Err(DecomposeError::InvalidInput(m))
            && m@ == "n_components must be > 0"@),
        n_bins != 0 && n_frames != 0 && n_components != 0 && (n_components > n_bins || n_components > n_frames)
            ==> (r matches Err(DecomposeError::InvalidInput(m)) && m@ == "n_components "@ + decimal(n_components as nat)
            + " exceeds the smaller dimension "@ + decimal((if n_bins < n_frames { n_bins } else { n_frames }) as nat)),
        n_bins != 0 && n_frames != 0 && 0 < n_components <= n_bins && n_components <= n_frames ==> r is Ok,
{
    if n_bins == 0 || n_frames == 0 {
        return Err(DecomposeError::InvalidInput(String::from_str("Empty spectrogram")));
    }
    if n_components == 0 {
        return Err(DecomposeError::InvalidInput(String::from_str("n_components must be > 0")));
    }
    let smaller = if n_bins < n_frames { n_bins } else { n_frames };
    if n_components > smaller {
        let mut m = String::from_str("n_components ");
        push_decimal(&mut m, n_components);
        push_text(&mut m, " exceeds the smaller dimension ");
        push_decimal(&mut m, smaller);
        return Err(DecomposeError::InvalidInput(m));
    }
    Ok(())
}

} // verus!
