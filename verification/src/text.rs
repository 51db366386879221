//! Decimal rendering of indices and counts for error messages.

use vstd::prelude::*;

verus! {

/// The character of a decimal digit.
pub open spec fn digit_char(d: nat) -> char
    recommends
        d < 10,
{
    if d == 0 { '0' }
    else if d == 1 { '1' }
    else if d == 2 { '2' }
    else if d == 3 { '3' }
    else if d == 4 { '4' }
    else if d == 5 { '5' }
    else if d == 6 { '6' }
    else if d == 7 { '7' }
    else if d == 8 { '8' }
    else { '9' }
}

/// Base-ten rendering of a natural number, most significant digit first,
/// without leading zeros.
pub open spec fn decimal(n: nat) -> Seq<char>
    decreases n,
{
    if n < 10 {
        seq![digit_char(n)]
    } else {
        decimal(n / 10).push(digit_char(n % 10))
    }
}

/// The numbers of `s` in decimal, separated by a comma and a space.
pub open spec fn joined_decimals(s: Seq<usize>) -> Seq<char>
    decreases s.len(),
{
    if s.len() == 0 {
        Seq::empty()
    } else if s.len() == 1 {
        decimal(s[0] as nat)
    } else {
        joined_decimals(s.drop_last()) + seq![',', ' '] + decimal(s.last() as nat)
    }
}

fn digit_str(d: usize) -> (s: &'static str)
    requires
        d < 10,
    ensures
        s@ == seq![digit_char(d as nat)],
{
    proof {
        reveal_strlit("0");
        reveal_strlit("1");
        reveal_strlit("2");
        reveal_strlit("3");
        reveal_strlit("4");
        reveal_strlit("5");
        reveal_strlit("6");
        reveal_strlit("7");
        reveal_strlit("8");
        reveal_strlit("9");
    }
    if d == 0 { "0" }
    else if d == 1 { "1" }
    else if d == 2 { "2" }
    else if d == 3 { "3" }
    else if d == 4 { "4" }
    else if d == 5 { "5" }
    else if d == 6 { "6" }
    else if d == 7 { "7" }
    else if d == 8 { "8" }
    else { "9" }
}

/// Renders `n` in decimal.
pub fn usize_to_decimal(n: usize) -> (s: String)
    ensures
        s@ == decimal(n as nat),
    decreases n,
{
    if n < 10 {
        String::from_str(digit_str(n))
    } else {
        let mut s = usize_to_decimal(n / 10);
        s.append(digit_str(n % 10));
        s
    }
}

/// Appends the decimal rendering of `n` to `s`.
pub fn push_decimal(s: &mut String, n: usize)
    ensures
        final(s)@ == old(s)@ + decimal(n as nat),
{
    let d = usize_to_decimal(n);
    s.append(d.as_str());
}

/// Base-ten rendering of an integer, with a leading minus sign when it is negative.
pub open spec fn signed_decimal(i: int) -> Seq<char> {
    if i < 0 { seq!['-'] + decimal((-i) as nat) } else { decimal(i as nat) }
}

/// Appends the decimal rendering of `i`, signed, to `s`.
pub fn push_signed_decimal(s: &mut String, i: i32)
    ensures
        final(s)@ == old(s)@ + signed_decimal(i as int),
{
    let wide = i as i64;
    if wide < 0 {
        let ghost before = s@;
        proof {
            reveal_strlit("-");
        }
        s.append("-");
        let magnitude = (0 - wide) as usize;
        push_decimal(s, magnitude);
        proof {
            assert(s@ =~= before + (seq!['-'] + decimal((-i) as nat)));
        }
    } else {
        push_decimal(s, wide as usize);
    }
}

/// Appends a text fragment to `s`.
pub fn push_text(s: &mut String, t: &str)
    ensures
        final(s)@ == old(s)@ + t@,
{
    s.append(t);
}

/// Formats a list of indices as a comma-separated string.
pub fn format_indices(indices: &[usize]) -> (s: String)
    ensures
        s@ == joined_decimals(indices@),
{
    let mut out = String::new();
    let mut i: usize = 0;
    proof {
        reveal_strlit(", ");
        assert(indices@.take(0) =~= Seq::<usize>::empty());
    }
    while i < indices.len()
        invariant
            i <= indices.len(),
            out@ == joined_decimals(indices@.take(i as int)),
        decreases indices.len() - i,
    {
        let ghost prev = out@;
        let ghost t = indices@.take(i as int + 1);
        proof {
            assert(t.drop_last() =~= indices@.take(i as int));
            assert(t.last() == indices@[i as int]);
            reveal_strlit(", ");
            assert(", "@ =~= seq![',', ' ']);
        }
        if i > 0 {
            out.append(", ");
        }
        let d = usize_to_decimal(indices[i]);
        out.append(d.as_str());
        proof {
            if i == 0 {
                assert(prev =~= Seq::<char>::empty());
                assert(t.len() == 1);
                assert(out@ =~= joined_decimals(t));
            } else {
                assert(out@ =~= prev + seq![',', ' '] + decimal(t.last() as nat));
                assert(out@ =~= joined_decimals(t));
            }
        }
        i += 1;
    }
    proof {
        assert(indices@.take(indices@.len() as int) =~= indices@);
    }
    out
}

} // verus!
