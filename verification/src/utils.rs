//! Small utilities shared by the server and its tools.

use vstd::prelude::*;

verus! {

/// The character standing for one bit.
pub open spec fn spec_bit_char(bit: u64) -> char {
    if bit == 1 {
        '1'
    } else {
        '0'
    }
}

/// The eight binary digits of a byte value, most significant first.
pub open spec fn spec_byte_bits(v: u64) -> Seq<char> {
    Seq::new(8, |k: int| spec_bit_char((v >> ((7 - k) as u64)) & 1))
}

/// The rendering produced by [`format_binary`]: the four low bytes of `n` in
/// binary, most significant byte first, separated by single spaces.
pub open spec fn spec_format_binary(n: u64) -> Seq<char> {
    spec_byte_bits((n >> 24) & 255) + seq![' '] + spec_byte_bits((n >> 16) & 255) + seq![' ']
        + spec_byte_bits((n >> 8) & 255) + seq![' '] + spec_byte_bits(n & 255)
}

/// Appends the eight binary digits of `v`, most significant first.
fn push_bits(s: &mut String, v: u64)
    ensures
        final(s)@ == old(s)@ + spec_byte_bits(v),
{
    let ghost start = s@;
    let mut k: u64 = 0;
    while k < 8
        invariant
            k <= 8,
            s@ == start + spec_byte_bits(v).take(k as int),
        decreases 8 - k,
    {
        let bit = (v >> (7 - k)) & 1;
        if bit == 1 {
            s.append("1");
        } else {
            s.append("0");
        }
        proof {
            reveal_strlit("1");
            reveal_strlit("0");
            assert(spec_byte_bits(v).take(k + 1) =~= spec_byte_bits(v).take(k as int) + seq![
                spec_bit_char((v >> ((7 - k as int) as u64)) & 1),
            ]);
        }
        k = k + 1;
    }
    proof {
        assert(spec_byte_bits(v).take(8) =~= spec_byte_bits(v));
    }
}

/// Returns the binary representation of the four low bytes of a 64-bit
/// integer, grouped by bytes.
pub fn format_binary(n: u64) -> (r: String)
    ensures
        r@ == spec_format_binary(n),
{
    let mut s = String::new();
    push_bits(&mut s, (n >> 24) & 255);
    s.append(" ");
    push_bits(&mut s, (n >> 16) & 255);
    s.append(" ");
    push_bits(&mut s, (n >> 8) & 255);
    s.append(" ");
    push_bits(&mut s, n & 255);
    proof {
        reveal_strlit(" ");
        assert(" "@ =~= seq![' ']);
        assert(s@ =~= spec_format_binary(n));
    }
    s
}

} // verus!
