//! Lengths as they stand in front of records and frames.

use vstd::prelude::*;

verus! {

/// The number that four bytes make, the lowest byte first.
pub open spec fn number_of(bytes: Seq<u8>) -> nat {
    (bytes[0] + 256 * bytes[1] + 65536 * bytes[2] + 16777216 * bytes[3]) as nat
}

/// The four bytes of a number, the lowest first.
pub open spec fn low_first(n: u32) -> Seq<u8> {
    seq![
        (n % 256) as u8,
        (n / 256 % 256) as u8,
        (n / 65536 % 256) as u8,
        (n / 16777216) as u8,
    ]
}

/// The four bytes of a number, the highest first.
pub open spec fn high_first(n: u32) -> Seq<u8> {
    seq![
        (n / 16777216) as u8,
        (n / 65536 % 256) as u8,
        (n / 256 % 256) as u8,
        (n % 256) as u8,
    ]
}

/// The number that four bytes make, the highest byte first.
pub open spec fn number_of_high_first(bytes: Seq<u8>) -> nat {
    number_of(seq![bytes[3], bytes[2], bytes[1], bytes[0]])
}

/// A number is what its bytes make.
pub proof fn law_lengths_round_trip(n: u32)
    ensures
        low_first(n).len() == 4,
        number_of(low_first(n)) == n,
        high_first(n).len() == 4,
        number_of_high_first(high_first(n)) == n,
{
    assert(n as int == n % 256 + 256 * (n / 256 % 256) + 65536 * (n / 65536 % 256) + 16777216 * (n
        / 16777216)) by (nonlinear_arith);
}

/// The four bytes of a number, the lowest first.
pub fn low_first_bytes(n: u32) -> (r: Vec<u8>)
    ensures
        r@ == low_first(n),
{
    let mut r: Vec<u8> = Vec::new();
    r.push((n % 256) as u8);
    r.push((n / 256 % 256) as u8);
    r.push((n / 65536 % 256) as u8);
    r.push((n / 16777216) as u8);
    r
}

/// The four bytes of a number, the highest first.
pub fn high_first_bytes(n: u32) -> (r: Vec<u8>)
    ensures
        r@ == high_first(n),
{
    let mut r: Vec<u8> = Vec::new();
    r.push((n / 16777216) as u8);
    r.push((n / 65536 % 256) as u8);
    r.push((n / 256 % 256) as u8);
    r.push((n % 256) as u8);
    r
}

/// The number that four bytes make, the first being the lowest.
pub fn number_from(a: u8, b: u8, c: u8, d: u8) -> (r: u32)
    ensures
        r == number_of(seq![a, b, c, d]),
{
    a as u32 + 256 * (b as u32) + 65536 * (c as u32) + 16777216 * (d as u32)
}

/// Adds bytes behind others.
pub fn append_bytes(to: &mut Vec<u8>, bytes: &[u8])
    ensures
        final(to)@ == old(to)@ + bytes@,
{
    let mut i: usize = 0;
    while i < bytes.len()
        invariant
            i <= bytes@.len(),
            to@ == old(to)@ + bytes@.take(i as int),
        decreases bytes@.len() - i,
    {
        to.push(bytes[i]);
        proof {
            assert(bytes@.take(i + 1) =~= bytes@.take(i as int).push(bytes@[i as int]));
            assert(to@ =~= old(to)@ + bytes@.take(i + 1));
        }
        i += 1;
    }
    proof {
        assert(bytes@.take(i as int) =~= bytes@);
    }
}

/// Of the four bytes of a number each counts two hundred and fifty-six times as much as
/// the one below it: the last one counts most where the lowest comes first, and the
/// first one where the highest does. Any four bytes are those of the number that they
/// make.
pub proof fn law_bytes_count_by_their_place(n: u32, a: u8, b: u8, c: u8, d: u8)
    ensures
        low_first(n)[0] + 256 * low_first(n)[1] + 256 * 256 * low_first(n)[2] + 256 * 256 * 256
            * low_first(n)[3] == n,
        high_first(n)[3] + 256 * high_first(n)[2] + 256 * 256 * high_first(n)[1] + 256 * 256 * 256
            * high_first(n)[0] == n,
        number_of(seq![a, b, c, d]) == a + 256 * (b + 256 * (c + 256 * d)),
        number_of_high_first(seq![a, b, c, d]) == d + 256 * (c + 256 * (b + 256 * a)),
{
    law_lengths_round_trip(n);
}

} // verus!
