//! Payloads as they stand in a line: bytes spelled in sixty-four letters.

use vstd::arithmetic::div_mod::lemma_fundamental_div_mod_converse;
use vstd::prelude::*;

verus! {

/// What stands in the places that a payload leaves open.
pub const PADDING: u8 = 61;

/// The letter for a number below sixty-four: capitals, small letters, digits, a
/// plus sign and a slash.
pub open spec fn letter(n: int) -> u8 {
    if n < 26 {
        (65 + n) as u8
    } else if n < 52 {
        (97 + (n - 26)) as u8
    } else if n < 62 {
        (48 + (n - 52)) as u8
    } else if n == 62 {
        43
    } else {
        47
    }
}

/// The number that a letter stands for; zero for what is no letter.
pub open spec fn value(letter: u8) -> int {
    if 65 <= letter <= 90 {
        letter - 65
    } else if 97 <= letter <= 122 {
        letter - 97 + 26
    } else if 48 <= letter <= 57 {
        letter - 48 + 52
    } else if letter == 43 {
        62
    } else if letter == 47 {
        63
    } else {
        0
    }
}

/// The four letters of three bytes.
pub open spec fn quad(a: u8, b: u8, c: u8) -> Seq<u8> {
    seq![
        letter(a as int / 4),
        letter((a as int % 4) * 16 + b as int / 16),
        letter((b as int % 16) * 4 + c as int / 64),
        letter(c as int % 64),
    ]
}

/// How a payload is spelled: three bytes make four letters, and padding stands
/// for the bytes that the last three lack.
pub open spec fn spelled(payload: Seq<u8>) -> Seq<u8>
    decreases payload.len(),
{
    if payload.len() == 0 {
        Seq::empty()
    } else if payload.len() == 1 {
        quad(payload[0], 0, 0).take(2) + seq![PADDING, PADDING]
    } else if payload.len() == 2 {
        quad(payload[0], payload[1], 0).take(3) + seq![PADDING]
    } else {
        quad(payload[0], payload[1], payload[2]) + spelled(payload.skip(3))
    }
}

/// The three bytes that four letters stand for.
pub open spec fn triple(w: u8, x: u8, y: u8, z: u8) -> Seq<u8> {
    seq![
        (value(w) * 4 + value(x) / 16) as u8,
        ((value(x) % 16) * 16 + value(y) / 4) as u8,
        ((value(y) % 4) * 64 + value(z)) as u8,
    ]
}

/// The bytes that some text would stand for if it spelled a payload.
pub open spec fn read_as(text: Seq<u8>) -> Seq<u8>
    decreases text.len(),
{
    if text.len() < 4 {
        Seq::empty()
    } else {
        let bytes = triple(text[0], text[1], text[2], text[3]);
        let first = if text[3] != PADDING {
            bytes
        } else if text[2] != PADDING {
            bytes.take(2)
        } else {
            bytes.take(1)
        };
        first + read_as(text.skip(4))
    }
}

/// A letter stands for its number, and is no padding.
proof fn lemma_letter(n: int)
    requires
        0 <= n < 64,
    ensures
        value(letter(n)) == n,
        letter(n) != PADDING,
{
}

/// Three bytes come back from their letters.
proof fn lemma_triple(a: u8, b: u8, c: u8)
    ensures
        ({
            let q = quad(a, b, c);
            triple(q[0], q[1], q[2], q[3]) == seq![a, b, c]
        }),
        quad(a, b, c)[2] != PADDING,
        quad(a, b, c)[3] != PADDING,
{
    let p = a as int / 4;
    let q = (a as int % 4) * 16 + b as int / 16;
    let r = (b as int % 16) * 4 + c as int / 64;
    let s = c as int % 64;
    lemma_letter(p);
    lemma_letter(q);
    lemma_letter(r);
    lemma_letter(s);
    assert(triple(letter(p), letter(q), letter(r), letter(s)) =~= seq![a, b, c]);
}

/// A payload comes back from how it is spelled, so no two payloads are spelled
/// alike.
pub proof fn law_payloads_round_trip(payload: Seq<u8>)
    ensures
        read_as(spelled(payload)) == payload,
    decreases payload.len(),
{
    let text = spelled(payload);
    if payload.len() == 0 {
    } else if payload.len() == 1 {
        let q = quad(payload[0], 0, 0);
        lemma_triple(payload[0], 0, 0);
        assert(text.skip(4) =~= Seq::empty());
        assert(triple(text[0], text[1], text[2], text[3])[0] == triple(q[0], q[1], q[2], q[3])[0]);
        assert(read_as(text.skip(4)) =~= Seq::empty());
        assert(read_as(text) =~= payload);
    } else if payload.len() == 2 {
        let q = quad(payload[0], payload[1], 0);
        let bytes = triple(text[0], text[1], text[2], text[3]);
        lemma_triple(payload[0], payload[1], 0);
        assert(text.skip(4) =~= Seq::empty());
        assert(bytes.take(2) =~= triple(q[0], q[1], q[2], q[3]).take(2));
        assert(read_as(text.skip(4)) =~= Seq::empty());
        assert(read_as(text) =~= payload);
    } else {
        lemma_triple(payload[0], payload[1], payload[2]);
        law_payloads_round_trip(payload.skip(3));
        assert(text.skip(4) =~= spelled(payload.skip(3)));
        assert(read_as(text) =~= payload);
    }
}

/// The letter for a number below sixty-four.
fn letter_for(n: u8) -> (r: u8)
    requires
        n < 64,
    ensures
        r == letter(n as int),
{
    if n < 26 {
        65 + n
    } else if n < 52 {
        97 + (n - 26)
    } else if n < 62 {
        48 + (n - 52)
    } else if n == 62 {
        43
    } else {
        47
    }
}

/// The number that a letter stands for.
fn value_of(letter: u8) -> (r: u8)
    ensures
        r == value(letter),
        r < 64,
{
    if 65 <= letter && letter <= 90 {
        letter - 65
    } else if 97 <= letter && letter <= 122 {
        letter - 97 + 26
    } else if 48 <= letter && letter <= 57 {
        letter - 48 + 52
    } else if letter == 43 {
        62
    } else if letter == 47 {
        63
    } else {
        0
    }
}

/// Spells a payload.
pub fn encode(payload: &[u8]) -> (r: Vec<u8>)
    ensures
        r@ == spelled(payload@),
{
    let mut text: Vec<u8> = Vec::new();
    let n: usize = payload.len();
    let mut i: usize = 0;
    proof {
        assert(payload@.skip(0) =~= payload@);
    }
    while n - i >= 3
        invariant
            i <= n,
            n == payload@.len(),
            text@ + spelled(payload@.skip(i as int)) == spelled(payload@),
        decreases n - i,
    {
        let ghost before = text@;
        let ghost rest = payload@.skip(i as int);
        let a: u8 = payload[i];
        let b: u8 = payload[i + 1];
        let c: u8 = payload[i + 2];
        text.push(letter_for(a / 4));
        text.push(letter_for((a % 4) * 16 + b / 16));
        text.push(letter_for((b % 16) * 4 + c / 64));
        text.push(letter_for(c % 64));
        proof {
            assert(rest.skip(3) =~= payload@.skip(i + 3));
            assert(text@ =~= before + quad(a, b, c));
            assert(text@ + spelled(rest.skip(3)) =~= before + (quad(a, b, c) + spelled(
                rest.skip(3),
            )));
        }
        i += 3;
    }
    let ghost before = text@;
    let ghost rest = payload@.skip(i as int);
    if n - i == 1 {
        let a: u8 = payload[i];
        text.push(letter_for(a / 4));
        text.push(letter_for((a % 4) * 16));
        text.push(PADDING);
        text.push(PADDING);
        proof {
            assert(text@ =~= before + (quad(a, 0, 0).take(2) + seq![PADDING, PADDING]));
        }
    } else if n - i == 2 {
        let a: u8 = payload[i];
        let b: u8 = payload[i + 1];
        text.push(letter_for(a / 4));
        text.push(letter_for((a % 4) * 16 + b / 16));
        text.push(letter_for((b % 16) * 4));
        text.push(PADDING);
        proof {
            assert(text@ =~= before + (quad(a, b, 0).take(3) + seq![PADDING]));
        }
    } else {
        proof {
            assert(text@ + spelled(rest) =~= text@);
        }
    }
    text
}

/// The bytes that some text would stand for if it spelled a payload.
fn read_letters(text: &[u8]) -> (r: Vec<u8>)
    ensures
        r@ == read_as(text@),
{
    let mut bytes: Vec<u8> = Vec::new();
    let n: usize = text.len();
    let mut i: usize = 0;
    proof {
        assert(text@.skip(0) =~= text@);
    }
    while n - i >= 4
        invariant
            i <= n,
            n == text@.len(),
            bytes@ + read_as(text@.skip(i as int)) == read_as(text@),
        decreases n - i,
    {
        let ghost before = bytes@;
        let ghost rest = text@.skip(i as int);
        let w: u8 = value_of(text[i]);
        let x: u8 = value_of(text[i + 1]);
        let y: u8 = value_of(text[i + 2]);
        let z: u8 = value_of(text[i + 3]);
        let ghost all = triple(rest[0], rest[1], rest[2], rest[3]);
        bytes.push(w * 4 + x / 16);
        if text[i + 3] != PADDING || text[i + 2] != PADDING {
            bytes.push((x % 16) * 16 + y / 4);
        }
        if text[i + 3] != PADDING {
            bytes.push((y % 4) * 64 + z);
        }
        proof {
            let first = if rest[3] != PADDING {
                all
            } else if rest[2] != PADDING {
                all.take(2)
            } else {
                all.take(1)
            };
            assert(rest.skip(4) =~= text@.skip(i + 4));
            assert(bytes@ =~= before + first);
            assert(bytes@ + read_as(rest.skip(4)) =~= before + (first + read_as(rest.skip(4))));
        }
        i += 4;
    }
    proof {
        assert(bytes@ + read_as(text@.skip(i as int)) =~= bytes@);
    }
    bytes
}

/// Whether two texts are the same.
fn same_bytes(a: &[u8], b: &[u8]) -> (r: bool)
    ensures
        r == (a@ == b@),
{
    if a.len() != b.len() {
        return false;
    }
    let n: usize = a.len();
    let mut i: usize = 0;
    while i < n
        invariant
            i <= n,
            n == a@.len(),
            n == b@.len(),
            forall|j: int| 0 <= j < i ==> a@[j] == b@[j],
        decreases n - i,
    {
        if a[i] != b[i] {
            return false;
        }
        i += 1;
    }
    proof {
        assert(a@ =~= b@);
    }
    true
}

/// The payload that some text spells, if it spells one.
pub fn decode(text: &[u8]) -> (r: Option<Vec<u8>>)
    ensures
        match r {
            Some(payload) => spelled(payload@) == text@,
            None => forall|payload: Seq<u8>| #[trigger] spelled(payload) != text@,
        },
{
    let payload = read_letters(text);
    let again = encode(payload.as_slice());
    if same_bytes(again.as_slice(), text) {
        Some(payload)
    } else {
        proof {
            assert forall|other: Seq<u8>| #[trigger] spelled(other) != text@ by {
                law_payloads_round_trip(other);
            }
        }
        None
    }
}

/// The sixty-four letters, in order.
pub const ALPHABET: &'static str =
    "ABCDEFGHIJKLMNOPQRSTUVWXYZabcdefghijklmnopqrstuvwxyz0123456789+/";

/// The number that the three bytes from a place on make; bytes that are not there count
/// as nothing.
pub open spec fn bits_from(payload: Seq<u8>, at: int) -> int {
    let byte = |i: int|
        if 0 <= i < payload.len() {
            payload[i] as int
        } else {
            0
        };
    65536 * byte(at) + 256 * byte(at + 1) + byte(at + 2)
}

/// A number is spelled by the letter at its place in the alphabet.
proof fn lemma_letters_are_the_alphabet(n: int)
    requires
        0 <= n < 64,
    ensures
        letter(n) as nat == ALPHABET@[n] as nat,
{
    reveal_strlit("ABCDEFGHIJKLMNOPQRSTUVWXYZabcdefghijklmnopqrstuvwxyz0123456789+/");
}

/// Four letters from a place on spell the three bytes from another: they are the letters
/// of the number that the bytes make, the highest first, and an equals sign each for the
/// bytes that are not there.
pub open spec fn spells_group(text: Seq<u8>, payload: Seq<u8>, i: int) -> bool {
    let bits = bits_from(payload, 3 * i);
    &&& text[4 * i] as nat == ALPHABET@[bits / 262144] as nat
    &&& text[4 * i + 1] as nat == ALPHABET@[bits / 4096 % 64] as nat
    &&& text[4 * i + 2] as nat == if 3 * i + 1 < payload.len() {
        ALPHABET@[bits / 64 % 64] as nat
    } else {
        '=' as nat
    }
    &&& text[4 * i + 3] as nat == if 3 * i + 2 < payload.len() {
        ALPHABET@[bits % 64] as nat
    } else {
        '=' as nat
    }
}

/// The four numbers below sixty-four that the bits of three bytes make.
proof fn lemma_bits(a: int, b: int, c: int)
    requires
        0 <= a < 256,
        0 <= b < 256,
        0 <= c < 256,
    ensures
        ({
            let bits = 65536 * a + 256 * b + c;
            &&& bits / 262144 == a / 4
            &&& bits / 4096 % 64 == (a % 4) * 16 + b / 16
            &&& bits / 64 % 64 == (b % 16) * 4 + c / 64
            &&& bits % 64 == c % 64
        }),
{
    let bits = 65536 * a + 256 * b + c;
    let high = a / 4;
    let second = (a % 4) * 16 + b / 16;
    let third = (b % 16) * 4 + c / 64;
    let low = c % 64;
    assert(bits == 262144 * high + 4096 * second + 64 * third + low);
    lemma_fundamental_div_mod_converse(bits, 262144, high, 4096 * second + 64 * third + low);
    lemma_fundamental_div_mod_converse(bits, 4096, 64 * high + second, 64 * third + low);
    lemma_fundamental_div_mod_converse(64 * high + second, 64, high, second);
    lemma_fundamental_div_mod_converse(bits, 64, 4096 * high + 64 * second + third, low);
    lemma_fundamental_div_mod_converse(
        4096 * high + 64 * second + third,
        64,
        64 * high + second,
        third,
    );
}

/// The first letters of a payload spell its first bytes.
proof fn lemma_first_group(payload: Seq<u8>)
    requires
        payload.len() > 0,
    ensures
        spells_group(spelled(payload), payload, 0),
{
    let a: u8 = payload[0];
    let b: u8 = if payload.len() > 1 {
        payload[1]
    } else {
        0
    };
    let c: u8 = if payload.len() > 2 {
        payload[2]
    } else {
        0
    };
    let bits = bits_from(payload, 0);
    assert(bits == 65536 * (a as int) + 256 * (b as int) + c as int);
    lemma_bits(a as int, b as int, c as int);
    lemma_letters_are_the_alphabet(a as int / 4);
    lemma_letters_are_the_alphabet((a as int % 4) * 16 + b as int / 16);
    lemma_letters_are_the_alphabet((b as int % 16) * 4 + c as int / 64);
    lemma_letters_are_the_alphabet(c as int % 64);
    let text = spelled(payload);
    assert(text[0] == quad(a, b, c)[0]);
    assert(text[1] == quad(a, b, c)[1]);
    assert(text[2] == if payload.len() > 1 {
        quad(a, b, c)[2]
    } else {
        PADDING
    });
    assert(text[3] == if payload.len() > 2 {
        quad(a, b, c)[3]
    } else {
        PADDING
    });
}

/// How a payload is spelled: every three bytes make a number of four letters of the
/// alphabet, the highest first; the letters that stand for no byte at the end are an
/// equals sign each.
pub proof fn law_payloads_are_spelled_in_the_alphabet(payload: Seq<u8>)
    ensures
        spelled(payload).len() == (payload.len() + 2) / 3 * 4,
        forall|i: int|
            0 <= i < (payload.len() + 2) / 3 ==> #[trigger] spells_group(
                spelled(payload),
                payload,
                i,
            ),
    decreases payload.len(),
{
    let text = spelled(payload);
    if payload.len() > 0 {
        let rest = payload.skip(3);
        if payload.len() >= 3 {
            law_payloads_are_spelled_in_the_alphabet(rest);
        }
        assert forall|i: int| 0 <= i < (payload.len() + 2) / 3 implies #[trigger] spells_group(
            text,
            payload,
            i,
        ) by {
            if i == 0 {
                lemma_first_group(payload);
            } else {
                assert(spells_group(spelled(rest), rest, i - 1));
                assert(bits_from(payload, 3 * i) == bits_from(rest, 3 * (i - 1)));
                assert(text == quad(payload[0], payload[1], payload[2]) + spelled(rest));
            }
        }
    }
}

} // verus!
