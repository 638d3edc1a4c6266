//! Rendering and inspecting text.

use vstd::arithmetic::div_mod::lemma_mod_breakdown;
use vstd::prelude::*;
use vstd::std_specs::iter::IteratorSpec;
use vstd::string::*;

verus! {

/// The character of a decimal digit.
pub open spec fn digit_char(d: int) -> char {
    (48 + d) as char
}

/// The character of a lower-case hexadecimal digit.
pub open spec fn hex_char(d: int) -> char {
    if d < 10 {
        (48 + d) as char
    } else {
        (87 + d) as char
    }
}

/// A natural number in decimal, without leading zeros.
pub open spec fn decimal(n: nat) -> Seq<char>
    decreases n,
{
    if n < 10 {
        seq![digit_char(n as int)]
    } else {
        decimal(n / 10).push(digit_char((n % 10) as int))
    }
}

/// The low `width` hexadecimal digits of a number, most significant first.
pub open spec fn fixed_hex(n: nat, width: nat) -> Seq<char>
    decreases width,
{
    if width == 0 {
        Seq::empty()
    } else {
        fixed_hex(n / 16, (width - 1) as nat).push(hex_char((n % 16) as int))
    }
}

/// Two hexadecimal digits for each byte, in order.
pub open spec fn hex_bytes(bytes: Seq<u8>) -> Seq<char>
    decreases bytes.len(),
{
    if bytes.len() == 0 {
        Seq::empty()
    } else {
        hex_bytes(bytes.drop_last()) + fixed_hex(bytes.last() as nat, 2)
    }
}

/// Whether a text begins with another.
pub open spec fn begins_with(text: Seq<char>, prefix: Seq<char>) -> bool {
    prefix.len() <= text.len() && text.subrange(0, prefix.len() as int) == prefix
}

/// Whether a text ends with another.
pub open spec fn finishes_with(text: Seq<char>, suffix: Seq<char>) -> bool {
    suffix.len() <= text.len() && text.subrange(
        text.len() - suffix.len(),
        text.len() as int,
    ) == suffix
}

/// The text of one hexadecimal digit.
fn hex_digit_text(d: u64) -> (r: &'static str)
    requires
        d < 16,
    ensures
        r@ == seq![hex_char(d as int)],
{
    proof {
        reveal_strlit("0");
        reveal_strlit("1");
        reveal_strlit("2");
        reveal_strlit("3");
        reveal_strlit("4");
        reveal_strlit("5");
        reveal_strlit("6");
        reveal_strlit("7");
        reveal_strlit("8");
        reveal_strlit("9");
        reveal_strlit("a");
        reveal_strlit("b");
        reveal_strlit("c");
        reveal_strlit("d");
        reveal_strlit("e");
        reveal_strlit("f");
    }
    match d {
        0 => "0",
        1 => "1",
        2 => "2",
        3 => "3",
        4 => "4",
        5 => "5",
        6 => "6",
        7 => "7",
        8 => "8",
        9 => "9",
        10 => "a",
        11 => "b",
        12 => "c",
        13 => "d",
        14 => "e",
        _ => "f",
    }
}

/// The decimal text of a number.
pub fn decimal_text(n: u64) -> (r: String)
    ensures
        r@ == decimal(n as nat),
    decreases n,
{
    if n < 10 {
        hex_digit_text(n).to_owned()
    } else {
        let mut r = decimal_text(n / 10);
        r.append(hex_digit_text(n % 10));
        r
    }
}

/// The low hexadecimal digits of a number.
pub fn fixed_hex_text(n: u64, width: usize) -> (r: String)
    ensures
        r@ == fixed_hex(n as nat, width as nat),
    decreases width,
{
    if width == 0 {
        String::new()
    } else {
        let mut r = fixed_hex_text(n / 16, width - 1);
        r.append(hex_digit_text(n % 16));
        r
    }
}

/// Two hexadecimal digits for each byte.
pub fn hex_bytes_text(bytes: &[u8]) -> (r: String)
    ensures
        r@ == hex_bytes(bytes@),
{
    let mut r = String::new();
    let mut i: usize = 0;
    while i < bytes.len()
        invariant
            i <= bytes@.len(),
            r@ == hex_bytes(bytes@.take(i as int)),
        decreases bytes@.len() - i,
    {
        let digits = fixed_hex_text(bytes[i] as u64, 2);
        r.append(digits.as_str());
        proof {
            assert(bytes@.take(i + 1).drop_last() == bytes@.take(i as int));
        }
        i += 1;
    }
    proof {
        assert(bytes@.take(i as int) == bytes@);
    }
    r
}

/// Whether two texts are the same.
pub fn same_text(a: &str, b: &str) -> (r: bool)
    ensures
        r == (a@ == b@),
{
    let mut x = a.chars();
    let mut y = b.chars();
    let ghost mut done: int = 0;
    loop
        invariant
            0 <= done <= a@.len(),
            done <= b@.len(),
            a@.take(done) == b@.take(done),
            x.remaining() == a@.skip(done),
            y.remaining() == b@.skip(done),
            x.obeys_prophetic_iter_laws(),
            y.obeys_prophetic_iter_laws(),
        decreases a@.len() - done,
    {
        let c = x.next();
        let d = y.next();
        match (c, d) {
            (Some(c), Some(d)) => {
                if c != d {
                    proof {
                        assert(a@[done] == c);
                        assert(b@[done] == d);
                    }
                    return false;
                }
                proof {
                    assert(a@.take(done + 1) == a@.take(done).push(c));
                    assert(b@.take(done + 1) == b@.take(done).push(c));
                    assert(a@.skip(done).drop_first() == a@.skip(done + 1));
                    assert(b@.skip(done).drop_first() == b@.skip(done + 1));
                    done = done + 1;
                }
            },
            (None, None) => {
                proof {
                    assert(a@.take(done) == a@);
                    assert(b@.take(done) == b@);
                }
                return true;
            },
            (Some(_), None) => {
                return false;
            },
            (None, Some(_)) => {
                return false;
            },
        }
    }
}

/// Whether a text begins with a prefix.
pub fn has_prefix(text: &str, prefix: &str) -> (r: bool)
    ensures
        r == begins_with(text@, prefix@),
{
    let n: usize = text.unicode_len();
    let m: usize = prefix.unicode_len();
    n >= m && same_text(text.substring_char(0, m), prefix)
}

/// Whether a text ends with a suffix.
pub fn has_suffix(text: &str, suffix: &str) -> (r: bool)
    ensures
        r == finishes_with(text@, suffix@),
{
    let n: usize = text.unicode_len();
    let m: usize = suffix.unicode_len();
    n >= m && same_text(text.substring_char(n - m, n), suffix)
}

/// Three texts, one after the other.
pub fn join3(a: &str, b: &str, c: &str) -> (r: String)
    ensures
        r@ == a@ + b@ + c@,
{
    let mut r = a.to_owned();
    r.append(b);
    r.append(c);
    r
}

/// A copy of a text that may be missing.
pub fn copy_optional(text: &Option<String>) -> (r: Option<String>)
    ensures
        r.deep_view() == text.deep_view(),
{
    match text {
        Some(text) => Some(text.clone()),
        None => None,
    }
}

/// A copy of a list of bytes.
pub fn copy_bytes(bytes: &Vec<u8>) -> (r: Vec<u8>)
    ensures
        r@ == bytes@,
{
    let r = bytes.clone();
    proof {
        assert(r@ =~= bytes@);
    }
    r
}

/// Five texts, one after the other.
pub fn join5(a: &str, b: &str, c: &str, d: &str, e: &str) -> (r: String)
    ensures
        r@ == a@ + b@ + c@ + d@ + e@,
{
    let mut r = join3(a, b, c);
    r.append(d);
    r.append(e);
    r
}

/// The number that decimal digits make, the highest first.
pub open spec fn read_decimal(digits: Seq<char>) -> nat
    decreases digits.len(),
{
    if digits.len() == 0 {
        0
    } else {
        10 * read_decimal(digits.drop_last()) + (digits.last() as nat - '0' as nat) as nat
    }
}

/// A number is what its decimal text reads, which is made of digits and has no zero in
/// front.
pub proof fn law_decimals_read_back(n: nat)
    ensures
        read_decimal(decimal(n)) == n,
        decimal(n).len() >= 1,
        forall|i: int| 0 <= i < decimal(n).len() ==> '0' <= #[trigger] decimal(n)[i] <= '9',
        decimal(n).len() > 1 ==> decimal(n)[0] != '0',
        n > 0 ==> decimal(n)[0] != '0',
    decreases n,
{
    if n >= 10 {
        law_decimals_read_back(n / 10);
        assert(decimal(n).drop_last() =~= decimal(n / 10));
    } else {
        assert(decimal(n).drop_last() =~= Seq::<char>::empty());
        assert(read_decimal(Seq::<char>::empty()) == 0);
    }
}

/// The number that a small hexadecimal digit stands for, and sixteen for what is none.
pub open spec fn read_hex(c: char) -> nat {
    if '0' <= c <= '9' {
        (c as nat - '0' as nat) as nat
    } else if 'a' <= c <= 'f' {
        (c as nat - 'a' as nat + 10) as nat
    } else {
        16
    }
}

/// The digits of a number in a width, from the last to the first, are what is left over
/// when it is divided by sixteen again and again.
pub proof fn law_hexadecimals_read_back(n: nat, width: nat)
    ensures
        fixed_hex(n, width).len() == width,
        width > 0 ==> read_hex(fixed_hex(n, width).last()) == n % 16,
        width > 0 ==> fixed_hex(n, width).drop_last() == fixed_hex(n / 16, (width - 1) as nat),
    decreases width,
{
    if width > 0 {
        law_hexadecimals_read_back(n / 16, (width - 1) as nat);
        assert(fixed_hex(n, width).drop_last() =~= fixed_hex(n / 16, (width - 1) as nat));
    }
}

/// Two hexadecimal digits in a text, the higher first, stand for a byte.
pub open spec fn spells_byte(text: Seq<char>, at: int, byte: u8) -> bool {
    &&& read_hex(text[at]) < 16
    &&& read_hex(text[at + 1]) < 16
    &&& 16 * read_hex(text[at]) + read_hex(text[at + 1]) == byte
}

/// Bytes are spelled two small hexadecimal digits each, the higher first, in their order.
pub proof fn law_bytes_read_back(bytes: Seq<u8>)
    ensures
        hex_bytes(bytes).len() == 2 * bytes.len(),
        forall|i: int|
            0 <= i < bytes.len() ==> #[trigger] spells_byte(hex_bytes(bytes), 2 * i, bytes[i]),
    decreases bytes.len(),
{
    if bytes.len() > 0 {
        let rest = bytes.drop_last();
        let last = bytes.last() as nat;
        law_bytes_read_back(rest);
        law_hexadecimals_read_back(last, 2);
        law_hexadecimals_read_back(last / 16, 1);
        assert(fixed_hex(last, 2)[0] == fixed_hex(last / 16, 1).last());
        assert forall|i: int| 0 <= i < bytes.len() implies #[trigger] spells_byte(
            hex_bytes(bytes),
            2 * i,
            bytes[i],
        ) by {
            if i < rest.len() {
                assert(spells_byte(hex_bytes(rest), 2 * i, rest[i]));
            }
        }
    }
}

/// A text begins with another, or ends in it, just where the rest of it can be put behind
/// the other, or in front of it.
pub proof fn law_beginnings_and_endings(text: Seq<char>, part: Seq<char>)
    ensures
        begins_with(text, part) <==> exists|rest: Seq<char>| text == #[trigger] (part + rest),
        finishes_with(text, part) <==> exists|rest: Seq<char>| text == #[trigger] (rest + part),
{
    let n = text.len() as int;
    let m = part.len() as int;
    if begins_with(text, part) {
        assert(text =~= text.subrange(0, m) + text.skip(m));
    }
    if exists|rest: Seq<char>| text == #[trigger] (part + rest) {
        assert(text.subrange(0, m) =~= part);
    }
    if finishes_with(text, part) {
        assert(text =~= text.take(n - m) + text.subrange(n - m, n));
    }
    if exists|rest: Seq<char>| text == #[trigger] (rest + part) {
        assert(text.subrange(n - m, n) =~= part);
    }
}

/// A text spells some bytes, two hexadecimal digits each.
pub open spec fn spells_bytes(text: Seq<char>, bytes: Seq<u8>) -> bool {
    &&& text.len() == 2 * bytes.len()
    &&& forall|i: int| 0 <= i < bytes.len() ==> #[trigger] spells_byte(text, 2 * i, bytes[i])
}

/// There is one text that spells some bytes.
pub proof fn law_bytes_are_spelled_in_one_way(text: Seq<char>, bytes: Seq<u8>)
    ensures
        text == hex_bytes(bytes) <==> spells_bytes(text, bytes),
{
    law_bytes_read_back(bytes);
    if spells_bytes(text, bytes) {
        let other = hex_bytes(bytes);
        assert forall|k: int| 0 <= k < text.len() implies text[k] == other[k] by {
            let i = k / 2;
            assert(spells_byte(text, 2 * i, bytes[i]));
            assert(spells_byte(other, 2 * i, bytes[i]));
            assert(k == 2 * i || k == 2 * i + 1);
            lemma_hex_digits_differ(text[2 * i], other[2 * i]);
            lemma_hex_digits_differ(text[2 * i + 1], other[2 * i + 1]);
        }
        assert(text =~= other);
    }
}

/// Different hexadecimal digits stand for different numbers.
proof fn lemma_hex_digits_differ(a: char, b: char)
    ensures
        read_hex(a) < 16 && read_hex(a) == read_hex(b) ==> a == b,
{
}

/// The number that small hexadecimal digits make, the highest first.
pub open spec fn read_hex_number(digits: Seq<char>) -> nat
    decreases digits.len(),
{
    if digits.len() == 0 {
        0
    } else {
        16 * read_hex_number(digits.drop_last()) + read_hex(digits.last())
    }
}

/// Sixteen to a power.
pub open spec fn sixteen_to(n: nat) -> nat
    decreases n,
{
    if n == 0 {
        1
    } else {
        16 * sixteen_to((n - 1) as nat)
    }
}

/// The digits of a number in a width make that number, so far as the width can hold it.
pub proof fn law_digits_make_the_number(n: nat, width: nat)
    ensures
        sixteen_to(width) > 0,
        read_hex_number(fixed_hex(n, width)) == n % sixteen_to(width),
    decreases width,
{
    if width > 0 {
        let less = (width - 1) as nat;
        law_digits_make_the_number(n / 16, less);
        law_hexadecimals_read_back(n, width);
        lemma_mod_breakdown(n as int, 16, sixteen_to(less) as int);
    }
}

} // verus!
