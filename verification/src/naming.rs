//! Names of streams, consumers and directories.

use vstd::prelude::*;
use vstd::utf8::*;

use crate::engine::BrokerError;
use crate::text::{hex_bytes, hex_bytes_text};

verus! {

/// The group that keeps the streams of the cluster.
pub const METADATA_GROUP_ID: &'static str = "metadata";

/// The name of a directory for a value: two hexadecimal digits for each of its
/// bytes, so that any value has a name that any file system takes.
pub fn path_component(value: &str) -> (r: String)
    ensures
        r@ == hex_bytes(encode_utf8(value@)),
{
    hex_bytes_text(value.as_bytes())
}

/// A byte that a name may hold: a letter, a digit, a dot, a low line or a hyphen.
pub open spec fn is_name_byte(b: u8) -> bool {
    (b >= 48 && b <= 57) || (b >= 65 && b <= 90) || (b >= 97 && b <= 122) || b == 46 || b == 95
        || b == 45
}

/// Whether a name is one that a stream, a consumer or a member may have.
pub open spec fn is_valid_name(name: Seq<char>) -> bool {
    let bytes = encode_utf8(name);
    &&& 1 <= bytes.len() <= 128
    &&& forall|i: int| 0 <= i < bytes.len() ==> is_name_byte(#[trigger] bytes[i])
}

/// Accepts a name, or says which one it was.
pub fn validate_name(kind: &'static str, name: &str) -> (r: Result<(), BrokerError>)
    ensures
        r is Ok <==> is_valid_name(name@),
        r matches Err(error) ==> error matches BrokerError::InvalidName { kind: k, name: n } && k@
            == kind@ && n@ == name@,
{
    let bytes = name.as_bytes();
    let mut valid = 1 <= bytes.len() && bytes.len() <= 128;
    let mut i: usize = 0;
    while i < bytes.len()
        invariant
            i <= bytes@.len(),
            bytes@ == encode_utf8(name@),
            valid == (1 <= bytes@.len() <= 128 && forall|j: int|
                0 <= j < i ==> is_name_byte(#[trigger] bytes@[j])),
        decreases bytes@.len() - i,
    {
        let b: u8 = bytes[i];
        valid = valid && ((b >= 48 && b <= 57) || (b >= 65 && b <= 90) || (b >= 97 && b <= 122)
            || b == 46 || b == 95 || b == 45);
        i += 1;
    }
    if valid {
        Ok(())
    } else {
        Err(BrokerError::InvalidName { kind, name: name.to_owned() })
    }
}

/// One hexadecimal text of two digits stands for one byte.
proof fn lemma_two_digits(a: u8, b: u8)
    requires
        crate::text::fixed_hex(a as nat, 2) == crate::text::fixed_hex(b as nat, 2),
    ensures
        a == b,
{
    reveal_with_fuel(crate::text::fixed_hex, 3);
    let x = crate::text::fixed_hex(a as nat, 2);
    let y = crate::text::fixed_hex(b as nat, 2);
    assert(x[1] == crate::text::hex_char((a % 16) as int));
    assert(x[0] == crate::text::hex_char(((a / 16) % 16) as int));
    assert(y[1] == crate::text::hex_char((b % 16) as int));
    assert(y[0] == crate::text::hex_char(((b / 16) % 16) as int));
}

/// There are two digits for each byte.
proof fn lemma_hex_len(bytes: Seq<u8>)
    ensures
        hex_bytes(bytes).len() == 2 * bytes.len(),
    decreases bytes.len(),
{
    if bytes.len() > 0 {
        lemma_hex_len(bytes.drop_last());
        reveal_with_fuel(crate::text::fixed_hex, 3);
    }
}

/// Different bytes have different hexadecimal texts.
proof fn lemma_hex_injective(a: Seq<u8>, b: Seq<u8>)
    requires
        hex_bytes(a) == hex_bytes(b),
    ensures
        a == b,
    decreases a.len(),
{
    lemma_hex_len(a);
    lemma_hex_len(b);
    if a.len() > 0 {
        reveal_with_fuel(crate::text::fixed_hex, 3);
        let n = hex_bytes(a).len() as int;
        let x = hex_bytes(a);
        let y = hex_bytes(b);
        lemma_hex_len(a.drop_last());
        lemma_hex_len(b.drop_last());
        assert(x.subrange(0, n - 2) =~= hex_bytes(a.drop_last()));
        assert(y.subrange(0, n - 2) =~= hex_bytes(b.drop_last()));
        assert(x.subrange(n - 2, n) =~= crate::text::fixed_hex(a.last() as nat, 2));
        assert(y.subrange(n - 2, n) =~= crate::text::fixed_hex(b.last() as nat, 2));
        lemma_hex_injective(a.drop_last(), b.drop_last());
        lemma_two_digits(a.last(), b.last());
        assert(a =~= a.drop_last().push(a.last()));
        assert(b =~= b.drop_last().push(b.last()));
    } else {
        assert(a =~= b);
    }
}

/// Different values have different directories.
pub proof fn law_path_components_are_distinct(a: Seq<char>, b: Seq<char>)
    requires
        a != b,
    ensures
        hex_bytes(encode_utf8(a)) != hex_bytes(encode_utf8(b)),
{
    if hex_bytes(encode_utf8(a)) == hex_bytes(encode_utf8(b)) {
        lemma_hex_injective(encode_utf8(a), encode_utf8(b));
        encode_utf8_decode_utf8(a);
        encode_utf8_decode_utf8(b);
    }
}

/// A name is good if it has from one to a hundred and twenty-eight characters, each of
/// them a letter, a digit, a dot, a low line or a hyphen, and only then. Path separators
/// and blanks are in none.
pub proof fn law_good_names_are_made_of_name_characters(name: Seq<char>)
    ensures
        is_valid_name(name) <==> {
            &&& 1 <= name.len() <= 128
            &&& forall|i: int| 0 <= i < name.len() ==> is_name_character(#[trigger] name[i])
        },
{
    let bytes = encode_utf8(name);
    let good = forall|i: int| 0 <= i < name.len() ==> is_name_character(#[trigger] name[i]);
    if good {
        assert(is_ascii_chars(name));
        is_ascii_chars_encode_utf8(name);
        assert forall|i: int| 0 <= i < bytes.len() implies is_name_byte(#[trigger] bytes[i]) by {
            assert(is_name_character(name[i]));
        }
    }
    if is_valid_name(name) {
        assert(forall|i: int| 0 <= i < bytes.len() ==> 0 <= #[trigger] bytes[i] <= 127);
        lemma_low_bytes_are_characters(name);
        is_ascii_chars_encode_utf8(name);
        assert forall|i: int| 0 <= i < name.len() implies is_name_character(#[trigger] name[i]) by {
            assert(is_name_byte(bytes[i]));
        }
    }
}

/// A character that a name may hold.
pub open spec fn is_name_character(c: char) -> bool {
    ('a' <= c <= 'z') || ('A' <= c <= 'Z') || ('0' <= c <= '9') || c == '.' || c == '_' || c == '-'
}

/// Where every byte of a text is below a hundred and twenty-eight, each is a character.
proof fn lemma_low_bytes_are_characters(text: Seq<char>)
    requires
        forall|i: int| 0 <= i < encode_utf8(text).len() ==> #[trigger] encode_utf8(text)[i] <= 127,
    ensures
        is_ascii_chars(text),
    decreases text.len(),
{
    if text.len() > 0 {
        let bytes = encode_utf8(text);
        let c: char = text[0];
        let scalar: u32 = c as u32;
        char_is_scalar(c);
        char_u32_cast(c, scalar);
        let first = encode_scalar(scalar);
        let rest = text.drop_first();
        encode_utf8_first_scalar(text);
        assert(bytes == first + encode_utf8(rest));
        let b: u8 = bytes[0];
        assert(b <= 127);
        assert(b & 0x80 == 0) by (bit_vector)
            requires
                b <= 127,
        ;
        utf8_byte_ranges_bitwise(b);
        assert(is_leading_byte_width_1(b));
        assert(first.len() == 1);
        assert(has_width_1_encoding(scalar));
        assert(c <= '\u{7f}');
        assert forall|i: int| 0 <= i < encode_utf8(rest).len() implies #[trigger] encode_utf8(
            rest,
        )[i] <= 127 by {
            assert(bytes[i + 1] == encode_utf8(rest)[i]);
        }
        lemma_low_bytes_are_characters(rest);
        assert forall|i: int| 0 <= i < text.len() implies '\0' <= #[trigger] text[i] <= '\u{7f}' by {
            if i > 0 {
                assert(rest[i - 1] == text[i]);
            }
        }
    }
}

} // verus!
