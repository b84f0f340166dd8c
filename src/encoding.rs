//! Hex text as used for persisted key material.
use vstd::prelude::*;

verus! {

/// A hex digit of either case, as accepted by a decoder.
pub open spec fn is_hex_digit(c: char) -> bool {
    ('0' <= c && c <= '9') || ('a' <= c && c <= 'f') || ('A' <= c && c <= 'F')
}

/// A hex digit as an encoder writes it: digits and lower-case letters.
pub open spec fn is_lower_hex_digit(c: char) -> bool {
    ('0' <= c && c <= '9') || ('a' <= c && c <= 'f')
}

/// The value, 0 to 15, of a hex digit.
pub open spec fn hex_value(c: char) -> nat {
    if '0' <= c && c <= '9' {
        (c as nat - '0' as nat) as nat
    } else if 'a' <= c && c <= 'f' {
        (c as nat - 'a' as nat + 10) as nat
    } else {
        (c as nat - 'A' as nat + 10) as nat
    }
}

/// The lower-case digit for a value below 16.
pub open spec fn lower_digit(n: nat) -> char {
    seq!['0', '1', '2', '3', '4', '5', '6', '7', '8', '9', 'a', 'b', 'c', 'd', 'e', 'f'][n as int]
}

/// Text that decodes: an even number of hex digits.
pub open spec fn is_hex_text(s: Seq<char>) -> bool {
    s.len() % 2 == 0 && forall|i: int| 0 <= i < s.len() ==> is_hex_digit(#[trigger] s[i])
}

/// Text as an encoder writes it: an even number of lower-case hex digits.
pub open spec fn is_lower_hex_text(s: Seq<char>) -> bool {
    s.len() % 2 == 0 && forall|i: int| 0 <= i < s.len() ==> is_lower_hex_digit(#[trigger] s[i])
}

/// The bytes that hex text stands for, two digits per byte, high nibble first.
pub open spec fn hex_decoded(s: Seq<char>) -> Seq<u8> {
    Seq::new(s.len() / 2, |i: int| (16 * hex_value(s[2 * i]) + hex_value(s[2 * i + 1])) as u8)
}

/// The lower-case hex text of bytes, two digits per byte, high nibble first.
pub open spec fn hex_encoded(b: Seq<u8>) -> Seq<char> {
    Seq::new(
        2 * b.len(),
        |i: int|
            if i % 2 == 0 {
                lower_digit(b[i / 2] as nat / 16)
            } else {
                lower_digit(b[i / 2] as nat % 16)
            },
    )
}

/// Relies on hex::decode: it accepts an even number of hex digits of either case and
/// returns one byte per pair of digits, high nibble first; anything else is an error,
/// returned here as the error's text.
#[verifier::external_body]
pub(crate) fn decode_hex(s: &str) -> (r: Result<Vec<u8>, String>)
    ensures
        r.is_ok() == is_hex_text(s@),
        r matches Ok(b) ==> b@ == hex_decoded(s@),
{
    hex::decode(s).map_err(|e| e.to_string())
}

/// Relies on hex::encode: two lower-case digits per byte, high nibble first.
#[verifier::external_body]
pub(crate) fn encode_hex(b: &Vec<u8>) -> (r: String)
    ensures
        r@ == hex_encoded(b@),
{
    hex::encode(b)
}

/// Decoding lower-case hex text and encoding the bytes again gives back the same text.
pub proof fn lemma_hex_round_trip(s: Seq<char>)
    requires
        is_lower_hex_text(s),
    ensures
        is_hex_text(s),
        hex_encoded(hex_decoded(s)) == s,
{
    let b = hex_decoded(s);
    assert forall|i: int| 0 <= i < s.len() implies is_hex_digit(#[trigger] s[i]) by {
        assert(is_lower_hex_digit(s[i]));
    }
    assert forall|i: int| 0 <= i < s.len() implies #[trigger] hex_encoded(b)[i] == s[i] by {
        let k = i / 2;
        assert(is_lower_hex_digit(s[2 * k]));
        assert(is_lower_hex_digit(s[2 * k + 1]));
        let hi = hex_value(s[2 * k]);
        let lo = hex_value(s[2 * k + 1]);
        assert(hi < 16 && lo < 16);
        assert(b[k] as nat == 16 * hi + lo);
        assert((16 * hi + lo) / 16 == hi && (16 * hi + lo) % 16 == lo) by (nonlinear_arith)
            requires
                hi < 16,
                lo < 16,
        ;
        if i % 2 == 0 {
            assert(i == 2 * k);
        } else {
            assert(i == 2 * k + 1);
        }
    }
    assert(hex_encoded(b) =~= s);
}

/// A lower-case digit reads back as its value.
proof fn lemma_digit_value(n: nat)
    requires
        n < 16,
    ensures
        is_lower_hex_digit(lower_digit(n)),
        hex_value(lower_digit(n)) == n,
{
}

/// Encoding bytes gives lower-case hex text that decodes to the same bytes.
pub proof fn lemma_encoded_decodes(b: Seq<u8>)
    ensures
        is_lower_hex_text(hex_encoded(b)),
        is_hex_text(hex_encoded(b)),
        hex_decoded(hex_encoded(b)) == b,
{
    let s = hex_encoded(b);
    assert forall|i: int| 0 <= i < s.len() implies is_lower_hex_digit(#[trigger] s[i])
        && is_hex_digit(s[i]) by {
        let v = b[i / 2] as nat;
        lemma_digit_value(v / 16);
        lemma_digit_value(v % 16);
    }
    assert forall|k: int| 0 <= k < b.len() implies #[trigger] hex_decoded(s)[k] == b[k] by {
        let v = b[k] as nat;
        assert(s[2 * k] == lower_digit(v / 16));
        assert(s[2 * k + 1] == lower_digit(v % 16));
        lemma_digit_value(v / 16);
        lemma_digit_value(v % 16);
        assert(16 * (v / 16) + v % 16 == v);
    }
    assert(hex_decoded(s) =~= b);
}

} // verus!
