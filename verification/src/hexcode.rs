//! Hexadecimal text: the byte-level model of lowercase hex encoding, the
//! matching decoder model, and the trusted calls into the `hex` crate.

use vstd::prelude::*;

verus! {

/// A byte that is the ASCII code of a hexadecimal digit (either case).
pub open spec fn is_hex_digit_byte(b: u8) -> bool {
    (48 <= b && b <= 57) || (97 <= b && b <= 102) || (65 <= b && b <= 70)
}

/// The numeric value of a hex digit byte (meaningful under `is_hex_digit_byte`).
pub open spec fn hex_digit_value(b: u8) -> u8 {
    if 48 <= b && b <= 57 {
        (b - 48) as u8
    } else if 97 <= b && b <= 102 {
        (b - 87) as u8
    } else {
        (b - 55) as u8
    }
}

/// The ASCII code of the lowercase hex digit for a nibble (meaningful for `n < 16`).
pub open spec fn hex_digit_of(n: u8) -> u8 {
    if n < 10 {
        (48 + n) as u8
    } else {
        (87 + n) as u8
    }
}

/// The lowercase hex encoding of a byte sequence, as ASCII bytes:
/// two digits per input byte, high nibble first.
pub open spec fn hex_bytes_of(b: Seq<u8>) -> Seq<u8>
    decreases b.len(),
{
    if b.len() == 0 {
        Seq::empty()
    } else {
        seq![hex_digit_of(b[0] / 16), hex_digit_of(b[0] % 16)] + hex_bytes_of(b.drop_first())
    }
}

/// Whether a byte sequence is well-formed hex text: even length, all digits.
pub open spec fn hex_text_ok(s: Seq<u8>) -> bool {
    s.len() % 2 == 0 && forall|i: int| 0 <= i < s.len() ==> is_hex_digit_byte(#[trigger] s[i])
}

/// The bytes denoted by hex text (meaningful under `hex_text_ok`).
pub open spec fn hex_decoded(s: Seq<u8>) -> Seq<u8>
    decreases s.len(),
{
    if s.len() < 2 {
        Seq::empty()
    } else {
        seq![(hex_digit_value(s[0]) * 16 + hex_digit_value(s[1])) as u8] + hex_decoded(s.skip(2))
    }
}

/// Relies on `hex::encode`: every input byte becomes exactly two lowercase
/// hex digits, high nibble first; the result is converted to its ASCII bytes.
#[verifier::external_body]
pub(crate) fn hex_encode_bytes(data: &Vec<u8>) -> (r: Vec<u8>)
    ensures
        r@ == hex_bytes_of(data@),
{
    hex::encode(data).into_bytes()
}

/// Relies on `hex::decode`: it succeeds exactly on even-length sequences of
/// hex digit bytes (upper or lower case), and then returns the denoted bytes.
#[verifier::external_body]
pub(crate) fn hex_decode_bytes(data: &Vec<u8>) -> (r: Result<Vec<u8>, ()>)
    ensures
        r is Ok <==> hex_text_ok(data@),
        r matches Ok(v) ==> v@ == hex_decoded(data@),
{
    hex::decode(data).map_err(|_| ())
}

/// Every hex digit byte is plain ASCII and is not the field delimiter `;`.
pub proof fn lemma_hex_digit_plain(b: u8)
    requires
        is_hex_digit_byte(b),
    ensures
        b < 128,
        b != 59,
{
}

/// The hex encoding of `b` is twice as long as `b`, consists of hex digit
/// bytes only, is well-formed hex text, and decodes back to `b`.
pub proof fn lemma_hex_round_trip(b: Seq<u8>)
    ensures
        hex_bytes_of(b).len() == 2 * b.len(),
        forall|i: int| 0 <= i < hex_bytes_of(b).len() ==> is_hex_digit_byte(#[trigger] hex_bytes_of(b)[i]),
        hex_text_ok(hex_bytes_of(b)),
        hex_decoded(hex_bytes_of(b)) == b,
    decreases b.len(),
{
    if b.len() == 0 {
        assert(hex_decoded(hex_bytes_of(b)) =~= b);
    } else {
        let h = b[0];
        vstd::arithmetic::div_mod::lemma_fundamental_div_mod(h as int, 16);
        let rest = b.drop_first();
        lemma_hex_round_trip(rest);
        let e = hex_bytes_of(b);
        assert(e[0] == hex_digit_of(h / 16) && e[1] == hex_digit_of(h % 16));
        assert(forall|i: int| 2 <= i < e.len() ==> e[i] == hex_bytes_of(rest)[i - 2]);
        assert(hex_digit_value(e[0]) == h / 16 && hex_digit_value(e[1]) == h % 16);
        assert(hex_digit_value(e[0]) * 16 + hex_digit_value(e[1]) == h);
        assert(e.skip(2) =~= hex_bytes_of(rest));
        assert(hex_decoded(e) =~= b);
    }
}

} // verus!
