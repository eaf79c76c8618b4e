//! Text encoding support: the correspondence between ASCII byte sequences
//! and character sequences, and the trusted decoding of UTF-8 bytes into an
//! owned string.

use vstd::prelude::*;
use vstd::utf8::{
    decode_utf8, decode_utf8_encode_utf8, encode_utf8, is_ascii_chars, is_leading_byte_width_1,
    leading_bits_width_1, pop_first_scalar, valid_first_scalar, valid_utf8,
};

verus! {

/// Every byte of `b` is plain ASCII.
pub open spec fn all_ascii(b: Seq<u8>) -> bool {
    forall|i: int| 0 <= i < b.len() ==> b[i] < 128
}

/// The character sequence spelled by an ASCII byte sequence, byte for byte.
pub open spec fn ascii_chars_of(b: Seq<u8>) -> Seq<char> {
    Seq::new(b.len(), |i: int| (b[i] as u32) as char)
}

/// An ASCII byte sequence is valid UTF-8, decodes to its own characters,
/// and is the UTF-8 encoding of those characters.
pub proof fn lemma_ascii_utf8(b: Seq<u8>)
    requires
        all_ascii(b),
    ensures
        valid_utf8(b),
        decode_utf8(b) == ascii_chars_of(b),
        is_ascii_chars(decode_utf8(b)),
        encode_utf8(ascii_chars_of(b)) == b,
    decreases b.len(),
{
    if b.len() == 0 {
        assert(decode_utf8(b) =~= ascii_chars_of(b));
        assert(encode_utf8(ascii_chars_of(b)) =~= b);
    } else {
        let x = b[0];
        assert(is_leading_byte_width_1(x));
        assert(x & 0x7F == x) by (bit_vector)
            requires
                x < 128,
        ;
        assert(leading_bits_width_1(x) == x as u32);
        assert(valid_first_scalar(b));
        assert(pop_first_scalar(b) =~= b.drop_first());
        assert(all_ascii(b.drop_first()));
        lemma_ascii_utf8(b.drop_first());
        assert(valid_utf8(b));
        assert(decode_utf8(b) =~= ascii_chars_of(b));
        assert(is_ascii_chars(decode_utf8(b))) by {
            assert(forall|i: int|
                0 <= i < b.len() ==> (#[trigger] ascii_chars_of(b)[i]) as u32 == b[i] as u32);
        }
        decode_utf8_encode_utf8(b);
    }
}

/// Whether Unicode classifies a character as uppercase.
pub uninterp spec fn unicode_uppercase(c: char) -> bool;

/// Whether Unicode classifies a character as lowercase.
pub uninterp spec fn unicode_lowercase(c: char) -> bool;

/// Relies on `char::is_uppercase`: the Unicode uppercase property, which on
/// the ASCII range holds exactly for `A` to `Z`.
#[verifier::external_body]
pub(crate) fn char_is_uppercase(c: char) -> (r: bool)
    ensures
        r == unicode_uppercase(c),
        65 <= (c as u32) && (c as u32) <= 90 ==> r,
        (c as u32) < 128 && !(65 <= (c as u32) && (c as u32) <= 90) ==> !r,
{
    c.is_uppercase()
}

/// Relies on `char::is_lowercase`: the Unicode lowercase property, which on
/// the ASCII range holds exactly for `a` to `z`.
#[verifier::external_body]
pub(crate) fn char_is_lowercase(c: char) -> (r: bool)
    ensures
        r == unicode_lowercase(c),
        97 <= (c as u32) && (c as u32) <= 122 ==> r,
        (c as u32) < 128 && !(97 <= (c as u32) && (c as u32) <= 122) ==> !r,
{
    c.is_lowercase()
}

/// Relies on `String::from_utf8`: it succeeds exactly on valid UTF-8 input
/// and then returns the string those bytes encode.
#[verifier::external_body]
pub(crate) fn bytes_to_string(b: Vec<u8>) -> (r: Result<String, ()>)
    ensures
        (match r {
            Ok(s) => valid_utf8(b@) && s@ == decode_utf8(b@),
            Err(_) => !valid_utf8(b@),
        }),
{
    String::from_utf8(b).map_err(|_| ())
}

} // verus!
