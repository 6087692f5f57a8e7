//! Text concerns of the codec: ASCII-letter type bytes, rendering a type
//! code as text, and decoding chunk data as UTF-8.
//!
//! Everything is stated over vstd's UTF-8 model (`encode_utf8`,
//! `decode_utf8`, `valid_utf8`); the sole trusted call is the decoding
//! itself, which std performs.

use vstd::prelude::*;
use vstd::utf8::decode_utf8;
use vstd::utf8::encode_utf8;
use vstd::utf8::encode_utf8_decode_utf8;
use vstd::utf8::encode_utf8_valid_utf8;
use vstd::utf8::is_ascii_chars;
use vstd::utf8::is_ascii_chars_encode_utf8;
use vstd::utf8::is_continuation_byte;
use vstd::utf8::is_leading_byte_width_1;
use vstd::utf8::length_of_first_codepoint;
use vstd::utf8::pop_first_scalar;
use vstd::utf8::valid_utf8;

verus! {

/// An ASCII letter, `A`-`Z` or `a`-`z`: the only bytes a chunk type code
/// may hold.
pub open spec fn is_ascii_letter(b: u8) -> bool {
    (0x41 <= b && b <= 0x5a) || (0x61 <= b && b <= 0x7a)
}

/// The text a byte sequence renders to, each byte read as one ASCII
/// character.
pub open spec fn render_bytes(bs: Seq<u8>) -> Seq<char> {
    bs.map_values(|b: u8| b as char)
}

/// Executable ASCII-letter test, the byte-level validity rule of chunk
/// type codes.
pub fn is_letter(b: u8) -> (r: bool)
    ensures
        r == is_ascii_letter(b),
{
    (0x41 <= b && b <= 0x5a) || (0x61 <= b && b <= 0x7a)
}

/// A sequence of ASCII bytes is valid UTF-8 and decodes to itself, byte
/// for character.
pub proof fn lemma_ascii_decode(bytes: Seq<u8>)
    requires
        forall|i: int| 0 <= i < bytes.len() ==> bytes[i] <= 0x7f,
    ensures
        valid_utf8(bytes),
        decode_utf8(bytes) =~= render_bytes(bytes),
    decreases bytes.len(),
{
    if bytes.len() != 0 {
        let b0 = bytes[0];
        assert(is_leading_byte_width_1(b0));
        assert(length_of_first_codepoint(bytes) == 1);
        assert((b0 & 0x7f) as u32 == b0 as u32) by (bit_vector)
            requires
                b0 <= 0x7f,
        ;
        let rest = pop_first_scalar(bytes);
        assert(rest =~= bytes.drop_first());
        lemma_ascii_decode(rest);
        assert(decode_utf8(bytes) =~= render_bytes(bytes));
    }
}

/// A 4-byte ASCII type code equals the UTF-8 bytes of a string exactly
/// when the code renders to that string.
pub proof fn lemma_type_code_matches(tb: Seq<u8>, s: Seq<char>)
    requires
        tb.len() == 4,
        forall|i: int| 0 <= i < 4 ==> #[trigger] tb[i] <= 0x7f,
    ensures
        encode_utf8(s) == tb <==> render_bytes(tb) == s,
{
    if encode_utf8(s) == tb {
        encode_utf8_valid_utf8(s);
        encode_utf8_decode_utf8(s);
        lemma_ascii_decode(tb);
        assert(render_bytes(tb) == decode_utf8(tb));
        assert(render_bytes(tb) == s);
    }
    if render_bytes(tb) == s {
        assert(is_ascii_chars(s)) by {
            assert(forall|i: int|
                0 <= i < s.len() ==> #[trigger] s[i] == (tb[i] as char) && tb[i] <= 0x7f);
        }
        is_ascii_chars_encode_utf8(s);
        assert(encode_utf8(s) =~= tb);
    }
}

/// Relies on `core::str::from_utf8`: it succeeds exactly on valid UTF-8
/// input and yields its decoding, the text that vstd's `decode_utf8`
/// models.
#[verifier::external_body]
pub fn utf8_to_string(bytes: &[u8]) -> (r: Option<String>)
    ensures
        r is Some <==> valid_utf8(bytes@),
        r matches Some(s) ==> s@ == decode_utf8(bytes@),
{
    match core::str::from_utf8(bytes) {
        Ok(s) => Some(s.to_owned()),
        Err(_) => None,
    }
}

} // verus!
