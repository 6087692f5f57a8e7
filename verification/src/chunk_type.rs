//! The 4-byte chunk type code and its bit-flag semantics.
//!
//! A type code holds 4 bytes, each an ASCII letter; bit 5 (0x20) of each
//! byte carries one flag: ancillary, private, reserved, safe-to-copy.
//! The code is stored as one big-endian 32-bit word; its view is the
//! 4-byte sequence.

use vstd::prelude::*;

use crate::error::PngError;
use crate::text::is_ascii_letter;
use crate::text::is_letter;
use crate::text::lemma_ascii_decode;
use crate::text::lemma_type_code_matches;
use crate::text::render_bytes;
use crate::text::utf8_to_string;
use crate::wire::spec_u32_to_be_bytes;
use crate::wire::u32_from_be_bytes;
use crate::wire::u32_to_be_bytes;

verus! {

/// A chunk type code: 4 ASCII letters packed big-endian into one word.
///
/// Immutable once constructed; the constructors reject any byte that is
/// not an ASCII letter.
#[derive(Debug, Clone, Copy, PartialEq, Eq, Structural)]
pub struct ChunkType(pub u32);

impl View for ChunkType {
    type V = Seq<u8>;

    open spec fn view(&self) -> Seq<u8> {
        spec_u32_to_be_bytes(self.0)
    }
}

/// A letter-only 4-character chunk type string, the shape the string
/// constructor accepts.
pub open spec fn is_letter_char(c: char) -> bool {
    ('A' <= c && c <= 'Z') || ('a' <= c && c <= 'z')
}

impl ChunkType {
    /// All 4 bytes are ASCII letters: what every constructed value
    /// satisfies.
    pub open spec fn wf(&self) -> bool {
        forall|i: int| 0 <= i < 4 ==> is_ascii_letter(#[trigger] self@[i])
    }

    /// The 4-character text this code renders to.
    pub open spec fn render(&self) -> Seq<char> {
        render_bytes(self@)
    }

    /// Bit 5 of byte 0 clear: the chunk is critical, not ancillary.
    pub open spec fn spec_is_critical(&self) -> bool {
        self@[0] & 0x20 == 0
    }

    /// Bit 5 of byte 1 clear: the chunk type is public, not private.
    pub open spec fn spec_is_public(&self) -> bool {
        self@[1] & 0x20 == 0
    }

    /// Bit 5 of byte 2 clear: the reserved bit conforms.
    pub open spec fn spec_is_reserved_bit_valid(&self) -> bool {
        self@[2] & 0x20 == 0
    }

    /// Bit 5 of byte 3 set: editors that do not understand the chunk may
    /// copy it.
    pub open spec fn spec_is_safe_to_copy(&self) -> bool {
        self@[3] & 0x20 == 0x20
    }

    /// Construct from the packed big-endian word.
    pub fn new(val: u32) -> (r: Result<ChunkType, PngError>)
        ensures
            r is Ok <==> (forall|i: int|
                0 <= i < 4 ==> is_ascii_letter(#[trigger] spec_u32_to_be_bytes(val)[i])),
            r matches Ok(t) ==> t.0 == val && t.wf(),
            r is Err ==> r == Err::<ChunkType, PngError>(PngError::InvalidTypeCode),
    {
        let bytes = u32_to_be_bytes(val);
        if is_letter(bytes[0]) && is_letter(bytes[1]) && is_letter(bytes[2]) && is_letter(
            bytes[3],
        ) {
            Ok(ChunkType(val))
        } else {
            Err(PngError::InvalidTypeCode)
        }
    }

    /// Construct from 4 raw bytes.
    pub fn from_bytes(bytes: [u8; 4]) -> (r: Result<ChunkType, PngError>)
        ensures
            r is Ok <==> (forall|i: int| 0 <= i < 4 ==> is_ascii_letter(#[trigger] bytes@[i])),
            r matches Ok(t) ==> t@ == bytes@ && t.wf(),
            r is Err ==> r == Err::<ChunkType, PngError>(PngError::InvalidTypeCode),
    {
        if is_letter(bytes[0]) && is_letter(bytes[1]) && is_letter(bytes[2]) && is_letter(
            bytes[3],
        ) {
            let val = u32_from_be_bytes(bytes[0], bytes[1], bytes[2], bytes[3]);
            proof {
                crate::wire::lemma_u32_to_from_be_bytes(seq![bytes[0], bytes[1], bytes[2], bytes[3]]);
                assert(seq![bytes@[0], bytes@[1], bytes@[2], bytes@[3]] =~= bytes@);
            }
            Ok(ChunkType(val))
        } else {
            Err(PngError::InvalidTypeCode)
        }
    }

    /// Construct from a text string, which must hold exactly 4 ASCII
    /// letters.
    pub fn from_str(s: &str) -> (r: Result<ChunkType, PngError>)
        ensures
            r is Ok <==> (s@.len() == 4 && (forall|i: int|
                0 <= i < 4 ==> is_letter_char(#[trigger] s@[i]))),
            r matches Ok(t) ==> t.render() == s@ && t.wf(),
            r is Err ==> r == Err::<ChunkType, PngError>(PngError::InvalidTypeCode),
    {
        broadcast use vstd::utf8::is_ascii_chars_encode_utf8;

        let bs = s.as_bytes();
        if bs.len() != 4 {
            proof {
                if s@.len() == 4 && (forall|i: int|
                    0 <= i < 4 ==> is_letter_char(#[trigger] s@[i])) {
                    assert(vstd::utf8::is_ascii_chars(s@));
                    assert(false);
                }
            }
            return Err(PngError::InvalidTypeCode);
        }
        let r = Self::from_bytes([bs[0], bs[1], bs[2], bs[3]]);
        proof {
            let tb = seq![bs@[0], bs@[1], bs@[2], bs@[3]];
            assert(tb =~= bs@);
            match r {
                Ok(t) => {
                    assert(t@ == bs@);
                    lemma_type_code_matches(bs@, s@);
                    assert(t.render() == s@);
                    assert(forall|i: int| 0 <= i < 4 ==> is_letter_char(#[trigger] s@[i])) by {
                        assert(forall|i: int|
                            0 <= i < 4 ==> #[trigger] s@[i] == (bs@[i] as char) && is_ascii_letter(
                                bs@[i],
                            ));
                    }
                },
                Err(_) => {
                    if s@.len() == 4 && (forall|i: int|
                        0 <= i < 4 ==> is_letter_char(#[trigger] s@[i])) {
                        assert(vstd::utf8::is_ascii_chars(s@));
                        assert(forall|i: int|
                            0 <= i < 4 ==> #[trigger] bs@[i] == (s@[i] as u8) && is_letter_char(
                                s@[i],
                            ));
                        assert(forall|i: int| 0 <= i < 4 ==> is_ascii_letter(#[trigger] bs@[i]));
                        assert(false);
                    }
                },
            }
        }
        r
    }

    /// The 4 raw bytes of the code.
    pub fn bytes(&self) -> (r: [u8; 4])
        ensures
            r@ == self@,
    {
        u32_to_be_bytes(self.0)
    }

    /// The packed big-endian word the code is stored as.
    pub fn inner(&self) -> (r: u32)
        ensures
            r == self.0,
    {
        self.0
    }

    /// Only the reserved bit governs conformance: critical, public and
    /// safe-to-copy do not affect validity.
    pub fn is_valid(&self) -> (r: bool)
        ensures
            r == self.spec_is_reserved_bit_valid(),
    {
        self.is_reserved_bit_valid()
    }

    /// Bit test on byte 0: clear means critical.
    pub fn is_critical(&self) -> (r: bool)
        ensures
            r == self.spec_is_critical(),
    {
        let x = self.0;
        proof {
            assert((x & 0x2000_0000u32 == 0) == ((((x >> 24) & 0xff) as u8) & 0x20u8 == 0))
                by (bit_vector);
        }
        x & 0x2000_0000 == 0
    }

    /// Bit test on byte 1: clear means public.
    pub fn is_public(&self) -> (r: bool)
        ensures
            r == self.spec_is_public(),
    {
        let x = self.0;
        proof {
            assert((x & 0x0020_0000u32 == 0) == ((((x >> 16) & 0xff) as u8) & 0x20u8 == 0))
                by (bit_vector);
        }
        x & 0x0020_0000 == 0
    }

    /// Bit test on byte 2, the reserved bit: clear means conforming.
    pub fn is_reserved_bit_valid(&self) -> (r: bool)
        ensures
            r == self.spec_is_reserved_bit_valid(),
    {
        let x = self.0;
        proof {
            assert((x & 0x2000u32 == 0) == ((((x >> 8) & 0xff) as u8) & 0x20u8 == 0))
                by (bit_vector);
        }
        x & 0x2000 == 0
    }

    /// Bit test on byte 3: set means safe to copy.
    pub fn is_safe_to_copy(&self) -> (r: bool)
        ensures
            r == self.spec_is_safe_to_copy(),
    {
        let x = self.0;
        proof {
            assert((x & 0x20u32 != 0) == (((x & 0xff) as u8) & 0x20u8 == 0x20u8)) by (bit_vector);
        }
        x & 0x20 != 0
    }

    /// The 4-character text of the code.
    pub fn to_text(&self) -> (r: String)
        requires
            self.wf(),
        ensures
            r@ == self.render(),
    {
        let bytes = self.bytes();
        let mut v: Vec<u8> = Vec::new();
        v.push(bytes[0]);
        v.push(bytes[1]);
        v.push(bytes[2]);
        v.push(bytes[3]);
        proof {
            assert(v@ =~= self@);
            lemma_ascii_decode(v@);
        }
        match utf8_to_string(v.as_slice()) {
            Some(s) => s,
            None => {
                proof {
                    assert(false);
                }
                String::new()
            },
        }
    }
}

} // verus!
