//! One chunk record: a type code, a data payload, and the CRC-32 checksum
//! that guards both.
//!
//! The wire layout of a record is `length (4, big-endian) ++ type (4) ++
//! data (length) ++ crc (4, big-endian)`, where `crc` is the
//! CRC-32/ISO-HDLC checksum of `type ++ data`. [`spec_parse_chunk`] is
//! the mathematical meaning of parsing one complete record; [`Chunk::parse`]
//! is proved to agree with it, and [`lemma_chunk_round_trip`] shows the
//! two directions of the format invert each other.

use vstd::prelude::*;
use vstd::slice::slice_subrange;
use vstd::slice::slice_to_vec;
use vstd::utf8::decode_utf8;
use vstd::utf8::valid_utf8;

use crate::checksum::crc32_iso_hdlc;
use crate::checksum::crc32_of;
use crate::chunk_type::ChunkType;
use crate::error::PngError;
use crate::text::is_ascii_letter;
use crate::text::utf8_to_string;
use crate::wire::lemma_u32_be_bytes_injective;
use crate::wire::lemma_u32_from_to_be_bytes;
use crate::wire::spec_u32_from_be_bytes;
use crate::wire::spec_u32_to_be_bytes;
use crate::wire::u32_from_be_bytes;
use crate::wire::u32_to_be_bytes;

verus! {

/// The mathematical content of one chunk record: what the executable
/// [`Chunk`] stands for.
#[verifier::ext_equal]
pub struct ChunkModel {
    /// The byte count of `data`, as recorded in the length field.
    pub length: u32,
    /// The 4 type bytes.
    pub type_bytes: Seq<u8>,
    /// The payload.
    pub data: Seq<u8>,
    /// The recorded CRC-32/ISO-HDLC checksum.
    pub crc: u32,
}

impl ChunkModel {
    /// The type code holds exactly 4 ASCII letters.
    pub open spec fn type_wf(&self) -> bool {
        &&& self.type_bytes.len() == 4
        &&& (forall|i: int| 0 <= i < 4 ==> is_ascii_letter(#[trigger] self.type_bytes[i]))
    }

    /// The record invariant: 4 letter type bytes, a length field that
    /// counts the data, a length under the wire ceiling, and a checksum
    /// that is the one computed over type and data.
    pub open spec fn wf(&self) -> bool {
        &&& self.type_wf()
        &&& self.length == self.data.len()
        &&& self.data.len() <= 0x8000_0000
        &&& self.crc == crc32_of(self.type_bytes + self.data)
    }

    /// The wire layout of the record.
    pub open spec fn wire(&self) -> Seq<u8> {
        spec_u32_to_be_bytes(self.length) + self.type_bytes + self.data + spec_u32_to_be_bytes(
            self.crc,
        )
    }
}

/// What parsing one complete chunk record means. The slice must hold
/// exactly one record; leftover or missing bytes are a truncation.
pub open spec fn spec_parse_chunk(b: Seq<u8>) -> Result<ChunkModel, PngError> {
    if b.len() < 12 {
        Err(PngError::TruncatedChunk)
    } else {
        let l = spec_u32_from_be_bytes(b.subrange(0, 4)) as int;
        if l > 0x8000_0000 {
            Err(PngError::OversizedChunk)
        } else if !(forall|i: int| 4 <= i < 8 ==> is_ascii_letter(#[trigger] b[i])) {
            Err(PngError::InvalidTypeCode)
        } else if b.len() != 12 + l {
            Err(PngError::TruncatedChunk)
        } else if crc32_of(b.subrange(4, 8 + l)) != spec_u32_from_be_bytes(
            b.subrange(8 + l, 12 + l),
        ) {
            Err(PngError::CrcMismatch)
        } else {
            Ok(
                ChunkModel {
                    length: l as u32,
                    type_bytes: b.subrange(4, 8),
                    data: b.subrange(8, 8 + l),
                    crc: crc32_of(b.subrange(4, 8 + l)),
                },
            )
        }
    }
}

/// A chunk: a validated type code, a payload, and the checksum over both.
///
/// The checksum is computed on construction and re-verified, never
/// trusted, when a record is parsed from raw bytes.
#[derive(Debug)]
pub struct Chunk {
    /// Byte count of `data`.
    pub length: u32,
    /// The 4-byte type code.
    pub chunk_type: ChunkType,
    /// CRC-32/ISO-HDLC over type bytes followed by data.
    pub crc: u32,
    /// The payload.
    pub data: Vec<u8>,
}

impl View for Chunk {
    type V = ChunkModel;

    open spec fn view(&self) -> ChunkModel {
        ChunkModel {
            length: self.length,
            type_bytes: self.chunk_type@,
            data: self.data@,
            crc: self.crc,
        }
    }
}

impl Chunk {
    /// Build a chunk from a type code and a payload, computing the
    /// checksum. Total: no failure mode.
    pub fn new(chunk_type: ChunkType, data: Vec<u8>) -> (r: Chunk)
        requires
            data@.len() < 0x8000_0000,
        ensures
            r@ == (ChunkModel {
                length: data@.len() as u32,
                type_bytes: chunk_type@,
                data: data@,
                crc: crc32_of(chunk_type@ + data@),
            }),
            chunk_type.wf() ==> r@.wf(),
    {
        let tb = chunk_type.bytes();
        let mut buf: Vec<u8> = Vec::new();
        buf.push(tb[0]);
        buf.push(tb[1]);
        buf.push(tb[2]);
        buf.push(tb[3]);
        buf.extend_from_slice(data.as_slice());
        proof {
            assert(buf@ =~= chunk_type@ + data@);
        }
        let crc = crc32_iso_hdlc(buf.as_slice());
        let length = data.len() as u32;
        let r = Chunk { length, chunk_type, crc, data };
        proof {
            assert(r@ =~= (ChunkModel {
                length: r.length,
                type_bytes: chunk_type@,
                data: r.data@,
                crc: crc32_of(chunk_type@ + r.data@),
            }));
        }
        r
    }

    /// Byte count of the payload.
    pub fn length(&self) -> (r: u32)
        ensures
            r == self@.length,
    {
        self.length
    }

    /// The type code.
    pub fn chunk_type(&self) -> (r: &ChunkType)
        ensures
            *r == self.chunk_type,
    {
        &self.chunk_type
    }

    /// The payload bytes.
    pub fn data(&self) -> (r: &[u8])
        ensures
            r@ == self@.data,
    {
        self.data.as_slice()
    }

    /// The recorded checksum.
    pub fn crc(&self) -> (r: u32)
        ensures
            r == self@.crc,
    {
        self.crc
    }

    /// The payload decoded as UTF-8 text; fails when it is not text.
    pub fn data_as_string(&self) -> (r: Result<String, PngError>)
        ensures
            r is Ok <==> valid_utf8(self@.data),
            r matches Ok(s) ==> s@ == decode_utf8(self@.data),
            r is Err ==> r == Err::<String, PngError>(PngError::NotUtf8),
    {
        match utf8_to_string(self.data.as_slice()) {
            Some(s) => Ok(s),
            None => Err(PngError::NotUtf8),
        }
    }

    /// Serialize to the wire layout.
    pub fn as_bytes(&self) -> (r: Vec<u8>)
        ensures
            r@ == self@.wire(),
    {
        let mut out: Vec<u8> = Vec::new();
        let lb = u32_to_be_bytes(self.length);
        out.push(lb[0]);
        out.push(lb[1]);
        out.push(lb[2]);
        out.push(lb[3]);
        let tb = self.chunk_type.bytes();
        out.push(tb[0]);
        out.push(tb[1]);
        out.push(tb[2]);
        out.push(tb[3]);
        out.extend_from_slice(self.data.as_slice());
        let cb = u32_to_be_bytes(self.crc);
        out.push(cb[0]);
        out.push(cb[1]);
        out.push(cb[2]);
        out.push(cb[3]);
        proof {
            assert(out@ =~= self@.wire());
        }
        out
    }

    /// Parse one complete chunk record, re-verifying the checksum.
    ///
    /// Agrees with [`spec_parse_chunk`] on every input: each error comes
    /// exactly where the spec places it, and a parsed chunk is
    /// well-formed.
    pub fn parse(bytes: &[u8]) -> (r: Result<Chunk, PngError>)
        ensures
            r matches Ok(c) ==> spec_parse_chunk(bytes@) == Ok::<ChunkModel, PngError>(c@)
                && c@.wf(),
            r matches Err(e) ==> spec_parse_chunk(bytes@) == Err::<ChunkModel, PngError>(e),
    {
        let n = bytes.len();
        if n < 12 {
            return Err(PngError::TruncatedChunk);
        }
        let l = u32_from_be_bytes(bytes[0], bytes[1], bytes[2], bytes[3]);
        proof {
            assert(seq![bytes@[0], bytes@[1], bytes@[2], bytes@[3]] =~= bytes@.subrange(0, 4));
        }
        if l > 0x8000_0000 {
            return Err(PngError::OversizedChunk);
        }
        let t = match ChunkType::from_bytes([bytes[4], bytes[5], bytes[6], bytes[7]]) {
            Ok(t) => t,
            Err(_) => {
                proof {
                    assert(seq![bytes@[4], bytes@[5], bytes@[6], bytes@[7]] =~= bytes@.subrange(
                        4,
                        8,
                    ));
                }
                return Err(PngError::InvalidTypeCode);
            },
        };
        proof {
            assert(seq![bytes@[4], bytes@[5], bytes@[6], bytes@[7]] =~= bytes@.subrange(4, 8));
        }
        if (n as u64) != 12u64 + (l as u64) {
            return Err(PngError::TruncatedChunk);
        }
        let data_end: usize = 8 + l as usize;
        let td = slice_subrange(bytes, 4, data_end);
        let crc = crc32_iso_hdlc(td);
        let stored = u32_from_be_bytes(
            bytes[data_end],
            bytes[data_end + 1],
            bytes[data_end + 2],
            bytes[data_end + 3],
        );
        proof {
            assert(seq![
                bytes@[data_end as int],
                bytes@[data_end as int + 1],
                bytes@[data_end as int + 2],
                bytes@[data_end as int + 3],
            ] =~= bytes@.subrange(8 + l as int, 12 + l as int));
        }
        if crc != stored {
            return Err(PngError::CrcMismatch);
        }
        let data = slice_to_vec(slice_subrange(bytes, 8, data_end));
        let c = Chunk { length: l, chunk_type: t, crc, data };
        proof {
            assert(bytes@.len() == 12 + l as int);
            assert(forall|i: int| 4 <= i < 8 ==> is_ascii_letter(#[trigger] bytes@[i])) by {
                assert(forall|i: int|
                    4 <= i < 8 ==> #[trigger] bytes@[i] == bytes@.subrange(4, 8)[i - 4]);
                assert(forall|i: int| 0 <= i < 4 ==> is_ascii_letter(#[trigger] t@[i]));
            }
            assert(crc32_of(bytes@.subrange(4, 8 + l as int)) == spec_u32_from_be_bytes(
                bytes@.subrange(8 + l as int, 12 + l as int),
            ));
            assert(spec_parse_chunk(bytes@) is Ok);
            assert(c@ =~= spec_parse_chunk(bytes@)->Ok_0);
            assert(c@.wf()) by {
                assert(t@ + c.data@ =~= bytes@.subrange(4, 8 + l as int));
            }
        }
        Ok(c)
    }
}

/// Round-trip law: for any 4-letter type code `t` and any payload `d`
/// under the wire ceiling, the record a chunk built from `t` and `d`
/// serializes to parses back to that same chunk.
pub proof fn lemma_chunk_round_trip(t: Seq<u8>, d: Seq<u8>)
    requires
        t.len() == 4,
        forall|i: int| 0 <= i < 4 ==> is_ascii_letter(#[trigger] t[i]),
        d.len() < 0x8000_0000,
    ensures
        ({
            let m = ChunkModel {
                length: d.len() as u32,
                type_bytes: t,
                data: d,
                crc: crc32_of(t + d),
            };
            spec_parse_chunk(m.wire()) == Ok::<ChunkModel, PngError>(m)
        }),
{
    let m = ChunkModel { length: d.len() as u32, type_bytes: t, data: d, crc: crc32_of(t + d) };
    let w = m.wire();
    assert(w.len() == 12 + d.len());
    assert(w.subrange(0, 4) =~= spec_u32_to_be_bytes(m.length));
    lemma_u32_from_to_be_bytes(m.length);
    let l = spec_u32_from_be_bytes(w.subrange(0, 4)) as int;
    assert(l == d.len());
    assert(forall|i: int| 4 <= i < 8 ==> is_ascii_letter(#[trigger] w[i])) by {
        assert(forall|i: int| 4 <= i < 8 ==> #[trigger] w[i] == t[i - 4]);
    }
    assert(w.subrange(4, 8 + l) =~= t + d);
    assert(w.subrange(8 + l, 12 + l) =~= spec_u32_to_be_bytes(m.crc));
    lemma_u32_from_to_be_bytes(m.crc);
    assert(spec_parse_chunk(w) is Ok);
    assert(spec_parse_chunk(w)->Ok_0 =~= m) by {
        assert(w.subrange(4, 8) =~= t);
        assert(w.subrange(8, 8 + l) =~= d);
    }
}

/// A record that parses serializes back to exactly its input bytes.
pub proof fn lemma_parse_chunk_wire(b: Seq<u8>)
    ensures
        spec_parse_chunk(b) matches Ok(m) ==> m.wire() == b,
{
    if spec_parse_chunk(b) is Ok {
        let m = spec_parse_chunk(b)->Ok_0;
        let l = spec_u32_from_be_bytes(b.subrange(0, 4)) as int;
        crate::wire::lemma_u32_to_from_be_bytes(b.subrange(0, 4));
        assert(spec_u32_to_be_bytes(m.length) == b.subrange(0, 4));
        crate::wire::lemma_u32_to_from_be_bytes(b.subrange(8 + l, 12 + l));
        assert(spec_u32_to_be_bytes(m.crc) == b.subrange(8 + l, 12 + l));
        assert(m.wire() =~= b);
    }
}

/// Corruption of a serialized record is detected: changing any one byte
/// of the type, data or checksum field of a well-formed record makes
/// parsing fail. A type byte that stops being a letter is reported as an
/// invalid type code; every other change is a checksum mismatch, unless
/// the altered type and data happen to checksum to the recorded value —
/// for the checksum field itself no such collision is possible.
pub proof fn lemma_corruption_detected(t: Seq<u8>, d: Seq<u8>, p: int, x: u8)
    requires
        t.len() == 4,
        forall|i: int| 0 <= i < 4 ==> is_ascii_letter(#[trigger] t[i]),
        d.len() < 0x8000_0000,
        4 <= p < 12 + d.len(),
    ensures
        ({
            let m = ChunkModel {
                length: d.len() as u32,
                type_bytes: t,
                data: d,
                crc: crc32_of(t + d),
            };
            let w = m.wire();
            let w2 = w.update(p, x);
            &&& (p < 8 && !is_ascii_letter(x) ==> spec_parse_chunk(w2) == Err::<
                ChunkModel,
                PngError,
            >(PngError::InvalidTypeCode))
            &&& (p < 8 + d.len() && (p < 8 ==> is_ascii_letter(x)) && crc32_of(
                w2.subrange(4, 8 + d.len() as int),
            ) != m.crc ==> spec_parse_chunk(w2) == Err::<ChunkModel, PngError>(
                PngError::CrcMismatch,
            ))
            &&& (8 + d.len() <= p && x != w[p] ==> spec_parse_chunk(w2) == Err::<
                ChunkModel,
                PngError,
            >(PngError::CrcMismatch))
        }),
{
    let m = ChunkModel { length: d.len() as u32, type_bytes: t, data: d, crc: crc32_of(t + d) };
    let w = m.wire();
    let w2 = w.update(p, x);
    assert(w2.len() == 12 + d.len());
    assert(w2.subrange(0, 4) =~= spec_u32_to_be_bytes(m.length));
    lemma_u32_from_to_be_bytes(m.length);
    let l = spec_u32_from_be_bytes(w2.subrange(0, 4)) as int;
    assert(l == d.len());
    if p < 8 && !is_ascii_letter(x) {
        assert(w2[p] == x);
        assert(spec_parse_chunk(w2) == Err::<ChunkModel, PngError>(PngError::InvalidTypeCode));
    }
    if p < 8 + d.len() && (p < 8 ==> is_ascii_letter(x)) {
        assert(forall|i: int| 4 <= i < 8 ==> is_ascii_letter(#[trigger] w2[i])) by {
            assert(forall|i: int| 4 <= i < 8 && i != p ==> #[trigger] w2[i] == t[i - 4]);
        }
        let good = spec_u32_to_be_bytes(m.crc);
        assert(w2.subrange(8 + l, 12 + l) =~= good);
        lemma_u32_from_to_be_bytes(m.crc);
        if crc32_of(w2.subrange(4, 8 + l)) != m.crc {
            assert(spec_parse_chunk(w2) == Err::<ChunkModel, PngError>(PngError::CrcMismatch));
        }
    }
    if 8 + d.len() <= p && x != w[p] {
        assert(forall|i: int| 4 <= i < 8 ==> is_ascii_letter(#[trigger] w2[i])) by {
            assert(forall|i: int| 4 <= i < 8 ==> #[trigger] w2[i] == t[i - 4]);
        }
        assert(w2.subrange(4, 8 + l) =~= t + d);
        let good = spec_u32_to_be_bytes(m.crc);
        let stored = w2.subrange(8 + l, 12 + l);
        assert(w.subrange(8 + l, 12 + l) =~= good);
        assert(stored =~= good.update(p - (8 + l), x));
        assert(stored != good) by {
            assert(w[p] == good[p - (8 + l)]);
            assert(stored[p - (8 + l)] == x);
        }
        lemma_u32_be_bytes_injective(good, stored);
        lemma_u32_from_to_be_bytes(m.crc);
        assert(spec_u32_from_be_bytes(stored) != m.crc);
    }
}

} // verus!
