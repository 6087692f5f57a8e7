//! The PNG document model: the fixed 8-byte signature followed by an
//! ordered sequence of chunks.
//!
//! [`spec_parse_png`] is the mathematical meaning of parsing a whole
//! buffer; [`Png::parse`] is proved to agree with it and to reproduce its
//! input when the parsed document is serialized again. Lookup and removal
//! go by the text a chunk's type code renders to, first occurrence first.

use vstd::prelude::*;
use vstd::slice::slice_subrange;

use crate::chunk::Chunk;
use crate::chunk::ChunkModel;
use crate::chunk::lemma_parse_chunk_wire;
use crate::chunk::spec_parse_chunk;
use crate::error::PngError;
use crate::text::is_ascii_letter;
use crate::text::is_letter;
use crate::text::lemma_type_code_matches;
use crate::text::render_bytes;
use crate::wire::spec_u32_from_be_bytes;
use crate::wire::u32_from_be_bytes;

verus! {

/// The fixed 8-byte signature every document begins with.
pub open spec fn spec_signature() -> Seq<u8> {
    seq![0x89u8, 0x50u8, 0x4eu8, 0x47u8, 0x0du8, 0x0au8, 0x1au8, 0x0au8]
}

/// The models of a sequence of chunks.
pub open spec fn chunk_models(cs: Seq<Chunk>) -> Seq<ChunkModel> {
    cs.map_values(|c: Chunk| c@)
}

/// The serialization of a chunk sequence, record after record.
pub open spec fn spec_chunks_wire(cs: Seq<ChunkModel>) -> Seq<u8>
    decreases cs.len(),
{
    if cs.len() == 0 {
        Seq::empty()
    } else {
        spec_chunks_wire(cs.drop_last()) + cs.last().wire()
    }
}

/// The serialization of a whole document: signature, then every chunk.
pub open spec fn spec_png_wire(cs: Seq<ChunkModel>) -> Seq<u8> {
    spec_signature() + spec_chunks_wire(cs)
}

/// What parsing a run of chunk records means: records are read one after
/// the other until the bytes are exhausted, and the first error aborts
/// the whole parse.
pub open spec fn spec_parse_chunks(b: Seq<u8>) -> Result<Seq<ChunkModel>, PngError>
    decreases b.len(),
{
    if b.len() == 0 {
        Ok(Seq::empty())
    } else if b.len() < 12 {
        Err(PngError::TruncatedChunk)
    } else {
        let l = spec_u32_from_be_bytes(b.subrange(0, 4)) as int;
        if l > 0x8000_0000 {
            Err(PngError::OversizedChunk)
        } else if !(forall|i: int| 4 <= i < 8 ==> is_ascii_letter(#[trigger] b[i])) {
            Err(PngError::InvalidTypeCode)
        } else if b.len() < 12 + l {
            Err(PngError::TruncatedChunk)
        } else {
            match spec_parse_chunk(b.take(12 + l)) {
                Ok(m) => match spec_parse_chunks(b.skip(12 + l)) {
                    Ok(rest) => Ok(seq![m] + rest),
                    Err(e) => Err(e),
                },
                Err(e) => Err(e),
            }
        }
    }
}

/// What parsing a whole buffer means: the signature first, then the
/// chunk records.
pub open spec fn spec_parse_png(b: Seq<u8>) -> Result<Seq<ChunkModel>, PngError> {
    if b.len() < 8 || b.subrange(0, 8) != spec_signature() {
        Err(PngError::BadSignature)
    } else {
        spec_parse_chunks(b.skip(8))
    }
}

/// The chunks already parsed, followed by whatever the remaining bytes
/// yield: the shape of the parser's intermediate state.
pub open spec fn spec_parse_rest(done: Seq<ChunkModel>, b: Seq<u8>) -> Result<
    Seq<ChunkModel>,
    PngError,
> {
    match spec_parse_chunks(b) {
        Ok(cs) => Ok(done + cs),
        Err(e) => Err(e),
    }
}

/// The chunk's type renders to the text `s`.
pub open spec fn chunk_matches(m: ChunkModel, s: Seq<char>) -> bool {
    render_bytes(m.type_bytes) == s
}

/// Position `i` holds the first chunk whose type renders to `s`.
pub open spec fn first_match_at(cs: Seq<ChunkModel>, s: Seq<char>, i: int) -> bool {
    &&& 0 <= i < cs.len()
    &&& chunk_matches(cs[i], s)
    &&& forall|j: int| 0 <= j < i ==> !chunk_matches(#[trigger] cs[j], s)
}

/// Some chunk's type renders to `s`.
pub open spec fn has_match(cs: Seq<ChunkModel>, s: Seq<char>) -> bool {
    exists|i: int| 0 <= i < cs.len() && chunk_matches(#[trigger] cs[i], s)
}

/// Serializing one more chunk extends the wire bytes by that chunk's
/// record.
pub proof fn lemma_chunks_wire_push(cs: Seq<ChunkModel>, m: ChunkModel)
    ensures
        spec_chunks_wire(cs.push(m)) == spec_chunks_wire(cs) + m.wire(),
{
    assert(cs.push(m).drop_last() =~= cs);
    assert(cs.push(m).last() == m);
}

/// Serialization distributes over putting one chunk in front.
pub proof fn lemma_chunks_wire_cons(m: ChunkModel, rest: Seq<ChunkModel>)
    ensures
        spec_chunks_wire(seq![m] + rest) == m.wire() + spec_chunks_wire(rest),
    decreases rest.len(),
{
    if rest.len() == 0 {
        let s = seq![m] + rest;
        assert(s.drop_last() =~= Seq::<ChunkModel>::empty());
        assert(s.last() == m);
        assert(spec_chunks_wire(Seq::<ChunkModel>::empty()) == Seq::<u8>::empty());
        assert(rest =~= Seq::<ChunkModel>::empty());
        assert(spec_chunks_wire(s) == spec_chunks_wire(s.drop_last()) + s.last().wire());
        assert(Seq::<u8>::empty() + m.wire() =~= m.wire());
        assert(m.wire() + Seq::<u8>::empty() =~= m.wire());
    } else {
        let s = seq![m] + rest;
        assert(s.drop_last() =~= seq![m] + rest.drop_last());
        assert(s.last() == rest.last());
        lemma_chunks_wire_cons(m, rest.drop_last());
        assert((m.wire() + spec_chunks_wire(rest.drop_last())) + rest.last().wire() =~= m.wire()
            + (spec_chunks_wire(rest.drop_last()) + rest.last().wire()));
    }
}

/// One step of the document parser, first half: consuming one record
/// extends the serialized prefix by exactly that record.
proof fn lemma_parse_step_wire(b: Seq<u8>, off: int, done: Seq<ChunkModel>, m: ChunkModel, l: int)
    requires
        8 <= off,
        0 <= l,
        off + 12 + l <= b.len(),
        spec_chunks_wire(done) == b.subrange(8, off),
        m.wire() == b.skip(off).take(12 + l),
    ensures
        spec_chunks_wire(done.push(m)) == b.subrange(8, off + 12 + l),
{
    lemma_chunks_wire_push(done, m);
    assert(b.subrange(8, off + 12 + l) =~= b.subrange(8, off) + b.skip(off).take(12 + l));
}

/// One step of the document parser, second half: after one record is
/// consumed, the remaining bytes stand for the same parse result.
proof fn lemma_parse_step_rest(b: Seq<u8>, off: int, done: Seq<ChunkModel>, m: ChunkModel, l: int)
    requires
        8 <= off,
        0 <= l,
        off + 12 + l <= b.len(),
        spec_parse_chunks(b.skip(8)) == spec_parse_rest(done, b.skip(off)),
        l == spec_u32_from_be_bytes(b.skip(off).subrange(0, 4)) as int,
        l <= 0x8000_0000,
        forall|i: int| 4 <= i < 8 ==> is_ascii_letter(#[trigger] b.skip(off)[i]),
        spec_parse_chunk(b.skip(off).take(12 + l)) == Ok::<ChunkModel, PngError>(m),
    ensures
        spec_parse_chunks(b.skip(8)) == spec_parse_rest(done.push(m), b.skip(off + 12 + l)),
{
    let tail = b.skip(off);
    assert(tail.len() == b.len() - off);
    assert(tail.skip(12 + l) =~= b.skip(off + 12 + l));
    let next = spec_parse_chunks(tail.skip(12 + l));
    if next is Ok {
        let rest = next->Ok_0;
        assert(spec_parse_chunks(tail) == Ok::<Seq<ChunkModel>, PngError>(seq![m] + rest));
        assert(done + (seq![m] + rest) =~= done.push(m) + rest);
        assert(spec_parse_rest(done, tail) == Ok::<Seq<ChunkModel>, PngError>(done.push(m)
            + rest));
        assert(spec_parse_rest(done.push(m), b.skip(off + 12 + l)) == Ok::<
            Seq<ChunkModel>,
            PngError,
        >(done.push(m) + rest));
    } else {
        assert(spec_parse_chunks(tail) == next);
        assert(spec_parse_rest(done, tail) == next);
        assert(spec_parse_rest(done.push(m), b.skip(off + 12 + l)) == next);
    }
}

/// A run of records that parses serializes back to exactly the bytes it
/// was parsed from.
#[verifier::rlimit(100)]
pub proof fn lemma_parse_chunks_wire(b: Seq<u8>)
    ensures
        spec_parse_chunks(b) matches Ok(cs) ==> spec_chunks_wire(cs) == b,
    decreases b.len(),
{
    if spec_parse_chunks(b) is Ok {
        let cs = spec_parse_chunks(b)->Ok_0;
        if b.len() == 0 {
            assert(spec_chunks_wire(cs) =~= b);
        } else {
            let l = spec_u32_from_be_bytes(b.subrange(0, 4)) as int;
            let m = spec_parse_chunk(b.take(12 + l))->Ok_0;
            let rest = spec_parse_chunks(b.skip(12 + l))->Ok_0;
            assert(cs == seq![m] + rest);
            assert(m.wire() == b.take(12 + l)) by {
                lemma_parse_chunk_wire(b.take(12 + l));
            }
            assert(spec_chunks_wire(rest) == b.skip(12 + l)) by {
                lemma_parse_chunks_wire(b.skip(12 + l));
            }
            assert(spec_chunks_wire(cs) == m.wire() + spec_chunks_wire(rest)) by {
                lemma_chunks_wire_cons(m, rest);
            }
            assert(b.take(12 + l) + b.skip(12 + l) =~= b);
        }
    }
}

/// Document round-trip law: a buffer that parses as a document is
/// reproduced bit for bit by serializing the parsed chunks again.
pub proof fn lemma_document_round_trip(b: Seq<u8>)
    ensures
        spec_parse_png(b) matches Ok(cs) ==> spec_png_wire(cs) == b,
{
    if spec_parse_png(b) is Ok {
        let cs = spec_parse_png(b)->Ok_0;
        lemma_parse_chunks_wire(b.skip(8));
        assert(spec_chunks_wire(cs) == b.skip(8));
        assert(spec_signature() + b.skip(8) =~= b);
    }
}

/// There is at most one first match.
pub proof fn lemma_first_match_unique(cs: Seq<ChunkModel>, s: Seq<char>, i: int, j: int)
    requires
        first_match_at(cs, s, i),
        first_match_at(cs, s, j),
    ensures
        i == j,
{
}

/// Append/remove inverse law: after appending a chunk whose type is not
/// yet present, removing by that type finds exactly the appended chunk,
/// and removing it restores the previous chunk sequence.
pub proof fn lemma_append_remove_inverse(cs: Seq<ChunkModel>, m: ChunkModel, s: Seq<char>)
    requires
        chunk_matches(m, s),
        !has_match(cs, s),
    ensures
        first_match_at(cs.push(m), s, cs.len() as int),
        cs.push(m)[cs.len() as int] == m,
        cs.push(m).remove(cs.len() as int) == cs,
        forall|i: int| first_match_at(cs.push(m), s, i) ==> i == cs.len() as int,
{
    assert(forall|j: int| 0 <= j < cs.len() ==> !chunk_matches(#[trigger] cs.push(m)[j], s)) by {
        assert(forall|j: int| 0 <= j < cs.len() ==> cs.push(m)[j] == cs[j]);
    }
    assert(cs.push(m).remove(cs.len() as int) =~= cs);
    assert(forall|i: int| first_match_at(cs.push(m), s, i) ==> i == cs.len() as int) by {
        assert(forall|j: int| 0 <= j < cs.len() ==> cs.push(m)[j] == cs[j]);
    }
}

/// A PNG document: the signature is implicit, the chunks are ordered,
/// and serialization order is the order encoded or appended.
#[derive(Debug)]
pub struct Png {
    /// The chunks, in document order.
    pub chunks: Vec<Chunk>,
}

impl View for Png {
    type V = Seq<ChunkModel>;

    open spec fn view(&self) -> Seq<ChunkModel> {
        chunk_models(self.chunks@)
    }
}

impl Png {
    /// Every chunk of the document is well-formed.
    pub open spec fn wf(&self) -> bool {
        forall|i: int| 0 <= i < self@.len() ==> (#[trigger] self@[i]).wf()
    }

    /// Every chunk's type code holds 4 ASCII letters: what type-based
    /// lookup relies on.
    pub open spec fn types_wf(&self) -> bool {
        forall|i: int| 0 <= i < self@.len() ==> (#[trigger] self@[i]).type_wf()
    }

    /// Parse a whole byte buffer: the signature, then chunk records
    /// until the buffer is exhausted.
    ///
    /// Agrees with [`spec_parse_png`] on every input, and a parsed
    /// document serializes back to exactly the bytes it was parsed from.
    #[verifier::rlimit(100)]
    pub fn parse(bytes: &[u8]) -> (r: Result<Png, PngError>)
        ensures
            r matches Ok(doc) ==> spec_parse_png(bytes@) == Ok::<Seq<ChunkModel>, PngError>(doc@)
                && doc.wf() && spec_png_wire(doc@) == bytes@,
            r matches Err(e) ==> spec_parse_png(bytes@) == Err::<Seq<ChunkModel>, PngError>(e),
    {
        let n = bytes.len();
        if n < 8 {
            return Err(PngError::BadSignature);
        }
        if !(bytes[0] == 0x89 && bytes[1] == 0x50 && bytes[2] == 0x4e && bytes[3] == 0x47
            && bytes[4] == 0x0d && bytes[5] == 0x0a && bytes[6] == 0x1a && bytes[7] == 0x0a) {
            proof {
                if bytes@.subrange(0, 8) == spec_signature() {
                    assert(forall|i: int|
                        0 <= i < 8 ==> #[trigger] bytes@[i] == bytes@.subrange(0, 8)[i]);
                    assert(false);
                }
            }
            return Err(PngError::BadSignature);
        }
        proof {
            assert(bytes@.subrange(0, 8) =~= spec_signature());
        }
        let mut chunks: Vec<Chunk> = Vec::new();
        let mut off: usize = 8;
        proof {
            assert(spec_chunks_wire(chunk_models(chunks@)) =~= bytes@.subrange(8, 8));
            if spec_parse_chunks(bytes@.skip(8)) is Ok {
                let cs = spec_parse_chunks(bytes@.skip(8))->Ok_0;
                assert(chunk_models(chunks@) + cs =~= cs);
            }
        }
        while off < n
            invariant
                8 <= off <= n,
                n == bytes@.len(),
                bytes@.subrange(0, 8) == spec_signature(),
                spec_chunks_wire(chunk_models(chunks@)) == bytes@.subrange(8, off as int),
                forall|i: int| 0 <= i < chunks@.len() ==> (#[trigger] chunks@[i])@.wf(),
                spec_parse_chunks(bytes@.skip(8)) == spec_parse_rest(
                    chunk_models(chunks@),
                    bytes@.skip(off as int),
                ),
            decreases n - off,
        {
            let ghost done = chunk_models(chunks@);
            let ghost tail = bytes@.skip(off as int);
            proof {
                assert(tail.len() == n - off);
            }
            let rem = n - off;
            if rem < 12 {
                return Err(PngError::TruncatedChunk);
            }
            let l = u32_from_be_bytes(bytes[off], bytes[off + 1], bytes[off + 2], bytes[off + 3]);
            proof {
                assert(seq![
                    bytes@[off as int],
                    bytes@[off as int + 1],
                    bytes@[off as int + 2],
                    bytes@[off as int + 3],
                ] =~= tail.subrange(0, 4));
            }
            if l > 0x8000_0000 {
                return Err(PngError::OversizedChunk);
            }
            let letters = is_letter(bytes[off + 4]) && is_letter(bytes[off + 5]) && is_letter(
                bytes[off + 6],
            ) && is_letter(bytes[off + 7]);
            proof {
                assert(forall|i: int| 4 <= i < 8 ==> #[trigger] tail[i] == bytes@[off as int + i]);
            }
            if !letters {
                proof {
                    if forall|i: int| 4 <= i < 8 ==> is_ascii_letter(#[trigger] tail[i]) {
                        assert(is_ascii_letter(tail[4]) && is_ascii_letter(tail[5])
                            && is_ascii_letter(tail[6]) && is_ascii_letter(tail[7]));
                        assert(false);
                    }
                }
                return Err(PngError::InvalidTypeCode);
            }
            proof {
                assert(forall|i: int| 4 <= i < 8 ==> is_ascii_letter(#[trigger] tail[i]));
            }
            if (rem as u64) < 12u64 + (l as u64) {
                return Err(PngError::TruncatedChunk);
            }
            let rec_end: usize = off + 12 + (l as usize);
            let record = slice_subrange(bytes, off, rec_end);
            proof {
                assert(record@ =~= tail.take(12 + l as int));
            }
            let c = match Chunk::parse(record) {
                Ok(c) => c,
                Err(e) => {
                    return Err(e);
                },
            };
            proof {
                lemma_parse_chunk_wire(record@);
                lemma_parse_step_wire(bytes@, off as int, done, c@, l as int);
                lemma_parse_step_rest(bytes@, off as int, done, c@, l as int);
                assert(chunk_models(chunks@.push(c)) =~= done.push(c@));
            }
            chunks.push(c);
            off = rec_end;
        }
        proof {
            assert(bytes@.skip(off as int).len() == 0);
            let done = chunk_models(chunks@);
            assert(spec_parse_chunks(bytes@.skip(off as int)) == Ok::<Seq<ChunkModel>, PngError>(
                Seq::empty(),
            ));
            assert(done + Seq::<ChunkModel>::empty() =~= done);
            assert(spec_png_wire(done) =~= bytes@) by {
                assert(bytes@.subrange(8, n as int) =~= bytes@.skip(8));
            }
        }
        Ok(Png { chunks })
    }

    /// The chunks, in document order.
    pub fn chunks(&self) -> (r: &[Chunk])
        ensures
            r@ == self.chunks@,
            chunk_models(r@) == self@,
    {
        self.chunks.as_slice()
    }

    /// Append a chunk at the end of the document.
    pub fn append_chunk(&mut self, chunk: Chunk)
        ensures
            final(self)@ == old(self)@.push(chunk@),
            old(self).wf() && chunk@.wf() ==> final(self).wf(),
            old(self).types_wf() && chunk@.type_wf() ==> final(self).types_wf(),
    {
        self.chunks.push(chunk);
        proof {
            assert(chunk_models(self.chunks@) =~= chunk_models(old(self).chunks@).push(chunk@));
        }
    }

    /// The first chunk whose type renders to `code`, if any; absence is
    /// not an error.
    pub fn chunk_by_type(&self, code: &str) -> (r: Option<&Chunk>)
        requires
            self.types_wf(),
        ensures
            r matches Some(c) ==> (exists|i: int|
                first_match_at(self@, code@, i) && c@ == self@[i]),
            r is None ==> !has_match(self@, code@),
    {
        match self.find_index(code) {
            Some(k) => Some(&self.chunks[k]),
            None => None,
        }
    }

    /// Remove and return the first chunk whose type renders to `code`;
    /// fail when no chunk has that type.
    pub fn remove_chunk_by_type(&mut self, code: &str) -> (r: Result<Chunk, PngError>)
        requires
            old(self).types_wf(),
        ensures
            r matches Ok(c) ==> (exists|i: int|
                first_match_at(old(self)@, code@, i) && c@ == old(self)@[i] && final(self)@ == old(
                    self,
                )@.remove(i)),
            r matches Err(e) ==> e == PngError::ChunkNotFound && !has_match(old(self)@, code@)
                && final(self)@ == old(self)@,
            r is Ok <==> has_match(old(self)@, code@),
            old(self).wf() && r is Ok ==> final(self).wf(),
            old(self).types_wf() && r is Ok ==> final(self).types_wf(),
    {
        match self.find_index(code) {
            Some(k) => {
                let ghost i = k as int;
                let c = self.chunks.remove(k);
                proof {
                    assert(chunk_models(self.chunks@) =~= chunk_models(old(self).chunks@).remove(
                        i,
                    ));
                }
                Ok(c)
            },
            None => Err(PngError::ChunkNotFound),
        }
    }

    /// Serialize the document: the signature, then every chunk's record
    /// in order.
    pub fn to_bytes(&self) -> (r: Vec<u8>)
        ensures
            r@ == spec_png_wire(self@),
    {
        let mut out: Vec<u8> = Vec::new();
        out.push(0x89);
        out.push(0x50);
        out.push(0x4e);
        out.push(0x47);
        out.push(0x0d);
        out.push(0x0a);
        out.push(0x1a);
        out.push(0x0a);
        proof {
            assert(out@ =~= spec_signature());
            assert(self@.take(0) =~= Seq::<ChunkModel>::empty());
            assert(out@ + Seq::<u8>::empty() =~= out@);
        }
        let mut k: usize = 0;
        while k < self.chunks.len()
            invariant
                0 <= k <= self.chunks@.len(),
                out@ == spec_signature() + spec_chunks_wire(self@.take(k as int)),
            decreases self.chunks@.len() - k,
        {
            let cb = self.chunks[k].as_bytes();
            out.extend_from_slice(cb.as_slice());
            proof {
                lemma_chunks_wire_push(self@.take(k as int), self@[k as int]);
                assert(self@.take(k as int + 1) =~= self@.take(k as int).push(self@[k as int]));
                assert(out@ =~= spec_signature() + spec_chunks_wire(self@.take(k as int + 1)));
            }
            k += 1;
        }
        proof {
            assert(self@.take(self@.len() as int) =~= self@);
        }
        out
    }

    /// The index of the first chunk whose type renders to `code`.
    fn find_index(&self, code: &str) -> (r: Option<usize>)
        requires
            self.types_wf(),
        ensures
            r matches Some(k) ==> first_match_at(self@, code@, k as int),
            r is None ==> !has_match(self@, code@),
    {
        broadcast use vstd::utf8::is_ascii_chars_encode_utf8;

        let bs = code.as_bytes();
        if bs.len() != 4 {
            proof {
                if has_match(self@, code@) {
                    let i = choose|i: int|
                        0 <= i < self@.len() && chunk_matches(#[trigger] self@[i], code@);
                    lemma_type_code_matches(self@[i].type_bytes, code@);
                    assert(vstd::utf8::encode_utf8(code@) == self@[i].type_bytes);
                    assert(false);
                }
            }
            return None;
        }
        let mut k: usize = 0;
        while k < self.chunks.len()
            invariant
                self.types_wf(),
                0 <= k <= self@.len(),
                bs@ == vstd::utf8::encode_utf8(code@),
                bs@.len() == 4,
                forall|j: int| 0 <= j < k ==> !chunk_matches(#[trigger] self@[j], code@),
            decreases self@.len() - k,
        {
            let tb = self.chunks[k].chunk_type.bytes();
            proof {
                assert(self@[k as int].type_bytes == tb@);
                lemma_type_code_matches(tb@, code@);
            }
            if tb[0] == bs[0] && tb[1] == bs[1] && tb[2] == bs[2] && tb[3] == bs[3] {
                proof {
                    assert(tb@ =~= bs@);
                    assert(chunk_matches(self@[k as int], code@));
                }
                return Some(k);
            }
            proof {
                if chunk_matches(self@[k as int], code@) {
                    assert(vstd::utf8::encode_utf8(code@) == tb@);
                    assert(forall|i: int| 0 <= i < 4 ==> #[trigger] tb@[i] == bs@[i]);
                    assert(false);
                }
            }
            k += 1;
        }
        None
    }
}

} // verus!
