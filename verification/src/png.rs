//! The whole-file container: a fixed 8-byte signature followed by an
//! ordered sequence of chunk records, with parsing, byte-exact
//! re-serialization, and order-preserving lookup, insertion and removal.

use vstd::prelude::*;

use crate::chunk::Chunk;
use crate::chunk::ChunkModel;
use crate::chunk::ChunkOutcome;
use crate::chunk::chunk_encoding;
use crate::chunk::crc32_of;
use crate::chunk::lemma_chunk_round_trip;
use crate::chunk::spec_decode;
use crate::chunk_type::PngDecodeError;
use crate::chunk_type::text_of;
use crate::codec::be_bytes;
use crate::codec::be_u32;
use crate::codec::lemma_be_bytes_round_trip;
use crate::codec::read_be_u32;
use vstd::slice::slice_subrange;

verus! {

/// The fixed 8-byte signature that opens every container file.
pub open spec fn spec_signature() -> Seq<u8> {
    seq![137u8, 80u8, 78u8, 71u8, 13u8, 10u8, 26u8, 10u8]
}

/// Whether the stream begins with the fixed signature.
pub open spec fn has_signature(bytes: Seq<u8>) -> bool {
    bytes.len() >= 8 && bytes.subrange(0, 8) == spec_signature()
}

/// What decoding all chunk records of a byte stream yields.
#[verifier::ext_equal]
pub enum StreamOutcome {
    /// Every record decoded; the chunks in stream order.
    Complete { chunks: Seq<ChunkModel> },
    /// The stream ended inside a record.
    Truncated,
    /// A record's identifier had the reserved bit set.
    InvalidIdentifier { code: Seq<u8> },
    /// A record's stored checksum disagreed with the recomputed one.
    BadChecksum { received: u32, expected: u32 },
}

/// Decodes chunk records from `pos` to the end of the stream. Each
/// record's extent is fixed by its declared length: 12 framing bytes
/// plus the declared payload length.
pub open spec fn decode_chunks(bytes: Seq<u8>, pos: int) -> StreamOutcome
    decreases bytes.len() - pos,
        when 0 <= pos <= bytes.len()
{
    if pos == bytes.len() {
        StreamOutcome::Complete { chunks: Seq::empty() }
    } else if bytes.len() - pos < 12 {
        StreamOutcome::Truncated
    } else {
        let dlen = be_u32(bytes.subrange(pos, pos + 4)) as int;
        if bytes.len() - pos - 12 < dlen {
            StreamOutcome::Truncated
        } else {
            match spec_decode(bytes.subrange(pos, pos + 12 + dlen)) {
                ChunkOutcome::Accepted { chunk } => match decode_chunks(bytes, pos + 12 + dlen) {
                    StreamOutcome::Complete { chunks } => StreamOutcome::Complete {
                        chunks: seq![chunk] + chunks,
                    },
                    tail => tail,
                },
                ChunkOutcome::InvalidIdentifier { code } => StreamOutcome::InvalidIdentifier {
                    code,
                },
                ChunkOutcome::BadChecksum { received, expected } => StreamOutcome::BadChecksum {
                    received,
                    expected,
                },
            }
        }
    }
}

/// The serialization of a sequence of chunks, in order.
pub open spec fn encode_chunks(chunks: Seq<ChunkModel>) -> Seq<u8>
    decreases chunks.len(),
{
    if chunks.len() == 0 {
        Seq::empty()
    } else {
        chunk_encoding(chunks[0]) + encode_chunks(chunks.drop_first())
    }
}

/// A whole container file: the signature, then every chunk record.
pub open spec fn png_encoding(chunks: Seq<ChunkModel>) -> Seq<u8> {
    spec_signature() + encode_chunks(chunks)
}

/// A chunk that decoding restores byte-exactly: reserved bit clear and
/// checksum bound to identifier and payload.
pub open spec fn decodable(m: ChunkModel) -> bool {
    m.code.len() == 4 && m.code[2] & 0x20 == 0 && m.data.len() <= 0xFFFF_FFFF && m.crc
        == crc32_of(m.code + m.data)
}

/// Whether a chunk's identifier renders as the given text.
pub open spec fn matches_name(m: ChunkModel, text: Seq<char>) -> bool {
    text == text_of(m.code)
}

/// Prefixes already-decoded chunks onto a stream outcome.
spec fn combine(prefix: Seq<ChunkModel>, tail: StreamOutcome) -> StreamOutcome {
    match tail {
        StreamOutcome::Complete { chunks } => StreamOutcome::Complete { chunks: prefix + chunks },
        other => other,
    }
}

/// Serializing one more chunk appends its record bytes.
proof fn lemma_encode_chunks_snoc(chunks: Seq<ChunkModel>, m: ChunkModel)
    ensures
        encode_chunks(chunks.push(m)) == encode_chunks(chunks) + chunk_encoding(m),
    decreases chunks.len(),
{
    if chunks.len() == 0 {
        assert(chunks.push(m)[0] == m);
        assert(chunks.push(m).drop_first() =~= Seq::<ChunkModel>::empty());
        assert(encode_chunks(Seq::<ChunkModel>::empty()) == Seq::<u8>::empty());
        assert(encode_chunks(chunks.push(m)) == chunk_encoding(m) + Seq::<u8>::empty());
        assert(encode_chunks(chunks.push(m)) =~= encode_chunks(chunks) + chunk_encoding(m));
    } else {
        lemma_encode_chunks_snoc(chunks.drop_first(), m);
        assert(chunks.push(m)[0] == chunks[0]);
        assert(chunks.push(m).drop_first() =~= chunks.drop_first().push(m));
        assert(encode_chunks(chunks.push(m)) == chunk_encoding(chunks[0]) + (encode_chunks(
            chunks.drop_first(),
        ) + chunk_encoding(m)));
        assert(encode_chunks(chunks.push(m)) =~= encode_chunks(chunks) + chunk_encoding(m));
    }
}

/// An ordered container of chunks behind the fixed signature.
#[derive(Debug)]
pub struct Png {
    chunks: Vec<Chunk>,
}

impl View for Png {
    type V = Seq<ChunkModel>;

    closed spec fn view(&self) -> Seq<ChunkModel> {
        self.chunks@.map_values(|c: Chunk| c@)
    }
}

impl Png {
    /// An empty container holding no chunks.
    pub fn new() -> (r: Png)
        ensures
            r@ == Seq::<ChunkModel>::empty(),
    {
        let r = Png { chunks: Vec::new() };
        proof {
            assert(r@ =~= Seq::<ChunkModel>::empty());
        }
        r
    }

    /// Appends a chunk at the end of the sequence; always succeeds.
    pub fn append_chunk(&mut self, chunk: Chunk)
        ensures
            final(self)@ == old(self)@.push(chunk@),
    {
        self.chunks.push(chunk);
        proof {
            assert(self@ =~= old(self)@.push(chunk@));
        }
    }

    /// The stored chunks, in order.
    pub fn chunks(&self) -> (r: &Vec<Chunk>)
        ensures
            r@.map_values(|c: Chunk| c@) == self@,
    {
        &self.chunks
    }

    /// Finds the first chunk, in stored order, whose identifier renders
    /// as the given text.
    pub fn chunk_by_type(&self, chunk_type: &str) -> (r: Result<&Chunk, PngDecodeError>)
        ensures
            (r is Ok) <==> (exists|i: int|
                0 <= i < self@.len() && matches_name(self@[i], chunk_type@)),
            (r matches Ok(c) ==> exists|i: int|
                0 <= i < self@.len() && matches_name(self@[i], chunk_type@) && c@ == self@[i] && (
                forall|j: int| 0 <= j < i ==> !matches_name(self@[j], chunk_type@))),
            (r is Err) ==> r == Err::<&Chunk, PngDecodeError>(PngDecodeError::NotFound),
    {
        let n = self.chunks.len();
        let mut i: usize = 0;
        while i < n
            invariant
                n == self.chunks@.len(),
                i <= n,
                forall|j: int| 0 <= j < i ==> !matches_name(self@[j], chunk_type@),
            decreases n - i,
        {
            let c = &self.chunks[i];
            if c.chunk_type().matches_text(chunk_type) {
                assert(matches_name(self@[i as int], chunk_type@));
                return Ok(c);
            }
            i = i + 1;
        }
        Err(PngDecodeError::NotFound)
    }

    /// Removes and returns the first chunk whose identifier renders as
    /// the given text; all other chunks keep their relative order.
    pub fn remove_first_chunk(&mut self, chunk_type: &str) -> (r: Result<Chunk, PngDecodeError>)
        ensures
            (r is Ok) <==> (exists|i: int|
                0 <= i < old(self)@.len() && matches_name(old(self)@[i], chunk_type@)),
            (r matches Ok(c) ==> exists|i: int|
                0 <= i < old(self)@.len() && matches_name(old(self)@[i], chunk_type@) && (forall|
                    j: int,
                |
                    0 <= j < i ==> !matches_name(old(self)@[j], chunk_type@)) && c@ == old(
                self,
                )@[i] && final(self)@ == old(self)@.remove(i)),
            (r is Err) ==> final(self)@ == old(self)@ && r == Err::<Chunk, PngDecodeError>(
                PngDecodeError::NotFound,
            ),
    {
        let n = self.chunks.len();
        let mut i: usize = 0;
        while i < n
            invariant
                n == self.chunks@.len(),
                i <= n,
                self@ == old(self)@,
                self.chunks@ == old(self).chunks@,
                forall|j: int| 0 <= j < i ==> !matches_name(self@[j], chunk_type@),
            decreases n - i,
        {
            let matched = (&self.chunks[i]).chunk_type().matches_text(chunk_type);
            if matched {
                assert(matches_name(self@[i as int], chunk_type@));
                let c = self.chunks.remove(i);
                proof {
                    assert(self@ =~= old(self)@.remove(i as int));
                }
                return Ok(c);
            }
            i = i + 1;
        }
        Err(PngDecodeError::NotFound)
    }

    /// Serializes the container: the signature, then every chunk's
    /// record bytes, in stored order.
    pub fn as_bytes(&self) -> (r: Vec<u8>)
        ensures
            r@ == png_encoding(self@),
    {
        let mut out: Vec<u8> = Vec::new();
        out.push(137);
        out.push(80);
        out.push(78);
        out.push(71);
        out.push(13);
        out.push(10);
        out.push(26);
        out.push(10);
        assert(out@ =~= spec_signature());
        let n = self.chunks.len();
        let mut i: usize = 0;
        while i < n
            invariant
                n == self.chunks@.len(),
                i <= n,
                out@ == spec_signature() + encode_chunks(self@.take(i as int)),
            decreases n - i,
        {
            let mut enc = (&self.chunks[i]).as_bytes();
            out.append(&mut enc);
            proof {
                lemma_encode_chunks_snoc(self@.take(i as int), self@[i as int]);
                assert(self@.take(i + 1) =~= self@.take(i as int).push(self@[i as int]));
                assert(out@ =~= spec_signature() + encode_chunks(self@.take(i + 1)));
            }
            i = i + 1;
        }
        proof {
            assert(self@.take(n as int) =~= self@);
        }
        out
    }

    /// Parses a complete container file: the signature must open the
    /// buffer, then chunk records are decoded until it is exhausted.
    /// The first failing record's error is surfaced unchanged.
    pub fn parse(bytes: &[u8]) -> (r: Result<Png, PngDecodeError>)
        ensures
            (r == Err::<Png, PngDecodeError>(PngDecodeError::BadSignature)) <==> !has_signature(
                bytes@,
            ),
            (r matches Ok(p) ==> has_signature(bytes@) && decode_chunks(bytes@, 8) == (
            StreamOutcome::Complete { chunks: p@ })),
            has_signature(bytes@) ==> (decode_chunks(bytes@, 8) matches StreamOutcome::Complete {
                chunks,
            } ==> (r matches Ok(p) && p@ == chunks)),
            has_signature(bytes@) ==> (decode_chunks(bytes@, 8) is Truncated ==> r == Err::<
                Png,
                PngDecodeError,
            >(PngDecodeError::TruncatedChunk)),
            has_signature(bytes@) ==> (decode_chunks(bytes@, 8)
                matches StreamOutcome::InvalidIdentifier { code } ==> (r matches Err(e) && (
            e matches PngDecodeError::InvalidIdentifier { bytes: b } && b@ == code))),
            has_signature(bytes@) ==> (decode_chunks(bytes@, 8) matches StreamOutcome::BadChecksum {
                received,
                expected,
            } ==> r == Err::<Png, PngDecodeError>(PngDecodeError::BadChecksum {
                received,
                expected,
            })),
    {
        let n = bytes.len();
        if n < 8 {
            return Err(PngDecodeError::BadSignature);
        }
        if !(bytes[0] == 137 && bytes[1] == 80 && bytes[2] == 78 && bytes[3] == 71 && bytes[4]
            == 13 && bytes[5] == 10 && bytes[6] == 26 && bytes[7] == 10) {
            proof {
                assert(bytes@.subrange(0, 8) != spec_signature()) by {
                    if bytes@.subrange(0, 8) == spec_signature() {
                        assert(forall|k: int|
                            0 <= k < 8 ==> bytes@[k] == #[trigger] spec_signature()[k]);
                    }
                };
            }
            return Err(PngDecodeError::BadSignature);
        }
        proof {
            assert(bytes@.subrange(0, 8) =~= spec_signature());
        }
        let mut chunks: Vec<Chunk> = Vec::new();
        let mut pos: usize = 8;
        while pos < n
            invariant
                8 <= pos <= n,
                n == bytes@.len(),
                has_signature(bytes@),
                decode_chunks(bytes@, 8) == combine(
                    chunks@.map_values(|c: Chunk| c@),
                    decode_chunks(bytes@, pos as int),
                ),
            decreases n - pos,
        {
            let ghost prefix = chunks@.map_values(|c: Chunk| c@);
            if n - pos < 12 {
                assert(decode_chunks(bytes@, pos as int) is Truncated);
                return Err(PngDecodeError::TruncatedChunk);
            }
            let dlen = read_be_u32(bytes, pos);
            if (n - pos - 12) < (dlen as usize) {
                assert(decode_chunks(bytes@, pos as int) is Truncated);
                return Err(PngDecodeError::TruncatedChunk);
            }
            let end = pos + 12 + (dlen as usize);
            let record = slice_subrange(bytes, pos, end);
            assert(record@ == bytes@.subrange(pos as int, pos + 12 + (dlen as int)));
            match Chunk::decode(record) {
                Ok(c) => {
                    proof {
                        assert(spec_decode(record@) matches ChunkOutcome::Accepted { chunk }
                            && chunk == c@);
                        assert(decode_chunks(bytes@, pos as int) == (match decode_chunks(
                            bytes@,
                            end as int,
                        ) {
                            StreamOutcome::Complete { chunks } => StreamOutcome::Complete {
                                chunks: seq![c@] + chunks,
                            },
                            tail => tail,
                        }));
                    }
                    chunks.push(c);
                    proof {
                        assert(chunks@.map_values(|cc: Chunk| cc@) =~= prefix.push(c@));
                        assert(decode_chunks(bytes@, 8) == combine(
                            chunks@.map_values(|cc: Chunk| cc@),
                            decode_chunks(bytes@, end as int),
                        ));
                    }
                    pos = end;
                },
                Err(e) => {
                    proof {
                        assert(!(spec_decode(record@) is Accepted));
                        assert(decode_chunks(bytes@, 8) == decode_chunks(bytes@, pos as int));
                    }
                    return Err(e);
                },
            }
        }
        assert(decode_chunks(bytes@, pos as int) == (StreamOutcome::Complete {
            chunks: Seq::<ChunkModel>::empty(),
        }));
        let png = Png { chunks };
        proof {
            assert(png@ + Seq::<ChunkModel>::empty() =~= png@);
        }
        Ok(png)
    }
}

/// Decoding an encoded chunk sequence that fills the rest of the
/// stream yields exactly those chunks.
#[verifier::rlimit(60)]
proof fn lemma_decode_encoded_suffix(bytes: Seq<u8>, pos: int, chunks: Seq<ChunkModel>)
    requires
        0 <= pos <= bytes.len(),
        bytes.subrange(pos, bytes.len() as int) == encode_chunks(chunks),
        forall|i: int| 0 <= i < chunks.len() ==> decodable(#[trigger] chunks[i]),
    ensures
        decode_chunks(bytes, pos) == (StreamOutcome::Complete { chunks }),
    decreases chunks.len(),
{
    if chunks.len() == 0 {
        assert(bytes.subrange(pos, bytes.len() as int).len() == 0);
        assert(pos == bytes.len());
    } else {
        let m = chunks[0];
        assert(decodable(m));
        lemma_chunk_round_trip(m);
        let enc = chunk_encoding(m);
        let rest = chunks.drop_first();
        let dlen = m.data.len() as int;
        assert(enc.len() == 12 + dlen);
        assert(bytes.subrange(pos, bytes.len() as int) == enc + encode_chunks(rest));
        assert(bytes.len() - pos == enc.len() + encode_chunks(rest).len()) by {
            assert(bytes.subrange(pos, bytes.len() as int).len() == bytes.len() - pos);
            assert((enc + encode_chunks(rest)).len() == enc.len() + encode_chunks(rest).len());
        }
        lemma_be_bytes_round_trip(m.data.len() as u32);
        assert(bytes.subrange(pos, pos + 4) =~= be_bytes(m.data.len() as u32));
        assert(be_u32(bytes.subrange(pos, pos + 4)) as int == dlen);
        assert(bytes.subrange(pos, pos + 12 + dlen) =~= enc);
        assert(spec_decode(bytes.subrange(pos, pos + 12 + dlen)) == (ChunkOutcome::Accepted {
            chunk: m,
        }));
        assert forall|k: int| 0 <= k < encode_chunks(rest).len() implies bytes.subrange(
            pos + 12 + dlen,
            bytes.len() as int,
        )[k] == encode_chunks(rest)[k] by {
            assert(bytes.subrange(pos, bytes.len() as int)[12 + dlen + k] == (enc + encode_chunks(
                rest,
            ))[12 + dlen + k]);
        }
        assert(bytes.subrange(pos + 12 + dlen, bytes.len() as int) =~= encode_chunks(rest));
        assert(forall|i: int| 0 <= i < rest.len() ==> decodable(#[trigger] rest[i]));
        lemma_decode_encoded_suffix(bytes, pos + 12 + dlen, rest);
        assert(seq![m] + rest =~= chunks);
    }
}

/// Law: parsing the serialization of any sequence of decodable chunks
/// yields exactly those chunks, in order.
pub proof fn lemma_container_round_trip(chunks: Seq<ChunkModel>)
    requires
        forall|i: int| 0 <= i < chunks.len() ==> decodable(#[trigger] chunks[i]),
    ensures
        has_signature(png_encoding(chunks)),
        decode_chunks(png_encoding(chunks), 8) == (StreamOutcome::Complete { chunks }),
{
    let bytes = png_encoding(chunks);
    assert(bytes.subrange(0, 8) =~= spec_signature());
    assert(bytes.subrange(8, bytes.len() as int) =~= encode_chunks(chunks));
    lemma_decode_encoded_suffix(bytes, 8, chunks);
}

} // verus!
