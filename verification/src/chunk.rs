//! A length-prefixed chunk record: identifier, opaque payload and a
//! CRC-32 integrity checksum, with byte-exact encoding and decoding.

use vstd::prelude::*;

use crate::chunk_type::ChunkType;
use crate::chunk_type::PngDecodeError;
use crate::codec::be_bytes;
use crate::codec::be_u32;
use crate::codec::lemma_be_bytes_round_trip;
use crate::codec::push_be_u32;
use crate::codec::read_be_u32;
use vstd::utf8::decode_utf8;
use vstd::utf8::valid_utf8;

verus! {

/// The mathematical content of a chunk: the 4 identifier bytes, the
/// payload bytes, and the stored checksum.
#[verifier::ext_equal]
pub struct ChunkModel {
    pub code: Seq<u8>,
    pub data: Seq<u8>,
    pub crc: u32,
}

/// The CRC-32/ISO-HDLC checksum of a byte sequence, a function of the
/// bytes alone. It is given no definition here: every fact about it
/// comes from the checksum wrapper below.
pub uninterp spec fn crc32_of(bytes: Seq<u8>) -> u32;

/// Relies on the crc crate's `Crc::<u32>::checksum` with the
/// CRC-32/ISO-HDLC algorithm: a pure, table-driven checksum of the
/// given bytes and nothing else.
#[verifier::external_body]
fn crc32(bytes: &Vec<u8>) -> (r: u32)
    ensures
        r == crc32_of(bytes@),
{
    crc::Crc::<u32>::new(&crc::CRC_32_ISO_HDLC).checksum(bytes.as_slice())
}

/// Relies on String::from_utf8: it succeeds exactly on valid UTF-8 and
/// returns the string of the decoded characters.
#[verifier::external_body]
fn utf8_to_string(bytes: &Vec<u8>) -> (r: Option<String>)
    ensures
        r is Some <==> valid_utf8(bytes@),
        (r matches Some(s) ==> s@ == decode_utf8(bytes@)),
{
    match String::from_utf8(bytes.clone()) {
        Ok(s) => Some(s),
        Err(_) => None,
    }
}

/// The serialization of a chunk record: big-endian payload length, the
/// 4 identifier bytes, the payload, and the big-endian checksum.
pub open spec fn chunk_encoding(m: ChunkModel) -> Seq<u8> {
    be_bytes(m.data.len() as u32) + m.code + m.data + be_bytes(m.crc)
}

/// What decoding a record buffer yields.
#[verifier::ext_equal]
pub enum ChunkOutcome {
    /// The reserved bit was clear and the stored checksum matched.
    Accepted { chunk: ChunkModel },
    /// The identifier's reserved bit was set.
    InvalidIdentifier { code: Seq<u8> },
    /// The stored checksum disagreed with the recomputed one.
    BadChecksum { received: u32, expected: u32 },
}

/// Decoding a complete record buffer: bytes 4..8 are the identifier,
/// everything between them and the trailing 4 checksum bytes is the
/// payload. The declared length in bytes 0..4 is not trusted: the
/// payload length is recomputed from the buffer itself, so a mismatched
/// declared length is tolerated rather than rejected.
pub open spec fn spec_decode(bytes: Seq<u8>) -> ChunkOutcome
    recommends
        bytes.len() >= 12,
{
    let code = bytes.subrange(4, 8);
    let data = bytes.subrange(8, bytes.len() - 4);
    let stored = be_u32(bytes.subrange(bytes.len() - 4, bytes.len() as int));
    if code[2] & 0x20 != 0 {
        ChunkOutcome::InvalidIdentifier { code }
    } else if stored != crc32_of(code + data) {
        ChunkOutcome::BadChecksum { received: stored, expected: crc32_of(code + data) }
    } else {
        ChunkOutcome::Accepted { chunk: ChunkModel { code, data, crc: stored } }
    }
}

/// A chunk record: payload length, identifier, payload and checksum.
#[derive(Debug)]
pub struct Chunk {
    len: u32,
    chunktype: ChunkType,
    data: Vec<u8>,
    crc: u32,
}

impl View for Chunk {
    type V = ChunkModel;

    closed spec fn view(&self) -> ChunkModel {
        ChunkModel { code: self.chunktype@, data: self.data@, crc: self.crc }
    }
}

impl Chunk {
    /// The stored length always counts the payload bytes, and the stored
    /// checksum is always the one recomputed over identifier and payload.
    #[verifier::type_invariant]
    spec fn wf(self) -> bool {
        self.len == self.data@.len() && self.crc == crc32_of(self.chunktype@ + self.data@)
    }

    /// Builds a chunk from an identifier and a payload, deriving length
    /// and checksum. Never fails.
    pub fn new(chunktype: ChunkType, data: Vec<u8>) -> (r: Chunk)
        requires
            data@.len() <= 0xFFFF_FFFF,
        ensures
            r@ == (ChunkModel { code: chunktype@, data: data@, crc: crc32_of(chunktype@ + data@) }),
    {
        let crc = crc_over(&chunktype, &data);
        let len = data.len() as u32;
        Chunk { len, chunktype, data, crc }
    }

    /// The byte count of the payload.
    pub fn length(&self) -> (r: u32)
        ensures
            r == self@.data.len(),
    {
        proof {
            use_type_invariant(&*self);
        }
        self.len
    }

    /// The chunk's identifier.
    pub fn chunk_type(&self) -> (r: &ChunkType)
        ensures
            r@ == self@.code,
            self@.code.len() == 4,
    {
        proof {
            crate::chunk_type::lemma_chunk_type_len(&self.chunktype);
        }
        &self.chunktype
    }

    /// The raw payload bytes.
    pub fn data(&self) -> (r: &Vec<u8>)
        ensures
            r@ == self@.data,
    {
        &self.data
    }

    /// The stored checksum, which always equals the checksum of the
    /// identifier bytes followed by the payload bytes.
    pub fn crc(&self) -> (r: u32)
        ensures
            r == self@.crc,
            self@.crc == crc32_of(self@.code + self@.data),
    {
        proof {
            use_type_invariant(&*self);
        }
        self.crc
    }

    /// The payload read as UTF-8 text; fails on bytes that are not
    /// valid UTF-8.
    pub fn data_as_string(&self) -> (r: Result<String, PngDecodeError>)
        ensures
            valid_utf8(self@.data) ==> (r matches Ok(s) && s@ == decode_utf8(self@.data)),
            !valid_utf8(self@.data) ==> r == Err::<String, PngDecodeError>(
                PngDecodeError::InvalidEncoding,
            ),
    {
        match utf8_to_string(&self.data) {
            Some(s) => Ok(s),
            None => Err(PngDecodeError::InvalidEncoding),
        }
    }

    /// Serializes the record: length, identifier, payload, checksum.
    pub fn as_bytes(&self) -> (r: Vec<u8>)
        ensures
            r@ == chunk_encoding(self@),
    {
        proof {
            use_type_invariant(&*self);
        }
        let mut out: Vec<u8> = Vec::new();
        push_be_u32(&mut out, self.len);
        let code = self.chunktype.bytes();
        out.push(code[0]);
        out.push(code[1]);
        out.push(code[2]);
        out.push(code[3]);
        assert(out@ =~= be_bytes(self@.data.len() as u32) + self@.code);
        let ghost head = out@;
        let mut i: usize = 0;
        while i < self.data.len()
            invariant
                i <= self.data@.len(),
                out@ == head + self.data@.subrange(0, i as int),
            decreases self.data@.len() - i,
        {
            out.push(self.data[i]);
            i = i + 1;
            assert(out@ =~= head + self.data@.subrange(0, i as int));
        }
        assert(out@ =~= be_bytes(self@.data.len() as u32) + self@.code + self@.data);
        push_be_u32(&mut out, self.crc);
        assert(out@ =~= chunk_encoding(self@));
        out
    }

    /// Decodes a complete record buffer. The identifier must have its
    /// reserved bit clear and the stored checksum must match the one
    /// recomputed over identifier and payload; the declared length is
    /// not trusted, the payload length is taken from the buffer.
    pub fn decode(bytes: &[u8]) -> (r: Result<Chunk, PngDecodeError>)
        requires
            12 <= bytes@.len() <= 0xFFFF_FFFF + 12,
        ensures
            spec_decode(bytes@) matches ChunkOutcome::Accepted { chunk } ==> r matches Ok(c)
                && c@ == chunk,
            spec_decode(bytes@) matches ChunkOutcome::InvalidIdentifier { code } ==> r matches Err(e)
                && e matches PngDecodeError::InvalidIdentifier { bytes: b } && b@ == code,
            spec_decode(bytes@) matches ChunkOutcome::BadChecksum { received, expected } ==> r
                == Err::<Chunk, PngDecodeError>(
                PngDecodeError::BadChecksum { received, expected },
            ),
    {
        let n = bytes.len();
        let chunktype = match ChunkType::from_bytes([bytes[4], bytes[5], bytes[6], bytes[7]]) {
            Ok(t) => t,
            Err(e) => {
                proof {
                    assert(bytes@.subrange(4, 8) =~= seq![bytes@[4], bytes@[5], bytes@[6], bytes@[7]]);
                }
                return Err(e);
            },
        };
        proof {
            assert(bytes@.subrange(4, 8) =~= seq![bytes@[4], bytes@[5], bytes@[6], bytes@[7]]);
        }
        let mut data: Vec<u8> = Vec::new();
        let mut i: usize = 8;
        while i < n - 4
            invariant
                8 <= i <= bytes@.len() - 4,
                n == bytes@.len(),
                bytes@.len() >= 12,
                data@ == bytes@.subrange(8, i as int),
            decreases n - 4 - i,
        {
            data.push(bytes[i]);
            i = i + 1;
            assert(data@ =~= bytes@.subrange(8, i as int));
        }
        let stored = read_be_u32(bytes, n - 4);
        let expected = crc_over(&chunktype, &data);
        if stored != expected {
            return Err(PngDecodeError::BadChecksum { received: stored, expected });
        }
        let len = data.len() as u32;
        Ok(Chunk { len, chunktype, data, crc: stored })
    }
}

/// Computes the checksum over the identifier bytes followed by the
/// payload bytes.
fn crc_over(chunktype: &ChunkType, data: &Vec<u8>) -> (r: u32)
    ensures
        r == crc32_of(chunktype@ + data@),
{
    let mut buf: Vec<u8> = Vec::new();
    let code = chunktype.bytes();
    buf.push(code[0]);
    buf.push(code[1]);
    buf.push(code[2]);
    buf.push(code[3]);
    assert(buf@ =~= chunktype@);
    let mut i: usize = 0;
    while i < data.len()
        invariant
            i <= data@.len(),
            buf@ == chunktype@ + data@.subrange(0, i as int),
        decreases data@.len() - i,
    {
        buf.push(data[i]);
        i = i + 1;
        assert(buf@ =~= chunktype@ + data@.subrange(0, i as int));
    }
    assert(buf@ =~= chunktype@ + data@);
    crc32(&buf)
}

/// Law: decoding the encoding of a chunk whose identifier has the
/// reserved bit clear and whose checksum is the one computed over its
/// identifier and payload reproduces exactly that chunk.
pub proof fn lemma_chunk_round_trip(m: ChunkModel)
    requires
        m.code.len() == 4,
        m.code[2] & 0x20 == 0,
        m.data.len() <= 0xFFFF_FFFF,
        m.crc == crc32_of(m.code + m.data),
    ensures
        chunk_encoding(m).len() == 12 + m.data.len(),
        spec_decode(chunk_encoding(m)) == (ChunkOutcome::Accepted { chunk: m }),
{
    let bytes = chunk_encoding(m);
    lemma_be_bytes_round_trip(m.data.len() as u32);
    lemma_be_bytes_round_trip(m.crc);
    assert(bytes.subrange(4, 8) =~= m.code);
    assert(bytes.subrange(8, bytes.len() - 4) =~= m.data);
    assert(bytes.subrange(bytes.len() - 4, bytes.len() as int) =~= be_bytes(m.crc));
    assert(spec_decode(bytes) matches ChunkOutcome::Accepted { chunk } && chunk =~= m);
}

} // verus!
