//! The 4-byte chunk identifier, whose letter case encodes four semantic
//! flags, and the error values of the whole format layer.

use vstd::prelude::*;

verus! {

/// Everything that can go wrong while building identifiers, decoding
/// chunks or parsing a container.
#[derive(Debug, Clone, PartialEq, Eq)]
pub enum PngDecodeError {
    /// A textual identifier contained a byte that is not an ASCII letter.
    InvalidByte { byte: u8 },
    /// A raw 4-byte identifier had the reserved bit set.
    InvalidIdentifier { bytes: [u8; 4] },
    /// A chunk's stored checksum disagrees with the recomputed one.
    BadChecksum { received: u32, expected: u32 },
    /// The buffer does not begin with the fixed 8-byte signature.
    BadSignature,
    /// No chunk carries the requested identifier.
    NotFound,
    /// A chunk payload is not valid UTF-8 text.
    InvalidEncoding,
    /// The byte stream ends in the middle of a chunk record.
    TruncatedChunk,
}

/// An ASCII letter, `A`-`Z` or `a`-`z`.
pub open spec fn is_letter(b: u8) -> bool {
    (65 <= b && b <= 90) || (97 <= b && b <= 122)
}

/// A character in the ASCII letter ranges.
pub open spec fn char_is_letter(c: char) -> bool {
    (65 <= c as u32 && c as u32 <= 90) || (97 <= c as u32 && c as u32 <= 122)
}

/// The text rendering of an identifier: each byte read as one character.
pub open spec fn text_of(code: Seq<u8>) -> Seq<char> {
    code.map_values(|b: u8| b as char)
}

/// Relies on String::push: appends the character to the string.
pub assume_specification[ String::push ](s: &mut String, c: char)
    ensures
        final(s)@ == old(s)@.push(c),
;

/// Every identifier's view holds exactly its 4 code bytes.
pub proof fn lemma_chunk_type_len(t: &ChunkType)
    ensures
        t@.len() == 4,
{
}

/// A chunk's 4-byte type code. Bit 5 (value 0x20) of each byte is that
/// byte's ASCII case bit and carries one semantic flag.
#[derive(Debug, Clone, Copy, PartialEq, Eq)]
pub struct ChunkType {
    code: [u8; 4],
}

impl View for ChunkType {
    type V = Seq<u8>;

    closed spec fn view(&self) -> Seq<u8> {
        self.code@
    }
}

impl ChunkType {
    /// The packed 4 code bytes, as the checksum and the serializer use them.
    pub fn bytes(&self) -> (r: [u8; 4])
        ensures
            r@ == self@,
            r@.len() == 4,
    {
        self.code
    }

    /// Whether a byte may appear in a textual identifier.
    pub fn is_valid_byte(byte: u8) -> (r: bool)
        ensures
            r == is_letter(byte),
    {
        (65 <= byte && byte <= 90) || (97 <= byte && byte <= 122)
    }

    /// A well-formed identifier: the reserved bit (byte 3's case bit) is clear.
    pub fn is_valid(&self) -> (r: bool)
        ensures
            r == (self@[2] & 0x20 == 0),
    {
        self.code[2] & 0x20 == 0
    }

    /// Critical chunk: byte 1 is uppercase.
    pub fn is_critical(&self) -> (r: bool)
        ensures
            r == (self@[0] & 0x20 == 0),
    {
        self.code[0] & 0x20 == 0
    }

    /// Public chunk: byte 2 is uppercase.
    pub fn is_public(&self) -> (r: bool)
        ensures
            r == (self@[1] & 0x20 == 0),
    {
        self.code[1] & 0x20 == 0
    }

    /// Reserved bit clear: byte 3 is uppercase.
    pub fn is_reserved_bit_valid(&self) -> (r: bool)
        ensures
            r == (self@[2] & 0x20 == 0),
    {
        self.code[2] & 0x20 == 0
    }

    /// Safe to copy: byte 4 is lowercase.
    pub fn is_safe_to_copy(&self) -> (r: bool)
        ensures
            r == (self@[3] & 0x20 != 0),
    {
        self.code[3] & 0x20 != 0
    }

    /// Builds an identifier from 4-character text. Any character outside
    /// the ASCII letter ranges is rejected; the case pattern is otherwise
    /// free, so even identifiers with the reserved bit set can be written.
    pub fn from_str(s: &str) -> (r: Result<ChunkType, PngDecodeError>)
        requires
            s@.len() == 4,
        ensures
            (r is Ok) <==> (forall|i: int| 0 <= i < 4 ==> char_is_letter(s@[i])),
            (r matches Ok(t) && t@ == s@.map_values(|c: char| c as u8)) <==> (forall|i: int|
                0 <= i < 4 ==> char_is_letter(s@[i])),
            r is Err ==> exists|i: int|
                0 <= i < 4 && !char_is_letter(s@[i]) && (forall|j: int|
                    0 <= j < i ==> char_is_letter(s@[j])) && r == Err::<ChunkType, PngDecodeError>(
                    PngDecodeError::InvalidByte { byte: s@[i] as u8 },
                ),
    {
        let c0 = s.get_char(0);
        if !ChunkType::char_in_letter_range(c0) {
            return Err(PngDecodeError::InvalidByte { byte: #[verifier::truncate] (c0 as u8) });
        }
        let c1 = s.get_char(1);
        if !ChunkType::char_in_letter_range(c1) {
            return Err(PngDecodeError::InvalidByte { byte: #[verifier::truncate] (c1 as u8) });
        }
        let c2 = s.get_char(2);
        if !ChunkType::char_in_letter_range(c2) {
            return Err(PngDecodeError::InvalidByte { byte: #[verifier::truncate] (c2 as u8) });
        }
        let c3 = s.get_char(3);
        if !ChunkType::char_in_letter_range(c3) {
            return Err(PngDecodeError::InvalidByte { byte: #[verifier::truncate] (c3 as u8) });
        }
        let t = ChunkType {
            code: [
                #[verifier::truncate] (c0 as u8),
                #[verifier::truncate] (c1 as u8),
                #[verifier::truncate] (c2 as u8),
                #[verifier::truncate] (c3 as u8),
            ],
        };
        proof {
            assert(t@ =~= s@.map_values(|c: char| c as u8));
        }
        Ok(t)
    }

    /// Whether a character lies in the ASCII letter ranges.
    fn char_in_letter_range(c: char) -> (r: bool)
        ensures
            r == char_is_letter(c),
    {
        let u = c as u32;
        (65 <= u && u <= 90) || (97 <= u && u <= 122)
    }

    /// Builds an identifier from 4 raw bytes, as chunk decoding does.
    /// Only the reserved bit is checked; the other bytes are free.
    pub fn from_bytes(bytes: [u8; 4]) -> (r: Result<ChunkType, PngDecodeError>)
        ensures
            (r matches Ok(t) && t@ == bytes@) <==> bytes@[2] & 0x20 == 0,
            bytes@[2] & 0x20 != 0 ==> r == Err::<ChunkType, PngDecodeError>(PngDecodeError::InvalidIdentifier { bytes }),
    {
        let t = ChunkType { code: bytes };
        if t.is_valid() {
            Ok(t)
        } else {
            Err(PngDecodeError::InvalidIdentifier { bytes })
        }
    }

    /// The identifier as 4-character text.
    pub fn to_string(&self) -> (r: String)
        ensures
            r@ == text_of(self@),
    {
        let mut out = String::new();
        out.push(self.code[0] as char);
        out.push(self.code[1] as char);
        out.push(self.code[2] as char);
        out.push(self.code[3] as char);
        proof {
            assert(out@ =~= text_of(self@));
        }
        out
    }

    /// Whether this identifier's text rendering equals `text`.
    pub fn matches_text(&self, text: &str) -> (r: bool)
        ensures
            r == (text@ == text_of(self@)),
    {
        if text.unicode_len() != 4 {
            proof {
                assert(text@ != text_of(self@));
            }
            return false;
        }
        let r = text.get_char(0) == (self.code[0] as char) && text.get_char(1) == (self.code[1]
            as char) && text.get_char(2) == (self.code[2] as char) && text.get_char(3) == (
        self.code[3] as char);
        proof {
            if r {
                assert(text@ =~= text_of(self@));
            } else {
                assert(text@ != text_of(self@));
            }
        }
        r
    }
}

} // verus!
