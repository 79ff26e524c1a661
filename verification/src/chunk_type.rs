//! The 4-byte PNG chunk type code and its bit-encoded semantic flags.
//!
//! A code can be built from any 4 bytes so that already-parsed input can
//! round-trip, but only codes made of ASCII letters with a clear reserved
//! bit count as valid.

use vstd::prelude::*;
use vstd::string::StringSliceAdditionalSpecFns;
use vstd::utf8::decode_utf8;
use vstd::utf8::valid_utf8;

use crate::text::utf8_to_string;

verus! {

/// True for the byte values of ASCII letters (uppercase 65..=90,
/// lowercase 97..=122).
pub open spec fn is_ascii_letter(b: u8) -> bool {
    (65 <= b && b <= 90) || (97 <= b && b <= 122)
}

/// True when every byte of the sequence is an ASCII letter.
pub open spec fn all_ascii_letters(bytes: Seq<u8>) -> bool {
    forall|i: int| 0 <= i < bytes.len() ==> is_ascii_letter(#[trigger] bytes[i])
}

/// A chunk type code is valid when its 4 bytes are ASCII letters and the
/// reserved bit (bit 5 of the third byte) is clear.
pub open spec fn spec_type_valid(bytes: Seq<u8>) -> bool {
    &&& bytes.len() == 4
    &&& all_ascii_letters(bytes)
    &&& bytes[2] & 32 == 0
}

/// True when the type code's bytes render as exactly this text.
pub open spec fn spec_name_matches(ty: Seq<u8>, name: Seq<char>) -> bool {
    &&& valid_utf8(ty)
    &&& decode_utf8(ty) == name
}

/// A 4-byte PNG chunk type code.
#[derive(Debug, Clone, Copy, PartialEq, Eq)]
pub struct ChunkType {
    bytes: [u8; 4],
}

impl View for ChunkType {
    type V = Seq<u8>;

    closed spec fn view(&self) -> Seq<u8> {
        self.bytes@
    }
}

impl ChunkType {
    /// Bytes encoding the chunk type.
    pub fn bytes(&self) -> (r: [u8; 4])
        ensures
            r@ == self@,
    {
        self.bytes
    }

    /// Builds a code from 4 raw bytes; always succeeds, so that bytes read
    /// from a file can round-trip even when they are not a valid code.
    pub fn try_from(value: [u8; 4]) -> (r: Result<ChunkType, ChunkTypeError>)
        ensures
            r matches Ok(t) && t@ == value@,
    {
        Ok(ChunkType { bytes: value })
    }

    /// Parses a code from text: the text must be exactly 4 bytes, all of
    /// them ASCII letters.  The reserved bit is not checked here.
    pub fn from_str(s: &str) -> (r: Result<ChunkType, ChunkTypeError>)
        ensures
            match r {
                Ok(t) => {
                    &&& t@ == s.spec_bytes()
                    &&& s.spec_bytes().len() == 4
                    &&& all_ascii_letters(s.spec_bytes())
                },
                Err(ChunkTypeError::ByteLengthError(n)) => {
                    &&& n == s.spec_bytes().len()
                    &&& n != 4
                },
                Err(ChunkTypeError::InvalidCharacter) => {
                    &&& s.spec_bytes().len() == 4
                    &&& !all_ascii_letters(s.spec_bytes())
                },
            },
    {
        let b = s.as_bytes();
        if b.len() != 4 {
            return Err(ChunkTypeError::ByteLengthError(b.len()));
        }
        let mut i: usize = 0;
        while i < 4
            invariant
                b@ == s.spec_bytes(),
                b@.len() == 4,
                0 <= i <= 4,
                forall|j: int| 0 <= j < i ==> is_ascii_letter(#[trigger] b@[j]),
            decreases 4 - i,
        {
            if !is_ascii_letter_byte(b[i]) {
                proof {
                    assert(!is_ascii_letter(s.spec_bytes()[i as int]));
                }
                return Err(ChunkTypeError::InvalidCharacter);
            }
            i += 1;
        }
        Ok(ChunkType { bytes: [b[0], b[1], b[2], b[3]] })
    }

    /// A code is valid when all 4 bytes are ASCII letters and the reserved
    /// bit is clear.
    pub fn is_valid(&self) -> (r: bool)
        ensures
            r == spec_type_valid(self@),
    {
        let valid_chars = is_ascii_letter_byte(self.bytes[0])
            && is_ascii_letter_byte(self.bytes[1])
            && is_ascii_letter_byte(self.bytes[2])
            && is_ascii_letter_byte(self.bytes[3]);
        proof {
            assert(valid_chars == all_ascii_letters(self@)) by {
                if valid_chars {
                    assert forall|i: int| 0 <= i < self@.len() implies is_ascii_letter(
                        #[trigger] self@[i],
                    ) by {
                        assert(i == 0 || i == 1 || i == 2 || i == 3);
                    }
                }
            }
        }
        valid_chars && self.is_reserved_bit_valid()
    }

    /// A code is critical when bit 5 (value 32) of the first byte is clear.
    pub fn is_critical(&self) -> (r: bool)
        ensures
            r == (self@[0] & 32 == 0),
    {
        (self.bytes[0] & 32) == 0
    }

    /// A code is public when bit 5 (value 32) of the second byte is clear.
    pub fn is_public(&self) -> (r: bool)
        ensures
            r == (self@[1] & 32 == 0),
    {
        (self.bytes[1] & 32) == 0
    }

    /// Bit 5 (value 32) of the third byte is reserved and must be clear.
    pub fn is_reserved_bit_valid(&self) -> (r: bool)
        ensures
            r == (self@[2] & 32 == 0),
    {
        (self.bytes[2] & 32) == 0
    }

    /// A code is safe to copy when bit 5 (value 32) of the fourth byte is set.
    pub fn is_safe_to_copy(&self) -> (r: bool)
        ensures
            r == (self@[3] & 32 != 0),
    {
        (self.bytes[3] & 32) != 0
    }

    /// True when this code renders to the given text.
    pub fn matches_name(&self, name: &str) -> (r: bool)
        ensures
            r == spec_name_matches(self@, name@),
    {
        let nb = name.as_bytes();
        let r = if nb.len() != 4 {
            false
        } else {
            nb[0] == self.bytes[0] && nb[1] == self.bytes[1] && nb[2] == self.bytes[2] && nb[3]
                == self.bytes[3]
        };
        proof {
            broadcast use vstd::utf8::encode_utf8_valid_utf8;
            broadcast use vstd::utf8::encode_utf8_decode_utf8;
            broadcast use vstd::utf8::decode_utf8_encode_utf8;

            if r {
                assert(vstd::utf8::encode_utf8(name@) =~= self@);
            }
            if spec_name_matches(self@, name@) {
                assert(vstd::utf8::encode_utf8(vstd::utf8::decode_utf8(self@)) == self@);
            }
        }
        r
    }

    /// Renders the 4 bytes as text; fails exactly when they are not valid
    /// UTF-8 (which can only happen for codes that are not ASCII letters).
    pub fn to_string(&self) -> (r: Option<String>)
        ensures
            r is Some <==> valid_utf8(self@),
            r matches Some(s) ==> s@ == decode_utf8(self@),
    {
        let mut v: Vec<u8> = Vec::new();
        v.push(self.bytes[0]);
        v.push(self.bytes[1]);
        v.push(self.bytes[2]);
        v.push(self.bytes[3]);
        proof {
            assert(v@ =~= self@);
        }
        utf8_to_string(v)
    }
}

/// Every chunk type code consists of exactly 4 bytes.
pub broadcast proof fn lemma_chunk_type_len(t: ChunkType)
    ensures
        (#[trigger] t@).len() == 4,
{
}

/// Errors when parsing a chunk type code from text.
#[derive(Debug, PartialEq, Eq)]
pub enum ChunkTypeError {
    /// The text's byte length is not the required 4; carries the actual length.
    ByteLengthError(usize),
    /// The text contains a byte outside the two ASCII letter ranges.
    InvalidCharacter,
}

/// True exactly when the byte is an ASCII letter.
pub fn is_ascii_letter_byte(b: u8) -> (r: bool)
    ensures
        r == is_ascii_letter(b),
{
    (65 <= b && b <= 90) || (97 <= b && b <= 122)
}

} // verus!
