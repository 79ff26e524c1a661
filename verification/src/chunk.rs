//! A single PNG chunk: payload length, type code, payload bytes and the
//! CRC-32 checksum over type and payload, with byte-exact parsing and
//! serialization.

use vstd::prelude::*;
use vstd::slice::slice_subrange;
use vstd::slice::slice_to_vec;
use vstd::utf8::decode_utf8;
use vstd::utf8::valid_utf8;

use crate::be_bytes::lemma_u32_be_round_trip;
use crate::be_bytes::spec_u32_from_be_bytes;
use crate::be_bytes::spec_u32_to_be_bytes;
use crate::be_bytes::u32_from_be_bytes;
use crate::be_bytes::u32_to_be_bytes;
use crate::chunk_type::spec_type_valid;
use crate::chunk_type::ChunkType;
use crate::crc32::crc32_checksum;
use crate::crc32::crc32_of;
use crate::text::utf8_to_string;

verus! {

broadcast use crate::chunk_type::lemma_chunk_type_len;

/// The mathematical model of a chunk: the four stored fields as plain
/// sequences and integers.
pub ghost struct ChunkModel {
    pub length: u32,
    pub ty: Seq<u8>,
    pub data: Seq<u8>,
    pub crc: u32,
}

impl ChunkModel {
    /// The invariant of every chunk in memory: the type code has 4 bytes,
    /// the stored length counts the payload bytes, and the stored checksum
    /// covers type and payload.
    pub open spec fn wf(self) -> bool {
        &&& self.ty.len() == 4
        &&& self.length == self.data.len()
        &&& self.crc == crc32_of(self.ty + self.data)
    }
}

/// The serialized bytes of a chunk: big-endian length, type, payload,
/// big-endian CRC.
pub open spec fn spec_serialize_chunk(m: ChunkModel) -> Seq<u8> {
    spec_u32_to_be_bytes(m.length) + m.ty + m.data + spec_u32_to_be_bytes(m.crc)
}

/// What parsing a byte buffer as a chunk yields.  The buffer may hold
/// trailing bytes after the chunk; they are ignored.
pub open spec fn spec_parse_chunk(bytes: Seq<u8>) -> Result<ChunkModel, ChunkError> {
    if bytes.len() < 12 {
        Err(ChunkError::InputTooSmall)
    } else {
        let length = spec_u32_from_be_bytes(bytes.subrange(0, 4));
        if length > bytes.len() - 12 {
            Err(ChunkError::InputTooSmall)
        } else {
            let ty = bytes.subrange(4, 8);
            if !spec_type_valid(ty) {
                Err(ChunkError::InvalidChunkType)
            } else {
                let data = bytes.subrange(8, 8 + length);
                let stored = spec_u32_from_be_bytes(
                    bytes.subrange(8 + length, 12 + length),
                );
                let computed = crc32_of(ty + data);
                if stored != computed {
                    Err(ChunkError::InvalidCrc(stored, computed))
                } else {
                    Ok(ChunkModel { length, ty, data, crc: stored })
                }
            }
        }
    }
}

/// One PNG chunk.
#[derive(Debug, PartialEq, Eq)]
pub struct Chunk {
    length: u32,
    chunk_type: ChunkType,
    data: Vec<u8>,
    crc: u32,
}

impl View for Chunk {
    type V = ChunkModel;

    closed spec fn view(&self) -> ChunkModel {
        ChunkModel {
            length: self.length,
            ty: self.chunk_type@,
            data: self.data@,
            crc: self.crc,
        }
    }
}

impl Chunk {
    /// Builds a chunk from a type code and a payload, computing length and
    /// checksum; the type code's validity is not checked at this layer.
    pub fn new(chunk_type: ChunkType, data: Vec<u8>) -> (r: Chunk)
        requires
            data@.len() <= u32::MAX,
        ensures
            r@.wf(),
            r@.ty == chunk_type@,
            r@.data == data@,
            r@.length == data@.len(),
    {
        let length = data.len() as u32;
        let buf = type_and_data(&chunk_type, &data);
        let crc = crc32_checksum(&buf);
        Chunk { length, chunk_type, data, crc }
    }

    /// Parses a chunk from the front of a byte buffer, verifying the stored
    /// checksum against a freshly computed one.
    pub fn try_from(bytes: &[u8]) -> (r: Result<Chunk, ChunkError>)
        ensures
            match r {
                Ok(c) => c@.wf() && spec_parse_chunk(bytes@) == Ok::<ChunkModel, ChunkError>(c@),
                Err(e) => spec_parse_chunk(bytes@) == Err::<ChunkModel, ChunkError>(e),
            },
            bytes@.len() < 12 ==> r == Err::<Chunk, ChunkError>(ChunkError::InputTooSmall),
    {
        if bytes.len() < 12 {
            return Err(ChunkError::InputTooSmall);
        }
        let length = u32_from_be_bytes(bytes[0], bytes[1], bytes[2], bytes[3]);
        proof {
            assert(seq![bytes@[0], bytes@[1], bytes@[2], bytes@[3]] =~= bytes@.subrange(0, 4));
        }
        let length_usize = length as usize;
        if length_usize > bytes.len() - 12 {
            return Err(ChunkError::InputTooSmall);
        }
        let ty = [bytes[4], bytes[5], bytes[6], bytes[7]];
        proof {
            assert(ty@ =~= bytes@.subrange(4, 8));
        }
        let chunk_type = match ChunkType::try_from(ty) {
            Ok(t) => t,
            Err(_) => {
                return Err(ChunkError::InvalidChunkType);
            },
        };
        if !chunk_type.is_valid() {
            return Err(ChunkError::InvalidChunkType);
        }
        let data = slice_to_vec(slice_subrange(bytes, 8, 8 + length_usize));
        let stored = u32_from_be_bytes(
            bytes[8 + length_usize],
            bytes[9 + length_usize],
            bytes[10 + length_usize],
            bytes[11 + length_usize],
        );
        proof {
            let n = length as int;
            assert(seq![
                bytes@[8 + n],
                bytes@[9 + n],
                bytes@[10 + n],
                bytes@[11 + n],
            ] =~= bytes@.subrange(8 + n, 12 + n));
        }
        let crc_input = type_and_data(&chunk_type, &data);
        let computed = crc32_checksum(&crc_input);
        if computed != stored {
            return Err(ChunkError::InvalidCrc(stored, computed));
        }
        Ok(Chunk { length, chunk_type, data, crc: stored })
    }

    /// Count of payload bytes.
    pub fn length(&self) -> (r: u32)
        ensures
            r == self@.length,
    {
        self.length
    }

    /// The chunk's type code.
    pub fn chunk_type(&self) -> (r: &ChunkType)
        ensures
            r@ == self@.ty,
    {
        &self.chunk_type
    }

    /// The chunk's payload bytes.
    pub fn data(&self) -> (r: &[u8])
        ensures
            r@ == self@.data,
    {
        self.data.as_slice()
    }

    /// The chunk's stored CRC-32 checksum.
    pub fn crc(&self) -> (r: u32)
        ensures
            r == self@.crc,
    {
        self.crc
    }

    /// Decodes the payload as UTF-8 text; fails exactly when the payload is
    /// not valid UTF-8.
    pub fn data_as_string(&self) -> (r: Result<String, ChunkError>)
        ensures
            match r {
                Ok(s) => valid_utf8(self@.data) && s@ == decode_utf8(self@.data),
                Err(e) => e == ChunkError::InvalidUtf8 && !valid_utf8(self@.data),
            },
    {
        let bytes = slice_to_vec(self.data.as_slice());
        match utf8_to_string(bytes) {
            Some(s) => Ok(s),
            None => Err(ChunkError::InvalidUtf8),
        }
    }

    /// The chunk serialized: big-endian length, type bytes, payload,
    /// big-endian CRC.
    pub fn as_bytes(&self) -> (r: Vec<u8>)
        ensures
            r@ == spec_serialize_chunk(self@),
    {
        let mut out = u32_to_be_bytes(self.length);
        let mut mid = type_and_data(&self.chunk_type, &self.data);
        out.append(&mut mid);
        let mut crc_bytes = u32_to_be_bytes(self.crc);
        out.append(&mut crc_bytes);
        proof {
            assert(out@ =~= spec_serialize_chunk(self@));
        }
        out
    }
}

/// Errors when building or parsing a chunk.
#[derive(Debug, PartialEq, Eq)]
pub enum ChunkError {
    /// Fewer bytes than the 12 a chunk needs at minimum, or fewer than its
    /// declared payload length requires.
    InputTooSmall,
    /// The stored CRC does not match the computed one; carries the stored
    /// (expected) and computed (actual) values.
    InvalidCrc(u32, u32),
    /// The type code is not valid.
    InvalidChunkType,
    /// The payload is not valid UTF-8 text.
    InvalidUtf8,
}

/// The concatenation of a chunk type's bytes and a payload, the byte
/// sequence the checksum covers.
fn type_and_data(chunk_type: &ChunkType, data: &Vec<u8>) -> (r: Vec<u8>)
    ensures
        r@ == chunk_type@ + data@,
{
    let tb = chunk_type.bytes();
    let mut buf: Vec<u8> = Vec::new();
    buf.push(tb[0]);
    buf.push(tb[1]);
    buf.push(tb[2]);
    buf.push(tb[3]);
    proof {
        assert(buf@ =~= chunk_type@ + data@.take(0));
    }
    let mut i: usize = 0;
    while i < data.len()
        invariant
            chunk_type@.len() == 4,
            0 <= i <= data@.len(),
            buf@ == chunk_type@ + data@.take(i as int),
        decreases data@.len() - i,
    {
        buf.push(data[i]);
        proof {
            assert((chunk_type@ + data@.take(i as int)).push(data@[i as int]) =~= chunk_type@
                + data@.take(i as int + 1));
        }
        i += 1;
    }
    proof {
        assert(data@.take(data@.len() as int) =~= data@);
    }
    buf
}

/// Parsing the serialization of a well-formed chunk with a valid type code
/// yields the chunk back, whatever bytes follow it in the buffer.
pub proof fn lemma_chunk_parse_serialized(m: ChunkModel, tail: Seq<u8>)
    requires
        m.wf(),
        spec_type_valid(m.ty),
    ensures
        spec_parse_chunk(spec_serialize_chunk(m) + tail) == Ok::<ChunkModel, ChunkError>(m),
        spec_serialize_chunk(m).len() == 12 + m.data.len(),
{
    let s = spec_serialize_chunk(m) + tail;
    let n = m.data.len() as int;
    assert(spec_u32_to_be_bytes(m.length).len() == 4);
    assert(s.subrange(0, 4) =~= spec_u32_to_be_bytes(m.length));
    lemma_u32_be_round_trip(m.length);
    assert(s.subrange(4, 8) =~= m.ty);
    assert(s.subrange(8, 8 + n) =~= m.data);
    assert(s.subrange(8 + n, 12 + n) =~= spec_u32_to_be_bytes(m.crc));
    lemma_u32_be_round_trip(m.crc);
    assert(spec_parse_chunk(s) == Ok::<ChunkModel, ChunkError>(m));
}

/// Round trip: parsing the serialization of a well-formed chunk with a
/// valid type code yields exactly that chunk, with length, type, payload
/// and CRC preserved.
pub proof fn lemma_chunk_round_trip(m: ChunkModel)
    requires
        m.wf(),
        spec_type_valid(m.ty),
    ensures
        spec_parse_chunk(spec_serialize_chunk(m)) == Ok::<ChunkModel, ChunkError>(m),
{
    lemma_chunk_parse_serialized(m, Seq::<u8>::empty());
    assert(spec_serialize_chunk(m) + Seq::<u8>::empty() =~= spec_serialize_chunk(m));
}

} // verus!
