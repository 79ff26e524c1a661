//! The PNG container: a fixed 8-byte signature followed by an ordered
//! sequence of chunks, with whole-file parse/serialize and type-keyed
//! lookup, append and removal.

use vstd::prelude::*;
use vstd::slice::slice_subrange;

use crate::chunk::lemma_chunk_parse_serialized;
use crate::chunk::spec_parse_chunk;
use crate::chunk::spec_serialize_chunk;
use crate::chunk::Chunk;
use crate::chunk::ChunkError;
use crate::chunk::ChunkModel;
use crate::chunk_type::spec_name_matches;
use crate::chunk_type::spec_type_valid;

verus! {

/// The fixed 8-byte signature that opens every PNG byte stream.
pub open spec fn spec_signature() -> Seq<u8> {
    seq![137u8, 80u8, 78u8, 71u8, 13u8, 10u8, 26u8, 10u8]
}

/// The signature bytes as a vector.
pub fn signature() -> (r: Vec<u8>)
    ensures
        r@ == spec_signature(),
{
    let v: Vec<u8> = vec![137, 80, 78, 71, 13, 10, 26, 10];
    proof {
        assert(v@ =~= spec_signature());
    }
    v
}

/// The concatenation of the serializations of a sequence of chunks.
pub open spec fn spec_serialize_chunks(ms: Seq<ChunkModel>) -> Seq<u8>
    decreases ms.len(),
{
    if ms.len() == 0 {
        Seq::empty()
    } else {
        spec_serialize_chunk(ms[0]) + spec_serialize_chunks(ms.drop_first())
    }
}

/// The serialized bytes of a whole PNG file: signature, then every chunk
/// in sequence order.
pub open spec fn spec_serialize_png(ms: Seq<ChunkModel>) -> Seq<u8> {
    spec_signature() + spec_serialize_chunks(ms)
}

/// What parsing a byte buffer as a chunk sequence yields: chunks parsed
/// back to back until the buffer is exhausted, any failure propagated.
/// Opaque so that callers reason through the unfolding lemmas below.
#[verifier::opaque]
pub open spec fn spec_parse_chunks(bytes: Seq<u8>) -> Result<Seq<ChunkModel>, ChunkError>
    decreases bytes.len(),
{
    if bytes.len() == 0 {
        Ok(Seq::empty())
    } else {
        match spec_parse_chunk(bytes) {
            Err(e) => Err(e),
            Ok(m) => if 12 + m.data.len() <= bytes.len() {
                match spec_parse_chunks(bytes.skip(12 + m.data.len() as int)) {
                    Err(e) => Err(e),
                    Ok(rest) => Ok(seq![m] + rest),
                }
            } else {
                // a parsed chunk always fits its buffer, so this is never reached
                Err(ChunkError::InputTooSmall)
            },
        }
    }
}

/// What parsing a byte buffer as a whole PNG file yields.
pub open spec fn spec_parse_png(bytes: Seq<u8>) -> Result<Seq<ChunkModel>, PngError> {
    if bytes.len() < 8 || bytes.subrange(0, 8) != spec_signature() {
        Err(PngError::InvalidSignature)
    } else {
        match spec_parse_chunks(bytes.skip(8)) {
            Ok(ms) => Ok(ms),
            Err(e) => Err(PngError::Chunk(e)),
        }
    }
}

/// A chunk parsed from the front of a buffer lies within it and satisfies
/// the chunk invariant, with a valid type code.
pub proof fn lemma_parse_chunk_bounds(bytes: Seq<u8>)
    requires
        spec_parse_chunk(bytes) is Ok,
    ensures
        12 <= bytes.len(),
        ({
            let m = spec_parse_chunk(bytes)->Ok_0;
            &&& 12 + m.data.len() <= bytes.len()
            &&& m.wf()
            &&& spec_type_valid(m.ty)
        }),
{
}

/// A chunk-sequence parse result with already-parsed chunks put in front.
pub open spec fn spec_chunks_after(
    prefix: Seq<ChunkModel>,
    r: Result<Seq<ChunkModel>, ChunkError>,
) -> Result<Seq<ChunkModel>, ChunkError> {
    match r {
        Ok(ms) => Ok(prefix + ms),
        Err(e) => Err(e),
    }
}

/// Errors when parsing or searching a PNG container.
#[derive(Debug, PartialEq, Eq)]
pub enum PngError {
    /// The first 8 bytes are not the PNG signature.
    InvalidSignature,
    /// No chunk of the requested type is present.
    ChunkNotFound,
    /// A chunk failed to parse; carries the chunk's own error.
    Chunk(ChunkError),
}

/// A PNG file: the signature is fixed, so the state is the ordered chunk
/// sequence.
#[derive(Debug, PartialEq, Eq)]
pub struct Png {
    chunks: Vec<Chunk>,
}

impl View for Png {
    type V = Seq<ChunkModel>;

    closed spec fn view(&self) -> Seq<ChunkModel> {
        self.chunks@.map_values(|c: Chunk| c@)
    }
}

impl Png {
    /// Every chunk of the container satisfies the chunk invariant.
    pub open spec fn wf(self) -> bool {
        forall|i: int| 0 <= i < self@.len() ==> (#[trigger] self@[i]).wf()
    }

    /// Builds a container from an explicit chunk list.
    pub fn from_chunks(chunks: Vec<Chunk>) -> (r: Png)
        ensures
            r@ == chunks@.map_values(|c: Chunk| c@),
    {
        Png { chunks }
    }

    /// Appends a chunk at the end of the sequence.
    pub fn append_chunk(&mut self, chunk: Chunk)
        ensures
            final(self)@ == old(self)@.push(chunk@),
    {
        let ghost before = self.chunks@;
        self.chunks.push(chunk);
        proof {
            assert(self.chunks@.map_values(|c: Chunk| c@) =~= before.map_values(|c: Chunk| c@)
                .push(chunk@));
        }
    }

    /// The full chunk sequence, in file order.
    pub fn chunks(&self) -> (r: &Vec<Chunk>)
        ensures
            r@.map_values(|c: Chunk| c@) == self@,
    {
        &self.chunks
    }

    /// Parses a whole PNG file: the signature, then chunks back to back
    /// until the input is exhausted.  Any chunk failure fails the parse.
    pub fn try_from(bytes: &[u8]) -> (r: Result<Png, PngError>)
        ensures
            match r {
                Ok(p) => p.wf() && spec_parse_png(bytes@) == Ok::<Seq<ChunkModel>, PngError>(p@),
                Err(e) => spec_parse_png(bytes@) == Err::<Seq<ChunkModel>, PngError>(e),
            },
    {
        if bytes.len() < 8 {
            return Err(PngError::InvalidSignature);
        }
        let sig = signature();
        let mut i: usize = 0;
        while i < 8
            invariant
                0 <= i <= 8,
                bytes@.len() >= 8,
                sig@ == spec_signature(),
                forall|j: int| 0 <= j < i ==> bytes@[j] == spec_signature()[j],
            decreases 8 - i,
        {
            if bytes[i] != sig[i] {
                proof {
                    assert(bytes@.subrange(0, 8)[i as int] != spec_signature()[i as int]);
                }
                return Err(PngError::InvalidSignature);
            }
            i += 1;
        }
        proof {
            assert(bytes@.subrange(0, 8) =~= spec_signature());
        }
        let mut chunks: Vec<Chunk> = Vec::new();
        let mut offset: usize = 8;
        proof {
            let r0 = spec_parse_chunks(bytes@.skip(8));
            assert(chunks@.map_values(|c: Chunk| c@) =~= Seq::<ChunkModel>::empty());
            if r0 is Ok {
                assert(Seq::<ChunkModel>::empty() + r0->Ok_0 =~= r0->Ok_0);
            }
        }
        while offset < bytes.len()
            invariant
                8 <= offset <= bytes@.len(),
                bytes@.subrange(0, 8) == spec_signature(),
                forall|k: int| 0 <= k < chunks@.len() ==> (#[trigger] chunks@[k]@).wf(),
                spec_parse_chunks(bytes@.skip(8)) == spec_chunks_after(
                    chunks@.map_values(|c: Chunk| c@),
                    spec_parse_chunks(bytes@.skip(offset as int)),
                ),
            decreases bytes@.len() - offset,
        {
            let rest = slice_subrange(bytes, offset, bytes.len());
            match Chunk::try_from(rest) {
                Err(e) => {
                    proof {
                        lemma_parse_chunks_fail(rest@, e);
                    }
                    return Err(PngError::Chunk(e));
                },
                Ok(c) => {
                    proof {
                        lemma_parse_chunk_bounds(rest@);
                        lemma_parse_chunks_step(rest@, c@);
                        assert(bytes@.skip(offset as int).skip(12 + c@.data.len() as int)
                            =~= bytes@.skip(offset as int + 12 + c@.data.len() as int));
                    }
                    let consumed = 12 + c.length() as usize;
                    let ghost prev = chunks@.map_values(|c: Chunk| c@);
                    chunks.push(c);
                    proof {
                        assert(chunks@.map_values(|c: Chunk| c@) =~= prev.push(c@));
                        let r2 = spec_parse_chunks(bytes@.skip(offset as int + consumed as int));
                        if r2 is Ok {
                            assert(prev + (seq![c@] + r2->Ok_0) =~= prev.push(c@) + r2->Ok_0);
                        }
                    }
                    offset = offset + consumed;
                },
            }
        }
        proof {
            assert(bytes@.skip(offset as int) =~= Seq::<u8>::empty());
            lemma_parse_chunks_nil(bytes@.skip(offset as int));
            assert(chunks@.map_values(|c: Chunk| c@) + Seq::<ChunkModel>::empty() =~= chunks@
                .map_values(|c: Chunk| c@));
        }
        Ok(Png { chunks })
    }

    /// The container serialized: the signature, then every chunk's bytes in
    /// sequence order.
    pub fn as_bytes(&self) -> (r: Vec<u8>)
        ensures
            r@ == spec_serialize_png(self@),
    {
        let mut out = signature();
        let mut i: usize = 0;
        while i < self.chunks.len()
            invariant
                0 <= i <= self.chunks@.len(),
                self@.len() == self.chunks@.len(),
                self@ == self.chunks@.map_values(|c: Chunk| c@),
                out@ == spec_signature() + spec_serialize_chunks(self@.take(i as int)),
            decreases self.chunks@.len() - i,
        {
            let mut cb = self.chunks[i].as_bytes();
            out.append(&mut cb);
            proof {
                let m = self@[i as int];
                lemma_serialize_chunks_concat(self@.take(i as int), seq![m]);
                assert(seq![m].drop_first() =~= Seq::<ChunkModel>::empty());
                assert(spec_serialize_chunks(Seq::<ChunkModel>::empty()) == Seq::<u8>::empty());
                assert(spec_serialize_chunks(seq![m]) == spec_serialize_chunk(m)
                    + Seq::<u8>::empty());
                assert(spec_serialize_chunk(m) + Seq::<u8>::empty() =~= spec_serialize_chunk(m));
                assert(self@.take(i as int) + seq![m] =~= self@.take(i as int + 1));
            }
            i += 1;
        }
        proof {
            assert(self@.take(self@.len() as int) =~= self@);
        }
        out
    }
}

/// The chunk at index `i` is the first of the sequence whose type code
/// renders to the given name.
pub open spec fn spec_is_first_match(ms: Seq<ChunkModel>, name: Seq<char>, i: int) -> bool {
    &&& 0 <= i < ms.len()
    &&& spec_name_matches(ms[i].ty, name)
    &&& forall|j: int| 0 <= j < i ==> !spec_name_matches(#[trigger] ms[j].ty, name)
}

impl Png {
    /// The first chunk, in sequence order, whose type code renders to the
    /// given name, or nothing when no chunk's does.
    pub fn chunk_by_type(&self, name: &str) -> (r: Option<&Chunk>)
        ensures
            match r {
                Some(c) => exists|i: int|
                    #[trigger] spec_is_first_match(self@, name@, i) && c@ == self@[i],
                None => forall|i: int|
                    0 <= i < self@.len() ==> !spec_name_matches(
                        #[trigger] self@[i].ty,
                        name@,
                    ),
            },
    {
        let mut i: usize = 0;
        while i < self.chunks.len()
            invariant
                0 <= i <= self.chunks@.len(),
                self@ == self.chunks@.map_values(|c: Chunk| c@),
                forall|j: int| 0 <= j < i ==> !spec_name_matches(#[trigger] self@[j].ty, name@),
            decreases self.chunks@.len() - i,
        {
            if self.chunks[i].chunk_type().matches_name(name) {
                proof {
                    assert(spec_is_first_match(self@, name@, i as int));
                }
                return Some(&self.chunks[i]);
            }
            i += 1;
        }
        None
    }

    /// Removes and returns the first chunk, in sequence order, whose type
    /// code renders to the given name, keeping the rest in order; fails, and
    /// leaves the container unchanged, when no chunk's does.
    pub fn remove_chunk(&mut self, name: &str) -> (r: Result<Chunk, PngError>)
        ensures
            match r {
                Ok(c) => exists|i: int|
                    {
                        &&& #[trigger] spec_is_first_match(old(self)@, name@, i)
                        &&& c@ == old(self)@[i]
                        &&& final(self)@ == old(self)@.remove(i)
                    },
                Err(e) => {
                    &&& e == PngError::ChunkNotFound
                    &&& final(self)@ == old(self)@
                    &&& forall|i: int|
                        0 <= i < old(self)@.len() ==> !spec_name_matches(
                            #[trigger] old(self)@[i].ty,
                            name@,
                        )
                },
            },
    {
        let mut i: usize = 0;
        while i < self.chunks.len()
            invariant
                0 <= i <= self.chunks@.len(),
                self@ == old(self)@,
                self@ == self.chunks@.map_values(|c: Chunk| c@),
                forall|j: int| 0 <= j < i ==> !spec_name_matches(#[trigger] self@[j].ty, name@),
            decreases self.chunks@.len() - i,
        {
            if self.chunks[i].chunk_type().matches_name(name) {
                let ghost before = self@;
                let c = self.chunks.remove(i);
                proof {
                    assert(spec_is_first_match(before, name@, i as int));
                    assert(self.chunks@.map_values(|c: Chunk| c@) =~= before.remove(i as int));
                    assert(spec_is_first_match(old(self)@, name@, i as int) && c@ == old(
                        self,
                    )@[i as int] && self@ == old(self)@.remove(i as int));
                }
                return Ok(c);
            }
            i += 1;
        }
        Err(PngError::ChunkNotFound)
    }
}

/// An empty buffer parses as the empty chunk sequence.
pub proof fn lemma_parse_chunks_nil(bytes: Seq<u8>)
    requires
        bytes.len() == 0,
    ensures
        spec_parse_chunks(bytes) == Ok::<Seq<ChunkModel>, ChunkError>(Seq::empty()),
{
    reveal(spec_parse_chunks);
}

/// When the front of a nonempty buffer fails to parse as a chunk, the whole
/// sequence parse fails with that error.
pub proof fn lemma_parse_chunks_fail(bytes: Seq<u8>, e: ChunkError)
    requires
        bytes.len() != 0,
        spec_parse_chunk(bytes) == Err::<ChunkModel, ChunkError>(e),
    ensures
        spec_parse_chunks(bytes) == Err::<Seq<ChunkModel>, ChunkError>(e),
{
    reveal(spec_parse_chunks);
}

/// Unfolds one step of chunk-sequence parsing: when the front of the buffer
/// parses as a chunk, the sequence result is that chunk followed by whatever
/// the rest of the buffer yields.
pub proof fn lemma_parse_chunks_step(bytes: Seq<u8>, m: ChunkModel)
    requires
        bytes.len() != 0,
        spec_parse_chunk(bytes) == Ok::<ChunkModel, ChunkError>(m),
        12 + m.data.len() <= bytes.len(),
    ensures
        spec_parse_chunks(bytes) == spec_chunks_after(
            seq![m],
            spec_parse_chunks(bytes.skip(12 + m.data.len() as int)),
        ),
{
    reveal(spec_parse_chunks);
}

/// Parsing the serialization of a nonempty chunk sequence yields the first
/// chunk followed by whatever the remaining serialization yields.
#[verifier::rlimit(50)]
proof fn lemma_chunks_round_trip_step(ms: Seq<ChunkModel>)
    requires
        ms.len() > 0,
        ms[0].wf(),
        spec_type_valid(ms[0].ty),
    ensures
        spec_parse_chunks(spec_serialize_chunks(ms)) == spec_chunks_after(
            seq![ms[0]],
            spec_parse_chunks(spec_serialize_chunks(ms.drop_first())),
        ),
{
    let m = ms[0];
    let rest_bytes = spec_serialize_chunks(ms.drop_first());
    let s = spec_serialize_chunks(ms);
    lemma_chunk_parse_serialized(m, rest_bytes);
    assert(s == spec_serialize_chunk(m) + rest_bytes);
    assert(s.len() == 12 + m.data.len() + rest_bytes.len());
    assert(s.skip(12 + m.data.len() as int) =~= rest_bytes);
    lemma_parse_chunks_step(s, m);
}

pub proof fn lemma_chunks_round_trip(ms: Seq<ChunkModel>)
    requires
        forall|i: int|
            0 <= i < ms.len() ==> (#[trigger] ms[i]).wf() && spec_type_valid(ms[i].ty),
    ensures
        spec_parse_chunks(spec_serialize_chunks(ms)) == Ok::<Seq<ChunkModel>, ChunkError>(ms),
    decreases ms.len(),
{
    if ms.len() == 0 {
        assert(ms =~= Seq::<ChunkModel>::empty());
        assert(spec_serialize_chunks(ms) =~= Seq::<u8>::empty());
        lemma_parse_chunks_nil(spec_serialize_chunks(ms));
    } else {
        lemma_chunks_round_trip_step(ms);
        assert forall|i: int| 0 <= i < ms.drop_first().len() implies (#[trigger] ms.drop_first()[i]).wf()
            && spec_type_valid(ms.drop_first()[i].ty) by {
            assert(ms.drop_first()[i] == ms[i + 1]);
        }
        lemma_chunks_round_trip(ms.drop_first());
        assert(seq![ms[0]] + ms.drop_first() =~= ms);
    }
}

/// Container round trip: parsing the serialization of a whole container of
/// well-formed chunks with valid type codes yields the same container, the
/// full chunk sequence in order.
pub proof fn lemma_png_round_trip(ms: Seq<ChunkModel>)
    requires
        forall|i: int|
            0 <= i < ms.len() ==> (#[trigger] ms[i]).wf() && spec_type_valid(ms[i].ty),
    ensures
        spec_parse_png(spec_serialize_png(ms)) == Ok::<Seq<ChunkModel>, PngError>(ms),
{
    let s = spec_serialize_png(ms);
    assert(s.subrange(0, 8) =~= spec_signature());
    assert(s.skip(8) =~= spec_serialize_chunks(ms));
    lemma_chunks_round_trip(ms);
}

/// Appending a chunk of a type that no chunk of the sequence carries and
/// then removing that type removes exactly the appended chunk and restores
/// the original sequence.
pub proof fn lemma_append_then_remove(ms: Seq<ChunkModel>, m: ChunkModel, name: Seq<char>)
    requires
        spec_name_matches(m.ty, name),
        forall|i: int| 0 <= i < ms.len() ==> !spec_name_matches(#[trigger] ms[i].ty, name),
    ensures
        spec_is_first_match(ms.push(m), name, ms.len() as int),
        ms.push(m)[ms.len() as int] == m,
        ms.push(m).remove(ms.len() as int) == ms,
{
    assert(ms.push(m).remove(ms.len() as int) =~= ms);
}

/// Serializing a concatenation of chunk sequences concatenates their
/// serializations.
pub proof fn lemma_serialize_chunks_concat(a: Seq<ChunkModel>, b: Seq<ChunkModel>)
    ensures
        spec_serialize_chunks(a + b) == spec_serialize_chunks(a) + spec_serialize_chunks(b),
    decreases a.len(),
{
    if a.len() == 0 {
        assert(a + b =~= b);
        assert(Seq::<u8>::empty() + spec_serialize_chunks(b) =~= spec_serialize_chunks(b));
    } else {
        assert((a + b).drop_first() =~= a.drop_first() + b);
        lemma_serialize_chunks_concat(a.drop_first(), b);
        assert(spec_serialize_chunk(a[0]) + (spec_serialize_chunks(a.drop_first())
            + spec_serialize_chunks(b)) =~= (spec_serialize_chunk(a[0]) + spec_serialize_chunks(
            a.drop_first(),
        )) + spec_serialize_chunks(b));
    }
}

} // verus!
