//! The ordered chunk sequence that constitutes a whole PNG byte stream:
//! signature validation, back-to-back chunk parsing, order-preserving
//! mutation, and serialization.

use crate::chunk::{spec_parse_chunk, Chunk, ChunkView};
use crate::chunk_type::{valid_type_bytes, ChunkType};
use crate::encoding::lemma_u32_be_value_roundtrip;
use crate::PMSGError;
use vstd::prelude::*;
use vstd::string::StringExecFns;
use vstd::utf8::encode_utf8;

verus! {

/// The fixed 8-byte magic signature that opens every PNG byte stream.
pub open spec fn spec_signature() -> Seq<u8> {
    seq![0x89u8, 0x50u8, 0x4eu8, 0x47u8, 0x0du8, 0x0au8, 0x1au8, 0x0au8]
}

/// The type bytes of the leading chunk every parsed container must start
/// with: `IHDR`.
pub open spec fn spec_ihdr() -> Seq<u8> {
    seq![73u8, 72u8, 68u8, 82u8]
}

/// The views of a sequence of chunks.
pub open spec fn views_of(cs: Seq<Chunk>) -> Seq<ChunkView> {
    cs.map_values(|c: Chunk| c@)
}

/// All chunk records of `b` from position `i` to the end, parsed
/// back-to-back until the input is exhausted; the first rejected record's
/// error propagates.
pub open spec fn spec_parse_chunks(b: Seq<u8>, i: int) -> Result<Seq<ChunkView>, PMSGError>
    decreases b.len() - i,
{
    if i >= b.len() {
        Ok(Seq::empty())
    } else {
        match spec_parse_chunk(b, i) {
            Ok((cv, end)) => match spec_parse_chunks(b, end) {
                Ok(rest) => Ok(seq![cv] + rest),
                Err(e) => Err(e),
            },
            Err(e) => Err(e),
        }
    }
}

/// `r` with the already-parsed chunks `pre` put in front of its contents.
pub open spec fn spec_prepend_chunks(
    pre: Seq<ChunkView>,
    r: Result<Seq<ChunkView>, PMSGError>,
) -> Result<Seq<ChunkView>, PMSGError> {
    match r {
        Ok(cs) => Ok(pre + cs),
        Err(e) => Err(e),
    }
}

/// The chunk sequence a whole byte stream parses to: the signature must
/// match exactly, every chunk record must parse, and the first chunk must
/// be an `IHDR` chunk.
pub open spec fn spec_parse_png(b: Seq<u8>) -> Result<Seq<ChunkView>, PMSGError> {
    if b.len() < 8 {
        Err(PMSGError::TruncatedInput)
    } else if b.subrange(0, 8) != spec_signature() {
        Err(PMSGError::InvalidPNGFileHeader)
    } else {
        match spec_parse_chunks(b, 8) {
            Ok(cs) => {
                if cs.len() == 0 || cs[0].type_bytes != spec_ihdr() {
                    Err(PMSGError::InvalidStartingChunk)
                } else {
                    Ok(cs)
                }
            },
            Err(e) => Err(e),
        }
    }
}

/// The concatenation of the serializations of `cs`, in order.
pub open spec fn spec_serialize_chunks(cs: Seq<ChunkView>) -> Seq<u8>
    decreases cs.len(),
{
    if cs.len() == 0 {
        Seq::empty()
    } else {
        cs[0].serialized() + spec_serialize_chunks(cs.drop_first())
    }
}

/// The byte stream a container with chunks `cs` serializes to: the fixed
/// signature followed by each chunk's record, in list order.
pub open spec fn spec_serialize_png(cs: Seq<ChunkView>) -> Seq<u8> {
    spec_signature() + spec_serialize_chunks(cs)
}

/// True when some chunk in `cs` has the type bytes `t`.
pub open spec fn has_chunk(cs: Seq<ChunkView>, t: Seq<u8>) -> bool {
    exists|k: int| 0 <= k < cs.len() && cs[k].type_bytes == t
}

/// The index of the first chunk in `cs` whose type bytes are `t`
/// (`cs.len()` when there is none).
pub open spec fn first_match_index(cs: Seq<ChunkView>, t: Seq<u8>) -> int
    decreases cs.len(),
{
    if cs.len() == 0 {
        0
    } else if cs[0].type_bytes == t {
        0
    } else {
        1 + first_match_index(cs.drop_first(), t)
    }
}

/// Serializing one more chunk appends its record to the stream.
pub proof fn lemma_serialize_chunks_push(cs: Seq<ChunkView>, cv: ChunkView)
    ensures
        spec_serialize_chunks(cs.push(cv)) == spec_serialize_chunks(cs) + cv.serialized(),
    decreases cs.len(),
{
    if cs.len() == 0 {
        assert(cs.push(cv)[0] == cv);
        assert(cs.push(cv).drop_first() =~= Seq::<ChunkView>::empty());
        assert(spec_serialize_chunks(Seq::<ChunkView>::empty()) == Seq::<u8>::empty());
        assert(spec_serialize_chunks(cs.push(cv)) == cv.serialized() + Seq::<u8>::empty());
        assert(cv.serialized() + Seq::<u8>::empty() =~= Seq::<u8>::empty() + cv.serialized());
    } else {
        assert(cs.push(cv)[0] == cs[0]);
        assert(cs.push(cv).drop_first() =~= cs.drop_first().push(cv));
        lemma_serialize_chunks_push(cs.drop_first(), cv);
        assert(spec_serialize_chunks(cs.push(cv)) == cs[0].serialized() + (spec_serialize_chunks(
            cs.drop_first(),
        ) + cv.serialized()));
        assert(cs[0].serialized() + (spec_serialize_chunks(cs.drop_first()) + cv.serialized())
            =~= (cs[0].serialized() + spec_serialize_chunks(cs.drop_first())) + cv.serialized());
    }
}

/// At a position that matches `t` and is preceded by no match, the first
/// match index is that position.
pub proof fn lemma_first_match_index_at(cs: Seq<ChunkView>, t: Seq<u8>, k: int)
    requires
        0 <= k < cs.len(),
        cs[k].type_bytes == t,
        forall|j: int| 0 <= j < k ==> cs[j].type_bytes != t,
    ensures
        first_match_index(cs, t) == k,
    decreases cs.len(),
{
    if k > 0 {
        assert forall|j: int| 0 <= j < k - 1 implies cs.drop_first()[j].type_bytes != t by {
            assert(cs.drop_first()[j] == cs[j + 1]);
        }
        lemma_first_match_index_at(cs.drop_first(), t, k - 1);
    }
}

/// The fixed 8-byte magic signature as bytes.
fn png_signature() -> (r: Vec<u8>)
    ensures
        r@ == spec_signature(),
{
    let mut v: Vec<u8> = Vec::new();
    v.push(0x89);
    v.push(0x50);
    v.push(0x4e);
    v.push(0x47);
    v.push(0x0d);
    v.push(0x0a);
    v.push(0x1a);
    v.push(0x0a);
    proof {
        assert(v@ =~= spec_signature());
    }
    v
}

/// A whole PNG byte stream: the fixed signature plus an ordered chunk
/// sequence it exclusively owns. Order is significant and is preserved
/// across mutation and serialization.
#[derive(Debug)]
pub struct Png {
    chunks: Vec<Chunk>,
}

impl View for Png {
    type V = Seq<ChunkView>;

    closed spec fn view(&self) -> Seq<ChunkView> {
        views_of(self.chunks@)
    }
}

impl Png {
    /// Every chunk of the container satisfies the chunk invariant.
    pub open spec fn wf(self) -> bool {
        forall|k: int| 0 <= k < self@.len() ==> (#[trigger] self@[k]).wf()
    }

    /// Parses a whole byte stream: the fixed signature, then chunk records
    /// back-to-back until the input is exhausted. Fails with
    /// `InvalidPNGFileHeader` before any chunk is parsed when the signature
    /// differs, propagates the first chunk's parse error otherwise, and
    /// fails with `InvalidStartingChunk` when the stream holds no chunk or
    /// its first chunk is not `IHDR`.
    pub fn try_from(bytes: &[u8]) -> (r: Result<Png, PMSGError>)
        ensures
            r is Ok <==> spec_parse_png(bytes@) is Ok,
            r is Err ==> r->Err_0 == spec_parse_png(bytes@)->Err_0,
            r matches Ok(p) ==> p@ == spec_parse_png(bytes@)->Ok_0 && p.wf(),
    {
        let ghost b = bytes@;
        let n = bytes.len();
        if n < 8 {
            return Err(PMSGError::TruncatedInput);
        }
        let sig_ok = bytes[0] == 0x89 && bytes[1] == 0x50 && bytes[2] == 0x4e && bytes[3] == 0x47
            && bytes[4] == 0x0d && bytes[5] == 0x0a && bytes[6] == 0x1a && bytes[7] == 0x0a;
        proof {
            assert(b.subrange(0, 8)[0] == b[0] && b.subrange(0, 8)[1] == b[1] && b.subrange(0, 8)[2]
                == b[2] && b.subrange(0, 8)[3] == b[3] && b.subrange(0, 8)[4] == b[4] && b.subrange(
                0,
                8,
            )[5] == b[5] && b.subrange(0, 8)[6] == b[6] && b.subrange(0, 8)[7] == b[7]);
            if sig_ok {
                assert(b.subrange(0, 8) =~= spec_signature());
            }
        }
        if !sig_ok {
            return Err(PMSGError::InvalidPNGFileHeader);
        }
        let mut chunks: Vec<Chunk> = Vec::new();
        let mut pos: usize = 8;
        while pos < n
            invariant
                8 <= pos <= n,
                n == bytes@.len(),
                b == bytes@,
                b.len() >= 8,
                b.subrange(0, 8) == spec_signature(),
                forall|k: int| 0 <= k < chunks@.len() ==> (#[trigger] chunks@[k]).wf(),
                spec_parse_chunks(b, 8) == spec_prepend_chunks(
                    views_of(chunks@),
                    spec_parse_chunks(b, pos as int),
                ),
            decreases n - pos,
        {
            let ghost pre = views_of(chunks@);
            match Chunk::parse_at(bytes, pos) {
                Ok((c, end)) => {
                    proof {
                        let (cv, e) = spec_parse_chunk(b, pos as int)->Ok_0;
                        assert(views_of(chunks@.push(c)) =~= pre.push(cv));
                        match spec_parse_chunks(b, e) {
                            Ok(rest) => {
                                assert(pre + (seq![cv] + rest) =~= pre.push(cv) + rest);
                            },
                            Err(_) => {},
                        }
                    }
                    chunks.push(c);
                    pos = end;
                },
                Err(e) => {
                    proof {
                        assert(spec_parse_chunks(b, pos as int) == Err::<Seq<ChunkView>, PMSGError>(
                            e,
                        ));
                        assert(spec_parse_png(b) == Err::<Seq<ChunkView>, PMSGError>(e));
                    }
                    return Err(e);
                },
            }
        }
        proof {
            assert(views_of(chunks@) + Seq::<ChunkView>::empty() =~= views_of(chunks@));
        }
        if chunks.len() == 0 {
            return Err(PMSGError::InvalidStartingChunk);
        }
        let tb = chunks[0].chunk_type().bytes();
        let leading_ok = tb[0] == 73 && tb[1] == 72 && tb[2] == 68 && tb[3] == 82;
        proof {
            if leading_ok {
                assert(tb@ =~= spec_ihdr());
            } else {
                assert(tb@[0] == tb[0] && tb@[1] == tb[1] && tb@[2] == tb[2] && tb@[3] == tb[3]);
            }
        }
        if !leading_ok {
            return Err(PMSGError::InvalidStartingChunk);
        }
        Ok(Png { chunks })
    }

    /// A read-only view of the ordered chunk sequence.
    pub fn chunks(&self) -> (r: &Vec<Chunk>)
        ensures
            views_of(r@) == self@,
    {
        &self.chunks
    }

    /// The chunk at position `i` of the sequence.
    pub fn chunk_at(&self, i: usize) -> (r: &Chunk)
        requires
            i < self@.len(),
        ensures
            r@ == self@[i as int],
    {
        &self.chunks[i]
    }

    /// The number of chunks in the sequence.
    pub fn chunk_count(&self) -> (r: usize)
        ensures
            r == self@.len(),
    {
        self.chunks.len()
    }

    /// Pushes `chunk` to the end of the sequence. Nothing is re-validated:
    /// callers manage chunk ordering, e.g. keep a terminal chunk last.
    pub fn append_chunk(&mut self, chunk: Chunk)
        ensures
            final(self)@ == old(self)@.push(chunk@),
    {
        self.chunks.push(chunk);
        proof {
            assert(views_of(self.chunks@) =~= views_of(old(self).chunks@).push(chunk@));
        }
    }

    /// Parses `chunk_type` as a type code, removes the first chunk of that
    /// type from the sequence, and returns it. Fails with `InvalidChunkType`
    /// when the text is not a valid type code and with `ChunkTypeNotFound`
    /// when no chunk matches; the sequence is unchanged on failure.
    pub fn remove_chunk(&mut self, chunk_type: &str) -> (r: Result<Chunk, PMSGError>)
        ensures
            ({
                let key = encode_utf8(chunk_type@);
                let cs = old(self)@;
                &&& (r is Ok <==> valid_type_bytes(key) && has_chunk(cs, key))
                &&& (r is Err ==> final(self)@ == cs)
                &&& (r is Err ==> r->Err_0 == (if !valid_type_bytes(key) {
                    PMSGError::InvalidChunkType
                } else {
                    PMSGError::ChunkTypeNotFound
                }))
                &&& (r matches Ok(c) ==> ({
                    let k = first_match_index(cs, key);
                    &&& 0 <= k < cs.len()
                    &&& cs[k].type_bytes == key
                    &&& c@ == cs[k]
                    &&& final(self)@ == cs.remove(k)
                }))
            }),
    {
        let ghost cs = self@;
        let ct = match ChunkType::from_str(chunk_type) {
            Ok(ct) => ct,
            Err(e) => {
                return Err(e);
            },
        };
        let n = self.chunks.len();
        let mut k: usize = 0;
        while k < n
            invariant
                k <= n,
                n == self.chunks@.len(),
                self.chunks@ == old(self).chunks@,
                cs == views_of(self.chunks@),
                ct.wf(),
                ct@ == encode_utf8(chunk_type@),
                forall|j: int| 0 <= j < k ==> cs[j].type_bytes != ct@,
            decreases n - k,
        {
            let t = *self.chunks[k].chunk_type();
            proof {
                assert(cs[k as int] == self.chunks@[k as int]@);
            }
            if t == ct {
                proof {
                    assert(cs[k as int].type_bytes == ct@);
                    lemma_first_match_index_at(cs, ct@, k as int);
                    assert(has_chunk(cs, ct@));
                }
                let c = self.chunks.remove(k);
                proof {
                    assert(views_of(self.chunks@) =~= cs.remove(k as int));
                }
                return Ok(c);
            }
            k = k + 1;
        }
        proof {
            assert(!has_chunk(cs, ct@));
        }
        Err(PMSGError::ChunkTypeNotFound)
    }

    /// The whole stream as bytes: the fixed signature, then each chunk's
    /// serialization, concatenated in current list order.
    pub fn as_bytes(&self) -> (r: Vec<u8>)
        ensures
            r@ == spec_serialize_png(self@),
    {
        let mut out = png_signature();
        let n = self.chunks.len();
        let mut k: usize = 0;
        while k < n
            invariant
                k <= n,
                n == self.chunks@.len(),
                out@ == spec_signature() + spec_serialize_chunks(self@.subrange(0, k as int)),
            decreases n - k,
        {
            let mut piece = self.chunks[k].as_bytes();
            out.append(&mut piece);
            proof {
                assert(self@.subrange(0, k as int).push(self@[k as int]) =~= self@.subrange(
                    0,
                    k + 1 as int,
                ));
                lemma_serialize_chunks_push(self@.subrange(0, k as int), self@[k as int]);
            }
            k = k + 1;
        }
        proof {
            assert(self@.subrange(0, n as int) =~= self@);
        }
        out
    }

    /// The positions, in increasing order, of every chunk whose type code
    /// equals `chunk_type`; every match is listed. (The decode flow reads
    /// the data of each.)
    pub fn find_chunks(&self, chunk_type: &ChunkType) -> (r: Vec<usize>)
        ensures
            forall|x: int|
                0 <= x < r@.len() ==> #[trigger] r@[x] < self@.len() && self@[r@[x] as int].type_bytes
                    == chunk_type@,
            forall|x: int, y: int| 0 <= x < y < r@.len() ==> r@[x] < r@[y],
            forall|j: int|
                0 <= j < self@.len() && (#[trigger] self@[j]).type_bytes == chunk_type@
                    ==> r@.contains(j as usize),
    {
        let mut r: Vec<usize> = Vec::new();
        let n = self.chunks.len();
        let mut k: usize = 0;
        while k < n
            invariant
                k <= n,
                n == self.chunks@.len(),
                forall|x: int|
                    0 <= x < r@.len() ==> #[trigger] r@[x] < k && self@[r@[x] as int].type_bytes
                        == chunk_type@,
                forall|x: int, y: int| 0 <= x < y < r@.len() ==> r@[x] < r@[y],
                forall|j: int|
                    0 <= j < k && (#[trigger] self@[j]).type_bytes == chunk_type@ ==> r@.contains(
                        j as usize,
                    ),
            decreases n - k,
        {
            let ghost old_r = r@;
            let t = *self.chunks[k].chunk_type();
            proof {
                assert(self@[k as int] == self.chunks@[k as int]@);
            }
            if t == *chunk_type {
                r.push(k);
            }
            proof {
                assert forall|j: int|
                    0 <= j < k + 1 && (#[trigger] self@[j]).type_bytes == chunk_type@ implies r@
                    .contains(j as usize) by {
                    if j < k {
                        let x = choose|x: int| 0 <= x < old_r.len() && old_r[x] == j as usize;
                        assert(r@[x] == j as usize);
                    } else {
                        assert(r@[r@.len() - 1] == k as usize);
                    }
                }
            }
            k = k + 1;
        }
        r
    }

    /// For the embed flow: removes the first chunk of type `terminal_type`,
    /// appends `chunk`, and re-appends the removed chunk, so that a
    /// terminal chunk (for instance `IEND`) stays last. On failure the
    /// sequence is unchanged and `chunk` is not added.
    pub fn insert_before(&mut self, chunk: Chunk, terminal_type: &str) -> (r: Result<
        (),
        PMSGError,
    >)
        ensures
            ({
                let key = encode_utf8(terminal_type@);
                let cs = old(self)@;
                &&& (r is Ok <==> valid_type_bytes(key) && has_chunk(cs, key))
                &&& (r is Err ==> final(self)@ == cs)
                &&& (r is Err ==> r->Err_0 == (if !valid_type_bytes(key) {
                    PMSGError::InvalidChunkType
                } else {
                    PMSGError::ChunkTypeNotFound
                }))
                &&& (r is Ok ==> ({
                    let k = first_match_index(cs, key);
                    final(self)@ == cs.remove(k).push(chunk@).push(cs[k])
                }))
            }),
    {
        match self.remove_chunk(terminal_type) {
            Ok(terminal) => {
                self.append_chunk(chunk);
                self.append_chunk(terminal);
                Ok(())
            },
            Err(e) => Err(e),
        }
    }

    /// Diagnostic rendering of the whole container: a line acknowledging
    /// the signature, then each chunk's diagnostic text, one line per
    /// chunk, in list order.
    pub fn to_text(&self) -> (r: String)
        requires
            forall|k: int| 0 <= k < self@.len() ==> valid_type_bytes((#[trigger] self@[k]).type_bytes),
        ensures
            r@ == "PNG signature OK\n"@ + spec_chunk_lines(self@),
    {
        let mut s = String::from_str("PNG signature OK\n");
        let n = self.chunks.len();
        let mut k: usize = 0;
        while k < n
            invariant
                k <= n,
                n == self.chunks@.len(),
                forall|j: int|
                    0 <= j < self@.len() ==> valid_type_bytes((#[trigger] self@[j]).type_bytes),
                s@ == "PNG signature OK\n"@ + spec_chunk_lines(self@.subrange(0, k as int)),
            decreases n - k,
        {
            proof {
                assert(self.chunks@[k as int]@ == self@[k as int]);
            }
            let line = self.chunks[k].to_text();
            s.append(line.as_str());
            s.append("\n");
            proof {
                assert(self@.subrange(0, k as int).push(self@[k as int]) =~= self@.subrange(
                    0,
                    k + 1 as int,
                ));
                lemma_chunk_lines_push(self@.subrange(0, k as int), self@[k as int]);
                assert(s@ =~= "PNG signature OK\n"@ + spec_chunk_lines(
                    self@.subrange(0, k + 1 as int),
                ));
            }
            k = k + 1;
        }
        proof {
            assert(self@.subrange(0, n as int) =~= self@);
        }
        s
    }
}

/// The diagnostic text of the chunks `cs`: each chunk's rendering followed
/// by a line break, in order.
pub open spec fn spec_chunk_lines(cs: Seq<ChunkView>) -> Seq<char>
    decreases cs.len(),
{
    if cs.len() == 0 {
        Seq::empty()
    } else {
        cs[0].rendered() + "\n"@ + spec_chunk_lines(cs.drop_first())
    }
}

/// Rendering one more chunk appends its line to the text.
pub proof fn lemma_chunk_lines_push(cs: Seq<ChunkView>, cv: ChunkView)
    ensures
        spec_chunk_lines(cs.push(cv)) == spec_chunk_lines(cs) + (cv.rendered() + "\n"@),
    decreases cs.len(),
{
    if cs.len() == 0 {
        assert(cs.push(cv)[0] == cv);
        assert(cs.push(cv).drop_first() =~= Seq::<ChunkView>::empty());
        assert(spec_chunk_lines(Seq::<ChunkView>::empty()) == Seq::<char>::empty());
        assert(spec_chunk_lines(cs.push(cv)) =~= spec_chunk_lines(cs) + (cv.rendered() + "\n"@));
    } else {
        assert(cs.push(cv)[0] == cs[0]);
        assert(cs.push(cv).drop_first() =~= cs.drop_first().push(cv));
        lemma_chunk_lines_push(cs.drop_first(), cv);
        assert(spec_chunk_lines(cs.push(cv)) =~= spec_chunk_lines(cs) + (cv.rendered() + "\n"@));
    }
}

/// A chunk record that parses is well formed, spans at least 12 bytes of
/// the input, and serializes back to exactly the bytes it was read from.
pub proof fn lemma_parse_chunk_serialized(b: Seq<u8>, i: int)
    requires
        0 <= i,
        spec_parse_chunk(b, i) is Ok,
    ensures
        ({
            let (cv, end) = spec_parse_chunk(b, i)->Ok_0;
            &&& cv.wf()
            &&& i + 12 <= end <= b.len()
            &&& cv.serialized() == b.subrange(i, end)
        }),
{
    let (cv, end) = spec_parse_chunk(b, i)->Ok_0;
    lemma_u32_be_value_roundtrip(b.subrange(i, i + 4));
    lemma_u32_be_value_roundtrip(b.subrange(i + 8 + cv.length as int, i + 12 + cv.length as int));
    assert(cv.serialized() =~= b.subrange(i, end));
}

/// Chunk records parsed back-to-back serialize to exactly the input bytes
/// they were read from, up to the end of the input.
pub proof fn lemma_parse_chunks_serialize(b: Seq<u8>, i: int)
    requires
        0 <= i <= b.len(),
        spec_parse_chunks(b, i) is Ok,
    ensures
        spec_serialize_chunks(spec_parse_chunks(b, i)->Ok_0) == b.subrange(i, b.len() as int),
    decreases b.len() - i,
{
    if i >= b.len() {
        assert(b.subrange(i, b.len() as int) =~= Seq::<u8>::empty());
    } else {
        let (cv, end) = spec_parse_chunk(b, i)->Ok_0;
        lemma_parse_chunk_serialized(b, i);
        lemma_parse_chunks_serialize(b, end);
        let rest = spec_parse_chunks(b, end)->Ok_0;
        assert((seq![cv] + rest)[0] == cv);
        assert((seq![cv] + rest).drop_first() =~= rest);
        assert(spec_serialize_chunks(seq![cv] + rest) == cv.serialized() + spec_serialize_chunks(
            rest,
        ));
        assert(b.subrange(i, b.len() as int) =~= b.subrange(i, end) + b.subrange(
            end,
            b.len() as int,
        ));
    }
}

/// Law: container round trip. A byte stream that parses as a container
/// serializes back, with no mutation, to exactly the original bytes.
pub proof fn lemma_png_roundtrip(b: Seq<u8>)
    requires
        spec_parse_png(b) is Ok,
    ensures
        spec_serialize_png(spec_parse_png(b)->Ok_0) == b,
{
    lemma_parse_chunks_serialize(b, 8);
    assert(spec_serialize_png(spec_parse_png(b)->Ok_0) =~= b.subrange(0, 8) + b.subrange(
        8,
        b.len() as int,
    ));
    assert(b.subrange(0, 8) + b.subrange(8, b.len() as int) =~= b);
}

/// Law: remove inverts append. Appending a chunk whose type no present
/// chunk has, then removing the first chunk of that type, removes exactly
/// the appended chunk and restores the previous sequence — and with it the
/// serialized bytes.
pub proof fn lemma_remove_append_inverse(cs: Seq<ChunkView>, cv: ChunkView)
    requires
        forall|j: int| 0 <= j < cs.len() ==> (#[trigger] cs[j]).type_bytes != cv.type_bytes,
    ensures
        has_chunk(cs.push(cv), cv.type_bytes),
        first_match_index(cs.push(cv), cv.type_bytes) == cs.len(),
        cs.push(cv)[first_match_index(cs.push(cv), cv.type_bytes)] == cv,
        cs.push(cv).remove(first_match_index(cs.push(cv), cv.type_bytes)) == cs,
        spec_serialize_png(cs.push(cv).remove(first_match_index(cs.push(cv), cv.type_bytes)))
            == spec_serialize_png(cs),
{
    let cs2 = cs.push(cv);
    assert(cs2[cs.len() as int] == cv);
    lemma_first_match_index_at(cs2, cv.type_bytes, cs.len() as int);
    assert(cs2.remove(cs.len() as int) =~= cs);
}

/// Law: leading-chunk enforcement. A stream whose signature matches and
/// whose chunk records all parse is still rejected with
/// `InvalidStartingChunk` when it has no chunks or its first chunk is not
/// an `IHDR` chunk.
pub proof fn lemma_leading_chunk_enforced(b: Seq<u8>)
    requires
        b.len() >= 8,
        b.subrange(0, 8) == spec_signature(),
        spec_parse_chunks(b, 8) is Ok,
        spec_parse_chunks(b, 8)->Ok_0.len() == 0 || spec_parse_chunks(b, 8)->Ok_0[0].type_bytes
            != spec_ihdr(),
    ensures
        spec_parse_png(b) == Err::<Seq<ChunkView>, PMSGError>(PMSGError::InvalidStartingChunk),
{
}

} // verus!
