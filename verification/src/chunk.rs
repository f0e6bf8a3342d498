//! A single chunk record: a length-prefixed, CRC-checked unit holding a type
//! code and an opaque byte payload.

use crate::checksum::{crc32_checksum, crc32_of};
use crate::chunk_type::{valid_type_bytes, ChunkType};
use crate::encoding::{
    lemma_u32_be_bytes_roundtrip, lemma_u32_be_value_roundtrip, push_u32_be,
    spec_u32_from_be_bytes, spec_u32_to_be_bytes, u32_from_be,
};
use crate::text;
use crate::PMSGError;
use vstd::prelude::*;
use vstd::string::StringExecFns;
use vstd::utf8::{decode_utf8, valid_utf8};

verus! {

/// The largest length a chunk may declare: 2^31.
pub const MAX_CHUNK_LENGTH: u32 = 0x8000_0000;

/// The mathematical content of a chunk: its declared length, type bytes,
/// payload and stored checksum.
#[verifier::ext_equal]
pub struct ChunkView {
    pub length: u32,
    pub type_bytes: Seq<u8>,
    pub data: Seq<u8>,
    pub crc: u32,
}

impl ChunkView {
    /// The invariant every constructed chunk satisfies: a valid type code,
    /// a length that counts the data and stays within 2^31, and a checksum
    /// that equals the CRC-32/IEEE checksum of the type and data bytes.
    pub open spec fn wf(self) -> bool {
        &&& valid_type_bytes(self.type_bytes)
        &&& self.length == self.data.len()
        &&& self.data.len() <= MAX_CHUNK_LENGTH
        &&& self.crc == crc32_of(self.type_bytes + self.data)
    }

    /// The byte record this chunk serializes to: big-endian length, the 4
    /// type bytes, the data, and the big-endian stored checksum.
    pub open spec fn serialized(self) -> Seq<u8> {
        spec_u32_to_be_bytes(self.length) + self.type_bytes + self.data + spec_u32_to_be_bytes(
            self.crc,
        )
    }

    /// The chunk's diagnostic text: the type code's text, then the data as
    /// best-effort (lossy) UTF-8 in quotes.
    pub open spec fn rendered(self) -> Seq<char> {
        decode_utf8(self.type_bytes) + "\""@ + text::lossy_utf8_of(self.data) + "\""@
    }
}

/// The result of reading one chunk record from `b` at position `i`: the
/// parsed chunk and the position just after it, or the error that rejects
/// the record. The stored checksum must equal the checksum recomputed over
/// the type and data bytes.
pub open spec fn spec_parse_chunk(b: Seq<u8>, i: int) -> Result<(ChunkView, int), PMSGError> {
    if i + 4 > b.len() {
        Err(PMSGError::TruncatedInput)
    } else {
        let length = spec_u32_from_be_bytes(b.subrange(i, i + 4));
        if length > MAX_CHUNK_LENGTH {
            Err(PMSGError::InvalidChunkLength)
        } else if i + 8 > b.len() {
            Err(PMSGError::TruncatedInput)
        } else if !valid_type_bytes(b.subrange(i + 4, i + 8)) {
            Err(PMSGError::InvalidChunkType)
        } else if i + 12 + length > b.len() {
            Err(PMSGError::TruncatedInput)
        } else {
            let tb = b.subrange(i + 4, i + 8);
            let data = b.subrange(i + 8, i + 8 + length);
            let stored = spec_u32_from_be_bytes(b.subrange(i + 8 + length, i + 12 + length));
            if crc32_of(tb + data) != stored {
                Err(PMSGError::InvalidCRC)
            } else {
                Ok((ChunkView { length, type_bytes: tb, data, crc: stored }, i + 12 + length))
            }
        }
    }
}

/// A single length-prefixed, checksummed chunk: a type code plus an opaque
/// payload it exclusively owns. The length and checksum are derived fields,
/// fixed when the chunk is constructed or parsed.
#[derive(Debug)]
pub struct Chunk {
    length: u32,
    chunk_type: ChunkType,
    chunk_data: Vec<u8>,
    crc: u32,
}

impl View for Chunk {
    type V = ChunkView;

    closed spec fn view(&self) -> ChunkView {
        ChunkView {
            length: self.length,
            type_bytes: self.chunk_type@,
            data: self.chunk_data@,
            crc: self.crc,
        }
    }
}

impl Chunk {
    /// The chunk's fields satisfy the chunk invariant.
    pub open spec fn wf(self) -> bool {
        self@.wf()
    }

    /// Creates a chunk from a type code and a payload. The length and the
    /// checksum are computed here, never taken from the caller. Fails with
    /// `InvalidChunkLength` exactly when the payload exceeds 2^31 bytes.
    pub fn new(chunk_type: ChunkType, data: Vec<u8>) -> (r: Result<Chunk, PMSGError>)
        requires
            chunk_type.wf(),
        ensures
            r is Ok <==> data@.len() <= MAX_CHUNK_LENGTH,
            r matches Ok(c) ==> c.wf() && c@.type_bytes == chunk_type@ && c@.data == data@,
            r is Err ==> r->Err_0 == PMSGError::InvalidChunkLength,
    {
        if data.len() > MAX_CHUNK_LENGTH as usize {
            return Err(PMSGError::InvalidChunkLength);
        }
        let length = data.len() as u32;
        let tb = chunk_type.bytes();
        let mut buf: Vec<u8> = Vec::new();
        buf.push(tb[0]);
        buf.push(tb[1]);
        buf.push(tb[2]);
        buf.push(tb[3]);
        buf.extend_from_slice(data.as_slice());
        proof {
            assert(buf@ =~= chunk_type@ + data@);
        }
        let crc = crc32_checksum(buf.as_slice());
        Ok(Chunk { length, chunk_type, chunk_data: data, crc })
    }

    /// Reads one chunk record from `bytes` at position `start`, consuming
    /// exactly `4 + 4 + length + 4` bytes; what follows is the caller's
    /// concern. On success the returned position is just after the record,
    /// and the record's bytes are exactly the chunk's own serialization.
    pub fn parse_at(bytes: &[u8], start: usize) -> (r: Result<(Chunk, usize), PMSGError>)
        requires
            start <= bytes@.len(),
        ensures
            r is Ok <==> spec_parse_chunk(bytes@, start as int) is Ok,
            r is Err ==> r->Err_0 == spec_parse_chunk(bytes@, start as int)->Err_0,
            r matches Ok((c, end)) ==> ({
                let (cv, e) = spec_parse_chunk(bytes@, start as int)->Ok_0;
                &&& c@ == cv
                &&& end == e
                &&& c.wf()
                &&& start + 12 <= end <= bytes@.len()
                &&& c@.serialized() == bytes@.subrange(start as int, end as int)
            }),
    {
        let ghost b = bytes@;
        let ghost i = start as int;
        let n = bytes.len();
        if n - start < 4 {
            return Err(PMSGError::TruncatedInput);
        }
        let length = u32_from_be(bytes[start], bytes[start + 1], bytes[start + 2], bytes[start
            + 3]);
        proof {
            assert(seq![b[i], b[i + 1], b[i + 2], b[i + 3]] =~= b.subrange(i, i + 4));
        }
        if length > MAX_CHUNK_LENGTH {
            return Err(PMSGError::InvalidChunkLength);
        }
        if n - start < 8 {
            return Err(PMSGError::TruncatedInput);
        }
        let raw = [bytes[start + 4], bytes[start + 5], bytes[start + 6], bytes[start + 7]];
        proof {
            assert(raw@ =~= b.subrange(i + 4, i + 8));
        }
        let chunk_type = match ChunkType::try_from(raw) {
            Ok(ct) => ct,
            Err(e) => {
                return Err(e);
            },
        };
        let len = length as usize;
        if n - start < 12 || len > n - start - 12 {
            return Err(PMSGError::TruncatedInput);
        }
        let mut data: Vec<u8> = Vec::new();
        let mut j: usize = 0;
        while j < len
            invariant
                j <= len,
                n == bytes@.len(),
                start + 12 + len <= n,
                i == start as int,
                b == bytes@,
                data@ =~= b.subrange(i + 8, i + 8 + j),
            decreases len - j,
        {
            data.push(bytes[start + 8 + j]);
            j = j + 1;
        }
        proof {
            assert(data@ =~= b.subrange(i + 8, i + 8 + length));
        }
        let type_and_data = vstd::slice::slice_subrange(bytes, start + 4, start + 8 + len);
        proof {
            assert(b.subrange(i + 4, i + 8 + length) =~= b.subrange(i + 4, i + 8) + b.subrange(
                i + 8,
                i + 8 + length,
            ));
        }
        let computed = crc32_checksum(type_and_data);
        let stored = u32_from_be(
            bytes[start + 8 + len],
            bytes[start + 9 + len],
            bytes[start + 10 + len],
            bytes[start + 11 + len],
        );
        proof {
            assert(seq![b[i + 8 + length], b[i + 9 + length], b[i + 10 + length], b[i + 11
                + length]] =~= b.subrange(i + 8 + length, i + 12 + length));
        }
        if computed != stored {
            return Err(PMSGError::InvalidCRC);
        }
        let end = start + 12 + len;
        let c = Chunk { length, chunk_type, chunk_data: data, crc: stored };
        proof {
            let (cv, e) = spec_parse_chunk(b, i)->Ok_0;
            assert(c@ =~= cv);
            lemma_u32_be_value_roundtrip(b.subrange(i, i + 4));
            lemma_u32_be_value_roundtrip(b.subrange(i + 8 + length, i + 12 + length));
            assert(c@.serialized() =~= b.subrange(i, end as int));
        }
        Ok((c, end))
    }

    /// Parses a chunk from the start of `raw`. Leftover bytes after the
    /// record are ignored; the container loop accounts for them.
    pub fn try_from(raw: &[u8]) -> (r: Result<Chunk, PMSGError>)
        ensures
            r is Ok <==> spec_parse_chunk(raw@, 0) is Ok,
            r is Err ==> r->Err_0 == spec_parse_chunk(raw@, 0)->Err_0,
            r matches Ok(c) ==> ({
                let (cv, end) = spec_parse_chunk(raw@, 0)->Ok_0;
                c@ == cv && c.wf() && c@.serialized() == raw@.subrange(0, end)
            }),
    {
        match Chunk::parse_at(raw, 0) {
            Ok((c, _)) => Ok(c),
            Err(e) => Err(e),
        }
    }

    /// The length of the data carried by the chunk.
    pub fn length(&self) -> (r: u32)
        ensures
            r == self@.length,
    {
        self.length
    }

    /// The parsed type code of the chunk.
    pub fn chunk_type(&self) -> (r: &ChunkType)
        ensures
            r@ == self@.type_bytes,
    {
        &self.chunk_type
    }

    /// The data of the chunk as raw bytes.
    pub fn data(&self) -> (r: &[u8])
        ensures
            r@ == self@.data,
    {
        self.chunk_data.as_slice()
    }

    /// The stored CRC checksum of the chunk.
    pub fn crc(&self) -> (r: u32)
        ensures
            r == self@.crc,
    {
        self.crc
    }

    /// The chunk data decoded as UTF-8 text. Fails with
    /// `InvalidTextEncoding` exactly when the data is not valid UTF-8.
    pub fn data_as_string(&self) -> (r: Result<String, PMSGError>)
        ensures
            r is Ok <==> valid_utf8(self@.data),
            r matches Ok(s) ==> s@ == decode_utf8(self@.data),
            r is Err ==> r->Err_0 == PMSGError::InvalidTextEncoding,
    {
        match text::string_from_utf8(self.chunk_data.as_slice()) {
            Some(s) => Ok(s),
            None => Err(PMSGError::InvalidTextEncoding),
        }
    }

    /// The whole chunk as bytes: big-endian length, type bytes, data, and
    /// big-endian checksum. The checksum is the stored field, fixed at
    /// construction or parse time; it is not recomputed here.
    pub fn as_bytes(&self) -> (r: Vec<u8>)
        ensures
            r@ == self@.serialized(),
    {
        let mut out: Vec<u8> = Vec::new();
        push_u32_be(&mut out, self.length);
        let tb = self.chunk_type.bytes();
        out.push(tb[0]);
        out.push(tb[1]);
        out.push(tb[2]);
        out.push(tb[3]);
        out.extend_from_slice(self.chunk_data.as_slice());
        push_u32_be(&mut out, self.crc);
        proof {
            assert(out@ =~= self@.serialized());
        }
        out
    }

    /// Diagnostic rendering: the type code's text, then the data as
    /// best-effort (lossy) UTF-8 in quotes.
    pub fn to_text(&self) -> (r: String)
        requires
            valid_type_bytes(self@.type_bytes),
        ensures
            r@ == self@.rendered(),
    {
        let mut s = self.chunk_type.to_text();
        s.append("\"");
        let body = text::string_from_utf8_lossy(self.chunk_data.as_slice());
        s.append(body.as_str());
        s.append("\"");
        s
    }
}

/// Law: round trip. A well-formed chunk parses back from its own
/// serialization, in full, to exactly the same length, type, data and
/// checksum.
pub proof fn lemma_chunk_roundtrip(cv: ChunkView)
    requires
        cv.wf(),
    ensures
        spec_parse_chunk(cv.serialized(), 0) == Ok::<(ChunkView, int), PMSGError>(
            (cv, cv.serialized().len() as int),
        ),
{
    let b = cv.serialized();
    lemma_u32_be_bytes_roundtrip(cv.length);
    lemma_u32_be_bytes_roundtrip(cv.crc);
    assert(b.subrange(0, 4) =~= spec_u32_to_be_bytes(cv.length));
    assert(b.subrange(4, 8) =~= cv.type_bytes);
    assert(b.subrange(8, 8 + cv.length as int) =~= cv.data);
    assert(b.subrange(8 + cv.length as int, 12 + cv.length as int) =~= spec_u32_to_be_bytes(
        cv.crc,
    ));
    let (pv, end) = spec_parse_chunk(b, 0)->Ok_0;
    assert(pv =~= cv);
}

} // verus!
