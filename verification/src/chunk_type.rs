//! The 4-byte chunk type code and the structural properties it encodes.

use crate::text;
use crate::PMSGError;
use vstd::prelude::*;
use vstd::string::StrSliceExecFns;
use vstd::utf8::decode_utf8;
use vstd::utf8::encode_utf8;

verus! {

/// True when `b` is an ASCII letter (`A`-`Z` or `a`-`z`).
pub open spec fn is_ascii_letter(b: u8) -> bool {
    (65 <= b && b <= 90) || (97 <= b && b <= 122)
}

/// True when `s` can be a type code: exactly 4 bytes, each an ASCII letter.
pub open spec fn valid_type_bytes(s: Seq<u8>) -> bool {
    s.len() == 4 && (forall|i: int| 0 <= i < 4 ==> is_ascii_letter(#[trigger] s[i]))
}

/// A parsed 4-byte chunk type code.
///
/// Construction validates that every byte is an ASCII letter. Bit 5 (value
/// `0x20`) of each byte — the case of the letter — carries one structural
/// property of the chunk, read by the `is_*` methods.
#[derive(Debug, Clone, Copy)]
pub struct ChunkType([u8; 4]);

impl View for ChunkType {
    type V = Seq<u8>;

    closed spec fn view(&self) -> Seq<u8> {
        self.0@
    }
}

impl PartialEq for ChunkType {
    fn eq(&self, other: &ChunkType) -> (r: bool) {
        let r = self.0[0] == other.0[0] && self.0[1] == other.0[1] && self.0[2] == other.0[2]
            && self.0[3] == other.0[3];
        proof {
            if r {
                assert(self@ =~= other@);
            }
        }
        r
    }
}

impl vstd::std_specs::cmp::PartialEqSpecImpl for ChunkType {
    open spec fn obeys_eq_spec() -> bool {
        true
    }

    open spec fn eq_spec(&self, other: &ChunkType) -> bool {
        self@ == other@
    }
}

/// True when `b` is an ASCII letter.
fn is_letter(b: u8) -> (r: bool)
    ensures
        r == is_ascii_letter(b),
{
    (65 <= b && b <= 90) || (97 <= b && b <= 122)
}

impl ChunkType {
    /// Every byte of the code is an ASCII letter.
    pub open spec fn wf(self) -> bool {
        valid_type_bytes(self@)
    }

    /// Parses a type code from 4 raw bytes. Fails with `InvalidChunkType`
    /// if any byte is not an ASCII letter.
    pub fn try_from(raw: [u8; 4]) -> (r: Result<ChunkType, PMSGError>)
        ensures
            r is Ok <==> valid_type_bytes(raw@),
            r matches Ok(ct) ==> ct@ == raw@ && ct.wf(),
            r is Err ==> r->Err_0 == PMSGError::InvalidChunkType,
    {
        let ok = is_letter(raw[0]) && is_letter(raw[1]) && is_letter(raw[2]) && is_letter(raw[3]);
        if !ok {
            return Err(PMSGError::InvalidChunkType);
        }
        Ok(ChunkType(raw))
    }

    /// Parses a type code from text. Fails with `InvalidChunkType` if the
    /// text is not exactly 4 bytes when encoded, or if any byte is not an
    /// ASCII letter.
    pub fn from_str(s: &str) -> (r: Result<ChunkType, PMSGError>)
        ensures
            r is Ok <==> valid_type_bytes(encode_utf8(s@)),
            r matches Ok(ct) ==> ct@ == encode_utf8(s@) && ct.wf(),
            r is Err ==> r->Err_0 == PMSGError::InvalidChunkType,
    {
        let b = s.as_bytes_vec();
        if b.len() != 4 {
            return Err(PMSGError::InvalidChunkType);
        }
        let raw = [b[0], b[1], b[2], b[3]];
        proof {
            assert(raw@ =~= encode_utf8(s@));
        }
        ChunkType::try_from(raw)
    }

    /// The 4 raw bytes of the code, exactly as parsed.
    pub fn bytes(&self) -> (r: [u8; 4])
        ensures
            r@ == self@,
    {
        self.0
    }

    /// The code rendered as text: its 4 bytes read as ASCII, which
    /// construction already validated.
    pub fn to_text(&self) -> (r: String)
        requires
            self.wf(),
        ensures
            r@ == decode_utf8(self@),
            r@.len() == 4,
    {
        let mut v: Vec<u8> = Vec::new();
        v.push(self.0[0]);
        v.push(self.0[1]);
        v.push(self.0[2]);
        v.push(self.0[3]);
        proof {
            assert(v@ =~= self@);
            text::lemma_ascii_bytes_utf8(self@);
        }
        match text::string_from_utf8(v.as_slice()) {
            Some(s) => s,
            None => vstd::pervasive::unreached(),
        }
    }

    /// The chunk is critical when bit 5 of the first byte is clear
    /// (the first letter is uppercase).
    pub fn is_critical(&self) -> (r: bool)
        ensures
            r == ((self@[0] >> 5) & 1 == 0),
    {
        (self.0[0] >> 5) & 1 == 0
    }

    /// The chunk is public when bit 5 of the second byte is clear
    /// (the second letter is uppercase).
    pub fn is_public(&self) -> (r: bool)
        ensures
            r == ((self@[1] >> 5) & 1 == 0),
    {
        (self.0[1] >> 5) & 1 == 0
    }

    /// The reserved bit is valid when bit 5 of the third byte is clear
    /// (the third letter is uppercase).
    pub fn is_reserved_bit_valid(&self) -> (r: bool)
        ensures
            r == ((self@[2] >> 5) & 1 == 0),
    {
        (self.0[2] >> 5) & 1 == 0
    }

    /// The chunk is safe to copy when bit 5 of the fourth byte is set
    /// (the fourth letter is lowercase).
    pub fn is_safe_to_copy(&self) -> (r: bool)
        ensures
            r == ((self@[3] >> 5) & 1 == 1),
    {
        (self.0[3] >> 5) & 1 == 1
    }

    /// The code is accepted as well formed exactly when its reserved bit
    /// is valid.
    pub fn is_valid(&self) -> (r: bool)
        ensures
            r == ((self@[2] >> 5) & 1 == 0),
    {
        self.is_reserved_bit_valid()
    }
}

} // verus!
