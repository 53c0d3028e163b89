//! A single PNG chunk: length, four-letter type, payload and CRC-32.
//!
//! On the wire a chunk is `[length:4 BE][type:4][data:length][crc:4 BE]`,
//! where the checksum covers the type bytes and the payload but not the
//! length prefix. The parser and the serializer here are proved inverse
//! to each other.

use crate::chunk_type::{all_alphabetic, spec_type_wf, ChunkType};
use crate::crc32::{crc, spec_crc32};
use crate::error::PngError;
use crate::text::bytes_to_utf8;
use crate::wire::{
    lemma_u32_be_bytes_roundtrip, lemma_u32_be_bytes_roundtrip_seq, push_be_u32, push_bytes,
    read_be_u32, spec_u32_from_be_bytes, spec_u32_to_be_bytes,
};
use vstd::prelude::*;
use vstd::slice::{slice_subrange, slice_to_vec};
use vstd::utf8::{decode_utf8, valid_utf8};

verus! {

/// The mathematical content of a chunk: declared length, the four type
/// bytes, the payload and the stored checksum.
#[verifier::ext_equal]
pub ghost struct ChunkModel {
    pub length: u32,
    pub ty: Seq<u8>,
    pub data: Seq<u8>,
    pub crc: u32,
}

/// A well-formed chunk: a four-letter type, a length field equal to the
/// payload length and within the PNG limit, and a checksum over the type
/// bytes followed by the payload.
pub open spec fn chunk_model_wf(m: ChunkModel) -> bool {
    &&& spec_type_wf(m.ty)
    &&& m.length == m.data.len()
    &&& m.data.len() <= 0x7fffffff
    &&& m.crc == spec_crc32(m.ty + m.data)
}

/// The chunk built from a type name and a payload: the length field and
/// the checksum are computed, as [`Chunk::new`] computes them.
pub open spec fn spec_new_chunk(ty: Seq<u8>, data: Seq<u8>) -> ChunkModel {
    ChunkModel { length: data.len() as u32, ty, data, crc: spec_crc32(ty + data) }
}

/// The wire form of a chunk: length, type, payload, checksum.
pub open spec fn spec_chunk_bytes(m: ChunkModel) -> Seq<u8> {
    spec_u32_to_be_bytes(m.length) + m.ty + m.data + spec_u32_to_be_bytes(m.crc)
}

/// Parses one chunk from the front of `s`: either its content, or the
/// precise error the executable parser reports.
pub open spec fn spec_parse_chunk(s: Seq<u8>) -> Result<ChunkModel, PngError> {
    if s.len() < 12 {
        Err(PngError::Truncated)
    } else {
        let length = spec_u32_from_be_bytes(s.subrange(0, 4));
        if length > 0x7fffffff {
            Err(PngError::Truncated)
        } else if s.len() < 12 + length {
            Err(PngError::Truncated)
        } else {
            let ty = s.subrange(4, 8);
            let data = s.subrange(8, 8 + length);
            let stored = spec_u32_from_be_bytes(s.subrange(8 + length, 12 + length));
            if !all_alphabetic(ty) {
                Err(PngError::InvalidTypeByte)
            } else if stored != spec_crc32(s.subrange(4, 8 + length)) {
                Err(PngError::CrcMismatch)
            } else {
                Ok(ChunkModel { length, ty, data, crc: stored })
            }
        }
    }
}

/// A length-prefixed, type-tagged, CRC-checked PNG record.
#[derive(Debug)]
pub struct Chunk {
    length: u32,
    chunk_type: ChunkType,
    data: Vec<u8>,
    crc: u32,
}

impl View for Chunk {
    type V = ChunkModel;

    closed spec fn view(&self) -> ChunkModel {
        ChunkModel {
            length: self.length,
            ty: self.chunk_type@,
            data: self.data@,
            crc: self.crc,
        }
    }
}

impl Chunk {
    #[verifier::type_invariant]
    pub open spec fn chunk_inv(self) -> bool {
        chunk_model_wf(self@)
    }

    /// Builds a chunk from a type and a payload, computing the length
    /// field and the checksum.
    pub fn new(chunk_type: ChunkType, data: Vec<u8>) -> (c: Chunk)
        requires
            data@.len() <= 0x7fffffff,
        ensures
            c@.ty == chunk_type@,
            c@.data == data@,
            c@.length == data@.len(),
            c@.crc == spec_crc32(chunk_type@ + data@),
    {
        proof {
            use_type_invariant(&chunk_type);
        }
        let mut buf: Vec<u8> = Vec::new();
        let tb = chunk_type.bytes();
        push_bytes(&mut buf, tb.as_slice());
        push_bytes(&mut buf, data.as_slice());
        proof {
            assert(buf@ =~= chunk_type@ + data@);
        }
        let checksum = crc(buf.as_slice());
        let length = data.len() as u32;
        Chunk { length, chunk_type, data, crc: checksum }
    }

    /// The payload, copied out.
    pub fn data(&self) -> (d: Vec<u8>)
        ensures
            d@ == self@.data,
    {
        slice_to_vec(self.data.as_slice())
    }

    /// The chunk's type name.
    pub fn chunk_type(&self) -> (t: ChunkType)
        ensures
            t@ == self@.ty,
    {
        self.chunk_type
    }

    /// The length field; it always equals the payload's length.
    pub fn length(&self) -> (n: u32)
        ensures
            n == self@.length,
            n == self@.data.len(),
    {
        proof {
            use_type_invariant(self);
        }
        self.length
    }

    /// The stored checksum: CRC-32 over the type bytes and the payload.
    pub fn crc(&self) -> (c: u32)
        ensures
            c == self@.crc,
            c == spec_crc32(self@.ty + self@.data),
    {
        proof {
            use_type_invariant(self);
        }
        self.crc
    }

    /// The payload decoded as UTF-8 text.
    pub fn data_as_string(&self) -> (r: Result<String, PngError>)
        ensures
            r is Ok <==> valid_utf8(self@.data),
            r is Ok ==> r->Ok_0@ == decode_utf8(self@.data),
            r is Err ==> r == Err::<String, PngError>(PngError::NotUtf8),
    {
        match bytes_to_utf8(self.data.as_slice()) {
            Some(s) => Ok(s),
            None => Err(PngError::NotUtf8),
        }
    }

    /// The wire form: length, type, payload, checksum.
    pub fn as_bytes(&self) -> (out: Vec<u8>)
        ensures
            out@ == spec_chunk_bytes(self@),
    {
        let mut out: Vec<u8> = Vec::new();
        push_be_u32(&mut out, self.length);
        let tb = self.chunk_type.bytes();
        push_bytes(&mut out, tb.as_slice());
        push_bytes(&mut out, self.data.as_slice());
        push_be_u32(&mut out, self.crc);
        proof {
            assert(out@ =~= spec_chunk_bytes(self@));
        }
        out
    }

    /// Parses one chunk from the front of `bytes`; bytes past the
    /// chunk's frame are ignored.
    pub fn parse(bytes: &[u8]) -> (r: Result<Chunk, PngError>)
        ensures
            r is Ok <==> spec_parse_chunk(bytes@) is Ok,
            r is Ok ==> r->Ok_0@ == spec_parse_chunk(bytes@)->Ok_0,
            r is Err ==> r->Err_0 == spec_parse_chunk(bytes@)->Err_0,
    {
        proof {
            assert(bytes@.skip(0) =~= bytes@);
        }
        Chunk::parse_at(bytes, 0)
    }

    /// Parses one chunk starting at offset `off` of `bytes`.
    pub fn parse_at(bytes: &[u8], off: usize) -> (r: Result<Chunk, PngError>)
        requires
            off <= bytes@.len(),
        ensures
            r is Ok <==> spec_parse_chunk(bytes@.skip(off as int)) is Ok,
            r is Ok ==> r->Ok_0@ == spec_parse_chunk(bytes@.skip(off as int))->Ok_0,
            r is Err ==> r->Err_0 == spec_parse_chunk(bytes@.skip(off as int))->Err_0,
    {
        let ghost s = bytes@.skip(off as int);
        let n = bytes.len();
        if n - off < 12 {
            return Err(PngError::Truncated);
        }
        let length32 = read_be_u32(bytes, off);
        proof {
            assert(s.subrange(0, 4) =~= bytes@.subrange(off as int, off + 4));
        }
        if length32 > 0x7fffffff {
            return Err(PngError::Truncated);
        }
        let length = length32 as usize;
        if n - off - 12 < length {
            return Err(PngError::Truncated);
        }
        let ty_arr: [u8; 4] = [bytes[off + 4], bytes[off + 5], bytes[off + 6], bytes[off + 7]];
        proof {
            assert(ty_arr@ =~= s.subrange(4, 8));
        }
        let chunk_type = match ChunkType::from_bytes(ty_arr) {
            Ok(t) => t,
            Err(e) => {
                return Err(e);
            },
        };
        let covered = slice_subrange(bytes, off + 4, off + 8 + length);
        proof {
            assert(covered@ =~= s.subrange(4, 8 + length32));
        }
        let computed = crc(covered);
        let stored = read_be_u32(bytes, off + 8 + length);
        proof {
            assert(bytes@.subrange(off + 8 + length, off + 8 + length + 4) =~= s.subrange(
                8 + length32,
                12 + length32,
            ));
        }
        if stored != computed {
            return Err(PngError::CrcMismatch);
        }
        let data = slice_to_vec(slice_subrange(bytes, off + 8, off + 8 + length));
        proof {
            assert(data@ =~= s.subrange(8, 8 + length32));
            assert(chunk_type@ + data@ =~= s.subrange(4, 8 + length32));
        }
        Ok(Chunk { length: length32, chunk_type, data, crc: stored })
    }
}

impl PartialEq for Chunk {
    /// Two chunks are equal when all four parts are equal.
    fn eq(&self, other: &Chunk) -> (r: bool) {
        self.length == other.length && self.chunk_type == other.chunk_type
            && crate::text::bytes_eq(self.data.as_slice(), other.data.as_slice())
            && self.crc == other.crc
    }
}

impl vstd::std_specs::cmp::PartialEqSpecImpl for Chunk {
    open spec fn obeys_eq_spec() -> bool {
        true
    }

    open spec fn eq_spec(&self, other: &Chunk) -> bool {
        self@ =~= other@
    }
}

/// Serializing any well-formed chunk and parsing the bytes back yields
/// exactly the same chunk.
pub proof fn lemma_chunk_round_trip(m: ChunkModel)
    requires
        chunk_model_wf(m),
    ensures
        spec_parse_chunk(spec_chunk_bytes(m)) == Ok::<ChunkModel, PngError>(m),
{
    let s = spec_chunk_bytes(m);
    lemma_u32_be_bytes_roundtrip(m.length);
    lemma_u32_be_bytes_roundtrip(m.crc);
    assert(s.len() == 12 + m.length);
    assert(s.subrange(0, 4) =~= spec_u32_to_be_bytes(m.length));
    assert(s.subrange(4, 8) =~= m.ty);
    assert(s.subrange(8, 8 + m.length) =~= m.data);
    assert(s.subrange(8 + m.length, 12 + m.length) =~= spec_u32_to_be_bytes(m.crc));
    assert(s.subrange(4, 8 + m.length) =~= m.ty + m.data);
    assert(spec_parse_chunk(s)->Ok_0 =~= m);
}

/// A successfully parsed chunk is well formed, fits in the bytes it was
/// read from, and serializes back to exactly those bytes.
pub proof fn lemma_chunk_parse_exact(s: Seq<u8>)
    requires
        spec_parse_chunk(s) is Ok,
    ensures
        ({
            let m = spec_parse_chunk(s)->Ok_0;
            &&& chunk_model_wf(m)
            &&& 12 + m.length <= s.len()
            &&& spec_chunk_bytes(m) == s.subrange(0, 12 + m.length)
        }),
{
    let m = spec_parse_chunk(s)->Ok_0;
    lemma_u32_be_bytes_roundtrip_seq(s.subrange(0, 4));
    lemma_u32_be_bytes_roundtrip_seq(s.subrange(8 + m.length, 12 + m.length));
    assert(m.ty + m.data =~= s.subrange(4, 8 + m.length));
    assert(spec_chunk_bytes(m) =~= s.subrange(0, 12 + m.length));
}

} // verus!
