//! Four-byte PNG chunk type names with case-encoded property bits.

use crate::error::PngError;
use crate::text::{bytes_to_utf8, chars_of_bytes, lemma_ascii_bytes_utf8};
use vstd::prelude::*;
use vstd::utf8::encode_utf8;

verus! {

/// True when `b` is an ASCII uppercase letter.
pub open spec fn spec_is_upper(b: u8) -> bool {
    65 <= b <= 90
}

/// True when `b` is an ASCII lowercase letter.
pub open spec fn spec_is_lower(b: u8) -> bool {
    97 <= b <= 122
}

/// True when `b` is an ASCII letter.
pub open spec fn spec_is_alpha(b: u8) -> bool {
    spec_is_upper(b) || spec_is_lower(b)
}

/// Every byte of `s` is an ASCII letter.
pub open spec fn all_alphabetic(s: Seq<u8>) -> bool {
    forall|i: int| 0 <= i < s.len() ==> spec_is_alpha(#[trigger] s[i])
}

/// A well-formed chunk type name: exactly four ASCII letters.
pub open spec fn spec_type_wf(ty: Seq<u8>) -> bool {
    ty.len() == 4 && all_alphabetic(ty)
}

/// A four-letter PNG chunk type name.
///
/// Every byte is an ASCII letter. The case of each byte encodes one PNG
/// property bit: ancillary (first byte), private (second), reserved
/// (third) and safe-to-copy (fourth); uppercase means the bit is clear.
#[derive(Debug, Clone, Copy)]
pub struct ChunkType {
    bytes: [u8; 4],
}

impl View for ChunkType {
    type V = Seq<u8>;

    closed spec fn view(&self) -> Seq<u8> {
        self.bytes@
    }
}

impl ChunkType {
    #[verifier::type_invariant]
    pub open spec fn type_inv(self) -> bool {
        spec_type_wf(self@)
    }

    /// Builds a chunk type from a string; the string must spell exactly
    /// four bytes, every one an ASCII letter.
    pub fn from_str(s: &str) -> (r: Result<ChunkType, PngError>)
        ensures
            r is Ok <==> spec_type_wf(encode_utf8(s@)),
            r is Ok ==> r->Ok_0@ == encode_utf8(s@),
            !all_alphabetic(encode_utf8(s@)) ==> r == Err::<ChunkType, PngError>(
                PngError::InvalidTypeByte,
            ),
            all_alphabetic(encode_utf8(s@)) && encode_utf8(s@).len() != 4 ==> r == Err::<
                ChunkType,
                PngError,
            >(PngError::InvalidTypeLength),
    {
        let bytes: &[u8] = s.as_bytes();
        let n = bytes.len();
        let mut i: usize = 0;
        while i < n
            invariant
                bytes@ == encode_utf8(s@),
                n == bytes@.len(),
                i <= n,
                forall|j: int| 0 <= j < i ==> spec_is_alpha(#[trigger] bytes@[j]),
            decreases n - i,
        {
            if !ChunkType::is_valid_byte(bytes[i]) {
                return Err(PngError::InvalidTypeByte);
            }
            i = i + 1;
        }
        if n != 4 {
            return Err(PngError::InvalidTypeLength);
        }
        let arr: [u8; 4] = [bytes[0], bytes[1], bytes[2], bytes[3]];
        proof {
            assert(arr@ =~= bytes@);
        }
        Ok(ChunkType { bytes: arr })
    }

    /// Builds a chunk type from four raw bytes; every byte must be an
    /// ASCII letter.
    pub fn from_bytes(bytes: [u8; 4]) -> (r: Result<ChunkType, PngError>)
        ensures
            r is Ok <==> all_alphabetic(bytes@),
            r is Ok ==> r->Ok_0@ == bytes@,
            !all_alphabetic(bytes@) ==> r == Err::<ChunkType, PngError>(PngError::InvalidTypeByte),
    {
        if ChunkType::is_valid_byte(bytes[0]) && ChunkType::is_valid_byte(bytes[1])
            && ChunkType::is_valid_byte(bytes[2]) && ChunkType::is_valid_byte(bytes[3]) {
            proof {
                assert forall|i: int| 0 <= i < bytes@.len() implies spec_is_alpha(
                    #[trigger] bytes@[i],
                ) by {
                    assert(i == 0 || i == 1 || i == 2 || i == 3);
                }
            }
            Ok(ChunkType { bytes })
        } else {
            Err(PngError::InvalidTypeByte)
        }
    }

    /// The four raw bytes of the name.
    pub fn bytes(&self) -> (r: [u8; 4])
        ensures
            r@ == self@,
    {
        self.bytes
    }

    /// True when `byte` may appear in a chunk type name: an ASCII letter.
    pub fn is_valid_byte(byte: u8) -> (r: bool)
        ensures
            r == spec_is_alpha(byte),
    {
        (65 <= byte && byte <= 90) || (97 <= byte && byte <= 122)
    }

    /// The ancillary bit: uppercase first byte means the chunk is
    /// critical to decoders.
    pub fn is_critical(&self) -> (r: bool)
        ensures
            r == spec_is_upper(self@[0]),
    {
        let b = self.bytes[0];
        65 <= b && b <= 90
    }

    /// The private bit: uppercase second byte means the type is public.
    pub fn is_public(&self) -> (r: bool)
        ensures
            r == spec_is_upper(self@[1]),
    {
        let b = self.bytes[1];
        65 <= b && b <= 90
    }

    /// The reserved bit: the third byte must be uppercase in a valid PNG
    /// chunk type.
    pub fn is_reserved_bit_valid(&self) -> (r: bool)
        ensures
            r == spec_is_upper(self@[2]),
    {
        let b = self.bytes[2];
        65 <= b && b <= 90
    }

    /// The safe-to-copy bit: a lowercase fourth byte marks the chunk as
    /// safe to copy by editors.
    pub fn is_safe_to_copy(&self) -> (r: bool)
        ensures
            r == !spec_is_upper(self@[3]),
    {
        let b = self.bytes[3];
        !(65 <= b && b <= 90)
    }

    /// True when the name is valid for a PNG file: four ASCII letters
    /// with the reserved bit byte uppercase.
    pub fn is_valid(&self) -> (r: bool)
        ensures
            r == (all_alphabetic(self@) && spec_is_upper(self@[2])),
    {
        proof {
            use_type_invariant(self);
        }
        let b = self.bytes[2];
        65 <= b && b <= 90
    }

    /// The name as a four-character string.
    pub fn to_string(&self) -> (s: String)
        ensures
            s@ == chars_of_bytes(self@),
            s@.len() == 4,
    {
        proof {
            use_type_invariant(self);
            lemma_ascii_bytes_utf8(self@);
        }
        let v: Vec<u8> = vstd::slice::slice_to_vec(self.bytes.as_slice());
        match bytes_to_utf8(v.as_slice()) {
            Some(t) => t,
            None => {
                proof {
                    assert(false);
                }
                String::new()
            },
        }
    }
}

impl PartialEq for ChunkType {
    /// Two chunk types are equal when their four bytes are equal.
    fn eq(&self, other: &ChunkType) -> (r: bool) {
        let r = self.bytes[0] == other.bytes[0] && self.bytes[1] == other.bytes[1]
            && self.bytes[2] == other.bytes[2] && self.bytes[3] == other.bytes[3];
        proof {
            if r {
                assert(self.bytes@ =~= other.bytes@);
            }
        }
        r
    }
}

impl vstd::std_specs::cmp::PartialEqSpecImpl for ChunkType {
    open spec fn obeys_eq_spec() -> bool {
        true
    }

    open spec fn eq_spec(&self, other: &ChunkType) -> bool {
        self@ == other@
    }
}

impl core::str::FromStr for ChunkType {
    type Err = PngError;

    /// Parses a chunk type name, as [`ChunkType::from_str`] does.
    fn from_str(s: &str) -> Result<ChunkType, PngError> {
        ChunkType::from_str(s)
    }
}

} // verus!
