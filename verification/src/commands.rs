//! The operations behind the command surface, on in-memory bytes: embed
//! a message, extract one, strip a chunk, and report a file's chunks.
//!
//! Reading and writing files stays with the caller; everything here is a
//! pure function from the old file bytes to the result.

use crate::chunk::{spec_new_chunk, Chunk, ChunkModel};
use crate::chunk_type::{all_alphabetic, spec_type_wf, ChunkType};
use crate::error::PngError;
use crate::png::{
    has_chunk, is_first_match, models_of, spec_append, spec_parse_png, spec_png_bytes, Png,
};
use crate::text::{bytes_to_utf8, chars_of_bytes, lemma_ascii_bytes_utf8};
use crate::wire::push_bytes;
use vstd::prelude::*;
use vstd::utf8::{decode_utf8, encode_utf8, valid_utf8};

verus! {

/// The ASCII decimal digits of `n`, most significant first.
pub open spec fn spec_decimal(n: nat) -> Seq<u8>
    decreases n,
{
    if n < 10 {
        seq![(48 + n) as u8]
    } else {
        spec_decimal(n / 10).push((48 + n % 10) as u8)
    }
}

/// Every byte of a decimal rendering is an ASCII digit.
proof fn lemma_decimal_digits(n: nat)
    ensures
        forall|i: int|
            0 <= i < spec_decimal(n).len() ==> 48 <= #[trigger] spec_decimal(n)[i] <= 57,
    decreases n,
{
    if n < 10 {
        assert(spec_decimal(n)[0] == (48 + n) as u8);
    } else {
        lemma_decimal_digits(n / 10);
        let pre = spec_decimal(n / 10);
        let d = (48 + n % 10) as u8;
        assert forall|i: int| 0 <= i < spec_decimal(n).len() implies 48 <= #[trigger] spec_decimal(
            n,
        )[i] <= 57 by {
            if i < pre.len() {
                assert(spec_decimal(n)[i] == pre[i]);
            } else {
                assert(spec_decimal(n)[i] == d);
            }
        }
    }
}

/// Appends the decimal rendering of `n` to `out`.
fn push_decimal(out: &mut Vec<u8>, n: u32)
    ensures
        final(out)@ == old(out)@ + spec_decimal(n as nat),
    decreases n,
{
    if n < 10 {
        out.push(48 + (n as u8));
        proof {
            assert(out@ =~= old(out)@ + spec_decimal(n as nat));
        }
    } else {
        push_decimal(out, n / 10);
        out.push(48 + ((n % 10) as u8));
        proof {
            assert(out@ =~= old(out)@ + spec_decimal(n as nat));
        }
    }
}

/// One report line for a chunk: the type name, the payload length and
/// the checksum in decimal, separated by spaces, ended by a newline.
pub open spec fn spec_chunk_line(m: ChunkModel) -> Seq<u8> {
    m.ty + seq![32u8] + spec_decimal(m.length as nat) + seq![32u8] + spec_decimal(m.crc as nat)
        + seq![10u8]
}

/// The report for a chunk list: one line per chunk, in order.
pub open spec fn spec_report(ms: Seq<ChunkModel>) -> Seq<u8>
    decreases ms.len(),
{
    if ms.len() == 0 {
        Seq::empty()
    } else {
        spec_report(ms.drop_last()) + spec_chunk_line(ms.last())
    }
}

/// Parses a PNG file, appends a chunk carrying `message` under the type
/// named by `chunk_type`, and returns the new file bytes.
pub fn encode(png_bytes: &[u8], chunk_type: &str, message: &str) -> (r: Result<Vec<u8>, PngError>)
    requires
        encode_utf8(message@).len() <= 0x7fffffff,
    ensures
        r is Ok <==> (spec_parse_png(png_bytes@) is Ok && spec_type_wf(encode_utf8(chunk_type@))),
        spec_parse_png(png_bytes@) is Err ==> r == Err::<Vec<u8>, PngError>(
            spec_parse_png(png_bytes@)->Err_0,
        ),
        spec_parse_png(png_bytes@) is Ok && !all_alphabetic(encode_utf8(chunk_type@)) ==> r
            == Err::<Vec<u8>, PngError>(PngError::InvalidTypeByte),
        spec_parse_png(png_bytes@) is Ok && all_alphabetic(encode_utf8(chunk_type@))
            && encode_utf8(chunk_type@).len() != 4 ==> r == Err::<Vec<u8>, PngError>(
            PngError::InvalidTypeLength,
        ),
        r is Ok ==> r->Ok_0@ == spec_png_bytes(
            spec_append(
                spec_parse_png(png_bytes@)->Ok_0,
                spec_new_chunk(encode_utf8(chunk_type@), encode_utf8(message@)),
            ),
        ),
{
    let mut png = match Png::from_bytes(png_bytes) {
        Ok(p) => p,
        Err(e) => {
            return Err(e);
        },
    };
    let ct = match ChunkType::from_str(chunk_type) {
        Ok(t) => t,
        Err(e) => {
            return Err(e);
        },
    };
    let data: Vec<u8> = vstd::slice::slice_to_vec(message.as_bytes());
    let chunk = Chunk::new(ct, data);
    proof {
        assert(chunk@ == spec_new_chunk(encode_utf8(chunk_type@), encode_utf8(message@)));
    }
    png.append_chunk(chunk);
    Ok(png.as_bytes())
}

/// Parses a PNG file and returns the text carried by the first chunk of
/// the requested type.
pub fn decode(png_bytes: &[u8], chunk_type: &str) -> (r: Result<String, PngError>)
    ensures
        spec_parse_png(png_bytes@) is Err ==> r == Err::<String, PngError>(
            spec_parse_png(png_bytes@)->Err_0,
        ),
        spec_parse_png(png_bytes@) is Ok && !has_chunk(
            spec_parse_png(png_bytes@)->Ok_0,
            chunk_type@,
        ) ==> r == Err::<String, PngError>(PngError::ChunkNotFound),
        spec_parse_png(png_bytes@) is Ok && has_chunk(
            spec_parse_png(png_bytes@)->Ok_0,
            chunk_type@,
        ) ==> exists|i: int|
            #![trigger is_first_match(spec_parse_png(png_bytes@)->Ok_0, chunk_type@, i)]
            {
                let ms = spec_parse_png(png_bytes@)->Ok_0;
                &&& is_first_match(ms, chunk_type@, i)
                &&& (valid_utf8(ms[i].data) ==> r is Ok && r->Ok_0@ == decode_utf8(ms[i].data))
                &&& (!valid_utf8(ms[i].data) ==> r == Err::<String, PngError>(PngError::NotUtf8))
            },
{
    let png = match Png::from_bytes(png_bytes) {
        Ok(p) => p,
        Err(e) => {
            return Err(e);
        },
    };
    match png.chunk_by_type(chunk_type) {
        Some(c) => c.data_as_string(),
        None => Err(PngError::ChunkNotFound),
    }
}

/// Parses a PNG file, removes the first chunk of the requested type, and
/// returns the new file bytes.
pub fn remove(png_bytes: &[u8], chunk_type: &str) -> (r: Result<Vec<u8>, PngError>)
    ensures
        r is Ok <==> (spec_parse_png(png_bytes@) is Ok && has_chunk(
            spec_parse_png(png_bytes@)->Ok_0,
            chunk_type@,
        )),
        spec_parse_png(png_bytes@) is Err ==> r == Err::<Vec<u8>, PngError>(
            spec_parse_png(png_bytes@)->Err_0,
        ),
        spec_parse_png(png_bytes@) is Ok && !has_chunk(
            spec_parse_png(png_bytes@)->Ok_0,
            chunk_type@,
        ) ==> r == Err::<Vec<u8>, PngError>(PngError::ChunkNotFound),
        r is Ok ==> exists|i: int|
            #![trigger is_first_match(spec_parse_png(png_bytes@)->Ok_0, chunk_type@, i)]
            {
                let ms = spec_parse_png(png_bytes@)->Ok_0;
                &&& is_first_match(ms, chunk_type@, i)
                &&& r->Ok_0@ == spec_png_bytes(ms.remove(i))
            },
{
    let mut png = match Png::from_bytes(png_bytes) {
        Ok(p) => p,
        Err(e) => {
            return Err(e);
        },
    };
    match png.remove_first_chunk(chunk_type) {
        Ok(_) => Ok(png.as_bytes()),
        Err(e) => Err(e),
    }
}

/// Parses a PNG file and returns its report: one line per chunk with the
/// type name, the payload length and the checksum.
pub fn print_chunks(png_bytes: &[u8]) -> (r: Result<String, PngError>)
    ensures
        r is Ok <==> spec_parse_png(png_bytes@) is Ok,
        r is Err ==> r->Err_0 == spec_parse_png(png_bytes@)->Err_0,
        r is Ok ==> r->Ok_0@ == chars_of_bytes(spec_report(spec_parse_png(png_bytes@)->Ok_0)),
{
    let png = match Png::from_bytes(png_bytes) {
        Ok(p) => p,
        Err(e) => {
            return Err(e);
        },
    };
    let cs = png.chunks();
    let n = cs.len();
    let mut buf: Vec<u8> = Vec::new();
    let mut i: usize = 0;
    proof {
        assert(png@.subrange(0, 0) =~= Seq::<ChunkModel>::empty());
    }
    while i < n
        invariant
            n == cs@.len(),
            models_of(cs@) == png@,
            i <= n,
            buf@ == spec_report(png@.subrange(0, i as int)),
            forall|k: int| 0 <= k < buf@.len() ==> #[trigger] buf@[k] < 128,
        decreases n - i,
    {
        let c = &cs[i];
        proof {
            use_type_invariant(c);
            lemma_decimal_digits(c@.length as nat);
            lemma_decimal_digits(c@.crc as nat);
        }
        let tb = c.chunk_type().bytes();
        push_bytes(&mut buf, tb.as_slice());
        buf.push(32);
        push_decimal(&mut buf, c.length());
        buf.push(32);
        push_decimal(&mut buf, c.crc());
        buf.push(10);
        proof {
            assert(png@.subrange(0, i + 1).drop_last() =~= png@.subrange(0, i as int));
            assert(png@.subrange(0, i + 1).last() == png@[i as int]);
            assert(buf@ =~= spec_report(png@.subrange(0, i as int)) + spec_chunk_line(
                png@[i as int],
            ));
        }
        i = i + 1;
    }
    proof {
        assert(png@.subrange(0, n as int) =~= png@);
        lemma_ascii_bytes_utf8(buf@);
    }
    match bytes_to_utf8(buf.as_slice()) {
        Some(s) => Ok(s),
        None => {
            proof {
                assert(false);
            }
            Ok(String::new())
        },
    }
}

} // verus!
