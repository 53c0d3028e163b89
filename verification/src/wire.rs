//! Helpers for the PNG wire format: big-endian 32-bit fields and byte
//! buffer building.

use vstd::prelude::*;

verus! {

/// The four-byte big-endian encoding of `x`.
pub open spec fn spec_u32_to_be_bytes(x: u32) -> Seq<u8> {
    seq![
        ((x >> 24) & 0xff) as u8,
        ((x >> 16) & 0xff) as u8,
        ((x >> 8) & 0xff) as u8,
        (x & 0xff) as u8,
    ]
}

/// The value read big-endian from four bytes.
pub open spec fn spec_u32_from_be_bytes(s: Seq<u8>) -> u32
    recommends
        s.len() == 4,
{
    ((s[0] as u32) << 24) | ((s[1] as u32) << 16) | ((s[2] as u32) << 8) | (s[3] as u32)
}

/// Encoding a value big-endian and reading it back is the identity.
pub proof fn lemma_u32_be_bytes_roundtrip(x: u32)
    ensures
        spec_u32_to_be_bytes(x).len() == 4,
        spec_u32_from_be_bytes(spec_u32_to_be_bytes(x)) == x,
{
    assert(((((x >> 24) & 0xff) as u8) as u32) << 24
        | ((((x >> 16) & 0xff) as u8) as u32) << 16
        | ((((x >> 8) & 0xff) as u8) as u32) << 8
        | (((x & 0xff) as u8) as u32) == x) by (bit_vector);
}

/// Reading four bytes big-endian and encoding the value again gives the
/// same four bytes.
pub proof fn lemma_u32_be_bytes_roundtrip_seq(s: Seq<u8>)
    requires
        s.len() == 4,
    ensures
        spec_u32_to_be_bytes(spec_u32_from_be_bytes(s)) == s,
{
    let x = spec_u32_from_be_bytes(s);
    let b0 = s[0];
    let b1 = s[1];
    let b2 = s[2];
    let b3 = s[3];
    let y = ((b0 as u32) << 24) | ((b1 as u32) << 16) | ((b2 as u32) << 8) | (b3 as u32);
    assert((((y >> 24) & 0xff) as u8 == b0
        && ((y >> 16) & 0xff) as u8 == b1
        && ((y >> 8) & 0xff) as u8 == b2
        && (y & 0xff) as u8 == b3)) by (bit_vector)
        requires
            y == ((b0 as u32) << 24) | ((b1 as u32) << 16) | ((b2 as u32) << 8) | (b3 as u32),
    ;
    assert(spec_u32_to_be_bytes(x) =~= s);
}

/// Reads the big-endian 32-bit field at offset `off`.
pub fn read_be_u32(bytes: &[u8], off: usize) -> (x: u32)
    requires
        off + 4 <= bytes@.len(),
    ensures
        x == spec_u32_from_be_bytes(bytes@.subrange(off as int, off + 4)),
{
    let b0 = bytes[off] as u32;
    let b1 = bytes[off + 1] as u32;
    let b2 = bytes[off + 2] as u32;
    let b3 = bytes[off + 3] as u32;
    let x = (b0 << 24) | (b1 << 16) | (b2 << 8) | b3;
    proof {
        let s = bytes@.subrange(off as int, off + 4);
        assert(s[0] == bytes@[off as int]);
        assert(s[1] == bytes@[off + 1]);
        assert(s[2] == bytes@[off + 2]);
        assert(s[3] == bytes@[off + 3]);
    }
    x
}

/// Appends the big-endian encoding of `x` to `out`.
pub fn push_be_u32(out: &mut Vec<u8>, x: u32)
    ensures
        final(out)@ == old(out)@ + spec_u32_to_be_bytes(x),
{
    out.push(((x >> 24) & 0xff) as u8);
    out.push(((x >> 16) & 0xff) as u8);
    out.push(((x >> 8) & 0xff) as u8);
    out.push((x & 0xff) as u8);
    proof {
        assert(out@ =~= old(out)@ + spec_u32_to_be_bytes(x));
    }
}

/// Appends every byte of `s` to `out`, in order.
pub fn push_bytes(out: &mut Vec<u8>, s: &[u8])
    ensures
        final(out)@ == old(out)@ + s@,
{
    let n = s.len();
    let mut i: usize = 0;
    while i < n
        invariant
            n == s@.len(),
            i <= n,
            out@ == old(out)@ + s@.subrange(0, i as int),
        decreases n - i,
    {
        out.push(s[i]);
        proof {
            assert(old(out)@ + s@.subrange(0, i + 1) =~= (old(out)@ + s@.subrange(0, i as int)).push(
                s@[i as int],
            ));
        }
        i = i + 1;
    }
    proof {
        assert(s@.subrange(0, n as int) =~= s@);
    }
}

} // verus!
