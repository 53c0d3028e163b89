//! CRC-32/ISO-HDLC over byte sequences, as PNG uses for every chunk.
//!
//! The checksum is specified here bit by bit: a register starts at all
//! ones, each input byte drives eight steps of the reflected polynomial
//! `0xEDB88320`, and the final register is complemented. The executable
//! function computes the same value with the usual 256-entry table, and is
//! proved to match the bit-level specification exactly.

use vstd::prelude::*;

verus! {

/// One step of the reflected CRC-32 recurrence: shift the register right
/// once and fold in the polynomial when the dropped bit was set.
pub open spec fn crc_bit_step(c: u32) -> u32 {
    if c & 1 == 1 {
        0xedb88320u32 ^ (c >> 1)
    } else {
        c >> 1
    }
}

/// The register after `k` bit steps from `c`.
pub open spec fn crc_bit_steps(c: u32, k: nat) -> u32
    decreases k,
{
    if k == 0 {
        c
    } else {
        crc_bit_step(crc_bit_steps(c, (k - 1) as nat))
    }
}

/// The table entry for a byte value `n < 256`: eight bit steps from `n`.
pub open spec fn crc_table_entry(n: u32) -> u32
    recommends
        n < 256,
{
    crc_bit_steps(n, 8)
}

/// The register after one whole input byte `b` is folded into `c`.
pub open spec fn crc_update(c: u32, b: u8) -> u32 {
    crc_table_entry((c ^ (b as u32)) & 0xff) ^ (c >> 8)
}

/// The register after feeding every byte of `s`, starting from all ones.
pub open spec fn crc_register(s: Seq<u8>) -> u32
    decreases s.len(),
{
    if s.len() == 0 {
        0xffffffffu32
    } else {
        crc_update(crc_register(s.drop_last()), s.last())
    }
}

/// CRC-32/ISO-HDLC of a byte sequence: the fed register, complemented.
pub open spec fn spec_crc32(s: Seq<u8>) -> u32 {
    crc_register(s) ^ 0xffffffffu32
}

/// Computes the CRC-32/ISO-HDLC checksum of `buf` with a precomputed
/// 256-entry table.
pub fn crc(buf: &[u8]) -> (checksum: u32)
    ensures
        checksum == spec_crc32(buf@),
{
    let mut table: Vec<u32> = Vec::new();
    let mut n: usize = 0;
    while n < 256
        invariant
            n <= 256,
            table@.len() == n,
            forall|j: int| 0 <= j < n ==> table@[j] == crc_table_entry(j as u32),
        decreases 256 - n,
    {
        let mut c: u32 = n as u32;
        let mut k: usize = 0;
        while k < 8
            invariant
                k <= 8,
                n < 256,
                c == crc_bit_steps(n as u32, k as nat),
            decreases 8 - k,
        {
            if c & 1 == 1 {
                c = 0xedb88320 ^ (c >> 1);
            } else {
                c = c >> 1;
            }
            k = k + 1;
        }
        table.push(c);
        n = n + 1;
    }
    let mut c: u32 = 0xffffffff;
    let mut i: usize = 0;
    while i < buf.len()
        invariant
            i <= buf@.len(),
            table@.len() == 256,
            forall|j: int| 0 <= j < 256 ==> table@[j] == crc_table_entry(j as u32),
            c == crc_register(buf@.subrange(0, i as int)),
        decreases buf@.len() - i,
    {
        let b = buf[i];
        let x: u32 = (c ^ (b as u32)) & 0xff;
        proof {
            assert((c ^ (b as u32)) & 0xff < 256) by (bit_vector);
            assert(((c ^ (b as u32)) & 0xff) as usize as u32 == (c ^ (b as u32)) & 0xff)
                by (bit_vector);
        }
        let idx: usize = x as usize;
        let next: u32 = table[idx] ^ (c >> 8);
        proof {
            let pre = buf@.subrange(0, i as int);
            let post = buf@.subrange(0, i + 1);
            assert(post.drop_last() =~= pre);
            assert(post.last() == b);
            assert(next == crc_update(c, b));
        }
        c = next;
        i = i + 1;
    }
    proof {
        assert(buf@.subrange(0, buf@.len() as int) =~= buf@);
    }
    c ^ 0xffffffff
}

} // verus!
