//! Bridging bytes and text: UTF-8 decoding and byte-sequence equality.

use vstd::prelude::*;
use vstd::utf8::{
    decode_utf8, encode_utf8, encode_utf8_decode_utf8, encode_utf8_valid_utf8, is_ascii_chars,
    is_ascii_chars_encode_utf8, valid_utf8,
};

verus! {

/// The characters spelled by a sequence of ASCII bytes, one per byte.
pub open spec fn chars_of_bytes(s: Seq<u8>) -> Seq<char> {
    s.map_values(|b: u8| b as char)
}

/// A sequence of bytes below 128 is its own UTF-8 encoding: it is valid
/// UTF-8, and it decodes to one character per byte.
pub proof fn lemma_ascii_bytes_utf8(s: Seq<u8>)
    requires
        forall|i: int| 0 <= i < s.len() ==> #[trigger] s[i] < 128,
    ensures
        valid_utf8(s),
        decode_utf8(s) == chars_of_bytes(s),
        encode_utf8(chars_of_bytes(s)) == s,
{
    let chars = chars_of_bytes(s);
    assert forall|i: int| 0 <= i < chars.len() implies '\0' <= #[trigger] chars[i] <= '\u{7f}' by {
        assert(s[i] < 128);
    }
    assert(is_ascii_chars(chars));
    is_ascii_chars_encode_utf8(chars);
    assert forall|i: int| 0 <= i < chars.len() implies chars[i] as u8 == s[i] by {
        assert(s[i] < 128);
    }
    assert(encode_utf8(chars) =~= s);
    encode_utf8_valid_utf8(chars);
    encode_utf8_decode_utf8(chars);
}

/// Relies on std's `str::from_utf8`: it succeeds exactly on valid UTF-8
/// input and returns the decoded text.
#[verifier::external_body]
pub(crate) fn bytes_to_utf8(v: &[u8]) -> (r: Option<String>)
    ensures
        r is Some <==> valid_utf8(v@),
        r is Some ==> r->Some_0@ == decode_utf8(v@),
{
    match std::str::from_utf8(v) {
        Ok(s) => Some(s.to_string()),
        Err(_) => None,
    }
}

/// Compares two byte slices element by element.
pub fn bytes_eq(a: &[u8], b: &[u8]) -> (r: bool)
    ensures
        r == (a@ == b@),
{
    if a.len() != b.len() {
        proof {
            assert(a@.len() != b@.len());
        }
        return false;
    }
    let n = a.len();
    let mut i: usize = 0;
    while i < n
        invariant
            n == a@.len() == b@.len(),
            i <= n,
            forall|j: int| 0 <= j < i ==> a@[j] == b@[j],
        decreases n - i,
    {
        if a[i] != b[i] {
            return false;
        }
        i = i + 1;
    }
    proof {
        assert(a@ =~= b@);
    }
    true
}

} // verus!
