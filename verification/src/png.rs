//! A whole PNG file: the fixed signature and an ordered chunk list.
//!
//! Parsing walks the chunks until the `IEND` terminator and demands that
//! nothing follow it; serializing writes the signature and every chunk in
//! list order. The two are proved inverse to each other. Editing keeps
//! the list order: a new chunk goes immediately before the terminator,
//! and removal takes the first chunk of the requested type.

use crate::chunk::{
    chunk_model_wf, lemma_chunk_parse_exact, spec_chunk_bytes, spec_parse_chunk, Chunk, ChunkModel,
};
use crate::error::PngError;
use crate::text::{bytes_eq, chars_of_bytes, lemma_ascii_bytes_utf8};
use crate::wire::push_bytes;
use vstd::prelude::*;
use vstd::utf8::encode_utf8;

verus! {

/// The fixed eight bytes that begin every PNG file.
pub open spec fn spec_signature() -> Seq<u8> {
    seq![137u8, 80u8, 78u8, 71u8, 13u8, 10u8, 26u8, 10u8]
}

/// The four type bytes of the terminating chunk, spelling `IEND`.
pub open spec fn spec_iend_type() -> Seq<u8> {
    seq![73u8, 69u8, 78u8, 68u8]
}

/// True when `m` is a terminator chunk by type.
pub open spec fn is_iend(m: ChunkModel) -> bool {
    m.ty == spec_iend_type()
}

/// The models of a sequence of chunks, in order.
pub open spec fn models_of(cs: Seq<Chunk>) -> Seq<ChunkModel> {
    Seq::new(cs.len(), |i: int| cs[i]@)
}

/// Parses the chunk list that must fill `s` completely: every chunk up
/// to and including the terminator, or the precise error.
pub open spec fn spec_parse_chunks(s: Seq<u8>) -> Result<Seq<ChunkModel>, PngError>
    decreases s.len(),
{
    if s.len() == 0 {
        Err(PngError::NoIend)
    } else {
        match spec_parse_chunk(s) {
            Err(e) => Err(e),
            Ok(m) => {
                let rest = s.skip(12 + m.length);
                if is_iend(m) {
                    if rest.len() == 0 {
                        Ok(seq![m])
                    } else {
                        Err(PngError::TrailingGarbage)
                    }
                } else {
                    match spec_parse_chunks(rest) {
                        Err(e) => Err(e),
                        Ok(ms) => Ok(seq![m] + ms),
                    }
                }
            },
        }
    }
}

/// Parses a whole PNG file: the signature, then the chunk list.
pub open spec fn spec_parse_png(s: Seq<u8>) -> Result<Seq<ChunkModel>, PngError> {
    if s.len() < 8 || s.subrange(0, 8) != spec_signature() {
        Err(PngError::BadSignature)
    } else {
        spec_parse_chunks(s.skip(8))
    }
}

/// The concatenated wire forms of a list of chunks.
pub open spec fn spec_chunks_bytes(ms: Seq<ChunkModel>) -> Seq<u8>
    decreases ms.len(),
{
    if ms.len() == 0 {
        Seq::empty()
    } else {
        spec_chunk_bytes(ms[0]) + spec_chunks_bytes(ms.drop_first())
    }
}

/// The serialized file: the signature, then every chunk in order.
pub open spec fn spec_png_bytes(ms: Seq<ChunkModel>) -> Seq<u8> {
    spec_signature() + spec_chunks_bytes(ms)
}

/// The chunk list after appending `m`: immediately before the terminal
/// `IEND` chunk, or at the very end when the list is empty or ends in
/// another type.
pub open spec fn spec_append(ms: Seq<ChunkModel>, m: ChunkModel) -> Seq<ChunkModel> {
    if ms.len() > 0 && is_iend(ms.last()) {
        ms.insert(ms.len() - 1, m)
    } else {
        ms.push(m)
    }
}

/// True when the chunk's type name spells `name`.
pub open spec fn name_matches(ty: Seq<u8>, name: Seq<char>) -> bool {
    encode_utf8(name) == ty
}

/// Some chunk in `ms` has a type that spells `name`.
pub open spec fn has_chunk(ms: Seq<ChunkModel>, name: Seq<char>) -> bool {
    exists|i: int| 0 <= i < ms.len() && name_matches(#[trigger] ms[i].ty, name)
}

/// `i` is the position of the first chunk in `ms` whose type spells
/// `name`.
pub open spec fn is_first_match(ms: Seq<ChunkModel>, name: Seq<char>, i: int) -> bool {
    &&& 0 <= i < ms.len()
    &&& name_matches(ms[i].ty, name)
    &&& forall|j: int| 0 <= j < i ==> !name_matches(#[trigger] ms[j].ty, name)
}

/// A PNG file in memory: an ordered list of chunks.
///
/// The signature is implied; [`Png::as_bytes`] always writes it. A file
/// parsed by [`Png::from_bytes`] ends in an `IEND` chunk; a list wrapped
/// verbatim by [`Png::from_chunks`] or edited by
/// [`Png::remove_first_chunk`] may not.
#[derive(Debug)]
pub struct Png {
    chunks: Vec<Chunk>,
}

impl View for Png {
    type V = Seq<ChunkModel>;

    closed spec fn view(&self) -> Seq<ChunkModel> {
        models_of(self.chunks@)
    }
}

/// True when `c` is a terminator chunk.
fn chunk_is_iend(c: &Chunk) -> (r: bool)
    ensures
        r == is_iend(c@),
{
    let tb = c.chunk_type().bytes();
    let r = tb[0] == 73 && tb[1] == 69 && tb[2] == 78 && tb[3] == 68;
    proof {
        if r {
            assert(tb@ =~= spec_iend_type());
        } else {
            assert(tb@ != spec_iend_type());
        }
    }
    r
}

/// The eight-byte PNG signature.
pub fn signature() -> (s: [u8; 8])
    ensures
        s@ == spec_signature(),
{
    let s = Png::SIGNATURE;
    proof {
        assert(s@ =~= spec_signature());
    }
    s
}

impl Png {
    /// The fixed eight bytes that begin every PNG file.
    pub const SIGNATURE: [u8; 8] = [137, 80, 78, 71, 13, 10, 26, 10];

    /// Wraps a chunk list verbatim, without validating its order.
    pub fn from_chunks(chunks: Vec<Chunk>) -> (p: Png)
        ensures
            p@ == models_of(chunks@),
    {
        Png { chunks }
    }

    /// The ordered chunk list.
    pub fn chunks(&self) -> (cs: &Vec<Chunk>)
        ensures
            models_of(cs@) == self@,
    {
        &self.chunks
    }

    /// Parses a whole PNG file from bytes: the signature, then chunks up
    /// to and including the `IEND` terminator, with nothing after it.
    pub fn from_bytes(bytes: &[u8]) -> (r: Result<Png, PngError>)
        ensures
            r is Ok <==> spec_parse_png(bytes@) is Ok,
            r is Ok ==> r->Ok_0@ == spec_parse_png(bytes@)->Ok_0,
            r is Err ==> r->Err_0 == spec_parse_png(bytes@)->Err_0,
    {
        let n = bytes.len();
        if n < 8 {
            return Err(PngError::BadSignature);
        }
        let sig = signature();
        let head = vstd::slice::slice_subrange(bytes, 0, 8);
        if !bytes_eq(head, sig.as_slice()) {
            return Err(PngError::BadSignature);
        }
        let mut chunks: Vec<Chunk> = Vec::new();
        let mut off: usize = 8;
        proof {
            assert(models_of(chunks@) + spec_parse_chunks(bytes@.skip(8))->Ok_0
                =~= spec_parse_chunks(bytes@.skip(8))->Ok_0);
        }
        while off < n
            invariant
                8 <= off <= n,
                n == bytes@.len(),
                bytes@.subrange(0, 8) == spec_signature(),
                spec_parse_chunks(bytes@.skip(8)) == (match spec_parse_chunks(
                    bytes@.skip(off as int),
                ) {
                    Ok(ms) => Ok::<Seq<ChunkModel>, PngError>(models_of(chunks@) + ms),
                    Err(e) => Err::<Seq<ChunkModel>, PngError>(e),
                }),
            decreases n - off,
        {
            let ghost s = bytes@.skip(off as int);
            let c = match Chunk::parse_at(bytes, off) {
                Ok(c) => c,
                Err(e) => {
                    return Err(e);
                },
            };
            proof {
                lemma_chunk_parse_exact(s);
            }
            let clen = c.length();
            let next = off + 12 + (clen as usize);
            proof {
                assert(s.skip(12 + c@.length) =~= bytes@.skip(next as int));
            }
            let iend = chunk_is_iend(&c);
            let ghost prev = chunks@;
            if iend {
                if next < n {
                    return Err(PngError::TrailingGarbage);
                }
                chunks.push(c);
                proof {
                    assert(bytes@.skip(next as int).len() == 0);
                    assert(models_of(chunks@) =~= models_of(prev) + seq![c@]);
                }
                return Ok(Png { chunks });
            }
            chunks.push(c);
            proof {
                assert(models_of(chunks@) =~= models_of(prev) + seq![c@]);
                let rest_r = spec_parse_chunks(bytes@.skip(next as int));
                if rest_r is Ok {
                    assert(models_of(chunks@) + rest_r->Ok_0 =~= models_of(prev) + (seq![c@]
                        + rest_r->Ok_0));
                }
            }
            off = next;
        }
        proof {
            assert(bytes@.skip(n as int).len() == 0);
        }
        Err(PngError::NoIend)
    }

    /// Inserts `chunk` immediately before the terminal `IEND` chunk, or
    /// at the very end when the list is empty or ends in another type.
    pub fn append_chunk(&mut self, chunk: Chunk)
        ensures
            final(self)@ == spec_append(old(self)@, chunk@),
    {
        let n = self.chunks.len();
        if n > 0 && chunk_is_iend(&self.chunks[n - 1]) {
            self.chunks.insert(n - 1, chunk);
            proof {
                assert(models_of(self.chunks@) =~= models_of(old(self).chunks@).insert(
                    n - 1,
                    chunk@,
                ));
            }
        } else {
            self.chunks.push(chunk);
            proof {
                assert(models_of(self.chunks@) =~= models_of(old(self).chunks@).push(chunk@));
            }
        }
    }

    /// The position of the first chunk whose type spells `name`.
    fn find_first(&self, name: &str) -> (r: Option<usize>)
        ensures
            r is Some <==> has_chunk(self@, name@),
            r is Some ==> is_first_match(self@, name@, r->Some_0 as int),
    {
        let nb = name.as_bytes();
        let n = self.chunks.len();
        let mut i: usize = 0;
        while i < n
            invariant
                nb@ == encode_utf8(name@),
                n == self.chunks@.len(),
                i <= n,
                forall|j: int| 0 <= j < i ==> !name_matches(#[trigger] self@[j].ty, name@),
            decreases n - i,
        {
            let tb = self.chunks[i].chunk_type().bytes();
            if bytes_eq(nb, tb.as_slice()) {
                proof {
                    assert(name_matches(self@[i as int].ty, name@));
                }
                return Some(i);
            }
            i = i + 1;
        }
        None
    }

    /// A reference to the first chunk whose type's string form equals
    /// `name`, searching in list order.
    pub fn chunk_by_type(&self, name: &str) -> (r: Option<&Chunk>)
        ensures
            r is Some <==> has_chunk(self@, name@),
            r is Some ==> exists|i: int|
                is_first_match(self@, name@, i) && r->Some_0@ == self@[i],
    {
        match self.find_first(name) {
            Some(i) => Some(&self.chunks[i]),
            None => None,
        }
    }

    /// Removes and returns the first chunk whose type's string form
    /// equals `name`; the rest of the list keeps its order.
    pub fn remove_first_chunk(&mut self, name: &str) -> (r: Result<Chunk, PngError>)
        ensures
            r is Ok <==> has_chunk(old(self)@, name@),
            r is Err ==> r == Err::<Chunk, PngError>(PngError::ChunkNotFound) && final(self)@
                == old(self)@,
            r is Ok ==> exists|i: int|
                is_first_match(old(self)@, name@, i) && r->Ok_0@ == old(self)@[i] && final(self)@
                    == old(self)@.remove(i),
    {
        match self.find_first(name) {
            Some(i) => {
                let ghost gi = i as int;
                let c = self.chunks.remove(i);
                proof {
                    assert(models_of(self.chunks@) =~= models_of(old(self).chunks@).remove(gi));
                }
                Ok(c)
            },
            None => Err(PngError::ChunkNotFound),
        }
    }

    /// The serialized file: the signature followed by each chunk's wire
    /// form in list order.
    pub fn as_bytes(&self) -> (out: Vec<u8>)
        ensures
            out@ == spec_png_bytes(self@),
    {
        let mut out: Vec<u8> = Vec::new();
        let sig = signature();
        push_bytes(&mut out, sig.as_slice());
        let n = self.chunks.len();
        let mut i: usize = 0;
        proof {
            assert(self@.subrange(0, 0) =~= Seq::<ChunkModel>::empty());
        }
        while i < n
            invariant
                n == self.chunks@.len(),
                i <= n,
                out@ == spec_signature() + spec_chunks_bytes(self@.subrange(0, i as int)),
            decreases n - i,
        {
            let cb = self.chunks[i].as_bytes();
            push_bytes(&mut out, cb.as_slice());
            proof {
                lemma_chunks_bytes_push(self@.subrange(0, i as int), self@[i as int]);
                assert(self@.subrange(0, i + 1) =~= self@.subrange(0, i as int).push(
                    self@[i as int],
                ));
            }
            i = i + 1;
        }
        proof {
            assert(self@.subrange(0, n as int) =~= self@);
        }
        out
    }
}

/// Serialization distributes over appending one chunk to the list.
pub proof fn lemma_chunks_bytes_push(ms: Seq<ChunkModel>, m: ChunkModel)
    ensures
        spec_chunks_bytes(ms.push(m)) == spec_chunks_bytes(ms) + spec_chunk_bytes(m),
    decreases ms.len(),
{
    if ms.len() == 0 {
        assert(ms.push(m)[0] == m);
        assert(ms.push(m).drop_first() =~= Seq::<ChunkModel>::empty());
        assert(spec_chunks_bytes(Seq::<ChunkModel>::empty()) == Seq::<u8>::empty());
        assert(spec_chunks_bytes(ms.push(m)) == spec_chunk_bytes(m) + Seq::<u8>::empty());
        assert(spec_chunk_bytes(m) + Seq::<u8>::empty() =~= spec_chunk_bytes(m));
        assert(spec_chunks_bytes(ms) + spec_chunk_bytes(m) =~= spec_chunk_bytes(m));
    } else {
        assert(ms.push(m)[0] == ms[0]);
        assert(ms.push(m).drop_first() =~= ms.drop_first().push(m));
        lemma_chunks_bytes_push(ms.drop_first(), m);
        assert(spec_chunks_bytes(ms.push(m)) == spec_chunk_bytes(ms[0]) + (spec_chunks_bytes(
            ms.drop_first(),
        ) + spec_chunk_bytes(m)));
        assert(spec_chunk_bytes(ms[0]) + (spec_chunks_bytes(ms.drop_first()) + spec_chunk_bytes(m))
            =~= (spec_chunk_bytes(ms[0]) + spec_chunks_bytes(ms.drop_first())) + spec_chunk_bytes(
            m,
        ));
    }
}

/// The chunk list parsed from a buffer serializes back to exactly that
/// buffer.
#[verifier::spinoff_prover]
#[verifier::rlimit(100)]
proof fn lemma_chunks_round_trip(s: Seq<u8>)
    requires
        spec_parse_chunks(s) is Ok,
    ensures
        spec_chunks_bytes(spec_parse_chunks(s)->Ok_0) == s,
    decreases s.len(),
{
    let m = spec_parse_chunk(s)->Ok_0;
    lemma_chunk_parse_exact(s);
    let sz = 12 + m.length;
    let rest = s.skip(sz);
    if is_iend(m) {
        let one = seq![m];
        assert(one[0] == m);
        assert(one.drop_first() =~= Seq::<ChunkModel>::empty());
        assert(spec_chunks_bytes(Seq::<ChunkModel>::empty()) == Seq::<u8>::empty());
        assert(spec_chunks_bytes(one) == spec_chunk_bytes(m) + Seq::<u8>::empty());
        assert(s.subrange(0, sz) =~= s);
        assert(spec_chunk_bytes(m) + Seq::<u8>::empty() =~= s);
    } else {
        lemma_chunks_round_trip(rest);
        let ms = spec_parse_chunks(rest)->Ok_0;
        let whole = seq![m] + ms;
        assert(whole[0] == m);
        assert(whole.drop_first() =~= ms);
        assert(spec_chunks_bytes(whole) == spec_chunk_bytes(m) + spec_chunks_bytes(ms));
        assert(spec_chunk_bytes(m) + rest =~= s);
    }
}

/// Any byte sequence that parses as a PNG file serializes back to
/// exactly itself: the file round trip.
#[verifier::spinoff_prover]
#[verifier::rlimit(100)]
pub proof fn lemma_png_round_trip(s: Seq<u8>)
    requires
        spec_parse_png(s) is Ok,
    ensures
        spec_png_bytes(spec_parse_png(s)->Ok_0) == s,
{
    lemma_chunks_round_trip(s.skip(8));
    assert(spec_signature() + s.skip(8) =~= s);
}

/// After inserting a chunk before the terminator, the file still ends in
/// `IEND`; and looking the new chunk's type name up finds that very
/// chunk, unless an earlier chunk of the same type preexists.
pub proof fn lemma_append_then_find(ms: Seq<ChunkModel>, c: ChunkModel)
    requires
        chunk_model_wf(c),
        ms.len() > 0,
        is_iend(ms.last()),
    ensures
        ({
            let a = ms.insert(ms.len() - 1, c);
            let name = chars_of_bytes(c.ty);
            &&& a.len() == ms.len() + 1
            &&& is_iend(a.last())
            &&& (forall|j: int| 0 <= j < ms.len() - 1 ==> (#[trigger] ms[j].ty) != c.ty)
                ==> is_first_match(a, name, ms.len() - 1) && a[ms.len() - 1] == c
        }),
{
    let a = ms.insert(ms.len() - 1, c);
    let name = chars_of_bytes(c.ty);
    lemma_ascii_bytes_utf8(c.ty);
    assert(a[ms.len() - 1] == c);
    assert(a.last() == ms.last());
    if forall|j: int| 0 <= j < ms.len() - 1 ==> (#[trigger] ms[j].ty) != c.ty {
        assert(name_matches(c.ty, name));
        assert forall|j: int| 0 <= j < ms.len() - 1 implies !name_matches(
            #[trigger] a[j].ty,
            name,
        ) by {
            assert(a[j] == ms[j]);
        }
    }
}

/// Removing the chunk at a position removes exactly one instance of it
/// from the multiset of chunks, leaving every other chunk in place.
pub proof fn lemma_remove_first_multiset(ms: Seq<ChunkModel>, i: int)
    requires
        0 <= i < ms.len(),
    ensures
        ms.remove(i).to_multiset() == ms.to_multiset().remove(ms[i]),
{
    ms.to_multiset_ensures();
}

} // verus!
