//! Content digests of files and buffers: BLAKE3, written as lower-case hex,
//! the form in which manifests, intents and transfer checks compare them.

use vstd::prelude::*;
use crate::pairing::{blake3_digest, blake3_spec, hex_lower, push_hex};

verus! {

#[verifier::external_type_specification]
#[verifier::external_body]
pub struct ExBlake3Hasher(blake3::Hasher);

/// The lower-case hex BLAKE3 digest of `data` (64 characters).
pub open spec fn blake3_hex_spec(data: Seq<u8>) -> Seq<char> {
    hex_lower(blake3_spec(data))
}

/// The hex digest of a whole buffer.
pub fn blake3_hex(data: &[u8]) -> (r: String)
    ensures
        r@ == blake3_hex_spec(data@),
{
    let d = blake3_digest(data);
    let mut out: Vec<char> = Vec::new();
    push_hex(&mut out, &d);
    assert(out@ =~= hex_lower(d@));
    crate::text::string_from_chars(&out)
}

/// An incremental digest: bytes are fed in pieces (a file read buffer at a
/// time) and the digest is that of everything fed so far, in order.
pub struct Blake3Stream {
    hasher: blake3::Hasher,
    absorbed: Ghost<Seq<u8>>,
}

/// blake3's `Hasher::new()`: a hasher that has absorbed nothing.
#[verifier::external_body]
fn hasher_start() -> (s: Blake3Stream)
    ensures
        s.absorbed@ == Seq::<u8>::empty(),
{
    Blake3Stream { hasher: blake3::Hasher::new(), absorbed: Ghost(Seq::empty()) }
}

/// blake3's `Hasher::update`: the hasher's input grows by `chunk`. The input
/// stays within the format's 2^64-byte limit.
#[verifier::external_body]
fn hasher_absorb(s: &mut Blake3Stream, chunk: &[u8])
    requires
        old(s).absorbed@.len() + chunk@.len() <= u64::MAX,
    ensures
        final(s).absorbed@ == old(s).absorbed@ + chunk@,
{
    s.hasher.update(chunk);
}

/// blake3's `Hasher::finalize().as_bytes()`: the digest of everything
/// absorbed, the same as `blake3::hash` of the concatenated input.
#[verifier::external_body]
fn hasher_digest(s: &Blake3Stream) -> (d: [u8; 32])
    ensures
        d@ == blake3_spec(s.absorbed@),
{
    *s.hasher.finalize().as_bytes()
}

impl Blake3Stream {
    /// The bytes fed so far.
    pub closed spec fn absorbed(&self) -> Seq<u8> {
        self.absorbed@
    }

    pub fn new() -> (s: Self)
        ensures
            s.absorbed() == Seq::<u8>::empty(),
    {
        hasher_start()
    }

    /// Feeds the next piece of input.
    pub fn update(&mut self, chunk: &[u8])
        requires
            old(self).absorbed().len() + chunk@.len() <= u64::MAX,
        ensures
            final(self).absorbed() == old(self).absorbed() + chunk@,
    {
        hasher_absorb(self, chunk);
    }

    /// The lower-case hex digest of everything fed so far.
    pub fn finalize_hex(&self) -> (r: String)
        ensures
            r@ == blake3_hex_spec(self.absorbed()),
    {
        let d = hasher_digest(self);
        let mut out: Vec<char> = Vec::new();
        push_hex(&mut out, &d);
        assert(out@ =~= hex_lower(d@));
        crate::text::string_from_chars(&out)
    }
}

} // verus!
