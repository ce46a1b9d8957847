//! The content hash: xxh3 in its 128-bit form, streamed and one-shot.

use vstd::prelude::*;
use xxhash_rust::xxh3::{xxh3_128, Xxh3};

verus! {

/// The streaming hasher of the `xxhash-rust` crate.
#[verifier::external_type_specification]
#[verifier::external_body]
pub struct ExXxh3(Xxh3);

/// Every byte a streaming hasher has been fed, in order.
pub uninterp spec fn fed(h: Xxh3) -> Seq<u8>;

/// What `Xxh3::digest128` returns for a hasher that was fed these bytes.
pub uninterp spec fn xxh3_digest(bytes: Seq<u8>) -> u128;

/// What `xxh3_128` returns for these bytes.
pub uninterp spec fn xxh3_of(bytes: Seq<u8>) -> u128;

/// `Xxh3::new`: a hasher that has been fed nothing.
pub assume_specification[ Xxh3::new ]() -> (h: Xxh3)
    ensures
        fed(h) == Seq::<u8>::empty(),
;

/// `Xxh3::update`: the bytes join the end of what the hasher has been fed.
pub assume_specification[ Xxh3::update ](h: &mut Xxh3, input: &[u8])
    ensures
        fed(*final(h)) == fed(*old(h)) + input@,
;

/// `Xxh3::digest128`: a function of the bytes fed so far, however they were divided into
/// chunks, and of nothing else. Which function it is stays unsaid.
pub assume_specification[ Xxh3::digest128 ](h: &Xxh3) -> (d: u128)
    ensures
        d == xxh3_digest(fed(*h)),
;

/// `xxh3_128`: a function of the input bytes and of nothing else. Which function it is
/// stays unsaid.
pub assume_specification[ xxh3_128 ](input: &[u8]) -> (d: u128)
    ensures
        d == xxh3_of(input@),
;

/// The hash of a whole file, gathered chunk by chunk.
pub struct FileHash {
    h: Xxh3,
}

impl FileHash {
    /// The bytes hashed so far.
    pub closed spec fn bytes(&self) -> Seq<u8> {
        fed(self.h)
    }

    pub fn new() -> (r: FileHash)
        ensures
            r.bytes() == Seq::<u8>::empty(),
    {
        FileHash { h: Xxh3::new() }
    }

    /// Takes in the next chunk.
    pub fn update(&mut self, chunk: &[u8])
        ensures
            final(self).bytes() == old(self).bytes() + chunk@,
    {
        self.h.update(chunk);
    }

    /// The hash of everything taken in.
    pub fn digest(&self) -> (d: u128)
        ensures
            d == xxh3_digest(self.bytes()),
    {
        self.h.digest128()
    }
}

} // verus!
