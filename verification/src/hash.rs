//! The digest function: SHA3-512, fed in pieces.
//!
//! The hash itself is the `sha3` crate's. What this module adds is the
//! statement that feeding a hasher piece by piece gives the digest of the
//! pieces laid end to end, so that a file can be hashed one chunk at a time.

use sha3::{Digest, Sha3_512};
use vstd::prelude::*;

verus! {

/// The length of a digest in bytes.
pub const HASH_SIZE: usize = 64;

/// The state of a SHA3-512 computation of the `sha3` crate, as a value that
/// is carried along and never looked into.
#[verifier::external_type_specification]
#[verifier::external_body]
pub struct ExSha3_512(Sha3_512);

/// The SHA3-512 digest of `data`.
pub uninterp spec fn sha3_512(data: Seq<u8>) -> Seq<u8>;

/// The bytes that have gone into `state` so far, in the order in which they
/// went in.
pub uninterp spec fn absorbed(state: Sha3_512) -> Seq<u8>;

/// A fresh hash state.
///
/// Calls `sha3::Digest::new` for `Sha3_512`, which is its `Default`: an
/// all-zero sponge with an empty block buffer. The contract claims that
/// nothing has gone into it yet.
#[verifier::external_body]
fn sha3_new() -> (state: Sha3_512)
    ensures
        absorbed(state) == Seq::<u8>::empty(),
{
    Sha3_512::new()
}

/// Feeds `data` to the hash state.
///
/// Calls `sha3::Digest::input`, which absorbs the bytes behind what has gone
/// in before. The contract claims exactly that: `data` is appended to the
/// absorbed bytes.
#[verifier::external_body]
fn sha3_input(state: &mut Sha3_512, data: &[u8])
    ensures
        absorbed(*final(state)) == absorbed(*old(state)) + data@,
{
    state.input(data)
}

/// Finishes the computation.
///
/// Calls `sha3::Digest::result`, which pads what has gone in and squeezes out
/// `OutputSize` bytes, 64 for `Sha3_512`, and copies them into a vector. The
/// contract claims that the result is the SHA3-512 digest of the absorbed
/// bytes, a function of those bytes alone, and that it is 64 bytes long.
#[verifier::external_body]
fn sha3_result(state: Sha3_512) -> (digest: Vec<u8>)
    ensures
        digest@ == sha3_512(absorbed(state)),
        digest@.len() == HASH_SIZE,
{
    state.result().to_vec()
}

/// A SHA3-512 computation in progress.
pub struct KitapHasher {
    hasher: Sha3_512,
}

impl View for KitapHasher {
    type V = Seq<u8>;

    /// The bytes fed to the hasher so far.
    closed spec fn view(&self) -> Seq<u8> {
        absorbed(self.hasher)
    }
}

impl KitapHasher {
    pub fn new() -> (hasher: KitapHasher)
        ensures
            hasher@ == Seq::<u8>::empty(),
    {
        let hasher = sha3_new();
        KitapHasher { hasher }
    }

    /// Feeds `data` behind what was fed before.
    pub fn input(&mut self, data: &[u8])
        ensures
            final(self)@ == old(self)@ + data@,
    {
        sha3_input(&mut self.hasher, data);
    }

    /// The digest of all that was fed, 64 bytes.
    pub fn result(self) -> (digest: Vec<u8>)
        ensures
            digest@ == sha3_512(self@),
            digest@.len() == HASH_SIZE,
    {
        sha3_result(self.hasher)
    }
}

/// The chunks laid end to end.
pub open spec fn concat_chunks(chunks: Seq<Seq<u8>>) -> Seq<u8>
    decreases chunks.len(),
{
    if chunks.len() == 0 {
        Seq::empty()
    } else {
        concat_chunks(chunks.drop_last()) + chunks.last()
    }
}

/// The digest of a content that comes in chunks: each chunk is fed to one
/// hasher in turn, so no more than one chunk is looked at at a time.
pub fn hash_chunks(chunks: &[Vec<u8>]) -> (digest: Vec<u8>)
    ensures
        digest@ == sha3_512(concat_chunks(chunks.deep_view())),
        digest@.len() == HASH_SIZE,
{
    let mut hasher = KitapHasher::new();
    let n: usize = chunks.len();
    let mut i: usize = 0;
    while i < n
        invariant
            n == chunks@.len(),
            i <= n,
            hasher@ == concat_chunks(chunks.deep_view().take(i as int)),
        decreases n - i,
    {
        hasher.input(chunks[i].as_slice());
        proof {
            let before = chunks.deep_view().take(i as int);
            let now = chunks.deep_view().take(i + 1);
            assert(now.drop_last() =~= before);
            assert(now.last() == chunks@[i as int]@);
        }
        i += 1;
    }
    assert(chunks.deep_view().take(n as int) =~= chunks.deep_view());
    hasher.result()
}

/// The digest depends on the content alone: however a content is cut into
/// chunks, and however often it is hashed, the digest is the same.
pub proof fn lemma_digest_of_same_content(a: Seq<Seq<u8>>, b: Seq<Seq<u8>>)
    requires
        concat_chunks(a) == concat_chunks(b),
    ensures
        sha3_512(concat_chunks(a)) == sha3_512(concat_chunks(b)),
{
}

} // verus!
