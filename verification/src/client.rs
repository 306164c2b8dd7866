//! The client's side of an exchange: the requests it sends, and the length
//! prefix of the reply it reads.

use crate::error::KitapError;
use crate::hash::HASH_SIZE;
use crate::hexcodec::{digest_from_hex, is_hex, unhex};
use crate::messages::{
    frame_bytes, join_digests, place_body, FetchMessage, Message, MessageType, PlaceMessage,
};
use crate::wire::{read_u32_le, u32_of_le};
use vstd::prelude::*;

verus! {

/// The size of the chunks in which a file is read, hashed and sent.
pub const CHUNK_SIZE: usize = 1024;

/// The length of the prefix that tells how long the reply to a fetch is.
pub const LENGTH_PREFIX_LEN: usize = 4;

/// The length of the reply to a place.
pub const PLACE_REPLY_LEN: usize = 5;

/// The bytes of a fetch request for the given digests.
pub open spec fn fetch_request_bytes(digests: Seq<Seq<u8>>) -> Seq<u8> {
    frame_bytes(MessageType::Fetch, join_digests(digests))
}

/// The bytes of a place request: the frame that announces the digest and the
/// size of the data. The data itself follows the frame.
pub open spec fn place_request_bytes(digest: Seq<u8>, datasize: u32) -> Seq<u8> {
    frame_bytes(MessageType::Place, place_body(digest, datasize))
}

/// Whether the text spells a digest: hex, and 64 bytes of it.
pub open spec fn is_digest_text(text: Seq<char>) -> bool {
    is_hex(text) && text.len() == 2 * HASH_SIZE
}

/// The digests that the texts spell, in order.
pub open spec fn digests_of(texts: Seq<String>) -> Seq<Seq<u8>> {
    Seq::new(texts.len(), |i: int| unhex(texts[i]@))
}

/// As many digests, joined, are one byte short of 65 bytes each.
pub proof fn lemma_joined_length(digests: Seq<Seq<u8>>)
    requires
        forall|i: int| 0 <= i < digests.len() ==> (#[trigger] digests[i]).len() == HASH_SIZE,
    ensures
        digests.len() == 0 ==> join_digests(digests).len() == 0,
        digests.len() > 0 ==> join_digests(digests).len() == 65 * digests.len() - 1,
    decreases digests.len(),
{
    if digests.len() > 1 {
        let earlier = digests.drop_last();
        assert forall|i: int| 0 <= i < earlier.len() implies (#[trigger] earlier[i]).len()
            == HASH_SIZE by {
            assert(earlier[i] == digests[i]);
        }
        lemma_joined_length(earlier);
        assert(digests.last() == digests[digests.len() - 1]);
    } else if digests.len() == 1 {
        assert(digests[0].len() == HASH_SIZE);
    }
}

/// Reads the digests that the user gave as text.
///
/// Fails with `ValidationError` when one of the texts spells no digest.
pub fn parse_digests(texts: &Vec<String>) -> (r: Result<Vec<Vec<u8>>, KitapError>)
    ensures
        match r {
            Ok(digests) => {
                &&& forall|i: int| 0 <= i < texts@.len() ==> is_digest_text(#[trigger] texts@[i]@)
                &&& digests.deep_view() == digests_of(texts@)
            },
            Err(error) => {
                &&& error == KitapError::ValidationError
                &&& exists|i: int| 0 <= i < texts@.len() && !is_digest_text(#[trigger] texts@[i]@)
            },
        },
{
    let n: usize = texts.len();
    let mut digests: Vec<Vec<u8>> = Vec::new();
    let mut i: usize = 0;
    while i < n
        invariant
            n == texts@.len(),
            i <= n,
            digests@.len() == i,
            forall|j: int| 0 <= j < i ==> is_digest_text(#[trigger] texts@[j]@),
            forall|j: int| 0 <= j < i ==> (#[trigger] digests@[j])@ == unhex(texts@[j]@),
        decreases n - i,
    {
        match digest_from_hex(texts[i].as_str()) {
            Ok(digest) => {
                digests.push(digest);
            },
            Err(_) => {
                assert(!is_digest_text(texts@[i as int]@));
                return Err(KitapError::ValidationError);
            },
        }
        i += 1;
    }
    assert forall|j: int| 0 <= j < n implies digests.deep_view()[j] == digests_of(texts@)[j] by {
        assert(digests.deep_view()[j] =~= digests@[j]@);
    }
    assert(digests.deep_view() =~= digests_of(texts@));
    Ok(digests)
}

/// The fetch request for the digests that the user gave as text.
///
/// Fails with `ValidationError` when one of the texts spells no digest, and
/// when the digests are too many for the length field of one frame.
pub fn fetch_request(texts: &Vec<String>) -> (r: Result<Vec<u8>, KitapError>)
    ensures
        match r {
            Ok(bytes) => {
                &&& forall|i: int| 0 <= i < texts@.len() ==> is_digest_text(#[trigger] texts@[i]@)
                &&& join_digests(digests_of(texts@)).len() <= u32::MAX
                &&& bytes@ == fetch_request_bytes(digests_of(texts@))
            },
            Err(error) => {
                &&& error == KitapError::ValidationError
                &&& (exists|i: int| 0 <= i < texts@.len() && !is_digest_text(#[trigger] texts@[i]@))
                    || join_digests(digests_of(texts@)).len() > u32::MAX
            },
        },
{
    match parse_digests(texts) {
        Ok(digests) => {
            proof {
                let model = digests_of(texts@);
                assert forall|i: int| 0 <= i < model.len() implies (#[trigger] model[i]).len()
                    == HASH_SIZE by {
                    assert(is_digest_text(texts@[i]@));
                }
                lemma_joined_length(model);
            }
            if digests.len() > (u32::MAX as usize) / 65 {
                return Err(KitapError::ValidationError);
            }
            let msg = FetchMessage::new(digests);
            Ok(msg.into_bytes())
        },
        Err(error) => Err(error),
    }
}

/// The place request for data of `datasize` bytes under `digest`.
///
/// Fails with `ValidationError` when `digest` is not 64 bytes long, and when
/// `datasize` does not fit the four bytes that the request has for it.
pub fn place_request(digest: Vec<u8>, datasize: usize) -> (r: Result<Vec<u8>, KitapError>)
    ensures
        match r {
            Ok(bytes) => {
                &&& digest@.len() == HASH_SIZE
                &&& datasize <= u32::MAX
                &&& bytes@ == place_request_bytes(digest@, datasize as u32)
            },
            Err(error) => {
                &&& error == KitapError::ValidationError
                &&& digest@.len() != HASH_SIZE || datasize > u32::MAX
            },
        },
{
    if digest.len() != HASH_SIZE || datasize > u32::MAX as usize {
        return Err(KitapError::ValidationError);
    }
    let msg = PlaceMessage::new(digest, datasize);
    Ok(msg.into_bytes())
}

/// The length that the prefix of a fetch reply announces.
///
/// Fails with `ProtocolError` exactly when fewer than four bytes are there.
pub fn reply_length(prefix: &[u8]) -> (r: Result<u32, KitapError>)
    ensures
        prefix@.len() >= LENGTH_PREFIX_LEN ==> r == Ok::<u32, KitapError>(u32_of_le(prefix@)),
        prefix@.len() < LENGTH_PREFIX_LEN ==> r == Err::<u32, KitapError>(
            KitapError::ProtocolError,
        ),
{
    match read_u32_le(prefix) {
        Some(length) => Ok(length),
        None => Err(KitapError::ProtocolError),
    }
}

} // verus!
