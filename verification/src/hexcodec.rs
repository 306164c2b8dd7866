//! Digests as text: lower-case hex, two digits to the byte.
//!
//! The conversions themselves are the `hex` crate's. This module says what
//! they compute, and checks the length of a digest that comes in as text.

use crate::error::KitapError;
use crate::hash::HASH_SIZE;
use hex::FromHexError;
use vstd::prelude::*;

verus! {

/// The sixteen hex digits, in lower case, each at the index of its value.
pub open spec fn hex_digits() -> Seq<char> {
    seq!['0', '1', '2', '3', '4', '5', '6', '7', '8', '9', 'a', 'b', 'c', 'd', 'e', 'f']
}

/// The value of a hex digit, of either case; `None` for any other character.
pub open spec fn hex_value(c: char) -> Option<u8> {
    let code = c as int;
    if 48 <= code <= 57 {
        Some((code - 48) as u8)
    } else if 97 <= code <= 102 {
        Some((code - 87) as u8)
    } else if 65 <= code <= 70 {
        Some((code - 55) as u8)
    } else {
        None
    }
}

/// The bytes as hex text: for each byte its high digit, then its low digit.
pub open spec fn hex_of(data: Seq<u8>) -> Seq<char> {
    Seq::new(
        2 * data.len(),
        |i: int|
            if i % 2 == 0 {
                hex_digits()[data[i / 2] as int / 16]
            } else {
                hex_digits()[data[i / 2] as int % 16]
            },
    )
}

/// Whether the text is hex: an even number of characters, each a hex digit.
pub open spec fn is_hex(text: Seq<char>) -> bool {
    &&& text.len() % 2 == 0
    &&& forall|i: int| 0 <= i < text.len() ==> hex_value(#[trigger] text[i]) is Some
}

/// The bytes that a hex text spells: one for each two digits.
pub open spec fn unhex(text: Seq<char>) -> Seq<u8>
    recommends
        is_hex(text),
{
    Seq::new(
        text.len() / 2,
        |i: int| (16 * hex_value(text[2 * i]).unwrap() + hex_value(text[2 * i + 1]).unwrap()) as u8,
    )
}

/// The text of bytes is hex, and spells those bytes.
pub proof fn lemma_hex_round_trip(data: Seq<u8>)
    ensures
        is_hex(hex_of(data)),
        unhex(hex_of(data)) == data,
{
    let text = hex_of(data);
    assert forall|n: int| 0 <= n < 16 implies hex_value(#[trigger] hex_digits()[n]) == Some(
        n as u8,
    ) by {
        assert(hex_digits()[0] == '0');
        assert(hex_digits()[1] == '1');
        assert(hex_digits()[2] == '2');
        assert(hex_digits()[3] == '3');
        assert(hex_digits()[4] == '4');
        assert(hex_digits()[5] == '5');
        assert(hex_digits()[6] == '6');
        assert(hex_digits()[7] == '7');
        assert(hex_digits()[8] == '8');
        assert(hex_digits()[9] == '9');
        assert(hex_digits()[10] == 'a');
        assert(hex_digits()[11] == 'b');
        assert(hex_digits()[12] == 'c');
        assert(hex_digits()[13] == 'd');
        assert(hex_digits()[14] == 'e');
        assert(hex_digits()[15] == 'f');
    }
    assert forall|i: int| 0 <= i < text.len() implies hex_value(#[trigger] text[i]) is Some by {
        let byte = data[i / 2] as int;
        if i % 2 == 0 {
            assert(text[i] == hex_digits()[byte / 16]);
        } else {
            assert(text[i] == hex_digits()[byte % 16]);
        }
    }
    assert forall|i: int| 0 <= i < data.len() implies unhex(text)[i] == data[i] by {
        let byte = data[i] as int;
        assert((2 * i) / 2 == i && (2 * i) % 2 == 0);
        assert((2 * i + 1) / 2 == i && (2 * i + 1) % 2 == 1);
        assert(text[2 * i] == hex_digits()[byte / 16]);
        assert(text[2 * i + 1] == hex_digits()[byte % 16]);
    }
    assert(unhex(text) =~= data);
}

/// The error of the `hex` crate's decoding, carried through unread.
#[verifier::external_type_specification]
#[verifier::external_body]
pub struct ExFromHexError(FromHexError);

/// The bytes as lower-case hex text.
///
/// Calls `hex::encode`, which writes for each byte the digit of its high
/// half and then the digit of its low half, out of `0123456789abcdef`. The
/// contract claims exactly that text.
#[verifier::external_body]
fn hex_encode(data: &[u8]) -> (text: String)
    ensures
        text@ == hex_of(data@),
{
    hex::encode(data)
}

/// The bytes that a hex text spells.
///
/// Calls `hex::decode` on the text. It fails on a text of odd length and on
/// any character that is not a hex digit of either case, and otherwise gives
/// one byte for each two digits, the first digit being the high half. The
/// contract claims that it succeeds exactly on hex text, with those bytes.
#[verifier::external_body]
fn hex_decode(text: &str) -> (r: Result<Vec<u8>, FromHexError>)
    ensures
        match r {
            Ok(bytes) => is_hex(text@) && bytes@ == unhex(text@),
            Err(_) => !is_hex(text@),
        },
{
    hex::decode(text)
}

/// The digest as text, as it is shown to the user.
pub fn digest_to_hex(digest: &[u8]) -> (text: String)
    ensures
        text@ == hex_of(digest@),
{
    hex_encode(digest)
}

/// Reads a digest that the user gave as text.
///
/// Fails with `ValidationError` when the text is not hex, and when it does
/// not spell exactly 64 bytes.
pub fn digest_from_hex(text: &str) -> (r: Result<Vec<u8>, KitapError>)
    ensures
        is_hex(text@) && text@.len() == 2 * HASH_SIZE ==> (r matches Ok(digest) && digest@
            == unhex(text@)),
        !(is_hex(text@) && text@.len() == 2 * HASH_SIZE) ==> r == Err::<Vec<u8>, KitapError>(
            KitapError::ValidationError,
        ),
{
    match hex_decode(text) {
        Ok(digest) => {
            if digest.len() != HASH_SIZE {
                return Err(KitapError::ValidationError);
            }
            Ok(digest)
        },
        Err(_) => Err(KitapError::ValidationError),
    }
}

} // verus!
