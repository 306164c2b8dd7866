//! Little-endian integers on the wire.
//!
//! The byte order of every integer field of the protocol is fixed here, as
//! spec functions on byte sequences, together with the executable readers
//! and writers that the codec uses.

use byteorder::{LittleEndian, ReadBytesExt, WriteBytesExt};
use std::io::Cursor;
use vstd::prelude::*;

verus! {

/// The two bytes of `x`, least significant first.
pub open spec fn le_u16(x: u16) -> Seq<u8> {
    seq![(x % 256) as u8, (x / 256) as u8]
}

/// The four bytes of `x`, least significant first.
pub open spec fn le_u32(x: u32) -> Seq<u8> {
    seq![
        (x % 256) as u8,
        (x / 256 % 256) as u8,
        (x / 65536 % 256) as u8,
        (x / 16777216) as u8,
    ]
}

/// The number whose little-endian bytes are the first two of `b`.
pub open spec fn u16_of_le(b: Seq<u8>) -> u16
    recommends
        b.len() >= 2,
{
    (b[0] + 256 * b[1]) as u16
}

/// The number whose little-endian bytes are the first four of `b`.
pub open spec fn u32_of_le(b: Seq<u8>) -> u32
    recommends
        b.len() >= 4,
{
    (b[0] + 256 * b[1] + 65536 * b[2] + 16777216 * b[3]) as u32
}

/// Reading back what was written gives the number that was written.
pub proof fn lemma_le_u16_round_trip(x: u16)
    ensures
        le_u16(x).len() == 2,
        u16_of_le(le_u16(x)) == x,
{
}

/// Reading back what was written gives the number that was written.
pub proof fn lemma_le_u32_round_trip(x: u32)
    ensures
        le_u32(x).len() == 4,
        u32_of_le(le_u32(x)) == x,
{
}

/// Appends the two little-endian bytes of `x` to `out`.
///
/// Calls `byteorder::WriteBytesExt::write_u16::<LittleEndian>` on the
/// vector. A vector grows as needed when written to, so the call cannot
/// fail; the contract claims that exactly the two bytes of `le_u16(x)` are
/// appended and that nothing else changes.
#[verifier::external_body]
pub(crate) fn write_u16_le(out: &mut Vec<u8>, x: u16)
    ensures
        final(out)@ == old(out)@ + le_u16(x),
{
    let _ = out.write_u16::<LittleEndian>(x);
}

/// Appends the four little-endian bytes of `x` to `out`.
///
/// Calls `byteorder::WriteBytesExt::write_u32::<LittleEndian>` on the
/// vector. A vector grows as needed when written to, so the call cannot
/// fail; the contract claims that exactly the four bytes of `le_u32(x)` are
/// appended and that nothing else changes.
#[verifier::external_body]
pub(crate) fn write_u32_le(out: &mut Vec<u8>, x: u32)
    ensures
        final(out)@ == old(out)@ + le_u32(x),
{
    let _ = out.write_u32::<LittleEndian>(x);
}

/// Reads a little-endian `u16` from the front of `buf`.
///
/// Calls `byteorder::ReadBytesExt::read_u16::<LittleEndian>` on a cursor
/// over `buf`. The contract claims that the read succeeds exactly when two
/// bytes are there, and that it then gives the number those two bytes
/// spell; with fewer bytes the underlying `read_exact` fails.
#[verifier::external_body]
pub(crate) fn read_u16_le(buf: &[u8]) -> (r: Option<u16>)
    ensures
        buf@.len() >= 2 ==> r == Some(u16_of_le(buf@)),
        buf@.len() < 2 ==> r is None,
{
    Cursor::new(buf).read_u16::<LittleEndian>().ok()
}

/// Reads a little-endian `u32` from the front of `buf`.
///
/// Calls `byteorder::ReadBytesExt::read_u32::<LittleEndian>` on a cursor
/// over `buf`. The contract claims that the read succeeds exactly when four
/// bytes are there, and that it then gives the number those four bytes
/// spell; with fewer bytes the underlying `read_exact` fails.
#[verifier::external_body]
pub(crate) fn read_u32_le(buf: &[u8]) -> (r: Option<u32>)
    ensures
        buf@.len() >= 4 ==> r == Some(u32_of_le(buf@)),
        buf@.len() < 4 ==> r is None,
{
    Cursor::new(buf).read_u32::<LittleEndian>().ok()
}

/// Appends the bytes of `src` to `out`.
pub fn append_bytes(out: &mut Vec<u8>, src: &[u8])
    ensures
        final(out)@ == old(out)@ + src@,
{
    let n: usize = src.len();
    let mut i: usize = 0;
    while i < n
        invariant
            n == src@.len(),
            i <= n,
            out@ == old(out)@ + src@.subrange(0, i as int),
        decreases n - i,
    {
        out.push(src[i]);
        i += 1;
        assert(out@ =~= old(out)@ + src@.subrange(0, i as int));
    }
    assert(src@.subrange(0, n as int) =~= src@);
}

/// Whether `a` and `b` hold the same bytes.
pub fn same_bytes(a: &[u8], b: &[u8]) -> (same: bool)
    ensures
        same == (a@ == b@),
{
    if a.len() != b.len() {
        return false;
    }
    let n: usize = a.len();
    let mut i: usize = 0;
    while i < n
        invariant
            n == a@.len(),
            n == b@.len(),
            i <= n,
            a@.subrange(0, i as int) == b@.subrange(0, i as int),
        decreases n - i,
    {
        if a[i] != b[i] {
            assert(a@[i as int] != b@[i as int]);
            return false;
        }
        i += 1;
        assert(a@.subrange(0, i as int) =~= a@.subrange(0, i - 1).push(a@[i - 1]));
        assert(b@.subrange(0, i as int) =~= b@.subrange(0, i - 1).push(b@[i - 1]));
    }
    assert(a@.subrange(0, n as int) =~= a@);
    assert(b@.subrange(0, n as int) =~= b@);
    true
}

} // verus!
