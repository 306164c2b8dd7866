//! The frame codec: message types, headers, bodies and whole frames.
//!
//! A frame is a six-byte header, the type code in two bytes and the body
//! length in four, both little-endian, followed by the body.

use crate::error::KitapError;
use crate::hash::HASH_SIZE;
use crate::wire::{
    append_bytes, le_u16, le_u32, lemma_le_u16_round_trip, lemma_le_u32_round_trip, read_u16_le,
    read_u32_le, u16_of_le, u32_of_le, write_u16_le, write_u32_le,
};
use vstd::prelude::*;
use vstd::slice::slice_subrange;
use vstd::std_specs::convert::FromSpecImpl;

verus! {

/// The length of a frame's header in bytes.
pub const MSG_HEADER_LEN: usize = 6;

/// The byte that stands between the digests of a fetch body, an ASCII colon.
pub const DIGEST_SEPARATOR: u8 = 0x3A;

/// The length of a place body: a digest and a four-byte data size.
pub const PLACE_BODY_LEN: usize = 68;

/// The kind of a message, as the header's type code tells it.
#[derive(Clone, Copy, Debug, PartialEq, Eq, Structural)]
pub enum MessageType {
    Place,
    Fetch,
    NotFound,
    Unknown,
}

impl MessageType {
    /// The type code that stands for this kind on the wire.
    pub open spec fn code(self) -> u16 {
        match self {
            MessageType::Place => 0,
            MessageType::Fetch => 1,
            MessageType::NotFound => 2,
            MessageType::Unknown => 255,
        }
    }

    /// The kind that a type code stands for; every code that stands for no
    /// other kind is `Unknown`.
    pub open spec fn of_code(code: u16) -> MessageType {
        if code == 0 {
            MessageType::Place
        } else if code == 1 {
            MessageType::Fetch
        } else if code == 2 {
            MessageType::NotFound
        } else {
            MessageType::Unknown
        }
    }

    /// The type code of this kind.
    pub fn to_code(self) -> (t: u16)
        ensures
            t == self.code(),
    {
        match self {
            MessageType::Place => 0,
            MessageType::Fetch => 1,
            MessageType::NotFound => 2,
            MessageType::Unknown => 255,
        }
    }

    /// The kind that the type code `t` stands for.
    pub fn from_code(t: u16) -> (kind: MessageType)
        ensures
            kind == MessageType::of_code(t),
    {
        match t {
            0 => MessageType::Place,
            1 => MessageType::Fetch,
            2 => MessageType::NotFound,
            _ => MessageType::Unknown,
        }
    }

    /// Every kind is the kind of its own code.
    pub proof fn lemma_code_round_trip(self)
        ensures
            MessageType::of_code(self.code()) == self,
    {
    }
}

impl From<u16> for MessageType {
    fn from(t: u16) -> (kind: MessageType) {
        MessageType::from_code(t)
    }
}

impl FromSpecImpl<u16> for MessageType {
    open spec fn obeys_from_spec() -> bool {
        true
    }

    open spec fn from_spec(t: u16) -> MessageType {
        MessageType::of_code(t)
    }
}

impl From<MessageType> for u16 {
    fn from(kind: MessageType) -> (t: u16) {
        kind.to_code()
    }
}

impl FromSpecImpl<MessageType> for u16 {
    open spec fn obeys_from_spec() -> bool {
        true
    }

    open spec fn from_spec(kind: MessageType) -> u16 {
        kind.code()
    }
}

/// The six bytes of a header.
pub open spec fn header_bytes(kind: MessageType, length: u32) -> Seq<u8> {
    le_u16(kind.code()) + le_u32(length)
}

/// The bytes of a whole frame: the header, then the body.
pub open spec fn frame_bytes(kind: MessageType, body: Seq<u8>) -> Seq<u8>
    recommends
        body.len() <= u32::MAX,
{
    header_bytes(kind, body.len() as u32) + body
}

/// Writes the header of a frame of the given kind and body length.
pub fn encode_header(kind: MessageType, length: u32) -> (header: Vec<u8>)
    ensures
        header@ == header_bytes(kind, length),
        header@.len() == MSG_HEADER_LEN,
{
    let mut header: Vec<u8> = Vec::with_capacity(MSG_HEADER_LEN);
    write_u16_le(&mut header, kind.to_code());
    write_u32_le(&mut header, length);
    header
}

/// What the first six bytes of `bytes` say as a header; `None` when fewer
/// than six bytes are there.
pub open spec fn parse_header(bytes: Seq<u8>) -> Option<(MessageType, u32)> {
    if bytes.len() < MSG_HEADER_LEN {
        None
    } else {
        Some(
            (
                MessageType::of_code(u16_of_le(bytes.subrange(0, 2))),
                u32_of_le(bytes.subrange(2, 6)),
            ),
        )
    }
}

/// Reads the kind and the body length off the first six bytes of `buf`.
///
/// Fails with `ProtocolError` exactly when fewer than six bytes are there.
pub fn decode_header(buf: &[u8]) -> (r: Result<(MessageType, u32), KitapError>)
    ensures
        r == match parse_header(buf@) {
            Some(header) => Ok::<(MessageType, u32), KitapError>(header),
            None => Err::<(MessageType, u32), KitapError>(KitapError::ProtocolError),
        },
{
    if buf.len() < MSG_HEADER_LEN {
        return Err(KitapError::ProtocolError);
    }
    let code = read_u16_le(slice_subrange(buf, 0, 2));
    let length = read_u32_le(slice_subrange(buf, 2, 6));
    match (code, length) {
        (Some(code), Some(length)) => Ok((MessageType::from_code(code), length)),
        _ => Err(KitapError::ProtocolError),
    }
}

/// A header that was written reads back as the kind and the length it was
/// written from, whatever follows it.
pub proof fn lemma_header_round_trip(kind: MessageType, length: u32, rest: Seq<u8>)
    ensures
        header_bytes(kind, length).len() == MSG_HEADER_LEN,
        parse_header(header_bytes(kind, length) + rest) == Some((kind, length)),
{
    let h = header_bytes(kind, length) + rest;
    assert(h.subrange(0, 2) =~= le_u16(kind.code()));
    assert(h.subrange(2, 6) =~= le_u32(length));
    lemma_le_u16_round_trip(kind.code());
    lemma_le_u32_round_trip(length);
}

/// Something that can be sent as a frame.
pub trait Message {
    /// The kind under which the message travels.
    spec fn kind(&self) -> MessageType;

    /// The bytes of the message's body.
    spec fn contents(&self) -> Seq<u8>;

    /// Whether every field of the message, and the length of its body, fits
    /// the field of the frame that holds it.
    spec fn encodable(&self) -> bool;

    /// The kind under which the message travels.
    fn get_type(&self) -> (kind: MessageType)
        ensures
            kind == self.kind(),
    ;

    /// The bytes of the message's body.
    fn get_contents(&self) -> (body: Vec<u8>)
        requires
            self.encodable(),
        ensures
            body@ == self.contents(),
            body@.len() <= u32::MAX,
    ;

    /// The message as a frame: the header, then the body.
    fn into_bytes(&self) -> (bytes: Vec<u8>)
        requires
            self.encodable(),
        ensures
            bytes@ == frame_bytes(self.kind(), self.contents()),
            bytes@.len() == MSG_HEADER_LEN + self.contents().len(),
    {
        let msg_type = self.get_type();
        let mut contents = self.get_contents();
        let len: usize = contents.len();
        let mut v: Vec<u8> = Vec::with_capacity(MSG_HEADER_LEN);
        write_u16_le(&mut v, msg_type.to_code());
        write_u32_le(&mut v, len as u32);
        v.append(&mut contents);
        v
    }
}

/// The digests of a fetch body, each two neighbours parted by the separator.
pub open spec fn join_digests(hashes: Seq<Seq<u8>>) -> Seq<u8>
    decreases hashes.len(),
{
    if hashes.len() == 0 {
        Seq::empty()
    } else if hashes.len() == 1 {
        hashes[0]
    } else {
        join_digests(hashes.drop_last()) + seq![DIGEST_SEPARATOR] + hashes.last()
    }
}

/// A message for Fetch requests.
pub struct FetchMessage {
    hashes: Vec<Vec<u8>>,
}

impl View for FetchMessage {
    type V = Seq<Seq<u8>>;

    /// The digests asked for, in order.
    closed spec fn view(&self) -> Seq<Seq<u8>> {
        self.hashes.deep_view()
    }
}

impl FetchMessage {
    pub fn new(hashes: Vec<Vec<u8>>) -> (msg: FetchMessage)
        ensures
            msg@ == hashes.deep_view(),
    {
        FetchMessage { hashes }
    }
}

impl Message for FetchMessage {
    open spec fn kind(&self) -> MessageType {
        MessageType::Fetch
    }

    open spec fn contents(&self) -> Seq<u8> {
        join_digests(self@)
    }

    open spec fn encodable(&self) -> bool {
        join_digests(self@).len() <= u32::MAX
    }

    fn get_type(&self) -> (kind: MessageType) {
        MessageType::Fetch
    }

    fn get_contents(&self) -> (body: Vec<u8>) {
        let n: usize = self.hashes.len();
        let mut body: Vec<u8> = Vec::new();
        let mut i: usize = 0;
        while i < n
            invariant
                n == self.hashes@.len(),
                i <= n,
                body@ == join_digests(self@.take(i as int)),
            decreases n - i,
        {
            if i > 0 {
                body.push(DIGEST_SEPARATOR);
            }
            append_bytes(&mut body, self.hashes[i].as_slice());
            proof {
                let before = self@.take(i as int);
                let now = self@.take(i + 1);
                assert(now.drop_last() =~= before);
                assert(now.last() == self.hashes@[i as int]@);
            }
            i += 1;
        }
        assert(self@.take(n as int) =~= self@);
        body
    }
}

/// A message for Place requests.
pub struct PlaceMessage {
    pub hash: Vec<u8>,
    pub datasize: usize,
}

/// The bytes of a place body: the digest, then the size of the data that
/// follows the frame.
pub open spec fn place_body(hash: Seq<u8>, datasize: u32) -> Seq<u8> {
    hash + le_u32(datasize)
}

/// What a place body says: the digest and the size of the data. `None` when
/// the body is too short to hold both.
pub open spec fn parse_place_body(body: Seq<u8>) -> Option<(Seq<u8>, u32)> {
    if body.len() < PLACE_BODY_LEN {
        None
    } else {
        Some(
            (
                body.subrange(0, HASH_SIZE as int),
                u32_of_le(body.subrange(HASH_SIZE as int, PLACE_BODY_LEN as int)),
            ),
        )
    }
}

/// A place body that was written from a digest of full length reads back as
/// that digest and that size.
pub proof fn lemma_place_body_round_trip(hash: Seq<u8>, datasize: u32)
    requires
        hash.len() == HASH_SIZE,
    ensures
        place_body(hash, datasize).len() == PLACE_BODY_LEN,
        parse_place_body(place_body(hash, datasize)) == Some((hash, datasize)),
{
    let body = place_body(hash, datasize);
    assert(body.subrange(0, HASH_SIZE as int) =~= hash);
    assert(body.subrange(HASH_SIZE as int, PLACE_BODY_LEN as int) =~= le_u32(datasize));
    lemma_le_u32_round_trip(datasize);
}

impl PlaceMessage {
    pub fn new(hash: Vec<u8>, datasize: usize) -> (msg: PlaceMessage)
        ensures
            msg.hash == hash,
            msg.datasize == datasize,
    {
        PlaceMessage { hash, datasize }
    }

    /// Reads a place message off a body.
    ///
    /// Fails with `ProtocolError` exactly when the body is shorter than a
    /// digest and a data size; what follows the two is not looked at.
    pub fn try_from(buf: Vec<u8>) -> (r: Result<PlaceMessage, KitapError>)
        ensures
            match parse_place_body(buf@) {
                Some((hash, datasize)) => r matches Ok(msg) && msg.hash@ == hash && msg.datasize
                    == datasize,
                None => r matches Err(e) && e == KitapError::ProtocolError,
            },
    {
        if buf.len() < PLACE_BODY_LEN {
            return Err(KitapError::ProtocolError);
        }
        let mut hash = buf;
        let tail = hash.split_off(HASH_SIZE);
        match read_u32_le(tail.as_slice()) {
            Some(datasize) => Ok(PlaceMessage { hash, datasize: datasize as usize }),
            None => Err(KitapError::ProtocolError),
        }
    }
}

impl Message for PlaceMessage {
    open spec fn kind(&self) -> MessageType {
        MessageType::Place
    }

    open spec fn contents(&self) -> Seq<u8> {
        place_body(self.hash@, self.datasize as u32)
    }

    open spec fn encodable(&self) -> bool {
        &&& self.datasize <= u32::MAX
        &&& self.hash@.len() + 4 <= u32::MAX
    }

    fn get_type(&self) -> (kind: MessageType) {
        MessageType::Place
    }

    fn get_contents(&self) -> (body: Vec<u8>) {
        let mut body: Vec<u8> = Vec::new();
        append_bytes(&mut body, self.hash.as_slice());
        write_u32_le(&mut body, self.datasize as u32);
        body
    }
}

/// The reply that labels a digest as not found.
pub struct NotFoundMessage<'a> {
    key: &'a Vec<u8>,
}

impl<'a> View for NotFoundMessage<'a> {
    type V = Seq<u8>;

    /// The digest that was not found.
    closed spec fn view(&self) -> Seq<u8> {
        self.key@
    }
}

impl<'a> NotFoundMessage<'a> {
    pub fn new(key: &'a Vec<u8>) -> (msg: NotFoundMessage<'a>)
        ensures
            msg@ == key@,
    {
        NotFoundMessage { key }
    }
}

impl<'a> Message for NotFoundMessage<'a> {
    open spec fn kind(&self) -> MessageType {
        MessageType::NotFound
    }

    open spec fn contents(&self) -> Seq<u8> {
        self@
    }

    open spec fn encodable(&self) -> bool {
        self@.len() <= u32::MAX
    }

    fn get_type(&self) -> (kind: MessageType) {
        MessageType::NotFound
    }

    fn get_contents(&self) -> (body: Vec<u8>) {
        let mut body: Vec<u8> = Vec::new();
        append_bytes(&mut body, self.key.as_slice());
        body
    }
}

/// A frame as it is read off the wire: the kind that its header names and
/// the bytes of its body.
pub struct Frame {
    pub msg_type: MessageType,
    pub body: Vec<u8>,
}

impl View for Frame {
    type V = (MessageType, Seq<u8>);

    open spec fn view(&self) -> (MessageType, Seq<u8>) {
        (self.msg_type, self.body@)
    }
}

/// What `bytes` say as a whole frame: the kind and the body. `None` when the
/// header is incomplete or the length it declares is not the number of bytes
/// that follow it.
pub open spec fn parse_frame(bytes: Seq<u8>) -> Option<(MessageType, Seq<u8>)> {
    match parse_header(bytes) {
        Some((kind, length)) => if bytes.len() == MSG_HEADER_LEN + length {
            Some((kind, bytes.subrange(MSG_HEADER_LEN as int, bytes.len() as int)))
        } else {
            None
        },
        None => None,
    }
}

/// Encoding and then decoding a frame gives the frame back: a frame that was
/// written reads back as the kind and the body it was written from.
pub proof fn lemma_frame_round_trip(kind: MessageType, body: Seq<u8>)
    requires
        body.len() <= u32::MAX,
    ensures
        parse_frame(frame_bytes(kind, body)) == Some((kind, body)),
{
    let bytes = frame_bytes(kind, body);
    lemma_header_round_trip(kind, body.len() as u32, body);
    assert(bytes.subrange(MSG_HEADER_LEN as int, bytes.len() as int) =~= body);
}

impl Frame {
    pub fn new(msg_type: MessageType, body: Vec<u8>) -> (frame: Frame)
        ensures
            frame@ == (msg_type, body@),
    {
        Frame { msg_type, body }
    }

    /// Reads a whole frame.
    ///
    /// Fails with `ProtocolError` exactly when `bytes` are no frame: when the
    /// header is incomplete, or when the body is not as long as the header
    /// says.
    pub fn from_bytes(bytes: &[u8]) -> (r: Result<Frame, KitapError>)
        ensures
            match parse_frame(bytes@) {
                Some(frame) => r matches Ok(f) && f@ == frame,
                None => r matches Err(e) && e == KitapError::ProtocolError,
            },
    {
        match decode_header(bytes) {
            Ok((msg_type, length)) => {
                if bytes.len() - MSG_HEADER_LEN != length as usize {
                    return Err(KitapError::ProtocolError);
                }
                let mut body: Vec<u8> = Vec::new();
                append_bytes(&mut body, slice_subrange(bytes, MSG_HEADER_LEN, bytes.len()));
                Ok(Frame { msg_type, body })
            },
            Err(e) => Err(e),
        }
    }
}

impl Message for Frame {
    open spec fn kind(&self) -> MessageType {
        self.msg_type
    }

    open spec fn contents(&self) -> Seq<u8> {
        self.body@
    }

    open spec fn encodable(&self) -> bool {
        self.body@.len() <= u32::MAX
    }

    fn get_type(&self) -> (kind: MessageType) {
        self.msg_type
    }

    fn get_contents(&self) -> (body: Vec<u8>) {
        let mut body: Vec<u8> = Vec::new();
        append_bytes(&mut body, self.body.as_slice());
        body
    }
}

} // verus!
