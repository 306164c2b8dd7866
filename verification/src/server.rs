//! The connection handler: what a connection does with each thing that
//! happens on it.
//!
//! A connection serves one exchange. It reads a header, then the body that
//! the header announces, then acts on the kind of the message: for a place
//! it reads the data that follows the frame and has it stored; for a fetch
//! it has the digest looked up. It answers once and is done.
//!
//! The handler neither reads nor writes. `step` takes the state of the
//! connection and what has just happened, and gives the next state and what
//! is to be done next; whoever owns the socket and the way to the storage
//! actor does it and comes back with what happened.

use crate::error::KitapError;
use crate::hash::HASH_SIZE;
use crate::mapper::{Contents, FetchContents, MapperReply, PlaceContents};
use crate::messages::{
    decode_header, parse_header, parse_place_body, MessageType, PlaceMessage, MSG_HEADER_LEN,
};
use crate::wire::{append_bytes, le_u32, write_u32_le};
use vstd::prelude::*;

verus! {

/// The reply to a place that was stored: the five letters `ITSOK`.
pub open spec fn place_ok() -> Seq<u8> {
    seq![73u8, 84u8, 83u8, 79u8, 75u8]
}

/// The reply to a place that failed: the five letters `ERROR`.
pub open spec fn place_error() -> Seq<u8> {
    seq![69u8, 82u8, 82u8, 79u8, 82u8]
}

/// The reply to a fetch of a digest under which nothing is stored: the
/// length 5, then the five letters `NTFND`.
pub open spec fn fetch_miss() -> Seq<u8> {
    seq![5u8, 0u8, 0u8, 0u8, 78u8, 84u8, 70u8, 78u8, 68u8]
}

/// The reply to a fetch that failed: the length 5, then the five letters
/// `ERROR`.
pub open spec fn fetch_error() -> Seq<u8> {
    seq![5u8, 0u8, 0u8, 0u8, 69u8, 82u8, 82u8, 79u8, 82u8]
}

/// The reply to a fetch that found `blob`: the length of the blob in four
/// little-endian bytes, then the blob.
pub open spec fn fetch_hit(blob: Seq<u8>) -> Seq<u8>
    recommends
        blob.len() <= u32::MAX,
{
    le_u32(blob.len() as u32) + blob
}

/// Where a connection stands in its exchange.
#[derive(Debug)]
pub enum ConnState {
    /// The six bytes of the header are being read.
    ReadHeader,
    /// The body of a message of kind `msg_type` is being read.
    ReadBody { msg_type: MessageType, length: usize },
    /// The data of a place under `hash` is being read.
    ReadData { hash: Vec<u8>, datasize: usize },
    /// The storage actor has been asked to store the data of a place.
    AwaitSet,
    /// The storage actor has been asked for the blob of a fetch.
    AwaitGet,
    /// The exchange is over.
    Done,
}

/// What has happened on a connection since the handler said what to do.
#[derive(Debug)]
pub enum Event {
    /// The bytes asked for have been read, and these are they.
    Read(Vec<u8>),
    /// The bytes asked for could not be read: the peer sent fewer, or the
    /// socket failed.
    ReadFailed,
    /// The storage actor has replied.
    Reply(MapperReply<Vec<u8>>),
    /// The storage actor could not be reached, or did not reply.
    StoreFailed,
}

/// What is to be done next on a connection.
#[derive(Debug)]
pub enum Action {
    /// Read exactly this many bytes.
    Read(usize),
    /// Hand this request to the storage actor and wait for its reply.
    Submit(Contents<Vec<u8>>),
    /// Write these bytes to the peer and close the connection.
    Respond(Vec<u8>),
    /// Close the connection without a reply.
    Abort(KitapError),
}

/// A connection's state as a value of the model.
pub enum StateView {
    ReadHeader,
    ReadBody { msg_type: MessageType, length: nat },
    ReadData { hash: Seq<u8>, datasize: nat },
    AwaitSet,
    AwaitGet,
    Done,
}

/// An event as a value of the model.
pub enum EventView {
    Read(Seq<u8>),
    ReadFailed,
    Found(Seq<u8>),
    Stored,
    NotFound,
    StoreFailed,
}

/// An action as a value of the model.
pub enum ActionView {
    Read(nat),
    Fetch(Seq<u8>),
    Place(Seq<u8>, Seq<u8>),
    Respond(Seq<u8>),
    Abort(KitapError),
}

impl View for ConnState {
    type V = StateView;

    open spec fn view(&self) -> StateView {
        match *self {
            ConnState::ReadHeader => StateView::ReadHeader,
            ConnState::ReadBody { msg_type, length } => StateView::ReadBody {
                msg_type,
                length: length as nat,
            },
            ConnState::ReadData { hash, datasize } => StateView::ReadData {
                hash: hash@,
                datasize: datasize as nat,
            },
            ConnState::AwaitSet => StateView::AwaitSet,
            ConnState::AwaitGet => StateView::AwaitGet,
            ConnState::Done => StateView::Done,
        }
    }
}

impl View for Event {
    type V = EventView;

    open spec fn view(&self) -> EventView {
        match *self {
            Event::Read(bytes) => EventView::Read(bytes@),
            Event::ReadFailed => EventView::ReadFailed,
            Event::Reply(MapperReply::Data(found)) => EventView::Found((*found.data)@),
            Event::Reply(MapperReply::Stored) => EventView::Stored,
            Event::Reply(MapperReply::NotFound) => EventView::NotFound,
            Event::StoreFailed => EventView::StoreFailed,
        }
    }
}

impl View for Action {
    type V = ActionView;

    open spec fn view(&self) -> ActionView {
        match *self {
            Action::Read(n) => ActionView::Read(n as nat),
            Action::Submit(Contents::Fetch(fetch)) => ActionView::Fetch(fetch.key@),
            Action::Submit(Contents::Place(place)) => ActionView::Place(place.key@, place.data@),
            Action::Respond(bytes) => ActionView::Respond(bytes@),
            Action::Abort(error) => ActionView::Abort(error),
        }
    }
}

/// The exchange ends without a reply.
pub open spec fn abort(error: KitapError) -> (StateView, ActionView) {
    (StateView::Done, ActionView::Abort(error))
}

/// The exchange ends with this reply.
pub open spec fn respond(reply: Seq<u8>) -> (StateView, ActionView) {
    (StateView::Done, ActionView::Respond(reply))
}

/// What a place does once its body is read: it asks for the data that the
/// body announces. A body too short to hold a digest and a size is answered
/// with the error reply.
pub open spec fn place_dispatch(body: Seq<u8>) -> (StateView, ActionView) {
    match parse_place_body(body) {
        Some((hash, datasize)) => (
            StateView::ReadData { hash, datasize: datasize as nat },
            ActionView::Read(datasize as nat),
        ),
        None => respond(place_error()),
    }
}

/// What a fetch does once its body is read: it asks for the blob under the
/// first 64 bytes of the body. A body shorter than a digest is answered with
/// the error reply.
pub open spec fn fetch_dispatch(body: Seq<u8>) -> (StateView, ActionView) {
    if body.len() >= HASH_SIZE {
        (StateView::AwaitGet, ActionView::Fetch(body.subrange(0, HASH_SIZE as int)))
    } else {
        respond(fetch_error())
    }
}

/// The reply to a place, given what came back from the storage actor.
pub open spec fn place_reply(event: EventView) -> Seq<u8> {
    match event {
        EventView::Stored => place_ok(),
        _ => place_error(),
    }
}

/// The reply to a fetch, given what came back from the storage actor.
pub open spec fn fetch_reply(event: EventView) -> Seq<u8> {
    match event {
        EventView::Found(blob) => if blob.len() <= u32::MAX {
            fetch_hit(blob)
        } else {
            fetch_error()
        },
        EventView::NotFound => fetch_miss(),
        _ => fetch_error(),
    }
}

/// The handler's rule: the next state of a connection and what is to be done
/// next, given its state and what has happened.
///
/// A read that fails while the header or the body is awaited ends the
/// exchange with `ConnectionError`, and so does a read of another length
/// than was asked for. A read that fails while the data of a place is
/// awaited is answered with the error reply. A message of a kind that is no
/// request ends the exchange with `ProtocolError`, and so does an event that
/// the state does not wait for.
pub open spec fn step_spec(state: StateView, event: EventView) -> (StateView, ActionView) {
    match state {
        StateView::ReadHeader => match event {
            EventView::Read(bytes) => if bytes.len() == MSG_HEADER_LEN {
                let (msg_type, length) = parse_header(bytes).unwrap();
                (
                    StateView::ReadBody { msg_type, length: length as nat },
                    ActionView::Read(length as nat),
                )
            } else {
                abort(KitapError::ConnectionError)
            },
            EventView::ReadFailed => abort(KitapError::ConnectionError),
            _ => abort(KitapError::ProtocolError),
        },
        StateView::ReadBody { msg_type, length } => match event {
            EventView::Read(body) => if body.len() == length {
                match msg_type {
                    MessageType::Place => place_dispatch(body),
                    MessageType::Fetch => fetch_dispatch(body),
                    _ => abort(KitapError::ProtocolError),
                }
            } else {
                abort(KitapError::ConnectionError)
            },
            EventView::ReadFailed => abort(KitapError::ConnectionError),
            _ => abort(KitapError::ProtocolError),
        },
        StateView::ReadData { hash, datasize } => match event {
            EventView::Read(data) => if data.len() == datasize {
                (StateView::AwaitSet, ActionView::Place(hash, data))
            } else {
                respond(place_error())
            },
            EventView::ReadFailed => respond(place_error()),
            _ => abort(KitapError::ProtocolError),
        },
        StateView::AwaitSet => match event {
            EventView::Read(_) => abort(KitapError::ProtocolError),
            EventView::ReadFailed => abort(KitapError::ProtocolError),
            _ => respond(place_reply(event)),
        },
        StateView::AwaitGet => match event {
            EventView::Read(_) => abort(KitapError::ProtocolError),
            EventView::ReadFailed => abort(KitapError::ProtocolError),
            _ => respond(fetch_reply(event)),
        },
        StateView::Done => abort(KitapError::ProtocolError),
    }
}

/// Whether the state holds a digest of full length wherever it holds one.
/// The state in which a connection starts is such a state.
pub open spec fn holds_whole_digest(state: StateView) -> bool {
    state matches StateView::ReadData { hash, .. } ==> hash.len() == HASH_SIZE
}

/// Only whole digests reach the store: whatever happens on a connection, the
/// key of a request that the handler hands to the storage actor is exactly
/// 64 bytes long.
pub proof fn lemma_only_digests_reach_the_store(state: StateView, event: EventView)
    requires
        holds_whole_digest(state),
    ensures
        holds_whole_digest(step_spec(state, event).0),
        match step_spec(state, event).1 {
            ActionView::Fetch(key) => key.len() == HASH_SIZE,
            ActionView::Place(key, _) => key.len() == HASH_SIZE,
            _ => true,
        },
{
}

/// The state in which a connection starts, and the first thing to do on it:
/// read the header.
pub fn start() -> (first: (ConnState, Action))
    ensures
        first.0@ == StateView::ReadHeader,
        first.1@ == ActionView::Read(MSG_HEADER_LEN as nat),
{
    (ConnState::ReadHeader, Action::Read(MSG_HEADER_LEN))
}

fn abort_with(error: KitapError) -> (next: (ConnState, Action))
    ensures
        (next.0@, next.1@) == abort(error),
{
    (ConnState::Done, Action::Abort(error))
}

fn respond_with(reply: Vec<u8>) -> (next: (ConnState, Action))
    ensures
        (next.0@, next.1@) == respond(reply@),
{
    (ConnState::Done, Action::Respond(reply))
}

fn place_ok_reply() -> (reply: Vec<u8>)
    ensures
        reply@ == place_ok(),
{
    let reply: Vec<u8> = vec![73u8, 84u8, 83u8, 79u8, 75u8];
    assert(reply@ =~= place_ok());
    reply
}

fn place_error_reply() -> (reply: Vec<u8>)
    ensures
        reply@ == place_error(),
{
    let reply: Vec<u8> = vec![69u8, 82u8, 82u8, 79u8, 82u8];
    assert(reply@ =~= place_error());
    reply
}

fn fetch_miss_reply() -> (reply: Vec<u8>)
    ensures
        reply@ == fetch_miss(),
{
    let reply: Vec<u8> = vec![5u8, 0u8, 0u8, 0u8, 78u8, 84u8, 70u8, 78u8, 68u8];
    assert(reply@ =~= fetch_miss());
    reply
}

fn fetch_error_reply() -> (reply: Vec<u8>)
    ensures
        reply@ == fetch_error(),
{
    let reply: Vec<u8> = vec![5u8, 0u8, 0u8, 0u8, 69u8, 82u8, 82u8, 79u8, 82u8];
    assert(reply@ =~= fetch_error());
    reply
}

/// Acts on the body of a place: asks for the data that the body announces,
/// or answers a body that is no place body with the error reply.
pub fn process_place(body: Vec<u8>) -> (next: (ConnState, Action))
    ensures
        (next.0@, next.1@) == place_dispatch(body@),
{
    match PlaceMessage::try_from(body) {
        Ok(msg) => {
            let datasize: usize = msg.datasize;
            (ConnState::ReadData { hash: msg.hash, datasize }, Action::Read(datasize))
        },
        Err(_) => respond_with(place_error_reply()),
    }
}

/// Acts on the body of a fetch: asks the storage actor for the blob under
/// the first digest of the body, or answers a body that holds no digest with
/// the error reply.
pub fn process_fetch(body: Vec<u8>) -> (next: (ConnState, Action))
    ensures
        (next.0@, next.1@) == fetch_dispatch(body@),
{
    if body.len() < HASH_SIZE {
        return respond_with(fetch_error_reply());
    }
    let mut key = body;
    key.truncate(HASH_SIZE);
    (ConnState::AwaitGet, Action::Submit(Contents::Fetch(FetchContents { key })))
}

/// The reply to a place, given what came back from the storage actor.
pub fn place_response(event: Event) -> (reply: Vec<u8>)
    ensures
        reply@ == place_reply(event@),
{
    match event {
        Event::Reply(MapperReply::Stored) => place_ok_reply(),
        _ => place_error_reply(),
    }
}

/// The reply to a fetch, given what came back from the storage actor.
pub fn fetch_response(event: Event) -> (reply: Vec<u8>)
    ensures
        reply@ == fetch_reply(event@),
{
    match event {
        Event::Reply(MapperReply::Data(found)) => {
            let blob: &[u8] = found.data.as_slice();
            if blob.len() > u32::MAX as usize {
                return fetch_error_reply();
            }
            let mut reply: Vec<u8> = Vec::new();
            write_u32_le(&mut reply, blob.len() as u32);
            append_bytes(&mut reply, blob);
            reply
        },
        Event::Reply(MapperReply::NotFound) => fetch_miss_reply(),
        _ => fetch_error_reply(),
    }
}

/// One step of a connection: the next state and what is to be done next,
/// as the handler's rule has it.
pub fn step(state: ConnState, event: Event) -> (next: (ConnState, Action))
    ensures
        (next.0@, next.1@) == step_spec(state@, event@),
{
    match state {
        ConnState::ReadHeader => match event {
            Event::Read(bytes) => {
                if bytes.len() != MSG_HEADER_LEN {
                    return abort_with(KitapError::ConnectionError);
                }
                match decode_header(bytes.as_slice()) {
                    Ok((msg_type, length)) => (
                        ConnState::ReadBody { msg_type, length: length as usize },
                        Action::Read(length as usize),
                    ),
                    Err(error) => abort_with(error),
                }
            },
            Event::ReadFailed => abort_with(KitapError::ConnectionError),
            _ => abort_with(KitapError::ProtocolError),
        },
        ConnState::ReadBody { msg_type, length } => match event {
            Event::Read(body) => {
                if body.len() != length {
                    return abort_with(KitapError::ConnectionError);
                }
                match msg_type {
                    MessageType::Place => process_place(body),
                    MessageType::Fetch => process_fetch(body),
                    _ => abort_with(KitapError::ProtocolError),
                }
            },
            Event::ReadFailed => abort_with(KitapError::ConnectionError),
            _ => abort_with(KitapError::ProtocolError),
        },
        ConnState::ReadData { hash, datasize } => match event {
            Event::Read(data) => {
                if data.len() != datasize {
                    return respond_with(place_error_reply());
                }
                (
                    ConnState::AwaitSet,
                    Action::Submit(Contents::Place(PlaceContents { key: hash, data })),
                )
            },
            Event::ReadFailed => respond_with(place_error_reply()),
            _ => abort_with(KitapError::ProtocolError),
        },
        ConnState::AwaitSet => match event {
            Event::Read(_) => abort_with(KitapError::ProtocolError),
            Event::ReadFailed => abort_with(KitapError::ProtocolError),
            _ => respond_with(place_response(event)),
        },
        ConnState::AwaitGet => match event {
            Event::Read(_) => abort_with(KitapError::ProtocolError),
            Event::ReadFailed => abort_with(KitapError::ProtocolError),
            _ => respond_with(fetch_response(event)),
        },
        ConnState::Done => abort_with(KitapError::ProtocolError),
    }
}

} // verus!
