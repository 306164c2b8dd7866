//! One whole exchange against a store: what a request does to the store and
//! what reply it gets.
//!
//! `exchange` says it in one piece, as a function of the store and of the
//! bytes that the client sends. `run` says what comes of the connection
//! handler when it is driven step by step, and `serve` is that drive for a
//! request that is already in memory. The two agree.

use crate::client::{fetch_request_bytes, place_request_bytes};
use crate::error::KitapError;
use crate::hash::HASH_SIZE;
use crate::mapper::{Contents, MapperLoop};
use crate::messages::{
    frame_bytes, header_bytes, join_digests, lemma_header_round_trip,
    lemma_place_body_round_trip, parse_header, parse_place_body, place_body, MessageType,
    MSG_HEADER_LEN,
};
use crate::server::{
    fetch_error, fetch_hit, fetch_miss, place_error, place_ok, start, step, step_spec, Action,
    ActionView, ConnState, Event, EventView, StateView,
};
use crate::wire::append_bytes;
use vstd::prelude::*;
use vstd::slice::slice_subrange;

verus! {

/// The store of the model: the bytes of the blob under each digest.
pub type Blobs = Map<Seq<u8>, Seq<u8>>;

/// How an exchange ends: with the bytes of the reply, or without a reply.
pub type Outcome = Result<Seq<u8>, KitapError>;

/// What a store of byte vectors holds, as a store of the model.
pub open spec fn blobs(store: Map<Seq<u8>, Vec<u8>>) -> Blobs {
    store.map_values(|blob: Vec<u8>| blob@)
}

/// How an exchange that was served ended, as a value of the model.
pub open spec fn outcome_of(served: Result<Vec<u8>, KitapError>) -> Outcome {
    match served {
        Ok(reply) => Ok(reply@),
        Err(error) => Err(error),
    }
}

/// The answer to a fetch whose body is `body`.
pub open spec fn fetch_answer(store: Blobs, body: Seq<u8>) -> Seq<u8> {
    if body.len() < HASH_SIZE {
        fetch_error()
    } else {
        let digest = body.subrange(0, HASH_SIZE as int);
        if !store.contains_key(digest) {
            fetch_miss()
        } else if store[digest].len() <= u32::MAX {
            fetch_hit(store[digest])
        } else {
            fetch_error()
        }
    }
}

/// What a place whose body is `body` does, when `rest` is what the client
/// sends behind the frame: the data is the first bytes of `rest`, as many as
/// the body announces, and it replaces what was stored under the digest.
pub open spec fn place_outcome(store: Blobs, body: Seq<u8>, rest: Seq<u8>) -> (Blobs, Outcome) {
    match parse_place_body(body) {
        Some((digest, datasize)) => if datasize <= rest.len() {
            (store.insert(digest, rest.take(datasize as int)), Ok(place_ok()))
        } else {
            (store, Ok(place_error()))
        },
        None => (store, Ok(place_error())),
    }
}

/// One exchange: the store afterwards and how the exchange ends, when the
/// client sends `input` and then nothing more.
///
/// An input that ends within the header or within the body ends the exchange
/// with `ConnectionError`, a message that is neither place nor fetch with
/// `ProtocolError`; neither gets a reply, and neither changes the store.
pub open spec fn exchange(store: Blobs, input: Seq<u8>) -> (Blobs, Outcome) {
    match parse_header(input) {
        Some((msg_type, length)) => if MSG_HEADER_LEN + length <= input.len() {
            let body = input.subrange(MSG_HEADER_LEN as int, MSG_HEADER_LEN + length);
            let rest = input.skip(MSG_HEADER_LEN + length);
            match msg_type {
                MessageType::Place => place_outcome(store, body, rest),
                MessageType::Fetch => (store, Ok(fetch_answer(store, body))),
                _ => (store, Err(KitapError::ProtocolError)),
            }
        } else {
            (store, Err(KitapError::ConnectionError))
        },
        None => (store, Err(KitapError::ConnectionError)),
    }
}

/// How far a connection is from its end: a bound on the steps that are left
/// when `action` is what is to be done in `state`.
pub open spec fn steps_left(state: StateView, action: ActionView) -> nat {
    if action is Respond || action is Abort {
        0
    } else {
        match state {
            StateView::ReadHeader => 5,
            StateView::ReadBody { .. } => 4,
            StateView::ReadData { .. } => 3,
            StateView::AwaitSet => 2,
            StateView::AwaitGet => 2,
            StateView::Done => 1,
        }
    }
}

/// What happens when `action` is done against `store`, with `rest` the bytes
/// that the client has yet to send: the event that comes back, the store
/// afterwards, and what is then left of the client's bytes.
pub open spec fn perform(action: ActionView, store: Blobs, rest: Seq<u8>) -> (
    EventView,
    Blobs,
    Seq<u8>,
) {
    match action {
        ActionView::Read(n) => if n <= rest.len() {
            (EventView::Read(rest.take(n as int)), store, rest.skip(n as int))
        } else {
            (EventView::ReadFailed, store, rest)
        },
        ActionView::Fetch(key) => if store.contains_key(key) {
            (EventView::Found(store[key]), store, rest)
        } else {
            (EventView::NotFound, store, rest)
        },
        ActionView::Place(key, data) => (EventView::Stored, store.insert(key, data), rest),
        _ => (EventView::StoreFailed, store, rest),
    }
}

/// Each step brings a connection nearer to its end.
pub proof fn lemma_steps_decrease(state: StateView, action: ActionView, event: EventView)
    requires
        !(action is Respond || action is Abort),
    ensures
        steps_left(step_spec(state, event).0, step_spec(state, event).1) < steps_left(
            state,
            action,
        ),
{
}

/// What comes of a connection that stands in `state` with `action` to be
/// done, when every action is done as told against `store` and the client
/// sends `rest` and then nothing more: the store afterwards and how the
/// exchange ends.
pub open spec fn run(state: StateView, action: ActionView, store: Blobs, rest: Seq<u8>) -> (
    Blobs,
    Outcome,
)
    decreases steps_left(state, action),
{
    match action {
        ActionView::Respond(reply) => (store, Ok(reply)),
        ActionView::Abort(error) => (store, Err(error)),
        _ => {
            let (event, store_then, rest_then) = perform(action, store, rest);
            let (state_then, action_then) = step_spec(state, event);
            run(state_then, action_then, store_then, rest_then)
        },
    }
}

/// Driving the handler step by step from the start gives the exchange.
pub proof fn lemma_run_is_exchange(store: Blobs, input: Seq<u8>)
    ensures
        run(StateView::ReadHeader, ActionView::Read(MSG_HEADER_LEN as nat), store, input)
            == exchange(store, input),
{
    reveal_with_fuel(run, 6);
    if input.len() >= MSG_HEADER_LEN {
        let head = input.take(MSG_HEADER_LEN as int);
        assert(head.subrange(0, 2) =~= input.subrange(0, 2));
        assert(head.subrange(2, 6) =~= input.subrange(2, 6));
        let (msg_type, length) = parse_header(input).unwrap();
        assert(parse_header(head) == Some((msg_type, length)));
        let after_head = input.skip(MSG_HEADER_LEN as int);
        if MSG_HEADER_LEN + length <= input.len() {
            let body = input.subrange(MSG_HEADER_LEN as int, MSG_HEADER_LEN + length);
            let rest = input.skip(MSG_HEADER_LEN + length);
            assert(after_head.take(length as int) =~= body);
            assert(after_head.skip(length as int) =~= rest);
        }
    }
}

/// Storing a blob in a store of byte vectors stores its bytes in the model.
proof fn lemma_blobs_insert(store: Map<Seq<u8>, Vec<u8>>, key: Seq<u8>, blob: Vec<u8>)
    ensures
        blobs(store.insert(key, blob)) == blobs(store).insert(key, blob@),
{
    assert(blobs(store.insert(key, blob)) =~= blobs(store).insert(key, blob@));
}

/// Serves one exchange whose request is already in memory: drives the
/// connection handler against `actor`, reading from `input`, until the
/// handler answers or gives up.
///
/// Gives the reply, or the error with which the exchange ended without one.
pub fn serve(actor: &mut MapperLoop<Vec<u8>>, input: &[u8]) -> (served: Result<Vec<u8>, KitapError>)
    ensures
        (blobs(final(actor)@), outcome_of(served)) == exchange(blobs(old(actor)@), input@),
{
    proof {
        lemma_run_is_exchange(blobs(actor@), input@);
        assert(input@.skip(0) =~= input@);
    }
    let first = start();
    let mut state: ConnState = first.0;
    let mut action: Action = first.1;
    let mut pos: usize = 0;
    loop
        invariant
            pos <= input@.len(),
            run(state@, action@, blobs(actor@), input@.skip(pos as int)) == exchange(
                blobs(old(actor)@),
                input@,
            ),
        decreases steps_left(state@, action@),
    {
        let ghost state_before = state@;
        let ghost action_before = action@;
        let ghost store_before = blobs(actor@);
        let ghost rest_before = input@.skip(pos as int);
        let event = match action {
            Action::Read(n) => {
                if n <= input.len() - pos {
                    let mut bytes: Vec<u8> = Vec::new();
                    append_bytes(&mut bytes, slice_subrange(input, pos, pos + n));
                    proof {
                        assert(rest_before.take(n as int) =~= input@.subrange(
                            pos as int,
                            pos + n,
                        ));
                        assert(rest_before.skip(n as int) =~= input@.skip(pos + n));
                    }
                    pos = pos + n;
                    Event::Read(bytes)
                } else {
                    Event::ReadFailed
                }
            },
            Action::Submit(contents) => {
                let ghost store = actor@;
                proof {
                    if contents is Place {
                        lemma_blobs_insert(
                            store,
                            contents->Place_0.key@,
                            contents->Place_0.data,
                        );
                    }
                }
                let reply = actor.handle(contents);
                Event::Reply(reply)
            },
            Action::Respond(reply) => {
                return Ok(reply);
            },
            Action::Abort(error) => {
                return Err(error);
            },
        };
        proof {
            assert((event@, blobs(actor@), input@.skip(pos as int)) == perform(
                action_before,
                store_before,
                rest_before,
            ));
            lemma_steps_decrease(state_before, action_before, event@);
        }
        let next = step(state, event);
        state = next.0;
        action = next.1;
    }
}

/// The store after one exchange for each input of `history`, first to last.
pub open spec fn store_after_exchanges(store: Blobs, history: Seq<Seq<u8>>) -> Blobs
    decreases history.len(),
{
    if history.len() == 0 {
        store
    } else {
        exchange(store_after_exchanges(store, history.drop_last()), history.last()).0
    }
}

/// The digest under which the exchange for `input` stores; `None` when the
/// exchange stores nothing.
pub open spec fn stored_under(input: Seq<u8>) -> Option<Seq<u8>> {
    match parse_header(input) {
        Some((msg_type, length)) => if msg_type == MessageType::Place && MSG_HEADER_LEN + length
            <= input.len() {
            match parse_place_body(
                input.subrange(MSG_HEADER_LEN as int, MSG_HEADER_LEN + length),
            ) {
                Some((digest, datasize)) => if datasize <= input.len() - MSG_HEADER_LEN - length {
                    Some(digest)
                } else {
                    None
                },
                None => None,
            }
        } else {
            None
        },
        None => None,
    }
}

/// The exchange for a whole frame, with `rest` sent behind it, is the
/// exchange that the kind and the body of the frame call for.
pub proof fn lemma_exchange_of_frame(
    store: Blobs,
    msg_type: MessageType,
    body: Seq<u8>,
    rest: Seq<u8>,
)
    requires
        body.len() <= u32::MAX,
    ensures
        exchange(store, frame_bytes(msg_type, body) + rest) == match msg_type {
            MessageType::Place => place_outcome(store, body, rest),
            MessageType::Fetch => (store, Ok::<Seq<u8>, KitapError>(fetch_answer(store, body))),
            _ => (store, Err::<Seq<u8>, KitapError>(KitapError::ProtocolError)),
        },
{
    let input = frame_bytes(msg_type, body) + rest;
    let length = body.len() as u32;
    lemma_header_round_trip(msg_type, length, body + rest);
    assert(input =~= header_bytes(msg_type, length) + (body + rest));
    assert(input.subrange(MSG_HEADER_LEN as int, MSG_HEADER_LEN + length) =~= body);
    assert(input.skip(MSG_HEADER_LEN + length) =~= rest);
}

/// Round trip: a fetch of a digest after a place under that digest gives
/// back exactly the blob that was placed. This holds for every digest of
/// full length, so also for the digest of the blob, and for every blob
/// whose length the place request can announce.
pub proof fn lemma_fetch_after_place(store: Blobs, digest: Seq<u8>, blob: Seq<u8>)
    requires
        digest.len() == HASH_SIZE,
        blob.len() <= u32::MAX,
    ensures
        ({
            let placed = exchange(store, place_request_bytes(digest, blob.len() as u32) + blob);
            let fetched = exchange(placed.0, fetch_request_bytes(seq![digest]));
            &&& placed.0 == store.insert(digest, blob)
            &&& placed.1 == Ok::<Seq<u8>, KitapError>(place_ok())
            &&& fetched.0 == placed.0
            &&& fetched.1 == Ok::<Seq<u8>, KitapError>(fetch_hit(blob))
        }),
{
    let body = place_body(digest, blob.len() as u32);
    lemma_place_body_round_trip(digest, blob.len() as u32);
    lemma_exchange_of_frame(store, MessageType::Place, body, blob);
    assert(blob.take(blob.len() as int) =~= blob);
    let placed = store.insert(digest, blob);
    assert(join_digests(seq![digest]) == digest);
    lemma_exchange_of_frame(placed, MessageType::Fetch, digest, Seq::empty());
    assert(frame_bytes(MessageType::Fetch, digest) + Seq::<u8>::empty() =~= frame_bytes(
        MessageType::Fetch,
        digest,
    ));
    assert(digest.subrange(0, HASH_SIZE as int) =~= digest);
}

/// Last write wins: after two places under one digest, a fetch of that
/// digest gives the blob of the second place, whole and nothing of the first.
pub proof fn lemma_last_place_wins(store: Blobs, digest: Seq<u8>, first: Seq<u8>, second: Seq<u8>)
    requires
        digest.len() == HASH_SIZE,
        first.len() <= u32::MAX,
        second.len() <= u32::MAX,
    ensures
        ({
            let once = exchange(store, place_request_bytes(digest, first.len() as u32) + first);
            let twice = exchange(once.0, place_request_bytes(digest, second.len() as u32) + second);
            let fetched = exchange(twice.0, fetch_request_bytes(seq![digest]));
            &&& once.1 == Ok::<Seq<u8>, KitapError>(place_ok())
            &&& twice.1 == Ok::<Seq<u8>, KitapError>(place_ok())
            &&& twice.0 == store.insert(digest, second)
            &&& fetched.1 == Ok::<Seq<u8>, KitapError>(fetch_hit(second))
        }),
{
    lemma_fetch_after_place(store, digest, first);
    let once = store.insert(digest, first);
    lemma_fetch_after_place(once, digest, second);
    assert(once.insert(digest, second) =~= store.insert(digest, second));
}

/// An exchange leaves alone every digest under which it does not store: what
/// is stored there stays, and where nothing is stored nothing appears.
pub proof fn lemma_exchange_keeps_other_digests(store: Blobs, input: Seq<u8>, digest: Seq<u8>)
    requires
        stored_under(input) != Some(digest),
    ensures
        exchange(store, input).0.contains_key(digest) == store.contains_key(digest),
        store.contains_key(digest) ==> exchange(store, input).0[digest] == store[digest],
{
}

/// A miss is a miss every time: a fetch of a digest of full length under
/// which nothing is stored gets the miss reply and changes nothing, and that
/// stays so after any exchanges that do not store under that digest, in
/// whatever order they come.
pub proof fn lemma_miss_is_steady(store: Blobs, history: Seq<Seq<u8>>, digest: Seq<u8>)
    requires
        digest.len() == HASH_SIZE,
        !store.contains_key(digest),
        forall|i: int|
            0 <= i < history.len() ==> stored_under(#[trigger] history[i]) != Some(digest),
    ensures
        !store_after_exchanges(store, history).contains_key(digest),
        exchange(store_after_exchanges(store, history), fetch_request_bytes(seq![digest])) == (
            store_after_exchanges(store, history),
            Ok::<Seq<u8>, KitapError>(fetch_miss()),
        ),
    decreases history.len(),
{
    let then = store_after_exchanges(store, history);
    if history.len() > 0 {
        let earlier = history.drop_last();
        assert forall|i: int| 0 <= i < earlier.len() implies stored_under(#[trigger] earlier[i])
            != Some(digest) by {
            assert(earlier[i] == history[i]);
        }
        lemma_miss_is_steady(store, earlier, digest);
        assert(history.last() == history[history.len() - 1]);
        lemma_exchange_keeps_other_digests(
            store_after_exchanges(store, earlier),
            history.last(),
            digest,
        );
    }
    assert(join_digests(seq![digest]) == digest);
    lemma_exchange_of_frame(then, MessageType::Fetch, digest, Seq::empty());
    assert(frame_bytes(MessageType::Fetch, digest) + Seq::<u8>::empty() =~= frame_bytes(
        MessageType::Fetch,
        digest,
    ));
    assert(digest.subrange(0, HASH_SIZE as int) =~= digest);
}

/// The place requests for `blobs` under `digests`, each with its data behind
/// it, in order.
pub open spec fn place_streams(digests: Seq<Seq<u8>>, blobs: Seq<Seq<u8>>) -> Seq<Seq<u8>> {
    Seq::new(
        digests.len(),
        |i: int| place_request_bytes(digests[i], blobs[i].len() as u32) + blobs[i],
    )
}

/// Places under different digests all succeed and do not disturb one
/// another: in whatever order they are served, each is answered as stored,
/// and afterwards a fetch of each digest gives the blob that was placed
/// under it.
pub proof fn lemma_places_under_distinct_digests(
    store: Blobs,
    digests: Seq<Seq<u8>>,
    blobs: Seq<Seq<u8>>,
)
    requires
        digests.len() == blobs.len(),
        forall|i: int| 0 <= i < digests.len() ==> (#[trigger] digests[i]).len() == HASH_SIZE,
        forall|i: int| 0 <= i < blobs.len() ==> (#[trigger] blobs[i]).len() <= u32::MAX,
        forall|i: int, j: int| 0 <= i < j < digests.len() ==> digests[i] != digests[j],
    ensures
        forall|i: int|
            0 <= i < digests.len() ==> (#[trigger] exchange(
                store_after_exchanges(store, place_streams(digests, blobs).take(i)),
                place_streams(digests, blobs)[i],
            )).1 == Ok::<Seq<u8>, KitapError>(place_ok()),
        forall|i: int|
            0 <= i < digests.len() ==> (#[trigger] exchange(
                store_after_exchanges(store, place_streams(digests, blobs)),
                fetch_request_bytes(seq![digests[i]]),
            )).1 == Ok::<Seq<u8>, KitapError>(fetch_hit(blobs[i])),
    decreases digests.len(),
{
    let streams = place_streams(digests, blobs);
    let n = digests.len() as int;
    assert forall|i: int| 0 <= i < n implies (#[trigger] exchange(
        store_after_exchanges(store, streams.take(i)),
        streams[i],
    )).1 == Ok::<Seq<u8>, KitapError>(place_ok()) by {
        let before = store_after_exchanges(store, streams.take(i));
        lemma_fetch_after_place(before, digests[i], blobs[i]);
    }
    if n > 0 {
        let last = n - 1;
        let earlier_digests = digests.drop_last();
        let earlier_blobs = blobs.drop_last();
        let earlier = place_streams(earlier_digests, earlier_blobs);
        assert(earlier =~= streams.drop_last());
        lemma_places_under_distinct_digests(store, earlier_digests, earlier_blobs);
        let before = store_after_exchanges(store, earlier);
        let after = store_after_exchanges(store, streams);
        assert(streams.last() == streams[last]);
        lemma_fetch_after_place(before, digests[last], blobs[last]);
        assert(after == before.insert(digests[last], blobs[last]));
        assert forall|i: int| 0 <= i < n implies (#[trigger] exchange(
            after,
            fetch_request_bytes(seq![digests[i]]),
        )).1 == Ok::<Seq<u8>, KitapError>(fetch_hit(blobs[i])) by {
            if i < last {
                assert(earlier_digests[i] == digests[i]);
                assert(earlier_blobs[i] == blobs[i]);
                let asked = fetch_request_bytes(seq![digests[i]]);
                assert(exchange(before, asked).1 == Ok::<Seq<u8>, KitapError>(
                    fetch_hit(blobs[i]),
                ));
                lemma_fetch_reads_one_digest(before, after, digests[i]);
            }
        }
    }
}

/// The reply to a fetch of one digest depends on what the store holds under
/// that digest, and on nothing else in the store.
pub proof fn lemma_fetch_reads_one_digest(one: Blobs, other: Blobs, digest: Seq<u8>)
    requires
        digest.len() == HASH_SIZE,
        one.contains_key(digest) == other.contains_key(digest),
        one.contains_key(digest) ==> one[digest] == other[digest],
    ensures
        exchange(one, fetch_request_bytes(seq![digest])).1 == exchange(
            other,
            fetch_request_bytes(seq![digest]),
        ).1,
{
    assert(join_digests(seq![digest]) == digest);
    assert(frame_bytes(MessageType::Fetch, digest) + Seq::<u8>::empty() =~= frame_bytes(
        MessageType::Fetch,
        digest,
    ));
    assert(digest.subrange(0, HASH_SIZE as int) =~= digest);
    lemma_exchange_of_frame(one, MessageType::Fetch, digest, Seq::empty());
    lemma_exchange_of_frame(other, MessageType::Fetch, digest, Seq::empty());
}

} // verus!
