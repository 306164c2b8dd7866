use kitap::client::{fetch_request, place_request};
use kitap::error::KitapError;
use kitap::exchange::serve;
use kitap::hash::hash_chunks;
use kitap::hexcodec::digest_to_hex;
use kitap::mapper::{Contents, DataContents, Mapper, MapperLoop, MapperReply};
use kitap::server::{
    fetch_response, place_response, process_fetch, process_place, start, step, Action, ConnState,
    Event,
};
use std::sync::Arc;

const MISS: [u8; 9] = [5, 0, 0, 0, 78, 84, 70, 78, 68];
const FETCH_ERROR: [u8; 9] = [5, 0, 0, 0, 69, 82, 82, 79, 82];

fn digest(byte: u8) -> Vec<u8> {
    vec![byte; 64]
}

fn actor() -> MapperLoop<Vec<u8>> {
    Mapper::new().receive().unwrap()
}

fn place_stream(digest: Vec<u8>, blob: &[u8]) -> Vec<u8> {
    let mut stream = place_request(digest, blob.len()).unwrap();
    stream.extend_from_slice(blob);
    stream
}

fn fetch_stream(digest: &[u8]) -> Vec<u8> {
    fetch_request(&vec![digest_to_hex(digest)]).unwrap()
}

fn found(bytes: &[u8]) -> Event {
    Event::Reply(MapperReply::Data(DataContents {
        data: Arc::new(bytes.to_vec()),
    }))
}

#[test]
fn a_connection_starts_by_reading_the_header() {
    let (state, action) = start();
    assert!(matches!(state, ConnState::ReadHeader));
    assert!(matches!(action, Action::Read(6)));
}

#[test]
fn header_leads_to_body() {
    let (state, action) = step(ConnState::ReadHeader, Event::Read(vec![1, 0, 64, 0, 0, 0]));
    match state {
        ConnState::ReadBody { msg_type, length } => {
            assert_eq!(msg_type, kitap::messages::MessageType::Fetch);
            assert_eq!(length, 64);
        }
        other => panic!("unexpected state {:?}", other),
    }
    assert!(matches!(action, Action::Read(64)));
}

#[test]
fn failed_or_short_header_read_is_a_connection_error() {
    let (state, action) = step(ConnState::ReadHeader, Event::ReadFailed);
    assert!(matches!(state, ConnState::Done));
    assert!(matches!(action, Action::Abort(KitapError::ConnectionError)));
    let (state, action) = step(ConnState::ReadHeader, Event::Read(vec![1, 0, 64]));
    assert!(matches!(state, ConnState::Done));
    assert!(matches!(action, Action::Abort(KitapError::ConnectionError)));
    let (_, action) = step(ConnState::ReadHeader, Event::Read(vec![1, 0, 64, 0, 0, 0, 0]));
    assert!(matches!(action, Action::Abort(KitapError::ConnectionError)));
}

#[test]
fn failed_or_short_body_read_is_a_connection_error() {
    let body = || ConnState::ReadBody {
        msg_type: kitap::messages::MessageType::Fetch,
        length: 64,
    };
    let (state, action) = step(body(), Event::ReadFailed);
    assert!(matches!(state, ConnState::Done));
    assert!(matches!(action, Action::Abort(KitapError::ConnectionError)));
    let (_, action) = step(body(), Event::Read(vec![0u8; 63]));
    assert!(matches!(action, Action::Abort(KitapError::ConnectionError)));
}

#[test]
fn a_message_that_is_no_request_is_a_protocol_error() {
    for msg_type in [
        kitap::messages::MessageType::NotFound,
        kitap::messages::MessageType::Unknown,
    ] {
        let (state, action) = step(
            ConnState::ReadBody {
                msg_type,
                length: 2,
            },
            Event::Read(vec![1, 2]),
        );
        assert!(matches!(state, ConnState::Done));
        assert!(matches!(action, Action::Abort(KitapError::ProtocolError)));
    }
}

#[test]
fn place_body_leads_to_reading_the_data() {
    let mut body = digest(7);
    body.extend_from_slice(&[0x10, 0x27, 0, 0]);
    let (state, action) = process_place(body);
    match state {
        ConnState::ReadData { hash, datasize } => {
            assert_eq!(hash, digest(7));
            assert_eq!(datasize, 10_000);
        }
        other => panic!("unexpected state {:?}", other),
    }
    assert!(matches!(action, Action::Read(10_000)));
}

#[test]
fn malformed_place_body_is_answered_with_error() {
    let (state, action) = process_place(vec![0u8; 67]);
    assert!(matches!(state, ConnState::Done));
    match action {
        Action::Respond(reply) => assert_eq!(reply, b"ERROR"),
        other => panic!("unexpected action {:?}", other),
    }
}

#[test]
fn data_leads_to_a_place_in_the_store() {
    let (state, action) = step(
        ConnState::ReadData {
            hash: digest(7),
            datasize: 3,
        },
        Event::Read(b"abc".to_vec()),
    );
    assert!(matches!(state, ConnState::AwaitSet));
    match action {
        Action::Submit(Contents::Place(place)) => {
            assert_eq!(place.key, digest(7));
            assert_eq!(place.data, b"abc");
        }
        other => panic!("unexpected action {:?}", other),
    }
}

#[test]
fn short_data_is_answered_with_error() {
    let data = || ConnState::ReadData {
        hash: digest(7),
        datasize: 3,
    };
    for event in [Event::ReadFailed, Event::Read(b"ab".to_vec())] {
        let (state, action) = step(data(), event);
        assert!(matches!(state, ConnState::Done));
        match action {
            Action::Respond(reply) => assert_eq!(reply, b"ERROR"),
            other => panic!("unexpected action {:?}", other),
        }
    }
}

#[test]
fn place_replies() {
    assert_eq!(place_response(Event::Reply(MapperReply::Stored)), b"ITSOK");
    assert_eq!(place_response(Event::StoreFailed), b"ERROR");
    assert_eq!(place_response(Event::Reply(MapperReply::NotFound)), b"ERROR");
    assert_eq!(place_response(found(b"x")), b"ERROR");
    let (state, action) = step(ConnState::AwaitSet, Event::Reply(MapperReply::Stored));
    assert!(matches!(state, ConnState::Done));
    match action {
        Action::Respond(reply) => assert_eq!(reply, vec![73u8, 84, 83, 79, 75]),
        other => panic!("unexpected action {:?}", other),
    }
}

#[test]
fn fetch_body_leads_to_a_lookup_of_its_first_digest() {
    let (state, action) = process_fetch(digest(3));
    assert!(matches!(state, ConnState::AwaitGet));
    match action {
        Action::Submit(Contents::Fetch(fetch)) => assert_eq!(fetch.key, digest(3)),
        other => panic!("unexpected action {:?}", other),
    }
    let mut two = digest(3);
    two.push(b':');
    two.extend_from_slice(&digest(4));
    let (_, action) = process_fetch(two);
    match action {
        Action::Submit(Contents::Fetch(fetch)) => assert_eq!(fetch.key, digest(3)),
        other => panic!("unexpected action {:?}", other),
    }
}

#[test]
fn fetch_body_without_a_digest_is_answered_with_error() {
    let (state, action) = process_fetch(vec![0u8; 63]);
    assert!(matches!(state, ConnState::Done));
    match action {
        Action::Respond(reply) => assert_eq!(reply, FETCH_ERROR),
        other => panic!("unexpected action {:?}", other),
    }
}

#[test]
fn fetch_replies() {
    assert_eq!(fetch_response(found(b"abc")), vec![3u8, 0, 0, 0, 97, 98, 99]);
    assert_eq!(fetch_response(found(b"")), vec![0u8, 0, 0, 0]);
    let long = vec![9u8; 0x0102];
    let reply = fetch_response(found(&long));
    assert_eq!(&reply[..4], &[2u8, 1, 0, 0]);
    assert_eq!(&reply[4..], &long[..]);
    assert_eq!(fetch_response(Event::Reply(MapperReply::NotFound)), MISS);
    assert_eq!(fetch_response(Event::Reply(MapperReply::Stored)), FETCH_ERROR);
    assert_eq!(fetch_response(Event::StoreFailed), FETCH_ERROR);
    let (state, action) = step(ConnState::AwaitGet, Event::Reply(MapperReply::NotFound));
    assert!(matches!(state, ConnState::Done));
    match action {
        Action::Respond(reply) => assert_eq!(reply, b"\x05\x00\x00\x00NTFND"),
        other => panic!("unexpected action {:?}", other),
    }
}

#[test]
fn an_event_that_is_not_awaited_is_a_protocol_error() {
    let (_, action) = step(ConnState::ReadHeader, Event::StoreFailed);
    assert!(matches!(action, Action::Abort(KitapError::ProtocolError)));
    let (_, action) = step(ConnState::AwaitGet, Event::Read(vec![1]));
    assert!(matches!(action, Action::Abort(KitapError::ProtocolError)));
    let (_, action) = step(ConnState::AwaitSet, Event::ReadFailed);
    assert!(matches!(action, Action::Abort(KitapError::ProtocolError)));
    let (state, action) = step(ConnState::Done, Event::Read(vec![1]));
    assert!(matches!(state, ConnState::Done));
    assert!(matches!(action, Action::Abort(KitapError::ProtocolError)));
}

#[test]
fn abc_is_placed_and_fetched() {
    let mut actor = actor();
    let digest = hash_chunks(&[b"abc".to_vec()]);
    assert_eq!(
        digest_to_hex(&digest),
        "b751850b1a57168a5693cd924b6b096e08f621827444f70d884f5d0240d2712e\
10e116e9192af3c91a7ec57647e3934057340b4cf408d5a56592f8274eec53f0"
    );
    let placed = serve(&mut actor, &place_stream(digest.clone(), b"abc"));
    assert_eq!(placed, Ok(b"ITSOK".to_vec()));
    let fetched = serve(&mut actor, &fetch_stream(&digest)).unwrap();
    assert_eq!(&fetched[..4], &[3u8, 0, 0, 0]);
    assert_eq!(&fetched[4..], b"abc");
}

#[test]
fn a_digest_never_placed_is_missed() {
    let mut actor = actor();
    let reply = serve(&mut actor, &fetch_stream(&[0u8; 64]));
    assert_eq!(reply, Ok(MISS.to_vec()));
}

#[test]
fn a_miss_stays_a_miss_whatever_else_is_placed() {
    let mut actor = actor();
    for round in 0..5u8 {
        assert_eq!(serve(&mut actor, &fetch_stream(&digest(0))), Ok(MISS.to_vec()));
        let placed = serve(&mut actor, &place_stream(digest(round + 1), &[round; 10]));
        assert_eq!(placed, Ok(b"ITSOK".to_vec()));
        assert_eq!(serve(&mut actor, &fetch_stream(&digest(200))), Ok(MISS.to_vec()));
    }
    assert_eq!(serve(&mut actor, &fetch_stream(&digest(0))), Ok(MISS.to_vec()));
}

#[test]
fn round_trip_over_blobs() {
    let mut actor = actor();
    let blobs: Vec<Vec<u8>> = vec![
        Vec::new(),
        vec![0],
        b":".to_vec(),
        vec![0x3A; 64],
        (0..=255u8).collect(),
        vec![7u8; 5000],
    ];
    for blob in &blobs {
        let digest = hash_chunks(&[blob.clone()]);
        let placed = serve(&mut actor, &place_stream(digest.clone(), blob));
        assert_eq!(placed, Ok(b"ITSOK".to_vec()));
    }
    for blob in &blobs {
        let digest = hash_chunks(&[blob.clone()]);
        let fetched = serve(&mut actor, &fetch_stream(&digest)).unwrap();
        assert_eq!(&fetched[..4], &(blob.len() as u32).to_le_bytes());
        assert_eq!(&fetched[4..], &blob[..]);
    }
}

#[test]
fn the_second_place_under_a_digest_wins() {
    let mut actor = actor();
    let placed = serve(&mut actor, &place_stream(digest(1), b"the first blob"));
    assert_eq!(placed, Ok(b"ITSOK".to_vec()));
    let placed = serve(&mut actor, &place_stream(digest(1), b"second"));
    assert_eq!(placed, Ok(b"ITSOK".to_vec()));
    let fetched = serve(&mut actor, &fetch_stream(&digest(1)));
    assert_eq!(fetched, Ok(b"\x06\x00\x00\x00second".to_vec()));
}

#[test]
fn only_the_first_digest_of_a_fetch_is_looked_up() {
    let mut actor = actor();
    serve(&mut actor, &place_stream(digest(1), b"one")).unwrap();
    serve(&mut actor, &place_stream(digest(2), b"two")).unwrap();
    let request = fetch_request(&vec![digest_to_hex(&digest(2)), digest_to_hex(&digest(1))]);
    let fetched = serve(&mut actor, &request.unwrap());
    assert_eq!(fetched, Ok(b"\x03\x00\x00\x00two".to_vec()));
}

#[test]
fn data_beyond_the_announced_size_is_not_stored() {
    let mut actor = actor();
    let mut stream = place_request(digest(1), 3).unwrap();
    stream.extend_from_slice(b"abcdef");
    assert_eq!(serve(&mut actor, &stream), Ok(b"ITSOK".to_vec()));
    let fetched = serve(&mut actor, &fetch_stream(&digest(1)));
    assert_eq!(fetched, Ok(b"\x03\x00\x00\x00abc".to_vec()));
}

#[test]
fn a_place_whose_data_is_cut_short_is_answered_with_error_and_stores_nothing() {
    let mut actor = actor();
    let mut stream = place_request(digest(1), 10).unwrap();
    stream.extend_from_slice(b"too short");
    assert_eq!(serve(&mut actor, &stream), Ok(b"ERROR".to_vec()));
    assert_eq!(serve(&mut actor, &fetch_stream(&digest(1))), Ok(MISS.to_vec()));
}

#[test]
fn a_place_with_a_short_body_is_answered_with_error() {
    let mut actor = actor();
    let mut stream = vec![0u8, 0, 10, 0, 0, 0];
    stream.extend_from_slice(&[1u8; 10]);
    assert_eq!(serve(&mut actor, &stream), Ok(b"ERROR".to_vec()));
}

#[test]
fn a_fetch_with_a_short_body_is_answered_with_the_error_frame() {
    let mut actor = actor();
    let mut stream = vec![1u8, 0, 63, 0, 0, 0];
    stream.extend_from_slice(&[1u8; 63]);
    assert_eq!(serve(&mut actor, &stream), Ok(FETCH_ERROR.to_vec()));
    assert_eq!(
        serve(&mut actor, &[1u8, 0, 0, 0, 0, 0]),
        Ok(FETCH_ERROR.to_vec())
    );
}

#[test]
fn a_stream_that_ends_early_is_a_connection_error() {
    let mut actor = actor();
    assert_eq!(serve(&mut actor, &[]), Err(KitapError::ConnectionError));
    assert_eq!(
        serve(&mut actor, &[1, 0, 64, 0, 0]),
        Err(KitapError::ConnectionError)
    );
    let mut stream = vec![1u8, 0, 64, 0, 0, 0];
    stream.extend_from_slice(&[1u8; 63]);
    assert_eq!(serve(&mut actor, &stream), Err(KitapError::ConnectionError));
}

#[test]
fn an_unknown_kind_is_a_protocol_error_and_gets_no_reply() {
    let mut actor = actor();
    assert_eq!(
        serve(&mut actor, &[2, 0, 0, 0, 0, 0]),
        Err(KitapError::ProtocolError)
    );
    assert_eq!(
        serve(&mut actor, &[255, 0, 1, 0, 0, 0, 9]),
        Err(KitapError::ProtocolError)
    );
    assert_eq!(
        serve(&mut actor, &[7, 7, 0, 0, 0, 0]),
        Err(KitapError::ProtocolError)
    );
    // The body is read before the kind is looked at.
    assert_eq!(
        serve(&mut actor, &[255, 0, 1, 0, 0, 0]),
        Err(KitapError::ConnectionError)
    );
}

#[test]
fn many_places_are_each_fetched_with_their_own_content() {
    let mut actor = actor();
    let n = 50u8;
    for step in 0..n {
        let i = ((step as usize * 13) % n as usize) as u8;
        let blob = vec![i; i as usize + 1];
        assert_eq!(
            serve(&mut actor, &place_stream(digest(i), &blob)),
            Ok(b"ITSOK".to_vec())
        );
    }
    for i in 0..n {
        let fetched = serve(&mut actor, &fetch_stream(&digest(i))).unwrap();
        assert_eq!(&fetched[..4], &[i + 1, 0, 0, 0]);
        assert_eq!(&fetched[4..], &vec![i; i as usize + 1][..]);
    }
}
