use kitap::error::KitapError;
use kitap::messages::{
    decode_header, encode_header, FetchMessage, Frame, Message, MessageType, NotFoundMessage,
    PlaceMessage, MSG_HEADER_LEN,
};

fn digest_of(byte: u8) -> Vec<u8> {
    vec![byte; 64]
}

#[test]
fn type_codes_are_fixed() {
    assert_eq!(u16::from(MessageType::Place), 0);
    assert_eq!(u16::from(MessageType::Fetch), 1);
    assert_eq!(u16::from(MessageType::NotFound), 2);
    assert_eq!(u16::from(MessageType::Unknown), 255);
    let code: u16 = MessageType::Fetch.into();
    assert_eq!(code, 1);
    assert_eq!(MessageType::Place.to_code(), 0);
}

#[test]
fn type_codes_read_back() {
    assert_eq!(MessageType::from(0u16), MessageType::Place);
    assert_eq!(MessageType::from(1u16), MessageType::Fetch);
    assert_eq!(MessageType::from(2u16), MessageType::NotFound);
    assert_eq!(MessageType::from(255u16), MessageType::Unknown);
    assert_eq!(MessageType::from_code(1), MessageType::Fetch);
}

#[test]
fn unrecognised_codes_are_unknown() {
    assert_eq!(MessageType::from(3u16), MessageType::Unknown);
    assert_eq!(MessageType::from(254u16), MessageType::Unknown);
    assert_eq!(MessageType::from(256u16), MessageType::Unknown);
    assert_eq!(MessageType::from(u16::MAX), MessageType::Unknown);
}

#[test]
fn every_kind_survives_its_code() {
    for kind in [
        MessageType::Place,
        MessageType::Fetch,
        MessageType::NotFound,
        MessageType::Unknown,
    ] {
        assert_eq!(MessageType::from(u16::from(kind)), kind);
    }
}

#[test]
fn header_of_a_fetch_frame() {
    let header = encode_header(MessageType::Fetch, 64);
    assert_eq!(header, vec![1u8, 0, 64, 0, 0, 0]);
    assert_eq!(decode_header(&header), Ok((MessageType::Fetch, 64)));
}

#[test]
fn header_is_little_endian() {
    let header = encode_header(MessageType::Unknown, 0x0102_0304);
    assert_eq!(header, vec![255u8, 0, 4, 3, 2, 1]);
    assert_eq!(header.len(), MSG_HEADER_LEN);
    let header = encode_header(MessageType::NotFound, u32::MAX);
    assert_eq!(header, vec![2u8, 0, 255, 255, 255, 255]);
}

#[test]
fn header_round_trip_over_kinds_and_lengths() {
    for kind in [
        MessageType::Place,
        MessageType::Fetch,
        MessageType::NotFound,
        MessageType::Unknown,
    ] {
        for length in [0u32, 1, 64, 68, 255, 256, 65_535, 65_536, 16_777_216, u32::MAX] {
            let header = encode_header(kind, length);
            assert_eq!(decode_header(&header), Ok((kind, length)));
        }
    }
}

#[test]
fn header_reads_a_two_byte_code() {
    // 0x0100 is 256, which stands for no kind.
    assert_eq!(
        decode_header(&[0, 1, 5, 0, 0, 0]),
        Ok((MessageType::Unknown, 5))
    );
}

#[test]
fn short_header_is_a_protocol_error() {
    assert_eq!(decode_header(&[]), Err(KitapError::ProtocolError));
    assert_eq!(
        decode_header(&[1, 0, 64, 0, 0]),
        Err(KitapError::ProtocolError)
    );
}

#[test]
fn header_ignores_what_follows_it() {
    assert_eq!(
        decode_header(&[0, 0, 68, 0, 0, 0, 9, 9, 9]),
        Ok((MessageType::Place, 68))
    );
}

#[test]
fn fetch_body_of_one_digest() {
    let msg = FetchMessage::new(vec![digest_of(7)]);
    assert_eq!(msg.get_type(), MessageType::Fetch);
    assert_eq!(msg.get_contents(), digest_of(7));
    let bytes = msg.into_bytes();
    assert_eq!(bytes.len(), 6 + 64);
    assert_eq!(&bytes[..6], &[1u8, 0, 64, 0, 0, 0]);
    assert_eq!(&bytes[6..], &digest_of(7)[..]);
}

#[test]
fn fetch_body_joins_digests_with_a_colon() {
    let msg = FetchMessage::new(vec![digest_of(1), digest_of(2), digest_of(3)]);
    let body = msg.get_contents();
    assert_eq!(body.len(), 3 * 64 + 2);
    assert_eq!(&body[..64], &digest_of(1)[..]);
    assert_eq!(body[64], 0x3A);
    assert_eq!(&body[65..129], &digest_of(2)[..]);
    assert_eq!(body[129], b':');
    assert_eq!(&body[130..], &digest_of(3)[..]);
    let bytes = msg.into_bytes();
    assert_eq!(&bytes[..6], &[1u8, 0, 194, 0, 0, 0]);
}

#[test]
fn fetch_body_of_no_digest_is_empty() {
    let msg = FetchMessage::new(Vec::new());
    assert_eq!(msg.get_contents(), Vec::<u8>::new());
    assert_eq!(msg.into_bytes(), vec![1u8, 0, 0, 0, 0, 0]);
}

#[test]
fn fetch_body_of_short_pieces() {
    let msg = FetchMessage::new(vec![vec![1, 2], vec![], vec![3]]);
    assert_eq!(msg.get_contents(), vec![1u8, 2, 0x3A, 0x3A, 3]);
}

#[test]
fn place_frame_is_digest_then_size() {
    let msg = PlaceMessage::new(digest_of(9), 3);
    assert_eq!(msg.get_type(), MessageType::Place);
    let body = msg.get_contents();
    assert_eq!(body.len(), 68);
    assert_eq!(&body[..64], &digest_of(9)[..]);
    assert_eq!(&body[64..], &[3u8, 0, 0, 0]);
    let bytes = msg.into_bytes();
    assert_eq!(bytes.len(), 74);
    assert_eq!(&bytes[..6], &[0u8, 0, 68, 0, 0, 0]);
    assert_eq!(&bytes[6..], &body[..]);
}

#[test]
fn place_size_is_little_endian() {
    let msg = PlaceMessage::new(digest_of(0), 0x0A0B_0C0D);
    let body = msg.get_contents();
    assert_eq!(&body[64..], &[0x0Du8, 0x0C, 0x0B, 0x0A]);
    let msg = PlaceMessage::new(digest_of(0), u32::MAX as usize);
    assert_eq!(&msg.get_contents()[64..], &[255u8, 255, 255, 255]);
}

#[test]
fn place_body_reads_back() {
    let msg = PlaceMessage::new(digest_of(5), 1_000_000);
    let read = PlaceMessage::try_from(msg.get_contents()).unwrap();
    assert_eq!(read.hash, digest_of(5));
    assert_eq!(read.datasize, 1_000_000);
}

#[test]
fn place_body_ignores_what_follows_the_size() {
    let mut body = digest_of(5);
    body.extend_from_slice(&[1, 2, 0, 0, 77, 77, 77]);
    let read = PlaceMessage::try_from(body).unwrap();
    assert_eq!(read.hash, digest_of(5));
    assert_eq!(read.datasize, 513);
}

#[test]
fn short_place_body_is_a_protocol_error() {
    assert!(matches!(
        PlaceMessage::try_from(Vec::new()),
        Err(KitapError::ProtocolError)
    ));
    assert!(matches!(
        PlaceMessage::try_from(vec![0u8; 63]),
        Err(KitapError::ProtocolError)
    ));
    assert!(matches!(
        PlaceMessage::try_from(vec![0u8; 64]),
        Err(KitapError::ProtocolError)
    ));
    assert!(matches!(
        PlaceMessage::try_from(vec![0u8; 67]),
        Err(KitapError::ProtocolError)
    ));
    assert!(PlaceMessage::try_from(vec![0u8; 68]).is_ok());
}

#[test]
fn not_found_frame_holds_the_digest() {
    let key = digest_of(4);
    let msg = NotFoundMessage::new(&key);
    assert_eq!(msg.get_type(), MessageType::NotFound);
    assert_eq!(msg.get_contents(), key);
    let bytes = msg.into_bytes();
    assert_eq!(&bytes[..6], &[2u8, 0, 64, 0, 0, 0]);
    assert_eq!(&bytes[6..], &key[..]);
}

#[test]
fn frame_round_trip() {
    for kind in [
        MessageType::Place,
        MessageType::Fetch,
        MessageType::NotFound,
        MessageType::Unknown,
    ] {
        for body in [Vec::new(), vec![1u8], digest_of(3), vec![0xFFu8; 300]] {
            let frame = Frame::new(kind, body.clone());
            let bytes = frame.into_bytes();
            assert_eq!(bytes.len(), 6 + body.len());
            let read = Frame::from_bytes(&bytes).unwrap();
            assert_eq!(read.msg_type, kind);
            assert_eq!(read.body, body);
        }
    }
}

#[test]
fn frame_of_a_message_reads_back_as_its_kind_and_body() {
    let msg = PlaceMessage::new(digest_of(8), 12);
    let read = Frame::from_bytes(&msg.into_bytes()).unwrap();
    assert_eq!(read.msg_type, MessageType::Place);
    assert_eq!(read.body, msg.get_contents());
}

#[test]
fn frame_with_a_wrong_length_is_a_protocol_error() {
    // The header announces two bytes.
    assert!(matches!(
        Frame::from_bytes(&[1, 0, 2, 0, 0, 0, 7]),
        Err(KitapError::ProtocolError)
    ));
    assert!(matches!(
        Frame::from_bytes(&[1, 0, 2, 0, 0, 0, 7, 8, 9]),
        Err(KitapError::ProtocolError)
    ));
    assert!(matches!(
        Frame::from_bytes(&[1, 0, 2]),
        Err(KitapError::ProtocolError)
    ));
    let read = Frame::from_bytes(&[1, 0, 2, 0, 0, 0, 7, 8]).unwrap();
    assert_eq!(read.msg_type, MessageType::Fetch);
    assert_eq!(read.body, vec![7u8, 8]);
}

#[test]
fn error_names() {
    assert_eq!(KitapError::ConnectionError.name(), "connection error");
    assert_eq!(KitapError::ProtocolError.name(), "protocol error");
    assert_eq!(KitapError::StoreUnavailable.name(), "store unavailable");
    assert_eq!(KitapError::ValidationError.name(), "validation error");
}
