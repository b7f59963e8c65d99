use moq_codec::announce::{Announce, AnnounceError, AnnounceOk};
use moq_codec::message_type::{expect_tag, MessageType};
use moq_codec::quic_varint::QUICVarint;
use moq_codec::subscribe::{Subscribe, SubscribeError, SubscribeOk, Unsubscribe};
use moq_codec::syntax::{append_field, put_bytes, stop_at, take_bytes, Decode, Encode, Error};
use moq_codec::track::{FullTrackName, TrackNamespace};

const NAMESPACE: &[u8] = b"http://example.com/meetings/123/user/1";
const TRACK: &[u8] = b"http://example.com/meetings/123/user/1/video/2";

#[test]
fn announce_encode_decode() {
    let announce_before = Announce {
        track_namespace: TrackNamespace(b"http://example.com/meetings/123/user/1".to_vec()),
    };
    let mut enc = Vec::new();
    announce_before.encode(&mut enc).expect("Encoding failed for announce");
    let announce_after = Announce::decode(&mut enc.as_slice())
        .expect("Decoding failed announce");
    assert_eq!(announce_before, announce_after);
}

#[test]
fn announce_error_encode_decode() {
    let announce_err_before = AnnounceError {
        track_namespace: TrackNamespace(b"http://example.com/meetings/123/user/1".to_vec()),
        error_code: QUICVarint(1011),
        reason_phrase: "Authorization Failed".to_string(),
    };
    let mut enc = Vec::new();
    announce_err_before.encode(&mut enc).expect("Encoding failed for announce error");
    let announce_err_after = AnnounceError::decode(&mut enc.as_slice())
        .expect("Decoding failed announce error");
    assert_eq!(announce_err_before, announce_err_after);
}

#[test]
fn announce_wire_layout() {
    let msg = Announce { track_namespace: TrackNamespace(NAMESPACE.to_vec()) };
    let mut enc = Vec::new();
    assert_eq!(msg.encode(&mut enc), Ok(40));
    let mut expected = vec![0x6u8, 38];
    expected.extend_from_slice(NAMESPACE);
    assert_eq!(enc, expected);
}

#[test]
fn announce_error_wire_layout_and_reason_length() {
    let msg = AnnounceError {
        track_namespace: TrackNamespace(NAMESPACE.to_vec()),
        error_code: QUICVarint(1011),
        reason_phrase: "Authorization Failed".to_string(),
    };
    let mut enc = Vec::new();
    assert_eq!(msg.encode(&mut enc), Ok(1 + 39 + 2 + 1 + 20));
    let mut expected = vec![0x8u8, 38];
    expected.extend_from_slice(NAMESPACE);
    expected.extend_from_slice(&[0x43, 0xf3]);
    expected.push(20);
    expected.extend_from_slice(b"Authorization Failed");
    assert_eq!(enc, expected);
    enc.extend_from_slice(&[1, 2, 3]);
    let mut reader = enc.as_slice();
    let after = AnnounceError::decode(&mut reader).expect("decodes");
    assert_eq!(after.reason_phrase.len(), 20);
    assert_eq!(after, msg);
    assert_eq!(reader, &[1u8, 2, 3][..]);
}

#[test]
fn announce_ok_round_trips() {
    let msg = AnnounceOk { track_namespace: TrackNamespace(NAMESPACE.to_vec()) };
    let mut enc = Vec::new();
    assert_eq!(msg.encode(&mut enc), Ok(40));
    assert_eq!(enc[0], 0x7);
    let mut reader = enc.as_slice();
    assert_eq!(AnnounceOk::decode(&mut reader), Ok(msg));
    assert!(reader.is_empty());
}

#[test]
fn tag_mismatch_is_a_decoding_error_and_consumes_only_the_tag() {
    let msg = AnnounceOk { track_namespace: TrackNamespace(NAMESPACE.to_vec()) };
    let mut enc = Vec::new();
    msg.encode(&mut enc).expect("encodes");
    let mut reader = enc.as_slice();
    assert_eq!(
        Announce::decode(&mut reader),
        Err(Error::DecodingError(
            "Invalid message type for announce: got announce ok".to_string()
        ))
    );
    assert_eq!(reader, &enc[1..]);
    assert_eq!(
        TrackNamespace::decode(&mut reader),
        Ok(TrackNamespace(NAMESPACE.to_vec()))
    );
    assert!(reader.is_empty());
}

#[test]
fn tag_mismatch_leaves_the_bytes_behind_the_tag() {
    let data = [0x07u8, 0x01, 0x61];
    let mut reader: &[u8] = &data;
    assert_eq!(
        Announce::decode(&mut reader),
        Err(Error::DecodingError(
            "Invalid message type for announce: got announce ok".to_string()
        ))
    );
    assert_eq!(reader, &[0x01u8, 0x61][..]);
}

#[test]
fn tag_mismatch_names_both_kinds() {
    let data = [0x6u8, 1, b'a'];
    let rest = &[1u8, b'a'][..];
    let mut reader: &[u8] = &data;
    assert_eq!(
        AnnounceOk::decode(&mut reader),
        Err(Error::DecodingError(
            "Invalid message type for announce ok: got announce".to_string()
        ))
    );
    assert_eq!(reader, rest);
    let mut reader: &[u8] = &data;
    assert_eq!(
        AnnounceError::decode(&mut reader),
        Err(Error::DecodingError(
            "Invalid message type for announce error: got announce".to_string()
        ))
    );
    assert_eq!(reader, rest);
    let mut reader: &[u8] = &data;
    assert_eq!(
        Subscribe::decode(&mut reader),
        Err(Error::DecodingError(
            "Invalid message type for subscribe: got announce".to_string()
        ))
    );
    assert_eq!(reader, rest);
    let mut reader: &[u8] = &data;
    assert_eq!(
        SubscribeOk::decode(&mut reader),
        Err(Error::DecodingError(
            "Invalid message type for subscribe ok: got announce".to_string()
        ))
    );
    assert_eq!(reader, rest);
    let mut reader: &[u8] = &data;
    assert_eq!(
        SubscribeError::decode(&mut reader),
        Err(Error::DecodingError(
            "Invalid message type for subscribe error: got announce".to_string()
        ))
    );
    assert_eq!(reader, rest);
    let mut reader: &[u8] = &data;
    assert_eq!(
        Unsubscribe::decode(&mut reader),
        Err(Error::DecodingError(
            "Invalid message type for unsubscribe: got announce".to_string()
        ))
    );
    assert_eq!(reader, rest);
    let data = [0x9u8, 1, b'a'];
    let mut reader: &[u8] = &data;
    assert_eq!(
        Announce::decode(&mut reader),
        Err(Error::DecodingError(
            "Invalid message type for announce: got unannounce".to_string()
        ))
    );
    assert_eq!(reader, rest);
    let data = [0xf0u8, 1, b'a'];
    let mut reader: &[u8] = &data;
    assert_eq!(
        Announce::decode(&mut reader),
        Err(Error::DecodingError(
            "Invalid message type for announce: got unknown".to_string()
        ))
    );
    assert_eq!(reader, rest);
}

#[test]
fn decoding_error_inside_a_message_leaves_the_reader_behind_what_was_read() {
    let data = [0x6u8, 0, 9, 9];
    let mut reader: &[u8] = &data;
    assert_eq!(
        Announce::decode(&mut reader),
        Err(Error::DecodingError(
            "TrackNamespace of zero length".to_string()
        ))
    );
    assert_eq!(reader, &[9u8, 9][..]);
    let data = [0x4u8, 7, 0x43, 0xe8, 0, 0x55];
    let mut reader: &[u8] = &data;
    assert_eq!(
        SubscribeOk::decode(&mut reader),
        Err(Error::DecodingError(
            "FullTrackName of zero length".to_string()
        ))
    );
    assert_eq!(reader, &[0x55u8][..]);
}

#[test]
fn truncated_message_is_end_of_stream() {
    let data = [0x6u8, 4];
    let mut reader: &[u8] = &data;
    assert_eq!(Announce::decode(&mut reader), Err(Error::EndOfStream));
    assert_eq!(reader, &data[..]);
    let data = [0x6u8];
    let mut reader: &[u8] = &data;
    assert_eq!(Announce::decode(&mut reader), Err(Error::EndOfStream));
    let empty: [u8; 0] = [];
    let mut reader: &[u8] = &empty;
    assert_eq!(Announce::decode(&mut reader), Err(Error::EndOfStream));
    assert_eq!(AnnounceError::decode(&mut reader), Err(Error::EndOfStream));
    assert_eq!(SubscribeOk::decode(&mut reader), Err(Error::EndOfStream));
}

#[test]
fn every_prefix_of_an_announce_error_is_end_of_stream() {
    let msg = AnnounceError {
        track_namespace: TrackNamespace(b"ns".to_vec()),
        error_code: QUICVarint(1011),
        reason_phrase: "no".to_string(),
    };
    let mut enc = Vec::new();
    msg.encode(&mut enc).expect("encodes");
    assert_eq!(enc, vec![0x8, 2, b'n', b's', 0x43, 0xf3, 2, b'n', b'o']);
    for cut in 0..enc.len() {
        let mut reader = &enc[..cut];
        assert_eq!(AnnounceError::decode(&mut reader), Err(Error::EndOfStream));
        assert_eq!(reader.len(), cut);
    }
    let mut reader = enc.as_slice();
    assert_eq!(AnnounceError::decode(&mut reader), Ok(msg));
}

#[test]
fn invalid_utf8_reason_is_a_decoding_error() {
    let data = [0x8u8, 2, b'n', b's', 0x01, 2, 0xff, 0xfe, 0x77];
    let mut reader: &[u8] = &data;
    assert_eq!(
        AnnounceError::decode(&mut reader),
        Err(Error::DecodingError(
            "Reason phrase is not valid UTF-8".to_string()
        ))
    );
    assert_eq!(reader, &[0x77u8][..]);
    let data = [0x5u8, 2, b'n', b's', 0x01, 3, 0xe2, 0x82, 0x28];
    let mut reader: &[u8] = &data;
    assert_eq!(
        SubscribeError::decode(&mut reader),
        Err(Error::DecodingError(
            "Reason phrase is not valid UTF-8".to_string()
        ))
    );
    assert!(reader.is_empty());
    let data = [1u8, 0xc0, 0x41];
    let mut reader: &[u8] = &data;
    assert_eq!(
        String::decode(&mut reader),
        Err(Error::DecodingError(
            "Reason phrase is not valid UTF-8".to_string()
        ))
    );
    assert_eq!(reader, &[0x41u8][..]);
}

#[test]
fn reason_phrase_length_counts_bytes_not_characters() {
    let reason = "h\u{e9}llo \u{20ac}".to_string();
    let mut enc = Vec::new();
    assert_eq!(reason.encode(&mut enc), Ok(1 + 10));
    assert_eq!(
        enc,
        vec![10, b'h', 0xc3, 0xa9, b'l', b'l', b'o', b' ', 0xe2, 0x82, 0xac]
    );
    enc.push(7);
    let mut reader = enc.as_slice();
    assert_eq!(String::decode(&mut reader), Ok(reason));
    assert_eq!(reader, &[7u8][..]);
}

#[test]
fn empty_and_long_reason_phrases_round_trip() {
    let mut enc = Vec::new();
    assert_eq!(String::new().encode(&mut enc), Ok(1));
    assert_eq!(enc, vec![0]);
    let mut reader = enc.as_slice();
    assert_eq!(String::decode(&mut reader), Ok(String::new()));
    let long: String = "ab".repeat(100);
    let mut enc = Vec::new();
    assert_eq!(long.encode(&mut enc), Ok(2 + 200));
    assert_eq!(&enc[..2], &[0x40u8, 200][..]);
    let mut reader = enc.as_slice();
    assert_eq!(String::decode(&mut reader), Ok(long));
}

#[test]
fn short_reason_body_is_end_of_stream() {
    let data = [5u8, b'a', b'b'];
    let mut reader: &[u8] = &data;
    assert_eq!(String::decode(&mut reader), Err(Error::EndOfStream));
    assert_eq!(reader.len(), 3);
    let data = [0xffu8, 0xff, 0xff, 0xff, 0xff, 0xff, 0xff, 0xff, 1, 2, 3];
    let mut reader: &[u8] = &data;
    assert_eq!(String::decode(&mut reader), Err(Error::EndOfStream));
    assert_eq!(reader.len(), 11);
}

#[test]
fn failed_encode_writes_nothing() {
    let msg = AnnounceError {
        track_namespace: TrackNamespace(NAMESPACE.to_vec()),
        error_code: QUICVarint(1 << 62),
        reason_phrase: "Authorization Failed".to_string(),
    };
    let mut enc = vec![0xabu8, 0xcd];
    assert_eq!(
        msg.encode(&mut enc),
        Err(Error::EncodingError("Integer value too big".to_string()))
    );
    assert_eq!(enc, vec![0xab, 0xcd]);
    let msg = Announce { track_namespace: TrackNamespace(Vec::new()) };
    assert_eq!(
        msg.encode(&mut enc),
        Err(Error::EncodingError(
            "TrackNamespace length out of range".to_string()
        ))
    );
    assert_eq!(enc, vec![0xab, 0xcd]);
    let msg = SubscribeOk {
        track: FullTrackName(TRACK.to_vec()),
        track_id: QUICVarint(1),
        expires: QUICVarint(u64::MAX),
    };
    assert_eq!(
        msg.encode(&mut enc),
        Err(Error::EncodingError("Integer value too big".to_string()))
    );
    assert_eq!(enc, vec![0xab, 0xcd]);
    let msg = Subscribe { track: FullTrackName(vec![0; 256]) };
    assert_eq!(
        msg.encode(&mut enc),
        Err(Error::EncodingError(
            "FullTrackName length out of range".to_string()
        ))
    );
    assert_eq!(enc, vec![0xab, 0xcd]);
}

#[test]
fn first_unencodable_field_decides_the_error() {
    let msg = SubscribeError {
        track: FullTrackName(Vec::new()),
        error_code: QUICVarint(u64::MAX),
        reason_phrase: String::new(),
    };
    let mut enc = Vec::new();
    assert_eq!(
        msg.encode(&mut enc),
        Err(Error::EncodingError(
            "FullTrackName length out of range".to_string()
        ))
    );
    assert!(enc.is_empty());
}

#[test]
fn subscribe_and_unsubscribe_round_trip() {
    let msg = Subscribe { track: FullTrackName(TRACK.to_vec()) };
    let mut enc = Vec::new();
    assert_eq!(msg.encode(&mut enc), Ok(48));
    assert_eq!(enc[0], 0x3);
    assert_eq!(enc[1], 46);
    let mut reader = enc.as_slice();
    assert_eq!(Subscribe::decode(&mut reader), Ok(msg));
    assert!(reader.is_empty());

    let msg = Unsubscribe { track: FullTrackName(TRACK.to_vec()) };
    let mut enc = Vec::new();
    assert_eq!(msg.encode(&mut enc), Ok(48));
    assert_eq!(enc[0], 0xa);
    let mut reader = enc.as_slice();
    assert_eq!(Unsubscribe::decode(&mut reader), Ok(msg));
    assert!(reader.is_empty());
}

#[test]
fn subscribe_error_round_trips() {
    let msg = SubscribeError {
        track: FullTrackName(b"t/1".to_vec()),
        error_code: QUICVarint(404),
        reason_phrase: "Track Not Found".to_string(),
    };
    let mut enc = Vec::new();
    assert_eq!(msg.encode(&mut enc), Ok(1 + 4 + 2 + 1 + 15));
    let mut expected = vec![0x5u8, 3, b't', b'/', b'1', 0x41, 0x94, 15];
    expected.extend_from_slice(b"Track Not Found");
    assert_eq!(enc, expected);
    let mut reader = enc.as_slice();
    assert_eq!(SubscribeError::decode(&mut reader), Ok(msg));
    assert!(reader.is_empty());
}

#[test]
fn subscribe_ok_writes_the_track_name_first() {
    let msg = SubscribeOk {
        track: FullTrackName(b"ab".to_vec()),
        track_id: QUICVarint(7),
        expires: QUICVarint(1000),
    };
    let mut enc = Vec::new();
    assert_eq!(msg.encode(&mut enc), Ok(7));
    assert_eq!(enc, vec![0x4, 2, b'a', b'b', 7, 0x43, 0xe8]);
}

#[test]
fn subscribe_ok_reads_the_numbers_first() {
    let data = [0x4u8, 7, 0x43, 0xe8, 2, b'a', b'b', 0x55];
    let mut reader: &[u8] = &data;
    assert_eq!(
        SubscribeOk::decode(&mut reader),
        Ok(SubscribeOk {
            track: FullTrackName(b"ab".to_vec()),
            track_id: QUICVarint(7),
            expires: QUICVarint(1000),
        })
    );
    assert_eq!(reader, &[0x55u8][..]);
}

#[test]
fn message_tags_are_distinct_and_invertible() {
    let kinds = [
        (MessageType::Subscribe, 0x3u8, "subscribe"),
        (MessageType::SubscribeOk, 0x4, "subscribe ok"),
        (MessageType::SubscribeError, 0x5, "subscribe error"),
        (MessageType::Announce, 0x6, "announce"),
        (MessageType::AnnounceOk, 0x7, "announce ok"),
        (MessageType::AnnounceError, 0x8, "announce error"),
        (MessageType::Unannounce, 0x9, "unannounce"),
        (MessageType::Unsubscribe, 0xa, "unsubscribe"),
    ];
    for (kind, tag, name) in kinds {
        assert_eq!(kind.tag(), tag);
        assert_eq!(kind.name(), name);
        assert_eq!(MessageType::from_tag(tag), Some(kind));
    }
    for tag in 0..=255u8 {
        match MessageType::from_tag(tag) {
            Some(kind) => assert_eq!(kind.tag(), tag),
            None => assert!(tag < 0x3 || tag > 0xa),
        }
    }
}

#[test]
fn expect_tag_checks_the_first_byte() {
    let data = [0x7u8, 0x6, 0x8];
    let mut reader: &[u8] = &data;
    assert_eq!(expect_tag(&mut reader, MessageType::AnnounceOk), Ok(0x7));
    assert_eq!(reader, &[0x6u8, 0x8][..]);
    assert_eq!(
        expect_tag(&mut reader, MessageType::AnnounceOk),
        Err(Error::DecodingError(
            "Invalid message type for announce ok: got announce".to_string()
        ))
    );
    assert_eq!(reader, &[0x8u8][..]);
    assert_eq!(expect_tag(&mut reader, MessageType::AnnounceError), Ok(0x8));
    assert_eq!(
        expect_tag(&mut reader, MessageType::Announce),
        Err(Error::EndOfStream)
    );
    assert!(reader.is_empty());
}

#[test]
fn stop_at_moves_the_reader_for_decoding_errors_only() {
    let data = [1u8, 2, 3];
    let mut reader: &[u8] = &data;
    assert_eq!(
        stop_at(&mut reader, &data[2..], Error::EndOfStream),
        Error::EndOfStream
    );
    assert_eq!(reader, &data[..]);
    assert_eq!(
        stop_at(&mut reader, &data[2..], Error::DecodingError("bad".to_string())),
        Error::DecodingError("bad".to_string())
    );
    assert_eq!(reader, &[3u8][..]);
}

#[test]
fn messages_decode_back_to_back() {
    let first = Announce { track_namespace: TrackNamespace(b"one".to_vec()) };
    let second = AnnounceError {
        track_namespace: TrackNamespace(b"two".to_vec()),
        error_code: QUICVarint(70000),
        reason_phrase: "nope".to_string(),
    };
    let third = Unsubscribe { track: FullTrackName(b"three".to_vec()) };
    let mut enc = Vec::new();
    let a = first.encode(&mut enc).expect("encodes");
    let b = second.encode(&mut enc).expect("encodes");
    let c = third.encode(&mut enc).expect("encodes");
    assert_eq!(a + b + c, enc.len());
    let mut reader = enc.as_slice();
    assert_eq!(Announce::decode(&mut reader), Ok(first));
    assert_eq!(AnnounceError::decode(&mut reader), Ok(second));
    assert_eq!(Unsubscribe::decode(&mut reader), Ok(third));
    assert!(reader.is_empty());
}

#[test]
fn raw_byte_helpers_read_and_write_exactly() {
    let mut out = vec![1u8];
    put_bytes(&mut out, &[2, 3]);
    put_bytes(&mut out, &[]);
    assert_eq!(out, vec![1, 2, 3]);
    let mut reader = out.as_slice();
    assert_eq!(take_bytes(&mut reader, 2), Ok(vec![1, 2]));
    assert_eq!(reader, &[3u8][..]);
    assert_eq!(take_bytes(&mut reader, 2), Err(Error::EndOfStream));
    assert_eq!(reader, &[3u8][..]);
    assert_eq!(take_bytes(&mut reader, 0), Ok(Vec::new()));
}

#[test]
fn append_field_cuts_back_on_failure() {
    let mut out = vec![9u8, 9];
    assert_eq!(append_field(&QUICVarint(5), &mut out, 1), Ok(1));
    assert_eq!(out, vec![9, 9, 5]);
    assert_eq!(
        append_field(&QUICVarint(u64::MAX), &mut out, 1),
        Err(Error::EncodingError("Integer value too big".to_string()))
    );
    assert_eq!(out, vec![9]);
    assert_eq!(
        append_field(&QUICVarint(u64::MAX), &mut out, 5),
        Err(Error::EncodingError("Integer value too big".to_string()))
    );
    assert_eq!(out, vec![9]);
}
