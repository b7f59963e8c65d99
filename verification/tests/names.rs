use moq_codec::syntax::{Decode, Encode, Error};
use moq_codec::track::{decode_name, encode_name, FullTrackName, TrackNamespace, MAX_NAME_LEN};

#[test]
fn tracknamespace_encode_decode() {
    let tn_before = TrackNamespace(b"http://example.com/meetings/123/user/1".to_vec());
    let mut enc = Vec::new();
    tn_before.encode(&mut enc).expect("Encoding failed for track namespace");
    let tn_after = TrackNamespace::decode(&mut enc.as_slice())
        .expect("Decoding failed for track namespace");
    assert_eq!(tn_before, tn_after);
}

#[test]
fn fulltrackname_encode_decode() {
    let ftn_before = TrackNamespace(b"http://example.com/meetings/123/user/1/video/2".to_vec());
    let mut enc = Vec::new();
    ftn_before.encode(&mut enc).expect("Encoding failed for full track name");
    let ftn_after = TrackNamespace::decode(&mut enc.as_slice())
        .expect("Decoding failed for full track name");
    assert_eq!(ftn_before, ftn_after);
}

#[test]
fn full_track_name_type_round_trips() {
    let before = FullTrackName(b"http://example.com/meetings/123/user/1/video/2".to_vec());
    let mut enc = Vec::new();
    assert_eq!(before.encode(&mut enc), Ok(47));
    let mut reader = enc.as_slice();
    assert_eq!(FullTrackName::decode(&mut reader), Ok(before));
    assert!(reader.is_empty());
}

#[test]
fn name_is_one_length_byte_then_the_bytes() {
    let mut enc = Vec::new();
    assert_eq!(TrackNamespace(b"abc".to_vec()).encode(&mut enc), Ok(4));
    assert_eq!(enc, vec![3, b'a', b'b', b'c']);
    let mut enc = vec![0xeeu8];
    assert_eq!(FullTrackName(vec![0, 255]).encode(&mut enc), Ok(3));
    assert_eq!(enc, vec![0xee, 2, 0, 255]);
}

#[test]
fn name_length_prefix_stays_one_byte_for_long_names() {
    let name: Vec<u8> = (0..200u8).collect();
    let mut enc = Vec::new();
    assert_eq!(TrackNamespace(name.clone()).encode(&mut enc), Ok(201));
    assert_eq!(enc[0], 200);
    assert_eq!(&enc[1..], name.as_slice());
    let mut reader = enc.as_slice();
    assert_eq!(TrackNamespace::decode(&mut reader), Ok(TrackNamespace(name)));
}

#[test]
fn names_of_length_1_and_255_round_trip() {
    assert_eq!(MAX_NAME_LEN, 255);
    for len in [1usize, 2, 63, 64, 127, 128, 254, 255] {
        let name: Vec<u8> = (0..len).map(|i| (i * 7 + 3) as u8).collect();
        let mut enc = Vec::new();
        assert_eq!(TrackNamespace(name.clone()).encode(&mut enc), Ok(len + 1));
        assert_eq!(enc.len(), len + 1);
        enc.push(0x99);
        let mut reader = enc.as_slice();
        assert_eq!(
            TrackNamespace::decode(&mut reader),
            Ok(TrackNamespace(name.clone()))
        );
        assert_eq!(reader, &[0x99u8][..]);
        let mut enc = Vec::new();
        assert_eq!(FullTrackName(name.clone()).encode(&mut enc), Ok(len + 1));
        let mut reader = enc.as_slice();
        assert_eq!(FullTrackName::decode(&mut reader), Ok(FullTrackName(name)));
    }
}

#[test]
fn empty_name_does_not_encode() {
    let mut enc = vec![5u8];
    assert_eq!(
        TrackNamespace(Vec::new()).encode(&mut enc),
        Err(Error::EncodingError(
            "TrackNamespace length out of range".to_string()
        ))
    );
    assert_eq!(enc, vec![5]);
    assert_eq!(
        FullTrackName(Vec::new()).encode(&mut enc),
        Err(Error::EncodingError(
            "FullTrackName length out of range".to_string()
        ))
    );
    assert_eq!(enc, vec![5]);
}

#[test]
fn name_of_256_bytes_does_not_encode() {
    let mut enc = Vec::new();
    assert_eq!(
        TrackNamespace(vec![b'x'; 256]).encode(&mut enc),
        Err(Error::EncodingError(
            "TrackNamespace length out of range".to_string()
        ))
    );
    assert!(enc.is_empty());
    assert_eq!(
        FullTrackName(vec![b'x'; 1000]).encode(&mut enc),
        Err(Error::EncodingError(
            "FullTrackName length out of range".to_string()
        ))
    );
    assert!(enc.is_empty());
}

#[test]
fn zero_length_byte_is_a_decoding_error_naming_the_field() {
    let data = [0u8, 1, 2];
    let mut reader: &[u8] = &data;
    assert_eq!(
        TrackNamespace::decode(&mut reader),
        Err(Error::DecodingError(
            "TrackNamespace of zero length".to_string()
        ))
    );
    assert_eq!(reader, &[1u8, 2][..]);
    let mut reader: &[u8] = &data;
    assert_eq!(
        FullTrackName::decode(&mut reader),
        Err(Error::DecodingError(
            "FullTrackName of zero length".to_string()
        ))
    );
    assert_eq!(reader, &[1u8, 2][..]);
}

#[test]
fn truncated_name_is_end_of_stream() {
    let empty: [u8; 0] = [];
    let mut reader: &[u8] = &empty;
    assert_eq!(TrackNamespace::decode(&mut reader), Err(Error::EndOfStream));
    let data = [4u8, b'a', b'b', b'c'];
    let mut reader: &[u8] = &data;
    assert_eq!(TrackNamespace::decode(&mut reader), Err(Error::EndOfStream));
    assert_eq!(reader, &data[..]);
    let mut reader: &[u8] = &data;
    assert_eq!(FullTrackName::decode(&mut reader), Err(Error::EndOfStream));
    let data = [255u8];
    let mut reader: &[u8] = &data;
    assert_eq!(TrackNamespace::decode(&mut reader), Err(Error::EndOfStream));
}

#[test]
fn shared_name_codec_takes_the_fault_text() {
    let mut enc = Vec::new();
    assert_eq!(encode_name(&vec![1, 2], &mut enc, "bad length"), Ok(3));
    assert_eq!(enc, vec![2, 1, 2]);
    assert_eq!(
        encode_name(&Vec::new(), &mut enc, "bad length"),
        Err(Error::EncodingError("bad length".to_string()))
    );
    let mut reader = enc.as_slice();
    assert_eq!(decode_name(&mut reader, "empty"), Ok(vec![1, 2]));
    let data = [0u8, 4];
    let mut reader: &[u8] = &data;
    assert_eq!(
        decode_name(&mut reader, "empty"),
        Err(Error::DecodingError("empty".to_string()))
    );
    assert_eq!(reader, &[4u8][..]);
}
