use moq_codec::syntax::{Decode, Encode, Error};

#[test]
fn primitives_encode_decode() {
    let mut enc = Vec::new();
    let u8_before = 12u8;
    let u16_before = 333u16;
    u8_before.encode(&mut enc).expect("Error encoding u8");
    u16_before.encode(&mut enc).expect("Error encoding u16");
    let u8_after = u8::decode(&mut enc.as_slice()).expect("Error decoding u8");
    assert_eq!(u8_before, u8_after);
    let mut enc = &enc[1..];
    let u16_after = u16::decode(&mut enc).expect("Error decoding u16");
    assert_eq!(u16_before, u16_after);
}

#[test]
fn u8_is_one_raw_byte() {
    let mut enc = vec![0xaau8];
    assert_eq!(0x7fu8.encode(&mut enc), Ok(1));
    assert_eq!(enc, vec![0xaa, 0x7f]);
}

#[test]
fn u16_is_two_bytes_most_significant_first() {
    let mut enc = Vec::new();
    assert_eq!(333u16.encode(&mut enc), Ok(2));
    assert_eq!(enc, vec![0x01, 0x4d]);
    let mut enc = Vec::new();
    assert_eq!(0xffffu16.encode(&mut enc), Ok(2));
    assert_eq!(enc, vec![0xff, 0xff]);
    let mut enc = Vec::new();
    assert_eq!(0u16.encode(&mut enc), Ok(2));
    assert_eq!(enc, vec![0x00, 0x00]);
}

#[test]
fn u16_decode_reads_big_endian_and_leaves_the_rest() {
    let data = [0x12u8, 0x34, 0x56];
    let mut reader: &[u8] = &data;
    assert_eq!(u16::decode(&mut reader), Ok(0x1234));
    assert_eq!(reader, &[0x56u8][..]);
}

#[test]
fn u8_decode_consumes_one_byte() {
    let data = [9u8, 8];
    let mut reader: &[u8] = &data;
    assert_eq!(u8::decode(&mut reader), Ok(9));
    assert_eq!(reader, &[8u8][..]);
    assert_eq!(u8::decode(&mut reader), Ok(8));
    assert!(reader.is_empty());
}

#[test]
fn short_scalar_reads_are_end_of_stream() {
    let empty: [u8; 0] = [];
    let mut reader: &[u8] = &empty;
    assert_eq!(u8::decode(&mut reader), Err(Error::EndOfStream));
    assert_eq!(u16::decode(&mut reader), Err(Error::EndOfStream));
    let one = [0x01u8];
    let mut reader: &[u8] = &one;
    assert_eq!(u16::decode(&mut reader), Err(Error::EndOfStream));
    assert_eq!(reader, &[0x01u8][..]);
}

#[test]
fn every_u16_boundary_round_trips() {
    for value in [0u16, 1, 255, 256, 257, 0x7fff, 0x8000, 0xfffe, 0xffff] {
        let mut enc = Vec::new();
        value.encode(&mut enc).expect("u16 always encodes");
        let mut reader = enc.as_slice();
        assert_eq!(u16::decode(&mut reader), Ok(value));
        assert!(reader.is_empty());
    }
}
