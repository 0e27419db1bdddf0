use bytes::BytesMut;
use raftor::network::codec::{decode_frame, encode_frame, try_encode_frame, ClientNodeCodec, NodeCodec, MAX_FRAME_PAYLOAD};

#[test]
fn encode_writes_length_prefix() {
    let mut dst = BytesMut::new();
    encode_frame(b"hello", &mut dst);
    assert_eq!(&dst[..], &[0u8, 5, b'h', b'e', b'l', b'l', b'o'][..]);
}

#[test]
fn encode_appends_after_existing_bytes() {
    let mut dst = BytesMut::from(&b"ab"[..]);
    let mut codec = NodeCodec;
    codec.encode(b"xyz", &mut dst);
    assert_eq!(&dst[..], &[b'a', b'b', 0, 3, b'x', b'y', b'z'][..]);
}

#[test]
fn decode_returns_payload_and_keeps_rest() {
    let mut src = BytesMut::from(&[0u8, 3, b'a', b'b', b'c', 9, 9][..]);
    let mut codec = NodeCodec;
    let frame = codec.decode(&mut src).expect("a whole frame");
    assert_eq!(&frame[..], b"abc");
    assert_eq!(&src[..], &[9u8, 9][..]);
}

#[test]
fn decode_waits_for_header() {
    let mut src = BytesMut::from(&[0u8][..]);
    assert!(decode_frame(&mut src).is_none());
    assert_eq!(&src[..], &[0u8][..]);
}

#[test]
fn decode_waits_for_whole_payload() {
    let mut src = BytesMut::from(&[0u8, 4, b'a', b'b', b'c'][..]);
    let mut codec = ClientNodeCodec;
    assert!(codec.decode(&mut src).is_none());
    assert_eq!(&src[..], &[0u8, 4, b'a', b'b', b'c'][..]);
}

#[test]
fn decode_empty_payload() {
    let mut src = BytesMut::from(&[0u8, 0, 7][..]);
    let frame = decode_frame(&mut src).expect("an empty frame");
    assert!(frame.is_empty());
    assert_eq!(&src[..], &[7u8][..]);
}

#[test]
fn roundtrip_of_several_frames() {
    let mut buf = BytesMut::new();
    let mut client = ClientNodeCodec;
    client.encode(b"{\"a\":1}", &mut buf);
    client.encode(b"", &mut buf);
    client.encode(b"second", &mut buf);
    let mut server = NodeCodec;
    assert_eq!(&server.decode(&mut buf).unwrap()[..], b"{\"a\":1}");
    assert_eq!(&server.decode(&mut buf).unwrap()[..], b"");
    assert_eq!(&server.decode(&mut buf).unwrap()[..], b"second");
    assert!(server.decode(&mut buf).is_none());
    assert!(buf.is_empty());
}

#[test]
fn roundtrip_of_largest_payload() {
    let payload = vec![7u8; MAX_FRAME_PAYLOAD];
    let mut buf = BytesMut::new();
    encode_frame(&payload, &mut buf);
    assert_eq!(&buf[..2], &[0xffu8, 0xff][..]);
    let frame = decode_frame(&mut buf).unwrap();
    assert_eq!(frame.len(), MAX_FRAME_PAYLOAD);
    assert!(buf.is_empty());
}

#[test]
fn long_payload_header_wraps() {
    let payload = vec![1u8; 70000];
    let mut buf = BytesMut::new();
    encode_frame(&payload, &mut buf);
    assert_eq!(buf.len(), 70002);
    // 70000 mod 65536 = 4464 = 0x1170
    assert_eq!(&buf[..2], &[0x11u8, 0x70][..]);
}

#[test]
fn big_endian_header_read() {
    let mut src = BytesMut::from(&[1u8, 2][..]);
    src.extend_from_slice(&vec![5u8; 258]);
    src.extend_from_slice(b"tail");
    let frame = decode_frame(&mut src).unwrap();
    assert_eq!(frame.len(), 258);
    assert_eq!(&src[..], b"tail");
}

#[test]
fn checked_encode_writes_a_frame_that_fits() {
    let mut dst = BytesMut::from(&b"z"[..]);
    assert!(try_encode_frame(b"hi", &mut dst));
    assert_eq!(&dst[..], &[b'z', 0, 2, b'h', b'i'][..]);
    let mut codec = ClientNodeCodec;
    assert!(codec.try_encode(b"", &mut dst));
    assert_eq!(&dst[..], &[b'z', 0, 2, b'h', b'i', 0, 0][..]);
    let mut server = NodeCodec;
    let mut out = BytesMut::new();
    assert!(server.try_encode(b"ok", &mut out));
    assert_eq!(&out[..], &[0u8, 2, b'o', b'k'][..]);
}
