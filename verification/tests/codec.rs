use bytes::BytesMut;
use tunnel_proxy::protocol::{Frame, FrameCodec, Packet};

fn encoded(frame: Frame) -> BytesMut {
    let mut buf = BytesMut::new();
    FrameCodec.encode(frame, &mut buf).unwrap();
    buf
}

#[test]
fn encode_layout() {
    let buf = encoded(Frame { stream: 1, length: 3, contents: vec![7, 8, 9] });
    assert_eq!(
        &buf[..],
        &[0, 0, 0, 0, 0, 0, 0, 1, 0, 0, 0, 0, 0, 0, 0, 3, 7, 8, 9][..]
    );
}

#[test]
fn encode_appends_to_existing_bytes() {
    let mut buf = BytesMut::new();
    buf.extend_from_slice(&[42]);
    FrameCodec.encode(Frame { stream: 258, length: 0, contents: vec![] }, &mut buf).unwrap();
    assert_eq!(&buf[..], &[42, 0, 0, 0, 0, 0, 0, 1, 2, 0, 0, 0, 0, 0, 0, 0, 0][..]);
}

#[test]
fn decode_roundtrip_leaves_rest() {
    let mut buf = encoded(Frame { stream: 5, length: 2, contents: vec![1, 2] });
    buf.extend_from_slice(&[99, 98]);
    let frame = FrameCodec.decode(&mut buf).unwrap().unwrap();
    assert_eq!(frame.stream, 5);
    assert_eq!(frame.length, 2);
    assert_eq!(frame.contents, vec![1, 2]);
    assert_eq!(&buf[..], &[99, 98][..]);
}

#[test]
fn decode_two_frames_in_order() {
    let mut buf = encoded(Frame { stream: 1, length: 1, contents: vec![10] });
    buf.extend_from_slice(&encoded(Frame { stream: 2, length: 2, contents: vec![20, 21] })[..]);
    let first = FrameCodec.decode(&mut buf).unwrap().unwrap();
    let second = FrameCodec.decode(&mut buf).unwrap().unwrap();
    assert_eq!((first.stream, first.contents), (1, vec![10]));
    assert_eq!((second.stream, second.contents), (2, vec![20, 21]));
    assert!(FrameCodec.decode(&mut buf).unwrap().is_none());
    assert!(buf.is_empty());
}

#[test]
fn decode_incomplete_keeps_buffer() {
    let full = encoded(Frame { stream: 3, length: 4, contents: vec![1, 2, 3, 4] });
    for cut in [0usize, 5, 8, 15, 16, 19] {
        let mut buf = BytesMut::new();
        buf.extend_from_slice(&full[..cut]);
        assert!(FrameCodec.decode(&mut buf).unwrap().is_none());
        assert_eq!(&buf[..], &full[..cut]);
    }
}

#[test]
fn packet_through_frame() {
    let packet = Packet::RequestProxy { custom_subdomain: Some("tunnel".to_string()) };
    let bytes = packet.serialize().unwrap();
    let mut buf = encoded(Frame { stream: 0, length: bytes.len() as u64, contents: bytes });
    let frame = FrameCodec.decode(&mut buf).unwrap().unwrap();
    assert_eq!(Packet::parse(frame.contents).unwrap(), packet);
}
