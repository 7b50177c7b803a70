use dashboard::frame::{encode_frame, FrameBuffer, FrameError, HEADER_LEN, MAX_FRAME_LEN};

fn parse_all(bytes: &[u8]) -> (FrameBuffer, Result<Option<dashboard::frame::Frame>, FrameError>) {
    let mut buf = FrameBuffer::new();
    buf.extend(bytes);
    let r = buf.try_parse();
    (buf, r)
}

#[test]
fn frame_round_trip() {
    let payload = vec![1u8, 2, 3, 250, 0];
    let bytes = encode_frame(0x1234, &payload).unwrap();
    assert_eq!(bytes[..HEADER_LEN], [0x12, 0x34, 0x00, 0x05]);
    let (buf, r) = parse_all(&bytes);
    let frame = r.unwrap().unwrap();
    assert_eq!(frame.id, 0x1234);
    assert_eq!(frame.payload, payload);
    assert_eq!(buf.len(), 0);
}

#[test]
fn frame_round_trip_empty_and_largest() {
    for len in [0usize, 1, 255, 256, MAX_FRAME_LEN] {
        let payload: Vec<u8> = (0..len).map(|i| (i % 251) as u8).collect();
        let bytes = encode_frame(65535, &payload).unwrap();
        assert_eq!(bytes.len(), HEADER_LEN + len);
        let (_, r) = parse_all(&bytes);
        let frame = r.unwrap().unwrap();
        assert_eq!(frame.id, 65535);
        assert_eq!(frame.payload, payload);
    }
}

#[test]
fn encode_oversize_fails() {
    let payload = vec![0u8; MAX_FRAME_LEN + 1];
    assert_eq!(encode_frame(1, &payload).err(), Some(FrameError::Oversize(8193)));
}

#[test]
fn oversize_header_rejected() {
    // 9000 = 0x2328
    let (buf, r) = parse_all(&[0, 1, 0x23, 0x28, 9, 9, 9]);
    assert_eq!(r.err(), Some(FrameError::Oversize(9000)));
    assert_eq!(buf.len(), 7);
}

#[test]
fn partial_frames_need_more() {
    let bytes = encode_frame(3, &[7, 8, 9]).unwrap();
    let mut buf = FrameBuffer::new();
    buf.extend(&bytes[..2]);
    assert!(matches!(buf.try_parse(), Ok(None)));
    buf.extend(&bytes[2..5]);
    assert!(matches!(buf.try_parse(), Ok(None)));
    assert_eq!(buf.len(), 5);
    buf.extend(&bytes[5..]);
    let frame = buf.try_parse().unwrap().unwrap();
    assert_eq!(frame.payload, vec![7, 8, 9]);
}

#[test]
fn back_to_back_frames() {
    let mut bytes = encode_frame(1, b"ab").unwrap();
    bytes.extend(encode_frame(2, b"").unwrap());
    bytes.extend(encode_frame(3, b"xyz").unwrap());
    let mut buf = FrameBuffer::new();
    buf.extend(&bytes);
    let ids: Vec<u16> = (0..3).map(|_| buf.try_parse().unwrap().unwrap().id).collect();
    assert_eq!(ids, vec![1, 2, 3]);
    assert!(matches!(buf.try_parse(), Ok(None)));
    assert_eq!(buf.end_of_stream(), Ok(()));
}

#[test]
fn stream_end_mid_frame_is_reset() {
    let bytes = encode_frame(1, b"abc").unwrap();
    let mut buf = FrameBuffer::new();
    buf.extend(&bytes[..5]);
    assert!(matches!(buf.try_parse(), Ok(None)));
    assert_eq!(buf.end_of_stream(), Err(FrameError::PeerReset));
    assert_eq!(FrameBuffer::new().end_of_stream(), Ok(()));
}
