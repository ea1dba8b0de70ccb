//! Encoding frames.

use chainloader::{
    encode_frame, frame_len, EncodeError, FrameType, HEADER_LEN, MAGIC_HI, MAGIC_LO, MAX_FRAME,
    MAX_PAYLOAD, PROTOCOL_VERSION,
};

#[test]
fn round_trip_shape() {
    let mut buf = [0u8; MAX_FRAME];
    let payload = [0xDE, 0xAD, 0xBE, 0xEF];
    let frame = encode_frame(FrameType::Data, &payload, &mut buf).unwrap();
    assert_eq!(frame.len(), frame_len(payload.len()));
    assert_eq!(frame[0], MAGIC_LO);
    assert_eq!(frame[1], MAGIC_HI);
    assert_eq!(frame[2], PROTOCOL_VERSION);
    assert_eq!(frame[3], FrameType::Data.as_u8());
    assert_eq!(
        u16::from_le_bytes([frame[4], frame[5]]),
        payload.len() as u16
    );
    assert_eq!(&frame[HEADER_LEN..HEADER_LEN + 4], &payload);
}

#[test]
fn buffer_too_small() {
    let mut buf = [0u8; 4];
    assert_eq!(
        encode_frame(FrameType::Boot, &[], &mut buf),
        Err(EncodeError::BufferTooSmall)
    );
}

#[test]
fn payload_too_large() {
    let mut buf = [0u8; MAX_FRAME + 8];
    let payload = [0u8; MAX_PAYLOAD + 1];
    assert_eq!(
        encode_frame(FrameType::Data, &payload, &mut buf),
        Err(EncodeError::PayloadTooLarge)
    );
}

#[test]
fn frame_type_byte_round_trip() {
    for ty in [
        FrameType::Hello,
        FrameType::Ready,
        FrameType::Header,
        FrameType::Data,
        FrameType::Ack,
        FrameType::Error,
        FrameType::Boot,
    ] {
        assert_eq!(FrameType::from_u8(ty.as_u8()), Some(ty));
    }
    assert_eq!(FrameType::from_u8(0x00), None);
    assert_eq!(FrameType::from_u8(0xFF), None);
}

#[test]
fn exact_frame() {
    let mut buf = [0xFFu8; 16];
    let frame = encode_frame(FrameType::Boot, &[], &mut buf).unwrap();
    let crc = chainloader::crc32(&[1, 7, 0, 0]).to_le_bytes();
    assert_eq!(frame, [0xAE, 0x50, 1, 7, 0, 0, crc[0], crc[1], crc[2], crc[3]]);
    // The rest of the buffer is untouched.
    assert_eq!(buf[10..], [0xFF; 6]);
    assert_eq!(
        EncodeError::PayloadTooLarge.to_string(),
        "payload exceeds MAX_PAYLOAD (1024 bytes)"
    );
    assert_eq!(EncodeError::BufferTooSmall.to_string(), "output buffer too small for frame");
}
