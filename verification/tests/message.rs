//! Typed payloads.

use chainloader::{
    encode_frame, Ack, DataFrame, Decoded, Decoder, ErrorCode, ErrorMsg, FrameType, Hello,
    ImageHeader, MsgError, Ready, MAX_FRAME,
};

#[test]
fn documented_lengths() {
    // The layouts of the protocol.
    assert_eq!(Hello::LEN, 4);
    assert_eq!(Ready::LEN, 32);
    assert_eq!(ImageHeader::LEN, 24);
    assert_eq!(Ack::LEN, 4);
    assert_eq!(ErrorMsg::LEN, 6);
    assert_eq!(DataFrame::HEADER, 4);
}

#[test]
fn hello_round_trip() {
    let m = Hello {
        host_version: 0x0102_0304,
    };
    assert_eq!(Hello::from_bytes(&m.to_bytes()), Ok(m));
    // Explicit little-endian check.
    assert_eq!(m.to_bytes(), [0x04, 0x03, 0x02, 0x01]);
}

#[test]
fn ready_round_trip_and_reserved_is_zero() {
    let m = Ready {
        loader_version: 1,
        max_image_len: 0x0010_0000,
        load_addr_min: 0x0020_0000,
        load_addr_max: 0x3000_0000,
        alignment: 0x800,
        max_chunk: 1024,
    };
    let bytes = m.to_bytes();
    assert_eq!(&bytes[30..32], &[0, 0], "reserved field must be zero");
    assert_eq!(Ready::from_bytes(&bytes), Ok(m));
}

#[test]
fn image_header_round_trip() {
    let m = ImageHeader {
        load_addr: 0x0020_0000,
        image_len: 4096,
        image_crc32: 0xDEAD_BEEF,
        entry_off: 0,
        flags: 0,
    };
    assert_eq!(ImageHeader::from_bytes(&m.to_bytes()), Ok(m));
}

#[test]
fn ack_round_trip() {
    let m = Ack {
        next_offset: 0x1234,
    };
    assert_eq!(Ack::from_bytes(&m.to_bytes()), Ok(m));
}

#[test]
fn error_round_trip_and_known_code() {
    let m = ErrorMsg::new(ErrorCode::ImageCrc, 0xAABB_CCDD);
    assert_eq!(m.code, 11);
    assert_eq!(m.known_code(), Some(ErrorCode::ImageCrc));
    assert_eq!(ErrorMsg::from_bytes(&m.to_bytes()), Ok(m));
}

#[test]
fn unknown_error_code_still_round_trips() {
    let m = ErrorMsg {
        code: 999,
        detail: 7,
    };
    assert_eq!(m.known_code(), None);
    assert_eq!(ErrorMsg::from_bytes(&m.to_bytes()), Ok(m));
}

#[test]
fn error_code_enum_round_trips() {
    for code in [
        ErrorCode::BadVersion,
        ErrorCode::BadCrc,
        ErrorCode::BadLength,
        ErrorCode::UnknownType,
        ErrorCode::Unexpected,
        ErrorCode::AddrOutOfRange,
        ErrorCode::AddrMisaligned,
        ErrorCode::AddrOverlap,
        ErrorCode::ImageTooLarge,
        ErrorCode::OffsetMismatch,
        ErrorCode::ImageCrc,
        ErrorCode::NoImage,
    ] {
        assert_eq!(ErrorCode::from_u16(code.as_u16()), Some(code));
    }
    assert_eq!(ErrorCode::from_u16(0), None);
    assert_eq!(ErrorCode::from_u16(13), None);
}

#[test]
fn truncated_is_reported() {
    assert_eq!(
        Ready::from_bytes(&[0u8; 31]),
        Err(MsgError::Truncated {
            expected: 32,
            got: 31
        })
    );
    assert_eq!(
        DataFrame::decode(&[0u8; 3]),
        Err(MsgError::Truncated {
            expected: 4,
            got: 3
        })
    );
}

#[test]
fn data_frame_round_trip() {
    let chunk = b"a slice of the image";
    let df = DataFrame {
        offset: 0x40,
        chunk,
    };
    let mut buf = [0u8; 64];
    let n = df.encode(&mut buf).unwrap();
    assert_eq!(n, df.encoded_len());
    assert_eq!(n, 4 + chunk.len());

    let back = DataFrame::decode(&buf[..n]).unwrap();
    assert_eq!(back, df);
    assert_eq!(back.chunk, chunk);
}

#[test]
fn data_frame_encode_buffer_too_small() {
    let df = DataFrame {
        offset: 0,
        chunk: &[1, 2, 3, 4],
    };
    let mut small = [0u8; 4];
    assert_eq!(
        df.encode(&mut small),
        Err(MsgError::Truncated {
            expected: 8,
            got: 4
        })
    );
}

#[test]
fn full_stack_ready_through_frame() {
    // Encode a Ready payload into a frame, then decode it back to a struct.
    let ready = Ready {
        loader_version: 7,
        max_image_len: 0x0080_0000,
        load_addr_min: 0x0020_0000,
        load_addr_max: 0x3000_0000,
        alignment: 0x1000,
        max_chunk: 512,
    };
    let mut fbuf = [0u8; MAX_FRAME];
    let frame = encode_frame(FrameType::Ready, &ready.to_bytes(), &mut fbuf).unwrap();

    let mut dec = Decoder::new();
    let mut decoded = None;
    for &b in frame {
        if let Decoded::Frame(FrameType::Ready) = dec.push(b) {
            decoded = Some(Ready::from_bytes(dec.payload()).unwrap());
        }
    }
    assert_eq!(decoded, Some(ready));
}

#[test]
fn message_texts() {
    assert_eq!(
        MsgError::Truncated { expected: 32, got: 31 }.to_string(),
        "payload truncated: need 32 bytes, got 31"
    );
    assert_eq!(ErrorCode::NoImage.as_u16(), 12);
    assert_eq!(chainloader::version(), "0.1.0");
}

#[test]
fn bytes_on_the_wire() {
    let h = ImageHeader {
        load_addr: 0x0102_0304_0506_0708,
        image_len: 0x1112_1314,
        image_crc32: 0x2122_2324,
        entry_off: 0x3132_3334,
        flags: 0x4142_4344,
    };
    assert_eq!(
        h.to_bytes(),
        [
            8, 7, 6, 5, 4, 3, 2, 1, 0x14, 0x13, 0x12, 0x11, 0x24, 0x23, 0x22, 0x21, 0x34, 0x33,
            0x32, 0x31, 0x44, 0x43, 0x42, 0x41,
        ]
    );
    assert_eq!(ErrorMsg { code: 0x0102, detail: 3 }.to_bytes(), [2, 1, 3, 0, 0, 0]);
    // What follows a payload is ignored.
    assert_eq!(Ack::from_bytes(&[1, 0, 0, 0, 9]), Ok(Ack { next_offset: 1 }));
}
