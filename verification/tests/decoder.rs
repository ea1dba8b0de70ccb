//! The streaming decoder.

use chainloader::{
    encode_frame, frame_len, DecodeError, Decoded, Decoder, FrameType, HEADER_LEN, MAGIC_HI,
    MAGIC_LO, MAX_FRAME, MAX_PAYLOAD, PROTOCOL_VERSION,
};

/// Feeds every byte and returns the (type, payload) of each completed frame
/// and every error, in order.
fn run(bytes: &[u8]) -> (Vec<(FrameType, Vec<u8>)>, Vec<DecodeError>) {
    let mut dec = Decoder::new();
    let mut frames = Vec::new();
    let mut errors = Vec::new();
    for &b in bytes {
        match dec.push(b) {
            Decoded::Pending => {}
            Decoded::Frame(ty) => frames.push((ty, dec.payload().to_vec())),
            Decoded::Error(e) => errors.push(e),
        }
    }
    (frames, errors)
}

fn encode(ty: FrameType, payload: &[u8]) -> Vec<u8> {
    let mut buf = [0u8; MAX_FRAME];
    encode_frame(ty, payload, &mut buf).unwrap().to_vec()
}

#[test]
fn round_trip_every_frame_type() {
    for (ty, payload) in [
        (FrameType::Hello, &b"\x01\x00\x00\x00"[..]),
        (FrameType::Ready, &b""[..]),
        (FrameType::Data, &b"the quick brown fox"[..]),
        (FrameType::Boot, &b""[..]),
    ] {
        let (frames, errors) = run(&encode(ty, payload));
        assert!(errors.is_empty(), "{ty:?} produced errors: {errors:?}");
        assert_eq!(frames, vec![(ty, payload.to_vec())]);
    }
}

#[test]
fn max_payload_round_trips() {
    let payload = [0xA5u8; MAX_PAYLOAD];
    let (frames, errors) = run(&encode(FrameType::Data, &payload));
    assert!(errors.is_empty());
    assert_eq!(frames, vec![(FrameType::Data, payload.to_vec())]);
}

#[test]
fn two_frames_back_to_back() {
    let mut stream = encode(FrameType::Hello, b"\x01\x00\x00\x00");
    stream.extend_from_slice(&encode(FrameType::Data, b"payload"));
    let (frames, errors) = run(&stream);
    assert!(errors.is_empty());
    assert_eq!(
        frames,
        vec![
            (FrameType::Hello, b"\x01\x00\x00\x00".to_vec()),
            (FrameType::Data, b"payload".to_vec()),
        ]
    );
}

#[test]
fn leading_garbage_is_skipped() {
    // Random bytes that are not a valid frame precede a good one.
    let mut stream = vec![0x00, 0xFF, 0xAE, 0x11, 0x50, 0x42, 0xAE, 0xAE];
    stream.extend_from_slice(&encode(FrameType::Data, b"after noise"));
    let (frames, _errors) = run(&stream);
    assert_eq!(frames, vec![(FrameType::Data, b"after noise".to_vec())]);
}

#[test]
fn corrupted_payload_fails_crc_then_recovers() {
    let mut frame = encode(FrameType::Data, b"important");
    let payload_start = HEADER_LEN;
    frame[payload_start] ^= 0xFF; // flip a payload byte
    let mut stream = frame;
    stream.extend_from_slice(&encode(FrameType::Data, b"resent"));

    let (frames, errors) = run(&stream);
    assert_eq!(errors.len(), 1);
    assert!(matches!(errors[0], DecodeError::BadCrc { .. }));
    // The decoder resynced and decoded the following good frame.
    assert_eq!(frames, vec![(FrameType::Data, b"resent".to_vec())]);
}

#[test]
fn bad_version_is_rejected() {
    let mut frame = encode(FrameType::Boot, b"");
    frame[2] = PROTOCOL_VERSION.wrapping_add(1); // version byte
    let (frames, errors) = run(&frame);
    assert!(frames.is_empty());
    assert_eq!(errors, vec![DecodeError::BadVersion(PROTOCOL_VERSION + 1)]);
}

#[test]
fn unknown_type_is_rejected() {
    let mut frame = encode(FrameType::Boot, b"");
    frame[3] = 0x7F; // type byte, not a known FrameType
    let (frames, errors) = run(&frame);
    assert!(frames.is_empty());
    assert_eq!(errors, vec![DecodeError::UnknownType(0x7F)]);
}

#[test]
fn oversize_length_is_rejected() {
    // Hand-build a header claiming a payload larger than MAX_PAYLOAD.
    let bad_len = (MAX_PAYLOAD + 1) as u16;
    let header = [
        MAGIC_LO,
        MAGIC_HI,
        PROTOCOL_VERSION,
        FrameType::Data.as_u8(),
        (bad_len & 0xff) as u8,
        (bad_len >> 8) as u8,
    ];
    let (frames, errors) = run(&header);
    assert!(frames.is_empty());
    assert_eq!(errors, vec![DecodeError::LengthTooLarge(bad_len)]);
}

#[test]
fn split_across_pushes_is_fine() {
    // Feeding one byte at a time is already what run() does; assert the
    // frame only appears on the final byte, never early.
    let frame = encode(FrameType::Data, b"x");
    let mut dec = Decoder::new();
    for &b in &frame[..frame.len() - 1] {
        assert_eq!(dec.push(b), Decoded::Pending);
    }
    assert_eq!(
        dec.push(*frame.last().unwrap()),
        Decoded::Frame(FrameType::Data)
    );
    assert_eq!(dec.payload(), b"x");
}

#[test]
fn never_panics_on_arbitrary_bytes() {
    // A cheap stand-in for fuzzing: a pseudo-random stream must never panic
    // and must leave the decoder usable for a real frame afterwards.
    let mut state = 0x1234_5678u32;
    let mut noise = Vec::new();
    for _ in 0..10_000 {
        state = state.wrapping_mul(1_664_525).wrapping_add(1_013_904_223);
        noise.push((state >> 24) as u8);
    }
    let (_f, _e) = run(&noise); // must not panic

    let mut stream = noise;
    stream.extend_from_slice(&encode(FrameType::Data, b"still works"));
    let (frames, _errors) = run(&stream);
    assert!(frames.contains(&(FrameType::Data, b"still works".to_vec())));
}

#[test]
fn frame_len_matches_encoded() {
    assert_eq!(encode(FrameType::Data, b"abcd").len(), frame_len(4));
}

#[test]
fn changed_byte_is_always_caught() {
    let good = encode(FrameType::Data, b"payload");
    for at in HEADER_LEN..HEADER_LEN + 7 {
        for flip in 1..=255u8 {
            let mut bad = good.clone();
            bad[at] ^= flip;
            let (frames, errors) = run(&bad);
            assert!(frames.is_empty());
            assert_eq!(errors.len(), 1);
        }
    }
}

#[test]
fn quiet_line_resyncs_the_decoder() {
    // A header that announces a long frame, then nothing of it.
    let mut stream = encode(FrameType::Data, &[1; MAX_PAYLOAD])[..20].to_vec();
    stream.extend(vec![0u8; MAX_FRAME]);
    stream.extend(encode(FrameType::Boot, b""));
    let (frames, errors) = run(&stream);
    assert_eq!(errors.len(), 1);
    assert_eq!(frames, vec![(FrameType::Boot, vec![])]);
}

#[test]
fn reset_drops_a_partial_frame() {
    let frame = encode(FrameType::Data, b"abc");
    let mut dec = Decoder::new();
    for &b in &frame[..9] {
        assert_eq!(dec.push(b), Decoded::Pending);
    }
    dec.reset();
    for &b in &frame[..frame.len() - 1] {
        assert_eq!(dec.push(b), Decoded::Pending);
    }
    assert_eq!(dec.push(frame[frame.len() - 1]), Decoded::Frame(FrameType::Data));
    assert_eq!(dec.payload(), b"abc");
}

#[test]
fn decode_error_texts() {
    assert_eq!(
        DecodeError::BadVersion(2).to_string(),
        "unsupported protocol version 2 (expected 1)"
    );
    assert_eq!(DecodeError::UnknownType(0x7F).to_string(), "unknown frame type 0x7f");
    assert_eq!(
        DecodeError::LengthTooLarge(1025).to_string(),
        "frame length 1025 exceeds MAX_PAYLOAD (1024)"
    );
    assert_eq!(
        DecodeError::BadCrc { found: 0xAB, expected: 0x1234_5678 }.to_string(),
        "frame CRC 0x000000ab does not match computed 0x12345678"
    );
}
