//! The loader's end of the line.

use chainloader::outgoing::{send_frame, write_frame};
use chainloader::receive::{
    decode_error_code, decode_error_detail, run, send_ack, send_error, send_ready, validate_header,
    BootInfo, Extent, Receiver, LOADER_VERSION, MAX_CHUNK, MAX_IMAGE_LEN, REQUIRED_ALIGN,
    WINDOW_MAX, WINDOW_MIN,
};
use chainloader::{
    crc32, Ack, DataFrame, DecodeError, Decoded, Decoder, EncodeError, ErrorCode, ErrorMsg,
    FrameType, Hello, ImageHeader, Ready, MAX_PAYLOAD,
};

const LOADER: Extent = Extent { start: 0x8_0000, end: 0x9_0000 };

fn header(image: &[u8]) -> ImageHeader {
    ImageHeader {
        load_addr: 0x20_0000,
        image_len: image.len() as u32,
        image_crc32: crc32(image),
        entry_off: 4,
        flags: 0,
    }
}

fn frame(ty: FrameType, payload: &[u8]) -> Vec<u8> {
    send_frame(ty, payload).bytes().to_vec()
}

fn data(offset: u32, chunk: &[u8]) -> Vec<u8> {
    let mut payload = vec![0u8; 4 + chunk.len()];
    DataFrame { offset, chunk }.encode(&mut payload).unwrap();
    frame(FrameType::Data, &payload)
}

/// Takes a stream of replies apart.
fn replies(bytes: &[u8]) -> Vec<(FrameType, Vec<u8>)> {
    let mut d = Decoder::new();
    let mut out = Vec::new();
    for &b in bytes {
        match d.push(b) {
            Decoded::Frame(ty) => out.push((ty, d.payload().to_vec())),
            Decoded::Error(e) => panic!("{e:?}"),
            Decoded::Pending => {}
        }
    }
    out
}

fn ack(next_offset: u32) -> (FrameType, Vec<u8>) {
    (FrameType::Ack, Ack { next_offset }.to_bytes().to_vec())
}

fn error(code: ErrorCode, detail: u32) -> (FrameType, Vec<u8>) {
    (FrameType::Error, ErrorMsg::new(code, detail).to_bytes().to_vec())
}

fn ready() -> (FrameType, Vec<u8>) {
    let r = Ready {
        loader_version: 1,
        max_image_len: 0x1BE0_0000,
        load_addr_min: 0x20_0000,
        load_addr_max: 0x1C00_0000,
        alignment: 0x800,
        max_chunk: 1020,
    };
    (FrameType::Ready, r.to_bytes().to_vec())
}

#[test]
fn advertised_limits() {
    assert_eq!(u64::from(MAX_IMAGE_LEN), WINDOW_MAX - WINDOW_MIN);
    assert_eq!(usize::from(MAX_CHUNK), MAX_PAYLOAD - DataFrame::HEADER);
    assert_eq!(REQUIRED_ALIGN, 0x800);
    assert_eq!(LOADER_VERSION, 1);
    assert_eq!(replies(send_ready().bytes()), vec![ready()]);
    assert_eq!(replies(send_ack(7).bytes()), vec![ack(7)]);
    assert_eq!(
        replies(send_error(ErrorCode::ImageCrc, 9).bytes()),
        vec![error(ErrorCode::ImageCrc, 9)]
    );
}

#[test]
fn oversize_frame_is_dropped() {
    let payload = vec![0u8; MAX_PAYLOAD + 1];
    assert!(send_frame(FrameType::Data, &payload).bytes().is_empty());
    assert!(matches!(
        write_frame(FrameType::Data, &payload),
        Err(EncodeError::PayloadTooLarge)
    ));
    assert!(write_frame(FrameType::Data, &payload[1..]).is_ok());
}

#[test]
fn header_faults() {
    let good = header(&[1, 2, 3, 4, 5]);
    assert_eq!(validate_header(&good, LOADER), Ok(()));
    let v = |h: ImageHeader| validate_header(&h, LOADER);
    assert_eq!(v(ImageHeader { image_len: 0, ..good }), Err(ErrorCode::BadLength));
    assert_eq!(
        v(ImageHeader { image_len: MAX_IMAGE_LEN + 1, ..good }),
        Err(ErrorCode::ImageTooLarge)
    );
    assert_eq!(v(ImageHeader { load_addr: 0x20_0400, ..good }), Err(ErrorCode::AddrMisaligned));
    assert_eq!(v(ImageHeader { load_addr: 0x1F_F800, ..good }), Err(ErrorCode::AddrOutOfRange));
    assert_eq!(v(ImageHeader { load_addr: 0x1C00_0000, ..good }), Err(ErrorCode::AddrOutOfRange));
    assert_eq!(
        v(ImageHeader { load_addr: 0xFFFF_FFFF_FFFF_F800, image_len: 0x1000, ..good }),
        Err(ErrorCode::AddrOutOfRange)
    );
    assert_eq!(v(ImageHeader { entry_off: 5, ..good }), Err(ErrorCode::AddrOutOfRange));
    let inside = Extent { start: 0x20_0004, end: 0x20_0008 };
    assert_eq!(validate_header(&good, inside), Err(ErrorCode::AddrOverlap));
    let behind = Extent { start: 0x20_0005, end: 0x20_0008 };
    assert_eq!(validate_header(&good, behind), Ok(()));
    // The whole window is accepted.
    let whole = ImageHeader { image_len: MAX_IMAGE_LEN, ..good };
    assert_eq!(v(whole), Ok(()));
}

#[test]
fn decode_failures_on_the_wire() {
    assert_eq!(decode_error_code(DecodeError::BadVersion(2)), ErrorCode::BadVersion);
    assert_eq!(decode_error_detail(DecodeError::BadVersion(2)), 1);
    assert_eq!(decode_error_detail(DecodeError::BadVersion(0)), 0);
    assert_eq!(decode_error_code(DecodeError::UnknownType(9)), ErrorCode::UnknownType);
    assert_eq!(decode_error_code(DecodeError::LengthTooLarge(1025)), ErrorCode::BadLength);
    let crc = DecodeError::BadCrc { found: 1, expected: 2 };
    assert_eq!(decode_error_code(crc), ErrorCode::BadCrc);
    assert_eq!(decode_error_detail(crc), 0);
}

#[test]
fn upload_boots_the_image() {
    let image: Vec<u8> = (0u8..10).collect();
    let mut line = frame(FrameType::Hello, &Hello { host_version: 1 }.to_bytes());
    line.extend(frame(FrameType::Header, &header(&image).to_bytes()));
    line.extend(data(0, &image[..4]));
    line.extend(data(4, &image[4..8]));
    line.extend(data(8, &image[8..]));
    line.extend(frame(FrameType::Boot, &[]));
    line.extend(frame(FrameType::Hello, &[])); // never looked at
    let served = run(LOADER, &line);
    assert_eq!(
        replies(&served.sent),
        vec![ready(), ready(), ack(0), ack(4), ack(8), ack(10), ack(10)]
    );
    assert_eq!(
        served.written,
        vec![
            (0x20_0000, image[..4].to_vec()),
            (0x20_0004, image[4..8].to_vec()),
            (0x20_0008, image[8..].to_vec()),
        ]
    );
    assert_eq!(
        served.boot,
        Some(BootInfo { entry: 0x20_0004, load_addr: 0x20_0000, image_len: 10 })
    );
}

#[test]
fn refused_requests() {
    let image: Vec<u8> = (0u8..10).collect();
    let mut line = data(0, &image);
    line.extend(frame(FrameType::Boot, &[]));
    line.extend(frame(FrameType::Header, &[0; 23]));
    let odd = ImageHeader { load_addr: 0x20_0001, ..header(&image) };
    line.extend(frame(FrameType::Header, &odd.to_bytes()));
    line.extend(frame(FrameType::Ready, &[]));
    line.extend(frame(FrameType::Ack, &[]));
    line.extend(frame(FrameType::Error, &[]));
    let served = run(LOADER, &line);
    assert_eq!(
        replies(&served.sent),
        vec![
            ready(),
            error(ErrorCode::Unexpected, 0),
            error(ErrorCode::NoImage, 0),
            error(ErrorCode::BadLength, 0),
            error(ErrorCode::AddrMisaligned, 0),
            error(ErrorCode::Unexpected, 0),
            error(ErrorCode::Unexpected, 0),
            error(ErrorCode::Unexpected, 0),
        ]
    );
    assert!(served.written.is_empty());
    assert!(served.boot.is_none());
}

#[test]
fn data_faults_keep_the_transfer() {
    let image: Vec<u8> = (0u8..10).collect();
    let mut line = frame(FrameType::Header, &header(&image).to_bytes());
    line.extend(data(0, &image[..4]));
    line.extend(data(0, &image[..4])); // sent again
    line.extend(frame(FrameType::Data, &[0; 3])); // too short
    line.extend(data(4, &[0; 7])); // past the end
    line.extend(frame(FrameType::Boot, &[])); // not complete
    let mut bad = data(4, &image[4..]);
    bad[12] ^= 0x10;
    line.extend(bad); // damaged
    line.extend(data(4, &image[4..]));
    line.extend(data(10, &[])); // nothing more to say
    line.extend(frame(FrameType::Boot, &[]));
    let served = run(LOADER, &line);
    assert_eq!(
        replies(&served.sent),
        vec![
            ready(),
            ack(0),
            ack(4),
            error(ErrorCode::OffsetMismatch, 4),
            error(ErrorCode::BadLength, 0),
            error(ErrorCode::BadLength, 4),
            error(ErrorCode::NoImage, 0),
            error(ErrorCode::BadCrc, 0),
            ack(10),
            ack(10),
            ack(10),
        ]
    );
    assert!(served.boot.is_some());
}

#[test]
fn wrong_image_crc_ends_the_transfer() {
    let image: Vec<u8> = (0u8..10).collect();
    let wrong = ImageHeader { image_crc32: 1, ..header(&image) };
    let mut line = frame(FrameType::Header, &wrong.to_bytes());
    line.extend(data(0, &image));
    line.extend(frame(FrameType::Boot, &[]));
    line.extend(data(0, &image));
    let served = run(LOADER, &line);
    assert_eq!(
        replies(&served.sent),
        vec![
            ready(),
            ack(0),
            error(ErrorCode::ImageCrc, crc32(&image)),
            error(ErrorCode::NoImage, 0),
            error(ErrorCode::Unexpected, 0),
        ]
    );
    assert_eq!(served.written.len(), 1);
}

#[test]
fn hello_abandons_a_transfer() {
    let image: Vec<u8> = (0u8..10).collect();
    let mut line = frame(FrameType::Header, &header(&image).to_bytes());
    line.extend(data(0, &image[..4]));
    line.extend(frame(FrameType::Hello, &Hello { host_version: 1 }.to_bytes()));
    line.extend(data(4, &image[4..]));
    let served = run(LOADER, &line);
    assert_eq!(
        replies(&served.sent),
        vec![ready(), ack(0), ack(4), ready(), error(ErrorCode::Unexpected, 0)]
    );
}

#[test]
fn later_version_is_told_the_supported_one() {
    let mut line = frame(FrameType::Hello, &[]);
    line[2] = 2;
    let served = run(LOADER, &line);
    assert_eq!(replies(&served.sent), vec![ready(), error(ErrorCode::BadVersion, 1)]);
}

#[test]
fn byte_by_byte() {
    let mut r = Receiver::new(LOADER);
    let line = frame(FrameType::Boot, &[]);
    for &b in &line[..line.len() - 1] {
        let step = r.push(b);
        assert!(step.reply.bytes().is_empty());
        assert!(step.write.is_none());
        assert!(step.boot.is_none());
    }
    let step = r.push(line[line.len() - 1]);
    assert_eq!(replies(step.reply.bytes()), vec![error(ErrorCode::NoImage, 0)]);
}
