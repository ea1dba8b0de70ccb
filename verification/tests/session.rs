//! The host's end of the line, and both ends together.

use chainloader::artifact::Image;
use chainloader::receive::{Extent, Receiver};
use chainloader::session::{
    boot, booted, expect, handshake, hello, percent, preflight, progress_line, scan, Action,
    PreflightError, Reply, SessionError, Upload, MAX_RETRIES, REPLY_TIMEOUT_SECS,
};
use chainloader::{
    crc32, Ack, Decoder, ErrorCode, ErrorMsg, FrameType, MsgError, Ready, PROTOCOL_VERSION,
};

const READY: Ready = Ready {
    loader_version: 1,
    max_image_len: 0x1BE0_0000,
    load_addr_min: 0x20_0000,
    load_addr_max: 0x1C00_0000,
    alignment: 0x800,
    max_chunk: 4,
};

fn image(bytes: Vec<u8>) -> Image {
    let crc = crc32(&bytes);
    Image { load_addr: 0x20_0000, entry_off: 0, bytes, crc32: crc }
}

fn ack(next_offset: u32) -> Reply {
    Reply::Frame(FrameType::Ack, Ack { next_offset }.to_bytes().to_vec())
}

fn sent(a: Action) -> Vec<u8> {
    match a {
        Action::Send(out) => out.bytes().to_vec(),
        Action::Done => panic!("done"),
        Action::Fail(e) => panic!("{}", e.to_string()),
    }
}

fn failed(a: Action) -> String {
    match a {
        Action::Fail(e) => e.to_string(),
        _ => panic!("no failure"),
    }
}

#[test]
fn preflight_faults() {
    let img = image(vec![0; 8]);
    assert_eq!(preflight(&READY, &img, 8), Ok(()));
    let small = Ready { max_image_len: 7, ..READY };
    let e = preflight(&small, &img, 8).unwrap_err();
    assert_eq!(e, PreflightError::TooLarge { len: 8, limit: 7 });
    assert_eq!(e.to_string(), "image is 8 bytes but the loader accepts at most 7");
    let odd = Image { load_addr: 0x20_0001, ..image(vec![0; 8]) };
    let e = preflight(&READY, &odd, 8).unwrap_err();
    assert_eq!(e.to_string(), "load address 0x200001 is not aligned to 0x800");
    // An alignment of zero asks for nothing.
    let loose = Ready { alignment: 0, ..READY };
    assert_eq!(preflight(&loose, &odd, 8), Ok(()));
    let low = Image { load_addr: 0x800, ..image(vec![0; 8]) };
    let e = preflight(&READY, &low, 8).unwrap_err();
    assert_eq!(
        e.to_string(),
        "image [0x800, 0x808) is outside the loader's window [0x200000, 0x1c000000)"
    );
    let high = Image { load_addr: 0xFFFF_FFFF_FFFF_F800, ..image(vec![0; 8]) };
    let e = preflight(&READY, &high, 0x1000).unwrap_err();
    assert_eq!(e, PreflightError::AddressOverflow);
}

#[test]
fn replies_are_classified() {
    assert_eq!(expect(Reply::Frame(FrameType::Ack, vec![1]), FrameType::Ack).unwrap(), vec![1]);
    let e = expect(Reply::Frame(FrameType::Boot, vec![]), FrameType::Ack).unwrap_err();
    assert_eq!(e.to_string(), "unexpected Boot frame while awaiting Ack");
    let msg = ErrorMsg::new(ErrorCode::OffsetMismatch, 0x2A).to_bytes().to_vec();
    let e = expect(Reply::Frame(FrameType::Error, msg), FrameType::Ack).unwrap_err();
    assert_eq!(
        e.to_string(),
        format!("loader reported error: {} (detail 0x2a)", ErrorCode::OffsetMismatch.to_string())
    );
    let msg = ErrorMsg { code: 999, detail: 0 }.to_bytes().to_vec();
    let e = expect(Reply::Frame(FrameType::Error, msg), FrameType::Ack).unwrap_err();
    assert_eq!(e.to_string(), "loader reported error: code 999 (detail 0x0)");
    let e = expect(Reply::Frame(FrameType::Error, vec![0; 5]), FrameType::Ack).unwrap_err();
    assert_eq!(e.to_string(), "malformed ERROR: payload truncated: need 6 bytes, got 5");
    let e = expect(Reply::Failed("line is dead".to_string()), FrameType::Ack).unwrap_err();
    assert_eq!(e.to_string(), "line is dead");
}

#[test]
fn handshake_and_boot() {
    let mut d = Decoder::new();
    let (ty, payload) = scan(&mut d, hello().bytes()).unwrap();
    assert_eq!(ty, FrameType::Hello);
    assert_eq!(payload, u32::from(PROTOCOL_VERSION).to_le_bytes());
    let reply = Reply::Frame(FrameType::Ready, READY.to_bytes().to_vec());
    assert_eq!(handshake(reply).unwrap(), READY);
    let e = handshake(Reply::Frame(FrameType::Ready, vec![0; 31])).unwrap_err();
    assert_eq!(e.to_string(), "malformed READY: payload truncated: need 32 bytes, got 31");
    assert!(handshake(ack(0)).is_err());
    assert_eq!(scan(&mut d, boot().bytes()).unwrap(), (FrameType::Boot, vec![]));
    assert!(booted(ack(0)).is_ok());
    assert!(booted(Reply::Frame(FrameType::Ready, vec![])).is_err());
}

#[test]
fn scanning_stops_at_the_first_frame() {
    let mut d = Decoder::new();
    let mut bytes = vec![0xAE, 0x50, 9, 9, 9, 9, 1, 2]; // noise that locks and fails
    bytes.extend_from_slice(hello().bytes());
    bytes.extend_from_slice(boot().bytes());
    assert_eq!(scan(&mut d, &bytes).unwrap().0, FrameType::Hello);
    // What was left unread is gone; the decoder is ready for more.
    assert!(scan(&mut d, &[]).is_none());
    assert_eq!(scan(&mut d, boot().bytes()).unwrap().0, FrameType::Boot);
}

#[test]
fn upload_in_chunks() {
    let bytes: Vec<u8> = (0u8..10).collect();
    let (mut up, first) = Upload::start(&READY, image(bytes.clone())).ok().unwrap();
    let mut d = Decoder::new();
    let (ty, payload) = scan(&mut d, first.bytes()).unwrap();
    assert_eq!(ty, FrameType::Header);
    assert_eq!(payload.len(), 24);
    let mut from = 0usize;
    let mut reply = ack(0);
    for end in [4usize, 8, 10] {
        let out = sent(up.step(reply));
        assert_eq!(up.progress(), (from, 10));
        let (ty, payload) = scan(&mut d, &out).unwrap();
        assert_eq!(ty, FrameType::Data);
        assert_eq!(payload[..4], (from as u32).to_le_bytes());
        assert_eq!(payload[4..], bytes[from..end]);
        from = end;
        reply = ack(end as u32);
    }
    assert!(!up.is_over());
    assert!(matches!(up.step(reply), Action::Done));
    assert!(up.is_over());
}

#[test]
fn upload_retries_and_gives_up() {
    let (mut up, _) = Upload::start(&READY, image(vec![7; 6])).ok().unwrap();
    let first = sent(up.step(ack(0)));
    for _ in 0..MAX_RETRIES {
        assert_eq!(sent(up.step(ack(1))), first);
    }
    assert_eq!(
        failed(up.step(ack(1))),
        "giving up on chunk ending at 4 after 5 retries: loader expected offset 1, we are at 4"
    );
    let (mut up, _) = Upload::start(&READY, image(vec![7; 6])).ok().unwrap();
    let first = sent(up.step(ack(0)));
    for _ in 0..5 {
        assert_eq!(sent(up.step(Reply::Failed("timed out".to_string()))), first);
    }
    // The sixth try succeeds, and the next chunk has six tries of its own.
    let second = sent(up.step(ack(4)));
    assert_ne!(second, first);
    for _ in 0..5 {
        assert_eq!(sent(up.step(Reply::Failed("timed out".to_string()))), second);
    }
    assert_eq!(
        failed(up.step(Reply::Failed("timed out".to_string()))),
        "giving up on chunk ending at 6 after 5 retries: timed out"
    );
    assert_eq!(REPLY_TIMEOUT_SECS, 3);
}

#[test]
fn upload_failures() {
    let (mut up, _) = Upload::start(&READY, image(vec![7; 6])).ok().unwrap();
    let refused = ErrorMsg::new(ErrorCode::AddrOverlap, 0).to_bytes().to_vec();
    let a = up.step(Reply::Frame(FrameType::Error, refused));
    assert!(matches!(a, Action::Fail(SessionError::Reported(_))));
    assert!(up.is_over());
    let (mut up, _) = Upload::start(&READY, image(vec![7; 6])).ok().unwrap();
    sent(up.step(ack(0)));
    let a = up.step(Reply::Frame(FrameType::Ack, vec![0; 3]));
    assert!(matches!(
        a,
        Action::Fail(SessionError::MalformedAck(MsgError::Truncated { expected: 4, got: 3 }))
    ));
    // Nothing to send: over as soon as the header is acknowledged.
    let (mut up, _) = Upload::start(&READY, image(vec![])).ok().unwrap();
    assert!(matches!(up.step(ack(0)), Action::Done));
    let small = Ready { max_image_len: 5, ..READY };
    let e = Upload::start(&small, image(vec![7; 6])).err().unwrap();
    assert_eq!(e.to_string(), "image is 6 bytes but the loader accepts at most 5");
}

#[test]
fn chunk_size_is_clamped() {
    let none = Ready { max_chunk: 0, ..READY };
    let (mut up, _) = Upload::start(&none, image(vec![7; 2])).ok().unwrap();
    assert_eq!(sent(up.step(ack(0))).len(), 10 + 4 + 1);
    let huge = Ready { max_chunk: 65535, ..READY };
    let (mut up, _) = Upload::start(&huge, image(vec![7; 2000])).ok().unwrap();
    assert_eq!(sent(up.step(ack(0))).len(), 10 + 4 + 1020);
}

#[test]
fn progress() {
    assert_eq!(percent(1, 3), 33);
    assert_eq!(percent(0, 0), 100);
    assert_eq!(progress_line(5, 10), "\r  transferring 5/10 bytes (50%)");
}

#[test]
fn host_and_loader_in_lockstep() {
    let bytes: Vec<u8> = (0..5000u32).map(|i| (i * 7) as u8).collect();
    let mut loader = Receiver::new(Extent { start: 0x8_0000, end: 0x9_0000 });
    let mut d = Decoder::new();
    let mut ram = vec![0u8; 5000];
    let ready = Ready { max_chunk: 1020, ..READY };
    let (mut up, first) = Upload::start(&ready, image(bytes.clone())).ok().unwrap();
    let mut out = first.bytes().to_vec();
    let mut n = 0;
    loop {
        n += 1;
        if n == 3 {
            out[20] ^= 1; // one chunk is damaged on the way
        }
        let mut back = Vec::new();
        for &b in &out {
            let step = loader.push(b);
            if let Some(w) = step.write {
                let at = (w.addr - 0x20_0000) as usize;
                ram[at..at + w.chunk.len()].copy_from_slice(w.chunk);
            }
            back.extend_from_slice(step.reply.bytes());
        }
        let (ty, payload) = scan(&mut d, &back).unwrap();
        match up.step(Reply::Frame(ty, payload)) {
            Action::Send(next) => out = next.bytes().to_vec(),
            Action::Done => break,
            Action::Fail(e) => panic!("{}", e.to_string()),
        }
    }
    assert_eq!(n, 1 + 5 + 1);
    assert_eq!(ram, bytes);
    let mut started = false;
    for &b in boot().bytes() {
        started = loader.push(b).boot.is_some();
    }
    assert!(started);
}

/// Runs a small upload; `lose` damages what the host sends or drops the reply.
fn upload_over(lose: fn(usize) -> (bool, bool)) -> std::result::Result<usize, String> {
    let mut loader = Receiver::new(Extent { start: 0x8_0000, end: 0x9_0000 });
    let mut d = Decoder::new();
    let (mut up, first) = Upload::start(&READY, image(vec![7; 6])).ok().unwrap();
    let mut out = first.bytes().to_vec();
    let mut n = 0;
    loop {
        n += 1;
        let (damage, drop_reply) = lose(n);
        if damage {
            out[8] ^= 1;
        }
        let mut back = Vec::new();
        for &b in &out {
            back.extend_from_slice(loader.push(b).reply.bytes());
        }
        let reply = if drop_reply {
            Reply::Failed("timed out".to_string())
        } else {
            let (ty, payload) = scan(&mut d, &back).unwrap();
            Reply::Frame(ty, payload)
        };
        match up.step(reply) {
            Action::Send(next) => out = next.bytes().to_vec(),
            Action::Done => return Ok(n),
            Action::Fail(e) => return Err(e.to_string()),
        }
    }
}

#[test]
fn damaged_chunks_are_sent_again() {
    assert_eq!(upload_over(|_| (false, false)), Ok(3));
    // Five times each, which is as often as a chunk is sent again.
    assert_eq!(upload_over(|n| (n > 1 && (n - 1) % 6 != 0, false)), Ok(13));
    assert!(upload_over(|n| (n > 1, false)).is_err());
    // A damaged header is not sent again.
    assert!(upload_over(|n| (n == 1, false)).is_err());
}

#[test]
fn lost_acknowledgement_ends_the_transfer() {
    // The loader has the chunk and refuses it from then on.
    let e = upload_over(|n| (false, n == 2)).unwrap_err();
    assert_eq!(
        e,
        format!(
            "giving up on chunk ending at 4 after 5 retries: loader reported error: {} (detail \
             0x4)",
            ErrorCode::OffsetMismatch.to_string()
        )
    );
}
