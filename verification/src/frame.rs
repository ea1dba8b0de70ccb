//! Frame layout and the one-shot encoder.
//!
//! Every message on the wire is a single frame:
//!
//! ```text
//! offset  size  field
//!   0      2    magic    = 0x50AE, little-endian (bytes 0xAE 0x50)
//!   2      1    version  = PROTOCOL_VERSION
//!   3      1    type     = FrameType
//!   4      2    length   = payload byte count, little-endian, 0..=MAX_PAYLOAD
//!   6      N    payload  = `length` bytes
//!  6+N     4    crc32    = CRC-32 over bytes [2 .. 6+N] (version..payload), little-endian
//! ```
//!
//! The magic is only a resync marker; the CRC covers everything after it, so a
//! receiver that locks onto a spurious magic still rejects the frame. All
//! multi-byte fields are little-endian, matching the AArch64 default so the
//! loader never byte-swaps.

use vstd::prelude::*;

use crate::crc;
use crate::le;

verus! {

broadcast use crate::le::group_le_len;

/// Wire magic, little-endian. Byte 0 is `0xAE`, byte 1 is `0x50`.
pub const MAGIC: u16 = 0x50AE;

/// Low byte of [`MAGIC`] — the first byte of every frame.
pub const MAGIC_LO: u8 = 0xAE;

/// High byte of [`MAGIC`] — the second byte of every frame.
pub const MAGIC_HI: u8 = 0x50;

/// Protocol version this crate speaks. Bump on any incompatible wire change.
pub const PROTOCOL_VERSION: u8 = 1;

/// Largest payload a single frame may carry, in bytes.
///
/// Sized so the loader's receive buffer is a little over 1 KiB — small enough
/// to sit comfortably in bare-metal RAM, large enough that per-frame overhead
/// is negligible against the payload.
pub const MAX_PAYLOAD: usize = 1024;

/// Bytes preceding the payload: magic(2) + version(1) + type(1) + length(2).
pub const HEADER_LEN: usize = 6;

/// Bytes following the payload: the CRC-32 trailer.
pub const TRAILER_LEN: usize = 4;

/// Largest possible complete frame, in bytes.
pub const MAX_FRAME: usize = HEADER_LEN + MAX_PAYLOAD + TRAILER_LEN;

/// Total on-wire length of a frame carrying `payload_len` payload bytes.
pub fn frame_len(payload_len: usize) -> (len: usize)
    requires
        HEADER_LEN + payload_len + TRAILER_LEN <= usize::MAX,
    ensures
        len == HEADER_LEN + payload_len + TRAILER_LEN,
{
    HEADER_LEN + payload_len + TRAILER_LEN
}

/// The kind of a frame, occupying the single `type` byte.
///
/// Direction is a convention, not enforced by the type: `Hello`, `Header`,
/// `Data`, and `Boot` travel host→Pi; `Ready`, `Ack`, and `Error` travel
/// Pi→host.
#[derive(Debug, Clone, Copy, PartialEq, Eq, Hash, Structural)]
pub enum FrameType {
    /// host→Pi: connection knock. Payload: `host_version: u32`.
    Hello,
    /// Pi→host: loader capabilities and writable window (version, max image
    /// length, load-address bounds, alignment, max chunk size).
    Ready,
    /// host→Pi: describes the image about to be sent (load address, length,
    /// image CRC-32, entry offset, flags).
    Header,
    /// host→Pi: one chunk of image bytes. Payload: `offset: u32` then chunk bytes.
    Data,
    /// Pi→host: positive acknowledgement. Payload: `next_offset: u32`.
    Ack,
    /// Pi→host: negative acknowledgement. Payload: `code: u16` then `detail: u32`.
    Error,
    /// host→Pi: hand control to the received image. No payload.
    Boot,
}

impl FrameType {
    /// The type byte of this frame type.
    pub open spec fn byte(self) -> u8 {
        match self {
            FrameType::Hello => 0x01,
            FrameType::Ready => 0x02,
            FrameType::Header => 0x03,
            FrameType::Data => 0x04,
            FrameType::Ack => 0x05,
            FrameType::Error => 0x06,
            FrameType::Boot => 0x07,
        }
    }

    /// Returns the [`FrameType`] for a raw type byte, or `None` if unrecognized.
    pub fn from_u8(value: u8) -> (ty: Option<Self>)
        ensures
            ty == type_of(value),
    {
        let ty: Option<FrameType> = match value {
            0x01 => Some(FrameType::Hello),
            0x02 => Some(FrameType::Ready),
            0x03 => Some(FrameType::Header),
            0x04 => Some(FrameType::Data),
            0x05 => Some(FrameType::Ack),
            0x06 => Some(FrameType::Error),
            0x07 => Some(FrameType::Boot),
            _ => None,
        };
        assert(ty matches Some(t) ==> t.byte() == value);
        ty
    }

    /// The raw type byte for this frame type.
    pub fn as_u8(self) -> (value: u8)
        ensures
            value == self.byte(),
    {
        match self {
            FrameType::Hello => 0x01,
            FrameType::Ready => 0x02,
            FrameType::Header => 0x03,
            FrameType::Data => 0x04,
            FrameType::Ack => 0x05,
            FrameType::Error => 0x06,
            FrameType::Boot => 0x07,
        }
    }
}

/// The frame type whose type byte is `value`, if there is one.
pub open spec fn type_of(value: u8) -> Option<FrameType> {
    if exists|t: FrameType| #[trigger] t.byte() == value {
        Some(choose|t: FrameType| #[trigger] t.byte() == value)
    } else {
        None
    }
}

/// Every frame type is recovered from its type byte, and only a byte of some
/// type is recognized.
pub proof fn lemma_type_round_trip(t: FrameType, value: u8)
    ensures
        type_of(t.byte()) == Some(t),
        type_of(value) is Some <==> 1 <= value <= 7,
        type_of(value) matches Some(u) ==> u.byte() == value,
{
    assert(exists|u: FrameType| #[trigger] u.byte() == t.byte());
    if 1 <= value <= 7 {
        assert(FrameType::Hello.byte() == 1);
        assert(FrameType::Ready.byte() == 2);
        assert(FrameType::Header.byte() == 3);
        assert(FrameType::Data.byte() == 4);
        assert(FrameType::Ack.byte() == 5);
        assert(FrameType::Error.byte() == 6);
        assert(FrameType::Boot.byte() == 7);
    }
}

/// The two magic bytes are the magic, low byte first.
pub proof fn lemma_magic_bytes()
    ensures
        le::le16(MAGIC) == seq![MAGIC_LO, MAGIC_HI],
{
    reveal(le::le16);
    assert(le::le16(MAGIC) =~= seq![MAGIC_LO, MAGIC_HI]);
}

/// Why [`encode_frame`] could not build a frame.
#[derive(Debug, Clone, Copy, PartialEq, Eq, Structural)]
pub enum EncodeError {
    /// The payload exceeded [`MAX_PAYLOAD`].
    PayloadTooLarge,
    /// The output buffer was smaller than [`frame_len`] of the payload.
    BufferTooSmall,
}

impl EncodeError {
    /// The error in words.
    pub open spec fn text(self) -> Seq<char> {
        match self {
            EncodeError::PayloadTooLarge => "payload exceeds MAX_PAYLOAD (1024 bytes)"@,
            EncodeError::BufferTooSmall => "output buffer too small for frame"@,
        }
    }

    /// The error in words.
    pub fn to_string(&self) -> (text: String)
        ensures
            text@ == self.text(),
    {
        match self {
            EncodeError::PayloadTooLarge => "payload exceeds MAX_PAYLOAD (1024 bytes)".to_owned(),
            EncodeError::BufferTooSmall => "output buffer too small for frame".to_owned(),
        }
    }
}

/// The four CRC-covered header bytes: version, type, length.
pub open spec fn fixed_bytes(ty: FrameType, len: nat) -> Seq<u8> {
    seq![PROTOCOL_VERSION, ty.byte()] + le::le16(len as u16)
}

/// The CRC-covered bytes of a frame: version, type, length, payload.
pub open spec fn body_bytes(ty: FrameType, payload: Seq<u8>) -> Seq<u8> {
    fixed_bytes(ty, payload.len()) + payload
}

/// A whole frame as it stands on the wire.
pub open spec fn frame_bytes(ty: FrameType, payload: Seq<u8>) -> Seq<u8> {
    seq![MAGIC_LO, MAGIC_HI] + body_bytes(ty, payload) + le::le32(
        crc::crc32_of(body_bytes(ty, payload)),
    )
}

/// Encodes one frame into `out`, returning the exact bytes written.
///
/// `out` must be at least [`frame_len(payload.len())`](frame_len) bytes;
/// [`MAX_FRAME`] always suffices. No allocation occurs.
///
/// # Errors
///
/// Returns [`EncodeError::PayloadTooLarge`] if `payload` exceeds
/// [`MAX_PAYLOAD`], or [`EncodeError::BufferTooSmall`] if `out` cannot hold the
/// frame.
#[verifier::rlimit(30)]
pub fn encode_frame<'a>(ty: FrameType, payload: &[u8], out: &'a mut [u8]) -> (frame: Result<
    &'a [u8],
    EncodeError,
>)
    ensures
        match frame {
            Ok(bytes) => {
                &&& payload@.len() <= MAX_PAYLOAD
                &&& HEADER_LEN + payload@.len() + TRAILER_LEN <= old(out)@.len()
                &&& bytes@ == frame_bytes(ty, payload@)
                &&& final(out)@ == le::splice(old(out)@, 0, frame_bytes(ty, payload@))
            },
            Err(EncodeError::PayloadTooLarge) => {
                &&& payload@.len() > MAX_PAYLOAD
                &&& final(out)@ == old(out)@
            },
            Err(EncodeError::BufferTooSmall) => {
                &&& payload@.len() <= MAX_PAYLOAD
                &&& HEADER_LEN + payload@.len() + TRAILER_LEN > old(out)@.len()
                &&& final(out)@ == old(out)@
            },
        },
        encoded(ty, payload@, old(out)@.len()) == match frame {
            Ok(bytes) => Ok::<Seq<u8>, EncodeError>(bytes@),
            Err(e) => Err(e),
        },
{
    if payload.len() > MAX_PAYLOAD {
        return Err(EncodeError::PayloadTooLarge);
    }
    let total: usize = frame_len(payload.len());
    if out.len() < total {
        return Err(EncodeError::BufferTooSmall);
    }
    let ghost before = out@;
    out[0] = MAGIC_LO;
    out[1] = MAGIC_HI;
    out[2] = PROTOCOL_VERSION;
    out[3] = ty.as_u8();
    let len: [u8; 2] = le::u16_to_le(payload.len() as u16);
    out[4] = len[0];
    out[5] = len[1];
    let body_end: usize = HEADER_LEN + payload.len();
    le::put(out, HEADER_LEN, payload);
    // CRC covers version..payload, i.e. everything after the magic.
    assert(out@.subrange(2, body_end as int) =~= body_bytes(ty, payload@));
    let crc: [u8; 4] = le::u32_to_le(crc::crc32(&out[2..body_end]));
    le::put(out, body_end, &crc);
    assert(out@.subrange(0, total as int) =~= frame_bytes(ty, payload@));
    assert(out@ =~= le::splice(before, 0, frame_bytes(ty, payload@)));
    Ok(&out[0..total])
}

/// A frame byte by byte: the magic, the version, the type, the length of the
/// payload in two bytes, the payload, and the checksum of all that lies between
/// magic and checksum in four.
pub proof fn lemma_frame_layout(ty: FrameType, payload: Seq<u8>, i: int)
    requires
        payload.len() <= 1024,
        0 <= i < payload.len() || payload.len() == 0,
    ensures
        ({
            let f = frame_bytes(ty, payload);
            let n = payload.len() as int;
            &&& f.len() == 10 + n
            &&& f[0] == 0xAE
            &&& f[1] == 0x50
            &&& f[2] == 1
            &&& f[3] == ty.byte()
            &&& le::u16_at(f, 4) == n
            &&& payload.len() > 0 ==> f[6 + i] == payload[i]
            &&& le::u32_at(f, 6 + n) == crc::crc32_of(f.subrange(2, 6 + n))
        }),
{
    broadcast use crate::le::group_le_len;

    let f = frame_bytes(ty, payload);
    let n = payload.len() as int;
    let c = crc::crc32_of(body_bytes(ty, payload));
    assert(f.subrange(4, 6) =~= le::le16(n as u16));
    le::lemma_u16_placed(f, 4, n as u16);
    assert(f.subrange(6 + n, 10 + n) =~= le::le32(c));
    le::lemma_u32_placed(f, 6 + n, c);
    assert(f.subrange(2, 6 + n) =~= body_bytes(ty, payload));
}

/// The byte of each frame type.
pub proof fn lemma_type_bytes()
    ensures
        type_of(1) == Some(FrameType::Hello),
        type_of(2) == Some(FrameType::Ready),
        type_of(3) == Some(FrameType::Header),
        type_of(4) == Some(FrameType::Data),
        type_of(5) == Some(FrameType::Ack),
        type_of(6) == Some(FrameType::Error),
        type_of(7) == Some(FrameType::Boot),
{
    lemma_type_round_trip(FrameType::Hello, 1);
    lemma_type_round_trip(FrameType::Ready, 2);
    lemma_type_round_trip(FrameType::Header, 3);
    lemma_type_round_trip(FrameType::Data, 4);
    lemma_type_round_trip(FrameType::Ack, 5);
    lemma_type_round_trip(FrameType::Error, 6);
    lemma_type_round_trip(FrameType::Boot, 7);
}

/// The frame that fits in `room` bytes, or why there is none.
pub open spec fn encoded(ty: FrameType, payload: Seq<u8>, room: nat) -> Result<
    Seq<u8>,
    EncodeError,
> {
    if payload.len() > MAX_PAYLOAD {
        Err(EncodeError::PayloadTooLarge)
    } else if HEADER_LEN + payload.len() + TRAILER_LEN > room {
        Err(EncodeError::BufferTooSmall)
    } else {
        Ok(frame_bytes(ty, payload))
    }
}

/// A payload of at most 1024 bytes encodes wherever there are ten bytes more than
/// it has, of any type, and a larger one nowhere.
pub proof fn lemma_encodes(ty: FrameType, payload: Seq<u8>, room: nat)
    ensures
        encoded(ty, payload, room) is Ok <==> payload.len() <= 1024 && payload.len() + 10 <= room,
        encoded(ty, payload, room) is Ok ==> encoded(ty, payload, room)->Ok_0 == frame_bytes(
            ty,
            payload,
        ),
        encoded(ty, payload, room) == Err::<Seq<u8>, EncodeError>(EncodeError::PayloadTooLarge)
            <==> payload.len() > 1024,
        encoded(ty, payload, room) == Err::<Seq<u8>, EncodeError>(EncodeError::BufferTooSmall)
            <==> payload.len() <= 1024 && room < payload.len() + 10,
{
}

} // verus!
