//! Typed payload structs for each frame type.
//!
//! [`frame`](crate::frame) moves opaque payload bytes; this module gives those
//! bytes names and a single definition of their little-endian layout, so the
//! loader and host cannot drift apart.
//!
//! Fixed-size payloads expose a `LEN`, a `to_bytes(&self) -> [u8; LEN]`, and a
//! `from_bytes(&[u8]) -> Result<Self, MsgError>`. In the model each of them has
//! its bytes on the wire ([`Ready::wire`]) and the value that a buffer holds
//! ([`Ready::read`]); the laws at the end say that the two undo each other. The
//! variable-size `DATA` payload is the borrowing [`DataFrame`] view instead.
//! Nothing here allocates.

use vstd::prelude::*;
use vstd::string::*;

use crate::le;
use crate::text;

verus! {

broadcast use crate::le::group_le_len;

/// Why a payload could not be decoded (or encoded into too small a buffer).
#[derive(Debug, Clone, Copy, PartialEq, Eq, Structural)]
pub enum MsgError {
    /// Fewer bytes than the payload's fixed layout requires.
    Truncated {
        /// Minimum bytes the layout needs.
        expected: usize,
        /// Bytes actually provided.
        got: usize,
    },
}

impl MsgError {
    /// The error in words.
    pub open spec fn text(self) -> Seq<char> {
        match self {
            MsgError::Truncated { expected, got } => "payload truncated: need "@ + text::decimal(
                expected as nat,
            ) + " bytes, got "@ + text::decimal(got as nat),
        }
    }

    /// The error in words.
    pub fn to_string(&self) -> (text: String)
        ensures
            text@ == self.text(),
    {
        match self {
            MsgError::Truncated { expected, got } => {
                let mut out: String = "payload truncated: need ".to_owned();
                text::push_decimal(&mut out, *expected as u64);
                out.append(" bytes, got ");
                text::push_decimal(&mut out, *got as u64);
                out
            },
        }
    }
}

/// Checks that `len` bytes are at least `need`.
fn require(len: usize, need: usize) -> (r: Result<(), MsgError>)
    ensures
        r == if len < need {
            Err::<(), MsgError>(MsgError::Truncated { expected: need, got: len })
        } else {
            Ok(())
        },
{
    if len < need {
        Err(MsgError::Truncated { expected: need, got: len })
    } else {
        Ok(())
    }
}

/// `HELLO` payload (host→Pi): the host's protocol knock.
#[derive(Debug, Clone, Copy, PartialEq, Eq, Structural)]
pub struct Hello {
    /// Protocol version the host speaks.
    pub host_version: u32,
}

impl Hello {
    /// Encoded length in bytes.
    pub const LEN: usize = 4;

    /// The payload bytes.
    pub open spec fn wire(self) -> Seq<u8> {
        le::le32(self.host_version)
    }

    /// The value at the start of `b`.
    pub open spec fn read(b: Seq<u8>) -> Hello {
        Hello { host_version: le::u32_at(b, 0) }
    }

    /// What a payload parses to.
    pub open spec fn parsed(b: Seq<u8>) -> Result<Hello, MsgError> {
        if b.len() < Hello::LEN {
            Err(MsgError::Truncated { expected: Hello::LEN, got: b.len() as usize })
        } else {
            Ok(Hello::read(b))
        }
    }

    /// Serializes to its fixed little-endian byte layout.
    pub fn to_bytes(&self) -> (bytes: [u8; 4])
        ensures
            bytes@ == self.wire(),
    {
        le::u32_to_le(self.host_version)
    }

    /// Parses from at least [`LEN`](Self::LEN) bytes; extra trailing bytes are ignored.
    ///
    /// # Errors
    ///
    /// [`MsgError::Truncated`] if fewer than [`LEN`](Self::LEN) bytes are given.
    pub fn from_bytes(bytes: &[u8]) -> (r: Result<Self, MsgError>)
        ensures
            r == if bytes@.len() < Hello::LEN {
                Err::<Hello, MsgError>(
                    MsgError::Truncated { expected: Hello::LEN, got: bytes.len() },
                )
            } else {
                Ok(Hello::read(bytes@))
            },
            r == Hello::parsed(bytes@),
    {
        match require(bytes.len(), Self::LEN) {
            Ok(()) => Ok(Hello { host_version: le::rd_u32(bytes, 0) }),
            Err(e) => Err(e),
        }
    }
}

/// `READY` payload (Pi→host): the loader's capabilities and writable window.
#[derive(Debug, Clone, Copy, PartialEq, Eq, Structural)]
pub struct Ready {
    /// Loader build version.
    pub loader_version: u32,
    /// Largest image the loader will accept, in bytes.
    pub max_image_len: u32,
    /// Inclusive low bound of the writable window.
    pub load_addr_min: u64,
    /// Exclusive high bound of the writable window.
    pub load_addr_max: u64,
    /// Required `load_addr` alignment (a power of two).
    pub alignment: u32,
    /// Largest `DATA` chunk the loader accepts, in bytes.
    pub max_chunk: u16,
}

impl Ready {
    /// Encoded length in bytes (includes a 2-byte reserved field, sent as zero).
    pub const LEN: usize = 32;

    /// The payload bytes; the last two are reserved and zero.
    pub open spec fn wire(self) -> Seq<u8> {
        le::le32(self.loader_version) + le::le32(self.max_image_len) + le::le64(self.load_addr_min)
            + le::le64(self.load_addr_max) + le::le32(self.alignment) + le::le16(self.max_chunk)
            + seq![0u8, 0u8]
    }

    /// The value at the start of `b`.
    pub open spec fn read(b: Seq<u8>) -> Ready {
        Ready {
            loader_version: le::u32_at(b, 0),
            max_image_len: le::u32_at(b, 4),
            load_addr_min: le::u64_at(b, 8),
            load_addr_max: le::u64_at(b, 16),
            alignment: le::u32_at(b, 24),
            max_chunk: le::u16_at(b, 28),
        }
    }

    /// What a payload parses to.
    pub open spec fn parsed(b: Seq<u8>) -> Result<Ready, MsgError> {
        if b.len() < Ready::LEN {
            Err(MsgError::Truncated { expected: Ready::LEN, got: b.len() as usize })
        } else {
            Ok(Ready::read(b))
        }
    }

    /// Serializes to its fixed little-endian byte layout.
    pub fn to_bytes(&self) -> (bytes: [u8; 32])
        ensures
            bytes@ == self.wire(),
    {
        let mut out: [u8; 32] = [0u8; 32];
        le::put(&mut out, 0, &le::u32_to_le(self.loader_version));
        le::put(&mut out, 4, &le::u32_to_le(self.max_image_len));
        le::put(&mut out, 8, &le::u64_to_le(self.load_addr_min));
        le::put(&mut out, 16, &le::u64_to_le(self.load_addr_max));
        le::put(&mut out, 24, &le::u32_to_le(self.alignment));
        le::put(&mut out, 28, &le::u16_to_le(self.max_chunk));
        // The last two bytes are reserved and stay zero.
        assert(out@ =~= self.wire());
        out
    }

    /// Parses from at least [`LEN`](Self::LEN) bytes; the reserved field and any
    /// trailing bytes are ignored.
    ///
    /// # Errors
    ///
    /// [`MsgError::Truncated`] if fewer than [`LEN`](Self::LEN) bytes are given.
    pub fn from_bytes(bytes: &[u8]) -> (r: Result<Self, MsgError>)
        ensures
            r == if bytes@.len() < Ready::LEN {
                Err::<Ready, MsgError>(
                    MsgError::Truncated { expected: Ready::LEN, got: bytes.len() },
                )
            } else {
                Ok(Ready::read(bytes@))
            },
            r == Ready::parsed(bytes@),
    {
        match require(bytes.len(), Self::LEN) {
            Ok(()) => Ok(
                Ready {
                    loader_version: le::rd_u32(bytes, 0),
                    max_image_len: le::rd_u32(bytes, 4),
                    load_addr_min: le::rd_u64(bytes, 8),
                    load_addr_max: le::rd_u64(bytes, 16),
                    alignment: le::rd_u32(bytes, 24),
                    max_chunk: le::rd_u16(bytes, 28),
                },
            ),
            Err(e) => Err(e),
        }
    }
}

/// `HEADER` payload (host→Pi): describes the image about to be sent.
#[derive(Debug, Clone, Copy, PartialEq, Eq, Structural)]
pub struct ImageHeader {
    /// Physical address to load the image at.
    pub load_addr: u64,
    /// Total image length in bytes.
    pub image_len: u32,
    /// CRC-32 of the whole image, for end-to-end integrity.
    pub image_crc32: u32,
    /// Byte offset added to `load_addr` for the entry PC.
    pub entry_off: u32,
    /// Reserved flags; send zero.
    pub flags: u32,
}

impl ImageHeader {
    /// Encoded length in bytes.
    pub const LEN: usize = 24;

    /// The payload bytes.
    pub open spec fn wire(self) -> Seq<u8> {
        le::le64(self.load_addr) + le::le32(self.image_len) + le::le32(self.image_crc32) + le::le32(
            self.entry_off,
        ) + le::le32(self.flags)
    }

    /// The value at the start of `b`.
    pub open spec fn read(b: Seq<u8>) -> ImageHeader {
        ImageHeader {
            load_addr: le::u64_at(b, 0),
            image_len: le::u32_at(b, 8),
            image_crc32: le::u32_at(b, 12),
            entry_off: le::u32_at(b, 16),
            flags: le::u32_at(b, 20),
        }
    }

    /// What a payload parses to.
    pub open spec fn parsed(b: Seq<u8>) -> Result<ImageHeader, MsgError> {
        if b.len() < ImageHeader::LEN {
            Err(MsgError::Truncated { expected: ImageHeader::LEN, got: b.len() as usize })
        } else {
            Ok(ImageHeader::read(b))
        }
    }

    /// Serializes to its fixed little-endian byte layout.
    pub fn to_bytes(&self) -> (bytes: [u8; 24])
        ensures
            bytes@ == self.wire(),
    {
        let mut out: [u8; 24] = [0u8; 24];
        le::put(&mut out, 0, &le::u64_to_le(self.load_addr));
        le::put(&mut out, 8, &le::u32_to_le(self.image_len));
        le::put(&mut out, 12, &le::u32_to_le(self.image_crc32));
        le::put(&mut out, 16, &le::u32_to_le(self.entry_off));
        le::put(&mut out, 20, &le::u32_to_le(self.flags));
        assert(out@ =~= self.wire());
        out
    }

    /// Parses from at least [`LEN`](Self::LEN) bytes; extra trailing bytes are ignored.
    ///
    /// # Errors
    ///
    /// [`MsgError::Truncated`] if fewer than [`LEN`](Self::LEN) bytes are given.
    pub fn from_bytes(bytes: &[u8]) -> (r: Result<Self, MsgError>)
        ensures
            r == if bytes@.len() < ImageHeader::LEN {
                Err::<ImageHeader, MsgError>(
                    MsgError::Truncated { expected: ImageHeader::LEN, got: bytes.len() },
                )
            } else {
                Ok(ImageHeader::read(bytes@))
            },
            r == ImageHeader::parsed(bytes@),
    {
        match require(bytes.len(), Self::LEN) {
            Ok(()) => Ok(
                ImageHeader {
                    load_addr: le::rd_u64(bytes, 0),
                    image_len: le::rd_u32(bytes, 8),
                    image_crc32: le::rd_u32(bytes, 12),
                    entry_off: le::rd_u32(bytes, 16),
                    flags: le::rd_u32(bytes, 20),
                },
            ),
            Err(e) => Err(e),
        }
    }
}

/// `ACK` payload (Pi→host): positive acknowledgement.
#[derive(Debug, Clone, Copy, PartialEq, Eq, Structural)]
pub struct Ack {
    /// Total bytes accepted so far, i.e. the offset expected in the next `DATA`.
    pub next_offset: u32,
}

impl Ack {
    /// Encoded length in bytes.
    pub const LEN: usize = 4;

    /// The payload bytes.
    pub open spec fn wire(self) -> Seq<u8> {
        le::le32(self.next_offset)
    }

    /// The value at the start of `b`.
    pub open spec fn read(b: Seq<u8>) -> Ack {
        Ack { next_offset: le::u32_at(b, 0) }
    }

    /// What a payload parses to.
    pub open spec fn parsed(b: Seq<u8>) -> Result<Ack, MsgError> {
        if b.len() < Ack::LEN {
            Err(MsgError::Truncated { expected: Ack::LEN, got: b.len() as usize })
        } else {
            Ok(Ack::read(b))
        }
    }

    /// Serializes to its fixed little-endian byte layout.
    pub fn to_bytes(&self) -> (bytes: [u8; 4])
        ensures
            bytes@ == self.wire(),
    {
        le::u32_to_le(self.next_offset)
    }

    /// Parses from at least [`LEN`](Self::LEN) bytes; extra trailing bytes are ignored.
    ///
    /// # Errors
    ///
    /// [`MsgError::Truncated`] if fewer than [`LEN`](Self::LEN) bytes are given.
    pub fn from_bytes(bytes: &[u8]) -> (r: Result<Self, MsgError>)
        ensures
            r == if bytes@.len() < Ack::LEN {
                Err::<Ack, MsgError>(
                    MsgError::Truncated { expected: Ack::LEN, got: bytes.len() },
                )
            } else {
                Ok(Ack::read(bytes@))
            },
            r == Ack::parsed(bytes@),
    {
        match require(bytes.len(), Self::LEN) {
            Ok(()) => Ok(
                Ack {
                    next_offset: le::rd_u32(bytes, 0),
                },
            ),
            Err(e) => Err(e),
        }
    }
}

/// A protocol-level error condition, as carried in an `ERROR` frame.
///
/// The wire value is a `u16`. [`ErrorMsg`] stores the raw code so an unknown
/// value from a newer loader still round-trips and can be reported; use
/// [`ErrorMsg::known_code`] to recover this enum when the code is recognized.
#[derive(Debug, Clone, Copy, PartialEq, Eq, Structural)]
pub enum ErrorCode {
    /// Frame `version` not supported.
    BadVersion,
    /// Frame CRC mismatch.
    BadCrc,
    /// `length` out of range for the frame type.
    BadLength,
    /// Unrecognized `type` byte.
    UnknownType,
    /// Frame not valid in the current state.
    Unexpected,
    /// Image window outside `[load_addr_min, load_addr_max)`.
    AddrOutOfRange,
    /// `load_addr` violates the required alignment.
    AddrMisaligned,
    /// Image window overlaps the running loader.
    AddrOverlap,
    /// `image_len` exceeds `max_image_len`.
    ImageTooLarge,
    /// `DATA` `offset` did not match the expected next offset.
    OffsetMismatch,
    /// Assembled image CRC did not match `image_crc32`.
    ImageCrc,
    /// `BOOT` arrived before a complete, verified image.
    NoImage,
}

impl ErrorCode {
    /// The wire value of this code.
    pub open spec fn value(self) -> u16 {
        match self {
            ErrorCode::BadVersion => 1,
            ErrorCode::BadCrc => 2,
            ErrorCode::BadLength => 3,
            ErrorCode::UnknownType => 4,
            ErrorCode::Unexpected => 5,
            ErrorCode::AddrOutOfRange => 6,
            ErrorCode::AddrMisaligned => 7,
            ErrorCode::AddrOverlap => 8,
            ErrorCode::ImageTooLarge => 9,
            ErrorCode::OffsetMismatch => 10,
            ErrorCode::ImageCrc => 11,
            ErrorCode::NoImage => 12,
        }
    }

    /// The condition in words.
    pub open spec fn text(self) -> Seq<char> {
        match self {
            ErrorCode::BadVersion => "unsupported protocol version"@,
            ErrorCode::BadCrc => "frame CRC mismatch"@,
            ErrorCode::BadLength => "frame length out of range"@,
            ErrorCode::UnknownType => "unknown frame type"@,
            ErrorCode::Unexpected => "unexpected frame for current state"@,
            ErrorCode::AddrOutOfRange => "load address outside writable window"@,
            ErrorCode::AddrMisaligned => "load address misaligned"@,
            ErrorCode::AddrOverlap => "image overlaps the loader"@,
            ErrorCode::ImageTooLarge => "image exceeds maximum size"@,
            ErrorCode::OffsetMismatch => "data offset mismatch"@,
            ErrorCode::ImageCrc => "image CRC mismatch"@,
            ErrorCode::NoImage => "boot with no verified image"@,
        }
    }

    /// The wire value for this code.
    pub fn as_u16(self) -> (value: u16)
        ensures
            value == self.value(),
    {
        match self {
            ErrorCode::BadVersion => 1,
            ErrorCode::BadCrc => 2,
            ErrorCode::BadLength => 3,
            ErrorCode::UnknownType => 4,
            ErrorCode::Unexpected => 5,
            ErrorCode::AddrOutOfRange => 6,
            ErrorCode::AddrMisaligned => 7,
            ErrorCode::AddrOverlap => 8,
            ErrorCode::ImageTooLarge => 9,
            ErrorCode::OffsetMismatch => 10,
            ErrorCode::ImageCrc => 11,
            ErrorCode::NoImage => 12,
        }
    }

    /// The [`ErrorCode`] for a raw wire value, or `None` if unrecognized.
    pub fn from_u16(value: u16) -> (code: Option<Self>)
        ensures
            code == known(value),
    {
        let code: Option<ErrorCode> = match value {
            1 => Some(ErrorCode::BadVersion),
            2 => Some(ErrorCode::BadCrc),
            3 => Some(ErrorCode::BadLength),
            4 => Some(ErrorCode::UnknownType),
            5 => Some(ErrorCode::Unexpected),
            6 => Some(ErrorCode::AddrOutOfRange),
            7 => Some(ErrorCode::AddrMisaligned),
            8 => Some(ErrorCode::AddrOverlap),
            9 => Some(ErrorCode::ImageTooLarge),
            10 => Some(ErrorCode::OffsetMismatch),
            11 => Some(ErrorCode::ImageCrc),
            12 => Some(ErrorCode::NoImage),
            _ => None,
        };
        assert(code matches Some(c) ==> c.value() == value);
        code
    }

    /// The condition in words.
    pub fn to_string(&self) -> (text: String)
        ensures
            text@ == self.text(),
    {
        match self {
            ErrorCode::BadVersion => "unsupported protocol version".to_owned(),
            ErrorCode::BadCrc => "frame CRC mismatch".to_owned(),
            ErrorCode::BadLength => "frame length out of range".to_owned(),
            ErrorCode::UnknownType => "unknown frame type".to_owned(),
            ErrorCode::Unexpected => "unexpected frame for current state".to_owned(),
            ErrorCode::AddrOutOfRange => "load address outside writable window".to_owned(),
            ErrorCode::AddrMisaligned => "load address misaligned".to_owned(),
            ErrorCode::AddrOverlap => "image overlaps the loader".to_owned(),
            ErrorCode::ImageTooLarge => "image exceeds maximum size".to_owned(),
            ErrorCode::OffsetMismatch => "data offset mismatch".to_owned(),
            ErrorCode::ImageCrc => "image CRC mismatch".to_owned(),
            ErrorCode::NoImage => "boot with no verified image".to_owned(),
        }
    }
}

/// The code whose wire value is `value`, if there is one.
pub open spec fn known(value: u16) -> Option<ErrorCode> {
    if exists|c: ErrorCode| #[trigger] c.value() == value {
        Some(choose|c: ErrorCode| #[trigger] c.value() == value)
    } else {
        None
    }
}

/// `ERROR` payload (Pi→host): negative acknowledgement.
#[derive(Debug, Clone, Copy, PartialEq, Eq, Structural)]
pub struct ErrorMsg {
    /// Raw error code. Recognized values map to [`ErrorCode`] via [`known_code`](Self::known_code).
    pub code: u16,
    /// Context for the error, e.g. the offset at which it occurred.
    pub detail: u32,
}

impl ErrorMsg {
    /// Encoded length in bytes.
    pub const LEN: usize = 6;

    /// The payload bytes.
    pub open spec fn wire(self) -> Seq<u8> {
        le::le16(self.code) + le::le32(self.detail)
    }

    /// The value at the start of `b`.
    pub open spec fn read(b: Seq<u8>) -> ErrorMsg {
        ErrorMsg { code: le::u16_at(b, 0), detail: le::u32_at(b, 2) }
    }

    /// What a payload parses to.
    pub open spec fn parsed(b: Seq<u8>) -> Result<ErrorMsg, MsgError> {
        if b.len() < ErrorMsg::LEN {
            Err(MsgError::Truncated { expected: ErrorMsg::LEN, got: b.len() as usize })
        } else {
            Ok(ErrorMsg::read(b))
        }
    }

    /// Builds an error message from a known [`ErrorCode`].
    pub fn new(code: ErrorCode, detail: u32) -> (msg: Self)
        ensures
            msg == (ErrorMsg { code: code.value(), detail }),
    {
        ErrorMsg { code: code.as_u16(), detail }
    }

    /// Returns the typed [`ErrorCode`] if `code` is recognized.
    pub fn known_code(&self) -> (code: Option<ErrorCode>)
        ensures
            code == known(self.code),
    {
        ErrorCode::from_u16(self.code)
    }

    /// Serializes to its fixed little-endian byte layout.
    pub fn to_bytes(&self) -> (bytes: [u8; 6])
        ensures
            bytes@ == self.wire(),
    {
        let mut out: [u8; 6] = [0u8; 6];
        le::put(&mut out, 0, &le::u16_to_le(self.code));
        le::put(&mut out, 2, &le::u32_to_le(self.detail));
        assert(out@ =~= self.wire());
        out
    }

    /// Parses from at least [`LEN`](Self::LEN) bytes; extra trailing bytes are ignored.
    ///
    /// # Errors
    ///
    /// [`MsgError::Truncated`] if fewer than [`LEN`](Self::LEN) bytes are given.
    pub fn from_bytes(bytes: &[u8]) -> (r: Result<Self, MsgError>)
        ensures
            r == if bytes@.len() < ErrorMsg::LEN {
                Err::<ErrorMsg, MsgError>(
                    MsgError::Truncated { expected: ErrorMsg::LEN, got: bytes.len() },
                )
            } else {
                Ok(ErrorMsg::read(bytes@))
            },
            r == ErrorMsg::parsed(bytes@),
    {
        match require(bytes.len(), Self::LEN) {
            Ok(()) => Ok(
                ErrorMsg {
                    code: le::rd_u16(bytes, 0),
                    detail: le::rd_u32(bytes, 2),
                },
            ),
            Err(e) => Err(e),
        }
    }
}

/// `DATA` payload (host→Pi): a chunk of image bytes at a byte offset.
///
/// Unlike the fixed payloads, `DATA` is variable length and borrows its chunk
/// rather than copying it (the loader cannot afford a copy). The wire layout is
/// `offset: u32` followed by the chunk bytes.
#[derive(Debug, Clone, Copy, PartialEq, Eq)]
pub struct DataFrame<'a> {
    /// Byte offset of this chunk within the image.
    pub offset: u32,
    /// The chunk bytes.
    pub chunk: &'a [u8],
}

/// The bytes of a `DATA` payload.
pub open spec fn data_wire(offset: u32, chunk: Seq<u8>) -> Seq<u8> {
    le::le32(offset) + chunk
}

impl<'a> DataFrame<'a> {
    /// Bytes preceding the chunk: the `offset` field.
    pub const HEADER: usize = 4;

    /// On-wire payload length: [`HEADER`](Self::HEADER) plus the chunk.
    pub fn encoded_len(&self) -> (len: usize)
        requires
            4 + self.chunk@.len() <= usize::MAX,
        ensures
            len == 4 + self.chunk@.len(),
    {
        Self::HEADER + self.chunk.len()
    }

    /// Writes the payload (offset then chunk) into `out`, returning the byte count.
    ///
    /// # Errors
    ///
    /// [`MsgError::Truncated`] if `out` is smaller than [`encoded_len`](Self::encoded_len).
    pub fn encode(&self, out: &mut [u8]) -> (r: Result<usize, MsgError>)
        requires
            4 + self.chunk@.len() <= usize::MAX,
        ensures
            ({
                let need = (4 + self.chunk@.len()) as usize;
                if old(out)@.len() < need {
                    &&& r == Err::<usize, MsgError>(
                        MsgError::Truncated { expected: need, got: old(out)@.len() as usize },
                    )
                    &&& final(out)@ == old(out)@
                } else {
                    &&& r == Ok::<usize, MsgError>(need)
                    &&& final(out)@ == le::splice(
                        old(out)@,
                        0,
                        data_wire(self.offset, self.chunk@),
                    )
                }
            }),
    {
        let need: usize = self.encoded_len();
        let have: usize = out.len();
        match require(have, need) {
            Ok(()) => {
                let ghost before = out@;
                le::put(out, 0, &le::u32_to_le(self.offset));
                le::put(out, 4, self.chunk);
                assert(out@ =~= le::splice(before, 0, data_wire(self.offset, self.chunk@)));
                Ok(need)
            },
            Err(e) => Err(e),
        }
    }

    /// Parses a `DATA` payload, borrowing the chunk from `bytes`.
    ///
    /// # Errors
    ///
    /// [`MsgError::Truncated`] if `bytes` is shorter than [`HEADER`](Self::HEADER).
    pub fn decode(bytes: &'a [u8]) -> (r: Result<Self, MsgError>)
        ensures
            match r {
                Ok(d) => {
                    &&& bytes@.len() >= 4
                    &&& d.offset == le::u32_at(bytes@, 0)
                    &&& d.chunk@ == bytes@.skip(4)
                },
                Err(e) => {
                    &&& bytes@.len() < 4
                    &&& e == (MsgError::Truncated { expected: 4, got: bytes.len() })
                },
            },
            data_parsed(bytes@) == match r {
                Ok(d) => Ok::<(u32, Seq<u8>), MsgError>((d.offset, d.chunk@)),
                Err(e) => Err(e),
            },
    {
        match require(bytes.len(), Self::HEADER) {
            Ok(()) => {
                let chunk: &'a [u8] = &bytes[4..bytes.len()];
                assert(chunk@ =~= bytes@.skip(4));
                Ok(DataFrame { offset: le::rd_u32(bytes, 0), chunk })
            },
            Err(e) => Err(e),
        }
    }
}

/// A `HELLO` payload reads back as what was sent, whatever follows it.
pub proof fn lemma_hello_round_trip(m: Hello, tail: Seq<u8>)
    ensures
        m.wire().len() == Hello::LEN,
        Hello::read(m.wire() + tail) == m,
{
    let b = m.wire() + tail;
    assert(b.subrange(0, 4) =~= le::le32(m.host_version));
    le::lemma_u32_placed(b, 0, m.host_version);
}

/// The bytes that a `Hello` was read from are its bytes on the wire.
pub proof fn lemma_hello_written_back(b: Seq<u8>)
    requires
        b.len() >= Hello::LEN,
    ensures
        Hello::read(b).wire() == b.take(4),
{
    le::lemma_le_written_back(b, 0);
    assert(Hello::read(b).wire() =~= b.take(4));
}

/// A `READY` payload reads back as what was sent, whatever follows it.
pub proof fn lemma_ready_round_trip(m: Ready, tail: Seq<u8>)
    ensures
        m.wire().len() == Ready::LEN,
        Ready::read(m.wire() + tail) == m,
{
    let b = m.wire() + tail;
    assert(b.subrange(0, 4) =~= le::le32(m.loader_version));
    le::lemma_u32_placed(b, 0, m.loader_version);
    assert(b.subrange(4, 8) =~= le::le32(m.max_image_len));
    le::lemma_u32_placed(b, 4, m.max_image_len);
    assert(b.subrange(8, 16) =~= le::le64(m.load_addr_min));
    le::lemma_u64_placed(b, 8, m.load_addr_min);
    assert(b.subrange(16, 24) =~= le::le64(m.load_addr_max));
    le::lemma_u64_placed(b, 16, m.load_addr_max);
    assert(b.subrange(24, 28) =~= le::le32(m.alignment));
    le::lemma_u32_placed(b, 24, m.alignment);
    assert(b.subrange(28, 30) =~= le::le16(m.max_chunk));
    le::lemma_u16_placed(b, 28, m.max_chunk);
}

/// The bytes that a `Ready` was read from are its bytes on the wire, save the reserved
/// field, which is sent as zero.
pub proof fn lemma_ready_written_back(b: Seq<u8>)
    requires
        b.len() >= Ready::LEN,
    ensures
        Ready::read(b).wire() == b.take(30) + seq![0u8, 0u8],
{
    le::lemma_le_written_back(b, 0);
    le::lemma_le_written_back(b, 4);
    le::lemma_le_written_back(b, 8);
    le::lemma_le_written_back(b, 16);
    le::lemma_le_written_back(b, 24);
    le::lemma_le_written_back(b, 28);
    assert(Ready::read(b).wire() =~= b.take(30) + seq![0u8, 0u8]);
}

/// A `HEADER` payload reads back as what was sent, whatever follows it.
pub proof fn lemma_image_header_round_trip(m: ImageHeader, tail: Seq<u8>)
    ensures
        m.wire().len() == ImageHeader::LEN,
        ImageHeader::read(m.wire() + tail) == m,
{
    let b = m.wire() + tail;
    assert(b.subrange(0, 8) =~= le::le64(m.load_addr));
    le::lemma_u64_placed(b, 0, m.load_addr);
    assert(b.subrange(8, 12) =~= le::le32(m.image_len));
    le::lemma_u32_placed(b, 8, m.image_len);
    assert(b.subrange(12, 16) =~= le::le32(m.image_crc32));
    le::lemma_u32_placed(b, 12, m.image_crc32);
    assert(b.subrange(16, 20) =~= le::le32(m.entry_off));
    le::lemma_u32_placed(b, 16, m.entry_off);
    assert(b.subrange(20, 24) =~= le::le32(m.flags));
    le::lemma_u32_placed(b, 20, m.flags);
}

/// The bytes that a `ImageHeader` was read from are its bytes on the wire.
pub proof fn lemma_image_header_written_back(b: Seq<u8>)
    requires
        b.len() >= ImageHeader::LEN,
    ensures
        ImageHeader::read(b).wire() == b.take(24),
{
    le::lemma_le_written_back(b, 0);
    le::lemma_le_written_back(b, 8);
    le::lemma_le_written_back(b, 12);
    le::lemma_le_written_back(b, 16);
    le::lemma_le_written_back(b, 20);
    assert(ImageHeader::read(b).wire() =~= b.take(24));
}

/// An `ACK` payload reads back as what was sent, whatever follows it.
pub proof fn lemma_ack_round_trip(m: Ack, tail: Seq<u8>)
    ensures
        m.wire().len() == Ack::LEN,
        Ack::read(m.wire() + tail) == m,
{
    let b = m.wire() + tail;
    assert(b.subrange(0, 4) =~= le::le32(m.next_offset));
    le::lemma_u32_placed(b, 0, m.next_offset);
}

/// The bytes that a `Ack` was read from are its bytes on the wire.
pub proof fn lemma_ack_written_back(b: Seq<u8>)
    requires
        b.len() >= Ack::LEN,
    ensures
        Ack::read(b).wire() == b.take(4),
{
    le::lemma_le_written_back(b, 0);
    assert(Ack::read(b).wire() =~= b.take(4));
}

/// An `ERROR` payload reads back as what was sent, whatever follows it, also when
/// its code is not a known one.
pub proof fn lemma_error_msg_round_trip(m: ErrorMsg, tail: Seq<u8>)
    ensures
        m.wire().len() == ErrorMsg::LEN,
        ErrorMsg::read(m.wire() + tail) == m,
{
    let b = m.wire() + tail;
    assert(b.subrange(0, 2) =~= le::le16(m.code));
    le::lemma_u16_placed(b, 0, m.code);
    assert(b.subrange(2, 6) =~= le::le32(m.detail));
    le::lemma_u32_placed(b, 2, m.detail);
}

/// The bytes that a `ErrorMsg` was read from are its bytes on the wire.
pub proof fn lemma_error_msg_written_back(b: Seq<u8>)
    requires
        b.len() >= ErrorMsg::LEN,
    ensures
        ErrorMsg::read(b).wire() == b.take(6),
{
    le::lemma_le_written_back(b, 0);
    le::lemma_le_written_back(b, 2);
    assert(ErrorMsg::read(b).wire() =~= b.take(6));
}

/// A `DATA` payload gives back its offset and its chunk, and every payload of at
/// least four bytes is the `DATA` payload of what it gives.
pub proof fn lemma_data_round_trip(offset: u32, chunk: Seq<u8>, b: Seq<u8>)
    ensures
        data_wire(offset, chunk).len() == 4 + chunk.len(),
        le::u32_at(data_wire(offset, chunk), 0) == offset,
        data_wire(offset, chunk).skip(4) == chunk,
        b.len() >= 4 ==> data_wire(le::u32_at(b, 0), b.skip(4)) == b,
{
    let w = data_wire(offset, chunk);
    assert(w.subrange(0, 4) =~= le::le32(offset));
    le::lemma_u32_placed(w, 0, offset);
    assert(w.skip(4) =~= chunk);
    if b.len() >= 4 {
        le::lemma_le_written_back(b, 0);
        assert(data_wire(le::u32_at(b, 0), b.skip(4)) =~= b);
    }
}

/// Every error code is recovered from its wire value, and only a value of some
/// code is recognized.
pub proof fn lemma_error_code_round_trip(c: ErrorCode, value: u16)
    ensures
        known(c.value()) == Some(c),
        known(value) is Some <==> 1 <= value <= 12,
        known(value) matches Some(k) ==> k.value() == value,
{
    assert(exists|k: ErrorCode| #[trigger] k.value() == c.value());
    if 1 <= value <= 12 {
        assert(ErrorCode::BadVersion.value() == 1);
        assert(ErrorCode::BadCrc.value() == 2);
        assert(ErrorCode::BadLength.value() == 3);
        assert(ErrorCode::UnknownType.value() == 4);
        assert(ErrorCode::Unexpected.value() == 5);
        assert(ErrorCode::AddrOutOfRange.value() == 6);
        assert(ErrorCode::AddrMisaligned.value() == 7);
        assert(ErrorCode::AddrOverlap.value() == 8);
        assert(ErrorCode::ImageTooLarge.value() == 9);
        assert(ErrorCode::OffsetMismatch.value() == 10);
        assert(ErrorCode::ImageCrc.value() == 11);
        assert(ErrorCode::NoImage.value() == 12);
    }
}

/// Where each field of a payload stands, with whatever follows it.
pub proof fn lemma_layouts(
    hello: Hello,
    ready: Ready,
    header: ImageHeader,
    ack: Ack,
    error: ErrorMsg,
    tail: Seq<u8>,
)
    ensures
        le::u32_at(hello.wire() + tail, 0) == hello.host_version,
        hello.wire().len() == 4,
        le::u32_at(ready.wire() + tail, 0) == ready.loader_version,
        le::u32_at(ready.wire() + tail, 4) == ready.max_image_len,
        le::u64_at(ready.wire() + tail, 8) == ready.load_addr_min,
        le::u64_at(ready.wire() + tail, 16) == ready.load_addr_max,
        le::u32_at(ready.wire() + tail, 24) == ready.alignment,
        le::u16_at(ready.wire() + tail, 28) == ready.max_chunk,
        ready.wire().len() == 32,
        ready.wire()[30] == 0,
        ready.wire()[31] == 0,
        le::u64_at(header.wire() + tail, 0) == header.load_addr,
        le::u32_at(header.wire() + tail, 8) == header.image_len,
        le::u32_at(header.wire() + tail, 12) == header.image_crc32,
        le::u32_at(header.wire() + tail, 16) == header.entry_off,
        le::u32_at(header.wire() + tail, 20) == header.flags,
        header.wire().len() == 24,
        le::u32_at(ack.wire() + tail, 0) == ack.next_offset,
        ack.wire().len() == 4,
        le::u16_at(error.wire() + tail, 0) == error.code,
        le::u32_at(error.wire() + tail, 2) == error.detail,
        error.wire().len() == 6,
{
    lemma_hello_round_trip(hello, tail);
    lemma_ready_round_trip(ready, tail);
    lemma_image_header_round_trip(header, tail);
    lemma_ack_round_trip(ack, tail);
    lemma_error_msg_round_trip(error, tail);
}

/// What a payload is read as: its fields, each from its own place, whatever
/// stands elsewhere.
pub proof fn lemma_reads(b: Seq<u8>)
    ensures
        Hello::read(b).host_version == le::u32_at(b, 0),
        Ready::read(b).loader_version == le::u32_at(b, 0),
        Ready::read(b).max_image_len == le::u32_at(b, 4),
        Ready::read(b).load_addr_min == le::u64_at(b, 8),
        Ready::read(b).load_addr_max == le::u64_at(b, 16),
        Ready::read(b).alignment == le::u32_at(b, 24),
        Ready::read(b).max_chunk == le::u16_at(b, 28),
        ImageHeader::read(b).load_addr == le::u64_at(b, 0),
        ImageHeader::read(b).image_len == le::u32_at(b, 8),
        ImageHeader::read(b).image_crc32 == le::u32_at(b, 12),
        ImageHeader::read(b).entry_off == le::u32_at(b, 16),
        ImageHeader::read(b).flags == le::u32_at(b, 20),
        Ack::read(b).next_offset == le::u32_at(b, 0),
        ErrorMsg::read(b).code == le::u16_at(b, 0),
        ErrorMsg::read(b).detail == le::u32_at(b, 2),
{
}

/// Each error code by its number on the wire, and in words.
pub proof fn lemma_error_codes()
    ensures
        known(1) == Some(ErrorCode::BadVersion),
        known(2) == Some(ErrorCode::BadCrc),
        known(3) == Some(ErrorCode::BadLength),
        known(4) == Some(ErrorCode::UnknownType),
        known(5) == Some(ErrorCode::Unexpected),
        known(6) == Some(ErrorCode::AddrOutOfRange),
        known(7) == Some(ErrorCode::AddrMisaligned),
        known(8) == Some(ErrorCode::AddrOverlap),
        known(9) == Some(ErrorCode::ImageTooLarge),
        known(10) == Some(ErrorCode::OffsetMismatch),
        known(11) == Some(ErrorCode::ImageCrc),
        known(12) == Some(ErrorCode::NoImage),
        ErrorCode::BadVersion.text() == "unsupported protocol version"@,
        ErrorCode::BadCrc.text() == "frame CRC mismatch"@,
        ErrorCode::BadLength.text() == "frame length out of range"@,
        ErrorCode::UnknownType.text() == "unknown frame type"@,
        ErrorCode::Unexpected.text() == "unexpected frame for current state"@,
        ErrorCode::AddrOutOfRange.text() == "load address outside writable window"@,
        ErrorCode::AddrMisaligned.text() == "load address misaligned"@,
        ErrorCode::AddrOverlap.text() == "image overlaps the loader"@,
        ErrorCode::ImageTooLarge.text() == "image exceeds maximum size"@,
        ErrorCode::OffsetMismatch.text() == "data offset mismatch"@,
        ErrorCode::ImageCrc.text() == "image CRC mismatch"@,
        ErrorCode::NoImage.text() == "boot with no verified image"@,
{
    lemma_error_code_round_trip(ErrorCode::BadVersion, 1);
    lemma_error_code_round_trip(ErrorCode::BadCrc, 2);
    lemma_error_code_round_trip(ErrorCode::BadLength, 3);
    lemma_error_code_round_trip(ErrorCode::UnknownType, 4);
    lemma_error_code_round_trip(ErrorCode::Unexpected, 5);
    lemma_error_code_round_trip(ErrorCode::AddrOutOfRange, 6);
    lemma_error_code_round_trip(ErrorCode::AddrMisaligned, 7);
    lemma_error_code_round_trip(ErrorCode::AddrOverlap, 8);
    lemma_error_code_round_trip(ErrorCode::ImageTooLarge, 9);
    lemma_error_code_round_trip(ErrorCode::OffsetMismatch, 10);
    lemma_error_code_round_trip(ErrorCode::ImageCrc, 11);
    lemma_error_code_round_trip(ErrorCode::NoImage, 12);
}

/// What a `DATA` payload parses to: offset and chunk.
pub open spec fn data_parsed(b: Seq<u8>) -> Result<(u32, Seq<u8>), MsgError> {
    if b.len() < 4 {
        Err(MsgError::Truncated { expected: 4, got: b.len() as usize })
    } else {
        Ok((le::u32_at(b, 0), b.skip(4)))
    }
}

/// Every message that is written parses, to itself, whatever follows it.
pub proof fn lemma_written_parses(
    hello: Hello,
    ready: Ready,
    header: ImageHeader,
    ack: Ack,
    error: ErrorMsg,
    offset: u32,
    chunk: Seq<u8>,
    tail: Seq<u8>,
)
    ensures
        Hello::parsed(hello.wire() + tail) == Ok::<Hello, MsgError>(hello),
        Ready::parsed(ready.wire() + tail) == Ok::<Ready, MsgError>(ready),
        ImageHeader::parsed(header.wire() + tail) == Ok::<ImageHeader, MsgError>(header),
        Ack::parsed(ack.wire() + tail) == Ok::<Ack, MsgError>(ack),
        ErrorMsg::parsed(error.wire() + tail) == Ok::<ErrorMsg, MsgError>(error),
        data_parsed(data_wire(offset, chunk)) == Ok::<(u32, Seq<u8>), MsgError>((offset, chunk)),
{
    lemma_hello_round_trip(hello, tail);
    lemma_ready_round_trip(ready, tail);
    lemma_image_header_round_trip(header, tail);
    lemma_ack_round_trip(ack, tail);
    lemma_error_msg_round_trip(error, tail);
    lemma_data_round_trip(offset, chunk, tail);
}

/// A payload fails to parse exactly if it is shorter than the message, and the
/// error tells both lengths.
pub proof fn lemma_short_payloads(b: Seq<u8>)
    requires
        b.len() <= usize::MAX,
    ensures
        Hello::parsed(b) is Err <==> b.len() < 4,
        Hello::parsed(b) matches Err(e) ==> e == (MsgError::Truncated {
            expected: 4,
            got: b.len() as usize,
        }),
        Ready::parsed(b) is Err <==> b.len() < 32,
        Ready::parsed(b) matches Err(e) ==> e == (MsgError::Truncated {
            expected: 32,
            got: b.len() as usize,
        }),
        ImageHeader::parsed(b) is Err <==> b.len() < 24,
        ImageHeader::parsed(b) matches Err(e) ==> e == (MsgError::Truncated {
            expected: 24,
            got: b.len() as usize,
        }),
        Ack::parsed(b) is Err <==> b.len() < 4,
        Ack::parsed(b) matches Err(e) ==> e == (MsgError::Truncated {
            expected: 4,
            got: b.len() as usize,
        }),
        ErrorMsg::parsed(b) is Err <==> b.len() < 6,
        ErrorMsg::parsed(b) matches Err(e) ==> e == (MsgError::Truncated {
            expected: 6,
            got: b.len() as usize,
        }),
        data_parsed(b) is Err <==> b.len() < 4,
        data_parsed(b) matches Err(e) ==> e == (MsgError::Truncated {
            expected: 4,
            got: b.len() as usize,
        }),
{
}

} // verus!
