//! Streaming, allocation-free frame decoder with resync.
//!
//! The loader reads the UART one byte at a time and cannot allocate. [`Decoder`]
//! turns that raw byte stream — which may start mid-frame or contain line
//! noise — into validated frames using a single fixed buffer. It is the receive
//! counterpart to [`encode_frame`](crate::frame::encode_frame).
//!
//! In the model the decoder is in one of four phases ([`PhaseView`]), and
//! [`push_phase`] says what a byte does to the phase and what is reported.

use vstd::prelude::*;
use vstd::string::*;

use crate::crc;
use crate::frame;
use crate::frame::{
    FrameType, MAGIC_HI, MAGIC_LO, MAX_PAYLOAD, PROTOCOL_VERSION, TRAILER_LEN,
};
use crate::le;
use crate::text;

verus! {

broadcast use crate::le::group_le_len;

/// Header bytes covered by the CRC and buffered by the decoder: everything in
/// the header except the two magic bytes (version, type, length_lo, length_hi).
pub const FIXED_LEN: usize = 4;

/// Internal buffer size: the CRC-covered fixed bytes, the largest payload, and
/// the CRC trailer. The magic is never stored.
pub const DECODE_BUF: usize = FIXED_LEN + MAX_PAYLOAD + TRAILER_LEN;

/// Why a frame was rejected. On any of these the decoder discards the frame and
/// resumes scanning for the next magic (see [`Decoder`]).
#[derive(Debug, Clone, Copy, PartialEq, Eq, Structural)]
pub enum DecodeError {
    /// The frame's `version` byte did not match [`PROTOCOL_VERSION`].
    BadVersion(u8),
    /// The `type` byte did not name a known [`FrameType`].
    UnknownType(u8),
    /// The `length` field exceeded [`MAX_PAYLOAD`].
    LengthTooLarge(u16),
    /// The trailer CRC did not match the CRC computed over the frame body.
    BadCrc {
        /// CRC read from the frame trailer.
        found: u32,
        /// CRC computed over the received `version..payload` bytes.
        expected: u32,
    },
}

impl DecodeError {
    /// The error in words.
    pub fn to_string(&self) -> (text: String)
        ensures
            text@ == match self {
                DecodeError::BadVersion(v) => "unsupported protocol version "@ + text::decimal(
                    *v as nat,
                ) + " (expected 1)"@,
                DecodeError::UnknownType(t) => "unknown frame type 0x"@ + text::hex_digits(
                    *t as nat,
                    2,
                ),
                DecodeError::LengthTooLarge(n) => "frame length "@ + text::decimal(*n as nat)
                    + " exceeds MAX_PAYLOAD (1024)"@,
                DecodeError::BadCrc { found, expected } => "frame CRC 0x"@ + text::hex_digits(
                    *found as nat,
                    8,
                ) + " does not match computed 0x"@ + text::hex_digits(*expected as nat, 8),
            },
    {
        match self {
            DecodeError::BadVersion(v) => {
                let mut out: String = "unsupported protocol version ".to_owned();
                text::push_decimal(&mut out, *v as u64);
                out.append(" (expected 1)");
                out
            },
            DecodeError::UnknownType(t) => {
                let mut out: String = "unknown frame type 0x".to_owned();
                text::push_hex_digits(&mut out, *t as u64, 2);
                out
            },
            DecodeError::LengthTooLarge(n) => {
                let mut out: String = "frame length ".to_owned();
                text::push_decimal(&mut out, *n as u64);
                out.append(" exceeds MAX_PAYLOAD (1024)");
                out
            },
            DecodeError::BadCrc { found, expected } => {
                let mut out: String = "frame CRC 0x".to_owned();
                text::push_hex_digits(&mut out, *found as u64, 8);
                out.append(" does not match computed 0x");
                text::push_hex_digits(&mut out, *expected as u64, 8);
                out
            },
        }
    }
}

/// The result of feeding one byte to a [`Decoder`].
#[derive(Debug, Clone, Copy, PartialEq, Eq, Structural)]
pub enum Decoded {
    /// More bytes are needed before anything can be reported.
    Pending,
    /// A complete, CRC-validated frame is available. Read its payload with
    /// [`Decoder::payload`] before the next [`push`](Decoder::push).
    Frame(FrameType),
    /// A frame was rejected; the decoder has resynced and is scanning again.
    Error(DecodeError),
}

/// Phase of the byte-fed state machine.
#[derive(Debug, Clone, Copy, PartialEq, Eq, Structural)]
enum Phase {
    /// Scanning for the low magic byte.
    Sync0,
    /// Saw the low magic byte; expecting the high magic byte.
    Sync1,
    /// Collecting the four CRC-covered header bytes.
    Fixed,
    /// Collecting `length` payload bytes plus the four-byte CRC trailer.
    Body,
}

/// A phase with what has been collected in it.
pub enum PhaseView {
    /// Scanning for the low magic byte.
    Sync0,
    /// Saw the low magic byte; expecting the high magic byte.
    Sync1,
    /// Collected these of the four CRC-covered header bytes.
    Fixed { got: Seq<u8> },
    /// The header announced a frame of type `ty` with `len` payload bytes;
    /// collected these bytes of payload and trailer.
    Body { ty: FrameType, len: nat, got: Seq<u8> },
}

/// What a decoder is, in the model.
pub struct DecoderView {
    /// Where it stands in the stream.
    pub phase: PhaseView,
    /// The buffer: header bytes, then payload, then trailer.
    pub buf: Seq<u8>,
    /// Payload length of the frame last announced.
    pub len: nat,
}

impl DecoderView {
    /// The payload window of the buffer.
    pub open spec fn payload(self) -> Seq<u8> {
        self.buf.subrange(FIXED_LEN as int, FIXED_LEN + self.len)
    }

    /// The invariant of the model: what has been collected fits, and stands at
    /// its place in the buffer.
    pub open spec fn inv(self) -> bool {
        &&& self.buf.len() == DECODE_BUF
        &&& self.len <= MAX_PAYLOAD
        &&& self.phase.inv()
        &&& match self.phase {
            PhaseView::Sync0 => true,
            PhaseView::Sync1 => true,
            PhaseView::Fixed { got } => self.buf.take(got.len() as int) == got,
            PhaseView::Body { ty: _, len, got } => {
                &&& self.len == len
                &&& self.buf.subrange(FIXED_LEN as int, FIXED_LEN + got.len()) == got
            },
        }
    }
}

impl PhaseView {
    /// A phase is left as soon as it is complete, and no announced payload is
    /// larger than a frame may carry.
    pub open spec fn inv(self) -> bool {
        match self {
            PhaseView::Sync0 => true,
            PhaseView::Sync1 => true,
            PhaseView::Fixed { got } => got.len() < FIXED_LEN,
            PhaseView::Body { ty: _, len, got } => len <= MAX_PAYLOAD && got.len() < len
                + TRAILER_LEN,
        }
    }
}

/// What four complete header bytes lead to.
pub open spec fn header_phase(fixed: Seq<u8>) -> (PhaseView, Decoded) {
    let len = le::u16_at(fixed, 2);
    if fixed[0] != PROTOCOL_VERSION {
        (PhaseView::Sync0, Decoded::Error(DecodeError::BadVersion(fixed[0])))
    } else {
        match frame::type_of(fixed[1]) {
            None => (PhaseView::Sync0, Decoded::Error(DecodeError::UnknownType(fixed[1]))),
            Some(ty) => if len > MAX_PAYLOAD {
                (PhaseView::Sync0, Decoded::Error(DecodeError::LengthTooLarge(len)))
            } else {
                (PhaseView::Body { ty, len: len as nat, got: Seq::empty() }, Decoded::Pending)
            },
        }
    }
}

/// What a complete body (payload and trailer) is reported as.
pub open spec fn body_report(ty: FrameType, len: nat, body: Seq<u8>) -> Decoded {
    let found = le::u32_at(body, len as int);
    let expected = crc::crc32_of(frame::body_bytes(ty, body.take(len as int)));
    if found == expected {
        Decoded::Frame(ty)
    } else {
        Decoded::Error(DecodeError::BadCrc { found, expected })
    }
}

/// The phase after byte `b`, and what is reported.
pub open spec fn push_phase(phase: PhaseView, b: u8) -> (PhaseView, Decoded) {
    match phase {
        PhaseView::Sync0 => (
            if b == MAGIC_LO {
                PhaseView::Sync1
            } else {
                PhaseView::Sync0
            },
            Decoded::Pending,
        ),
        PhaseView::Sync1 => (
            if b == MAGIC_HI {
                PhaseView::Fixed { got: Seq::empty() }
            } else if b == MAGIC_LO {
                PhaseView::Sync1
            } else {
                PhaseView::Sync0
            },
            Decoded::Pending,
        ),
        PhaseView::Fixed { got } => if got.len() + 1 < FIXED_LEN {
            (PhaseView::Fixed { got: got.push(b) }, Decoded::Pending)
        } else {
            header_phase(got.push(b))
        },
        PhaseView::Body { ty, len, got } => if got.len() + 1 < len + TRAILER_LEN {
            (PhaseView::Body { ty, len, got: got.push(b) }, Decoded::Pending)
        } else {
            (PhaseView::Sync0, body_report(ty, len, got.push(b)))
        },
    }
}

/// The buffer after byte `b`: header and body bytes are stored, magic is not.
pub open spec fn push_buf(phase: PhaseView, buf: Seq<u8>, b: u8) -> Seq<u8> {
    match phase {
        PhaseView::Sync0 => buf,
        PhaseView::Sync1 => buf,
        PhaseView::Fixed { got } => buf.update(got.len() as int, b),
        PhaseView::Body { ty: _, len: _, got } => buf.update(FIXED_LEN + got.len(), b),
    }
}

/// The decoder after byte `b`.
pub open spec fn push_view(d: DecoderView, b: u8) -> DecoderView {
    let phase = push_phase(d.phase, b).0;
    DecoderView {
        phase,
        buf: push_buf(d.phase, d.buf, b),
        len: match (d.phase, phase) {
            (PhaseView::Fixed { .. }, PhaseView::Body { ty: _, len, got: _ }) => len,
            _ => d.len,
        },
    }
}

/// A resynchronizing frame decoder over a fixed internal buffer.
///
/// Feed bytes with [`push`](Self::push). It returns [`Decoded::Pending`] until a
/// frame completes ([`Decoded::Frame`]) or is rejected ([`Decoded::Error`]).
/// After [`Decoded::Frame`], the payload is available via [`payload`](Self::payload)
/// until the next `push`.
///
/// Resync: the two magic bytes are only a relock marker and are not covered by
/// the CRC, so a coincidental magic that begins a bad frame still fails
/// validation. On any rejection the decoder returns to scanning from the
/// following byte. On a wired link the host retransmits rejected frames, so a
/// genuine frame whose magic happened to fall inside a discarded region is
/// recovered on the resend.
pub struct Decoder {
    phase: Phase,
    buf: [u8; DECODE_BUF],
    /// Number of fixed header bytes collected so far (0..=FIXED_LEN).
    fixed_n: usize,
    /// Body bytes collected so far (payload + trailer).
    body_got: usize,
    /// Body bytes still expected: `length + TRAILER_LEN`.
    body_need: usize,
    /// Frame type of the frame currently in `buf` (meaningful after a `Frame`).
    ty: FrameType,
    /// Payload length of the frame currently in `buf`.
    len: usize,
}

impl View for Decoder {
    type V = DecoderView;

    closed spec fn view(&self) -> DecoderView {
        DecoderView {
            phase: match self.phase {
                Phase::Sync0 => PhaseView::Sync0,
                Phase::Sync1 => PhaseView::Sync1,
                Phase::Fixed => PhaseView::Fixed { got: self.buf@.take(self.fixed_n as int) },
                Phase::Body => PhaseView::Body {
                    ty: self.ty,
                    len: self.len as nat,
                    got: self.buf@.subrange(FIXED_LEN as int, FIXED_LEN + self.body_got),
                },
            },
            buf: self.buf@,
            len: self.len as nat,
        }
    }
}

impl Decoder {
    /// What holds of every decoder: the invariant of the model, and behind an
    /// accepted header stand exactly its four bytes.
    pub open spec fn wf(&self) -> bool {
        self@.inv() && self.counters_fit()
    }

    /// The counters stay inside the buffer.
    pub closed spec fn counters_fit(&self) -> bool {
        &&& self.len <= MAX_PAYLOAD
        &&& self.phase == Phase::Fixed ==> self.fixed_n < FIXED_LEN
        &&& self.phase == Phase::Body ==> {
            &&& self.body_need == self.len + TRAILER_LEN
            &&& self.body_got < self.body_need
            &&& self.buf@.take(FIXED_LEN as int) == frame::fixed_bytes(self.ty, self.len as nat)
        }
    }

    /// Creates a decoder ready to scan for the start of a frame.
    pub fn new() -> (d: Self)
        ensures
            d.wf(),
            d@.phase == PhaseView::Sync0,
            d@.len == 0,
            d@.buf == Seq::new(DECODE_BUF as nat, |i: int| 0u8),
    {
        let d = Decoder {
            phase: Phase::Sync0,
            buf: [0u8; DECODE_BUF],
            fixed_n: 0,
            body_got: 0,
            body_need: 0,
            ty: FrameType::Hello,
            len: 0,
        };
        assert(d@.buf =~= Seq::new(DECODE_BUF as nat, |i: int| 0u8));
        d
    }

    /// Returns the payload of the most recently completed frame.
    ///
    /// Only meaningful immediately after [`push`](Self::push) returned
    /// [`Decoded::Frame`], and only until the next `push`.
    pub fn payload(&self) -> (bytes: &[u8])
        requires
            self.wf(),
        ensures
            bytes@ == self@.payload(),
    {
        &self.buf[FIXED_LEN..FIXED_LEN + self.len]
    }

    /// Discards any in-progress frame and returns to scanning for a magic.
    pub fn reset(&mut self)
        requires
            old(self).wf(),
        ensures
            final(self).wf(),
            final(self)@ == (DecoderView { phase: PhaseView::Sync0, ..old(self)@ }),
    {
        self.rescan();
    }

    /// Goes back to scanning, whatever the counters hold.
    fn rescan(&mut self)
        requires
            old(self).len <= MAX_PAYLOAD,
        ensures
            final(self).wf(),
            final(self)@ == (DecoderView { phase: PhaseView::Sync0, ..old(self)@ }),
    {
        self.phase = Phase::Sync0;
        self.fixed_n = 0;
        self.body_got = 0;
    }

    /// Feeds one byte to the decoder.
    pub fn push(&mut self, b: u8) -> (out: Decoded)
        requires
            old(self).wf(),
        ensures
            final(self).wf(),
            final(self)@ == push_view(old(self)@, b),
            out == push_phase(old(self)@.phase, b).1,
            out matches Decoded::Frame(_) ==> final(self)@.phase == PhaseView::Sync0,
            out matches Decoded::Error(_) ==> final(self)@.phase == PhaseView::Sync0,
    {
        match self.phase {
            Phase::Sync0 => {
                if b == MAGIC_LO {
                    self.phase = Phase::Sync1;
                }
                Decoded::Pending
            },
            Phase::Sync1 => {
                if b == MAGIC_HI {
                    self.phase = Phase::Fixed;
                    self.fixed_n = 0;
                    assert(self@.phase->Fixed_got =~= Seq::empty());
                } else if b != MAGIC_LO {
                    // Not a magic; fall back to scanning. A repeated low byte
                    // keeps us here in case it is the true start of the magic.
                    self.phase = Phase::Sync0;
                }
                Decoded::Pending
            },
            Phase::Fixed => self.push_fixed(b),
            Phase::Body => self.push_body(b),
        }
    }

    /// Collects a CRC-covered header byte; parses the header once all four are in.
    fn push_fixed(&mut self, b: u8) -> (out: Decoded)
        requires
            old(self).wf(),
            old(self)@.phase is Fixed,
        ensures
            final(self).wf(),
            final(self)@ == push_view(old(self)@, b),
            out == push_phase(old(self)@.phase, b).1,
    {
        let ghost before = *self;
        let ghost got = before.buf@.take(before.fixed_n as int);
        self.buf[self.fixed_n] = b;
        self.fixed_n = self.fixed_n + 1;
        assert(self.buf@.take(self.fixed_n as int) =~= got.push(b));
        if self.fixed_n < FIXED_LEN {
            return Decoded::Pending;
        }
        let ghost fixed = got.push(b);
        let version: u8 = self.buf[0];
        if version != PROTOCOL_VERSION {
            self.rescan();
            return Decoded::Error(DecodeError::BadVersion(version));
        }
        let raw: u8 = self.buf[1];
        let ty: FrameType = match FrameType::from_u8(raw) {
            Some(ty) => ty,
            None => {
                self.rescan();
                return Decoded::Error(DecodeError::UnknownType(raw));
            },
        };
        let len: u16 = le::rd_u16(&self.buf, 2);
        assert(len == le::u16_at(fixed, 2)) by {
            reveal(le::u16_at);
            assert(self.buf@[2] == fixed[2] && self.buf@[3] == fixed[3]);
        }
        if len as usize > MAX_PAYLOAD {
            self.rescan();
            return Decoded::Error(DecodeError::LengthTooLarge(len));
        }
        self.ty = ty;
        self.len = len as usize;
        self.body_need = self.len + TRAILER_LEN;
        self.body_got = 0;
        self.phase = Phase::Body;
        proof {
            frame::lemma_type_round_trip(ty, raw);
            le::lemma_le_written_back(fixed, 2);
            assert(fixed.subrange(2, 4)[0] == fixed[2]);
            assert(fixed.subrange(2, 4)[1] == fixed[3]);
            assert(self.buf@.take(FIXED_LEN as int) =~= frame::fixed_bytes(ty, self.len as nat));
            assert(self@.phase->Body_got =~= Seq::empty());
        }
        Decoded::Pending
    }

    /// Collects payload + trailer bytes; validates the CRC once the body is full.
    fn push_body(&mut self, b: u8) -> (out: Decoded)
        requires
            old(self).wf(),
            old(self)@.phase is Body,
        ensures
            final(self).wf(),
            final(self)@ == push_view(old(self)@, b),
            out == push_phase(old(self)@.phase, b).1,
    {
        let ghost before = *self;
        let ghost got = before.buf@.subrange(FIXED_LEN as int, FIXED_LEN + before.body_got);
        self.buf[FIXED_LEN + self.body_got] = b;
        self.body_got = self.body_got + 1;
        assert(self.buf@.subrange(FIXED_LEN as int, FIXED_LEN + self.body_got) =~= got.push(b));
        assert(self.buf@.take(FIXED_LEN as int) =~= before.buf@.take(FIXED_LEN as int));
        if self.body_got < self.body_need {
            return Decoded::Pending;
        }
        let ghost body = got.push(b);
        let body_end: usize = FIXED_LEN + self.len;
        assert(self.buf@.subrange(0, body_end as int) =~= frame::body_bytes(
            self.ty,
            body.take(self.len as int),
        ));
        let expected: u32 = crc::crc32(&self.buf[0..body_end]);
        let found: u32 = le::rd_u32(&self.buf, body_end);
        proof {
            let k = self.len as int;
            assert(found == le::u32_at(body, k)) by {
                reveal(le::u32_at);
                assert(body[k] == self.buf@[body_end as int]);
                assert(body[k + 1] == self.buf@[body_end + 1]);
                assert(body[k + 2] == self.buf@[body_end + 2]);
                assert(body[k + 3] == self.buf@[body_end + 3]);
            }
        }
        // Return to scanning for the next frame either way; the payload stays in
        // `buf` so `payload()` is valid until the next push.
        self.phase = Phase::Sync0;
        self.fixed_n = 0;
        self.body_got = 0;
        if found == expected {
            Decoded::Frame(self.ty)
        } else {
            Decoded::Error(DecodeError::BadCrc { found, expected })
        }
    }
}

impl Default for Decoder {
    fn default() -> (d: Self)
        ensures
            d.wf(),
            d@.phase == PhaseView::Sync0,
            d@.len == 0,
            d@.buf == Seq::new(DECODE_BUF as nat, |i: int| 0u8),
    {
        Self::new()
    }
}

} // verus!
