//! The host side of the wire protocol: handshake, transfer an image with
//! per-frame acknowledgement and retries, boot.
//!
//! What the host decides is here; the port is read and written by the caller.
//! An [`Upload`] says which frame to send, takes what came back as a [`Reply`],
//! and says what to do next.

use vstd::prelude::*;
use vstd::string::*;

use crate::artifact::Image;
use crate::decoder;
use crate::decoder::{Decoded, Decoder, DecoderView};
use crate::frame;
use crate::frame::{FrameType, MAX_PAYLOAD, PROTOCOL_VERSION};
use crate::le;
use crate::message;
use crate::message::{Ack, DataFrame, ErrorCode, ErrorMsg, Hello, ImageHeader, MsgError, Ready};
use crate::outgoing::{send_frame, Outgoing};
use crate::stream;
use crate::text;

verus! {

broadcast use crate::le::group_le_len;

/// How long to wait for a single reply before giving up (or retrying), in
/// seconds.
pub const REPLY_TIMEOUT_SECS: u64 = 3;

/// How many times to resend a frame that is not acknowledged.
pub const MAX_RETRIES: u32 = 5;

/// Name of a frame type in messages to the user.
pub open spec fn frame_name(ty: FrameType) -> Seq<char> {
    match ty {
        FrameType::Hello => "Hello"@,
        FrameType::Ready => "Ready"@,
        FrameType::Header => "Header"@,
        FrameType::Data => "Data"@,
        FrameType::Ack => "Ack"@,
        FrameType::Error => "Error"@,
        FrameType::Boot => "Boot"@,
    }
}

fn push_frame_name(out: &mut String, ty: FrameType)
    ensures
        final(out)@ == old(out)@ + frame_name(ty),
{
    match ty {
        FrameType::Hello => out.append("Hello"),
        FrameType::Ready => out.append("Ready"),
        FrameType::Header => out.append("Header"),
        FrameType::Data => out.append("Data"),
        FrameType::Ack => out.append("Ack"),
        FrameType::Error => out.append("Error"),
        FrameType::Boot => out.append("Boot"),
    }
}

/// Why an image will not be sent to a loader.
#[derive(Debug, Clone, Copy, PartialEq, Eq, Structural)]
pub enum PreflightError {
    /// The image is larger than the loader accepts.
    TooLarge {
        /// Length of the image.
        len: u32,
        /// Largest length that the loader accepts.
        limit: u32,
    },
    /// The load address violates the loader's alignment.
    Misaligned {
        /// The load address.
        load_addr: u64,
        /// The required alignment.
        alignment: u32,
    },
    /// The image would end behind the last address.
    AddressOverflow,
    /// The image does not lie inside the loader's window.
    OutsideWindow {
        /// The load address.
        load_addr: u64,
        /// First address behind the image.
        end: u64,
        /// Inclusive low bound of the window.
        min: u64,
        /// Exclusive high bound of the window.
        max: u64,
    },
}

impl PreflightError {
    /// The error in words.
    pub open spec fn text(self) -> Seq<char> {
        match self {
            PreflightError::TooLarge { len, limit } => "image is "@ + text::decimal(len as nat)
                + " bytes but the loader accepts at most "@ + text::decimal(limit as nat),
            PreflightError::Misaligned { load_addr, alignment } => "load address 0x"@ + text::hex(
                load_addr as nat,
            ) + " is not aligned to 0x"@ + text::hex(alignment as nat),
            PreflightError::AddressOverflow => "image ends behind the last address"@,
            PreflightError::OutsideWindow { load_addr, end, min, max } => "image [0x"@ + text::hex(
                load_addr as nat,
            ) + ", 0x"@ + text::hex(end as nat) + ") is outside the loader's window [0x"@
                + text::hex(min as nat) + ", 0x"@ + text::hex(max as nat) + ")"@,
        }
    }

    /// The error in words.
    pub fn to_string(&self) -> (text: String)
        ensures
            text@ == self.text(),
    {
        match self {
            PreflightError::TooLarge { len, limit } => {
                let mut out: String = "image is ".to_owned();
                text::push_decimal(&mut out, *len as u64);
                out.append(" bytes but the loader accepts at most ");
                text::push_decimal(&mut out, *limit as u64);
                out
            },
            PreflightError::Misaligned { load_addr, alignment } => {
                let mut out: String = "load address 0x".to_owned();
                text::push_hex(&mut out, *load_addr);
                out.append(" is not aligned to 0x");
                text::push_hex(&mut out, *alignment as u64);
                out
            },
            PreflightError::AddressOverflow => "image ends behind the last address".to_owned(),
            PreflightError::OutsideWindow { load_addr, end, min, max } => {
                let mut out: String = "image [0x".to_owned();
                text::push_hex(&mut out, *load_addr);
                out.append(", 0x");
                text::push_hex(&mut out, *end);
                out.append(") is outside the loader's window [0x");
                text::push_hex(&mut out, *min);
                out.append(", 0x");
                text::push_hex(&mut out, *max);
                out.append(")");
                out
            },
        }
    }
}

/// Whether an image of `len` bytes at `load_addr` meets what the loader
/// advertised.
pub open spec fn preflight_verdict(ready: Ready, load_addr: u64, len: u32) -> Result<
    (),
    PreflightError,
> {
    if len > ready.max_image_len {
        Err(PreflightError::TooLarge { len, limit: ready.max_image_len })
    } else if ready.alignment != 0 && load_addr % ready.alignment as u64 != 0 {
        Err(PreflightError::Misaligned { load_addr, alignment: ready.alignment })
    } else if load_addr + len > u64::MAX {
        Err(PreflightError::AddressOverflow)
    } else if load_addr < ready.load_addr_min || load_addr + len > ready.load_addr_max {
        Err(
            PreflightError::OutsideWindow {
                load_addr,
                end: (load_addr + len) as u64,
                min: ready.load_addr_min,
                max: ready.load_addr_max,
            },
        )
    } else {
        Ok(())
    }
}

/// Sanity-checks the image against the loader's advertised limits before we
/// start, so a doomed transfer fails fast with a clear message.
pub fn preflight(ready: &Ready, image: &Image, len: u32) -> (r: Result<(), PreflightError>)
    ensures
        r == preflight_verdict(*ready, image.load_addr, len),
{
    if len > ready.max_image_len {
        return Err(PreflightError::TooLarge { len, limit: ready.max_image_len });
    }
    if ready.alignment != 0 && image.load_addr % ready.alignment as u64 != 0 {
        return Err(
            PreflightError::Misaligned { load_addr: image.load_addr, alignment: ready.alignment },
        );
    }
    let end: u64 = match image.load_addr.checked_add(len as u64) {
        Some(end) => end,
        None => {
            return Err(PreflightError::AddressOverflow);
        },
    };
    if image.load_addr < ready.load_addr_min || end > ready.load_addr_max {
        return Err(
            PreflightError::OutsideWindow {
                load_addr: image.load_addr,
                end,
                min: ready.load_addr_min,
                max: ready.load_addr_max,
            },
        );
    }
    Ok(())
}

/// What can go wrong in a session.
#[derive(Debug)]
pub enum SessionError {
    /// The image is longer than a header can say.
    ImageTooLarge,
    /// The image does not meet what the loader advertised.
    Preflight(PreflightError),
    /// A `READY` payload was too short.
    MalformedReady(MsgError),
    /// An `ACK` payload was too short.
    MalformedAck(MsgError),
    /// An `ERROR` payload was too short.
    MalformedError(MsgError),
    /// The loader sent `ERROR`.
    Reported(ErrorMsg),
    /// The loader sent another frame than the one awaited.
    Unexpected {
        /// The frame that came.
        got: FrameType,
        /// The frame that was awaited.
        want: FrameType,
    },
    /// No frame came; why, in words.
    Failed(String),
    /// A chunk was not acknowledged however often it was sent.
    GaveUp {
        /// Offset of the end of the chunk.
        expected_next: u32,
        /// What went wrong with the last attempt, in words.
        reason: String,
    },
}

/// A session error, in the model.
pub enum SessionErrorView {
    /// The image is longer than a header can say.
    ImageTooLarge,
    /// The image does not meet what the loader advertised.
    Preflight(PreflightError),
    /// A `READY` payload was too short.
    MalformedReady(MsgError),
    /// An `ACK` payload was too short.
    MalformedAck(MsgError),
    /// An `ERROR` payload was too short.
    MalformedError(MsgError),
    /// The loader sent `ERROR`.
    Reported(ErrorMsg),
    /// The loader sent another frame than the one awaited.
    Unexpected { got: FrameType, want: FrameType },
    /// No frame came.
    Failed(Seq<char>),
    /// A chunk was not acknowledged however often it was sent.
    GaveUp { expected_next: u32, reason: Seq<char> },
}

impl View for SessionError {
    type V = SessionErrorView;

    open spec fn view(&self) -> SessionErrorView {
        match *self {
            SessionError::ImageTooLarge => SessionErrorView::ImageTooLarge,
            SessionError::Preflight(e) => SessionErrorView::Preflight(e),
            SessionError::MalformedReady(e) => SessionErrorView::MalformedReady(e),
            SessionError::MalformedAck(e) => SessionErrorView::MalformedAck(e),
            SessionError::MalformedError(e) => SessionErrorView::MalformedError(e),
            SessionError::Reported(m) => SessionErrorView::Reported(m),
            SessionError::Unexpected { got, want } => SessionErrorView::Unexpected { got, want },
            SessionError::Failed(why) => SessionErrorView::Failed(why@),
            SessionError::GaveUp { expected_next, reason } => SessionErrorView::GaveUp {
                expected_next,
                reason: reason@,
            },
        }
    }
}

/// What the loader's error code means, in words.
pub open spec fn code_text(code: u16) -> Seq<char> {
    match message::known(code) {
        Some(c) => c.text(),
        None => "code "@ + text::decimal(code as nat),
    }
}

impl SessionErrorView {
    /// The error in words.
    pub open spec fn text(self) -> Seq<char> {
        match self {
            SessionErrorView::ImageTooLarge => "image too large"@,
            SessionErrorView::Preflight(e) => e.text(),
            SessionErrorView::MalformedReady(e) => "malformed READY: "@ + e.text(),
            SessionErrorView::MalformedAck(e) => "malformed ACK: "@ + e.text(),
            SessionErrorView::MalformedError(e) => "malformed ERROR: "@ + e.text(),
            SessionErrorView::Reported(m) => "loader reported error: "@ + code_text(m.code)
                + " (detail 0x"@ + text::hex(m.detail as nat) + ")"@,
            SessionErrorView::Unexpected { got, want } => "unexpected "@ + frame_name(got)
                + " frame while awaiting "@ + frame_name(want),
            SessionErrorView::Failed(why) => why,
            SessionErrorView::GaveUp { expected_next, reason } => "giving up on chunk ending at "@
                + text::decimal(expected_next as nat) + " after 5 retries: "@ + reason,
        }
    }
}

impl SessionError {
    /// The error in words.
    pub fn to_string(&self) -> (text: String)
        ensures
            text@ == self@.text(),
    {
        match self {
            SessionError::ImageTooLarge => "image too large".to_owned(),
            SessionError::Preflight(e) => e.to_string(),
            SessionError::MalformedReady(e) => {
                let mut out: String = "malformed READY: ".to_owned();
                out.append(e.to_string().as_str());
                out
            },
            SessionError::MalformedAck(e) => {
                let mut out: String = "malformed ACK: ".to_owned();
                out.append(e.to_string().as_str());
                out
            },
            SessionError::MalformedError(e) => {
                let mut out: String = "malformed ERROR: ".to_owned();
                out.append(e.to_string().as_str());
                out
            },
            SessionError::Reported(m) => {
                let mut out: String = "loader reported error: ".to_owned();
                match m.known_code() {
                    Some(c) => {
                        out.append(c.to_string().as_str());
                    },
                    None => {
                        out.append("code ");
                        text::push_decimal(&mut out, m.code as u64);
                    },
                }
                out.append(" (detail 0x");
                text::push_hex(&mut out, m.detail as u64);
                out.append(")");
                out
            },
            SessionError::Unexpected { got, want } => {
                let mut out: String = "unexpected ".to_owned();
                push_frame_name(&mut out, *got);
                out.append(" frame while awaiting ");
                push_frame_name(&mut out, *want);
                out
            },
            SessionError::Failed(why) => why.clone(),
            SessionError::GaveUp { expected_next, reason } => {
                let mut out: String = "giving up on chunk ending at ".to_owned();
                text::push_decimal(&mut out, *expected_next as u64);
                out.append(" after 5 retries: ");
                out.append(reason.as_str());
                out
            },
        }
    }
}

/// What came back after a frame was sent.
pub enum Reply {
    /// A frame and its payload.
    Frame(FrameType, Vec<u8>),
    /// No frame; why, in words.
    Failed(String),
}

/// A reply, in the model.
pub enum ReplyView {
    /// A frame and its payload.
    Frame(FrameType, Seq<u8>),
    /// No frame; why.
    Failed(Seq<char>),
}

impl View for Reply {
    type V = ReplyView;

    open spec fn view(&self) -> ReplyView {
        match *self {
            Reply::Frame(ty, payload) => ReplyView::Frame(ty, payload@),
            Reply::Failed(why) => ReplyView::Failed(why@),
        }
    }
}

/// The payload of the awaited frame, or what is wrong with the reply.
pub open spec fn expected(reply: ReplyView, want: FrameType) -> Result<Seq<u8>, SessionErrorView> {
    match reply {
        ReplyView::Failed(why) => Err(SessionErrorView::Failed(why)),
        ReplyView::Frame(ty, payload) => if ty == want {
            Ok(payload)
        } else if ty == FrameType::Error {
            if payload.len() < ErrorMsg::LEN {
                Err(
                    SessionErrorView::MalformedError(
                        MsgError::Truncated {
                            expected: ErrorMsg::LEN,
                            got: payload.len() as usize,
                        },
                    ),
                )
            } else {
                Err(SessionErrorView::Reported(ErrorMsg::read(payload)))
            }
        } else {
            Err(SessionErrorView::Unexpected { got: ty, want })
        },
    }
}

/// Requires the reply to be a frame of type `want`. An ERROR frame is turned
/// into a descriptive error.
pub fn expect(reply: Reply, want: FrameType) -> (r: Result<Vec<u8>, SessionError>)
    ensures
        expected(reply@, want) == match r {
            Ok(payload) => Ok::<Seq<u8>, SessionErrorView>(payload@),
            Err(e) => Err(e@),
        },
{
    match reply {
        Reply::Failed(why) => Err(SessionError::Failed(why)),
        Reply::Frame(ty, payload) => {
            if ty == want {
                return Ok(payload);
            }
            if ty == FrameType::Error {
                return match ErrorMsg::from_bytes(payload.as_slice()) {
                    Ok(msg) => Err(SessionError::Reported(msg)),
                    Err(e) => Err(SessionError::MalformedError(e)),
                };
            }
            Err(SessionError::Unexpected { got: ty, want })
        },
    }
}

/// The `HELLO` frame that opens a session.
pub fn hello() -> (out: Outgoing)
    ensures
        out.wf(),
        out@ == frame::frame_bytes(
            FrameType::Hello,
            (Hello { host_version: PROTOCOL_VERSION as u32 }).wire(),
        ),
{
    let hello = Hello { host_version: PROTOCOL_VERSION as u32 };
    send_frame(FrameType::Hello, &hello.to_bytes())
}

/// What the reply to `HELLO` means.
pub open spec fn handshaken(reply: ReplyView) -> Result<Ready, SessionErrorView> {
    match expected(reply, FrameType::Ready) {
        Err(e) => Err(e),
        Ok(payload) => if payload.len() < Ready::LEN {
            Err(
                SessionErrorView::MalformedReady(
                    MsgError::Truncated { expected: Ready::LEN, got: payload.len() as usize },
                ),
            )
        } else {
            Ok(Ready::read(payload))
        },
    }
}

/// The loader's capabilities, from its reply to `HELLO`.
pub fn handshake(reply: Reply) -> (r: Result<Ready, SessionError>)
    ensures
        handshaken(reply@) == match r {
            Ok(ready) => Ok::<Ready, SessionErrorView>(ready),
            Err(e) => Err(e@),
        },
{
    match expect(reply, FrameType::Ready) {
        Err(e) => Err(e),
        Ok(payload) => match Ready::from_bytes(payload.as_slice()) {
            Ok(ready) => Ok(ready),
            Err(e) => Err(SessionError::MalformedReady(e)),
        },
    }
}

/// The `BOOT` frame that starts the image.
pub fn boot() -> (out: Outgoing)
    ensures
        out.wf(),
        out@ == frame::frame_bytes(FrameType::Boot, Seq::empty()),
{
    let empty: [u8; 0] = [];
    assert(empty@ =~= Seq::<u8>::empty());
    send_frame(FrameType::Boot, &empty)
}

/// Whether the reply to `BOOT` says that the image is being started.
pub fn booted(reply: Reply) -> (r: Result<(), SessionError>)
    ensures
        match r {
            Ok(()) => expected(reply@, FrameType::Ack) is Ok,
            Err(e) => expected(reply@, FrameType::Ack) == Err::<Seq<u8>, SessionErrorView>(e@),
        },
{
    match expect(reply, FrameType::Ack) {
        Ok(_) => Ok(()),
        Err(e) => Err(e),
    }
}

/// What a decoder makes of `bytes` up to the first frame: its state behind that
/// frame, and the frame.
pub open spec fn scanned(d: DecoderView, bytes: Seq<u8>) -> (
    DecoderView,
    Option<(FrameType, Seq<u8>)>,
)
    decreases bytes.len(),
{
    if bytes.len() == 0 {
        (d, None)
    } else {
        let next = decoder::push_view(d, bytes[0]);
        match stream::event(d.phase, bytes[0]) {
            Some(stream::Event::Frame(ty, payload)) => (next, Some((ty, payload))),
            _ => scanned(next, bytes.skip(1)),
        }
    }
}

/// Feeds `bytes` to the decoder until a frame completes. A decode error is line
/// noise; scanning goes on. What follows the frame in `bytes` is left unread.
pub fn scan(d: &mut Decoder, bytes: &[u8]) -> (frame: Option<(FrameType, Vec<u8>)>)
    requires
        old(d).wf(),
    ensures
        final(d).wf(),
        final(d)@ == scanned(old(d)@, bytes@).0,
        scanned(old(d)@, bytes@).1 == match frame {
            None => None,
            Some((ty, payload)) => Some((ty, payload@)),
        },
{
    let mut i: usize = 0;
    assert(bytes@.skip(0) =~= bytes@);
    while i < bytes.len()
        invariant
            i <= bytes@.len(),
            d.wf(),
            scanned(old(d)@, bytes@) == scanned(d@, bytes@.skip(i as int)),
        decreases bytes@.len() - i,
    {
        let ghost before = d@;
        let b: u8 = bytes[i];
        proof {
            stream::lemma_push_event(before, b);
            assert(bytes@.skip(i as int).skip(1) =~= bytes@.skip(i + 1));
        }
        match d.push(b) {
            Decoded::Frame(ty) => {
                let payload: Vec<u8> = vstd::slice::slice_to_vec(d.payload());
                return Some((ty, payload));
            },
            Decoded::Error(_) | Decoded::Pending => {},
        }
        i = i + 1;
    }
    None
}

/// A scan gives the first frame that the decoder reports over the bytes, and
/// nothing if it reports none.
pub proof fn lemma_scan_is_first_frame(d: DecoderView, bytes: Seq<u8>)
    requires
        d.inv(),
    ensures
        scanned(d, bytes).1 == stream::first_frame(stream::events(d.phase, bytes)),
    decreases bytes.len(),
{
    if bytes.len() > 0 {
        let next = decoder::push_view(d, bytes[0]);
        let rest = stream::events(next.phase, bytes.skip(1));
        stream::lemma_first_byte(d.phase, bytes);
        stream::lemma_push_event(d, bytes[0]);
        lemma_scan_is_first_frame(next, bytes.skip(1));
        match stream::event(d.phase, bytes[0]) {
            None => {
                assert(Seq::<stream::Event>::empty() + rest =~= rest);
            },
            Some(e) => {
                assert((seq![e] + rest).skip(1) =~= rest);
            },
        }
    }
}

/// `done` of `total` in percent. Nothing at all is done.
pub open spec fn share(done: nat, total: nat) -> nat {
    if total == 0 {
        100
    } else {
        done * 100 / total
    }
}

/// How much of a transfer is done, in percent. A transfer of nothing is done.
pub fn percent(done: usize, total: usize) -> (pct: usize)
    requires
        done * 100 <= usize::MAX,
    ensures
        pct == if total == 0 {
            100
        } else {
            done * 100 / total as int
        },
        pct == share(done as nat, total as nat),
{
    if total == 0 {
        100
    } else {
        done * 100 / total
    }
}

/// The progress line of a transfer, to be written over the one before.
pub fn progress_line(done: usize, total: usize) -> (line: String)
    requires
        done * 100 <= usize::MAX,
    ensures
        line@ == "\r  transferring "@ + text::decimal(done as nat) + "/"@ + text::decimal(
            total as nat,
        ) + " bytes ("@ + text::decimal(
            (if total == 0 {
                100
            } else {
                done * 100 / total as int
            }) as nat,
        ) + "%)"@,
{
    let mut line: String = "\r  transferring ".to_owned();
    text::push_decimal(&mut line, done as u64);
    line.append("/");
    text::push_decimal(&mut line, total as u64);
    line.append(" bytes (");
    text::push_decimal(&mut line, percent(done, total) as u64);
    line.append("%)");
    line
}

/// Where a transfer stands, in the model.
pub enum Stage {
    /// The header was sent.
    Header,
    /// The chunk at `offset` was sent for the `tries`-th time.
    Data { offset: int, tries: int },
    /// Nothing more is sent.
    Over,
}

/// A transfer, in the model.
pub struct UploadView {
    /// The image.
    pub image: Seq<u8>,
    /// Largest chunk to send.
    pub chunk: int,
    /// Where it stands.
    pub stage: Stage,
}

/// What the host does next, in the model.
pub enum ActionView {
    /// Send this message and wait for the reply.
    Send(FrameType, Seq<u8>),
    /// The image has arrived.
    Done,
    /// The transfer failed.
    Fail(SessionErrorView),
}

impl UploadView {
    /// What holds of every transfer.
    pub open spec fn inv(self) -> bool {
        &&& self.image.len() <= u32::MAX
        &&& 1 <= self.chunk <= MAX_PAYLOAD - DataFrame::HEADER
        &&& self.stage matches Stage::Data { offset, tries } ==> {
            &&& 0 <= offset < self.image.len()
            &&& 1 <= tries <= MAX_RETRIES + 1
        }
    }

    /// Where the chunk at `offset` ends.
    pub open spec fn chunk_end(self, offset: int) -> int {
        if offset + self.chunk < self.image.len() {
            offset + self.chunk
        } else {
            self.image.len() as int
        }
    }

    /// The `DATA` payload of the chunk at `offset`.
    pub open spec fn data(self, offset: int) -> Seq<u8> {
        message::data_wire(offset as u32, self.image.subrange(offset, self.chunk_end(offset)))
    }

    /// Goes on with what starts at `offset`: the next chunk, or the end.
    pub open spec fn proceed(self, offset: int) -> (UploadView, ActionView) {
        if offset < self.image.len() {
            (
                UploadView { stage: Stage::Data { offset, tries: 1 }, ..self },
                ActionView::Send(FrameType::Data, self.data(offset)),
            )
        } else {
            (UploadView { stage: Stage::Over, ..self }, ActionView::Done)
        }
    }

    /// Stops with an error.
    pub open spec fn fail(self, e: SessionErrorView) -> (UploadView, ActionView) {
        (UploadView { stage: Stage::Over, ..self }, ActionView::Fail(e))
    }

    /// Sends the chunk at `offset` again, or gives up.
    pub open spec fn retry(self, offset: int, tries: int, reason: Seq<char>) -> (
        UploadView,
        ActionView,
    ) {
        if tries <= MAX_RETRIES {
            (
                UploadView { stage: Stage::Data { offset, tries: tries + 1 }, ..self },
                ActionView::Send(FrameType::Data, self.data(offset)),
            )
        } else {
            self.fail(
                SessionErrorView::GaveUp { expected_next: self.chunk_end(offset) as u32, reason },
            )
        }
    }
}

/// What the host makes of an ACK for another offset.
pub open spec fn mismatch_text(next: u32, expected_next: u32) -> Seq<char> {
    "loader expected offset "@ + text::decimal(next as nat) + ", we are at "@ + text::decimal(
        expected_next as nat,
    )
}

/// What a reply leads to.
pub open spec fn upload_step(u: UploadView, reply: ReplyView) -> (UploadView, ActionView) {
    match u.stage {
        Stage::Over => (u, ActionView::Done),
        Stage::Header => match expected(reply, FrameType::Ack) {
            Err(e) => u.fail(e),
            Ok(_) => u.proceed(0),
        },
        Stage::Data { offset, tries } => match expected(reply, FrameType::Ack) {
            Err(e) => u.retry(offset, tries, e.text()),
            Ok(payload) => if payload.len() < Ack::LEN {
                u.fail(
                    SessionErrorView::MalformedAck(
                        MsgError::Truncated { expected: Ack::LEN, got: payload.len() as usize },
                    ),
                )
            } else if Ack::read(payload).next_offset == u.chunk_end(offset) {
                u.proceed(u.chunk_end(offset))
            } else {
                u.retry(
                    offset,
                    tries,
                    mismatch_text(Ack::read(payload).next_offset, u.chunk_end(offset) as u32),
                )
            },
        },
    }
}

/// The largest chunk to send to a loader that takes `max_chunk`.
pub open spec fn chunk_size(max_chunk: u16) -> int {
    if max_chunk < 1 {
        1
    } else if max_chunk > MAX_PAYLOAD - DataFrame::HEADER {
        MAX_PAYLOAD - DataFrame::HEADER
    } else {
        max_chunk as int
    }
}

/// A chunk is never larger than the loader takes, nor than a frame can carry, and
/// never empty.
pub proof fn lemma_chunk_within_limits(max_chunk: u16)
    ensures
        1 <= chunk_size(max_chunk),
        max_chunk >= 1 ==> chunk_size(max_chunk) <= max_chunk,
        chunk_size(max_chunk) + DataFrame::HEADER <= MAX_PAYLOAD,
{
}

/// What the host does next.
pub enum Action {
    /// Transmit this and wait for the reply.
    Send(Outgoing),
    /// The image has arrived.
    Done,
    /// The transfer failed.
    Fail(SessionError),
}

/// The action means what the model says.
pub open spec fn action_is(a: Action, v: ActionView) -> bool {
    match (a, v) {
        (Action::Send(out), ActionView::Send(ty, payload)) => {
            &&& out.wf()
            &&& out@ == frame::frame_bytes(ty, payload)
        },
        (Action::Done, ActionView::Done) => true,
        (Action::Fail(e), ActionView::Fail(f)) => e@ == f,
        _ => false,
    }
}

#[derive(Clone, Copy)]
enum At {
    Header,
    Data { offset: usize, tries: u32 },
    Over,
}

/// A transfer of an image to a loader: HEADER, then streamed DATA with retries.
/// The loader's end-to-end CRC check comes with the last acknowledgement.
pub struct Upload {
    bytes: Vec<u8>,
    chunk: usize,
    at: At,
}

impl View for Upload {
    type V = UploadView;

    closed spec fn view(&self) -> UploadView {
        UploadView {
            image: self.bytes@,
            chunk: self.chunk as int,
            stage: match self.at {
                At::Header => Stage::Header,
                At::Data { offset, tries } => Stage::Data {
                    offset: offset as int,
                    tries: tries as int,
                },
                At::Over => Stage::Over,
            },
        }
    }
}

/// The header that announces an image of `len` bytes.
pub open spec fn header_of(image: Image, len: u32) -> ImageHeader {
    ImageHeader {
        load_addr: image.load_addr,
        image_len: len,
        image_crc32: image.crc32,
        entry_off: image.entry_off,
        flags: 0,
    }
}

/// Whether a transfer of `len` bytes to `load_addr` may start.
pub open spec fn start_verdict(ready: Ready, load_addr: u64, len: nat) -> Result<
    (),
    SessionErrorView,
> {
    if len > u32::MAX {
        Err(SessionErrorView::ImageTooLarge)
    } else {
        match preflight_verdict(ready, load_addr, len as u32) {
            Err(e) => Err(SessionErrorView::Preflight(e)),
            Ok(()) => Ok(()),
        }
    }
}

impl Upload {
    /// Starts the transfer of `image` to the loader that advertised `ready`, and
    /// gives the header frame to send first.
    pub fn start(ready: &Ready, image: Image) -> (r: Result<(Upload, Outgoing), SessionError>)
        ensures
            match r {
                Ok((u, out)) => {
                    &&& start_verdict(*ready, image.load_addr, image.bytes@.len()) is Ok
                    &&& u@.inv()
                    &&& u@ == (UploadView {
                        image: image.bytes@,
                        chunk: chunk_size(ready.max_chunk),
                        stage: Stage::Header,
                    })
                    &&& out.wf()
                    &&& out@ == frame::frame_bytes(
                        FrameType::Header,
                        header_of(image, image.bytes@.len() as u32).wire(),
                    )
                },
                Err(e) => start_verdict(*ready, image.load_addr, image.bytes@.len()) == Err::<
                    (),
                    SessionErrorView,
                >(e@),
            },
    {
        if image.bytes.len() as u64 > u32::MAX as u64 {
            return Err(SessionError::ImageTooLarge);
        }
        let len: u32 = image.bytes.len() as u32;
        match preflight(ready, &image, len) {
            Err(e) => {
                return Err(SessionError::Preflight(e));
            },
            Ok(()) => {},
        }
        let header = ImageHeader {
            load_addr: image.load_addr,
            image_len: len,
            image_crc32: image.crc32,
            entry_off: image.entry_off,
            flags: 0,
        };
        let out = send_frame(FrameType::Header, &header.to_bytes());
        let most: usize = MAX_PAYLOAD - DataFrame::HEADER;
        let chunk: usize = if ready.max_chunk < 1 {
            1
        } else if ready.max_chunk as usize > most {
            most
        } else {
            ready.max_chunk as usize
        };
        Ok((Upload { bytes: image.bytes, chunk, at: At::Header }, out))
    }

    /// Whether nothing more is to be sent.
    pub fn is_over(&self) -> (over: bool)
        ensures
            over == (self@.stage is Over),
    {
        match self.at {
            At::Over => true,
            _ => false,
        }
    }

    /// How many bytes of the image the loader has acknowledged, and how many
    /// there are.
    pub fn progress(&self) -> (r: (usize, usize))
        requires
            !(self@.stage is Over),
        ensures
            r.0 == match self@.stage {
                Stage::Data { offset, tries: _ } => offset,
                _ => 0,
            },
            r.1 == self@.image.len(),
    {
        match self.at {
            At::Data { offset, tries: _ } => (offset, self.bytes.len()),
            _ => (0, self.bytes.len()),
        }
    }

    fn chunk_end(&self, offset: usize) -> (end: usize)
        requires
            self@.inv(),
            offset < self@.image.len(),
        ensures
            end == self@.chunk_end(offset as int),
            offset < end <= self@.image.len(),
            end - offset <= MAX_PAYLOAD - DataFrame::HEADER,
    {
        if self.chunk < self.bytes.len() - offset {
            offset + self.chunk
        } else {
            self.bytes.len()
        }
    }

    fn data_frame(&self, offset: usize) -> (out: Outgoing)
        requires
            self@.inv(),
            offset < self@.image.len(),
        ensures
            out.wf(),
            out@ == frame::frame_bytes(FrameType::Data, self@.data(offset as int)),
    {
        let end: usize = self.chunk_end(offset);
        let chunk: &[u8] = vstd::slice::slice_subrange(self.bytes.as_slice(), offset, end);
        let data = DataFrame { offset: offset as u32, chunk };
        let mut buf: [u8; MAX_PAYLOAD] = [0u8; MAX_PAYLOAD];
        let n: usize = match data.encode(&mut buf) {
            Ok(n) => n,
            Err(_) => 0,
        };
        assert(buf@.subrange(0, n as int) =~= self@.data(offset as int));
        send_frame(FrameType::Data, &buf[0..n])
    }

    fn proceed(&mut self, offset: usize) -> (a: Action)
        requires
            old(self)@.inv(),
        ensures
            final(self)@.inv(),
            final(self)@ == old(self)@.proceed(offset as int).0,
            action_is(a, old(self)@.proceed(offset as int).1),
    {
        if offset < self.bytes.len() {
            let out = self.data_frame(offset);
            self.at = At::Data { offset, tries: 1 };
            Action::Send(out)
        } else {
            self.at = At::Over;
            Action::Done
        }
    }

    fn retry(&mut self, offset: usize, tries: u32, reason: String) -> (a: Action)
        requires
            old(self)@.inv(),
            old(self)@.stage == (Stage::Data { offset: offset as int, tries: tries as int }),
        ensures
            final(self)@.inv(),
            final(self)@ == old(self)@.retry(offset as int, tries as int, reason@).0,
            action_is(a, old(self)@.retry(offset as int, tries as int, reason@).1),
    {
        if tries <= MAX_RETRIES {
            let out = self.data_frame(offset);
            self.at = At::Data { offset, tries: tries + 1 };
            Action::Send(out)
        } else {
            let end: usize = self.chunk_end(offset);
            self.at = At::Over;
            Action::Fail(SessionError::GaveUp { expected_next: end as u32, reason })
        }
    }

    /// Takes the reply to the frame last sent and says what to do next: a chunk
    /// that is not acknowledged is sent again, up to [`MAX_RETRIES`] times.
    pub fn step(&mut self, reply: Reply) -> (a: Action)
        requires
            old(self)@.inv(),
            !(old(self)@.stage is Over),
        ensures
            final(self)@.inv(),
            final(self)@ == upload_step(old(self)@, reply@).0,
            action_is(a, upload_step(old(self)@, reply@).1),
    {
        let at = self.at;
        let acked = expect(reply, FrameType::Ack);
        match at {
            At::Over => Action::Done,
            At::Header => match acked {
                Err(e) => {
                    self.at = At::Over;
                    Action::Fail(e)
                },
                Ok(_) => self.proceed(0),
            },
            At::Data { offset, tries } => match acked {
                Err(e) => self.retry(offset, tries, e.to_string()),
                Ok(payload) => match Ack::from_bytes(payload.as_slice()) {
                    Err(e) => {
                        self.at = At::Over;
                        Action::Fail(SessionError::MalformedAck(e))
                    },
                    Ok(ack) => {
                        let end: usize = self.chunk_end(offset);
                        if ack.next_offset as usize == end {
                            return self.proceed(end);
                        }
                        let mut reason: String = "loader expected offset ".to_owned();
                        text::push_decimal(&mut reason, ack.next_offset as u64);
                        reason.append(", we are at ");
                        text::push_decimal(&mut reason, end as u64);
                        self.retry(offset, tries, reason)
                    },
                },
            },
        }
    }
}

/// The header that announces an image reads back with what the image is: its
/// load address, length, checksum and entry offset, and no flags.
pub proof fn lemma_header_announces(image: Image, tail: Seq<u8>)
    requires
        image.bytes@.len() <= u32::MAX,
    ensures
        ({
            let sent = header_of(image, image.bytes@.len() as u32).wire();
            let read = ImageHeader::read(sent + tail);
            &&& sent.len() == 24
            &&& read.load_addr == image.load_addr
            &&& read.image_len == image.bytes@.len()
            &&& read.image_crc32 == image.crc32
            &&& read.entry_off == image.entry_off
            &&& read.flags == 0
        }),
{
    message::lemma_image_header_round_trip(header_of(image, image.bytes@.len() as u32), tail);
}

/// A transfer starts exactly if the image is within the loader's limit, at an
/// aligned address, and inside the loader's window.
pub proof fn lemma_start_iff(ready: Ready, load_addr: u64, len: nat)
    ensures
        start_verdict(ready, load_addr, len) is Ok <==> {
            &&& len <= ready.max_image_len
            &&& ready.alignment == 0 || load_addr as int % ready.alignment as int == 0
            &&& ready.load_addr_min <= load_addr
            &&& load_addr + len <= ready.load_addr_max
        },
        len > u32::MAX ==> start_verdict(ready, load_addr, len) == Err::<(), SessionErrorView>(
            SessionErrorView::ImageTooLarge,
        ),
        len <= u32::MAX ==> match preflight_verdict(ready, load_addr, len as u32) {
            Ok(()) => start_verdict(ready, load_addr, len) is Ok,
            Err(e) => start_verdict(ready, load_addr, len) == Err::<(), SessionErrorView>(
                SessionErrorView::Preflight(e),
            ),
        },
{
}

/// Why an image is refused before anything is sent: it is longer than the loader
/// takes; else its address is misaligned; else it ends behind the last address
/// or lies outside the window. The error tells the numbers that were compared.
pub proof fn lemma_preflight_reasons(ready: Ready, load_addr: u64, len: u32)
    ensures
        ({
            let v = preflight_verdict(ready, load_addr, len);
            let large = len > ready.max_image_len;
            let skewed = ready.alignment != 0 && load_addr as int % ready.alignment as int != 0;
            let end = load_addr + len;
            &&& v == Err::<(), PreflightError>(
                PreflightError::TooLarge { len, limit: ready.max_image_len },
            ) <==> large
            &&& v == Err::<(), PreflightError>(
                PreflightError::Misaligned { load_addr, alignment: ready.alignment },
            ) <==> !large && skewed
            &&& v == Err::<(), PreflightError>(PreflightError::AddressOverflow) <==> !large
                && !skewed && end > u64::MAX
            &&& v == Err::<(), PreflightError>(
                PreflightError::OutsideWindow {
                    load_addr,
                    end: end as u64,
                    min: ready.load_addr_min,
                    max: ready.load_addr_max,
                },
            ) <==> !large && !skewed && end <= u64::MAX && (load_addr < ready.load_addr_min || end
                > ready.load_addr_max)
        }),
{
}

/// Of a reply only the awaited type is taken, with its whole payload. An `ERROR`
/// is told as the loader reported it, another frame as unexpected, and a failure
/// as it came.
pub proof fn lemma_awaited(
    ty: FrameType,
    want: FrameType,
    payload: Seq<u8>,
    m: ErrorMsg,
    tail: Seq<u8>,
    why: Seq<char>,
)
    ensures
        expected(ReplyView::Frame(want, payload), want) == Ok::<Seq<u8>, SessionErrorView>(payload),
        want != FrameType::Error ==> expected(
            ReplyView::Frame(FrameType::Error, m.wire() + tail),
            want,
        ) == Err::<Seq<u8>, SessionErrorView>(SessionErrorView::Reported(m)),
        want != FrameType::Error && payload.len() < 6 ==> expected(
            ReplyView::Frame(FrameType::Error, payload),
            want,
        ) == Err::<Seq<u8>, SessionErrorView>(
            SessionErrorView::MalformedError(
                MsgError::Truncated { expected: 6, got: payload.len() as usize },
            ),
        ),
        ty != want && ty != FrameType::Error ==> expected(ReplyView::Frame(ty, payload), want)
            == Err::<Seq<u8>, SessionErrorView>(SessionErrorView::Unexpected { got: ty, want }),
        expected(ReplyView::Failed(why), want) == Err::<Seq<u8>, SessionErrorView>(
            SessionErrorView::Failed(why),
        ),
{
    message::lemma_error_msg_round_trip(m, tail);
}

/// The handshake gives the capabilities that a `READY` holds, whatever follows
/// them. A `READY` that is too short is malformed, and every other reply fails as
/// it does elsewhere.
pub proof fn lemma_ready_taken(m: Ready, tail: Seq<u8>, short: Seq<u8>, reply: ReplyView)
    requires
        short.len() < 32,
    ensures
        handshaken(ReplyView::Frame(FrameType::Ready, m.wire() + tail)) == Ok::<
            Ready,
            SessionErrorView,
        >(m),
        handshaken(ReplyView::Frame(FrameType::Ready, short)) == Err::<Ready, SessionErrorView>(
            SessionErrorView::MalformedReady(
                MsgError::Truncated { expected: 32, got: short.len() as usize },
            ),
        ),
        expected(reply, FrameType::Ready) matches Err(e) ==> handshaken(reply) == Err::<
            Ready,
            SessionErrorView,
        >(e),
{
    message::lemma_ready_round_trip(m, tail);
}

/// A chunk starts at its offset, is as long as the loader takes unless the image
/// ends before that, and travels with its offset.
pub proof fn lemma_chunk_is_slice(u: UploadView, offset: int)
    requires
        u.inv(),
        0 <= offset < u.image.len(),
    ensures
        ({
            let end = u.chunk_end(offset);
            let sent = u.data(offset);
            &&& offset < end <= u.image.len()
            &&& end == u.image.len() || end == offset + u.chunk
            &&& end - offset <= u.chunk
            &&& sent.len() == 4 + (end - offset)
            &&& le::u32_at(sent, 0) == offset
            &&& forall|i: int|
                offset <= i < end ==> #[trigger] u.image[i] == sent[4 + i - offset]
        }),
{
    let chunk = u.image.subrange(offset, u.chunk_end(offset));
    message::lemma_data_round_trip(offset as u32, chunk, Seq::empty());
    let sent = u.data(offset);
    assert forall|i: int| offset <= i < u.chunk_end(offset) implies #[trigger] u.image[i] == sent[4
        + i - offset] by {
        assert(sent.skip(4)[i - offset] == sent[4 + i - offset]);
        assert(chunk[i - offset] == u.image[i]);
    }
}

/// The chunk size is the loader's where that is between one byte and what fits a
/// frame, and the nearer of the two otherwise.
pub proof fn lemma_chunk_size(max_chunk: u16)
    ensures
        1 <= max_chunk <= 1020 ==> chunk_size(max_chunk) == max_chunk,
        max_chunk == 0 ==> chunk_size(max_chunk) == 1,
        max_chunk > 1020 ==> chunk_size(max_chunk) == 1020,
{
}

/// An acknowledged header is followed by the chunk at the start, or by the end
/// where there is nothing to send. Any other reply to the header ends the
/// transfer with its error.
pub proof fn lemma_after_header(u: UploadView, ack: Seq<u8>, reply: ReplyView)
    requires
        u.inv(),
        u.stage is Header,
    ensures
        ({
            let (next, action) = upload_step(u, ReplyView::Frame(FrameType::Ack, ack));
            &&& next.image == u.image
            &&& next.chunk == u.chunk
            &&& u.image.len() > 0 ==> next.stage == (Stage::Data { offset: 0, tries: 1 }) && action
                == ActionView::Send(FrameType::Data, u.data(0))
            &&& u.image.len() == 0 ==> next.stage is Over && action is Done
        }),
        expected(reply, FrameType::Ack) matches Err(e) ==> {
            let (next, action) = upload_step(u, reply);
            &&& next.stage is Over
            &&& action == ActionView::Fail(e)
        },
{
}

/// A chunk whose end is acknowledged is followed by the chunk that starts there,
/// or by the end of the transfer at the end of the image.
pub proof fn lemma_after_chunk(u: UploadView, offset: int, tries: int, tail: Seq<u8>)
    requires
        u.inv(),
        u.stage == (Stage::Data { offset, tries }),
    ensures
        ({
            let end = u.chunk_end(offset);
            let ack = Ack { next_offset: end as u32 };
            let (next, action) = upload_step(
                u,
                ReplyView::Frame(FrameType::Ack, ack.wire() + tail),
            );
            &&& next.image == u.image
            &&& next.chunk == u.chunk
            &&& end < u.image.len() ==> next.stage == (Stage::Data { offset: end, tries: 1 })
                && action == ActionView::Send(FrameType::Data, u.data(end))
            &&& end == u.image.len() ==> next.stage is Over && action is Done
        }),
{
    message::lemma_ack_round_trip(Ack { next_offset: u.chunk_end(offset) as u32 }, tail);
}

/// A chunk that is not acknowledged is sent again as it was, five times at most,
/// whether another offset is acknowledged or the reply is none at all. Then the
/// transfer ends, and tells the last reason. An `ACK` without an offset ends it at
/// once.
pub proof fn lemma_chunk_resent(
    u: UploadView,
    offset: int,
    tries: int,
    next_offset: u32,
    tail: Seq<u8>,
    short: Seq<u8>,
    reply: ReplyView,
)
    requires
        u.inv(),
        u.stage == (Stage::Data { offset, tries }),
        next_offset != u.chunk_end(offset),
        short.len() < 4,
    ensures
        ({
            let wrong = ReplyView::Frame(FrameType::Ack, (Ack { next_offset }).wire() + tail);
            let (next, action) = upload_step(u, wrong);
            &&& tries < 6 ==> {
                &&& next.stage == (Stage::Data { offset, tries: tries + 1 })
                &&& action == ActionView::Send(FrameType::Data, u.data(offset))
            }
            &&& tries == 6 ==> {
                &&& next.stage is Over
                &&& action == ActionView::Fail(
                    SessionErrorView::GaveUp {
                        expected_next: u.chunk_end(offset) as u32,
                        reason: "loader expected offset "@ + text::decimal(next_offset as nat)
                            + ", we are at "@ + text::decimal(u.chunk_end(offset) as nat),
                    },
                )
            }
        }),
        expected(reply, FrameType::Ack) matches Err(e) ==> {
            let (next, action) = upload_step(u, reply);
            &&& tries < 6 ==> {
                &&& next.stage == (Stage::Data { offset, tries: tries + 1 })
                &&& action == ActionView::Send(FrameType::Data, u.data(offset))
            }
            &&& tries == 6 ==> {
                &&& next.stage is Over
                &&& action == ActionView::Fail(
                    SessionErrorView::GaveUp {
                        expected_next: u.chunk_end(offset) as u32,
                        reason: e.text(),
                    },
                )
            }
        },
        upload_step(u, ReplyView::Frame(FrameType::Ack, short)).0.stage is Over,
        upload_step(u, ReplyView::Frame(FrameType::Ack, short)).1 == ActionView::Fail(
            SessionErrorView::MalformedAck(
                MsgError::Truncated { expected: 4, got: short.len() as usize },
            ),
        ),
{
    message::lemma_ack_round_trip(Ack { next_offset }, tail);
}

/// Scanning reads every byte up to the end of the first frame, and all of them
/// if there is none.
pub proof fn lemma_scan_reads(d: DecoderView, bytes: Seq<u8>)
    ensures
        scanned(d, bytes).1 is None ==> scanned(d, bytes).0.phase == stream::phase_after(
            d.phase,
            bytes,
        ),
        scanned(d, bytes).1 is Some ==> scanned(d, bytes).0.phase is Sync0,
    decreases bytes.len(),
{
    if bytes.len() > 0 {
        let next = decoder::push_view(d, bytes[0]);
        lemma_scan_reads(next, bytes.skip(1));
        stream::lemma_first_byte(d.phase, bytes);
    }
}

/// Progress counts in whole percents, rounded down. Nothing to send is done.
pub proof fn lemma_share(done: nat, total: nat)
    ensures
        total > 0 ==> share(done, total) * total <= done * 100 < (share(done, total) + 1) * total,
        total > 0 && done == total ==> share(done, total) == 100,
        total == 0 ==> share(done, total) == 100,
{
    if total > 0 {
        let n = (done * 100) as int;
        let t = total as int;
        vstd::arithmetic::div_mod::lemma_fundamental_div_mod(n, t);
        assert((n / t) * t == t * (n / t)) by (nonlinear_arith);
        assert((n / t + 1) * t == t * (n / t) + t) by (nonlinear_arith);
        if done == total {
            vstd::arithmetic::div_mod::lemma_div_multiples_vanish(100, t);
            assert(t * 100 == n);
        }
    }
}

/// What the loader reports is told in the words of its code, or by the number of
/// a code that is not known, with the detail in hexadecimal.
pub proof fn lemma_report_told(m: ErrorMsg, c: ErrorCode)
    ensures
        m.code == c.value() ==> SessionErrorView::Reported(m).text() == "loader reported error: "@
            + c.text() + " (detail 0x"@ + text::hex(m.detail as nat) + ")"@,
        m.code == 0 || m.code > 12 ==> SessionErrorView::Reported(m).text()
            == "loader reported error: "@ + ("code "@ + text::decimal(m.code as nat))
            + " (detail 0x"@ + text::hex(m.detail as nat) + ")"@,
{
    message::lemma_error_code_round_trip(c, m.code);
}


/// The name of each frame type in what the user is told.
pub proof fn lemma_frame_names()
    ensures
        frame_name(FrameType::Hello) == "Hello"@,
        frame_name(FrameType::Ready) == "Ready"@,
        frame_name(FrameType::Header) == "Header"@,
        frame_name(FrameType::Data) == "Data"@,
        frame_name(FrameType::Ack) == "Ack"@,
        frame_name(FrameType::Error) == "Error"@,
        frame_name(FrameType::Boot) == "Boot"@,
{
}

/// What the user is told when an image is refused before anything is sent: the
/// numbers that were compared, lengths in decimal and addresses in hexadecimal.
pub proof fn lemma_refusal_told(
    len: u32,
    limit: u32,
    load_addr: u64,
    end: u64,
    min: u64,
    max: u64,
    alignment: u32,
)
    ensures
        SessionErrorView::Preflight(PreflightError::TooLarge { len, limit }).text() == "image is "@
            + text::decimal(len as nat) + " bytes but the loader accepts at most "@ + text::decimal(
            limit as nat,
        ),
        SessionErrorView::Preflight(PreflightError::Misaligned { load_addr, alignment }).text()
            == "load address 0x"@ + text::hex(load_addr as nat) + " is not aligned to 0x"@
            + text::hex(alignment as nat),
        SessionErrorView::Preflight(PreflightError::OutsideWindow { load_addr, end, min, max }).text()
            == "image [0x"@ + text::hex(load_addr as nat) + ", 0x"@ + text::hex(end as nat)
            + ") is outside the loader's window [0x"@ + text::hex(min as nat) + ", 0x"@ + text::hex(
            max as nat,
        ) + ")"@,
        SessionErrorView::ImageTooLarge.text() == "image too large"@,
{
}

/// What the user is told of a transfer that failed.
pub proof fn lemma_failure_told(
    expected: usize,
    got: usize,
    ty: FrameType,
    want: FrameType,
    why: Seq<char>,
    expected_next: u32,
)
    ensures
        ({
            let short = MsgError::Truncated { expected, got };
            let told = "payload truncated: need "@ + text::decimal(expected as nat)
                + " bytes, got "@ + text::decimal(got as nat);
            &&& SessionErrorView::MalformedReady(short).text() == "malformed READY: "@ + told
            &&& SessionErrorView::MalformedAck(short).text() == "malformed ACK: "@ + told
            &&& SessionErrorView::MalformedError(short).text() == "malformed ERROR: "@ + told
        }),
        (SessionErrorView::Unexpected { got: ty, want }).text() == "unexpected "@ + frame_name(ty)
            + " frame while awaiting "@ + frame_name(want),
        SessionErrorView::Failed(why).text() == why,
        (SessionErrorView::GaveUp { expected_next, reason: why }).text()
            == "giving up on chunk ending at "@ + text::decimal(expected_next as nat)
            + " after 5 retries: "@ + why,
{
}

} // verus!
