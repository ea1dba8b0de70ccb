//! The loader's protocol state machine: receive an image, validate it, jump.
//!
//! A [`Receiver`] takes the bytes of the line one at a time and answers each
//! with a [`Step`]: bytes to write to RAM, a reply to transmit, and, after a
//! valid `BOOT`, where to branch. The driver performs the step in that order.
//!
//! Safety of the whole design rests on [`validate_header`]: every byte written
//! to RAM lands inside a window that has been checked to sit within physical
//! RAM and to not overlap the running loader, so the loader can never corrupt
//! itself or the payload's neighbours ([`lemma_writes_stay_inside`]). And it
//! branches only to an image that arrived whole and whose CRC matched
//! ([`lemma_boot_only_verified`]).

use vstd::prelude::*;

use crate::conversation;
use crate::crc;
use crate::crc::{Crc32, CRC_INIT};
use crate::decoder;
use crate::decoder::{DecodeError, Decoded, Decoder, DecoderView, PhaseView};
use crate::frame;
use crate::frame::{FrameType, PROTOCOL_VERSION};
use crate::le;
use crate::message;
use crate::message::{Ack, DataFrame, ErrorCode, ErrorMsg, ImageHeader, Ready};
use crate::outgoing::{send_frame, Outgoing};
use crate::stream;
use crate::stream::Event;

verus! {

broadcast use crate::le::group_le_len;

/// Inclusive low bound of the writable window: 2 MiB. Below this sits the
/// loader (at 0x80000), the firmware's low-memory structures, and the exception
/// vector area, all of which must stay untouched.
pub const WINDOW_MIN: u64 = 0x0020_0000;

/// Exclusive high bound of the writable window: 448 MiB. This is the safe floor
/// across the supported boards — set by the Pi Zero 2 W's 512 MiB minus a
/// default 64 MiB `gpu_mem` split (leaving the ARM the bottom 448 MiB), and
/// still valid, just conservative, on the 1 GiB Pi 2/3.
pub const WINDOW_MAX: u64 = 0x1C00_0000;

/// Required alignment of a load address (advertised in `READY`).
pub const REQUIRED_ALIGN: u64 = 0x800;

/// Largest image the loader will accept: the whole window.
pub const MAX_IMAGE_LEN: u32 = 0x1BE0_0000;

/// Largest `DATA` chunk: a full frame payload minus the `offset` field.
pub const MAX_CHUNK: u16 = 1020;

/// Loader build version, advertised in `READY`.
pub const LOADER_VERSION: u32 = 1;

/// A half-open range of physical addresses, such as the running loader occupies.
#[derive(Debug, Clone, Copy, PartialEq, Eq, Structural)]
pub struct Extent {
    /// First address.
    pub start: u64,
    /// First address behind it.
    pub end: u64,
}

/// What the loader advertises.
pub open spec fn capabilities() -> Ready {
    Ready {
        loader_version: LOADER_VERSION,
        max_image_len: MAX_IMAGE_LEN,
        load_addr_min: WINDOW_MIN,
        load_addr_max: WINDOW_MAX,
        alignment: 0x800,
        max_chunk: MAX_CHUNK,
    }
}

/// What is wrong with an image header, if anything. The first fault counts.
pub open spec fn header_verdict(h: ImageHeader, loader: Extent) -> Result<(), ErrorCode> {
    let start = h.load_addr as int;
    let end = h.load_addr + h.image_len;
    if h.image_len == 0 {
        Err(ErrorCode::BadLength)
    } else if h.image_len > WINDOW_MAX - WINDOW_MIN {
        Err(ErrorCode::ImageTooLarge)
    } else if h.load_addr % REQUIRED_ALIGN != 0 {
        Err(ErrorCode::AddrMisaligned)
    } else if start < WINDOW_MIN || WINDOW_MAX < end {
        Err(ErrorCode::AddrOutOfRange)
    } else if start < loader.end && loader.start < end {
        Err(ErrorCode::AddrOverlap)
    } else if h.image_len <= h.entry_off {
        Err(ErrorCode::AddrOutOfRange)
    } else {
        Ok(())
    }
}

/// Validates an image header against the writable window, alignment, and the
/// loader's own footprint. Errors map directly to the wire [`ErrorCode`].
pub fn validate_header(h: &ImageHeader, loader: Extent) -> (r: Result<(), ErrorCode>)
    ensures
        r == header_verdict(*h, loader),
{
    if h.image_len == 0 {
        return Err(ErrorCode::BadLength);
    }
    if h.image_len > MAX_IMAGE_LEN {
        return Err(ErrorCode::ImageTooLarge);
    }
    if h.load_addr % REQUIRED_ALIGN != 0 {
        return Err(ErrorCode::AddrMisaligned);
    }
    let start: u64 = h.load_addr;
    let end: u64 = match start.checked_add(h.image_len as u64) {
        Some(end) => end,
        None => {
            return Err(ErrorCode::AddrOutOfRange);
        },
    };
    if start < WINDOW_MIN || end > WINDOW_MAX {
        return Err(ErrorCode::AddrOutOfRange);
    }
    // Half-open ranges [start,end) and [loader.start,loader.end) overlap iff:
    if start < loader.end && loader.start < end {
        return Err(ErrorCode::AddrOverlap);
    }
    if h.entry_off >= h.image_len {
        return Err(ErrorCode::AddrOutOfRange);
    }
    Ok(())
}

/// The wire code of a frame-decode failure.
pub open spec fn decode_code(e: DecodeError) -> ErrorCode {
    match e {
        DecodeError::BadVersion(_) => ErrorCode::BadVersion,
        DecodeError::UnknownType(_) => ErrorCode::UnknownType,
        DecodeError::LengthTooLarge(_) => ErrorCode::BadLength,
        DecodeError::BadCrc { .. } => ErrorCode::BadCrc,
    }
}

/// The detail sent with it: a host that speaks a later version is told which
/// one the loader supports.
pub open spec fn decode_detail(e: DecodeError) -> u32 {
    match e {
        DecodeError::BadVersion(v) => if v > PROTOCOL_VERSION {
            PROTOCOL_VERSION as u32
        } else {
            0
        },
        _ => 0,
    }
}

/// Maps a frame-decode failure to the wire error code the host expects.
pub fn decode_error_code(e: DecodeError) -> (code: ErrorCode)
    ensures
        code == decode_code(e),
{
    match e {
        DecodeError::BadVersion(_) => ErrorCode::BadVersion,
        DecodeError::UnknownType(_) => ErrorCode::UnknownType,
        DecodeError::LengthTooLarge(_) => ErrorCode::BadLength,
        DecodeError::BadCrc { .. } => ErrorCode::BadCrc,
    }
}

/// The detail that goes with [`decode_error_code`].
pub fn decode_error_detail(e: DecodeError) -> (detail: u32)
    ensures
        detail == decode_detail(e),
{
    match e {
        DecodeError::BadVersion(v) => if v > PROTOCOL_VERSION {
            PROTOCOL_VERSION as u32
        } else {
            0
        },
        _ => 0,
    }
}

/// A `READY` frame: what the loader can take.
pub fn send_ready() -> (out: Outgoing)
    ensures
        out.wf(),
        out@ == frame::frame_bytes(FrameType::Ready, capabilities().wire()),
{
    let ready = Ready {
        loader_version: LOADER_VERSION,
        max_image_len: MAX_IMAGE_LEN,
        load_addr_min: WINDOW_MIN,
        load_addr_max: WINDOW_MAX,
        alignment: REQUIRED_ALIGN as u32,
        max_chunk: MAX_CHUNK,
    };
    send_frame(FrameType::Ready, &ready.to_bytes())
}

/// An `ACK` frame.
pub fn send_ack(next_offset: u32) -> (out: Outgoing)
    ensures
        out.wf(),
        out@ == ack_reply(next_offset),
{
    reveal(ack_reply);
    let ack = Ack { next_offset };
    send_frame(FrameType::Ack, &ack.to_bytes())
}

/// An `ERROR` frame.
pub fn send_error(code: ErrorCode, detail: u32) -> (out: Outgoing)
    ensures
        out.wf(),
        out@ == error_reply(code, detail),
{
    reveal(error_reply);
    send_frame(FrameType::Error, &ErrorMsg::new(code, detail).to_bytes())
}

/// The bytes of an `ACK` frame.
#[verifier::opaque]
pub open spec fn ack_reply(next_offset: u32) -> Seq<u8> {
    frame::frame_bytes(FrameType::Ack, (Ack { next_offset }).wire())
}

/// The bytes of an `ERROR` frame.
#[verifier::opaque]
pub open spec fn error_reply(code: ErrorCode, detail: u32) -> Seq<u8> {
    frame::frame_bytes(FrameType::Error, (ErrorMsg { code: code.value(), detail }).wire())
}

/// An in-progress image transfer, in the model.
pub struct TransferView {
    /// The accepted header.
    pub header: ImageHeader,
    /// The bytes received so far.
    pub image: Seq<u8>,
    /// Whether the completed image's CRC matched the header.
    pub verified: bool,
}

impl TransferView {
    /// What holds of every transfer: its header was accepted, no more than the
    /// announced bytes have arrived, and `verified` tells the truth about them.
    pub open spec fn inv(self, loader: Extent) -> bool {
        &&& header_verdict(self.header, loader) is Ok
        &&& self.image.len() <= self.header.image_len
        &&& self.verified == (self.image.len() == self.header.image_len)
        &&& self.verified ==> crc::crc32_of(self.image) == self.header.image_crc32
    }
}

/// State of an in-progress image transfer.
pub struct Transfer {
    header: ImageHeader,
    /// Bytes written so far; also the offset expected in the next `DATA`.
    received: u32,
    /// Running CRC over the bytes written so far.
    crc: Crc32,
    /// Whether the completed image's CRC matched the header.
    verified: bool,
    /// The bytes written so far.
    image: Ghost<Seq<u8>>,
}

impl View for Transfer {
    type V = TransferView;

    closed spec fn view(&self) -> TransferView {
        TransferView { header: self.header, image: self.image@, verified: self.verified }
    }
}

impl Transfer {
    /// The counter and the running CRC are those of the bytes received.
    pub closed spec fn counters_fit(&self) -> bool {
        &&& self.received == self.image@.len()
        &&& self.crc.register() == crc::crc_fold(CRC_INIT, self.image@)
    }

    /// The invariant of the model and of its counters.
    pub open spec fn wf(&self, loader: Extent) -> bool {
        self.counters_fit() && self@.inv(loader)
    }

    /// A transfer of which nothing has arrived yet.
    fn new(header: ImageHeader) -> (t: Self)
        ensures
            t.counters_fit(),
            t@ == (TransferView { header, image: Seq::empty(), verified: false }),
    {
        Transfer {
            header,
            received: 0,
            crc: Crc32::new(),
            verified: false,
            image: Ghost(Seq::empty()),
        }
    }
}

/// The model of the transfer in progress, if there is one.
pub open spec fn state_of(t: Option<Transfer>) -> Option<TransferView> {
    match t {
        None => None,
        Some(t) => Some(t@),
    }
}

/// The invariant of the loader's state.
pub open spec fn state_inv(s: Option<TransferView>, loader: Extent) -> bool {
    s matches Some(t) ==> t.inv(loader)
}

/// The invariant of the transfer in progress, if there is one.
pub open spec fn transfer_wf(t: Option<Transfer>, loader: Extent) -> bool {
    t matches Some(t) ==> t.wf(loader)
}

/// Bytes to be written to RAM.
pub struct Write<'a> {
    /// Physical address of the first byte.
    pub addr: u64,
    /// The bytes.
    pub chunk: &'a [u8],
}

/// Where to branch, and what to hand over.
#[derive(Debug, Clone, Copy, PartialEq, Eq, Structural)]
pub struct BootInfo {
    /// Address of the image's first instruction.
    pub entry: u64,
    /// Address that the image was loaded at.
    pub load_addr: u64,
    /// Length of the image.
    pub image_len: u32,
}

/// What the loader does in answer to a byte or a frame, in this order.
pub struct Step<'a> {
    /// Written to RAM first.
    pub write: Option<Write<'a>>,
    /// Transmitted next.
    pub reply: Outgoing,
    /// Branched to last; the loader does not come back from it.
    pub boot: Option<BootInfo>,
}

/// A step, in the model.
pub struct StepView {
    /// Address and bytes written to RAM.
    pub write: Option<(int, Seq<u8>)>,
    /// Bytes transmitted.
    pub reply: Seq<u8>,
    /// Where the loader branches to.
    pub boot: Option<BootInfo>,
}

impl<'a> View for Step<'a> {
    type V = StepView;

    open spec fn view(&self) -> StepView {
        StepView {
            write: match self.write {
                None => None,
                Some(w) => Some((w.addr as int, w.chunk@)),
            },
            reply: self.reply@,
            boot: self.boot,
        }
    }
}

/// A step that only transmits.
pub open spec fn replies(reply: Seq<u8>) -> StepView {
    StepView { write: None, reply, boot: None }
}

fn reply<'a>(out: Outgoing) -> (step: Step<'a>)
    requires
        out.wf(),
    ensures
        step.reply.wf(),
        step@ == replies(out@),
{
    Step { write: None, reply: out, boot: None }
}

/// What a `DATA` payload does to the transfer `t`.
pub open spec fn data_step(t: TransferView, payload: Seq<u8>) -> (Option<TransferView>, StepView) {
    let offset = le::u32_at(payload, 0);
    let chunk = payload.skip(DataFrame::HEADER as int);
    let image = t.image + chunk;
    let received = image.len() as u32;
    let write = Some((t.header.load_addr + offset, chunk));
    if payload.len() < DataFrame::HEADER {
        (Some(t), replies(error_reply(ErrorCode::BadLength, 0)))
    } else if offset != t.image.len() {
        (Some(t), replies(error_reply(ErrorCode::OffsetMismatch, t.image.len() as u32)))
    } else if image.len() > t.header.image_len {
        (Some(t), replies(error_reply(ErrorCode::BadLength, offset)))
    } else if image.len() < t.header.image_len {
        (
            Some(TransferView { image, ..t }),
            StepView { write, reply: ack_reply(received), boot: None },
        )
    } else if crc::crc32_of(image) == t.header.image_crc32 {
        (
            Some(TransferView { image, verified: true, ..t }),
            StepView { write, reply: ack_reply(received), boot: None },
        )
    } else {
        (
            None,
            StepView {
                write,
                reply: error_reply(ErrorCode::ImageCrc, crc::crc32_of(image)),
                boot: None,
            },
        )
    }
}

/// What a valid frame does to the loader's state.
#[verifier::opaque]
pub open spec fn frame_step(
    s: Option<TransferView>,
    loader: Extent,
    ty: FrameType,
    payload: Seq<u8>,
) -> (Option<TransferView>, StepView) {
    match ty {
        FrameType::Hello => (
            None,
            replies(frame::frame_bytes(FrameType::Ready, capabilities().wire())),
        ),
        FrameType::Header => if payload.len() < ImageHeader::LEN {
            (s, replies(error_reply(ErrorCode::BadLength, 0)))
        } else {
            match header_verdict(ImageHeader::read(payload), loader) {
                Ok(()) => (
                    Some(
                        TransferView {
                            header: ImageHeader::read(payload),
                            image: Seq::empty(),
                            verified: false,
                        },
                    ),
                    replies(ack_reply(0)),
                ),
                Err(code) => (None, replies(error_reply(code, 0))),
            }
        },
        FrameType::Data => match s {
            None => (None, replies(error_reply(ErrorCode::Unexpected, 0))),
            Some(t) => data_step(t, payload),
        },
        FrameType::Boot => match s {
            Some(t) => if t.verified {
                (
                    s,
                    StepView {
                        write: None,
                        reply: ack_reply(t.image.len() as u32),
                        boot: Some(
                            BootInfo {
                                entry: (t.header.load_addr + t.header.entry_off) as u64,
                                load_addr: t.header.load_addr,
                                image_len: t.header.image_len,
                            },
                        ),
                    },
                )
            } else {
                (s, replies(error_reply(ErrorCode::NoImage, 0)))
            },
            None => (s, replies(error_reply(ErrorCode::NoImage, 0))),
        },
        FrameType::Ready | FrameType::Ack | FrameType::Error => (
            s,
            replies(error_reply(ErrorCode::Unexpected, 0)),
        ),
    }
}

/// Dispatches one validated frame.
pub fn handle_frame<'a>(
    transfer: &mut Option<Transfer>,
    loader: Extent,
    ty: FrameType,
    payload: &'a [u8],
) -> (step: Step<'a>)
    requires
        transfer_wf(*old(transfer), loader),
    ensures
        transfer_wf(*final(transfer), loader),
        step.reply.wf(),
        (state_of(*final(transfer)), step@) == frame_step(
            state_of(*old(transfer)),
            loader,
            ty,
            payload@,
        ),
{
    reveal(frame_step);
    match ty {
        FrameType::Hello => {
            *transfer = None;  // a new session abandons any partial transfer
            reply(send_ready())
        },
        FrameType::Header => match ImageHeader::from_bytes(payload) {
            Ok(header) => match validate_header(&header, loader) {
                Ok(()) => {
                    *transfer = Some(Transfer::new(header));
                    reply(send_ack(0))
                },
                Err(code) => {
                    *transfer = None;
                    reply(send_error(code, 0))
                },
            },
            Err(_) => reply(send_error(ErrorCode::BadLength, 0)),
        },
        FrameType::Data => handle_data(transfer, loader, payload),
        FrameType::Boot => match &*transfer {
            Some(t) if t.verified => Step {
                write: None,
                reply: send_ack(t.received),
                boot: Some(
                    BootInfo {
                        entry: t.header.load_addr + t.header.entry_off as u64,
                        load_addr: t.header.load_addr,
                        image_len: t.header.image_len,
                    },
                ),
            },
            _ => reply(send_error(ErrorCode::NoImage, 0)),
        },
        // These only ever travel Pi→host; receiving one means a confused peer.
        FrameType::Ready | FrameType::Ack | FrameType::Error => reply(
            send_error(ErrorCode::Unexpected, 0),
        ),
    }
}

/// Handles a `DATA` frame: bounds-check, write to RAM, fold into the CRC, ack.
pub fn handle_data<'a>(
    transfer: &mut Option<Transfer>,
    loader: Extent,
    payload: &'a [u8],
) -> (step: Step<'a>)
    requires
        transfer_wf(*old(transfer), loader),
    ensures
        transfer_wf(*final(transfer), loader),
        step.reply.wf(),
        (state_of(*final(transfer)), step@) == match state_of(*old(transfer)) {
            None => (None, replies(error_reply(ErrorCode::Unexpected, 0))),
            Some(t) => data_step(t, payload@),
        },
{
    let mut t: Transfer = match transfer.take() {
        Some(t) => t,
        None => {
            return reply(send_error(ErrorCode::Unexpected, 0));
        },
    };
    let data: DataFrame = match DataFrame::decode(payload) {
        Ok(data) => data,
        Err(_) => {
            *transfer = Some(t);
            return reply(send_error(ErrorCode::BadLength, 0));
        },
    };
    if data.offset != t.received {
        let expected: u32 = t.received;
        *transfer = Some(t);
        return reply(send_error(ErrorCode::OffsetMismatch, expected));
    }
    if data.chunk.len() as u64 > (t.header.image_len - data.offset) as u64 {
        *transfer = Some(t);
        return reply(send_error(ErrorCode::BadLength, data.offset));
    }
    let write = Some(Write { addr: t.header.load_addr + data.offset as u64, chunk: data.chunk });
    proof {
        crc::lemma_crc_streaming(CRC_INIT, t.image@, data.chunk@);
    }
    t.crc.update(data.chunk);
    t.received = t.received + data.chunk.len() as u32;
    t.image = Ghost(t.image@ + data.chunk@);
    if t.received != t.header.image_len {
        let received: u32 = t.received;
        *transfer = Some(t);
        return Step { write, reply: send_ack(received), boot: None };
    }
    // Image complete: verify the end-to-end CRC before allowing a boot.
    let got: u32 = t.crc.clone().finalize();
    if got == t.header.image_crc32 {
        let received: u32 = t.received;
        t.verified = true;
        *transfer = Some(t);
        Step { write, reply: send_ack(received), boot: None }
    } else {
        // The transfer is dropped: the host restarts from HEADER.
        Step { write, reply: send_error(ErrorCode::ImageCrc, got), boot: None }
    }
}

/// What the decoder's report does to the loader's state.
pub open spec fn event_step(s: Option<TransferView>, loader: Extent, e: Event) -> (
    Option<TransferView>,
    StepView,
) {
    match e {
        Event::Error(e) => (s, replies(error_reply(decode_code(e), decode_detail(e)))),
        Event::Frame(ty, payload) => frame_step(s, loader, ty, payload),
    }
}

/// What byte `b` does to the loader's state when its decoder is in `phase`.
pub open spec fn byte_step(
    phase: PhaseView,
    s: Option<TransferView>,
    loader: Extent,
    b: u8,
) -> (Option<TransferView>, StepView) {
    match stream::event(phase, b) {
        None => (s, replies(Seq::empty())),
        Some(e) => event_step(s, loader, e),
    }
}

/// The loader's end of the line: a decoder and the transfer in progress.
pub struct Receiver {
    decoder: Decoder,
    transfer: Option<Transfer>,
    loader: Extent,
}

impl Receiver {
    /// The decoder, in the model.
    pub closed spec fn decoder(&self) -> DecoderView {
        self.decoder@
    }

    /// The transfer in progress, in the model.
    pub closed spec fn state(&self) -> Option<TransferView> {
        state_of(self.transfer)
    }

    /// The footprint of the running loader.
    pub closed spec fn loader(&self) -> Extent {
        self.loader
    }

    /// What holds of every receiver.
    pub closed spec fn wf(&self) -> bool {
        self.decoder.wf() && transfer_wf(self.transfer, self.loader)
    }

    /// A receiver that has heard nothing yet, in a loader that occupies `loader`.
    pub fn new(loader: Extent) -> (r: Self)
        ensures
            r.wf(),
            r.decoder().phase == PhaseView::Sync0,
            r.state() is None,
            r.loader() == loader,
    {
        Receiver { decoder: Decoder::new(), transfer: None, loader }
    }

    /// Takes one byte off the line and says what to do about it.
    pub fn push(&mut self, b: u8) -> (step: Step<'_>)
        requires
            old(self).wf(),
        ensures
            final(self).wf(),
            step.reply.wf(),
            final(self).loader() == old(self).loader(),
            final(self).decoder() == decoder::push_view(old(self).decoder(), b),
            (final(self).state(), step@) == byte_step(
                old(self).decoder().phase,
                old(self).state(),
                old(self).loader(),
                b,
            ),
    {
        proof {
            stream::lemma_push_event(self.decoder@, b);
        }
        match self.decoder.push(b) {
            Decoded::Pending => reply(Outgoing::nothing()),
            Decoded::Error(e) => reply(send_error(decode_error_code(e), decode_error_detail(e))),
            Decoded::Frame(ty) => handle_frame(
                &mut self.transfer,
                self.loader,
                ty,
                self.decoder.payload(),
            ),
        }
    }
}

/// What a loader did over a stretch of input.
pub struct Served {
    /// Everything transmitted.
    pub sent: Vec<u8>,
    /// Everything written to RAM, in order: address and bytes.
    pub written: Vec<(u64, Vec<u8>)>,
    /// Where the loader branched to.
    pub boot: Option<BootInfo>,
}

/// Writes, in the model.
pub open spec fn write_views(writes: Seq<(u64, Vec<u8>)>) -> Seq<(int, Seq<u8>)> {
    writes.map_values(|w: (u64, Vec<u8>)| (w.0 as int, w.1@))
}

/// Runs the loader over `input`: greets a host that is already listening, then
/// services the protocol until a valid `BOOT` branches away to the loaded image
/// or the input ends.
pub fn run(loader: Extent, input: &[u8]) -> (served: Served)
    ensures
        ({
            let log = conversation::run(
                conversation::greeted(),
                loader,
                PhaseView::Sync0,
                input@,
            );
            &&& served.sent@ == log.sent
            &&& write_views(served.written@) == log.written
            &&& served.boot == log.boot
        }),
{
    let mut receiver = Receiver::new(loader);
    let mut served = Served { sent: Vec::new(), written: Vec::new(), boot: None };
    served.sent.extend_from_slice(send_ready().bytes());
    let mut i: usize = 0;
    let ghost start = conversation::greeted();
    assert(served.sent@ =~= start.sent);
    assert(write_views(served.written@) =~= start.written);
    assert(input@.take(0) =~= Seq::<u8>::empty());
    while i < input.len()
        invariant
            i <= input@.len(),
            receiver.wf(),
            receiver.loader() == loader,
            receiver.decoder().phase == stream::phase_after(
                PhaseView::Sync0,
                input@.take(i as int),
            ),
            start == conversation::greeted(),
            ({
                let log = conversation::run(start, loader, PhaseView::Sync0, input@.take(i as int));
                &&& served.sent@ == log.sent
                &&& write_views(served.written@) == log.written
                &&& served.boot is None
                &&& log.boot is None
                &&& receiver.state() == log.state
            }),
        decreases input@.len() - i,
    {
        let ghost sent = served.sent@;
        let ghost written = served.written@;
        proof {
            assert(input@.take(i + 1).drop_last() =~= input@.take(i as int));
        }
        let step = receiver.push(input[i]);
        if let Some(w) = step.write {
            served.written.push((w.addr, vstd::slice::slice_to_vec(w.chunk)));
            assert(write_views(served.written@) =~= write_views(written).push(
                (w.addr as int, w.chunk@),
            ));
        }
        served.sent.extend_from_slice(step.reply.bytes());
        assert(served.sent@ =~= sent + step@.reply);
        served.boot = step.boot;
        i = i + 1;
        if served.boot.is_some() {
            proof {
                conversation::lemma_run_stops(
                    start,
                    loader,
                    PhaseView::Sync0,
                    input@.take(i as int),
                    input@.skip(i as int),
                );
                assert(input@.take(i as int) + input@.skip(i as int) =~= input@);
            }
            return served;
        }
    }
    assert(input@.take(input@.len() as int) =~= input@);
    served
}

/// Every write of a step stays inside the image's own range, inside the
/// writable window, and clear of the running loader.
pub proof fn lemma_writes_stay_inside(s: Option<TransferView>, loader: Extent, e: Event)
    requires
        state_inv(s, loader),
    ensures
        event_step(s, loader, e).1.write matches Some((addr, bytes)) ==> {
            &&& s matches Some(t)
            &&& t.header.load_addr <= addr
            &&& addr + bytes.len() <= t.header.load_addr + t.header.image_len
            &&& WINDOW_MIN <= addr
            &&& addr + bytes.len() <= WINDOW_MAX
            &&& addr + bytes.len() <= loader.start || loader.end <= addr
        },
{
    reveal(frame_step);
}

/// The loader's state keeps its invariant, whatever comes down the line.
pub proof fn lemma_state_inv(s: Option<TransferView>, loader: Extent, e: Event)
    requires
        state_inv(s, loader),
    ensures
        state_inv(event_step(s, loader, e).0, loader),
{
    reveal(frame_step);
}

/// The loader branches only on `BOOT`, only when an image has arrived whole and
/// its CRC is the announced one, and only into that image.
pub proof fn lemma_boot_only_verified(s: Option<TransferView>, loader: Extent, e: Event)
    requires
        state_inv(s, loader),
    ensures
        event_step(s, loader, e).1.boot matches Some(boot) ==> {
            &&& e is Frame && e->Frame_0 == FrameType::Boot
            &&& s matches Some(t)
            &&& t.image.len() == t.header.image_len
            &&& crc::crc32_of(t.image) == t.header.image_crc32
            &&& boot.load_addr == t.header.load_addr
            &&& boot.image_len == t.header.image_len
            &&& boot.entry == t.header.load_addr + t.header.entry_off
            &&& boot.load_addr <= boot.entry < boot.load_addr + boot.image_len
        },
{
    reveal(frame_step);
}

/// `BOOT` with no complete, verified image is answered `NoImage` and changes
/// nothing.
pub proof fn lemma_boot_without_image(s: Option<TransferView>, loader: Extent, payload: Seq<u8>)
    requires
        state_inv(s, loader),
        s matches Some(t) ==> t.image.len() < t.header.image_len,
    ensures
        frame_step(s, loader, FrameType::Boot, payload) == (
            s,
            replies(error_reply(ErrorCode::NoImage, 0)),
        ),
{
    reveal(frame_step);
}

/// `DATA` without an accepted header is refused, and nothing is written.
pub proof fn lemma_data_needs_header(loader: Extent, payload: Seq<u8>)
    ensures
        frame_step(None, loader, FrameType::Data, payload) == (
            None::<TransferView>,
            replies(error_reply(ErrorCode::Unexpected, 0)),
        ),
{
    reveal(frame_step);
}

/// A retransmitted `DATA` frame, sent again because its ACK was lost, is
/// answered with the offset that the loader expects next and changes nothing;
/// only a chunk that completed an image with a wrong CRC has ended the transfer.
pub proof fn lemma_data_resent(t: TransferView, loader: Extent, chunk: Seq<u8>)
    requires
        t.inv(loader),
        0 < chunk.len(),
        t.image.len() + chunk.len() <= t.header.image_len,
    ensures
        ({
            let payload = message::data_wire(t.image.len() as u32, chunk);
            let image = t.image + chunk;
            let (s, first) = frame_step(Some(t), loader, FrameType::Data, payload);
            &&& s is None <==> image.len() == t.header.image_len && crc::crc32_of(image)
                != t.header.image_crc32
            &&& s matches Some(t2) ==> {
                &&& t2.image == image
                &&& first.reply == ack_reply(image.len() as u32)
                &&& frame_step(s, loader, FrameType::Data, payload) == (
                    s,
                    replies(error_reply(ErrorCode::OffsetMismatch, image.len() as u32)),
                )
            }
        }),
{
    reveal(frame_step);
    let payload = message::data_wire(t.image.len() as u32, chunk);
    message::lemma_data_round_trip(t.image.len() as u32, chunk, payload);
}

/// A frame that was damaged on the way leaves the transfer as it was, so the
/// host may send it again.
pub proof fn lemma_damaged_frame_changes_nothing(
    s: Option<TransferView>,
    loader: Extent,
    e: DecodeError,
)
    ensures
        event_step(s, loader, Event::Error(e)).0 == s,
        event_step(s, loader, Event::Error(e)).1.write is None,
        event_step(s, loader, Event::Error(e)).1.boot is None,
{
}

/// Every frame and every rejected frame is answered by exactly one frame, and a
/// reply other than `READY` and `ACK` is an `ERROR`.
pub proof fn lemma_one_reply(s: Option<TransferView>, loader: Extent, e: Event)
    requires
        state_inv(s, loader),
    ensures
        ({
            let r = event_step(s, loader, e).1.reply;
            ||| r == frame::frame_bytes(FrameType::Ready, capabilities().wire())
            ||| exists|next: u32| r == #[trigger] ack_reply(next)
            ||| exists|code: ErrorCode, detail: u32| r == #[trigger] error_reply(code, detail)
        }),
{
    reveal(frame_step);
}

/// A header is accepted exactly if the image is not empty, starts at a multiple
/// of 2 KiB, lies inside the window of the bottom 448 MiB above 2 MiB, shares no
/// address with the running loader, and has its entry point inside it. The
/// loader occupies at least one address.
pub proof fn lemma_header_accepted_iff(h: ImageHeader, loader: Extent)
    requires
        loader.start < loader.end,
    ensures
        header_verdict(h, loader) is Ok <==> {
            &&& h.image_len > 0
            &&& exists|k: int| h.load_addr == #[trigger] (k * 0x800)
            &&& 0x20_0000 <= h.load_addr
            &&& h.load_addr + h.image_len <= 0x1C00_0000
            &&& forall|a: int|
                h.load_addr <= a < h.load_addr + h.image_len ==> !(#[trigger] in_extent(
                    loader,
                    a,
                ))
            &&& h.entry_off < h.image_len
        },
{
    let end = h.load_addr + h.image_len;
    if h.load_addr % REQUIRED_ALIGN == 0 {
        assert(h.load_addr == (h.load_addr / 0x800) * 0x800);
    }
    if exists|k: int| h.load_addr == #[trigger] (k * 0x800) {
        let k = choose|k: int| h.load_addr == #[trigger] (k * 0x800);
        assert(h.load_addr % REQUIRED_ALIGN == 0);
    }
    if h.load_addr < loader.end && loader.start < end && h.image_len > 0 {
        let a = if h.load_addr < loader.start {
            loader.start as int
        } else {
            h.load_addr as int
        };
        assert(in_extent(loader, a));
    }
}

/// Whether address `a` belongs to an extent.
pub open spec fn in_extent(e: Extent, a: int) -> bool {
    e.start <= a < e.end
}

/// Why a header is refused, on the header's own fields: an empty image, one that
/// is larger than the window, a misaligned address, an image that shares an
/// address with the loader, and, of what is left, an image or an entry point
/// that lies outside. The loader occupies at least one address.
pub proof fn lemma_header_refusals(h: ImageHeader, loader: Extent)
    requires
        loader.start < loader.end,
    ensures
        ({
            let v = header_verdict(h, loader);
            let sized = 0 < h.image_len <= 0x1BE0_0000;
            let aligned = h.load_addr % 0x800 == 0;
            let inside = 0x20_0000 <= h.load_addr && h.load_addr + h.image_len <= 0x1C00_0000;
            let shared = exists|a: int|
                h.load_addr <= a < h.load_addr + h.image_len && #[trigger] in_extent(loader, a);
            &&& v == Err::<(), ErrorCode>(ErrorCode::BadLength) <==> h.image_len == 0
            &&& v == Err::<(), ErrorCode>(ErrorCode::ImageTooLarge) <==> h.image_len > 0x1BE0_0000
            &&& v == Err::<(), ErrorCode>(ErrorCode::AddrMisaligned) <==> sized && !aligned
            &&& v == Err::<(), ErrorCode>(ErrorCode::AddrOverlap) <==> sized && aligned && inside
                && shared
            &&& v == Err::<(), ErrorCode>(ErrorCode::AddrOutOfRange) <==> sized && aligned && (
            !inside || (!shared && h.entry_off >= h.image_len))
        }),
{
    let end = h.load_addr + h.image_len;
    if h.load_addr < loader.end && loader.start < end && h.image_len > 0 {
        let a = if h.load_addr < loader.start {
            loader.start as int
        } else {
            h.load_addr as int
        };
        assert(in_extent(loader, a));
    }
}

/// What the loader says of itself is what its checks go by.
pub proof fn lemma_capabilities()
    ensures
        capabilities().loader_version == 1,
        capabilities().max_image_len == 0x1BE0_0000,
        capabilities().load_addr_min == 0x20_0000,
        capabilities().load_addr_max == 0x1C00_0000,
        capabilities().alignment == 0x800,
        capabilities().max_chunk == 1020,
{
}

/// Every way a frame can fail to decode has a code of its own on the wire, and
/// only a host of a later version is told the version that is supported.
pub proof fn lemma_decode_answers(v: u8, n: u16, found: u32, computed: u32)
    ensures
        decode_code(DecodeError::BadVersion(v)).value() == 1,
        decode_code(DecodeError::BadCrc { found, expected: computed }).value() == 2,
        decode_code(DecodeError::LengthTooLarge(n)).value() == 3,
        decode_code(DecodeError::UnknownType(v)).value() == 4,
        v > 1 ==> decode_detail(DecodeError::BadVersion(v)) == 1,
        v <= 1 ==> decode_detail(DecodeError::BadVersion(v)) == 0,
        decode_detail(DecodeError::BadCrc { found, expected: computed }) == 0,
        decode_detail(DecodeError::LengthTooLarge(n)) == 0,
        decode_detail(DecodeError::UnknownType(v)) == 0,
{
}

/// A rejected frame is answered with its code and detail, and a byte that
/// completes nothing is not answered at all.
pub proof fn lemma_byte_answers(
    phase: PhaseView,
    s: Option<TransferView>,
    loader: Extent,
    b: u8,
    e: DecodeError,
)
    ensures
        stream::event(phase, b) is None ==> byte_step(phase, s, loader, b) == (
            s,
            StepView { write: None, reply: Seq::empty(), boot: None },
        ),
        stream::event(phase, b) == Some(Event::Error(e)) ==> byte_step(phase, s, loader, b) == (
            s,
            StepView {
                write: None,
                reply: error_reply(decode_code(e), decode_detail(e)),
                boot: None,
            },
        ),
        stream::event(phase, b) matches Some(Event::Frame(ty, payload)) ==> byte_step(
            phase,
            s,
            loader,
            b,
        ) == frame_step(s, loader, ty, payload),
{
}

/// A `HEADER` frame that carries header `h`, whatever follows it: an accepted
/// header starts an empty transfer of exactly that header, a refused one ends any
/// transfer and is answered with the reason. One that is too short changes
/// nothing.
pub proof fn lemma_header_frame(
    s: Option<TransferView>,
    loader: Extent,
    h: ImageHeader,
    tail: Seq<u8>,
    short: Seq<u8>,
)
    requires
        short.len() < 24,
    ensures
        ({
            let (next, step) = frame_step(s, loader, FrameType::Header, h.wire() + tail);
            &&& step.write is None
            &&& step.boot is None
            &&& header_verdict(h, loader) is Ok ==> {
                &&& next matches Some(t)
                &&& t.header == h
                &&& t.image.len() == 0
                &&& !t.verified
                &&& step.reply == ack_reply(0)
            }
            &&& header_verdict(h, loader) matches Err(code) ==> {
                &&& next is None
                &&& step.reply == error_reply(code, 0)
            }
        }),
        frame_step(s, loader, FrameType::Header, short).0 == s,
        frame_step(s, loader, FrameType::Header, short).1.write is None,
        frame_step(s, loader, FrameType::Header, short).1.boot is None,
        frame_step(s, loader, FrameType::Header, short).1.reply == error_reply(
            ErrorCode::BadLength,
            0,
        ),
{
    reveal(frame_step);
    message::lemma_image_header_round_trip(h, tail);
}

/// A chunk at the expected offset that does not pass the announced end is
/// written right behind what has arrived and becomes part of the image. Its
/// length is acknowledged, unless the image is now complete and its CRC is not
/// the announced one: that ends the transfer and is answered with the CRC found.
pub proof fn lemma_data_taken(t: TransferView, loader: Extent, chunk: Seq<u8>)
    requires
        t.inv(loader),
        t.image.len() + chunk.len() <= t.header.image_len,
    ensures
        ({
            let n = t.image.len();
            let all = n + chunk.len();
            let (next, step) = frame_step(
                Some(t),
                loader,
                FrameType::Data,
                message::data_wire(n as u32, chunk),
            );
            let broken = all == t.header.image_len && crc::crc32_of(t.image + chunk)
                != t.header.image_crc32;
            &&& step.write == Some((t.header.load_addr + n, chunk))
            &&& step.boot is None
            &&& broken ==> {
                &&& next is None
                &&& step.reply == error_reply(ErrorCode::ImageCrc, crc::crc32_of(t.image + chunk))
            }
            &&& !broken ==> {
                &&& next matches Some(t2)
                &&& t2.header == t.header
                &&& t2.image == t.image + chunk
                &&& t2.verified == (all == t.header.image_len)
                &&& step.reply == ack_reply(all as u32)
            }
        }),
{
    reveal(frame_step);
    let payload = message::data_wire(t.image.len() as u32, chunk);
    message::lemma_data_round_trip(t.image.len() as u32, chunk, payload);
}

/// `DATA` at another offset, past the announced end, or without an offset, is
/// refused with the matching code and changes nothing.
pub proof fn lemma_data_refused(
    t: TransferView,
    loader: Extent,
    offset: u32,
    chunk: Seq<u8>,
    short: Seq<u8>,
)
    requires
        t.inv(loader),
        short.len() < 4,
    ensures
        ({
            let (next, step) = frame_step(
                Some(t),
                loader,
                FrameType::Data,
                message::data_wire(offset, chunk),
            );
            &&& offset != t.image.len() ==> {
                &&& next == Some(t)
                &&& step.write is None
                &&& step.boot is None
                &&& step.reply == error_reply(ErrorCode::OffsetMismatch, t.image.len() as u32)
            }
            &&& offset == t.image.len() && offset + chunk.len() > t.header.image_len ==> {
                &&& next == Some(t)
                &&& step.write is None
                &&& step.boot is None
                &&& step.reply == error_reply(ErrorCode::BadLength, offset)
            }
        }),
        frame_step(Some(t), loader, FrameType::Data, short) == (
            Some(t),
            StepView {
                write: None,
                reply: error_reply(ErrorCode::BadLength, 0),
                boot: None,
            },
        ),
{
    reveal(frame_step);
    message::lemma_data_round_trip(offset, chunk, short);
}

/// `BOOT` of a complete image is acknowledged with its length and branches to its
/// entry point, whatever payload comes with it. The transfer is kept.
pub proof fn lemma_boot_branches(t: TransferView, loader: Extent, payload: Seq<u8>)
    requires
        t.inv(loader),
        t.image.len() == t.header.image_len,
    ensures
        ({
            let (next, step) = frame_step(Some(t), loader, FrameType::Boot, payload);
            &&& next == Some(t)
            &&& step.write is None
            &&& step.reply == ack_reply(t.header.image_len)
            &&& step.boot matches Some(boot)
            &&& boot.entry == t.header.load_addr + t.header.entry_off
            &&& boot.load_addr == t.header.load_addr
            &&& boot.image_len == t.header.image_len
        }),
{
    reveal(frame_step);
}

/// A frame that only the loader sends is refused and changes nothing.
pub proof fn lemma_wrong_direction(
    s: Option<TransferView>,
    loader: Extent,
    ty: FrameType,
    payload: Seq<u8>,
)
    requires
        ty == FrameType::Ready || ty == FrameType::Ack || ty == FrameType::Error,
    ensures
        frame_step(s, loader, ty, payload) == (
            s,
            StepView {
                write: None,
                reply: error_reply(ErrorCode::Unexpected, 0),
                boot: None,
            },
        ),
{
    reveal(frame_step);
}

/// `HELLO` abandons any transfer and is answered with the loader's capabilities,
/// whatever payload comes with it.
pub proof fn lemma_hello_restarts(s: Option<TransferView>, loader: Extent, payload: Seq<u8>)
    ensures
        frame_step(s, loader, FrameType::Hello, payload).0 is None,
        frame_step(s, loader, FrameType::Hello, payload).1 == (StepView {
            write: None,
            reply: frame::frame_bytes(FrameType::Ready, capabilities().wire()),
            boot: None,
        }),
{
    reveal(frame_step);
}

/// For every extent, also one that holds no address: a header is accepted exactly
/// if it is sized, aligned, inside the window, with its entry point inside the
/// image, and the image ends before the loader starts or starts where the loader
/// ends or later.
pub proof fn lemma_header_clear_of_loader(h: ImageHeader, loader: Extent)
    ensures
        ({
            let v = header_verdict(h, loader);
            let fits = 0 < h.image_len && h.load_addr % 0x800 == 0 && 0x20_0000 <= h.load_addr
                && h.load_addr + h.image_len <= 0x1C00_0000;
            let clear = h.load_addr + h.image_len <= loader.start || loader.end <= h.load_addr;
            &&& v is Ok <==> fits && clear && h.entry_off < h.image_len
            &&& v == Err::<(), ErrorCode>(ErrorCode::AddrOverlap) <==> fits && !clear
        }),
{
}

} // verus!
