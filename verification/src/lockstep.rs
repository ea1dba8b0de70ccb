//! Host and loader together.
//!
//! The two state machines are coupled over a line that delivers what is sent.
//! The laws say that a transfer always ends, that the host's checks agree with
//! the loader's, and that the transfer of an image that a loader would take
//! leaves the loader with exactly that image, verified.

use vstd::prelude::*;

use crate::artifact::Image;
use crate::conversation;
use crate::crc;
use crate::decoder::{DecodeError, PhaseView};
use crate::frame;
use crate::frame::FrameType;
use crate::message;
use crate::message::{Ack, ErrorCode, ErrorMsg, ImageHeader, Ready};
use crate::receive;
use crate::receive::{Extent, TransferView};
use crate::session;
use crate::session::{ActionView, ReplyView, SessionErrorView, Stage, UploadView, MAX_RETRIES};
use crate::stream;
use crate::stream::Event;

verus! {

broadcast use crate::le::group_le_len;

/// How many more frames a transfer can send, at most.
pub open spec fn frames_left(u: UploadView) -> int {
    match u.stage {
        Stage::Header => (MAX_RETRIES + 1) * u.image.len() + 1,
        Stage::Data { offset, tries } => (MAX_RETRIES + 1) * (u.image.len() - offset) + 1 - tries,
        Stage::Over => 0,
    }
}

/// Whatever the loader replies, a transfer ends: each reply leaves fewer frames
/// to send, and a transfer that is over sends none.
pub proof fn lemma_transfer_ends(u: UploadView, reply: ReplyView)
    requires
        u.inv(),
        !(u.stage is Over),
    ensures
        ({
            let (next, action) = session::upload_step(u, reply);
            &&& next.inv()
            &&& 0 <= frames_left(next) < frames_left(u)
            &&& action is Send <==> !(next.stage is Over)
        }),
{
}

/// The host's checks before a transfer are the loader's own on size, alignment
/// and window: what the host lets through, the loader does not refuse for one of
/// these.
pub proof fn lemma_preflight_agrees(h: ImageHeader, loader: Extent)
    ensures
        session::preflight_verdict(receive::capabilities(), h.load_addr, h.image_len) is Ok ==> {
            ||| receive::header_verdict(h, loader) is Ok
            ||| h.image_len == 0
            ||| receive::header_verdict(h, loader) == Err::<(), ErrorCode>(ErrorCode::AddrOverlap)
            ||| h.entry_off >= h.image_len
        },
        receive::header_verdict(h, loader) is Ok ==> session::preflight_verdict(
            receive::capabilities(),
            h.load_addr,
            h.image_len,
        ) is Ok,
{
}

/// What a host hears when `reply` comes down an undisturbed line.
pub open spec fn heard(reply: Seq<u8>) -> ReplyView {
    match stream::first_frame(stream::events(PhaseView::Sync0, reply)) {
        Some((ty, payload)) => ReplyView::Frame(ty, payload),
        None => ReplyView::Failed(Seq::empty()),
    }
}

/// One message from the host, the loader's answer, and what the host makes of
/// it.
pub open spec fn round(
    u: UploadView,
    ty: FrameType,
    payload: Seq<u8>,
    s: Option<TransferView>,
    loader: Extent,
) -> (UploadView, ActionView, Option<TransferView>) {
    let (s2, step) = receive::frame_step(s, loader, ty, payload);
    let (u2, action) = session::upload_step(u, heard(step.reply));
    (u2, action, s2)
}

/// At most `n` rounds, as long as the host has something to send.
pub open spec fn rounds(
    u: UploadView,
    action: ActionView,
    s: Option<TransferView>,
    loader: Extent,
    n: nat,
) -> (ActionView, Option<TransferView>)
    decreases n,
{
    match action {
        ActionView::Send(ty, payload) => if n > 0 {
            let (u2, action2, s2) = round(u, ty, payload, s, loader);
            rounds(u2, action2, s2, loader, (n - 1) as nat)
        } else {
            (action, s)
        },
        _ => (action, s),
    }
}

/// An ACK is heard as it was sent.
pub proof fn lemma_ack_heard(next_offset: u32)
    ensures
        heard(receive::ack_reply(next_offset)) == ReplyView::Frame(
            FrameType::Ack,
            (Ack { next_offset }).wire(),
        ),
        (Ack { next_offset }).wire().len() == Ack::LEN,
        Ack::read((Ack { next_offset }).wire()) == (Ack { next_offset }),
{
    reveal(receive::ack_reply);
    let m = Ack { next_offset };
    message::lemma_ack_round_trip(m, Seq::empty());
    assert(m.wire() + Seq::<u8>::empty() =~= m.wire());
    stream::lemma_frame_round_trip(PhaseView::Sync0, FrameType::Ack, m.wire());
}

/// The loader's transfer when the first `n` bytes of an image have arrived.
pub open spec fn partial(header: ImageHeader, image: Seq<u8>, n: int) -> Option<TransferView> {
    Some(TransferView { header, image: image.take(n), verified: n == image.len() })
}

/// Lockstep: the loader takes the chunk that the host sends and acknowledges
/// it, and the host goes on with the next, in every state that a transfer of an
/// acceptable image can be in.
pub proof fn lemma_lockstep(
    u: UploadView,
    header: ImageHeader,
    loader: Extent,
    offset: int,
    tries: int,
)
    requires
        u.inv(),
        u.stage == (Stage::Data { offset, tries }),
        conversation::acceptable(header, u.image, loader),
    ensures
        ({
            let end = u.chunk_end(offset);
            round(
                u,
                FrameType::Data,
                u.data(offset),
                partial(header, u.image, offset),
                loader,
            ) == (u.proceed(end).0, u.proceed(end).1, partial(header, u.image, end))
        }),
{
    let end = u.chunk_end(offset);
    conversation::lemma_chunk_accepted(header, u.image, loader, offset, end);
    lemma_ack_heard(end as u32);
}

/// A chunk that is damaged on its way costs one retry and nothing else: the
/// loader keeps what it has, and the host sends the same chunk again, as it does
/// when no reply comes at all.
pub proof fn lemma_retry_after_damage(
    u: UploadView,
    s: Option<TransferView>,
    loader: Extent,
    offset: int,
    tries: int,
    e: DecodeError,
    why: Seq<char>,
)
    requires
        u.inv(),
        u.stage == (Stage::Data { offset, tries }),
        tries <= MAX_RETRIES,
    ensures
        ({
            let (s2, step) = receive::event_step(s, loader, Event::Error(e));
            let again = (
                UploadView { stage: Stage::Data { offset, tries: tries + 1 }, ..u },
                ActionView::Send(FrameType::Data, u.data(offset)),
            );
            &&& s2 == s
            &&& session::upload_step(u, heard(step.reply)) == again
            &&& session::upload_step(u, ReplyView::Failed(why)) == again
        }),
{
    lemma_error_through_frame(
        receive::decode_code(e),
        receive::decode_detail(e),
        FrameType::Ack,
    );
}

/// The chunk at `offset` is damaged `n` times on its way, and then arrives.
pub open spec fn delivered_after(
    u: UploadView,
    offset: int,
    s: Option<TransferView>,
    loader: Extent,
    e: DecodeError,
    n: nat,
) -> (UploadView, ActionView, Option<TransferView>)
    decreases n,
{
    if n == 0 {
        round(u, FrameType::Data, u.data(offset), s, loader)
    } else {
        let (s2, step) = receive::event_step(s, loader, Event::Error(e));
        let u2 = session::upload_step(u, heard(step.reply)).0;
        delivered_after(u2, offset, s2, loader, e, (n - 1) as nat)
    }
}

/// A chunk may be damaged as often as the host retries: when it then arrives,
/// both ends are where they would be had nothing happened.
pub proof fn lemma_chunk_survives_damage(
    u: UploadView,
    header: ImageHeader,
    loader: Extent,
    offset: int,
    tries: int,
    e: DecodeError,
    n: nat,
)
    requires
        u.inv(),
        u.stage == (Stage::Data { offset, tries }),
        conversation::acceptable(header, u.image, loader),
        tries + n <= MAX_RETRIES + 1,
    ensures
        ({
            let end = u.chunk_end(offset);
            delivered_after(u, offset, partial(header, u.image, offset), loader, e, n) == (
                u.proceed(end).0,
                u.proceed(end).1,
                partial(header, u.image, end),
            )
        }),
    decreases n,
{
    let s = partial(header, u.image, offset);
    if n == 0 {
        lemma_lockstep(u, header, loader, offset, tries);
    } else {
        lemma_retry_after_damage(u, s, loader, offset, tries, e, Seq::empty());
        let u2 = UploadView { stage: Stage::Data { offset, tries: tries + 1 }, ..u };
        lemma_chunk_survives_damage(u2, header, loader, offset, tries + 1, e, (n - 1) as nat);
    }
}

proof fn lemma_chunks_complete(
    u: UploadView,
    header: ImageHeader,
    loader: Extent,
    offset: int,
    n: nat,
)
    requires
        u.inv(),
        conversation::acceptable(header, u.image, loader),
        0 <= offset <= u.image.len(),
        u.image.len() - offset <= n,
    ensures
        rounds(
            u.proceed(offset).0,
            u.proceed(offset).1,
            partial(header, u.image, offset),
            loader,
            n,
        ) == (ActionView::Done, partial(header, u.image, u.image.len() as int)),
    decreases n,
{
    if offset < u.image.len() {
        let u1 = u.proceed(offset).0;
        let end = u1.chunk_end(offset);
        lemma_lockstep(u1, header, loader, offset, 1);
        lemma_chunks_complete(u1, header, loader, end, (n - 1) as nat);
    }
}

/// A transfer of an acceptable image completes, whatever the loader held before,
/// and leaves the loader with exactly that image, verified: `BOOT` will start
/// it.
pub proof fn lemma_transfer_completes(
    u: UploadView,
    header: ImageHeader,
    s: Option<TransferView>,
    loader: Extent,
    n: nat,
)
    requires
        u.inv(),
        u.stage is Header,
        conversation::acceptable(header, u.image, loader),
        u.image.len() < n,
    ensures
        rounds(
            u,
            ActionView::Send(FrameType::Header, header.wire()),
            s,
            loader,
            n,
        ) == (
            ActionView::Done,
            Some(TransferView { header, image: u.image, verified: true }),
        ),
{
    conversation::lemma_header_accepted(header, loader, s);
    lemma_ack_heard(0);
    let (s2, step) = receive::frame_step(s, loader, FrameType::Header, header.wire());
    assert(s2->0.image =~= u.image.take(0));
    assert(s2 == partial(header, u.image, 0));
    lemma_chunks_complete(u, header, loader, 0, (n - 1) as nat);
    assert(u.image.take(u.image.len() as int) =~= u.image);
}

/// Full stack: the capabilities that a loader frames are the ones that the host
/// takes out of the frame.
pub proof fn lemma_ready_through_frame(ready: Ready)
    ensures
        session::handshaken(
            heard(frame::frame_bytes(FrameType::Ready, ready.wire())),
        ) == Ok::<Ready, SessionErrorView>(ready),
{
    message::lemma_ready_round_trip(ready, Seq::empty());
    assert(ready.wire() + Seq::<u8>::empty() =~= ready.wire());
    stream::lemma_frame_round_trip(PhaseView::Sync0, FrameType::Ready, ready.wire());
}

/// What a refused request is answered with reaches the host as the loader's
/// error: its code and its detail.
pub proof fn lemma_error_through_frame(code: ErrorCode, detail: u32, want: FrameType)
    requires
        want != FrameType::Error,
    ensures
        session::expected(heard(receive::error_reply(code, detail)), want) == Err::<
            Seq<u8>,
            SessionErrorView,
        >(SessionErrorView::Reported(ErrorMsg { code: code.value(), detail })),
        message::known(code.value()) == Some(code),
{
    reveal(receive::error_reply);
    let m = ErrorMsg { code: code.value(), detail };
    message::lemma_error_msg_round_trip(m, Seq::empty());
    message::lemma_error_code_round_trip(code, code.value());
    assert(m.wire() + Seq::<u8>::empty() =~= m.wire());
    stream::lemma_frame_round_trip(PhaseView::Sync0, FrameType::Error, m.wire());
}

/// From image to branch. An image that is not empty, whose address is aligned,
/// that lies inside the window, shares no address with the loader and has its
/// entry point and checksum right, is transferred as it is, and `BOOT` then
/// branches to its load address plus its entry offset.
pub proof fn lemma_image_boots(
    image: Image,
    u: UploadView,
    s: Option<TransferView>,
    loader: Extent,
    payload: Seq<u8>,
    n: nat,
)
    requires
        loader.start < loader.end,
        u.inv(),
        u.stage is Header,
        u.image == image.bytes@,
        image.crc32 == crc::crc32_of(image.bytes@),
        0 < image.bytes@.len(),
        image.load_addr % 0x800 == 0,
        0x20_0000 <= image.load_addr,
        image.load_addr + image.bytes@.len() <= 0x1C00_0000,
        image.load_addr + image.bytes@.len() <= loader.start || loader.end <= image.load_addr,
        image.entry_off < image.bytes@.len(),
        image.bytes@.len() < n,
    ensures
        ({
            let header = session::header_of(image, image.bytes@.len() as u32);
            let (action, after) = rounds(
                u,
                ActionView::Send(FrameType::Header, header.wire()),
                s,
                loader,
                n,
            );
            let (kept, step) = receive::frame_step(after, loader, FrameType::Boot, payload);
            &&& action is Done
            &&& after matches Some(t)
            &&& t.image == image.bytes@
            &&& t.verified
            &&& kept == after
            &&& step.boot matches Some(boot)
            &&& boot.entry == image.load_addr + image.entry_off
            &&& boot.load_addr == image.load_addr
            &&& boot.image_len == image.bytes@.len()
            &&& step.reply == receive::ack_reply(image.bytes@.len() as u32)
        }),
{
    let header = session::header_of(image, image.bytes@.len() as u32);
    assert(header.load_addr == ((header.load_addr / 0x800) as int) * 0x800);
    receive::lemma_header_accepted_iff(header, loader);
    assert forall|a: int|
        header.load_addr <= a < header.load_addr + header.image_len implies !(
    #[trigger] receive::in_extent(loader, a)) by {}
    lemma_transfer_completes(u, header, s, loader, n);
    let t = TransferView { header, image: u.image, verified: true };
    receive::lemma_boot_branches(t, loader, payload);
}

} // verus!
