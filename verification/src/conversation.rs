//! Whole conversations with the loader.
//!
//! [`run`] is what the loader does over a byte stream: the state it reaches,
//! the bytes it transmits, what it writes to RAM and where it finally branches.
//! [`upload`] is the host's side of a transfer. The laws say that a loader never
//! touches memory it should not, that what it branches into is the image that
//! was announced, and that the host's upload of any acceptable image, in chunks
//! of any size, is acknowledged step by step and ends in that image running.

use vstd::prelude::*;

use crate::crc;
use crate::decoder::PhaseView;
use crate::frame;
use crate::frame::{FrameType, MAX_PAYLOAD};
use crate::message;
use crate::message::{DataFrame, Hello, ImageHeader};
use crate::receive;
use crate::receive::{BootInfo, Extent, StepView, TransferView, MAX_CHUNK, WINDOW_MAX, WINDOW_MIN};
use crate::stream;
use crate::stream::Event;

verus! {

broadcast use crate::le::group_le_len;

/// What a loader has done so far.
pub struct Log {
    /// The transfer in progress.
    pub state: Option<TransferView>,
    /// Everything transmitted.
    pub sent: Seq<u8>,
    /// Everything written to RAM, in order.
    pub written: Seq<(int, Seq<u8>)>,
    /// Where the loader branched to. Nothing happens after that.
    pub boot: Option<BootInfo>,
}

/// The bytes of the loader's `READY` frame.
pub open spec fn ready_reply() -> Seq<u8> {
    frame::frame_bytes(FrameType::Ready, receive::capabilities().wire())
}

/// A loader that has greeted a host that may already be listening.
pub open spec fn greeted() -> Log {
    Log { state: None, sent: ready_reply(), written: Seq::empty(), boot: None }
}

/// The log after one more step.
pub open spec fn absorb(log: Log, next: (Option<TransferView>, StepView)) -> Log {
    Log {
        state: next.0,
        sent: log.sent + next.1.reply,
        written: match next.1.write {
            None => log.written,
            Some(w) => log.written.push(w),
        },
        boot: next.1.boot,
    }
}

/// The log after one more report of the decoder.
#[verifier::opaque]
pub open spec fn serve_one(log: Log, loader: Extent, e: Event) -> Log {
    if log.boot is Some {
        log
    } else {
        absorb(log, receive::event_step(log.state, loader, e))
    }
}

/// The log after all of `events`.
pub open spec fn serve(log: Log, loader: Extent, events: Seq<Event>) -> Log
    decreases events.len(),
{
    if events.len() == 0 {
        log
    } else {
        serve_one(serve(log, loader, events.drop_last()), loader, events.last())
    }
}

/// The log after all of `bytes`, when the decoder starts in `phase`.
pub open spec fn run(log: Log, loader: Extent, phase: PhaseView, bytes: Seq<u8>) -> Log
    decreases bytes.len(),
{
    if bytes.len() == 0 {
        log
    } else {
        let before = run(log, loader, phase, bytes.drop_last());
        if before.boot is Some {
            before
        } else {
            absorb(
                before,
                receive::byte_step(
                    stream::phase_after(phase, bytes.drop_last()),
                    before.state,
                    loader,
                    bytes.last(),
                ),
            )
        }
    }
}

/// A loader that has branched to an image does nothing more.
pub proof fn lemma_run_stops(log: Log, loader: Extent, phase: PhaseView, a: Seq<u8>, b: Seq<u8>)
    requires
        run(log, loader, phase, a).boot is Some,
    ensures
        run(log, loader, phase, a + b) == run(log, loader, phase, a),
    decreases b.len(),
{
    if b.len() == 0 {
        assert(a + b =~= a);
    } else {
        assert((a + b).drop_last() =~= a + b.drop_last());
        lemma_run_stops(log, loader, phase, a, b.drop_last());
    }
}

/// What the loader does over a byte stream depends only on what its decoder
/// reports.
pub proof fn lemma_run_is_serve(log: Log, loader: Extent, phase: PhaseView, bytes: Seq<u8>)
    ensures
        run(log, loader, phase, bytes) == serve(log, loader, stream::events(phase, bytes)),
    decreases bytes.len(),
{
    reveal(serve_one);
    if bytes.len() > 0 {
        let init = bytes.drop_last();
        let before = run(log, loader, phase, init);
        lemma_run_is_serve(log, loader, phase, init);
        match stream::event(stream::phase_after(phase, init), bytes.last()) {
            None => {
                assert(before.sent + Seq::<u8>::empty() =~= before.sent);
            },
            Some(e) => {
                let evs = stream::events(phase, init);
                assert(evs.push(e).drop_last() =~= evs);
            },
        }
    }
}

/// Memory: what each address holds.
pub type Memory = spec_fn(int) -> u8;

/// Memory after one write.
pub open spec fn poke(mem: Memory, w: (int, Seq<u8>)) -> Memory {
    |a: int|
        if w.0 <= a < w.0 + w.1.len() {
            w.1[a - w.0]
        } else {
            mem(a)
        }
}

/// Memory after all of `writes`, in order.
pub open spec fn memory_after(mem: Memory, writes: Seq<(int, Seq<u8>)>) -> Memory
    decreases writes.len(),
{
    if writes.len() == 0 {
        mem
    } else {
        poke(memory_after(mem, writes.drop_last()), writes.last())
    }
}

/// Memory holds what the transfer has received, at its load address.
pub open spec fn in_memory(mem: Memory, t: TransferView) -> bool {
    forall|i: int| 0 <= i < t.image.len() ==> #[trigger] mem(t.header.load_addr + i) == t.image[i]
}

/// What the loader may write to: the writable window without the loader itself.
pub open spec fn writable(loader: Extent, a: int) -> bool {
    WINDOW_MIN <= a < WINDOW_MAX && !(loader.start <= a < loader.end)
}

/// What holds of every log, whatever came down the line.
pub open spec fn log_inv(log: Log, loader: Extent, mem: Memory) -> bool {
    &&& receive::state_inv(log.state, loader)
    &&& log.state matches Some(t) ==> in_memory(memory_after(mem, log.written), t)
    &&& forall|a: int|
        !writable(loader, a) ==> #[trigger] memory_after(mem, log.written)(a) == mem(a)
    &&& log.boot matches Some(boot) ==> {
        &&& log.state matches Some(t)
        &&& t.verified
        &&& boot.load_addr == t.header.load_addr
        &&& boot.image_len == t.header.image_len
        &&& boot.entry == t.header.load_addr + t.header.entry_off
    }
}

proof fn lemma_serve_one_inv(log: Log, loader: Extent, mem: Memory, e: Event)
    requires
        log_inv(log, loader, mem),
    ensures
        log_inv(serve_one(log, loader, e), loader, mem),
{
    reveal(receive::frame_step);
    reveal(serve_one);
    if log.boot is None {
        let next = receive::event_step(log.state, loader, e);
        let log2 = absorb(log, next);
        receive::lemma_state_inv(log.state, loader, e);
        receive::lemma_writes_stay_inside(log.state, loader, e);
        receive::lemma_boot_only_verified(log.state, loader, e);
        let m1 = memory_after(mem, log.written);
        let m2 = memory_after(mem, log2.written);
        if let Some(w) = next.1.write {
            assert(log2.written.drop_last() =~= log.written);
            assert(m2 == poke(m1, w));
            if let Some(t2) = next.0 {
                let t = log.state->0;
                assert forall|i: int| 0 <= i < t2.image.len() implies #[trigger] m2(
                    t2.header.load_addr + i,
                ) == t2.image[i] by {
                    if i < t.image.len() {
                        assert(m1(t.header.load_addr + i) == t.image[i]);
                    }
                }
            }
            assert forall|a: int| !writable(loader, a) implies #[trigger] m2(a) == mem(a) by {
                assert(m1(a) == mem(a));
            }
        }
    }
}

/// The loader never changes memory outside the writable window or inside
/// itself, and what it has received of an image stands in memory at the image's
/// load address. When it branches, it branches into the whole image, whose CRC
/// is the announced one.
pub proof fn lemma_memory(loader: Extent, mem: Memory, bytes: Seq<u8>)
    ensures
        ({
            let log = run(greeted(), loader, PhaseView::Sync0, bytes);
            let after = memory_after(mem, log.written);
            &&& log_inv(log, loader, mem)
            &&& forall|a: int| !writable(loader, a) ==> #[trigger] after(a) == mem(a)
            &&& log.boot matches Some(boot) ==> {
                let image = Seq::new(boot.image_len as nat, |i: int| after(boot.load_addr + i));
                &&& log.state matches Some(t)
                &&& image == t.image
                &&& crc::crc32_of(image) == t.header.image_crc32
                &&& boot.load_addr <= boot.entry < boot.load_addr + boot.image_len
            }
        }),
{
    let evs = stream::events(PhaseView::Sync0, bytes);
    lemma_run_is_serve(greeted(), loader, PhaseView::Sync0, bytes);
    lemma_serve_inv(loader, mem, evs);
    let log = run(greeted(), loader, PhaseView::Sync0, bytes);
    let after = memory_after(mem, log.written);
    if let Some(boot) = log.boot {
        let t = log.state->0;
        let image = Seq::new(boot.image_len as nat, |i: int| after(boot.load_addr + i));
        assert forall|i: int| 0 <= i < image.len() implies image[i] == t.image[i] by {
            assert(after(t.header.load_addr + i) == t.image[i]);
        }
        assert(image =~= t.image);
    }
}

proof fn lemma_serve_inv(loader: Extent, mem: Memory, events: Seq<Event>)
    ensures
        log_inv(serve(greeted(), loader, events), loader, mem),
    decreases events.len(),
{
    if events.len() > 0 {
        lemma_serve_inv(loader, mem, events.drop_last());
        lemma_serve_one_inv(
            serve(greeted(), loader, events.drop_last()),
            loader,
            mem,
            events.last(),
        );
    }
}

/// A message: a frame type and a payload.
pub type Message = (FrameType, Seq<u8>);

/// Where chunk number `n` starts.
pub open spec fn chunk_start(image: Seq<u8>, chunk: int, n: int) -> int {
    if n * chunk <= image.len() {
        n * chunk
    } else {
        image.len() as int
    }
}

/// The `DATA` messages that carry the first `n` chunks of `image`.
pub open spec fn data_messages(image: Seq<u8>, chunk: int, n: int) -> Seq<Message>
    decreases n,
{
    if n <= 0 {
        Seq::empty()
    } else {
        let from = chunk_start(image, chunk, n - 1);
        let to = chunk_start(image, chunk, n);
        data_messages(image, chunk, n - 1).push(
            (FrameType::Data, message::data_wire(from as u32, image.subrange(from, to))),
        )
    }
}

/// Everything the host sends to get `image` running.
pub open spec fn upload(
    hello: Hello,
    header: ImageHeader,
    image: Seq<u8>,
    chunk: int,
    n: int,
) -> Seq<Message> {
    seq![(FrameType::Hello, hello.wire()), (FrameType::Header, header.wire())] + data_messages(
        image,
        chunk,
        n,
    ).push((FrameType::Boot, Seq::empty()))
}

/// The loader's replies to the first `n` chunks.
pub open spec fn data_acks(image: Seq<u8>, chunk: int, n: int) -> Seq<u8>
    decreases n,
{
    if n <= 0 {
        Seq::empty()
    } else {
        data_acks(image, chunk, n - 1) + receive::ack_reply(chunk_start(image, chunk, n) as u32)
    }
}

/// The decoder's reports on messages that arrive undamaged.
pub open spec fn delivered(msgs: Seq<Message>) -> Seq<Event> {
    msgs.map_values(|m: Message| Event::Frame(m.0, m.1))
}

/// The loader's log when the host's first `n` chunks have arrived.
spec fn uploading(header: ImageHeader, image: Seq<u8>, chunk: int, n: int) -> Log {
    let got = image.take(chunk_start(image, chunk, n));
    Log {
        state: Some(TransferView { header, image: got, verified: got.len() == image.len() }),
        sent: ready_reply() + ready_reply() + receive::ack_reply(0) + data_acks(image, chunk, n),
        written: data_writes(header, image, chunk, n),
        boot: None,
    }
}

/// What the loader writes for the first `n` chunks.
pub open spec fn data_writes(header: ImageHeader, image: Seq<u8>, chunk: int, n: int) -> Seq<
    (int, Seq<u8>),
>
    decreases n,
{
    if n <= 0 {
        Seq::empty()
    } else {
        let from = chunk_start(image, chunk, n - 1);
        let to = chunk_start(image, chunk, n);
        data_writes(header, image, chunk, n - 1).push(
            (header.load_addr + from, image.subrange(from, to)),
        )
    }
}

/// The image that `header` announces is `image`, and a loader would take it.
pub open spec fn acceptable(header: ImageHeader, image: Seq<u8>, loader: Extent) -> bool {
    &&& receive::header_verdict(header, loader) is Ok
    &&& header.image_len == image.len()
    &&& header.image_crc32 == crc::crc32_of(image)
}

proof fn lemma_chunk_start(image: Seq<u8>, chunk: int, n: int)
    requires
        1 <= chunk,
        0 < n,
    ensures
        0 <= chunk_start(image, chunk, n - 1) <= chunk_start(image, chunk, n) <= image.len(),
        chunk_start(image, chunk, n) - chunk_start(image, chunk, n - 1) <= chunk,
{
    assert(n * chunk == (n - 1) * chunk + chunk) by (nonlinear_arith);
    assert(0 <= (n - 1) * chunk) by (nonlinear_arith)
        requires
            1 <= chunk,
            0 < n,
    ;
}

/// An acceptable header starts a transfer, whatever the loader held before, and
/// is acknowledged.
pub proof fn lemma_header_accepted(
    header: ImageHeader,
    loader: Extent,
    s: Option<TransferView>,
)
    requires
        receive::header_verdict(header, loader) is Ok,
    ensures
        receive::frame_step(s, loader, FrameType::Header, header.wire()) == (
            Some(TransferView { header, image: Seq::empty(), verified: false }),
            receive::replies(receive::ack_reply(0)),
        ),
{
    reveal(receive::frame_step);
    message::lemma_image_header_round_trip(header, Seq::empty());
    assert(header.wire() + Seq::<u8>::empty() =~= header.wire());
}

/// `HELLO` abandons any transfer and is answered with what the loader can take.
pub proof fn lemma_hello_answered(loader: Extent, s: Option<TransferView>, payload: Seq<u8>)
    ensures
        receive::frame_step(s, loader, FrameType::Hello, payload) == (
            None::<TransferView>,
            receive::replies(
                frame::frame_bytes(FrameType::Ready, receive::capabilities().wire()),
            ),
        ),
{
    reveal(receive::frame_step);
}

/// `BOOT` of a verified image is acknowledged, and the loader branches into it.
pub proof fn lemma_boot_accepted(header: ImageHeader, image: Seq<u8>, loader: Extent)
    requires
        header.image_len == image.len(),
    ensures
        ({
            let s = Some(TransferView { header, image, verified: true });
            receive::frame_step(s, loader, FrameType::Boot, Seq::empty()) == (
                s,
                StepView {
                    write: None,
                    reply: receive::ack_reply(header.image_len),
                    boot: Some(
                        BootInfo {
                            entry: (header.load_addr + header.entry_off) as u64,
                            load_addr: header.load_addr,
                            image_len: header.image_len,
                        },
                    ),
                },
            )
        }),
{
    reveal(receive::frame_step);
}

/// The loader's reply to a `DATA` message that carries the next chunk of an
/// acceptable image: the chunk is written behind what has arrived, and the new
/// offset is acknowledged. When the image is complete it is verified.
pub proof fn lemma_chunk_accepted(
    header: ImageHeader,
    image: Seq<u8>,
    loader: Extent,
    from: int,
    to: int,
)
    requires
        acceptable(header, image, loader),
        0 <= from <= to <= image.len(),
    ensures
        receive::frame_step(
            Some(
                TransferView {
                    header,
                    image: image.take(from),
                    verified: from == image.len(),
                },
            ),
            loader,
            FrameType::Data,
            message::data_wire(from as u32, image.subrange(from, to)),
        ) == (
            Some(
                TransferView {
                    header,
                    image: image.take(to),
                    verified: to == image.len(),
                },
            ),
            StepView {
                write: Some((header.load_addr + from, image.subrange(from, to))),
                reply: receive::ack_reply(to as u32),
                boot: None,
            },
        ),
{
    reveal(receive::frame_step);
    let payload = message::data_wire(from as u32, image.subrange(from, to));
    message::lemma_data_round_trip(from as u32, image.subrange(from, to), payload);
    assert(payload.skip(DataFrame::HEADER as int) =~= image.subrange(from, to));
    assert(image.take(from) + image.subrange(from, to) =~= image.take(to));
    assert(image.take(image.len() as int) =~= image);
}

/// `HELLO` and an acceptable header start the transfer.
proof fn lemma_upload_started(
    hello: Hello,
    header: ImageHeader,
    image: Seq<u8>,
    loader: Extent,
    chunk: int,
)
    requires
        acceptable(header, image, loader),
    ensures
        serve(
            greeted(),
            loader,
            seq![
                Event::Frame(FrameType::Hello, hello.wire()),
                Event::Frame(FrameType::Header, header.wire()),
            ],
        ) == uploading(header, image, chunk, 0),
{
    reveal(serve_one);
    let e1 = Event::Frame(FrameType::Hello, hello.wire());
    let e2 = Event::Frame(FrameType::Header, header.wire());
    let want = uploading(header, image, chunk, 0);
    assert(seq![e1, e2].drop_last() =~= seq![e1]);
    assert(seq![e1].drop_last() =~= Seq::<Event>::empty());
    let log1 = serve(greeted(), loader, seq![e1]);
    assert(serve(greeted(), loader, Seq::<Event>::empty()) == greeted());
    assert(log1 == serve_one(greeted(), loader, e1));
    let log2 = serve_one(log1, loader, e2);
    assert(serve(greeted(), loader, seq![e1, e2]) == log2);
    lemma_hello_answered(loader, None, hello.wire());
    lemma_header_accepted(header, loader, None);
    assert(0 * chunk == 0) by (nonlinear_arith);
    assert(log2.state->0.image =~= image.take(0));
    assert(log1.sent =~= ready_reply() + ready_reply());
    assert(want.sent =~= log1.sent + receive::ack_reply(0));
}

/// One more chunk.
proof fn lemma_upload_continued(
    header: ImageHeader,
    image: Seq<u8>,
    loader: Extent,
    chunk: int,
    n: int,
)
    requires
        acceptable(header, image, loader),
        1 <= chunk,
        0 < n,
    ensures
        ({
            let from = chunk_start(image, chunk, n - 1);
            let to = chunk_start(image, chunk, n);
            let e = Event::Frame(
                FrameType::Data,
                message::data_wire(from as u32, image.subrange(from, to)),
            );
            serve_one(uploading(header, image, chunk, n - 1), loader, e) == uploading(
                header,
                image,
                chunk,
                n,
            )
        }),
{
    reveal(serve_one);
    let from = chunk_start(image, chunk, n - 1);
    let to = chunk_start(image, chunk, n);
    let e = Event::Frame(
        FrameType::Data,
        message::data_wire(from as u32, image.subrange(from, to)),
    );
    lemma_chunk_start(image, chunk, n);
    lemma_chunk_accepted(header, image, loader, from, to);
    let log = serve_one(uploading(header, image, chunk, n - 1), loader, e);
    assert(log.sent =~= uploading(header, image, chunk, n).sent);
}

proof fn lemma_uploading(
    hello: Hello,
    header: ImageHeader,
    image: Seq<u8>,
    loader: Extent,
    chunk: int,
    n: int,
)
    requires
        acceptable(header, image, loader),
        1 <= chunk,
        0 <= n,
    ensures
        serve(
            greeted(),
            loader,
            delivered(
                seq![(FrameType::Hello, hello.wire()), (FrameType::Header, header.wire())]
                    + data_messages(image, chunk, n),
            ),
        ) == uploading(header, image, chunk, n),
    decreases n,
{
    let first = seq![(FrameType::Hello, hello.wire()), (FrameType::Header, header.wire())];
    if n == 0 {
        lemma_upload_started(hello, header, image, loader, chunk);
        assert(first + data_messages(image, chunk, n) =~= first);
        lemma_delivered_pair(first[0], first[1]);
    } else {
        let from = chunk_start(image, chunk, n - 1);
        let to = chunk_start(image, chunk, n);
        let m: Message = (
            FrameType::Data,
            message::data_wire(from as u32, image.subrange(from, to)),
        );
        let prev = first + data_messages(image, chunk, n - 1);
        lemma_uploading(hello, header, image, loader, chunk, n - 1);
        lemma_upload_continued(header, image, loader, chunk, n);
        assert(first + data_messages(image, chunk, n) =~= prev.push(m));
        lemma_serve_push(greeted(), loader, prev, m);
    }
}

proof fn lemma_delivered_pair(a: Message, b: Message)
    ensures
        delivered(seq![a, b]) == seq![Event::Frame(a.0, a.1), Event::Frame(b.0, b.1)],
{
    assert(delivered(seq![a, b]) =~= seq![Event::Frame(a.0, a.1), Event::Frame(b.0, b.1)]);
}

/// One more message is one more report.
pub proof fn lemma_serve_push(log: Log, loader: Extent, msgs: Seq<Message>, m: Message)
    ensures
        serve(log, loader, delivered(msgs.push(m))) == serve_one(
            serve(log, loader, delivered(msgs)),
            loader,
            Event::Frame(m.0, m.1),
        ),
{
    let evs = delivered(msgs.push(m));
    assert(evs.drop_last() =~= delivered(msgs));
    assert(evs.last() == Event::Frame(m.0, m.1));
}

/// End to end: a host that sends `HELLO`, the header, the chunks of an
/// acceptable image and `BOOT`, in frames one after the other, gets the greeting,
/// `READY`, an ACK for the header, an ACK for each chunk and an ACK for `BOOT`; and the
/// loader branches into the image, which stands in memory at its load address.
/// This holds for every chunk size that a loader takes.
pub proof fn lemma_upload_boots(
    hello: Hello,
    header: ImageHeader,
    image: Seq<u8>,
    loader: Extent,
    chunk: int,
    n: int,
    mem: Memory,
)
    requires
        acceptable(header, image, loader),
        1 <= chunk <= MAX_CHUNK,
        0 <= n,
        image.len() <= n * chunk,
    ensures
        ({
            let log = run(
                greeted(),
                loader,
                PhaseView::Sync0,
                stream::wire(upload(hello, header, image, chunk, n)),
            );
            let after = memory_after(mem, log.written);
            &&& log.sent == ready_reply() + ready_reply() + receive::ack_reply(0) + data_acks(
                image,
                chunk,
                n,
            ) + receive::ack_reply(header.image_len)
            &&& log.written == data_writes(header, image, chunk, n)
            &&& log.boot == Some(
                BootInfo {
                    entry: (header.load_addr + header.entry_off) as u64,
                    load_addr: header.load_addr,
                    image_len: header.image_len,
                },
            )
            &&& forall|i: int|
                0 <= i < image.len() ==> #[trigger] after(header.load_addr + i) == image[i]
        }),
{
    lemma_boot_accepted(header, image, loader);
    reveal(serve_one);
    let msgs = upload(hello, header, image, chunk, n);
    let first = seq![(FrameType::Hello, hello.wire()), (FrameType::Header, header.wire())];
    let prev = first + data_messages(image, chunk, n);
    let bytes = stream::wire(msgs);
    lemma_messages_fit(hello, header, image, chunk, n);
    stream::lemma_frames_back_to_back(PhaseView::Sync0, msgs);
    lemma_run_is_serve(greeted(), loader, PhaseView::Sync0, bytes);
    lemma_uploading(hello, header, image, loader, chunk, n);
    let evs = delivered(msgs);
    assert(evs =~= stream::events(PhaseView::Sync0, bytes));
    assert(msgs.drop_last() =~= prev);
    assert(evs.drop_last() =~= delivered(prev));
    assert(image.take(image.len() as int) =~= image);
    let log = run(greeted(), loader, PhaseView::Sync0, bytes);
    lemma_memory(loader, mem, bytes);
    assert(log == serve_one(uploading(header, image, chunk, n), loader, evs.last()));
    assert(log.state == Some(TransferView { header, image, verified: true }));
}

/// Every message of an upload fits into a frame.
pub proof fn lemma_messages_fit(
    hello: Hello,
    header: ImageHeader,
    image: Seq<u8>,
    chunk: int,
    n: int,
)
    requires
        1 <= chunk <= MAX_CHUNK,
    ensures
        forall|i: int|
            0 <= i < upload(hello, header, image, chunk, n).len() ==> (#[trigger] upload(
                hello,
                header,
                image,
                chunk,
                n,
            )[i]).1.len() <= MAX_PAYLOAD,
{
    let msgs = upload(hello, header, image, chunk, n);
    let data = data_messages(image, chunk, n);
    lemma_data_fits(image, chunk, n);
    assert forall|i: int| 0 <= i < msgs.len() implies (#[trigger] msgs[i]).1.len()
        <= MAX_PAYLOAD by {
        if 2 <= i < msgs.len() - 1 {
            assert(msgs[i] == data[i - 2]);
        }
    }
}

proof fn lemma_data_fits(image: Seq<u8>, chunk: int, n: int)
    requires
        1 <= chunk <= MAX_CHUNK,
    ensures
        forall|i: int|
            0 <= i < data_messages(image, chunk, n).len() ==> (#[trigger] data_messages(
                image,
                chunk,
                n,
            )[i]).1.len() <= MAX_PAYLOAD,
    decreases n,
{
    if n > 0 {
        lemma_data_fits(image, chunk, n - 1);
        lemma_chunk_start(image, chunk, n);
        let prev = data_messages(image, chunk, n - 1);
        let msgs = data_messages(image, chunk, n);
        assert forall|i: int| 0 <= i < msgs.len() implies (#[trigger] msgs[i]).1.len()
            <= MAX_PAYLOAD by {
            if i < prev.len() {
                assert(msgs[i] == prev[i]);
            }
        }
    }
}

/// The loader works byte by byte: each one adds to what was done the write and
/// the reply that it causes, until an image is started. Then nothing more
/// happens. A loader starts with its `READY` sent and nothing else done.
pub proof fn lemma_one_more_byte(log: Log, loader: Extent, phase: PhaseView, bytes: Seq<u8>, b: u8)
    ensures
        run(log, loader, phase, Seq::empty()) == log,
        ({
            let before = run(log, loader, phase, bytes);
            let after = run(log, loader, phase, bytes.push(b));
            let (state, step) = receive::byte_step(
                stream::phase_after(phase, bytes),
                before.state,
                loader,
                b,
            );
            &&& before.boot is Some ==> after == before
            &&& before.boot is None ==> {
                &&& after.state == state
                &&& after.sent == before.sent + step.reply
                &&& after.boot == step.boot
                &&& step.write is None ==> after.written == before.written
                &&& step.write is Some ==> after.written == before.written.push(step.write->0)
            }
        }),
        greeted().state is None,
        greeted().written.len() == 0,
        greeted().boot is None,
        greeted().sent == frame::frame_bytes(FrameType::Ready, receive::capabilities().wire()),
{
    assert(bytes.push(b).drop_last() =~= bytes);
}

} // verus!
