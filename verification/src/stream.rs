//! What the decoder makes of whole byte streams.
//!
//! [`events`] is what a decoder reports over a stream, frames with their
//! payloads and rejections with their reasons, in order. The laws say that an
//! encoded frame is reported exactly once, on its last byte; that nothing is
//! reported which was not encoded; and how the decoder finds its way back after
//! noise and after a rejected frame.

use vstd::prelude::*;

use crate::crc;
use crate::decoder;
use crate::decoder::{DecodeError, Decoded, DecoderView, PhaseView, FIXED_LEN};
use crate::frame;
use crate::frame::{
    FrameType, HEADER_LEN, MAGIC_HI, MAGIC_LO, MAX_FRAME, MAX_PAYLOAD, PROTOCOL_VERSION,
    TRAILER_LEN,
};
use crate::le;

verus! {

broadcast use crate::le::group_le_len;

/// Something a decoder reports.
pub enum Event {
    /// A complete, valid frame with its payload.
    Frame(FrameType, Seq<u8>),
    /// A rejected frame.
    Error(DecodeError),
}

/// What byte `b` makes a decoder in `phase` report.
pub open spec fn event(phase: PhaseView, b: u8) -> Option<Event> {
    match (decoder::push_phase(phase, b).1, phase) {
        (Decoded::Pending, _) => None,
        (Decoded::Error(e), _) => Some(Event::Error(e)),
        (Decoded::Frame(ty), PhaseView::Body { ty: _, len, got }) => Some(
            Event::Frame(ty, got.push(b).take(len as int)),
        ),
        (Decoded::Frame(ty), _) => Some(Event::Frame(ty, Seq::empty())),
    }
}

/// The phase after all of `bytes`.
pub open spec fn phase_after(phase: PhaseView, bytes: Seq<u8>) -> PhaseView
    decreases bytes.len(),
{
    if bytes.len() == 0 {
        phase
    } else {
        decoder::push_phase(phase_after(phase, bytes.drop_last()), bytes.last()).0
    }
}

/// Everything reported over `bytes`, in order.
pub open spec fn events(phase: PhaseView, bytes: Seq<u8>) -> Seq<Event>
    decreases bytes.len(),
{
    if bytes.len() == 0 {
        Seq::empty()
    } else {
        let before = events(phase, bytes.drop_last());
        match event(phase_after(phase, bytes.drop_last()), bytes.last()) {
            None => before,
            Some(e) => before.push(e),
        }
    }
}

/// A decoder's report and its payload window are the event of the byte pushed:
/// after [`Decoded::Frame`] the payload window holds the payload of the frame.
pub proof fn lemma_push_event(d: DecoderView, b: u8)
    requires
        d.inv(),
    ensures
        decoder::push_view(d, b).inv(),
        match (decoder::push_phase(d.phase, b).1, event(d.phase, b)) {
            (Decoded::Pending, None) => true,
            (Decoded::Error(e), Some(Event::Error(f))) => e == f,
            (Decoded::Frame(ty), Some(Event::Frame(ty2, payload))) => {
                &&& ty == ty2
                &&& decoder::push_view(d, b).payload() == payload
            },
            _ => false,
        },
{
    let d2 = decoder::push_view(d, b);
    match d.phase {
        PhaseView::Sync0 => {},
        PhaseView::Sync1 => {
            assert(d2.buf.take(0) =~= Seq::<u8>::empty());
        },
        PhaseView::Fixed { got } => {
            assert(d2.buf.take(got.len() + 1int) =~= got.push(b));
            assert(d2.buf.subrange(FIXED_LEN as int, FIXED_LEN as int) =~= Seq::<u8>::empty());
        },
        PhaseView::Body { ty, len, got } => {
            assert(d2.buf.subrange(FIXED_LEN as int, FIXED_LEN + got.len() + 1) =~= got.push(b));
            if got.len() + 1 == len + TRAILER_LEN {
                assert(d2.payload() =~= got.push(b).take(len as int));
            }
        },
    }
}

/// A phase keeps its invariant over any stream: the decoder survives arbitrary
/// bytes.
pub proof fn lemma_phase_inv(phase: PhaseView, bytes: Seq<u8>)
    requires
        phase.inv(),
    ensures
        phase_after(phase, bytes).inv(),
    decreases bytes.len(),
{
    if bytes.len() > 0 {
        lemma_phase_inv(phase, bytes.drop_last());
    }
}

/// Feeding `a` and then `b` is feeding their concatenation: how a stream is cut
/// up into reads does not matter.
pub proof fn lemma_concat(phase: PhaseView, a: Seq<u8>, b: Seq<u8>)
    ensures
        phase_after(phase, a + b) == phase_after(phase_after(phase, a), b),
        events(phase, a + b) == events(phase, a) + events(phase_after(phase, a), b),
    decreases b.len(),
{
    if b.len() == 0 {
        assert(a + b =~= a);
        assert(events(phase, a + b) =~= events(phase, a) + events(phase_after(phase, a), b));
    } else {
        lemma_concat(phase, a, b.drop_last());
        assert((a + b).drop_last() =~= a + b.drop_last());
        assert(events(phase, a + b) =~= events(phase, a) + events(phase_after(phase, a), b));
    }
}

/// One more byte.
proof fn lemma_step(phase: PhaseView, s: Seq<u8>, b: u8)
    ensures
        phase_after(phase, s.push(b)) == decoder::push_phase(phase_after(phase, s), b).0,
        events(phase, s.push(b)) == match event(phase_after(phase, s), b) {
            None => events(phase, s),
            Some(e) => events(phase, s).push(e),
        },
{
    assert(s.push(b).drop_last() =~= s);
}

/// The two magic bytes lock a scanning decoder, and nothing is reported.
proof fn lemma_magic(phase: PhaseView, n: int)
    requires
        phase == PhaseView::Sync0 || phase == PhaseView::Sync1,
        0 <= n <= 2,
    ensures
        phase_after(phase, seq![MAGIC_LO, MAGIC_HI]) == (PhaseView::Fixed { got: Seq::empty() }),
        events(phase, seq![MAGIC_LO, MAGIC_HI].take(n)) == Seq::<Event>::empty(),
{
    let e = Seq::<u8>::empty();
    lemma_step(phase, e, MAGIC_LO);
    lemma_step(phase, e.push(MAGIC_LO), MAGIC_HI);
    assert(e.push(MAGIC_LO).push(MAGIC_HI) =~= seq![MAGIC_LO, MAGIC_HI]);
    assert(seq![MAGIC_LO, MAGIC_HI].take(0) =~= e);
    assert(seq![MAGIC_LO, MAGIC_HI].take(1) =~= e.push(MAGIC_LO));
    assert(seq![MAGIC_LO, MAGIC_HI].take(2) =~= e.push(MAGIC_LO).push(MAGIC_HI));
}

/// Header bytes are collected silently until the fourth.
proof fn lemma_fixed_prefix(fixed: Seq<u8>, n: int)
    requires
        fixed.len() == FIXED_LEN,
        0 <= n < FIXED_LEN,
    ensures
        phase_after(PhaseView::Fixed { got: Seq::empty() }, fixed.take(n)) == (PhaseView::Fixed {
            got: fixed.take(n),
        }),
        events(PhaseView::Fixed { got: Seq::empty() }, fixed.take(n)) == Seq::<Event>::empty(),
    decreases n,
{
    let start = PhaseView::Fixed { got: Seq::empty() };
    if n == 0 {
        assert(fixed.take(0) =~= Seq::empty());
    } else {
        lemma_fixed_prefix(fixed, n - 1);
        lemma_step(start, fixed.take(n - 1), fixed[n - 1]);
        assert(fixed.take(n - 1).push(fixed[n - 1]) =~= fixed.take(n));
    }
}

/// The fourth header byte decides the header.
proof fn lemma_fixed(fixed: Seq<u8>)
    requires
        fixed.len() == FIXED_LEN,
    ensures
        phase_after(PhaseView::Fixed { got: Seq::empty() }, fixed) == decoder::header_phase(fixed).0,
        events(PhaseView::Fixed { got: Seq::empty() }, fixed) == match decoder::header_phase(
            fixed,
        ).1 {
            Decoded::Error(e) => seq![Event::Error(e)],
            _ => Seq::<Event>::empty(),
        },
{
    let start = PhaseView::Fixed { got: Seq::empty() };
    lemma_fixed_prefix(fixed, 3);
    lemma_step(start, fixed.take(3), fixed[3]);
    assert(fixed.take(3).push(fixed[3]) =~= fixed);
    assert(Seq::<Event>::empty().push(event(phase_after(start, fixed.take(3)), fixed[3])->0)
        =~= seq![event(phase_after(start, fixed.take(3)), fixed[3])->0]);
}

/// Body bytes are collected silently until the last.
proof fn lemma_body_prefix(ty: FrameType, len: nat, body: Seq<u8>, n: int)
    requires
        body.len() == len + TRAILER_LEN,
        0 <= n < body.len(),
    ensures
        phase_after(PhaseView::Body { ty, len, got: Seq::empty() }, body.take(n))
            == (PhaseView::Body { ty, len, got: body.take(n) }),
        events(PhaseView::Body { ty, len, got: Seq::empty() }, body.take(n)) == Seq::<
            Event,
        >::empty(),
    decreases n,
{
    let start = PhaseView::Body { ty, len, got: Seq::empty() };
    if n == 0 {
        assert(body.take(0) =~= Seq::empty());
    } else {
        lemma_body_prefix(ty, len, body, n - 1);
        lemma_step(start, body.take(n - 1), body[n - 1]);
        assert(body.take(n - 1).push(body[n - 1]) =~= body.take(n));
    }
}

/// The last body byte decides the frame.
proof fn lemma_body(ty: FrameType, len: nat, body: Seq<u8>)
    requires
        body.len() == len + TRAILER_LEN,
    ensures
        phase_after(PhaseView::Body { ty, len, got: Seq::empty() }, body) == PhaseView::Sync0,
        events(PhaseView::Body { ty, len, got: Seq::empty() }, body) == seq![
            match decoder::body_report(ty, len, body) {
                Decoded::Error(e) => Event::Error(e),
                _ => Event::Frame(ty, body.take(len as int)),
            },
        ],
{
    let start = PhaseView::Body { ty, len, got: Seq::empty() };
    let n = body.len() - 1;
    lemma_body_prefix(ty, len, body, n);
    lemma_step(start, body.take(n), body[n]);
    assert(body.take(n).push(body[n]) =~= body);
    let e = event(phase_after(start, body.take(n)), body[n])->0;
    assert(Seq::<Event>::empty().push(e) =~= seq![e]);
}

/// A valid header is accepted as the frame that it announces.
proof fn lemma_good_header(ty: FrameType, len: nat)
    requires
        len <= MAX_PAYLOAD,
    ensures
        frame::fixed_bytes(ty, len).len() == FIXED_LEN,
        decoder::header_phase(frame::fixed_bytes(ty, len)) == (
            PhaseView::Body { ty, len, got: Seq::empty() },
            Decoded::Pending,
        ),
{
    let f = frame::fixed_bytes(ty, len);
    frame::lemma_type_round_trip(ty, ty.byte());
    assert(f.subrange(2, 4) =~= le::le16(len as u16));
    le::lemma_u16_placed(f, 2, len as u16);
}

/// The bytes of a frame with any trailer.
spec fn framed(ty: FrameType, payload: Seq<u8>, trailer: Seq<u8>) -> Seq<u8> {
    seq![MAGIC_LO, MAGIC_HI] + frame::body_bytes(ty, payload) + trailer
}

/// Magic and header lead a scanning decoder into the body.
proof fn lemma_framed_header(phase: PhaseView, ty: FrameType, len: nat)
    requires
        phase == PhaseView::Sync0 || phase == PhaseView::Sync1,
        len <= MAX_PAYLOAD,
    ensures
        phase_after(phase, seq![MAGIC_LO, MAGIC_HI] + frame::fixed_bytes(ty, len))
            == (PhaseView::Body { ty, len, got: Seq::empty() }),
        events(phase, seq![MAGIC_LO, MAGIC_HI] + frame::fixed_bytes(ty, len)) == Seq::<
            Event,
        >::empty(),
{
    let magic = seq![MAGIC_LO, MAGIC_HI];
    let fixed = frame::fixed_bytes(ty, len);
    lemma_magic(phase, 2);
    assert(magic.take(2) =~= magic);
    lemma_good_header(ty, len);
    lemma_fixed(fixed);
    lemma_concat(phase, magic, fixed);
    assert(events(phase, magic + fixed) =~= Seq::<Event>::empty());
}

/// The decoder's verdict on a well-formed header and body, with any trailer: it
/// comes on the last byte, and the decoder is back to scanning.
proof fn lemma_framed(phase: PhaseView, ty: FrameType, payload: Seq<u8>, trailer: Seq<u8>)
    requires
        phase == PhaseView::Sync0 || phase == PhaseView::Sync1,
        payload.len() <= MAX_PAYLOAD,
        trailer.len() == TRAILER_LEN,
    ensures
        framed(ty, payload, trailer).len() == HEADER_LEN + payload.len() + TRAILER_LEN,
        phase_after(phase, framed(ty, payload, trailer)) == PhaseView::Sync0,
        events(phase, framed(ty, payload, trailer)) == seq![
            match decoder::body_report(ty, payload.len(), payload + trailer) {
                Decoded::Error(e) => Event::Error(e),
                _ => Event::Frame(ty, payload),
            },
        ],
{
    let head = seq![MAGIC_LO, MAGIC_HI] + frame::fixed_bytes(ty, payload.len());
    let body = payload + trailer;
    lemma_framed_header(phase, ty, payload.len());
    lemma_body(ty, payload.len(), body);
    assert(framed(ty, payload, trailer) =~= head + body);
    assert(body.take(payload.len() as int) =~= payload);
    lemma_concat(phase, head, body);
    let last = events(phase_after(phase, head), body);
    assert(events(phase, head + body) =~= last);
}

/// Nothing is reported before the last byte.
proof fn lemma_framed_silent(
    phase: PhaseView,
    ty: FrameType,
    payload: Seq<u8>,
    trailer: Seq<u8>,
    n: int,
)
    requires
        phase == PhaseView::Sync0 || phase == PhaseView::Sync1,
        payload.len() <= MAX_PAYLOAD,
        trailer.len() == TRAILER_LEN,
        0 <= n < framed(ty, payload, trailer).len(),
    ensures
        events(phase, framed(ty, payload, trailer).take(n)) == Seq::<Event>::empty(),
{
    let magic = seq![MAGIC_LO, MAGIC_HI];
    let fixed = frame::fixed_bytes(ty, payload.len());
    let body = payload + trailer;
    let s = framed(ty, payload, trailer);
    assert(s =~= magic + fixed + body);
    assert(magic.take(2) =~= magic);
    if n <= 2 {
        lemma_magic(phase, n);
        assert(s.take(n) =~= magic.take(n));
    } else if n < HEADER_LEN {
        lemma_magic(phase, 2);
        lemma_fixed_prefix(fixed, n - 2);
        lemma_concat(phase, magic, fixed.take(n - 2));
        assert(s.take(n) =~= magic + fixed.take(n - 2));
        assert(events(phase, s.take(n)) =~= Seq::<Event>::empty());
    } else {
        lemma_framed_header(phase, ty, payload.len());
        lemma_body_prefix(ty, payload.len(), body, n - HEADER_LEN);
        lemma_concat(phase, magic + fixed, body.take(n - HEADER_LEN));
        assert(s.take(n) =~= magic + fixed + body.take(n - HEADER_LEN));
        assert(events(phase, s.take(n)) =~= Seq::<Event>::empty());
    }
}

/// Round trip: whatever [`encode_frame`](crate::frame::encode_frame) writes, a
/// scanning decoder reports as exactly that frame, on its last byte and not
/// earlier, and is then ready for the next.
pub proof fn lemma_frame_round_trip(phase: PhaseView, ty: FrameType, payload: Seq<u8>)
    requires
        phase == PhaseView::Sync0 || phase == PhaseView::Sync1,
        payload.len() <= MAX_PAYLOAD,
    ensures
        phase_after(phase, frame::frame_bytes(ty, payload)) == PhaseView::Sync0,
        events(phase, frame::frame_bytes(ty, payload)) == seq![Event::Frame(ty, payload)],
        forall|n: int|
            0 <= n < frame::frame_bytes(ty, payload).len() ==> #[trigger] events(
                phase,
                frame::frame_bytes(ty, payload).take(n),
            ) == Seq::<Event>::empty(),
{
    let trailer = le::le32(crc::crc32_of(frame::body_bytes(ty, payload)));
    lemma_framed(phase, ty, payload, trailer);
    assert forall|n: int|
        0 <= n < frame::frame_bytes(ty, payload).len() implies #[trigger] events(
        phase,
        frame::frame_bytes(ty, payload).take(n),
    ) == Seq::<Event>::empty() by {
        lemma_framed_silent(phase, ty, payload, trailer, n);
    }
    let body = payload + trailer;
    assert(body.take(payload.len() as int) =~= payload);
    assert(body.subrange(payload.len() as int, payload.len() + 4int) =~= trailer);
    le::lemma_u32_placed(
        body,
        payload.len() as int,
        crc::crc32_of(frame::body_bytes(ty, payload)),
    );
}

/// The frames of `msgs` on the wire, one after the other.
pub open spec fn wire(msgs: Seq<(FrameType, Seq<u8>)>) -> Seq<u8>
    decreases msgs.len(),
{
    if msgs.len() == 0 {
        Seq::empty()
    } else {
        wire(msgs.drop_last()) + frame::frame_bytes(msgs.last().0, msgs.last().1)
    }
}

/// Frames sent back to back are all reported, in order, and nothing else is.
pub proof fn lemma_frames_back_to_back(phase: PhaseView, msgs: Seq<(FrameType, Seq<u8>)>)
    requires
        phase == PhaseView::Sync0,
        forall|i: int| 0 <= i < msgs.len() ==> (#[trigger] msgs[i]).1.len() <= MAX_PAYLOAD,
    ensures
        phase_after(phase, wire(msgs)) == PhaseView::Sync0,
        events(phase, wire(msgs)) == msgs.map_values(
            |m: (FrameType, Seq<u8>)| Event::Frame(m.0, m.1),
        ),
    decreases msgs.len(),
{
    let f = |m: (FrameType, Seq<u8>)| Event::Frame(m.0, m.1);
    if msgs.len() > 0 {
        let init = msgs.drop_last();
        let m = msgs.last();
        assert forall|i: int| 0 <= i < init.len() implies (#[trigger] init[i]).1.len()
            <= MAX_PAYLOAD by {
            assert(init[i] == msgs[i]);
        }
        assert(msgs[msgs.len() - 1].1.len() <= MAX_PAYLOAD);
        lemma_frames_back_to_back(phase, init);
        lemma_frame_round_trip(PhaseView::Sync0, m.0, m.1);
        lemma_concat(phase, wire(init), frame::frame_bytes(m.0, m.1));
    }
    assert(events(phase, wire(msgs)) =~= msgs.map_values(f));
}

/// No two neighbouring bytes of `noise` are the magic.
pub open spec fn no_magic(noise: Seq<u8>) -> bool {
    forall|i: int|
        0 <= i < noise.len() - 1 ==> !(#[trigger] noise[i] == MAGIC_LO && noise[i + 1] == MAGIC_HI)
}

/// Noise without the magic is skipped silently.
pub proof fn lemma_noise_is_silent(noise: Seq<u8>)
    requires
        no_magic(noise),
    ensures
        events(PhaseView::Sync0, noise) == Seq::<Event>::empty(),
        phase_after(PhaseView::Sync0, noise) == (if noise.len() > 0 && noise.last() == MAGIC_LO {
            PhaseView::Sync1
        } else {
            PhaseView::Sync0
        }),
    decreases noise.len(),
{
    if noise.len() > 0 {
        let init = noise.drop_last();
        assert forall|i: int| 0 <= i < init.len() - 1 implies !(#[trigger] init[i] == MAGIC_LO
            && init[i + 1] == MAGIC_HI) by {
            assert(init[i] == noise[i]);
        }
        lemma_noise_is_silent(init);
        if init.len() > 0 {
            assert(init.last() == noise[noise.len() - 2]);
        }
    }
}

/// A frame that follows noise without the magic is reported, and is all that is
/// reported.
pub proof fn lemma_frame_after_noise(noise: Seq<u8>, ty: FrameType, payload: Seq<u8>)
    requires
        no_magic(noise),
        payload.len() <= MAX_PAYLOAD,
    ensures
        events(PhaseView::Sync0, noise + frame::frame_bytes(ty, payload)) == seq![
            Event::Frame(ty, payload),
        ],
        phase_after(PhaseView::Sync0, noise + frame::frame_bytes(ty, payload)) == PhaseView::Sync0,
{
    lemma_noise_is_silent(noise);
    lemma_frame_round_trip(phase_after(PhaseView::Sync0, noise), ty, payload);
    lemma_concat(PhaseView::Sync0, noise, frame::frame_bytes(ty, payload));
    assert(events(PhaseView::Sync0, noise + frame::frame_bytes(ty, payload)) =~= seq![
        Event::Frame(ty, payload),
    ]);
}

/// A frame whose payload had one byte changed on the way is rejected with
/// `BadCrc`, and the frame sent after it is reported.
pub proof fn lemma_corrupted_frame_then_resend(
    ty: FrameType,
    payload: Seq<u8>,
    i: int,
    b: u8,
    ty2: FrameType,
    payload2: Seq<u8>,
)
    requires
        payload.len() <= MAX_PAYLOAD,
        payload2.len() <= MAX_PAYLOAD,
        0 <= i < payload.len(),
        b != payload[i],
    ensures
        ({
            let bad = frame::frame_bytes(ty, payload).update(HEADER_LEN + i, b);
            &&& phase_after(PhaseView::Sync0, bad) == PhaseView::Sync0
            &&& events(PhaseView::Sync0, bad + frame::frame_bytes(ty2, payload2)) == seq![
                Event::Error(
                    DecodeError::BadCrc {
                        found: crc::crc32_of(frame::body_bytes(ty, payload)),
                        expected: crc::crc32_of(frame::body_bytes(ty, payload.update(i, b))),
                    },
                ),
                Event::Frame(ty2, payload2),
            ]
        }),
{
    let good = frame::body_bytes(ty, payload);
    let changed = payload.update(i, b);
    let trailer = le::le32(crc::crc32_of(good));
    let bad = frame::frame_bytes(ty, payload).update(HEADER_LEN + i, b);
    assert(bad =~= framed(ty, changed, trailer));
    lemma_framed(PhaseView::Sync0, ty, changed, trailer);
    assert(frame::body_bytes(ty, changed) =~= good.update(FIXED_LEN + i, b));
    crc::lemma_crc_detects_changed_byte(good, FIXED_LEN + i, b);
    let body = changed + trailer;
    assert(body.take(changed.len() as int) =~= changed);
    assert(body.subrange(changed.len() as int, changed.len() + 4int) =~= trailer);
    le::lemma_u32_placed(body, changed.len() as int, crc::crc32_of(good));
    lemma_frame_round_trip(PhaseView::Sync0, ty2, payload2);
    lemma_concat(PhaseView::Sync0, bad, frame::frame_bytes(ty2, payload2));
    assert(events(PhaseView::Sync0, bad + frame::frame_bytes(ty2, payload2)) =~= seq![
        Event::Error(
            DecodeError::BadCrc {
                found: crc::crc32_of(good),
                expected: crc::crc32_of(frame::body_bytes(ty, changed)),
            },
        ),
        Event::Frame(ty2, payload2),
    ]);
}

/// A bad header is rejected as soon as it is complete, with the first of its
/// faults: the version, then the type, then the length.
pub proof fn lemma_bad_header_rejected(version: u8, ty: u8, len: u16)
    requires
        version != PROTOCOL_VERSION || frame::type_of(ty) is None || len > MAX_PAYLOAD,
    ensures
        ({
            let s = seq![MAGIC_LO, MAGIC_HI, version, ty] + le::le16(len);
            &&& phase_after(PhaseView::Sync0, s) == PhaseView::Sync0
            &&& events(PhaseView::Sync0, s) == seq![
                Event::Error(
                    if version != PROTOCOL_VERSION {
                        DecodeError::BadVersion(version)
                    } else if frame::type_of(ty) is None {
                        DecodeError::UnknownType(ty)
                    } else {
                        DecodeError::LengthTooLarge(len)
                    },
                ),
            ]
        }),
{
    let magic = seq![MAGIC_LO, MAGIC_HI];
    let fixed = seq![version, ty] + le::le16(len);
    let s = seq![MAGIC_LO, MAGIC_HI, version, ty] + le::le16(len);
    assert(s =~= magic + fixed);
    assert(magic.take(2) =~= magic);
    lemma_magic(PhaseView::Sync0, 2);
    assert(fixed.subrange(2, 4) =~= le::le16(len));
    le::lemma_u16_placed(fixed, 2, len);
    lemma_fixed(fixed);
    lemma_concat(PhaseView::Sync0, magic, fixed);
    assert(events(PhaseView::Sync0, s) =~= events(
        PhaseView::Fixed { got: Seq::<u8>::empty() },
        fixed,
    ));
}

/// On any rejection the decoder is back to scanning, from the following byte.
pub proof fn lemma_rejection_rescans(phase: PhaseView, b: u8)
    requires
        event(phase, b) matches Some(Event::Error(_)),
    ensures
        decoder::push_phase(phase, b).0 == PhaseView::Sync0,
{
}

/// `s` ends with `tail`.
pub open spec fn ends_with(s: Seq<u8>, tail: Seq<u8>) -> bool {
    &&& tail.len() <= s.len()
    &&& s.skip(s.len() - tail.len()) == tail
}

proof fn lemma_ends_push(s: Seq<u8>, tail: Seq<u8>, b: u8)
    requires
        ends_with(s, tail),
    ensures
        ends_with(s.push(b), tail.push(b)),
{
    assert(s.push(b).skip(s.len() - tail.len()) =~= tail.push(b));
}

/// What a decoder that started scanning has seen last, by its phase.
proof fn lemma_phase_history(s: Seq<u8>)
    ensures
        match phase_after(PhaseView::Sync0, s) {
            PhaseView::Sync0 => true,
            PhaseView::Sync1 => ends_with(s, seq![MAGIC_LO]),
            PhaseView::Fixed { got } => ends_with(s, seq![MAGIC_LO, MAGIC_HI] + got),
            PhaseView::Body { ty, len, got } => ends_with(
                s,
                seq![MAGIC_LO, MAGIC_HI] + frame::fixed_bytes(ty, len) + got,
            ),
        },
    decreases s.len(),
{
    if s.len() > 0 {
        let init = s.drop_last();
        let b = s.last();
        let magic = seq![MAGIC_LO, MAGIC_HI];
        assert(s =~= init.push(b));
        lemma_phase_history(init);
        lemma_phase_inv(PhaseView::Sync0, init);
        match phase_after(PhaseView::Sync0, init) {
            PhaseView::Sync0 => {
                assert(s.skip(s.len() - 1) =~= seq![b]);
            },
            PhaseView::Sync1 => {
                lemma_ends_push(init, seq![MAGIC_LO], b);
                assert(seq![MAGIC_LO].push(MAGIC_HI) =~= magic + Seq::<u8>::empty());
                assert(s.skip(s.len() - 1) =~= seq![b]);
            },
            PhaseView::Fixed { got } => {
                lemma_ends_push(init, magic + got, b);
                assert((magic + got).push(b) =~= magic + got.push(b));
                let fixed = got.push(b);
                if fixed.len() == FIXED_LEN {
                    if let PhaseView::Body { ty, len, got: _ } = decoder::header_phase(fixed).0 {
                        frame::lemma_type_round_trip(ty, fixed[1]);
                        le::lemma_le_written_back(fixed, 2);
                        assert(fixed =~= frame::fixed_bytes(ty, len)) by {
                            assert(fixed.subrange(2, 4)[0] == fixed[2]);
                            assert(fixed.subrange(2, 4)[1] == fixed[3]);
                        }
                        assert(magic + fixed + Seq::<u8>::empty() =~= magic + fixed);
                    }
                }
            },
            PhaseView::Body { ty, len, got } => {
                let pre = magic + frame::fixed_bytes(ty, len);
                lemma_ends_push(init, pre + got, b);
                assert((pre + got).push(b) =~= pre + got.push(b));
            },
        }
    }
}

/// Soundness: when a decoder reports a frame, the bytes it read last are that
/// frame's encoding. Noise that merely contains the magic is never taken for a
/// frame.
pub proof fn lemma_reported_frame_was_sent(s: Seq<u8>, b: u8, ty: FrameType, payload: Seq<u8>)
    requires
        event(phase_after(PhaseView::Sync0, s), b) == Some(Event::Frame(ty, payload)),
    ensures
        payload.len() <= MAX_PAYLOAD,
        ends_with(s.push(b), frame::frame_bytes(ty, payload)),
{
    lemma_phase_history(s);
    lemma_phase_inv(PhaseView::Sync0, s);
    match phase_after(PhaseView::Sync0, s) {
        PhaseView::Body { ty: ty2, len, got } => {
            let body = got.push(b);
            let magic = seq![MAGIC_LO, MAGIC_HI];
            let pre = magic + frame::fixed_bytes(ty2, len);
            lemma_ends_push(s, pre + got, b);
            le::lemma_le_written_back(body, len as int);
            assert(body =~= payload + body.subrange(len as int, len + 4int));
            assert((pre + got).push(b) =~= frame::frame_bytes(ty, payload));
        },
        _ => {},
    }
}

/// How many more bytes without the low magic byte bring a decoder back to
/// scanning, at most.
pub open spec fn to_resync(phase: PhaseView) -> int {
    match phase {
        PhaseView::Sync0 => 0,
        PhaseView::Sync1 => MAX_FRAME - 1,
        PhaseView::Fixed { got } => MAX_FRAME - 2 - got.len(),
        PhaseView::Body { ty: _, len, got } => len + TRAILER_LEN - got.len(),
    }
}

/// Whatever state it is in, a decoder that reads as many bytes as the longest
/// frame has, none of them the low magic byte, is scanning again.
pub proof fn lemma_resync_after_quiet(phase: PhaseView, quiet: Seq<u8>)
    requires
        phase.inv(),
        quiet.len() >= MAX_FRAME,
        forall|i: int| 0 <= i < quiet.len() ==> quiet[i] != MAGIC_LO,
    ensures
        phase_after(phase, quiet) == PhaseView::Sync0,
{
    lemma_quiet_progress(phase, quiet);
}

proof fn lemma_quiet_progress(phase: PhaseView, quiet: Seq<u8>)
    requires
        phase.inv(),
        forall|i: int| 0 <= i < quiet.len() ==> quiet[i] != MAGIC_LO,
    ensures
        phase_after(phase, quiet).inv(),
        phase_after(phase, quiet) == PhaseView::Sync0 || to_resync(phase_after(phase, quiet)) + quiet.len()
            <= MAX_FRAME - 1,
    decreases quiet.len(),
{
    if quiet.len() > 0 {
        let init = quiet.drop_last();
        assert forall|i: int| 0 <= i < init.len() implies init[i] != MAGIC_LO by {
            assert(init[i] == quiet[i]);
        }
        lemma_quiet_progress(phase, init);
        assert(quiet[quiet.len() - 1] != MAGIC_LO);
    }
}

/// A decoder stays usable: after any noise at all, and a pause of as many bytes
/// as the longest frame has, none of them the low magic byte, a frame is
/// reported on its last byte.
pub proof fn lemma_usable_after_noise(
    noise: Seq<u8>,
    quiet: Seq<u8>,
    ty: FrameType,
    payload: Seq<u8>,
)
    requires
        quiet.len() >= MAX_FRAME,
        forall|i: int| 0 <= i < quiet.len() ==> quiet[i] != MAGIC_LO,
        payload.len() <= MAX_PAYLOAD,
    ensures
        events(PhaseView::Sync0, noise + quiet + frame::frame_bytes(ty, payload)) == events(
            PhaseView::Sync0,
            noise + quiet,
        ).push(Event::Frame(ty, payload)),
{
    let f = frame::frame_bytes(ty, payload);
    lemma_phase_inv(PhaseView::Sync0, noise);
    lemma_concat(PhaseView::Sync0, noise, quiet);
    lemma_resync_after_quiet(phase_after(PhaseView::Sync0, noise), quiet);
    lemma_concat(PhaseView::Sync0, noise + quiet, f);
    lemma_frame_round_trip(PhaseView::Sync0, ty, payload);
    let before = events(PhaseView::Sync0, noise + quiet);
    assert(before + seq![Event::Frame(ty, payload)] =~= before.push(Event::Frame(ty, payload)));
}

/// The first frame among the events.
pub open spec fn first_frame(evs: Seq<Event>) -> Option<(FrameType, Seq<u8>)>
    decreases evs.len(),
{
    if evs.len() == 0 {
        None
    } else {
        match evs[0] {
            Event::Frame(ty, payload) => Some((ty, payload)),
            Event::Error(_) => first_frame(evs.skip(1)),
        }
    }
}

/// The events of a stream are that of its first byte, if any, and those of the
/// rest.
pub proof fn lemma_first_byte(phase: PhaseView, bytes: Seq<u8>)
    requires
        bytes.len() > 0,
    ensures
        events(phase, bytes) == (match event(phase, bytes[0]) {
            None => Seq::empty(),
            Some(e) => seq![e],
        }) + events(decoder::push_phase(phase, bytes[0]).0, bytes.skip(1)),
        phase_after(phase, bytes) == phase_after(
            decoder::push_phase(phase, bytes[0]).0,
            bytes.skip(1),
        ),
{
    let one = seq![bytes[0]];
    assert(one + bytes.skip(1) =~= bytes);
    lemma_concat(phase, one, bytes.skip(1));
    lemma_step(phase, Seq::empty(), bytes[0]);
    assert(Seq::<u8>::empty().push(bytes[0]) =~= one);
    if let Some(e) = event(phase, bytes[0]) {
        assert(Seq::<Event>::empty().push(e) =~= seq![e]);
    }
}

/// A frame is reported exactly if the four bytes behind its payload are the
/// checksum of what lies before them, and rejected with both numbers otherwise.
pub proof fn lemma_trailer_decides(
    phase: PhaseView,
    ty: FrameType,
    payload: Seq<u8>,
    found: u32,
)
    requires
        phase == PhaseView::Sync0 || phase == PhaseView::Sync1,
        payload.len() <= 1024,
    ensures
        ({
            let covered = seq![1u8, ty.byte()] + le::le16(payload.len() as u16) + payload;
            let s = seq![0xAEu8, 0x50] + covered + le::le32(found);
            let computed = crc::crc32_of(covered);
            &&& phase_after(phase, s) == PhaseView::Sync0
            &&& found == computed ==> events(phase, s) == seq![Event::Frame(ty, payload)]
            &&& found != computed ==> events(phase, s) == seq![
                Event::Error(DecodeError::BadCrc { found, expected: computed }),
            ]
        }),
{
    broadcast use crate::le::group_le_len;

    let trailer = le::le32(found);
    let covered = seq![1u8, ty.byte()] + le::le16(payload.len() as u16) + payload;
    assert(covered =~= frame::body_bytes(ty, payload));
    let s = seq![0xAEu8, 0x50] + covered + trailer;
    assert(s =~= framed(ty, payload, trailer));
    lemma_framed(phase, ty, payload, trailer);
    let body = payload + trailer;
    assert(body.take(payload.len() as int) =~= payload);
    assert(body.subrange(payload.len() as int, payload.len() + 4int) =~= trailer);
    le::lemma_u32_placed(body, payload.len() as int, found);
}

/// Scanning: the decoder waits for `AE`, then for `50` right behind it, and
/// meanwhile reports nothing.
pub proof fn lemma_scanning(b: u8)
    ensures
        event(PhaseView::Sync0, b) is None,
        event(PhaseView::Sync1, b) is None,
        decoder::push_phase(PhaseView::Sync0, b).0 is Sync1 <==> b == 0xAE,
        decoder::push_phase(PhaseView::Sync0, b).0 is Sync0 <==> b != 0xAE,
        decoder::push_phase(PhaseView::Sync1, b).0 is Fixed <==> b == 0x50,
        decoder::push_phase(PhaseView::Sync1, b).0 is Sync1 <==> b == 0xAE,
        decoder::push_phase(PhaseView::Sync1, b).0 is Sync0 <==> b != 0x50 && b != 0xAE,
{
}

} // verus!
