//! The loader's sign of life on a line that nobody has spoken on yet.
//!
//! Until a host speaks, the loader prints [`HEARTBEAT_LINE`] once per second, to
//! confirm the link and the baud rate. The first inbound byte silences it for
//! good, so it never interferes with a transfer; and a host that does catch it
//! takes it for noise ([`lemma_heartbeat_is_noise`]).

use vstd::prelude::*;
use vstd::string::*;

use crate::decoder::PhaseView;
use crate::frame;
use crate::frame::{FrameType, MAGIC_LO, MAX_PAYLOAD};
use crate::led;
use crate::led::elapsed;
use crate::stream;
use crate::stream::Event;
use crate::uart;
use crate::uart::Uart;

verus! {

/// What is printed.
pub const HEARTBEAT_LINE: &'static str = "chainloader: up, waiting for host (HELLO)...\n";

/// How long the loader waits between two lines, in microseconds.
pub const HEARTBEAT_US: u32 = 1_000_000;

/// Whether a line is due at the reading `now_us` of the system timer, when the
/// one before it, or the start, was at `last_us`.
pub open spec fn is_due(heard: bool, last_us: u32, now_us: u32) -> bool {
    !heard && led::passed(last_us, now_us) >= HEARTBEAT_US
}

/// Whether a line is due: nothing was heard on the line yet, and a second has
/// passed on the timer, across a wrap of the timer too.
pub fn heartbeat_due(heard: bool, last_us: u32, now_us: u32) -> (due: bool)
    ensures
        due == is_due(heard, last_us, now_us),
{
    !heard && elapsed(last_us, now_us, HEARTBEAT_US)
}

/// The bytes of a line as they go out, with their line ending.
pub open spec fn line_bytes() -> Seq<u8> {
    uart::crlf(HEARTBEAT_LINE.spec_bytes())
}

/// The line to print.
pub fn heartbeat_line() -> (line: Vec<u8>)
    ensures
        line@ == line_bytes(),
{
    Uart.write_str(HEARTBEAT_LINE)
}

/// When the loader last gave a sign of life, and whether it still has to.
#[derive(Debug, Clone, Copy, PartialEq, Eq, Structural)]
pub struct Heartbeat {
    /// Whether a byte has come in.
    pub heard: bool,
    /// Reading of the system timer at the last line, or at the start.
    pub last_us: u32,
}

/// The heartbeat after a look at the timer, and whether a line is printed.
pub open spec fn beat(h: Heartbeat, now_us: u32) -> (Heartbeat, bool) {
    if is_due(h.heard, h.last_us, now_us) {
        (Heartbeat { last_us: now_us, ..h }, true)
    } else {
        (h, false)
    }
}

/// How many lines are printed over the timer readings `times`.
pub open spec fn beats(h: Heartbeat, times: Seq<u32>) -> nat
    decreases times.len(),
{
    if times.len() == 0 {
        0
    } else {
        let (next, printed) = beat(h, times[0]);
        beats(next, times.skip(1)) + if printed {
            1nat
        } else {
            0
        }
    }
}

impl Heartbeat {
    /// Starts at the reading `now_us` of the timer, with nothing heard.
    pub fn new(now_us: u32) -> (h: Self)
        ensures
            h == (Heartbeat { heard: false, last_us: now_us }),
    {
        Heartbeat { heard: false, last_us: now_us }
    }

    /// A byte came in.
    pub fn hear(&mut self)
        ensures
            *final(self) == (Heartbeat { heard: true, ..*old(self) }),
    {
        self.heard = true;
    }

    /// Looks at the timer: whether to print a line now.
    pub fn tick(&mut self, now_us: u32) -> (due: bool)
        ensures
            (*final(self), due) == beat(*old(self), now_us),
    {
        let due: bool = heartbeat_due(self.heard, self.last_us, now_us);
        if due {
            self.last_us = now_us;
        }
        due
    }
}

/// Once something was heard, no line is printed any more.
pub proof fn lemma_silent_once_heard(h: Heartbeat, times: Seq<u32>)
    requires
        h.heard,
    ensures
        beats(h, times) == 0,
    decreases times.len(),
{
    if times.len() > 0 {
        lemma_silent_once_heard(h, times.skip(1));
    }
}

/// While nothing was heard, a look at the timer prints a line exactly if a
/// second has passed since the last one, and the next second counts from there.
pub proof fn lemma_once_per_second(h: Heartbeat, now_us: u32)
    requires
        !h.heard,
    ensures
        beat(h, now_us).1 <==> led::passed(h.last_us, now_us) >= HEARTBEAT_US,
        beat(h, now_us).1 ==> beat(h, now_us).0.last_us == now_us,
        !beat(h, now_us).1 ==> beat(h, now_us).0 == h,
{
}

/// Printable text never holds the low magic byte.
proof fn lemma_crlf_of_ascii(bytes: Seq<u8>)
    requires
        forall|i: int| 0 <= i < bytes.len() ==> bytes[i] < 0x80,
    ensures
        forall|i: int| 0 <= i < uart::crlf(bytes).len() ==> uart::crlf(bytes)[i] != MAGIC_LO,
    decreases bytes.len(),
{
    if bytes.len() > 0 {
        let init = bytes.drop_last();
        assert forall|i: int| 0 <= i < init.len() implies init[i] < 0x80 by {
            assert(init[i] == bytes[i]);
        }
        lemma_crlf_of_ascii(init);
        assert(bytes[bytes.len() - 1] < 0x80);
        let before = uart::crlf(init);
        let all = uart::crlf(bytes);
        assert forall|i: int| 0 <= i < all.len() implies all[i] != MAGIC_LO by {
            if i < before.len() {
                assert(all[i] == before[i]);
            }
        }
    }
}

proof fn lemma_line_has_no_magic(i: int)
    requires
        0 <= i < line_bytes().len(),
    ensures
        line_bytes()[i] != MAGIC_LO,
{
    reveal_strlit("chainloader: up, waiting for host (HELLO)...\n");
    let chars = HEARTBEAT_LINE@;
    assert(vstd::utf8::is_ascii_chars(chars));
    vstd::utf8::is_ascii_chars_encode_utf8(chars);
    let bytes = HEARTBEAT_LINE.spec_bytes();
    assert forall|k: int| 0 <= k < bytes.len() implies bytes[k] < 0x80 by {
        assert(chars[k] as u8 == bytes[k]);
    }
    lemma_crlf_of_ascii(bytes);
}

/// `n` lines, one after the other.
pub open spec fn lines(n: nat) -> Seq<u8>
    decreases n,
{
    if n == 0 {
        Seq::empty()
    } else {
        lines((n - 1) as nat) + line_bytes()
    }
}

proof fn lemma_lines_have_no_magic(n: nat)
    ensures
        forall|i: int| 0 <= i < lines(n).len() ==> lines(n)[i] != MAGIC_LO,
    decreases n,
{
    if n > 0 {
        let before = lines((n - 1) as nat);
        lemma_lines_have_no_magic((n - 1) as nat);
        assert forall|i: int| 0 <= i < lines(n).len() implies lines(n)[i] != MAGIC_LO by {
            if i < before.len() {
                assert(lines(n)[i] == before[i]);
            } else {
                lemma_line_has_no_magic(i - before.len());
            }
        }
    }
}

/// However many lines a host catches before a frame, it hears the frame and
/// nothing else.
pub proof fn lemma_heartbeat_is_noise(n: nat, ty: FrameType, payload: Seq<u8>)
    requires
        payload.len() <= MAX_PAYLOAD,
    ensures
        stream::events(PhaseView::Sync0, lines(n) + frame::frame_bytes(ty, payload)) == seq![
            Event::Frame(ty, payload),
        ],
{
    lemma_lines_have_no_magic(n);
    assert(stream::no_magic(lines(n)));
    stream::lemma_frame_after_noise(lines(n), ty, payload);
}

/// A line is due once a million microseconds have passed since the last one, and
/// not before, as long as nothing was heard, also where the timer wraps between.
pub proof fn lemma_due_after_a_second(heard: bool, last_us: u32, us: u32)
    ensures
        ({
            let now = ((last_us + us) % 0x1_0000_0000) as u32;
            is_due(heard, last_us, now) <==> !heard && us >= 1_000_000
        }),
{
    led::lemma_passed(last_us, us);
}

} // verus!
