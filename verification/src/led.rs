//! Minimal ACT-LED blink — a visible "the loader is alive" sign, no serial
//! adapter required.
//!
//! On the Raspberry Pi Zero 2 W the green ACT LED is on GPIO29, active-low (from
//! the board device tree; the same pin as the Pi 3B+). The loader drives it
//! directly, so a short blink burst at boot confirms `kernel8.img` loaded and
//! ran even before — or without — the UART.

use vstd::prelude::*;

use crate::board;
use crate::board::RegOp;

verus! {

/// Function select of GPIO20–29.
pub const GPFSEL2: u32 = 0x3F20_0008;

/// Drive GPIO0–31 high.
pub const GPSET0: u32 = 0x3F20_001C;

/// Drive GPIO0–31 low.
pub const GPCLR0: u32 = 0x3F20_0028;

/// Green ACT LED pin on the Zero 2 W (active-low: low = on).
pub const ACT_PIN: u32 = 29;

/// The bit of the ACT LED's pin.
pub const ACT_BIT: u32 = 0x2000_0000;

/// How long the LED is on and off in a blink, in microseconds.
pub const BLINK_US: u32 = 200_000;

/// Drives the LED on (active-low → pin low).
pub fn on() -> (op: RegOp)
    ensures
        op == lit(),
{
    assert(1u32 << 29 == 0x2000_0000u32) by (bit_vector);
    RegOp::Write { reg: GPCLR0, value: 1 << ACT_PIN }
}

/// Drives the LED off (pin high).
pub fn off() -> (op: RegOp)
    ensures
        op == dark(),
{
    assert(1u32 << 29 == 0x2000_0000u32) by (bit_vector);
    RegOp::Write { reg: GPSET0, value: 1 << ACT_PIN }
}

/// The LED on.
pub open spec fn lit() -> RegOp {
    RegOp::Write { reg: GPCLR0, value: ACT_BIT }
}

/// The LED off.
pub open spec fn dark() -> RegOp {
    RegOp::Write { reg: GPSET0, value: ACT_BIT }
}

/// GPIO29 as an output: function select 0b001 in bits [29:27].
pub open spec fn output_pin() -> RegOp {
    RegOp::Modify { reg: GPFSEL2, clear: 0x3800_0000, set: 0x0800_0000 }
}

/// `blinks` blinks.
pub open spec fn blinking(blinks: nat) -> Seq<RegOp>
    decreases blinks,
{
    if blinks == 0 {
        Seq::empty()
    } else {
        blinking((blinks - 1) as nat) + seq![
            lit(),
            RegOp::DelayUs { us: BLINK_US },
            dark(),
            RegOp::DelayUs { us: BLINK_US },
        ]
    }
}

/// Sets GPIO29 to output, blinks the ACT LED `blinks` times (200 ms on/off),
/// and leaves it lit as a steady "loader up, waiting" indicator: what to do to
/// the registers.
pub fn signal_alive(blinks: u32) -> (ops: Vec<RegOp>)
    ensures
        ops@ == seq![output_pin(), dark()] + blinking(blinks as nat) + seq![lit()],
        ops@ == signal(blinks as nat),
{
    let shift: u32 = (ACT_PIN - 20) * 3;
    let mut ops: Vec<RegOp> = Vec::new();
    assert(0b111u32 << 27 == 0x3800_0000u32 && 0b001u32 << 27 == 0x0800_0000u32) by (bit_vector);
    ops.push(RegOp::Modify { reg: GPFSEL2, clear: 0b111 << shift, set: 0b001 << shift });
    ops.push(off());
    let mut i: u32 = 0;
    assert(ops@ =~= seq![output_pin(), dark()] + blinking(0));
    while i < blinks
        invariant
            i <= blinks,
            ops@ == seq![output_pin(), dark()] + blinking(i as nat),
        decreases blinks - i,
    {
        let ghost before = ops@;
        ops.push(on());
        ops.push(RegOp::DelayUs { us: BLINK_US });
        ops.push(off());
        ops.push(RegOp::DelayUs { us: BLINK_US });
        assert(ops@ =~= before + seq![
            lit(),
            RegOp::DelayUs { us: BLINK_US },
            dark(),
            RegOp::DelayUs { us: BLINK_US },
        ]);
        i = i + 1;
        assert(ops@ =~= seq![output_pin(), dark()] + blinking(i as nat));
    }
    ops.push(on());  // steady on: "loader running, waiting for host"
    assert(ops@ =~= seq![output_pin(), dark()] + blinking(blinks as nat) + seq![lit()]);
    ops
}

/// How many microseconds lie between the readings `start` and `now` of the
/// free-running 1 MHz system timer, across a wrap of the timer too.
pub open spec fn passed(start: u32, now: u32) -> int {
    if now >= start {
        now - start
    } else {
        now - start + 0x1_0000_0000
    }
}

/// Whether `us` microseconds have passed on the system timer between the
/// readings `start` and `now`.
pub fn elapsed(start: u32, now: u32, us: u32) -> (yes: bool)
    ensures
        yes == (us <= passed(start, now)),
{
    now.wrapping_sub(start) >= us
}

/// The pin's function becomes output, and no other pin of its register changes.
pub proof fn lemma_pin_is_output(sel: u32)
    ensures
        (board::modified(sel, 0x3800_0000, 0x0800_0000) >> 27) & 7 == 1,
        board::modified(sel, 0x3800_0000, 0x0800_0000) & !0x3800_0000u32 == sel & !0x3800_0000u32,
{
    assert((((sel & !0x3800_0000u32) | 0x0800_0000) >> 27) & 7 == 1 && ((sel & !0x3800_0000u32)
        | 0x0800_0000) & !0x3800_0000u32 == sel & !0x3800_0000u32) by (bit_vector);
}

/// The whole signal: the pin an output, dark, then the blinks, then lit.
pub open spec fn signal(blinks: nat) -> Seq<RegOp> {
    seq![output_pin(), dark()] + blinking(blinks) + seq![lit()]
}

/// Each blink is 200 ms lit and 200 ms dark, there are as many as asked for, the
/// pin becomes an output first, and the LED is left lit. It is lit by driving
/// GPIO29 low.
pub proof fn lemma_signal(blinks: nat, k: int)
    requires
        0 <= k < blinks,
    ensures
        ({
            let low = RegOp::Write { reg: 0x3F20_0028, value: 0x2000_0000 };
            let high = RegOp::Write { reg: 0x3F20_001C, value: 0x2000_0000 };
            let ops = signal(blinks);
            &&& ops.len() == 4 * blinks + 3
            &&& ops[0] == RegOp::Modify { reg: 0x3F20_0008, clear: 0x3800_0000, set: 0x0800_0000 }
            &&& ops[1] == high
            &&& ops[2 + 4 * k] == low
            &&& ops[3 + 4 * k] == RegOp::DelayUs { us: 200_000 }
            &&& ops[4 + 4 * k] == high
            &&& ops[5 + 4 * k] == RegOp::DelayUs { us: 200_000 }
            &&& ops.last() == low
        }),
        signal(0) == seq![output_pin(), dark(), lit()],
{
    lemma_blink(blinks, k);
    assert(signal(0) =~= seq![output_pin(), dark(), lit()]);
}

proof fn lemma_blink(blinks: nat, k: int)
    requires
        0 <= k < blinks,
    ensures
        blinking(blinks).len() == 4 * blinks,
        blinking(blinks)[4 * k] == lit(),
        blinking(blinks)[4 * k + 1] == (RegOp::DelayUs { us: BLINK_US }),
        blinking(blinks)[4 * k + 2] == dark(),
        blinking(blinks)[4 * k + 3] == (RegOp::DelayUs { us: BLINK_US }),
    decreases blinks,
{
    let n = (blinks - 1) as nat;
    if n > 0 {
        lemma_blink(n, if k < n {
            k
        } else {
            0
        });
    } else {
        assert(blinking(0) =~= Seq::<RegOp>::empty());
    }
}

/// A timer that has run for `us` microseconds since a reading shows that many as
/// passed, also where it has wrapped on the way.
pub proof fn lemma_passed(start: u32, us: u32)
    ensures
        passed(start, ((start + us) % 0x1_0000_0000) as u32) == us,
{
}

} // verus!
