//! Minimal PL011 (UART0) driver for the Raspberry Pi Zero 2 W and Pi 2/3 — the
//! BCM2836/BCM2837 family, which share the `0x3F00_0000` peripheral base.
//!
//! Register offsets and the GPIO14/15 ALT0 routing follow the BCM2835/2837
//! peripheral manual. [`Uart::init`] computes the baud divisors from the
//! firmware's default 48 MHz PL011 reference clock (see [`UART_CLOCK_HZ`]).
//!
//! Routing note: on the Bluetooth-equipped boards (Zero 2 W, Pi 3) the firmware
//! wires PL011 to the on-board Bluetooth modem via GPIO32/33 by default. Rather
//! than depend on a `dtoverlay=disable-bt` in `config.txt`, [`Uart::init`]
//! returns GPIO32/33 to plain inputs itself, disconnecting the BT UART so PL011
//! reaches only the GPIO14/15 header pins where the USB-TTL adapter connects.
//! The Pi 2 has no Bluetooth and is unaffected.

use vstd::prelude::*;
use vstd::string::*;

use crate::board;
use crate::board::{RegOp, Registers};

verus! {

/// Function select of GPIO10–19.
pub const GPFSEL1: u32 = 0x3F20_0004;

/// Function select of GPIO30–39 (the BT UART pins).
pub const GPFSEL3: u32 = 0x3F20_000C;

/// Pull-up/down control.
pub const GPPUD: u32 = 0x3F20_0094;

/// Pull-up/down clock of GPIO0–31.
pub const GPPUDCLK0: u32 = 0x3F20_0098;

/// Data register.
pub const UART_DR: u32 = 0x3F20_1000;

/// Flag register.
pub const UART_FR: u32 = 0x3F20_1018;

/// Integer baud divisor.
pub const UART_IBRD: u32 = 0x3F20_1024;

/// Fractional baud divisor.
pub const UART_FBRD: u32 = 0x3F20_1028;

/// Line control.
pub const UART_LCRH: u32 = 0x3F20_102C;

/// Control register.
pub const UART_CR: u32 = 0x3F20_1030;

/// Interrupt mask.
pub const UART_IMSC: u32 = 0x3F20_1038;

/// Interrupt clear.
pub const UART_ICR: u32 = 0x3F20_1044;

/// Flag: transmit FIFO full.
pub const FR_TXFF: u32 = 0x20;

/// Flag: receive FIFO empty.
pub const FR_RXFE: u32 = 0x10;

/// Enable FIFOs.
pub const LCRH_FEN: u32 = 0x10;

/// 8-bit words.
pub const LCRH_WLEN_8: u32 = 0x60;

/// Enable the UART.
pub const CR_UARTEN: u32 = 0x1;

/// Enable transmission.
pub const CR_TXE: u32 = 0x100;

/// Enable reception.
pub const CR_RXE: u32 = 0x200;

/// Target line rate, 8N1.
pub const BAUD: u32 = 115_200;

/// PL011 reference clock (`UARTCLK`) in Hz. The Raspberry Pi firmware runs the
/// PL011 from a 48 MHz reference by default when `enable_uart=1` is set, and —
/// unlike the mini-UART — this clock does not track the core frequency, so it is
/// stable without pinning. The mailbox is not asked: on real hardware the
/// firmware misreports the rate.
pub const UART_CLOCK_HZ: u32 = 48_000_000;

/// The baud divisor in 64ths: `4 * clock / baud`, rounded.
pub open spec fn div64(clock_hz: u32, baud: u32) -> int {
    (4 * clock_hz + baud / 2) / (baud as int)
}

/// PL011 integer/fractional baud divisors for `baud` at `clock_hz`.
///
/// `BAUDDIV = clock / (16 * baud)`; the integer part goes in `IBRD` and the
/// fraction, in 64ths, in `FBRD`. Computed as `div64 = round(64 * clock /
/// (16 * baud)) = round(4 * clock / baud)`, then split. At 48 MHz / 115200 this
/// yields `(26, 3)`.
pub fn baud_divisors(clock_hz: u32, baud: u32) -> (r: (u32, u32))
    requires
        baud > 0,
        4 * clock_hz + baud / 2 <= u32::MAX,
    ensures
        r.0 == div64(clock_hz, baud) / 64,
        r.1 == div64(clock_hz, baud) % 64,
{
    let div64: u32 = (4 * clock_hz + baud / 2) / baud;
    (div64 / 64, div64 % 64)
}

/// The divisors are as close as 64ths allow: they miss the exact quotient by at
/// most half a 64th, and the fraction is below one.
pub proof fn lemma_divisors_rounded(clock_hz: u32, baud: u32)
    requires
        baud > 0,
    ensures
        2 * (div64(clock_hz, baud) * baud - 4 * clock_hz) <= baud,
        2 * (4 * clock_hz - div64(clock_hz, baud) * baud) < baud,
        0 <= div64(clock_hz, baud) % 64 < 64,
{
    let n = 4 * clock_hz + baud / 2;
    let q = div64(clock_hz, baud);
    vstd::arithmetic::div_mod::lemma_fundamental_div_mod(n, baud as int);
    vstd::arithmetic::div_mod::lemma_mod_bound(n, baud as int);
    assert(q * baud == baud * q) by (nonlinear_arith);
}

/// `bytes` with a carriage return in front of every line feed.
pub open spec fn crlf(bytes: Seq<u8>) -> Seq<u8>
    decreases bytes.len(),
{
    if bytes.len() == 0 {
        Seq::empty()
    } else {
        let before = crlf(bytes.drop_last());
        if bytes.last() == 0x0A {
            before.push(0x0D).push(0x0A)
        } else {
            before.push(bytes.last())
        }
    }
}

/// The bring-up of the UART.
pub open spec fn init_script() -> Seq<RegOp> {
    seq![
        RegOp::Write { reg: UART_CR, value: 0 },
        RegOp::Modify { reg: GPFSEL1, clear: 0x3F000, set: 0x24000 },
        RegOp::Modify { reg: GPFSEL3, clear: 0xFC0, set: 0 },
        RegOp::Write { reg: GPPUD, value: 0 },
        RegOp::Spin { count: 150 },
        RegOp::Write { reg: GPPUDCLK0, value: 0xC000 },
        RegOp::Spin { count: 150 },
        RegOp::Write { reg: GPPUDCLK0, value: 0 },
        RegOp::Write { reg: UART_ICR, value: 0x7FF },
        RegOp::Write { reg: UART_IBRD, value: 26 },
        RegOp::Write { reg: UART_FBRD, value: 3 },
        RegOp::Write { reg: UART_LCRH, value: 0x70 },
        RegOp::Write { reg: UART_IMSC, value: 0 },
        RegOp::Write { reg: UART_CR, value: 0x301 },
    ]
}

/// A zero-sized handle to the single PL011 peripheral.
pub struct Uart;

impl Uart {
    /// Configures GPIO14/15 for UART0 and brings the PL011 up at 115200 8N1: what
    /// to do to the registers.
    pub fn init(&self) -> (ops: Vec<RegOp>)
        ensures
            ops@ == init_script(),
    {
        let (ibrd, fbrd): (u32, u32) = baud_divisors(UART_CLOCK_HZ, BAUD);
        let mut ops: Vec<RegOp> = Vec::new();
        // Disable the UART before reconfiguring.
        ops.push(RegOp::Write { reg: UART_CR, value: 0 });
        // Route GPIO14 (TXD) and GPIO15 (RXD) to ALT0 (= 0b100).
        ops.push(
            RegOp::Modify {
                reg: GPFSEL1,
                clear: (0b111 << 12) | (0b111 << 15),
                set: (0b100 << 12) | (0b100 << 15),
            },
        );
        // Free PL011 from the on-board Bluetooth: GPIO32 = FSEL[8:6] and
        // GPIO33 = FSEL[11:9] become inputs.
        ops.push(RegOp::Modify { reg: GPFSEL3, clear: 0b111_111 << 6, set: 0 });
        // Disable pull-up/down on pins 14 and 15.
        ops.push(RegOp::Write { reg: GPPUD, value: 0 });
        ops.push(RegOp::Spin { count: 150 });
        ops.push(RegOp::Write { reg: GPPUDCLK0, value: (1 << 14) | (1 << 15) });
        ops.push(RegOp::Spin { count: 150 });
        ops.push(RegOp::Write { reg: GPPUDCLK0, value: 0 });
        // Clear pending interrupts, program baud, frame format, then enable.
        ops.push(RegOp::Write { reg: UART_ICR, value: 0x7FF });
        ops.push(RegOp::Write { reg: UART_IBRD, value: ibrd });
        ops.push(RegOp::Write { reg: UART_FBRD, value: fbrd });
        ops.push(RegOp::Write { reg: UART_LCRH, value: LCRH_FEN | LCRH_WLEN_8 });
        ops.push(RegOp::Write { reg: UART_IMSC, value: 0 });
        ops.push(RegOp::Write { reg: UART_CR, value: CR_UARTEN | CR_TXE | CR_RXE });
        proof {
            assert((0b111u32 << 12) | (0b111u32 << 15) == 0x3F000) by (bit_vector);
            assert((0b100u32 << 12) | (0b100u32 << 15) == 0x24000) by (bit_vector);
            assert(0b111_111u32 << 6 == 0xFC0) by (bit_vector);
            assert((1u32 << 14) | (1u32 << 15) == 0xC000) by (bit_vector);
            assert(0x10u32 | 0x60u32 == 0x70) by (bit_vector);
            assert(0x1u32 | 0x100u32 | 0x200u32 == 0x301) by (bit_vector);
            assert(div64(UART_CLOCK_HZ, BAUD) == 1667);
            assert(ops@ =~= init_script());
        }
        ops
    }

    /// Whether a byte has to wait: the transmit FIFO is full.
    pub fn tx_full(&self, flags: u32) -> (full: bool)
        ensures
            full == (flags & FR_TXFF != 0),
    {
        flags & FR_TXFF != 0
    }

    /// Whether the receive FIFO has a byte.
    pub fn rx_ready(&self, flags: u32) -> (ready: bool)
        ensures
            ready == (flags & FR_RXFE == 0),
    {
        flags & FR_RXFE == 0
    }

    /// The received byte in the data register, without its error bits.
    pub fn rx_byte(&self, data: u32) -> (byte: u8)
        ensures
            byte == data % 256,
    {
        assert(data & 0xFF == data % 256) by (bit_vector);
        (data & 0xFF) as u8
    }

    /// The bytes of a string as they go out, with `\n` translated into CR+LF for
    /// terminal friendliness.
    pub fn write_str(&self, s: &str) -> (out: Vec<u8>)
        ensures
            out@ == crlf(s.spec_bytes()),
    {
        let bytes: &[u8] = s.as_bytes();
        let mut out: Vec<u8> = Vec::new();
        let mut i: usize = 0;
        assert(out@ =~= crlf(bytes@.take(0)));
        while i < bytes.len()
            invariant
                i <= bytes@.len(),
                out@ == crlf(bytes@.take(i as int)),
            decreases bytes@.len() - i,
        {
            assert(bytes@.take(i + 1).drop_last() =~= bytes@.take(i as int));
            let byte: u8 = bytes[i];
            if byte == 0x0A {
                out.push(0x0D);
            }
            out.push(byte);
            i = i + 1;
        }
        assert(bytes@.take(bytes@.len() as int) =~= bytes@);
        out
    }
}

/// After the bring-up GPIO14 and GPIO15 are routed to the UART (ALT0), GPIO32
/// and GPIO33 are inputs, and all other pins of their registers are as they
/// were; the UART runs at the divisors of 115200 baud with 8-bit words and FIFOs.
pub proof fn lemma_uart_up(regs: Registers)
    ensures
        ({
            let after = board::registers_after(regs, init_script());
            &&& (after(GPFSEL1) >> 12) & 7 == 4
            &&& (after(GPFSEL1) >> 15) & 7 == 4
            &&& after(GPFSEL1) & !0x3F000u32 == regs(GPFSEL1) & !0x3F000u32
            &&& (after(GPFSEL3) >> 6) & 7 == 0
            &&& (after(GPFSEL3) >> 9) & 7 == 0
            &&& after(GPFSEL3) & !0xFC0u32 == regs(GPFSEL3) & !0xFC0u32
            &&& after(GPPUDCLK0) == 0
            &&& after(UART_IBRD) == 26
            &&& after(UART_FBRD) == 3
            &&& after(UART_LCRH) == 0x70
            &&& after(UART_IMSC) == 0
            &&& after(UART_CR) == 0x301
            &&& after(UART_ICR) == 0x7FF
            &&& after(GPPUD) == 0
        }),
{
    let s = init_script();
    reveal_with_fuel(board::registers_after, 15);
    assert(s.drop_last() =~= s.take(13));
    assert(s.take(13).drop_last() =~= s.take(12));
    assert(s.take(12).drop_last() =~= s.take(11));
    assert(s.take(11).drop_last() =~= s.take(10));
    assert(s.take(10).drop_last() =~= s.take(9));
    assert(s.take(9).drop_last() =~= s.take(8));
    assert(s.take(8).drop_last() =~= s.take(7));
    assert(s.take(7).drop_last() =~= s.take(6));
    assert(s.take(6).drop_last() =~= s.take(5));
    assert(s.take(5).drop_last() =~= s.take(4));
    assert(s.take(4).drop_last() =~= s.take(3));
    assert(s.take(3).drop_last() =~= s.take(2));
    assert(s.take(2).drop_last() =~= s.take(1));
    assert(s.take(1).drop_last() =~= s.take(0));
    let a = regs(GPFSEL1);
    let b = regs(GPFSEL3);
    let after = board::registers_after(regs, s);
    assert(after(GPFSEL1) == (a & !0x3F000u32) | 0x24000);
    assert(after(GPFSEL3) == (b & !0xFC0u32) | 0);
    assert((((a & !0x3F000u32) | 0x24000) >> 12) & 7 == 4 && (((a & !0x3F000u32) | 0x24000) >> 15)
        & 7 == 4 && ((a & !0x3F000u32) | 0x24000) & !0x3F000u32 == a & !0x3F000u32)
        by (bit_vector);
    assert((((b & !0xFC0u32) | 0) >> 6) & 7 == 0 && (((b & !0xFC0u32) | 0) >> 9) & 7 == 0 && ((b
        & !0xFC0u32) | 0) & !0xFC0u32 == b & !0xFC0u32) by (bit_vector);
}

/// The order of the bring-up: the UART is off while it is set up and goes on
/// last, and the pull resistors of GPIO14 and 15 get 150 cycles before and after
/// the clock. Only the registers that it is about are touched.
pub proof fn lemma_uart_order(regs: Registers, a: u32)
    ensures
        ({
            let s = init_script();
            &&& s.len() == 14
            &&& s[0] == (RegOp::Write { reg: 0x3F20_1030, value: 0 })
            &&& forall|i: int|
                0 < i < 13 ==> match #[trigger] s[i] {
                    RegOp::Write { reg, .. } => reg != 0x3F20_1030,
                    RegOp::Modify { reg, .. } => reg != 0x3F20_1030,
                    _ => true,
                }
            &&& s[13] == (RegOp::Write { reg: 0x3F20_1030, value: 0x301 })
            &&& s[3] == (RegOp::Write { reg: 0x3F20_0094, value: 0 })
            &&& s[4] == (RegOp::Spin { count: 150 })
            &&& s[5] == (RegOp::Write { reg: 0x3F20_0098, value: 0xC000 })
            &&& s[6] == (RegOp::Spin { count: 150 })
            &&& s[7] == (RegOp::Write { reg: 0x3F20_0098, value: 0 })
        }),
{
}

/// Text goes out piece by piece: each line feed as carriage return and line feed,
/// each other byte as itself.
pub proof fn lemma_crlf(a: Seq<u8>, b: Seq<u8>, byte: u8)
    ensures
        crlf(a + b) == crlf(a) + crlf(b),
        crlf(Seq::empty()).len() == 0,
        crlf(seq![0x0Au8]) == seq![0x0Du8, 0x0A],
        byte != 0x0A ==> crlf(seq![byte]) == seq![byte],
    decreases b.len(),
{
    let none = Seq::<u8>::empty();
    assert(seq![0x0Au8].drop_last() =~= none);
    assert(seq![byte].drop_last() =~= none);
    assert(crlf(none) =~= none);
    assert(crlf(seq![0x0Au8]) =~= seq![0x0Du8, 0x0A]);
    if byte != 0x0A {
        assert(crlf(seq![byte]) =~= seq![byte]);
    }
    if b.len() == 0 {
        assert(a + b =~= a);
        assert(crlf(a) + crlf(b) =~= crlf(a));
    } else {
        lemma_crlf(a, b.drop_last(), byte);
        assert((a + b).drop_last() =~= a + b.drop_last());
        assert((a + b).last() == b.last());
        assert(crlf(a + b) =~= crlf(a) + crlf(b));
    }
}

} // verus!
