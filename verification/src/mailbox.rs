//! Minimal VideoCore mailbox client (property channel).
//!
//! A request is a message of words at a 16-byte-aligned address; the address
//! with the channel number in its low nibble rings the doorbell, and the
//! VideoCore writes its response back into the message.

use vstd::prelude::*;

verus! {

/// Inbound mailbox.
pub const MBOX_READ: u32 = 0x3F00_B880;

/// Mailbox status.
pub const MBOX_STATUS: u32 = 0x3F00_B898;

/// Outbound mailbox.
pub const MBOX_WRITE: u32 = 0x3F00_B8A0;

/// Status bit: outbound mailbox is full.
pub const MBOX_FULL: u32 = 0x8000_0000;

/// Status bit: inbound mailbox is empty.
pub const MBOX_EMPTY: u32 = 0x4000_0000;

/// Property-tags channel (ARM → VideoCore).
pub const CHANNEL_PROP: u32 = 8;

/// Marks a message as a request.
pub const REQUEST_CODE: u32 = 0x0000_0000;

/// What the VideoCore puts in its place on success.
pub const RESPONSE_SUCCESS: u32 = 0x8000_0000;

/// Tag: set a clock's rate.
pub const TAG_SET_CLOCK_RATE: u32 = 0x0003_8002;

/// Tag: where the ARM's memory is.
pub const TAG_GET_ARM_MEMORY: u32 = 0x0001_0005;

/// Clock id for the UART reference clock.
pub const CLOCK_UART: u32 = 2;

/// What to write to ring the doorbell for the message at `addr`: the address,
/// with the channel in its low nibble.
pub fn doorbell(addr: u32) -> (value: u32)
    ensures
        value == addr - addr % 16 + CHANNEL_PROP,
        value == doorbell_value(addr),
{
    assert((addr & !0xFu32) | 8 == addr - addr % 16 + 8) by (bit_vector);
    (addr & !0xF) | CHANNEL_PROP
}

/// Where a mailbox exchange stands.
#[derive(Debug, Clone, Copy, PartialEq, Eq, Structural)]
pub enum Exchange {
    /// Read the status until there is room, then write the doorbell value.
    Ring,
    /// Read the status until something is there, then read the mailbox.
    Await,
    /// The response is in the message.
    Over,
}

/// What the driver of an exchange does next.
#[derive(Debug, Clone, Copy, PartialEq, Eq, Structural)]
pub enum MailboxAction {
    /// Read the status again.
    Poll,
    /// Write the doorbell value.
    Write,
    /// Read the inbound mailbox.
    Read,
}

/// What the status means in a stage of the exchange.
pub fn on_status(stage: Exchange, status: u32) -> (a: MailboxAction)
    ensures
        a == match stage {
            Exchange::Ring => if status & MBOX_FULL != 0 {
                MailboxAction::Poll
            } else {
                MailboxAction::Write
            },
            _ => if status & MBOX_EMPTY != 0 {
                MailboxAction::Poll
            } else {
                MailboxAction::Read
            },
        },
        a == status_action(stage, status),
{
    match stage {
        Exchange::Ring => if status & MBOX_FULL != 0 {
            MailboxAction::Poll
        } else {
            MailboxAction::Write
        },
        _ => if status & MBOX_EMPTY != 0 {
            MailboxAction::Poll
        } else {
            MailboxAction::Read
        },
    }
}

/// What was read ends the exchange if it is addressed to our channel and message.
pub fn on_read(read: u32, rung: u32) -> (stage: Exchange)
    ensures
        stage == if read == rung {
            Exchange::Over
        } else {
            Exchange::Await
        },
{
    if read == rung {
        Exchange::Over
    } else {
        Exchange::Await
    }
}

/// Whether the VideoCore reported success in a message's response.
pub fn succeeded(words: &[u32; 9]) -> (yes: bool)
    ensures
        yes == (words@[1] == RESPONSE_SUCCESS),
{
    words[1] == RESPONSE_SUCCESS
}

/// The request to set the UART reference clock to `rate_hz`.
pub fn set_uart_clock(rate_hz: u32) -> (words: [u32; 9])
    ensures
        words@ == seq![
            36u32,
            REQUEST_CODE,
            TAG_SET_CLOCK_RATE,
            12,
            8,
            CLOCK_UART,
            rate_hz,
            0,
            0,
        ],
        words@ == clock_request(rate_hz),
{
    let words: [u32; 9] = [
        9 * 4,  // total size in bytes
        REQUEST_CODE,  // request
        TAG_SET_CLOCK_RATE,  // tag
        12,  // value buffer size
        8,  // tag request code
        CLOCK_UART,  // clock id
        rate_hz,  // requested rate
        0,  // do not skip setting turbo
        0,  // end tag
    ];
    assert(words@ =~= seq![36u32, REQUEST_CODE, TAG_SET_CLOCK_RATE, 12, 8, CLOCK_UART, rate_hz, 0, 0]);
    words
}

/// The request for the ARM-visible RAM region.
pub fn arm_memory_request() -> (words: [u32; 9])
    ensures
        words@ == seq![32u32, REQUEST_CODE, TAG_GET_ARM_MEMORY, 8, 0, 0, 0, 0, 0],
        words@ == memory_request(),
{
    let words: [u32; 9] = [
        8 * 4,  // total size in bytes
        REQUEST_CODE,  // request
        TAG_GET_ARM_MEMORY,  // tag
        8,  // value buffer size (base + size)
        0,  // tag request code
        0,  // base (response)
        0,  // size (response)
        0,  // end tag
        0,  // unused
    ];
    assert(words@ =~= seq![32u32, REQUEST_CODE, TAG_GET_ARM_MEMORY, 8, 0, 0, 0, 0, 0]);
    words
}

/// The ARM-visible RAM region as `(base, size)` in bytes — already net of the
/// VideoCore `gpu_mem` split — from the response to [`arm_memory_request`].
/// `None` if the exchange failed.
pub fn arm_memory(words: &[u32; 9]) -> (r: Option<(u64, u64)>)
    ensures
        r == if words@[1] == RESPONSE_SUCCESS {
            Some((words@[5] as u64, words@[6] as u64))
        } else {
            None
        },
        r == memory_of(words@),
{
    if !succeeded(words) {
        return None;
    }
    Some((words[5] as u64, words[6] as u64))
}

/// The doorbell value for the message at `addr`.
pub open spec fn doorbell_value(addr: u32) -> u32 {
    (addr - addr % 16 + CHANNEL_PROP) as u32
}

/// What a status asks for in a stage of the exchange.
pub open spec fn status_action(stage: Exchange, status: u32) -> MailboxAction {
    match stage {
        Exchange::Ring => if status & MBOX_FULL != 0 {
            MailboxAction::Poll
        } else {
            MailboxAction::Write
        },
        _ => if status & MBOX_EMPTY != 0 {
            MailboxAction::Poll
        } else {
            MailboxAction::Read
        },
    }
}

/// The request to set the UART reference clock.
pub open spec fn clock_request(rate_hz: u32) -> Seq<u32> {
    seq![36u32, REQUEST_CODE, TAG_SET_CLOCK_RATE, 12, 8, CLOCK_UART, rate_hz, 0, 0]
}

/// The request for the ARM-visible RAM region.
pub open spec fn memory_request() -> Seq<u32> {
    seq![32u32, REQUEST_CODE, TAG_GET_ARM_MEMORY, 8, 0, 0, 0, 0, 0]
}

/// The RAM region that a response tells.
pub open spec fn memory_of(words: Seq<u32>) -> Option<(u64, u64)> {
    if words[1] == RESPONSE_SUCCESS {
        Some((words[5] as u64, words[6] as u64))
    } else {
        None
    }
}

/// The doorbell carries the channel in its low four bits, and above them the
/// address of the message.
pub proof fn lemma_doorbell(addr: u32)
    ensures
        doorbell_value(addr) % 16 == 8,
        doorbell_value(addr) / 16 == addr / 16,
        addr % 16 == 0 ==> doorbell_value(addr) == addr + 8,
{
}

/// The doorbell is written as soon as the top status bit, outbound full, is
/// clear, and the mailbox read as soon as the next one, inbound empty, is.
pub proof fn lemma_status(status: u32)
    ensures
        status_action(Exchange::Ring, status) is Write <==> (status >> 31) & 1 == 0,
        status_action(Exchange::Ring, status) is Poll <==> (status >> 31) & 1 == 1,
        status_action(Exchange::Await, status) is Read <==> (status >> 30) & 1 == 0,
        status_action(Exchange::Await, status) is Poll <==> (status >> 30) & 1 == 1,
{
    assert((status & 0x8000_0000 == 0 <==> (status >> 31) & 1 == 0) && (status & 0x8000_0000 != 0
        <==> (status >> 31) & 1 == 1) && (status & 0x4000_0000 == 0 <==> (status >> 30) & 1 == 0)
        && (status & 0x4000_0000 != 0 <==> (status >> 30) & 1 == 1)) by (bit_vector);
}

/// The layout of a property message: its size in bytes, the request code, a tag
/// with the size of its values, the values, and the end. The clock request asks
/// for the rate it was given, on the UART's clock.
pub proof fn lemma_requests(rate_hz: u32, words: Seq<u32>)
    requires
        words.len() == 9,
    ensures
        clock_request(rate_hz).len() == 9,
        clock_request(rate_hz)[0] == 4 * clock_request(rate_hz).len(),
        clock_request(rate_hz)[1] == 0,
        clock_request(rate_hz)[2] == 0x3_8002,
        clock_request(rate_hz)[3] == 12,
        clock_request(rate_hz)[4] == 8,
        clock_request(rate_hz)[5] == 2,
        clock_request(rate_hz)[6] == rate_hz,
        clock_request(rate_hz)[7] == 0,
        clock_request(rate_hz)[8] == 0,
        memory_request().len() == 9,
        memory_request()[0] == 32,
        memory_request()[2] == 0x1_0005,
        memory_request()[3] == 8,
        forall|i: int|
            0 <= i < 9 && i != 0 && i != 2 && i != 3 ==> #[trigger] memory_request()[i] == 0,
        memory_of(words) is Some <==> words[1] == 0x8000_0000,
        memory_of(words) is Some ==> memory_of(words) == Some((words[5] as u64, words[6] as u64)),
{
}

} // verus!
