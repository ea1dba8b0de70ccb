//! A development chainloader for the Raspberry Pi, verified.
//!
//! A loader lives on the Pi's SD card. It takes an AArch64 image over a UART,
//! checks it, and branches to it; a host command builds the image and sends it.
//! This library is what both sides decide and compute. Reading and writing the
//! line, the registers and the host's files is left to the programs around it.
//!
//! # The line
//!
//! Every message is one frame: a two-byte magic for resynchronization, a
//! version, a type, a length-prefixed payload and a CRC-32 trailer, all
//! little-endian. [`frame`] encodes frames without allocating, [`decoder`] takes
//! a byte stream apart again, and [`message`] holds the typed payloads.
//! [`stream`] states what the decoder makes of whole streams.
//!
//! # The two ends
//!
//! [`receive`] is the loader's end: it validates an image header, tracks the
//! transfer, and says what to write, what to reply and when to branch.
//! [`session`] is the host's end. [`conversation`] and [`lockstep`] state what
//! holds of whole transfers: the loader never writes outside its window or over
//! itself, branches only into an image that arrived whole and intact, and a
//! transfer of an acceptable image always gets there.
//!
//! # Around them
//!
//! On the host, [`artifact`] and [`elf`] turn a build into a flat image,
//! [`config`] and [`number`] resolve the settings, [`discover`] picks the serial
//! device and [`cli`] the command. On the board, [`uart`], [`led`],
//! [`heartbeat`], [`mailbox`], [`usb`], [`smp`], [`cache`] and [`hvc`] hold what
//! the drivers compute, with [`board`] as the model of the registers. [`payload`] is what an example image
//! checks.

use vstd::prelude::*;
use vstd::string::*;

pub mod artifact;
pub mod board;
pub mod cache;
pub mod cli;
pub mod config;
pub mod conversation;
pub mod crc;
pub mod crc_table;
pub mod decoder;
pub mod discover;
pub mod elf;
pub mod frame;
pub mod heartbeat;
pub mod hvc;
pub mod json;
pub mod le;
pub mod led;
pub mod lockstep;
pub mod mailbox;
pub mod message;
pub mod number;
pub mod outgoing;
pub mod payload;
pub mod receive;
pub mod session;
pub mod smp;
pub mod stream;
pub mod text;
pub mod uart;
pub mod usb;

pub use crc::{crc32, Crc32};
pub use decoder::{DecodeError, Decoded, Decoder};
pub use frame::{
    encode_frame, frame_len, EncodeError, FrameType, HEADER_LEN, MAGIC, MAGIC_HI, MAGIC_LO,
    MAX_FRAME, MAX_PAYLOAD, PROTOCOL_VERSION, TRAILER_LEN,
};
pub use message::{Ack, DataFrame, ErrorCode, ErrorMsg, Hello, ImageHeader, MsgError, Ready};

verus! {

/// The crate's version, for a greeting or a log line.
pub fn version() -> (v: &'static str)
    ensures
        v@ == "0.1.0"@,
{
    "0.1.0"
}

} // verus!
