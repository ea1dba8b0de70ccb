//! Frames on their way out.

use vstd::prelude::*;

use crate::frame;
use crate::frame::{encode_frame, EncodeError, FrameType, MAX_FRAME, MAX_PAYLOAD};

verus! {

broadcast use crate::le::group_le_len;

/// An encoded frame on its way out, in a buffer of its own.
pub struct Outgoing {
    buf: [u8; MAX_FRAME],
    len: usize,
}

impl View for Outgoing {
    type V = Seq<u8>;

    closed spec fn view(&self) -> Seq<u8> {
        self.buf@.take(self.len as int)
    }
}

impl Outgoing {
    /// The frame lies inside its buffer.
    pub closed spec fn wf(&self) -> bool {
        self.len <= MAX_FRAME
    }

    /// Nothing to transmit.
    pub fn nothing() -> (out: Self)
        ensures
            out.wf(),
            out@ == Seq::<u8>::empty(),
    {
        let out = Outgoing { buf: [0u8; MAX_FRAME], len: 0 };
        assert(out@ =~= Seq::<u8>::empty());
        out
    }

    /// The bytes to transmit.
    pub fn bytes(&self) -> (bytes: &[u8])
        requires
            self.wf(),
        ensures
            bytes@ == self@,
    {
        assert(self.buf@.subrange(0, self.len as int) =~= self@);
        &self.buf[0..self.len]
    }
}

/// Encodes one frame for transmission, or says why it will not encode.
pub fn write_frame(ty: FrameType, payload: &[u8]) -> (r: Result<Outgoing, EncodeError>)
    ensures
        match r {
            Ok(out) => {
                &&& payload@.len() <= MAX_PAYLOAD
                &&& out.wf()
                &&& out@ == frame::frame_bytes(ty, payload@)
            },
            Err(e) => payload@.len() > MAX_PAYLOAD && e == EncodeError::PayloadTooLarge,
        },
{
    let mut buf: [u8; MAX_FRAME] = [0u8; MAX_FRAME];
    let len: usize = match encode_frame(ty, payload, &mut buf) {
        Ok(frame) => frame.len(),
        Err(e) => {
            return Err(e);
        },
    };
    let out = Outgoing { buf, len };
    assert(out@ =~= frame::frame_bytes(ty, payload@));
    Ok(out)
}

/// Encodes one frame for transmission. A frame that will not encode is dropped;
/// on a wired link the host retries, which is preferable to blocking here.
pub fn send_frame(ty: FrameType, payload: &[u8]) -> (out: Outgoing)
    ensures
        out.wf(),
        out@ == if payload@.len() <= MAX_PAYLOAD {
            frame::frame_bytes(ty, payload@)
        } else {
            Seq::empty()
        },
{
    match write_frame(ty, payload) {
        Ok(out) => out,
        Err(_) => Outgoing::nothing(),
    }
}

} // verus!
