//! What a reload needs to know of the first boot.
//!
//! The loader stays resident after it has started an image. A running image can
//! ask it to download and start a new one, which is handed the device tree of
//! the first boot again.

use vstd::prelude::*;

verus! {

/// The device-tree pointer from the first boot, replayed to a reloaded image.
#[derive(Debug, Clone, Copy, PartialEq, Eq, Structural)]
pub struct ReloadState {
    /// The pointer; `0` before it is recorded.
    pub dtb: u64,
}

impl ReloadState {
    /// Nothing recorded yet.
    pub fn new() -> (s: Self)
        ensures
            s.dtb == 0,
    {
        ReloadState { dtb: 0 }
    }
}

/// Records the boot device-tree pointer so a later reload can replay it.
pub fn set_reload_dtb(state: &mut ReloadState, dtb: u64)
    ensures
        *final(state) == (ReloadState { dtb }),
{
    state.dtb = dtb;
}

} // verus!
