//! What a driver does to the board's registers, as data.
//!
//! A driver's bring-up is a list of [`RegOp`]s that whoever has access to the
//! registers performs in order. [`registers_after`] is the model of that.

use vstd::prelude::*;

verus! {

/// Peripheral base shared by the BCM2836/BCM2837 family (Pi 2, Pi 3, Zero 2 W).
pub const PERIPHERAL_BASE: u32 = 0x3F00_0000;

/// The GPIO registers.
pub const GPIO_BASE: u32 = 0x3F20_0000;

/// One thing to do, to the 32-bit register at address `reg` or by waiting.
#[derive(Debug, Clone, Copy, PartialEq, Eq, Structural)]
pub enum RegOp {
    /// Write `value`.
    Write {
        /// Address of the register.
        reg: u32,
        /// What to write.
        value: u32,
    },
    /// Read, clear the bits of `clear`, set those of `set`, and write back.
    Modify {
        /// Address of the register.
        reg: u32,
        /// Bits to clear.
        clear: u32,
        /// Bits to set.
        set: u32,
    },
    /// Read until one of the bits of `mask` is set.
    WaitSet {
        /// Address of the register.
        reg: u32,
        /// The bits.
        mask: u32,
    },
    /// Read until none of the bits of `mask` is set.
    WaitClear {
        /// Address of the register.
        reg: u32,
        /// The bits.
        mask: u32,
    },
    /// Spin for this many loop iterations.
    Spin {
        /// How many.
        count: u32,
    },
    /// Wait for this many microseconds.
    DelayUs {
        /// How many.
        us: u32,
    },
}

/// What [`RegOp::Modify`] makes of a register.
pub open spec fn modified(old_value: u32, clear: u32, set: u32) -> u32 {
    (old_value & !clear) | set
}

/// What to write back for [`RegOp::Modify`].
pub fn modify(old_value: u32, clear: u32, set: u32) -> (value: u32)
    ensures
        value == modified(old_value, clear, set),
{
    (old_value & !clear) | set
}

/// Whether [`RegOp::WaitSet`] is over.
pub fn any_set(value: u32, mask: u32) -> (yes: bool)
    ensures
        yes == (value & mask != 0),
{
    value & mask != 0
}

/// Registers: what each address holds.
pub type Registers = spec_fn(u32) -> u32;

/// The registers after one operation.
pub open spec fn register_step(regs: Registers, op: RegOp) -> Registers {
    match op {
        RegOp::Write { reg, value } => |a: u32|
            if a == reg {
                value
            } else {
                regs(a)
            },
        RegOp::Modify { reg, clear, set } => |a: u32|
            if a == reg {
                modified(regs(a), clear, set)
            } else {
                regs(a)
            },
        _ => regs,
    }
}

/// The registers after all of `ops`, in order. What the hardware itself does to
/// them is left out.
pub open spec fn registers_after(regs: Registers, ops: Seq<RegOp>) -> Registers
    decreases ops.len(),
{
    if ops.len() == 0 {
        regs
    } else {
        register_step(registers_after(regs, ops.drop_last()), ops.last())
    }
}

/// The register after a modification: the bits to set are set, the others of
/// those to clear are clear, and all the rest is as it was.
pub proof fn lemma_modified(old_value: u32, clear: u32, set: u32)
    ensures
        modified(old_value, clear, set) & set == set,
        modified(old_value, clear, set) & (clear & !set) == 0,
        modified(old_value, clear, set) & !(clear | set) == old_value & !(clear | set),
{
    assert(((old_value & !clear) | set) & set == set) by (bit_vector);
    assert(((old_value & !clear) | set) & (clear & !set) == 0) by (bit_vector);
    assert(((old_value & !clear) | set) & !(clear | set) == old_value & !(clear | set))
        by (bit_vector);
}

} // verus!
