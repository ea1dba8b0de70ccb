//! What every core is handed.
//!
//! Every core — the boot core at handoff and each secondary when released —
//! enters the payload with the same register block, differing only in its core
//! number. The boot core publishes the block, and a released secondary rebuilds
//! it. A secondary waits while its slot of the release mailbox reads zero.

use vstd::prelude::*;

use crate::board::RegOp;
use crate::receive;
use crate::receive::{BootInfo, WINDOW_MAX, WINDOW_MIN};

verus! {

/// How many cores there are.
pub const CORES: usize = 4;

/// How many words the boot core publishes.
pub const PUBLISHED: usize = 7;

/// Firmware spin-table release word of core 1. The core spins on it until a
/// jump address is written and an event signalled.
pub const SPIN_CORE1: u64 = 0xe0;

/// Firmware spin-table release word of core 2.
pub const SPIN_CORE2: u64 = 0xe8;

/// Firmware spin-table release word of core 3.
pub const SPIN_CORE3: u64 = 0xf0;

/// The `x0`–`x8` register handoff, in order.
#[derive(Debug, Clone, Copy, PartialEq, Eq, Structural)]
pub struct Handoff {
    /// Physical base of the loaded image.
    pub load_addr: u64,
    /// Image length in bytes.
    pub image_len: u64,
    /// Writable window low bound.
    pub win_min: u64,
    /// Writable window high bound.
    pub win_max: u64,
    /// Device-tree pointer (`0` if none or invalid).
    pub dtb: u64,
    /// Verified size of the device tree in bytes (`0` if there is none).
    pub dtb_size: u64,
    /// Entry-ABI generation.
    pub abi_version: u64,
    /// Base of the secondary release mailbox.
    pub mailbox: u64,
    /// Core index (`0` for the boot core, `1`–`3` for secondaries).
    pub core_id: u64,
}

impl Handoff {
    /// The registers `x0`–`x8`.
    pub open spec fn registers(self) -> Seq<u64> {
        seq![
            self.load_addr,
            self.image_len,
            self.win_min,
            self.win_max,
            self.dtb,
            self.dtb_size,
            self.abi_version,
            self.mailbox,
            self.core_id,
        ]
    }

    /// What core 0 is handed when the loader branches to an image.
    pub fn boot_core(
        boot: &BootInfo,
        dtb: u64,
        dtb_size: u64,
        abi_version: u64,
        mailbox: u64,
    ) -> (h: Self)
        ensures
            h.registers() == seq![
                boot.load_addr,
                boot.image_len as u64,
                WINDOW_MIN,
                WINDOW_MAX,
                dtb,
                dtb_size,
                abi_version,
                mailbox,
                0,
            ],
            h == boot_block(*boot, dtb, dtb_size, abi_version, mailbox),
    {
        let h = Handoff {
            load_addr: boot.load_addr,
            image_len: boot.image_len as u64,
            win_min: WINDOW_MIN,
            win_max: WINDOW_MAX,
            dtb,
            dtb_size,
            abi_version,
            mailbox,
            core_id: 0,
        };
        assert(h.registers() =~= seq![
            boot.load_addr,
            boot.image_len as u64,
            WINDOW_MIN,
            WINDOW_MAX,
            dtb,
            dtb_size,
            abi_version,
            mailbox,
            0,
        ]);
        h
    }

    /// The words that the boot core publishes: `x0`–`x6`.
    pub fn publish(&self) -> (words: [u64; PUBLISHED])
        ensures
            words@ == self.registers().take(PUBLISHED as int),
    {
        let words: [u64; PUBLISHED] = [
            self.load_addr,
            self.image_len,
            self.win_min,
            self.win_max,
            self.dtb,
            self.dtb_size,
            self.abi_version,
        ];
        assert(words@ =~= self.registers().take(PUBLISHED as int));
        words
    }

    /// What core `core_id` is handed, from the words that the boot core published.
    pub fn rebuild(words: &[u64; PUBLISHED], mailbox: u64, core_id: u64) -> (h: Self)
        ensures
            h.registers() == words@ + seq![mailbox, core_id],
    {
        let h = Handoff {
            load_addr: words[0],
            image_len: words[1],
            win_min: words[2],
            win_max: words[3],
            dtb: words[4],
            dtb_size: words[5],
            abi_version: words[6],
            mailbox,
            core_id,
        };
        assert(h.registers() =~= words@ + seq![mailbox, core_id]);
        h
    }
}

/// The first four bytes of a flattened device tree, as a big-endian number.
pub const FDT_MAGIC: u32 = 0xD00D_FEED;

/// The number that four bytes stand for, high byte first.
pub open spec fn be32(b: Seq<u8>, at: int) -> int {
    0x100_0000 * b[at] + 0x1_0000 * b[at + 1] + 0x100 * b[at + 2] + b[at + 3]
}

/// The device-tree pointer and size to hand over, from the firmware's pointer and
/// the first eight bytes there: the pointer and the tree's own total size if it
/// starts with the magic, and two zeros if there is no tree.
pub fn device_tree(dtb: u64, head: &[u8; 8]) -> (r: (u64, u64))
    ensures
        r == if dtb != 0 && be32(head@, 0) == FDT_MAGIC {
            (dtb, be32(head@, 4) as u64)
        } else {
            (0, 0)
        },
        r == tree_of(dtb, head@),
{
    let magic: u64 = 0x100_0000 * (head[0] as u64) + 0x1_0000 * (head[1] as u64) + 0x100 * (
    head[2] as u64) + head[3] as u64;
    let size: u64 = 0x100_0000 * (head[4] as u64) + 0x1_0000 * (head[5] as u64) + 0x100 * (
    head[6] as u64) + head[7] as u64;
    if dtb != 0 && magic == FDT_MAGIC as u64 {
        (dtb, size)
    } else {
        (0, 0)
    }
}

/// Every core is handed the same block as the boot core, but for its number.
pub proof fn lemma_cores_agree(boot: Handoff, secondary: Handoff)
    requires
        secondary.registers() == boot.registers().take(PUBLISHED as int) + seq![
            boot.mailbox,
            secondary.core_id,
        ],
    ensures
        secondary == (Handoff { core_id: secondary.core_id, ..boot }),
{
    let b = boot.registers();
    let s = secondary.registers();
    assert(s[0] == b[0] && s[1] == b[1] && s[2] == b[2] && s[3] == b[3] && s[4] == b[4] && s[5]
        == b[5] && s[6] == b[6]);
    assert(s[7] == boot.mailbox);
}

/// Address of core `core_id`'s slot in the release mailbox.
pub fn slot_addr(mailbox: u64, core_id: u64) -> (addr: u64)
    requires
        core_id < CORES,
        mailbox + 8 * CORES <= u64::MAX,
    ensures
        addr == mailbox + 8 * core_id,
{
    mailbox + 8 * core_id
}

/// What releasing the secondaries writes.
pub struct Release {
    /// The published block.
    pub handoff: [u64; PUBLISHED],
    /// The release mailbox: zero, so that every core waits to be started.
    pub mailbox: [u64; CORES],
    /// Spin-table words and what is written to each.
    pub spin: [(u64, u64); 3],
}

/// Publishes the handoff and sends cores 1–3 into the `trampoline`, where they
/// park polling their mailbox slot: what to write, the handoff first.
pub fn release(h: &Handoff, trampoline: u64) -> (r: Release)
    ensures
        r.handoff@ == h.registers().take(PUBLISHED as int),
        r.mailbox@ == seq![0u64, 0, 0, 0],
        r.spin@ == seq![
            (SPIN_CORE1, trampoline),
            (SPIN_CORE2, trampoline),
            (SPIN_CORE3, trampoline),
        ],
{
    let r = Release {
        handoff: h.publish(),
        mailbox: [0u64; CORES],
        spin: [(SPIN_CORE1, trampoline), (SPIN_CORE2, trampoline), (SPIN_CORE3, trampoline)],
    };
    assert(r.mailbox@ =~= seq![0u64, 0, 0, 0]);
    assert(r.spin@ =~= seq![
        (SPIN_CORE1, trampoline),
        (SPIN_CORE2, trampoline),
        (SPIN_CORE3, trampoline),
    ]);
    r
}

/// Register that rings mailbox 0 of core 0. Those of the other cores follow,
/// [`CORE_STRIDE`] apart.
pub const CORE_MAILBOX_SET: u32 = 0x4000_0080;

/// Distance between the mailbox registers of neighbouring cores.
pub const CORE_STRIDE: u32 = 0x10;

/// Rings the mailbox of one core.
pub open spec fn ring(core: int) -> RegOp {
    RegOp::Write { reg: (CORE_MAILBOX_SET + CORE_STRIDE * core) as u32, value: 1 }
}

/// Rings the mailboxes of the secondaries below `core` that are active, in order.
pub open spec fn rings(active: Seq<u64>, core: int) -> Seq<RegOp>
    decreases core,
{
    if core <= 1 {
        Seq::empty()
    } else if active[core - 1] != 0 {
        rings(active, core - 1).push(ring(core - 1))
    } else {
        rings(active, core - 1)
    }
}

/// Forces every running secondary back into its parked state, by an interrupt
/// through its mailbox: what to do to the registers. Parked cores and the boot
/// core are left alone.
pub fn quiesce_secondaries(active: &[u64; CORES]) -> (ops: Vec<RegOp>)
    ensures
        ops@ == rings(active@, CORES as int),
{
    let mut ops: Vec<RegOp> = Vec::new();
    let mut core: usize = 1;
    while core < CORES
        invariant
            1 <= core <= CORES,
            ops@ == rings(active@, core as int),
        decreases CORES - core,
    {
        if active[core] != 0 {
            ops.push(
                RegOp::Write { reg: CORE_MAILBOX_SET + CORE_STRIDE * core as u32, value: 1 },
            );
        }
        core = core + 1;
    }
    ops
}

/// Whether all secondaries are parked, so that an image may be overwritten.
pub fn all_parked(active: &[u64; CORES]) -> (yes: bool)
    ensures
        yes == (rings(active@, CORES as int).len() == 0),
        yes == (active@[1] == 0 && active@[2] == 0 && active@[3] == 0),
{
    reveal_with_fuel(rings, 4);
    active[1] == 0 && active[2] == 0 && active[3] == 0
}

/// A secondary is interrupted exactly if it is active, and the boot core never.
pub proof fn lemma_active_are_rung(active: Seq<u64>, core: int)
    requires
        active.len() == CORES,
        0 <= core < CORES,
    ensures
        rings(active, CORES as int).contains(ring(core)) <==> core > 0 && active[core] != 0,
{
    reveal_with_fuel(rings, 4);
    let r = rings(active, CORES as int);
    if core > 0 && active[core] != 0 {
        let k: int = (if core > 1 && active[1] != 0 {
            1int
        } else {
            0
        }) + (if core > 2 && active[2] != 0 {
            1int
        } else {
            0
        });
        assert(r[k] == ring(core));
    }
}

/// A core that is started by the loader's own boot runs inside the window that
/// it is told about.
pub proof fn lemma_entry_in_window(
    t: receive::TransferView,
    loader: receive::Extent,
    boot: BootInfo,
)
    requires
        t.inv(loader),
        boot == (BootInfo {
            entry: (t.header.load_addr + t.header.entry_off) as u64,
            load_addr: t.header.load_addr,
            image_len: t.header.image_len,
        }),
    ensures
        WINDOW_MIN <= boot.load_addr <= boot.entry < boot.load_addr + boot.image_len <= WINDOW_MAX,
{
}

/// What core 0 is handed.
pub open spec fn boot_block(
    boot: BootInfo,
    dtb: u64,
    dtb_size: u64,
    abi_version: u64,
    mailbox: u64,
) -> Handoff {
    Handoff {
        load_addr: boot.load_addr,
        image_len: boot.image_len as u64,
        win_min: WINDOW_MIN,
        win_max: WINDOW_MAX,
        dtb,
        dtb_size,
        abi_version,
        mailbox,
        core_id: 0,
    }
}

/// The device-tree pointer and size to hand over.
pub open spec fn tree_of(dtb: u64, head: Seq<u8>) -> (u64, u64) {
    if dtb != 0 && be32(head, 0) == FDT_MAGIC {
        (dtb, be32(head, 4) as u64)
    } else {
        (0, 0)
    }
}

/// Register by register, core 0 is told where the image lies and how long it is,
/// the window, the device tree, the ABI, the release mailbox, and its number.
pub proof fn lemma_boot_registers(
    boot: BootInfo,
    dtb: u64,
    dtb_size: u64,
    abi_version: u64,
    mailbox: u64,
)
    ensures
        ({
            let x = boot_block(boot, dtb, dtb_size, abi_version, mailbox).registers();
            &&& x.len() == 9
            &&& x[0] == boot.load_addr
            &&& x[1] == boot.image_len
            &&& x[2] == 0x20_0000
            &&& x[3] == 0x1C00_0000
            &&& x[4] == dtb
            &&& x[5] == dtb_size
            &&& x[6] == abi_version
            &&& x[7] == mailbox
            &&& x[8] == 0
        }),
{
}

/// A device tree is handed over, with the size that it tells itself, exactly if
/// there is a pointer and the bytes there are `D0 0D FE ED`.
pub proof fn lemma_tree_recognized(dtb: u64, head: Seq<u8>)
    requires
        head.len() == 8,
    ensures
        ({
            let (at, size) = tree_of(dtb, head);
            let there = dtb != 0 && head[0] == 0xD0 && head[1] == 0x0D && head[2] == 0xFE && head[3]
                == 0xED;
            &&& there ==> at == dtb && size == ((head[4] * 256 + head[5]) * 256 + head[6]) * 256
                + head[7]
            &&& !there ==> at == 0 && size == 0
        }),
{
}

/// The writes that interrupt the secondaries: one per active core, from core 1
/// up, to that core's own register.
pub proof fn lemma_rings_in_order(active: Seq<u64>)
    requires
        active.len() == 4,
    ensures
        ({
            let one = if active[1] != 0 {
                seq![RegOp::Write { reg: 0x4000_0090, value: 1 }]
            } else {
                Seq::empty()
            };
            let two = if active[2] != 0 {
                seq![RegOp::Write { reg: 0x4000_00A0, value: 1 }]
            } else {
                Seq::empty()
            };
            let three = if active[3] != 0 {
                seq![RegOp::Write { reg: 0x4000_00B0, value: 1 }]
            } else {
                Seq::empty()
            };
            rings(active, 4) == one + two + three
        }),
{
    reveal_with_fuel(rings, 4);
    let one = if active[1] != 0 {
        seq![RegOp::Write { reg: 0x4000_0090, value: 1 }]
    } else {
        Seq::empty()
    };
    let two = if active[2] != 0 {
        seq![RegOp::Write { reg: 0x4000_00A0, value: 1 }]
    } else {
        Seq::empty()
    };
    let three = if active[3] != 0 {
        seq![RegOp::Write { reg: 0x4000_00B0, value: 1 }]
    } else {
        Seq::empty()
    };
    assert(rings(active, 2) =~= one);
    assert(rings(active, 3) =~= one + two);
    assert(rings(active, 4) =~= one + two + three);
}

} // verus!
