//! USB device transport: a USB CDC-ACM serial gadget on the Zero 2 W's micro-USB
//! data port, driven by the Synopsys DWC2 OTG core.
//!
//! This holds the DWC2 registers of the bring-up, the bring-up itself, and the
//! CDC-ACM descriptors. Enumeration and FIFO transfers are not there, so the
//! gadget reads zeros and swallows what is written.

use vstd::prelude::*;

use crate::board;
use crate::board::{RegOp, Registers};

verus! {

/// DWC2 OTG core base on BCM2837 (peripheral base + `0x98_0000`).
pub const USB_BASE: u32 = 0x3F98_0000;

/// Core USB configuration.
pub const GUSBCFG: u32 = 0x3F98_000C;

/// Reset control.
pub const GRSTCTL: u32 = 0x3F98_0010;

/// Device configuration.
pub const DCFG: u32 = 0x3F98_0800;

/// Device control.
pub const DCTL: u32 = 0x3F98_0804;

/// Core soft reset.
pub const GRSTCTL_CSRST: u32 = 0x1;

/// AHB master idle.
pub const GRSTCTL_AHBIDLE: u32 = 0x8000_0000;

/// Select the full-speed serial PHY.
pub const GUSBCFG_PHYSEL_FS: u32 = 0x40;

/// Force device mode.
pub const GUSBCFG_FORCEDEVMODE: u32 = 0x4000_0000;

/// Soft disconnect.
pub const DCTL_SFTDISCON: u32 = 0x2;

/// Device speed = full speed (internal PHY).
pub const DCFG_DEVSPD_FS: u32 = 0b11;

/// CDC-ACM device descriptor. VID/PID are development placeholders; the host
/// binds its in-box CDC-ACM driver by class.
pub const DEVICE_DESCRIPTOR: [u8; 18] = [
    0x12,  // bLength = 18
    0x01,  // bDescriptorType = DEVICE
    0x00,
    0x02,  // bcdUSB = 2.00
    0x02,  // bDeviceClass = CDC
    0x00,  // bDeviceSubClass
    0x00,  // bDeviceProtocol
    0x40,  // bMaxPacketSize0 = 64
    0x09,
    0x12,  // idVendor = 0x1209
    0x01,
    0x00,  // idProduct = 0x0001
    0x00,
    0x01,  // bcdDevice = 1.00
    0x00,  // iManufacturer
    0x00,  // iProduct
    0x00,  // iSerialNumber
    0x01,  // bNumConfigurations = 1
];

/// CDC-ACM configuration descriptor: the CDC Communications interface (ACM, with
/// its functional descriptors and a notification endpoint) and the CDC-Data
/// interface (bulk OUT and bulk IN). EP1 IN = notify, EP2 OUT/IN = data.
pub const CONFIG_DESCRIPTOR: [u8; 67] = [
    0x09, 0x02, 0x43, 0x00, 0x02, 0x01, 0x00, 0xC0, 0x32, 0x09, 0x04, 0x00, 0x00, 0x01, 0x02,
    0x02, 0x01, 0x00, 0x05, 0x24, 0x00, 0x10, 0x01, 0x05, 0x24, 0x01, 0x00, 0x01, 0x04, 0x24,
    0x02, 0x02, 0x05, 0x24, 0x06, 0x00, 0x01, 0x07, 0x05, 0x81, 0x03, 0x08, 0x00, 0xFF, 0x09,
    0x04, 0x01, 0x00, 0x02, 0x0A, 0x00, 0x00, 0x00, 0x07, 0x05, 0x02, 0x02, 0x40, 0x00, 0x00,
    0x07, 0x05, 0x82, 0x02, 0x40, 0x00, 0x00,
];

/// A handle to the single DWC2 USB device controller.
pub struct Usb;

impl Usb {
    /// Brings up the DWC2 core in device mode and soft-connects the CDC-ACM
    /// gadget: what to do to the registers.
    pub fn init(&self) -> (ops: Vec<RegOp>)
        ensures
            ops@ == seq![
                RegOp::WaitSet { reg: GRSTCTL, mask: GRSTCTL_AHBIDLE },
                RegOp::Write { reg: GRSTCTL, value: GRSTCTL_CSRST },
                RegOp::WaitClear { reg: GRSTCTL, mask: GRSTCTL_CSRST },
                RegOp::Modify { reg: GUSBCFG, clear: 0, set: 0x4000_0040 },
                RegOp::Modify { reg: DCFG, clear: 0, set: DCFG_DEVSPD_FS },
                RegOp::Modify { reg: DCTL, clear: DCTL_SFTDISCON, set: 0 },
            ],
            ops@ == init_script(),
    {
        let mut ops: Vec<RegOp> = Vec::new();
        // Wait for the AHB master to go idle, then soft-reset the core.
        ops.push(RegOp::WaitSet { reg: GRSTCTL, mask: GRSTCTL_AHBIDLE });
        ops.push(RegOp::Write { reg: GRSTCTL, value: GRSTCTL_CSRST });
        ops.push(RegOp::WaitClear { reg: GRSTCTL, mask: GRSTCTL_CSRST });
        // Select the full-speed internal PHY and force device mode.
        ops.push(
            RegOp::Modify {
                reg: GUSBCFG,
                clear: 0,
                set: GUSBCFG_PHYSEL_FS | GUSBCFG_FORCEDEVMODE,
            },
        );
        // Configure the device for full speed.
        ops.push(RegOp::Modify { reg: DCFG, clear: 0, set: DCFG_DEVSPD_FS });
        // Soft-connect: clear SFTDISCON so the host detects the device.
        ops.push(RegOp::Modify { reg: DCTL, clear: DCTL_SFTDISCON, set: 0 });
        assert(0x40u32 | 0x4000_0000u32 == 0x4000_0040u32) by (bit_vector);
        ops
    }

    /// Reads zero: the gadget has no receive path.
    pub fn get_byte(&self) -> (byte: u8)
        ensures
            byte == 0,
    {
        0
    }

    /// What sending a byte does to the registers: nothing, as the gadget has no
    /// transmit path.
    pub fn put_byte(&self, _byte: u8) -> (ops: Vec<RegOp>)
        ensures
            ops@ == Seq::<RegOp>::empty(),
    {
        Vec::new()
    }
}

/// The bring-up of the controller.
pub open spec fn init_script() -> Seq<RegOp> {
    seq![
        RegOp::WaitSet { reg: GRSTCTL, mask: GRSTCTL_AHBIDLE },
        RegOp::Write { reg: GRSTCTL, value: GRSTCTL_CSRST },
        RegOp::WaitClear { reg: GRSTCTL, mask: GRSTCTL_CSRST },
        RegOp::Modify { reg: GUSBCFG, clear: 0, set: 0x4000_0040 },
        RegOp::Modify { reg: DCFG, clear: 0, set: DCFG_DEVSPD_FS },
        RegOp::Modify { reg: DCTL, clear: DCTL_SFTDISCON, set: 0 },
    ]
}

/// The core is reset only once its bus is idle, and configured only once the
/// reset is over. Then the full-speed PHY and device mode are on, the speed is
/// full, the soft disconnect is off, and nothing else is changed.
pub proof fn lemma_connected(regs: Registers, a: u32)
    ensures
        ({
            let s = init_script();
            let after = board::registers_after(regs, s);
            &&& s.len() == 6
            &&& s[0] == (RegOp::WaitSet { reg: GRSTCTL, mask: 0x8000_0000 })
            &&& s[1] == (RegOp::Write { reg: GRSTCTL, value: 1 })
            &&& s[2] == (RegOp::WaitClear { reg: GRSTCTL, mask: 1 })
            &&& after(GUSBCFG) == regs(GUSBCFG) | 0x4000_0040
            &&& after(DCFG) == regs(DCFG) | 3
            &&& after(DCTL) == regs(DCTL) & !2u32
            &&& a != GRSTCTL && a != GUSBCFG && a != DCFG && a != DCTL ==> after(a) == regs(a)
        }),
{
    let s = init_script();
    reveal_with_fuel(board::registers_after, 7);
    assert(s.drop_last() =~= s.take(5));
    assert(s.take(5).drop_last() =~= s.take(4));
    assert(s.take(4).drop_last() =~= s.take(3));
    assert(s.take(3).drop_last() =~= s.take(2));
    assert(s.take(2).drop_last() =~= s.take(1));
    assert(s.take(1).drop_last() =~= s.take(0));
    let g = regs(GUSBCFG);
    let c = regs(DCFG);
    let t = regs(DCTL);
    assert((g & !0u32) | 0x4000_0040 == g | 0x4000_0040 && (c & !0u32) | 3 == c | 3 && (t & !2u32)
        | 0 == t & !2u32) by (bit_vector);
}

} // verus!
