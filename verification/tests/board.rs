//! What the drivers compute.

use chainloader::board::{any_set, modify, RegOp};
use chainloader::cache::Sweep;
use chainloader::heartbeat::{heartbeat_due, heartbeat_line, Heartbeat, HEARTBEAT_LINE, HEARTBEAT_US};
use chainloader::hvc::{set_reload_dtb, ReloadState};
use chainloader::led::{elapsed, signal_alive};
use chainloader::mailbox::{
    arm_memory, arm_memory_request, doorbell, on_read, on_status, set_uart_clock, succeeded,
    Exchange, MailboxAction,
};
use chainloader::payload::count_nonzero;
use chainloader::receive::BootInfo;
use chainloader::smp::{
    all_parked, device_tree, quiesce_secondaries, release, slot_addr, Handoff,
};
use chainloader::uart::{baud_divisors, Uart};
use chainloader::usb::{Usb, CONFIG_DESCRIPTOR, DEVICE_DESCRIPTOR};

#[test]
fn divisors() {
    assert_eq!(baud_divisors(48_000_000, 115_200), (26, 3));
    assert_eq!(baud_divisors(4_000_000, 115_200), (2, 11));
    assert_eq!(baud_divisors(16, 1), (1, 0));
}

#[test]
fn uart_bring_up() {
    let ops = Uart.init();
    assert_eq!(ops.len(), 14);
    assert_eq!(ops[0], RegOp::Write { reg: 0x3F20_1030, value: 0 });
    assert_eq!(
        ops[1],
        RegOp::Modify { reg: 0x3F20_0004, clear: 0x3_F000, set: 0x2_4000 }
    );
    assert_eq!(ops[2], RegOp::Modify { reg: 0x3F20_000C, clear: 0xFC0, set: 0 });
    assert_eq!(ops[9], RegOp::Write { reg: 0x3F20_1024, value: 26 });
    assert_eq!(ops[10], RegOp::Write { reg: 0x3F20_1028, value: 3 });
    assert_eq!(ops[13], RegOp::Write { reg: 0x3F20_1030, value: 0x301 });
    assert_eq!(modify(0xFFFF_FFFF, 0x3_F000, 0x2_4000), 0xFFFE_4FFF);
    assert!(any_set(6, 2) && !any_set(6, 1));
}

#[test]
fn uart_bytes() {
    assert_eq!(Uart.write_str("a\nb\r\n\u{e9}"), b"a\r\nb\r\r\n\xC3\xA9");
    assert_eq!(Uart.write_str(""), b"");
    assert!(Uart.tx_full(0x20) && !Uart.tx_full(0x10));
    assert!(Uart.rx_ready(0x20) && !Uart.rx_ready(0x10));
    assert_eq!(Uart.rx_byte(0xF41), 0x41);
}

#[test]
fn led_blinks() {
    let ops = signal_alive(2);
    let (on, off) = (
        RegOp::Write { reg: 0x3F20_0028, value: 1 << 29 },
        RegOp::Write { reg: 0x3F20_001C, value: 1 << 29 },
    );
    let wait = RegOp::DelayUs { us: 200_000 };
    assert_eq!(
        ops,
        vec![
            RegOp::Modify { reg: 0x3F20_0008, clear: 7 << 27, set: 1 << 27 },
            off, on, wait, off, wait, on, wait, off, wait, on,
        ]
    );
    assert!(!elapsed(5, 9, 5) && elapsed(5, 10, 5));
    assert!(elapsed(u32::MAX, 4, 5) && !elapsed(u32::MAX, 3, 5));
}

#[test]
fn mailbox_messages() {
    assert_eq!(doorbell(0x1230), 0x1238);
    assert_eq!(doorbell(0x123F), 0x1238);
    assert_eq!(set_uart_clock(4_000_000), [36, 0, 0x3_8002, 12, 8, 2, 4_000_000, 0, 0]);
    let mut words = arm_memory_request();
    assert_eq!(words, [32, 0, 0x1_0005, 8, 0, 0, 0, 0, 0]);
    assert_eq!(arm_memory(&words), None);
    words[1] = 0x8000_0000;
    words[6] = 0x1C00_0000;
    assert!(succeeded(&words));
    assert_eq!(arm_memory(&words), Some((0, 0x1C00_0000)));
    assert_eq!(on_status(Exchange::Ring, 0x8000_0000), MailboxAction::Poll);
    assert_eq!(on_status(Exchange::Ring, 0x4000_0000), MailboxAction::Write);
    assert_eq!(on_status(Exchange::Await, 0x4000_0000), MailboxAction::Poll);
    assert_eq!(on_status(Exchange::Await, 0x8000_0000), MailboxAction::Read);
    assert_eq!(on_read(0x1238, 0x1238), Exchange::Over);
    assert_eq!(on_read(0x1231, 0x1238), Exchange::Await);
}

#[test]
fn every_core_gets_the_same_block() {
    let boot = BootInfo { entry: 0x20_0004, load_addr: 0x20_0000, image_len: 10 };
    let h = Handoff::boot_core(&boot, 0x100, 0x20, 3, 0x9_0000);
    assert_eq!((h.load_addr, h.image_len), (0x20_0000, 10));
    assert_eq!((h.win_min, h.win_max), (0x20_0000, 0x1C00_0000));
    assert_eq!((h.dtb, h.dtb_size, h.abi_version), (0x100, 0x20, 3));
    assert_eq!((h.mailbox, h.core_id), (0x9_0000, 0));
    let r = release(&h, 0x8_1000);
    assert_eq!(r.handoff, [0x20_0000, 10, 0x20_0000, 0x1C00_0000, 0x100, 0x20, 3]);
    assert_eq!(r.mailbox, [0; 4]);
    assert_eq!(r.spin, [(0xe0, 0x8_1000), (0xe8, 0x8_1000), (0xf0, 0x8_1000)]);
    assert_eq!(Handoff::rebuild(&r.handoff, 0x9_0000, 2), Handoff { core_id: 2, ..h });
    assert_eq!(slot_addr(0x9_0000, 3), 0x9_0018);
}

#[test]
fn cache_lines() {
    // DminLine = 4: lines of 64 bytes.
    let mut s = Sweep::new(4 << 16, 0x1010, 0x1081);
    assert_eq!(s.next(), Some(0x1000));
    assert_eq!(s.next(), Some(0x1040));
    assert_eq!(s.next(), Some(0x1080));
    assert_eq!(s.next(), None);
    assert_eq!(s.next(), None);
    assert_eq!(Sweep::new(0, 8, 8).next(), None);
}

#[test]
fn reload_state() {
    let mut s = ReloadState::new();
    assert_eq!(s.dtb, 0);
    set_reload_dtb(&mut s, 0x1234);
    assert_eq!(s.dtb, 0x1234);
}

#[test]
fn usb_descriptors() {
    assert_eq!(usize::from(DEVICE_DESCRIPTOR[0]), DEVICE_DESCRIPTOR.len());
    // The total length is the descriptor's own, and its parts fill it exactly.
    assert_eq!(usize::from(CONFIG_DESCRIPTOR[2]), CONFIG_DESCRIPTOR.len());
    let mut at = 0;
    let mut endpoints = 0;
    while at < CONFIG_DESCRIPTOR.len() {
        if CONFIG_DESCRIPTOR[at + 1] == 5 {
            endpoints += 1;
        }
        at += usize::from(CONFIG_DESCRIPTOR[at]);
    }
    assert_eq!(at, CONFIG_DESCRIPTOR.len());
    assert_eq!(endpoints, 3);
    assert_eq!(Usb.get_byte(), 0);
    assert!(Usb.put_byte(7).is_empty());
    let ops = Usb.init();
    assert_eq!(ops.len(), 6);
    assert_eq!(ops[3], RegOp::Modify { reg: 0x3F98_000C, clear: 0, set: 0x4000_0040 });
    assert_eq!(ops[5], RegOp::Modify { reg: 0x3F98_0804, clear: 2, set: 0 });
}

#[test]
fn scratch_count() {
    assert_eq!(count_nonzero(&[0; 1024]), 0);
    assert_eq!(count_nonzero(&[0, 0xAA, 0, 1]), 2);
    assert_eq!(count_nonzero(&[]), 0);
}

#[test]
fn device_trees() {
    let head = [0xD0, 0x0D, 0xFE, 0xED, 0, 0, 0x12, 0x34];
    assert_eq!(device_tree(0x100, &head), (0x100, 0x1234));
    assert_eq!(device_tree(0, &head), (0, 0));
    let mut other = head;
    other[3] = 0;
    assert_eq!(device_tree(0x100, &other), (0, 0));
}

#[test]
fn heartbeat_until_the_first_byte() {
    assert_eq!(HEARTBEAT_LINE, "chainloader: up, waiting for host (HELLO)...\n");
    assert_eq!(heartbeat_line(), b"chainloader: up, waiting for host (HELLO)...\r\n");
    assert_eq!(HEARTBEAT_US, 1_000_000);
    assert!(!heartbeat_due(false, 5, 1_000_004));
    assert!(heartbeat_due(false, 5, 1_000_005));
    assert!(!heartbeat_due(true, 5, 1_000_005));
    // Across a wrap of the timer.
    assert!(heartbeat_due(false, u32::MAX, 999_999));
    assert!(!heartbeat_due(false, u32::MAX, 999_998));
    let mut h = Heartbeat::new(100);
    assert!(!h.tick(1_000_099));
    assert!(h.tick(1_000_100));
    assert!(!h.tick(1_000_101));
    assert!(!h.tick(2_000_099));
    assert!(h.tick(2_500_000));
    assert!(!h.tick(3_499_999));
    h.hear();
    assert!(!h.tick(4_000_000));
    assert_eq!(h, Heartbeat { heard: true, last_us: 2_500_000 });
}

#[test]
fn heartbeat_is_noise_to_a_host() {
    let mut bytes = heartbeat_line();
    bytes.extend(heartbeat_line());
    bytes.extend_from_slice(chainloader::receive::send_ack(3).bytes());
    let mut d = chainloader::Decoder::new();
    let (ty, payload) = chainloader::session::scan(&mut d, &bytes).unwrap();
    assert_eq!((ty, payload), (chainloader::FrameType::Ack, vec![3, 0, 0, 0]));
}

#[test]
fn running_secondaries_are_taken_back() {
    assert!(quiesce_secondaries(&[1, 0, 0, 0]).is_empty());
    assert_eq!(
        quiesce_secondaries(&[1, 1, 0, 1]),
        vec![
            RegOp::Write { reg: 0x4000_0090, value: 1 },
            RegOp::Write { reg: 0x4000_00B0, value: 1 },
        ]
    );
    assert!(all_parked(&[1, 0, 0, 0]));
    assert!(!all_parked(&[0, 0, 1, 0]));
}
