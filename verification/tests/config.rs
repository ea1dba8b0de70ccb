//! Settings, numbers, ports and commands.

use chainloader::cli::{dispatch, Command};
use chainloader::config::{
    find_pi, first_table, metadata_root, Address, CliOverrides, Config, MetadataPi, DEFAULT_BAUD,
    DEFAULT_LOAD_ADDR,
};
use chainloader::discover::{resolve_port, PortError, PortInfo};
use chainloader::number::parse_u64;

fn no_metadata() -> MetadataPi {
    MetadataPi {
        port: None,
        baud: None,
        load_address: None,
        entry_offset: None,
        package: None,
        bin: None,
        release: None,
        console: None,
    }
}

#[test]
fn integers() {
    assert_eq!(parse_u64("0").unwrap(), 0);
    assert_eq!(parse_u64(" 1234\n").unwrap(), 1234);
    assert_eq!(parse_u64("0x200000").unwrap(), 0x20_0000);
    assert_eq!(parse_u64("0XabCD").unwrap(), 0xABCD);
    assert_eq!(parse_u64("+7").unwrap(), 7);
    assert_eq!(parse_u64("0x+f").unwrap(), 15);
    assert_eq!(parse_u64("\u{3000}007\u{a0}").unwrap(), 7);
    assert_eq!(parse_u64("18446744073709551615").unwrap(), u64::MAX);
    assert_eq!(parse_u64("0xffffffffffffffff").unwrap(), u64::MAX);
    for bad in [
        "", " ", "+", "-1", "0x", "0x+", "x10", "12a", "0xg", "1 2", "++1", "0x0x1",
        "18446744073709551616", "0x10000000000000000",
    ] {
        assert_eq!(parse_u64(bad).unwrap_err().text, bad);
    }
    assert_eq!(parse_u64("a\"b\n").unwrap_err().to_string(), r#"invalid integer: "a\"b\n""#);
}

#[test]
fn defaults_without_other_sources() {
    let cfg = Config::resolve(None, CliOverrides::default()).unwrap();
    assert_eq!(cfg.port, None);
    assert_eq!(cfg.baud, 115_200);
    assert_eq!(cfg.load_addr, 0x0020_0000);
    assert_eq!(cfg.entry_off, 0);
    assert_eq!(cfg.package, None);
    assert_eq!(cfg.bin, None);
    assert!(cfg.release);
    assert!(!cfg.console_after);
    let copy = cfg.clone();
    assert_eq!((copy.baud, copy.load_addr), (DEFAULT_BAUD, DEFAULT_LOAD_ADDR));
}

#[test]
fn command_line_wins_over_metadata() {
    let meta = || MetadataPi {
        port: Some("/dev/a".to_string()),
        baud: Some(9600),
        load_address: Some(Address::Str("0x300000".to_string())),
        entry_offset: Some(16),
        package: Some("p".to_string()),
        bin: Some("b".to_string()),
        release: Some(false),
        console: Some(true),
    };
    let cfg = Config::resolve(Some(meta()), CliOverrides::default()).unwrap();
    assert_eq!(cfg.port.as_deref(), Some("/dev/a"));
    assert_eq!((cfg.baud, cfg.load_addr, cfg.entry_off), (9600, 0x30_0000, 16));
    assert_eq!((cfg.package.as_deref(), cfg.bin.as_deref()), (Some("p"), Some("b")));
    assert!(!cfg.release && cfg.console_after);
    let cli = CliOverrides {
        port: Some("/dev/c".to_string()),
        baud: Some(1),
        load_addr: Some(2),
        package: Some("q".to_string()),
        bin: Some("c".to_string()),
        release: Some(true),
        console_after: Some(false),
    };
    let cfg = Config::resolve(Some(meta()), cli).unwrap();
    assert_eq!(cfg.port.as_deref(), Some("/dev/c"));
    assert_eq!((cfg.baud, cfg.load_addr, cfg.entry_off), (1, 2, 16));
    assert_eq!((cfg.package.as_deref(), cfg.bin.as_deref()), (Some("q"), Some("c")));
    assert!(cfg.release && !cfg.console_after);
}

#[test]
fn bad_address_is_an_error_even_when_overridden() {
    let meta = MetadataPi { load_address: Some(Address::Str("zzz".to_string())), ..no_metadata() };
    let cli = CliOverrides { load_addr: Some(2), ..CliOverrides::default() };
    assert_eq!(Config::resolve(Some(meta), cli).unwrap_err().text, "zzz");
    assert_eq!(Address::Num(5).to_u64().unwrap(), 5);
    assert_eq!(Address::Str("0x10".to_string()).to_u64().unwrap(), 16);
}

#[test]
fn metadata_table() {
    let out = br#"{"packages":[{"metadata":null},{"metadata":{"x":1}},
        {"metadata":{"pi":{"baud":1}}},{"metadata":{"pi":{"baud":2}}}]}"#;
    let root = metadata_root(true, out).unwrap();
    let pi = find_pi(&root).unwrap();
    assert_eq!(pi.get("baud").and_then(|b| b.as_u64()), Some(1));
    assert!(metadata_root(false, out).is_none());
    assert!(metadata_root(true, b"{").is_none());
    for none in [&b"[]"[..], br#"{"packages":{}}"#, br#"{"packages":[]}"#, br#"{"packages":[1]}"#] {
        assert!(find_pi(&metadata_root(true, none).unwrap()).is_none());
    }
    // A table of null is there.
    let root = metadata_root(true, br#"{"packages":[{"metadata":{"pi":null}}]}"#).unwrap();
    assert!(find_pi(&root).unwrap().is_null());
    let (a, b) = (1u8, 2u8);
    assert_eq!(first_table(&vec![None, Some(&a), Some(&b)]), Some(&a));
    assert_eq!(first_table::<u8>(&vec![None, None]), None);
}

fn port(name: &str, usb: bool) -> PortInfo {
    PortInfo { name: name.to_string(), usb }
}

#[test]
fn ports() {
    let ports = vec![
        port("/dev/ttyS0", false),
        port("/dev/tty.usbserial-1", true),
        port("/dev/cu.usbserial-1", true),
    ];
    assert_eq!(resolve_port(None, &ports).unwrap(), "/dev/cu.usbserial-1");
    assert_eq!(resolve_port(Some("/dev/x"), &ports).unwrap(), "/dev/x");
    // Without a callout node the dial-in node is a candidate.
    assert_eq!(resolve_port(None, &vec![port("/dev/tty.a", true)]).unwrap(), "/dev/tty.a");
    let e = resolve_port(None, &vec![port("/dev/cu.a", false)]).unwrap_err();
    assert!(matches!(e, PortError::NoDevice));
    assert_eq!(
        e.to_string(),
        "no USB serial device found; pass --port <dev> (e.g. /dev/cu.usbserial-XXXX)"
    );
    let many = vec![port("/dev/ttyUSB0", true), port("/dev/ttyUSB1", true), port("/dev/cu", true)];
    assert_eq!(
        resolve_port(None, &many).unwrap_err().to_string(),
        "multiple USB serial devices found: /dev/ttyUSB0, /dev/ttyUSB1, /dev/cu; pass --port to \
         choose one"
    );
}

#[test]
fn commands() {
    let run = |args: &[&str]| dispatch(&args.iter().map(|s| s.to_string()).collect());
    assert!(matches!(run(&[]), Command::Help));
    assert!(matches!(run(&["pi"]), Command::Help));
    assert!(matches!(run(&["pi", "load"]), Command::Load));
    assert!(matches!(run(&["load", "x"]), Command::Load));
    assert!(matches!(run(&["console"]), Command::Console));
    for h in ["help", "-h", "--help"] {
        assert!(matches!(run(&["pi", h]), Command::Help));
    }
    assert!(matches!(run(&["pi", "pi"]), Command::Unknown(n) if n == "pi"));
    assert!(matches!(run(&["boot"]), Command::Unknown(n) if n == "boot"));
}
