//! From a build to an image.

use chainloader::artifact::{
    build_args, build_image, built_executable, read_message, read_messages, select_executable,
    AddressWarning, BuildError, BuildMessage,
};
use chainloader::config::Config;
use chainloader::crc32;
use chainloader::elf::ElfError;

fn message(reason: &str, executable: Option<&str>, name: &str) -> BuildMessage {
    BuildMessage {
        reason: Some(reason.to_string()),
        executable: executable.map(str::to_string),
        target_name: Some(name.to_string()),
    }
}

#[test]
fn raw_image_is_used_as_is() {
    let (image, warning) = build_image(b"raw".to_vec(), 0x30_0000, 1).unwrap();
    assert_eq!((image.load_addr, image.entry_off), (0x30_0000, 1));
    assert_eq!(image.bytes, b"raw");
    assert_eq!(image.crc32, crc32(b"raw"));
    assert_eq!(warning, None);
}

/// An ELF with one segment of four bytes at 0x200000.
fn elf() -> Vec<u8> {
    let mut out = vec![0u8; 124];
    out[..7].copy_from_slice(b"\x7FELF\x02\x01\x01");
    out[24..32].copy_from_slice(&0x20_0002u64.to_le_bytes());
    out[32..40].copy_from_slice(&64u64.to_le_bytes());
    out[54] = 56;
    out[56] = 1;
    out[64] = 1;
    out[72] = 120;
    out[88..96].copy_from_slice(&0x20_0000u64.to_le_bytes());
    out[96] = 4;
    out[120..].copy_from_slice(&[0xDE, 0xAD, 0xBE, 0xEF]);
    out
}

#[test]
fn elf_address_wins() {
    let (image, warning) = build_image(elf(), 0x40_0000, 9).unwrap();
    assert_eq!((image.load_addr, image.entry_off), (0x20_0000, 2));
    assert_eq!(image.bytes, [0xDE, 0xAD, 0xBE, 0xEF]);
    assert_eq!(image.crc32, crc32(&[0xDE, 0xAD, 0xBE, 0xEF]));
    let warning = warning.unwrap();
    assert_eq!(warning, AddressWarning { configured: 0x40_0000, linked: 0x20_0000 });
    assert_eq!(
        warning.to_string(),
        "cargo-pi: warning: configured load-address 0x400000 differs from the ELF's link \
         address 0x200000; using the ELF address (relocating a non-PIC image would break it)."
    );
    // The default and the link address itself give no warning.
    assert_eq!(build_image(elf(), 0x20_0000, 0).unwrap().1, None);
    let mut moved = elf();
    moved[90] = 0x30;
    moved[26] = 0x30;
    assert_eq!(build_image(moved.clone(), 0x20_0000, 0).unwrap().1, None);
    assert_eq!(build_image(moved, 0x30_0000, 0).unwrap().1, None);
    assert_eq!(build_image(elf()[..60].to_vec(), 0, 0).err(), Some(ElfError::Truncated));
}

#[test]
fn cargo_arguments() {
    let mut cfg = Config::default();
    assert_eq!(
        build_args(&cfg),
        ["build", "--message-format", "json-render-diagnostics", "--release"]
    );
    cfg.release = false;
    cfg.package = Some("kernel".to_string());
    cfg.bin = Some("main".to_string());
    assert_eq!(
        build_args(&cfg),
        [
            "build",
            "--message-format",
            "json-render-diagnostics",
            "--package",
            "kernel",
            "--bin",
            "main",
        ]
    );
}

#[test]
fn last_artifact_wins() {
    let msgs = vec![
        message("compiler-artifact", Some("/t/a"), "a"),
        message("compiler-artifact", Some("/t/b"), "b"),
        message("compiler-artifact", None, "lib"),
        message("build-finished", Some("/t/c"), "c"),
    ];
    assert_eq!(select_executable(&msgs, &None), Some("/t/b".to_string()));
    assert_eq!(select_executable(&msgs, &Some("a".to_string())), Some("/t/a".to_string()));
    assert_eq!(select_executable(&msgs, &Some("c".to_string())), None);
    assert_eq!(select_executable(&vec![], &None), None);
}

#[test]
fn reads_what_cargo_writes() {
    let m = read_message(
        br#"{"reason":"compiler-artifact","executable":"/t/a","target":{"name":"a"}}"#,
    )
    .unwrap();
    assert_eq!(m.reason.as_deref(), Some("compiler-artifact"));
    assert_eq!(m.executable.as_deref(), Some("/t/a"));
    assert_eq!(m.target_name.as_deref(), Some("a"));
    // Other types than strings, and missing keys, read as nothing.
    let m = read_message(br#"{"reason":1,"executable":null,"target":["name"]}"#).unwrap();
    assert!(m.reason.is_none() && m.executable.is_none() && m.target_name.is_none());
    let m = read_message(b"[]").unwrap();
    assert!(m.reason.is_none() && m.executable.is_none() && m.target_name.is_none());
    assert!(read_message(b"not json").is_none());
    assert!(read_message(b"{} {}").is_none());
}

#[test]
fn build_output() {
    let out = br#"
Compiling something
{"reason":"compiler-artifact","executable":"/t/a","target":{"name":"a"}}

{"reason":"compiler-artifact","executable":"/t/b","target":{"name":"b"}}
{"reason":"compiler-artifact","executable":null,"target":{"name":"lib"}}
{"reason":"build-finished","success":true}"#;
    assert_eq!(read_messages(out).len(), 4);
    assert_eq!(built_executable(true, out, &None), Ok("/t/b".to_string()));
    assert_eq!(built_executable(true, out, &Some("a".to_string())), Ok("/t/a".to_string()));
    assert_eq!(
        built_executable(true, out, &Some("x".to_string())),
        Err(BuildError::NoExecutable)
    );
    assert_eq!(built_executable(true, b"", &None), Err(BuildError::NoExecutable));
    assert_eq!(built_executable(false, out, &None), Err(BuildError::Failed));
    assert_eq!(BuildError::Failed.to_string(), "cargo build failed");
    assert_eq!(
        BuildError::NoExecutable.to_string(),
        "cargo build produced no executable (is this a binary crate for the Pi target?)"
    );
}
