//! CRC-32.

use chainloader::{crc32, Crc32};

#[test]
fn known_vectors() {
    // Canonical CRC-32 check values.
    assert_eq!(crc32(b""), 0x0000_0000);
    assert_eq!(crc32(b"123456789"), 0xCBF4_3926);
    assert_eq!(
        crc32(b"The quick brown fox jumps over the lazy dog"),
        0x414F_A339
    );
}

#[test]
fn streaming_matches_oneshot() {
    let data = b"the whole payload, split however you like";
    let oneshot = crc32(data);
    let mut acc = Crc32::new();
    acc.update(&data[..7]);
    acc.update(&data[7..7]); // empty chunk is a no-op
    acc.update(&data[7..20]);
    acc.update(&data[20..]);
    assert_eq!(acc.finalize(), oneshot);
}
