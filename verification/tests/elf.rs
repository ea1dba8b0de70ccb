//! Flattening ELF files.

use chainloader::elf::{flatten_elf, is_elf, rd_u16, rd_u32, rd_u64, ElfError, PT_LOAD};

/// One `PT_LOAD` segment: `(paddr, bytes)`.
struct Seg(u64, &'static [u8]);

/// Builds a minimal ELF64 (LE) with `e_entry` and the given `PT_LOAD`
/// segments laid out contiguously in the file after the program headers.
fn build_elf(entry: u64, segs: &[Seg]) -> Vec<u8> {
    const EH: usize = 64;
    const PH: usize = 56;
    let ph_off = EH;
    let mut data_off = EH + PH * segs.len();

    let mut out = vec![0u8; data_off + segs.iter().map(|s| s.1.len()).sum::<usize>()];
    out[..4].copy_from_slice(b"\x7FELF");
    out[4] = 2; // 64-bit
    out[5] = 1; // little-endian
    out[6] = 1; // version
    out[16..18].copy_from_slice(&2u16.to_le_bytes()); // e_type = ET_EXEC
    out[18..20].copy_from_slice(&0xB7u16.to_le_bytes()); // e_machine = AArch64
    out[24..32].copy_from_slice(&entry.to_le_bytes());
    out[32..40].copy_from_slice(&(ph_off as u64).to_le_bytes());
    out[54..56].copy_from_slice(&(PH as u16).to_le_bytes());
    out[56..58].copy_from_slice(&(segs.len() as u16).to_le_bytes());

    for (i, seg) in segs.iter().enumerate() {
        let ph = ph_off + i * PH;
        out[ph..ph + 4].copy_from_slice(&PT_LOAD.to_le_bytes());
        out[ph + 8..ph + 16].copy_from_slice(&(data_off as u64).to_le_bytes()); // p_offset
        out[ph + 24..ph + 32].copy_from_slice(&seg.0.to_le_bytes()); // p_paddr
        out[ph + 32..ph + 40].copy_from_slice(&(seg.1.len() as u64).to_le_bytes()); // p_filesz
        out[ph + 40..ph + 48].copy_from_slice(&(seg.1.len() as u64).to_le_bytes()); // p_memsz
        out[data_off..data_off + seg.1.len()].copy_from_slice(seg.1);
        data_off += seg.1.len();
    }
    out
}

#[test]
fn is_elf_recognizes_magic() {
    assert!(is_elf(b"\x7FELF and more"));
    assert!(!is_elf(b"\x7FELg"));
    assert!(!is_elf(b"raw"));
}

#[test]
fn flattens_single_segment_with_entry_offset() {
    let elf = build_elf(0x0020_0002, &[Seg(0x0020_0000, &[0xDE, 0xAD, 0xBE, 0xEF])]);
    let (base, entry_off, bytes) = flatten_elf(&elf).unwrap();
    assert_eq!(base, 0x0020_0000);
    assert_eq!(entry_off, 2);
    assert_eq!(bytes, vec![0xDE, 0xAD, 0xBE, 0xEF]);
}

#[test]
fn flattens_two_segments_zero_filling_the_gap() {
    // Segments at 0x200000 (4 bytes) and 0x200008 (2 bytes): the 4-byte gap
    // between them must be zero-filled, matching `objcopy -O binary`.
    let elf = build_elf(
        0x0020_0000,
        &[Seg(0x0020_0000, &[1, 2, 3, 4]), Seg(0x0020_0008, &[5, 6])],
    );
    let (base, entry_off, bytes) = flatten_elf(&elf).unwrap();
    assert_eq!(base, 0x0020_0000);
    assert_eq!(entry_off, 0);
    assert_eq!(bytes, vec![1, 2, 3, 4, 0, 0, 0, 0, 5, 6]);
}

#[test]
fn rejects_non_64bit_le() {
    let mut elf = build_elf(0x1000, &[Seg(0x1000, &[0])]);
    elf[4] = 1; // 32-bit
    assert!(flatten_elf(&elf).is_err());
}

#[test]
fn rejects_elf_with_no_loadable_data() {
    let elf = build_elf(0x1000, &[]);
    assert!(flatten_elf(&elf).is_err());
}

#[test]
fn elf_faults() {
    let good = build_elf(0x1004, &[Seg(0x1000, &[1, 2, 3, 4, 5])]);
    assert!(flatten_elf(&good).is_ok());
    assert_eq!(flatten_elf(&good[..5]), Err(ElfError::Unsupported));
    let mut big_endian = good.clone();
    big_endian[5] = 2;
    assert_eq!(flatten_elf(&big_endian), Err(ElfError::Unsupported));
    assert_eq!(flatten_elf(&good[..31]), Err(ElfError::Truncated));
    assert_eq!(flatten_elf(&good[..100]), Err(ElfError::Truncated));
    assert_eq!(flatten_elf(&good[..good.len() - 1]), Err(ElfError::SegmentPastEnd));
    assert_eq!(flatten_elf(&build_elf(0x1000, &[])), Err(ElfError::NoData));
    // A segment without bytes counts for nothing.
    assert_eq!(flatten_elf(&build_elf(0x1000, &[Seg(0x1000, &[])])), Err(ElfError::NoData));
    // Neither does one of another type.
    let mut note = good.clone();
    note[64] = 4;
    assert_eq!(flatten_elf(&note), Err(ElfError::NoData));
    let below = build_elf(0xFFF, &[Seg(0x1000, &[1])]);
    assert_eq!(flatten_elf(&below), Err(ElfError::Overflow));
    let far = build_elf(0x1_0000_1000, &[Seg(0x1000, &[1])]);
    assert_eq!(flatten_elf(&far), Err(ElfError::EntryOutOfRange));
    let top = build_elf(0, &[Seg(u64::MAX, &[1])]);
    assert_eq!(flatten_elf(&top), Err(ElfError::Overflow));
    let wide = build_elf(0, &[Seg(0, &[1]), Seg(u64::MAX - 8, &[1])]);
    assert_eq!(flatten_elf(&wide), Err(ElfError::Overflow));
    let mut table = good.clone();
    table[32..40].copy_from_slice(&u64::MAX.to_le_bytes());
    assert_eq!(flatten_elf(&table), Err(ElfError::Overflow));
    let mut offset = good.clone();
    offset[64 + 8..64 + 16].copy_from_slice(&u64::MAX.to_le_bytes());
    assert_eq!(flatten_elf(&offset), Err(ElfError::Overflow));
    assert_eq!(
        ElfError::Unsupported.to_string(),
        "only 64-bit little-endian ELF images are supported"
    );
    assert_eq!(ElfError::SegmentPastEnd.to_string(), "ELF segment extends past end of file");
}

#[test]
fn later_segments_win_where_they_overlap() {
    let elf = build_elf(
        0x1001,
        &[Seg(0x1002, &[1, 2, 3]), Seg(0x1000, &[9, 9, 9, 9]), Seg(0x1008, &[7])],
    );
    let (base, entry_off, bytes) = flatten_elf(&elf).unwrap();
    assert_eq!((base, entry_off), (0x1000, 1));
    assert_eq!(bytes, vec![9, 9, 9, 9, 3, 0, 0, 0, 7]);
}

#[test]
fn elf_fields() {
    let d = [1u8, 2, 3, 4, 5, 6, 7, 8];
    assert_eq!(rd_u16(&d, 6), Ok(0x0807));
    assert_eq!(rd_u32(&d, 1), Ok(0x0504_0302));
    assert_eq!(rd_u64(&d, 0), Ok(0x0807_0605_0403_0201));
    assert_eq!(rd_u16(&d, 7), Err(ElfError::Truncated));
    assert_eq!(rd_u32(&d, 5), Err(ElfError::Truncated));
    assert_eq!(rd_u64(&d, usize::MAX), Err(ElfError::Overflow));
}
