//! The 256-entry lookup table of the CRC, and the proof that every entry is the
//! eight-round reduction of its index.

use vstd::prelude::*;

use crate::crc;

verus! {

/// Precomputed lookup table, one `u32` per possible input byte.
pub const TABLE: [u32; 256] = [
    0x0000_0000, 0x7707_3096, 0xEE0E_612C, 0x9909_51BA, 0x076D_C419, 0x706A_F48F, 0xE963_A535, 0x9E64_95A3,
    0x0EDB_8832, 0x79DC_B8A4, 0xE0D5_E91E, 0x97D2_D988, 0x09B6_4C2B, 0x7EB1_7CBD, 0xE7B8_2D07, 0x90BF_1D91,
    0x1DB7_1064, 0x6AB0_20F2, 0xF3B9_7148, 0x84BE_41DE, 0x1ADA_D47D, 0x6DDD_E4EB, 0xF4D4_B551, 0x83D3_85C7,
    0x136C_9856, 0x646B_A8C0, 0xFD62_F97A, 0x8A65_C9EC, 0x1401_5C4F, 0x6306_6CD9, 0xFA0F_3D63, 0x8D08_0DF5,
    0x3B6E_20C8, 0x4C69_105E, 0xD560_41E4, 0xA267_7172, 0x3C03_E4D1, 0x4B04_D447, 0xD20D_85FD, 0xA50A_B56B,
    0x35B5_A8FA, 0x42B2_986C, 0xDBBB_C9D6, 0xACBC_F940, 0x32D8_6CE3, 0x45DF_5C75, 0xDCD6_0DCF, 0xABD1_3D59,
    0x26D9_30AC, 0x51DE_003A, 0xC8D7_5180, 0xBFD0_6116, 0x21B4_F4B5, 0x56B3_C423, 0xCFBA_9599, 0xB8BD_A50F,
    0x2802_B89E, 0x5F05_8808, 0xC60C_D9B2, 0xB10B_E924, 0x2F6F_7C87, 0x5868_4C11, 0xC161_1DAB, 0xB666_2D3D,
    0x76DC_4190, 0x01DB_7106, 0x98D2_20BC, 0xEFD5_102A, 0x71B1_8589, 0x06B6_B51F, 0x9FBF_E4A5, 0xE8B8_D433,
    0x7807_C9A2, 0x0F00_F934, 0x9609_A88E, 0xE10E_9818, 0x7F6A_0DBB, 0x086D_3D2D, 0x9164_6C97, 0xE663_5C01,
    0x6B6B_51F4, 0x1C6C_6162, 0x8565_30D8, 0xF262_004E, 0x6C06_95ED, 0x1B01_A57B, 0x8208_F4C1, 0xF50F_C457,
    0x65B0_D9C6, 0x12B7_E950, 0x8BBE_B8EA, 0xFCB9_887C, 0x62DD_1DDF, 0x15DA_2D49, 0x8CD3_7CF3, 0xFBD4_4C65,
    0x4DB2_6158, 0x3AB5_51CE, 0xA3BC_0074, 0xD4BB_30E2, 0x4ADF_A541, 0x3DD8_95D7, 0xA4D1_C46D, 0xD3D6_F4FB,
    0x4369_E96A, 0x346E_D9FC, 0xAD67_8846, 0xDA60_B8D0, 0x4404_2D73, 0x3303_1DE5, 0xAA0A_4C5F, 0xDD0D_7CC9,
    0x5005_713C, 0x2702_41AA, 0xBE0B_1010, 0xC90C_2086, 0x5768_B525, 0x206F_85B3, 0xB966_D409, 0xCE61_E49F,
    0x5EDE_F90E, 0x29D9_C998, 0xB0D0_9822, 0xC7D7_A8B4, 0x59B3_3D17, 0x2EB4_0D81, 0xB7BD_5C3B, 0xC0BA_6CAD,
    0xEDB8_8320, 0x9ABF_B3B6, 0x03B6_E20C, 0x74B1_D29A, 0xEAD5_4739, 0x9DD2_77AF, 0x04DB_2615, 0x73DC_1683,
    0xE363_0B12, 0x9464_3B84, 0x0D6D_6A3E, 0x7A6A_5AA8, 0xE40E_CF0B, 0x9309_FF9D, 0x0A00_AE27, 0x7D07_9EB1,
    0xF00F_9344, 0x8708_A3D2, 0x1E01_F268, 0x6906_C2FE, 0xF762_575D, 0x8065_67CB, 0x196C_3671, 0x6E6B_06E7,
    0xFED4_1B76, 0x89D3_2BE0, 0x10DA_7A5A, 0x67DD_4ACC, 0xF9B9_DF6F, 0x8EBE_EFF9, 0x17B7_BE43, 0x60B0_8ED5,
    0xD6D6_A3E8, 0xA1D1_937E, 0x38D8_C2C4, 0x4FDF_F252, 0xD1BB_67F1, 0xA6BC_5767, 0x3FB5_06DD, 0x48B2_364B,
    0xD80D_2BDA, 0xAF0A_1B4C, 0x3603_4AF6, 0x4104_7A60, 0xDF60_EFC3, 0xA867_DF55, 0x316E_8EEF, 0x4669_BE79,
    0xCB61_B38C, 0xBC66_831A, 0x256F_D2A0, 0x5268_E236, 0xCC0C_7795, 0xBB0B_4703, 0x2202_16B9, 0x5505_262F,
    0xC5BA_3BBE, 0xB2BD_0B28, 0x2BB4_5A92, 0x5CB3_6A04, 0xC2D7_FFA7, 0xB5D0_CF31, 0x2CD9_9E8B, 0x5BDE_AE1D,
    0x9B64_C2B0, 0xEC63_F226, 0x756A_A39C, 0x026D_930A, 0x9C09_06A9, 0xEB0E_363F, 0x7207_6785, 0x0500_5713,
    0x95BF_4A82, 0xE2B8_7A14, 0x7BB1_2BAE, 0x0CB6_1B38, 0x92D2_8E9B, 0xE5D5_BE0D, 0x7CDC_EFB7, 0x0BDB_DF21,
    0x86D3_D2D4, 0xF1D4_E242, 0x68DD_B3F8, 0x1FDA_836E, 0x81BE_16CD, 0xF6B9_265B, 0x6FB0_77E1, 0x18B7_4777,
    0x8808_5AE6, 0xFF0F_6A70, 0x6606_3BCA, 0x1101_0B5C, 0x8F65_9EFF, 0xF862_AE69, 0x616B_FFD3, 0x166C_CF45,
    0xA00A_E278, 0xD70D_D2EE, 0x4E04_8354, 0x3903_B3C2, 0xA767_2661, 0xD060_16F7, 0x4969_474D, 0x3E6E_77DB,
    0xAED1_6A4A, 0xD9D6_5ADC, 0x40DF_0B66, 0x37D8_3BF0, 0xA9BC_AE53, 0xDEBB_9EC5, 0x47B2_CF7F, 0x30B5_FFE9,
    0xBDBD_F21C, 0xCABA_C28A, 0x53B3_9330, 0x24B4_A3A6, 0xBAD0_3605, 0xCDD7_0693, 0x54DE_5729, 0x23D9_67BF,
    0xB366_7A2E, 0xC461_4AB8, 0x5D68_1B02, 0x2A6F_2B94, 0xB40B_BE37, 0xC30C_8EA1, 0x5A05_DF1B, 0x2D02_EF8D,
];

/// Builds the lookup table from the polynomial, entry by entry.
///
/// [`TABLE`] is this function's result written out, so that no start-up work is
/// needed; the contract says that the two agree.
pub fn build_table() -> (table: [u32; 256])
    ensures
        table@ == TABLE@,
        forall|i: int| 0 <= i < 256 ==> #[trigger] table@[i] == crc::eight_rounds(i as u32),
{
    let mut table: [u32; 256] = [0u32; 256];
    let mut i: usize = 0;
    while i < 256
        invariant
            i <= 256,
            forall|j: int| 0 <= j < i ==> #[trigger] table@[j] == crc::eight_rounds(j as u32),
        decreases 256 - i,
    {
        let mut crc: u32 = i as u32;
        let mut bit: u32 = 0;
        while bit < 8
            invariant
                bit <= 8,
                crc == rounds(i as u32, bit as nat),
            decreases 8 - bit,
        {
            assert(crc & 1 == 0 || crc & 1 == 1) by (bit_vector);
            if crc & 1 != 0 {
                crc = (crc >> 1) ^ 0xEDB8_8320;
            } else {
                crc = crc >> 1;
            }
            bit = bit + 1;
        }
        proof {
            lemma_eight_rounds(i as u32);
        }
        table[i] = crc;
        i = i + 1;
    }
    proof {
        assert forall|j: int| 0 <= j < 256 implies #[trigger] TABLE@[j] == table@[j] by {
            lemma_table_entry(j);
        }
        assert(table@ =~= TABLE@);
    }
    table
}

/// `x` after `n` rounds of the bitwise reduction.
spec fn rounds(x: u32, n: nat) -> u32
    decreases n,
{
    if n == 0 {
        x
    } else {
        crc::crc_round(rounds(x, (n - 1) as nat))
    }
}

proof fn lemma_eight_rounds(x: u32)
    ensures
        rounds(x, 8) == crc::eight_rounds(x),
{
    reveal(crc::eight_rounds);
    reveal_with_fuel(rounds, 9);
}

/// Every table entry is the eight-round reduction of its index.
pub proof fn lemma_table_entry(i: int)
    requires
        0 <= i < 256,
    ensures
        TABLE@[i] == crc::eight_rounds(i as u32),
{
    lemma_table_prefix();
    lemma_prefix_entry(256, i);
}

/// The first `n` entries of the table are right.
spec fn prefix_right(n: nat) -> bool
    decreases n,
{
    n == 0 || (prefix_right((n - 1) as nat) && TABLE@[n - 1] == crc::eight_rounds((n - 1) as u32))
}

proof fn lemma_prefix_entry(n: nat, i: int)
    requires
        prefix_right(n),
        0 <= i < n <= 256,
    ensures
        TABLE@[i] == crc::eight_rounds(i as u32),
    decreases n,
{
    if i < n - 1 {
        lemma_prefix_entry((n - 1) as nat, i);
    }
}

proof fn lemma_table_prefix()
    ensures
        prefix_right(256),
{
    lemma_values();
    assert(prefix_right(64)) by {
        reveal_with_fuel(prefix_right, 65);
    }
    assert(prefix_right(128)) by {
        reveal_with_fuel(prefix_right, 65);
    }
    assert(prefix_right(192)) by {
        reveal_with_fuel(prefix_right, 65);
    }
    assert(prefix_right(256)) by {
        reveal_with_fuel(prefix_right, 65);
    }
}

proof fn lemma_values()
    by (bit_vector)
    ensures
        crc::eight_rounds(0x00) == 0x0000_0000,
        crc::eight_rounds(0x01) == 0x7707_3096,
        crc::eight_rounds(0x02) == 0xEE0E_612C,
        crc::eight_rounds(0x03) == 0x9909_51BA,
        crc::eight_rounds(0x04) == 0x076D_C419,
        crc::eight_rounds(0x05) == 0x706A_F48F,
        crc::eight_rounds(0x06) == 0xE963_A535,
        crc::eight_rounds(0x07) == 0x9E64_95A3,
        crc::eight_rounds(0x08) == 0x0EDB_8832,
        crc::eight_rounds(0x09) == 0x79DC_B8A4,
        crc::eight_rounds(0x0A) == 0xE0D5_E91E,
        crc::eight_rounds(0x0B) == 0x97D2_D988,
        crc::eight_rounds(0x0C) == 0x09B6_4C2B,
        crc::eight_rounds(0x0D) == 0x7EB1_7CBD,
        crc::eight_rounds(0x0E) == 0xE7B8_2D07,
        crc::eight_rounds(0x0F) == 0x90BF_1D91,
        crc::eight_rounds(0x10) == 0x1DB7_1064,
        crc::eight_rounds(0x11) == 0x6AB0_20F2,
        crc::eight_rounds(0x12) == 0xF3B9_7148,
        crc::eight_rounds(0x13) == 0x84BE_41DE,
        crc::eight_rounds(0x14) == 0x1ADA_D47D,
        crc::eight_rounds(0x15) == 0x6DDD_E4EB,
        crc::eight_rounds(0x16) == 0xF4D4_B551,
        crc::eight_rounds(0x17) == 0x83D3_85C7,
        crc::eight_rounds(0x18) == 0x136C_9856,
        crc::eight_rounds(0x19) == 0x646B_A8C0,
        crc::eight_rounds(0x1A) == 0xFD62_F97A,
        crc::eight_rounds(0x1B) == 0x8A65_C9EC,
        crc::eight_rounds(0x1C) == 0x1401_5C4F,
        crc::eight_rounds(0x1D) == 0x6306_6CD9,
        crc::eight_rounds(0x1E) == 0xFA0F_3D63,
        crc::eight_rounds(0x1F) == 0x8D08_0DF5,
        crc::eight_rounds(0x20) == 0x3B6E_20C8,
        crc::eight_rounds(0x21) == 0x4C69_105E,
        crc::eight_rounds(0x22) == 0xD560_41E4,
        crc::eight_rounds(0x23) == 0xA267_7172,
        crc::eight_rounds(0x24) == 0x3C03_E4D1,
        crc::eight_rounds(0x25) == 0x4B04_D447,
        crc::eight_rounds(0x26) == 0xD20D_85FD,
        crc::eight_rounds(0x27) == 0xA50A_B56B,
        crc::eight_rounds(0x28) == 0x35B5_A8FA,
        crc::eight_rounds(0x29) == 0x42B2_986C,
        crc::eight_rounds(0x2A) == 0xDBBB_C9D6,
        crc::eight_rounds(0x2B) == 0xACBC_F940,
        crc::eight_rounds(0x2C) == 0x32D8_6CE3,
        crc::eight_rounds(0x2D) == 0x45DF_5C75,
        crc::eight_rounds(0x2E) == 0xDCD6_0DCF,
        crc::eight_rounds(0x2F) == 0xABD1_3D59,
        crc::eight_rounds(0x30) == 0x26D9_30AC,
        crc::eight_rounds(0x31) == 0x51DE_003A,
        crc::eight_rounds(0x32) == 0xC8D7_5180,
        crc::eight_rounds(0x33) == 0xBFD0_6116,
        crc::eight_rounds(0x34) == 0x21B4_F4B5,
        crc::eight_rounds(0x35) == 0x56B3_C423,
        crc::eight_rounds(0x36) == 0xCFBA_9599,
        crc::eight_rounds(0x37) == 0xB8BD_A50F,
        crc::eight_rounds(0x38) == 0x2802_B89E,
        crc::eight_rounds(0x39) == 0x5F05_8808,
        crc::eight_rounds(0x3A) == 0xC60C_D9B2,
        crc::eight_rounds(0x3B) == 0xB10B_E924,
        crc::eight_rounds(0x3C) == 0x2F6F_7C87,
        crc::eight_rounds(0x3D) == 0x5868_4C11,
        crc::eight_rounds(0x3E) == 0xC161_1DAB,
        crc::eight_rounds(0x3F) == 0xB666_2D3D,
        crc::eight_rounds(0x40) == 0x76DC_4190,
        crc::eight_rounds(0x41) == 0x01DB_7106,
        crc::eight_rounds(0x42) == 0x98D2_20BC,
        crc::eight_rounds(0x43) == 0xEFD5_102A,
        crc::eight_rounds(0x44) == 0x71B1_8589,
        crc::eight_rounds(0x45) == 0x06B6_B51F,
        crc::eight_rounds(0x46) == 0x9FBF_E4A5,
        crc::eight_rounds(0x47) == 0xE8B8_D433,
        crc::eight_rounds(0x48) == 0x7807_C9A2,
        crc::eight_rounds(0x49) == 0x0F00_F934,
        crc::eight_rounds(0x4A) == 0x9609_A88E,
        crc::eight_rounds(0x4B) == 0xE10E_9818,
        crc::eight_rounds(0x4C) == 0x7F6A_0DBB,
        crc::eight_rounds(0x4D) == 0x086D_3D2D,
        crc::eight_rounds(0x4E) == 0x9164_6C97,
        crc::eight_rounds(0x4F) == 0xE663_5C01,
        crc::eight_rounds(0x50) == 0x6B6B_51F4,
        crc::eight_rounds(0x51) == 0x1C6C_6162,
        crc::eight_rounds(0x52) == 0x8565_30D8,
        crc::eight_rounds(0x53) == 0xF262_004E,
        crc::eight_rounds(0x54) == 0x6C06_95ED,
        crc::eight_rounds(0x55) == 0x1B01_A57B,
        crc::eight_rounds(0x56) == 0x8208_F4C1,
        crc::eight_rounds(0x57) == 0xF50F_C457,
        crc::eight_rounds(0x58) == 0x65B0_D9C6,
        crc::eight_rounds(0x59) == 0x12B7_E950,
        crc::eight_rounds(0x5A) == 0x8BBE_B8EA,
        crc::eight_rounds(0x5B) == 0xFCB9_887C,
        crc::eight_rounds(0x5C) == 0x62DD_1DDF,
        crc::eight_rounds(0x5D) == 0x15DA_2D49,
        crc::eight_rounds(0x5E) == 0x8CD3_7CF3,
        crc::eight_rounds(0x5F) == 0xFBD4_4C65,
        crc::eight_rounds(0x60) == 0x4DB2_6158,
        crc::eight_rounds(0x61) == 0x3AB5_51CE,
        crc::eight_rounds(0x62) == 0xA3BC_0074,
        crc::eight_rounds(0x63) == 0xD4BB_30E2,
        crc::eight_rounds(0x64) == 0x4ADF_A541,
        crc::eight_rounds(0x65) == 0x3DD8_95D7,
        crc::eight_rounds(0x66) == 0xA4D1_C46D,
        crc::eight_rounds(0x67) == 0xD3D6_F4FB,
        crc::eight_rounds(0x68) == 0x4369_E96A,
        crc::eight_rounds(0x69) == 0x346E_D9FC,
        crc::eight_rounds(0x6A) == 0xAD67_8846,
        crc::eight_rounds(0x6B) == 0xDA60_B8D0,
        crc::eight_rounds(0x6C) == 0x4404_2D73,
        crc::eight_rounds(0x6D) == 0x3303_1DE5,
        crc::eight_rounds(0x6E) == 0xAA0A_4C5F,
        crc::eight_rounds(0x6F) == 0xDD0D_7CC9,
        crc::eight_rounds(0x70) == 0x5005_713C,
        crc::eight_rounds(0x71) == 0x2702_41AA,
        crc::eight_rounds(0x72) == 0xBE0B_1010,
        crc::eight_rounds(0x73) == 0xC90C_2086,
        crc::eight_rounds(0x74) == 0x5768_B525,
        crc::eight_rounds(0x75) == 0x206F_85B3,
        crc::eight_rounds(0x76) == 0xB966_D409,
        crc::eight_rounds(0x77) == 0xCE61_E49F,
        crc::eight_rounds(0x78) == 0x5EDE_F90E,
        crc::eight_rounds(0x79) == 0x29D9_C998,
        crc::eight_rounds(0x7A) == 0xB0D0_9822,
        crc::eight_rounds(0x7B) == 0xC7D7_A8B4,
        crc::eight_rounds(0x7C) == 0x59B3_3D17,
        crc::eight_rounds(0x7D) == 0x2EB4_0D81,
        crc::eight_rounds(0x7E) == 0xB7BD_5C3B,
        crc::eight_rounds(0x7F) == 0xC0BA_6CAD,
        crc::eight_rounds(0x80) == 0xEDB8_8320,
        crc::eight_rounds(0x81) == 0x9ABF_B3B6,
        crc::eight_rounds(0x82) == 0x03B6_E20C,
        crc::eight_rounds(0x83) == 0x74B1_D29A,
        crc::eight_rounds(0x84) == 0xEAD5_4739,
        crc::eight_rounds(0x85) == 0x9DD2_77AF,
        crc::eight_rounds(0x86) == 0x04DB_2615,
        crc::eight_rounds(0x87) == 0x73DC_1683,
        crc::eight_rounds(0x88) == 0xE363_0B12,
        crc::eight_rounds(0x89) == 0x9464_3B84,
        crc::eight_rounds(0x8A) == 0x0D6D_6A3E,
        crc::eight_rounds(0x8B) == 0x7A6A_5AA8,
        crc::eight_rounds(0x8C) == 0xE40E_CF0B,
        crc::eight_rounds(0x8D) == 0x9309_FF9D,
        crc::eight_rounds(0x8E) == 0x0A00_AE27,
        crc::eight_rounds(0x8F) == 0x7D07_9EB1,
        crc::eight_rounds(0x90) == 0xF00F_9344,
        crc::eight_rounds(0x91) == 0x8708_A3D2,
        crc::eight_rounds(0x92) == 0x1E01_F268,
        crc::eight_rounds(0x93) == 0x6906_C2FE,
        crc::eight_rounds(0x94) == 0xF762_575D,
        crc::eight_rounds(0x95) == 0x8065_67CB,
        crc::eight_rounds(0x96) == 0x196C_3671,
        crc::eight_rounds(0x97) == 0x6E6B_06E7,
        crc::eight_rounds(0x98) == 0xFED4_1B76,
        crc::eight_rounds(0x99) == 0x89D3_2BE0,
        crc::eight_rounds(0x9A) == 0x10DA_7A5A,
        crc::eight_rounds(0x9B) == 0x67DD_4ACC,
        crc::eight_rounds(0x9C) == 0xF9B9_DF6F,
        crc::eight_rounds(0x9D) == 0x8EBE_EFF9,
        crc::eight_rounds(0x9E) == 0x17B7_BE43,
        crc::eight_rounds(0x9F) == 0x60B0_8ED5,
        crc::eight_rounds(0xA0) == 0xD6D6_A3E8,
        crc::eight_rounds(0xA1) == 0xA1D1_937E,
        crc::eight_rounds(0xA2) == 0x38D8_C2C4,
        crc::eight_rounds(0xA3) == 0x4FDF_F252,
        crc::eight_rounds(0xA4) == 0xD1BB_67F1,
        crc::eight_rounds(0xA5) == 0xA6BC_5767,
        crc::eight_rounds(0xA6) == 0x3FB5_06DD,
        crc::eight_rounds(0xA7) == 0x48B2_364B,
        crc::eight_rounds(0xA8) == 0xD80D_2BDA,
        crc::eight_rounds(0xA9) == 0xAF0A_1B4C,
        crc::eight_rounds(0xAA) == 0x3603_4AF6,
        crc::eight_rounds(0xAB) == 0x4104_7A60,
        crc::eight_rounds(0xAC) == 0xDF60_EFC3,
        crc::eight_rounds(0xAD) == 0xA867_DF55,
        crc::eight_rounds(0xAE) == 0x316E_8EEF,
        crc::eight_rounds(0xAF) == 0x4669_BE79,
        crc::eight_rounds(0xB0) == 0xCB61_B38C,
        crc::eight_rounds(0xB1) == 0xBC66_831A,
        crc::eight_rounds(0xB2) == 0x256F_D2A0,
        crc::eight_rounds(0xB3) == 0x5268_E236,
        crc::eight_rounds(0xB4) == 0xCC0C_7795,
        crc::eight_rounds(0xB5) == 0xBB0B_4703,
        crc::eight_rounds(0xB6) == 0x2202_16B9,
        crc::eight_rounds(0xB7) == 0x5505_262F,
        crc::eight_rounds(0xB8) == 0xC5BA_3BBE,
        crc::eight_rounds(0xB9) == 0xB2BD_0B28,
        crc::eight_rounds(0xBA) == 0x2BB4_5A92,
        crc::eight_rounds(0xBB) == 0x5CB3_6A04,
        crc::eight_rounds(0xBC) == 0xC2D7_FFA7,
        crc::eight_rounds(0xBD) == 0xB5D0_CF31,
        crc::eight_rounds(0xBE) == 0x2CD9_9E8B,
        crc::eight_rounds(0xBF) == 0x5BDE_AE1D,
        crc::eight_rounds(0xC0) == 0x9B64_C2B0,
        crc::eight_rounds(0xC1) == 0xEC63_F226,
        crc::eight_rounds(0xC2) == 0x756A_A39C,
        crc::eight_rounds(0xC3) == 0x026D_930A,
        crc::eight_rounds(0xC4) == 0x9C09_06A9,
        crc::eight_rounds(0xC5) == 0xEB0E_363F,
        crc::eight_rounds(0xC6) == 0x7207_6785,
        crc::eight_rounds(0xC7) == 0x0500_5713,
        crc::eight_rounds(0xC8) == 0x95BF_4A82,
        crc::eight_rounds(0xC9) == 0xE2B8_7A14,
        crc::eight_rounds(0xCA) == 0x7BB1_2BAE,
        crc::eight_rounds(0xCB) == 0x0CB6_1B38,
        crc::eight_rounds(0xCC) == 0x92D2_8E9B,
        crc::eight_rounds(0xCD) == 0xE5D5_BE0D,
        crc::eight_rounds(0xCE) == 0x7CDC_EFB7,
        crc::eight_rounds(0xCF) == 0x0BDB_DF21,
        crc::eight_rounds(0xD0) == 0x86D3_D2D4,
        crc::eight_rounds(0xD1) == 0xF1D4_E242,
        crc::eight_rounds(0xD2) == 0x68DD_B3F8,
        crc::eight_rounds(0xD3) == 0x1FDA_836E,
        crc::eight_rounds(0xD4) == 0x81BE_16CD,
        crc::eight_rounds(0xD5) == 0xF6B9_265B,
        crc::eight_rounds(0xD6) == 0x6FB0_77E1,
        crc::eight_rounds(0xD7) == 0x18B7_4777,
        crc::eight_rounds(0xD8) == 0x8808_5AE6,
        crc::eight_rounds(0xD9) == 0xFF0F_6A70,
        crc::eight_rounds(0xDA) == 0x6606_3BCA,
        crc::eight_rounds(0xDB) == 0x1101_0B5C,
        crc::eight_rounds(0xDC) == 0x8F65_9EFF,
        crc::eight_rounds(0xDD) == 0xF862_AE69,
        crc::eight_rounds(0xDE) == 0x616B_FFD3,
        crc::eight_rounds(0xDF) == 0x166C_CF45,
        crc::eight_rounds(0xE0) == 0xA00A_E278,
        crc::eight_rounds(0xE1) == 0xD70D_D2EE,
        crc::eight_rounds(0xE2) == 0x4E04_8354,
        crc::eight_rounds(0xE3) == 0x3903_B3C2,
        crc::eight_rounds(0xE4) == 0xA767_2661,
        crc::eight_rounds(0xE5) == 0xD060_16F7,
        crc::eight_rounds(0xE6) == 0x4969_474D,
        crc::eight_rounds(0xE7) == 0x3E6E_77DB,
        crc::eight_rounds(0xE8) == 0xAED1_6A4A,
        crc::eight_rounds(0xE9) == 0xD9D6_5ADC,
        crc::eight_rounds(0xEA) == 0x40DF_0B66,
        crc::eight_rounds(0xEB) == 0x37D8_3BF0,
        crc::eight_rounds(0xEC) == 0xA9BC_AE53,
        crc::eight_rounds(0xED) == 0xDEBB_9EC5,
        crc::eight_rounds(0xEE) == 0x47B2_CF7F,
        crc::eight_rounds(0xEF) == 0x30B5_FFE9,
        crc::eight_rounds(0xF0) == 0xBDBD_F21C,
        crc::eight_rounds(0xF1) == 0xCABA_C28A,
        crc::eight_rounds(0xF2) == 0x53B3_9330,
        crc::eight_rounds(0xF3) == 0x24B4_A3A6,
        crc::eight_rounds(0xF4) == 0xBAD0_3605,
        crc::eight_rounds(0xF5) == 0xCDD7_0693,
        crc::eight_rounds(0xF6) == 0x54DE_5729,
        crc::eight_rounds(0xF7) == 0x23D9_67BF,
        crc::eight_rounds(0xF8) == 0xB366_7A2E,
        crc::eight_rounds(0xF9) == 0xC461_4AB8,
        crc::eight_rounds(0xFA) == 0x5D68_1B02,
        crc::eight_rounds(0xFB) == 0x2A6F_2B94,
        crc::eight_rounds(0xFC) == 0xB40B_BE37,
        crc::eight_rounds(0xFD) == 0xC30C_8EA1,
        crc::eight_rounds(0xFE) == 0x5A05_DF1B,
        crc::eight_rounds(0xFF) == 0x2D02_EF8D,
{
}

} // verus!
