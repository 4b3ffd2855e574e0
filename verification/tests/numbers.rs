use naths_fat_fs::utility::{le_bytes_to_u32, le_bytes_to_u64, le_bytes_to_u64_padded, to_le_bytes};

#[test]
fn le_bytes_to_u32_reads_the_first_four_bytes() {
    assert_eq!(le_bytes_to_u32(&[0x78, 0x56, 0x34, 0x12]), 0x1234_5678);
    assert_eq!(le_bytes_to_u32(&[0x10, 0, 0, 0, 0xFF, 0xFF]), 16);
    assert_eq!(le_bytes_to_u32(&[0xFF, 0xFF, 0xFF, 0xFF]), u32::MAX);
}

#[test]
fn le_bytes_to_u64_reads_the_first_eight_bytes() {
    assert_eq!(
        le_bytes_to_u64(&[0xEF, 0xCD, 0xAB, 0x89, 0x67, 0x45, 0x23, 0x01, 0x99]),
        0x0123_4567_89AB_CDEF
    );
    assert_eq!(le_bytes_to_u64(&[0xFF; 8]), u64::MAX);
}

#[test]
fn le_bytes_to_u64_padded_reads_short_numbers() {
    assert_eq!(le_bytes_to_u64_padded(&[]), 0);
    assert_eq!(le_bytes_to_u64_padded(&[7]), 7);
    assert_eq!(le_bytes_to_u64_padded(&[0x34, 0x12]), 0x1234);
    assert_eq!(
        le_bytes_to_u64_padded(&[0x06, 0x05, 0x04, 0x03, 0x02, 0x01]),
        0x0102_0304_0506
    );
    assert_eq!(le_bytes_to_u64_padded(&[0xFF; 8]), u64::MAX);
}

#[test]
fn to_le_bytes_spells_the_low_bytes() {
    assert_eq!(to_le_bytes::<4>(0x1234_5678), [0x78, 0x56, 0x34, 0x12]);
    assert_eq!(to_le_bytes::<2>(0x1234_5678), [0x78, 0x56]);
    assert_eq!(
        to_le_bytes::<6>(0xAABB_0102_0304_0506),
        [0x06, 0x05, 0x04, 0x03, 0x02, 0x01]
    );
    assert_eq!(to_le_bytes::<0>(5), [0u8; 0]);
}

#[test]
fn spelling_and_reading_keeps_a_number() {
    let values: [u64; 5] = [0, 1, 255, 256, 0xFFFF_FFFF_FFFF];
    for value in values {
        assert_eq!(le_bytes_to_u64_padded(&to_le_bytes::<6>(value)), value);
    }
    assert_eq!(
        le_bytes_to_u64_padded(&to_le_bytes::<6>(0x1_0000_0000_0001)),
        1
    );
}
