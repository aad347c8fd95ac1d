//! The checksum a GPT is guarded by.

use rawio::parts::crc32::crc32;

/// The check value the standard names for this polynomial.
#[test]
fn matches_the_published_check_value() {
    assert_eq!(crc32(b"123456789"), 0xCBF4_3926);
}

#[test]
fn an_empty_input_checksums_to_zero() {
    assert_eq!(crc32(&[]), 0);
}

#[test]
fn a_single_flipped_bit_changes_the_checksum() {
    let mut bytes = vec![0u8; 512];
    let clean = crc32(&bytes);
    bytes[300] ^= 0x01;
    assert_ne!(crc32(&bytes), clean);
}

/// Whichever byte it is, and whatever it changes to.
#[test]
fn any_one_changed_byte_changes_the_checksum() {
    let bytes: Vec<u8> = (0..64).collect();
    let clean = crc32(&bytes);
    for at in [0, 1, 31, 63] {
        for flip in [0x01u8, 0x80, 0xff] {
            let mut changed = bytes.clone();
            changed[at] ^= flip;
            assert_ne!(crc32(&changed), clean, "{at} {flip}");
        }
    }
}
