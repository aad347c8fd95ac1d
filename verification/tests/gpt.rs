//! Parsing a GUID partition table.

use rawio::parts::crc32::crc32;
use rawio::parts::gpt::{
    guid_at, parse, signature_present, MIN_HEADER_LEN, PRIMARY_LBA, SIGNATURE,
};
use rawio::parts::{mbr, ImageSectors, Scheme};

const SECTOR: usize = 512;
const ENTRY_LEN: usize = 128;
const ENTRY_COUNT: u32 = 8;
const ENTRY_LBA: u64 = 2;

/// `(type GUID first byte, name, first LBA, last LBA)`.
fn image_with_gpt(entries: &[(u8, &str, u64, u64)], sectors: usize) -> ImageSectors {
    let mut data = vec![0u8; sectors * SECTOR];
    // A protective MBR, so detection sees what a real GPT disk looks like.
    write_table(&mut data, 0, &[(0xEE, 1, (sectors - 1) as u32)]);
    let array = build_entries(entries);
    data[ENTRY_LBA as usize * SECTOR..][..array.len()].copy_from_slice(&array);
    let backup_lba = (sectors - 1) as u64;
    let header = build_header(PRIMARY_LBA, backup_lba, ENTRY_LBA, &array);
    data[SECTOR..][..header.len()].copy_from_slice(&header);
    ImageSectors::new(data, SECTOR as u32)
}

fn build_entries(entries: &[(u8, &str, u64, u64)]) -> Vec<u8> {
    let mut array = vec![0u8; ENTRY_COUNT as usize * ENTRY_LEN];
    for (i, (kind, name, first, last)) in entries.iter().enumerate() {
        let entry = &mut array[i * ENTRY_LEN..][..ENTRY_LEN];
        entry[0] = *kind;
        entry[3] = 0xAB;
        entry[16] = 0x11;
        entry[32..40].copy_from_slice(&first.to_le_bytes());
        entry[40..48].copy_from_slice(&last.to_le_bytes());
        for (j, unit) in name.encode_utf16().enumerate() {
            entry[56 + j * 2..58 + j * 2].copy_from_slice(&unit.to_le_bytes());
        }
    }
    array
}

fn build_header(at: u64, alternate: u64, entry_lba: u64, array: &[u8]) -> Vec<u8> {
    let mut header = vec![0u8; SECTOR];
    header[0..8].copy_from_slice(&SIGNATURE);
    header[8..12].copy_from_slice(&0x0001_0000u32.to_le_bytes());
    header[12..16].copy_from_slice(&MIN_HEADER_LEN.to_le_bytes());
    header[24..32].copy_from_slice(&at.to_le_bytes());
    header[32..40].copy_from_slice(&alternate.to_le_bytes());
    header[72..80].copy_from_slice(&entry_lba.to_le_bytes());
    header[80..84].copy_from_slice(&ENTRY_COUNT.to_le_bytes());
    header[84..88].copy_from_slice(&(ENTRY_LEN as u32).to_le_bytes());
    header[88..92].copy_from_slice(&crc32(array).to_le_bytes());
    let crc = crc32(&header[..MIN_HEADER_LEN as usize]);
    header[16..20].copy_from_slice(&crc.to_le_bytes());
    header.truncate(SECTOR);
    header
}

#[test]
fn resolves_entries_to_byte_ranges_and_names() {
    let mut image = image_with_gpt(
        &[(0x28, "boot", 2048, 4095), (0x0f, "rootfs", 4096, 8191)],
        16384,
    );

    let table = parse(&mut image).unwrap();

    assert_eq!(table.scheme, Scheme::Gpt);
    assert!(table.source.contains("primary"), "{}", table.source);
    assert_eq!(table.partitions.len(), 2);
    assert_eq!(table.partitions[0].name.as_deref(), Some("boot"));
    assert_eq!(table.partitions[0].start, 2048 * 512);
    // Last LBA is inclusive, so the length covers it.
    assert_eq!(table.partitions[0].length, 2048 * 512);
    assert_eq!(table.partitions[1].index, 2);
    assert_eq!(table.partitions[1].name.as_deref(), Some("rootfs"));
}

#[test]
fn the_type_guid_is_printed_in_the_spelling_the_spec_uses() {
    let mut data = vec![0u8; 128];
    data[0..16].copy_from_slice(&[
        0x28, 0x73, 0x2a, 0xc1, 0x1f, 0xf8, 0xd2, 0x11, 0xba, 0x4b, 0x00, 0xa0, 0xc9, 0x3e,
        0xc9, 0x3b,
    ]);

    assert_eq!(guid_at(&data, 0), "c12a7328-f81f-11d2-ba4b-00a0c93ec93b");
}

#[test]
fn a_corrupt_header_crc_is_refused() {
    let mut image = image_with_gpt(&[(0x28, "boot", 2048, 4095)], 16384);
    image.data_mut()[SECTOR + 40] ^= 0xFF;

    let err = parse(&mut image).unwrap_err();

    assert!(err.to_string().contains("CRC32"), "{err:?}");
}

#[test]
fn a_corrupt_entry_array_is_refused() {
    let mut image = image_with_gpt(&[(0x28, "boot", 2048, 4095)], 16384);
    image.data_mut()[ENTRY_LBA as usize * SECTOR + 33] ^= 0xFF;

    let err = parse(&mut image).unwrap_err();

    assert!(err.to_string().contains("CRC32"), "{err:?}");
}

/// A card whose primary table was overwritten still has its layout at the
/// far end, and using it must be visible in the output.
#[test]
fn a_broken_primary_falls_back_to_the_backup() {
    let sectors = 16384usize;
    let mut image = image_with_gpt(&[(0x28, "boot", 2048, 4095)], sectors);
    let backup_lba = (sectors - 1) as u64;
    let backup_entry_lba = backup_lba - 8;
    let array = build_entries(&[(0x28, "boot", 2048, 4095)]);
    let header = build_header(backup_lba, PRIMARY_LBA, backup_entry_lba, &array);
    let data = image.data_mut();
    data[backup_entry_lba as usize * SECTOR..][..array.len()].copy_from_slice(&array);
    data[backup_lba as usize * SECTOR..][..header.len()].copy_from_slice(&header);
    data[SECTOR..SECTOR + 8].fill(0);

    let table = parse(&mut image).unwrap();

    assert!(table.source.contains("backup"), "{}", table.source);
    assert!(
        table.source.contains("primary unusable"),
        "{}",
        table.source
    );
    assert_eq!(table.partitions.len(), 1);
}

#[test]
fn an_implausible_entry_array_is_refused_before_it_sizes_a_read() {
    let mut image = image_with_gpt(&[(0x28, "boot", 2048, 4095)], 16384);
    let data = image.data_mut();
    data[SECTOR + 80..SECTOR + 84].copy_from_slice(&u32::MAX.to_le_bytes());
    let crc = crc32(&{
        let mut checked = data[SECTOR..SECTOR + MIN_HEADER_LEN as usize].to_vec();
        checked[16..20].fill(0);
        checked
    });
    data[SECTOR + 16..SECTOR + 20].copy_from_slice(&crc.to_le_bytes());

    let err = parse(&mut image).unwrap_err();

    assert!(err.to_string().contains("readable entry array"), "{err:?}");
}

#[test]
fn a_header_that_disowns_its_own_lba_is_refused() {
    let sectors = 16384usize;
    let mut image = image_with_gpt(&[(0x28, "boot", 2048, 4095)], sectors);
    let array = build_entries(&[(0x28, "boot", 2048, 4095)]);
    // A header claiming LBA 9, written at LBA 1: a copy left where it does
    // not belong, which is exactly what a stale image looks like.
    let header = build_header(9, (sectors - 1) as u64, ENTRY_LBA, &array);
    image.data_mut()[SECTOR..][..header.len()].copy_from_slice(&header);

    let err = parse(&mut image).unwrap_err();

    assert!(err.to_string().contains("says it lives at"), "{err:?}");
}

#[test]
fn the_signature_probe_does_not_care_whether_the_table_parses() {
    let mut image = image_with_gpt(&[(0x28, "boot", 2048, 4095)], 16384);
    image.data_mut()[SECTOR + 16..SECTOR + 20].fill(0);

    assert!(signature_present(&mut image).unwrap());
    assert!(parse(&mut image).is_err());
}

fn write_table(data: &mut [u8], at: usize, entries: &[(u8, u32, u32)]) {
    data[at + mbr::SIGNATURE_AT..at + mbr::SIGNATURE_AT + 2].copy_from_slice(&mbr::SIGNATURE);
    for (i, (kind, start, sectors)) in entries.iter().enumerate() {
        let entry = &mut data[at + mbr::ENTRY_TABLE_AT + i * mbr::ENTRY_LEN..][..mbr::ENTRY_LEN];
        entry[4] = *kind;
        entry[8..12].copy_from_slice(&start.to_le_bytes());
        entry[12..16].copy_from_slice(&sectors.to_le_bytes());
    }
}

/// The name is UTF-16: a pair of surrogates is one character, a lone one is the
/// replacement character, and what follows the first NUL is not read.
#[test]
fn a_name_is_decoded_from_utf16() {
    let mut image = image_with_gpt(&[(0x28, " b\u{1F600}t ", 2048, 4095)], 16384);
    assert_eq!(parse(&mut image).unwrap().partitions[0].name.as_deref(), Some("b\u{1F600}t"));

    let mut image = rewritten(&[(0x28, "x", 2048, 4095)], |array| {
        array[56..58].copy_from_slice(&0xD800u16.to_le_bytes());
        array[58..60].copy_from_slice(&0x0041u16.to_le_bytes());
        array[60..62].copy_from_slice(&0xDC00u16.to_le_bytes());
        array[64..66].copy_from_slice(&0x0042u16.to_le_bytes());
    });
    assert_eq!(parse(&mut image).unwrap().partitions[0].name.as_deref(), Some("\u{FFFD}A\u{FFFD}"));
}

#[test]
fn an_entry_without_a_name_has_none() {
    let mut image = image_with_gpt(&[(0x28, "", 2048, 4095)], 16384);
    assert_eq!(parse(&mut image).unwrap().partitions[0].name, None);
}

/// An unused slot keeps its number.
#[test]
fn slots_keep_their_numbers() {
    let entries = [(0x28, "a", 2048, 2049), (0x28, "b", 2050, 2051), (0x28, "c", 2052, 2053)];
    let mut image = rewritten(&entries, |array| array[128..144].fill(0));

    let table = parse(&mut image).unwrap();

    let numbers: Vec<u32> = table.partitions.iter().map(|p| p.index).collect();
    assert_eq!(numbers, vec![1, 3]);
}

#[test]
fn an_entry_that_ends_before_it_starts_is_refused() {
    let mut image = image_with_gpt(&[(0x28, "boot", 4096, 4095)], 16384);
    let err = parse(&mut image).unwrap_err();
    assert!(err.to_string().contains("before it starts at 4096"), "{err:?}");

    let mut image = image_with_gpt(&[(0x28, "boot", u64::MAX, u64::MAX)], 16384);
    let err = parse(&mut image).unwrap_err();
    assert!(err.to_string().contains("starts past 2^64 bytes"), "{err:?}");

    let mut image = image_with_gpt(&[(0x28, "boot", 0, u64::MAX)], 16384);
    let err = parse(&mut image).unwrap_err();
    assert!(err.to_string().contains("longer than 2^64 bytes"), "{err:?}");
}

/// Whichever byte of the entries it is, one is enough.
#[test]
fn one_changed_byte_of_the_entries_is_refused() {
    for at in [0, 127, 128, 1023] {
        let mut image = image_with_gpt(&[(0x28, "boot", 2048, 4095)], 16384);
        image.data_mut()[ENTRY_LBA as usize * SECTOR + at] ^= 0x10;
        assert!(parse(&mut image).is_err(), "{at}");
    }
}

/// An image whose entry array was changed before its checksums were taken.
fn rewritten(entries: &[(u8, &str, u64, u64)], change: fn(&mut [u8])) -> ImageSectors {
    let sectors = 16384usize;
    let mut array = build_entries(entries);
    change(&mut array);
    let header = build_header(PRIMARY_LBA, (sectors - 1) as u64, ENTRY_LBA, &array);
    let mut image = image_with_gpt(entries, sectors);
    let data = image.data_mut();
    data[ENTRY_LBA as usize * SECTOR..][..array.len()].copy_from_slice(&array);
    data[SECTOR..][..header.len()].copy_from_slice(&header);
    image
}
