//! Parsing a master boot record.

use rawio::parts::mbr::{
    has_signature, is_protective, parse, ENTRY_LEN, ENTRY_TABLE_AT, SIGNATURE, SIGNATURE_AT,
    TYPE_PROTECTIVE,
};
use rawio::parts::{ImageSectors, Scheme, Sectors};

/// `(type, first LBA, sectors)` in the four primary slots, in order.
fn image_with_entries(entries: &[(u8, u32, u32)], size: usize) -> ImageSectors {
    let mut data = vec![0u8; size];
    write_table(&mut data, 0, entries);
    ImageSectors::new(data, 512)
}

fn write_table(data: &mut [u8], at: usize, entries: &[(u8, u32, u32)]) {
    data[at + SIGNATURE_AT..at + SIGNATURE_AT + 2].copy_from_slice(&SIGNATURE);
    for (i, (kind, start, sectors)) in entries.iter().enumerate() {
        let entry = &mut data[at + ENTRY_TABLE_AT + i * ENTRY_LEN..][..ENTRY_LEN];
        entry[4] = *kind;
        entry[8..12].copy_from_slice(&start.to_le_bytes());
        entry[12..16].copy_from_slice(&sectors.to_le_bytes());
    }
}

#[test]
fn resolves_primary_entries_to_byte_ranges() {
    let mut image =
        image_with_entries(&[(0x0c, 2048, 131072), (0x83, 133120, 262144)], 1 << 28);

    let table = parse(&mut image).unwrap();

    assert_eq!(table.scheme, Scheme::Mbr);
    assert_eq!(table.partitions.len(), 2);
    assert_eq!(table.partitions[0].index, 1);
    assert_eq!(table.partitions[0].kind, "0x0c");
    assert_eq!(table.partitions[0].start, 2048 * 512);
    assert_eq!(table.partitions[0].length, 131072 * 512);
    assert_eq!(table.partitions[1].index, 2);
    assert_eq!(table.partitions[1].start, 133120 * 512);
}

#[test]
fn empty_slots_do_not_shift_the_indices_of_the_ones_that_follow() {
    let mut image = image_with_entries(&[(0, 0, 0), (0x83, 2048, 2048)], 1 << 24);

    let table = parse(&mut image).unwrap();

    assert_eq!(table.partitions.len(), 1);
    assert_eq!(table.partitions[0].index, 2);
}

#[test]
fn a_4k_sector_size_scales_every_range() {
    let mut data = vec![0u8; 1 << 24];
    write_table(&mut data, 0, &[(0x83, 256, 512)]);
    let mut image = ImageSectors::new(data, 4096);

    let table = parse(&mut image).unwrap();

    assert_eq!(table.partitions[0].start, 256 * 4096);
    assert_eq!(table.partitions[0].length, 512 * 4096);
}

#[test]
fn an_unsigned_sector_is_not_a_table() {
    let mut image = ImageSectors::new(vec![0u8; 1 << 20], 512);

    let err = parse(&mut image).unwrap_err();

    assert!(err.to_string().contains("not an MBR"), "{err:?}");
}

#[test]
fn a_bootable_flag_is_visible_in_the_type_column() {
    let mut image = image_with_entries(&[(0x0c, 2048, 2048)], 1 << 24);
    image.data_mut()[ENTRY_TABLE_AT] = 0x80;

    let table = parse(&mut image).unwrap();

    assert_eq!(table.partitions[0].kind, "0x0c boot");
}

#[test]
fn the_protective_entry_is_recognised() {
    let image = image_with_entries(&[(TYPE_PROTECTIVE, 1, 0xFFFF_FFFF)], 1 << 20);
    let mut image = image;
    let sector = image.read(0, 1).unwrap();

    assert!(is_protective(&sector));
    assert!(has_signature(&sector));
}

/// The chain is what makes logical partitions addressable at all.
#[test]
fn logical_partitions_are_numbered_from_five() {
    let mut data = vec![0u8; 1 << 26];
    write_table(&mut data, 0, &[(0x83, 2048, 2048), (0x05, 4096, 40960)]);
    // First EBR at LBA 4096: a logical at +2048, linking to the next at +8192.
    write_table(
        &mut data,
        4096 * 512,
        &[(0x83, 2048, 2048), (0x05, 8192, 8192)],
    );
    // Second EBR at LBA 4096+8192: one more logical, no further link.
    write_table(&mut data, (4096 + 8192) * 512, &[(0x83, 2048, 4096)]);
    let mut image = ImageSectors::new(data, 512);

    let table = parse(&mut image).unwrap();

    let indices: Vec<u32> = table.partitions.iter().map(|p| p.index).collect();
    assert_eq!(indices, vec![1, 2, 5, 6]);
    assert_eq!(table.partitions[2].start, (4096 + 2048) * 512);
    assert_eq!(table.partitions[3].start, (4096 + 8192 + 2048) * 512);
}

/// A chain that points back at itself must stop, not spin.
#[test]
fn a_looping_chain_is_refused() {
    let mut data = vec![0u8; 1 << 26];
    write_table(&mut data, 0, &[(0x05, 4096, 40960)]);
    write_table(
        &mut data,
        4096 * 512,
        &[(0x83, 2048, 2048), (0x05, 0, 8192)],
    );
    let mut image = ImageSectors::new(data, 512);

    let err = parse(&mut image).unwrap_err();

    assert!(err.to_string().contains("looping"), "{err:?}");
}

#[test]
fn an_ebr_outside_its_container_stops_the_walk() {
    let mut data = vec![0u8; 1 << 26];
    write_table(&mut data, 0, &[(0x05, 4096, 4096)]);
    write_table(
        &mut data,
        4096 * 512,
        &[(0x83, 100, 100), (0x05, 60000, 8192)],
    );
    let mut image = ImageSectors::new(data, 512);

    let err = parse(&mut image).unwrap_err();

    assert!(err.to_string().contains("outside the extended"), "{err:?}");
}

#[test]
fn two_extended_containers_are_refused() {
    let mut image = image_with_entries(&[(0x05, 4096, 4096), (0x0f, 20480, 4096)], 1 << 26);

    let err = parse(&mut image).unwrap_err();

    assert!(err.to_string().contains("more than one extended"), "{err:?}");
}

/// The number of a primary is its slot, and no number comes up twice.
#[test]
fn an_mbr_is_numbered_like_linux() {
    let mut data = vec![0u8; 1 << 26];
    let primaries = [(0, 0, 0), (0x83, 2048, 2048), (0, 0, 0), (0x0f, 4096, 40960)];
    write_table(&mut data, 0, &primaries);
    write_table(&mut data, 4096 * 512, &[(0x83, 1, 1), (0x05, 10, 10)]);
    write_table(&mut data, (4096 + 10) * 512, &[(0x83, 1, 1), (0x05, 20, 10)]);
    write_table(&mut data, (4096 + 20) * 512, &[(0x83, 1, 1)]);
    let mut image = ImageSectors::new(data, 512);

    let table = parse(&mut image).unwrap();

    let numbers: Vec<u32> = table.partitions.iter().map(|p| p.index).collect();
    assert_eq!(numbers, vec![2, 4, 5, 6, 7]);
}

#[test]
fn an_unsigned_ebr_is_refused() {
    let mut image = image_with_entries(&[(0x05, 4096, 4096)], 1 << 26);

    let err = parse(&mut image).unwrap_err();

    assert!(err.to_string().contains("EBR at LBA 4096"), "{err:?}");
}

/// A container whose first EBR describes nothing holds nothing.
#[test]
fn an_empty_container_adds_nothing() {
    let mut data = vec![0u8; 1 << 26];
    write_table(&mut data, 0, &[(0x05, 4096, 4096)]);
    write_table(&mut data, 4096 * 512, &[]);
    let mut image = ImageSectors::new(data, 512);

    assert_eq!(parse(&mut image).unwrap().partitions.len(), 1);
}
