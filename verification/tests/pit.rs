//! Parsing a PIT, and finding one.

use rawio::error::Error;
use rawio::parts::{self, mbr, Gap, ImageSectors, Sectors, Table};
use rawio::pit::{
    read_at, scan, DeviceType, Pit, DEFAULT_SCAN_BUDGET, ENTRY_LEN, HEADER_LEN, MAGIC,
};

const SECTOR: u64 = 512;
/// The card in hand: one MBR partition, the table tucked into the space in
/// front of it.
const FIRST_PARTITION_LBA: u32 = 2048;

/// An MBR-partitioned card with `pits` written at the given byte offsets.
fn card_with_pits(pits: &[u64]) -> (ImageSectors, Vec<Gap>) {
    let size = 16 << 20;
    let mut data = vec![0u8; size];
    write_table(&mut data, 0, &[(0x0c, FIRST_PARTITION_LBA, 4096)]);
    let table = build(&[("BOOT", 2048, 128), ("LOG", 8192, 1024)]);
    for at in pits {
        let at = *at as usize;
        data[at..at + table.len()].copy_from_slice(&table);
    }
    let mut image = ImageSectors::new(data, SECTOR as u32);
    let parsed = parts::read(&mut image, None).unwrap();
    let gaps = parsed.gaps(Some(size as u64));
    (image, gaps)
}

#[test]
fn a_table_in_the_unallocated_space_is_found_by_its_magic() {
    let (mut image, gaps) = card_with_pits(&[1000 * SECTOR]);

    let found = scan(&mut image, &gaps, Some(DEFAULT_SCAN_BUDGET)).unwrap();

    assert_eq!(found.offset, 1000 * SECTOR);
    assert_eq!(found.pit.partitions.len(), 2);
}

/// The gap in front of the first partition is searched backwards, so the
/// copy the partition was written against is the one that answers.
#[test]
fn the_copy_nearest_the_first_partition_answers_first() {
    let (mut image, gaps) = card_with_pits(&[100 * SECTOR, 2000 * SECTOR]);

    let found = scan(&mut image, &gaps, Some(DEFAULT_SCAN_BUDGET)).unwrap();

    assert_eq!(found.offset, 2000 * SECTOR);
}

/// Four bytes come up by chance; only a parse settles it.
#[test]
fn a_stray_magic_is_passed_over() {
    let (mut image, gaps) = card_with_pits(&[1000 * SECTOR]);
    let stray = 1500 * SECTOR as usize;
    image.data_mut()[stray..stray + 4].copy_from_slice(&MAGIC.to_le_bytes());
    image.data_mut()[stray + 4..stray + 8].copy_from_slice(&u32::MAX.to_le_bytes());

    let found = scan(&mut image, &gaps, Some(DEFAULT_SCAN_BUDGET)).unwrap();

    assert_eq!(found.offset, 1000 * SECTOR);
}

/// A full pass over a card is bounded by read throughput, so the search has
/// to stop somewhere and say how to carry on.
#[test]
fn the_budget_bounds_the_search_and_the_message_says_what_to_do() {
    let (mut image, gaps) = card_with_pits(&[8 << 20]);

    let err = scan(&mut image, &gaps, Some(4096)).unwrap_err().to_string();

    assert!(err.contains("--pit-offset"), "{err:?}");
    assert!(err.contains("--pit-scan"), "{err:?}");
}

#[test]
fn an_unlimited_budget_reaches_the_tail() {
    let (mut image, gaps) = card_with_pits(&[8 << 20]);

    assert_eq!(scan(&mut image, &gaps, None).unwrap().offset, 8 << 20);
}

/// Every read this tool makes is sector aligned; an offset that is not is a
/// wrong argument, not a read to attempt.
#[test]
fn read_at_refuses_an_unaligned_offset() {
    let (mut image, _) = card_with_pits(&[1000 * SECTOR]);

    let err = read_at(&mut image, 1000 * SECTOR + 1)
        .unwrap_err()
        .to_string();

    assert!(err.contains("sector size"), "{err:?}");
}

#[test]
fn read_at_reads_a_table_longer_than_one_sector() {
    let (mut image, _) = card_with_pits(&[1000 * SECTOR]);

    let pit = read_at(&mut image, 1000 * SECTOR).unwrap();

    assert_eq!(pit.partitions.len(), 2);
    assert!(HEADER_LEN + 2 * ENTRY_LEN > SECTOR as usize / 2);
}

/// A search over a device with no table at all must not report one.
#[test]
fn an_empty_card_finds_nothing() {
    let mut image = ImageSectors::new(vec![0u8; 1 << 20], SECTOR as u32);
    let gaps = Table {
        scheme: parts::Scheme::Mbr,
        source: "test".into(),
        partitions: Vec::new(),
    }
    .gaps(Some(1 << 20));

    assert!(scan(&mut image, &gaps, None).is_err());
}

fn build(entries: &[(&str, u32, u32)]) -> Vec<u8> {
    let mut buf = vec![0u8; HEADER_LEN + entries.len() * ENTRY_LEN];
    buf[0..4].copy_from_slice(&MAGIC.to_le_bytes());
    buf[4..8].copy_from_slice(&(entries.len() as u32).to_le_bytes());
    buf[8..12].copy_from_slice(b"COM4");
    buf[12..16].copy_from_slice(b"FILE");
    buf[16..22].copy_from_slice(b"EMMC16");
    for (i, (name, offset, count)) in entries.iter().enumerate() {
        let entry = &mut buf[HEADER_LEN + i * ENTRY_LEN..][..ENTRY_LEN];
        entry[4..8].copy_from_slice(&2u32.to_le_bytes()); // device type: mmc
        entry[8..12].copy_from_slice(&(i as u32).to_le_bytes());
        entry[20..24].copy_from_slice(&offset.to_le_bytes());
        entry[24..28].copy_from_slice(&count.to_le_bytes());
        entry[36..36 + name.len()].copy_from_slice(name.as_bytes());
    }
    buf
}

#[test]
fn parses_entries_and_resolves_byte_ranges() {
    let pit = Pit::parse(&build(&[("BOOT", 2048, 128), ("LOG", 8192, 1024)])).unwrap();

    assert_eq!(pit.port, "COM4");
    assert_eq!(pit.format, "FILE");
    assert_eq!(pit.chip, "EMMC16");
    assert_eq!(pit.partitions.len(), 2);
    let log = pit.find("log").unwrap();
    assert_eq!(log.device_type, DeviceType::Mmc);
    assert_eq!(log.identifier, 1);
    assert_eq!(log.byte_offset(), 8192 * 512);
    assert_eq!(log.byte_length(), 1024 * 512);
}

/// Garbage where the table was expected must fail on the magic, never
/// reach the entry count: the count sizes an allocation and a device read.
#[test]
fn table_len_rejects_garbage_before_sizing_anything() {
    let message = Pit::table_len(&[0xFF; HEADER_LEN]).unwrap_err().to_string();
    assert!(message.contains("magic"), "{message}");

    assert!(Pit::table_len(&[0u8; HEADER_LEN - 1]).is_err());
}

#[test]
fn table_len_caps_an_implausible_entry_count() {
    let mut head = build(&[]);
    head[4..8].copy_from_slice(&u32::MAX.to_le_bytes());

    let message = Pit::table_len(&head).unwrap_err().to_string();

    assert!(message.contains("implausible"), "{message}");
}

#[test]
fn table_len_sizes_a_valid_header() {
    let bytes = build(&[("BOOT", 0, 1), ("LOG", 8, 2)]);
    assert_eq!(
        Pit::table_len(&bytes[..HEADER_LEN]).unwrap(),
        HEADER_LEN + 2 * ENTRY_LEN
    );
}

#[test]
fn rejects_a_missing_magic() {
    let mut bytes = build(&[("BOOT", 0, 1)]);
    bytes[0] ^= 0xFF;
    assert!(matches!(Pit::parse(&bytes), Err(Error::Pit(_))));
}

#[test]
fn rejects_a_truncated_entry_table() {
    let mut bytes = build(&[("BOOT", 0, 1), ("LOG", 1, 1)]);
    bytes.truncate(HEADER_LEN + ENTRY_LEN);
    assert!(matches!(Pit::parse(&bytes), Err(Error::Pit(_))));
}

#[test]
fn a_partition_is_addressable_by_identifier() {
    let pit = Pit::parse(&build(&[("BOOT", 0, 1), ("LOG", 8, 2)])).unwrap();

    assert_eq!(pit.find_by_id(1).unwrap().name, "LOG");
    assert_eq!(pit.find_by_id(1).unwrap(), pit.find("LOG").unwrap());
}

#[test]
fn an_unknown_identifier_reports_the_ones_that_exist() {
    let pit = Pit::parse(&build(&[("BOOT", 0, 1), ("LOG", 8, 2)])).unwrap();

    let message = pit.find_by_id(9).unwrap_err().to_string();

    assert!(
        message.contains("0=BOOT") && message.contains("1=LOG"),
        "{message}"
    );
}

/// The name has to come from somewhere, and the table is the only source.
#[test]
fn an_unknown_name_reports_the_names_that_exist() {
    let pit = Pit::parse(&build(&[("BOOT", 0, 1), ("LOG", 1, 1)])).unwrap();

    let message = pit.find("nope").unwrap_err().to_string();

    assert!(
        message.contains("BOOT") && message.contains("LOG"),
        "{message}"
    );
}

fn write_table(data: &mut [u8], at: usize, entries: &[(u8, u32, u32)]) {
    data[at + mbr::SIGNATURE_AT..at + mbr::SIGNATURE_AT + 2].copy_from_slice(&mbr::SIGNATURE);
    for (i, (kind, start, sectors)) in entries.iter().enumerate() {
        let entry = &mut data[at + mbr::ENTRY_TABLE_AT + i * mbr::ENTRY_LEN..][..mbr::ENTRY_LEN];
        entry[4] = *kind;
        entry[8..12].copy_from_slice(&start.to_le_bytes());
        entry[12..16].copy_from_slice(&sectors.to_le_bytes());
    }
}

/// A name runs up to its first NUL and is trimmed; one that is not UTF-8 is no
/// name.
#[test]
fn a_name_is_read_up_to_its_first_nul() {
    let mut bytes = build(&[("BOOT", 0, 1)]);
    let name = HEADER_LEN + 36;
    bytes[name..name + 8].copy_from_slice(b" LOG \0zz");
    assert_eq!(Pit::parse(&bytes).unwrap().partitions[0].name, "LOG");

    bytes[name..name + 8].copy_from_slice(b"A\xc3\xa9B\0\xffzz");
    assert_eq!(Pit::parse(&bytes).unwrap().partitions[0].name, "A\u{E9}B");

    bytes[name..name + 8].copy_from_slice(b"A\xffBC\0\0\0\0");
    assert!(matches!(Pit::parse(&bytes), Err(Error::Pit(_))));
}

/// The words of the header are only for show, so they are kept as far as they
/// can be read.
#[test]
fn a_header_word_is_kept_as_far_as_it_reads() {
    let mut bytes = build(&[("BOOT", 0, 1)]);
    bytes[8..12].copy_from_slice(b"C\xffM\0");
    assert_eq!(Pit::parse(&bytes).unwrap().port, "C\u{FFFD}M");
}

#[test]
fn every_device_type_is_spelled() {
    for (raw, name) in [
        (0u32, "onenand"),
        (1, "filefat"),
        (2, "mmc"),
        (3, "all"),
        (77, "unknown(77)"),
    ] {
        let mut bytes = build(&[("BOOT", 0, 1)]);
        bytes[HEADER_LEN + 4..HEADER_LEN + 8].copy_from_slice(&raw.to_le_bytes());
        assert_eq!(Pit::parse(&bytes).unwrap().partitions[0].device_type.to_string(), name);
    }
}

/// The search reads no more than it may: a budget that ends before the table
/// does not find it, one that reaches it does.
#[test]
fn a_search_keeps_its_budget() {
    let (mut image, gaps) = card_with_pits(&[2000 * SECTOR]);
    // Sectors 2047 down to 2000 are searched backwards.
    assert!(scan(&mut image, &gaps, Some(47 * SECTOR)).is_err());
    assert_eq!(scan(&mut image, &gaps, Some(48 * SECTOR)).unwrap().offset, 2000 * SECTOR);
}

/// An image that counts what is read from it.
struct Counted {
    image: ImageSectors,
    read: u64,
}

impl Sectors for Counted {
    type Medium = ();

    fn sector_size(&self) -> u32 {
        self.image.sector_size()
    }

    fn device_size(&self) -> Option<u64> {
        self.image.device_size()
    }

    fn read(&mut self, lba: u64, count: u64) -> Result<Vec<u8>, Error> {
        self.read += count * u64::from(self.image.sector_size());
        self.image.read(lba, count)
    }
}

/// A bare image with a table of ten entries, three sectors long, at `at`.
fn image_with_long_table(at: u64) -> ImageSectors {
    let names: Vec<String> = (0..10).map(|i| format!("P{i}")).collect();
    let entries: Vec<(&str, u32, u32)> = names.iter().map(|name| (name.as_str(), 0, 1)).collect();
    let table = build(&entries);
    let mut data = vec![0u8; 64 * SECTOR as usize];
    data[at as usize..at as usize + table.len()].copy_from_slice(&table);
    ImageSectors::new(data, SECTOR as u32)
}

fn gap(start: u64, end: u64, reverse: bool) -> Gap {
    Gap { start: start * SECTOR, end: end * SECTOR, reverse }
}

/// Every read counts, the ones that try a hit among them.
#[test]
fn no_read_of_a_search_is_free() {
    for reverse in [false, true] {
        for budget in 0..12 {
            let mut src = Counted { image: image_with_long_table(9 * SECTOR), read: 0 };
            let found = scan(&mut src, &[gap(4, 10, reverse)], Some(budget * SECTOR));
            assert!(src.read <= budget * SECTOR, "{budget} sectors, {} bytes", src.read);
            // The gap ends inside the table: six sectors of it, one for the
            // header, and three for the table.
            assert_eq!(found.is_ok(), budget >= 10, "{budget} {reverse}");
        }
    }
}

/// A hit is read again, its header first and then all of it, where that can be
/// paid for; a table that lies in what was read already is found all the same
/// where it cannot.
#[test]
fn a_hit_is_read_where_it_stands() {
    for (budget, read) in [(Some(6 * SECTOR), 6), (Some(10 * SECTOR), 10), (None, 10)] {
        let mut src = Counted { image: image_with_long_table(7 * SECTOR), read: 0 };
        let found = scan(&mut src, &[gap(4, 10, true)], budget).unwrap();
        assert_eq!((found.offset, found.pit.partitions.len()), (7 * SECTOR, 10));
        assert_eq!(src.read, read * SECTOR, "{budget:?}");
    }
}

/// A hit that cannot be afforded ends the search: a copy further off does not
/// answer in its place.
#[test]
fn a_budget_never_changes_the_answer() {
    let mut image = image_with_long_table(9 * SECTOR);
    let near = build(&[("NEAR", 0, 1)]);
    image.data_mut()[5 * SECTOR as usize..][..near.len()].copy_from_slice(&near);
    let gaps = [gap(4, 10, true)];
    assert!(scan(&mut image, &gaps, Some(6 * SECTOR)).is_err());
    assert_eq!(scan(&mut image, &gaps, Some(10 * SECTOR)).unwrap().offset, 9 * SECTOR);
    assert_eq!(scan(&mut image, &gaps, None).unwrap().offset, 9 * SECTOR);
}

/// The gaps answer in the order they are given, and each in its own direction.
#[test]
fn the_first_gap_answers_first() {
    let (mut image, _) = card_with_pits(&[100 * SECTOR, 200 * SECTOR, 300 * SECTOR]);
    let (low, high) = (gap(50, 250, false), gap(250, 400, false));
    assert_eq!(scan(&mut image, &[high, low], None).unwrap().offset, 300 * SECTOR);
    assert_eq!(scan(&mut image, &[low, high], None).unwrap().offset, 100 * SECTOR);
    let backwards = gap(50, 250, true);
    assert_eq!(scan(&mut image, &[backwards, high], None).unwrap().offset, 200 * SECTOR);
    let bare = gap(400, 500, false);
    assert_eq!(scan(&mut image, &[bare, high], None).unwrap().offset, 300 * SECTOR);
    let err = scan(&mut image, &[bare], None).unwrap_err().to_string();
    assert!(err.contains("--pit-offset") && err.contains("--pit-scan"), "{err}");
}

/// A table inside a partition is not looked for.
#[test]
fn a_find_lies_in_a_gap() {
    let (mut image, gaps) = card_with_pits(&[3000 * SECTOR]);
    assert!(scan(&mut image, &gaps, None).is_err());
    assert!(read_at(&mut image, 3000 * SECTOR).is_ok());
}

#[test]
fn an_identifier_finds_the_first_that_has_it() {
    let mut bytes = build(&[("BOOT", 0, 1), ("LOG", 8, 2), ("log", 9, 2)]);
    for i in 0..3 {
        let at = HEADER_LEN + i * ENTRY_LEN + 8;
        bytes[at..at + 4].copy_from_slice(&5u32.to_le_bytes());
    }
    let pit = Pit::parse(&bytes).unwrap();

    assert_eq!(pit.find_by_id(5).unwrap().name, "BOOT");
    assert_eq!(pit.find("Log").unwrap().name, "LOG");
}
