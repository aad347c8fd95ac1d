//! Detecting a table, and the space it leaves over.

use rawio::device::{MemoryDevice, Removability};
use rawio::error::Error;
use rawio::parts::crc32::crc32;
use rawio::parts::{
    detect, gpt, mbr, read, Detected, DeviceSectors, Gap, ImageSectors, Partition, Scheme, Sectors, Table,
    MAX_READ_BYTES,
};
use rawio::trace::Trace;

const SECTOR: usize = 512;
const GPT_ENTRY_LEN: usize = 128;
const GPT_ENTRY_COUNT: u32 = 8;
const ENTRY_LBA: u64 = 2;

/// `(type GUID first byte, name, first LBA, last LBA)`.
fn image_with_gpt(entries: &[(u8, &str, u64, u64)], sectors: usize) -> ImageSectors {
    let mut data = vec![0u8; sectors * SECTOR];
    // A protective MBR, so detection sees what a real GPT disk looks like.
    write_table(&mut data, 0, &[(0xEE, 1, (sectors - 1) as u32)]);
    let array = build_entries(entries);
    data[ENTRY_LBA as usize * SECTOR..][..array.len()].copy_from_slice(&array);
    let backup_lba = (sectors - 1) as u64;
    let header = build_header(gpt::PRIMARY_LBA, backup_lba, ENTRY_LBA, &array);
    data[SECTOR..][..header.len()].copy_from_slice(&header);
    ImageSectors::new(data, SECTOR as u32)
}

fn build_entries(entries: &[(u8, &str, u64, u64)]) -> Vec<u8> {
    let mut array = vec![0u8; GPT_ENTRY_COUNT as usize * GPT_ENTRY_LEN];
    for (i, (kind, name, first, last)) in entries.iter().enumerate() {
        let entry = &mut array[i * GPT_ENTRY_LEN..][..GPT_ENTRY_LEN];
        entry[0] = *kind;
        entry[3] = 0xAB;
        entry[16] = 0x11;
        entry[32..40].copy_from_slice(&first.to_le_bytes());
        entry[40..48].copy_from_slice(&last.to_le_bytes());
        for (j, unit) in name.encode_utf16().enumerate() {
            entry[56 + j * 2..58 + j * 2].copy_from_slice(&unit.to_le_bytes());
        }
    }
    array
}

fn build_header(at: u64, alternate: u64, entry_lba: u64, array: &[u8]) -> Vec<u8> {
    let mut header = vec![0u8; SECTOR];
    header[0..8].copy_from_slice(&gpt::SIGNATURE);
    header[8..12].copy_from_slice(&0x0001_0000u32.to_le_bytes());
    header[12..16].copy_from_slice(&gpt::MIN_HEADER_LEN.to_le_bytes());
    header[24..32].copy_from_slice(&at.to_le_bytes());
    header[32..40].copy_from_slice(&alternate.to_le_bytes());
    header[72..80].copy_from_slice(&entry_lba.to_le_bytes());
    header[80..84].copy_from_slice(&GPT_ENTRY_COUNT.to_le_bytes());
    header[84..88].copy_from_slice(&(GPT_ENTRY_LEN as u32).to_le_bytes());
    header[88..92].copy_from_slice(&crc32(array).to_le_bytes());
    let crc = crc32(&header[..gpt::MIN_HEADER_LEN as usize]);
    header[16..20].copy_from_slice(&crc.to_le_bytes());
    header.truncate(SECTOR);
    header
}


/// `(type, first LBA, sectors)` in the four primary slots, in order.
fn image_with_entries(entries: &[(u8, u32, u32)], size: usize) -> ImageSectors {
    let mut data = vec![0u8; size];
    write_table(&mut data, 0, entries);
    ImageSectors::new(data, 512)
}

fn write_table(data: &mut [u8], at: usize, entries: &[(u8, u32, u32)]) {
    data[at + mbr::SIGNATURE_AT..at + mbr::SIGNATURE_AT + 2].copy_from_slice(&mbr::SIGNATURE);
    for (i, (kind, start, sectors)) in entries.iter().enumerate() {
        let entry = &mut data[at + mbr::ENTRY_TABLE_AT + i * mbr::ENTRY_LEN..][..mbr::ENTRY_LEN];
        entry[4] = *kind;
        entry[8..12].copy_from_slice(&start.to_le_bytes());
        entry[12..16].copy_from_slice(&sectors.to_le_bytes());
    }
}

#[test]
fn a_run_past_the_read_cap_is_refused_before_it_allocates() {
    let mut image = ImageSectors::new(vec![0u8; 512], 512);

    let err = image.read(0, MAX_READ_BYTES).unwrap_err();

    assert!(err.to_string().contains("readable run"), "{err:?}");
}

#[test]
fn detection_lands_on_mbr_when_only_an_mbr_is_there() {
    let mut image = image_with_entries(&[(0x0c, 2048, 4096)], 64 << 20);

    let table = read(&mut image, None).unwrap();

    assert_eq!(table.scheme, Scheme::Mbr);
    assert_eq!(table.partitions.len(), 1);
}

#[test]
fn detection_refuses_a_hybrid_layout() {
    let mut image = image_with_entries(&[(0x0c, 2048, 4096)], 64 << 20);
    image.data_mut()[512..520].copy_from_slice(b"EFI PART");

    let err = read(&mut image, None).unwrap_err();

    assert!(err.to_string().contains("--scheme"), "{err:?}");
}

/// A PIT card has no signature at LBA 0, and the way out has to be in the
/// message: there is no prompt to fall back on.
#[test]
fn detection_on_an_unsigned_device_points_at_the_pit() {
    let mut image = ImageSectors::new(vec![0u8; 1 << 20], 512);

    let err = read(&mut image, None).unwrap_err();

    assert!(err.to_string().contains("--scheme pit"), "{err:?}");
}

#[test]
fn detection_on_an_empty_mbr_says_how_to_see_it_anyway() {
    let mut image = image_with_entries(&[], 1 << 20);

    let err = read(&mut image, None).unwrap_err();

    assert!(err.to_string().contains("--scheme mbr"), "{err:?}");
    assert_eq!(read(&mut image, Some(Scheme::Mbr)).unwrap().partitions, []);
}

/// An MBR lookup by name is the wrong selector, not a missing partition,
/// and the message has to say which.
#[test]
fn the_gap_in_front_of_the_first_partition_is_searched_backwards() {
    let mut image = image_with_entries(&[(0x0c, 2048, 2048), (0x83, 8192, 2048)], 16 << 20);
    let table = read(&mut image, None).unwrap();

    let gaps = table.gaps(Some(16 << 20));

    assert_eq!(
        gaps,
        vec![
            Gap {
                start: 0,
                end: 2048 * 512,
                reverse: true
            },
            Gap {
                start: 4096 * 512,
                end: 8192 * 512,
                reverse: false
            },
            Gap {
                start: 10240 * 512,
                end: 16 << 20,
                reverse: false
            },
        ]
    );
}

/// The scheme has nothing to do with it: a gap is whatever the entries
/// leave over, and GPT entries leave over the same shape MBR ones do.
#[test]
fn gaps_are_the_same_idea_under_gpt() {
    let mut image = image_with_gpt(&[(0x28, "boot", 2048, 4095)], 16384);
    let table = read(&mut image, None).unwrap();

    let gaps = table.gaps(Some(16384 * 512));

    assert_eq!(table.scheme, Scheme::Gpt);
    assert_eq!(
        gaps,
        vec![
            Gap {
                start: 0,
                end: 2048 * 512,
                reverse: true
            },
            Gap {
                start: 4096 * 512,
                end: 16384 * 512,
                reverse: false
            },
        ]
    );
}

/// Overlapping entries are a corrupt table, but the search still has to be
/// given a coherent set of holes to look in.
#[test]
fn overlapping_entries_merge_into_one_occupied_run() {
    let table = Table {
        scheme: Scheme::Mbr,
        source: "test".into(),
        partitions: vec![
            Partition {
                index: 1,
                name: None,
                kind: "0x83".into(),
                start: 1000,
                length: 500,
            },
            Partition {
                index: 2,
                name: None,
                kind: "0x83".into(),
                start: 1200,
                length: 800,
            },
        ],
    };

    assert_eq!(
        table.gaps(Some(4000)),
        vec![
            Gap {
                start: 0,
                end: 1000,
                reverse: true
            },
            Gap {
                start: 2000,
                end: 4000,
                reverse: false
            },
        ]
    );
}

#[test]
fn an_mbr_name_lookup_names_the_selector_that_works() {
    let table = Table {
        scheme: Scheme::Mbr,
        source: "test".into(),
        partitions: Vec::new(),
    };

    let err = table.find("boot").unwrap_err();

    assert!(err.to_string().contains("--partition-id"), "{err:?}");
}

#[test]
fn an_unknown_index_reports_the_indices_that_exist() {
    let mut image = image_with_entries(&[(0x0c, 2048, 4096), (0x83, 8192, 4096)], 64 << 20);
    let table = read(&mut image, None).unwrap();

    let err = table.find_by_index(3).unwrap_err();

    assert!(err.to_string().contains("1, 2"), "{err:?}");
}

/// A protective entry settles it, even beside a real one.
#[test]
fn a_protective_entry_means_gpt() {
    let mut image = image_with_gpt(&[(0x28, "boot", 2048, 4095)], 16384);
    write_table(image.data_mut(), 0, &[(0xEE, 1, 100), (0x83, 2048, 100)]);

    assert_eq!(read(&mut image, None).unwrap().scheme, Scheme::Gpt);
}

/// An absence is a finding; a hybrid or a damaged table is an error.
#[test]
fn an_absence_is_not_an_error() {
    let mut empty = ImageSectors::new(vec![0u8; 1 << 20], 512);
    assert!(matches!(detect(&mut empty), Ok(Detected::Absent { .. })));

    let mut bare = image_with_entries(&[], 1 << 20);
    assert!(matches!(detect(&mut bare), Ok(Detected::Absent { .. })));

    let mut hybrid = image_with_entries(&[(0x0c, 2048, 4096)], 64 << 20);
    hybrid.data_mut()[512..520].copy_from_slice(b"EFI PART");
    assert!(detect(&mut hybrid).is_err());

    let mut damaged = image_with_gpt(&[(0x28, "boot", 2048, 4095)], 16384);
    damaged.data_mut()[SECTOR + 40] ^= 0xFF;
    assert!(detect(&mut damaged).is_err());

    let mut plain = image_with_entries(&[(0x0c, 2048, 4096)], 64 << 20);
    assert!(matches!(detect(&mut plain), Ok(Detected::Table(_))));
}

/// LBA 1 claims a table and it is damaged: that is not an absence, though LBA 0
/// carries no signature.
#[test]
fn a_damaged_gpt_is_not_an_absence() {
    let mut image = image_with_gpt(&[(0x28, "boot", 2048, 4095)], 16384);
    image.data_mut()[510] = 0;
    assert!(matches!(detect(&mut image), Ok(Detected::Table(_))));
    image.data_mut()[SECTOR + 40] ^= 0xFF;
    assert!(matches!(detect(&mut image), Err(Error::Parts(_))));
    image.data_mut()[SECTOR] = 0;
    assert!(matches!(detect(&mut image), Ok(Detected::Absent { .. })));
}

#[test]
fn a_name_finds_the_first_that_answers() {
    let named = |index: u32, name: &str| Partition {
        index,
        name: Some(name.into()),
        kind: "x".into(),
        start: 0,
        length: 1,
    };
    let table = Table {
        scheme: Scheme::Gpt,
        source: "test".into(),
        partitions: vec![named(3, "Boot"), named(4, "LOG"), named(4, "log")],
    };

    assert_eq!(table.find("boot").unwrap().index, 3);
    assert_eq!(table.find("log").unwrap().name.as_deref(), Some("LOG"));
    assert_eq!(table.find_by_index(4).unwrap().name.as_deref(), Some("LOG"));
    let err = table.find("nope").unwrap_err().to_string();
    assert!(err.contains("Boot") && err.contains("LOG"), "{err}");
}

/// Behind the last partition there is a gap only where the device is known to
/// go on.
#[test]
fn a_device_without_a_size_has_no_tail() {
    let part = |start: u64, length: u64| Partition {
        index: 1,
        name: None,
        kind: "0x83".into(),
        start,
        length,
    };
    let table = Table {
        scheme: Scheme::Mbr,
        source: "test".into(),
        partitions: vec![part(5000, 100), part(1000, 500)],
    };
    let front = Gap { start: 0, end: 1000, reverse: true };
    let middle = Gap { start: 1500, end: 5000, reverse: false };

    assert_eq!(table.gaps(None), vec![front, middle]);
    assert_eq!(table.gaps(Some(4000)), vec![front, middle]);
    let tail = Gap { start: 5100, end: 6000, reverse: false };
    assert_eq!(table.gaps(Some(6000)), vec![front, middle, tail]);
    assert_eq!(front.len(), 1000);
    assert!(!front.is_empty());
    assert_eq!(part(u64::MAX, 2).end(), u64::MAX);
}

/// A device with neither signature is read no more than it takes to know: LBA 0,
/// LBA 1 and the last one, once each.
#[test]
fn an_absence_costs_three_reads() {
    let device = MemoryDevice::new("mem0", 1 << 20, Removability::Removable);
    let mut src = DeviceSectors::new(device, Trace::new());
    assert!(matches!(detect(&mut src), Ok(Detected::Absent { .. })));
    let steps = src.trace.render();
    let reads: Vec<&str> = steps.lines().filter(|line| line.contains("sector(s)")).collect();
    assert_eq!(reads.len(), 3, "{steps}");
    for (read, lba) in reads.iter().zip(["at LBA 0", "at LBA 1", "at LBA 2047"]) {
        assert!(read.contains(lba), "{read}");
    }
}

/// Whatever the partitions, a byte below the horizon lies in a gap exactly when
/// none of them holds it.
#[test]
fn the_space_between_is_what_is_left_over() {
    let part = |start: u64, length: u64| Partition {
        index: 1,
        name: None,
        kind: "x".into(),
        start,
        length,
    };
    let table = Table {
        scheme: Scheme::Mbr,
        source: "test".into(),
        partitions: vec![part(40, 10), part(5, 0), part(10, 20), part(25, 8), part(50, 2)],
    };
    let gaps = table.gaps(Some(60));
    for at in 0..70 {
        let free = gaps.iter().any(|gap| gap.start <= at && at < gap.end);
        let held = table.partitions.iter().any(|p| p.start <= at && at < p.start + p.length);
        assert_eq!(free, at < 60 && !held, "{at}");
    }
}
