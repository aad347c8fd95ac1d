//! What holds of every table that is read.

use vstd::prelude::*;

use crate::bytes;
use crate::error::ErrorView;
use crate::parts;
use crate::parts::crc32;
use crate::parts::gpt;
use crate::parts::gpt::Header;
use crate::parts::mbr;
use crate::parts::mbr::RawEntry;
use crate::parts::{DetectedView, ImageSectors, ImageView, PartitionView, Scheme, Sectors};
use crate::transfer;

verus! {

/// The numbers of the partitions go up.
pub open spec fn ascending(partitions: Seq<PartitionView>) -> bool {
    forall|i: int, j: int|
        0 <= i < j < partitions.len() ==> (#[trigger] partitions[i]).index < (
        #[trigger] partitions[j]).index
}

/// The first `primaries` are numbered 1 to 4 by the slot they sit in, and the
/// rest 5, 6 and so on.
pub open spec fn numbered_like_linux(partitions: Seq<PartitionView>, primaries: int) -> bool {
    &&& 0 <= primaries <= partitions.len()
    &&& primaries <= mbr::ENTRY_COUNT
    &&& ascending(partitions)
    &&& forall|i: int|
        0 <= i < primaries ==> 1 <= (#[trigger] partitions[i]).index <= mbr::ENTRY_COUNT
    &&& forall|i: int|
        primaries <= i < partitions.len() ==> (#[trigger] partitions[i]).index == 5 + (i
            - primaries)
}

proof fn the_primaries_are_numbered(
    sector0: Seq<u8>,
    sector: u32,
    index: int,
    found: Seq<PartitionView>,
    extended: Option<RawEntry>,
)
    requires
        0 <= index <= mbr::ENTRY_COUNT,
        found.len() <= index,
        ascending(found),
        forall|i: int| 0 <= i < found.len() ==> 1 <= (#[trigger] found[i]).index <= index,
    ensures
        mbr::primaries(sector0, sector, index, found, extended) matches Ok((all, _)) ==> {
            &&& all.len() <= mbr::ENTRY_COUNT
            &&& ascending(all)
            &&& forall|i: int|
                0 <= i < all.len() ==> 1 <= (#[trigger] all[i]).index <= mbr::ENTRY_COUNT
        },
    decreases mbr::ENTRY_COUNT - index,
{
    if index < mbr::ENTRY_COUNT {
        if let Some(entry) = mbr::entry_in(sector0, index) {
            if entry.unused() {
                the_primaries_are_numbered(sector0, sector, index + 1, found, extended);
            } else {
                let container = if mbr::is_extended(entry.kind) {
                    Some(entry)
                } else {
                    extended
                };
                if let Ok(partition) = entry.partition(
                    (index + 1) as u32,
                    entry.start_lba as u64,
                    sector,
                ) {
                    the_primaries_are_numbered(
                        sector0,
                        sector,
                        index + 1,
                        found.push(partition),
                        container,
                    );
                }
            }
        }
    }
}

proof fn the_chain_is_numbered<S: Sectors>(
    medium: S::Medium,
    base: u64,
    limit: u64,
    sector: u32,
    ebr_lba: u64,
    index: u32,
    found: Seq<PartitionView>,
    primaries: int,
)
    requires
        numbered_like_linux(found, primaries),
        5 <= index,
        found.len() == primaries + (index - 5),
    ensures
        mbr::chain::<S>(medium, base, limit, sector, ebr_lba, index, found).0 matches Ok(all)
            ==> numbered_like_linux(all, primaries),
    decreases 5 + mbr::MAX_LOGICAL - index,
{
    if index <= 4 + mbr::MAX_LOGICAL && base <= ebr_lba < limit {
        let (read, after) = S::serve(medium, ebr_lba, 1);
        if let Ok(ebr) = read {
            let logical = mbr::entry_in(ebr, 0)->0;
            let link = mbr::entry_in(ebr, 1)->0;
            if let Ok(partition) = logical.partition(
                index,
                (ebr_lba + logical.start_lba) as u64,
                sector,
            ) {
                assert(numbered_like_linux(found.push(partition), primaries));
                the_chain_is_numbered::<S>(
                    after,
                    base,
                    limit,
                    sector,
                    (base + link.start_lba) as u64,
                    (index + 1) as u32,
                    found.push(partition),
                    primaries,
                );
            }
        }
    }
}

/// An MBR numbers its partitions as Linux does: a primary by the slot it sits
/// in, 1 to 4, and the logical ones on the chain from 5 up. No number comes up
/// twice.
pub proof fn an_mbr_is_numbered_like_linux<S: Sectors>(medium: S::Medium)
    ensures
        mbr::table::<S>(medium).0 matches Ok(table) ==> exists|primaries: int|
            numbered_like_linux(table.partitions, primaries),
{
    let sector = S::sector_bytes(medium);
    let (read, after) = S::serve(medium, 0, 1);
    if let Ok(sector0) = read {
        the_primaries_are_numbered(sector0, sector, 0, Seq::empty(), None);
        if let Ok((found, extended)) = mbr::primaries(sector0, sector, 0, Seq::empty(), None) {
            assert(numbered_like_linux(found, found.len() as int));
            if let Some(container) = extended {
                the_chain_is_numbered::<S>(
                    after,
                    container.start_lba as u64,
                    (container.start_lba + container.sectors) as u64,
                    sector,
                    container.start_lba as u64,
                    5,
                    found,
                    found.len() as int,
                );
            }
            if let Ok(table) = mbr::table::<S>(medium).0 {
                assert(numbered_like_linux(table.partitions, found.len() as int));
            }
        }
    }
}

proof fn the_entries_are_numbered(
    array: Seq<u8>,
    header: Header,
    sector: u32,
    index: int,
    found: Seq<PartitionView>,
)
    requires
        0 <= index <= header.entry_count,
        ascending(found),
        forall|i: int| 0 <= i < found.len() ==> 1 <= (#[trigger] found[i]).index <= index,
    ensures
        gpt::entries_from(array, header, sector, index, found) matches Ok(all) ==> {
            &&& ascending(all)
            &&& forall|i: int|
                0 <= i < all.len() ==> 1 <= (#[trigger] all[i]).index <= header.entry_count
        },
    decreases header.entry_count - index,
{
    if index < header.entry_count {
        let raw = array.subrange(index * header.entry_size, (index + 1) * header.entry_size);
        if gpt::unused(raw) {
            the_entries_are_numbered(array, header, sector, index + 1, found);
        } else if let Ok(partition) = gpt::entry_in(raw, (index + 1) as u32, sector) {
            the_entries_are_numbered(array, header, sector, index + 1, found.push(partition));
        }
    }
}

/// The entries a header points at are numbered by the slot they sit in, from 1
/// to as many as it counts. No number comes up twice.
pub proof fn a_gpt_is_numbered_by_its_slots<S: Sectors>(medium: S::Medium, header: Header)
    ensures
        gpt::entries::<S>(medium, header).0 matches Ok(all) ==> {
            &&& ascending(all)
            &&& forall|i: int|
                0 <= i < all.len() ==> 1 <= (#[trigger] all[i]).index <= header.entry_count
        },
{
    let len = header.entry_count * header.entry_size;
    let sector = S::sector_bytes(medium);
    let sectors = transfer::rounded_up(len, sector as int) / sector as int;
    if let Ok(array) = S::serve(medium, header.entry_lba, sectors as u64).0 {
        the_entries_are_numbered(array, header, sector, 0, Seq::empty());
    }
}

/// The sector at `lba` holds a header that is intact, knows where it lives, and
/// points at entries that are intact.
pub open spec fn intact(image: ImageView, lba: u64) -> bool {
    let (read, _) = ImageSectors::serve(image, lba, 1);
    let sector = read->Ok_0;
    let header_len = bytes::le32(sector, 12) as int;
    let entry_lba = bytes::le64(sector, 72);
    let len = bytes::le32(sector, 80) * bytes::le32(sector, 84);
    let sectors = transfer::rounded_up(len, image.sector_size as int) / image.sector_size as int;
    let (array, _) = ImageSectors::serve(image, entry_lba, sectors as u64);
    &&& read is Ok
    &&& gpt::signed(sector)
    &&& gpt::MIN_HEADER_LEN <= header_len <= sector.len()
    &&& crc32::checksum(gpt::checked_bytes(sector, header_len)) == bytes::le32(sector, 16)
    &&& bytes::le64(sector, 24) == lba
    &&& array is Ok
    &&& crc32::checksum(array->Ok_0.subrange(0, len)) == bytes::le32(sector, 88)
}

/// A GPT is used only where its header and its entries both pass their
/// checksums, and the header is where it says it is.
pub proof fn a_gpt_that_is_used_is_intact(image: ImageView)
    ensures
        gpt::table::<ImageSectors>(image).0 matches Ok(table) ==> exists|lba: u64|
            intact(image, lba),
{
    let (header, _) = gpt::header_at::<ImageSectors>(image, gpt::PRIMARY_LBA);
    let backup = match header {
        Err(_) => gpt::last_lba_of::<ImageSectors>(image),
        Ok(header) => Some(header.alternate_lba),
    };
    if gpt::table::<ImageSectors>(image).0 is Ok {
        let primary = match header {
            Err(err) => Err(err),
            Ok(header) => gpt::entries::<ImageSectors>(image, header).0,
        };
        if primary is Ok {
            assert(intact(image, gpt::PRIMARY_LBA));
        } else {
            assert(intact(image, backup->0));
        }
    }
}

/// One changed byte among the entries is enough for a copy to be refused.
pub proof fn one_changed_byte_of_the_entries_is_refused(
    image: ImageView,
    changed: ImageView,
    header: Header,
    at: int,
)
    requires
        image.sector_size == changed.sector_size,
        image.data.len() == changed.data.len(),
        header.readable(),
        0 <= at - header.entry_lba * image.sector_size < header.entry_count * header.entry_size,
        at < image.data.len(),
        image.data[at] != changed.data[at],
        forall|i: int| 0 <= i < image.data.len() && i != at ==> image.data[i] == changed.data[i],
        gpt::entries::<ImageSectors>(image, header).0 is Ok,
    ensures
        gpt::entries::<ImageSectors>(changed, header).0 is Err,
{
    let sector = image.sector_size as int;
    let len = header.entry_count * header.entry_size;
    let sectors = transfer::rounded_up(len, sector) / sector;
    let (old_read, _) = ImageSectors::serve(image, header.entry_lba, sectors as u64);
    let (new_read, _) = ImageSectors::serve(changed, header.entry_lba, sectors as u64);
    let before = old_read->Ok_0.subrange(0, len);
    let after = new_read->Ok_0.subrange(0, len);
    assert(sector > 0);
    gpt::whole_sectors_hold_it(len, sector);
    crc32::a_changed_byte_changes_the_checksum(
        before,
        after,
        at - header.entry_lba * image.sector_size,
    );
}

proof fn the_chain_leaves_an_image_alone(
    image: ImageView,
    base: u64,
    limit: u64,
    sector: u32,
    ebr_lba: u64,
    index: u32,
    found: Seq<PartitionView>,
)
    ensures
        mbr::chain::<ImageSectors>(image, base, limit, sector, ebr_lba, index, found).1 == image,
    decreases 5 + mbr::MAX_LOGICAL - index,
{
    if index <= 4 + mbr::MAX_LOGICAL && base <= ebr_lba < limit {
        let (read, after) = ImageSectors::serve(image, ebr_lba, 1);
        if let Ok(ebr) = read {
            let logical = mbr::entry_in(ebr, 0)->0;
            let link = mbr::entry_in(ebr, 1)->0;
            if let Ok(partition) = logical.partition(
                index,
                (ebr_lba + logical.start_lba) as u64,
                sector,
            ) {
                the_chain_leaves_an_image_alone(
                    after,
                    base,
                    limit,
                    sector,
                    (base + link.start_lba) as u64,
                    (index + 1) as u32,
                    found.push(partition),
                );
            }
        }
    }
}

/// Reading a table changes nothing.
pub proof fn reading_a_table_leaves_an_image_alone(image: ImageView)
    ensures
        mbr::table::<ImageSectors>(image).1 == image,
        gpt::table::<ImageSectors>(image).1 == image,
        gpt::claimed::<ImageSectors>(image).1 == image,
{
    let sector = image.sector_size;
    if let Ok(sector0) = ImageSectors::serve(image, 0, 1).0 {
        if let Ok((found, Some(container))) = mbr::primaries(
            sector0,
            sector,
            0,
            Seq::empty(),
            None,
        ) {
            the_chain_leaves_an_image_alone(
                image,
                container.start_lba as u64,
                (container.start_lba + container.sectors) as u64,
                sector,
                container.start_lba as u64,
                5,
                found,
            );
        }
    }
}

/// A table that is read is of the scheme it was read as.
proof fn a_table_is_what_it_was_read_as(image: ImageView)
    ensures
        mbr::table::<ImageSectors>(image).0 matches Ok(table) ==> table.scheme is Mbr
            && ImageSectors::serve(image, 0, 1).0 is Ok && mbr::signed(
            ImageSectors::serve(image, 0, 1).0->Ok_0,
        ),
        gpt::table::<ImageSectors>(image).0 matches Ok(table) ==> table.scheme is Gpt,
{
}

/// Detection concludes only what a signature proves: an MBR where its signature
/// and at least one entry are there, none of them protective, and no GPT claims
/// LBA 1; and otherwise a GPT that can be used.
pub proof fn a_signature_proves_what_is_detected(image: ImageView)
    ensures
        parts::detection::<ImageSectors>(image).0 matches Ok(DetectedView::Table(table)) ==> {
            let sector0 = ImageSectors::serve(image, 0, 1).0->Ok_0;
            match table.scheme {
                Scheme::Mbr => {
                    &&& mbr::signed(sector0)
                    &&& !mbr::protective(sector0)
                    &&& table.partitions.len() > 0
                    &&& gpt::claimed::<ImageSectors>(image).0 == Ok::<bool, ErrorView>(false)
                },
                Scheme::Gpt => gpt::table::<ImageSectors>(image).0 == Ok::<
                    parts::TableView,
                    ErrorView,
                >(table),
            }
        },
{
    reading_a_table_leaves_an_image_alone(image);
    a_table_is_what_it_was_read_as(image);
}

/// A protective entry means GPT, whatever else the sector holds.
pub proof fn a_protective_entry_means_gpt(image: ImageView)
    requires
        ImageSectors::serve(image, 0, 1).0 matches Ok(sector0) && mbr::signed(sector0)
            && mbr::protective(sector0),
    ensures
        parts::detection::<ImageSectors>(image).0 == match gpt::table::<ImageSectors>(image).0 {
            Ok(table) => Ok::<DetectedView, ErrorView>(DetectedView::Table(table)),
            Err(err) => Err(err),
        },
{
}

/// A medium that carries real MBR entries and claims a GPT is never resolved
/// one way or the other.
pub proof fn a_hybrid_layout_is_refused(image: ImageView)
    requires
        ImageSectors::serve(image, 0, 1).0 matches Ok(sector0) && !mbr::protective(sector0),
        mbr::table::<ImageSectors>(image).0 matches Ok(table) && table.partitions.len() > 0,
        gpt::claimed::<ImageSectors>(image).0 == Ok::<bool, ErrorView>(true),
    ensures
        parts::detection::<ImageSectors>(image).0 is Err,
        parts::read_table::<ImageSectors>(image, None).0 is Err,
{
    reading_a_table_leaves_an_image_alone(image);
    a_table_is_what_it_was_read_as(image);
}

/// A GPT that claims LBA 1 and cannot be used is an error, never an absence,
/// whatever stands at LBA 0.
#[verifier::rlimit(60)]
pub proof fn a_damaged_gpt_is_not_an_absence(image: ImageView)
    requires
        gpt::claimed::<ImageSectors>(image).0 == Ok::<bool, ErrorView>(true),
    ensures
        !(parts::detection::<ImageSectors>(image).0 matches Ok(DetectedView::Absent { .. })),
        gpt::table::<ImageSectors>(image).0 is Err ==> parts::detection::<ImageSectors>(
            image,
        ).0 is Err,
{
    reading_a_table_leaves_an_image_alone(image);
    a_table_is_what_it_was_read_as(image);
}

} // verus!
