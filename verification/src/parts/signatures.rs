//! Which table a medium is found to carry, said of the bytes its signatures
//! stand in.

use vstd::prelude::*;

use crate::error::ErrorView;
use crate::parts;
use crate::parts::gpt;
use crate::parts::laws;
use crate::parts::layout;
use crate::parts::mbr;
use crate::parts::{
    DetectedView, ImageSectors, ImageView, PartitionView, Scheme, Sectors, SurveyView, TableView,
};

verus! {

/// LBA 1 can be read and opens with `EFI PART`.
pub open spec fn claims_a_gpt(image: ImageView) -> bool {
    let sector = layout::sector_at(image, 1);
    &&& layout::on_image(image, 1)
    &&& sector.len() >= 8
    &&& sector[0] == 0x45 && sector[1] == 0x46 && sector[2] == 0x49 && sector[3] == 0x20
    &&& sector[4] == 0x50 && sector[5] == 0x41 && sector[6] == 0x52 && sector[7] == 0x54
}

/// One of the four slots of LBA 0 is marked protective.
pub open spec fn is_protective(sector: Seq<u8>) -> bool {
    sector[450] == 0xEE || sector[466] == 0xEE || sector[482] == 0xEE || sector[498] == 0xEE
}

/// One of the four slots of LBA 0 is in use.
pub open spec fn lists_anything(sector: Seq<u8>) -> bool {
    exists|k: int| 0 <= k < 4 && #[trigger] layout::slot_in_use(sector, k)
}

/// The first eight bytes of LBA 1 are what claims a GPT.
pub proof fn a_claim_is_the_first_eight_bytes(image: ImageView)
    requires
        image.data.len() <= u64::MAX,
    ensures
        gpt::claimed::<ImageSectors>(image).1 == image,
        gpt::claimed::<ImageSectors>(image).0 is Ok <==> layout::on_image(image, 1),
        gpt::claimed::<ImageSectors>(image).0 == Ok::<bool, ErrorView>(true) <==> claims_a_gpt(
            image,
        ),
{
    layout::an_image_gives_the_bytes_that_are_there(image, 1, 1);
    if layout::on_image(image, 1) {
        layout::an_image_gives_its_sectors(image, 1);
        let sector = layout::sector_at(image, 1);
        if sector.len() >= 8 {
            let head = sector.subrange(0, 8);
            let name = seq![0x45u8, 0x46u8, 0x49u8, 0x20u8, 0x50u8, 0x41u8, 0x52u8, 0x54u8];
            if claims_a_gpt(image) {
                assert(head =~= name);
            }
            if head == name {
                assert(head[0] == name[0] && head[1] == name[1] && head[2] == name[2] && head[3]
                    == name[3] && head[4] == name[4] && head[5] == name[5] && head[6] == name[6]
                    && head[7] == name[7]);
            }
        }
    }
}

/// An MBR lists something exactly where one of its four slots is in use.
pub proof fn an_mbr_lists_what_is_in_use(image: ImageView)
    ensures
        mbr::table::<ImageSectors>(image).0 matches Ok(table) ==> {
            &&& table.scheme is Mbr
            &&& table.partitions.len() > 0 <==> lists_anything(layout::sector_at(image, 0))
        },
{
    layout::an_mbr_is_what_its_bytes_say(image);
    if let Ok(table) = mbr::table::<ImageSectors>(image).0 {
        let sector0 = layout::sector_at(image, 0);
        let n = choose|n: int|
            {
                &&& 0 <= n <= table.partitions.len()
                &&& layout::lists_slots(
                    sector0,
                    image.sector_size,
                    #[trigger] table.partitions.subrange(0, n),
                    4,
                )
                &&& (forall|k: int| 0 <= k < 4 ==> !#[trigger] layout::slot_extends(sector0, k))
                    ==> n == table.partitions.len()
            };
        let found = table.partitions.subrange(0, n);
        if lists_anything(sector0) {
            let k = choose|k: int| 0 <= k < 4 && #[trigger] layout::slot_in_use(sector0, k);
            let i = choose|i: int| 0 <= i < found.len() && (#[trigger] found[i]).index == k + 1;
            assert(found[i].index == k + 1);
        } else {
            assert forall|k: int| 0 <= k < 4 implies !#[trigger] layout::slot_extends(
                sector0,
                k,
            ) by {
                assert(!layout::slot_in_use(sector0, k));
            }
            if table.partitions.len() > 0 {
                let part = found[0];
                assert(layout::slot_in_use(sector0, part.index - 1));
            }
        }
    }
}

/// The table of a medium without a signature at LBA 0, or with a protective
/// mark there, is its GPT or none; that of a medium with neither is its MBR
/// where that lists anything, and its GPT where LBA 1 claims one; and a medium
/// where both hold is refused. A claim that does not hold is an error, and
/// where nothing is claimed and nothing listed there is no table.
#[verifier::rlimit(60)]
pub proof fn a_medium_is_taken_for_what_it_is_signed_as(image: ImageView)
    requires
        image.data.len() <= u64::MAX,
    ensures
        ({
            let found = parts::detection::<ImageSectors>(image).0;
            let sector0 = layout::sector_at(image, 0);
            let gpt = gpt::table::<ImageSectors>(image).0;
            let mbr = mbr::table::<ImageSectors>(image).0;
            if !layout::on_image(image, 0) {
                found is Err
            } else if !layout::signed(sector0) {
                match gpt {
                    Ok(table) => found == Ok::<DetectedView, ErrorView>(
                        DetectedView::Table(table),
                    ),
                    Err(err) => if claims_a_gpt(image) {
                        found == Err::<DetectedView, ErrorView>(err)
                    } else {
                        found is Ok && found->Ok_0 is Absent
                    },
                }
            } else if is_protective(sector0) {
                match gpt {
                    Ok(table) => found == Ok::<DetectedView, ErrorView>(
                        DetectedView::Table(table),
                    ),
                    Err(err) => found == Err::<DetectedView, ErrorView>(err),
                }
            } else if mbr is Err || !layout::on_image(image, 1) {
                found is Err
            } else if lists_anything(sector0) {
                if claims_a_gpt(image) {
                    found is Err
                } else {
                    found == Ok::<DetectedView, ErrorView>(DetectedView::Table(mbr->Ok_0))
                }
            } else if claims_a_gpt(image) {
                match gpt {
                    Ok(table) => found == Ok::<DetectedView, ErrorView>(
                        DetectedView::Table(table),
                    ),
                    Err(err) => found == Err::<DetectedView, ErrorView>(err),
                }
            } else {
                found is Ok && found->Ok_0 is Absent
            }
        }),
{
    layout::an_image_gives_the_bytes_that_are_there(image, 0, 1);
    a_claim_is_the_first_eight_bytes(image);
    an_mbr_lists_what_is_in_use(image);
    laws::reading_a_table_leaves_an_image_alone(image);
    if layout::on_image(image, 0) {
        layout::an_image_gives_its_sectors(image, 0);
        layout::a_sector_is_signed_by_its_last_bytes(layout::sector_at(image, 0));
    }
}

/// Asked for a scheme, a medium is read as that and as nothing else; asked for
/// none, it is read as what it is found to carry, and a medium that carries
/// nothing is an error.
pub proof fn a_scheme_that_is_asked_for_is_what_is_read(image: ImageView)
    ensures
        ({
            let mbr = parts::read_table::<ImageSectors>(image, Some(Scheme::Mbr)).0;
            let gpt = parts::read_table::<ImageSectors>(image, Some(Scheme::Gpt)).0;
            let any = parts::read_table::<ImageSectors>(image, None).0;
            &&& mbr matches Ok(table) ==> table.scheme is Mbr
            &&& gpt matches Ok(table) ==> table.scheme is Gpt
            &&& mbr == mbr::table::<ImageSectors>(image).0
            &&& gpt == gpt::table::<ImageSectors>(image).0
            &&& match parts::detection::<ImageSectors>(image).0 {
                Ok(DetectedView::Table(table)) => any == Ok::<TableView, ErrorView>(table),
                Ok(DetectedView::Absent { .. }) => any is Err && any->Err_0 is Parts,
                Err(err) => any == Err::<TableView, ErrorView>(err),
            }
        }),
{
    an_mbr_lists_what_is_in_use(image);
}

/// An image is never at fault for a read but where it has no first sector, is
/// ambiguous exactly where it lists partitions and claims a GPT, and is damaged
/// wherever else no table can be concluded from it.
#[verifier::rlimit(60)]
pub proof fn a_survey_tells_the_failures_apart(image: ImageView)
    requires
        image.data.len() <= u64::MAX,
    ensures
        ({
            let survey = parts::surveyed::<ImageSectors>(image).0;
            let found = parts::detection::<ImageSectors>(image).0;
            let sector0 = layout::sector_at(image, 0);
            let ambiguous = layout::on_image(image, 0) && layout::signed(sector0)
                && !is_protective(sector0) && mbr::table::<ImageSectors>(image).0 is Ok
                && lists_anything(sector0) && claims_a_gpt(image);
            &&& survey is Unreadable <==> !layout::on_image(image, 0)
            &&& survey is Hybrid <==> ambiguous
            &&& survey is Damaged <==> found is Err && layout::on_image(image, 0) && !ambiguous
            &&& survey is Absent <==> found is Ok && found->Ok_0 is Absent
            &&& survey is Table <==> found is Ok && found->Ok_0 is Table
        }),
{
    layout::an_image_gives_the_bytes_that_are_there(image, 0, 1);
    a_claim_is_the_first_eight_bytes(image);
    an_mbr_lists_what_is_in_use(image);
    laws::reading_a_table_leaves_an_image_alone(image);
    an_image_has_no_device_to_fail(image);
    if layout::on_image(image, 0) {
        layout::an_image_gives_its_sectors(image, 0);
        layout::a_sector_is_signed_by_its_last_bytes(layout::sector_at(image, 0));
    }
}

proof fn a_chain_has_no_device_to_fail(
    image: ImageView,
    base: u64,
    limit: u64,
    sector: u32,
    ebr_lba: u64,
    index: u32,
    found: Seq<PartitionView>,
)
    ensures
        !(mbr::chain::<ImageSectors>(image, base, limit, sector, ebr_lba, index, found).0 matches
            Err(ErrorView::Device(_))),
    decreases 5 + mbr::MAX_LOGICAL - index,
{
    if index <= 4 + mbr::MAX_LOGICAL && base <= ebr_lba < limit {
        let (read, after) = ImageSectors::serve(image, ebr_lba, 1);
        if let Ok(ebr) = read {
            let logical = mbr::entry_in(ebr, 0)->0;
            let link = mbr::entry_in(ebr, 1)->0;
            if let Ok(partition) = logical.partition(
                index,
                (ebr_lba + logical.start_lba) as u64,
                sector,
            ) {
                a_chain_has_no_device_to_fail(
                    after,
                    base,
                    limit,
                    sector,
                    (base + link.start_lba) as u64,
                    (index + 1) as u32,
                    found.push(partition),
                );
            }
        }
    }
}

proof fn primaries_have_no_device_to_fail(
    sector0: Seq<u8>,
    sector: u32,
    index: int,
    found: Seq<PartitionView>,
    extended: Option<mbr::RawEntry>,
)
    ensures
        !(mbr::primaries(sector0, sector, index, found, extended) matches Err(
            ErrorView::Device(_),
        )),
    decreases 4 - index,
{
    if index < 4 {
        if let Some(entry) = mbr::entry_in(sector0, index) {
            primaries_have_no_device_to_fail(sector0, sector, index + 1, found, extended);
            let container = if mbr::is_extended(entry.kind) {
                Some(entry)
            } else {
                extended
            };
            if let Ok(part) = entry.partition((index + 1) as u32, entry.start_lba as u64, sector) {
                primaries_have_no_device_to_fail(
                    sector0,
                    sector,
                    index + 1,
                    found.push(part),
                    container,
                );
            }
        }
    }
}

proof fn entries_have_no_device_to_fail(
    array: Seq<u8>,
    header: gpt::Header,
    sector: u32,
    index: int,
    found: Seq<PartitionView>,
)
    ensures
        !(gpt::entries_from(array, header, sector, index, found) matches Err(
            ErrorView::Device(_),
        )),
    decreases header.entry_count - index,
{
    if index < header.entry_count {
        let raw = array.subrange(index * header.entry_size, (index + 1) * header.entry_size);
        entries_have_no_device_to_fail(array, header, sector, index + 1, found);
        if let Ok(part) = gpt::entry_in(raw, (index + 1) as u32, sector) {
            entries_have_no_device_to_fail(array, header, sector, index + 1, found.push(part));
        }
    }
}

proof fn a_copy_has_no_device_to_fail(image: ImageView, lba: u64)
    ensures
        !(gpt::header_at::<ImageSectors>(image, lba).0 matches Err(ErrorView::Device(_))),
        gpt::header_at::<ImageSectors>(image, lba).0 matches Ok(header) ==> !(gpt::entries::<
            ImageSectors,
        >(image, header).0 matches Err(ErrorView::Device(_))),
{
    if let Ok(header) = gpt::header_at::<ImageSectors>(image, lba).0 {
        let size = image.sector_size;
        let len = header.entry_count * header.entry_size;
        let sectors = crate::transfer::rounded_up(len, size as int) / size as int;
        if let Ok(array) = ImageSectors::serve(image, header.entry_lba, sectors as u64).0 {
            entries_have_no_device_to_fail(array, header, size, 0, Seq::empty());
        }
    }
}

proof fn an_image_has_no_device_to_fail(image: ImageView)
    ensures
        !(mbr::table::<ImageSectors>(image).0 matches Err(ErrorView::Device(_))),
        !gpt::reading::<ImageSectors>(image).0.unread,
{
    a_copy_has_no_device_to_fail(image, 1);
    if let Ok(sector0) = ImageSectors::serve(image, 0, 1).0 {
        let size = image.sector_size;
        primaries_have_no_device_to_fail(sector0, size, 0, Seq::empty(), None);
        if let Ok((found, Some(container))) = mbr::primaries(
            sector0,
            size,
            0,
            Seq::empty(),
            None,
        ) {
            a_chain_has_no_device_to_fail(
                image,
                container.start_lba as u64,
                (container.start_lba + container.sectors) as u64,
                size,
                container.start_lba as u64,
                5,
                found,
            );
        }
    }
}

/// A read that the device failed is never taken for damage: whatever is read
/// from, a survey whose first read fails is unreadable as that read was, and so
/// is one whose MBR could not be read.
pub proof fn a_failed_read_is_not_damage<S: Sectors>(medium: S::Medium)
    ensures
        ({
            let (read, after) = S::serve(medium, 0, 1);
            let survey = parts::surveyed::<S>(medium).0;
            let mbr = mbr::table::<S>(after).0;
            &&& read matches Err(err) ==> survey == SurveyView::Unreadable(err)
            &&& read matches Ok(sector0) ==> mbr::signed(sector0) && !mbr::protective(sector0)
                ==> (mbr matches Err(err) ==> if err is Device {
                survey == SurveyView::Unreadable(err)
            } else {
                survey == SurveyView::Damaged(err)
            })
        }),
{
}

} // verus!
