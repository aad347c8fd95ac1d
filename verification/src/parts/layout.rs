//! What the bytes of a table mean: every field of it is where the format puts
//! it, and comes out with every bit it has.

use vstd::prelude::*;

use crate::bytes;
use crate::error::ErrorView;
use crate::number;
use crate::parts;
use crate::parts::mbr;
use crate::parts::mbr::RawEntry;
use crate::parts::{ImageSectors, ImageView, PartitionView, Sectors};
use crate::text;

verus! {

/// The sector at `lba`.
pub open spec fn sector_at(image: ImageView, lba: int) -> Seq<u8> {
    image.data.subrange(lba * image.sector_size, (lba + 1) * image.sector_size)
}

/// A sector an image can be read by lies on it.
pub open spec fn on_image(image: ImageView, lba: int) -> bool {
    &&& 0 <= lba
    &&& 0 < image.sector_size <= 4_194_304
    &&& (lba + 1) * image.sector_size <= image.data.len()
}

/// An image gives the bytes that stand where whole sectors are asked for, all
/// of them and no others, and gives them exactly where it has them.
pub proof fn an_image_gives_the_bytes_that_are_there(image: ImageView, lba: u64, count: u64)
    ensures
        ImageSectors::serve(image, lba, count).1 == image,
        ImageSectors::serve(image, lba, count).0 is Ok <==> {
            &&& 0 < count * image.sector_size <= 4_194_304
            &&& lba * image.sector_size <= u64::MAX
            &&& (lba + count) * image.sector_size <= image.data.len()
        },
        ImageSectors::serve(image, lba, count).0 matches Ok(bytes) ==> {
            &&& bytes.len() == count * image.sector_size
            &&& forall|i: int|
                0 <= i < bytes.len() ==> #[trigger] bytes[i] == image.data[lba
                    * image.sector_size + i]
        },
{
    let s = image.sector_size as int;
    assert((lba + count) * s == lba * s + count * s) by (nonlinear_arith);
}

/// One sector of an image.
pub proof fn an_image_gives_its_sectors(image: ImageView, lba: u64)
    requires
        on_image(image, lba as int),
        lba * image.sector_size <= u64::MAX,
    ensures
        ImageSectors::serve(image, lba, 1) == (
            Ok::<Seq<u8>, ErrorView>(sector_at(image, lba as int)),
            image,
        ),
{
    let s = image.sector_size as int;
    assert((lba + 1) * s == lba * s + s) by (nonlinear_arith);
}

/// Slot `k` of an MBR or an EBR is in use: it has a type and a length.
pub open spec fn slot_in_use(sector: Seq<u8>, k: int) -> bool {
    &&& sector[446 + 16 * k + 4] != 0
    &&& bytes::dword(sector, 446 + 16 * k + 12) != 0
}

/// Slot `k` is an extended container.
pub open spec fn slot_extends(sector: Seq<u8>, k: int) -> bool {
    let kind = sector[446 + 16 * k + 4];
    slot_in_use(sector, k) && (kind == 0x05 || kind == 0x0F || kind == 0x85)
}

/// The partition that slot `k` describes, its first sector counted from the
/// sector `from`, in bytes and with nothing left off.
pub open spec fn slot_describes(
    sector: Seq<u8>,
    k: int,
    from: int,
    size: u32,
    part: PartitionView,
) -> bool {
    let at = 446 + 16 * k;
    &&& slot_in_use(sector, k)
    &&& part.start == (from + bytes::dword(sector, at + 8)) * size
    &&& part.length == bytes::dword(sector, at + 12) * size
    &&& part.name is None
    &&& part.kind.len() == if sector[at] == 0x80 {
        9int
    } else {
        4
    }
    &&& part.kind[0] == '0' && part.kind[1] == 'x'
    &&& number::positional(part.kind.subrange(2, 4), 16) == Some(sector[at + 4] as nat)
    &&& sector[at] == 0x80 ==> part.kind.subrange(4, 9) == seq![' ', 'b', 'o', 'o', 't']
}

/// The last two bytes of the first 512 sign a sector.
pub open spec fn signed(sector: Seq<u8>) -> bool {
    sector.len() >= 512 && sector[510] == 0x55 && sector[511] == 0xAA
}

/// The signature and the protective mark are read where they stand.
pub proof fn a_sector_is_signed_by_its_last_bytes(sector: Seq<u8>)
    ensures
        mbr::signed(sector) == signed(sector),
        sector.len() >= 512 ==> (mbr::protective(sector) <==> {
            ||| sector[450] == 0xEE
            ||| sector[466] == 0xEE
            ||| sector[482] == 0xEE
            ||| sector[498] == 0xEE
        }),
{
    if sector.len() >= 512 {
        assert(mbr::entry_in(sector, 0) is Some && mbr::entry_in(sector, 0)->0.kind
            == sector[450]);
        assert(mbr::entry_in(sector, 1) is Some && mbr::entry_in(sector, 1)->0.kind
            == sector[466]);
        assert(mbr::entry_in(sector, 2) is Some && mbr::entry_in(sector, 2)->0.kind
            == sector[482]);
        assert(mbr::entry_in(sector, 3) is Some && mbr::entry_in(sector, 3)->0.kind
            == sector[498]);
        if mbr::protective(sector) {
            let i = choose|i: int|
                0 <= i < mbr::ENTRY_COUNT && #[trigger] mbr::entry_in(sector, i) is Some
                    && mbr::entry_in(sector, i)->0.kind == mbr::TYPE_PROTECTIVE;
            assert(i == 0 || i == 1 || i == 2 || i == 3);
        }
    }
}

/// An entry of a sector gives the partition its bytes describe.
proof fn an_entry_is_what_its_bytes_say(
    sector: Seq<u8>,
    k: int,
    from: int,
    index: u32,
    size: u32,
)
    requires
        sector.len() >= 512,
        0 <= k < 4,
        0 <= from <= 0x2_0000_0000,
        size <= 4_194_304,
    ensures
        mbr::entry_in(sector, k) matches Some(entry) && {
            &&& entry.start_lba == bytes::dword(sector, 446 + 16 * k + 8)
            &&& entry.sectors == bytes::dword(sector, 446 + 16 * k + 12)
            &&& entry.unused() == !slot_in_use(sector, k)
            &&& !entry.unused() ==> mbr::is_extended(entry.kind) == slot_extends(sector, k)
            &&& !entry.unused() ==> {
                let read = entry.partition(index, (from + entry.start_lba) as u64, size);
                &&& read is Ok
                &&& read->Ok_0.index == index
                &&& slot_describes(sector, k, from, size, read->Ok_0)
            }
        },
{
    let at = 446 + 16 * k;
    bytes::a_field_keeps_every_bit(sector, at + 8);
    bytes::a_field_keeps_every_bit(sector, at + 12);
    let entry = mbr::entry_in(sector, k)->0;
    let lba = from + entry.start_lba;
    assert(0 <= lba * size <= u64::MAX) by (nonlinear_arith)
        requires
            0 <= lba <= 0x3_0000_0000,
            0 <= size <= 4_194_304,
    ;
    assert(0 <= entry.sectors * size <= u64::MAX) by (nonlinear_arith)
        requires
            0 <= entry.sectors <= 0xFFFF_FFFF,
            0 <= size <= 4_194_304,
    ;
    reveal_strlit("0x");
    reveal_strlit(" boot");
    reveal_with_fuel(number::power, 3);
    number::padded_hexadecimals_read_back(entry.kind as nat, 2);
    let kind = entry.kind_text();
    assert(kind.subrange(2, 4) =~= text::hex_padded(entry.kind as nat, 2));
    if entry.bootable {
        assert(kind.subrange(4, 9) =~= seq![' ', 'b', 'o', 'o', 't']);
    }
}

/// The numbers go up.
pub open spec fn ascending(parts: Seq<PartitionView>) -> bool {
    forall|i: int, j: int|
        0 <= i < j < parts.len() ==> (#[trigger] parts[i]).index < (#[trigger] parts[j]).index
}

/// `parts` lists the first `n` slots of a sector: the ones in use and no
/// others, each under the number of its slot.
pub open spec fn lists_slots(sector: Seq<u8>, size: u32, parts: Seq<PartitionView>, n: int) -> bool {
    &&& ascending(parts)
    &&& forall|i: int|
        0 <= i < parts.len() ==> 1 <= (#[trigger] parts[i]).index <= n && slot_describes(
            sector,
            parts[i].index - 1,
            0,
            size,
            parts[i],
        )
    &&& forall|k: int|
        0 <= k < n && #[trigger] slot_in_use(sector, k) ==> exists|i: int|
            0 <= i < parts.len() && (#[trigger] parts[i]).index == k + 1
}

#[verifier::rlimit(60)]
proof fn primaries_list_the_slots(
    sector: Seq<u8>,
    size: u32,
    k: int,
    found: Seq<PartitionView>,
    extended: Option<RawEntry>,
)
    requires
        sector.len() >= 512,
        0 < size <= 4_194_304,
        0 <= k <= 4,
        lists_slots(sector, size, found, k),
        extended is None <==> forall|j: int| 0 <= j < k ==> !#[trigger] slot_extends(sector, j),
        extended matches Some(entry) ==> exists|j: int|
            0 <= j < k && #[trigger] slot_extends(sector, j) && mbr::entry_in(sector, j) == Some(
                entry,
            ),
        forall|i: int, j: int|
            0 <= i < j < k && #[trigger] slot_extends(sector, i) ==> !#[trigger] slot_extends(
                sector,
                j,
            ),
    ensures
        match mbr::primaries(sector, size, k, found, extended) {
            Ok((all, container)) => {
                &&& lists_slots(sector, size, all, 4)
                &&& forall|i: int, j: int|
                    0 <= i < j < 4 && #[trigger] slot_extends(sector, i)
                        ==> !#[trigger] slot_extends(sector, j)
                &&& match container {
                    None => forall|j: int| 0 <= j < 4 ==> !#[trigger] slot_extends(sector, j),
                    Some(entry) => exists|j: int|
                        0 <= j < 4 && #[trigger] slot_extends(sector, j) && mbr::entry_in(
                            sector,
                            j,
                        ) == Some(entry),
                }
            },
            Err(_) => exists|i: int, j: int|
                0 <= i < j < 4 && #[trigger] slot_extends(sector, i) && #[trigger] slot_extends(
                    sector,
                    j,
                ),
        },
    decreases 4 - k,
{
    if k < 4 {
        an_entry_is_what_its_bytes_say(sector, k, 0, (k + 1) as u32, size);
        let entry = mbr::entry_in(sector, k)->0;
        if entry.unused() {
            assert(lists_slots(sector, size, found, k + 1)) by {
                assert forall|j: int| 0 <= j < k + 1 && #[trigger] slot_in_use(
                    sector,
                    j,
                ) implies exists|i: int|
                    0 <= i < found.len() && (#[trigger] found[i]).index == j + 1 by {
                    assert(j < k);
                }
            }
            primaries_list_the_slots(sector, size, k + 1, found, extended);
        } else {
            let part = entry.partition((k + 1) as u32, entry.start_lba as u64, size)->Ok_0;
            let more = found.push(part);
            assert(lists_slots(sector, size, more, k + 1)) by {
                assert forall|j: int| 0 <= j < k + 1 && #[trigger] slot_in_use(
                    sector,
                    j,
                ) implies exists|i: int|
                    0 <= i < more.len() && (#[trigger] more[i]).index == j + 1 by {
                    if j < k {
                        let i = choose|i: int|
                            0 <= i < found.len() && (#[trigger] found[i]).index == j + 1;
                        assert(more[i] == found[i]);
                    } else {
                        assert(more[found.len() as int].index == k + 1);
                    }
                }
            }
            if slot_extends(sector, k) && extended is Some {
                let j = choose|j: int| 0 <= j < k && #[trigger] slot_extends(sector, j);
                assert(slot_extends(sector, j) && slot_extends(sector, k));
            } else {
                let container = if slot_extends(sector, k) {
                    Some(entry)
                } else {
                    extended
                };
                assert(container is None <==> forall|j: int|
                    0 <= j < k + 1 ==> !#[trigger] slot_extends(sector, j));
                primaries_list_the_slots(sector, size, k + 1, more, container);
            }
        }
    }
}

/// The EBRs of a container that starts at `base` and ends before `limit`, by
/// the sectors they stand in, and the logical partitions they describe. The
/// first stands at the start of the container and each next one where the
/// second slot of the one before points, counted from the start of the
/// container; a partition is counted from its own EBR. The last has no next, or
/// describes nothing.
pub open spec fn chained(
    image: ImageView,
    base: int,
    limit: int,
    lbas: Seq<int>,
    parts: Seq<PartitionView>,
) -> bool {
    &&& 1 <= lbas.len() <= 128
    &&& parts.len() == lbas.len() || parts.len() + 1 == lbas.len()
    &&& lbas[0] == base
    &&& forall|j: int|
        0 <= j < lbas.len() ==> {
            &&& base <= #[trigger] lbas[j] < limit
            &&& on_image(image, lbas[j])
            &&& signed(sector_at(image, lbas[j]))
        }
    &&& forall|j: int|
        0 <= j < parts.len() ==> (#[trigger] parts[j]).index == 5 + j && slot_describes(
            sector_at(image, lbas[j]),
            0,
            lbas[j],
            image.sector_size,
            parts[j],
        )
    &&& forall|j: int|
        0 < j < lbas.len() ==> slot_in_use(sector_at(image, lbas[j - 1]), 1) && #[trigger] lbas[j]
            == base + bytes::dword(sector_at(image, lbas[j - 1]), 470)
    &&& if parts.len() == lbas.len() {
        !slot_in_use(sector_at(image, lbas.last()), 1)
    } else {
        !slot_in_use(sector_at(image, lbas.last()), 0)
    }
}

/// The same from the `done`th EBR on.
spec fn chained_from(
    image: ImageView,
    base: int,
    limit: int,
    lbas: Seq<int>,
    parts: Seq<PartitionView>,
    done: int,
) -> bool {
    &&& 1 <= lbas.len() <= 128 - done
    &&& parts.len() == lbas.len() || parts.len() + 1 == lbas.len()
    &&& forall|j: int|
        0 <= j < lbas.len() ==> {
            &&& base <= #[trigger] lbas[j] < limit
            &&& on_image(image, lbas[j])
            &&& signed(sector_at(image, lbas[j]))
        }
    &&& forall|j: int|
        0 <= j < parts.len() ==> (#[trigger] parts[j]).index == 5 + done + j && slot_describes(
            sector_at(image, lbas[j]),
            0,
            lbas[j],
            image.sector_size,
            parts[j],
        )
    &&& forall|j: int|
        0 < j < lbas.len() ==> slot_in_use(sector_at(image, lbas[j - 1]), 1) && #[trigger] lbas[j]
            == base + bytes::dword(sector_at(image, lbas[j - 1]), 470)
    &&& if parts.len() == lbas.len() {
        !slot_in_use(sector_at(image, lbas.last()), 1)
    } else {
        !slot_in_use(sector_at(image, lbas.last()), 0)
    }
}

#[verifier::rlimit(60)]
proof fn a_chain_that_is_read_is_chained(
    image: ImageView,
    base: u64,
    limit: u64,
    ebr_lba: u64,
    done: int,
    found: Seq<PartitionView>,
) -> (trail: (Seq<int>, Seq<PartitionView>))
    requires
        0 <= done <= 128,
        limit <= 0x2_0000_0000,
        base <= limit,
        mbr::chain::<ImageSectors>(
            image,
            base,
            limit,
            image.sector_size,
            ebr_lba,
            (5 + done) as u32,
            found,
        ).0 is Ok,
    ensures
        trail.0[0] == ebr_lba,
        chained_from(image, base as int, limit as int, trail.0, trail.1, done),
        mbr::chain::<ImageSectors>(
            image,
            base,
            limit,
            image.sector_size,
            ebr_lba,
            (5 + done) as u32,
            found,
        ).0 == Ok::<Seq<PartitionView>, ErrorView>(found + trail.1),
    decreases 128 - done,
{
    let size = image.sector_size;
    an_image_gives_the_bytes_that_are_there(image, ebr_lba, 1);
    assert(on_image(image, ebr_lba as int));
    an_image_gives_its_sectors(image, ebr_lba);
    let ebr = sector_at(image, ebr_lba as int);
    a_sector_is_signed_by_its_last_bytes(ebr);
    an_entry_is_what_its_bytes_say(ebr, 0, ebr_lba as int, (5 + done) as u32, size);
    an_entry_is_what_its_bytes_say(ebr, 1, base as int, (5 + done) as u32, size);
    let logical = mbr::entry_in(ebr, 0)->0;
    let link = mbr::entry_in(ebr, 1)->0;
    if logical.unused() {
        let parts = Seq::<PartitionView>::empty();
        assert(found + parts =~= found);
        (seq![ebr_lba as int], parts)
    } else {
        let part = logical.partition(
            (5 + done) as u32,
            (ebr_lba + logical.start_lba) as u64,
            size,
        )->Ok_0;
        if link.unused() {
            assert(found + seq![part] =~= found.push(part));
            (seq![ebr_lba as int], seq![part])
        } else {
            let next = (base + link.start_lba) as u64;
            let (lbas, parts) = a_chain_that_is_read_is_chained(
                image,
                base,
                limit,
                next,
                done + 1,
                found.push(part),
            );
            let all_lbas = seq![ebr_lba as int] + lbas;
            let all = seq![part] + parts;
            assert(all_lbas.last() == lbas.last());
            assert forall|j: int| 0 < j < all_lbas.len() implies slot_in_use(
                sector_at(image, all_lbas[j - 1]),
                1,
            ) && #[trigger] all_lbas[j] == base + bytes::dword(
                sector_at(image, all_lbas[j - 1]),
                470,
            ) by {
                if j > 1 {
                    assert(all_lbas[j] == lbas[j - 1]);
                    assert(all_lbas[j - 1] == lbas[j - 2]);
                }
            }
            assert forall|j: int| 0 <= j < all.len() implies (#[trigger] all[j]).index == 5 + done
                + j && slot_describes(
                sector_at(image, all_lbas[j]),
                0,
                all_lbas[j],
                size,
                all[j],
            ) by {
                if j > 0 {
                    assert(all[j] == parts[j - 1]);
                    assert(all_lbas[j] == lbas[j - 1]);
                }
            }
            assert(found.push(part) + parts =~= found + all);
            (all_lbas, all)
        }
    }
}

/// Where a partition lies and what it is called, with its type left aside.
pub open spec fn same_place(a: PartitionView, b: PartitionView) -> bool {
    a.index == b.index && a.start == b.start && a.length == b.length
}

/// One EBR that holds: the partition it describes is added, and its second slot
/// says where to go on.
#[verifier::rlimit(60)]
proof fn an_ebr_is_read(
    image: ImageView,
    base: u64,
    limit: u64,
    ebr_lba: u64,
    done: int,
    found: Seq<PartitionView>,
) -> (part: PartitionView)
    requires
        0 <= done < 128,
        base <= ebr_lba < limit <= 0x2_0000_0000,
        on_image(image, ebr_lba as int),
        signed(sector_at(image, ebr_lba as int)),
    ensures
        ({
            let size = image.sector_size;
            let ebr = sector_at(image, ebr_lba as int);
            let index = (5 + done) as u32;
            let read = mbr::chain::<ImageSectors>(image, base, limit, size, ebr_lba, index, found);
            if !slot_in_use(ebr, 0) {
                read.0 == Ok::<Seq<PartitionView>, ErrorView>(found)
            } else {
                &&& part.index == 5 + done
                &&& slot_describes(ebr, 0, ebr_lba as int, size, part)
                &&& if !slot_in_use(ebr, 1) {
                    read.0 == Ok::<Seq<PartitionView>, ErrorView>(found.push(part))
                } else {
                    read.0 == mbr::chain::<ImageSectors>(
                        image,
                        base,
                        limit,
                        size,
                        (base + bytes::dword(ebr, 470)) as u64,
                        (5 + (done + 1)) as u32,
                        found.push(part),
                    ).0
                }
            }
        }),
{
    let size = image.sector_size;
    assert(ebr_lba * size <= u64::MAX) by (nonlinear_arith)
        requires
            0 <= ebr_lba <= 0x2_0000_0000,
            0 <= size <= 4_194_304,
    ;
    an_image_gives_its_sectors(image, ebr_lba);
    let ebr = sector_at(image, ebr_lba as int);
    a_sector_is_signed_by_its_last_bytes(ebr);
    an_entry_is_what_its_bytes_say(ebr, 0, ebr_lba as int, (5 + done) as u32, size);
    an_entry_is_what_its_bytes_say(ebr, 1, base as int, (5 + done) as u32, size);
    let logical = mbr::entry_in(ebr, 0)->0;
    logical.partition((5 + done) as u32, (ebr_lba + logical.start_lba) as u64, size)->Ok_0
}

/// The logical partitions of a chain from its `done`th EBR on, as they are read.
spec fn chain_read(
    image: ImageView,
    base: int,
    limit: int,
    lba: int,
    done: int,
    found: Seq<PartitionView>,
) -> Result<Seq<PartitionView>, ErrorView> {
    mbr::chain::<ImageSectors>(
        image,
        base as u64,
        limit as u64,
        image.sector_size,
        lba as u64,
        (5 + done) as u32,
        found,
    ).0
}

/// `read` is `found` with partitions behind it that lie where `parts` do.
spec fn gains(
    read: Result<Seq<PartitionView>, ErrorView>,
    found: Seq<PartitionView>,
    parts: Seq<PartitionView>,
) -> bool {
    &&& read is Ok
    &&& read->Ok_0.len() == found.len() + parts.len()
    &&& forall|i: int| 0 <= i < found.len() ==> #[trigger] read->Ok_0[i] == found[i]
    &&& forall|i: int|
        0 <= i < parts.len() ==> same_place(read->Ok_0[found.len() + i], #[trigger] parts[i])
}

proof fn one_more_is_gained(
    read: Result<Seq<PartitionView>, ErrorView>,
    found: Seq<PartitionView>,
    part: PartitionView,
    parts: Seq<PartitionView>,
)
    requires
        parts.len() > 0,
        same_place(part, parts[0]),
        gains(read, found.push(part), parts.subrange(1, parts.len() as int)),
    ensures
        gains(read, found, parts),
{
    let others = parts.subrange(1, parts.len() as int);
    assert forall|i: int| 0 <= i < parts.len() implies same_place(
        read->Ok_0[found.len() + i],
        #[trigger] parts[i],
    ) by {
        if i > 0 {
            assert(parts[i] == others[i - 1]);
        } else {
            assert(read->Ok_0[found.len() as int] == found.push(part)[found.len() as int]);
        }
    }
    assert forall|i: int| 0 <= i < found.len() implies #[trigger] read->Ok_0[i] == found[i] by {
        assert(found.push(part)[i] == found[i]);
    }
}

proof fn the_rest_of_a_chain_is_chained(
    image: ImageView,
    base: int,
    limit: int,
    lbas: Seq<int>,
    parts: Seq<PartitionView>,
    done: int,
)
    requires
        chained_from(image, base, limit, lbas, parts, done),
        lbas.len() > 1,
    ensures
        chained_from(
            image,
            base,
            limit,
            lbas.subrange(1, lbas.len() as int),
            parts.subrange(1, parts.len() as int),
            done + 1,
        ),
{
    let size = image.sector_size;
    let rest = lbas.subrange(1, lbas.len() as int);
    let others = parts.subrange(1, parts.len() as int);
    assert(rest.last() == lbas.last());
    assert forall|j: int| 0 < j < rest.len() implies slot_in_use(sector_at(image, rest[j - 1]), 1)
        && #[trigger] rest[j] == base + bytes::dword(sector_at(image, rest[j - 1]), 470) by {
        assert(rest[j] == lbas[j + 1]);
        assert(rest[j - 1] == lbas[j]);
    }
    assert forall|j: int| 0 <= j < others.len() implies (#[trigger] others[j]).index == 5 + (done
        + 1) + j && slot_describes(sector_at(image, rest[j]), 0, rest[j], size, others[j]) by {
        assert(others[j] == parts[j + 1]);
        assert(rest[j] == lbas[j + 1]);
    }
}

proof fn a_chain_that_holds_is_read(
    image: ImageView,
    base: u64,
    limit: u64,
    lbas: Seq<int>,
    parts: Seq<PartitionView>,
    done: int,
    found: Seq<PartitionView>,
)
    requires
        0 <= done < 128,
        base <= limit <= 0x2_0000_0000,
        chained_from(image, base as int, limit as int, lbas, parts, done),
    ensures
        gains(
            chain_read(image, base as int, limit as int, lbas[0], done, found),
            found,
            parts,
        ),
    decreases lbas.len(),
{
    assert(base <= lbas[0] < limit);
    let part = an_ebr_is_read(image, base, limit, lbas[0] as u64, done, found);
    if parts.len() > 0 {
        assert(parts[0].index == 5 + done);
        assert(same_place(part, parts[0]));
        if lbas.len() > 1 {
            assert(lbas[1] == base + bytes::dword(sector_at(image, lbas[0]), 470));
            the_rest_of_a_chain_is_chained(image, base as int, limit as int, lbas, parts, done);
            a_chain_that_holds_is_read(
                image,
                base,
                limit,
                lbas.subrange(1, lbas.len() as int),
                parts.subrange(1, parts.len() as int),
                done + 1,
                found.push(part),
            );
            one_more_is_gained(
                chain_read(image, base as int, limit as int, lbas[0], done, found),
                found,
                part,
                parts,
            );
        }
    }
}

/// An MBR that is read is signed, lists every primary slot that is in use and no
/// other, each where its bytes put it and as long as they say, and after them
/// the partitions of the chain its one container holds.
#[verifier::rlimit(60)]
pub proof fn an_mbr_is_what_its_bytes_say(image: ImageView)
    ensures
        mbr::table::<ImageSectors>(image).0 matches Ok(table) ==> {
            let sector0 = sector_at(image, 0);
            &&& on_image(image, 0)
            &&& signed(sector0)
            &&& exists|n: int|
                {
                    &&& 0 <= n <= table.partitions.len()
                    &&& lists_slots(
                        sector0,
                        image.sector_size,
                        #[trigger] table.partitions.subrange(0, n),
                        4,
                    )
                    &&& (forall|k: int| 0 <= k < 4 ==> !#[trigger] slot_extends(sector0, k)) ==> n
                        == table.partitions.len()
                    &&& forall|k: int|
                        0 <= k < 4 && #[trigger] slot_extends(sector0, k) ==> exists|
                            lbas: Seq<int>,
                        | #[trigger]
                            chained(
                                image,
                                bytes::dword(sector0, 446 + 16 * k + 8),
                                bytes::dword(sector0, 446 + 16 * k + 8) + bytes::dword(
                                    sector0,
                                    446 + 16 * k + 12,
                                ),
                                lbas,
                                table.partitions.subrange(n, table.partitions.len() as int),
                            )
                }
        },
{
    let read = mbr::table::<ImageSectors>(image).0;
    if let Ok(table) = read {
        let size = image.sector_size;
        an_image_gives_the_bytes_that_are_there(image, 0, 1);
        an_image_gives_its_sectors(image, 0);
        let sector0 = sector_at(image, 0);
        a_sector_is_signed_by_its_last_bytes(sector0);
        primaries_list_the_slots(sector0, size, 0, Seq::empty(), None);
        let (found, extended) = mbr::primaries(sector0, size, 0, Seq::empty(), None)->Ok_0;
        let n = found.len() as int;
        if let Some(entry) = extended {
            let k = choose|k: int|
                0 <= k < 4 && #[trigger] slot_extends(sector0, k) && mbr::entry_in(sector0, k)
                    == Some(entry);
            bytes::a_field_keeps_every_bit(sector0, 446 + 16 * k + 8);
            bytes::a_field_keeps_every_bit(sector0, 446 + 16 * k + 12);
            let base = entry.start_lba as u64;
            let limit = (entry.start_lba + entry.sectors) as u64;
            let (lbas, parts) = a_chain_that_is_read_is_chained(image, base, limit, base, 0, found);
            assert(chained(image, base as int, limit as int, lbas, parts));
            assert(table.partitions == found + parts);
            assert(table.partitions.subrange(n, table.partitions.len() as int) =~= parts);
            assert forall|j: int| 0 <= j < 4 && #[trigger] slot_extends(sector0, j) implies j
                == k by {
                if j < k {
                    assert(slot_extends(sector0, j) && slot_extends(sector0, k));
                } else if k < j {
                    assert(slot_extends(sector0, k) && slot_extends(sector0, j));
                }
            }
        }
        assert(table.partitions.subrange(0, n) =~= found);
        assert(lists_slots(sector0, size, table.partitions.subrange(0, n), 4));
    }
}

/// A signed sector with no container in it is a table.
pub proof fn a_signed_sector_is_an_mbr(image: ImageView)
    requires
        on_image(image, 0),
        signed(sector_at(image, 0)),
        forall|k: int| 0 <= k < 4 ==> !#[trigger] slot_extends(sector_at(image, 0), k),
    ensures
        mbr::table::<ImageSectors>(image).0 is Ok,
{
    an_image_gives_its_sectors(image, 0);
    let sector0 = sector_at(image, 0);
    a_sector_is_signed_by_its_last_bytes(sector0);
    primaries_list_the_slots(sector0, image.sector_size, 0, Seq::empty(), None);
}

/// A signed sector with one container, whose chain holds, is a table, and the
/// logical partitions of the chain stand in it as the chain has them.
#[verifier::rlimit(60)]
pub proof fn a_chain_of_logical_partitions_is_followed(
    image: ImageView,
    k: int,
    lbas: Seq<int>,
    parts: Seq<PartitionView>,
)
    requires
        on_image(image, 0),
        signed(sector_at(image, 0)),
        0 <= k < 4,
        slot_extends(sector_at(image, 0), k),
        forall|j: int| 0 <= j < 4 && j != k ==> !#[trigger] slot_extends(sector_at(image, 0), j),
        chained(
            image,
            bytes::dword(sector_at(image, 0), 446 + 16 * k + 8),
            bytes::dword(sector_at(image, 0), 446 + 16 * k + 8) + bytes::dword(
                sector_at(image, 0),
                446 + 16 * k + 12,
            ),
            lbas,
            parts,
        ),
    ensures
        mbr::table::<ImageSectors>(image).0 matches Ok(table) && {
            let n = table.partitions.len() - parts.len();
            &&& 0 <= n
            &&& forall|i: int| 0 <= i < n ==> (#[trigger] table.partitions[i]).index <= 4
            &&& forall|i: int|
                0 <= i < parts.len() ==> same_place(table.partitions[n + i], #[trigger] parts[i])
        },
{
    an_image_gives_its_sectors(image, 0);
    let sector0 = sector_at(image, 0);
    let size = image.sector_size;
    a_sector_is_signed_by_its_last_bytes(sector0);
    primaries_list_the_slots(sector0, size, 0, Seq::empty(), None);
    if mbr::primaries(sector0, size, 0, Seq::empty(), None) is Err {
        let (i, j) = choose|i: int, j: int|
            0 <= i < j < 4 && #[trigger] slot_extends(sector0, i) && #[trigger] slot_extends(
                sector0,
                j,
            );
        assert(i == k && j == k);
    }
    let (found, extended) = mbr::primaries(sector0, size, 0, Seq::empty(), None)->Ok_0;
    if extended is None {
        assert(!slot_extends(sector0, k));
    }
    let entry = extended->0;
    let j = choose|j: int|
        0 <= j < 4 && #[trigger] slot_extends(sector0, j) && mbr::entry_in(sector0, j) == Some(
            entry,
        );
    assert(j == k);
    bytes::a_field_keeps_every_bit(sector0, 446 + 16 * k + 8);
    bytes::a_field_keeps_every_bit(sector0, 446 + 16 * k + 12);
    let base = entry.start_lba as u64;
    let limit = (entry.start_lba + entry.sectors) as u64;
    assert(chained_from(image, base as int, limit as int, lbas, parts, 0));
    a_chain_that_holds_is_read(image, base, limit, lbas, parts, 0, found);
    let table = mbr::table::<ImageSectors>(image).0->Ok_0;
    assert forall|i: int| 0 <= i < found.len() implies (#[trigger] table.partitions[i]).index
        <= 4 by {
        assert(table.partitions[i] == found[i]);
    }
}

/// Two containers are never a table.
pub proof fn two_containers_are_refused(image: ImageView, i: int, j: int)
    requires
        0 <= i < j < 4,
        slot_extends(sector_at(image, 0), i),
        slot_extends(sector_at(image, 0), j),
    ensures
        mbr::table::<ImageSectors>(image).0 is Err,
{
    if mbr::table::<ImageSectors>(image).0 is Ok {
        an_image_gives_the_bytes_that_are_there(image, 0, 1);
        an_image_gives_its_sectors(image, 0);
        let sector0 = sector_at(image, 0);
        a_sector_is_signed_by_its_last_bytes(sector0);
        primaries_list_the_slots(sector0, image.sector_size, 0, Seq::empty(), None);
        assert(slot_extends(sector0, i) && slot_extends(sector0, j));
    }
}

/// Whatever an MBR is read from, its primaries are those that the sector at LBA
/// 0 describes; a sector without a container describes all there is.
pub proof fn an_mbr_is_listed_from_its_sector<S: Sectors>(medium: S::Medium)
    requires
        S::sector_bytes(medium) <= 4_194_304,
        S::serve(medium, 0, 1).0 matches Ok(sector0) ==> sector0.len() == S::sector_bytes(medium),
    ensures
        ({
            let (read, after) = S::serve(medium, 0, 1);
            let table = mbr::table::<S>(medium).0;
            match read {
                Err(err) => table is Err && table->Err_0 == err,
                Ok(sector0) => {
                    let size = S::sector_bytes(medium);
                    let plain = forall|k: int|
                        0 <= k < 4 ==> !#[trigger] slot_extends(sector0, k);
                    &&& !signed(sector0) ==> table is Err
                    &&& signed(sector0) && plain ==> {
                        &&& table is Ok
                        &&& lists_slots(sector0, size, table->Ok_0.partitions, 4)
                        &&& mbr::table::<S>(medium).1 == after
                    }
                },
            }
        }),
{
    if let Ok(sector0) = S::serve(medium, 0, 1).0 {
        a_sector_is_signed_by_its_last_bytes(sector0);
        if signed(sector0) {
            primaries_list_the_slots(sector0, S::sector_bytes(medium), 0, Seq::empty(), None);
        }
    }
}

} // verus!
