//! What a search for a PIT guarantees: where a find lies, what it cost, and
//! which copy answers.

use vstd::prelude::*;

use crate::bytes;
use crate::error::ErrorView;
use crate::parts;
use crate::parts::gaps;
use crate::parts::{Gap, ImageSectors, ImageView, PartitionView, Sectors, MAX_READ_BYTES};
use crate::pit;
use crate::pit::{Allowance, FoundView, Search};
use crate::transfer;

verus! {

/// A search is offered the whole sectors of a gap.
pub open spec fn covers(gap: Gap, sector: u32, offset: int) -> bool {
    &&& offset % sector as int == 0
    &&& gap.start <= offset
    &&& offset + sector <= gap.end
}

/// How much of a gap the next read takes: at least a sector where one can be
/// afforded.
proof fn a_block_fits_its_gap(room: int, left: Option<u64>, sector: u32)
    requires
        0 < sector,
        0 < room,
        room % sector as int == 0,
        left matches Some(left) ==> sector <= left,
    ensures
        ({
            let len = pit::block_len(room, left, sector);
            &&& sector <= room
            &&& 0 <= len <= room
            &&& len <= MAX_READ_BYTES
            &&& left matches Some(left) ==> len <= left
            &&& len % sector as int == 0
            &&& len / sector as int * sector == len
            &&& 0 <= len / sector as int <= len
            &&& sector <= MAX_READ_BYTES ==> len > 0
        }),
{
    let most = if room < MAX_READ_BYTES {
        room
    } else {
        MAX_READ_BYTES as int
    };
    let most = match left {
        Some(left) => if most < left {
            most
        } else {
            left as int
        },
        None => most,
    };
    let q = room / sector as int;
    vstd::arithmetic::div_mod::lemma_fundamental_div_mod(room, sector as int);
    assert(room >= sector) by (nonlinear_arith)
        requires
            room == sector * q,
            room > 0,
            sector > 0,
    ;
    pit::whole_sectors_below(most, sector as int);
    vstd::arithmetic::div_mod::lemma_mod_bound(most, sector as int);
    let len = most - most % sector as int;
    let n = len / sector as int;
    assert(n <= len) by (nonlinear_arith)
        requires
            n * sector == len,
            n >= 0,
            sector > 0,
    ;
}

proof fn a_block_finds_where_it_looks<S: Sectors>(
    search: Search<S::Medium>,
    block: Seq<u8>,
    from: u64,
    sector: u32,
    reverse: bool,
    count: int,
    k: int,
)
    requires
        sector > 0,
        0 <= k,
        from as int % sector as int == 0,
        from + count * sector <= u64::MAX,
    ensures
        pit::block_from::<S>(search, block, from, sector, reverse, count, k).0 matches Some(
            found,
        ) ==> {
            &&& from <= found.offset
            &&& found.offset + sector <= from + count * sector
            &&& found.offset as int % sector as int == 0
        },
    decreases count - k,
{
    if k < count {
        let i = if reverse {
            count - 1 - k
        } else {
            k
        };
        let at = i * sector;
        assert(0 <= at && at + sector <= count * sector) by (nonlinear_arith)
            requires
                at == i * sector,
                0 <= i < count,
                sector > 0,
        ;
        vstd::arithmetic::div_mod::lemma_mod_multiples_basic(i, sector as int);
        pit::whole_sectors_apart(from as int, at, sector as int);
        a_block_finds_where_it_looks::<S>(search, block, from, sector, reverse, count, k + 1);
        let (_, after) = pit::candidate::<S>(search, block, from, sector, at);
        a_block_finds_where_it_looks::<S>(after, block, from, sector, reverse, count, k + 1);
    }
}

proof fn a_gap_finds_where_it_looks<S: Sectors>(
    search: Search<S::Medium>,
    start: int,
    end: int,
    reverse: bool,
    sector: u32,
    at: int,
)
    requires
        sector > 0,
        0 <= start <= at <= end <= u64::MAX,
        start % sector as int == 0,
        at % sector as int == 0,
        end % sector as int == 0,
    ensures
        pit::gap_from::<S>(search, start, end, reverse, sector, at).0 matches Ok(Some(found)) ==> {
            &&& start <= found.offset
            &&& found.offset + sector <= end
            &&& found.offset as int % sector as int == 0
        },
    decreases
            if reverse {
                at - start
            } else {
                end - at
            },
{
    reveal(pit::gap_from);
    let room = if reverse {
        at - start
    } else {
        end - at
    };
    let len = pit::block_len(room, search.may.left, sector);
    let from = if reverse {
        at - len
    } else {
        at
    };
    if search.may.affords(sector as int) && room > 0 {
        pit::whole_sectors_apart(end, at, sector as int);
        pit::whole_sectors_apart(at, start, sector as int);
        a_block_fits_its_gap(room, search.may.left, sector);
        pit::whole_sectors_apart(at, len, sector as int);
        let (read, medium) = S::serve(
            search.medium,
            (from / sector as int) as u64,
            (len / sector as int) as u64,
        );
        let search = Search { medium, may: search.may.passed(len) };
        if let Ok(block) = read {
            let count = len / sector as int;
            a_block_finds_where_it_looks::<S>(
                search,
                block,
                from as u64,
                sector,
                reverse,
                count,
                0,
            );
            let (hit, after) = pit::block_from::<S>(
                search,
                block,
                from as u64,
                sector,
                reverse,
                count,
                0,
            );
            if hit is None && len > 0 {
                let next = if reverse {
                    from
                } else {
                    at + len
                };
                a_gap_finds_where_it_looks::<S>(after, start, end, reverse, sector, next);
            }
        }
    }
}

/// The whole sectors of a gap are those between its rounded ends.
proof fn a_gap_offers_its_whole_sectors(gap: Gap, sector: u32)
    requires
        sector > 0,
    ensures
        ({
            let start = transfer::rounded_up(gap.start as int, sector as int);
            let end = gap.end - gap.end as int % sector as int;
            &&& gap.start <= start
            &&& 0 <= end <= gap.end
            &&& start % sector as int == 0
            &&& end % sector as int == 0
            &&& forall|o: int| #[trigger]
                covers(gap, sector, o) <==> o % sector as int == 0 && start <= o < end
        }),
{
    let s = sector as int;
    let start = transfer::rounded_up(gap.start as int, s);
    let end = gap.end - gap.end as int % s;
    transfer::rounding_up_finds_the_least_multiple(gap.start as int, s);
    pit::whole_sectors_below(gap.end as int, s);
    vstd::arithmetic::div_mod::lemma_mod_bound(gap.end as int, s);
    assert forall|o: int| #[trigger] covers(gap, sector, o) <==> o % s == 0 && start <= o < end by {
        if o % s == 0 {
            if o != end {
                assert(0 * s == 0) by (nonlinear_arith);
                one_sector_at_a_time(end, s, 0, o);
            }
        }
    }
}

/// A find lies in one of the gaps.
pub open spec fn lies_in_a_gap(gaps: Seq<Gap>, sector: u32, offset: int) -> bool {
    exists|g: int| 0 <= g < gaps.len() && covers(#[trigger] gaps[g], sector, offset)
}

proof fn gaps_find_where_they_look<S: Sectors>(
    search: Search<S::Medium>,
    gaps: Seq<Gap>,
    sector: u32,
    g: int,
)
    requires
        sector > 0,
        0 <= g,
    ensures
        pit::gaps_from::<S>(search, gaps, sector, g).0 matches Ok(Some(found)) ==> lies_in_a_gap(
            gaps,
            sector,
            found.offset as int,
        ),
    decreases gaps.len() - g,
{
    if g < gaps.len() {
        let start = transfer::rounded_up(gaps[g].start as int, sector as int);
        let end = gaps[g].end - gaps[g].end as int % sector as int;
        a_gap_offers_its_whole_sectors(gaps[g], sector);
        if end <= start {
            gaps_find_where_they_look::<S>(search, gaps, sector, g + 1);
        } else {
            let at = if gaps[g].reverse {
                end
            } else {
                start
            };
            a_gap_finds_where_it_looks::<S>(search, start, end, gaps[g].reverse, sector, at);
            let (hit, after) = pit::gap_from::<S>(
                search,
                start,
                end,
                gaps[g].reverse,
                sector,
                at,
            );
            if let Ok(Some(found)) = hit {
                assert(covers(gaps[g], sector, found.offset as int));
            } else {
                gaps_find_where_they_look::<S>(after, gaps, sector, g + 1);
            }
        }
    }
}

/// What a search reports lies on a whole sector of the space it was told to
/// search, whatever it searches and whatever it may cost.
pub proof fn a_find_lies_in_a_gap<S: Sectors>(
    medium: S::Medium,
    gaps: Seq<Gap>,
    budget: Option<u64>,
)
    ensures
        pit::searched::<S>(medium, gaps, budget).0 matches Ok(found) ==> lies_in_a_gap(
            gaps,
            S::sector_bytes(medium),
            found.offset as int,
        ),
{
    let sector = S::sector_bytes(medium);
    if sector > 0 {
        let may = Allowance { left: budget, spent: false, read: 0 };
        gaps_find_where_they_look::<S>(Search { medium, may }, gaps, sector, 0);
    }
}

/// A find in what a table leaves over lies in no partition of it, not by a byte
/// of its first sector.
pub proof fn a_find_lies_in_no_partition<S: Sectors>(
    medium: S::Medium,
    partitions: Seq<PartitionView>,
    device_size: Option<u64>,
    budget: Option<u64>,
)
    ensures
        pit::searched::<S>(medium, gaps::space_between(partitions, device_size), budget).0 matches
            Ok(found) ==> forall|at: int|
            found.offset <= at < found.offset + S::sector_bytes(medium)
                ==> !#[trigger] gaps::covered(partitions, at),
{
    let space = gaps::space_between(partitions, device_size);
    let sector = S::sector_bytes(medium);
    a_find_lies_in_a_gap::<S>(medium, space, budget);
    if let Ok(found) = pit::searched::<S>(medium, space, budget).0 {
        assert forall|at: int| found.offset <= at < found.offset + sector implies
            !#[trigger] gaps::covered(partitions, at) by {
            let g = choose|g: int|
                0 <= g < space.len() && covers(#[trigger] space[g], sector, found.offset as int);
            assert(space[g].start <= at < space[g].end);
            assert(gaps::in_a_gap(space, at));
            gaps::a_gap_lies_in_no_partition(partitions, device_size, at);
        }
    }
}

/// Without a budget, a hit is read as reading at its own offset would read it:
/// the same reads of the medium, and the same table if there is one.
pub proof fn a_hit_is_read_where_it_stands<S: Sectors>(
    search: Search<S::Medium>,
    block: Seq<u8>,
    from: u64,
    sector: u32,
    at: int,
)
    requires
        sector == S::sector_bytes(search.medium),
        sector > 0,
        0 <= at,
        from + at <= u64::MAX,
        (from + at) % sector as int == 0,
        search.may.left is None,
        !search.may.spent,
    ensures
        ({
            let (read, after) = pit::candidate::<S>(search, block, from, sector, at);
            let (table, medium) = pit::table_at::<S>(search.medium, (from + at) as u64);
            &&& read == table.ok()
            &&& after == (Search { medium, may: search.may })
        }),
{
}

/// A count of bytes read: it grows by no more than each read asks for.
pub open spec fn counts_reads<S: Sectors>(tally: spec_fn(S::Medium) -> int) -> bool {
    forall|medium: S::Medium, lba: u64, count: u64|
        {
            let after = (#[trigger] S::serve(medium, lba, count)).1;
            &&& tally(after) <= tally(medium) + count * S::sector_bytes(medium)
            &&& S::sector_bytes(after) == S::sector_bytes(medium)
        }
}

/// What was read since is paid for out of what was left.
spec fn paid<S: Sectors>(
    tally: spec_fn(S::Medium) -> int,
    before: Search<S::Medium>,
    after: Search<S::Medium>,
) -> bool {
    &&& S::sector_bytes(after.medium) == S::sector_bytes(before.medium)
    &&& before.may.left matches Some(had) ==> {
        &&& after.may.left is Some
        &&& tally(after.medium) + after.may.left->0 <= tally(before.medium) + had
    }
}

proof fn gathering_is_paid_for<S: Sectors>(
    tally: spec_fn(S::Medium) -> int,
    search: Search<S::Medium>,
    block: Seq<u8>,
    from: u64,
    sector: u32,
    at: int,
    len: int,
)
    requires
        counts_reads::<S>(tally),
        sector == S::sector_bytes(search.medium),
    ensures
        paid::<S>(
            tally,
            search,
            pit::gathered::<S>(search, block, from, sector, at, len).1,
        ),
{
    let count = pit::sectors_for(len, sector);
    let _ = S::serve(search.medium, ((from + at) / sector as int) as u64, count);
    assert(0 <= count * sector) by (nonlinear_arith)
        requires
            count >= 0,
            sector >= 0,
    ;
}

proof fn a_block_is_paid_for<S: Sectors>(
    tally: spec_fn(S::Medium) -> int,
    search: Search<S::Medium>,
    block: Seq<u8>,
    from: u64,
    sector: u32,
    reverse: bool,
    count: int,
    k: int,
)
    requires
        counts_reads::<S>(tally),
        sector == S::sector_bytes(search.medium),
    ensures
        paid::<S>(
            tally,
            search,
            pit::block_from::<S>(search, block, from, sector, reverse, count, k).1,
        ),
    decreases count - k,
{
    if k < count && !search.may.spent {
        let i = if reverse {
            count - 1 - k
        } else {
            k
        };
        let at = i * sector;
        let (head, held) = pit::gathered::<S>(
            search,
            block,
            from,
            sector,
            at,
            pit::HEADER_LEN as int,
        );
        gathering_is_paid_for::<S>(
            tally,
            search,
            block,
            from,
            sector,
            at,
            pit::HEADER_LEN as int,
        );
        if head is Some && pit::announced(head->0) is Ok {
            let needed = pit::announced(head->0)->Ok_0;
            gathering_is_paid_for::<S>(tally, held, block, from, sector, at, needed as int);
        }
        let (_, after) = pit::candidate::<S>(search, block, from, sector, at);
        assert(paid::<S>(tally, search, after));
        a_block_is_paid_for::<S>(tally, search, block, from, sector, reverse, count, k + 1);
        a_block_is_paid_for::<S>(tally, after, block, from, sector, reverse, count, k + 1);
    }
}

proof fn a_gap_is_paid_for<S: Sectors>(
    tally: spec_fn(S::Medium) -> int,
    search: Search<S::Medium>,
    start: int,
    end: int,
    reverse: bool,
    sector: u32,
    at: int,
)
    requires
        counts_reads::<S>(tally),
        sector == S::sector_bytes(search.medium),
        sector > 0,
        0 <= start <= at <= end <= u64::MAX,
        start % sector as int == 0,
        at % sector as int == 0,
        end % sector as int == 0,
    ensures
        paid::<S>(
            tally,
            search,
            pit::gap_from::<S>(search, start, end, reverse, sector, at).1,
        ),
    decreases
            if reverse {
                at - start
            } else {
                end - at
            },
{
    reveal(pit::gap_from);
    let room = if reverse {
        at - start
    } else {
        end - at
    };
    let len = pit::block_len(room, search.may.left, sector);
    let from = if reverse {
        at - len
    } else {
        at
    };
    if search.may.affords(sector as int) && room > 0 {
        pit::whole_sectors_apart(end, at, sector as int);
        pit::whole_sectors_apart(at, start, sector as int);
        a_block_fits_its_gap(room, search.may.left, sector);
        pit::whole_sectors_apart(at, len, sector as int);
        let count = len / sector as int;
        let (read, medium) = S::serve(
            search.medium,
            (from / sector as int) as u64,
            count as u64,
        );
        let next = Search { medium, may: search.may.passed(len) };
        assert(paid::<S>(tally, search, next));
        if let Ok(block) = read {
            a_block_is_paid_for::<S>(tally, next, block, from as u64, sector, reverse, count, 0);
            let (hit, after) = pit::block_from::<S>(
                next,
                block,
                from as u64,
                sector,
                reverse,
                count,
                0,
            );
            if hit is None && len > 0 {
                let at = if reverse {
                    from
                } else {
                    at + len
                };
                a_gap_is_paid_for::<S>(tally, after, start, end, reverse, sector, at);
            }
        }
    }
}

proof fn gaps_are_paid_for<S: Sectors>(
    tally: spec_fn(S::Medium) -> int,
    search: Search<S::Medium>,
    gaps: Seq<Gap>,
    sector: u32,
    g: int,
)
    requires
        counts_reads::<S>(tally),
        sector == S::sector_bytes(search.medium),
        sector > 0,
        0 <= g,
    ensures
        paid::<S>(tally, search, pit::gaps_from::<S>(search, gaps, sector, g).1),
    decreases gaps.len() - g,
{
    if g < gaps.len() {
        let start = transfer::rounded_up(gaps[g].start as int, sector as int);
        let end = gaps[g].end - gaps[g].end as int % sector as int;
        a_gap_offers_its_whole_sectors(gaps[g], sector);
        if end <= start {
            gaps_are_paid_for::<S>(tally, search, gaps, sector, g + 1);
        } else {
            let at = if gaps[g].reverse {
                end
            } else {
                start
            };
            a_gap_is_paid_for::<S>(tally, search, start, end, gaps[g].reverse, sector, at);
            let (_, after) = pit::gap_from::<S>(
                search,
                start,
                end,
                gaps[g].reverse,
                sector,
                at,
            );
            gaps_are_paid_for::<S>(tally, after, gaps, sector, g + 1);
        }
    }
}

/// The budget is kept: however the bytes read from a medium are counted, a
/// search adds no more than it to the count, the reads that try a hit among
/// them, and whether or not it finds anything.
pub proof fn a_search_keeps_its_budget<S: Sectors>(
    tally: spec_fn(S::Medium) -> int,
    medium: S::Medium,
    gaps: Seq<Gap>,
    budget: u64,
)
    requires
        counts_reads::<S>(tally),
    ensures
        tally(pit::searched::<S>(medium, gaps, Some(budget)).1) <= tally(medium) + budget,
{
    let sector = S::sector_bytes(medium);
    if sector > 0 {
        let may = Allowance { left: Some(budget), spent: false, read: 0 };
        gaps_are_paid_for::<S>(tally, Search { medium, may }, gaps, sector, 0);
    }
}

/// True when no table can be read at `offset` of an image.
pub open spec fn bare(image: ImageView, offset: int) -> bool {
    pit::table_at::<ImageSectors>(image, offset as u64).0 is Err
}

/// A sector of an image that does not open with the magic holds no table.
proof fn an_image_is_bare_where_unmarked(image: ImageView, offset: u64)
    requires
        image.sector_size >= 4,
        offset as int % image.sector_size as int == 0,
        offset + 4 <= image.data.len(),
    ensures
        bytes::le32(image.data, offset as int) != pit::MAGIC ==> bare(image, offset as int),
{
    let sector = image.sector_size;
    let lba = (offset as int / sector as int) as u64;
    pit::whole_sectors_apart(offset as int, 0, sector as int);
    assert(offset as int / sector as int <= offset) by (nonlinear_arith)
        requires
            sector > 0,
            offset >= 0,
    ;
    let (read, after) = ImageSectors::serve(
        image,
        lba,
        pit::sectors_for(pit::HEADER_LEN as int, sector),
    );
    if let Ok(head) = read {
        let run = parts::spanned(sector, lba, pit::sectors_for(pit::HEADER_LEN as int, sector));
        if let Ok((start, len)) = run {
            assert(start == offset);
            if head.len() >= pit::HEADER_LEN {
                assert(bytes::le32(head, 0) == bytes::le32(image.data, offset as int));
            }
        }
    }
}

/// What a block of an image holds is what reading the image again would give.
proof fn a_block_of_an_image_saves_a_read(
    image: ImageView,
    may: Allowance,
    block: Seq<u8>,
    from: u64,
    at: int,
    len: int,
)
    requires
        image.sector_size > 0,
        from as int % image.sector_size as int == 0,
        at % image.sector_size as int == 0,
        0 <= at,
        block.len() <= MAX_READ_BYTES,
        from + at <= u64::MAX,
        from + block.len() <= image.data.len() <= u64::MAX,
        block == image.data.subrange(from as int, from + block.len()),
        0 < len <= 0xFFFF_FFFF,
        !may.spent,
    ensures
        ({
            let (given, after) = pit::gathered::<ImageSectors>(
                Search { medium: image, may },
                block,
                from,
                image.sector_size,
                at,
                len,
            );
            let read = ImageSectors::serve(
                image,
                ((from + at) / image.sector_size as int) as u64,
                pit::sectors_for(len, image.sector_size),
            ).0;
            &&& after.medium == image
            &&& after.may.left is None <==> may.left is None
            &&& may.left is None ==> !after.may.spent
            &&& given is Some ==> !after.may.spent
            &&& !after.may.spent ==> given == read.ok()
        }),
{
    let sector = image.sector_size as int;
    let lba = (from + at) / sector;
    let run = pit::sectors_for(len, image.sector_size) * sector;
    pit::whole_sectors_hold(len, image.sector_size);
    pit::whole_sectors_apart(from as int, at, sector);
    pit::whole_sectors_apart(from + at, 0, sector);
    assert(0 <= lba <= from + at) by (nonlinear_arith)
        requires
            lba * sector == from + at,
            from + at >= 0,
            sector > 0,
    ;
    if at + run <= block.len() {
        assert(block.subrange(at, at + run) =~= image.data.subrange(from + at, from + at + run));
    }
}

/// A hit in a block of an image reads as it would on its own.
proof fn a_candidate_reads_as_on_its_own(
    image: ImageView,
    may: Allowance,
    block: Seq<u8>,
    from: u64,
    at: int,
)
    requires
        image.sector_size > 0,
        from as int % image.sector_size as int == 0,
        at % image.sector_size as int == 0,
        0 <= at,
        block.len() <= MAX_READ_BYTES,
        from + at <= u64::MAX,
        from + block.len() <= image.data.len() <= u64::MAX,
        block == image.data.subrange(from as int, from + block.len()),
        !may.spent,
    ensures
        ({
            let (read, after) = pit::candidate::<ImageSectors>(
                Search { medium: image, may },
                block,
                from,
                image.sector_size,
                at,
            );
            &&& after.medium == image
            &&& after.may.left is None <==> may.left is None
            &&& may.left is None ==> !after.may.spent
            &&& match read {
                Some(table) => pit::table_at::<ImageSectors>(image, (from + at) as u64).0 == Ok::<
                    pit::PitView,
                    ErrorView,
                >(table),
                None => after.may.spent || bare(image, from + at),
            }
        }),
{
    pit::whole_sectors_apart(from as int, at, image.sector_size as int);
    a_block_of_an_image_saves_a_read(image, may, block, from, at, pit::HEADER_LEN as int);
    let (head, after) = pit::gathered::<ImageSectors>(
        Search { medium: image, may },
        block,
        from,
        image.sector_size,
        at,
        pit::HEADER_LEN as int,
    );
    if head is Some && pit::announced(head->0) is Ok {
        let needed = pit::announced(head->0)->Ok_0;
        a_block_of_an_image_saves_a_read(image, after.may, block, from, at, needed as int);
    }
}

/// The offsets of a block a search has been past once it has tried `k` sectors.
spec fn tried(from: int, sector: int, reverse: bool, count: int, k: int, offset: int) -> bool {
    &&& offset % sector == 0
    &&& if reverse {
        from + (count - k) * sector <= offset < from + count * sector
    } else {
        from <= offset < from + k * sector
    }
}

#[verifier::rlimit(60)]
proof fn a_block_passes_over_nothing(
    image: ImageView,
    may: Allowance,
    block: Seq<u8>,
    from: u64,
    reverse: bool,
    count: int,
    k: int,
)
    requires
        image.sector_size >= 4,
        0 <= k <= count,
        from as int % image.sector_size as int == 0,
        count * image.sector_size <= MAX_READ_BYTES,
        from + count * image.sector_size <= image.data.len(),
        image.data.len() <= u64::MAX,
        block == image.data.subrange(from as int, from + count * image.sector_size),
        !may.spent,
        forall|o: int| #[trigger]
            tried(from as int, image.sector_size as int, reverse, count, k, o) ==> bare(image, o),
    ensures
        ({
            let sector = image.sector_size;
            let (hit, after) = pit::block_from::<ImageSectors>(
                Search { medium: image, may },
                block,
                from,
                sector,
                reverse,
                count,
                k,
            );
            let end = from + count * sector;
            &&& after.medium == image
            &&& after.may.left is None <==> may.left is None
            &&& may.left is None ==> !after.may.spent
            &&& match hit {
                None => after.may.spent || forall|o: int|
                    from <= o < end && #[trigger] (o % sector as int) == 0 ==> bare(image, o),
                Some(found) => {
                    &&& from <= found.offset < end
                    &&& found.offset as int % sector as int == 0
                    &&& pit::table_at::<ImageSectors>(image, found.offset).0 == Ok::<
                        pit::PitView,
                        ErrorView,
                    >(found.pit)
                    &&& forall|o: int|
                        #![trigger o % sector as int]
                        o % sector as int == 0 && (if reverse {
                            found.offset < o < end
                        } else {
                            from <= o < found.offset
                        }) ==> bare(image, o)
                },
            }
        }),
    decreases count - k,
{
    let sector = image.sector_size as int;
    if k < count {
        let i = if reverse {
            count - 1 - k
        } else {
            k
        };
        let at = i * image.sector_size;
        assert(0 <= at && at + sector <= count * sector) by (nonlinear_arith)
            requires
                at == i * sector,
                0 <= i < count,
                sector > 0,
        ;
        let offset = (from + at) as u64;
        vstd::arithmetic::div_mod::lemma_mod_multiples_basic(i, sector);
        pit::whole_sectors_apart(from as int, at, sector);
        an_image_is_bare_where_unmarked(image, offset);
        a_candidate_reads_as_on_its_own(image, may, block, from, at);
        assert(bytes::le32(block, at) == bytes::le32(image.data, offset as int));
        let (read, after) = pit::candidate::<ImageSectors>(
            Search { medium: image, may },
            block,
            from,
            image.sector_size,
            at,
        );
        let marked = pit::marked(block, at);
        assert forall|o: int| tried(from as int, sector, reverse, count, k + 1, o) && o
            != offset implies #[trigger] tried(from as int, sector, reverse, count, k, o) by {
            one_sector_at_a_time(from as int, sector, i, o);
            assert((count - k) * sector == (count - 1 - k) * sector + sector) by (nonlinear_arith);
            assert((k + 1) * sector == k * sector + sector) by (nonlinear_arith);
        }
        if bare(image, offset as int) {
            assert forall|o: int| #[trigger]
                tried(from as int, sector, reverse, count, k + 1, o) implies bare(image, o) by {
                if o != offset {
                    assert(tried(from as int, sector, reverse, count, k, o));
                }
            }
            if !marked {
                a_block_passes_over_nothing(image, may, block, from, reverse, count, k + 1);
            } else if !after.may.spent {
                a_block_passes_over_nothing(image, after.may, block, from, reverse, count, k + 1);
            }
        } else {
            assert forall|o: int|
                #![trigger o % sector as int]
                o % sector as int == 0 && (if reverse {
                    offset < o < from + count * sector
                } else {
                    from <= o < offset
                }) implies bare(image, o) by {
                one_sector_at_a_time(from as int, sector, i, o);
                assert((count - k) * sector == (count - 1 - k) * sector + sector)
                    by (nonlinear_arith);
                assert(tried(from as int, sector, reverse, count, k, o));
            }
        }
    } else {
        assert(0 * sector == 0) by (nonlinear_arith);
        assert forall|o: int|
            from <= o < from + count * sector && #[trigger] (o % sector) == 0 implies bare(
            image,
            o,
        ) by {
            assert((count - k) * sector == 0) by (nonlinear_arith)
                requires
                    k == count,
            ;
            assert(tried(from as int, sector, reverse, count, k, o));
        }
    }
}

/// An aligned offset other than that of sector `i` is a whole sector away.
proof fn one_sector_at_a_time(from: int, sector: int, i: int, o: int)
    requires
        sector > 0,
        from % sector == 0,
        o % sector == 0,
        o != from + i * sector,
    ensures
        o <= from + i * sector - sector || o >= from + i * sector + sector,
{
    vstd::arithmetic::div_mod::lemma_fundamental_div_mod(from, sector);
    vstd::arithmetic::div_mod::lemma_fundamental_div_mod(o, sector);
    let p = from / sector;
    let q = o / sector;
    let d = q - p - i;
    assert(o - from - i * sector == d * sector) by (nonlinear_arith)
        requires
            from == sector * p,
            o == sector * q,
            d == q - p - i,
    ;
    assert(d != 0) by {
        if d == 0 {
            assert(d * sector == 0) by (nonlinear_arith)
                requires
                    d == 0,
            ;
        }
    }
    assert(d * sector <= -sector || d * sector >= sector) by (nonlinear_arith)
        requires
            d != 0,
            sector > 0,
    ;
}

/// An image serves any run of whole sectors that it holds.
proof fn an_image_serves_what_it_holds(image: ImageView, from: int, len: int)
    requires
        0 < image.sector_size,
        0 <= from,
        0 < len <= MAX_READ_BYTES,
        from + len <= image.data.len() <= u64::MAX,
        from % image.sector_size as int == 0,
        len % image.sector_size as int == 0,
    ensures
        ImageSectors::serve(
            image,
            (from / image.sector_size as int) as u64,
            (len / image.sector_size as int) as u64,
        ) == (Ok::<Seq<u8>, ErrorView>(image.data.subrange(from, from + len)), image),
{
    let sector = image.sector_size as int;
    let lba = from / sector;
    let count = len / sector;
    pit::whole_sectors_apart(from, len, sector);
    assert(0 <= lba <= from) by (nonlinear_arith)
        requires
            lba == from / sector,
            from >= 0,
            sector > 0,
    ;
    assert(0 <= count <= len) by (nonlinear_arith)
        requires
            count == len / sector,
            len >= 0,
            sector > 0,
    ;
}

#[verifier::rlimit(60)]
proof fn a_gap_passes_over_nothing(
    search: Search<ImageView>,
    start: int,
    end: int,
    reverse: bool,
    at: int,
)
    requires
        4 <= search.medium.sector_size <= MAX_READ_BYTES,
        0 <= start <= at <= end <= search.medium.data.len(),
        search.medium.data.len() <= u64::MAX,
        start % search.medium.sector_size as int == 0,
        at % search.medium.sector_size as int == 0,
        end % search.medium.sector_size as int == 0,
        forall|o: int| #[trigger]
            (o % search.medium.sector_size as int) == 0 && (if reverse {
                at <= o < end
            } else {
                start <= o < at
            }) ==> bare(search.medium, o),
    ensures
        ({
            let image = search.medium;
            let sector = image.sector_size;
            let (hit, after) = pit::gap_from::<ImageSectors>(
                search,
                start,
                end,
                reverse,
                sector,
                at,
            );
            &&& after.medium == image
            &&& after.may.left is None <==> search.may.left is None
            &&& search.may.left is None && !search.may.spent ==> !after.may.spent
            &&& match hit {
                Err(_) => false,
                Ok(None) => !after.may.affords(sector as int) || forall|o: int|
                    start <= o < end && #[trigger] (o % sector as int) == 0 ==> bare(image, o),
                Ok(Some(found)) => {
                    &&& start <= found.offset < end
                    &&& found.offset as int % sector as int == 0
                    &&& pit::table_at::<ImageSectors>(image, found.offset).0 == Ok::<
                        pit::PitView,
                        ErrorView,
                    >(found.pit)
                    &&& forall|o: int|
                        #![trigger o % sector as int]
                        o % sector as int == 0 && (if reverse {
                            found.offset < o < end
                        } else {
                            start <= o < found.offset
                        }) ==> bare(image, o)
                },
            }
        }),
    decreases
            if reverse {
                at - start
            } else {
                end - at
            },
{
    reveal(pit::gap_from);
    let image = search.medium;
    let sector = image.sector_size as int;
    let room = if reverse {
        at - start
    } else {
        end - at
    };
    let len = pit::block_len(room, search.may.left, image.sector_size);
    let from = if reverse {
        at - len
    } else {
        at
    };
    if room > 0 && search.may.affords(sector) {
        pit::whole_sectors_apart(end, at, sector);
        pit::whole_sectors_apart(at, start, sector);
        a_block_fits_its_gap(room, search.may.left, image.sector_size);
        pit::whole_sectors_apart(at, len, sector);
        let count = len / sector;
        let block = image.data.subrange(from, from + len);
        an_image_serves_what_it_holds(image, from, len);
        assert forall|o: int| #[trigger]
            tried(from, sector, reverse, count, 0, o) implies bare(image, o) by {
            assert(0 * sector == 0) by (nonlinear_arith);
        }
        let may = search.may.passed(len);
        a_block_passes_over_nothing(image, may, block, from as u64, reverse, count, 0);
        let (hit, after) = pit::block_from::<ImageSectors>(
            Search { medium: image, may },
            block,
            from as u64,
            image.sector_size,
            reverse,
            count,
            0,
        );
        if hit is None {
            let next = if reverse {
                from
            } else {
                at + len
            };
            if after.may.spent {
                assert(!after.may.affords(sector));
            } else {
                a_gap_passes_over_nothing(after, start, end, reverse, next);
            }
        }
    }
}

/// A search of `gap` comes to one offset before it comes to another.
pub open spec fn sooner(gap: Gap, offset: int, other: int) -> bool {
    if gap.reverse {
        offset > other
    } else {
        offset < other
    }
}

/// No sector of a gap holds a table.
#[verifier::opaque]
pub open spec fn clear(image: ImageView, gap: Gap) -> bool {
    forall|o: int| #[trigger] covers(gap, image.sector_size, o) ==> bare(image, o)
}

/// A table on a sector of a gap, as reading it there gives it, with none that a
/// search of the gap comes to before it.
#[verifier::opaque]
pub open spec fn first_in(image: ImageView, gap: Gap, found: FoundView) -> bool {
    &&& covers(gap, image.sector_size, found.offset as int)
    &&& pit::table_at::<ImageSectors>(image, found.offset).0 == Ok::<pit::PitView, ErrorView>(
        found.pit,
    )
    &&& forall|o: int| #[trigger]
        covers(gap, image.sector_size, o) && sooner(gap, o, found.offset as int) ==> bare(
            image,
            o,
        )
}

/// A table that is the first in gap `f`, where the gaps from the `g`th on that
/// stand before it hold none.
pub open spec fn answers_first(
    image: ImageView,
    gaps: Seq<Gap>,
    g: int,
    f: int,
    found: FoundView,
) -> bool {
    &&& g <= f < gaps.len()
    &&& first_in(image, gaps[f], found)
    &&& forall|h: int| g <= h < f ==> clear(image, #[trigger] gaps[h])
}

/// The search of one gap.
proof fn a_gap_answers(search: Search<ImageView>, gap: Gap)
    requires
        4 <= search.medium.sector_size <= MAX_READ_BYTES,
        gap.end <= search.medium.data.len() <= u64::MAX,
    ensures
        ({
            let image = search.medium;
            let sector = image.sector_size;
            let start = transfer::rounded_up(gap.start as int, sector as int);
            let end = gap.end - gap.end as int % sector as int;
            let (hit, after) = pit::gap_from::<ImageSectors>(
                search,
                start,
                end,
                gap.reverse,
                sector,
                if gap.reverse {
                    end
                } else {
                    start
                },
            );
            if end <= start {
                clear(image, gap)
            } else {
                &&& after.medium == image
                &&& after.may.left is None <==> search.may.left is None
                &&& search.may.left is None && !search.may.spent ==> !after.may.spent
                &&& !search.may.affords(sector as int) ==> hit == Ok::<
                    Option<FoundView>,
                    ErrorView,
                >(None) && after == search
                &&& match hit {
                    Err(_) => false,
                    Ok(None) => !after.may.affords(sector as int) || clear(image, gap),
                    Ok(Some(found)) => first_in(image, gap, found),
                }
            }
        }),
{
    reveal(pit::gap_from);
    reveal(clear);
    reveal(first_in);
    let sector = search.medium.sector_size;
    let start = transfer::rounded_up(gap.start as int, sector as int);
    let end = gap.end - gap.end as int % sector as int;
    a_gap_offers_its_whole_sectors(gap, sector);
    if end > start {
        let at = if gap.reverse {
            end
        } else {
            start
        };
        a_gap_passes_over_nothing(search, start, end, gap.reverse, at);
    }
}

proof fn gaps_pass_over_nothing(search: Search<ImageView>, gaps: Seq<Gap>, g: int)
    requires
        4 <= search.medium.sector_size <= MAX_READ_BYTES,
        search.medium.data.len() <= u64::MAX,
        forall|h: int| 0 <= h < gaps.len() ==> (#[trigger] gaps[h]).end <= search.medium.data.len(),
        0 <= g,
    ensures
        ({
            let image = search.medium;
            let sector = image.sector_size;
            let (hit, after) = pit::gaps_from::<ImageSectors>(search, gaps, sector, g);
            match hit {
                Err(_) => false,
                Ok(None) => search.may.left is None && !search.may.spent ==> forall|h: int|
                    g <= h < gaps.len() ==> clear(image, #[trigger] gaps[h]),
                Ok(Some(found)) => {
                    &&& search.may.affords(sector as int)
                    &&& exists|f: int| answers_first(image, gaps, g, f, found)
                },
            }
        }),
    decreases gaps.len() - g,
{
    let image = search.medium;
    let sector = image.sector_size;
    if g < gaps.len() {
        let gap = gaps[g];
        let rest = g + 1;
        let start = transfer::rounded_up(gap.start as int, sector as int);
        let end = gap.end - gap.end as int % sector as int;
        let (hit, after) = if end <= start {
            (Ok::<Option<FoundView>, ErrorView>(None), search)
        } else {
            pit::gap_from::<ImageSectors>(
                search,
                start,
                end,
                gap.reverse,
                sector,
                if gap.reverse {
                    end
                } else {
                    start
                },
            )
        };
        a_gap_answers(search, gap);
        if let Ok(Some(found)) = hit {
            assert(answers_first(image, gaps, g, g, found));
        } else {
            gaps_pass_over_nothing(after, gaps, rest);
            let (later, _) = pit::gaps_from::<ImageSectors>(after, gaps, sector, rest);
            if let Ok(Some(found)) = later {
                let f = choose|f: int| answers_first(image, gaps, rest, f, found);
                assert(clear(image, gap));
                assert(answers_first(image, gaps, g, f, found));
            }
        }
    }
}

/// A search passes over no table. It reports the first in the order it searches
/// in - the gaps in the order they are given, each from its start or, where it
/// is searched backwards, from its end - and reports it as reading at its offset
/// gives it. That holds under any budget: one that runs out finds nothing. With
/// none, nothing is found only where no sector of any gap holds a table, and the
/// failure says how to search elsewhere. Bytes that look like a table and are
/// none never fail a search.
pub proof fn the_nearest_table_answers_first(
    image: ImageView,
    gaps: Seq<Gap>,
    budget: Option<u64>,
)
    requires
        4 <= image.sector_size <= MAX_READ_BYTES,
        image.data.len() <= u64::MAX,
        forall|g: int| 0 <= g < gaps.len() ==> (#[trigger] gaps[g]).end <= image.data.len(),
    ensures
        pit::searched::<ImageSectors>(image, gaps, budget).0 matches Ok(found) ==> exists|f: int|
            answers_first(image, gaps, 0, f, found),
        pit::searched::<ImageSectors>(image, gaps, budget).0 matches Err(err) ==> exists|read: u64|
            err == #[trigger] pit::nothing_found(read, gaps),
        pit::searched::<ImageSectors>(image, gaps, budget).0 is Err && budget is None ==> forall|
            g: int,
        |
            0 <= g < gaps.len() ==> clear(image, #[trigger] gaps[g]),
{
    let may = Allowance { left: budget, spent: false, read: 0 };
    let search = Search { medium: image, may };
    gaps_pass_over_nothing(search, gaps, 0);
    let (hit, after) = pit::gaps_from::<ImageSectors>(search, gaps, image.sector_size, 0);
    let answer = pit::searched::<ImageSectors>(image, gaps, budget).0;
    if let Ok(Some(found)) = hit {
        assert(answer == Ok::<FoundView, ErrorView>(found));
        let f = choose|f: int| answers_first(image, gaps, 0, f, found);
        assert(answers_first(image, gaps, 0, f, answer->Ok_0));
    } else {
        let err = pit::nothing_found(after.may.read, gaps);
        assert(answer == Err::<FoundView, ErrorView>(err));
    }
}

/// A budget decides whether there is an answer, never which.
pub proof fn a_budget_never_changes_the_answer(image: ImageView, gaps: Seq<Gap>, budget: u64)
    requires
        4 <= image.sector_size <= MAX_READ_BYTES,
        image.data.len() <= u64::MAX,
        forall|g: int| 0 <= g < gaps.len() ==> (#[trigger] gaps[g]).end <= image.data.len(),
    ensures
        pit::searched::<ImageSectors>(image, gaps, Some(budget)).0 matches Ok(found)
            ==> pit::searched::<ImageSectors>(image, gaps, None).0 == Ok::<FoundView, ErrorView>(
            found,
        ),
{
    reveal(clear);
    reveal(first_in);
    the_nearest_table_answers_first(image, gaps, Some(budget));
    the_nearest_table_answers_first(image, gaps, None);
    if let Ok(found) = pit::searched::<ImageSectors>(image, gaps, Some(budget)).0 {
        let f = choose|f: int| answers_first(image, gaps, 0, f, found);
        assert(covers(gaps[f], image.sector_size, found.offset as int));
        assert(!bare(image, found.offset as int));
        if let Ok(other) = pit::searched::<ImageSectors>(image, gaps, None).0 {
            let g = choose|g: int| answers_first(image, gaps, 0, g, other);
            assert(covers(gaps[g], image.sector_size, other.offset as int));
            assert(!bare(image, other.offset as int));
            assert(f == g);
            assert(found.offset == other.offset);
        }
    }
}

/// A search that cannot read where it looks first fails as that read did: what
/// could not be read is never taken for having nothing in it.
pub proof fn what_cannot_be_read_is_not_passed_over<S: Sectors>(
    medium: S::Medium,
    gaps: Seq<Gap>,
    budget: Option<u64>,
)
    requires
        gaps.len() > 0,
        0 < S::sector_bytes(medium),
        exists|o: int| covers(gaps[0], S::sector_bytes(medium), o),
        budget matches Some(bytes) ==> bytes >= S::sector_bytes(medium),
        forall|lba: u64, count: u64| (#[trigger] S::serve(medium, lba, count)).0 is Err,
    ensures
        ({
            let (answer, after) = pit::searched::<S>(medium, gaps, budget);
            exists|lba: u64, count: u64|
                {
                    let (read, there) = #[trigger] S::serve(medium, lba, count);
                    &&& answer is Err
                    &&& answer->Err_0 == read->Err_0
                    &&& after == there
                }
        }),
{
    reveal(pit::gap_from);
    let sector = S::sector_bytes(medium);
    let gap = gaps[0];
    a_gap_offers_its_whole_sectors(gap, sector);
    let o = choose|o: int| covers(gap, sector, o);
    assert(covers(gap, sector, o));
    let start = transfer::rounded_up(gap.start as int, sector as int);
    let end = gap.end - gap.end as int % sector as int;
    assert(start < end);
    let at = if gap.reverse {
        end
    } else {
        start
    };
    let room = end - start;
    let len = pit::block_len(room, budget, sector);
    let from = if gap.reverse {
        at - len
    } else {
        at
    };
    let (read, there) = S::serve(
        medium,
        (from / sector as int) as u64,
        (len / sector as int) as u64,
    );
    assert(read is Err);
}

} // verus!
