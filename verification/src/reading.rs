//! Looking at a medium does nothing to it but read it. What no read of a medium
//! changes - what it holds, what has been written to it - nothing changes that
//! detects a table, reads one, searches for one, dumps a range or compares it.

use vstd::prelude::*;

use crate::device::RawDevice;
use crate::parts;
use crate::parts::gpt;
use crate::parts::mbr;
use crate::parts::{DeviceSectors, Gap, PartitionView, Recorded, Scheme, Sectors};
use crate::pit;
use crate::pit::{Allowance, Search};
use crate::progress::Progress;
use crate::stream::{Sink, Source};
use crate::transfer;
use crate::transfer::{Receiver, Transfer};

verus! {

/// No read of sectors puts an end to it.
pub open spec fn kept_by_reads<S: Sectors>(kept: spec_fn(S::Medium) -> bool) -> bool {
    forall|medium: S::Medium, lba: u64, count: u64|
        kept(medium) ==> kept((#[trigger] S::serve(medium, lba, count)).1)
}

/// No read of a device puts an end to it.
pub open spec fn kept_by_device_reads<D: RawDevice>(kept: spec_fn(D::State) -> bool) -> bool {
    forall|state: D::State, offset: u64, buf: Seq<u8>|
        kept(state) ==> kept((#[trigger] D::read_step(state, offset, buf)).2)
}

/// The same of a device and its record.
pub open spec fn recorded<D: RawDevice>(kept: spec_fn(D::State) -> bool) -> spec_fn(
    Recorded<D::State>,
) -> bool {
    |medium: Recorded<D::State>| kept(medium.device)
}

/// Reading sectors of a device is reading the device.
pub proof fn sectors_are_read_from_the_device<D: RawDevice>(kept: spec_fn(D::State) -> bool)
    requires
        kept_by_device_reads::<D>(kept),
    ensures
        kept_by_reads::<DeviceSectors<D>>(recorded::<D>(kept)),
{
}

proof fn a_gpt_header_only_reads<S: Sectors>(
    kept: spec_fn(S::Medium) -> bool,
    medium: S::Medium,
    lba: u64,
)
    requires
        kept_by_reads::<S>(kept),
        kept(medium),
    ensures
        kept(gpt::header_at::<S>(medium, lba).1),
        kept(gpt::claimed::<S>(medium).1),
{
}

proof fn gpt_entries_only_read<S: Sectors>(
    kept: spec_fn(S::Medium) -> bool,
    medium: S::Medium,
    header: gpt::Header,
)
    requires
        kept_by_reads::<S>(kept),
        kept(medium),
    ensures
        kept(gpt::entries::<S>(medium, header).1),
{
}

proof fn a_gpt_only_reads<S: Sectors>(kept: spec_fn(S::Medium) -> bool, medium: S::Medium)
    requires
        kept_by_reads::<S>(kept),
        kept(medium),
    ensures
        kept(gpt::reading::<S>(medium).1),
{
    a_gpt_header_only_reads::<S>(kept, medium, gpt::PRIMARY_LBA);
    let (header, after) = gpt::header_at::<S>(medium, gpt::PRIMARY_LBA);
    let (primary, backup, after) = match header {
        Err(err) => (Err(err), gpt::last_lba_of::<S>(after), after),
        Ok(header) => {
            gpt_entries_only_read::<S>(kept, after, header);
            let (read, after) = gpt::entries::<S>(after, header);
            (read, Some(header.alternate_lba), after)
        },
    };
    if let (Err(_), Some(lba)) = (primary, backup) {
        a_gpt_header_only_reads::<S>(kept, after, lba);
        let (header, after) = gpt::header_at::<S>(after, lba);
        if let Ok(header) = header {
            gpt_entries_only_read::<S>(kept, after, header);
        }
    }
}

proof fn a_chain_only_reads<S: Sectors>(
    kept: spec_fn(S::Medium) -> bool,
    medium: S::Medium,
    base: u64,
    limit: u64,
    sector: u32,
    ebr_lba: u64,
    index: u32,
    found: Seq<PartitionView>,
)
    requires
        kept_by_reads::<S>(kept),
        kept(medium),
    ensures
        kept(mbr::chain::<S>(medium, base, limit, sector, ebr_lba, index, found).1),
    decreases 5 + mbr::MAX_LOGICAL - index,
{
    if index <= 4 + mbr::MAX_LOGICAL && base <= ebr_lba < limit {
        let (read, after) = S::serve(medium, ebr_lba, 1);
        if let Ok(ebr) = read {
            let logical = mbr::entry_in(ebr, 0)->0;
            let link = mbr::entry_in(ebr, 1)->0;
            if let Ok(partition) = logical.partition(
                index,
                (ebr_lba + logical.start_lba) as u64,
                sector,
            ) {
                a_chain_only_reads::<S>(
                    kept,
                    after,
                    base,
                    limit,
                    sector,
                    (base + link.start_lba) as u64,
                    (index + 1) as u32,
                    found.push(partition),
                );
            }
        }
    }
}

proof fn an_mbr_only_reads<S: Sectors>(kept: spec_fn(S::Medium) -> bool, medium: S::Medium)
    requires
        kept_by_reads::<S>(kept),
        kept(medium),
    ensures
        kept(mbr::table::<S>(medium).1),
{
    let sector = S::sector_bytes(medium);
    let (read, after) = S::serve(medium, 0, 1);
    if let Ok(sector0) = read {
        if let Ok((found, Some(container))) = mbr::primaries(
            sector0,
            sector,
            0,
            Seq::empty(),
            None,
        ) {
            a_chain_only_reads::<S>(
                kept,
                after,
                container.start_lba as u64,
                (container.start_lba + container.sectors) as u64,
                sector,
                container.start_lba as u64,
                5,
                found,
            );
        }
    }
}

/// Detecting a table only reads.
pub proof fn detecting_only_reads<S: Sectors>(
    kept: spec_fn(S::Medium) -> bool,
    medium: S::Medium,
)
    requires
        kept_by_reads::<S>(kept),
        kept(medium),
    ensures
        kept(parts::surveyed::<S>(medium).1),
        kept(parts::detection::<S>(medium).1),
{
    let (read, after) = S::serve(medium, 0, 1);
    if let Ok(sector0) = read {
        a_gpt_only_reads::<S>(kept, after);
        an_mbr_only_reads::<S>(kept, after);
        let (_, listed) = mbr::table::<S>(after);
        a_gpt_header_only_reads::<S>(kept, listed, 0);
        a_gpt_only_reads::<S>(kept, gpt::claimed::<S>(listed).1);
    }
}

/// So does reading one, whatever scheme was asked for.
pub proof fn reading_a_table_only_reads<S: Sectors>(
    kept: spec_fn(S::Medium) -> bool,
    medium: S::Medium,
    scheme: Option<Scheme>,
)
    requires
        kept_by_reads::<S>(kept),
        kept(medium),
    ensures
        kept(parts::read_table::<S>(medium, scheme).1),
{
    a_gpt_only_reads::<S>(kept, medium);
    an_mbr_only_reads::<S>(kept, medium);
    detecting_only_reads::<S>(kept, medium);
}

/// So does reading a PIT where it is.
pub proof fn reading_a_pit_only_reads<S: Sectors>(
    kept: spec_fn(S::Medium) -> bool,
    medium: S::Medium,
    offset: u64,
)
    requires
        kept_by_reads::<S>(kept),
        kept(medium),
    ensures
        kept(pit::table_at::<S>(medium, offset).1),
{
}

proof fn a_candidate_only_reads<S: Sectors>(
    kept: spec_fn(S::Medium) -> bool,
    search: Search<S::Medium>,
    block: Seq<u8>,
    from: u64,
    sector: u32,
    at: int,
)
    requires
        kept_by_reads::<S>(kept),
        kept(search.medium),
    ensures
        kept(pit::candidate::<S>(search, block, from, sector, at).1.medium),
{
}

proof fn a_block_only_reads<S: Sectors>(
    kept: spec_fn(S::Medium) -> bool,
    search: Search<S::Medium>,
    block: Seq<u8>,
    from: u64,
    sector: u32,
    reverse: bool,
    count: int,
    k: int,
)
    requires
        kept_by_reads::<S>(kept),
        kept(search.medium),
    ensures
        kept(pit::block_from::<S>(search, block, from, sector, reverse, count, k).1.medium),
    decreases count - k,
{
    if k < count && !search.may.spent {
        let i = if reverse {
            count - 1 - k
        } else {
            k
        };
        let at = i * sector;
        a_candidate_only_reads::<S>(kept, search, block, from, sector, at);
        let (_, after) = pit::candidate::<S>(search, block, from, sector, at);
        a_block_only_reads::<S>(kept, search, block, from, sector, reverse, count, k + 1);
        a_block_only_reads::<S>(kept, after, block, from, sector, reverse, count, k + 1);
    }
}

proof fn a_gap_only_reads<S: Sectors>(
    kept: spec_fn(S::Medium) -> bool,
    search: Search<S::Medium>,
    start: int,
    end: int,
    reverse: bool,
    sector: u32,
    at: int,
)
    requires
        kept_by_reads::<S>(kept),
        kept(search.medium),
    ensures
        kept(pit::gap_from::<S>(search, start, end, reverse, sector, at).1.medium),
    decreases
            if reverse {
                at - start
            } else {
                end - at
            },
{
    reveal(pit::gap_from);
    let room = if reverse {
        at - start
    } else {
        end - at
    };
    let len = pit::block_len(room, search.may.left, sector);
    let from = if reverse {
        at - len
    } else {
        at
    };
    if search.may.affords(sector as int) && room > 0 {
        let count = len / sector as int;
        let (read, medium) = S::serve(
            search.medium,
            (from / sector as int) as u64,
            count as u64,
        );
        let next = Search { medium, may: search.may.passed(len) };
        if let Ok(block) = read {
            a_block_only_reads::<S>(kept, next, block, from as u64, sector, reverse, count, 0);
            let (hit, after) = pit::block_from::<S>(
                next,
                block,
                from as u64,
                sector,
                reverse,
                count,
                0,
            );
            if hit is None && 0 < len <= room {
                let at = if reverse {
                    from
                } else {
                    at + len
                };
                a_gap_only_reads::<S>(kept, after, start, end, reverse, sector, at);
            }
        }
    }
}

proof fn gaps_only_read<S: Sectors>(
    kept: spec_fn(S::Medium) -> bool,
    search: Search<S::Medium>,
    gaps: Seq<Gap>,
    sector: u32,
    g: int,
)
    requires
        kept_by_reads::<S>(kept),
        kept(search.medium),
    ensures
        kept(pit::gaps_from::<S>(search, gaps, sector, g).1.medium),
    decreases gaps.len() - g,
{
    if g < gaps.len() {
        let start = transfer::rounded_up(gaps[g].start as int, sector as int);
        let end = gaps[g].end - gaps[g].end as int % sector as int;
        let at = if gaps[g].reverse {
            end
        } else {
            start
        };
        a_gap_only_reads::<S>(kept, search, start, end, gaps[g].reverse, sector, at);
        let (_, after) = pit::gap_from::<S>(search, start, end, gaps[g].reverse, sector, at);
        gaps_only_read::<S>(kept, search, gaps, sector, g + 1);
        gaps_only_read::<S>(kept, after, gaps, sector, g + 1);
    }
}

/// So does searching for one.
pub proof fn searching_only_reads<S: Sectors>(
    kept: spec_fn(S::Medium) -> bool,
    medium: S::Medium,
    gaps: Seq<Gap>,
    budget: Option<u64>,
)
    requires
        kept_by_reads::<S>(kept),
        kept(medium),
    ensures
        kept(pit::searched::<S>(medium, gaps, budget).1),
{
    let may = Allowance { left: budget, spent: false, read: 0 };
    gaps_only_read::<S>(kept, Search { medium, may }, gaps, S::sector_bytes(medium), 0);
}

proof fn a_read_from_here_only_reads<D: RawDevice, W, R: Receiver<W>>(
    kept: spec_fn(D::State) -> bool,
    at: Transfer<D::State, R::State, ()>,
    offset: u64,
    length: u64,
    sector: u32,
    done: u64,
)
    requires
        kept_by_device_reads::<D>(kept),
        kept(at.device),
    ensures
        kept(transfer::read_from::<D, W, R>(at, offset, length, sector, done).1.device),
    decreases length - done,
{
    if done < length {
        let from = offset + done;
        let head = transfer::head_of(from, sector);
        let want = transfer::run_of(length - done, from, sector);
        let (read, device, trace) = transfer::read_sectors::<D>(
            at.device,
            at.trace,
            "read "@,
            (from - head) as u64,
            transfer::rounded_up(head + want, sector as int),
        );
        if let Ok(bytes) = read {
            let (taken, file) = R::take_step(at.file, bytes.subrange(head, head + want));
            if want > 0 {
                a_read_from_here_only_reads::<D, W, R>(
                    kept,
                    Transfer { device, trace, file, ..at },
                    offset,
                    length,
                    sector,
                    (done + want) as u64,
                );
            }
        }
    }
}

/// A read that only looks only reads.
pub proof fn looking_only_reads<D: RawDevice, W, R: Receiver<W>>(
    kept: spec_fn(D::State) -> bool,
    at: Transfer<D::State, R::State, ()>,
    offset: u64,
    length: u64,
)
    requires
        kept_by_device_reads::<D>(kept),
        kept(at.device),
    ensures
        kept(transfer::read_through::<D, W, R>(at, offset, length).1.device),
{
    let sector = D::described(at.device).logical_sector_size;
    a_read_from_here_only_reads::<D, W, R>(kept, at, offset, length, sector, 0);
}

proof fn a_dump_from_here_only_reads<D: RawDevice, K: Sink, P: Progress>(
    kept: spec_fn(D::State) -> bool,
    at: Transfer<D::State, K::State, P::State>,
    offset: u64,
    length: u64,
    sector: u32,
    done: u64,
)
    requires
        kept_by_device_reads::<D>(kept),
        kept(at.device),
    ensures
        kept(transfer::dump_from::<D, K, P>(at, offset, length, sector, done).1.device),
    decreases length - done,
{
    if done < length {
        let want = transfer::chunk_of(length - done);
        let (read, device, trace) = transfer::read_sectors::<D>(
            at.device,
            at.trace,
            "read "@,
            (offset + done) as u64,
            transfer::rounded_up(want, sector as int),
        );
        if let Ok(bytes) = read {
            let (written, file) = K::write_step(at.file, bytes.subrange(0, want));
            let now = (done + want) as u64;
            a_dump_from_here_only_reads::<D, K, P>(
                kept,
                Transfer {
                    device,
                    trace,
                    file,
                    progress: P::on(
                        at.progress,
                        crate::progress::ProgressEvent::Advance { done: now, total: length },
                    ),
                },
                offset,
                length,
                sector,
                now,
            );
        }
    }
}

/// A dump does nothing to the device but read it, whatever becomes of its file.
pub proof fn a_dump_only_reads<D: RawDevice, K: Sink, P: Progress>(
    kept: spec_fn(D::State) -> bool,
    at: Transfer<D::State, K::State, P::State>,
    offset: u64,
    length: u64,
)
    requires
        kept_by_device_reads::<D>(kept),
        kept(at.device),
    ensures
        kept(transfer::dumped::<D, K, P>(at, offset, length).1.device),
{
    let sector = D::described(at.device).logical_sector_size;
    a_dump_from_here_only_reads::<D, K, P>(kept, at, offset, length, sector, 0);
}

proof fn a_comparison_from_here_only_reads<D: RawDevice, S: Source, P: Progress>(
    kept: spec_fn(D::State) -> bool,
    at: Transfer<D::State, S::State, P::State>,
    offset: u64,
    length: u64,
    sector: u32,
    done: u64,
)
    requires
        kept_by_device_reads::<D>(kept),
        kept(at.device),
    ensures
        kept(transfer::verify_from::<D, S, P>(at, offset, length, sector, done).1.device),
    decreases length - done,
{
    if done < length {
        let want = transfer::chunk_of(length - done);
        let (read, device, trace) = transfer::read_sectors::<D>(
            at.device,
            at.trace,
            "verify read "@,
            (offset + done) as u64,
            transfer::rounded_up(want, sector as int),
        );
        let (served, expected, file) = S::read_step(at.file, transfer::zeros(want));
        let now = (done + want) as u64;
        if read is Ok {
            a_comparison_from_here_only_reads::<D, S, P>(
                kept,
                Transfer {
                    device,
                    file,
                    trace,
                    progress: P::on(
                        at.progress,
                        crate::progress::ProgressEvent::Advance { done: now, total: length },
                    ),
                },
                offset,
                length,
                sector,
                now,
            );
        }
    }
}

/// So does a comparison.
pub proof fn a_comparison_only_reads<D: RawDevice, S: Source, P: Progress>(
    kept: spec_fn(D::State) -> bool,
    at: Transfer<D::State, S::State, P::State>,
    offset: u64,
    length: u64,
)
    requires
        kept_by_device_reads::<D>(kept),
        kept(at.device),
    ensures
        kept(transfer::verified::<D, S, P>(at, offset, length).1.device),
{
    let sector = D::described(at.device).logical_sector_size;
    a_comparison_from_here_only_reads::<D, S, P>(kept, at, offset, length, sector, 0);
}

} // verus!
