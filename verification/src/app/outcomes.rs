//! What a command comes to: which range a name or a number means, and what is
//! handed on to the transfer.

use vstd::prelude::*;

use crate::app;
use crate::app::report;
use crate::app::target;
use crate::app::target::{Options, Range, Seen, Source};
use crate::app::{FlashJobView, FlashReadyView, NextView, VerifyJobView, World};
use crate::cli::{
    DumpArgs, FlashArgs, HexArgs, LocationView, PitSource, SchemeArg, TableSource, TransferOptions,
};
use crate::device::{
    DeviceInfoView, MemoryDevice, MemoryState, RawDevice, VolumeLockView,
};
use crate::error::ErrorView;
use crate::hex_layout;
use crate::medium;
use crate::output;
use crate::output::Output;
use crate::parts;
use crate::parts::gaps;
use crate::parts::{DetectedView, DeviceSectors, Recorded, Scheme, SurveyView, TableView};
use crate::pit;
use crate::ranges;
use crate::text;
use crate::transfer::Transfer;

verus! {

/// A partition answers to what a location says: to its name in any case where
/// one is given, and else to its number.
pub open spec fn part_answers(part: parts::PartitionView, location: LocationView) -> bool {
    match location.partition {
        Some(name) => part.name is Some && part.name->0.len() == name.len() && forall|i: int|
            0 <= i < name.len() ==> text::lowered(#[trigger] part.name->0[i]) == text::lowered(
                name[i],
            ),
        None => location.partition_id == Some(part.index),
    }
}

/// The same of an entry of a PIT.
pub open spec fn entry_answers(part: pit::PartitionView, location: LocationView) -> bool {
    match location.partition {
        Some(name) => part.name.len() == name.len() && forall|i: int|
            0 <= i < name.len() ==> text::lowered(#[trigger] part.name[i]) == text::lowered(
                name[i],
            ),
        None => location.partition_id == Some(part.identifier),
    }
}

/// A stretch of a device is all of it on the device, as far as its size is
/// known. One that ends where nothing can be counted any more ends there.
pub open spec fn on_device(info: DeviceInfoView, start: int, length: int) -> bool {
    info.size_bytes matches Some(size) ==> size == u64::MAX || start + length <= size
}

/// The range that `length` bytes of a stretch give: as many as were asked for
/// and no more than there are, from its start.
pub open spec fn taken_from(
    answer: Result<Range, ErrorView>,
    start: int,
    length: int,
    asked: Option<u64>,
    info: DeviceInfoView,
) -> bool {
    let wanted = match asked {
        Some(wanted) => wanted as int,
        None => length,
    };
    if on_device(info, start, length) && wanted <= length {
        &&& answer is Ok
        &&& answer->Ok_0.offset == start
        &&& answer->Ok_0.length is Some
        &&& answer->Ok_0.length->0 == wanted
    } else {
        answer is Err && answer->Err_0 is InvalidArgument
    }
}

proof fn a_lookup_finds_who_answers(table: TableView, location: LocationView)
    requires
        target::selector_of(location) is Some,
    ensures
        ({
            let found = target::selected_part(table, target::selector_of(location)->0);
            &&& found matches Ok(part) ==> exists|i: int|
                {
                    &&& 0 <= i < table.partitions.len()
                    &&& #[trigger] table.partitions[i] == part
                    &&& part_answers(part, location)
                    &&& forall|j: int|
                        0 <= j < i ==> !part_answers(#[trigger] table.partitions[j], location)
                    &&& location.partition is Some ==> table.scheme is Gpt
                }
            &&& found matches Err(err) ==> err is Parts && (location.partition is Some
                && table.scheme is Mbr || forall|j: int|
                0 <= j < table.partitions.len() ==> !part_answers(
                    #[trigger] table.partitions[j],
                    location,
                ))
        }),
{
    match location.partition {
        Some(name) => {
            parts::a_name_finds_the_first_that_answers(table, name, 0);
            assert forall|j: int| 0 <= j < table.partitions.len() implies part_answers(
                #[trigger] table.partitions[j],
                location,
            ) == table.named(j, name) by {}
        },
        None => {
            let id = location.partition_id->0;
            parts::a_number_finds_the_first_that_carries_it(table, id, 0);
        },
    }
}

/// A partition that is named or numbered gives the range it spans, from where
/// it starts, for as long as it is or as long as was asked. The first that
/// answers gives it; where none does, where it does not lie on the device, or
/// where more is asked than it has, there is no range.
#[verifier::rlimit(60)]
pub proof fn a_partition_gives_the_range_it_spans<D: RawDevice>(
    at: Seen<D::State, Seq<char>>,
    location: LocationView,
    asked: Option<u64>,
    opts: Options,
)
    requires
        location.partition is Some || location.partition_id is Some,
        opts.source != Source::Pit,
    ensures
        ({
            let answer = target::resolved::<D, String>(at, location, asked, opts).0;
            let info = D::described(at.device);
            match target::table_read::<D>(at.medium(), opts).0 {
                Err(err) => answer == Err::<Range, ErrorView>(err),
                Ok(table) => {
                    let nobody = location.partition is Some && table.scheme is Mbr || forall|
                        j: int,
                    |
                        0 <= j < table.partitions.len() ==> !part_answers(
                            #[trigger] table.partitions[j],
                            location,
                        );
                    if nobody {
                        answer is Err && answer->Err_0 is Parts
                    } else {
                        exists|i: int|
                            {
                                let part = #[trigger] table.partitions[i];
                                &&& 0 <= i < table.partitions.len()
                                &&& part_answers(part, location)
                                &&& forall|j: int|
                                    0 <= j < i ==> !part_answers(
                                        #[trigger] table.partitions[j],
                                        location,
                                    )
                                &&& taken_from(
                                    answer,
                                    part.start as int,
                                    part.length as int,
                                    asked,
                                    info,
                                )
                            }
                    }
                },
            }
        }),
{
    if let Ok(table) = target::table_read::<D>(at.medium(), opts).0 {
        a_lookup_finds_who_answers(table, location);
        let found = target::selected_part(table, target::selector_of(location)->0);
        if let Ok(part) = found {
            let i = choose|i: int|
                {
                    &&& 0 <= i < table.partitions.len()
                    &&& #[trigger] table.partitions[i] == part
                    &&& part_answers(part, location)
                    &&& forall|j: int|
                        0 <= j < i ==> !part_answers(#[trigger] table.partitions[j], location)
                    &&& location.partition is Some ==> table.scheme is Gpt
                };
            let answer = target::resolved::<D, String>(at, location, asked, opts).0;
            assert(answer == target::part_range(D::described(at.device), part, asked));
            assert(part_answers(table.partitions[i], location));
            assert(taken_from(
                answer,
                part.start as int,
                part.length as int,
                asked,
                D::described(at.device),
            ));
        }
    }
}

proof fn a_lookup_in_a_pit_finds_who_answers(table: pit::PitView, location: LocationView)
    requires
        target::selector_of(location) is Some,
    ensures
        ({
            let found = target::selected_entry(table, target::selector_of(location)->0);
            &&& found matches Ok(part) ==> exists|i: int|
                {
                    &&& 0 <= i < table.partitions.len()
                    &&& #[trigger] table.partitions[i] == part
                    &&& entry_answers(part, location)
                    &&& forall|j: int|
                        0 <= j < i ==> !entry_answers(#[trigger] table.partitions[j], location)
                }
            &&& found matches Err(err) ==> err is Pit && forall|j: int|
                0 <= j < table.partitions.len() ==> !entry_answers(
                    #[trigger] table.partitions[j],
                    location,
                )
        }),
{
    match location.partition {
        Some(name) => {
            pit::a_name_finds_the_first_that_answers(table, name, 0);
            assert forall|j: int| 0 <= j < table.partitions.len() implies entry_answers(
                #[trigger] table.partitions[j],
                location,
            ) == table.named(j, name) by {}
        },
        None => {
            pit::an_identifier_finds_the_first_that_has_it(
                table,
                location.partition_id->0,
                0,
            );
        },
    }
}

/// The same of an entry of a PIT, in blocks of 512 bytes.
#[verifier::rlimit(60)]
pub proof fn a_pit_entry_gives_the_range_it_spans<D: RawDevice>(
    at: Seen<D::State, Seq<char>>,
    location: LocationView,
    asked: Option<u64>,
    opts: Options,
)
    requires
        location.partition is Some || location.partition_id is Some,
        opts.source == Source::Pit,
    ensures
        ({
            let answer = target::resolved::<D, String>(at, location, asked, opts).0;
            let info = D::described(at.device);
            match target::located::<D, String>(at, opts).0 {
                Err(err) => answer == Err::<Range, ErrorView>(err),
                Ok(found) => {
                    let parts = found.pit.partitions;
                    if forall|j: int|
                        0 <= j < parts.len() ==> !entry_answers(#[trigger] parts[j], location) {
                        answer is Err && answer->Err_0 is Pit
                    } else {
                        exists|i: int|
                            {
                                let part = #[trigger] parts[i];
                                &&& 0 <= i < parts.len()
                                &&& entry_answers(part, location)
                                &&& forall|j: int|
                                    0 <= j < i ==> !entry_answers(#[trigger] parts[j], location)
                                &&& taken_from(
                                    answer,
                                    512 * part.block_offset,
                                    512 * part.block_count,
                                    asked,
                                    info,
                                )
                            }
                    }
                },
            }
        }),
{
    if let Ok(found) = target::located::<D, String>(at, opts).0 {
        let parts = found.pit.partitions;
        a_lookup_in_a_pit_finds_who_answers(found.pit, location);
        let entry = target::selected_entry(found.pit, target::selector_of(location)->0);
        if let Ok(part) = entry {
            let i = choose|i: int|
                {
                    &&& 0 <= i < parts.len()
                    &&& #[trigger] parts[i] == part
                    &&& entry_answers(part, location)
                    &&& forall|j: int|
                        0 <= j < i ==> !entry_answers(#[trigger] parts[j], location)
                };
            let answer = target::resolved::<D, String>(at, location, asked, opts).0;
            assert(answer == target::entry_range(D::described(at.device), part, asked));
            assert(entry_answers(parts[i], location));
        }
    }
}

/// What the arguments choose is what is done: the scheme picks the table, the
/// offset of a PIT and what a search for one may read are handed on, a search
/// told 0 may read all there is, and a command that moves bytes is a rehearsal
/// exactly where it was asked for one and draws its progress exactly where
/// someone watches and nobody said not to.
pub proof fn the_arguments_choose(
    table: TableSource,
    transfer: TransferOptions,
    watched: bool,
    reads_a_pit: bool,
)
    ensures
        Options::inspecting(table, reads_a_pit) is Err <==> {
            &&& table.pit_source.pit_offset is Some
            &&& !(table.scheme is Pit)
            &&& !reads_a_pit
        },
        Options::inspecting(table, reads_a_pit) matches Err(err) ==> err is InvalidArgument,
        Options::inspecting(table, reads_a_pit) matches Ok(opts) ==> {
            &&& chosen(opts, table.scheme, table.pit_source)
            &&& !opts.dry_run
            &&& !opts.progress
        },
        Options::moving(table, transfer, watched) is Err <==> Options::inspecting(
            table,
            false,
        ) is Err,
        Options::moving(table, transfer, watched) matches Ok(opts) ==> {
            &&& chosen(opts, table.scheme, table.pit_source)
            &&& opts.dry_run == transfer.dry_run
            &&& opts.progress <==> watched && !transfer.no_progress
        },
        chosen(Options::for_pit(table.pit_source), SchemeArg::Pit, table.pit_source),
{
}

/// The table a scheme names, and where and how far to look for a PIT.
pub open spec fn chosen(opts: Options, scheme: SchemeArg, pit: PitSource) -> bool {
    &&& opts.source is Detect <==> scheme is Auto
    &&& opts.source == Source::Table(Scheme::Mbr) <==> scheme is Mbr
    &&& opts.source == Source::Table(Scheme::Gpt) <==> scheme is Gpt
    &&& opts.source is Pit <==> scheme is Pit
    &&& opts.pit_at == pit.pit_offset
    &&& opts.pit_scan is None <==> pit.pit_scan == 0
    &&& opts.pit_scan matches Some(bytes) ==> bytes == pit.pit_scan
}

/// A dump is handed on with the range it resolves to and the file it was given,
/// as it stands; one without a length has none to hand on.
pub proof fn a_dump_is_handed_on_as_resolved<D: RawDevice, O: Output, E: Output>(
    at: World<D::State, O::State, E::State>,
    args: DumpArgs,
    output: Seq<char>,
    opts: Options,
)
    requires
        !opts.dry_run,
    ensures
        ({
            let (answer, after) = app::dump_run::<D, O, E>(at, args, output, opts);
            let (range, seen) = target::resolved::<D, E>(
                at.seen(),
                args.location@,
                args.length,
                opts,
            );
            match range {
                Err(err) => answer == Err::<NextView, ErrorView>(err),
                Ok(range) => match range.length {
                    None => answer is Err && answer->Err_0 is InvalidArgument,
                    Some(length) => {
                        &&& answer matches Ok(NextView::Dump(job)) && {
                            &&& job.offset == range.offset
                            &&& job.length == length
                            &&& job.output == output
                            &&& job.progress == opts.progress
                        }
                        &&& after.out == at.out
                    },
                },
            }
        }),
{
    reveal(app::dump_run);
}

/// A flash is handed on with the range it resolves to, the length of its input
/// and whether it is to be read back; an input longer than its partition is
/// refused.
pub proof fn a_flash_is_handed_on_as_resolved<D: RawDevice, O: Output, E: Output>(
    at: World<D::State, O::State, E::State>,
    job: FlashJobView,
    length: u64,
)
    requires
        !job.opts.dry_run,
    ensures
        ({
            let (answer, after) = app::flash_planned::<D, O, E>(at, job, length);
            let (range, seen) = target::resolved::<D, E>(
                at.seen(),
                job.args.location@,
                None,
                job.opts,
            );
            match range {
                Err(err) => answer == Err::<Option<FlashReadyView>, ErrorView>(err),
                Ok(range) => if range.length matches Some(room) && room < length {
                    answer is Err && answer->Err_0 is InvalidArgument
                } else {
                    &&& answer matches Ok(Some(ready)) && {
                        &&& ready.range == range
                        &&& ready.length == length
                        &&& ready.input == job.input
                        &&& ready.verify == job.args.verify
                        &&& ready.progress == job.opts.progress
                    }
                    &&& after.out == at.out
                },
            }
        }),
{
    reveal(app::flash_planned);
}

/// What a flash that was to be read back is compared over is what it wrote.
pub proof fn what_was_written_is_read_back(ready: FlashReadyView, written: u64)
    ensures
        app::read_back(ready, written) is Some <==> ready.verify,
        app::read_back(ready, written) matches Some(check) ==> {
            &&& check.offset == ready.range.offset
            &&& check.length == written
            &&& check.input == ready.input
            &&& check.progress == ready.progress
        },
{
}

/// The same of a comparison.
pub proof fn a_comparison_is_handed_on_as_resolved<D: RawDevice, O: Output, E: Output>(
    at: World<D::State, O::State, E::State>,
    job: VerifyJobView,
    length: u64,
)
    requires
        !job.opts.dry_run,
    ensures
        ({
            let (answer, after) = app::verify_run::<D, O, E>(at, job, length);
            let (range, seen) = target::resolved::<D, E>(
                at.seen(),
                job.args.location@,
                None,
                job.opts,
            );
            match range {
                Err(err) => answer == Err::<Option<app::CompareReadyView>, ErrorView>(err),
                Ok(range) => if range.length matches Some(room) && room < length {
                    answer is Err && answer->Err_0 is InvalidArgument
                } else {
                    &&& answer matches Ok(Some(ready)) && {
                        &&& ready.offset == range.offset
                        &&& ready.length == length
                        &&& ready.input == job.input
                        &&& ready.progress == job.opts.progress
                    }
                    &&& after.out == at.out
                },
            }
        }),
{
    reveal(app::verify_run);
}

/// A flash of a removable device is handed on with the arguments it was given.
pub proof fn a_removable_device_is_handed_on<D: RawDevice, O: Output, E: Output>(
    at: World<D::State, O::State, E::State>,
    args: FlashArgs,
    input: Seq<char>,
    opts: Options,
)
    requires
        D::described(at.device).removability is Removable,
    ensures
        app::flash_run::<D, O, E>(at, args, input, opts).0 matches Ok(NextView::Flash(job)) && {
            &&& job.args == args
            &&& job.input == input
            &&& job.opts == opts
        },
{
    reveal(app::flash_run);
}

/// The partition table that is read is printed, all of it, and one that cannot
/// be read prints nothing.
pub proof fn a_table_that_is_read_is_printed<D: RawDevice, E: Output>(
    at: World<D::State, Seq<char>, E::State>,
    opts: Options,
)
    requires
        !(opts.source is Pit),
    ensures
        ({
            let (answer, after) = app::parts_run::<D, String, E>(at, opts);
            match target::table_read::<D>(at.seen().medium(), opts).0 {
                Ok(table) => {
                    &&& answer == Ok::<NextView, ErrorView>(NextView::Finished)
                    &&& after.out == at.out + output::as_text(
                        report::parts_report(table, D::described(at.device)),
                    )
                },
                Err(err) => {
                    &&& answer == Err::<NextView, ErrorView>(err)
                    &&& after.out == at.out
                },
            }
        }),
{
    reveal(app::parts_run);
    if let Ok(table) = target::table_read::<D>(at.seen().medium(), opts).0 {
        output::memory_gains_the_lines(
            at.out,
            report::parts_report(table, D::described(at.device)),
        );
    }
}

/// The same of a PIT, under either command that prints one.
pub proof fn a_pit_that_is_read_is_printed<D: RawDevice, E: Output>(
    at: World<D::State, Seq<char>, E::State>,
    opts: Options,
)
    requires
        opts.source is Pit,
    ensures
        ({
            let (answer, after) = app::pit_run::<D, String, E>(at, opts);
            &&& app::parts_run::<D, String, E>(at, opts) == (answer, after)
            &&& match target::located::<D, E>(at.seen(), opts).0 {
                Ok(found) => {
                    &&& answer == Ok::<NextView, ErrorView>(NextView::Finished)
                    &&& after.out == at.out + output::as_text(
                        report::pit_report(found.pit, found.offset, D::described(at.device)),
                    )
                },
                Err(err) => {
                    &&& answer == Err::<NextView, ErrorView>(err)
                    &&& after.out == at.out
                },
            }
        }),
{
    reveal(app::parts_run);
    reveal(app::pit_run);
    if let Ok(found) = target::located::<D, E>(at.seen(), opts).0 {
        output::memory_gains_the_lines(
            at.out,
            report::pit_report(found.pit, found.offset, D::described(at.device)),
        );
    }
}

/// Where a PIT is said to be is where it is read, and nowhere else; where
/// nothing is said it is searched for in the space there is for it.
pub proof fn a_pit_is_read_where_it_is_said_to_be<D: RawDevice>(
    at: Seen<D::State, Seq<char>>,
    opts: Options,
)
    ensures
        ({
            let (answer, after) = target::located::<D, String>(at, opts);
            match opts.pit_at {
                Some(offset) => {
                    let (read, medium) = pit::table_at::<DeviceSectors<D>>(at.medium(), offset);
                    &&& after.device == medium.device
                    &&& after.diag == at.diag
                    &&& answer is Ok <==> read is Ok
                    &&& answer matches Ok(found) ==> {
                        &&& found.offset == offset
                        &&& Ok::<pit::PitView, ErrorView>(found.pit) == read
                    }
                },
                None => {
                    let (space, seen) = target::searchable::<D, String>(at);
                    match space {
                        Err(err) => answer == Err::<pit::FoundView, ErrorView>(err),
                        Ok(space) => answer == pit::searched::<DeviceSectors<D>>(
                            seen.medium(),
                            space,
                            opts.pit_scan,
                        ).0,
                    }
                },
            }
        }),
{
}

/// The space a PIT is searched for in is what the partitions leave over where
/// there is a table, and otherwise the device from its first byte to its last;
/// where its size is not known, as far as a byte can be counted.
pub proof fn the_space_for_a_pit_is_what_is_free<D: RawDevice>(at: Seen<D::State, Seq<char>>)
    ensures
        ({
            let size = D::described(at.device).size_bytes;
            let survey = parts::surveyed::<DeviceSectors<D>>(at.medium()).0;
            match target::searchable::<D, String>(at).0 {
                Err(err) => survey is Damaged && survey->Damaged_0 == err,
                Ok(space) => {
                    &&& !(survey is Damaged)
                    &&& survey matches SurveyView::Table(table) ==> space == gaps::space_between(
                        table.partitions,
                        size,
                    )
                    &&& !(survey is Table) ==> {
                        &&& space.len() == 1
                        &&& space[0].start == 0
                        &&& !space[0].reverse
                        &&& space[0].end == match size {
                            Some(size) => size,
                            None => u64::MAX,
                        }
                    }
                },
            }
        }),
{
}

/// A hexdump by offset prints the bytes that stand there, repeated lines
/// collapsed unless it was told not to, and hands nothing on.
pub proof fn a_hexdump_prints_what_stands_there<E: Output>(
    at: World<MemoryState, Seq<char>, E::State>,
    args: HexArgs,
    opts: Options,
)
    requires
        medium::readable(at.device),
        ranges::regular(at.device.info.logical_sector_size),
        args.location@.offset is Some,
        args.location@.partition is None,
        args.location@.partition_id is None,
        ranges::around(
            args.location@.offset->0 + args.length,
            at.device.info.logical_sector_size as int,
        ) <= at.device.data.len(),
        !opts.dry_run,
    ensures
        ({
            let offset = args.location@.offset->0;
            let bytes = at.device.data.subrange(offset as int, offset + args.length);
            let (answer, after) = app::hex_run::<MemoryDevice, String, E>(at, args, opts);
            &&& answer == Ok::<NextView, ErrorView>(NextView::Finished)
            &&& after.device == at.device
            &&& after.diag == at.diag
            &&& after.out == at.out + hex_layout::whole_text(
                bytes,
                offset,
                hex_layout::digits_for((offset + args.length) as u64) as usize,
                !args.no_squeeze,
            )
        }),
{
    reveal(app::hex_run);
    let offset = args.location@.offset->0;
    ranges::a_look_is_approved_where_the_device_has_it(at.device.info, offset, args.length);
    ranges::a_look_gives_the_bytes_that_are_there(
        Transfer { device: at.device, file: Seq::empty(), trace: at.trace, progress: () },
        offset,
        args.length,
    );
    hex_layout::a_range_is_printed_as_it_stands::<E>(at, offset, args.length, !args.no_squeeze);
}

/// A transfer is told when it is done and never before: one that failed prints
/// nothing, and hands on its failure.
pub proof fn a_transfer_is_told_when_it_is_done<D, F, P>(
    moved: (Result<u64, ErrorView>, Transfer<D, F, P>),
    out: Seq<char>,
    line: spec_fn(u64) -> Seq<char>,
)
    ensures
        ({
            let (answer, after, said) = app::told::<D, F, P, String>(moved, out, line);
            &&& answer == moved.0
            &&& after == moved.1
            &&& answer matches Ok(count) ==> said == out + line(count) + seq!['\n']
            &&& answer is Err ==> said == out
        }),
{
    reveal_strlit("\n");
    assert("\n"@ =~= seq!['\n']);
    if let Ok(count) = moved.0 {
        assert(out + (line(count) + "\n"@) =~= out + line(count) + seq!['\n']);
    }
}

/// A device is said to be writable exactly where it is removable.
pub proof fn only_what_is_removable_is_said_to_be_writable(info: DeviceInfoView)
    ensures
        app::target_lines(info).len() == 2,
        app::target_lines(info)[0] == "target: "@ + report::description(info),
        info.removability is Removable ==> app::target_lines(info)[1] == "writable: "@ + "true"@,
        !(info.removability is Removable) ==> app::target_lines(info)[1] == "writable: "@
            + "false"@,
{
}

/// What a rehearsal found of each volume is told, volume by volume, and one that
/// could not be locked is never told as locked.
pub proof fn a_rehearsal_tells_every_volume(locks: Seq<VolumeLockView>)
    requires
        locks.len() > 0,
    ensures
        ({
            let lines = report::rehearsal(Ok(locks));
            &&& lines.len() == 1 + locks.len()
            &&& forall|i: int|
                0 <= i < locks.len() ==> {
                    let line = lines[1 + i];
                    let head = "  volume "@ + (#[trigger] locks[i]).volume;
                    &&& locks[i].locked ==> line == head + " locked"@
                    &&& !locks[i].locked ==> (head + " NOT locked"@).is_prefix_of(line)
                    &&& !locks[i].locked ==> match locks[i].error {
                        Some(err) => line == head + " NOT locked - "@ + err.text(),
                        None => line == head + " NOT locked"@,
                    }
                }
        }),
{
    reveal_strlit(" NOT locked");
    reveal_strlit(" NOT locked - ");
    let lines = report::rehearsal(Ok(locks));
    assert forall|i: int| 0 <= i < locks.len() implies {
        let line = lines[1 + i];
        let head = "  volume "@ + (#[trigger] locks[i]).volume;
        &&& locks[i].locked ==> line == head + " locked"@
        &&& !locks[i].locked ==> (head + " NOT locked"@).is_prefix_of(line)
        &&& !locks[i].locked ==> match locks[i].error {
            Some(err) => line == head + " NOT locked - "@ + err.text(),
            None => line == head + " NOT locked"@,
        }
    } by {
        let line = lines[1 + i];
        let head = "  volume "@ + locks[i].volume;
        let said = head + " NOT locked"@;
        assert(line == report::volume_line(locks[i]));
        if !locks[i].locked {
            assert(line.subrange(0, said.len() as int) =~= said);
        }
    }
}

/// The table that is read is the one the scheme names: an MBR as an MBR, a GPT as
/// a GPT, and where none was named the one that the device is found to carry.
pub proof fn the_scheme_names_the_table<D: RawDevice>(medium: Recorded<D::State>, opts: Options)
    ensures
        opts.source == Source::Table(Scheme::Mbr) ==> target::table_read::<D>(medium, opts)
            == parts::mbr::table::<DeviceSectors<D>>(medium),
        opts.source == Source::Table(Scheme::Gpt) ==> target::table_read::<D>(medium, opts)
            == parts::gpt::table::<DeviceSectors<D>>(medium),
        opts.source is Detect ==> {
            let (found, after) = parts::detection::<DeviceSectors<D>>(medium);
            &&& target::table_read::<D>(medium, opts).1 == after
            &&& found matches Ok(DetectedView::Table(table)) ==> target::table_read::<D>(
                medium,
                opts,
            ).0 == Ok::<TableView, ErrorView>(table)
            &&& !(found matches Ok(DetectedView::Table(_))) ==> target::table_read::<D>(
                medium,
                opts,
            ).0 is Err
        },
{
}

} // verus!
