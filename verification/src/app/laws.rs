//! What holds of every command, whatever device it runs against.

use vstd::prelude::*;

use crate::app;
use crate::app::target;
use crate::app::target::{Options, Range, Seen, Source};
use crate::app::{FlashJobView, Scene, Surroundings, VerifyJobView, World};
use crate::cli::{
    Command, DumpArgs, FlashArgs, HexArgs, LocationView, ProbeArgs, SchemeArg, TableSource,
};
use crate::device::{Access, Backend, DeviceInfoView, RawDevice};
use crate::error::ErrorView;
use crate::hexdump::{Dumping, HexView, Hexdump};
use crate::output::Output;
use crate::parts;
use crate::parts::gaps;
use crate::parts::{DeviceSectors, SurveyView};
use crate::pit;
use crate::reading;
use crate::search;
use crate::trace::StepView;
use crate::transfer;
use crate::transfer::Transfer;

verus! {

/// A range that has a length lies on a device that says how large it is. A
/// device of the largest size that can be said is left out: there is no end to
/// see a range run past.
pub open spec fn lies_on(offset: u64, length: u64, info: DeviceInfoView) -> bool {
    info.size_bytes matches Some(size) ==> size < u64::MAX ==> offset + length <= size
}

/// A range resolved from a partition has a length, lies on the device, and is
/// as long as was asked for where a length was.
pub proof fn a_resolved_partition_lies_on_the_device<D: RawDevice, E: Output>(
    at: Seen<D::State, E::State>,
    location: LocationView,
    explicit_length: Option<u64>,
    opts: Options,
)
    requires
        target::selector_of(location) is Some,
    ensures
        target::resolved::<D, E>(at, location, explicit_length, opts).0 matches Ok(range) ==> {
            &&& range.length is Some
            &&& lies_on(range.offset, range.length->0, D::described(at.device))
            &&& explicit_length is Some ==> range.length == explicit_length
        },
{
}

/// A range given by its offset is taken as it stands: no table is read, nothing
/// is said, and the device is not touched.
pub proof fn an_offset_is_taken_as_it_stands<D: RawDevice, E: Output>(
    at: Seen<D::State, E::State>,
    location: LocationView,
    explicit_length: Option<u64>,
    opts: Options,
)
    requires
        location.offset is Some,
        target::selector_of(location) is None,
    ensures
        target::resolved::<D, E>(at, location, explicit_length, opts) == (
            Ok::<Range, ErrorView>(Range { offset: location.offset->0, length: explicit_length }),
            at,
        ),
{
}

/// The text ends in this line.
pub open spec fn ends_with_line(text: Seq<char>, line: Seq<char>) -> bool {
    exists|before: Seq<char>| text == #[trigger] (before + (line + "\n"@))
}

/// The last line names a partition and the range that starts where it does.
pub open spec fn tells(text: Seq<char>, range: Range) -> bool {
    ||| exists|table: parts::TableView, part: parts::PartitionView|
        {
            &&& ends_with_line(text, #[trigger] target::part_span(table, part))
            &&& part.start == range.offset
        }
    ||| exists|part: pit::PartitionView|
        {
            &&& ends_with_line(text, #[trigger] target::entry_span(part))
            &&& part.byte_offset() == range.offset
        }
}

/// A range resolved from a partition is told before anything acts on it.
pub proof fn a_resolved_range_is_told_before_it_is_used<D: RawDevice>(
    at: Seen<D::State, Seq<char>>,
    location: LocationView,
    explicit_length: Option<u64>,
    opts: Options,
)
    requires
        target::selector_of(location) is Some,
    ensures
        ({
            let (answer, after) = target::resolved::<D, String>(
                at,
                location,
                explicit_length,
                opts,
            );
            answer matches Ok(range) ==> tells(after.diag, range)
        }),
{
    let (answer, after) = target::resolved::<D, String>(at, location, explicit_length, opts);
    let selector = target::selector_of(location)->0;
    if answer is Ok {
        if opts.source != Source::Pit {
            let (read, medium) = target::table_read::<D>(at.medium(), opts);
            let part = target::selected_part(read->Ok_0, selector)->Ok_0;
            let line = target::part_span(read->Ok_0, part);
            assert(after.diag == at.diag + (line + "\n"@));
            assert(ends_with_line(after.diag, line));
        } else {
            let (found, seen) = target::located::<D, String>(at, opts);
            let part = target::selected_entry(found->Ok_0.pit, selector)->Ok_0;
            let line = target::entry_span(part);
            assert(after.diag == seen.diag + (line + "\n"@));
            assert(ends_with_line(after.diag, line));
        }
    }
}

/// Only the scheme chooses the table: where a PIT is says nothing about it, and
/// an offset that nothing reads is refused.
pub proof fn a_pit_offset_does_not_choose_the_table(
    one: TableSource,
    other: TableSource,
    reads_a_pit: bool,
)
    requires
        one.scheme == other.scheme,
    ensures
        Options::inspecting(one, reads_a_pit) matches Ok(first) ==> Options::inspecting(
            other,
            reads_a_pit,
        ) matches Ok(second) ==> first.source == second.source,
        one.pit_source.pit_offset is Some && one.scheme != SchemeArg::Pit && !reads_a_pit
            ==> Options::inspecting(one, reads_a_pit) is Err,
{
}

/// Rehearsing a hexdump of a range given by its offset touches nothing: the
/// device is as it was, nothing goes on the record, and it comes to the same on
/// any device that reports the same of itself.
pub proof fn a_rehearsed_hexdump_touches_nothing<D: RawDevice, O: Output, E: Output>(
    at: World<D::State, O::State, E::State>,
    other: D::State,
    args: HexArgs,
    opts: Options,
)
    requires
        opts.dry_run,
        args.location@.offset is Some,
        target::selector_of(args.location@) is None,
        D::described(other) == D::described(at.device),
    ensures
        ({
            let (answer, after) = app::hex_run::<D, O, E>(at, args, opts);
            let there = World { device: other, ..at };
            &&& after.device == at.device
            &&& after.trace == at.trace
            &&& answer matches Ok(next) ==> next is Finished
            &&& app::hex_run::<D, O, E>(there, args, opts) == (
                answer,
                World { device: other, ..after },
            )
        }),
{
    reveal(app::hex_run);
}

/// The same of a dump.
pub proof fn a_rehearsed_dump_touches_nothing<D: RawDevice, O: Output, E: Output>(
    at: World<D::State, O::State, E::State>,
    other: D::State,
    args: DumpArgs,
    output: Seq<char>,
    opts: Options,
)
    requires
        opts.dry_run,
        args.location@.offset is Some,
        target::selector_of(args.location@) is None,
        D::described(other) == D::described(at.device),
    ensures
        ({
            let (answer, after) = app::dump_run::<D, O, E>(at, args, output, opts);
            let there = World { device: other, ..at };
            &&& after.device == at.device
            &&& after.trace == at.trace
            &&& answer matches Ok(next) ==> next is Finished
            &&& app::dump_run::<D, O, E>(there, args, output, opts) == (
                answer,
                World { device: other, ..after },
            )
        }),
{
    reveal(app::dump_run);
}

/// The same of a flash.
pub proof fn a_rehearsed_flash_touches_nothing<D: RawDevice, O: Output, E: Output>(
    at: World<D::State, O::State, E::State>,
    other: D::State,
    job: FlashJobView,
    length: u64,
)
    requires
        job.opts.dry_run,
        job.args.location@.offset is Some,
        target::selector_of(job.args.location@) is None,
        D::described(other) == D::described(at.device),
    ensures
        ({
            let (answer, after) = app::flash_planned::<D, O, E>(at, job, length);
            let there = World { device: other, ..at };
            &&& after.device == at.device
            &&& after.trace == at.trace
            &&& answer matches Ok(ready) ==> ready is None
            &&& app::flash_planned::<D, O, E>(there, job, length) == (
                answer,
                World { device: other, ..after },
            )
        }),
{
    reveal(app::flash_planned);
}

/// The same of a comparison.
pub proof fn a_rehearsed_comparison_touches_nothing<D: RawDevice, O: Output, E: Output>(
    at: World<D::State, O::State, E::State>,
    other: D::State,
    job: VerifyJobView,
    length: u64,
)
    requires
        job.opts.dry_run,
        job.args.location@.offset is Some,
        target::selector_of(job.args.location@) is None,
        D::described(other) == D::described(at.device),
    ensures
        ({
            let (answer, after) = app::verify_run::<D, O, E>(at, job, length);
            let there = World { device: other, ..at };
            &&& after.device == at.device
            &&& after.trace == at.trace
            &&& answer matches Ok(ready) ==> ready is None
            &&& app::verify_run::<D, O, E>(there, job, length) == (
                answer,
                World { device: other, ..after },
            )
        }),
{
    reveal(app::verify_run);
}

/// However its range is given, a rehearsal ends before any transfer: it hands
/// back no file to create, nothing to write and nothing to compare. What it did
/// to the device is what resolving the range does.
pub proof fn a_rehearsal_never_becomes_a_transfer<D: RawDevice, O: Output, E: Output>(
    at: World<D::State, O::State, E::State>,
    dump: DumpArgs,
    flash: FlashJobView,
    verify: VerifyJobView,
    path: Seq<char>,
    length: u64,
    opts: Options,
)
    requires
        opts.dry_run,
        flash.opts.dry_run,
        verify.opts.dry_run,
    ensures
        ({
            let (answer, after) = app::dump_run::<D, O, E>(at, dump, path, opts);
            let (_, seen) = target::resolved::<D, E>(
                at.seen(),
                dump.location@,
                dump.length,
                opts,
            );
            &&& answer matches Ok(next) ==> next is Finished
            &&& after.device == seen.device
        }),
        ({
            let (answer, after) = app::flash_planned::<D, O, E>(at, flash, length);
            let (_, seen) = target::resolved::<D, E>(
                at.seen(),
                flash.args.location@,
                None,
                flash.opts,
            );
            &&& answer matches Ok(ready) ==> ready is None
            &&& after.device == seen.device
        }),
        ({
            let (answer, after) = app::verify_run::<D, O, E>(at, verify, length);
            let (_, seen) = target::resolved::<D, E>(
                at.seen(),
                verify.args.location@,
                None,
                verify.opts,
            );
            &&& answer matches Ok(ready) ==> ready is None
            &&& after.device == seen.device
        }),
{
    reveal(app::dump_run);
    reveal(app::flash_planned);
    reveal(app::verify_run);
}

/// A rehearsed flash asks the host for its device once, for reading, and for
/// nothing else, and leaves the device it was given as it was given.
pub proof fn a_rehearsed_flash_opens_for_reading<B: Backend, O: Output, E: Output>(
    args: FlashArgs,
    around: Surroundings,
    at: Scene<B::State, <B::Device as RawDevice>::State, O::State, E::State>,
)
    requires
        args.transfer.dry_run,
        at.device is None,
    ensures
        ({
            let (answer, after) = app::ran::<B, O, E>(Command::Flash(args), around, at);
            let (given, trace, backend) = B::open_step(
                at.backend,
                args.device@,
                Access::Read,
                at.trace,
            );
            if Options::moving(args.table, args.transfer, around.watched) is Err {
                &&& answer is Err
                &&& after == at
            } else {
                &&& after.backend == backend
                &&& after.trace == trace
                &&& after.device == given.ok()
                &&& given is Err ==> answer is Err
            }
        }),
{
    reveal(app::flash_run);
}

/// A flash or a comparison that goes ahead fits its partition: not a byte of
/// the input lands on, or is compared with, what lies behind it.
pub proof fn an_input_fits_its_partition<D: RawDevice, O: Output, E: Output>(
    at: World<D::State, O::State, E::State>,
    flash: FlashJobView,
    verify: VerifyJobView,
    length: u64,
)
    requires
        target::selector_of(flash.args.location@) is Some,
        target::selector_of(verify.args.location@) is Some,
    ensures
        app::flash_planned::<D, O, E>(at, flash, length).0 matches Ok(Some(ready)) ==> {
            &&& ready.length == length
            &&& ready.range.length is Some
            &&& length <= ready.range.length->0
            &&& lies_on(ready.range.offset, ready.range.length->0, D::described(at.device))
        },
        app::verify_run::<D, O, E>(at, verify, length).0 matches Ok(Some(ready)) ==> {
            &&& ready.length == length
            &&& lies_on(ready.offset, length, D::described(at.device))
        },
{
    reveal(app::flash_planned);
    reveal(app::verify_run);
    a_resolved_partition_lies_on_the_device::<D, E>(
        at.seen(),
        flash.args.location@,
        None,
        flash.opts,
    );
    a_resolved_partition_lies_on_the_device::<D, E>(
        at.seen(),
        verify.args.location@,
        None,
        verify.opts,
    );
}

/// A device that is not removable is refused before its input is opened,
/// whether the flash is a rehearsal or not, and nothing is done to it, to the
/// record or to the streams.
pub proof fn a_flash_stops_at_a_device_that_is_not_removable<D: RawDevice, O: Output, E: Output>(
    at: World<D::State, O::State, E::State>,
    args: FlashArgs,
    input: Seq<char>,
    opts: Options,
)
    ensures
        app::flash_run::<D, O, E>(at, args, input, opts).0 is Ok <==> D::described(
            at.device,
        ).removability is Removable,
        app::flash_run::<D, O, E>(at, args, input, opts).0 matches Err(err) ==> err.code() == 4,
        app::flash_run::<D, O, E>(at, args, input, opts).1 == at,
{
    reveal(app::flash_run);
}

/// A PIT that was searched for on a device with a partition table lies in no
/// partition of it.
pub proof fn a_pit_is_searched_for_outside_the_partitions<D: RawDevice, E: Output>(
    at: Seen<D::State, E::State>,
    table: parts::TableView,
    opts: Options,
)
    requires
        opts.pit_at is None,
        parts::surveyed::<DeviceSectors<D>>(at.medium()).0 == SurveyView::Table(table),
    ensures
        ({
            let (_, medium) = parts::surveyed::<DeviceSectors<D>>(at.medium());
            let sector = D::described(medium.device).logical_sector_size;
            target::located::<D, E>(at, opts).0 matches Ok(found) ==> forall|byte: int|
                found.offset <= byte < found.offset + sector ==> !#[trigger] gaps::covered(
                    table.partitions,
                    byte,
                )
        }),
{
    let (_, medium) = parts::surveyed::<DeviceSectors<D>>(at.medium());
    search::a_find_lies_in_no_partition::<DeviceSectors<D>>(
        medium,
        table.partitions,
        D::described(at.device).size_bytes,
        opts.pit_scan,
    );
}

/// A device whose table is damaged is not searched for a PIT: the damage is
/// reported, and nothing is said of a search.
pub proof fn a_damaged_table_is_not_searched<D: RawDevice, E: Output>(
    at: Seen<D::State, E::State>,
    err: ErrorView,
    opts: Options,
)
    requires
        opts.pit_at is None,
        parts::surveyed::<DeviceSectors<D>>(at.medium()).0 == SurveyView::Damaged(err),
    ensures
        target::located::<D, E>(at, opts) == (
            Err::<pit::FoundView, ErrorView>(err),
            at.on(parts::surveyed::<DeviceSectors<D>>(at.medium()).1),
        ),
{
}

/// A device whose table is not there, cannot be told or cannot be read is
/// searched from its start to its end, once the reason has been told.
pub proof fn a_device_without_a_table_is_searched_whole<D: RawDevice, E: Output>(
    at: Seen<D::State, E::State>,
)
    requires
        target::boundless(parts::surveyed::<DeviceSectors<D>>(at.medium()).0) is Some,
    ensures
        target::searchable::<D, E>(at).0 matches Ok(space) ==> space == seq![
            target::all_of(D::described(at.device).size_bytes),
        ],
{
}

/// Resolving a range only reads the device.
pub proof fn resolving_only_reads<D: RawDevice, E: Output>(
    kept: spec_fn(D::State) -> bool,
    at: Seen<D::State, E::State>,
    location: LocationView,
    explicit_length: Option<u64>,
    opts: Options,
)
    requires
        reading::kept_by_device_reads::<D>(kept),
        kept(at.device),
    ensures
        kept(target::resolved::<D, E>(at, location, explicit_length, opts).1.device),
        kept(target::located::<D, E>(at, opts).1.device),
        kept(target::table_read::<D>(at.medium(), opts).1.device),
{
    let held = reading::recorded::<D>(kept);
    reading::sectors_are_read_from_the_device::<D>(kept);
    reading::reading_a_table_only_reads::<DeviceSectors<D>>(
        held,
        at.medium(),
        opts.source.scheme(),
    );
    reading::detecting_only_reads::<DeviceSectors<D>>(held, at.medium());
    if let Some(offset) = opts.pit_at {
        reading::reading_a_pit_only_reads::<DeviceSectors<D>>(held, at.medium(), offset);
    }
    let (space, seen) = target::searchable::<D, E>(at);
    assert(held(seen.medium()));
    if let Ok(space) = space {
        reading::searching_only_reads::<DeviceSectors<D>>(
            held,
            seen.medium(),
            space,
            opts.pit_scan,
        );
    }
}

proof fn showing_only_reads<D: RawDevice, O: Output, E: Output>(
    kept: spec_fn(D::State) -> bool,
    at: World<D::State, O::State, E::State>,
    opts: Options,
)
    requires
        reading::kept_by_device_reads::<D>(kept),
        kept(at.device),
    ensures
        kept(app::pit_shown::<D, O, E>(at, opts).1.device),
        kept(app::parts_shown::<D, O, E>(at, opts).1.device),
        kept(app::pit_run::<D, O, E>(at, opts).1.device),
        kept(app::parts_run::<D, O, E>(at, opts).1.device),
{
    reveal(app::pit_run);
    reveal(app::parts_run);
    let seen = at.seen();
    resolving_only_reads::<D, E>(kept, seen, arbitrary(), None, opts);
}

proof fn a_hexdump_only_reads<D: RawDevice, O: Output, E: Output>(
    kept: spec_fn(D::State) -> bool,
    at: World<D::State, O::State, E::State>,
    args: HexArgs,
    opts: Options,
)
    requires
        reading::kept_by_device_reads::<D>(kept),
        kept(at.device),
    ensures
        kept(app::hex_run::<D, O, E>(at, args, opts).1.device),
{
    reveal(app::hex_run);
    resolving_only_reads::<D, E>(kept, at.seen(), args.location@, Some(args.length), opts);
    let (range, seen) = target::resolved::<D, E>(
        at.seen(),
        args.location@,
        Some(args.length),
        opts,
    );
    let at = at.past(seen);
    if let Ok(range) = range {
        let length = match range.length {
            Some(length) => length,
            None => args.length,
        };
        if let Ok(end) = transfer::read_range_check(
            D::described(at.device),
            range.offset,
            length,
        ) {
            reading::looking_only_reads::<D, O, Hexdump>(
                kept,
                Transfer {
                    device: at.device,
                    file: Dumping {
                        dump: HexView::fresh(range.offset, end, !args.no_squeeze),
                        out: at.out,
                    },
                    trace: at.trace,
                    progress: (),
                },
                range.offset,
                length,
            );
        }
    }
}

proof fn a_probe_only_reads<D: RawDevice, O: Output, E: Output>(
    kept: spec_fn(D::State) -> bool,
    at: World<D::State, O::State, E::State>,
    args: ProbeArgs,
    opts: Options,
    rehearsal: Seq<Seq<char>>,
)
    requires
        reading::kept_by_device_reads::<D>(kept),
        kept(at.device),
    ensures
        kept(app::probe_run::<D, O, E>(at, args, opts, rehearsal).1.device),
{
    reveal(app::probe_run);
    let (said, out) = crate::output::lines_put::<O>(at.out, rehearsal, 0);
    let at = World { out, ..at };
    showing_only_reads::<D, O, E>(kept, at, opts);
    let (shown, at) = if said is Ok && args.parts {
        app::parts_shown::<D, O, E>(at, opts)
    } else {
        (said, at)
    };
    showing_only_reads::<D, O, E>(kept, at, opts);
    let (shown, at) = if shown is Ok && args.pit {
        app::pit_shown::<D, O, E>(at, opts)
    } else {
        (shown, at)
    };
    resolving_only_reads::<D, E>(kept, at.seen(), args.location@, None, opts);
}

/// Before a transfer begins, nothing is done to a device but read it: a plan
/// leaves as it was whatever no read changes.
pub proof fn planning_only_reads<D: RawDevice, O: Output, E: Output>(
    kept: spec_fn(D::State) -> bool,
    at: World<D::State, O::State, E::State>,
    dump: DumpArgs,
    flash: FlashJobView,
    verify: VerifyJobView,
    path: Seq<char>,
    length: u64,
    opts: Options,
)
    requires
        reading::kept_by_device_reads::<D>(kept),
        kept(at.device),
    ensures
        kept(app::dump_run::<D, O, E>(at, dump, path, opts).1.device),
        kept(app::flash_planned::<D, O, E>(at, flash, length).1.device),
        kept(app::verify_run::<D, O, E>(at, verify, length).1.device),
{
    reveal(app::dump_run);
    reveal(app::flash_planned);
    reveal(app::verify_run);
    resolving_only_reads::<D, E>(kept, at.seen(), dump.location@, dump.length, opts);
    resolving_only_reads::<D, E>(kept, at.seen(), flash.args.location@, None, flash.opts);
    resolving_only_reads::<D, E>(kept, at.seen(), verify.args.location@, None, verify.opts);
}

/// No command does anything to the device it opens but read it: of what no read
/// changes, the device is left as the host gave it. Writing is left to
/// [`app::finish_flash`](crate::app::finish_flash).
pub proof fn a_run_only_reads<B: Backend, O: Output, E: Output>(
    kept: spec_fn(<B::Device as RawDevice>::State) -> bool,
    command: Command,
    around: Surroundings,
    at: Scene<B::State, <B::Device as RawDevice>::State, O::State, E::State>,
)
    requires
        reading::kept_by_device_reads::<B::Device>(kept),
        forall|backend: B::State, id: Seq<char>, access: Access, trace: Seq<StepView>|
            (#[trigger] B::open_step(backend, id, access, trace)).0 matches Ok(device) ==> kept(
                device,
            ),
        at.device is None,
    ensures
        app::ran::<B, O, E>(command, around, at).1.device matches Some(device) ==> kept(device),
{
    match command {
        Command::List => {},
        Command::Probe(args) => {
            if let Ok(opts) = Options::inspecting(args.table, args.pit) {
                a_probed_device_is_only_read::<B, O, E>(kept, at, args, opts);
            }
        },
        Command::Parts(args) => {
            if let Ok(opts) = Options::inspecting(args.table, false) {
                let (given, trace, _) = B::open_step(
                    at.backend,
                    args.device@,
                    Access::Read,
                    at.trace,
                );
                if let Ok(device) = given {
                    showing_only_reads::<B::Device, O, E>(
                        kept,
                        World { device, trace, out: at.out, diag: at.diag },
                        opts,
                    );
                }
            }
        },
        Command::Pit(args) => {
            let opts = Options::for_pit(args.pit_source);
            let (given, trace, _) = B::open_step(at.backend, args.device@, Access::Read, at.trace);
            if let Ok(device) = given {
                showing_only_reads::<B::Device, O, E>(
                    kept,
                    World { device, trace, out: at.out, diag: at.diag },
                    opts,
                );
            }
        },
        Command::Hex(args) => {
            if let Ok(opts) = Options::inspecting(args.table, false) {
                let opts = Options { dry_run: args.dry_run, ..opts };
                let (given, trace, _) = B::open_step(
                    at.backend,
                    args.device@,
                    Access::Read,
                    at.trace,
                );
                if let Ok(device) = given {
                    a_hexdump_only_reads::<B::Device, O, E>(
                        kept,
                        World { device, trace, out: at.out, diag: at.diag },
                        args,
                        opts,
                    );
                }
            }
        },
        Command::Dump(args) => {
            if let Ok(opts) = Options::moving(args.table, args.transfer, around.watched) {
                let (given, trace, _) = B::open_step(
                    at.backend,
                    args.device@,
                    Access::Read,
                    at.trace,
                );
                if let Ok(device) = given {
                    planning_only_reads::<B::Device, O, E>(
                        kept,
                        World { device, trace, out: at.out, diag: at.diag },
                        args,
                        arbitrary(),
                        arbitrary(),
                        crate::longpath::opened_as(args.output@, around.absolute_form()),
                        0,
                        opts,
                    );
                }
            }
        },
        Command::Flash(args) => {
            reveal(app::flash_run);
        },
        Command::Verify(args) => {},
    }
}

proof fn a_probed_device_is_only_read<B: Backend, O: Output, E: Output>(
    kept: spec_fn(<B::Device as RawDevice>::State) -> bool,
    at: Scene<B::State, <B::Device as RawDevice>::State, O::State, E::State>,
    args: ProbeArgs,
    opts: Options,
)
    requires
        reading::kept_by_device_reads::<B::Device>(kept),
        forall|backend: B::State, id: Seq<char>, access: Access, trace: Seq<StepView>|
            (#[trigger] B::open_step(backend, id, access, trace)).0 matches Ok(device) ==> kept(
                device,
            ),
        at.device is None,
    ensures
        app::probed::<B, O, E>(at, args, opts).1.device matches Some(device) ==> kept(device),
{
    reveal(app::probe_opened);
    let (named, trace, backend) = B::enumerate_step(at.backend, at.trace);
    if let Ok(infos) = named {
        let (said, out) = crate::output::lines_put::<O>(
            at.out,
            app::report::device_lines("device: "@, infos),
            0,
        );
        let (given, trace, backend) = B::open_step(backend, args.device@, Access::Read, trace);
        if let Ok(device) = given {
            let info = B::Device::described(device);
            let (said, out) = crate::output::lines_put::<O>(out, app::target_lines(info), 0);
            let (lines, trace, backend) = app::rehearsed::<B>(backend, args.device@, info, trace);
            a_probe_only_reads::<B::Device, O, E>(
                kept,
                World { device, trace, out, diag: at.diag },
                args,
                opts,
                lines,
            );
        }
    }
}

/// What a host keeps while it is asked which devices there are, and for a
/// device to read.
pub open spec fn kept_by_asking<B: Backend>(kept: spec_fn(B::State) -> bool) -> bool {
    &&& forall|backend: B::State, trace: Seq<StepView>|
        kept(backend) ==> kept((#[trigger] B::enumerate_step(backend, trace)).2)
    &&& forall|backend: B::State, id: Seq<char>, trace: Seq<StepView>|
        kept(backend) ==> kept((#[trigger] B::open_step(backend, id, Access::Read, trace)).2)
}

/// No command but a flash that is not a rehearsal asks the host for a device to
/// write, and none but a probe asks it to rehearse a write.
pub proof fn only_a_flash_opens_for_writing<B: Backend, O: Output, E: Output>(
    kept: spec_fn(B::State) -> bool,
    command: Command,
    around: Surroundings,
    at: Scene<B::State, <B::Device as RawDevice>::State, O::State, E::State>,
)
    requires
        kept_by_asking::<B>(kept),
        kept(at.backend),
        command is Probe ==> forall|backend: B::State, id: Seq<char>, trace: Seq<StepView>|
            kept(backend) ==> kept((#[trigger] B::rehearse_step(backend, id, trace)).2),
        command matches Command::Flash(args) ==> args.transfer.dry_run,
    ensures
        kept(app::ran::<B, O, E>(command, around, at).1.backend),
{
    reveal(app::probe_opened);
}

/// A comparison asks for no more than to read, either.
pub proof fn a_comparison_opens_for_reading<B: Backend, O: Output, E: Output>(
    at: Scene<B::State, <B::Device as RawDevice>::State, O::State, E::State>,
    job: VerifyJobView,
    length: u64,
)
    ensures
        app::verify_planned::<B, O, E>(at, job, length).1.backend == B::open_step(
            at.backend,
            job.args.device@,
            Access::Read,
            at.trace,
        ).2,
{
}

/// A probe never has a write rehearsed on a device that is not removable: it
/// says that it was skipped, and the host is asked which devices there are and
/// for one to read, and for nothing else.
pub proof fn a_write_is_not_rehearsed_where_it_would_be_refused<
    B: Backend,
    O: Output,
    E: Output,
>(
    args: ProbeArgs,
    at: Scene<B::State, <B::Device as RawDevice>::State, O::State, E::State>,
    opts: Options,
)
    requires
        ({
            let (_, trace, asked) = B::enumerate_step(at.backend, at.trace);
            B::open_step(asked, args.device@, Access::Read, trace).0 matches Ok(device) ==> !(
            B::Device::described(device).removability is Removable)
        }),
    ensures
        ({
            let (_, trace, asked) = B::enumerate_step(at.backend, at.trace);
            let (given, trace, opened) = B::open_step(asked, args.device@, Access::Read, trace);
            let after = app::probed::<B, O, E>(at, args, opts).1;
            &&& after.backend == asked || after.backend == opened
            &&& given matches Ok(device) ==> {
                let info = B::Device::described(device);
                app::rehearsed::<B>(opened, args.device@, info, trace) == (
                    app::skipped(info),
                    trace,
                    opened,
                )
            }
        }),
{
    reveal(app::probe_opened);
}

} // verus!
