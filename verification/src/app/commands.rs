//! Each command opens its own device, once and as far as it has to, and does its
//! own work on it.

use vstd::prelude::*;

use crate::app;
use crate::app::outcomes;
use crate::app::report;
use crate::app::target;
use crate::app::target::Options;
use crate::app::{NextView, Scene, Surroundings, VerifyJobView, World};
use crate::cli::{
    Command, DumpArgs, FlashArgs, HexArgs, PartsArgs, PitArgs, ProbeArgs, SchemeArg, VerifyArgs,
};
use crate::device::{Access, Backend, DeviceInfoView, RawDevice};
use crate::error::ErrorView;
use crate::longpath;
use crate::output;
use crate::output::Output;
use crate::trace::StepView;

verus! {

/// A run left the host as it was once the device was open, and everything else
/// as the work on the device left it.
pub open spec fn left<B, D, O, E>(
    after: Scene<B, D, O, E>,
    backend: B,
    world: World<D, O, E>,
) -> bool {
    &&& after.backend == backend
    &&& after.device == Some(world.device)
    &&& after.trace == world.trace
    &&& after.out == world.out
    &&& after.diag == world.diag
}

/// `rawio parts` opens the device it names for reading and prints the table that
/// its arguments choose.
pub proof fn parts_prints_the_table_that_was_chosen<B: Backend, O: Output, E: Output>(
    args: PartsArgs,
    around: Surroundings,
    at: Scene<B::State, <B::Device as RawDevice>::State, O::State, E::State>,
)
    requires
        args.table.pit_source.pit_offset is None || args.table.scheme is Pit,
    ensures
        ({
            let (answer, after) = app::ran::<B, O, E>(Command::Parts(args), around, at);
            let (given, trace, backend) = B::open_step(
                at.backend,
                args.device@,
                Access::Read,
                at.trace,
            );
            match given {
                Err(err) => answer == Err::<NextView, ErrorView>(ErrorView::Device(err)),
                Ok(device) => exists|opts: Options|
                    {
                        let world = World { device, trace, out: at.out, diag: at.diag };
                        let (shown, done) = app::parts_run::<B::Device, O, E>(
                            world,
                            opts,
                        );
                        &&& #[trigger] outcomes::chosen(opts, args.table.scheme, args.table.pit_source)
                        &&& answer == shown
                        &&& left(after, backend, done)
                    },
            }
        }),
{
    let opts = Options::inspecting(args.table, false)->Ok_0;
    let (given, trace, _) = B::open_step(at.backend, args.device@, Access::Read, at.trace);
    if let Ok(device) = given {
        let world = World { device, trace, out: at.out, diag: at.diag };
        let _ = app::parts_run::<B::Device, O, E>(world, opts);
        assert(outcomes::chosen(opts, args.table.scheme, args.table.pit_source));
    }
}

/// `rawio pit` opens the device it names for reading and prints its PIT.
pub proof fn pit_prints_the_pit<B: Backend, O: Output, E: Output>(
    args: PitArgs,
    around: Surroundings,
    at: Scene<B::State, <B::Device as RawDevice>::State, O::State, E::State>,
)
    ensures
        ({
            let (answer, after) = app::ran::<B, O, E>(Command::Pit(args), around, at);
            let (given, trace, backend) = B::open_step(
                at.backend,
                args.device@,
                Access::Read,
                at.trace,
            );
            match given {
                Err(err) => answer == Err::<NextView, ErrorView>(ErrorView::Device(err)),
                Ok(device) => exists|opts: Options|
                    {
                        let world = World { device, trace, out: at.out, diag: at.diag };
                        let (shown, done) = app::pit_run::<B::Device, O, E>(
                            world,
                            opts,
                        );
                        &&& #[trigger] outcomes::chosen(opts, SchemeArg::Pit, args.pit_source)
                        &&& answer == shown
                        &&& left(after, backend, done)
                    },
            }
        }),
{
    let opts = Options::for_pit(args.pit_source);
    let (given, trace, _) = B::open_step(at.backend, args.device@, Access::Read, at.trace);
    if let Ok(device) = given {
        let world = World { device, trace, out: at.out, diag: at.diag };
        let _ = app::pit_run::<B::Device, O, E>(world, opts);
        assert(outcomes::chosen(opts, SchemeArg::Pit, args.pit_source));
    }
}

/// `rawio hex` opens the device it names for reading and prints its range, or
/// only says that it would.
pub proof fn hex_prints_its_range<B: Backend, O: Output, E: Output>(
    args: HexArgs,
    around: Surroundings,
    at: Scene<B::State, <B::Device as RawDevice>::State, O::State, E::State>,
)
    requires
        args.table.pit_source.pit_offset is None || args.table.scheme is Pit,
    ensures
        ({
            let (answer, after) = app::ran::<B, O, E>(Command::Hex(args), around, at);
            let (given, trace, backend) = B::open_step(
                at.backend,
                args.device@,
                Access::Read,
                at.trace,
            );
            match given {
                Err(err) => answer == Err::<NextView, ErrorView>(ErrorView::Device(err)),
                Ok(device) => exists|opts: Options|
                    {
                        let world = World { device, trace, out: at.out, diag: at.diag };
                        let (shown, done) = app::hex_run::<B::Device, O, E>(
                            world,
                            args,
                            opts,
                        );
                        &&& #[trigger] outcomes::chosen(opts, args.table.scheme, args.table.pit_source)
                        &&& opts.dry_run == args.dry_run
                        &&& answer == shown
                        &&& left(after, backend, done)
                    },
            }
        }),
{
    let opts = Options { dry_run: args.dry_run, ..Options::inspecting(args.table, false)->Ok_0 };
    let (given, trace, _) = B::open_step(at.backend, args.device@, Access::Read, at.trace);
    if let Ok(device) = given {
        let world = World { device, trace, out: at.out, diag: at.diag };
        let _ = app::hex_run::<B::Device, O, E>(world, args, opts);
        assert(outcomes::chosen(opts, args.table.scheme, args.table.pit_source));
    }
}

/// `rawio dump` opens the device it names for reading and goes on with the file
/// it was given.
pub proof fn dump_goes_on_with_its_file<B: Backend, O: Output, E: Output>(
    args: DumpArgs,
    around: Surroundings,
    at: Scene<B::State, <B::Device as RawDevice>::State, O::State, E::State>,
)
    requires
        args.table.pit_source.pit_offset is None || args.table.scheme is Pit,
    ensures
        ({
            let (answer, after) = app::ran::<B, O, E>(Command::Dump(args), around, at);
            let (given, trace, backend) = B::open_step(
                at.backend,
                args.device@,
                Access::Read,
                at.trace,
            );
            match given {
                Err(err) => answer == Err::<NextView, ErrorView>(ErrorView::Device(err)),
                Ok(device) => exists|opts: Options|
                    {
                        let world = World { device, trace, out: at.out, diag: at.diag };
                        let file = longpath::opened_as(args.output@, around.absolute_form());
                        let (shown, done) = app::dump_run::<B::Device, O, E>(
                            world,
                            args,
                            file,
                            opts,
                        );
                        &&& #[trigger] outcomes::chosen(opts, args.table.scheme, args.table.pit_source)
                        &&& opts.dry_run == args.transfer.dry_run
                        &&& opts.progress <==> around.watched && !args.transfer.no_progress
                        &&& answer == shown
                        &&& left(after, backend, done)
                    },
            }
        }),
{
    let opts = Options::moving(args.table, args.transfer, around.watched)->Ok_0;
    let (given, trace, _) = B::open_step(at.backend, args.device@, Access::Read, at.trace);
    if let Ok(device) = given {
        let world = World { device, trace, out: at.out, diag: at.diag };
        let file = longpath::opened_as(args.output@, around.absolute_form());
        let _ = app::dump_run::<B::Device, O, E>(world, args, file, opts);
        assert(outcomes::chosen(opts, args.table.scheme, args.table.pit_source));
    }
}

/// `rawio flash` opens the device it names, for writing unless it is a
/// rehearsal, and goes on with the file it was given.
pub proof fn flash_goes_on_with_its_file<B: Backend, O: Output, E: Output>(
    args: FlashArgs,
    around: Surroundings,
    at: Scene<B::State, <B::Device as RawDevice>::State, O::State, E::State>,
)
    requires
        args.table.pit_source.pit_offset is None || args.table.scheme is Pit,
    ensures
        ({
            let (answer, after) = app::ran::<B, O, E>(Command::Flash(args), around, at);
            let access = if args.transfer.dry_run {
                Access::Read
            } else {
                Access::ReadWrite
            };
            let (given, trace, backend) = B::open_step(at.backend, args.device@, access, at.trace);
            match given {
                Err(err) => answer == Err::<NextView, ErrorView>(ErrorView::Device(err)),
                Ok(device) => exists|opts: Options|
                    {
                        let world = World { device, trace, out: at.out, diag: at.diag };
                        let file = longpath::opened_as(args.input@, around.absolute_form());
                        let (shown, done) = app::flash_run::<B::Device, O, E>(
                            world,
                            args,
                            file,
                            opts,
                        );
                        &&& #[trigger] outcomes::chosen(opts, args.table.scheme, args.table.pit_source)
                        &&& opts.dry_run == args.transfer.dry_run
                        &&& opts.progress <==> around.watched && !args.transfer.no_progress
                        &&& answer == shown
                        &&& left(after, backend, done)
                    },
            }
        }),
{
    let opts = Options::moving(args.table, args.transfer, around.watched)->Ok_0;
    let (given, trace, _) = B::open_step(
        at.backend,
        args.device@,
        app::flash_access(opts),
        at.trace,
    );
    if let Ok(device) = given {
        let world = World { device, trace, out: at.out, diag: at.diag };
        let file = longpath::opened_as(args.input@, around.absolute_form());
        let _ = app::flash_run::<B::Device, O, E>(world, args, file, opts);
        assert(outcomes::chosen(opts, args.table.scheme, args.table.pit_source));
    }
}

/// `rawio verify` opens nothing before the length of its file is known, and then
/// the device it names.
pub proof fn verify_waits_for_its_file<B: Backend, O: Output, E: Output>(
    args: VerifyArgs,
    around: Surroundings,
    at: Scene<B::State, <B::Device as RawDevice>::State, O::State, E::State>,
)
    requires
        args.table.pit_source.pit_offset is None || args.table.scheme is Pit,
    ensures
        ({
            let (answer, after) = app::ran::<B, O, E>(Command::Verify(args), around, at);
            &&& after == at
            &&& answer matches Ok(NextView::Verify(job)) && {
                &&& job.args == args
                &&& job.input == longpath::opened_as(args.input@, around.absolute_form())
                &&& outcomes::chosen(job.opts, args.table.scheme, args.table.pit_source)
                &&& job.opts.dry_run == args.transfer.dry_run
                &&& job.opts.progress <==> around.watched && !args.transfer.no_progress
            }
        }),
{
}

/// Settings that contradict each other are refused before anything is asked of
/// the host.
pub proof fn a_contradiction_is_refused_at_once<B: Backend, O: Output, E: Output>(
    command: Command,
    around: Surroundings,
    at: Scene<B::State, <B::Device as RawDevice>::State, O::State, E::State>,
)
    requires
        match command {
            Command::Parts(args) => args.table.pit_source.pit_offset is Some && !(
            args.table.scheme is Pit),
            Command::Hex(args) => args.table.pit_source.pit_offset is Some && !(
            args.table.scheme is Pit),
            Command::Dump(args) => args.table.pit_source.pit_offset is Some && !(
            args.table.scheme is Pit),
            Command::Flash(args) => args.table.pit_source.pit_offset is Some && !(
            args.table.scheme is Pit),
            Command::Verify(args) => args.table.pit_source.pit_offset is Some && !(
            args.table.scheme is Pit),
            Command::Probe(args) => args.table.pit_source.pit_offset is Some && !(
            args.table.scheme is Pit) && !args.pit,
            _ => false,
        },
    ensures
        ({
            let (answer, after) = app::ran::<B, O, E>(command, around, at);
            &&& after == at
            &&& answer matches Err(err) && err.code() == 2
        }),
{
}

/// `rawio list` prints what the host names, one line each.
pub proof fn list_prints_what_the_host_names<B: Backend, E: Output>(
    around: Surroundings,
    at: Scene<B::State, <B::Device as RawDevice>::State, Seq<char>, E::State>,
)
    ensures
        ({
            let (answer, after) = app::ran::<B, String, E>(Command::List, around, at);
            let (named, trace, backend) = B::enumerate_step(at.backend, at.trace);
            &&& after.backend == backend
            &&& after.device == at.device
            &&& match named {
                Err(err) => {
                    &&& answer == Err::<NextView, ErrorView>(ErrorView::Device(err))
                    &&& after.out == at.out
                },
                Ok(infos) => {
                    &&& answer == Ok::<NextView, ErrorView>(NextView::Finished)
                    &&& after.out == at.out + output::as_text(report::listing(infos))
                },
            }
        }),
{
    let (named, _, _) = B::enumerate_step(at.backend, at.trace);
    if let Ok(infos) = named {
        output::memory_gains_the_lines(at.out, report::listing(infos));
    }
}

/// What a probe goes on to print behind the rehearsal: the partition table where
/// it was asked for, then the PIT where that was, then the range where one was
/// given. What cannot be read ends it.
#[verifier::rlimit(60)]
pub proof fn a_probe_prints_what_it_was_asked_for<D: RawDevice>(
    at: World<D::State, Seq<char>, Seq<char>>,
    args: ProbeArgs,
    opts: Options,
    rehearsal: Seq<Seq<char>>,
)
    ensures
        ({
            let (answer, after) = app::probe_run::<D, String, String>(at, args, opts, rehearsal);
            let info = D::described(at.device);
            let said = at.out + output::as_text(rehearsal);
            let (table, medium) = target::table_read::<D>(at.seen().medium(), opts);
            let (found, seen) = target::located::<D, String>(at.seen(), opts);
            let given = args.location@.is_given();
            &&& !args.parts && !args.pit && !given ==> {
                &&& answer == Ok::<NextView, ErrorView>(NextView::Finished)
                &&& after.out == said
                &&& after.device == at.device
            }
            &&& args.parts && table is Err ==> {
                &&& answer == Err::<NextView, ErrorView>(table->Err_0)
                &&& after.out == said
            }
            &&& args.parts && table is Ok && !args.pit && !given ==> {
                &&& answer == Ok::<NextView, ErrorView>(NextView::Finished)
                &&& after.out == said + output::as_text(report::parts_report(table->Ok_0, info))
            }
            &&& !args.parts && args.pit && found is Err ==> {
                &&& answer == Err::<NextView, ErrorView>(found->Err_0)
                &&& after.out == said
            }
            &&& !args.parts && args.pit && found is Ok && !given ==> {
                &&& answer == Ok::<NextView, ErrorView>(NextView::Finished)
                &&& after.out == said + output::as_text(
                    report::pit_report(found->Ok_0.pit, found->Ok_0.offset, info),
                )
            }
            &&& !args.parts && !args.pit && given ==> {
                match target::resolved::<D, String>(at.seen(), args.location@, None, opts).0 {
                    Err(err) => answer == Err::<NextView, ErrorView>(err) && after.out == said,
                    Ok(range) => {
                        &&& answer == Ok::<NextView, ErrorView>(NextView::Finished)
                        &&& after.out == said + app::resolved_line(range) + seq!['\n']
                    },
                }
            }
        }),
{
    reveal(app::probe_run);
    reveal_strlit("\n");
    assert("\n"@ =~= seq!['\n']);
    let info = D::described(at.device);
    let said = at.out + output::as_text(rehearsal);
    output::memory_gains_the_lines(at.out, rehearsal);
    let (table, _) = target::table_read::<D>(at.seen().medium(), opts);
    if let Ok(table) = table {
        output::memory_gains_the_lines(said, report::parts_report(table, info));
    }
    let (found, _) = target::located::<D, String>(at.seen(), opts);
    if let Ok(found) = found {
        output::memory_gains_the_lines(said, report::pit_report(found.pit, found.offset, info));
    }
    if let Ok(range) = target::resolved::<D, String>(at.seen(), args.location@, None, opts).0 {
        assert(said + (app::resolved_line(range) + "\n"@) =~= said + app::resolved_line(range)
            + seq!['\n']);
    }
}

/// A comparison that goes on opens the device it names, for reading, and resolves
/// its range on that device.
pub proof fn a_comparison_goes_on_with_its_device<B: Backend, O: Output, E: Output>(
    at: Scene<B::State, <B::Device as RawDevice>::State, O::State, E::State>,
    job: VerifyJobView,
    length: u64,
)
    ensures
        ({
            let (answer, after) = app::verify_planned::<B, O, E>(at, job, length);
            let (given, trace, backend) = B::open_step(
                at.backend,
                job.args.device@,
                Access::Read,
                at.trace,
            );
            match given {
                Err(err) => {
                    &&& answer is Err
                    &&& answer->Err_0 == ErrorView::Device(err)
                    &&& after.out == at.out
                    &&& after.device == at.device
                },
                Ok(device) => {
                    let world = World { device, trace, out: at.out, diag: at.diag };
                    let (planned, done) = app::verify_run::<B::Device, O, E>(world, job, length);
                    &&& answer == planned
                    &&& left(after, backend, done)
                },
            }
        }),
{
}

/// A write on a removable device is rehearsed once, on the device that was named,
/// and what came of it is what is told.
pub proof fn a_removable_device_is_rehearsed<B: Backend>(
    backend: B::State,
    id: Seq<char>,
    info: DeviceInfoView,
    trace: Seq<StepView>,
)
    requires
        info.removability is Removable,
    ensures
        ({
            let (answer, steps, after) = B::rehearse_step(backend, id, trace);
            let (lines, left, host) = app::rehearsed::<B>(backend, id, info, trace);
            &&& left == steps
            &&& host == after
            &&& lines == report::rehearsal(answer)
            &&& answer matches Err(err) ==> lines.len() == 1 && lines[0]
                == "write rehearsal: no writable handle - "@ + err.text()
        }),
{
}

/// `rawio probe` names the devices there are, opens its own for reading, says what
/// it is, and goes on from there.
#[verifier::rlimit(60)]
pub proof fn probe_says_what_there_is<B: Backend, E: Output>(
    at: Scene<B::State, <B::Device as RawDevice>::State, Seq<char>, E::State>,
    args: ProbeArgs,
    opts: Options,
)
    ensures
        ({
            let (answer, after) = app::probed::<B, String, E>(at, args, opts);
            let (named, trace, backend) = B::enumerate_step(at.backend, at.trace);
            match named {
                Err(err) => {
                    &&& answer == Err::<NextView, ErrorView>(ErrorView::Device(err))
                    &&& after.out == at.out
                },
                Ok(infos) => {
                    let said = at.out + output::as_text(
                        report::device_lines("device: "@, infos),
                    );
                    let (given, trace, backend) = B::open_step(
                        backend,
                        args.device@,
                        Access::Read,
                        trace,
                    );
                    match given {
                        Err(err) => {
                            &&& answer == Err::<NextView, ErrorView>(ErrorView::Device(err))
                            &&& after.out == said
                        },
                        Ok(device) => {
                            let info = B::Device::described(device);
                            let (lines, trace, backend) = app::rehearsed::<B>(
                                backend,
                                args.device@,
                                info,
                                trace,
                            );
                            let (shown, done) = app::probe_run::<B::Device, String, E>(
                                World {
                                    device,
                                    trace,
                                    out: said + output::as_text(app::target_lines(info)),
                                    diag: at.diag,
                                },
                                args,
                                opts,
                                lines,
                            );
                            &&& answer == shown
                            &&& left(after, backend, done)
                        },
                    }
                },
            }
        }),
{
    reveal(app::probe_opened);
    let (named, trace, backend) = B::enumerate_step(at.backend, at.trace);
    if let Ok(infos) = named {
        let listed = report::device_lines("device: "@, infos);
        output::memory_gains_the_lines(at.out, listed);
        let said = at.out + output::as_text(listed);
        let (given, _, _) = B::open_step(backend, args.device@, Access::Read, trace);
        if let Ok(device) = given {
            output::memory_gains_the_lines(
                said,
                app::target_lines(B::Device::described(device)),
            );
        }
    }
}

} // verus!
