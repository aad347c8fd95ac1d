//! Command dispatch. Takes the backend as an argument so the whole flow can be
//! driven by a fake device in tests.
//!
//! A command that needs no file runs to its end here. One that does hands back
//! what is to be done with the file, and goes on once that has been done:
//! `dump` through [`finish_dump`], `flash` through [`plan_flash`] and
//! [`finish_flash`], `verify` through [`plan_verify`] and [`compare`], which a
//! flash that is to be read back ends in too.
//!
//! The device a command opens is the caller's from the moment it is open, and
//! stays open until the caller lets go of it. So what became of it is settled
//! on every path, the ones that end in an error or in a rehearsal among them.

use vstd::prelude::*;
use vstd::string::*;

use crate::cli::{
    Cli, Command, DumpArgs, FlashArgs, HexArgs, PartsArgs, PitArgs, ProbeArgs, VerifyArgs,
};
use crate::device;
use crate::device::{Access, Backend, DeviceInfo, DeviceInfoView, RawDevice};
use crate::error;
use crate::error::{Error, ErrorView, Result};
use crate::hexdump;
use crate::hexdump::{Dumping, HexView, Hexdump};
use crate::longpath;
use crate::output;
use crate::output::Output;
use crate::parts;
use crate::parts::DeviceSectors;
use crate::progress::Progress;
use crate::stream::{Sink, Source};
use crate::text;
use crate::trace::{StepView, Trace};
use crate::transfer;
use crate::transfer::{Receiver, Transfer};

pub mod columns;
pub mod commands;
pub mod laws;
pub mod outcomes;
pub mod report;
pub mod target;
pub mod tellings;

pub use target::{Options, Range};

verus! {

/// What the arguments cannot say: whether anyone watches the progress line, and
/// the absolute form of the file the command names, which only a host that
/// limits the length of a path has to know.
#[derive(Debug, Clone)]
pub struct Surroundings {
    pub watched: bool,
    pub absolute: Option<String>,
}

impl Surroundings {
    pub open spec fn absolute_form(self) -> Option<Seq<char>> {
        match self.absolute {
            Some(path) => Some(path@),
            None => None,
        }
    }

    /// The path to hand to the OS when opening `given`.
    fn path(&self, given: &String) -> (path: String)
        ensures
            path@ == longpath::opened_as(given@, self.absolute_form()),
    {
        longpath::for_open(
            given.as_str(),
            match &self.absolute {
                Some(path) => Some(path.as_str()),
                None => None,
            },
        )
    }
}

/// A run with its device open.
#[verifier::ext_equal]
pub struct World<D, O, E> {
    pub device: D,
    pub trace: Seq<StepView>,
    pub out: O,
    pub diag: E,
}

impl<D, O, E> World<D, O, E> {
    /// The part that resolving a target works on.
    pub open spec fn seen(self) -> target::Seen<D, E> {
        target::Seen { device: self.device, trace: self.trace, diag: self.diag }
    }

    /// The same once a target has been resolved.
    pub open spec fn past(self, seen: target::Seen<D, E>) -> World<D, O, E> {
        World { device: seen.device, trace: seen.trace, diag: seen.diag, ..self }
    }
}

/// The world of a session.
pub open spec fn world<D: RawDevice, O: Output, E: Output>(
    session: DeviceSectors<D>,
    out: O,
    diag: E,
) -> World<D::State, O::State, E::State> {
    World {
        device: session.device.state(),
        trace: session.trace@,
        out: out.state(),
        diag: diag.state(),
    }
}

/// Everything a run works on: the host, the device it has opened if it has
/// opened one, the record, and the two streams.
#[verifier::ext_equal]
pub struct Scene<B, D, O, E> {
    pub backend: B,
    pub device: Option<D>,
    pub trace: Seq<StepView>,
    pub out: O,
    pub diag: E,
}

impl<B, D, O, E> Scene<B, D, O, E> {
    /// What a run with its device open left.
    pub open spec fn past(self, world: World<D, O, E>) -> Scene<B, D, O, E> {
        Scene {
            device: Some(world.device),
            trace: world.trace,
            out: world.out,
            diag: world.diag,
            ..self
        }
    }
}

/// The state of a device, where there is one.
pub open spec fn held<D: RawDevice>(device: Option<D>) -> Option<D::State> {
    match device {
        Some(device) => Some(device.state()),
        None => None,
    }
}

/// The scene a run is given.
pub open spec fn scene<B: Backend, O: Output, E: Output>(
    backend: B,
    device: Option<B::Device>,
    trace: Trace,
    out: O,
    diag: E,
) -> Scene<B::State, <B::Device as RawDevice>::State, O::State, E::State> {
    Scene {
        backend: backend.state(),
        device: held(device),
        trace: trace@,
        out: out.state(),
        diag: diag.state(),
    }
}

/// A dump that waits for its file.
pub struct DumpJob {
    pub offset: u64,
    pub length: u64,
    /// The file to create.
    pub output: String,
    pub progress: bool,
}

/// A [`DumpJob`] by what it says.
#[verifier::ext_equal]
pub struct DumpJobView {
    pub offset: u64,
    pub length: u64,
    pub output: Seq<char>,
    pub progress: bool,
}

impl View for DumpJob {
    type V = DumpJobView;

    open spec fn view(&self) -> DumpJobView {
        DumpJobView {
            offset: self.offset,
            length: self.length,
            output: self.output@,
            progress: self.progress,
        }
    }
}

/// A flash that waits for the length of its file.
pub struct FlashJob<'a> {
    pub args: &'a FlashArgs,
    /// The file to open.
    pub input: String,
    pub opts: Options,
}

/// A [`FlashJob`] by what it says.
#[verifier::ext_equal]
pub struct FlashJobView {
    pub args: FlashArgs,
    pub input: Seq<char>,
    pub opts: Options,
}

impl<'a> View for FlashJob<'a> {
    type V = FlashJobView;

    open spec fn view(&self) -> FlashJobView {
        FlashJobView { args: *self.args, input: self.input@, opts: self.opts }
    }
}

/// A comparison that waits for the length of its file.
pub struct VerifyJob<'a> {
    pub args: &'a VerifyArgs,
    /// The file to measure.
    pub input: String,
    pub opts: Options,
}

/// A [`VerifyJob`] by what it says.
#[verifier::ext_equal]
pub struct VerifyJobView {
    pub args: VerifyArgs,
    pub input: Seq<char>,
    pub opts: Options,
}

impl<'a> View for VerifyJob<'a> {
    type V = VerifyJobView;

    open spec fn view(&self) -> VerifyJobView {
        VerifyJobView { args: *self.args, input: self.input@, opts: self.opts }
    }
}

/// What is left to do after a command has got as far as it can without a file.
pub enum Next<'a> {
    Finished,
    Dump(DumpJob),
    Flash(FlashJob<'a>),
    Verify(VerifyJob<'a>),
}

/// A [`Next`] by what it says.
#[verifier::ext_equal]
pub enum NextView {
    Finished,
    Dump(DumpJobView),
    Flash(FlashJobView),
    Verify(VerifyJobView),
}

impl<'a> View for Next<'a> {
    type V = NextView;

    open spec fn view(&self) -> NextView {
        match *self {
            Next::Finished => NextView::Finished,
            Next::Dump(job) => NextView::Dump(job@),
            Next::Flash(job) => NextView::Flash(job@),
            Next::Verify(job) => NextView::Verify(job@),
        }
    }
}

/// What is left to do, or what went wrong.
pub type Answer = core::result::Result<NextView, ErrorView>;

/// What is left to do, or what went wrong, by what it says.
pub open spec fn next_outcome<'a>(result: Result<Next<'a>>) -> Answer {
    match result {
        Ok(next) => Ok(next@),
        Err(err) => Err(err@),
    }
}

/// A command that printed its last line has nothing left to do.
pub open spec fn finished(answer: core::result::Result<(), ErrorView>) -> Answer {
    match answer {
        Ok(()) => Ok(NextView::Finished),
        Err(err) => Err(err),
    }
}

fn done<'a>(result: Result<()>) -> (next: Result<Next<'a>>)
    ensures
        next_outcome(next) == finished(error::outcome(result)),
{
    match result {
        Ok(()) => Ok(Next::Finished),
        Err(err) => Err(err),
    }
}

/// A run whose device is opened by `id` for `access`: it ends there when the
/// host refuses, and goes on as `rest` says with the device it gives.
pub open spec fn opened<B: Backend, O: Output, E: Output>(
    at: Scene<B::State, <B::Device as RawDevice>::State, O::State, E::State>,
    id: Seq<char>,
    access: Access,
    rest: spec_fn(
        World<<B::Device as RawDevice>::State, O::State, E::State>,
    ) -> (Answer, World<<B::Device as RawDevice>::State, O::State, E::State>),
) -> (Answer, Scene<B::State, <B::Device as RawDevice>::State, O::State, E::State>) {
    let (given, trace, backend) = B::open_step(at.backend, id, access, at.trace);
    let at = Scene { backend, trace, ..at };
    match given {
        Err(err) => (Err(ErrorView::Device(err)), at),
        Ok(device) => {
            let (answer, after) = rest(World { device, trace, out: at.out, diag: at.diag });
            (answer, at.past(after))
        },
    }
}

fn take(trace: &mut Trace) -> (steps: Trace)
    ensures
        steps == *old(trace),
{
    let mut steps = Trace::new();
    core::mem::swap(trace, &mut steps);
    steps
}

/// What `list` does: it asks the host and prints what it names, one line each.
pub open spec fn listed<B: Backend, O: Output, E: Output>(
    at: Scene<B::State, <B::Device as RawDevice>::State, O::State, E::State>,
) -> (Answer, Scene<B::State, <B::Device as RawDevice>::State, O::State, E::State>) {
    let (named, trace, backend) = B::enumerate_step(at.backend, at.trace);
    let at = Scene { backend, trace, ..at };
    match named {
        Err(err) => (Err(ErrorView::Device(err)), at),
        Ok(infos) => {
            let (answer, out) = output::lines_put::<O>(at.out, report::listing(infos), 0);
            (finished(answer), Scene { out, ..at })
        },
    }
}

fn list<'a, B: Backend, O: Output, E: Output>(
    backend: &mut B,
    device: &mut Option<B::Device>,
    out: &mut O,
    diag: &mut E,
    trace: &mut Trace,
) -> (result: Result<Next<'a>>)
    ensures
        (
            next_outcome(result),
            scene(*final(backend), *final(device), *final(trace), *final(out), *final(diag)),
        ) == listed::<B, O, E>(
            scene(*old(backend), *old(device), *old(trace), *old(out), *old(diag)),
        ),
{
    match backend.enumerate(trace) {
        Ok(infos) => {
            let lines = report::list_lines(&infos);
            done(output::put_lines(out, &lines))
        },
        Err(err) => Err(Error::Device(err)),
    }
}

/// Prints the PIT, wherever it is.
pub open spec fn pit_shown<D: RawDevice, O: Output, E: Output>(
    at: World<D::State, O::State, E::State>,
    opts: Options,
) -> (core::result::Result<(), ErrorView>, World<D::State, O::State, E::State>) {
    let info = D::described(at.device);
    let (found, seen) = target::located::<D, E>(at.seen(), opts);
    let at = at.past(seen);
    match found {
        Err(err) => (Err(err), at),
        Ok(found) => {
            let (answer, out) = output::lines_put::<O>(
                at.out,
                report::pit_report(found.pit, found.offset, info),
                0,
            );
            (answer, World { out, ..at })
        },
    }
}

fn show_pit<D: RawDevice, O: Output, E: Output>(
    session: &mut DeviceSectors<D>,
    out: &mut O,
    diag: &mut E,
    opts: &Options,
) -> (result: Result<()>)
    ensures
        (
            error::outcome(result),
            World {
                device: final(session).device.state(),
                trace: final(session).trace@,
                out: final(out).state(),
                diag: final(diag).state(),
            },
        ) == pit_shown::<D, O, E>(
            World {
                device: old(session).device.state(),
                trace: old(session).trace@,
                out: old(out).state(),
                diag: old(diag).state(),
            },
            *opts,
        ),
{
    let info = session.device.info().copied();
    let found = match target::locate_pit(session, diag, opts) {
        Ok(found) => found,
        Err(err) => {
            return Err(err);
        },
    };
    let lines = report::pit_lines(&found.pit, found.offset, &info);
    output::put_lines(out, &lines)
}

/// Prints the MBR or GPT a device carries.
pub open spec fn parts_shown<D: RawDevice, O: Output, E: Output>(
    at: World<D::State, O::State, E::State>,
    opts: Options,
) -> (core::result::Result<(), ErrorView>, World<D::State, O::State, E::State>) {
    let info = D::described(at.device);
    let (read, medium) = target::table_read::<D>(at.seen().medium(), opts);
    let at = World { device: medium.device, trace: medium.trace, ..at };
    match read {
        Err(err) => (Err(err), at),
        Ok(table) => {
            let (answer, out) = output::lines_put::<O>(
                at.out,
                report::parts_report(table, info),
                0,
            );
            (answer, World { out, ..at })
        },
    }
}

fn show_parts<D: RawDevice, O: Output, E: Output>(
    session: &mut DeviceSectors<D>,
    out: &mut O,
    diag: &mut E,
    opts: &Options,
) -> (result: Result<()>)
    ensures
        (
            error::outcome(result),
            World {
                device: final(session).device.state(),
                trace: final(session).trace@,
                out: final(out).state(),
                diag: final(diag).state(),
            },
        ) == parts_shown::<D, O, E>(
            World {
                device: old(session).device.state(),
                trace: old(session).trace@,
                out: old(out).state(),
                diag: old(diag).state(),
            },
            *opts,
        ),
{
    let info = session.device.info().copied();
    let table = match target::read_table(session, opts) {
        Ok(table) => table,
        Err(err) => {
            return Err(err);
        },
    };
    let lines = report::parts_lines(&table, &info);
    output::put_lines(out, &lines)
}

/// What `parts` does once its device is open.
#[verifier::opaque]
pub open spec fn parts_run<D: RawDevice, O: Output, E: Output>(
    at: World<D::State, O::State, E::State>,
    opts: Options,
) -> (Answer, World<D::State, O::State, E::State>) {
    let (answer, at) = if opts.source == target::Source::Pit {
        pit_shown::<D, O, E>(at, opts)
    } else {
        parts_shown::<D, O, E>(at, opts)
    };
    (finished(answer), at)
}

/// Reads the table the device carries and nothing else.
fn parts_cmd<'a, B: Backend, O: Output, E: Output>(
    args: &PartsArgs,
    backend: &mut B,
    device: &mut Option<B::Device>,
    out: &mut O,
    diag: &mut E,
    trace: &mut Trace,
    opts: &Options,
) -> (result: Result<Next<'a>>)
    requires
        *old(device) is None,
    ensures
        (
            next_outcome(result),
            scene(*final(backend), *final(device), *final(trace), *final(out), *final(diag)),
        ) == opened::<B, O, E>(
            scene(*old(backend), *old(device), *old(trace), *old(out), *old(diag)),
            args.device@,
            Access::Read,
            |at| parts_run::<B::Device, O, E>(at, *opts),
        ),
{
    let opened = match backend.open(args.device.as_str(), Access::Read, trace) {
        Ok(opened) => opened,
        Err(err) => {
            return Err(Error::Device(err));
        },
    };
    let mut session = DeviceSectors::new(opened, take(trace));
    let result = parts_on(&mut session, out, diag, opts);
    *trace = session.trace;
    *device = Some(session.device);
    result
}

fn parts_on<'a, D: RawDevice, O: Output, E: Output>(
    session: &mut DeviceSectors<D>,
    out: &mut O,
    diag: &mut E,
    opts: &Options,
) -> (result: Result<Next<'a>>)
    ensures
        (next_outcome(result), world(*final(session), *final(out), *final(diag))) == parts_run::<D, O, E>(
            world(*old(session), *old(out), *old(diag)),
            *opts,
        ),
{
    reveal(parts_run);
    let shown = if opts.source == target::Source::Pit {
        show_pit(session, out, diag, opts)
    } else {
        show_parts(session, out, diag, opts)
    };
    done(shown)
}

/// What `pit` does once its device is open.
#[verifier::opaque]
pub open spec fn pit_run<D: RawDevice, O: Output, E: Output>(
    at: World<D::State, O::State, E::State>,
    opts: Options,
) -> (Answer, World<D::State, O::State, E::State>) {
    let (answer, at) = pit_shown::<D, O, E>(at, opts);
    (finished(answer), at)
}

/// Reads the PIT and nothing else.
fn pit_cmd<'a, B: Backend, O: Output, E: Output>(
    args: &PitArgs,
    backend: &mut B,
    device: &mut Option<B::Device>,
    out: &mut O,
    diag: &mut E,
    trace: &mut Trace,
    opts: &Options,
) -> (result: Result<Next<'a>>)
    requires
        *old(device) is None,
    ensures
        (
            next_outcome(result),
            scene(*final(backend), *final(device), *final(trace), *final(out), *final(diag)),
        ) == opened::<B, O, E>(
            scene(*old(backend), *old(device), *old(trace), *old(out), *old(diag)),
            args.device@,
            Access::Read,
            |at| pit_run::<B::Device, O, E>(at, *opts),
        ),
{
    let opened = match backend.open(args.device.as_str(), Access::Read, trace) {
        Ok(opened) => opened,
        Err(err) => {
            return Err(Error::Device(err));
        },
    };
    let mut session = DeviceSectors::new(opened, take(trace));
    let result = pit_on(&mut session, out, diag, opts);
    *trace = session.trace;
    *device = Some(session.device);
    result
}

fn pit_on<'a, D: RawDevice, O: Output, E: Output>(
    session: &mut DeviceSectors<D>,
    out: &mut O,
    diag: &mut E,
    opts: &Options,
) -> (result: Result<Next<'a>>)
    ensures
        (next_outcome(result), world(*final(session), *final(out), *final(diag))) == pit_run::<D, O, E>(
            world(*old(session), *old(out), *old(diag)),
            *opts,
        ),
{
    reveal(pit_run);
    done(show_pit(session, out, diag, opts))
}

/// A hexdump takes the bytes a device is read in and prints them on `O`.
impl<O: Output> Receiver<O> for Hexdump {
    type State = Dumping<O::State>;

    open spec fn state(&self, into: O) -> Dumping<O::State> {
        Dumping { dump: self@, out: into.state() }
    }

    open spec fn take_step(state: Dumping<O::State>, bytes: Seq<u8>) -> (
        core::result::Result<(), ErrorView>,
        Dumping<O::State>,
    ) {
        let (answer, after) = hexdump::push_step::<O>(state, bytes);
        (output::written(answer), after)
    }

    fn take(&mut self, into: &mut O, bytes: &[u8]) -> (result: Result<()>) {
        match self.push(bytes, into) {
            Ok(()) => Ok(()),
            Err(err) => Err(Error::io("writing output", err)),
        }
    }
}

/// What a rehearsed hexdump says.
pub open spec fn would_print(device: Seq<char>, offset: u64, length: u64, end: u64) -> Seq<char> {
    "dry-run: would read "@ + text::dec(length as nat) + " bytes from "@ + device + " at "@
        + text::dec(offset as nat) + ".."@ + text::dec(end as nat) + " as a hexdump"@
}

/// Prints `length` bytes at `offset`, read from the device as they are printed.
pub open spec fn hex_printed<D: RawDevice, O: Output, E: Output>(
    at: World<D::State, O::State, E::State>,
    offset: u64,
    length: u64,
    end: u64,
    squeeze: bool,
) -> (core::result::Result<(), ErrorView>, World<D::State, O::State, E::State>) {
    let (read, moved) = transfer::read_through::<D, O, Hexdump>(
        Transfer {
            device: at.device,
            file: Dumping { dump: HexView::fresh(offset, end, squeeze), out: at.out },
            trace: at.trace,
            progress: (),
        },
        offset,
        length,
    );
    let at = World { device: moved.device, trace: moved.trace, out: moved.file.out, ..at };
    match read {
        Err(err) => (Err(err), at),
        Ok(_) => {
            let (answer, last) = hexdump::finish_step::<O>(moved.file);
            (output::written(answer), World { out: last.out, ..at })
        },
    }
}

/// What `hex` does once its device is open.
#[verifier::opaque]
pub open spec fn hex_run<D: RawDevice, O: Output, E: Output>(
    at: World<D::State, O::State, E::State>,
    args: HexArgs,
    opts: Options,
) -> (Answer, World<D::State, O::State, E::State>) {
    let (range, seen) = target::resolved::<D, E>(
        at.seen(),
        args.location@,
        Some(args.length),
        opts,
    );
    let at = at.past(seen);
    match range {
        Err(err) => (Err(err), at),
        Ok(range) => {
            let length = match range.length {
                Some(length) => length,
                None => args.length,
            };
            match transfer::read_range_check(D::described(at.device), range.offset, length) {
                Err(err) => (Err(err), at),
                Ok(end) => if opts.dry_run {
                    let (answer, out) = output::line_put::<O>(
                        at.out,
                        would_print(args.device@, range.offset, length, end),
                    );
                    (finished(answer), World { out, ..at })
                } else {
                    let (answer, at) = hex_printed::<D, O, E>(
                        at,
                        range.offset,
                        length,
                        end,
                        !args.no_squeeze,
                    );
                    (finished(answer), at)
                },
            }
        },
    }
}

/// Prints a range the way `hexdump -C` would. Nothing is written anywhere, so
/// this is the one way to look at a structure before deciding what to do to it.
fn hex<'a, B: Backend, O: Output, E: Output>(
    args: &HexArgs,
    backend: &mut B,
    device: &mut Option<B::Device>,
    out: &mut O,
    diag: &mut E,
    trace: &mut Trace,
    opts: &Options,
) -> (result: Result<Next<'a>>)
    requires
        *old(device) is None,
        args.location@.is_given(),
    ensures
        (
            next_outcome(result),
            scene(*final(backend), *final(device), *final(trace), *final(out), *final(diag)),
        ) == opened::<B, O, E>(
            scene(*old(backend), *old(device), *old(trace), *old(out), *old(diag)),
            args.device@,
            Access::Read,
            |at| hex_run::<B::Device, O, E>(at, *args, *opts),
        ),
{
    let opened = match backend.open(args.device.as_str(), Access::Read, trace) {
        Ok(opened) => opened,
        Err(err) => {
            return Err(Error::Device(err));
        },
    };
    let mut session = DeviceSectors::new(opened, take(trace));
    let result = hex_on(&mut session, args, out, diag, opts);
    *trace = session.trace;
    *device = Some(session.device);
    result
}

fn hex_on<'a, D: RawDevice, O: Output, E: Output>(
    session: &mut DeviceSectors<D>,
    args: &HexArgs,
    out: &mut O,
    diag: &mut E,
    opts: &Options,
) -> (result: Result<Next<'a>>)
    requires
        args.location@.is_given(),
    ensures
        (next_outcome(result), world(*final(session), *final(out), *final(diag))) == hex_run::<D, O, E>(
            world(*old(session), *old(out), *old(diag)),
            *args,
            *opts,
        ),
{
    reveal(hex_run);
    let range = match target::resolve(session, &args.location, Some(args.length), diag, opts) {
        Ok(range) => range,
        Err(err) => {
            return Err(err);
        },
    };
    let length: u64 = match range.length {
        Some(length) => length,
        None => args.length,
    };
    let end: u64 = match transfer::check_read_range(session.device.info(), range.offset, length) {
        Ok(end) => end,
        Err(err) => {
            return Err(err);
        },
    };
    if opts.dry_run {
        let mut line = "dry-run: would read ".to_owned();
        text::push_dec(&mut line, length);
        line.append(" bytes from ");
        line.append(args.device.as_str());
        line.append(" at ");
        text::push_dec(&mut line, range.offset);
        line.append("..");
        text::push_dec(&mut line, end);
        line.append(" as a hexdump");
        return done(output::put_line(out, line.as_str()));
    }
    let mut dump = Hexdump::new(range.offset, end, !args.no_squeeze);
    if let Err(err) = transfer::read_range(
        &mut session.device,
        range.offset,
        length,
        &mut session.trace,
        &mut dump,
        out,
    ) {
        return Err(err);
    }
    match dump.finish(out) {
        Ok(()) => Ok(Next::Finished),
        Err(err) => Err(Error::io("writing output", err)),
    }
}

/// What a rehearsed dump says.
pub open spec fn would_dump(
    device: Seq<char>,
    offset: u64,
    length: u64,
    end: u64,
    output: Seq<char>,
) -> Seq<char> {
    "dry-run: would read "@ + text::dec(length as nat) + " bytes from "@ + device + " at "@
        + text::dec(offset as nat) + ".."@ + text::dec(end as nat) + " into "@
        + text::quoted(output)
}

/// What `dump` does once its device is open: it resolves its range, and is
/// ready to write its file unless it is a rehearsal.
#[verifier::opaque]
pub open spec fn dump_run<D: RawDevice, O: Output, E: Output>(
    at: World<D::State, O::State, E::State>,
    args: DumpArgs,
    output: Seq<char>,
    opts: Options,
) -> (Answer, World<D::State, O::State, E::State>) {
    let (range, seen) = target::resolved::<D, E>(at.seen(), args.location@, args.length, opts);
    let at = at.past(seen);
    match range {
        Err(err) => (Err(err), at),
        Ok(range) => match range.length {
            None => (
                Err(ErrorView::InvalidArgument("--length is required with --offset"@)),
                at,
            ),
            Some(length) => if opts.dry_run {
                match transfer::range_check(D::described(at.device), range.offset, length) {
                    Err(err) => (Err(err), at),
                    Ok(end) => {
                        let (answer, out) = output::line_put::<O>(
                            at.out,
                            would_dump(args.device@, range.offset, length, end, output),
                        );
                        (finished(answer), World { out, ..at })
                    },
                }
            } else {
                (
                    Ok(
                        NextView::Dump(
                            DumpJobView {
                                offset: range.offset,
                                length,
                                output,
                                progress: opts.progress,
                            },
                        ),
                    ),
                    at,
                )
            },
        },
    }
}

fn dump<'a, B: Backend, O: Output, E: Output>(
    args: &DumpArgs,
    around: &Surroundings,
    backend: &mut B,
    device: &mut Option<B::Device>,
    out: &mut O,
    diag: &mut E,
    trace: &mut Trace,
    opts: &Options,
) -> (result: Result<Next<'a>>)
    requires
        *old(device) is None,
        args.location@.is_given(),
    ensures
        (
            next_outcome(result),
            scene(*final(backend), *final(device), *final(trace), *final(out), *final(diag)),
        ) == opened::<B, O, E>(
            scene(*old(backend), *old(device), *old(trace), *old(out), *old(diag)),
            args.device@,
            Access::Read,
            |at| dump_run::<B::Device, O, E>(
                at,
                *args,
                longpath::opened_as(args.output@, around.absolute_form()),
                *opts,
            ),
        ),
{
    let output = around.path(&args.output);
    let opened = match backend.open(args.device.as_str(), Access::Read, trace) {
        Ok(opened) => opened,
        Err(err) => {
            return Err(Error::Device(err));
        },
    };
    let mut session = DeviceSectors::new(opened, take(trace));
    let result = dump_on(&mut session, args, output, out, diag, opts);
    *trace = session.trace;
    *device = Some(session.device);
    result
}

fn dump_on<'a, D: RawDevice, O: Output, E: Output>(
    session: &mut DeviceSectors<D>,
    args: &DumpArgs,
    output: String,
    out: &mut O,
    diag: &mut E,
    opts: &Options,
) -> (result: Result<Next<'a>>)
    requires
        args.location@.is_given(),
    ensures
        (next_outcome(result), world(*final(session), *final(out), *final(diag))) == dump_run::<D, O, E>(
            world(*old(session), *old(out), *old(diag)),
            *args,
            output@,
            *opts,
        ),
{
    reveal(dump_run);
    let range = match target::resolve(session, &args.location, args.length, diag, opts) {
        Ok(range) => range,
        Err(err) => {
            return Err(err);
        },
    };
    let length: u64 = match range.length {
        Some(length) => length,
        None => {
            return Err(
                Error::InvalidArgument("--length is required with --offset".to_owned()),
            );
        },
    };
    if opts.dry_run {
        let end: u64 = match transfer::check_range(session.device.info(), range.offset, length) {
            Ok(end) => end,
            Err(err) => {
                return Err(err);
            },
        };
        let mut line = "dry-run: would read ".to_owned();
        text::push_dec(&mut line, length);
        line.append(" bytes from ");
        line.append(args.device.as_str());
        line.append(" at ");
        text::push_dec(&mut line, range.offset);
        line.append("..");
        text::push_dec(&mut line, end);
        line.append(" into ");
        line.append(text::quote(output.as_str()).as_str());
        return done(output::put_line(out, line.as_str()));
    }
    Ok(
        Next::Dump(
            DumpJob { offset: range.offset, length, output, progress: opts.progress },
        ),
    )
}

/// What a finished dump says.
pub open spec fn dumped_line(written: u64, offset: u64, output: Seq<char>) -> Seq<char> {
    "dumped "@ + text::dec(written as nat) + " bytes from offset "@ + text::dec(offset as nat)
        + " to "@ + text::quoted(output)
}

/// A transfer that ends in a line on the result stream.
pub open spec fn told<D, F, P, O: Output>(
    moved: (core::result::Result<u64, ErrorView>, Transfer<D, F, P>),
    out: O::State,
    line: spec_fn(u64) -> Seq<char>,
) -> (core::result::Result<u64, ErrorView>, Transfer<D, F, P>, O::State) {
    let (answer, after) = moved;
    match answer {
        Err(err) => (Err(err), after, out),
        Ok(count) => {
            let (said, out) = output::line_put::<O>(out, line(count));
            match said {
                Err(err) => (Err(err), after, out),
                Ok(()) => (Ok(count), after, out),
            }
        },
    }
}

/// Dumps into the file a [`DumpJob`] waited for, and says so.
pub fn finish_dump<D: RawDevice, K: Sink, O: Output, P: Progress>(
    job: &DumpJob,
    device: &mut D,
    sink: &mut K,
    out: &mut O,
    trace: &mut Trace,
    progress: &mut P,
) -> (result: Result<u64>)
    ensures
        (
            error::outcome(result),
            Transfer {
                device: final(device).state(),
                file: final(sink).state(),
                trace: final(trace)@,
                progress: final(progress).state(),
            },
            final(out).state(),
        ) == told::<D::State, K::State, P::State, O>(
            transfer::dumped::<D, K, P>(
                Transfer {
                    device: old(device).state(),
                    file: old(sink).state(),
                    trace: old(trace)@,
                    progress: old(progress).state(),
                },
                job.offset,
                job.length,
            ),
            old(out).state(),
            |written: u64| dumped_line(written, job.offset, job.output@),
        ),
{
    let written: u64 = match transfer::dump(
        device,
        job.offset,
        job.length,
        sink,
        trace,
        progress,
    ) {
        Ok(written) => written,
        Err(err) => {
            return Err(err);
        },
    };
    let mut line = "dumped ".to_owned();
    text::push_dec(&mut line, written);
    line.append(" bytes from offset ");
    text::push_dec(&mut line, job.offset);
    line.append(" to ");
    line.append(text::quote(job.output.as_str()).as_str());
    match output::put_line(out, line.as_str()) {
        Ok(()) => Ok(written),
        Err(err) => Err(err),
    }
}

/// What `flash` does once its device is open: a device that is not removable is
/// refused, untouched, before the input is even opened.
#[verifier::opaque]
pub open spec fn flash_run<D: RawDevice, O: Output, E: Output>(
    at: World<D::State, O::State, E::State>,
    args: FlashArgs,
    input: Seq<char>,
    opts: Options,
) -> (Answer, World<D::State, O::State, E::State>) {
    let info = D::described(at.device);
    if !(info.removability is Removable) {
        (Err(transfer::not_removable(info)), at)
    } else {
        (Ok(NextView::Flash(FlashJobView { args, input, opts })), at)
    }
}

/// How a flash opens its device: for writing only when it will write. Opening
/// for write is what locks and dismounts mounted volumes on Windows, and a
/// rehearsal must do neither.
pub open spec fn flash_access(opts: Options) -> Access {
    if opts.dry_run {
        Access::Read
    } else {
        Access::ReadWrite
    }
}

fn flash<'a, B: Backend, O: Output, E: Output>(
    args: &'a FlashArgs,
    around: &Surroundings,
    backend: &mut B,
    device: &mut Option<B::Device>,
    out: &mut O,
    diag: &mut E,
    trace: &mut Trace,
    opts: &Options,
) -> (result: Result<Next<'a>>)
    requires
        *old(device) is None,
    ensures
        (
            next_outcome(result),
            scene(*final(backend), *final(device), *final(trace), *final(out), *final(diag)),
        ) == opened::<B, O, E>(
            scene(*old(backend), *old(device), *old(trace), *old(out), *old(diag)),
            args.device@,
            flash_access(*opts),
            |at|
                flash_run::<B::Device, O, E>(
                    at,
                    *args,
                    longpath::opened_as(args.input@, around.absolute_form()),
                    *opts,
                ),
        ),
{
    reveal(flash_run);
    let input = around.path(&args.input);
    let access = if opts.dry_run {
        Access::Read
    } else {
        Access::ReadWrite
    };
    let opened = match backend.open(args.device.as_str(), access, trace) {
        Ok(opened) => opened,
        Err(err) => {
            return Err(Error::Device(err));
        },
    };
    let result = match transfer::ensure_writable(opened.info()) {
        Ok(()) => Ok(Next::Flash(FlashJob { args, input, opts: *opts })),
        Err(err) => Err(err),
    };
    *device = Some(opened);
    result
}

/// An input that does not fit the range it is meant for.
pub open spec fn too_long(length: u64, limit: u64) -> ErrorView {
    ErrorView::InvalidArgument(
        "input is "@ + text::dec(length as nat) + " bytes but the target range is "@ + text::dec(
            limit as nat,
        ) + " bytes"@,
    )
}

fn too_long_error(length: u64, limit: u64) -> (err: Error)
    ensures
        err@ == too_long(length, limit),
{
    let mut message = "input is ".to_owned();
    text::push_dec(&mut message, length);
    message.append(" bytes but the target range is ");
    text::push_dec(&mut message, limit);
    message.append(" bytes");
    Error::InvalidArgument(message)
}

/// A flash with its range resolved, ready to read its file.
pub struct FlashReady {
    pub range: Range,
    pub length: u64,
    pub input: String,
    /// Read the range back afterwards and compare it with the input.
    pub verify: bool,
    pub progress: bool,
}

/// A [`FlashReady`] by what it says.
#[verifier::ext_equal]
pub struct FlashReadyView {
    pub range: Range,
    pub length: u64,
    pub input: Seq<char>,
    pub verify: bool,
    pub progress: bool,
}

impl View for FlashReady {
    type V = FlashReadyView;

    open spec fn view(&self) -> FlashReadyView {
        FlashReadyView {
            range: self.range,
            length: self.length,
            input: self.input@,
            verify: self.verify,
            progress: self.progress,
        }
    }
}

/// What a rehearsed flash says.
pub open spec fn would_write(
    device: Seq<char>,
    offset: u64,
    length: u64,
    end: u64,
    input: Seq<char>,
) -> Seq<char> {
    "dry-run: would write "@ + text::dec(length as nat) + " bytes from "@ + text::quoted(input)
        + " to "@ + device + " at "@ + text::dec(offset as nat) + ".."@ + text::dec(end as nat)
}

/// What a flash does once it knows how long its input is: it resolves its
/// range, refuses an input the range cannot hold, and is ready to write unless
/// it is a rehearsal. Of the device, only what resolving the range reads.
#[verifier::opaque]
pub open spec fn flash_planned<D: RawDevice, O: Output, E: Output>(
    at: World<D::State, O::State, E::State>,
    job: FlashJobView,
    length: u64,
) -> (
    core::result::Result<Option<FlashReadyView>, ErrorView>,
    World<D::State, O::State, E::State>,
) {
    let (range, seen) = target::resolved::<D, E>(at.seen(), job.args.location@, None, job.opts);
    let at = at.past(seen);
    match range {
        Err(err) => (Err(err), at),
        Ok(range) => if range.length is Some && length > range.length->0 {
            (Err(too_long(length, range.length->0)), at)
        } else if job.opts.dry_run {
            match transfer::range_check(D::described(at.device), range.offset, length) {
                Err(err) => (Err(err), at),
                Ok(end) => {
                    let (answer, out) = output::line_put::<O>(
                        at.out,
                        would_write(job.args.device@, range.offset, length, end, job.input),
                    );
                    (
                        match answer {
                            Ok(()) => Ok(None),
                            Err(err) => Err(err),
                        },
                        World { out, ..at },
                    )
                },
            }
        } else {
            (
                Ok(
                    Some(
                        FlashReadyView {
                            range,
                            length,
                            input: job.input,
                            verify: job.args.verify,
                            progress: job.opts.progress,
                        },
                    ),
                ),
                at,
            )
        },
    }
}

/// A plan to flash, or what stands in its way.
pub open spec fn flash_outcome(result: Result<Option<FlashReady>>) -> core::result::Result<
    Option<FlashReadyView>,
    ErrorView,
> {
    match result {
        Ok(Some(ready)) => Ok(Some(ready@)),
        Ok(None) => Ok(None),
        Err(err) => Err(err@),
    }
}

/// Resolves the range of a flash whose input is `length` bytes, on the device
/// that was opened for it. `None` means that it was a rehearsal and is over.
pub fn plan_flash<'a, D: RawDevice, O: Output, E: Output>(
    job: FlashJob<'a>,
    length: u64,
    device: &mut Option<D>,
    out: &mut O,
    diag: &mut E,
    trace: &mut Trace,
) -> (result: Result<Option<FlashReady>>)
    requires
        job.args.location@.is_given(),
        *old(device) is Some,
    ensures
        *final(device) is Some,
        (
            flash_outcome(result),
            World {
                device: held(*final(device))->0,
                trace: final(trace)@,
                out: final(out).state(),
                diag: final(diag).state(),
            },
        ) == flash_planned::<D, O, E>(
            World {
                device: held(*old(device))->0,
                trace: old(trace)@,
                out: old(out).state(),
                diag: old(diag).state(),
            },
            job@,
            length,
        ),
        held(*final(device))->0 == target::resolved::<D, E>(
            target::Seen {
                device: held(*old(device))->0,
                trace: old(trace)@,
                diag: old(diag).state(),
            },
            job.args.location@,
            None,
            job.opts,
        ).1.device,
{
    reveal(flash_planned);
    match device.take() {
        Some(opened) => {
            let mut session = DeviceSectors::new(opened, take(trace));
            let result = flash_on(&mut session, job, length, out, diag);
            *trace = session.trace;
            *device = Some(session.device);
            result
        },
        None => Ok(None),
    }
}

fn flash_on<'a, D: RawDevice, O: Output, E: Output>(
    session: &mut DeviceSectors<D>,
    job: FlashJob<'a>,
    length: u64,
    out: &mut O,
    diag: &mut E,
) -> (result: Result<Option<FlashReady>>)
    requires
        job.args.location@.is_given(),
    ensures
        (
            flash_outcome(result),
            world(*final(session), *final(out), *final(diag)),
        ) == flash_planned::<D, O, E>(
            world(*old(session), *old(out), *old(diag)),
            job@,
            length,
        ),
{
    reveal(flash_planned);
    let args = job.args;
    let opts = job.opts;
    let input = job.input;
    let range = match target::resolve(session, &args.location, None, diag, &opts) {
        Ok(range) => range,
        Err(err) => {
            return Err(err);
        },
    };
    if let Some(limit) = range.length {
        if length > limit {
            return Err(too_long_error(length, limit));
        }
    }
    if opts.dry_run {
        let end: u64 = match transfer::check_range(session.device.info(), range.offset, length) {
            Ok(end) => end,
            Err(err) => {
                return Err(err);
            },
        };
        let mut line = "dry-run: would write ".to_owned();
        text::push_dec(&mut line, length);
        line.append(" bytes from ");
        line.append(text::quote(input.as_str()).as_str());
        line.append(" to ");
        line.append(args.device.as_str());
        line.append(" at ");
        text::push_dec(&mut line, range.offset);
        line.append("..");
        text::push_dec(&mut line, end);
        return match output::put_line(out, line.as_str()) {
            Ok(()) => Ok(None),
            Err(err) => Err(err),
        };
    }
    Ok(
        Some(
            FlashReady {
                range,
                length,
                input,
                verify: args.verify,
                progress: opts.progress,
            },
        ),
    )
}

/// What a finished flash says.
pub open spec fn wrote_line(written: u64, range: Range) -> Seq<char> {
    let head = "wrote "@ + text::dec(written as nat) + " bytes to offset "@ + text::dec(
        range.offset as nat,
    );
    match range.length {
        Some(capacity) => head + " of "@ + text::dec(capacity as nat) + " bytes available"@,
        None => head,
    }
}

/// A comparison with its range resolved, ready to read its file.
pub struct CompareReady {
    pub offset: u64,
    pub length: u64,
    pub input: String,
    pub progress: bool,
}

/// A [`CompareReady`] by what it says.
#[verifier::ext_equal]
pub struct CompareReadyView {
    pub offset: u64,
    pub length: u64,
    pub input: Seq<char>,
    pub progress: bool,
}

impl View for CompareReady {
    type V = CompareReadyView;

    open spec fn view(&self) -> CompareReadyView {
        CompareReadyView {
            offset: self.offset,
            length: self.length,
            input: self.input@,
            progress: self.progress,
        }
    }
}

/// What follows a flash that wrote `written` bytes: the comparison of what it
/// wrote with its input, where one was asked for.
pub open spec fn read_back(ready: FlashReadyView, written: u64) -> Option<CompareReadyView> {
    if ready.verify {
        Some(
            CompareReadyView {
                offset: ready.range.offset,
                length: written,
                input: ready.input,
                progress: ready.progress,
            },
        )
    } else {
        None
    }
}

/// Flashes the file a [`FlashReady`] waited for, and says so. What is to be
/// read back and compared comes back, `None` where nothing is.
pub fn finish_flash<D: RawDevice, S: Source, O: Output, P: Progress>(
    ready: FlashReady,
    device: &mut D,
    source: &mut S,
    out: &mut O,
    trace: &mut Trace,
    progress: &mut P,
) -> (result: Result<Option<CompareReady>>)
    ensures
        ({
            let (answer, after, said) = told::<D::State, S::State, P::State, O>(
                transfer::flashed::<D, S, P>(
                    Transfer {
                        device: old(device).state(),
                        file: old(source).state(),
                        trace: old(trace)@,
                        progress: old(progress).state(),
                    },
                    ready.range.offset,
                    ready.length,
                ),
                old(out).state(),
                |written: u64| wrote_line(written, ready.range),
            );
            &&& compare_outcome(result) == match answer {
                Ok(written) => Ok::<Option<CompareReadyView>, ErrorView>(
                    read_back(ready@, written),
                ),
                Err(err) => Err(err),
            }
            &&& after == (Transfer {
                device: final(device).state(),
                file: final(source).state(),
                trace: final(trace)@,
                progress: final(progress).state(),
            })
            &&& said == final(out).state()
        }),
{
    let range = ready.range;
    let written: u64 = match transfer::flash(
        device,
        range.offset,
        ready.length,
        source,
        trace,
        progress,
    ) {
        Ok(written) => written,
        Err(err) => {
            return Err(err);
        },
    };
    let mut line = "wrote ".to_owned();
    text::push_dec(&mut line, written);
    line.append(" bytes to offset ");
    text::push_dec(&mut line, range.offset);
    if let Some(capacity) = range.length {
        line.append(" of ");
        text::push_dec(&mut line, capacity);
        line.append(" bytes available");
    }
    if let Err(err) = output::put_line(out, line.as_str()) {
        return Err(err);
    }
    if !ready.verify {
        return Ok(None);
    }
    Ok(
        Some(
            CompareReady {
                offset: range.offset,
                length: written,
                input: ready.input,
                progress: ready.progress,
            },
        ),
    )
}

/// What a rehearsed comparison says.
pub open spec fn would_compare(
    device: Seq<char>,
    offset: u64,
    length: u64,
    end: u64,
    input: Seq<char>,
) -> Seq<char> {
    "dry-run: would compare "@ + text::dec(length as nat) + " bytes of "@ + device + " at "@
        + text::dec(offset as nat) + ".."@ + text::dec(end as nat) + " against "@
        + text::quoted(input)
}

/// What a comparison does once its device is open.
#[verifier::opaque]
pub open spec fn verify_run<D: RawDevice, O: Output, E: Output>(
    at: World<D::State, O::State, E::State>,
    job: VerifyJobView,
    length: u64,
) -> (
    core::result::Result<Option<CompareReadyView>, ErrorView>,
    World<D::State, O::State, E::State>,
) {
    let (range, seen) = target::resolved::<D, E>(at.seen(), job.args.location@, None, job.opts);
    let at = at.past(seen);
    match range {
        Err(err) => (Err(err), at),
        Ok(range) => if range.length is Some && length > range.length->0 {
            (Err(too_long(length, range.length->0)), at)
        } else if job.opts.dry_run {
            match transfer::range_check(D::described(at.device), range.offset, length) {
                Err(err) => (Err(err), at),
                Ok(end) => {
                    let (answer, out) = output::line_put::<O>(
                        at.out,
                        would_compare(job.args.device@, range.offset, length, end, job.input),
                    );
                    (
                        match answer {
                            Ok(()) => Ok(None),
                            Err(err) => Err(err),
                        },
                        World { out, ..at },
                    )
                },
            }
        } else {
            (
                Ok(
                    Some(
                        CompareReadyView {
                            offset: range.offset,
                            length,
                            input: job.input,
                            progress: job.opts.progress,
                        },
                    ),
                ),
                at,
            )
        },
    }
}

/// A plan to compare, or what stands in its way.
pub open spec fn compare_outcome(result: Result<Option<CompareReady>>) -> core::result::Result<
    Option<CompareReadyView>,
    ErrorView,
> {
    match result {
        Ok(Some(ready)) => Ok(Some(ready@)),
        Ok(None) => Ok(None),
        Err(err) => Err(err@),
    }
}

/// A comparison whose device is opened for reading once the length of its file
/// is known.
pub open spec fn verify_planned<B: Backend, O: Output, E: Output>(
    at: Scene<B::State, <B::Device as RawDevice>::State, O::State, E::State>,
    job: VerifyJobView,
    length: u64,
) -> (
    core::result::Result<Option<CompareReadyView>, ErrorView>,
    Scene<B::State, <B::Device as RawDevice>::State, O::State, E::State>,
) {
    let (given, trace, backend) = B::open_step(
        at.backend,
        job.args.device@,
        Access::Read,
        at.trace,
    );
    let at = Scene { backend, trace, ..at };
    match given {
        Err(err) => (Err(ErrorView::Device(err)), at),
        Ok(device) => {
            let (answer, after) = verify_run::<B::Device, O, E>(
                World { device, trace, out: at.out, diag: at.diag },
                job,
                length,
            );
            (answer, at.past(after))
        },
    }
}

/// Opens the device of a comparison whose input is `length` bytes and resolves
/// its range. `None` means that it was a rehearsal and is over.
pub fn plan_verify<'a, B: Backend, O: Output, E: Output>(
    job: VerifyJob<'a>,
    length: u64,
    backend: &mut B,
    device: &mut Option<B::Device>,
    out: &mut O,
    diag: &mut E,
    trace: &mut Trace,
) -> (result: Result<Option<CompareReady>>)
    requires
        job.args.location@.is_given(),
        *old(device) is None,
    ensures
        (
            compare_outcome(result),
            scene(*final(backend), *final(device), *final(trace), *final(out), *final(diag)),
        ) == verify_planned::<B, O, E>(
            scene(*old(backend), *old(device), *old(trace), *old(out), *old(diag)),
            job@,
            length,
        ),
        result is Ok ==> *final(device) is Some,
{
    let opened = match backend.open(job.args.device.as_str(), Access::Read, trace) {
        Ok(opened) => opened,
        Err(err) => {
            return Err(Error::Device(err));
        },
    };
    let mut session = DeviceSectors::new(opened, take(trace));
    let result = verify_on(&mut session, job, length, out, diag);
    *trace = session.trace;
    *device = Some(session.device);
    result
}

fn verify_on<'a, D: RawDevice, O: Output, E: Output>(
    session: &mut DeviceSectors<D>,
    job: VerifyJob<'a>,
    length: u64,
    out: &mut O,
    diag: &mut E,
) -> (result: Result<Option<CompareReady>>)
    requires
        job.args.location@.is_given(),
    ensures
        (
            compare_outcome(result),
            world(*final(session), *final(out), *final(diag)),
        ) == verify_run::<D, O, E>(world(*old(session), *old(out), *old(diag)), job@, length),
{
    reveal(verify_run);
    let args = job.args;
    let opts = job.opts;
    let input = job.input;
    let range = match target::resolve(session, &args.location, None, diag, &opts) {
        Ok(range) => range,
        Err(err) => {
            return Err(err);
        },
    };
    if let Some(limit) = range.length {
        if length > limit {
            return Err(too_long_error(length, limit));
        }
    }
    if opts.dry_run {
        let end: u64 = match transfer::check_range(session.device.info(), range.offset, length) {
            Ok(end) => end,
            Err(err) => {
                return Err(err);
            },
        };
        let mut line = "dry-run: would compare ".to_owned();
        text::push_dec(&mut line, length);
        line.append(" bytes of ");
        line.append(args.device.as_str());
        line.append(" at ");
        text::push_dec(&mut line, range.offset);
        line.append("..");
        text::push_dec(&mut line, end);
        line.append(" against ");
        line.append(text::quote(input.as_str()).as_str());
        return match output::put_line(out, line.as_str()) {
            Ok(()) => Ok(None),
            Err(err) => Err(err),
        };
    }
    Ok(
        Some(
            CompareReady { offset: range.offset, length, input, progress: opts.progress },
        ),
    )
}

/// What a comparison that passed says.
pub open spec fn verified_line(done: u64, offset: u64) -> Seq<char> {
    "verified "@ + text::dec(done as nat) + " bytes at offset "@ + text::dec(offset as nat)
}

/// Reads a range back, compares it with the file it came from, and says so.
pub fn compare<D: RawDevice, S: Source, O: Output, P: Progress>(
    ready: &CompareReady,
    device: &mut D,
    source: &mut S,
    out: &mut O,
    trace: &mut Trace,
    progress: &mut P,
) -> (result: Result<u64>)
    ensures
        (
            error::outcome(result),
            Transfer {
                device: final(device).state(),
                file: final(source).state(),
                trace: final(trace)@,
                progress: final(progress).state(),
            },
            final(out).state(),
        ) == told::<D::State, S::State, P::State, O>(
            transfer::verified::<D, S, P>(
                Transfer {
                    device: old(device).state(),
                    file: old(source).state(),
                    trace: old(trace)@,
                    progress: old(progress).state(),
                },
                ready.offset,
                ready.length,
            ),
            old(out).state(),
            |done: u64| verified_line(done, ready.offset),
        ),
{
    let done: u64 = match transfer::verify(
        device,
        ready.offset,
        ready.length,
        source,
        trace,
        progress,
    ) {
        Ok(done) => done,
        Err(err) => {
            return Err(err);
        },
    };
    let mut line = "verified ".to_owned();
    text::push_dec(&mut line, done);
    line.append(" bytes at offset ");
    text::push_dec(&mut line, ready.offset);
    match output::put_line(out, line.as_str()) {
        Ok(()) => Ok(done),
        Err(err) => Err(err),
    }
}

/// A length as the resolved range shows it.
pub open spec fn length_text(length: Option<u64>) -> Seq<char> {
    match length {
        Some(length) => "Some("@ + text::dec(length as nat) + ")"@,
        None => "None"@,
    }
}

/// What `probe` says of a range it resolved.
pub open spec fn resolved_line(range: Range) -> Seq<char> {
    "resolved: offset="@ + text::dec(range.offset as nat) + " length="@ + length_text(range.length)
}

fn resolved_text(range: &Range) -> (line: String)
    ensures
        line@ == resolved_line(*range),
{
    let length = match range.length {
        Some(length) => {
            let mut shown = "Some(".to_owned();
            text::push_dec(&mut shown, length);
            shown.append(")");
            shown
        },
        None => "None".to_owned(),
    };
    let mut line = "resolved: offset=".to_owned();
    text::push_dec(&mut line, range.offset);
    line.append(" length=");
    line.append(length.as_str());
    line
}

/// What `probe` says of its target.
pub open spec fn target_lines(info: DeviceInfoView) -> Seq<Seq<char>> {
    seq![
        "target: "@ + report::description(info),
        "writable: "@ + if info.removability is Removable {
            "true"@
        } else {
            "false"@
        },
    ]
}

fn lines_of_target(info: &DeviceInfo) -> (lines: Vec<String>)
    ensures
        text::views(lines@) == target_lines(info@),
{
    let mut first = "target: ".to_owned();
    first.append(report::describe(info).as_str());
    let mut second = "writable: ".to_owned();
    second.append(
        if info.removability.writable() {
            "true"
        } else {
            "false"
        },
    );
    let mut lines: Vec<String> = Vec::new();
    lines.push(first);
    lines.push(second);
    assert(text::views(lines@) =~= target_lines(info@));
    lines
}

/// What is said instead of rehearsing a write that would be refused.
pub open spec fn skipped(info: DeviceInfoView) -> Seq<Seq<char>> {
    seq![
        "write rehearsal: skipped, "@ + info.id + " is not removable and would be refused"@,
    ]
}

/// The rehearsal of a write on this device: what is said of it, what it leaves
/// on the record, and the host after it. A host is not asked to rehearse a write
/// that would be refused.
pub open spec fn rehearsed<B: Backend>(
    backend: B::State,
    id: Seq<char>,
    info: DeviceInfoView,
    trace: Seq<StepView>,
) -> (Seq<Seq<char>>, Seq<StepView>, B::State) {
    if info.removability is Removable {
        let (answer, trace, backend) = B::rehearse_step(backend, id, trace);
        (report::rehearsal(answer), trace, backend)
    } else {
        (skipped(info), trace, backend)
    }
}

/// Runs the write path as far as it goes without writing, so the answer to
/// "would a flash be permitted here" does not cost a card to find out.
fn rehearse<B: Backend>(
    args: &ProbeArgs,
    backend: &mut B,
    trace: &mut Trace,
    info: &DeviceInfo,
) -> (lines: Vec<String>)
    ensures
        (text::views(lines@), final(trace)@, final(backend).state()) == rehearsed::<B>(
            old(backend).state(),
            args.device@,
            info@,
            old(trace)@,
        ),
{
    if !info.removability.writable() {
        let mut line = "write rehearsal: skipped, ".to_owned();
        line.append(info.id.as_str());
        line.append(" is not removable and would be refused");
        let mut lines: Vec<String> = Vec::new();
        lines.push(line);
        assert(text::views(lines@) =~= skipped(info@));
        return lines;
    }
    let answer = backend.rehearse_write(args.device.as_str(), trace);
    report::rehearsal_lines(&answer)
}

/// What `probe` does once it has rehearsed a write and got `rehearsal` for it.
#[verifier::opaque]
pub open spec fn probe_run<D: RawDevice, O: Output, E: Output>(
    at: World<D::State, O::State, E::State>,
    args: ProbeArgs,
    opts: Options,
    rehearsal: Seq<Seq<char>>,
) -> (Answer, World<D::State, O::State, E::State>) {
    let (said, out) = output::lines_put::<O>(at.out, rehearsal, 0);
    let at = World { out, ..at };
    let (shown, at) = if said is Ok && args.parts {
        parts_shown::<D, O, E>(at, opts)
    } else {
        (said, at)
    };
    let (shown, at) = if shown is Ok && args.pit {
        pit_shown::<D, O, E>(at, opts)
    } else {
        (shown, at)
    };
    if shown is Ok && args.location@.is_given() {
        let (range, seen) = target::resolved::<D, E>(at.seen(), args.location@, None, opts);
        let at = at.past(seen);
        match range {
            Err(err) => (Err(err), at),
            Ok(range) => {
                let (answer, out) = output::line_put::<O>(at.out, resolved_line(range));
                (finished(answer), World { out, ..at })
            },
        }
    } else {
        (finished(shown), at)
    }
}

#[verifier::rlimit(60)]
fn probe_on<'a, D: RawDevice, O: Output, E: Output>(
    session: &mut DeviceSectors<D>,
    args: &ProbeArgs,
    rehearsal: &Vec<String>,
    out: &mut O,
    diag: &mut E,
    opts: &Options,
) -> (result: Result<Next<'a>>)
    ensures
        (
            next_outcome(result),
            world(*final(session), *final(out), *final(diag)),
        ) == probe_run::<D, O, E>(
            world(*old(session), *old(out), *old(diag)),
            *args,
            *opts,
            text::views(rehearsal@),
        ),
{
    reveal(probe_run);
    if let Err(err) = output::put_lines(out, rehearsal) {
        return Err(err);
    }
    if args.parts {
        if let Err(err) = show_parts(session, out, diag, opts) {
            return Err(err);
        }
    }
    if args.pit {
        if let Err(err) = show_pit(session, out, diag, opts) {
            return Err(err);
        }
    }
    match args.location.given() {
        None => Ok(Next::Finished),
        Some(location) => match target::resolve(session, location, None, diag, opts) {
            Err(err) => Err(err),
            Ok(range) => done(output::put_line(out, resolved_text(&range).as_str())),
        },
    }
}

/// What `probe` does with its device once it is open: it says what it is,
/// rehearses a write where one would be permitted, and goes on.
#[verifier::opaque]
pub open spec fn probe_opened<B: Backend, O: Output, E: Output>(
    backend: B::State,
    at: World<<B::Device as RawDevice>::State, O::State, E::State>,
    args: ProbeArgs,
    opts: Options,
) -> (Answer, World<<B::Device as RawDevice>::State, O::State, E::State>, B::State) {
    let info = B::Device::described(at.device);
    let (said, out) = output::lines_put::<O>(at.out, target_lines(info), 0);
    let at = World { out, ..at };
    match said {
        Err(err) => (Err(err), at, backend),
        Ok(()) => {
            let (lines, trace, backend) = rehearsed::<B>(backend, args.device@, info, at.trace);
            let (answer, after) = probe_run::<B::Device, O, E>(
                World { trace, ..at },
                args,
                opts,
                lines,
            );
            (answer, after, backend)
        },
    }
}

fn probe_device<'a, B: Backend, O: Output, E: Output>(
    session: &mut DeviceSectors<B::Device>,
    args: &ProbeArgs,
    backend: &mut B,
    out: &mut O,
    diag: &mut E,
    opts: &Options,
) -> (result: Result<Next<'a>>)
    ensures
        (
            next_outcome(result),
            world(*final(session), *final(out), *final(diag)),
            final(backend).state(),
        ) == probe_opened::<B, O, E>(
            old(backend).state(),
            world(*old(session), *old(out), *old(diag)),
            *args,
            *opts,
        ),
{
    reveal(probe_opened);
    let info = session.device.info().copied();
    let lines = lines_of_target(&info);
    if let Err(err) = output::put_lines(out, &lines) {
        return Err(err);
    }
    let rehearsal = rehearse(args, backend, &mut session.trace, &info);
    probe_on(session, args, &rehearsal, out, diag, opts)
}

/// What `probe` does: it names the devices the host names, and opens its own
/// for reading and nothing else.
pub open spec fn probed<B: Backend, O: Output, E: Output>(
    at: Scene<B::State, <B::Device as RawDevice>::State, O::State, E::State>,
    args: ProbeArgs,
    opts: Options,
) -> (Answer, Scene<B::State, <B::Device as RawDevice>::State, O::State, E::State>) {
    let (named, trace, backend) = B::enumerate_step(at.backend, at.trace);
    let at = Scene { backend, trace, ..at };
    match named {
        Err(err) => (Err(ErrorView::Device(err)), at),
        Ok(infos) => {
            let (said, out) = output::lines_put::<O>(
                at.out,
                report::device_lines("device: "@, infos),
                0,
            );
            let at = Scene { out, ..at };
            match said {
                Err(err) => (Err(err), at),
                Ok(()) => {
                    let (given, trace, backend) = B::open_step(
                        at.backend,
                        args.device@,
                        Access::Read,
                        at.trace,
                    );
                    let at = Scene { backend, trace, ..at };
                    match given {
                        Err(err) => (Err(ErrorView::Device(err)), at),
                        Ok(device) => {
                            let (answer, after, backend) = probe_opened::<B, O, E>(
                                at.backend,
                                World { device, trace, out: at.out, diag: at.diag },
                                args,
                                opts,
                            );
                            (answer, Scene { backend, ..at }.past(after))
                        },
                    }
                },
            }
        },
    }
}

/// Collects everything an on-site check needs, and writes nothing.
fn probe<'a, B: Backend, O: Output, E: Output>(
    args: &ProbeArgs,
    backend: &mut B,
    device: &mut Option<B::Device>,
    out: &mut O,
    diag: &mut E,
    trace: &mut Trace,
    opts: &Options,
) -> (result: Result<Next<'a>>)
    requires
        *old(device) is None,
    ensures
        (
            next_outcome(result),
            scene(*final(backend), *final(device), *final(trace), *final(out), *final(diag)),
        ) == probed::<B, O, E>(
            scene(*old(backend), *old(device), *old(trace), *old(out), *old(diag)),
            *args,
            *opts,
        ),
{
    let infos = match backend.enumerate(trace) {
        Ok(infos) => infos,
        Err(err) => {
            return Err(Error::Device(err));
        },
    };
    let lines = report::devices("device: ", &infos);
    if let Err(err) = output::put_lines(out, &lines) {
        return Err(err);
    }
    let opened = match backend.open(args.device.as_str(), Access::Read, trace) {
        Ok(opened) => opened,
        Err(err) => {
            return Err(Error::Device(err));
        },
    };
    let mut session = DeviceSectors::new(opened, take(trace));
    let result = probe_device(&mut session, args, backend, out, diag, opts);
    *trace = session.trace;
    *device = Some(session.device);
    result
}

/// The commands that act on a range were given one.
pub open spec fn targeted(command: Command) -> bool {
    match command {
        Command::Hex(args) => args.location@.is_given(),
        Command::Dump(args) => args.location@.is_given(),
        Command::Flash(args) => args.location@.is_given(),
        Command::Verify(args) => args.location@.is_given(),
        _ => true,
    }
}

/// What a run does, command by command. Settings that contradict each other are
/// refused before anything is touched.
pub open spec fn ran<B: Backend, O: Output, E: Output>(
    command: Command,
    around: Surroundings,
    at: Scene<B::State, <B::Device as RawDevice>::State, O::State, E::State>,
) -> (Answer, Scene<B::State, <B::Device as RawDevice>::State, O::State, E::State>) {
    match command {
        Command::List => listed::<B, O, E>(at),
        Command::Probe(args) => match Options::inspecting(args.table, args.pit) {
            Err(err) => (Err(err), at),
            Ok(opts) => probed::<B, O, E>(at, args, opts),
        },
        Command::Parts(args) => match Options::inspecting(args.table, false) {
            Err(err) => (Err(err), at),
            Ok(opts) => opened::<B, O, E>(
                at,
                args.device@,
                Access::Read,
                |at| parts_run::<B::Device, O, E>(at, opts),
            ),
        },
        Command::Pit(args) => {
            let opts = Options::for_pit(args.pit_source);
            opened::<B, O, E>(
                at,
                args.device@,
                Access::Read,
                |at| pit_run::<B::Device, O, E>(at, opts),
            )
        },
        Command::Hex(args) => match Options::inspecting(args.table, false) {
            Err(err) => (Err(err), at),
            Ok(opts) => {
                let opts = Options { dry_run: args.dry_run, ..opts };
                opened::<B, O, E>(
                    at,
                    args.device@,
                    Access::Read,
                    |at| hex_run::<B::Device, O, E>(at, args, opts),
                )
            },
        },
        Command::Dump(args) => match Options::moving(args.table, args.transfer, around.watched) {
            Err(err) => (Err(err), at),
            Ok(opts) => opened::<B, O, E>(
                at,
                args.device@,
                Access::Read,
                |at|
                    dump_run::<B::Device, O, E>(
                        at,
                        args,
                        longpath::opened_as(args.output@, around.absolute_form()),
                        opts,
                    ),
            ),
        },
        Command::Flash(args) => match Options::moving(args.table, args.transfer, around.watched) {
            Err(err) => (Err(err), at),
            Ok(opts) => opened::<B, O, E>(
                at,
                args.device@,
                flash_access(opts),
                |at|
                    flash_run::<B::Device, O, E>(
                        at,
                        args,
                        longpath::opened_as(args.input@, around.absolute_form()),
                        opts,
                    ),
            ),
        },
        Command::Verify(args) => match Options::moving(args.table, args.transfer, around.watched) {
            Err(err) => (Err(err), at),
            Ok(opts) => (
                Ok(
                    NextView::Verify(
                        VerifyJobView {
                            args,
                            input: longpath::opened_as(args.input@, around.absolute_form()),
                            opts,
                        },
                    ),
                ),
                at,
            ),
        },
    }
}

/// What is handed back comes with what it takes to go on: a dump and a flash
/// with their device open, a comparison with none open yet, and the last two
/// with the range they were given.
pub proof fn a_job_comes_with_its_device<B: Backend, O: Output, E: Output>(
    command: Command,
    around: Surroundings,
    at: Scene<B::State, <B::Device as RawDevice>::State, O::State, E::State>,
)
    requires
        targeted(command),
        at.device is None,
    ensures
        ({
            let (answer, after) = ran::<B, O, E>(command, around, at);
            match answer {
                Ok(NextView::Dump(_)) => after.device is Some,
                Ok(NextView::Flash(job)) => after.device is Some
                    && job.args.location@.is_given(),
                Ok(NextView::Verify(job)) => after.device is None
                    && job.args.location@.is_given(),
                _ => true,
            }
        }),
{
    match command {
        Command::List => {},
        Command::Probe(_) => {
            reveal(probe_opened);
            reveal(probe_run);
        },
        Command::Parts(_) => {
            reveal(parts_run);
        },
        Command::Pit(_) => {
            reveal(pit_run);
        },
        Command::Hex(_) => {
            reveal(hex_run);
        },
        Command::Dump(_) => {
            reveal(dump_run);
        },
        Command::Flash(_) => {
            reveal(flash_run);
        },
        Command::Verify(_) => {},
    }
}

/// `out` carries results, which a script reads. `diag` carries everything that
/// only explains one: how a range was arrived at, and where a PIT was looked
/// for. The device the command opens is left in `device`.
pub fn run<'a, B: Backend, O: Output, E: Output>(
    cli: &'a Cli,
    around: &Surroundings,
    backend: &mut B,
    device: &mut Option<B::Device>,
    out: &mut O,
    diag: &mut E,
    trace: &mut Trace,
) -> (result: Result<Next<'a>>)
    requires
        targeted(cli.command),
        *old(device) is None,
    ensures
        (
            next_outcome(result),
            scene(*final(backend), *final(device), *final(trace), *final(out), *final(diag)),
        ) == ran::<B, O, E>(
            cli.command,
            *around,
            scene(*old(backend), *old(device), *old(trace), *old(out), *old(diag)),
        ),
        result matches Ok(Next::Dump(_)) ==> *final(device) is Some,
        result matches Ok(Next::Flash(job)) ==> *final(device) is Some
            && job.args.location@.is_given(),
        result matches Ok(Next::Verify(job)) ==> *final(device) is None
            && job.args.location@.is_given(),
{
    proof {
        a_job_comes_with_its_device::<B, O, E>(
            cli.command,
            *around,
            scene(*backend, *device, *trace, *out, *diag),
        );
    }
    match &cli.command {
        Command::List => list(backend, device, out, diag, trace),
        Command::Probe(args) => match Options::inspect(&args.table, args.pit) {
            Err(err) => Err(err),
            Ok(opts) => probe(args, backend, device, out, diag, trace, &opts),
        },
        Command::Parts(args) => match Options::inspect(&args.table, false) {
            Err(err) => Err(err),
            Ok(opts) => parts_cmd(args, backend, device, out, diag, trace, &opts),
        },
        Command::Pit(args) => {
            let opts = Options::pit(&args.pit_source);
            pit_cmd(args, backend, device, out, diag, trace, &opts)
        },
        Command::Hex(args) => match Options::inspect(&args.table, false) {
            Err(err) => Err(err),
            Ok(opts) => {
                let opts = Options {
                    source: opts.source,
                    pit_at: opts.pit_at,
                    pit_scan: opts.pit_scan,
                    dry_run: args.dry_run,
                    progress: opts.progress,
                };
                hex(args, backend, device, out, diag, trace, &opts)
            },
        },
        Command::Dump(args) => match Options::transfer(
            &args.table,
            &args.transfer,
            around.watched,
        ) {
            Err(err) => Err(err),
            Ok(opts) => dump(args, around, backend, device, out, diag, trace, &opts),
        },
        Command::Flash(args) => match Options::transfer(
            &args.table,
            &args.transfer,
            around.watched,
        ) {
            Err(err) => Err(err),
            Ok(opts) => flash(args, around, backend, device, out, diag, trace, &opts),
        },
        Command::Verify(args) => match Options::transfer(
            &args.table,
            &args.transfer,
            around.watched,
        ) {
            Err(err) => Err(err),
            Ok(opts) => Ok(
                Next::Verify(VerifyJob { args, input: around.path(&args.input), opts }),
            ),
        },
    }
}

} // verus!
