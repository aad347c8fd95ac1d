//! What a command acts on: the table its arguments mean, the PIT wherever it
//! is, and the range they resolve to.

use vstd::prelude::*;
use vstd::string::*;

use crate::bar::Bar;
use crate::cli::{Location, LocationView, PitSource, SchemeArg, TableSource, TransferOptions};
use crate::device::{DeviceInfoView, RawDevice};
use crate::error;
use crate::error::{Error, ErrorView, Result};
use crate::output;
use crate::output::Output;
use crate::parts;
use crate::parts::gaps;
use crate::parts::{
    DeviceSectors, Gap, PartitionView, Recorded, Scheme, Sectors, Survey, SurveyView, Table,
    TableView,
};
use crate::pit;
use crate::pit::{Found, FoundView, Pit, PitView, ASSUMED_BLOCK_SIZE};
use crate::text;

verus! {

/// Which table the range comes from, once the arguments have been read. Only
/// `--scheme` decides this: `--pit-offset` says where a PIT is, not that a
/// range should come from one.
#[derive(Debug, Clone, Copy, PartialEq, Eq, Structural)]
pub enum Source {
    Detect,
    Table(Scheme),
    Pit,
}

impl Source {
    /// The table a scheme argument means.
    pub open spec fn of(scheme: SchemeArg) -> Source {
        match scheme {
            SchemeArg::Mbr => Source::Table(Scheme::Mbr),
            SchemeArg::Gpt => Source::Table(Scheme::Gpt),
            SchemeArg::Pit => Source::Pit,
            SchemeArg::Auto => Source::Detect,
        }
    }

    /// The scheme that is fixed, where one is.
    pub open spec fn scheme(self) -> Option<Scheme> {
        match self {
            Source::Table(scheme) => Some(scheme),
            _ => None,
        }
    }
}

/// Settings that apply to every command, lifted out of the parsed arguments so
/// the handlers do not each grow another parameter.
#[derive(Debug, Clone, Copy, PartialEq, Eq, Structural)]
pub struct Options {
    pub source: Source,
    pub pit_at: Option<u64>,
    pub pit_scan: Option<u64>,
    pub dry_run: bool,
    pub progress: bool,
}

impl Options {
    /// The settings of a command that only looks. An offset for a PIT is
    /// refused where nothing would read one.
    pub open spec fn inspecting(table: TableSource, reads_a_pit: bool) -> core::result::Result<
        Options,
        ErrorView,
    > {
        let source = Source::of(table.scheme);
        if table.pit_source.pit_offset is Some && source != Source::Pit && !reads_a_pit {
            Err(
                ErrorView::InvalidArgument(
                    "--pit-offset says where a PIT is, not which table to use; add --scheme pit to resolve a range from one"@,
                ),
            )
        } else {
            Ok(
                Options {
                    source,
                    pit_at: table.pit_source.pit_offset,
                    pit_scan: table.pit_source.budget(),
                    dry_run: false,
                    progress: false,
                },
            )
        }
    }

    /// The settings of a command that moves bytes.
    pub open spec fn moving(
        table: TableSource,
        transfer: TransferOptions,
        watched: bool,
    ) -> core::result::Result<Options, ErrorView> {
        match Options::inspecting(table, false) {
            Err(err) => Err(err),
            Ok(options) => Ok(
                Options {
                    dry_run: transfer.dry_run,
                    progress: !transfer.no_progress && watched,
                    ..options
                },
            ),
        }
    }

    /// The settings of a command that reads a PIT and nothing else.
    pub open spec fn for_pit(pit: PitSource) -> Options {
        Options {
            source: Source::Pit,
            pit_at: pit.pit_offset,
            pit_scan: pit.budget(),
            dry_run: false,
            progress: false,
        }
    }

    /// A command that moves bytes: it can be rehearsed and it can report.
    /// `watched` says whether anyone sees the report.
    pub fn transfer(table: &TableSource, transfer: &TransferOptions, watched: bool) -> (result:
        Result<Options>)
        ensures
            error::outcome(result) == Options::moving(*table, *transfer, watched),
    {
        match Options::inspect(table, false) {
            Err(err) => Err(err),
            Ok(options) => Ok(
                Options {
                    source: options.source,
                    pit_at: options.pit_at,
                    pit_scan: options.pit_scan,
                    dry_run: transfer.dry_run,
                    progress: Bar::enabled(transfer.no_progress, watched),
                },
            ),
        }
    }

    /// A command that only looks: neither rehearsal nor progress applies.
    /// `reads_a_pit` is what `probe --pit` sets, being the one command that
    /// reads a PIT without resolving a range from it.
    pub fn inspect(table: &TableSource, reads_a_pit: bool) -> (result: Result<Options>)
        ensures
            error::outcome(result) == Options::inspecting(*table, reads_a_pit),
    {
        let source = match table.scheme {
            SchemeArg::Mbr => Source::Table(Scheme::Mbr),
            SchemeArg::Gpt => Source::Table(Scheme::Gpt),
            SchemeArg::Pit => Source::Pit,
            SchemeArg::Auto => Source::Detect,
        };
        if table.pit_source.pit_offset.is_some() && source != Source::Pit && !reads_a_pit {
            return Err(
                Error::InvalidArgument(
                    "--pit-offset says where a PIT is, not which table to use; add --scheme pit to resolve a range from one".to_owned(),
                ),
            );
        }
        Ok(
            Options {
                source,
                pit_at: table.pit_source.pit_offset,
                pit_scan: table.pit_source.scan_budget(),
                dry_run: false,
                progress: false,
            },
        )
    }

    /// `rawio pit` fixes the scheme; only where to look is still an argument.
    pub fn pit(pit: &PitSource) -> (options: Options)
        ensures
            options == Options::for_pit(*pit),
    {
        Options {
            source: Source::Pit,
            pit_at: pit.pit_offset,
            pit_scan: pit.scan_budget(),
            dry_run: false,
            progress: false,
        }
    }
}

/// How the caller named the partition it wants.
pub enum Selector<'a> {
    Name(&'a str),
    Id(u32),
}

/// A [`Selector`] by what it says.
#[verifier::ext_equal]
pub enum SelectorView {
    Name(Seq<char>),
    Id(u32),
}

impl<'a> View for Selector<'a> {
    type V = SelectorView;

    open spec fn view(&self) -> SelectorView {
        match *self {
            Selector::Name(name) => SelectorView::Name(name@),
            Selector::Id(id) => SelectorView::Id(id),
        }
    }
}

/// The partition a location names, where it names one. A name goes before a
/// number.
pub open spec fn selector_of(location: LocationView) -> Option<SelectorView> {
    match (location.partition, location.partition_id) {
        (Some(name), _) => Some(SelectorView::Name(name)),
        (None, Some(id)) => Some(SelectorView::Id(id)),
        (None, None) => None,
    }
}

/// Resolved target range. `length` is absent when only the caller knows it
/// (a `flash` whose length comes from the input file).
#[derive(Debug, Clone, Copy, PartialEq, Eq, Structural)]
pub struct Range {
    pub offset: u64,
    pub length: Option<u64>,
}

/// A device under way, its record, and the stream explanations go to.
#[verifier::ext_equal]
pub struct Seen<D, E> {
    pub device: D,
    pub trace: Seq<crate::trace::StepView>,
    pub diag: E,
}

impl<D, E> Seen<D, E> {
    /// The device and its record.
    pub open spec fn medium(self) -> Recorded<D> {
        Recorded { device: self.device, trace: self.trace }
    }

    /// The same with another device and record.
    pub open spec fn on(self, medium: Recorded<D>) -> Seen<D, E> {
        Seen { device: medium.device, trace: medium.trace, ..self }
    }
}

/// The table the options mean.
pub open spec fn table_read<D: RawDevice>(medium: Recorded<D::State>, opts: Options) -> (
    core::result::Result<TableView, ErrorView>,
    Recorded<D::State>,
) {
    parts::read_table::<DeviceSectors<D>>(medium, opts.source.scheme())
}

pub fn read_table<D: RawDevice>(session: &mut DeviceSectors<D>, opts: &Options) -> (result: Result<
    Table,
>)
    ensures
        (parts::table_outcome(result), final(session).medium()) == table_read::<D>(
            old(session).medium(),
            *opts,
        ),
{
    let scheme = match opts.source {
        Source::Table(scheme) => Some(scheme),
        _ => None,
    };
    parts::read(session, scheme)
}

/// What is said of one stretch a search goes through.
pub open spec fn stretch(gap: Gap) -> Seq<char> {
    text::dec(gap.start as nat) + ".."@ + text::dec(gap.end as nat) + if gap.reverse {
        " backwards"@
    } else {
        ""@
    }
}

/// What a search says before it starts.
pub open spec fn searching(space: Seq<Gap>) -> Seq<char> {
    "pit: searching "@ + text::joined(
        Seq::new(space.len(), |i: int| stretch(space[i])),
        ", "@,
    )
}

fn searching_text(space: &Vec<Gap>) -> (line: String)
    ensures
        line@ == searching(space@),
{
    let mut items: Vec<String> = Vec::new();
    let ghost all = Seq::new(space@.len(), |i: int| stretch(space@[i]));
    let mut i: usize = 0;
    while i < space.len()
        invariant
            i <= space@.len(),
            all == Seq::new(space@.len(), |i: int| stretch(space@[i])),
            text::views(items@) == all.take(i as int),
        decreases space@.len() - i,
    {
        let ghost before = items@;
        let gap = &space[i];
        let mut item = text::decimal(gap.start);
        item.append("..");
        text::push_dec(&mut item, gap.end);
        item.append(
            if gap.reverse {
                " backwards"
            } else {
                ""
            },
        );
        items.push(item);
        assert(text::views(items@) =~= text::views(before).push(all[i as int]));
        assert(all.take(i + 1) =~= all.take(i as int).push(all[i as int]));
        i += 1;
    }
    assert(all.take(i as int) =~= all);
    let mut line = "pit: searching ".to_owned();
    line.append(text::join(&items, ", ").as_str());
    line
}

/// The whole of a device, or of the address space where its size is not known.
pub open spec fn all_of(size: Option<u64>) -> Gap {
    Gap {
        start: 0,
        end: match size {
            Some(size) => size,
            None => u64::MAX,
        },
        reverse: false,
    }
}

/// What is said when no table bounds a search.
pub open spec fn unbounded(reason: ErrorView) -> Seq<char> {
    "pit: no partition table to bound the search ("@ + reason.text()
        + "); searching from offset 0"@
}

/// Why a survey leaves a search without bounds, where it does.
pub open spec fn boundless(survey: SurveyView) -> Option<ErrorView> {
    match survey {
        SurveyView::Absent { reason } => Some(ErrorView::Parts(reason)),
        SurveyView::Hybrid => Some(parts::hybrid()),
        SurveyView::Unreadable(err) => Some(err),
        SurveyView::Table(_) | SurveyView::Damaged(_) => None,
    }
}

/// Where a PIT can be: what the partitions leave over, or all of a device whose
/// table cannot be had or told. A table that is damaged is an error.
pub open spec fn searchable<D: RawDevice, E: Output>(at: Seen<D::State, E::State>) -> (
    core::result::Result<Seq<Gap>, ErrorView>,
    Seen<D::State, E::State>,
) {
    let size = D::described(at.device).size_bytes;
    let (survey, medium) = parts::surveyed::<DeviceSectors<D>>(at.medium());
    let at = at.on(medium);
    match survey {
        SurveyView::Damaged(err) => (Err(err), at),
        SurveyView::Table(table) => {
            let space = gaps::space_between(table.partitions, size);
            let (said, diag) = output::line_put::<E>(at.diag, searching(space));
            match said {
                Err(err) => (Err(err), Seen { diag, ..at }),
                Ok(()) => (Ok(space), Seen { diag, ..at }),
            }
        },
        _ => {
            let space = seq![all_of(size)];
            let (said, diag) = output::line_put::<E>(at.diag, unbounded(boundless(survey)->0));
            match said {
                Err(err) => (Err(err), Seen { diag, ..at }),
                Ok(()) => {
                    let (said, diag) = output::line_put::<E>(diag, searching(space));
                    match said {
                        Err(err) => (Err(err), Seen { diag, ..at }),
                        Ok(()) => (Ok(space), Seen { diag, ..at }),
                    }
                },
            }
        },
    }
}

/// Where a PIT can be. A device with no partition table to go by has no gaps to
/// speak of, so the whole of it is the search space; one whose table is damaged
/// is not searched at all until it is said where to look.
#[verifier::rlimit(60)]
pub fn search_space<D: RawDevice, E: Output>(session: &mut DeviceSectors<D>, diag: &mut E) -> (
    result: Result<Vec<Gap>>)
    ensures
        ({
            let (space, after) = searchable::<D, E>(
                Seen {
                    device: old(session).device.state(),
                    trace: old(session).trace@,
                    diag: old(diag).state(),
                },
            );
            &&& match result {
                Ok(gaps) => space == Ok::<Seq<Gap>, ErrorView>(gaps@),
                Err(err) => space == Err::<Seq<Gap>, ErrorView>(err@),
            }
            &&& after == (Seen {
                device: final(session).device.state(),
                trace: final(session).trace@,
                diag: final(diag).state(),
            })
        }),
{
    let size: Option<u64> = session.device_size();
    let ghost medium = session.medium();
    assert(medium == (Seen {
        device: session.device.state(),
        trace: session.trace@,
        diag: diag.state(),
    }).medium());
    let reason = match parts::survey(session) {
        Survey::Table(table) => {
            let space = table.gaps(size);
            return match output::put_line(diag, searching_text(&space).as_str()) {
                Err(err) => Err(err),
                Ok(()) => Ok(space),
            };
        },
        Survey::Damaged(err) => {
            return Err(err);
        },
        Survey::Absent { reason } => Error::Parts(reason),
        Survey::Hybrid => parts::hybrid_error(),
        Survey::Unreadable(err) => err,
    };
    let mut line = "pit: no partition table to bound the search (".to_owned();
    line.append(reason.to_string().as_str());
    line.append("); searching from offset 0");
    if let Err(err) = output::put_line(diag, line.as_str()) {
        return Err(err);
    }
    let mut space: Vec<Gap> = Vec::new();
    space.push(
        Gap {
            start: 0,
            end: match size {
                Some(size) => size,
                None => u64::MAX,
            },
            reverse: false,
        },
    );
    assert(space@ =~= seq![all_of(size)]);
    match output::put_line(diag, searching_text(&space).as_str()) {
        Err(err) => Err(err),
        Ok(()) => Ok(space),
    }
}

/// What a failed read at a given offset says: a table that is not there gets
/// the advice to search for it.
pub open spec fn hinted(err: ErrorView, at: u64) -> ErrorView {
    match err {
        ErrorView::Pit(message) => ErrorView::Pit(
            message + " (looked at offset "@ + text::dec(at as nat)
                + "; drop --pit-offset to search for the table)"@,
        ),
        other => other,
    }
}

fn hint(err: Error, at: u64) -> (hinted: Error)
    ensures
        hinted@ == self::hinted(err@, at),
{
    match err {
        Error::Pit(message) => {
            let mut message = message;
            message.append(" (looked at offset ");
            text::push_dec(&mut message, at);
            message.append("; drop --pit-offset to search for the table)");
            Error::Pit(message)
        },
        other => other,
    }
}

/// What a search that found a table says.
pub open spec fn found_line(offset: u64) -> Seq<char> {
    "pit: found at offset "@ + text::dec(offset as nat)
        + " by searching the space no partition covers"@
}

/// The PIT where it was said to be, or where a search finds it.
pub open spec fn located<D: RawDevice, E: Output>(at: Seen<D::State, E::State>, opts: Options) -> (
    core::result::Result<FoundView, ErrorView>,
    Seen<D::State, E::State>,
) {
    match opts.pit_at {
        Some(offset) => {
            let (read, medium) = pit::table_at::<DeviceSectors<D>>(at.medium(), offset);
            match read {
                Ok(pit) => (Ok(FoundView { pit, offset }), at.on(medium)),
                Err(err) => (Err(hinted(err, offset)), at.on(medium)),
            }
        },
        None => {
            let (space, at) = searchable::<D, E>(at);
            match space {
                Err(err) => (Err(err), at),
                Ok(space) => {
                    let (found, medium) = pit::searched::<DeviceSectors<D>>(
                        at.medium(),
                        space,
                        opts.pit_scan,
                    );
                    let at = at.on(medium);
                    match found {
                        Err(err) => (Err(err), at),
                        Ok(found) => {
                            let (said, diag) = output::line_put::<E>(
                                at.diag,
                                found_line(found.offset),
                            );
                            match said {
                                Err(err) => (Err(err), Seen { diag, ..at }),
                                Ok(()) => (Ok(found), Seen { diag, ..at }),
                            }
                        },
                    }
                },
            }
        },
    }
}

/// Reads the PIT from where it was said to be, or finds it. A search prints
/// where it landed: nothing else in the output would show that it found the
/// wrong copy.
pub fn locate_pit<D: RawDevice, E: Output>(
    session: &mut DeviceSectors<D>,
    diag: &mut E,
    opts: &Options,
) -> (result: Result<Found>)
    ensures
        (
            pit::found_outcome(result),
            Seen {
                device: final(session).device.state(),
                trace: final(session).trace@,
                diag: final(diag).state(),
            },
        ) == located::<D, E>(
            Seen {
                device: old(session).device.state(),
                trace: old(session).trace@,
                diag: old(diag).state(),
            },
            *opts,
        ),
{
    let ghost first = Seen {
        device: session.device.state(),
        trace: session.trace@,
        diag: diag.state(),
    };
    assert(session.medium() == first.medium());
    if let Some(at) = opts.pit_at {
        return match pit::read_at(session, at) {
            Ok(pit) => Ok(Found { pit, offset: at }),
            Err(err) => Err(hint(err, at)),
        };
    }
    let space = match search_space(session, diag) {
        Ok(space) => space,
        Err(err) => {
            return Err(err);
        },
    };
    let ghost second = Seen {
        device: session.device.state(),
        trace: session.trace@,
        diag: diag.state(),
    };
    assert(session.medium() == second.medium());
    let found = match pit::scan(session, space.as_slice(), opts.pit_scan) {
        Ok(found) => found,
        Err(err) => {
            return Err(err);
        },
    };
    let mut line = "pit: found at offset ".to_owned();
    text::push_dec(&mut line, found.offset);
    line.append(" by searching the space no partition covers");
    match output::put_line(diag, line.as_str()) {
        Err(err) => Err(err),
        Ok(()) => Ok(found),
    }
}

/// The entry a selector means in a partition table.
pub open spec fn selected_part(table: TableView, selector: SelectorView) -> core::result::Result<
    PartitionView,
    ErrorView,
> {
    match selector {
        SelectorView::Name(name) => table.by_name(name),
        SelectorView::Id(index) => table.by_index(index),
    }
}

/// The entry a selector means in a PIT.
pub open spec fn selected_entry(pit: PitView, selector: SelectorView) -> core::result::Result<
    pit::PartitionView,
    ErrorView,
> {
    match selector {
        SelectorView::Name(name) => pit.by_name(name),
        SelectorView::Id(id) => pit.by_id(id),
    }
}

/// What is said of the entry a range resolved to.
pub open spec fn part_span(table: TableView, part: PartitionView) -> Seq<char> {
    "parts: "@ + table.scheme.name() + " #"@ + text::dec(part.index as nat) + " "@
        + crate::app::report::name_or_dash(part.name) + " spans "@ + text::dec(part.start as nat)
        + ".."@ + text::dec(part.end() as nat) + " ("@ + text::dec(part.length as nat)
        + " bytes), type "@ + part.kind + ", from "@ + table.source
}

/// The range an entry gives: no longer than the entry, and on the device.
pub open spec fn part_range(
    info: DeviceInfoView,
    part: PartitionView,
    explicit_length: Option<u64>,
) -> core::result::Result<Range, ErrorView> {
    let length = match explicit_length {
        Some(length) => length,
        None => part.length,
    };
    if info.size_bytes is Some && part.end() > info.size_bytes->0 {
        Err(
            ErrorView::InvalidArgument(
                "partition "@ + text::dec(part.index as nat) + " resolves to "@ + text::dec(
                    part.start as nat,
                ) + ".."@ + text::dec(part.end() as nat) + ", past the end of "@ + info.id
                    + " at "@ + text::dec(info.size_bytes->0 as nat)
                    + " bytes; the table is wrong"@,
            ),
        )
    } else if length > part.length {
        Err(
            ErrorView::InvalidArgument(
                "--length "@ + text::dec(length as nat) + " is larger than partition "@
                    + text::dec(part.index as nat) + " at "@ + text::dec(part.length as nat)
                    + " bytes"@,
            ),
        )
    } else {
        Ok(Range { offset: part.start, length: Some(length) })
    }
}

/// The range a partition table gives for a selector, said before it is used.
pub open spec fn resolved_in_table<D: RawDevice, E: Output>(
    at: Seen<D::State, E::State>,
    selector: SelectorView,
    explicit_length: Option<u64>,
    opts: Options,
) -> (core::result::Result<Range, ErrorView>, Seen<D::State, E::State>) {
    let info = D::described(at.device);
    let (read, medium) = table_read::<D>(at.medium(), opts);
    let at = at.on(medium);
    match read {
        Err(err) => (Err(err), at),
        Ok(table) => match selected_part(table, selector) {
            Err(err) => (Err(err), at),
            Ok(part) => {
                let (said, diag) = output::line_put::<E>(at.diag, part_span(table, part));
                let at = Seen { diag, ..at };
                match said {
                    Err(err) => (Err(err), at),
                    Ok(()) => (part_range(info, part, explicit_length), at),
                }
            },
        },
    }
}

/// Resolves a range from the MBR or GPT, printing what it resolved to and
/// refusing anything the device cannot hold.
#[verifier::rlimit(60)]
pub fn resolve_in_table<'a, D: RawDevice, E: Output>(
    session: &mut DeviceSectors<D>,
    selector: Selector<'a>,
    explicit_length: Option<u64>,
    diag: &mut E,
    opts: &Options,
) -> (result: Result<Range>)
    ensures
        (
            error::outcome(result),
            Seen {
                device: final(session).device.state(),
                trace: final(session).trace@,
                diag: final(diag).state(),
            },
        ) == resolved_in_table::<D, E>(
            Seen {
                device: old(session).device.state(),
                trace: old(session).trace@,
                diag: old(diag).state(),
            },
            selector@,
            explicit_length,
            *opts,
        ),
{
    let ghost first = Seen {
        device: session.device.state(),
        trace: session.trace@,
        diag: diag.state(),
    };
    assert(session.medium() == first.medium());
    let info = session.device.info().copied();
    let table = match read_table(session, opts) {
        Ok(table) => table,
        Err(err) => {
            return Err(err);
        },
    };
    let found = match selector {
        Selector::Name(name) => table.find(name),
        Selector::Id(index) => table.find_by_index(index),
    };
    let part = match found {
        Ok(part) => part,
        Err(err) => {
            return Err(err);
        },
    };
    let mut line = "parts: ".to_owned();
    line.append(table.scheme.as_str());
    line.append(" #");
    text::push_dec(&mut line, part.index as u64);
    line.append(" ");
    line.append(
        match &part.name {
            Some(name) => name.as_str(),
            None => "-",
        },
    );
    line.append(" spans ");
    text::push_dec(&mut line, part.start);
    line.append("..");
    text::push_dec(&mut line, part.end());
    line.append(" (");
    text::push_dec(&mut line, part.length);
    line.append(" bytes), type ");
    line.append(part.kind.as_str());
    line.append(", from ");
    line.append(table.source.as_str());
    if let Err(err) = output::put_line(diag, line.as_str()) {
        return Err(err);
    }
    if let Some(size) = info.size_bytes {
        if part.end() > size {
            let mut message = "partition ".to_owned();
            text::push_dec(&mut message, part.index as u64);
            message.append(" resolves to ");
            text::push_dec(&mut message, part.start);
            message.append("..");
            text::push_dec(&mut message, part.end());
            message.append(", past the end of ");
            message.append(info.id.as_str());
            message.append(" at ");
            text::push_dec(&mut message, size);
            message.append(" bytes; the table is wrong");
            return Err(Error::InvalidArgument(message));
        }
    }
    let length: u64 = match explicit_length {
        Some(length) => length,
        None => part.length,
    };
    if length > part.length {
        let mut message = "--length ".to_owned();
        text::push_dec(&mut message, length);
        message.append(" is larger than partition ");
        text::push_dec(&mut message, part.index as u64);
        message.append(" at ");
        text::push_dec(&mut message, part.length);
        message.append(" bytes");
        return Err(Error::InvalidArgument(message));
    }
    Ok(Range { offset: part.start, length: Some(length) })
}

/// What is said of the PIT entry a range resolved to.
pub open spec fn entry_span(part: pit::PartitionView) -> Seq<char> {
    "pit: "@ + part.name + " spans "@ + text::dec(part.byte_offset() as nat) + ".."@ + text::dec(
        part.byte_end() as nat,
    ) + " ("@ + text::dec(part.byte_length() as nat) + " bytes) from block_offset="@ + text::dec(
        part.block_offset as nat,
    ) + " block_count="@ + text::dec(part.block_count as nat) + " device_type="@
        + part.device_type.name() + " with block size "@ + text::dec(ASSUMED_BLOCK_SIZE as nat)
        + " assumed"@
}

/// The range a PIT entry gives: no longer than the entry, and on the device. A
/// range past the end is the loudest signal that the layout was misread.
pub open spec fn entry_range(
    info: DeviceInfoView,
    part: pit::PartitionView,
    explicit_length: Option<u64>,
) -> core::result::Result<Range, ErrorView> {
    let length = match explicit_length {
        Some(length) => length,
        None => part.byte_length(),
    };
    if info.size_bytes is Some && part.byte_end() > info.size_bytes->0 {
        Err(
            ErrorView::InvalidArgument(
                "partition "@ + part.name + " resolves to "@ + text::dec(
                    part.byte_offset() as nat,
                ) + ".."@ + text::dec(part.byte_end() as nat) + ", past the end of "@ + info.id
                    + " at "@ + text::dec(info.size_bytes->0 as nat)
                    + " bytes; the block size assumption or the table itself is wrong"@,
            ),
        )
    } else if length > part.byte_length() {
        Err(
            ErrorView::InvalidArgument(
                "--length "@ + text::dec(length as nat) + " is larger than partition "@ + part.name
                    + " at "@ + text::dec(part.byte_length() as nat) + " bytes"@,
            ),
        )
    } else {
        Ok(Range { offset: part.byte_offset(), length: Some(length) })
    }
}

/// The range the PIT gives for a selector, said before it is used.
pub open spec fn resolved_in_pit<D: RawDevice, E: Output>(
    at: Seen<D::State, E::State>,
    selector: SelectorView,
    explicit_length: Option<u64>,
    opts: Options,
) -> (core::result::Result<Range, ErrorView>, Seen<D::State, E::State>) {
    let info = D::described(at.device);
    let (found, at) = located::<D, E>(at, opts);
    match found {
        Err(err) => (Err(err), at),
        Ok(found) => match selected_entry(found.pit, selector) {
            Err(err) => (Err(err), at),
            Ok(part) => {
                let (said, diag) = output::line_put::<E>(at.diag, entry_span(part));
                let at = Seen { diag, ..at };
                match said {
                    Err(err) => (Err(err), at),
                    Ok(()) => (entry_range(info, part, explicit_length), at),
                }
            },
        },
    }
}

/// The range a location means. An offset is taken as it stands; the two
/// partition forms are the only thing that makes a table be read at all.
pub open spec fn resolved<D: RawDevice, E: Output>(
    at: Seen<D::State, E::State>,
    location: LocationView,
    explicit_length: Option<u64>,
    opts: Options,
) -> (core::result::Result<Range, ErrorView>, Seen<D::State, E::State>) {
    match selector_of(location) {
        None => (Ok(Range { offset: location.offset->0, length: explicit_length }), at),
        Some(selector) => if opts.source != Source::Pit {
            resolved_in_table::<D, E>(at, selector, explicit_length, opts)
        } else {
            resolved_in_pit::<D, E>(at, selector, explicit_length, opts)
        },
    }
}

/// A table is read only when `--partition` was given, and the range it resolves
/// to is printed, and checked against the device, before it is used.
pub fn resolve<D: RawDevice, E: Output>(
    session: &mut DeviceSectors<D>,
    location: &Location,
    explicit_length: Option<u64>,
    diag: &mut E,
    opts: &Options,
) -> (result: Result<Range>)
    requires
        location@.is_given(),
    ensures
        (
            error::outcome(result),
            Seen {
                device: final(session).device.state(),
                trace: final(session).trace@,
                diag: final(diag).state(),
            },
        ) == resolved::<D, E>(
            Seen {
                device: old(session).device.state(),
                trace: old(session).trace@,
                diag: old(diag).state(),
            },
            location@,
            explicit_length,
            *opts,
        ),
{
    let selector = match (&location.partition, location.partition_id) {
        (Some(name), _) => Selector::Name(name.as_str()),
        (None, Some(id)) => Selector::Id(id),
        (None, None) => {
            return match location.offset {
                Some(offset) => Ok(Range { offset, length: explicit_length }),
                None => {
                    assert(false);
                    Ok(Range { offset: 0, length: explicit_length })
                },
            };
        },
    };
    if opts.source != Source::Pit {
        return resolve_in_table(session, selector, explicit_length, diag, opts);
    }
    let info = session.device.info().copied();
    let table = match locate_pit(session, diag, opts) {
        Ok(found) => found.pit,
        Err(err) => {
            return Err(err);
        },
    };
    let found = match selector {
        Selector::Name(name) => table.find(name),
        Selector::Id(id) => table.find_by_id(id),
    };
    let part = match found {
        Ok(part) => part,
        Err(err) => {
            return Err(err);
        },
    };
    let start: u64 = part.byte_offset();
    let end: u64 = start + part.byte_length();
    let mut line = "pit: ".to_owned();
    line.append(part.name.as_str());
    line.append(" spans ");
    text::push_dec(&mut line, start);
    line.append("..");
    text::push_dec(&mut line, end);
    line.append(" (");
    text::push_dec(&mut line, part.byte_length());
    line.append(" bytes) from block_offset=");
    text::push_dec(&mut line, part.block_offset as u64);
    line.append(" block_count=");
    text::push_dec(&mut line, part.block_count as u64);
    line.append(" device_type=");
    line.append(part.device_type.to_string().as_str());
    line.append(" with block size ");
    text::push_dec(&mut line, ASSUMED_BLOCK_SIZE);
    line.append(" assumed");
    if let Err(err) = output::put_line(diag, line.as_str()) {
        return Err(err);
    }

    // A range past the end is the loudest signal that the layout was misread.
    if let Some(size) = info.size_bytes {
        if end > size {
            let mut message = "partition ".to_owned();
            message.append(part.name.as_str());
            message.append(" resolves to ");
            text::push_dec(&mut message, start);
            message.append("..");
            text::push_dec(&mut message, end);
            message.append(", past the end of ");
            message.append(info.id.as_str());
            message.append(" at ");
            text::push_dec(&mut message, size);
            message.append(" bytes; the block size assumption or the table itself is wrong");
            return Err(Error::InvalidArgument(message));
        }
    }
    let length: u64 = match explicit_length {
        Some(length) => length,
        None => part.byte_length(),
    };
    if length > part.byte_length() {
        let mut message = "--length ".to_owned();
        text::push_dec(&mut message, length);
        message.append(" is larger than partition ");
        message.append(part.name.as_str());
        message.append(" at ");
        text::push_dec(&mut message, part.byte_length());
        message.append(" bytes");
        return Err(Error::InvalidArgument(message));
    }
    Ok(Range { offset: start, length: Some(length) })
}

} // verus!
