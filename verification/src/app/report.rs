//! What the commands print of a device and of the tables it carries.

use vstd::prelude::*;
use vstd::string::*;

use crate::bar;
use crate::device::{DeviceInfo, DeviceInfoView, VolumeLock, VolumeLockView};
use crate::device;
use crate::error::{DeviceError, DeviceErrorView};
use crate::parts::gaps;
use crate::parts::{Gap, Partition, PartitionView, Table, TableView};
use crate::pit;
use crate::pit::{Pit, PitView, ASSUMED_BLOCK_SIZE};
use crate::text;

verus! {

/// A device in one line.
pub open spec fn description(info: DeviceInfoView) -> Seq<char> {
    let size = match info.size_bytes {
        Some(bytes) => bar::with_point(bar::tenths(bytes, 0x4000_0000)) + " GiB"@,
        None => "unknown size"@,
    };
    info.id + "  "@ + size + "  "@ + info.removability.name() + "  sector="@ + text::dec(
        info.logical_sector_size as nat,
    ) + "  "@ + info.description
}

pub fn describe(info: &DeviceInfo) -> (line: String)
    ensures
        line@ == description(info@),
{
    let size = match info.size_bytes {
        Some(bytes) => {
            let count: u64 = bar::in_tenths(bytes, 0x4000_0000);
            let mut size = text::decimal(count / 10);
            size.append(".");
            text::push_dec(&mut size, count % 10);
            size.append(" GiB");
            size
        },
        None => "unknown size".to_owned(),
    };
    let mut line = info.id.clone();
    line.append("  ");
    line.append(size.as_str());
    line.append("  ");
    line.append(info.removability.as_str());
    line.append("  sector=");
    text::push_dec(&mut line, info.logical_sector_size as u64);
    line.append("  ");
    line.append(info.description.as_str());
    line
}

/// The devices, one line each behind `label`.
pub open spec fn device_lines(label: Seq<char>, infos: Seq<DeviceInfoView>) -> Seq<Seq<char>> {
    Seq::new(infos.len(), |i: int| label + description(infos[i]))
}

pub fn devices(label: &str, infos: &Vec<DeviceInfo>) -> (lines: Vec<String>)
    ensures
        text::views(lines@) == device_lines(label@, device::info_views(infos@)),
{
    let mut lines: Vec<String> = Vec::new();
    let mut i: usize = 0;
    let ghost all = device_lines(label@, device::info_views(infos@));
    while i < infos.len()
        invariant
            i <= infos@.len(),
            all == device_lines(label@, device::info_views(infos@)),
            text::views(lines@) == all.take(i as int),
        decreases infos@.len() - i,
    {
        let ghost before = lines@;
        let mut line = label.to_owned();
        line.append(describe(&infos[i]).as_str());
        lines.push(line);
        assert(text::views(lines@) =~= text::views(before).push(all[i as int]));
        assert(all.take(i + 1) =~= all.take(i as int).push(all[i as int]));
        i += 1;
    }
    assert(all.take(i as int) =~= all);
    lines
}

/// What `list` prints.
pub open spec fn listing(infos: Seq<DeviceInfoView>) -> Seq<Seq<char>> {
    if infos.len() == 0 {
        seq!["no devices found"@]
    } else {
        device_lines(""@, infos)
    }
}

pub fn list_lines(infos: &Vec<DeviceInfo>) -> (lines: Vec<String>)
    ensures
        text::views(lines@) == listing(device::info_views(infos@)),
{
    if infos.len() == 0 {
        let mut lines: Vec<String> = Vec::new();
        lines.push("no devices found".to_owned());
        assert(text::views(lines@) =~= seq!["no devices found"@]);
        return lines;
    }
    devices("", infos)
}

/// What the rehearsal of a write found out about one volume.
pub open spec fn volume_line(lock: VolumeLockView) -> Seq<char> {
    if lock.locked {
        "  volume "@ + lock.volume + " locked"@
    } else {
        match lock.error {
            Some(err) => "  volume "@ + lock.volume + " NOT locked - "@ + err.text(),
            None => "  volume "@ + lock.volume + " NOT locked"@,
        }
    }
}

/// What the rehearsal of a write found out.
pub open spec fn rehearsal(answer: Result<Seq<VolumeLockView>, DeviceErrorView>) -> Seq<Seq<char>> {
    match answer {
        Err(err) => seq!["write rehearsal: no writable handle - "@ + err.text()],
        Ok(locks) => if locks.len() == 0 {
            seq![
                "write rehearsal: writable handle taken; the OS has no volume mounted on this device"@,
            ]
        } else {
            seq!["write rehearsal: writable handle taken"@] + Seq::new(
                locks.len(),
                |i: int| volume_line(locks[i]),
            )
        },
    }
}

fn volume_text(lock: &VolumeLock) -> (line: String)
    ensures
        line@ == volume_line(lock@),
{
    let mut line = "  volume ".to_owned();
    line.append(lock.volume.as_str());
    if lock.locked {
        line.append(" locked");
        return line;
    }
    match &lock.error {
        Some(err) => {
            line.append(" NOT locked - ");
            line.append(err.to_string().as_str());
        },
        None => {
            line.append(" NOT locked");
        },
    }
    line
}

pub fn rehearsal_lines(answer: &Result<Vec<VolumeLock>, DeviceError>) -> (lines: Vec<String>)
    ensures
        text::views(lines@) == rehearsal(device::rehearsal(*answer)),
{
    let mut lines: Vec<String> = Vec::new();
    match answer {
        Err(err) => {
            let mut line = "write rehearsal: no writable handle - ".to_owned();
            line.append(err.to_string().as_str());
            lines.push(line);
            assert(text::views(lines@) =~= rehearsal(device::rehearsal(*answer)));
        },
        Ok(locks) => {
            if locks.len() == 0 {
                lines.push(
                    "write rehearsal: writable handle taken; the OS has no volume mounted on this device".to_owned(),
                );
                assert(text::views(lines@) =~= rehearsal(device::rehearsal(*answer)));
                return lines;
            }
            lines.push("write rehearsal: writable handle taken".to_owned());
            let mut i: usize = 0;
            let ghost all = rehearsal(device::rehearsal(*answer));
            assert(text::views(lines@) =~= all.take(1));
            while i < locks.len()
                invariant
                    i <= locks@.len(),
                    locks@.len() > 0,
                    *answer == Ok::<Vec<VolumeLock>, DeviceError>(*locks),
                    all == rehearsal(device::rehearsal(*answer)),
                    text::views(lines@) == all.take(i + 1),
                decreases locks@.len() - i,
            {
                let ghost before = lines@;
                lines.push(volume_text(&locks[i]));
                assert(all[i + 1] == volume_line(locks@[i as int]@));
                assert(text::views(lines@) =~= text::views(before).push(all[i + 1]));
                assert(all.take(i + 2) =~= all.take(i + 1).push(all[i + 1]));
                i += 1;
            }
            assert(all.take(i + 1) =~= all);
        },
    }
    lines
}

/// What marks an entry the device cannot hold.
pub open spec fn beyond_mark(info: DeviceInfoView, end: u64) -> Seq<char> {
    if info.size_bytes is Some && end > info.size_bytes->0 {
        "  << beyond device end"@
    } else {
        ""@
    }
}

fn beyond(info: &DeviceInfo, end: u64) -> (mark: &'static str)
    ensures
        mark@ == beyond_mark(info@, end),
{
    match info.size_bytes {
        Some(size) => if end > size {
            "  << beyond device end"
        } else {
            ""
        },
        None => "",
    }
}

/// A name, or a dash where there is none.
pub open spec fn name_or_dash(name: Option<Seq<char>>) -> Seq<char> {
    match name {
        Some(name) => name,
        None => "-"@,
    }
}

/// The columns of a partition table.
pub open spec fn part_columns(
    id: Seq<char>,
    name: Seq<char>,
    kind: Seq<char>,
    start: Seq<char>,
    length: Seq<char>,
    size: Seq<char>,
) -> Seq<char> {
    "  "@ + text::right(id, 3) + "  "@ + text::left(name, 24) + " "@ + text::left(kind, 38) + " "@
        + text::right(start, 14) + " "@ + text::right(length, 14) + " "@ + text::right(size, 10)
}

fn columns_of_part(
    id: &str,
    name: &str,
    kind: &str,
    start: &str,
    length: &str,
    size: &str,
) -> (line: String)
    ensures
        line@ == part_columns(id@, name@, kind@, start@, length@, size@),
{
    let mut line = "  ".to_owned();
    text::push_right(&mut line, id, 3);
    line.append("  ");
    text::push_left(&mut line, name, 24);
    line.append(" ");
    text::push_left(&mut line, kind, 38);
    line.append(" ");
    text::push_right(&mut line, start, 14);
    line.append(" ");
    text::push_right(&mut line, length, 14);
    line.append(" ");
    text::push_right(&mut line, size, 10);
    line
}

/// One entry of a partition table, in the columns above it.
pub open spec fn part_row(part: PartitionView, info: DeviceInfoView) -> Seq<char> {
    part_columns(
        text::dec(part.index as nat),
        name_or_dash(part.name),
        part.kind,
        text::dec(part.start as nat),
        text::dec(part.length as nat),
        bar::size_text(part.length),
    ) + beyond_mark(info, part.end())
}

fn row_of_part(part: &Partition, info: &DeviceInfo) -> (line: String)
    ensures
        line@ == part_row(part@, info@),
{
    let name = match &part.name {
        Some(name) => name.as_str(),
        None => "-",
    };
    let mut line = columns_of_part(
        text::decimal(part.index as u64).as_str(),
        name,
        part.kind.as_str(),
        text::decimal(part.start).as_str(),
        text::decimal(part.length).as_str(),
        bar::human_size(part.length).as_str(),
    );
    line.append(beyond(info, part.end()));
    line
}

/// A gap in one line.
pub open spec fn gap_line(gap: Gap) -> Seq<char> {
    "  unallocated "@ + text::dec(gap.start as nat) + ".."@ + text::dec(gap.end as nat) + " ("@
        + bar::size_text(gap.width()) + ")"@ + if gap.reverse {
        "  << a PIT search looks here first, backwards"@
    } else {
        ""@
    }
}

fn line_of_gap(gap: &Gap) -> (line: String)
    ensures
        line@ == gap_line(*gap),
{
    let mut line = "  unallocated ".to_owned();
    text::push_dec(&mut line, gap.start);
    line.append("..");
    text::push_dec(&mut line, gap.end);
    line.append(" (");
    line.append(bar::human_size(gap.len()).as_str());
    line.append(")");
    line.append(
        if gap.reverse {
            "  << a PIT search looks here first, backwards"
        } else {
            ""
        },
    );
    line
}

/// What stands above the entries of a partition table.
pub open spec fn parts_heading(table: TableView, info: DeviceInfoView) -> Seq<Seq<char>> {
    seq![
        "parts: scheme="@ + table.scheme.name() + ", from "@ + table.source + ", "@ + text::dec(
            table.partitions.len(),
        ) + " entries"@,
        "device: "@ + description(info),
        ""@,
        part_columns("ID"@, "NAME"@, "TYPE"@, "START"@, "LENGTH"@, "SIZE"@),
    ]
}

/// What stands below them: the space they leave over, where there is any.
pub open spec fn parts_footing(space: Seq<Gap>) -> Seq<Seq<char>> {
    if space.len() == 0 {
        Seq::empty()
    } else {
        seq![""@] + Seq::new(space.len(), |i: int| gap_line(space[i]))
    }
}

/// The scheme, where the entries came from, every range they resolve to, and
/// the space they leave over.
pub open spec fn parts_report(table: TableView, info: DeviceInfoView) -> Seq<Seq<char>> {
    parts_heading(table, info) + Seq::new(
        table.partitions.len(),
        |i: int| part_row(table.partitions[i], info),
    ) + parts_footing(gaps::space_between(table.partitions, info.size_bytes))
}

fn heading_of_parts(table: &Table, info: &DeviceInfo) -> (lines: Vec<String>)
    ensures
        text::views(lines@) == parts_heading(table@, info@),
{
    let mut first = "parts: scheme=".to_owned();
    first.append(table.scheme.as_str());
    first.append(", from ");
    first.append(table.source.as_str());
    first.append(", ");
    text::push_dec(&mut first, table.partitions.len() as u64);
    first.append(" entries");
    let mut second = "device: ".to_owned();
    second.append(describe(info).as_str());
    let mut lines: Vec<String> = Vec::new();
    lines.push(first);
    lines.push(second);
    lines.push("".to_owned());
    lines.push(columns_of_part("ID", "NAME", "TYPE", "START", "LENGTH", "SIZE"));
    assert(text::views(lines@) =~= parts_heading(table@, info@));
    lines
}

/// The scheme, where the entries came from, and every range they resolve to -
/// the whole point of the command is that this is printable without acting.
pub fn parts_lines(table: &Table, info: &DeviceInfo) -> (lines: Vec<String>)
    ensures
        text::views(lines@) == parts_report(table@, info@),
{
    let mut lines = heading_of_parts(table, info);
    let ghost head = parts_heading(table@, info@);
    let ghost rows = Seq::new(
        table@.partitions.len(),
        |i: int| part_row(table@.partitions[i], info@),
    );
    let mut i: usize = 0;
    assert(text::views(lines@) =~= head + rows.take(0));
    while i < table.partitions.len()
        invariant
            i <= table.partitions@.len(),
            rows == Seq::new(
                table@.partitions.len(),
                |i: int| part_row(table@.partitions[i], info@),
            ),
            text::views(lines@) == head + rows.take(i as int),
        decreases table.partitions@.len() - i,
    {
        let ghost before = lines@;
        lines.push(row_of_part(&table.partitions[i], info));
        assert(text::views(lines@) =~= text::views(before).push(rows[i as int]));
        assert(head + rows.take(i + 1) =~= (head + rows.take(i as int)).push(rows[i as int]));
        i += 1;
    }
    assert(rows.take(i as int) =~= rows);
    let space = table.gaps(info.size_bytes);
    let ghost foot = parts_footing(space@);
    let ghost above = head + rows;
    if space.len() > 0 {
        let ghost before = lines@;
        lines.push("".to_owned());
        assert(text::views(lines@) =~= text::views(before).push(""@));
        assert(above + foot.take(1) =~= above.push(""@));
        let mut g: usize = 0;
        while g < space.len()
            invariant
                g <= space@.len(),
                space@.len() > 0,
                foot == parts_footing(space@),
                text::views(lines@) == above + foot.take(g + 1),
            decreases space@.len() - g,
        {
            let ghost before = lines@;
            lines.push(line_of_gap(&space[g]));
            assert(foot[g + 1] == gap_line(space@[g as int]));
            assert(text::views(lines@) =~= text::views(before).push(foot[g + 1]));
            assert(above + foot.take(g + 2) =~= (above + foot.take(g + 1)).push(foot[g + 1]));
            g += 1;
        }
        assert(foot.take(g + 1) =~= foot);
    } else {
        assert(above + foot =~= above);
    }
    lines
}

/// The columns of a PIT.
pub open spec fn pit_columns(
    name: Seq<char>,
    kind: Seq<char>,
    id: Seq<char>,
    block_offset: Seq<char>,
    blocks: Seq<char>,
    byte_offset: Seq<char>,
    byte_len: Seq<char>,
    size: Seq<char>,
) -> Seq<char> {
    "  "@ + text::left(name, 16) + " "@ + text::left(kind, 7) + " "@ + text::right(id, 3) + "  "@
        + text::right(block_offset, 11) + " "@ + text::right(blocks, 9) + "  "@ + text::right(
        byte_offset,
        14,
    ) + " "@ + text::right(byte_len, 12) + " "@ + text::right(size, 10) + "  "@
}

fn columns_of_pit(
    name: &str,
    kind: &str,
    id: &str,
    block_offset: &str,
    blocks: &str,
    byte_offset: &str,
    byte_len: &str,
    size: &str,
) -> (line: String)
    ensures
        line@ == pit_columns(
            name@,
            kind@,
            id@,
            block_offset@,
            blocks@,
            byte_offset@,
            byte_len@,
            size@,
        ),
{
    let mut line = "  ".to_owned();
    text::push_left(&mut line, name, 16);
    line.append(" ");
    text::push_left(&mut line, kind, 7);
    line.append(" ");
    text::push_right(&mut line, id, 3);
    line.append("  ");
    text::push_right(&mut line, block_offset, 11);
    line.append(" ");
    text::push_right(&mut line, blocks, 9);
    line.append("  ");
    text::push_right(&mut line, byte_offset, 14);
    line.append(" ");
    text::push_right(&mut line, byte_len, 12);
    line.append(" ");
    text::push_right(&mut line, size, 10);
    line.append("  ");
    line
}

/// One entry of a PIT, in the columns above it.
pub open spec fn pit_row(part: pit::PartitionView, info: DeviceInfoView) -> Seq<char> {
    pit_columns(
        part.name,
        part.device_type.name(),
        text::dec(part.identifier as nat),
        text::dec(part.block_offset as nat),
        text::dec(part.block_count as nat),
        text::dec(part.byte_offset() as nat),
        text::dec(part.byte_length() as nat),
        bar::size_text(part.byte_length()),
    ) + (if part.flash_filename.len() == 0 {
        "-"@
    } else {
        part.flash_filename
    }) + beyond_mark(info, part.byte_end())
}

fn row_of_pit(part: &pit::Partition, info: &DeviceInfo) -> (line: String)
    ensures
        line@ == pit_row(part@, info@),
{
    let mut line = columns_of_pit(
        part.name.as_str(),
        part.device_type.to_string().as_str(),
        text::decimal(part.identifier as u64).as_str(),
        text::decimal(part.block_offset as u64).as_str(),
        text::decimal(part.block_count as u64).as_str(),
        text::decimal(part.byte_offset()).as_str(),
        text::decimal(part.byte_length()).as_str(),
        bar::human_size(part.byte_length()).as_str(),
    );
    if part.flash_filename.as_str().unicode_len() == 0 {
        line.append("-");
    } else {
        line.append(part.flash_filename.as_str());
    }
    line.append(beyond(info, part.byte_offset() + part.byte_length()));
    line
}

/// What stands above the entries of a PIT.
pub open spec fn pit_heading(table: PitView, at: u64, info: DeviceInfoView) -> Seq<Seq<char>> {
    seq![
        "pit: read at offset "@ + text::dec(at as nat) + " - chip="@ + text::quoted(table.chip)
            + " port="@ + text::quoted(table.port) + " format="@ + text::quoted(table.format)
            + ", "@ + text::dec(table.partitions.len()) + " entries"@,
        "pit: block size "@ + text::dec(ASSUMED_BLOCK_SIZE as nat)
            + " assumed; every byte column below depends on it"@,
        "device: "@ + description(info),
        ""@,
        pit_columns(
            "NAME"@,
            "TYPE"@,
            "ID"@,
            "BLOCK OFF"@,
            "BLOCKS"@,
            "BYTE OFFSET"@,
            "BYTE LEN"@,
            "SIZE"@,
        ) + "FLASH FILE"@,
    ]
}

/// Where the table was read, its header strings, and every entry with the raw
/// values its byte values were derived from.
pub open spec fn pit_report(table: PitView, at: u64, info: DeviceInfoView) -> Seq<Seq<char>> {
    pit_heading(table, at, info) + Seq::new(
        table.partitions.len(),
        |i: int| pit_row(table.partitions[i], info),
    )
}

fn heading_of_pit(table: &Pit, at: u64, info: &DeviceInfo) -> (lines: Vec<String>)
    ensures
        text::views(lines@) == pit_heading(table@, at, info@),
{
    let mut first = "pit: read at offset ".to_owned();
    text::push_dec(&mut first, at);
    first.append(" - chip=");
    first.append(text::quote(table.chip.as_str()).as_str());
    first.append(" port=");
    first.append(text::quote(table.port.as_str()).as_str());
    first.append(" format=");
    first.append(text::quote(table.format.as_str()).as_str());
    first.append(", ");
    text::push_dec(&mut first, table.partitions.len() as u64);
    first.append(" entries");
    let mut second = "pit: block size ".to_owned();
    text::push_dec(&mut second, ASSUMED_BLOCK_SIZE);
    second.append(" assumed; every byte column below depends on it");
    let mut third = "device: ".to_owned();
    third.append(describe(info).as_str());
    let mut columns = columns_of_pit(
        "NAME",
        "TYPE",
        "ID",
        "BLOCK OFF",
        "BLOCKS",
        "BYTE OFFSET",
        "BYTE LEN",
        "SIZE",
    );
    columns.append("FLASH FILE");
    let mut lines: Vec<String> = Vec::new();
    lines.push(first);
    lines.push(second);
    lines.push(third);
    lines.push("".to_owned());
    lines.push(columns);
    assert(text::views(lines@) =~= pit_heading(table@, at, info@));
    lines
}

pub fn pit_lines(table: &Pit, at: u64, info: &DeviceInfo) -> (lines: Vec<String>)
    ensures
        text::views(lines@) == pit_report(table@, at, info@),
{
    let mut lines = heading_of_pit(table, at, info);
    let ghost head = pit_heading(table@, at, info@);
    let ghost rows = Seq::new(
        table@.partitions.len(),
        |i: int| pit_row(table@.partitions[i], info@),
    );
    let mut i: usize = 0;
    assert(text::views(lines@) =~= head + rows.take(0));
    while i < table.partitions.len()
        invariant
            i <= table.partitions@.len(),
            rows == Seq::new(
                table@.partitions.len(),
                |i: int| pit_row(table@.partitions[i], info@),
            ),
            text::views(lines@) == head + rows.take(i as int),
        decreases table.partitions@.len() - i,
    {
        let ghost before = lines@;
        lines.push(row_of_pit(&table.partitions[i], info));
        assert(text::views(lines@) =~= text::views(before).push(rows[i as int]));
        assert(head + rows.take(i + 1) =~= (head + rows.take(i as int)).push(rows[i as int]));
        i += 1;
    }
    assert(rows.take(i as int) =~= rows);
    lines
}

} // verus!
