//! Where the figures of a report stand, and what they say.

use vstd::prelude::*;

use crate::app::report;
use crate::bar;
use crate::device::DeviceInfoView;
use crate::figures;
use crate::parts::gaps;
use crate::parts::{PartitionView, TableView};
use crate::pit;
use crate::pit::PitView;
use crate::text;

verus! {

/// A row of a partition table whose words fit their columns shows the number,
/// the name, the type, where the partition starts and how long it is, each in
/// its place, and marks it exactly where it ends behind the device.
#[verifier::rlimit(60)]
pub proof fn a_row_shows_where_its_partition_lies(part: PartitionView, info: DeviceInfoView)
    requires
        text::dec(part.index as nat).len() <= 3,
        part.name matches Some(name) ==> name.len() <= 24,
        part.kind.len() <= 38,
        text::dec(part.start as nat).len() <= 14,
        text::dec(part.length as nat).len() <= 14,
        bar::size_text(part.length).len() <= 10,
    ensures
        ({
            let row = report::part_row(part, info);
            &&& row.len() >= 111
            &&& row.subrange(0, 2) == seq![' ', ' ']
            &&& row.subrange(2, 5) == text::right(text::dec(part.index as nat), 3)
            &&& row.subrange(7, 31) == text::left(
                match part.name {
                    Some(name) => name,
                    None => seq!['-'],
                },
                24,
            )
            &&& row.subrange(32, 70) == text::left(part.kind, 38)
            &&& row.subrange(71, 85) == text::right(text::dec(part.start as nat), 14)
            &&& row.subrange(86, 100) == text::right(text::dec(part.length as nat), 14)
            &&& row.subrange(101, 111) == text::right(bar::size_text(part.length), 10)
            &&& row.len() > 111 <==> info.size_bytes is Some && info.size_bytes->0 < u64::MAX
                && part.start + part.length > info.size_bytes->0
        }),
{
    reveal_strlit("  ");
    reveal_strlit(" ");
    reveal_strlit("-");
    reveal_strlit("");
    reveal_strlit("  << beyond device end");
    let row = report::part_row(part, info);
    let name = report::name_or_dash(part.name);
    assert("-"@ =~= seq!['-']);
    figures::a_column_is_filled_with_blanks(text::dec(part.index as nat), 3);
    figures::a_column_is_filled_with_blanks(name, 24);
    figures::a_column_is_filled_with_blanks(part.kind, 38);
    figures::a_column_is_filled_with_blanks(text::dec(part.start as nat), 14);
    figures::a_column_is_filled_with_blanks(text::dec(part.length as nat), 14);
    figures::a_column_is_filled_with_blanks(bar::size_text(part.length), 10);
    assert(row.subrange(0, 2) =~= seq![' ', ' ']);
    assert(row.subrange(2, 5) =~= text::right(text::dec(part.index as nat), 3));
    assert(row.subrange(7, 31) =~= text::left(name, 24));
    assert(row.subrange(32, 70) =~= text::left(part.kind, 38));
    assert(row.subrange(71, 85) =~= text::right(text::dec(part.start as nat), 14));
    assert(row.subrange(86, 100) =~= text::right(text::dec(part.length as nat), 14));
    assert(row.subrange(101, 111) =~= text::right(bar::size_text(part.length), 10));
}

/// A row of a PIT whose words fit their columns shows the entry in blocks as
/// they stand in the table, and in bytes at 512 of them to the block.
#[verifier::rlimit(60)]
pub proof fn a_row_shows_where_its_entry_lies(part: pit::PartitionView, info: DeviceInfoView)
    requires
        part.name.len() <= 16,
        part.device_type.name().len() <= 7,
        text::dec(part.identifier as nat).len() <= 3,
        text::dec(part.block_offset as nat).len() <= 11,
        text::dec(part.block_count as nat).len() <= 9,
        text::dec((512 * part.block_offset) as nat).len() <= 14,
        text::dec((512 * part.block_count) as nat).len() <= 12,
        bar::size_text((512 * part.block_count) as u64).len() <= 10,
    ensures
        ({
            let row = report::pit_row(part, info);
            let file = if part.flash_filename.len() == 0 {
                seq!['-']
            } else {
                part.flash_filename
            };
            &&& row.len() >= 95 + file.len()
            &&& row.subrange(2, 18) == text::left(part.name, 16)
            &&& row.subrange(19, 26) == text::left(part.device_type.name(), 7)
            &&& row.subrange(27, 30) == text::right(text::dec(part.identifier as nat), 3)
            &&& row.subrange(32, 43) == text::right(text::dec(part.block_offset as nat), 11)
            &&& row.subrange(44, 53) == text::right(text::dec(part.block_count as nat), 9)
            &&& row.subrange(55, 69) == text::right(
                text::dec((512 * part.block_offset) as nat),
                14,
            )
            &&& row.subrange(70, 82) == text::right(text::dec((512 * part.block_count) as nat), 12)
            &&& row.subrange(83, 93) == text::right(
                bar::size_text((512 * part.block_count) as u64),
                10,
            )
            &&& row.subrange(95, (95 + file.len()) as int) == file
            &&& row.len() > 95 + file.len() <==> info.size_bytes is Some && 512 * (
            part.block_offset + part.block_count) > info.size_bytes->0
        }),
{
    reveal_strlit("  ");
    reveal_strlit(" ");
    reveal_strlit("-");
    reveal_strlit("");
    reveal_strlit("  << beyond device end");
    let row = report::pit_row(part, info);
    assert("-"@ =~= seq!['-']);
    let file = if part.flash_filename.len() == 0 {
        seq!['-']
    } else {
        part.flash_filename
    };
    assert(part.byte_offset() == 512 * part.block_offset);
    assert(part.byte_length() == 512 * part.block_count);
    assert(row.subrange(2, 18) =~= text::left(part.name, 16));
    assert(row.subrange(19, 26) =~= text::left(part.device_type.name(), 7));
    assert(row.subrange(27, 30) =~= text::right(text::dec(part.identifier as nat), 3));
    assert(row.subrange(32, 43) =~= text::right(text::dec(part.block_offset as nat), 11));
    assert(row.subrange(44, 53) =~= text::right(text::dec(part.block_count as nat), 9));
    assert(row.subrange(55, 69) =~= text::right(text::dec(part.byte_offset() as nat), 14));
    assert(row.subrange(70, 82) =~= text::right(text::dec(part.byte_length() as nat), 12));
    assert(row.subrange(83, 93) =~= text::right(bar::size_text(part.byte_length()), 10));
    assert(row.subrange(95, (95 + file.len()) as int) =~= file);
}

/// The report of a table has a row for every partition, in the order of the
/// table, and below them a line for every gap the partitions leave, in the order
/// of the device.
pub proof fn a_report_leaves_nothing_out(table: TableView, info: DeviceInfoView)
    ensures
        ({
            let lines = report::parts_report(table, info);
            let n = table.partitions.len() as int;
            let space = gaps::space_between(table.partitions, info.size_bytes);
            &&& lines.len() == 4 + n + if space.len() == 0 {
                0
            } else {
                1 + space.len() as int
            }
            &&& forall|i: int|
                0 <= i < n ==> lines[4 + i] == report::part_row(
                    #[trigger] table.partitions[i],
                    info,
                )
            &&& forall|g: int|
                0 <= g < space.len() ==> lines[4 + n + 1 + g] == report::gap_line(
                    #[trigger] space[g],
                )
        }),
{
}

/// The report of a PIT has a row for every entry, in the order of the table.
pub proof fn a_pit_report_leaves_nothing_out(table: PitView, at: u64, info: DeviceInfoView)
    ensures
        ({
            let lines = report::pit_report(table, at, info);
            &&& lines.len() == 5 + table.partitions.len()
            &&& forall|i: int|
                0 <= i < table.partitions.len() ==> lines[5 + i] == report::pit_row(
                    #[trigger] table.partitions[i],
                    info,
                )
        }),
{
}

/// A device is listed under the identifier it answers to, with its size in GiB
/// to the nearest tenth.
pub proof fn a_device_is_listed_with_its_size(info: DeviceInfoView, bytes: u64)
    requires
        info.size_bytes == Some(bytes),
        bytes < 0x20_0000_0000_0000,
    ensures
        ({
            let line = report::description(info);
            exists|tenths: nat|
                {
                    let shown = info.id + seq![' ', ' '] + #[trigger] bar::with_point(tenths)
                        + seq![' ', 'G', 'i', 'B', ' ', ' '];
                    &&& shown.is_prefix_of(line)
                    &&& 2 * (tenths * 1_073_741_824 - 10 * bytes) <= 1_073_741_824
                    &&& 2 * (10 * bytes - tenths * 1_073_741_824) <= 1_073_741_824
                }
        }),
{
    reveal_strlit("  ");
    reveal_strlit(" GiB");
    let tenths = bar::tenths(bytes, 0x4000_0000);
    figures::a_size_is_rounded_to_the_nearest_tenth(bytes, 0x4000_0000);
    let line = report::description(info);
    let shown = info.id + seq![' ', ' '] + bar::with_point(tenths) + seq![
        ' ',
        'G',
        'i',
        'B',
        ' ',
        ' ',
    ];
    assert(line.subrange(0, shown.len() as int) =~= shown);
}

/// Every device is listed, each on a line of its own and in the order the host
/// names them.
pub proof fn every_device_is_listed(infos: Seq<DeviceInfoView>)
    requires
        infos.len() > 0,
    ensures
        report::listing(infos).len() == infos.len(),
        forall|i: int|
            0 <= i < infos.len() ==> report::listing(infos)[i] == report::description(
                #[trigger] infos[i],
            ),
{
    reveal_strlit("");
    assert forall|i: int| 0 <= i < infos.len() implies report::listing(infos)[i]
        == report::description(#[trigger] infos[i]) by {
        assert(""@ + report::description(infos[i]) =~= report::description(infos[i]));
    }
}

/// A device that does not say how large it is is listed so.
pub proof fn a_device_of_unknown_size_is_listed_so(info: DeviceInfoView)
    requires
        info.size_bytes is None,
    ensures
        (info.id + "  unknown size  "@).is_prefix_of(report::description(info)),
{
    reveal_strlit("  ");
    reveal_strlit("unknown size");
    reveal_strlit("  unknown size  ");
    let shown = info.id + "  unknown size  "@;
    assert("  unknown size  "@ =~= "  "@ + "unknown size"@ + "  "@);
    let line = report::description(info);
    assert(line.subrange(0, shown.len() as int) =~= shown);
}

} // verus!
