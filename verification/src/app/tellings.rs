//! The figures a line tells are the ones it is about: each can be read out of it
//! again.

use vstd::prelude::*;

use crate::app;
use crate::app::report;
use crate::app::target;
use crate::app::target::Range;
use crate::bar;
use crate::error::{DeviceErrorView, ErrorView};
use crate::number;
use crate::parts;
use crate::parts::{Gap, PartitionView, TableView};
use crate::pit;
use crate::text;
use crate::transfer;

verus! {

/// A decimal digit.
pub open spec fn is_digit(c: char) -> bool {
    '0' <= c <= '9'
}

/// Behind `head`, `line` tells the number `n`: its digits, and then something
/// that is no digit.
pub open spec fn tells(line: Seq<char>, head: Seq<char>, n: nat) -> bool {
    exists|k: int|
        {
            &&& head.len() < k <= line.len()
            &&& head == line.subrange(0, head.len() as int)
            &&& number::positional(#[trigger] line.subrange(head.len() as int, k), 10) == Some(n)
            &&& forall|i: int| head.len() <= i < k ==> is_digit(#[trigger] line[i])
            &&& k < line.len() ==> !is_digit(line[k])
        }
}

proof fn a_figure_is_told(line: Seq<char>, head: Seq<char>, n: nat, rest: Seq<char>)
    requires
        line == head + text::dec(n) + rest,
        rest.len() > 0 ==> !is_digit(rest[0]),
    ensures
        tells(line, head, n),
{
    number::decimals_read_back(n);
    let k = (head.len() + text::dec(n).len()) as int;
    assert(line.subrange(0, head.len() as int) =~= head);
    assert(line.subrange(head.len() as int, k) =~= text::dec(n));
    assert forall|i: int| head.len() <= i < k implies is_digit(#[trigger] line[i]) by {
        assert(line[i] == text::dec(n)[i - head.len()]);
    }
}

/// What is said when a flash, a dump or a comparison is done names the bytes
/// that were moved and where.
pub proof fn what_was_moved_is_told(count: u64, offset: u64, room: Option<u64>, file: Seq<char>)
    ensures
        ({
            let wrote = app::wrote_line(count, Range { offset, length: room });
            let at = "wrote "@ + text::dec(count as nat) + " bytes to offset "@;
            &&& tells(wrote, "wrote "@, count as nat)
            &&& tells(wrote, at, offset as nat)
            &&& room matches Some(room) ==> tells(
                wrote,
                at + text::dec(offset as nat) + " of "@,
                room as nat,
            )
        }),
        tells(app::dumped_line(count, offset, file), "dumped "@, count as nat),
        tells(
            app::dumped_line(count, offset, file),
            "dumped "@ + text::dec(count as nat) + " bytes from offset "@,
            offset as nat,
        ),
        tells(app::verified_line(count, offset), "verified "@, count as nat),
        tells(
            app::verified_line(count, offset),
            "verified "@ + text::dec(count as nat) + " bytes at offset "@,
            offset as nat,
        ),
{
    reveal_strlit(" bytes to offset ");
    reveal_strlit(" bytes from offset ");
    reveal_strlit(" bytes at offset ");
    reveal_strlit(" of ");
    reveal_strlit(" bytes available");
    reveal_strlit(" to ");
    let c = text::dec(count as nat);
    let o = text::dec(offset as nat);
    let nothing = Seq::<char>::empty();
    let wrote = app::wrote_line(count, Range { offset, length: room });
    let behind = match room {
        Some(room) => " of "@ + text::dec(room as nat) + " bytes available"@,
        None => nothing,
    };
    assert(wrote =~= "wrote "@ + c + (" bytes to offset "@ + o + behind));
    a_figure_is_told(wrote, "wrote "@, count as nat, " bytes to offset "@ + o + behind);
    let at = "wrote "@ + c + " bytes to offset "@;
    assert(wrote =~= at + o + behind);
    a_figure_is_told(wrote, at, offset as nat, behind);
    if let Some(room) = room {
        let head = at + o + " of "@;
        assert(wrote =~= head + text::dec(room as nat) + " bytes available"@);
        a_figure_is_told(wrote, head, room as nat, " bytes available"@);
    }
    let dumped = app::dumped_line(count, offset, file);
    let behind = " to "@ + text::quoted(file);
    assert(dumped =~= "dumped "@ + c + (" bytes from offset "@ + o + behind));
    a_figure_is_told(dumped, "dumped "@, count as nat, " bytes from offset "@ + o + behind);
    let head = "dumped "@ + c + " bytes from offset "@;
    assert(dumped =~= head + o + behind);
    a_figure_is_told(dumped, head, offset as nat, behind);
    let verified = app::verified_line(count, offset);
    assert(verified =~= "verified "@ + c + (" bytes at offset "@ + o));
    a_figure_is_told(verified, "verified "@, count as nat, " bytes at offset "@ + o);
    let head = "verified "@ + c + " bytes at offset "@;
    assert(verified =~= head + o + nothing);
    a_figure_is_told(verified, head, offset as nat, nothing);
}

/// A rehearsed flash names the bytes that would be written, where they start and where
/// they end.
pub proof fn what_would_be_written_is_told(
    device: Seq<char>,
    offset: u64,
    length: u64,
    end: u64,
    file: Seq<char>,
)
    ensures
        ({
            let line = app::would_write(device, offset, length, end, file);
            let at = "dry-run: would write "@ + text::dec(length as nat) + (" bytes from "@ + text::quoted(file) + " to "@ + device + " at "@);
            &&& tells(line, "dry-run: would write "@, length as nat)
            &&& tells(line, at, offset as nat)
            &&& tells(line, at + text::dec(offset as nat) + ".."@, end as nat)
        }),
{
    reveal_strlit(" bytes from ");
    let line = app::would_write(device, offset, length, end, file);
    let middle = " bytes from "@ + text::quoted(file) + " to "@ + device + " at "@;
    let rest = Seq::<char>::empty();
    assert(line =~= "dry-run: would write "@ + text::dec(length as nat) + middle + text::dec(offset as nat) + ".."@
        + text::dec(end as nat) + rest);
    a_span_is_told(
        line,
        "dry-run: would write "@,
        length as nat,
        middle,
        offset as nat,
        end as nat,
        rest,
    );
}

/// A rehearsed dump names the bytes that would be read, where they start and where
/// they end.
pub proof fn what_would_be_dumped_is_told(
    device: Seq<char>,
    offset: u64,
    length: u64,
    end: u64,
    file: Seq<char>,
)
    ensures
        ({
            let line = app::would_dump(device, offset, length, end, file);
            let at = "dry-run: would read "@ + text::dec(length as nat) + (" bytes from "@ + device + " at "@);
            &&& tells(line, "dry-run: would read "@, length as nat)
            &&& tells(line, at, offset as nat)
            &&& tells(line, at + text::dec(offset as nat) + ".."@, end as nat)
        }),
{
    reveal_strlit(" bytes from ");
    reveal_strlit(" into ");
    let line = app::would_dump(device, offset, length, end, file);
    let middle = " bytes from "@ + device + " at "@;
    let rest = " into "@ + text::quoted(file);
    assert(line =~= "dry-run: would read "@ + text::dec(length as nat) + middle + text::dec(offset as nat) + ".."@
        + text::dec(end as nat) + rest);
    a_span_is_told(
        line,
        "dry-run: would read "@,
        length as nat,
        middle,
        offset as nat,
        end as nat,
        rest,
    );
}

/// A rehearsed hexdump names the bytes that would be read, where they start and where
/// they end.
pub proof fn what_would_be_printed_is_told(
    device: Seq<char>,
    offset: u64,
    length: u64,
    end: u64,
)
    ensures
        ({
            let line = app::would_print(device, offset, length, end);
            let at = "dry-run: would read "@ + text::dec(length as nat) + (" bytes from "@ + device + " at "@);
            &&& tells(line, "dry-run: would read "@, length as nat)
            &&& tells(line, at, offset as nat)
            &&& tells(line, at + text::dec(offset as nat) + ".."@, end as nat)
        }),
{
    reveal_strlit(" bytes from ");
    reveal_strlit(" as a hexdump");
    let line = app::would_print(device, offset, length, end);
    let middle = " bytes from "@ + device + " at "@;
    let rest = " as a hexdump"@;
    assert(line =~= "dry-run: would read "@ + text::dec(length as nat) + middle + text::dec(offset as nat) + ".."@
        + text::dec(end as nat) + rest);
    a_span_is_told(
        line,
        "dry-run: would read "@,
        length as nat,
        middle,
        offset as nat,
        end as nat,
        rest,
    );
}

/// A rehearsed comparison names the bytes that would be compared, where they start and where
/// they end.
pub proof fn what_would_be_compared_is_told(
    device: Seq<char>,
    offset: u64,
    length: u64,
    end: u64,
    file: Seq<char>,
)
    ensures
        ({
            let line = app::would_compare(device, offset, length, end, file);
            let at = "dry-run: would compare "@ + text::dec(length as nat) + (" bytes of "@ + device + " at "@);
            &&& tells(line, "dry-run: would compare "@, length as nat)
            &&& tells(line, at, offset as nat)
            &&& tells(line, at + text::dec(offset as nat) + ".."@, end as nat)
        }),
{
    reveal_strlit(" bytes of ");
    reveal_strlit(" against ");
    let line = app::would_compare(device, offset, length, end, file);
    let middle = " bytes of "@ + device + " at "@;
    let rest = " against "@ + text::quoted(file);
    assert(line =~= "dry-run: would compare "@ + text::dec(length as nat) + middle + text::dec(offset as nat) + ".."@
        + text::dec(end as nat) + rest);
    a_span_is_told(
        line,
        "dry-run: would compare "@,
        length as nat,
        middle,
        offset as nat,
        end as nat,
        rest,
    );
}

proof fn a_span_is_told(
    line: Seq<char>,
    head: Seq<char>,
    length: nat,
    middle: Seq<char>,
    from: nat,
    to: nat,
    rest: Seq<char>,
)
    requires
        line =~= head + text::dec(length) + middle + text::dec(from) + ".."@ + text::dec(to) + rest,
        middle.len() > 0,
        !is_digit(middle[0]),
        rest.len() > 0 ==> !is_digit(rest[0]),
    ensures
        tells(line, head, length),
        tells(line, head + text::dec(length) + middle, from),
        tells(line, head + text::dec(length) + middle + text::dec(from) + ".."@, to),
{
    reveal_strlit("..");
    let tail = ".."@ + text::dec(to) + rest;
    let behind = middle + text::dec(from) + tail;
    assert(line =~= head + text::dec(length) + behind);
    a_figure_is_told(line, head, length, behind);
    let mid = head + text::dec(length) + middle;
    assert(line =~= mid + text::dec(from) + tail);
    a_figure_is_told(line, mid, from, tail);
    let last = mid + text::dec(from) + ".."@;
    a_figure_is_told(line, last, to, rest);
}

/// A gap is told from its first byte to the one behind its last.
pub proof fn a_gap_is_told_from_end_to_end(gap: Gap)
    ensures
        tells(report::gap_line(gap), "  unallocated "@, gap.start as nat),
        tells(
            report::gap_line(gap),
            "  unallocated "@ + text::dec(gap.start as nat) + ".."@,
            gap.end as nat,
        ),
{
    reveal_strlit("..");
    reveal_strlit(" (");
    let line = report::gap_line(gap);
    let mark = if gap.reverse {
        "  << a PIT search looks here first, backwards"@
    } else {
        ""@
    };
    let s = text::dec(gap.start as nat);
    let e = text::dec(gap.end as nat);
    let behind = " ("@ + bar::size_text(gap.width()) + ")"@ + mark;
    assert(line =~= "  unallocated "@ + s + (".."@ + e + behind));
    a_figure_is_told(line, "  unallocated "@, gap.start as nat, ".."@ + e + behind);
    let head = "  unallocated "@ + s + ".."@;
    assert(line =~= head + e + behind);
    a_figure_is_told(line, head, gap.end as nat, behind);
}

/// What is told of a partition before it is used is where it starts and where
/// it ends.
#[verifier::rlimit(60)]
pub proof fn a_partition_is_told_from_end_to_end(table: TableView, part: PartitionView)
    requires
        part.start + part.length <= u64::MAX,
    ensures
        ({
            let line = target::part_span(table, part);
            let head = "parts: "@ + table.scheme.name() + " #"@;
            let spans = head + text::dec(part.index as nat) + (" "@ + report::name_or_dash(
                part.name,
            ) + " spans "@);
            &&& tells(line, head, part.index as nat)
            &&& tells(line, spans, part.start as nat)
            &&& tells(
                line,
                spans + text::dec(part.start as nat) + ".."@,
                (part.start + part.length) as nat,
            )
        }),
{
    reveal_strlit("..");
    reveal_strlit(" ");
    reveal_strlit(" (");
    let line = target::part_span(table, part);
    let head = "parts: "@ + table.scheme.name() + " #"@;
    let middle = " "@ + report::name_or_dash(part.name) + " spans "@;
    let rest = " ("@ + text::dec(part.length as nat) + " bytes), type "@ + part.kind + ", from "@
        + table.source;
    let i = text::dec(part.index as nat);
    let f = text::dec(part.start as nat);
    let t = text::dec(part.end() as nat);
    let tail = f + ".."@ + t + rest;
    let name = report::name_or_dash(part.name);
    assert(line =~= head + (i + " "@ + name + " spans "@ + tail));
    assert(i + " "@ + name + " spans "@ + tail =~= i + middle + tail);
    assert(line =~= head + i + middle + f + ".."@ + t + rest);
    a_span_is_told(
        line,
        head,
        part.index as nat,
        middle,
        part.start as nat,
        part.end() as nat,
        rest,
    );
}

/// The same of an entry of a PIT, in bytes of 512 to the block.
#[verifier::rlimit(60)]
pub proof fn an_entry_is_told_from_end_to_end(part: pit::PartitionView)
    ensures
        ({
            let line = target::entry_span(part);
            let spans = "pit: "@ + part.name + " spans "@;
            &&& tells(line, spans, (512 * part.block_offset) as nat)
            &&& tells(
                line,
                spans + text::dec((512 * part.block_offset) as nat) + ".."@,
                (512 * (part.block_offset + part.block_count)) as nat,
            )
        }),
{
    reveal_strlit("..");
    reveal_strlit(" (");
    let line = target::entry_span(part);
    let spans = "pit: "@ + part.name + " spans "@;
    let s = text::dec(part.byte_offset() as nat);
    let e = text::dec(part.byte_end() as nat);
    let rest = " ("@ + text::dec(part.byte_length() as nat) + " bytes) from block_offset="@
        + text::dec(part.block_offset as nat) + " block_count="@ + text::dec(
        part.block_count as nat,
    ) + " device_type="@ + part.device_type.name() + " with block size "@ + text::dec(
        pit::ASSUMED_BLOCK_SIZE as nat,
    ) + " assumed"@;
    assert(line =~= spans + s + (".."@ + e + rest));
    a_figure_is_told(line, spans, part.byte_offset() as nat, ".."@ + e + rest);
    let head = spans + s + ".."@;
    assert(line =~= head + e + rest);
    a_figure_is_told(line, head, part.byte_end() as nat, rest);
}

/// A write that was aborted says how many bytes are on the medium and where they
/// start.
pub proof fn an_aborted_write_tells_what_landed(
    start: u64,
    written: u64,
    source: DeviceErrorView,
)
    ensures
        ({
            let line = (ErrorView::WriteAborted { start, written, source }).text();
            &&& tells(line, "write aborted after "@, written as nat)
            &&& tells(
                line,
                "write aborted after "@ + text::dec(written as nat) + " bytes written at offset "@,
                start as nat,
            )
        }),
{
    reveal_strlit(" bytes written at offset ");
    reveal_strlit(": ");
    let line = (ErrorView::WriteAborted { start, written, source }).text();
    let w = text::dec(written as nat);
    let s = text::dec(start as nat);
    let behind = ": "@ + source.text();
    assert(line =~= "write aborted after "@ + w + (" bytes written at offset "@ + s + behind));
    a_figure_is_told(
        line,
        "write aborted after "@,
        written as nat,
        " bytes written at offset "@ + s + behind,
    );
    let head = "write aborted after "@ + w + " bytes written at offset "@;
    assert(line =~= head + s + behind);
    a_figure_is_told(line, head, start as nat, behind);
}

/// A comparison that failed says where, what was expected there and what was
/// found, in two hexadecimal digits each.
pub proof fn a_failed_comparison_tells_the_difference(offset: u64, expected: u8, found: u8)
    ensures
        ({
            let line = (ErrorView::VerifyFailed { offset, expected, found }).text();
            let n = line.len();
            &&& tells(line, "verify failed at offset "@, offset as nat)
            &&& n >= 16
            &&& number::positional(line.subrange(n - 2, n as int), 16) == Some(found as nat)
            &&& line.subrange(n - 12, n - 2) == ", found 0x"@
            &&& number::positional(line.subrange(n - 14, n - 12), 16) == Some(expected as nat)
        }),
{
    reveal_strlit(": expected 0x");
    reveal_strlit(", found 0x");
    reveal_with_fuel(number::power, 3);
    number::padded_hexadecimals_read_back(expected as nat, 2);
    number::padded_hexadecimals_read_back(found as nat, 2);
    let line = (ErrorView::VerifyFailed { offset, expected, found }).text();
    let o = text::dec(offset as nat);
    let x = text::hex_padded(expected as nat, 2);
    let y = text::hex_padded(found as nat, 2);
    let behind = ": expected 0x"@ + x + ", found 0x"@ + y;
    assert(line =~= "verify failed at offset "@ + o + behind);
    a_figure_is_told(line, "verify failed at offset "@, offset as nat, behind);
    let n = line.len();
    assert(line.subrange(n - 2, n as int) =~= y);
    assert(line.subrange(n - 12, n - 2) =~= ", found 0x"@);
    assert(line.subrange(n - 14, n - 12) =~= x);
}

/// Where a PIT was found is told before anything acts on it.
pub proof fn where_a_pit_was_found_is_told(offset: u64)
    ensures
        tells(target::found_line(offset), "pit: found at offset "@, offset as nat),
{
    reveal_strlit(" by searching the space no partition covers");
    let line = target::found_line(offset);
    let rest = " by searching the space no partition covers"@;
    assert(line =~= "pit: found at offset "@ + text::dec(offset as nat) + rest);
    a_figure_is_told(line, "pit: found at offset "@, offset as nat, rest);
}

/// A step of the record names the bytes it moved and where, and a read of
/// sectors how many and from which.
pub proof fn a_step_names_what_it_moved(verb: Seq<char>, bytes: nat, at: nat, count: u64, lba: u64)
    ensures
        tells(transfer::moving(verb, bytes as int, at as int), verb, bytes),
        tells(
            transfer::moving(verb, bytes as int, at as int),
            verb + text::dec(bytes) + "B at "@,
            at,
        ),
        tells(parts::sector_read(count, lba), "read "@, count as nat),
        tells(
            parts::sector_read(count, lba),
            "read "@ + text::dec(count as nat) + " sector(s) at LBA "@,
            lba as nat,
        ),
{
    reveal_strlit("B at ");
    reveal_strlit(" sector(s) at LBA ");
    let nothing = Seq::<char>::empty();
    let line = transfer::moving(verb, bytes as int, at as int);
    let behind = "B at "@ + text::dec(at);
    assert(line =~= verb + text::dec(bytes) + behind);
    a_figure_is_told(line, verb, bytes, behind);
    let head = verb + text::dec(bytes) + "B at "@;
    assert(line =~= head + text::dec(at) + nothing);
    a_figure_is_told(line, head, at, nothing);
    let line = parts::sector_read(count, lba);
    let behind = " sector(s) at LBA "@ + text::dec(lba as nat);
    assert(line =~= "read "@ + text::dec(count as nat) + behind);
    a_figure_is_told(line, "read "@, count as nat, behind);
    let head = "read "@ + text::dec(count as nat) + " sector(s) at LBA "@;
    assert(line =~= head + text::dec(lba as nat) + nothing);
    a_figure_is_told(line, head, lba as nat, nothing);
}

} // verus!
