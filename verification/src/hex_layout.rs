//! What a hexdump prints, said of the bytes alone: where each of them stands in
//! its line, which lines are printed, and which a `*` stands for.

use vstd::prelude::*;

use crate::app;
use crate::app::World;
use crate::device::{MemoryDevice, MemoryState};
use crate::error::{ErrorView, IoErrorView};
use crate::hexdump;
use crate::hexdump::{Dumping, HexView, Hexdump};
use crate::medium;
use crate::number;
use crate::output::Output;
use crate::ranges;
use crate::text;
use crate::transfer;
use crate::transfer::{Receiver, Transfer};

verus! {

/// Where byte `i` of a line stands among the byte columns: three characters a
/// byte, and one more in front of the second eight.
pub open spec fn column(i: int) -> int {
    if i < 8 {
        3 * i
    } else {
        3 * i + 1
    }
}

/// Where the columns of `n` bytes end.
pub open spec fn columns_end(n: int) -> int {
    if n <= 8 {
        3 * n
    } else {
        3 * n + 1
    }
}

#[verifier::rlimit(60)]
proof fn the_bytes_stand_in_their_columns(bytes: Seq<u8>)
    requires
        bytes.len() <= 16,
    ensures
        ({
            let cols = hexdump::columns(bytes);
            &&& cols.len() == columns_end(bytes.len() as int)
            &&& forall|i: int|
                #![trigger bytes[i]]
                0 <= i < bytes.len() ==> {
                    &&& cols.subrange(column(i), column(i) + 2) == text::hex_padded(
                        bytes[i] as nat,
                        2,
                    )
                    &&& cols[column(i) + 2] == ' '
                }
            &&& bytes.len() > 8 ==> cols[24] == ' '
        }),
    decreases bytes.len(),
{
    reveal_strlit(" ");
    if bytes.len() > 0 {
        let n = bytes.len() - 1;
        let less = bytes.drop_last();
        the_bytes_stand_in_their_columns(less);
        reveal_with_fuel(number::power, 3);
        number::padded_hexadecimals_read_back(bytes.last() as nat, 2);
        let before = hexdump::columns(less);
        let cols = hexdump::columns(bytes);
        assert(cols.len() == columns_end(n + 1));
        assert forall|i: int|
            #![trigger bytes[i]]
            0 <= i < bytes.len() implies cols.subrange(column(i), column(i) + 2)
            == text::hex_padded(bytes[i] as nat, 2) && cols[column(i) + 2] == ' ' by {
            if i < n {
                assert(less[i] == bytes[i]);
                assert(cols.subrange(column(i), column(i) + 2) =~= before.subrange(
                    column(i),
                    column(i) + 2,
                ));
                assert(cols[column(i) + 2] == before[column(i) + 2]);
            } else {
                assert(cols.subrange(column(i), column(i) + 2) =~= text::hex_padded(
                    bytes.last() as nat,
                    2,
                ));
            }
        }
        if bytes.len() > 9 {
            assert(cols[24] == before[24]);
        }
    }
}

/// A character that stands for a byte: itself where it can be printed, and a dot
/// where it cannot.
pub open spec fn face(byte: u8) -> char {
    if 0x20 <= byte && byte <= 0x7E {
        byte as char
    } else {
        '.'
    }
}

/// Eight digits reach as far as four GiB, and what ends beyond takes sixteen.
pub open spec fn digits_for(end: u64) -> int {
    if end <= 0xFFFF_FFFF {
        8
    } else {
        16
    }
}

/// A line of a dump, by what stands where: the offset in as many digits as the
/// end of the dump takes, each byte in two digits, two groups of eight, blanks
/// up to the bar, and between two bars a character for each byte.
#[verifier::opaque]
pub open spec fn is_line(line: Seq<char>, width: int, offset: u64, bytes: Seq<u8>) -> bool {
    &&& line.len() == width + 54 + bytes.len()
    &&& number::positional(line.subrange(0, width), 16) == Some(offset as nat)
    &&& line[width] == ' ' && line[width + 1] == ' '
    &&& forall|i: int|
        #![trigger bytes[i]]
        0 <= i < bytes.len() ==> {
            let at = width + 2 + column(i);
            &&& number::positional(line.subrange(at, at + 2), 16) == Some(bytes[i] as nat)
            &&& line[at + 2] == ' '
            &&& line[width + 53 + i] == face(bytes[i])
        }
    &&& bytes.len() > 8 ==> line[width + 26] == ' '
    &&& forall|c: int|
        width + 2 + columns_end(bytes.len() as int) <= c < width + 52 ==> #[trigger] line[c] == ' '
    &&& line[width + 52] == '|'
    &&& line[width + 53 + bytes.len()] == '|'
}

/// Every line is laid out so.
#[verifier::rlimit(60)]
pub proof fn a_line_shows_its_bytes(offset: u64, end: u64, bytes: Seq<u8>)
    requires
        offset <= end,
        bytes.len() <= 16,
    ensures
        is_line(
            hexdump::line_of(offset, hexdump::width_for(end), bytes),
            digits_for(end),
            offset,
            bytes,
        ),
        hexdump::width_for(end) == digits_for(end),
{
    reveal(is_line);
    reveal_strlit("  ");
    reveal_strlit(" |");
    reveal_strlit("|");
    let width = digits_for(end);
    let line = hexdump::line_of(offset, hexdump::width_for(end), bytes);
    assert(offset < number::power(16, width as nat)) by {
        reveal_with_fuel(number::power, 17);
    }
    number::padded_hexadecimals_read_back(offset as nat, width as nat);
    the_bytes_stand_in_their_columns(bytes);
    let place = text::hex_padded(offset as nat, width as nat);
    let cols = hexdump::columns(bytes);
    let field = text::left(cols, hexdump::FIELD as nat);
    assert(field.len() == 49);
    assert(line.len() == width + 54 + bytes.len());
    assert(line.subrange(0, width) =~= place);
    assert forall|i: int|
        #![trigger bytes[i]]
        0 <= i < bytes.len() implies {
        let at = width + 2 + column(i);
        &&& number::positional(line.subrange(at, at + 2), 16) == Some(bytes[i] as nat)
        &&& line[at + 2] == ' '
        &&& line[width + 53 + i] == face(bytes[i])
    } by {
        let at = width + 2 + column(i);
        assert(line.subrange(at, at + 2) =~= cols.subrange(column(i), column(i) + 2));
        reveal_with_fuel(number::power, 3);
        number::padded_hexadecimals_read_back(bytes[i] as nat, 2);
        assert(line[at + 2] == cols[column(i) + 2]);
        assert(line[width + 53 + i] == hexdump::characters(bytes)[i]);
    }
    if bytes.len() > 8 {
        assert(line[width + 26] == cols[24]);
    }
    assert forall|c: int|
        width + 2 + columns_end(bytes.len() as int) <= c < width + 52 implies #[trigger] line[c]
        == ' ' by {
        if c < width + 51 {
            assert(line[c] == field[c - width - 2]);
        }
    }
}

/// Full line `k`: sixteen bytes.
pub open spec fn nth(bytes: Seq<u8>, k: int) -> Seq<u8> {
    bytes.subrange(16 * k, 16 * k + 16)
}

/// What full line `k` prints: itself where it differs from the one before, one
/// `*` for all that are the same as the one before them in a row, and nothing
/// for the rest of such a row.
pub open spec fn printed(
    bytes: Seq<u8>,
    start: u64,
    width: usize,
    squeeze: bool,
    k: int,
) -> Seq<char> {
    if !squeeze || k == 0 || nth(bytes, k) != nth(bytes, k - 1) {
        hexdump::line_of((start + 16 * k) as u64, width, nth(bytes, k)) + seq!['\n']
    } else if k == 1 || nth(bytes, k - 1) != nth(bytes, k - 2) {
        seq!['*', '\n']
    } else {
        Seq::empty()
    }
}

/// What the first `n` full lines print.
pub open spec fn printed_up_to(
    bytes: Seq<u8>,
    start: u64,
    width: usize,
    squeeze: bool,
    n: int,
) -> Seq<char>
    decreases n,
{
    if n <= 0 {
        Seq::empty()
    } else {
        printed_up_to(bytes, start, width, squeeze, n - 1) + printed(
            bytes,
            start,
            width,
            squeeze,
            n - 1,
        )
    }
}

/// What a dump of `bytes` from `start` on prints: its full lines, what is left
/// over as a shorter one, and where it stopped.
pub open spec fn whole_text(bytes: Seq<u8>, start: u64, width: usize, squeeze: bool) -> Seq<char> {
    let n = bytes.len() as int / 16;
    let rest = bytes.subrange(16 * n, bytes.len() as int);
    printed_up_to(bytes, start, width, squeeze, n) + (if rest.len() == 0 {
        Seq::empty()
    } else {
        hexdump::line_of((start + 16 * n) as u64, width, rest) + seq!['\n']
    }) + text::hex_padded((start + bytes.len()) as nat, width as nat) + seq!['\n']
}

proof fn lines_of_more_bytes(
    bytes: Seq<u8>,
    m: int,
    start: u64,
    width: usize,
    squeeze: bool,
    n: int,
)
    requires
        0 <= n,
        16 * n <= m <= bytes.len(),
    ensures
        printed_up_to(bytes.subrange(0, m), start, width, squeeze, n) == printed_up_to(
            bytes,
            start,
            width,
            squeeze,
            n,
        ),
    decreases n,
{
    if n > 0 {
        lines_of_more_bytes(bytes, m, start, width, squeeze, n - 1);
        let less = bytes.subrange(0, m);
        assert(nth(less, n - 1) =~= nth(bytes, n - 1));
        if n > 1 {
            assert(nth(less, n - 2) =~= nth(bytes, n - 2));
        }
        if n > 2 {
            assert(nth(less, n - 3) =~= nth(bytes, n - 3));
        }
    }
}

/// How far a dump has got once `bytes` have been pushed.
spec fn reached(
    bytes: Seq<u8>,
    start: u64,
    width: usize,
    squeeze: bool,
    out: Seq<char>,
) -> Dumping<Seq<char>> {
    let n = bytes.len() as int / 16;
    Dumping {
        dump: HexView {
            width,
            squeeze,
            at: (start + 16 * n) as u64,
            pending: bytes.subrange(16 * n, bytes.len() as int),
            previous: if n == 0 {
                None
            } else {
                Some(nth(bytes, n - 1))
            },
            collapsed: squeeze && n >= 2 && nth(bytes, n - 1) == nth(bytes, n - 2),
        },
        out: out + printed_up_to(bytes, start, width, squeeze, n),
    }
}

#[verifier::rlimit(60)]
proof fn pushing_reaches(
    bytes: Seq<u8>,
    start: u64,
    end: u64,
    squeeze: bool,
    out: Seq<char>,
)
    requires
        start + bytes.len() <= u64::MAX,
    ensures
        hexdump::push_step::<String>(
            Dumping { dump: HexView::fresh(start, end, squeeze), out },
            bytes,
        ) == (
            Ok::<(), IoErrorView>(()),
            reached(bytes, start, hexdump::width_for(end), squeeze, out),
        ),
    decreases bytes.len(),
{
    let width = hexdump::width_for(end);
    let fresh = Dumping { dump: HexView::fresh(start, end, squeeze), out };
    if bytes.len() == 0 {
        assert(bytes.subrange(0, 0) =~= Seq::<u8>::empty());
        assert(out + Seq::<char>::empty() =~= out);
        assert(reached(bytes, start, width, squeeze, out) =~= fresh);
    } else {
        let less = bytes.drop_last();
        pushing_reaches(less, start, end, squeeze, out);
        let before = reached(less, start, width, squeeze, out);
        let n = less.len() as int / 16;
        assert(less =~= bytes.subrange(0, less.len() as int));
        lines_of_more_bytes(bytes, less.len() as int, start, width, squeeze, n);
        let pending = before.dump.pending.push(bytes.last());
        assert(pending =~= bytes.subrange(16 * n, bytes.len() as int));
        if n > 0 {
            assert(nth(less, n - 1) =~= nth(bytes, n - 1));
        }
        if n > 1 {
            assert(nth(less, n - 2) =~= nth(bytes, n - 2));
        }
        let after = reached(bytes, start, width, squeeze, out);
        if pending.len() == 16 {
            assert(bytes.len() == 16 * (n + 1));
            assert(bytes.len() as int / 16 == n + 1);
            assert(pending =~= nth(bytes, n));
            assert("\n"@ =~= seq!['\n']) by {
                reveal_strlit("\n");
            }
            assert("*\n"@ =~= seq!['*', '\n']) by {
                reveal_strlit("*\n");
            }
            let dump = HexView { pending, ..before.dump };
            let shown = printed(bytes, start, width, squeeze, n);
            assert(after.dump.pending =~= Seq::<u8>::empty());
            assert(dump.repeats() == (squeeze && n > 0 && nth(bytes, n) == nth(bytes, n - 1)));
            assert(after.dump =~= dump.past_line());
            assert(after.out =~= before.out + shown);
            assert(before.out + Seq::<char>::empty() =~= before.out);
        } else {
            assert(bytes.len() as int / 16 == n);
            assert(after =~= Dumping { dump: HexView { pending, ..before.dump }, ..before });
        }
    }
}

/// A dump prints what the bytes come to, whatever was on the stream before.
#[verifier::rlimit(60)]
pub proof fn a_dump_prints_its_bytes(
    bytes: Seq<u8>,
    start: u64,
    end: u64,
    squeeze: bool,
    out: Seq<char>,
)
    requires
        start + bytes.len() <= u64::MAX,
    ensures
        ({
            let (pushed, mid) = hexdump::push_step::<String>(
                Dumping { dump: HexView::fresh(start, end, squeeze), out },
                bytes,
            );
            let (finished, last) = hexdump::finish_step::<String>(mid);
            &&& pushed is Ok
            &&& finished is Ok
            &&& last.out == out + whole_text(bytes, start, digits_for(end) as usize, squeeze)
        }),
{
    pushing_reaches(bytes, start, end, squeeze, out);
    let width = hexdump::width_for(end);
    assert(width == digits_for(end));
    assert("\n"@ =~= seq!['\n']) by {
        reveal_strlit("\n");
    }
    let mid = reached(bytes, start, width, squeeze, out);
    let (_, last) = hexdump::finish_step::<String>(mid);
    let n = bytes.len() as int / 16;
    let rest = bytes.subrange(16 * n, bytes.len() as int);
    let lines = printed_up_to(bytes, start, width, squeeze, n);
    let end_line = text::hex_padded((start + bytes.len()) as nat, width as nat);
    if rest.len() == 0 {
        assert(last.out == (out + lines) + (end_line + seq!['\n']));
        assert(whole_text(bytes, start, width, squeeze) =~= lines + (end_line + seq!['\n']));
        assert(last.out =~= out + whole_text(bytes, start, width, squeeze));
    } else {
        let short = hexdump::line_of((start + 16 * n) as u64, width, rest) + seq!['\n'];
        assert(last.out == (out + lines + short) + (end_line + seq!['\n']));
        assert(whole_text(bytes, start, width, squeeze) =~= lines + short + (end_line + seq![
            '\n',
        ]));
        assert(last.out =~= out + whole_text(bytes, start, width, squeeze));
    }
}

/// One run of a look: the bytes that stand there are handed over, and it goes on
/// behind them.
#[verifier::rlimit(60)]
proof fn a_look_hands_over_a_run<W, R: Receiver<W>>(
    at: Transfer<MemoryState, R::State, ()>,
    offset: u64,
    length: u64,
    done: u64,
) -> (next: Transfer<MemoryState, R::State, ()>)
    requires
        medium::readable(at.device),
        transfer::read_range_check(at.device.info, offset, length) is Ok,
        offset + length <= at.device.data.len(),
        done < length,
    ensures
        ({
            let sector = at.device.info.logical_sector_size;
            let want = transfer::run_of(length - done, offset + done, sector);
            let bytes = at.device.data.subrange(offset + done, offset + done + want);
            let (taken, file) = R::take_step(at.file, bytes);
            &&& 0 < want <= length - done
            &&& next.device == at.device
            &&& next.file == file
            &&& taken is Ok ==> transfer::read_from::<MemoryDevice, W, R>(
                at,
                offset,
                length,
                sector,
                done,
            ) == transfer::read_from::<MemoryDevice, W, R>(
                next,
                offset,
                length,
                sector,
                (done + want) as u64,
            )
        }),
{
    let data = at.device.data;
    let sector = at.device.info.logical_sector_size;
    medium::a_run_lies_on_the_device(at.device, offset, length, done);
    let from = offset + done;
    let head = transfer::head_of(from, sector);
    let want = transfer::run_of(length - done, from, sector);
    let start = (from - head) as u64;
    let aligned = transfer::rounded_up(head + want, sector as int);
    medium::whole_sectors_are_read(at.device, at.trace, "read "@, start, aligned);
    let (read, device, trace) = transfer::read_sectors::<MemoryDevice>(
        at.device,
        at.trace,
        "read "@,
        start,
        aligned,
    );
    let bytes = data.subrange(from, from + want);
    assert(data.subrange(start as int, start + aligned).subrange(head, head + want) =~= bytes);
    let (taken, file) = R::take_step(at.file, bytes);
    Transfer { device, trace, file, progress: () }
}

/// The rest of a look that is printed.
#[verifier::opaque]
spec fn looked(
    at: Transfer<MemoryState, Dumping<Seq<char>>, ()>,
    offset: u64,
    length: u64,
    done: u64,
) -> (Result<u64, ErrorView>, Transfer<MemoryState, Dumping<Seq<char>>, ()>) {
    transfer::read_from::<MemoryDevice, String, Hexdump>(
        at,
        offset,
        length,
        at.device.info.logical_sector_size,
        done,
    )
}

/// A dump with more bytes pushed.
#[verifier::opaque]
spec fn pushed(at: Dumping<Seq<char>>, bytes: Seq<u8>) -> (
    Result<(), IoErrorView>,
    Dumping<Seq<char>>,
) {
    hexdump::push_step::<String>(at, bytes)
}

#[verifier::rlimit(60)]
proof fn a_run_is_pushed(
    at: Transfer<MemoryState, Dumping<Seq<char>>, ()>,
    offset: u64,
    length: u64,
    done: u64,
) -> (next: (Transfer<MemoryState, Dumping<Seq<char>>, ()>, int))
    requires
        medium::readable(at.device),
        transfer::read_range_check(at.device.info, offset, length) is Ok,
        offset + length <= at.device.data.len(),
        done < length,
    ensures
        ({
            let bytes = at.device.data.subrange(offset + done, offset + done + next.1);
            let (answer, file) = pushed(at.file, bytes);
            &&& 0 < next.1 <= length - done
            &&& next.0.device == at.device
            &&& next.0.file == file
            &&& answer is Ok ==> looked(at, offset, length, done) == looked(
                next.0,
                offset,
                length,
                (done + next.1) as u64,
            )
        }),
{
    reveal(looked);
    reveal(pushed);
    let next = a_look_hands_over_a_run::<String, Hexdump>(at, offset, length, done);
    let sector = at.device.info.logical_sector_size;
    (next, transfer::run_of(length - done, offset + done, sector))
}

proof fn pushes_add_up(at: Dumping<Seq<char>>, first: Seq<u8>, second: Seq<u8>)
    ensures
        pushed(at, first).0 is Ok ==> pushed(at, first + second) == pushed(
            pushed(at, first).1,
            second,
        ),
        pushed(at, first).0 is Err ==> pushed(at, first + second).0 is Err,
        pushed(at, Seq::empty()) == (Ok::<(), IoErrorView>(()), at),
{
    reveal(pushed);
    hexdump::the_cuts_between_pushes_do_not_show::<String>(at, first, second);
}

proof fn a_look_ends(
    at: Transfer<MemoryState, Dumping<Seq<char>>, ()>,
    offset: u64,
    length: u64,
)
    ensures
        looked(at, offset, length, length) == (Ok::<u64, ErrorView>(length), at),
{
    reveal(looked);
}

proof fn a_look_pushes_what_it_reads(
    at: Transfer<MemoryState, Dumping<Seq<char>>, ()>,
    offset: u64,
    length: u64,
    done: u64,
)
    requires
        medium::readable(at.device),
        transfer::read_range_check(at.device.info, offset, length) is Ok,
        offset + length <= at.device.data.len(),
        done <= length,
        pushed(at.file, at.device.data.subrange(offset + done, offset + length)).0 is Ok,
    ensures
        ({
            let (answer, after) = looked(at, offset, length, done);
            &&& answer == Ok::<u64, ErrorView>(length)
            &&& after.device == at.device
            &&& after.file == pushed(
                at.file,
                at.device.data.subrange(offset + done, offset + length),
            ).1
        }),
    decreases length - done,
{
    let data = at.device.data;
    let all = data.subrange(offset + done, offset + length);
    if done < length {
        let (next, want) = a_run_is_pushed(at, offset, length, done);
        let now = (done + want) as u64;
        let bytes = data.subrange(offset + done, offset + done + want);
        let rest = data.subrange(offset + now, offset + length);
        assert(all =~= bytes + rest);
        pushes_add_up(at.file, bytes, rest);
        a_look_pushes_what_it_reads(next, offset, length, now);
    } else {
        assert(all =~= Seq::<u8>::empty());
        pushes_add_up(at.file, all, all);
        a_look_ends(at, offset, length);
    }
}

/// Printing a range of a device prints the bytes that stand there, each line
/// under its own offset, whatever chunks they were read in.
#[verifier::rlimit(60)]
pub proof fn a_range_is_printed_as_it_stands<E: Output>(
    at: World<MemoryState, Seq<char>, E::State>,
    offset: u64,
    length: u64,
    squeeze: bool,
)
    requires
        medium::readable(at.device),
        ranges::regular(at.device.info.logical_sector_size),
        ranges::around(offset + length, at.device.info.logical_sector_size as int)
            <= at.device.data.len(),
    ensures
        ({
            let end = (offset + length) as u64;
            let bytes = at.device.data.subrange(offset as int, offset + length);
            let (answer, after) = app::hex_printed::<MemoryDevice, String, E>(
                at,
                offset,
                length,
                end,
                squeeze,
            );
            &&& answer is Ok
            &&& after.device == at.device
            &&& after.out == at.out + whole_text(bytes, offset, digits_for(end) as usize, squeeze)
        }),
{
    let end = (offset + length) as u64;
    ranges::a_look_is_approved_where_the_device_has_it(at.device.info, offset, length);
    ranges::a_look_gives_the_bytes_that_are_there(
        Transfer { device: at.device, file: Seq::empty(), trace: at.trace, progress: () },
        offset,
        length,
    );
    medium::a_read_starts_where_it_was_asked_to(
        Transfer { device: at.device, file: Seq::empty(), trace: at.trace, progress: () },
        offset,
        length,
    );
    let bytes = at.device.data.subrange(offset as int, offset + length);
    a_dump_prints_its_bytes(bytes, offset, end, squeeze, at.out);
    reveal(looked);
    reveal(pushed);
    a_look_pushes_what_it_reads(
        Transfer {
            device: at.device,
            file: Dumping { dump: HexView::fresh(offset, end, squeeze), out: at.out },
            trace: at.trace,
            progress: (),
        },
        offset,
        length,
        0,
    );
}

} // verus!
