//! The hexdump. Byte for byte what `hexdump -C` prints, so its output diffs
//! against the tool every reader already has.

use vstd::prelude::*;
use vstd::string::*;

use crate::error;
use crate::error::{IoError, IoErrorView};
use crate::output::Output;
use crate::text;

verus! {

/// Bytes per line, as `hexdump -C` groups them.
pub const LINE: usize = 16;

/// Width of the byte columns, including the gap between the two groups of
/// eight. A short last line is padded to it so the character column does not
/// move.
pub const FIELD: usize = 49;

pub open spec fn width_for(end: u64) -> usize {
    if end > u32::MAX {
        16
    } else {
        8
    }
}

/// Offsets are printed 8 wide until the device needs more, and then 16, so
/// every line of one dump has the same width.
pub fn offset_width(end: u64) -> (width: usize)
    ensures
        width == width_for(end),
{
    if end > u32::MAX as u64 {
        16
    } else {
        8
    }
}

/// Everything outside printable ASCII is a dot: the high half is what the
/// terminals disagree about.
pub open spec fn shown(byte: u8) -> char {
    if 0x20 <= byte <= 0x7e {
        byte as char
    } else {
        '.'
    }
}

fn printable(byte: u8) -> (c: char)
    ensures
        c == shown(byte),
{
    if 0x20 <= byte && byte <= 0x7e {
        byte as char
    } else {
        '.'
    }
}

/// The bytes in hex, each with a space behind it and the second group of eight
/// set off by one more.
pub open spec fn columns(bytes: Seq<u8>) -> Seq<char>
    decreases bytes.len(),
{
    if bytes.len() == 0 {
        Seq::empty()
    } else {
        let before = columns(bytes.drop_last());
        let before = if bytes.len() == LINE / 2 + 1 {
            before + " "@
        } else {
            before
        };
        before + text::hex_padded(bytes.last() as nat, 2) + " "@
    }
}

/// The characters the bytes stand for.
pub open spec fn characters(bytes: Seq<u8>) -> Seq<char> {
    Seq::new(bytes.len(), |i: int| shown(bytes[i]))
}

/// One output line.
pub open spec fn line_of(offset: u64, width: usize, bytes: Seq<u8>) -> Seq<char> {
    text::hex_padded(offset as nat, width as nat) + "  "@ + text::left(columns(bytes), FIELD as nat)
        + " |"@ + characters(bytes) + "|"@
}

/// One output line: the offset it starts at, up to 16 bytes, and the printable
/// characters those bytes stand for.
pub fn line(offset: u64, width: usize, bytes: &[u8]) -> (text: String)
    ensures
        text@ == line_of(offset, width, bytes@),
{
    let mut field = String::new();
    let mut shown = String::new();
    let mut i: usize = 0;
    assert(field@ =~= columns(bytes@.take(0)));
    assert(shown@ =~= characters(bytes@.take(0)));
    while i < bytes.len()
        invariant
            i <= bytes@.len(),
            field@ == columns(bytes@.take(i as int)),
            shown@ == characters(bytes@.take(i as int)),
        decreases bytes@.len() - i,
    {
        let ghost next = bytes@.take(i + 1);
        assert(next.drop_last() =~= bytes@.take(i as int));
        if i == LINE / 2 {
            field.append(" ");
        }
        text::push_hex(&mut field, bytes[i] as u64, 2);
        field.append(" ");
        shown.push(printable(bytes[i]));
        assert(shown@ =~= characters(next));
        i += 1;
    }
    assert(bytes@.take(i as int) =~= bytes@);
    let mut text = String::new();
    text::push_hex(&mut text, offset, width);
    assert(text@ =~= text::hex_padded(offset as nat, width as nat));
    text.append("  ");
    text::push_left(&mut text, field.as_str(), FIELD);
    text.append(" |");
    text.append(shown.as_str());
    text.append("|");
    text
}

/// Formats a stream of bytes, which arrive in whatever sizes the device was
/// read in, into lines of 16.
pub struct Hexdump {
    width: usize,
    squeeze: bool,
    /// Offset of the first byte still in `pending`.
    at: u64,
    pending: Vec<u8>,
    previous: Option<Vec<u8>>,
    /// A run of identical lines is already reported; nothing more to print
    /// until one differs.
    collapsed: bool,
}

/// How far a dump has got.
#[verifier::ext_equal]
pub struct HexView {
    pub width: usize,
    pub squeeze: bool,
    pub at: u64,
    pub pending: Seq<u8>,
    pub previous: Option<Seq<u8>>,
    pub collapsed: bool,
}

impl View for Hexdump {
    type V = HexView;

    closed spec fn view(&self) -> HexView {
        HexView {
            width: self.width,
            squeeze: self.squeeze,
            at: self.at,
            pending: self.pending@,
            previous: match self.previous {
                Some(bytes) => Some(bytes@),
                None => None,
            },
            collapsed: self.collapsed,
        }
    }
}

impl HexView {
    /// A dump about to start.
    pub open spec fn fresh(start: u64, end: u64, squeeze: bool) -> HexView {
        HexView {
            width: width_for(end),
            squeeze,
            at: start,
            pending: Seq::empty(),
            previous: None,
            collapsed: false,
        }
    }

    /// True when the line that has accumulated repeats the one before it.
    pub open spec fn repeats(self) -> bool {
        self.squeeze && self.previous == Some(self.pending)
    }

    /// What the line that has accumulated prints: itself, the one `*` that
    /// stands for the run it continues, or nothing.
    pub open spec fn emitted(self) -> Option<Seq<char>> {
        if !self.repeats() {
            Some(line_of(self.at, self.width, self.pending) + "\n"@)
        } else if !self.collapsed {
            Some("*\n"@)
        } else {
            None
        }
    }

    /// The dump once that line is out.
    pub open spec fn past_line(self) -> HexView {
        HexView {
            at: self.at.wrapping_add(self.pending.len() as u64),
            pending: Seq::empty(),
            previous: Some(self.pending),
            collapsed: self.repeats(),
            ..self
        }
    }
}

/// A dump and the stream it goes to.
#[verifier::ext_equal]
pub struct Dumping<O> {
    pub dump: HexView,
    pub out: O,
}

/// Prints the line that has accumulated.
pub open spec fn emit_step<O: Output>(at: Dumping<O::State>) -> (
    Result<(), IoErrorView>,
    Dumping<O::State>,
) {
    match at.dump.emitted() {
        None => (Ok(()), Dumping { dump: at.dump.past_line(), ..at }),
        Some(text) => {
            let (answer, out) = O::put_step(at.out, text);
            match answer {
                Err(err) => (Err(err), Dumping { out, ..at }),
                Ok(()) => (Ok(()), Dumping { dump: at.dump.past_line(), out }),
            }
        },
    }
}

/// One more byte, and the line it completes.
pub open spec fn byte_step<O: Output>(at: Dumping<O::State>, byte: u8) -> (
    Result<(), IoErrorView>,
    Dumping<O::State>,
) {
    let dump = HexView { pending: at.dump.pending.push(byte), ..at.dump };
    if dump.pending.len() == LINE {
        emit_step::<O>(Dumping { dump, ..at })
    } else {
        (Ok(()), Dumping { dump, ..at })
    }
}

/// More bytes, up to the first line that cannot be printed.
pub open spec fn push_step<O: Output>(at: Dumping<O::State>, bytes: Seq<u8>) -> (
    Result<(), IoErrorView>,
    Dumping<O::State>,
)
    decreases bytes.len(),
{
    if bytes.len() == 0 {
        (Ok(()), at)
    } else {
        let (answer, mid) = push_step::<O>(at, bytes.drop_last());
        match answer {
            Err(err) => (Err(err), mid),
            Ok(()) => byte_step::<O>(mid, bytes.last()),
        }
    }
}

/// Prints the part line left over and where the dump stopped.
pub open spec fn finish_step<O: Output>(at: Dumping<O::State>) -> (
    Result<(), IoErrorView>,
    Dumping<O::State>,
) {
    if at.dump.pending.len() == 0 {
        let (answer, out) = O::put_step(
            at.out,
            text::hex_padded(at.dump.at as nat, at.dump.width as nat) + "\n"@,
        );
        (answer, Dumping { out, ..at })
    } else {
        let text = line_of(at.dump.at, at.dump.width, at.dump.pending) + "\n"@;
        let (answer, out) = O::put_step(at.out, text);
        match answer {
            Err(err) => (Err(err), Dumping { out, ..at }),
            Ok(()) => {
                let dump = HexView {
                    at: at.dump.at.wrapping_add(at.dump.pending.len() as u64),
                    pending: Seq::empty(),
                    ..at.dump
                };
                let (answer, out) = O::put_step(
                    out,
                    text::hex_padded(dump.at as nat, dump.width as nat) + "\n"@,
                );
                (answer, Dumping { dump, out })
            },
        }
    }
}

fn same_bytes(a: &Vec<u8>, b: &Vec<u8>) -> (same: bool)
    ensures
        same == (a@ == b@),
{
    if a.len() != b.len() {
        return false;
    }
    let mut i: usize = 0;
    while i < a.len()
        invariant
            i <= a@.len() == b@.len(),
            forall|j: int| 0 <= j < i ==> a@[j] == b@[j],
        decreases a@.len() - i,
    {
        if a[i] != b[i] {
            return false;
        }
        i += 1;
    }
    assert(a@ =~= b@);
    true
}

impl Hexdump {
    pub fn new(start: u64, end: u64, squeeze: bool) -> (dump: Hexdump)
        ensures
            dump@ == HexView::fresh(start, end, squeeze),
    {
        let dump = Hexdump {
            width: offset_width(end),
            squeeze,
            at: start,
            pending: Vec::new(),
            previous: None,
            collapsed: false,
        };
        assert(dump.pending@ =~= Seq::empty());
        dump
    }

    pub fn push<O: Output>(&mut self, bytes: &[u8], out: &mut O) -> (result: Result<(), IoError>)
        ensures
            (
                error::reply(result),
                Dumping { dump: final(self)@, out: final(out).state() },
            ) == push_step::<O>(Dumping { dump: old(self)@, out: old(out).state() }, bytes@),
    {
        let mut i: usize = 0;
        assert(bytes@.take(0) =~= Seq::empty());
        while i < bytes.len()
            invariant
                i <= bytes@.len(),
                push_step::<O>(
                    Dumping { dump: old(self)@, out: old(out).state() },
                    bytes@.take(i as int),
                ) == (
                    Ok::<(), IoErrorView>(()),
                    Dumping { dump: self@, out: out.state() },
                ),
            decreases bytes@.len() - i,
        {
            assert(bytes@.take(i + 1).drop_last() =~= bytes@.take(i as int));
            let ghost before = self@;
            self.pending.push(bytes[i]);
            assert(self@ =~= (HexView { pending: before.pending.push(bytes@[i as int]), ..before }));
            if self.pending.len() == LINE {
                if let Err(err) = self.emit(out) {
                    proof {
                        push_stops_at_a_failure::<O>(
                            Dumping { dump: old(self)@, out: old(out).state() },
                            bytes@,
                            i + 1,
                        );
                    }
                    return Err(err);
                }
            }
            i += 1;
        }
        assert(bytes@.take(i as int) =~= bytes@);
        Ok(())
    }

    /// Prints the full line that has accumulated, or the one `*` that stands
    /// for the run of identical lines it continues.
    fn emit<O: Output>(&mut self, out: &mut O) -> (result: Result<(), IoError>)
        ensures
            (
                error::reply(result),
                Dumping { dump: final(self)@, out: final(out).state() },
            ) == emit_step::<O>(Dumping { dump: old(self)@, out: old(out).state() }),
    {
        let repeat = self.squeeze && match &self.previous {
            Some(previous) => same_bytes(previous, &self.pending),
            None => false,
        };
        if !repeat {
            let mut text = line(self.at, self.width, self.pending.as_slice());
            text.append("\n");
            if let Err(err) = out.put(text.as_str()) {
                return Err(err);
            }
        } else if !self.collapsed {
            if let Err(err) = out.put("*\n") {
                return Err(err);
            }
        }
        self.collapsed = repeat;
        self.at = self.at.wrapping_add(self.pending.len() as u64);
        let mut line: Vec<u8> = Vec::new();
        core::mem::swap(&mut line, &mut self.pending);
        assert(self.pending@ =~= Seq::empty());
        self.previous = Some(line);
        Ok(())
    }

    /// Prints the part line left over and the end offset, which is how
    /// `hexdump` says where the dump stopped.
    pub fn finish<O: Output>(&mut self, out: &mut O) -> (result: Result<(), IoError>)
        ensures
            (
                error::reply(result),
                Dumping { dump: final(self)@, out: final(out).state() },
            ) == finish_step::<O>(Dumping { dump: old(self)@, out: old(out).state() }),
    {
        if self.pending.len() > 0 {
            let mut text = line(self.at, self.width, self.pending.as_slice());
            text.append("\n");
            if let Err(err) = out.put(text.as_str()) {
                return Err(err);
            }
            self.at = self.at.wrapping_add(self.pending.len() as u64);
            self.pending.clear();
            assert(self.pending@ =~= Seq::empty());
        }
        let mut text = String::new();
        text::push_hex(&mut text, self.at, self.width);
        assert(text@ =~= text::hex_padded(self.at as nat, self.width as nat));
        text.append("\n");
        out.put(text.as_str())
    }
}

proof fn push_stops_at_a_failure<O: Output>(at: Dumping<O::State>, bytes: Seq<u8>, n: int)
    requires
        0 <= n <= bytes.len(),
        push_step::<O>(at, bytes.take(n)).0 is Err,
    ensures
        push_step::<O>(at, bytes) == push_step::<O>(at, bytes.take(n)),
    decreases bytes.len(),
{
    if n < bytes.len() {
        assert(bytes.drop_last().take(n) =~= bytes.take(n));
        push_stops_at_a_failure::<O>(at, bytes.drop_last(), n);
    } else {
        assert(bytes.take(n) =~= bytes);
    }
}

/// How the bytes were cut up on the way does not show: two pushes print what
/// one push of both runs would, up to the first line that cannot be printed.
pub proof fn the_cuts_between_pushes_do_not_show<O: Output>(
    at: Dumping<O::State>,
    first: Seq<u8>,
    second: Seq<u8>,
)
    ensures
        push_step::<O>(at, first + second) == ({
            let (answer, mid) = push_step::<O>(at, first);
            match answer {
                Err(err) => (Err(err), mid),
                Ok(()) => push_step::<O>(mid, second),
            }
        }),
    decreases second.len(),
{
    if second.len() == 0 {
        assert(first + second =~= first);
    } else {
        assert((first + second).drop_last() =~= first + second.drop_last());
        assert((first + second).last() == second.last());
        the_cuts_between_pushes_do_not_show::<O>(at, first, second.drop_last());
    }
}

/// How many numbers `digits` hexadecimal digits can tell apart.
spec fn reach(digits: nat) -> nat
    decreases digits,
{
    if digits == 0 {
        1
    } else {
        16 * reach((digits - 1) as nat)
    }
}

proof fn a_number_in_reach_is_short(n: nat, digits: nat)
    requires
        0 < digits,
        n < reach(digits),
    ensures
        0 < text::hex(n).len() <= digits,
    decreases digits,
{
    if n >= 16 {
        if digits == 1 {
            reveal_with_fuel(reach, 2);
        }
        a_number_in_reach_is_short(n / 16, (digits - 1) as nat);
    }
}

proof fn a_column_is_filled(n: nat, width: nat)
    requires
        0 < width,
        n < reach(width),
    ensures
        text::hex_padded(n, width).len() == width,
{
    a_number_in_reach_is_short(n, width);
}

proof fn the_bytes_fit_their_columns(bytes: Seq<u8>)
    ensures
        columns(bytes).len() == 3 * bytes.len() + if bytes.len() > LINE / 2 {
            1int
        } else {
            0
        },
    decreases bytes.len(),
{
    reveal_strlit(" ");
    if bytes.len() > 0 {
        the_bytes_fit_their_columns(bytes.drop_last());
        reveal_with_fuel(reach, 3);
        a_column_is_filled(bytes.last() as nat, 2);
    }
}

/// Every line of one dump has the same columns: the offset takes the width that
/// the end of the dump needs, and the characters begin in the same place
/// however short the line is.
pub proof fn the_columns_of_a_dump_do_not_move(offset: u64, end: u64, bytes: Seq<u8>)
    requires
        offset <= end,
        bytes.len() <= LINE,
    ensures
        ({
            let width = width_for(end);
            let line = line_of(offset, width, bytes);
            let bar = width + 2 + FIELD + 1;
            &&& text::hex_padded(offset as nat, width as nat).len() == width
            &&& line.len() == bar + 1 + bytes.len() + 1
            &&& line[bar] == '|'
            &&& forall|i: int|
                0 <= i < bytes.len() ==> #[trigger] line[bar + 1 + i] == shown(bytes[i])
        }),
{
    reveal_strlit("  ");
    reveal_strlit(" |");
    reveal_strlit("|");
    reveal_with_fuel(reach, 17);
    let width = width_for(end);
    a_column_is_filled(offset as nat, width as nat);
    the_bytes_fit_their_columns(bytes);
    let line = line_of(offset, width, bytes);
    let bar = width + 2 + FIELD + 1;
    assert forall|i: int| 0 <= i < bytes.len() implies #[trigger] line[bar + 1 + i] == shown(
        bytes[i],
    ) by {
        assert(characters(bytes)[i] == shown(bytes[i]));
    }
}

} // verus!
