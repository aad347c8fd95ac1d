//! One argument surface, identical on both platforms, with no interactive input
//! anywhere.

use vstd::prelude::*;
use vstd::slice::*;
use vstd::string::*;

use crate::number;
use crate::pit::DEFAULT_SCAN_BUDGET;
use crate::text;

verus! {

#[derive(Debug, Clone)]
pub struct Cli {
    // The only setting every command can act on, which is why it is the only
    // global one.
    /// Print every device access step. Always printed on failure.
    pub trace: bool,
    pub command: Command,
}

#[derive(Debug, Clone)]
pub enum Command {
    /// List candidate devices.
    List,
    /// Report everything needed to plan a transfer, without reading or writing.
    Probe(ProbeArgs),
    /// Print the partition table the device carries. Reads only.
    Parts(PartsArgs),
    /// Print the PIT partition table. Reads only.
    Pit(PitArgs),
    /// Print a raw range as a hexdump. Reads only.
    Hex(HexArgs),
    /// Copy a raw range from the device into a file.
    Dump(DumpArgs),
    /// Write a file into a raw range on the device.
    Flash(FlashArgs),
    /// Compare a raw range on the device against a file.
    Verify(VerifyArgs),
}

/// Which table a range comes from. `auto` concludes only what the device
/// proves: a protective entry means GPT, real MBR entries mean MBR, both at
/// once is refused. It never lands on the PIT, whose location is an argument
/// rather than a constant.
#[derive(Debug, Clone, Copy, PartialEq, Eq, Structural)]
pub enum SchemeArg {
    Auto,
    Mbr,
    Gpt,
    Pit,
}

impl SchemeArg {
    /// The spelling the output uses.
    pub open spec fn name(self) -> Seq<char> {
        match self {
            SchemeArg::Auto => seq!['a', 'u', 't', 'o'],
            SchemeArg::Mbr => seq!['m', 'b', 'r'],
            SchemeArg::Gpt => seq!['g', 'p', 't'],
            SchemeArg::Pit => seq!['p', 'i', 't'],
        }
    }

    /// The scheme spelled `name`, if there is one.
    pub fn named(name: &str) -> (scheme: Option<SchemeArg>)
        ensures
            match scheme {
                Some(scheme) => scheme.name() == name@,
                None => forall|scheme: SchemeArg| #[trigger] scheme.name() != name@,
            },
    {
        let chars = text::chars_of(name);
        if spells(chars.as_slice(), vec!['a', 'u', 't', 'o'].as_slice()) {
            Some(SchemeArg::Auto)
        } else if spells(chars.as_slice(), vec!['m', 'b', 'r'].as_slice()) {
            Some(SchemeArg::Mbr)
        } else if spells(chars.as_slice(), vec!['g', 'p', 't'].as_slice()) {
            Some(SchemeArg::Gpt)
        } else if spells(chars.as_slice(), vec!['p', 'i', 't'].as_slice()) {
            Some(SchemeArg::Pit)
        } else {
            None
        }
    }
}

fn spells(chars: &[char], word: &[char]) -> (same: bool)
    ensures
        same == (chars@ == word@),
{
    if chars.len() != word.len() {
        return false;
    }
    let same = text::starts_with(chars, word);
    proof {
        assert(chars@.subrange(0, word@.len() as int) =~= chars@);
    }
    same
}

/// Where to read the PIT from, for the commands that can read one.
#[derive(Debug, Clone, Copy, PartialEq, Eq, Structural)]
pub struct PitSource {
    /// Byte offset the PIT sits at. Without it the table is searched for in
    /// the space no partition covers, nearest the first partition first.
    pub pit_offset: Option<u64>,
    /// Bytes of unallocated space the search may read before it gives up.
    /// 0 lifts the cap; a full pass over a large card takes as long as
    /// reading one.
    pub pit_scan: u64,
}

impl Default for PitSource {
    fn default() -> (source: PitSource)
        ensures
            source == (PitSource { pit_offset: None, pit_scan: DEFAULT_SCAN_BUDGET }),
            source.pit_scan == 64 * 1024 * 1024,
    {
        PitSource { pit_offset: None, pit_scan: DEFAULT_SCAN_BUDGET }
    }
}

impl PitSource {
    /// What a search may read; nothing caps it when it is told 0.
    pub open spec fn budget(self) -> Option<u64> {
        if self.pit_scan == 0 {
            None
        } else {
            Some(self.pit_scan)
        }
    }

    /// What a search may read; `None` lifts the cap.
    pub fn scan_budget(&self) -> (budget: Option<u64>)
        ensures
            budget == self.budget(),
    {
        if self.pit_scan == 0 {
            None
        } else {
            Some(self.pit_scan)
        }
    }
}

/// The table a range is resolved from, for every command that resolves one.
#[derive(Debug, Clone, Copy, PartialEq, Eq, Structural)]
pub struct TableSource {
    /// Partition table to read: auto, mbr, gpt or pit.
    pub scheme: SchemeArg,
    pub pit_source: PitSource,
}

impl Default for TableSource {
    fn default() -> (source: TableSource)
        ensures
            source == (TableSource {
                scheme: SchemeArg::Auto,
                pit_source: PitSource { pit_offset: None, pit_scan: DEFAULT_SCAN_BUDGET },
            }),
            source.pit_source.pit_scan == 64 * 1024 * 1024,
    {
        TableSource { scheme: SchemeArg::Auto, pit_source: PitSource::default() }
    }
}

/// What the range is, for every command that acts on one. The three forms are
/// mutually exclusive, and the two partition forms are the only thing that
/// makes a partition table be read at all.
#[derive(Debug, Clone)]
pub struct Location {
    /// Byte offset into the device.
    pub offset: Option<u64>,
    /// Resolve the range from a partition name, the NAME column of `rawio parts`
    /// or `rawio pit`. MBR entries have no names.
    pub partition: Option<String>,
    /// Resolve the range from the ID column of `rawio parts` or `rawio pit`:
    /// the entry index under MBR and GPT, the identifier under a PIT.
    pub partition_id: Option<u32>,
}

/// A [`Location`] by what it says.
#[verifier::ext_equal]
pub struct LocationView {
    pub offset: Option<u64>,
    pub partition: Option<Seq<char>>,
    pub partition_id: Option<u32>,
}

impl View for Location {
    type V = LocationView;

    open spec fn view(&self) -> LocationView {
        LocationView {
            offset: self.offset,
            partition: match self.partition {
                Some(name) => Some(name@),
                None => None,
            },
            partition_id: self.partition_id,
        }
    }
}

impl LocationView {
    /// True when any of the three forms is there.
    pub open spec fn is_given(self) -> bool {
        self.offset is Some || self.partition is Some || self.partition_id is Some
    }
}

impl Location {
    /// The location, if one was given at all.
    pub fn given(&self) -> (location: Option<&Location>)
        ensures
            location == if self@.is_given() {
                Some(self)
            } else {
                None
            },
    {
        if self.offset.is_some() || self.partition.is_some() || self.partition_id.is_some() {
            Some(self)
        } else {
            None
        }
    }
}

/// Settings shared by the commands that move or compare bytes, and offered by
/// no others.
#[derive(Debug, Clone, Copy, PartialEq, Eq, Structural)]
pub struct TransferOptions {
    /// Resolve the target and report what would happen, without reading or
    /// writing the device.
    pub dry_run: bool,
    /// Do not draw the progress line. It is drawn only when stderr is a
    /// terminal, so a piped or redirected run is already quiet.
    pub no_progress: bool,
}

#[derive(Debug, Clone)]
pub struct ProbeArgs {
    /// Device to report on, spelled as `rawio list` prints it.
    pub device: String,
    /// Also read and print the partition table the device carries.
    pub parts: bool,
    /// Also read and print the PIT partition table.
    pub pit: bool,
    /// A range given here is resolved and printed, never transferred.
    pub location: Location,
    pub table: TableSource,
}

#[derive(Debug, Clone)]
pub struct PartsArgs {
    /// Device to read the partition table from, spelled as `rawio list` prints it.
    pub device: String,
    pub table: TableSource,
}

#[derive(Debug, Clone)]
pub struct PitArgs {
    /// Device to read the partition table from, spelled as `rawio list` prints it.
    pub device: String,
    pub pit_source: PitSource,
}

/// What a hexdump prints when no length is given: one 512-byte sector, which is
/// what the structures a hexdump gets opened for live in. A partition form
/// supplies the offset, never a length that could be the whole card.
pub const DEFAULT_HEX_LENGTH: u64 = 512;

#[derive(Debug, Clone)]
pub struct HexArgs {
    /// Device to read from, spelled as `rawio list` prints it.
    pub device: String,
    pub location: Location,
    pub table: TableSource,
    /// Bytes to print. The offset need not start on a sector.
    pub length: u64,
    /// Print every line, including the runs of identical ones a `*` stands for.
    pub no_squeeze: bool,
    /// Resolve the range and report it without reading the device.
    pub dry_run: bool,
}

impl HexArgs {
    /// A hexdump nothing else was said of: one sector, repeated lines
    /// collapsed, and not a rehearsal.
    pub fn new(device: String, location: Location, table: TableSource) -> (args: HexArgs)
        ensures
            args == (HexArgs {
                device,
                location,
                table,
                length: DEFAULT_HEX_LENGTH,
                no_squeeze: false,
                dry_run: false,
            }),
            args.length == 512,
    {
        HexArgs {
            device,
            location,
            table,
            length: DEFAULT_HEX_LENGTH,
            no_squeeze: false,
            dry_run: false,
        }
    }
}

#[derive(Debug, Clone)]
pub struct DumpArgs {
    /// Device to read from, spelled as `rawio list` prints it.
    pub device: String,
    pub location: Location,
    pub table: TableSource,
    pub transfer: TransferOptions,
    /// Bytes to read. Required with --offset; the partition forms supply it.
    pub length: Option<u64>,
    /// Destination file.
    pub output: String,
}

#[derive(Debug, Clone)]
pub struct FlashArgs {
    /// Device to write to, spelled as `rawio list` prints it.
    pub device: String,
    pub location: Location,
    pub table: TableSource,
    pub transfer: TransferOptions,
    /// Source file. Its length is the write length.
    pub input: String,
    /// Read the range back after writing and compare it with the input.
    pub verify: bool,
}

#[derive(Debug, Clone)]
pub struct VerifyArgs {
    /// Device to compare against, spelled as `rawio list` prints it.
    pub device: String,
    pub location: Location,
    pub table: TableSource,
    pub transfer: TransferOptions,
    /// File the range is compared against. Its length is the compared length.
    pub input: String,
}

/// `s` without its underscores.
pub open spec fn without_underscores(s: Seq<char>) -> Seq<char> {
    s.filter(|c: char| c != '_')
}

/// What a suffix multiplies by.
pub open spec fn suffix_scale(c: char) -> nat {
    if c == 'K' || c == 'k' {
        0x400
    } else if c == 'M' || c == 'm' {
        0x10_0000
    } else if c == 'G' || c == 'g' {
        0x4000_0000
    } else {
        1
    }
}

/// Digits in decimal, or in hex behind `0x`.
pub open spec fn count_of(digits: Seq<char>) -> Option<nat> {
    if digits.len() >= 2 && digits[0] == '0' && (digits[1] == 'x' || digits[1] == 'X') {
        number::spelled(digits.subrange(2, digits.len() as int), 16, u64::MAX as nat)
    } else {
        number::spelled(digits, 10, u64::MAX as nat)
    }
}

/// The byte count a text spells: decimal or `0x` hex, K/M/G (1024-based)
/// suffixes, underscores and white space ignored.
pub open spec fn size_of(value: Seq<char>) -> Result<u64, Seq<char>> {
    let text = without_underscores(text::trimmed(value));
    let scale = if text.len() > 0 {
        suffix_scale(text.last())
    } else {
        1
    };
    let digits = text::trimmed(
        if scale > 1 {
            text.drop_last()
        } else {
            text
        },
    );
    match count_of(digits) {
        None => Err(text::quoted(value) + " is not a byte count"@),
        Some(count) => if count * scale > u64::MAX {
            Err(text::quoted(value) + " overflows a 64-bit byte count"@)
        } else {
            Ok((count * scale) as u64)
        },
    }
}

/// A parse that failed says why.
pub open spec fn parse_outcome<T>(result: Result<T, String>) -> Result<T, Seq<char>> {
    match result {
        Ok(value) => Ok(value),
        Err(message) => Err(message@),
    }
}

fn drop_underscores(chars: &[char]) -> (kept: Vec<char>)
    ensures
        kept@ == without_underscores(chars@),
{
    let ghost keep = |c: char| c != '_';
    let mut kept: Vec<char> = Vec::new();
    let mut i: usize = 0;
    assert(chars@.take(0) =~= Seq::empty());
    proof {
        reveal(Seq::filter);
    }
    while i < chars.len()
        invariant
            i <= chars@.len(),
            keep == (|c: char| c != '_'),
            kept@ == chars@.take(i as int).filter(keep),
        decreases chars@.len() - i,
    {
        proof {
            reveal(Seq::filter);
            assert(chars@.take(i + 1).drop_last() =~= chars@.take(i as int));
        }
        if chars[i] != '_' {
            kept.push(chars[i]);
        }
        i += 1;
    }
    assert(chars@.take(i as int) =~= chars@);
    kept
}

/// Accepts decimal, `0x` hex, and K/M/G (1024-based) suffixes.
pub fn parse_size(value: &str) -> (result: Result<u64, String>)
    ensures
        parse_outcome(result) == size_of(value@),
{
    let chars = text::chars_of(value);
    let text = drop_underscores(text::trim_chars(chars.as_slice()).as_slice());
    let scale: u64 = if text.len() == 0 {
        1
    } else {
        let last: char = text[text.len() - 1];
        if last == 'K' || last == 'k' {
            0x400
        } else if last == 'M' || last == 'm' {
            0x10_0000
        } else if last == 'G' || last == 'g' {
            0x4000_0000
        } else {
            1
        }
    };
    let end: usize = if scale > 1 {
        text.len() - 1
    } else {
        text.len()
    };
    assert(text@.subrange(0, end as int) =~= if scale > 1 {
        text@.drop_last()
    } else {
        text@
    });
    let digits = text::trim_chars(slice_subrange(text.as_slice(), 0, end));
    let count: Option<u64> = if digits.len() >= 2 && digits[0] == '0' && (digits[1] == 'x'
        || digits[1] == 'X') {
        number::parse(slice_subrange(digits.as_slice(), 2, digits.len()), 16, u64::MAX)
    } else {
        number::parse(digits.as_slice(), 10, u64::MAX)
    };
    match count {
        None => {
            let mut message = text::quote(value);
            message.append(" is not a byte count");
            Err(message)
        },
        Some(count) => match count.checked_mul(scale) {
            Some(bytes) => Ok(bytes),
            None => {
                let mut message = text::quote(value);
                message.append(" overflows a 64-bit byte count");
                Err(message)
            },
        },
    }
}

pub(crate) proof fn nothing_to_filter(s: Seq<char>)
    requires
        forall|i: int| 0 <= i < s.len() ==> #[trigger] s[i] != '_',
    ensures
        without_underscores(s) == s,
    decreases s.len(),
{
    reveal(Seq::filter);
    if s.len() > 0 {
        assert forall|i: int| 0 <= i < s.drop_last().len() implies #[trigger] s.drop_last()[i]
            != '_' by {
            assert(s.drop_last()[i] == s[i]);
        }
        nothing_to_filter(s.drop_last());
        assert(s.drop_last().push(s.last()) =~= s);
    }
}

/// Every byte count is read back from its decimal spelling.
pub proof fn decimal_sizes_read_back(n: u64)
    ensures
        size_of(text::dec(n as nat)) == Ok::<u64, Seq<char>>(n),
{
    let s = text::dec(n as nat);
    number::decimals_read_back(n as nat);
    assert('0' <= s[0] <= '9');
    assert('0' <= s[s.len() - 1] <= '9');
    nothing_to_filter(s);
    if s.len() >= 2 {
        assert('0' <= s[1] <= '9');
    }
}

/// Every byte count is read back from its hexadecimal spelling behind `0x`.
pub proof fn hexadecimal_sizes_read_back(n: u64)
    ensures
        size_of(seq!['0', 'x'] + text::hex(n as nat)) == Ok::<u64, Seq<char>>(n),
{
    let digits = text::hex(n as nat);
    let s = seq!['0', 'x'] + digits;
    number::hexadecimals_read_back(n as nat);
    let last = digits[digits.len() - 1];
    assert('0' <= last <= '9' || 'a' <= last <= 'f');
    assert('0' <= digits[0] <= '9' || 'a' <= digits[0] <= 'f');
    assert(s.last() == last);
    assert forall|i: int| 0 <= i < s.len() implies #[trigger] s[i] != '_' by {
        if i >= 2 {
            assert(s[i] == digits[i - 2]);
        }
    }
    nothing_to_filter(s);
    assert(s[0] == '0' && s[1] == 'x');
    assert(text::trimmed(s) == s);
    assert(suffix_scale(last) == 1);
    assert(s.subrange(2, s.len() as int) =~= digits);
    assert(number::spelled(digits, 16, u64::MAX as nat) == Some(n as nat));
    assert(count_of(s) == Some(n as nat));
}

/// A suffix multiplies by its power of 1024, or says that the product does not
/// fit.
pub proof fn a_suffix_scales(n: u64, suffix: char)
    requires
        suffix_scale(suffix) > 1,
    ensures
        size_of(text::dec(n as nat).push(suffix)) == if n * suffix_scale(suffix) <= u64::MAX {
            Ok::<u64, Seq<char>>((n * suffix_scale(suffix)) as u64)
        } else {
            Err(
                text::quoted(text::dec(n as nat).push(suffix)) + " overflows a 64-bit byte count"@,
            )
        },
{
    let digits = text::dec(n as nat);
    let s = digits.push(suffix);
    number::decimals_read_back(n as nat);
    assert(s[0] == digits[0]);
    assert('0' <= digits[digits.len() - 1] <= '9');
    assert forall|i: int| 0 <= i < s.len() implies #[trigger] s[i] != '_' by {
        if i < digits.len() {
            assert(s[i] == digits[i]);
        }
    }
    nothing_to_filter(s);
    assert(s.drop_last() =~= digits);
    if digits.len() >= 2 {
        assert('0' <= digits[1] <= '9');
    }
}

} // verus!
