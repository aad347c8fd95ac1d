//! Read-only PIT interpretation, opt-in.
//!
//! Layout is from reverse-engineered documentation, not a vendor spec. Two
//! independent sources agree on it: an XDA structure analysis and the Kaitai
//! Struct definition at github.com/CruelKernel/samsung_pit.
//!
//! Header, 28 bytes, in order: magic (4), entry count (4), port (4, ASCII),
//! format (4, ASCII), chip (8, ASCII), one unidentified dword (4). Then
//! `entry count` entries of 132 bytes each.
//!
//! Field offsets within an entry: binary type 0, device type 4, identifier 8,
//! attributes 12, update attributes 16, block offset 20, block count 24, two
//! obsolete dwords at 28 and 32, partition name 36 (32B), flash filename 68
//! (32B), FOTA filename 100 (32B).
//!
//! All little endian; all names are NUL padded.
//!
//! A plausible-looking but wrong interpretation is not detectable here, so the
//! caller must print the resolved range before acting on it.

use vstd::prelude::*;
use vstd::slice::*;
use vstd::string::*;
use vstd::utf8;

use crate::bytes;
use crate::error;
use crate::error::{Error, ErrorView, Result};
use crate::parts::{Gap, Sectors, MAX_READ_BYTES};
use crate::text;
use crate::transfer;

verus! {

pub const MAGIC: u32 = 0x1234_9876;

pub const HEADER_LEN: usize = 28;

pub const ENTRY_LEN: usize = 132;

/// Entry counts above this are treated as garbage rather than sized for; real
/// tables hold a few dozen entries.
pub const MAX_ENTRIES: usize = 4096;

/// How much unallocated space a search reads before giving up. The table sits
/// in front of the first partition on every card seen so far, and that gap is
/// searched backwards, so the default is reached only when it is somewhere
/// else entirely.
pub const DEFAULT_SCAN_BUDGET: u64 = 67_108_864;

/// The unit of `block_offset`/`block_count` is undocumented. 512 is an assumption;
/// comparing a resolved range against an explicit-offset run is what disproves it.
pub const ASSUMED_BLOCK_SIZE: u64 = 512;

/// Storage the entry describes. An SD card is expected to report `Mmc`, which
/// is the closest thing to evidence that the 512B block assumption holds.
#[derive(Debug, Clone, Copy, PartialEq, Eq, Structural)]
pub enum DeviceType {
    OneNand,
    FileFat,
    Mmc,
    All,
    Unknown(u32),
}

impl DeviceType {
    /// The storage a device-type field names.
    pub open spec fn of(raw: u32) -> DeviceType {
        match raw {
            0 => DeviceType::OneNand,
            1 => DeviceType::FileFat,
            2 => DeviceType::Mmc,
            3 => DeviceType::All,
            other => DeviceType::Unknown(other),
        }
    }

    fn from_raw(raw: u32) -> (kind: DeviceType)
        ensures
            kind == DeviceType::of(raw),
    {
        match raw {
            0 => DeviceType::OneNand,
            1 => DeviceType::FileFat,
            2 => DeviceType::Mmc,
            3 => DeviceType::All,
            other => DeviceType::Unknown(other),
        }
    }

    pub open spec fn name(self) -> Seq<char> {
        match self {
            DeviceType::OneNand => "onenand"@,
            DeviceType::FileFat => "filefat"@,
            DeviceType::Mmc => "mmc"@,
            DeviceType::All => "all"@,
            DeviceType::Unknown(raw) => "unknown("@ + text::dec(raw as nat) + ")"@,
        }
    }

    pub fn to_string(&self) -> (name: String)
        ensures
            name@ == self.name(),
    {
        match self {
            DeviceType::OneNand => "onenand".to_owned(),
            DeviceType::FileFat => "filefat".to_owned(),
            DeviceType::Mmc => "mmc".to_owned(),
            DeviceType::All => "all".to_owned(),
            DeviceType::Unknown(raw) => {
                let mut name = "unknown(".to_owned();
                text::push_dec(&mut name, *raw as u64);
                name.append(")");
                name
            },
        }
    }
}

#[derive(Debug, Clone, PartialEq, Eq)]
pub struct Partition {
    pub name: String,
    pub flash_filename: String,
    pub identifier: u32,
    pub device_type: DeviceType,
    pub block_offset: u32,
    pub block_count: u32,
}

/// A [`Partition`] by what it says.
#[verifier::ext_equal]
pub struct PartitionView {
    pub name: Seq<char>,
    pub flash_filename: Seq<char>,
    pub identifier: u32,
    pub device_type: DeviceType,
    pub block_offset: u32,
    pub block_count: u32,
}

impl View for Partition {
    type V = PartitionView;

    open spec fn view(&self) -> PartitionView {
        PartitionView {
            name: self.name@,
            flash_filename: self.flash_filename@,
            identifier: self.identifier,
            device_type: self.device_type,
            block_offset: self.block_offset,
            block_count: self.block_count,
        }
    }
}

impl PartitionView {
    pub open spec fn byte_offset(self) -> u64 {
        (self.block_offset * ASSUMED_BLOCK_SIZE) as u64
    }

    pub open spec fn byte_length(self) -> u64 {
        (self.block_count * ASSUMED_BLOCK_SIZE) as u64
    }

    /// One past the last byte.
    pub open spec fn byte_end(self) -> u64 {
        (self.byte_offset() + self.byte_length()) as u64
    }
}

impl Partition {
    pub fn byte_offset(&self) -> (offset: u64)
        ensures
            offset == self@.byte_offset(),
            offset == self.block_offset * ASSUMED_BLOCK_SIZE,
    {
        self.block_offset as u64 * ASSUMED_BLOCK_SIZE
    }

    pub fn byte_length(&self) -> (length: u64)
        ensures
            length == self@.byte_length(),
            length == self.block_count * ASSUMED_BLOCK_SIZE,
    {
        self.block_count as u64 * ASSUMED_BLOCK_SIZE
    }
}

/// The entries by what they say.
pub open spec fn partition_views(partitions: Seq<Partition>) -> Seq<PartitionView> {
    Seq::new(partitions.len(), |i: int| partitions[i]@)
}

#[derive(Debug, Clone, PartialEq, Eq)]
pub struct Pit {
    /// Header strings, printed so an implausible parse is visible to the user.
    pub port: String,
    pub format: String,
    pub chip: String,
    pub partitions: Vec<Partition>,
}

/// A [`Pit`] by what it says.
#[verifier::ext_equal]
pub struct PitView {
    pub port: Seq<char>,
    pub format: Seq<char>,
    pub chip: Seq<char>,
    pub partitions: Seq<PartitionView>,
}

impl View for Pit {
    type V = PitView;

    open spec fn view(&self) -> PitView {
        PitView {
            port: self.port@,
            format: self.format@,
            chip: self.chip@,
            partitions: partition_views(self.partitions@),
        }
    }
}

/// A table or what its failure says.
pub open spec fn pit_outcome(result: Result<Pit>) -> core::result::Result<PitView, ErrorView> {
    match result {
        Ok(pit) => Ok(pit@),
        Err(err) => Err(err@),
    }
}

/// A dword as a message shows it.
pub open spec fn shown(value: u32) -> Seq<char> {
    "0x"@ + text::hex_padded(value as nat, 8)
}

fn push_shown(out: &mut String, value: u32)
    ensures
        final(out)@ == old(out)@ + shown(value),
{
    out.append("0x");
    text::push_hex(out, value as u64, 8);
    assert(out@ =~= old(out)@ + shown(value));
}

/// The byte length of the table a header announces, or what is wrong with the
/// header.
pub open spec fn announced(head: Seq<u8>) -> core::result::Result<usize, ErrorView> {
    let magic = bytes::le32(head, 0);
    let count = bytes::le32(head, 4);
    if head.len() < HEADER_LEN {
        Err(
            ErrorView::Pit(
                "header truncated: "@ + text::dec(head.len()) + " bytes, need "@ + text::dec(
                    HEADER_LEN as nat,
                ),
            ),
        )
    } else if magic != MAGIC {
        Err(ErrorView::Pit("bad magic "@ + shown(magic) + ", expected "@ + shown(MAGIC)))
    } else if count > MAX_ENTRIES {
        Err(
            ErrorView::Pit(
                text::dec(count as nat) + " entries is implausible (at most "@ + text::dec(
                    MAX_ENTRIES as nat,
                ) + " expected)"@,
            ),
        )
    } else {
        Ok((HEADER_LEN + count * ENTRY_LEN) as usize)
    }
}

/// What stands in front of the first NUL.
pub open spec fn until_nul(raw: Seq<u8>) -> Seq<u8>
    decreases raw.len(),
{
    if raw.len() == 0 || raw[0] == 0 {
        Seq::empty()
    } else {
        seq![raw[0]] + until_nul(raw.subrange(1, raw.len() as int))
    }
}

/// Bytes as text, with U+FFFD for what is not UTF-8.
pub uninterp spec fn lossy(raw: Seq<u8>) -> Seq<char>;

/// `String::from_utf8_lossy` reads bytes as text. Valid UTF-8 comes out as the
/// characters it encodes; where the bytes are not valid, how many of them one
/// U+FFFD stands for is the standard library's rule, and the result goes by
/// the name `lossy`.
#[verifier::external_body]
fn from_utf8_lossy(raw: &[u8]) -> (text: String)
    ensures
        text@ == lossy(raw@),
        utf8::valid_utf8(raw@) ==> text@ == utf8::decode_utf8(raw@),
{
    String::from_utf8_lossy(raw).into_owned()
}

/// `std::str::from_utf8` accepts exactly the valid UTF-8 and gives the
/// characters it encodes.
#[verifier::external_body]
fn from_utf8(raw: &[u8]) -> (text: Option<String>)
    ensures
        match text {
            Some(text) => utf8::valid_utf8(raw@) && text@ == utf8::decode_utf8(raw@),
            None => !utf8::valid_utf8(raw@),
        },
{
    match std::str::from_utf8(raw) {
        Ok(text) => Some(String::from(text)),
        Err(_) => None,
    }
}

/// What stands in front of the first NUL.
fn before_nul(raw: &[u8]) -> (kept: &[u8])
    ensures
        kept@ == until_nul(raw@),
{
    let mut end: usize = 0;
    let ghost len = raw@.len() as int;
    assert(raw@.subrange(0, len) =~= raw@);
    assert(raw@.subrange(0, 0) + until_nul(raw@) =~= until_nul(raw@));
    while end < raw.len() && raw[end] != 0
        invariant
            end <= raw@.len(),
            len == raw@.len(),
            until_nul(raw@) == raw@.subrange(0, end as int) + until_nul(
                raw@.subrange(end as int, len),
            ),
        decreases raw@.len() - end,
    {
        let ghost rest = raw@.subrange(end as int, len);
        assert(rest[0] == raw@[end as int]);
        assert(rest.subrange(1, rest.len() as int) =~= raw@.subrange(end + 1, len));
        assert(raw@.subrange(0, end as int) + until_nul(rest) =~= raw@.subrange(0, end + 1)
            + until_nul(raw@.subrange(end + 1, len)));
        end += 1;
    }
    proof {
        let rest = raw@.subrange(end as int, len);
        if end < len {
            assert(rest[0] == raw@[end as int]);
        }
        assert(raw@.subrange(0, end as int) + Seq::<u8>::empty() =~= raw@.subrange(0, end as int));
    }
    slice_subrange(raw, 0, end)
}

/// A NUL padded 32B name field, where it is UTF-8.
pub open spec fn name_in(entry: Seq<u8>, at: int) -> Option<Seq<char>> {
    let raw = until_nul(entry.subrange(at, at + 32));
    if utf8::valid_utf8(raw) {
        Some(text::trimmed(utf8::decode_utf8(raw)))
    } else {
        None
    }
}

/// NUL padded 32B name field.
fn name_at(entry: &[u8], at: usize) -> (name: Option<String>)
    requires
        at + 32 <= entry@.len(),
    ensures
        match name {
            Some(name) => name_in(entry@, at as int) == Some(name@),
            None => name_in(entry@, at as int) is None,
        },
{
    let _len: usize = entry.len();
    match from_utf8(before_nul(slice_subrange(entry, at, at + 32))) {
        Some(name) => Some(text::trim(name.as_str())),
        None => None,
    }
}

/// A header string: fixed width, NUL padded, and maybe blank.
pub open spec fn ascii_in(bytes: Seq<u8>, at: int, len: int) -> Seq<char> {
    text::trimmed(lossy(until_nul(bytes.subrange(at, at + len))))
}

/// Header strings are fixed width and NUL padded, and may be blank.
fn ascii_at(bytes: &[u8], at: usize, len: usize) -> (text: String)
    requires
        at + len <= bytes@.len(),
    ensures
        text@ == ascii_in(bytes@, at as int, len as int),
{
    let _len: usize = bytes.len();
    let text = from_utf8_lossy(before_nul(slice_subrange(bytes, at, at + len)));
    text::trim(text.as_str())
}

/// Entry `index` of a table.
pub open spec fn entry_in(entry: Seq<u8>, index: int) -> core::result::Result<
    PartitionView,
    ErrorView,
> {
    match name_in(entry, 36) {
        None => Err(
            ErrorView::Pit("entry "@ + text::dec(index as nat) + " has a non-UTF-8 name"@),
        ),
        Some(name) => if name.len() == 0 {
            Err(ErrorView::Pit("entry "@ + text::dec(index as nat) + " has an empty name"@))
        } else {
            Ok(
                PartitionView {
                    name,
                    flash_filename: match name_in(entry, 68) {
                        Some(name) => name,
                        None => Seq::empty(),
                    },
                    identifier: bytes::le32(entry, 8),
                    device_type: DeviceType::of(bytes::le32(entry, 4)),
                    block_offset: bytes::le32(entry, 20),
                    block_count: bytes::le32(entry, 24),
                },
            )
        },
    }
}

fn parse_entry(entry: &[u8], index: usize) -> (result: Result<Partition>)
    requires
        entry@.len() == ENTRY_LEN,
    ensures
        match result {
            Ok(partition) => entry_in(entry@, index as int) == Ok::<PartitionView, ErrorView>(
                partition@,
            ),
            Err(err) => entry_in(entry@, index as int) == Err::<PartitionView, ErrorView>(err@),
        },
{
    let name = match name_at(entry, 36) {
        Some(name) => name,
        None => {
            let mut message = "entry ".to_owned();
            text::push_dec(&mut message, index as u64);
            message.append(" has a non-UTF-8 name");
            return Err(Error::Pit(message));
        },
    };
    if name.as_str().unicode_len() == 0 {
        let mut message = "entry ".to_owned();
        text::push_dec(&mut message, index as u64);
        message.append(" has an empty name");
        return Err(Error::Pit(message));
    }
    let flash_filename = match name_at(entry, 68) {
        Some(name) => name,
        None => {
            let empty = String::new();
            assert(empty@ =~= Seq::empty());
            empty
        },
    };
    Ok(
        Partition {
            name,
            flash_filename,
            identifier: bytes::u32_at(entry, 8),
            device_type: DeviceType::from_raw(bytes::u32_at(entry, 4)),
            block_offset: bytes::u32_at(entry, 20),
            block_count: bytes::u32_at(entry, 24),
        },
    )
}

/// The entries of a table from `index` on, after those in `found`.
pub open spec fn entries_from(
    bytes: Seq<u8>,
    count: int,
    index: int,
    found: Seq<PartitionView>,
) -> core::result::Result<Seq<PartitionView>, ErrorView>
    decreases count - index,
{
    if index >= count {
        Ok(found)
    } else {
        let at = HEADER_LEN + index * ENTRY_LEN;
        match entry_in(bytes.subrange(at, at + ENTRY_LEN), index) {
            Err(err) => Err(err),
            Ok(partition) => entries_from(bytes, count, index + 1, found.push(partition)),
        }
    }
}

/// The table in `bytes`, or what is wrong with it.
pub open spec fn parsed(bytes: Seq<u8>) -> core::result::Result<PitView, ErrorView> {
    match announced(bytes) {
        Err(err) => Err(err),
        Ok(needed) => {
            let count = bytes::le32(bytes, 4);
            if bytes.len() < needed {
                Err(
                    ErrorView::Pit(
                        text::dec(count as nat) + " entries need "@ + text::dec(needed as nat)
                            + " bytes, got "@ + text::dec(bytes.len()),
                    ),
                )
            } else {
                match entries_from(bytes, count as int, 0, Seq::empty()) {
                    Err(err) => Err(err),
                    Ok(partitions) => Ok(
                        PitView {
                            port: ascii_in(bytes, 8, 4),
                            format: ascii_in(bytes, 12, 4),
                            chip: ascii_in(bytes, 16, 8),
                            partitions,
                        },
                    ),
                }
            }
        },
    }
}

impl PitView {
    /// Each entry's identifier and name.
    pub open spec fn ids(self) -> Seq<Seq<char>> {
        Seq::new(
            self.partitions.len(),
            |i: int|
                text::dec(self.partitions[i].identifier as nat) + "="@ + self.partitions[i].name,
        )
    }

    /// Each entry's name.
    pub open spec fn names(self) -> Seq<Seq<char>> {
        Seq::new(self.partitions.len(), |i: int| self.partitions[i].name)
    }

    /// Why no entry has the identifier `id`.
    pub open spec fn no_such_id(self, id: u32) -> ErrorView {
        ErrorView::Pit(
            "no partition with id "@ + text::dec(id as nat) + "; the table has: "@ + text::joined(
                self.ids(),
                ", "@,
            ),
        )
    }

    /// Why no entry is called `name`.
    pub open spec fn no_such_name(self, name: Seq<char>) -> ErrorView {
        ErrorView::Pit(
            "no partition named "@ + text::quoted(name) + "; the table has: "@ + text::joined(
                self.names(),
                ", "@,
            ),
        )
    }

    /// True when entry `i` answers to `name`.
    pub open spec fn named(self, i: int, name: Seq<char>) -> bool {
        text::same_ignoring_case(self.partitions[i].name, name)
    }

    /// The first entry from `i` on that answers to `name`.
    pub open spec fn first_named(self, name: Seq<char>, i: int) -> Option<int>
        decreases self.partitions.len() - i,
    {
        if i >= self.partitions.len() {
            None
        } else if self.named(i, name) {
            Some(i)
        } else {
            self.first_named(name, i + 1)
        }
    }

    /// The first entry from `i` on that has the identifier `id`.
    pub open spec fn first_identified(self, id: u32, i: int) -> Option<int>
        decreases self.partitions.len() - i,
    {
        if i >= self.partitions.len() {
            None
        } else if self.partitions[i].identifier == id {
            Some(i)
        } else {
            self.first_identified(id, i + 1)
        }
    }

    /// The entry a lookup by name gives.
    pub open spec fn by_name(self, name: Seq<char>) -> core::result::Result<
        PartitionView,
        ErrorView,
    > {
        match self.first_named(name, 0) {
            Some(i) => Ok(self.partitions[i]),
            None => Err(self.no_such_name(name)),
        }
    }

    /// The entry a lookup by identifier gives.
    pub open spec fn by_id(self, id: u32) -> core::result::Result<PartitionView, ErrorView> {
        match self.first_identified(id, 0) {
            Some(i) => Ok(self.partitions[i]),
            None => Err(self.no_such_id(id)),
        }
    }
}

/// An entry or why there is none, by what it says.
pub open spec fn lookup(result: Result<&Partition>) -> core::result::Result<
    PartitionView,
    ErrorView,
> {
    match result {
        Ok(found) => Ok(found@),
        Err(err) => Err(err@),
    }
}

/// A lookup by name gives the first entry that answers to it, letter case
/// aside, and fails only where no entry does.
pub proof fn a_name_finds_the_first_that_answers(pit: PitView, name: Seq<char>, i: int)
    requires
        0 <= i,
    ensures
        match pit.first_named(name, i) {
            Some(found) => {
                &&& i <= found < pit.partitions.len()
                &&& pit.named(found, name)
                &&& forall|j: int| i <= j < found ==> !#[trigger] pit.named(j, name)
            },
            None => forall|j: int|
                i <= j < pit.partitions.len() ==> !#[trigger] pit.named(j, name),
        },
    decreases pit.partitions.len() - i,
{
    if i < pit.partitions.len() && !pit.named(i, name) {
        a_name_finds_the_first_that_answers(pit, name, i + 1);
    }
}

/// A lookup by identifier gives the first entry that has it, and fails only
/// where none does.
pub proof fn an_identifier_finds_the_first_that_has_it(pit: PitView, id: u32, i: int)
    requires
        0 <= i,
    ensures
        match pit.first_identified(id, i) {
            Some(found) => {
                &&& i <= found < pit.partitions.len()
                &&& pit.partitions[found].identifier == id
                &&& forall|j: int|
                    i <= j < found ==> (#[trigger] pit.partitions[j]).identifier != id
            },
            None => forall|j: int|
                i <= j < pit.partitions.len() ==> (#[trigger] pit.partitions[j]).identifier != id,
        },
    decreases pit.partitions.len() - i,
{
    if i < pit.partitions.len() && pit.partitions[i].identifier != id {
        an_identifier_finds_the_first_that_has_it(pit, id, i + 1);
    }
}

impl Pit {
    /// First phase of a two-phase read: proves everything a header-sized
    /// prefix can prove - length, magic, a plausible entry count - and returns
    /// the byte length of the whole table, so the caller never sizes an
    /// allocation or a device read from unvalidated bytes.
    pub fn table_len(head: &[u8]) -> (result: Result<usize>)
        ensures
            error::outcome(result) == announced(head@),
            result matches Ok(len) ==> HEADER_LEN <= len <= HEADER_LEN + MAX_ENTRIES * ENTRY_LEN,
    {
        if head.len() < HEADER_LEN {
            let mut message = "header truncated: ".to_owned();
            text::push_dec(&mut message, head.len() as u64);
            message.append(" bytes, need ");
            text::push_dec(&mut message, HEADER_LEN as u64);
            return Err(Error::Pit(message));
        }
        let magic: u32 = bytes::u32_at(head, 0);
        if magic != MAGIC {
            let mut message = "bad magic ".to_owned();
            push_shown(&mut message, magic);
            message.append(", expected ");
            push_shown(&mut message, MAGIC);
            return Err(Error::Pit(message));
        }
        let count: u32 = bytes::u32_at(head, 4);
        if count > MAX_ENTRIES as u32 {
            let mut message = text::decimal(count as u64);
            message.append(" entries is implausible (at most ");
            text::push_dec(&mut message, MAX_ENTRIES as u64);
            message.append(" expected)");
            return Err(Error::Pit(message));
        }
        Ok(HEADER_LEN + count as usize * ENTRY_LEN)
    }

    /// Any failure here aborts before the device is read or written.
    #[verifier::loop_isolation(false)]
    pub fn parse(bytes: &[u8]) -> (result: Result<Pit>)
        ensures
            pit_outcome(result) == parsed(bytes@),
    {
        let needed: usize = match Pit::table_len(bytes) {
            Ok(needed) => needed,
            Err(err) => {
                return Err(err);
            },
        };
        let count: usize = bytes::u32_at(bytes, 4) as usize;
        if bytes.len() < needed {
            let mut message = text::decimal(count as u64);
            message.append(" entries need ");
            text::push_dec(&mut message, needed as u64);
            message.append(" bytes, got ");
            text::push_dec(&mut message, bytes.len() as u64);
            return Err(Error::Pit(message));
        }
        let mut partitions: Vec<Partition> = Vec::new();
        let mut index: usize = 0;
        assert(partition_views(partitions@) =~= Seq::empty());
        while index < count
            invariant
                index <= count,
                entries_from(
                    bytes@,
                    count as int,
                    index as int,
                    partition_views(partitions@),
                ) == entries_from(bytes@, count as int, 0, Seq::empty()),
            decreases count - index,
        {
            let at: usize = HEADER_LEN + index * ENTRY_LEN;
            let ghost before = partitions@;
            match parse_entry(slice_subrange(bytes, at, at + ENTRY_LEN), index) {
                Ok(partition) => {
                    partitions.push(partition);
                    assert(partition_views(partitions@) =~= partition_views(before).push(
                        partition@,
                    ));
                },
                Err(err) => {
                    return Err(err);
                },
            }
            index += 1;
        }
        Ok(
            Pit {
                port: ascii_at(bytes, 8, 4),
                format: ascii_at(bytes, 12, 4),
                chip: ascii_at(bytes, 16, 8),
                partitions,
            },
        )
    }

    /// Identifiers are the other addressable column of the table.
    pub fn find_by_id(&self, id: u32) -> (result: Result<&Partition>)
        ensures
            lookup(result) == self@.by_id(id),
    {
        let mut ids: Vec<String> = Vec::new();
        let mut i: usize = 0;
        while i < self.partitions.len()
            invariant
                i <= self.partitions@.len(),
                text::views(ids@) == self@.ids().take(i as int),
                self@.first_identified(id, i as int) == self@.first_identified(id, 0),
            decreases self.partitions@.len() - i,
        {
            let part = &self.partitions[i];
            let ghost before = ids@;
            if part.identifier == id {
                return Ok(part);
            }
            let mut label = text::decimal(part.identifier as u64);
            label.append("=");
            label.append(part.name.as_str());
            ids.push(label);
            assert(text::views(ids@) =~= text::views(before).push(self@.ids()[i as int]));
            assert(self@.ids().take(i + 1) =~= self@.ids().take(i as int).push(
                self@.ids()[i as int],
            ));
            i += 1;
        }
        assert(self@.ids().take(i as int) =~= self@.ids());
        let mut message = "no partition with id ".to_owned();
        text::push_dec(&mut message, id as u64);
        message.append("; the table has: ");
        message.append(text::join(&ids, ", ").as_str());
        Err(Error::Pit(message))
    }

    /// The name has to come from the table, so a miss reports what is there.
    pub fn find(&self, name: &str) -> (result: Result<&Partition>)
        ensures
            lookup(result) == self@.by_name(name@),
    {
        let mut names: Vec<String> = Vec::new();
        let mut i: usize = 0;
        while i < self.partitions.len()
            invariant
                i <= self.partitions@.len(),
                text::views(names@) == self@.names().take(i as int),
                self@.first_named(name@, i as int) == self@.first_named(name@, 0),
            decreases self.partitions@.len() - i,
        {
            let part = &self.partitions[i];
            let ghost before = names@;
            if text::eq_ignore_case(part.name.as_str(), name) {
                assert(self@.named(i as int, name@));
                return Ok(part);
            }
            assert(!self@.named(i as int, name@));
            names.push(part.name.clone());
            assert(text::views(names@) =~= text::views(before).push(self@.names()[i as int]));
            assert(self@.names().take(i + 1) =~= self@.names().take(i as int).push(
                self@.names()[i as int],
            ));
            i += 1;
        }
        assert(self@.names().take(i as int) =~= self@.names());
        let mut message = "no partition named ".to_owned();
        message.append(text::quote(name).as_str());
        message.append("; the table has: ");
        message.append(text::join(&names, ", ").as_str());
        Err(Error::Pit(message))
    }
}

/// A table and the offset it was found at. The offset is printed before
/// anything acts on a range, because a search that landed on the wrong copy is
/// only visible there.
#[derive(Debug, Clone, PartialEq, Eq)]
pub struct Found {
    pub pit: Pit,
    pub offset: u64,
}

/// A [`Found`] by what it says.
#[verifier::ext_equal]
pub struct FoundView {
    pub pit: PitView,
    pub offset: u64,
}

impl View for Found {
    type V = FoundView;

    open spec fn view(&self) -> FoundView {
        FoundView { pit: self.pit@, offset: self.offset }
    }
}

/// A find or what its failure says.
pub open spec fn found_outcome(result: Result<Found>) -> core::result::Result<
    FoundView,
    ErrorView,
> {
    match result {
        Ok(found) => Ok(found@),
        Err(err) => Err(err@),
    }
}

/// The sectors that hold `len` bytes.
pub open spec fn sectors_for(len: int, sector: u32) -> u64 {
    (transfer::rounded_up(len, sector as int) / sector as int) as u64
}

/// The table at a known offset, read in two steps: its header, and all of it
/// once the header has said how much that is.
pub open spec fn table_at<S: Sectors>(medium: S::Medium, offset: u64) -> (
    core::result::Result<PitView, ErrorView>,
    S::Medium,
) {
    let sector = S::sector_bytes(medium);
    if sector == 0 || offset as int % sector as int != 0 {
        (
            Err(
                ErrorView::Pit(
                    "offset "@ + text::dec(offset as nat) + " is not a multiple of the "@
                        + text::dec(sector as nat) + "-byte sector size"@,
                ),
            ),
            medium,
        )
    } else {
        let lba = (offset as int / sector as int) as u64;
        let (read, medium) = S::serve(medium, lba, sectors_for(HEADER_LEN as int, sector));
        match read {
            Err(err) => (Err(err), medium),
            Ok(head) => match announced(head) {
                Err(err) => (Err(err), medium),
                Ok(needed) => if needed <= head.len() {
                    (parsed(head), medium)
                } else {
                    let (read, medium) = S::serve(medium, lba, sectors_for(needed as int, sector));
                    match read {
                        Err(err) => (Err(err), medium),
                        Ok(whole) => (parsed(whole), medium),
                    }
                },
            },
        }
    }
}

/// The sectors that hold `len` bytes.
fn sectors_of(len: usize, sector: u32) -> (sectors: u64)
    requires
        sector > 0,
        len <= 0xFFFF_FFFF,
    ensures
        sectors == sectors_for(len as int, sector),
{
    proof {
        transfer::rounding_up_finds_the_least_multiple(len as int, sector as int);
        let up = transfer::rounded_up(len as int, sector as int);
        assert(0 <= up / sector as int <= up) by (nonlinear_arith)
            requires
                up >= 0,
                sector > 0,
        ;
    }
    transfer::align_up(len as u64, sector) / sector as u64
}

/// Two-phase read at a known offset: the header is validated before its entry
/// count is allowed to size the read that follows it.
pub fn read_at<S: Sectors>(src: &mut S, offset: u64) -> (result: Result<Pit>)
    ensures
        (pit_outcome(result), final(src).medium()) == table_at::<S>(old(src).medium(), offset),
        S::sector_bytes(final(src).medium()) == S::sector_bytes(old(src).medium()),
        S::size_bytes(final(src).medium()) == S::size_bytes(old(src).medium()),
{
    let sector: u32 = src.sector_size();
    if sector == 0 || offset % (sector as u64) != 0 {
        let mut message = "offset ".to_owned();
        text::push_dec(&mut message, offset);
        message.append(" is not a multiple of the ");
        text::push_dec(&mut message, sector as u64);
        message.append("-byte sector size");
        return Err(Error::Pit(message));
    }
    let lba: u64 = offset / (sector as u64);
    let head = match src.read(lba, sectors_of(HEADER_LEN, sector)) {
        Ok(bytes) => bytes,
        Err(err) => {
            return Err(err);
        },
    };
    let needed: usize = match Pit::table_len(head.as_slice()) {
        Ok(needed) => needed,
        Err(err) => {
            return Err(err);
        },
    };
    if needed <= head.len() {
        return Pit::parse(head.as_slice());
    }
    match src.read(lba, sectors_of(needed, sector)) {
        Ok(whole) => Pit::parse(whole.as_slice()),
        Err(err) => Err(err),
    }
}

/// What a search may still read, and what it has read of the space it searches.
#[verifier::ext_equal]
#[derive(Debug, Clone, Copy)]
pub struct Allowance {
    /// The bytes it may still read; `None` when it may read any number.
    pub left: Option<u64>,
    /// True once a hit could not be read for want of budget. The search is over
    /// then: going on could report a copy further off in place of that one.
    pub spent: bool,
    /// The bytes of the searched space read so far.
    pub read: u64,
}

impl Allowance {
    pub open spec fn affords(self, bytes: int) -> bool {
        !self.spent && (self.left matches Some(left) ==> bytes <= left)
    }

    pub open spec fn charged(self, bytes: int) -> Allowance {
        Allowance {
            left: match self.left {
                Some(left) => Some((left - bytes) as u64),
                None => None,
            },
            ..self
        }
    }

    /// The same after `bytes` more of the searched space.
    pub open spec fn passed(self, bytes: int) -> Allowance {
        let read = self.read + bytes;
        Allowance {
            read: if read > u64::MAX {
                u64::MAX
            } else {
                read as u64
            },
            ..self.charged(bytes)
        }
    }

    fn can_afford(&self, bytes: u64) -> (affords: bool)
        ensures
            affords == self.affords(bytes as int),
    {
        match self.left {
            Some(left) => !self.spent && bytes <= left,
            None => !self.spent,
        }
    }

    fn charge(&mut self, bytes: u64)
        requires
            old(self).affords(bytes as int),
        ensures
            *final(self) == old(self).charged(bytes as int),
    {
        if let Some(left) = self.left {
            self.left = Some(left - bytes);
        }
    }

    fn pass(&mut self, bytes: u64)
        requires
            old(self).affords(bytes as int),
        ensures
            *final(self) == old(self).passed(bytes as int),
    {
        self.charge(bytes);
        self.read = self.read.saturating_add(bytes);
    }
}

/// A search under way: the medium and what it may still read.
#[verifier::ext_equal]
pub struct Search<M> {
    pub medium: M,
    pub may: Allowance,
}

/// True when a sector that starts `at` bytes into a block opens with the magic.
pub open spec fn marked(block: Seq<u8>, at: int) -> bool {
    at + 4 <= block.len() && bytes::le32(block, at) == MAGIC
}

/// The whole sectors that hold `len` bytes, `at` bytes into a block read at
/// `from`: read anew where the budget affords it, and out of the block where it
/// does not and they lie in it. Where neither will do the budget is spent.
pub open spec fn gathered<S: Sectors>(
    search: Search<S::Medium>,
    block: Seq<u8>,
    from: u64,
    sector: u32,
    at: int,
    len: int,
) -> (Option<Seq<u8>>, Search<S::Medium>) {
    let count = sectors_for(len, sector);
    let run = count * sector;
    if search.may.affords(run) {
        let (read, medium) = S::serve(
            search.medium,
            ((from + at) / sector as int) as u64,
            count,
        );
        (
            match read {
                Ok(bytes) => Some(bytes),
                Err(_) => None,
            },
            Search { medium, may: search.may.charged(run) },
        )
    } else if at + run <= block.len() {
        (Some(block.subrange(at, at + run)), search)
    } else {
        (None, Search { may: Allowance { spent: true, ..search.may }, ..search })
    }
}

/// The table at a sector that opens with the magic, if it is one: its header is
/// validated before its entry count sizes anything.
pub open spec fn candidate<S: Sectors>(
    search: Search<S::Medium>,
    block: Seq<u8>,
    from: u64,
    sector: u32,
    at: int,
) -> (Option<PitView>, Search<S::Medium>) {
    let (head, search) = gathered::<S>(search, block, from, sector, at, HEADER_LEN as int);
    match head {
        None => (None, search),
        Some(head) => match announced(head) {
            Err(_) => (None, search),
            Ok(needed) => if needed <= head.len() {
                (parsed(head).ok(), search)
            } else {
                let (whole, search) = gathered::<S>(
                    search,
                    block,
                    from,
                    sector,
                    at,
                    needed as int,
                );
                match whole {
                    None => (None, search),
                    Some(whole) => (parsed(whole).ok(), search),
                }
            },
        },
    }
}

/// The first table that parses among the sectors of a block read at `from`,
/// from the `k`th on, counted from the end of the block when it is searched
/// backwards. A sector that opens with the magic and does not parse is passed
/// over.
pub open spec fn block_from<S: Sectors>(
    search: Search<S::Medium>,
    block: Seq<u8>,
    from: u64,
    sector: u32,
    reverse: bool,
    count: int,
    k: int,
) -> (Option<FoundView>, Search<S::Medium>)
    decreases count - k,
{
    if k >= count || search.may.spent {
        (None, search)
    } else {
        let i = if reverse {
            count - 1 - k
        } else {
            k
        };
        let at = i * sector;
        if !marked(block, at) {
            block_from::<S>(search, block, from, sector, reverse, count, k + 1)
        } else {
            let (read, search) = candidate::<S>(search, block, from, sector, at);
            match read {
                Some(pit) => (Some(FoundView { pit, offset: (from + at) as u64 }), search),
                None => block_from::<S>(search, block, from, sector, reverse, count, k + 1),
            }
        }
    }
}

/// How much of a gap the next read takes: whole sectors, no more than one read
/// may ask for, no more than the search may still read.
pub open spec fn block_len(room: int, left: Option<u64>, sector: u32) -> int {
    let most = if room < MAX_READ_BYTES {
        room
    } else {
        MAX_READ_BYTES as int
    };
    let most = match left {
        Some(left) => if most < left {
            most
        } else {
            left as int
        },
        None => most,
    };
    most - most % sector as int
}

/// The first table in what is left of a gap of whole sectors: between `at` and
/// `end`, or between `start` and `at` when it is searched backwards.
#[verifier::opaque]
pub open spec fn gap_from<S: Sectors>(
    search: Search<S::Medium>,
    start: int,
    end: int,
    reverse: bool,
    sector: u32,
    at: int,
) -> (core::result::Result<Option<FoundView>, ErrorView>, Search<S::Medium>)
    decreases
            if reverse {
                at - start
            } else {
                end - at
            },
{
    let room = if reverse {
        at - start
    } else {
        end - at
    };
    let len = block_len(room, search.may.left, sector);
    let from = if reverse {
        at - len
    } else {
        at
    };
    if !search.may.affords(sector as int) || room <= 0 {
        (Ok(None), search)
    } else {
        let (read, medium) = S::serve(
            search.medium,
            (from / sector as int) as u64,
            (len / sector as int) as u64,
        );
        let search = Search { medium, may: search.may.passed(len) };
        match read {
            Err(err) => (Err(err), search),
            Ok(block) => {
                let (hit, after) = block_from::<S>(
                    search,
                    block,
                    from as u64,
                    sector,
                    reverse,
                    len / sector as int,
                    0,
                );
                if hit is Some || len <= 0 || len > room {
                    (Ok(hit), after)
                } else {
                    gap_from::<S>(
                        after,
                        start,
                        end,
                        reverse,
                        sector,
                        if reverse {
                            from
                        } else {
                            at + len
                        },
                    )
                }
            },
        }
    }
}

/// The first table in the gaps from the `g`th on, in the order they stand in.
pub open spec fn gaps_from<S: Sectors>(
    search: Search<S::Medium>,
    gaps: Seq<Gap>,
    sector: u32,
    g: int,
) -> (core::result::Result<Option<FoundView>, ErrorView>, Search<S::Medium>)
    decreases gaps.len() - g,
{
    if g >= gaps.len() {
        (Ok(None), search)
    } else {
        let start = transfer::rounded_up(gaps[g].start as int, sector as int);
        let end = gaps[g].end - gaps[g].end as int % sector as int;
        let (hit, after) = if end <= start {
            (Ok(None), search)
        } else {
            gap_from::<S>(
                search,
                start,
                end,
                gaps[g].reverse,
                sector,
                if gaps[g].reverse {
                    end
                } else {
                    start
                },
            )
        };
        match hit {
            Err(err) => (Err(err), after),
            Ok(Some(found)) => (Ok(Some(found)), after),
            Ok(None) => gaps_from::<S>(after, gaps, sector, g + 1),
        }
    }
}

/// Where a search looked.
pub open spec fn spans(gaps: Seq<Gap>) -> Seq<Seq<char>> {
    Seq::new(
        gaps.len(),
        |i: int| text::dec(gaps[i].start as nat) + ".."@ + text::dec(gaps[i].end as nat),
    )
}

/// What a search that found nothing says.
pub open spec fn nothing_found(read: u64, gaps: Seq<Gap>) -> ErrorView {
    ErrorView::Pit(
        "no PIT found in "@ + text::dec(read as nat)
            + " bytes of the space no partition covers ("@ + text::joined(spans(gaps), ", "@)
            + "); pass --pit-offset if the table is elsewhere, or --pit-scan to search further"@,
    )
}

/// A whole search of the gaps within a budget, or without one.
pub open spec fn searched<S: Sectors>(
    medium: S::Medium,
    gaps: Seq<Gap>,
    budget: Option<u64>,
) -> (core::result::Result<FoundView, ErrorView>, S::Medium) {
    let sector = S::sector_bytes(medium);
    if sector == 0 {
        (Err(ErrorView::Pit("the device reports a zero sector size"@)), medium)
    } else {
        let may = Allowance { left: budget, spent: false, read: 0 };
        let (hit, after) = gaps_from::<S>(Search { medium, may }, gaps, sector, 0);
        match hit {
            Err(err) => (Err(err), after.medium),
            Ok(Some(found)) => (Ok(found), after.medium),
            Ok(None) => (Err(nothing_found(after.may.read, gaps)), after.medium),
        }
    }
}

/// The bytes of the whole sectors that hold `len` bytes.
pub proof fn whole_sectors_hold(len: int, sector: u32)
    requires
        sector > 0,
        0 <= len <= 0xFFFF_FFFF,
    ensures
        len <= sectors_for(len, sector) * sector < len + sector,
        (sectors_for(len, sector) * sector) % sector as int == 0,
{
    transfer::rounding_up_finds_the_least_multiple(len, sector as int);
    let up = transfer::rounded_up(len, sector as int);
    vstd::arithmetic::div_mod::lemma_fundamental_div_mod(up, sector as int);
    let q = up / sector as int;
    assert(0 <= q <= up) by (nonlinear_arith)
        requires
            up == sector * q,
            up >= 0,
            sector > 0,
    ;
    assert(q * sector == up) by (nonlinear_arith)
        requires
            up == sector * q,
    ;
}

fn gather<S: Sectors>(
    src: &mut S,
    block: &[u8],
    from: u64,
    sector: u32,
    at: usize,
    len: usize,
    may: &mut Allowance,
) -> (bytes: Option<Vec<u8>>)
    requires
        sector > 0,
        sector == S::sector_bytes(old(src).medium()),
        len <= 0xFF_FFFF,
        at <= block@.len(),
        from + block@.len() <= u64::MAX,
    ensures
        ({
            let (given, after) = gathered::<S>(
                Search { medium: old(src).medium(), may: *old(may) },
                block@,
                from,
                sector,
                at as int,
                len as int,
            );
            &&& final(src).medium() == after.medium
            &&& *final(may) == after.may
            &&& match bytes {
                Some(bytes) => given == Some(bytes@),
                None => given is None,
            }
        }),
        S::sector_bytes(final(src).medium()) == S::sector_bytes(old(src).medium()),
        S::size_bytes(final(src).medium()) == S::size_bytes(old(src).medium()),
{
    let count: u64 = sectors_of(len, sector);
    proof {
        whole_sectors_hold(len as int, sector);
    }
    let run: u64 = count * sector as u64;
    if may.can_afford(run) {
        may.charge(run);
        return match src.read((from + at as u64) / sector as u64, count) {
            Ok(bytes) => Some(bytes),
            Err(_) => None,
        };
    }
    if run <= (block.len() - at) as u64 {
        return Some(slice_to_vec(slice_subrange(block, at, at + run as usize)));
    }
    may.spent = true;
    None
}

fn read_candidate<S: Sectors>(
    src: &mut S,
    block: &[u8],
    from: u64,
    sector: u32,
    at: usize,
    may: &mut Allowance,
) -> (pit: Option<Pit>)
    requires
        sector > 0,
        sector == S::sector_bytes(old(src).medium()),
        at <= block@.len(),
        from + block@.len() <= u64::MAX,
    ensures
        ({
            let (read, after) = candidate::<S>(
                Search { medium: old(src).medium(), may: *old(may) },
                block@,
                from,
                sector,
                at as int,
            );
            &&& final(src).medium() == after.medium
            &&& *final(may) == after.may
            &&& match pit {
                Some(pit) => read == Some(pit@),
                None => read is None,
            }
        }),
        S::sector_bytes(final(src).medium()) == S::sector_bytes(old(src).medium()),
        S::size_bytes(final(src).medium()) == S::size_bytes(old(src).medium()),
{
    let head = match gather(src, block, from, sector, at, HEADER_LEN, may) {
        Some(bytes) => bytes,
        None => {
            return None;
        },
    };
    let needed: usize = match Pit::table_len(head.as_slice()) {
        Ok(needed) => needed,
        Err(_) => {
            return None;
        },
    };
    if needed <= head.len() {
        return match Pit::parse(head.as_slice()) {
            Ok(pit) => Some(pit),
            Err(_) => None,
        };
    }
    match gather(src, block, from, sector, at, needed, may) {
        Some(whole) => match Pit::parse(whole.as_slice()) {
            Ok(pit) => Some(pit),
            Err(_) => None,
        },
        None => None,
    }
}

#[verifier::loop_isolation(false)]
fn scan_block<S: Sectors>(
    src: &mut S,
    block: &[u8],
    from: u64,
    sector: u32,
    reverse: bool,
    may: &mut Allowance,
) -> (hit: Option<Found>)
    requires
        sector > 0,
        sector == S::sector_bytes(old(src).medium()),
        block@.len() as int % sector as int == 0,
        from + block@.len() <= u64::MAX,
    ensures
        ({
            let (found, after) = block_from::<S>(
                Search { medium: old(src).medium(), may: *old(may) },
                block@,
                from,
                sector,
                reverse,
                block@.len() as int / sector as int,
                0,
            );
            &&& final(src).medium() == after.medium
            &&& *final(may) == after.may
            &&& match hit {
                Some(hit) => found == Some(hit@),
                None => found is None,
            }
        }),
        S::sector_bytes(final(src).medium()) == S::sector_bytes(old(src).medium()),
        S::size_bytes(final(src).medium()) == S::size_bytes(old(src).medium()),
{
    let count: usize = (block.len() as u64 / sector as u64) as usize;
    proof {
        vstd::arithmetic::div_mod::lemma_fundamental_div_mod(
            block@.len() as int,
            sector as int,
        );
        let len = block@.len() as int;
        assert(0 <= len / sector as int <= len) by (nonlinear_arith)
            requires
                len >= 0,
                sector > 0,
        ;
    }
    let mut k: usize = 0;
    while k < count && !may.spent
        invariant
            k <= count,
            block_from::<S>(
                Search { medium: src.medium(), may: *may },
                block@,
                from,
                sector,
                reverse,
                count as int,
                k as int,
            ) == block_from::<S>(
                Search { medium: old(src).medium(), may: *old(may) },
                block@,
                from,
                sector,
                reverse,
                count as int,
                0,
            ),
            S::sector_bytes(src.medium()) == S::sector_bytes(old(src).medium()),
            S::size_bytes(src.medium()) == S::size_bytes(old(src).medium()),
        decreases count - k,
    {
        let i: usize = if reverse {
            count - 1 - k
        } else {
            k
        };
        assert(0 <= i * sector <= block@.len() - sector) by (nonlinear_arith)
            requires
                0 <= i < count,
                block@.len() == sector * count,
                sector > 0,
        ;
        let at: usize = (i as u64 * sector as u64) as usize;
        if block.len() - at >= 4 && bytes::u32_at(block, at) == MAGIC {
            if let Some(pit) = read_candidate(src, block, from, sector, at, may) {
                return Some(Found { pit, offset: from + at as u64 });
            }
        }
        k += 1;
    }
    None
}

/// Searches one gap of whole sectors.
#[verifier::loop_isolation(false)]
fn scan_gap<S: Sectors>(
    src: &mut S,
    start: u64,
    end: u64,
    reverse: bool,
    sector: u32,
    may: &mut Allowance,
) -> (result: Result<Option<Found>>)
    requires
        sector > 0,
        sector == S::sector_bytes(old(src).medium()),
        start < end,
        start as int % sector as int == 0,
        end as int % sector as int == 0,
    ensures
        ({
            let (hit, after) = gap_from::<S>(
                Search { medium: old(src).medium(), may: *old(may) },
                start as int,
                end as int,
                reverse,
                sector,
                if reverse {
                    end as int
                } else {
                    start as int
                },
            );
            &&& final(src).medium() == after.medium
            &&& *final(may) == after.may
            &&& match result {
                Ok(Some(found)) => hit == Ok::<Option<FoundView>, ErrorView>(Some(found@)),
                Ok(None) => hit == Ok::<Option<FoundView>, ErrorView>(None),
                Err(err) => hit == Err::<Option<FoundView>, ErrorView>(err@),
            }
        }),
        S::sector_bytes(final(src).medium()) == S::sector_bytes(old(src).medium()),
        S::size_bytes(final(src).medium()) == S::size_bytes(old(src).medium()),
{
    reveal(gap_from);
    let ghost first = Search { medium: src.medium(), may: *may };
    let mut at: u64 = if reverse {
        end
    } else {
        start
    };
    while may.can_afford(sector as u64) && ((reverse && at > start) || (!reverse && at < end))
        invariant
            start <= at <= end,
            at as int % sector as int == 0,
            gap_from::<S>(
                Search { medium: src.medium(), may: *may },
                start as int,
                end as int,
                reverse,
                sector,
                at as int,
            ) == gap_from::<S>(
                first,
                start as int,
                end as int,
                reverse,
                sector,
                if reverse {
                    end as int
                } else {
                    start as int
                },
            ),
            S::sector_bytes(src.medium()) == S::sector_bytes(old(src).medium()),
            S::size_bytes(src.medium()) == S::size_bytes(old(src).medium()),
        decreases
                if reverse {
                    at - start
                } else {
                    end - at
                },
    {
        let room: u64 = if reverse {
            at - start
        } else {
            end - at
        };
        let most: u64 = if room < MAX_READ_BYTES {
            room
        } else {
            MAX_READ_BYTES
        };
        let most: u64 = match may.left {
            Some(left) => if most < left {
                most
            } else {
                left
            },
            None => most,
        };
        proof {
            whole_sectors_below(most as int, sector as int);
        }
        let len: u64 = most - most % (sector as u64);
        let from: u64 = if reverse {
            at - len
        } else {
            at
        };
        proof {
            whole_sectors_apart(at as int, len as int, sector as int);
            let l = len as int / sector as int;
            assert(l * sector == len);
        }
        may.pass(len);
        let block = match src.read(from / sector as u64, len / sector as u64) {
            Ok(block) => block,
            Err(err) => {
                return Err(err);
            },
        };
        assert(block@.len() == len);
        assert(len > 0);
        let hit = scan_block(src, block.as_slice(), from, sector, reverse, may);
        if hit.is_some() {
            return Ok(hit);
        }
        at = if reverse {
            from
        } else {
            at + len
        };
    }
    Ok(None)
}

/// Taking off the remainder leaves whole sectors.
pub proof fn whole_sectors_below(most: int, sector: int)
    requires
        sector > 0,
        most >= 0,
    ensures
        0 <= most % sector <= most,
        (most - most % sector) % sector == 0,
        ((most - most % sector) / sector) * sector == most - most % sector,
        0 <= (most - most % sector) / sector <= most,
{
    let len = most - most % sector;
    vstd::arithmetic::div_mod::lemma_fundamental_div_mod(most, sector);
    vstd::arithmetic::div_mod::lemma_mod_decreases(most as nat, sector as nat);
    let q = most / sector;
    assert(len == q * sector) by (nonlinear_arith)
        requires
            most == sector * q + most % sector,
            len == most - most % sector,
    ;
    vstd::arithmetic::div_mod::lemma_mod_multiples_basic(q, sector);
    vstd::arithmetic::div_mod::lemma_div_multiples_vanish(q, sector);
    assert(sector * q == q * sector) by (nonlinear_arith);
    assert(0 <= q <= most) by (nonlinear_arith)
        requires
            most == sector * q + most % sector,
            0 <= most % sector,
            most >= 0,
            sector > 0,
            q == most / sector,
    ;
}

/// Whole sectors from whole sectors are whole sectors.
pub proof fn whole_sectors_apart(at: int, len: int, sector: int)
    requires
        sector > 0,
        at % sector == 0,
        len % sector == 0,
    ensures
        (at - len) % sector == 0,
        (at + len) % sector == 0,
        at / sector * sector == at,
        len / sector * sector == len,
        (at - len) / sector * sector == at - len,
{
    vstd::arithmetic::div_mod::lemma_fundamental_div_mod(at, sector);
    vstd::arithmetic::div_mod::lemma_fundamental_div_mod(len, sector);
    vstd::arithmetic::div_mod::lemma_fundamental_div_mod(at - len, sector);
    let p = at / sector;
    let q = len / sector;
    assert(at == p * sector && len == q * sector && at - len == (p - q) * sector && at + len == (p
        + q) * sector) by (nonlinear_arith)
        requires
            at == sector * p,
            len == sector * q,
    ;
    vstd::arithmetic::div_mod::lemma_mod_multiples_basic(p - q, sector);
    vstd::arithmetic::div_mod::lemma_mod_multiples_basic(p + q, sector);
    let r = (at - len) / sector;
    assert(r * sector == at - len) by (nonlinear_arith)
        requires
            at - len == sector * r,
    ;
}

/// Searches the space no partition covers for the table's magic.
///
/// The magic alone proves nothing - four bytes come up by chance - so every hit
/// is parsed, and one that does not parse is passed over rather than reported.
/// `budget` caps the bytes read, those that try a hit among them; `None` lifts
/// the cap. A hit that costs more than is left is tried on the sectors at hand,
/// and where it runs past those the search ends, so a budget never makes a copy
/// further off answer. A full pass over a large card is bounded by read
/// throughput, not by this loop, which is why the cap exists.
#[verifier::loop_isolation(false)]
pub fn scan<S: Sectors>(src: &mut S, gaps: &[Gap], budget: Option<u64>) -> (result: Result<Found>)
    ensures
        (found_outcome(result), final(src).medium()) == searched::<S>(
            old(src).medium(),
            gaps@,
            budget,
        ),
        S::sector_bytes(final(src).medium()) == S::sector_bytes(old(src).medium()),
        S::size_bytes(final(src).medium()) == S::size_bytes(old(src).medium()),
{
    let sector: u32 = src.sector_size();
    if sector == 0 {
        return Err(Error::Pit("the device reports a zero sector size".to_owned()));
    }
    let mut may = Allowance { left: budget, spent: false, read: 0 };
    let ghost first = Search { medium: src.medium(), may };
    let mut g: usize = 0;
    while g < gaps.len()
        invariant
            g <= gaps@.len(),
            gaps_from::<S>(
                Search { medium: src.medium(), may },
                gaps@,
                sector,
                g as int,
            ) == gaps_from::<S>(first, gaps@, sector, 0),
            S::sector_bytes(src.medium()) == S::sector_bytes(old(src).medium()),
            S::size_bytes(src.medium()) == S::size_bytes(old(src).medium()),
        decreases gaps@.len() - g,
    {
        let gap = &gaps[g];
        proof {
            whole_sectors_below(gap.end as int, sector as int);
            transfer::rounding_up_finds_the_least_multiple(gap.start as int, sector as int);
        }
        let end: u64 = gap.end - gap.end % (sector as u64);
        // A start that cannot be rounded up lies past every whole sector.
        if let Some(start) = transfer::checked_align(gap.start, sector) {
            if end > start {
                match scan_gap(src, start, end, gap.reverse, sector, &mut may) {
                    Ok(Some(found)) => {
                        return Ok(found);
                    },
                    Ok(None) => {},
                    Err(err) => {
                        return Err(err);
                    },
                }
            }
        }
        g += 1;
    }

    let mut looked: Vec<String> = Vec::new();
    let mut i: usize = 0;
    while i < gaps.len()
        invariant
            i <= gaps@.len(),
            text::views(looked@) == spans(gaps@).take(i as int),
        decreases gaps@.len() - i,
    {
        let ghost before = looked@;
        let mut range = text::decimal(gaps[i].start);
        range.append("..");
        text::push_dec(&mut range, gaps[i].end);
        looked.push(range);
        assert(text::views(looked@) =~= text::views(before).push(spans(gaps@)[i as int]));
        assert(spans(gaps@).take(i + 1) =~= spans(gaps@).take(i as int).push(
            spans(gaps@)[i as int],
        ));
        i += 1;
    }
    assert(spans(gaps@).take(i as int) =~= spans(gaps@));
    let mut message = "no PIT found in ".to_owned();
    text::push_dec(&mut message, may.read);
    message.append(" bytes of the space no partition covers (");
    message.append(text::join(&looked, ", ").as_str());
    message.append(
        "); pass --pit-offset if the table is elsewhere, or --pit-scan to search further",
    );
    Err(Error::Pit(message))
}

} // verus!
