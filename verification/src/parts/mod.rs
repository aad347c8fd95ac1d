//! Read-only interpretation of the partition tables an SD card really carries.
//!
//! MBR and GPT both sit at a fixed LBA and both carry a signature, so which of
//! them is present can be detected. The PIT cannot be - its location is an
//! argument, not a constant - so it stays in [`crate::pit`] and is never what
//! detection lands on.
//!
//! Nothing here writes, and every parse failure aborts before a range is used.

use vstd::prelude::*;
use vstd::slice::*;
use vstd::string::*;

use crate::device::RawDevice;
use crate::error;
use crate::error::{Error, ErrorView, Result, Stage};
use crate::text;
use crate::trace::{StepView, Trace};
use crate::transfer;

pub mod crc32;
pub mod gaps;
pub mod gpt;
pub mod gpt_layout;
pub mod laws;
pub mod layout;
pub mod mbr;
pub mod signatures;

verus! {

/// The two schemes that can be detected. `pit` is a scheme on the command line
/// but not here: it is chosen, never found.
#[derive(Debug, Clone, Copy, PartialEq, Eq, Structural)]
pub enum Scheme {
    Mbr,
    Gpt,
}

impl Scheme {
    pub open spec fn name(self) -> Seq<char> {
        match self {
            Scheme::Mbr => "mbr"@,
            Scheme::Gpt => "gpt"@,
        }
    }

    pub fn as_str(self) -> (name: &'static str)
        ensures
            name@ == self.name(),
    {
        match self {
            Scheme::Mbr => "mbr",
            Scheme::Gpt => "gpt",
        }
    }
}

/// One entry, in bytes. The scheme's own units are resolved during the parse so
/// nothing above this layer has to know a sector size.
#[derive(Debug, Clone, PartialEq, Eq)]
pub struct Partition {
    /// 1-based. MBR numbers primaries 1-4 and logicals from 5, as Linux does.
    pub index: u32,
    /// GPT only - an MBR entry has no name field.
    pub name: Option<String>,
    /// Spelled as the table spells it: a hex byte for MBR, the type GUID for
    /// GPT. No name table, so nothing here can go out of date.
    pub kind: String,
    pub start: u64,
    pub length: u64,
}

/// A [`Partition`] by what it says.
#[verifier::ext_equal]
pub struct PartitionView {
    pub index: u32,
    pub name: Option<Seq<char>>,
    pub kind: Seq<char>,
    pub start: u64,
    pub length: u64,
}

impl View for Partition {
    type V = PartitionView;

    open spec fn view(&self) -> PartitionView {
        PartitionView {
            index: self.index,
            name: match self.name {
                Some(name) => Some(name@),
                None => None,
            },
            kind: self.kind@,
            start: self.start,
            length: self.length,
        }
    }
}

impl PartitionView {
    /// One past the last byte, or the end of the address space.
    pub open spec fn end(self) -> u64 {
        if self.start + self.length > u64::MAX {
            u64::MAX
        } else {
            (self.start + self.length) as u64
        }
    }
}

impl Partition {
    /// One past the last byte, saturating: a table claiming the end of the
    /// address space is a table to report, not to panic on.
    pub fn end(&self) -> (end: u64)
        ensures
            end == self@.end(),
    {
        self.start.saturating_add(self.length)
    }
}

/// The entries by what they say.
pub open spec fn partition_views(partitions: Seq<Partition>) -> Seq<PartitionView> {
    Seq::new(partitions.len(), |i: int| partitions[i]@)
}

#[derive(Debug, Clone, PartialEq, Eq)]
pub struct Table {
    pub scheme: Scheme,
    /// Which copy of the table the entries came from, printed so a fallback to
    /// the backup GPT is never silent.
    pub source: String,
    pub partitions: Vec<Partition>,
}

/// A [`Table`] by what it says.
#[verifier::ext_equal]
pub struct TableView {
    pub scheme: Scheme,
    pub source: Seq<char>,
    pub partitions: Seq<PartitionView>,
}

impl View for Table {
    type V = TableView;

    open spec fn view(&self) -> TableView {
        TableView {
            scheme: self.scheme,
            source: self.source@,
            partitions: partition_views(self.partitions@),
        }
    }
}

/// A table or what its absence says.
pub open spec fn table_outcome(result: Result<Table>) -> core::result::Result<
    TableView,
    ErrorView,
> {
    match result {
        Ok(table) => Ok(table@),
        Err(err) => Err(err@),
    }
}

impl TableView {
    /// Each entry's name, or its number where it has none.
    pub open spec fn labels(self) -> Seq<Seq<char>> {
        Seq::new(
            self.partitions.len(),
            |i: int|
                match self.partitions[i].name {
                    Some(name) => name,
                    None => "#"@ + text::dec(self.partitions[i].index as nat),
                },
        )
    }

    /// Each entry's number.
    pub open spec fn numbers(self) -> Seq<Seq<char>> {
        Seq::new(
            self.partitions.len(),
            |i: int| text::dec(self.partitions[i].index as nat),
        )
    }

    /// Why no entry is called `name`.
    pub open spec fn no_such_name(self, name: Seq<char>) -> ErrorView {
        ErrorView::Parts(
            "no "@ + self.scheme.name() + " partition named "@ + text::quoted(name)
                + "; the table has: "@ + text::joined(self.labels(), ", "@),
        )
    }

    /// Why no entry is numbered `index`.
    pub open spec fn no_such_index(self, index: u32) -> ErrorView {
        ErrorView::Parts(
            "no "@ + self.scheme.name() + " partition with index "@ + text::dec(index as nat)
                + "; the table has: "@ + text::joined(self.numbers(), ", "@),
        )
    }

    /// True when entry `i` answers to `name`.
    pub open spec fn named(self, i: int, name: Seq<char>) -> bool {
        self.partitions[i].name matches Some(own) && text::same_ignoring_case(own, name)
    }

    /// The first entry from `i` on that answers to `name`.
    pub open spec fn first_named(self, name: Seq<char>, i: int) -> Option<int>
        decreases self.partitions.len() - i,
    {
        if i >= self.partitions.len() {
            None
        } else if self.named(i, name) {
            Some(i)
        } else {
            self.first_named(name, i + 1)
        }
    }

    /// The first entry from `i` on that is numbered `index`.
    pub open spec fn first_numbered(self, index: u32, i: int) -> Option<int>
        decreases self.partitions.len() - i,
    {
        if i >= self.partitions.len() {
            None
        } else if self.partitions[i].index == index {
            Some(i)
        } else {
            self.first_numbered(index, i + 1)
        }
    }

    /// The entry a lookup by name gives.
    pub open spec fn by_name(self, name: Seq<char>) -> core::result::Result<
        PartitionView,
        ErrorView,
    > {
        if self.scheme is Mbr {
            Err(
                ErrorView::Parts(
                    "MBR partitions have no names; select one with --partition-id N"@,
                ),
            )
        } else {
            match self.first_named(name, 0) {
                Some(i) => Ok(self.partitions[i]),
                None => Err(self.no_such_name(name)),
            }
        }
    }

    /// The entry a lookup by number gives.
    pub open spec fn by_index(self, index: u32) -> core::result::Result<
        PartitionView,
        ErrorView,
    > {
        match self.first_numbered(index, 0) {
            Some(i) => Ok(self.partitions[i]),
            None => Err(self.no_such_index(index)),
        }
    }
}

/// An entry or why there is none, by what it says.
pub open spec fn lookup(result: Result<&Partition>) -> core::result::Result<
    PartitionView,
    ErrorView,
> {
    match result {
        Ok(found) => Ok(found@),
        Err(err) => Err(err@),
    }
}

/// A lookup by name gives the first entry that answers to it, letter case
/// aside, and fails only where no entry does.
pub proof fn a_name_finds_the_first_that_answers(table: TableView, name: Seq<char>, i: int)
    requires
        0 <= i,
    ensures
        match table.first_named(name, i) {
            Some(found) => {
                &&& i <= found < table.partitions.len()
                &&& table.named(found, name)
                &&& forall|j: int| i <= j < found ==> !#[trigger] table.named(j, name)
            },
            None => forall|j: int|
                i <= j < table.partitions.len() ==> !#[trigger] table.named(j, name),
        },
    decreases table.partitions.len() - i,
{
    if i < table.partitions.len() && !table.named(i, name) {
        a_name_finds_the_first_that_answers(table, name, i + 1);
    }
}

/// A lookup by number gives the first entry that carries it, and fails only
/// where none does.
pub proof fn a_number_finds_the_first_that_carries_it(table: TableView, index: u32, i: int)
    requires
        0 <= i,
    ensures
        match table.first_numbered(index, i) {
            Some(found) => {
                &&& i <= found < table.partitions.len()
                &&& table.partitions[found].index == index
                &&& forall|j: int|
                    i <= j < found ==> (#[trigger] table.partitions[j]).index != index
            },
            None => forall|j: int|
                i <= j < table.partitions.len() ==> (#[trigger] table.partitions[j]).index
                    != index,
        },
    decreases table.partitions.len() - i,
{
    if i < table.partitions.len() && table.partitions[i].index != index {
        a_number_finds_the_first_that_carries_it(table, index, i + 1);
    }
}

impl Table {
    /// Only GPT entries have names, so a miss says which it is: an MBR lookup
    /// by name is a wrong selector, not a missing partition.
    pub fn find(&self, name: &str) -> (result: Result<&Partition>)
        ensures
            lookup(result) == self@.by_name(name@),
    {
        if self.scheme == Scheme::Mbr {
            return Err(
                Error::Parts(
                    "MBR partitions have no names; select one with --partition-id N".to_owned(),
                ),
            );
        }
        let mut labels: Vec<String> = Vec::new();
        let mut i: usize = 0;
        while i < self.partitions.len()
            invariant
                i <= self.partitions@.len(),
                text::views(labels@) == self@.labels().take(i as int),
                self@.first_named(name@, i as int) == self@.first_named(name@, 0),
                self.scheme is Gpt,
            decreases self.partitions@.len() - i,
        {
            let part = &self.partitions[i];
            let ghost before = labels@;
            match &part.name {
                Some(own) => {
                    if text::eq_ignore_case(own.as_str(), name) {
                        assert(self@.named(i as int, name@));
                        return Ok(part);
                    }
                    labels.push(own.clone());
                },
                None => {
                    let mut label = "#".to_owned();
                    text::push_dec(&mut label, part.index as u64);
                    labels.push(label);
                },
            }
            assert(!self@.named(i as int, name@));
            assert(text::views(labels@) =~= text::views(before).push(self@.labels()[i as int]));
            assert(self@.labels().take(i + 1) =~= self@.labels().take(i as int).push(
                self@.labels()[i as int],
            ));
            i += 1;
        }
        assert(self@.labels().take(i as int) =~= self@.labels());
        let mut message = "no ".to_owned();
        message.append(self.scheme.as_str());
        message.append(" partition named ");
        message.append(text::quote(name).as_str());
        message.append("; the table has: ");
        message.append(text::join(&labels, ", ").as_str());
        Err(Error::Parts(message))
    }

    pub fn find_by_index(&self, index: u32) -> (result: Result<&Partition>)
        ensures
            lookup(result) == self@.by_index(index),
    {
        let mut have: Vec<String> = Vec::new();
        let mut i: usize = 0;
        while i < self.partitions.len()
            invariant
                i <= self.partitions@.len(),
                text::views(have@) == self@.numbers().take(i as int),
                self@.first_numbered(index, i as int) == self@.first_numbered(index, 0),
            decreases self.partitions@.len() - i,
        {
            let part = &self.partitions[i];
            let ghost before = have@;
            if part.index == index {
                return Ok(part);
            }
            have.push(text::decimal(part.index as u64));
            assert(text::views(have@) =~= text::views(before).push(self@.numbers()[i as int]));
            assert(self@.numbers().take(i + 1) =~= self@.numbers().take(i as int).push(
                self@.numbers()[i as int],
            ));
            i += 1;
        }
        assert(self@.numbers().take(i as int) =~= self@.numbers());
        let mut message = "no ".to_owned();
        message.append(self.scheme.as_str());
        message.append(" partition with index ");
        text::push_dec(&mut message, index as u64);
        message.append("; the table has: ");
        message.append(text::join(&have, ", ").as_str());
        Err(Error::Parts(message))
    }
}

/// A stretch of the device no partition covers. A table that is not itself a
/// partition has to be sitting in one of these.
#[derive(Debug, Clone, Copy, PartialEq, Eq, Structural)]
pub struct Gap {
    pub start: u64,
    pub end: u64,
    /// Searched from `end` downwards. A table tucked into the space in front of
    /// the first partition is tucked against that partition, not against LBA 0,
    /// so searching backwards finds it in the first block read.
    pub reverse: bool,
}

impl Gap {
    /// How many bytes the gap spans.
    pub open spec fn width(self) -> u64 {
        if self.end < self.start {
            0
        } else {
            (self.end - self.start) as u64
        }
    }

    pub fn len(&self) -> (len: u64)
        ensures
            len == self.width(),
    {
        self.end.saturating_sub(self.start)
    }

    pub fn is_empty(&self) -> (empty: bool)
        ensures
            empty == (self.width() == 0),
    {
        self.len() == 0
    }
}

impl Table {
    /// Everything the partitions leave over, in device order, with the space in
    /// front of the first partition marked to be searched backwards.
    ///
    /// The tail is only reported when the device size is known; without it
    /// there is nothing to bound the last gap with.
    pub fn gaps(&self, device_size: Option<u64>) -> (gaps: Vec<Gap>)
        ensures
            gaps::left_over(gaps@, self@.partitions, device_size),
            gaps@ == gaps::space_between(self@.partitions, device_size),
    {
        gaps::between(&self.partitions, device_size)
    }
}

/// Sector-addressed reads. The parsers take this rather than a device so an
/// image in a test drives exactly the code a card does, and because whole
/// sectors are the only thing a physical-disk handle on Windows will serve.
///
/// `Medium` holds whatever the next read depends on; `serve` gives a read's
/// answer and the medium that follows. A read that succeeds gives every byte it
/// was asked for, a run of no sectors is refused, and the geometry stays what
/// it was.
///
/// The model has a default nothing is known of, so that an implementation
/// written in plain Rust can leave it out.
pub trait Sectors: Sized {
    type Medium;

    open spec fn medium(&self) -> Self::Medium {
        arbitrary()
    }

    open spec fn sector_bytes(medium: Self::Medium) -> u32 {
        arbitrary()
    }

    open spec fn size_bytes(medium: Self::Medium) -> Option<u64> {
        arbitrary()
    }

    open spec fn serve(medium: Self::Medium, lba: u64, count: u64) -> (
        core::result::Result<Seq<u8>, ErrorView>,
        Self::Medium,
    ) {
        arbitrary()
    }

    fn sector_size(&self) -> (sector: u32)
        ensures
            sector == Self::sector_bytes(self.medium()),
    ;

    /// Absent when the platform would not say, which is what makes the backup
    /// GPT unreachable without a primary header to point at it.
    fn device_size(&self) -> (size: Option<u64>)
        ensures
            size == Self::size_bytes(self.medium()),
    ;

    fn read(&mut self, lba: u64, count: u64) -> (result: Result<Vec<u8>>)
        ensures
            (error::bytes_outcome(result), final(self).medium()) == Self::serve(
                old(self).medium(),
                lba,
                count,
            ),
            result matches Ok(bytes) ==> bytes@.len() == count * Self::sector_bytes(
                old(self).medium(),
            ),
            result is Ok ==> count > 0,
            Self::sector_bytes(final(self).medium()) == Self::sector_bytes(old(self).medium()),
            Self::size_bytes(final(self).medium()) == Self::size_bytes(old(self).medium()),
    ;
}

/// Reads no larger than this are ever asked for; a table claiming more is
/// rejected before it sizes an allocation or a device read.
pub const MAX_READ_BYTES: u64 = 4_194_304;

/// Byte offset and length of a sector run, or why it is not one.
pub open spec fn spanned(sector_size: u32, lba: u64, count: u64) -> core::result::Result<
    (u64, u64),
    ErrorView,
> {
    let len = count * sector_size;
    if len <= 0 || len > MAX_READ_BYTES {
        Err(ErrorView::Parts(text::dec(count as nat) + " sectors is not a readable run"@))
    } else if lba * sector_size > u64::MAX {
        Err(ErrorView::Parts("LBA "@ + text::dec(lba as nat) + " overflows a byte offset"@))
    } else {
        Ok(((lba * sector_size) as u64, len as u64))
    }
}

/// Byte offset and length of a sector run, refusing anything that would size an
/// allocation from an unvalidated field.
fn span(sector_size: u32, lba: u64, count: u64) -> (result: Result<(u64, usize)>)
    ensures
        match result {
            Ok((offset, len)) => spanned(sector_size, lba, count) == Ok::<(u64, u64), ErrorView>(
                (offset, len as u64),
            ) && len == count * sector_size,
            Err(err) => spanned(sector_size, lba, count) == Err::<(u64, u64), ErrorView>(err@),
        },
{
    let sector: u64 = sector_size as u64;
    let len: u64 = match count.checked_mul(sector) {
        Some(len) => len,
        None => 0,
    };
    if len == 0 || len > MAX_READ_BYTES {
        let mut message = text::decimal(count);
        message.append(" sectors is not a readable run");
        return Err(Error::Parts(message));
    }
    match lba.checked_mul(sector) {
        Some(offset) => Ok((offset, len as usize)),
        None => {
            let mut message = "LBA ".to_owned();
            text::push_dec(&mut message, lba);
            message.append(" overflows a byte offset");
            Err(Error::Parts(message))
        },
    }
}

/// Sector reads against a real device, with each one on the trace.
pub struct DeviceSectors<D> {
    pub device: D,
    pub trace: Trace,
}

/// A device and the record of what was read from it.
#[verifier::ext_equal]
pub struct Recorded<M> {
    pub device: M,
    pub trace: Seq<StepView>,
}

impl<D: RawDevice> DeviceSectors<D> {
    pub fn new(device: D, trace: Trace) -> (sectors: Self)
        ensures
            sectors.device == device,
            sectors.trace == trace,
    {
        DeviceSectors { device, trace }
    }
}

/// How a sector read is recorded.
pub open spec fn sector_read(count: u64, lba: u64) -> Seq<char> {
    "read "@ + text::dec(count as nat) + " sector(s) at LBA "@ + text::dec(lba as nat)
}

impl<D: RawDevice> Sectors for DeviceSectors<D> {
    type Medium = Recorded<D::State>;

    open spec fn medium(&self) -> Recorded<D::State> {
        Recorded { device: self.device.state(), trace: self.trace@ }
    }

    open spec fn sector_bytes(medium: Recorded<D::State>) -> u32 {
        D::described(medium.device).logical_sector_size
    }

    open spec fn size_bytes(medium: Recorded<D::State>) -> Option<u64> {
        D::described(medium.device).size_bytes
    }

    open spec fn serve(medium: Recorded<D::State>, lba: u64, count: u64) -> (
        core::result::Result<Seq<u8>, ErrorView>,
        Recorded<D::State>,
    ) {
        match spanned(Self::sector_bytes(medium), lba, count) {
            Err(err) => (Err(err), medium),
            Ok((offset, len)) => {
                let (read, bytes, device) = D::read_step(
                    medium.device,
                    offset,
                    transfer::zeros(len as int),
                );
                match read {
                    Ok(_) => (
                        Ok(bytes),
                        Recorded {
                            device,
                            trace: medium.trace.push(
                                StepView::ok(Stage::ParseParts, sector_read(count, lba), "ok"@),
                            ),
                        },
                    ),
                    Err(err) => (
                        Err(ErrorView::Device(err)),
                        Recorded {
                            device,
                            trace: medium.trace.push(
                                StepView::failed(sector_read(count, lba), err),
                            ),
                        },
                    ),
                }
            },
        }
    }

    fn sector_size(&self) -> (sector: u32) {
        self.device.info().logical_sector_size
    }

    fn device_size(&self) -> (size: Option<u64>) {
        self.device.info().size_bytes
    }

    fn read(&mut self, lba: u64, count: u64) -> (result: Result<Vec<u8>>) {
        let (offset, len) = match span(self.sector_size(), lba, count) {
            Ok(run) => run,
            Err(err) => {
                return Err(err);
            },
        };
        let mut buf: Vec<u8> = vec![0u8; len];
        assert(buf@ =~= transfer::zeros(len as int));
        let mut detail = "read ".to_owned();
        text::push_dec(&mut detail, count);
        detail.append(" sector(s) at LBA ");
        text::push_dec(&mut detail, lba);
        match self.device.read_at(offset, buf.as_mut_slice()) {
            Ok(_) => {
                self.trace.ok(Stage::ParseParts, detail.as_str(), "ok");
                Ok(buf)
            },
            Err(err) => {
                self.trace.failed(detail.as_str(), &err);
                Err(Error::Device(err))
            },
        }
    }
}

/// An image in memory, for tests and for anything that already holds the bytes.
pub struct ImageSectors {
    data: Vec<u8>,
    sector_size: u32,
}

/// The bytes of an image and the size of its sectors.
#[verifier::ext_equal]
pub struct ImageView {
    pub data: Seq<u8>,
    pub sector_size: u32,
}

impl View for ImageSectors {
    type V = ImageView;

    closed spec fn view(&self) -> ImageView {
        ImageView { data: self.data@, sector_size: self.sector_size }
    }
}

impl ImageSectors {
    pub fn new(data: Vec<u8>, sector_size: u32) -> (image: ImageSectors)
        ensures
            image@ == (ImageView { data: data@, sector_size }),
    {
        ImageSectors { data, sector_size }
    }

    pub fn data_mut(&mut self) -> (data: &mut [u8])
        ensures
            data@ == old(self)@.data,
            final(self)@ == (ImageView { data: final(data)@, ..old(self)@ }),
    {
        self.data.as_mut_slice()
    }
}

impl Sectors for ImageSectors {
    type Medium = ImageView;

    open spec fn medium(&self) -> ImageView {
        self@
    }

    open spec fn sector_bytes(medium: ImageView) -> u32 {
        medium.sector_size
    }

    open spec fn size_bytes(medium: ImageView) -> Option<u64> {
        Some(medium.data.len() as u64)
    }

    open spec fn serve(medium: ImageView, lba: u64, count: u64) -> (
        core::result::Result<Seq<u8>, ErrorView>,
        ImageView,
    ) {
        match spanned(medium.sector_size, lba, count) {
            Err(err) => (Err(err), medium),
            Ok((offset, len)) => if offset + len <= medium.data.len() {
                (Ok(medium.data.subrange(offset as int, offset + len)), medium)
            } else {
                (
                    Err(
                        ErrorView::Parts(
                            "LBA "@ + text::dec(lba as nat) + "+"@ + text::dec(count as nat)
                                + " is past the end of the image"@,
                        ),
                    ),
                    medium,
                )
            },
        }
    }

    fn sector_size(&self) -> (sector: u32) {
        self.sector_size
    }

    fn device_size(&self) -> (size: Option<u64>) {
        Some(self.data.len() as u64)
    }

    fn read(&mut self, lba: u64, count: u64) -> (result: Result<Vec<u8>>) {
        let (offset, len) = match span(self.sector_size, lba, count) {
            Ok(run) => run,
            Err(err) => {
                return Err(err);
            },
        };
        let size: usize = self.data.len();
        if len > size || offset > (size - len) as u64 {
            let mut message = "LBA ".to_owned();
            text::push_dec(&mut message, lba);
            message.append("+");
            text::push_dec(&mut message, count);
            message.append(" is past the end of the image");
            return Err(Error::Parts(message));
        }
        let start: usize = offset as usize;
        let mut bytes: Vec<u8> = Vec::new();
        bytes.extend_from_slice(slice_subrange(self.data.as_slice(), start, start + len));
        assert(bytes@ =~= self.data@.subrange(offset as int, offset + len));
        Ok(bytes)
    }
}

/// What [`detect`] concluded. A table that is ambiguous or damaged is an error
/// from `detect` itself; this only tells a table apart from the absence of one,
/// which is a thing a device is allowed to be.
pub enum Detected {
    Table(Table),
    /// Nothing here can read, and what the caller might try instead.
    Absent { reason: String },
}

/// A [`Detected`] by what it says.
#[verifier::ext_equal]
pub enum DetectedView {
    Table(TableView),
    Absent { reason: Seq<char> },
}

impl View for Detected {
    type V = DetectedView;

    open spec fn view(&self) -> DetectedView {
        match *self {
            Detected::Table(table) => DetectedView::Table(table@),
            Detected::Absent { reason } => DetectedView::Absent { reason: reason@ },
        }
    }
}

/// A conclusion or what its failure says.
pub open spec fn detected_outcome(result: Result<Detected>) -> core::result::Result<
    DetectedView,
    ErrorView,
> {
    match result {
        Ok(found) => Ok(found@),
        Err(err) => Err(err@),
    }
}

/// What the signatures on a medium say of the table it carries, with the ways a
/// table can fail to be read kept apart: a search for something that is not a
/// partition has to stop at some of them and not at others.
pub(crate) enum Survey {
    Table(Table),
    Absent { reason: String },
    /// A real MBR and a GPT, with nothing to say which of them counts.
    Hybrid,
    /// The device failed before there was a table to judge.
    Unreadable(Error),
    /// There is a table, and it is not in order.
    Damaged(Error),
}

/// A [`Survey`] by what it says.
#[verifier::ext_equal]
pub enum SurveyView {
    Table(TableView),
    Absent { reason: Seq<char> },
    Hybrid,
    Unreadable(ErrorView),
    Damaged(ErrorView),
}

impl View for Survey {
    type V = SurveyView;

    open(crate) spec fn view(&self) -> SurveyView {
        match *self {
            Survey::Table(table) => SurveyView::Table(table@),
            Survey::Absent { reason } => SurveyView::Absent { reason: reason@ },
            Survey::Hybrid => SurveyView::Hybrid,
            Survey::Unreadable(err) => SurveyView::Unreadable(err@),
            Survey::Damaged(err) => SurveyView::Damaged(err@),
        }
    }
}

/// What a hybrid layout is refused with.
pub open spec fn hybrid() -> ErrorView {
    ErrorView::Parts(
        "LBA 0 holds a real MBR and LBA 1 holds a GPT signature; this hybrid layout is ambiguous, so pass --scheme mbr or --scheme gpt"@,
    )
}

pub(crate) fn hybrid_error() -> (err: Error)
    ensures
        err@ == hybrid(),
{
    Error::Parts(
        "LBA 0 holds a real MBR and LBA 1 holds a GPT signature; this hybrid layout is ambiguous, so pass --scheme mbr or --scheme gpt".to_owned(),
    )
}

/// A read that failed on the device says nothing of the table.
pub open spec fn faulted(err: ErrorView) -> SurveyView {
    if err is Device {
        SurveyView::Unreadable(err)
    } else {
        SurveyView::Damaged(err)
    }
}

fn fault(err: Error) -> (survey: Survey)
    ensures
        survey@ == faulted(err@),
{
    match err {
        Error::Device(err) => Survey::Unreadable(Error::Device(err)),
        other => Survey::Damaged(other),
    }
}

/// A GPT that something else says is there.
pub open spec fn expected(reading: gpt::ReadingView) -> SurveyView {
    match reading.table {
        Ok(table) => SurveyView::Table(table),
        Err(err) => if reading.unread {
            SurveyView::Unreadable(err)
        } else {
            SurveyView::Damaged(err)
        },
    }
}

fn expect(reading: gpt::Reading) -> (survey: Survey)
    ensures
        survey@ == expected(reading@),
{
    match reading.table {
        Ok(table) => Survey::Table(table),
        Err(err) => if reading.unread {
            Survey::Unreadable(err)
        } else {
            Survey::Damaged(err)
        },
    }
}

/// What a medium's signatures prove of the table it carries.
pub open spec fn surveyed<S: Sectors>(medium: S::Medium) -> (SurveyView, S::Medium) {
    let (read, medium) = S::serve(medium, 0, 1);
    match read {
        Err(err) => (SurveyView::Unreadable(err), medium),
        Ok(sector0) => if !mbr::signed(sector0) {
            let (reading, medium) = gpt::reading::<S>(medium);
            match reading.table {
                Err(err) if !reading.claimed => (
                    SurveyView::Absent {
                        reason: "no MBR signature at LBA 0 and no usable GPT ("@ + err.text()
                            + "); pass --scheme pit if this device carries a PIT"@,
                    },
                    medium,
                ),
                _ => (expected(reading), medium),
            }
        } else if mbr::protective(sector0) {
            let (reading, medium) = gpt::reading::<S>(medium);
            (expected(reading), medium)
        } else {
            let (table, medium) = mbr::table::<S>(medium);
            match table {
                Err(err) => (faulted(err), medium),
                Ok(table) => {
                    let (claimed, medium) = gpt::claimed::<S>(medium);
                    match claimed {
                        Err(err) => (faulted(err), medium),
                        Ok(present) => if table.partitions.len() > 0 && present {
                            (SurveyView::Hybrid, medium)
                        } else if table.partitions.len() > 0 {
                            (SurveyView::Table(table), medium)
                        } else if present {
                            let (reading, medium) = gpt::reading::<S>(medium);
                            (expected(reading), medium)
                        } else {
                            (
                                SurveyView::Absent {
                                    reason:
                                        "the MBR at LBA 0 has no partition entries and there is no GPT; pass --scheme mbr to see it anyway, or --scheme pit for a PIT"@,
                                },
                                medium,
                            )
                        },
                    }
                },
            }
        },
    }
}

/// What detection concludes from that.
pub open spec fn concluded(survey: SurveyView) -> core::result::Result<DetectedView, ErrorView> {
    match survey {
        SurveyView::Table(table) => Ok(DetectedView::Table(table)),
        SurveyView::Absent { reason } => Ok(DetectedView::Absent { reason }),
        SurveyView::Hybrid => Err(hybrid()),
        SurveyView::Unreadable(err) => Err(err),
        SurveyView::Damaged(err) => Err(err),
    }
}

/// The table a medium carries, if it carries one that can be read.
pub open spec fn detection<S: Sectors>(medium: S::Medium) -> (
    core::result::Result<DetectedView, ErrorView>,
    S::Medium,
) {
    let (survey, medium) = surveyed::<S>(medium);
    (concluded(survey), medium)
}

/// The table a medium carries under a scheme, or under the one its signatures
/// prove where none was fixed.
pub open spec fn read_table<S: Sectors>(medium: S::Medium, scheme: Option<Scheme>) -> (
    core::result::Result<TableView, ErrorView>,
    S::Medium,
) {
    match scheme {
        Some(Scheme::Mbr) => mbr::table::<S>(medium),
        Some(Scheme::Gpt) => gpt::table::<S>(medium),
        None => {
            let (found, medium) = detection::<S>(medium);
            match found {
                Err(err) => (Err(err), medium),
                Ok(DetectedView::Table(table)) => (Ok(table), medium),
                Ok(DetectedView::Absent { reason }) => (Err(ErrorView::Parts(reason)), medium),
            }
        },
    }
}

/// Reads the table, detecting the scheme when the caller did not fix one.
///
/// Detection only ever concludes what a signature proves. A layout carrying
/// both a real MBR and a GPT is ambiguous, and an ambiguous table resolving
/// silently to a plausible range is the failure that costs a card, so it is
/// refused rather than preferred one way.
#[verifier::rlimit(60)]
pub fn read<S: Sectors>(src: &mut S, scheme: Option<Scheme>) -> (result: Result<Table>)
    ensures
        (table_outcome(result), final(src).medium()) == read_table::<S>(
            old(src).medium(),
            scheme,
        ),
        S::sector_bytes(final(src).medium()) == S::sector_bytes(old(src).medium()),
        S::size_bytes(final(src).medium()) == S::size_bytes(old(src).medium()),
{
    match scheme {
        Some(Scheme::Mbr) => mbr::parse(src),
        Some(Scheme::Gpt) => gpt::parse(src),
        // A range cannot come from a table that is not there, so an absence is
        // an error here even though it is a finding to whoever is only looking.
        None => match detect(src) {
            Ok(Detected::Table(table)) => Ok(table),
            Ok(Detected::Absent { reason }) => Err(Error::Parts(reason)),
            Err(err) => Err(err),
        },
    }
}

/// The table the device carries, if it carries one this can read. A hybrid
/// layout is ambiguous rather than absent, and comes back as an error.
pub fn detect<S: Sectors>(src: &mut S) -> (result: Result<Detected>)
    ensures
        (detected_outcome(result), final(src).medium()) == detection::<S>(old(src).medium()),
        S::sector_bytes(final(src).medium()) == S::sector_bytes(old(src).medium()),
        S::size_bytes(final(src).medium()) == S::size_bytes(old(src).medium()),
{
    match survey(src) {
        Survey::Table(table) => Ok(Detected::Table(table)),
        Survey::Absent { reason } => Ok(Detected::Absent { reason }),
        Survey::Hybrid => Err(hybrid_error()),
        Survey::Unreadable(err) => Err(err),
        Survey::Damaged(err) => Err(err),
    }
}

/// Reads what it takes to tell which table the device carries, and the table.
pub(crate) fn survey<S: Sectors>(src: &mut S) -> (found: Survey)
    ensures
        (found@, final(src).medium()) == surveyed::<S>(old(src).medium()),
        S::sector_bytes(final(src).medium()) == S::sector_bytes(old(src).medium()),
        S::size_bytes(final(src).medium()) == S::size_bytes(old(src).medium()),
{
    let sector0 = match src.read(0, 1) {
        Ok(bytes) => bytes,
        Err(err) => {
            return Survey::Unreadable(err);
        },
    };
    if !mbr::has_signature(sector0.as_slice()) {
        let reading = gpt::examine(src);
        // A GPT that says it is one and cannot be used is damaged, and that is
        // not the same as not being there.
        if !reading.claimed {
            if let Err(err) = &reading.table {
                let mut reason = "no MBR signature at LBA 0 and no usable GPT (".to_owned();
                reason.append(err.to_string().as_str());
                reason.append("); pass --scheme pit if this device carries a PIT");
                return Survey::Absent { reason };
            }
        }
        return expect(reading);
    }
    if mbr::is_protective(sector0.as_slice()) {
        return expect(gpt::examine(src));
    }
    let table = match mbr::parse(src) {
        Ok(table) => table,
        Err(err) => {
            return fault(err);
        },
    };
    let gpt_present = match gpt::signature_present(src) {
        Ok(present) => present,
        Err(err) => {
            return fault(err);
        },
    };
    if table.partitions.len() > 0 {
        if gpt_present {
            return Survey::Hybrid;
        }
        return Survey::Table(table);
    }
    if gpt_present {
        return expect(gpt::examine(src));
    }
    Survey::Absent {
        reason: "the MBR at LBA 0 has no partition entries and there is no GPT; pass --scheme mbr to see it anyway, or --scheme pit for a PIT".to_owned(),
    }
}

} // verus!
