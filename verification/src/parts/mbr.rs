//! MBR, including the EBR chain that logical partitions live on.
//!
//! Sector 0 holds four 16-byte entries at offset 446 and the two-byte `55 AA`
//! signature at 510. An entry is: status (1), CHS first (3), type (1), CHS last
//! (3), first LBA (4, LE), sector count (4, LE). CHS is ignored - every card
//! this tool touches is addressed by LBA.
//!
//! A type of 0x05, 0x0F or 0x85 is an extended container: its first sector is
//! an EBR whose first entry is a logical partition relative to that EBR, and
//! whose second entry, when present, points at the next EBR relative to the
//! container. Logical partitions are numbered from 5, as Linux numbers them.

use vstd::prelude::*;
use vstd::string::*;

use crate::bytes;
use crate::error::{Error, ErrorView, Result};
use crate::parts;
use crate::parts::{Partition, PartitionView, Scheme, Sectors, Table, TableView};
use crate::text;

verus! {

pub const ENTRY_TABLE_AT: usize = 446;

pub const ENTRY_LEN: usize = 16;

pub const ENTRY_COUNT: usize = 4;

pub const SIGNATURE_AT: usize = 510;

pub const SIGNATURE: [u8; 2] = [0x55, 0xAA];

/// GPT's protective entry. Its presence means the real table is the GPT.
pub const TYPE_PROTECTIVE: u8 = 0xEE;

/// A chain longer than this is a loop or a corrupt table, either way not a
/// disk layout worth following further.
pub const MAX_LOGICAL: u32 = 128;

/// The types that mark an extended container.
pub open spec fn is_extended(kind: u8) -> bool {
    kind == 0x05 || kind == 0x0F || kind == 0x85
}

pub open spec fn signed(sector: Seq<u8>) -> bool {
    sector.len() > SIGNATURE_AT + 1 && sector[SIGNATURE_AT as int] == 0x55 && sector[SIGNATURE_AT
        + 1] == 0xAA
}

pub fn has_signature(sector: &[u8]) -> (found: bool)
    ensures
        found == signed(sector@),
{
    sector.len() > SIGNATURE_AT + 1 && sector[SIGNATURE_AT] == SIGNATURE[0] && sector[SIGNATURE_AT
        + 1] == SIGNATURE[1]
}

/// One 16-byte entry as the table holds it.
#[derive(Debug, Clone, Copy)]
pub struct RawEntry {
    pub bootable: bool,
    pub kind: u8,
    pub start_lba: u32,
    pub sectors: u32,
}

/// Entry `index` of a sector, where the sector is long enough to hold it.
pub open spec fn entry_in(sector: Seq<u8>, index: int) -> Option<RawEntry> {
    let at = ENTRY_TABLE_AT + index * ENTRY_LEN;
    if at + ENTRY_LEN <= sector.len() {
        Some(
            RawEntry {
                bootable: sector[at] == 0x80,
                kind: sector[at + 4],
                start_lba: bytes::le32(sector, at + 8),
                sectors: bytes::le32(sector, at + 12),
            },
        )
    } else {
        None
    }
}

fn raw_entry(sector: &[u8], index: usize) -> (entry: Option<RawEntry>)
    requires
        index < ENTRY_COUNT,
    ensures
        entry == entry_in(sector@, index as int),
{
    let at: usize = ENTRY_TABLE_AT + index * ENTRY_LEN;
    if sector.len() < at + ENTRY_LEN {
        return None;
    }
    Some(
        RawEntry {
            bootable: sector[at] == 0x80,
            kind: sector[at + 4],
            start_lba: bytes::u32_at(sector, at + 8),
            sectors: bytes::u32_at(sector, at + 12),
        },
    )
}

/// True when some entry claims the protective type.
pub open spec fn protective(sector: Seq<u8>) -> bool {
    exists|i: int|
        0 <= i < ENTRY_COUNT && #[trigger] entry_in(sector, i) is Some && entry_in(
            sector,
            i,
        )->0.kind == TYPE_PROTECTIVE
}

/// True when any entry claims the protective type, which is how a GPT says the
/// MBR in front of it is not a table to read.
pub fn is_protective(sector: &[u8]) -> (found: bool)
    ensures
        found == protective(sector@),
{
    let mut i: usize = 0;
    while i < ENTRY_COUNT
        invariant
            i <= ENTRY_COUNT,
            forall|j: int|
                0 <= j < i && #[trigger] entry_in(sector@, j) is Some ==> entry_in(
                    sector@,
                    j,
                )->0.kind != TYPE_PROTECTIVE,
        decreases ENTRY_COUNT - i,
    {
        if let Some(entry) = raw_entry(sector, i) {
            if entry.kind == TYPE_PROTECTIVE {
                assert(entry_in(sector@, i as int) is Some);
                return true;
            }
        }
        i += 1;
    }
    false
}

impl RawEntry {
    pub open spec fn unused(self) -> bool {
        self.kind == 0 || self.sectors == 0
    }

    fn is_empty(&self) -> (empty: bool)
        ensures
            empty == self.unused(),
    {
        self.kind == 0 || self.sectors == 0
    }

    /// The type as the table spells it.
    pub open spec fn kind_text(self) -> Seq<char> {
        let kind = "0x"@ + text::hex_padded(self.kind as nat, 2);
        if self.bootable {
            kind + " boot"@
        } else {
            kind
        }
    }

    /// The partition an entry describes once its first LBA is known, in bytes.
    pub open spec fn partition(self, index: u32, start_lba: u64, sector: u32) -> core::result::Result<
        PartitionView,
        ErrorView,
    > {
        if start_lba * sector > u64::MAX {
            Err(
                ErrorView::Parts(
                    "partition "@ + text::dec(index as nat) + " starts past 2^64 bytes"@,
                ),
            )
        } else {
            Ok(
                PartitionView {
                    index,
                    name: None,
                    kind: self.kind_text(),
                    start: (start_lba * sector) as u64,
                    length: (self.sectors * sector) as u64,
                },
            )
        }
    }

    fn to_partition(self, index: u32, sector: u32) -> (result: Result<Partition>)
        ensures
            match result {
                Ok(partition) => self.partition(index, self.start_lba as u64, sector) == Ok::<
                    PartitionView,
                    ErrorView,
                >(partition@),
                Err(err) => self.partition(index, self.start_lba as u64, sector) == Err::<
                    PartitionView,
                    ErrorView,
                >(err@),
            },
    {
        self.to_partition_at(index, self.start_lba as u64, sector)
    }

    fn to_partition_at(self, index: u32, start_lba: u64, sector: u32) -> (result: Result<Partition>)
        ensures
            match result {
                Ok(partition) => self.partition(index, start_lba, sector) == Ok::<
                    PartitionView,
                    ErrorView,
                >(partition@),
                Err(err) => self.partition(index, start_lba, sector) == Err::<
                    PartitionView,
                    ErrorView,
                >(err@),
            },
    {
        let start: u64 = match start_lba.checked_mul(sector as u64) {
            Some(start) => start,
            None => {
                let mut message = "partition ".to_owned();
                text::push_dec(&mut message, index as u64);
                message.append(" starts past 2^64 bytes");
                return Err(Error::Parts(message));
            },
        };
        assert(self.sectors * sector <= u64::MAX) by (nonlinear_arith)
            requires
                self.sectors <= 0xFFFF_FFFF,
                sector <= 0xFFFF_FFFF,
        ;
        let length: u64 = self.sectors as u64 * sector as u64;
        let mut kind = "0x".to_owned();
        text::push_hex(&mut kind, self.kind as u64, 2);
        if self.bootable {
            kind.append(" boot");
        }
        Ok(Partition { index, name: None, kind, start, length })
    }
}

/// The primary entries from `index` on, after those in `found`. At most one of
/// them may be an extended container; it is kept beside the partitions.
pub open spec fn primaries(
    sector0: Seq<u8>,
    sector: u32,
    index: int,
    found: Seq<PartitionView>,
    extended: Option<RawEntry>,
) -> core::result::Result<(Seq<PartitionView>, Option<RawEntry>), ErrorView>
    decreases ENTRY_COUNT - index,
{
    if index >= ENTRY_COUNT {
        Ok((found, extended))
    } else {
        match entry_in(sector0, index) {
            None => Err(
                ErrorView::Parts("entry "@ + text::dec(index as nat) + " is truncated"@),
            ),
            Some(entry) => if entry.unused() {
                primaries(sector0, sector, index + 1, found, extended)
            } else if is_extended(entry.kind) && extended is Some {
                Err(ErrorView::Parts("the MBR declares more than one extended partition"@))
            } else {
                let extended = if is_extended(entry.kind) {
                    Some(entry)
                } else {
                    extended
                };
                match entry.partition((index + 1) as u32, entry.start_lba as u64, sector) {
                    Err(err) => Err(err),
                    Ok(partition) => primaries(
                        sector0,
                        sector,
                        index + 1,
                        found.push(partition),
                        extended,
                    ),
                }
            },
        }
    }
}

/// The logical partitions from the EBR at `ebr_lba` on, the next of which is
/// number `index`, after those in `found`.
pub open spec fn chain<S: Sectors>(
    medium: S::Medium,
    base: u64,
    limit: u64,
    sector: u32,
    ebr_lba: u64,
    index: u32,
    found: Seq<PartitionView>,
) -> (core::result::Result<Seq<PartitionView>, ErrorView>, S::Medium)
    decreases 5 + MAX_LOGICAL - index,
{
    if index > 4 + MAX_LOGICAL {
        (
            Err(
                ErrorView::Parts(
                    "the EBR chain is longer than "@ + text::dec(MAX_LOGICAL as nat)
                        + " entries; it is looping or corrupt"@,
                ),
            ),
            medium,
        )
    } else if ebr_lba < base || ebr_lba >= limit {
        (
            Err(
                ErrorView::Parts(
                    "an EBR at LBA "@ + text::dec(ebr_lba as nat)
                        + " is outside the extended partition "@ + text::dec(base as nat) + ".."@
                        + text::dec(limit as nat),
                ),
            ),
            medium,
        )
    } else {
        let (read, medium) = S::serve(medium, ebr_lba, 1);
        match read {
            Err(err) => (Err(err), medium),
            Ok(ebr) => if !signed(ebr) {
                (
                    Err(
                        ErrorView::Parts(
                            "no 55AA signature on the EBR at LBA "@ + text::dec(ebr_lba as nat),
                        ),
                    ),
                    medium,
                )
            } else {
                // A sector that carries the signature is long enough for all
                // four entries.
                let logical = entry_in(ebr, 0)->0;
                let link = entry_in(ebr, 1)->0;
                if logical.unused() {
                    (Ok(found), medium)
                } else {
                    match logical.partition(
                        index,
                        (ebr_lba + logical.start_lba) as u64,
                        sector,
                    ) {
                        Err(err) => (Err(err), medium),
                        Ok(partition) => if link.unused() {
                            (Ok(found.push(partition)), medium)
                        } else {
                            chain::<S>(
                                medium,
                                base,
                                limit,
                                sector,
                                (base + link.start_lba) as u64,
                                (index + 1) as u32,
                                found.push(partition),
                            )
                        },
                    }
                }
            },
        }
    }
}

/// The MBR a medium carries, with the logical partitions of its container.
pub open spec fn table<S: Sectors>(medium: S::Medium) -> (
    core::result::Result<TableView, ErrorView>,
    S::Medium,
) {
    let sector = S::sector_bytes(medium);
    let (read, medium) = S::serve(medium, 0, 1);
    match read {
        Err(err) => (Err(err), medium),
        Ok(sector0) => if !signed(sector0) {
            (
                Err(
                    ErrorView::Parts("no 55AA signature at the end of LBA 0; this is not an MBR"@),
                ),
                medium,
            )
        } else {
            match primaries(sector0, sector, 0, Seq::empty(), None) {
                Err(err) => (Err(err), medium),
                Ok((found, extended)) => {
                    let (all, medium) = match extended {
                        None => (Ok(found), medium),
                        Some(container) => chain::<S>(
                            medium,
                            container.start_lba as u64,
                            (container.start_lba + container.sectors) as u64,
                            sector,
                            container.start_lba as u64,
                            5,
                            found,
                        ),
                    };
                    match all {
                        Err(err) => (Err(err), medium),
                        Ok(partitions) => (
                            Ok(
                                TableView {
                                    scheme: Scheme::Mbr,
                                    source: "MBR at LBA 0"@,
                                    partitions,
                                },
                            ),
                            medium,
                        ),
                    }
                },
            }
        },
    }
}

pub fn parse<S: Sectors>(src: &mut S) -> (result: Result<Table>)
    ensures
        (parts::table_outcome(result), final(src).medium()) == table::<S>(old(src).medium()),
        S::sector_bytes(final(src).medium()) == S::sector_bytes(old(src).medium()),
        S::size_bytes(final(src).medium()) == S::size_bytes(old(src).medium()),
{
    let sector: u32 = src.sector_size();
    let sector0 = match src.read(0, 1) {
        Ok(bytes) => bytes,
        Err(err) => {
            return Err(err);
        },
    };
    if !has_signature(sector0.as_slice()) {
        return Err(
            Error::Parts(
                "no 55AA signature at the end of LBA 0; this is not an MBR".to_owned(),
            ),
        );
    }
    let (mut partitions, extended) = match read_primaries(sector0.as_slice(), sector) {
        Ok(read) => read,
        Err(err) => {
            return Err(err);
        },
    };
    if let Some(container) = extended {
        if let Err(err) = walk_chain(src, container, sector, &mut partitions) {
            return Err(err);
        }
    }
    Ok(Table { scheme: Scheme::Mbr, source: "MBR at LBA 0".to_owned(), partitions })
}

#[verifier::loop_isolation(false)]
fn read_primaries(sector0: &[u8], sector: u32) -> (result: Result<
    (Vec<Partition>, Option<RawEntry>),
>)
    ensures
        match result {
            Ok((partitions, extended)) => primaries(sector0@, sector, 0, Seq::empty(), None)
                == Ok::<(Seq<PartitionView>, Option<RawEntry>), ErrorView>(
                (parts::partition_views(partitions@), extended),
            ),
            Err(err) => primaries(sector0@, sector, 0, Seq::empty(), None) == Err::<
                (Seq<PartitionView>, Option<RawEntry>),
                ErrorView,
            >(err@),
        },
{
    let mut partitions: Vec<Partition> = Vec::new();
    let mut extended: Option<RawEntry> = None;
    let mut index: usize = 0;
    assert(parts::partition_views(partitions@) =~= Seq::empty());
    while index < ENTRY_COUNT
        invariant
            index <= ENTRY_COUNT,
            primaries(
                sector0@,
                sector,
                index as int,
                parts::partition_views(partitions@),
                extended,
            ) == primaries(sector0@, sector, 0, Seq::empty(), None),
        decreases ENTRY_COUNT - index,
    {
        let entry = match raw_entry(sector0, index) {
            Some(entry) => entry,
            None => {
                let mut message = "entry ".to_owned();
                text::push_dec(&mut message, index as u64);
                message.append(" is truncated");
                return Err(Error::Parts(message));
            },
        };
        if !entry.is_empty() {
            if entry.kind == 0x05 || entry.kind == 0x0F || entry.kind == 0x85 {
                if extended.is_some() {
                    return Err(
                        Error::Parts(
                            "the MBR declares more than one extended partition".to_owned(),
                        ),
                    );
                }
                extended = Some(entry);
            }
            let ghost before = partitions@;
            match entry.to_partition(index as u32 + 1, sector) {
                Ok(partition) => {
                    partitions.push(partition);
                    assert(parts::partition_views(partitions@) =~= parts::partition_views(
                        before,
                    ).push(partition@));
                },
                Err(err) => {
                    return Err(err);
                },
            }
        }
        index += 1;
    }
    Ok((partitions, extended))
}

/// Follows the EBR chain. Every hop is bounded by the container, so a table
/// pointing outside it stops the walk instead of wandering the device.
#[verifier::loop_isolation(false)]
fn walk_chain<S: Sectors>(
    src: &mut S,
    container: RawEntry,
    sector: u32,
    partitions: &mut Vec<Partition>,
) -> (result: Result<()>)
    ensures
        ({
            let (walked, medium) = chain::<S>(
                old(src).medium(),
                container.start_lba as u64,
                (container.start_lba + container.sectors) as u64,
                sector,
                container.start_lba as u64,
                5,
                parts::partition_views(old(partitions)@),
            );
            &&& final(src).medium() == medium
            &&& match result {
                Ok(()) => walked == Ok::<Seq<PartitionView>, ErrorView>(
                    parts::partition_views(final(partitions)@),
                ),
                Err(err) => walked == Err::<Seq<PartitionView>, ErrorView>(err@),
            }
        }),
        S::sector_bytes(final(src).medium()) == S::sector_bytes(old(src).medium()),
        S::size_bytes(final(src).medium()) == S::size_bytes(old(src).medium()),
{
    let base: u64 = container.start_lba as u64;
    let limit: u64 = base + container.sectors as u64;
    let mut ebr_lba: u64 = base;
    let mut index: u32 = 5;
    loop
        invariant
            5 <= index <= 5 + MAX_LOGICAL,
            chain::<S>(
                src.medium(),
                base,
                limit,
                sector,
                ebr_lba,
                index,
                parts::partition_views(partitions@),
            ) == chain::<S>(
                old(src).medium(),
                base,
                limit,
                sector,
                base,
                5,
                parts::partition_views(old(partitions)@),
            ),
            S::sector_bytes(src.medium()) == S::sector_bytes(old(src).medium()),
            S::size_bytes(src.medium()) == S::size_bytes(old(src).medium()),
        decreases 5 + MAX_LOGICAL - index,
    {
        if index > 4 + MAX_LOGICAL {
            let mut message = "the EBR chain is longer than ".to_owned();
            text::push_dec(&mut message, MAX_LOGICAL as u64);
            message.append(" entries; it is looping or corrupt");
            return Err(Error::Parts(message));
        }
        if ebr_lba < base || ebr_lba >= limit {
            let mut message = "an EBR at LBA ".to_owned();
            text::push_dec(&mut message, ebr_lba);
            message.append(" is outside the extended partition ");
            text::push_dec(&mut message, base);
            message.append("..");
            text::push_dec(&mut message, limit);
            return Err(Error::Parts(message));
        }
        let ebr = match src.read(ebr_lba, 1) {
            Ok(bytes) => bytes,
            Err(err) => {
                return Err(err);
            },
        };
        if !has_signature(ebr.as_slice()) {
            let mut message = "no 55AA signature on the EBR at LBA ".to_owned();
            text::push_dec(&mut message, ebr_lba);
            return Err(Error::Parts(message));
        }
        let (logical, link) = match (raw_entry(ebr.as_slice(), 0), raw_entry(ebr.as_slice(), 1)) {
            (Some(logical), Some(link)) => (logical, link),
            _ => {
                assert(false);
                return Ok(());
            },
        };
        if logical.is_empty() {
            return Ok(());
        }
        let start: u64 = ebr_lba + logical.start_lba as u64;
        let ghost before = partitions@;
        match logical.to_partition_at(index, start, sector) {
            Ok(partition) => {
                partitions.push(partition);
                assert(parts::partition_views(partitions@) =~= parts::partition_views(before).push(
                    partition@,
                ));
            },
            Err(err) => {
                return Err(err);
            },
        }
        if link.is_empty() {
            return Ok(());
        }
        index += 1;
        ebr_lba = base + link.start_lba as u64;
    }
}

} // verus!
