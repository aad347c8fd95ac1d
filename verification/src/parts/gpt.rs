//! GPT: a header at LBA 1 and an entry array it points at, both covered by
//! CRC32. The backup header sits at the last LBA and points at its own copy of
//! the array.
//!
//! Header, from offset 0: signature "EFI PART" (8), revision (4), header size
//! (4), header CRC32 (4), reserved (4), this LBA (8), alternate LBA (8), first
//! usable LBA (8), last usable LBA (8), disk GUID (16), entry array LBA (8),
//! entry count (4), entry size (4), entry array CRC32 (4).
//!
//! Entry, from offset 0: type GUID (16), unique GUID (16), first LBA (8), last
//! LBA (8, inclusive), attributes (8), name (72, UTF-16LE, NUL padded).
//!
//! Unlike the PIT, this layout is specified, so a CRC mismatch is a corrupt
//! table rather than a misread one, and it is reported as such.

use vstd::prelude::*;
use vstd::slice::*;
use vstd::string::*;

use crate::bytes;
use crate::error;
use crate::error::{Error, ErrorView, Result};
use crate::parts;
use crate::parts::crc32;
use crate::parts::{Partition, PartitionView, Scheme, Sectors, Table, TableView, MAX_READ_BYTES};
use crate::text;

verus! {

/// "EFI PART".
pub const SIGNATURE: [u8; 8] = [0x45, 0x46, 0x49, 0x20, 0x50, 0x41, 0x52, 0x54];

pub const PRIMARY_LBA: u64 = 1;

pub const MIN_HEADER_LEN: u32 = 92;

pub const MIN_ENTRY_LEN: u32 = 128;

/// True when a sector opens with the signature.
pub open spec fn signed(sector: Seq<u8>) -> bool {
    sector.len() >= 8 && sector.subrange(0, 8) == seq![
        0x45u8,
        0x46u8,
        0x49u8,
        0x20u8,
        0x50u8,
        0x41u8,
        0x52u8,
        0x54u8,
    ]
}

fn has_signature(sector: &[u8]) -> (found: bool)
    ensures
        found == signed(sector@),
{
    if sector.len() < 8 {
        return false;
    }
    let found = sector[0] == SIGNATURE[0] && sector[1] == SIGNATURE[1] && sector[2] == SIGNATURE[2]
        && sector[3] == SIGNATURE[3] && sector[4] == SIGNATURE[4] && sector[5] == SIGNATURE[5]
        && sector[6] == SIGNATURE[6] && sector[7] == SIGNATURE[7];
    proof {
        let name = seq![0x45u8, 0x46u8, 0x49u8, 0x20u8, 0x50u8, 0x41u8, 0x52u8, 0x54u8];
        let head = sector@.subrange(0, 8);
        if found {
            assert(head =~= name);
        }
        if head == name {
            assert(head[0] == name[0] && head[1] == name[1] && head[2] == name[2] && head[3]
                == name[3] && head[4] == name[4] && head[5] == name[5] && head[6] == name[6]
                && head[7] == name[7]);
        }
    }
    found
}

/// Whether LBA 1 claims to be a GPT.
pub open spec fn claimed<S: Sectors>(medium: S::Medium) -> (
    core::result::Result<bool, ErrorView>,
    S::Medium,
) {
    let (read, medium) = S::serve(medium, PRIMARY_LBA, 1);
    match read {
        Err(err) => (Err(err), medium),
        Ok(sector) => (Ok(signed(sector)), medium),
    }
}

/// Cheap probe used by detection: says whether LBA 1 claims to be a GPT,
/// without deciding whether the table behind it parses.
pub fn signature_present<S: Sectors>(src: &mut S) -> (result: Result<bool>)
    ensures
        (error::outcome(result), final(src).medium()) == claimed::<S>(old(src).medium()),
        S::sector_bytes(final(src).medium()) == S::sector_bytes(old(src).medium()),
        S::size_bytes(final(src).medium()) == S::size_bytes(old(src).medium()),
{
    match src.read(PRIMARY_LBA, 1) {
        Ok(sector) => Ok(has_signature(sector.as_slice())),
        Err(err) => Err(err),
    }
}

/// What a header that passed its checks says.
#[derive(Debug, Clone, Copy)]
pub struct Header {
    pub alternate_lba: u64,
    pub entry_lba: u64,
    pub entry_count: u32,
    pub entry_size: u32,
    pub entries_crc: u32,
}

impl Header {
    /// An entry array that may be read.
    pub open spec fn readable(self) -> bool {
        &&& self.entry_size >= MIN_ENTRY_LEN
        &&& self.entry_size % 8 == 0
        &&& self.entry_count > 0
        &&& self.entry_count * self.entry_size <= MAX_READ_BYTES
    }
}

/// The bytes a header's own checksum covers: its first `len`, with the field
/// that holds the checksum cleared.
pub open spec fn checked_bytes(sector: Seq<u8>, len: int) -> Seq<u8> {
    Seq::new(
        len as nat,
        |i: int|
            if 16 <= i < 20 {
                0
            } else {
                sector[i]
            },
    )
}

/// A checksum as a message shows it.
pub open spec fn shown(crc: u32) -> Seq<char> {
    "0x"@ + text::hex_padded(crc as nat, 8)
}

/// The header in a sector read at `lba`, or the first of its checks that fails.
pub open spec fn header_in(sector: Seq<u8>, lba: u64) -> core::result::Result<Header, ErrorView> {
    let header_size = bytes::le32(sector, 12);
    let found = crc32::checksum(checked_bytes(sector, header_size as int));
    let claimed = bytes::le32(sector, 16);
    let my_lba = bytes::le64(sector, 24);
    let header = Header {
        alternate_lba: bytes::le64(sector, 32),
        entry_lba: bytes::le64(sector, 72),
        entry_count: bytes::le32(sector, 80),
        entry_size: bytes::le32(sector, 84),
        entries_crc: bytes::le32(sector, 88),
    };
    if !signed(sector) {
        Err(ErrorView::Parts("no EFI PART signature at LBA "@ + text::dec(lba as nat)))
    } else if sector.len() < 16 {
        Err(
            ErrorView::Parts(
                "a sector of "@ + text::dec(sector.len()) + " bytes at LBA "@ + text::dec(
                    lba as nat,
                ) + " cannot hold a GPT header"@,
            ),
        )
    } else if header_size < MIN_HEADER_LEN || header_size > sector.len() {
        Err(
            ErrorView::Parts(
                "header size "@ + text::dec(header_size as nat) + " at LBA "@ + text::dec(
                    lba as nat,
                ) + " is not within "@ + text::dec(MIN_HEADER_LEN as nat) + "..="@ + text::dec(
                    sector.len(),
                ),
            ),
        )
    } else if found != claimed {
        Err(
            ErrorView::Parts(
                "header CRC32 at LBA "@ + text::dec(lba as nat) + " is "@ + shown(found)
                    + ", the header claims "@ + shown(claimed),
            ),
        )
    } else if my_lba != lba {
        Err(
            ErrorView::Parts(
                "the header read at LBA "@ + text::dec(lba as nat) + " says it lives at LBA "@
                    + text::dec(my_lba as nat),
            ),
        )
    } else if header.entry_size < MIN_ENTRY_LEN || header.entry_size % 8 != 0 {
        Err(
            ErrorView::Parts(
                "entry size "@ + text::dec(header.entry_size as nat)
                    + " is not a multiple of 8 at or above "@ + text::dec(MIN_ENTRY_LEN as nat),
            ),
        )
    } else if header.entry_count == 0 || header.entry_count * header.entry_size > MAX_READ_BYTES {
        Err(
            ErrorView::Parts(
                text::dec(header.entry_count as nat) + " entries of "@ + text::dec(
                    header.entry_size as nat,
                ) + " bytes is not a readable entry array"@,
            ),
        )
    } else {
        Ok(header)
    }
}

/// The header at `lba`.
pub open spec fn header_at<S: Sectors>(medium: S::Medium, lba: u64) -> (
    core::result::Result<Header, ErrorView>,
    S::Medium,
) {
    let (read, medium) = S::serve(medium, lba, 1);
    match read {
        Err(err) => (Err(err), medium),
        Ok(sector) => (header_in(sector, lba), medium),
    }
}

fn push_shown(out: &mut String, crc: u32)
    ensures
        final(out)@ == old(out)@ + shown(crc),
{
    out.append("0x");
    text::push_hex(out, crc as u64, 8);
    assert(out@ =~= old(out)@ + shown(crc));
}

/// Everything a header can be checked for is checked here, before any field of
/// it is allowed to size a read.
fn read_header<S: Sectors>(src: &mut S, lba: u64) -> (result: Result<Header>)
    ensures
        (error::outcome(result), final(src).medium()) == header_at::<S>(old(src).medium(), lba),
        result matches Ok(header) ==> header.readable() && S::sector_bytes(old(src).medium()) > 0,
        S::sector_bytes(final(src).medium()) == S::sector_bytes(old(src).medium()),
        S::size_bytes(final(src).medium()) == S::size_bytes(old(src).medium()),
{
    match src.read(lba, 1) {
        Ok(sector) => check_header(sector.as_slice(), lba),
        Err(err) => Err(err),
    }
}

/// The checks themselves, on the sector read at `lba`.
fn check_header(bytes: &[u8], lba: u64) -> (result: Result<Header>)
    ensures
        error::outcome(result) == header_in(bytes@, lba),
        result matches Ok(header) ==> header.readable() && bytes@.len() > 0,
{
    if !has_signature(bytes) {
        let mut message = "no EFI PART signature at LBA ".to_owned();
        text::push_dec(&mut message, lba);
        return Err(Error::Parts(message));
    }
    if bytes.len() < 16 {
        let mut message = "a sector of ".to_owned();
        text::push_dec(&mut message, bytes.len() as u64);
        message.append(" bytes at LBA ");
        text::push_dec(&mut message, lba);
        message.append(" cannot hold a GPT header");
        return Err(Error::Parts(message));
    }
    let header_size: u32 = bytes::u32_at(bytes, 12);
    if header_size < MIN_HEADER_LEN || header_size as u64 > bytes.len() as u64 {
        let mut message = "header size ".to_owned();
        text::push_dec(&mut message, header_size as u64);
        message.append(" at LBA ");
        text::push_dec(&mut message, lba);
        message.append(" is not within ");
        text::push_dec(&mut message, MIN_HEADER_LEN as u64);
        message.append("..=");
        text::push_dec(&mut message, bytes.len() as u64);
        return Err(Error::Parts(message));
    }
    let len: usize = header_size as usize;
    let mut checked: Vec<u8> = Vec::new();
    checked.extend_from_slice(slice_subrange(bytes, 0, len));
    checked[16] = 0;
    checked[17] = 0;
    checked[18] = 0;
    checked[19] = 0;
    assert(checked@ =~= checked_bytes(bytes@, len as int));
    let expected: u32 = bytes::u32_at(bytes, 16);
    let found: u32 = crc32::crc32(checked.as_slice());
    if found != expected {
        let mut message = "header CRC32 at LBA ".to_owned();
        text::push_dec(&mut message, lba);
        message.append(" is ");
        push_shown(&mut message, found);
        message.append(", the header claims ");
        push_shown(&mut message, expected);
        return Err(Error::Parts(message));
    }
    let my_lba: u64 = bytes::u64_at(bytes, 24);
    if my_lba != lba {
        let mut message = "the header read at LBA ".to_owned();
        text::push_dec(&mut message, lba);
        message.append(" says it lives at LBA ");
        text::push_dec(&mut message, my_lba);
        return Err(Error::Parts(message));
    }
    let entry_size: u32 = bytes::u32_at(bytes, 84);
    if entry_size < MIN_ENTRY_LEN || entry_size % 8 != 0 {
        let mut message = "entry size ".to_owned();
        text::push_dec(&mut message, entry_size as u64);
        message.append(" is not a multiple of 8 at or above ");
        text::push_dec(&mut message, MIN_ENTRY_LEN as u64);
        return Err(Error::Parts(message));
    }
    let entry_count: u32 = bytes::u32_at(bytes, 80);
    assert(entry_count * entry_size <= u64::MAX) by (nonlinear_arith)
        requires
            entry_count <= 0xFFFF_FFFF,
            entry_size <= 0xFFFF_FFFF,
    ;
    let array_bytes: u64 = entry_count as u64 * entry_size as u64;
    if entry_count == 0 || array_bytes > MAX_READ_BYTES {
        let mut message = text::decimal(entry_count as u64);
        message.append(" entries of ");
        text::push_dec(&mut message, entry_size as u64);
        message.append(" bytes is not a readable entry array");
        return Err(Error::Parts(message));
    }
    Ok(
        Header {
            alternate_lba: bytes::u64_at(bytes, 32),
            entry_lba: bytes::u64_at(bytes, 72),
            entry_count,
            entry_size,
            entries_crc: bytes::u32_at(bytes, 88),
        },
    )
}

/// Mixed-endian, as the format defines it: the first three fields are little
/// endian, the last two are byte order as stored.
pub open spec fn guid(raw: Seq<u8>) -> Seq<char> {
    text::hex_padded(bytes::le32(raw, 0) as nat, 8) + "-"@ + text::hex_padded(
        bytes::le16(raw, 4) as nat,
        4,
    ) + "-"@ + text::hex_padded(bytes::le16(raw, 6) as nat, 4) + "-"@ + text::hex_padded(
        raw[8] as nat,
        2,
    ) + text::hex_padded(raw[9] as nat, 2) + "-"@ + text::hex_padded(raw[10] as nat, 2)
        + text::hex_padded(raw[11] as nat, 2) + text::hex_padded(raw[12] as nat, 2)
        + text::hex_padded(raw[13] as nat, 2) + text::hex_padded(raw[14] as nat, 2)
        + text::hex_padded(raw[15] as nat, 2)
}

/// The GUID `at` bytes into `raw`.
pub fn guid_at(raw: &[u8], at: usize) -> (text: String)
    requires
        at + 16 <= raw@.len(),
    ensures
        text@ == guid(raw@.subrange(at as int, at + 16)),
{
    let _len: usize = raw.len();
    let raw = slice_subrange(raw, at, at + 16);
    let mut text = String::new();
    text::push_hex(&mut text, bytes::u32_at(raw, 0) as u64, 8);
    assert(text@ =~= text::hex_padded(bytes::le32(raw@, 0) as nat, 8));
    text.append("-");
    text::push_hex(&mut text, bytes::u16_at(raw, 4) as u64, 4);
    text.append("-");
    text::push_hex(&mut text, bytes::u16_at(raw, 6) as u64, 4);
    text.append("-");
    text::push_hex(&mut text, raw[8] as u64, 2);
    text::push_hex(&mut text, raw[9] as u64, 2);
    text.append("-");
    text::push_hex(&mut text, raw[10] as u64, 2);
    text::push_hex(&mut text, raw[11] as u64, 2);
    text::push_hex(&mut text, raw[12] as u64, 2);
    text::push_hex(&mut text, raw[13] as u64, 2);
    text::push_hex(&mut text, raw[14] as u64, 2);
    text::push_hex(&mut text, raw[15] as u64, 2);
    text
}

/// The name field's units, up to the first NUL.
pub open spec fn name_units(raw: Seq<u8>, unit: int) -> Seq<u16>
    decreases 36 - unit,
{
    if unit >= 36 || bytes::le16(raw, 56 + 2 * unit) == 0 {
        Seq::empty()
    } else {
        seq![bytes::le16(raw, 56 + 2 * unit)] + name_units(raw, unit + 1)
    }
}

/// 72 bytes of UTF-16LE, NUL padded. Lone surrogates are replaced rather than
/// rejected: a name is printed, never acted on.
pub open spec fn name_in(raw: Seq<u8>) -> Seq<char> {
    text::trimmed(text::decoded_utf16(name_units(raw, 0)))
}

fn name_at(raw: &[u8]) -> (name: String)
    requires
        raw@.len() >= 128,
    ensures
        name@ == name_in(raw@),
{
    let mut units: Vec<u16> = Vec::new();
    let mut i: usize = 0;
    assert(name_units(raw@, 0) =~= units@ + name_units(raw@, 0));
    while i < 36
        invariant_except_break
            i <= 36,
            raw@.len() >= 128,
            name_units(raw@, 0) == units@ + name_units(raw@, i as int),
        ensures
            name_units(raw@, 0) == units@,
        decreases 36 - i,
    {
        let unit: u16 = bytes::u16_at(raw, 56 + 2 * i);
        if unit == 0 {
            assert(units@ + name_units(raw@, i as int) =~= units@);
            break;
        }
        let ghost before = units@;
        units.push(unit);
        assert(before + name_units(raw@, i as int) =~= units@ + name_units(raw@, i + 1));
        i += 1;
        proof {
            if i == 36 {
                assert(units@ + name_units(raw@, 36) =~= units@);
            }
        }
    }
    let chars = text::decode_utf16(units.as_slice());
    text::string_of(text::trim_chars(chars.as_slice()).as_slice())
}

/// An entry that describes nothing: its type is all zeros.
pub open spec fn unused(raw: Seq<u8>) -> bool {
    forall|i: int| 0 <= i < 16 ==> #[trigger] raw[i] == 0
}

/// Entry `number`, counted from one, in bytes.
pub open spec fn entry_in(raw: Seq<u8>, number: u32, sector: u32) -> core::result::Result<
    PartitionView,
    ErrorView,
> {
    let first = bytes::le64(raw, 32);
    let last = bytes::le64(raw, 40);
    let name = name_in(raw);
    if last < first {
        Err(
            ErrorView::Parts(
                "entry "@ + text::dec(number as nat) + " ends at LBA "@ + text::dec(last as nat)
                    + ", before it starts at "@ + text::dec(first as nat),
            ),
        )
    } else if first * sector > u64::MAX {
        Err(
            ErrorView::Parts("entry "@ + text::dec(number as nat) + " starts past 2^64 bytes"@),
        )
    } else if (last - first + 1) * sector > u64::MAX {
        Err(
            ErrorView::Parts(
                "entry "@ + text::dec(number as nat) + " is longer than 2^64 bytes"@,
            ),
        )
    } else {
        Ok(
            PartitionView {
                index: number,
                name: if name.len() == 0 {
                    None
                } else {
                    Some(name)
                },
                kind: guid(raw.subrange(0, 16)),
                start: (first * sector) as u64,
                length: ((last - first + 1) * sector) as u64,
            },
        )
    }
}

fn is_unused(raw: &[u8]) -> (unused: bool)
    requires
        raw@.len() >= 16,
    ensures
        unused == self::unused(raw@),
{
    let mut i: usize = 0;
    while i < 16
        invariant
            i <= 16 <= raw@.len(),
            forall|j: int| 0 <= j < i ==> #[trigger] raw@[j] == 0,
        decreases 16 - i,
    {
        if raw[i] != 0 {
            return false;
        }
        i += 1;
    }
    true
}

fn read_entry(raw: &[u8], number: u32, sector: u32) -> (result: Result<Partition>)
    requires
        raw@.len() >= 128,
        sector > 0,
    ensures
        match result {
            Ok(partition) => entry_in(raw@, number, sector) == Ok::<PartitionView, ErrorView>(
                partition@,
            ),
            Err(err) => entry_in(raw@, number, sector) == Err::<PartitionView, ErrorView>(err@),
        },
{
    let first: u64 = bytes::u64_at(raw, 32);
    let last: u64 = bytes::u64_at(raw, 40);
    if last < first {
        let mut message = "entry ".to_owned();
        text::push_dec(&mut message, number as u64);
        message.append(" ends at LBA ");
        text::push_dec(&mut message, last);
        message.append(", before it starts at ");
        text::push_dec(&mut message, first);
        return Err(Error::Parts(message));
    }
    let start: u64 = match first.checked_mul(sector as u64) {
        Some(start) => start,
        None => {
            let mut message = "entry ".to_owned();
            text::push_dec(&mut message, number as u64);
            message.append(" starts past 2^64 bytes");
            return Err(Error::Parts(message));
        },
    };
    let length: Option<u64> = match (last - first).checked_add(1) {
        Some(sectors) => sectors.checked_mul(sector as u64),
        None => {
            assert((last - first + 1) * sector > u64::MAX) by (nonlinear_arith)
                requires
                    last - first + 1 > u64::MAX,
                    sector > 0,
            ;
            None
        },
    };
    let length: u64 = match length {
        Some(length) => length,
        None => {
            let mut message = "entry ".to_owned();
            text::push_dec(&mut message, number as u64);
            message.append(" is longer than 2^64 bytes");
            return Err(Error::Parts(message));
        },
    };
    let name = name_at(raw);
    let name = if name.as_str().unicode_len() == 0 {
        None
    } else {
        Some(name)
    };
    Ok(Partition { index: number, name, kind: guid_at(raw, 0), start, length })
}

/// The used entries of an array from `index` on, after those in `found`.
pub open spec fn entries_from(
    array: Seq<u8>,
    header: Header,
    sector: u32,
    index: int,
    found: Seq<PartitionView>,
) -> core::result::Result<Seq<PartitionView>, ErrorView>
    decreases header.entry_count - index,
{
    if index >= header.entry_count {
        Ok(found)
    } else {
        let raw = array.subrange(index * header.entry_size, (index + 1) * header.entry_size);
        if unused(raw) {
            entries_from(array, header, sector, index + 1, found)
        } else {
            match entry_in(raw, (index + 1) as u32, sector) {
                Err(err) => Err(err),
                Ok(partition) => entries_from(
                    array,
                    header,
                    sector,
                    index + 1,
                    found.push(partition),
                ),
            }
        }
    }
}

/// The entries a header points at, once their checksum holds.
pub open spec fn entries<S: Sectors>(medium: S::Medium, header: Header) -> (
    core::result::Result<Seq<PartitionView>, ErrorView>,
    S::Medium,
) {
    let sector = S::sector_bytes(medium);
    let len = header.entry_count * header.entry_size;
    let sectors = crate::transfer::rounded_up(len, sector as int) / sector as int;
    let (read, medium) = S::serve(medium, header.entry_lba, sectors as u64);
    match read {
        Err(err) => (Err(err), medium),
        Ok(array) => {
            let found = crc32::checksum(array.subrange(0, len));
            if found != header.entries_crc {
                (
                    Err(
                        ErrorView::Parts(
                            "entry array CRC32 is "@ + shown(found) + ", the header claims "@
                                + shown(header.entries_crc),
                        ),
                    ),
                    medium,
                )
            } else {
                (entries_from(array, header, sector, 0, Seq::empty()), medium)
            }
        },
    }
}

pub(crate) proof fn whole_sectors_hold_it(len: int, sector: int)
    requires
        sector > 0,
        len >= 0,
    ensures
        ({
            let up = crate::transfer::rounded_up(len, sector);
            &&& len <= up < len + sector
            &&& (up / sector) * sector == up
            &&& 0 <= up / sector <= up
        }),
{
    let up = crate::transfer::rounded_up(len, sector);
    crate::transfer::rounding_up_finds_the_least_multiple(len, sector);
    vstd::arithmetic::div_mod::lemma_fundamental_div_mod(up, sector);
    let q = up / sector;
    assert(q * sector == up) by (nonlinear_arith)
        requires
            up == sector * q,
    ;
    assert(0 <= q <= up) by (nonlinear_arith)
        requires
            q * sector == up,
            sector > 0,
            up >= 0,
    ;
}

#[verifier::loop_isolation(false)]
fn read_entries<S: Sectors>(src: &mut S, header: &Header) -> (result: Result<Vec<Partition>>)
    requires
        header.readable(),
        S::sector_bytes(old(src).medium()) > 0,
    ensures
        ({
            let (read, medium) = entries::<S>(old(src).medium(), *header);
            &&& final(src).medium() == medium
            &&& match result {
                Ok(partitions) => read == Ok::<Seq<PartitionView>, ErrorView>(
                    parts::partition_views(partitions@),
                ),
                Err(err) => read == Err::<Seq<PartitionView>, ErrorView>(err@),
            }
        }),
        S::sector_bytes(final(src).medium()) == S::sector_bytes(old(src).medium()),
        S::size_bytes(final(src).medium()) == S::size_bytes(old(src).medium()),
{
    let sector: u32 = src.sector_size();
    let len: u64 = header.entry_count as u64 * header.entry_size as u64;
    proof {
        whole_sectors_hold_it(len as int, sector as int);
    }
    let sectors: u64 = crate::transfer::align_up(len, sector) / sector as u64;
    let array = match src.read(header.entry_lba, sectors) {
        Ok(bytes) => bytes,
        Err(err) => {
            return Err(err);
        },
    };
    let found: u32 = crc32::crc32(slice_subrange(array.as_slice(), 0, len as usize));
    if found != header.entries_crc {
        let mut message = "entry array CRC32 is ".to_owned();
        push_shown(&mut message, found);
        message.append(", the header claims ");
        push_shown(&mut message, header.entries_crc);
        return Err(Error::Parts(message));
    }
    let mut partitions: Vec<Partition> = Vec::new();
    let mut index: u32 = 0;
    assert(parts::partition_views(partitions@) =~= Seq::empty());
    while index < header.entry_count
        invariant
            index <= header.entry_count,
            entries_from(
                array@,
                *header,
                sector,
                index as int,
                parts::partition_views(partitions@),
            ) == entries_from(array@, *header, sector, 0, Seq::empty()),
        decreases header.entry_count - index,
    {
        proof {
            let size = header.entry_size as int;
            assert(0 <= index * size <= (index + 1) * size <= len) by (nonlinear_arith)
                requires
                    0 <= index < header.entry_count,
                    len == header.entry_count * size,
                    size >= 0,
            ;
            assert((index + 1) * size == index * size + size) by (nonlinear_arith);
        }
        let at: usize = (index as u64 * header.entry_size as u64) as usize;
        let raw = slice_subrange(array.as_slice(), at, at + header.entry_size as usize);
        if !is_unused(raw) {
            let ghost before = partitions@;
            match read_entry(raw, index + 1, sector) {
                Ok(partition) => {
                    partitions.push(partition);
                    assert(parts::partition_views(partitions@) =~= parts::partition_views(
                        before,
                    ).push(partition@));
                },
                Err(err) => {
                    return Err(err);
                },
            }
        }
        index += 1;
    }
    Ok(partitions)
}

/// Where the backup header sits when there is no primary header to point at it.
pub open spec fn last_lba_of<S: Sectors>(medium: S::Medium) -> Option<u64> {
    let sector = S::sector_bytes(medium);
    match S::size_bytes(medium) {
        None => None,
        Some(size) => if sector == 0 || size < sector {
            None
        } else {
            Some((size as int / sector as int - 1) as u64)
        },
    }
}

fn last_lba<S: Sectors>(src: &S) -> (lba: Option<u64>)
    ensures
        lba == last_lba_of::<S>(src.medium()),
{
    let sector: u64 = src.sector_size() as u64;
    match src.device_size() {
        None => None,
        Some(size) => {
            if sector == 0 || size < sector {
                return None;
            }
            assert(size as int / sector as int >= 1) by (nonlinear_arith)
                requires
                    size >= sector,
                    sector > 0,
            ;
            Some(size / sector - 1)
        },
    }
}

/// What is said when neither copy can be used.
pub open spec fn both_unusable(primary: ErrorView, lba: u64, backup: ErrorView) -> ErrorView {
    ErrorView::Parts(
        "the primary GPT is unusable ("@ + primary.text() + ") and so is the backup at LBA "@
            + text::dec(lba as nat) + " ("@ + backup.text() + ")"@,
    )
}

fn both_unusable_error(primary: &Error, lba: u64, backup: &Error) -> (err: Error)
    ensures
        err@ == both_unusable(primary@, lba, backup@),
{
    let mut message = "the primary GPT is unusable (".to_owned();
    message.append(primary.to_string().as_str());
    message.append(") and so is the backup at LBA ");
    text::push_dec(&mut message, lba);
    message.append(" (");
    message.append(backup.to_string().as_str());
    message.append(")");
    Error::Parts(message)
}

/// What reading a GPT came to.
#[verifier::ext_equal]
pub struct ReadingView {
    pub table: core::result::Result<TableView, ErrorView>,
    /// LBA 1 was read and carries the signature.
    pub claimed: bool,
    /// No copy was found to be wrong: every one that was tried failed to read.
    pub unread: bool,
}

/// The backup table at `lba`, read because the primary failed as `primary`
/// says, and the failure of the backup alone where it failed.
pub open spec fn backup_table<S: Sectors>(
    medium: S::Medium,
    lba: u64,
    primary: ErrorView,
) -> (core::result::Result<TableView, (ErrorView, ErrorView)>, S::Medium) {
    let (header, medium) = header_at::<S>(medium, lba);
    match header {
        Err(err) => (Err((both_unusable(primary, lba, err), err)), medium),
        Ok(header) => {
            let (read, medium) = entries::<S>(medium, header);
            match read {
                Err(err) => (Err((both_unusable(primary, lba, err), err)), medium),
                Ok(partitions) => (
                    Ok(
                        TableView {
                            scheme: Scheme::Gpt,
                            source: "backup GPT header at LBA "@ + text::dec(lba as nat)
                                + " (primary unusable: "@ + primary.text() + ")"@,
                            partitions,
                        },
                    ),
                    medium,
                ),
            }
        },
    }
}

/// The GPT a medium carries: its primary table, or the backup where there is
/// one to look for.
pub open spec fn reading<S: Sectors>(medium: S::Medium) -> (ReadingView, S::Medium) {
    let claimed = claimed::<S>(medium).0 == Ok::<bool, ErrorView>(true);
    let (header, medium) = header_at::<S>(medium, PRIMARY_LBA);
    let (primary, backup, medium) = match header {
        Err(err) => (Err(err), last_lba_of::<S>(medium), medium),
        Ok(header) => {
            let (read, medium) = entries::<S>(medium, header);
            (read, Some(header.alternate_lba), medium)
        },
    };
    match primary {
        Ok(partitions) => {
            let table = TableView {
                scheme: Scheme::Gpt,
                source: "primary GPT header at LBA "@ + text::dec(PRIMARY_LBA as nat),
                partitions,
            };
            (ReadingView { table: Ok(table), claimed, unread: false }, medium)
        },
        Err(err) => if backup is None || backup == Some(PRIMARY_LBA) {
            (ReadingView { table: Err(err), claimed, unread: err is Device }, medium)
        } else {
            let (copy, medium) = backup_table::<S>(medium, backup->0, err);
            match copy {
                Ok(table) => (ReadingView { table: Ok(table), claimed, unread: false }, medium),
                Err((both, other)) => (
                    ReadingView {
                        table: Err(both),
                        claimed,
                        unread: err is Device && other is Device,
                    },
                    medium,
                ),
            }
        },
    }
}

/// The same by the table alone.
pub open spec fn table<S: Sectors>(medium: S::Medium) -> (
    core::result::Result<TableView, ErrorView>,
    S::Medium,
) {
    let (reading, medium) = reading::<S>(medium);
    (reading.table, medium)
}

fn parse_backup<S: Sectors>(src: &mut S, lba: u64, primary: &Error) -> (result:
    core::result::Result<Table, (Error, Error)>)
    ensures
        match result {
            Ok(table) => backup_table::<S>(old(src).medium(), lba, primary@).0 == Ok::<
                TableView,
                (ErrorView, ErrorView),
            >(table@),
            Err(errors) => backup_table::<S>(old(src).medium(), lba, primary@).0 == Err::<
                TableView,
                (ErrorView, ErrorView),
            >((errors.0@, errors.1@)),
        },
        final(src).medium() == backup_table::<S>(old(src).medium(), lba, primary@).1,
        S::sector_bytes(final(src).medium()) == S::sector_bytes(old(src).medium()),
        S::size_bytes(final(src).medium()) == S::size_bytes(old(src).medium()),
{
    let header = match read_header(src, lba) {
        Ok(header) => header,
        Err(err) => {
            return Err((both_unusable_error(primary, lba, &err), err));
        },
    };
    let partitions = match read_entries(src, &header) {
        Ok(partitions) => partitions,
        Err(err) => {
            return Err((both_unusable_error(primary, lba, &err), err));
        },
    };
    let mut source = "backup GPT header at LBA ".to_owned();
    text::push_dec(&mut source, lba);
    source.append(" (primary unusable: ");
    source.append(primary.to_string().as_str());
    source.append(")");
    Ok(Table { scheme: Scheme::Gpt, source, partitions })
}

/// What reading a GPT came to: the table, and what a caller who does not know
/// that there is one has to know of a failure.
pub(crate) struct Reading {
    pub table: Result<Table>,
    pub claimed: bool,
    pub unread: bool,
}

impl View for Reading {
    type V = ReadingView;

    open(crate) spec fn view(&self) -> ReadingView {
        ReadingView {
            table: parts::table_outcome(self.table),
            claimed: self.claimed,
            unread: self.unread,
        }
    }
}

fn is_device(err: &Error) -> (device: bool)
    ensures
        device == (err@ is Device),
{
    match err {
        Error::Device(_) => true,
        _ => false,
    }
}

/// [`parse`], with what it learned of LBA 1 on the way.
pub(crate) fn examine<S: Sectors>(src: &mut S) -> (found: Reading)
    ensures
        (found@, final(src).medium()) == reading::<S>(old(src).medium()),
        S::sector_bytes(final(src).medium()) == S::sector_bytes(old(src).medium()),
        S::size_bytes(final(src).medium()) == S::size_bytes(old(src).medium()),
{
    let mut claimed = false;
    let header = match src.read(PRIMARY_LBA, 1) {
        Ok(sector) => {
            claimed = has_signature(sector.as_slice());
            check_header(sector.as_slice(), PRIMARY_LBA)
        },
        Err(err) => Err(err),
    };
    let (primary, backup): (Error, Option<u64>) = match header {
        Ok(header) => match read_entries(src, &header) {
            Ok(partitions) => {
                let mut source = "primary GPT header at LBA ".to_owned();
                text::push_dec(&mut source, PRIMARY_LBA);
                let table = Table { scheme: Scheme::Gpt, source, partitions };
                return Reading { table: Ok(table), claimed, unread: false };
            },
            Err(err) => (err, Some(header.alternate_lba)),
        },
        Err(err) => (err, last_lba(src)),
    };
    let lba: u64 = match backup {
        Some(lba) => lba,
        None => PRIMARY_LBA,
    };
    if lba == PRIMARY_LBA {
        let unread = is_device(&primary);
        return Reading { table: Err(primary), claimed, unread };
    }
    match parse_backup(src, lba, &primary) {
        Ok(table) => Reading { table: Ok(table), claimed, unread: false },
        Err((both, other)) => {
            let unread = is_device(&primary) && is_device(&other);
            Reading { table: Err(both), claimed, unread }
        },
    }
}

/// Reads the primary table, falling back to the backup. Which copy the entries
/// came from lands in `Table::source`, because a silent fallback would hide a
/// table that is already half gone.
pub fn parse<S: Sectors>(src: &mut S) -> (result: Result<Table>)
    ensures
        (parts::table_outcome(result), final(src).medium()) == table::<S>(old(src).medium()),
        S::sector_bytes(final(src).medium()) == S::sector_bytes(old(src).medium()),
        S::size_bytes(final(src).medium()) == S::size_bytes(old(src).medium()),
{
    examine(src).table
}

} // verus!
