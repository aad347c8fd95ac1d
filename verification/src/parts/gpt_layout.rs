//! What the bytes of a GPT mean, on the medium they stand on.

use vstd::prelude::*;

use crate::bytes;
use crate::error::ErrorView;
use crate::number;
use crate::parts::crc32;
use crate::parts::gpt;
use crate::parts::gpt::Header;
use crate::parts::layout;
use crate::parts::{ImageSectors, ImageView, PartitionView, Scheme, Sectors};
use crate::text;
use crate::transfer;

verus! {

/// A slot is in use when its type is not all zeros.
pub open spec fn slot_in_use(raw: Seq<u8>) -> bool {
    exists|i: int| 0 <= i < 16 && #[trigger] raw[i] != 0
}

/// A type as it is spelled: five groups of hexadecimal digits, the bytes of the
/// first three from the last to the first and those of the others as they stand.
#[verifier::opaque]
pub open spec fn spells_type(raw: Seq<u8>, kind: Seq<char>) -> bool {
    &&& kind.len() == 36
    &&& kind[8] == '-' && kind[13] == '-' && kind[18] == '-' && kind[23] == '-'
    &&& number::positional(kind.subrange(0, 8), 16) == Some(bytes::dword(raw, 0) as nat)
    &&& number::positional(kind.subrange(9, 13), 16) == Some(bytes::word(raw, 4) as nat)
    &&& number::positional(kind.subrange(14, 18), 16) == Some(bytes::word(raw, 6) as nat)
    &&& number::positional(kind.subrange(19, 21), 16) == Some(raw[8] as nat)
    &&& number::positional(kind.subrange(21, 23), 16) == Some(raw[9] as nat)
    &&& number::positional(kind.subrange(24, 26), 16) == Some(raw[10] as nat)
    &&& number::positional(kind.subrange(26, 28), 16) == Some(raw[11] as nat)
    &&& number::positional(kind.subrange(28, 30), 16) == Some(raw[12] as nat)
    &&& number::positional(kind.subrange(30, 32), 16) == Some(raw[13] as nat)
    &&& number::positional(kind.subrange(32, 34), 16) == Some(raw[14] as nat)
    &&& number::positional(kind.subrange(34, 36), 16) == Some(raw[15] as nat)
}

/// The name field holds `units` and then a zero, or nothing but them.
pub open spec fn holds_units(raw: Seq<u8>, units: Seq<u16>) -> bool {
    &&& units.len() <= 36
    &&& forall|i: int|
        0 <= i < units.len() ==> #[trigger] units[i] == bytes::word(raw, 56 + 2 * i) && units[i]
            != 0
    &&& units.len() < 36 ==> bytes::word(raw, 56 + 2 * units.len() as int) == 0
}

/// The name is what those units spell, without the white space around it; a
/// blank one is none.
#[verifier::opaque]
pub open spec fn spells_name(raw: Seq<u8>, name: Option<Seq<char>>) -> bool {
    exists|units: Seq<u16>| #[trigger]
        holds_units(raw, units) && name == if text::trimmed(text::decoded_utf16(units)).len()
            == 0 {
            None
        } else {
            Some(text::trimmed(text::decoded_utf16(units)))
        }
}

/// The partition a slot describes: from the start of its first sector to the
/// end of its last, with nothing left off.
pub open spec fn slot_describes(raw: Seq<u8>, size: u32, part: PartitionView) -> bool {
    &&& slot_in_use(raw)
    &&& part.start == bytes::qword(raw, 32) * size
    &&& part.start + part.length == (bytes::qword(raw, 40) + 1) * size
    &&& spells_type(raw, part.kind)
    &&& spells_name(raw, part.name)
}

/// What a slot describes can be said in bytes.
pub open spec fn slot_fits(raw: Seq<u8>, size: u32) -> bool {
    let first = bytes::qword(raw, 32);
    let last = bytes::qword(raw, 40);
    &&& first <= last
    &&& first * size <= u64::MAX
    &&& (last + 1 - first) * size <= u64::MAX
}

#[verifier::rlimit(60)]
proof fn a_type_is_spelled_as_it_stands(raw: Seq<u8>)
    requires
        raw.len() == 16,
    ensures
        spells_type(raw, gpt::guid(raw)),
{
    reveal(spells_type);
    reveal_strlit("-");
    reveal_with_fuel(number::power, 9);
    bytes::a_field_keeps_every_bit(raw, 0);
    bytes::a_field_keeps_every_bit(raw, 4);
    bytes::a_field_keeps_every_bit(raw, 6);
    number::padded_hexadecimals_read_back(bytes::le32(raw, 0) as nat, 8);
    number::padded_hexadecimals_read_back(bytes::le16(raw, 4) as nat, 4);
    number::padded_hexadecimals_read_back(bytes::le16(raw, 6) as nat, 4);
    assert forall|i: int| 8 <= i < 16 implies text::hex_padded(
        (#[trigger] raw[i]) as nat,
        2,
    ).len() == 2 && number::positional(text::hex_padded(raw[i] as nat, 2), 16) == Some(
        raw[i] as nat,
    ) by {
        number::padded_hexadecimals_read_back(raw[i] as nat, 2);
    }
    let kind = gpt::guid(raw);
    assert(text::hex_padded(raw[8] as nat, 2).len() == 2);
    assert(text::hex_padded(raw[9] as nat, 2).len() == 2);
    assert(text::hex_padded(raw[10] as nat, 2).len() == 2);
    assert(text::hex_padded(raw[11] as nat, 2).len() == 2);
    assert(text::hex_padded(raw[12] as nat, 2).len() == 2);
    assert(text::hex_padded(raw[13] as nat, 2).len() == 2);
    assert(text::hex_padded(raw[14] as nat, 2).len() == 2);
    assert(text::hex_padded(raw[15] as nat, 2).len() == 2);
    assert(kind.subrange(0, 8) =~= text::hex_padded(bytes::le32(raw, 0) as nat, 8));
    assert(kind.subrange(9, 13) =~= text::hex_padded(bytes::le16(raw, 4) as nat, 4));
    assert(kind.subrange(14, 18) =~= text::hex_padded(bytes::le16(raw, 6) as nat, 4));
    assert(kind.subrange(19, 21) =~= text::hex_padded(raw[8] as nat, 2));
    assert(kind.subrange(21, 23) =~= text::hex_padded(raw[9] as nat, 2));
    assert(kind.subrange(24, 26) =~= text::hex_padded(raw[10] as nat, 2));
    assert(kind.subrange(26, 28) =~= text::hex_padded(raw[11] as nat, 2));
    assert(kind.subrange(28, 30) =~= text::hex_padded(raw[12] as nat, 2));
    assert(kind.subrange(30, 32) =~= text::hex_padded(raw[13] as nat, 2));
    assert(kind.subrange(32, 34) =~= text::hex_padded(raw[14] as nat, 2));
    assert(kind.subrange(34, 36) =~= text::hex_padded(raw[15] as nat, 2));
}

proof fn the_units_of_a_name_are_held(raw: Seq<u8>, unit: int)
    requires
        0 <= unit <= 36,
    ensures
        ({
            let units = gpt::name_units(raw, unit);
            &&& units.len() <= 36 - unit
            &&& forall|i: int|
                0 <= i < units.len() ==> #[trigger] units[i] == bytes::word(
                    raw,
                    56 + 2 * (unit + i),
                ) && units[i] != 0
            &&& units.len() < 36 - unit ==> bytes::word(raw, 56 + 2 * (unit + units.len())) == 0
        }),
    decreases 36 - unit,
{
    bytes::a_field_keeps_every_bit(raw, 56 + 2 * unit);
    if unit < 36 && bytes::le16(raw, 56 + 2 * unit) != 0 {
        the_units_of_a_name_are_held(raw, unit + 1);
        let rest = gpt::name_units(raw, unit + 1);
        let units = gpt::name_units(raw, unit);
        assert forall|i: int| 0 <= i < units.len() implies #[trigger] units[i] == bytes::word(
            raw,
            56 + 2 * (unit + i),
        ) && units[i] != 0 by {
            if i > 0 {
                assert(units[i] == rest[i - 1]);
            }
        }
    }
}

proof fn the_words_of_an_entry_are_spelled(raw: Seq<u8>, number: u32, size: u32)
    requires
        raw.len() >= 128,
    ensures
        gpt::entry_in(raw, number, size) matches Ok(part) ==> spells_type(raw, part.kind)
            && spells_name(raw, part.name),
{
    let head = raw.subrange(0, 16);
    a_type_is_spelled_as_it_stands(head);
    assert(spells_type(raw, gpt::guid(head))) by {
        reveal(spells_type);
    }
    the_units_of_a_name_are_held(raw, 0);
    assert(holds_units(raw, gpt::name_units(raw, 0)));
    reveal(spells_name);
}

/// An entry is what its slot describes, exactly where that can be said.
#[verifier::rlimit(60)]
proof fn an_entry_is_what_its_slot_says(raw: Seq<u8>, number: u32, size: u32)
    requires
        raw.len() >= 128,
    ensures
        gpt::unused(raw) == !slot_in_use(raw),
        slot_in_use(raw) ==> (gpt::entry_in(raw, number, size) is Ok <==> slot_fits(raw, size)),
        slot_in_use(raw) && slot_fits(raw, size) ==> {
            let part = gpt::entry_in(raw, number, size)->Ok_0;
            part.index == number && slot_describes(raw, size, part)
        },
{
    bytes::a_field_keeps_every_bit(raw, 32);
    bytes::a_field_keeps_every_bit(raw, 40);
    if !gpt::unused(raw) {
        let i = choose|i: int| 0 <= i < 16 && #[trigger] raw[i] != 0;
        assert(raw[i] != 0);
    }
    if slot_in_use(raw) && slot_fits(raw, size) {
        let first = bytes::qword(raw, 32);
        let last = bytes::qword(raw, 40);
        assert((last + 1 - first) * size == (last - first + 1) * size);
        assert(first * size + (last - first + 1) * size == (last + 1) * size)
            by (nonlinear_arith);
        assert(0 <= first * size) by (nonlinear_arith)
            requires
                first >= 0,
                size >= 0,
        ;
        assert(0 <= (last - first + 1) * size) by (nonlinear_arith)
            requires
                first <= last,
                size >= 0,
        ;
        the_words_of_an_entry_are_spelled(raw, number, size);
    }
}

/// Slot `k` of an array of slots of `width` bytes.
pub open spec fn slot_of(array: Seq<u8>, width: int, k: int) -> Seq<u8> {
    array.subrange(k * width, (k + 1) * width)
}

/// `parts` lists the first `n` slots of an array: the ones in use and no others,
/// each under the number of its slot, counted from one.
pub open spec fn lists_slots(
    array: Seq<u8>,
    width: int,
    size: u32,
    parts: Seq<PartitionView>,
    n: int,
) -> bool {
    &&& layout::ascending(parts)
    &&& forall|i: int|
        0 <= i < parts.len() ==> 1 <= (#[trigger] parts[i]).index <= n && slot_describes(
            slot_of(array, width, parts[i].index - 1),
            size,
            parts[i],
        )
    &&& forall|k: int|
        0 <= k < n && slot_in_use(#[trigger] slot_of(array, width, k)) ==> exists|i: int|
            0 <= i < parts.len() && (#[trigger] parts[i]).index == k + 1
}

proof fn entries_list_the_slots(
    array: Seq<u8>,
    header: Header,
    size: u32,
    k: int,
    found: Seq<PartitionView>,
)
    requires
        header.entry_size >= 128,
        header.entry_count * header.entry_size <= array.len(),
        0 <= k <= header.entry_count,
        lists_slots(array, header.entry_size as int, size, found, k),
    ensures
        ({
            let width = header.entry_size as int;
            let read = gpt::entries_from(array, header, size, k, found);
            &&& read is Ok <==> forall|j: int|
                k <= j < header.entry_count && slot_in_use(#[trigger] slot_of(array, width, j))
                    ==> slot_fits(slot_of(array, width, j), size)
            &&& read matches Ok(all) ==> lists_slots(
                array,
                width,
                size,
                all,
                header.entry_count as int,
            )
        }),
    decreases header.entry_count - k,
{
    let width = header.entry_size as int;
    if k < header.entry_count {
        let raw = slot_of(array, width, k);
        assert(0 <= k * width && (k + 1) * width == k * width + width && (k + 1) * width
            <= header.entry_count * width) by (nonlinear_arith)
            requires
                0 <= k < header.entry_count,
                width > 0,
        ;
        an_entry_is_what_its_slot_says(raw, (k + 1) as u32, size);
        if !slot_in_use(raw) {
            assert(lists_slots(array, width, size, found, k + 1)) by {
                assert forall|j: int| 0 <= j < k + 1 && slot_in_use(
                    #[trigger] slot_of(array, width, j),
                ) implies exists|i: int|
                    0 <= i < found.len() && (#[trigger] found[i]).index == j + 1 by {
                    assert(j < k);
                }
            }
            entries_list_the_slots(array, header, size, k + 1, found);
        } else if slot_fits(raw, size) {
            let part = gpt::entry_in(raw, (k + 1) as u32, size)->Ok_0;
            let more = found.push(part);
            assert(lists_slots(array, width, size, more, k + 1)) by {
                assert forall|j: int| 0 <= j < k + 1 && slot_in_use(
                    #[trigger] slot_of(array, width, j),
                ) implies exists|i: int|
                    0 <= i < more.len() && (#[trigger] more[i]).index == j + 1 by {
                    if j < k {
                        let i = choose|i: int|
                            0 <= i < found.len() && (#[trigger] found[i]).index == j + 1;
                        assert(more[i] == found[i]);
                    } else {
                        assert(more[found.len() as int].index == k + 1);
                    }
                }
            }
            entries_list_the_slots(array, header, size, k + 1, more);
        }
    }
}

/// A sector read at `lba` is a header: it carries the signature, its own
/// checksum and its own place, and says something that can be read of its
/// entries.
#[verifier::opaque]
pub open spec fn is_header(sector: Seq<u8>, lba: int) -> bool {
    let len = bytes::dword(sector, 12);
    let count = bytes::dword(sector, 80);
    let width = bytes::dword(sector, 84);
    &&& sector.len() >= 8
    &&& sector.subrange(0, 8) == seq![0x45u8, 0x46u8, 0x49u8, 0x20u8, 0x50u8, 0x41u8, 0x52u8, 0x54u8]
    &&& 92 <= len <= sector.len()
    &&& crc32::checksum(
        sector.subrange(0, 16) + seq![0u8, 0u8, 0u8, 0u8] + sector.subrange(20, len),
    ) == bytes::dword(sector, 16)
    &&& bytes::qword(sector, 24) == lba
    &&& width >= 128
    &&& width % 8 == 0
    &&& count > 0
    &&& count * width <= 4_194_304
}

/// The sector at `lba` can be read and is a header.
pub open spec fn header_holds(image: ImageView, lba: int) -> bool {
    layout::on_image(image, lba) && is_header(layout::sector_at(image, lba), lba)
}

/// The entries that the header at `lba` points at.
pub open spec fn entries_of(image: ImageView, lba: int) -> Seq<u8> {
    let header = layout::sector_at(image, lba);
    let at = bytes::qword(header, 72) * image.sector_size;
    image.data.subrange(at, at + bytes::dword(header, 80) * bytes::dword(header, 84))
}

/// They can be read whole, pass their checksum, and each of them that is in use
/// can be said in bytes.
#[verifier::opaque]
pub open spec fn entries_hold(image: ImageView, lba: int) -> bool {
    let header = layout::sector_at(image, lba);
    let count = bytes::dword(header, 80);
    let width = bytes::dword(header, 84);
    let size = image.sector_size as int;
    let run = (count * width + size - 1) / size;
    &&& run * size <= 4_194_304
    &&& (bytes::qword(header, 72) + run) * size <= image.data.len()
    &&& crc32::checksum(entries_of(image, lba)) == bytes::dword(header, 88)
    &&& forall|k: int|
        0 <= k < count && slot_in_use(#[trigger] slot_of(entries_of(image, lba), width, k))
            ==> slot_fits(slot_of(entries_of(image, lba), width, k), image.sector_size)
}

/// A copy of the table at `lba`, and what it lists.
pub open spec fn copy_holds(image: ImageView, lba: int) -> bool {
    header_holds(image, lba) && entries_hold(image, lba)
}

#[verifier::opaque]
pub open spec fn copy_lists(image: ImageView, lba: int, parts: Seq<PartitionView>) -> bool {
    let header = layout::sector_at(image, lba);
    lists_slots(
        entries_of(image, lba),
        bytes::dword(header, 84),
        image.sector_size,
        parts,
        bytes::dword(header, 80),
    )
}

#[verifier::rlimit(60)]
proof fn the_checks_of_a_header(sector: Seq<u8>, lba: u64)
    ensures
        gpt::header_in(sector, lba) is Ok <==> is_header(sector, lba as int),
        gpt::header_in(sector, lba) matches Ok(header) ==> {
            &&& header.alternate_lba == bytes::qword(sector, 32)
            &&& header.entry_lba == bytes::qword(sector, 72)
            &&& header.entry_count == bytes::dword(sector, 80)
            &&& header.entry_size == bytes::dword(sector, 84)
            &&& header.entries_crc == bytes::dword(sector, 88)
        },
{
    reveal(is_header);
    let len = bytes::dword(sector, 12);
    assert(bytes::le32(sector, 12) as int == len) by {
        bytes::a_field_keeps_every_bit(sector, 12);
    }
    assert(bytes::le32(sector, 16) as int == bytes::dword(sector, 16)) by {
        bytes::a_field_keeps_every_bit(sector, 16);
    }
    assert(bytes::le64(sector, 24) as int == bytes::qword(sector, 24)) by {
        bytes::a_field_keeps_every_bit(sector, 24);
    }
    assert(bytes::le64(sector, 32) as int == bytes::qword(sector, 32)) by {
        bytes::a_field_keeps_every_bit(sector, 32);
    }
    assert(bytes::le64(sector, 72) as int == bytes::qword(sector, 72)) by {
        bytes::a_field_keeps_every_bit(sector, 72);
    }
    assert(bytes::le32(sector, 80) as int == bytes::dword(sector, 80)) by {
        bytes::a_field_keeps_every_bit(sector, 80);
    }
    assert(bytes::le32(sector, 84) as int == bytes::dword(sector, 84)) by {
        bytes::a_field_keeps_every_bit(sector, 84);
    }
    assert(bytes::le32(sector, 88) as int == bytes::dword(sector, 88)) by {
        bytes::a_field_keeps_every_bit(sector, 88);
    }
    if 92 <= len <= sector.len() {
        assert(gpt::checked_bytes(sector, len) =~= sector.subrange(0, 16) + seq![
            0u8,
            0u8,
            0u8,
            0u8,
        ] + sector.subrange(20, len));
    }
}

/// A header is read exactly where one holds.
proof fn a_header_is_read_where_it_holds(image: ImageView, lba: u64)
    requires
        image.data.len() <= u64::MAX,
    ensures
        gpt::header_at::<ImageSectors>(image, lba).1 == image,
        gpt::header_at::<ImageSectors>(image, lba).0 is Ok <==> header_holds(image, lba as int),
        gpt::header_at::<ImageSectors>(image, lba).0 matches Ok(header) ==> {
            let sector = layout::sector_at(image, lba as int);
            &&& header.alternate_lba == bytes::qword(sector, 32)
            &&& header.entry_lba == bytes::qword(sector, 72)
            &&& header.entry_count == bytes::dword(sector, 80)
            &&& header.entry_size == bytes::dword(sector, 84)
            &&& header.entries_crc == bytes::dword(sector, 88)
        },
{
    layout::an_image_gives_the_bytes_that_are_there(image, lba, 1);
    let s = image.sector_size as int;
    assert((lba + 1) * s == lba * s + s) by (nonlinear_arith);
    assert(0 <= lba * s) by (nonlinear_arith)
        requires
            lba >= 0,
            s >= 0,
    ;
    if ImageSectors::serve(image, lba, 1).0 is Ok {
        layout::an_image_gives_its_sectors(image, lba);
        the_checks_of_a_header(layout::sector_at(image, lba as int), lba);
    }
}

proof fn whole_sectors_are_counted(len: int, size: int)
    requires
        size > 0,
        len > 0,
    ensures
        transfer::rounded_up(len, size) / size == (len + size - 1) / size,
        (len + size - 1) / size * size >= len,
        (len + size - 1) / size > 0,
        (len + size - 1) / size <= len,
{
    let q = len / size;
    let r = len % size;
    vstd::arithmetic::div_mod::lemma_fundamental_div_mod(len, size);
    vstd::arithmetic::div_mod::lemma_mod_bound(len, size);
    assert(size * q == q * size && size * (q + 1) == q * size + size && (q + 1) * size == q * size
        + size) by (nonlinear_arith);
    assert(q >= 0) by (nonlinear_arith)
        requires
            len == size * q + r,
            len > 0,
            r < size,
            size > 0,
    ;
    assert(q <= len) by (nonlinear_arith)
        requires
            len == size * q + r,
            r >= 0,
            q >= 0,
            size > 0,
    ;
    if r == 0 {
        assert(q > 0) by (nonlinear_arith)
            requires
                len == size * q,
                len > 0,
                size > 0,
                q >= 0,
        ;
        vstd::arithmetic::div_mod::lemma_fundamental_div_mod_converse(
            len + size - 1,
            size,
            q,
            size - 1,
        );
    } else {
        vstd::arithmetic::div_mod::lemma_fundamental_div_mod_converse(
            len + size - 1,
            size,
            q + 1,
            r - 1,
        );
        vstd::arithmetic::div_mod::lemma_div_multiples_vanish(q + 1, size);
        assert(q < len) by (nonlinear_arith)
            requires
                len == size * q + r,
                r > 0,
                q >= 0,
                size > 0,
        ;
    }
}

#[verifier::rlimit(60)]
proof fn entries_are_read_where_they_hold(image: ImageView, lba: u64)
    requires
        image.data.len() <= u64::MAX,
        header_holds(image, lba as int),
    ensures
        ({
            let header = gpt::header_at::<ImageSectors>(image, lba).0->Ok_0;
            let (read, after) = gpt::entries::<ImageSectors>(image, header);
            &&& after == image
            &&& read is Ok <==> entries_hold(image, lba as int)
            &&& read matches Ok(parts) ==> copy_lists(image, lba as int, parts)
        }),
{
    reveal(is_header);
    reveal(entries_hold);
    reveal(copy_lists);
    a_header_is_read_where_it_holds(image, lba);
    let sector = layout::sector_at(image, lba as int);
    let header = gpt::header_at::<ImageSectors>(image, lba).0->Ok_0;
    let size = image.sector_size as int;
    let width = header.entry_size as int;
    let len = header.entry_count * header.entry_size;
    let at = header.entry_lba * size;
    bytes::a_field_keeps_every_bit(sector, 80);
    bytes::a_field_keeps_every_bit(sector, 84);
    assert(len > 0) by (nonlinear_arith)
        requires
            len == header.entry_count * header.entry_size,
            header.entry_count > 0,
            header.entry_size > 0,
    ;
    whole_sectors_are_counted(len, size);
    let run = (len + size - 1) / size;
    layout::an_image_gives_the_bytes_that_are_there(image, header.entry_lba, run as u64);
    assert((header.entry_lba + run) * size == at + run * size) by (nonlinear_arith)
        requires
            at == header.entry_lba * size,
    ;
    assert(0 < run * size) by (nonlinear_arith)
        requires
            run > 0,
            size > 0,
    ;
    assert(0 <= at) by (nonlinear_arith)
        requires
            at == header.entry_lba * size,
            header.entry_lba >= 0,
            size > 0,
    ;
    let served = ImageSectors::serve(image, header.entry_lba, run as u64).0;
    if let Ok(array) = served {
        let entries = entries_of(image, lba as int);
        assert(array.subrange(0, len) =~= entries);
        assert forall|k: int| 0 <= k < header.entry_count implies #[trigger] slot_of(
            array,
            width,
            k,
        ) == slot_of(entries, width, k) by {
            assert(0 <= k * width && (k + 1) * width == k * width + width && (k + 1) * width
                <= len) by (nonlinear_arith)
                requires
                    0 <= k < header.entry_count,
                    len == header.entry_count * width,
                    width > 0,
            ;
            assert(slot_of(array, width, k) =~= slot_of(entries, width, k));
        }
        entries_list_the_slots(array, header, image.sector_size, 0, Seq::empty());
        let read = gpt::entries_from(array, header, image.sector_size, 0, Seq::empty());
        assert((forall|j: int|
            0 <= j < header.entry_count && slot_in_use(#[trigger] slot_of(array, width, j))
                ==> slot_fits(slot_of(array, width, j), image.sector_size)) == (forall|j: int|
            0 <= j < header.entry_count && slot_in_use(#[trigger] slot_of(entries, width, j))
                ==> slot_fits(slot_of(entries, width, j), image.sector_size))) by {
            if forall|j: int|
                0 <= j < header.entry_count && slot_in_use(#[trigger] slot_of(array, width, j))
                    ==> slot_fits(slot_of(array, width, j), image.sector_size) {
                assert forall|j: int|
                    0 <= j < header.entry_count && slot_in_use(
                        #[trigger] slot_of(entries, width, j),
                    ) implies slot_fits(slot_of(entries, width, j), image.sector_size) by {
                    assert(slot_of(array, width, j) == slot_of(entries, width, j));
                }
            }
        }
        if let Ok(parts) = read {
            assert forall|i: int| 0 <= i < parts.len() implies 1 <= (#[trigger] parts[i]).index
                <= header.entry_count && slot_describes(
                slot_of(entries, width, parts[i].index - 1),
                image.sector_size,
                parts[i],
            ) by {
                assert(slot_of(array, width, parts[i].index - 1) == slot_of(
                    entries,
                    width,
                    parts[i].index - 1,
                ));
            }
            assert forall|k: int|
                0 <= k < header.entry_count && slot_in_use(
                    #[trigger] slot_of(entries, width, k),
                ) implies exists|i: int|
                0 <= i < parts.len() && (#[trigger] parts[i]).index == k + 1 by {
                assert(slot_of(array, width, k) == slot_of(entries, width, k));
            }
            assert(lists_slots(
                entries,
                width,
                image.sector_size,
                parts,
                header.entry_count as int,
            ));
        }
    }
}

/// Where the second copy stands: where the first says, and at the end of the
/// medium where the first says nothing.
pub open spec fn second_copy(image: ImageView) -> int {
    if header_holds(image, 1) {
        bytes::qword(layout::sector_at(image, 1), 32)
    } else {
        image.data.len() as int / image.sector_size as int - 1
    }
}

proof fn a_copy_is_read_where_it_holds(image: ImageView, lba: u64)
    requires
        image.data.len() <= u64::MAX,
    ensures
        ({
            let (header, mid) = gpt::header_at::<ImageSectors>(image, lba);
            &&& mid == image
            &&& header is Ok <==> header_holds(image, lba as int)
            &&& header matches Ok(header) ==> {
                let (read, after) = gpt::entries::<ImageSectors>(image, header);
                &&& after == image
                &&& header.alternate_lba == bytes::qword(layout::sector_at(image, lba as int), 32)
                &&& read is Ok <==> copy_holds(image, lba as int)
                &&& read matches Ok(parts) ==> copy_lists(image, lba as int, parts)
            }
        }),
{
    a_header_is_read_where_it_holds(image, lba);
    if header_holds(image, lba as int) {
        entries_are_read_where_they_hold(image, lba);
    }
}

proof fn the_last_sector_is_where_it_is(image: ImageView)
    requires
        image.data.len() <= u64::MAX,
    ensures
        match gpt::last_lba_of::<ImageSectors>(image) {
            Some(lba) => lba == image.data.len() as int / image.sector_size as int - 1,
            None => !layout::on_image(
                image,
                image.data.len() as int / image.sector_size as int - 1,
            ),
        },
{
    let size = image.sector_size as int;
    let len = image.data.len() as int;
    if size > 0 {
        if len < size {
            vstd::arithmetic::div_mod::lemma_basic_div(len, size);
        } else {
            assert(1 <= len / size <= len) by (nonlinear_arith)
                requires
                    size > 0,
                    len >= size,
            ;
        }
    }
}

/// A GPT that is read is a copy that holds, and lists what the slots of that
/// copy describe. It is the first copy wherever that one holds, and otherwise
/// the second; which of them it is, it says.
#[verifier::rlimit(60)]
pub proof fn a_gpt_is_what_its_bytes_say(image: ImageView)
    requires
        image.data.len() <= u64::MAX,
    ensures
        gpt::table::<ImageSectors>(image).0 matches Ok(table) ==> {
            let lba = if copy_holds(image, 1) {
                1
            } else {
                second_copy(image)
            };
            &&& table.scheme == Scheme::Gpt
            &&& copy_holds(image, lba)
            &&& copy_lists(image, lba, table.partitions)
            &&& lba == 1 ==> table.source == "primary GPT header at LBA 1"@
            &&& lba != 1 ==> ("backup GPT header at LBA "@ + text::dec(lba as nat)
                + " (primary unusable: "@).is_prefix_of(table.source)
        },
        gpt::table::<ImageSectors>(image).0 is Ok <==> copy_holds(image, 1) || (second_copy(image)
            != 1 && copy_holds(image, second_copy(image))),
{
    a_copy_is_read_where_it_holds(image, 1);
    the_last_sector_is_where_it_is(image);
    let (header, _) = gpt::header_at::<ImageSectors>(image, 1);
    let backup = match header {
        Err(_) => gpt::last_lba_of::<ImageSectors>(image),
        Ok(header) => Some(header.alternate_lba),
    };
    assert("primary GPT header at LBA 1"@ =~= "primary GPT header at LBA "@ + text::dec(1)) by {
        reveal_strlit("primary GPT header at LBA 1");
        reveal_strlit("primary GPT header at LBA ");
    }
    if !copy_holds(image, 1) && backup is Some {
        let lba = backup->0;
        a_copy_is_read_where_it_holds(image, lba);
        let read = gpt::table::<ImageSectors>(image).0;
        if read is Ok && lba != 1 {
            let head = "backup GPT header at LBA "@ + text::dec(lba as nat)
                + " (primary unusable: "@;
            assert(read->Ok_0.source.subrange(0, head.len() as int) =~= head);
        }
    }
}

/// Where a device does not say how large it is, there is no last sector to look
/// for a second copy in: a first copy without a usable header is the end of it,
/// and nothing else is read.
pub proof fn a_device_of_unknown_size_has_no_second_copy<S: Sectors>(medium: S::Medium)
    requires
        S::size_bytes(gpt::header_at::<S>(medium, 1).1) is None,
        gpt::header_at::<S>(medium, 1).0 is Err,
    ensures
        gpt::table::<S>(medium).0 is Err,
        gpt::table::<S>(medium).0->Err_0 == gpt::header_at::<S>(medium, 1).0->Err_0,
        gpt::table::<S>(medium).1 == S::serve(medium, 1, 1).1,
{
}

/// Whatever a GPT is read from, its entries are those that the slots of the array
/// describe.
pub proof fn a_gpt_is_listed_from_its_array<S: Sectors>(medium: S::Medium, header: Header)
    requires
        header.entry_size >= 128,
        forall|lba: u64, count: u64|
            (#[trigger] S::serve(medium, lba, count)).0 matches Ok(array) ==> header.entry_count
                * header.entry_size <= array.len(),
    ensures
        gpt::entries::<S>(medium, header).0 matches Ok(parts) ==> exists|lba: u64, count: u64|
            {
                let array = (#[trigger] S::serve(medium, lba, count)).0;
                &&& lba == header.entry_lba
                &&& array is Ok
                &&& lists_slots(
                    array->Ok_0,
                    header.entry_size as int,
                    S::sector_bytes(medium),
                    parts,
                    header.entry_count as int,
                )
            },
{
    let size = S::sector_bytes(medium);
    let len = header.entry_count * header.entry_size;
    let sectors = transfer::rounded_up(len, size as int) / size as int;
    if let Ok(array) = S::serve(medium, header.entry_lba, sectors as u64).0 {
        entries_list_the_slots(array, header, size, 0, Seq::empty());
    }
}

/// Whatever a GPT is read from, a first copy that reads is the table.
pub proof fn a_first_copy_that_reads_is_the_table<S: Sectors>(medium: S::Medium, header: Header)
    requires
        gpt::header_at::<S>(medium, 1).0 == Ok::<Header, ErrorView>(header),
        gpt::entries::<S>(gpt::header_at::<S>(medium, 1).1, header).0 is Ok,
    ensures
        gpt::table::<S>(medium).0 matches Ok(table) && Ok::<Seq<PartitionView>, ErrorView>(
            table.partitions,
        ) == gpt::entries::<S>(gpt::header_at::<S>(medium, 1).1, header).0,
{
}

} // verus!
