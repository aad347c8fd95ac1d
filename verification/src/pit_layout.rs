//! What the bytes of a PIT mean: every field of it is where the format puts it,
//! and comes out with every bit it has.

use vstd::prelude::*;
use vstd::utf8;

use crate::bytes;
use crate::error::ErrorView;
use crate::parts;
use crate::parts::layout;
use crate::parts::{ImageSectors, ImageView, Sectors};
use crate::pit;
use crate::pit::{DeviceType, PartitionView, PitView};
use crate::text;
use crate::transfer;

verus! {

/// The first `n` bytes of a field of `len` are what it holds: no zero among
/// them, and one behind them where the field goes on.
pub open spec fn holds(bytes: Seq<u8>, at: int, len: int, n: int) -> bool {
    &&& 0 <= n <= len
    &&& forall|i: int| 0 <= i < n ==> #[trigger] bytes[at + i] != 0
    &&& n < len ==> bytes[at + n] == 0
}

/// The bytes a field of `len` at `at` holds.
pub open spec fn field(bytes: Seq<u8>, at: int, len: int) -> Seq<u8> {
    bytes.subrange(at, at + choose|n: int| holds(bytes, at, len, n))
}

proof fn a_field_ends_at_its_first_zero(raw: Seq<u8>)
    ensures
        pit::until_nul(raw).len() <= raw.len(),
        pit::until_nul(raw) == raw.subrange(0, pit::until_nul(raw).len() as int),
        forall|i: int| 0 <= i < pit::until_nul(raw).len() ==> #[trigger] raw[i] != 0,
        pit::until_nul(raw).len() < raw.len() ==> raw[pit::until_nul(raw).len() as int] == 0,
    decreases raw.len(),
{
    if raw.len() > 0 && raw[0] != 0 {
        let rest = raw.subrange(1, raw.len() as int);
        a_field_ends_at_its_first_zero(rest);
        let kept = pit::until_nul(raw);
        let n = pit::until_nul(rest).len() as int;
        assert forall|i: int| 0 <= i < kept.len() implies #[trigger] raw[i] != 0 by {
            if i > 0 {
                assert(rest[i - 1] == raw[i]);
            }
        }
        if kept.len() < raw.len() {
            assert(rest[n] == raw[n + 1]);
        }
        assert forall|i: int| 0 <= i < kept.len() implies kept[i] == raw[i] by {
            if i > 0 {
                assert(kept[i] == pit::until_nul(rest)[i - 1]);
                assert(pit::until_nul(rest)[i - 1] == rest.subrange(0, n)[i - 1]);
            }
        }
        assert(kept =~= raw.subrange(0, kept.len() as int));
    } else {
        assert(pit::until_nul(raw) =~= raw.subrange(0, 0));
    }
}

/// What a field holds is what stands in front of its first zero, and nothing
/// else is.
proof fn a_field_holds_one_thing(bytes: Seq<u8>, at: int, len: int)
    requires
        0 <= at,
        0 <= len,
        at + len <= bytes.len(),
    ensures
        pit::until_nul(bytes.subrange(at, at + len)) == field(bytes, at, len),
        holds(bytes, at, len, field(bytes, at, len).len() as int),
{
    let raw = bytes.subrange(at, at + len);
    let kept = pit::until_nul(raw);
    a_field_ends_at_its_first_zero(raw);
    let n = kept.len() as int;
    assert(holds(bytes, at, len, n)) by {
        assert forall|i: int| 0 <= i < n implies #[trigger] bytes[at + i] != 0 by {
            assert(raw[i] == bytes[at + i]);
        }
        if n < len {
            assert(raw[n] == bytes[at + n]);
        }
    }
    let m = choose|m: int| holds(bytes, at, len, m);
    assert(m == n) by {
        if m < n {
            assert(bytes[at + m] != 0);
        } else if n < m {
            assert(bytes[at + n] != 0);
        }
    }
    assert(kept =~= bytes.subrange(at, at + n));
}

/// The entry that starts at `at` describes `part`.
pub open spec fn entry_describes(bytes: Seq<u8>, at: int, part: PartitionView) -> bool {
    let name = field(bytes, at + 36, 32);
    let file = field(bytes, at + 68, 32);
    &&& part.device_type is OneNand <==> bytes::dword(bytes, at + 4) == 0
    &&& part.device_type is FileFat <==> bytes::dword(bytes, at + 4) == 1
    &&& part.device_type is Mmc <==> bytes::dword(bytes, at + 4) == 2
    &&& part.device_type is All <==> bytes::dword(bytes, at + 4) == 3
    &&& part.device_type matches DeviceType::Unknown(kind) ==> kind == bytes::dword(
        bytes,
        at + 4,
    )
    &&& part.identifier == bytes::dword(bytes, at + 8)
    &&& part.block_offset == bytes::dword(bytes, at + 20)
    &&& part.block_count == bytes::dword(bytes, at + 24)
    &&& part.name == text::trimmed(utf8::decode_utf8(name))
    &&& part.flash_filename == if utf8::valid_utf8(file) {
        text::trimmed(utf8::decode_utf8(file))
    } else {
        Seq::empty()
    }
}

/// An entry that can be read: its name is text, and not blank.
pub open spec fn entry_holds(bytes: Seq<u8>, at: int) -> bool {
    let name = field(bytes, at + 36, 32);
    utf8::valid_utf8(name) && text::trimmed(utf8::decode_utf8(name)).len() > 0
}

/// An entry of 132 bytes is read field by field.
#[verifier::rlimit(60)]
proof fn an_entry_is_what_its_bytes_say(bytes: Seq<u8>, at: int, index: int)
    requires
        0 <= at,
        at + 132 <= bytes.len(),
    ensures
        pit::entry_in(bytes.subrange(at, at + 132), index) is Ok <==> entry_holds(bytes, at),
        pit::entry_in(bytes.subrange(at, at + 132), index) matches Ok(part) ==> entry_describes(
            bytes,
            at,
            part,
        ),
{
    let entry = bytes.subrange(at, at + 132);
    bytes::a_field_keeps_every_bit(entry, 4);
    bytes::a_field_keeps_every_bit(entry, 8);
    bytes::a_field_keeps_every_bit(entry, 20);
    bytes::a_field_keeps_every_bit(entry, 24);
    a_field_holds_one_thing(bytes, at + 36, 32);
    a_field_holds_one_thing(bytes, at + 68, 32);
    assert(entry.subrange(36, 68) =~= bytes.subrange(at + 36, at + 68));
    assert(entry.subrange(68, 100) =~= bytes.subrange(at + 68, at + 100));
}

/// What makes bytes a PIT: the magic, a number of entries that is not absurd,
/// room for all of them, and a name in each.
pub open spec fn is_pit(bytes: Seq<u8>) -> bool {
    &&& bytes.len() >= 28
    &&& bytes[0] == 0x76 && bytes[1] == 0x98 && bytes[2] == 0x34 && bytes[3] == 0x12
    &&& bytes::dword(bytes, 4) <= 4096
    &&& bytes.len() >= 28 + 132 * bytes::dword(bytes, 4)
    &&& forall|i: int|
        0 <= i < bytes::dword(bytes, 4) ==> #[trigger] entry_holds(bytes, 28 + 132 * i)
}

proof fn the_entries_are_read_in_order(
    bytes: Seq<u8>,
    count: int,
    index: int,
    found: Seq<PartitionView>,
)
    requires
        0 <= index <= count,
        28 + 132 * count <= bytes.len(),
        found.len() == index,
        forall|i: int|
            0 <= i < index ==> entry_describes(bytes, 28 + 132 * i, #[trigger] found[i]),
    ensures
        ({
            let read = pit::entries_from(bytes, count, index, found);
            &&& read is Ok <==> forall|i: int|
                index <= i < count ==> #[trigger] entry_holds(bytes, 28 + 132 * i)
            &&& read matches Ok(all) ==> {
                &&& all.len() == count
                &&& forall|i: int|
                    0 <= i < count ==> entry_describes(bytes, 28 + 132 * i, #[trigger] all[i])
            }
        }),
    decreases count - index,
{
    if index < count {
        let at = 28 + 132 * index;
        assert(at == pit::HEADER_LEN + index * pit::ENTRY_LEN);
        an_entry_is_what_its_bytes_say(bytes, at, index);
        match pit::entry_in(bytes.subrange(at, at + 132), index) {
            Ok(part) => {
                let more = found.push(part);
                assert forall|i: int| 0 <= i < index + 1 implies entry_describes(
                    bytes,
                    28 + 132 * i,
                    #[trigger] more[i],
                ) by {
                    if i < index {
                        assert(more[i] == found[i]);
                    }
                }
                the_entries_are_read_in_order(bytes, count, index + 1, more);
                assert(entry_holds(bytes, 28 + 132 * index));
            },
            Err(_) => {
                assert(!entry_holds(bytes, 28 + 132 * index));
            },
        }
    }
}

/// Bytes parse exactly where they are a PIT, and then every entry is the one
/// its 132 bytes describe, in the order they stand in: where it starts, how long
/// it is and what it is called keep every bit.
pub proof fn a_pit_is_what_its_bytes_say(bytes: Seq<u8>)
    ensures
        pit::parsed(bytes) is Ok <==> is_pit(bytes),
        pit::parsed(bytes) matches Ok(pit) ==> {
            &&& pit.partitions.len() == bytes::dword(bytes, 4)
            &&& forall|i: int|
                0 <= i < pit.partitions.len() ==> entry_describes(
                    bytes,
                    28 + 132 * i,
                    #[trigger] pit.partitions[i],
                )
            &&& pit.port == text::trimmed(pit::lossy(field(bytes, 8, 4)))
            &&& pit.format == text::trimmed(pit::lossy(field(bytes, 12, 4)))
            &&& pit.chip == text::trimmed(pit::lossy(field(bytes, 16, 8)))
        },
{
    if bytes.len() >= 28 {
        bytes::a_field_keeps_every_bit(bytes, 0);
        bytes::a_field_keeps_every_bit(bytes, 4);
        let count = bytes::dword(bytes, 4);
        assert(bytes::le32(bytes, 0) == pit::MAGIC <==> bytes[0] == 0x76 && bytes[1] == 0x98
            && bytes[2] == 0x34 && bytes[3] == 0x12);
        if count <= 4096 && bytes.len() >= 28 + 132 * count {
            the_entries_are_read_in_order(bytes, count, 0, Seq::empty());
        }
        a_field_holds_one_thing(bytes, 8, 4);
        a_field_holds_one_thing(bytes, 12, 4);
        a_field_holds_one_thing(bytes, 16, 8);
    }
}

/// A block is 512 bytes: an entry starts and ends where that puts it, however
/// large its numbers are.
pub proof fn an_entry_counts_in_blocks(part: PartitionView)
    ensures
        part.byte_offset() == 512 * part.block_offset,
        part.byte_length() == 512 * part.block_count,
        part.byte_end() == 512 * (part.block_offset + part.block_count),
{
}

proof fn a_field_of_a_prefix(bytes: Seq<u8>, n: int, at: int, len: int)
    requires
        0 <= at,
        0 <= len,
        at + len <= n <= bytes.len(),
    ensures
        field(bytes.subrange(0, n), at, len) == field(bytes, at, len),
{
    let head = bytes.subrange(0, n);
    a_field_holds_one_thing(bytes, at, len);
    a_field_holds_one_thing(head, at, len);
    assert(head.subrange(at, at + len) =~= bytes.subrange(at, at + len));
}

proof fn the_entries_of_a_prefix(
    bytes: Seq<u8>,
    n: int,
    count: int,
    index: int,
    found: Seq<PartitionView>,
)
    requires
        0 <= index <= count,
        28 + 132 * count <= n <= bytes.len(),
    ensures
        pit::entries_from(bytes.subrange(0, n), count, index, found) == pit::entries_from(
            bytes,
            count,
            index,
            found,
        ),
    decreases count - index,
{
    if index < count {
        let at = 28 + 132 * index;
        assert(at == pit::HEADER_LEN + index * pit::ENTRY_LEN);
        assert(bytes.subrange(0, n).subrange(at, at + 132) =~= bytes.subrange(at, at + 132));
        if let Ok(part) = pit::entry_in(bytes.subrange(at, at + 132), index) {
            the_entries_of_a_prefix(bytes, n, count, index + 1, found.push(part));
        }
    }
}

/// What stands behind a table does not matter to it.
pub proof fn only_the_table_is_parsed(bytes: Seq<u8>, n: int)
    requires
        28 <= n <= bytes.len(),
        bytes::dword(bytes, 4) <= 4096 ==> 28 + 132 * bytes::dword(bytes, 4) <= n,
    ensures
        pit::parsed(bytes.subrange(0, n)) == pit::parsed(bytes),
{
    let head = bytes.subrange(0, n);
    bytes::a_field_keeps_every_bit(bytes, 4);
    assert(bytes::le32(head, 0) == bytes::le32(bytes, 0));
    assert(bytes::le32(head, 4) == bytes::le32(bytes, 4));
    let count = bytes::dword(bytes, 4);
    if count <= 4096 {
        the_entries_of_a_prefix(bytes, n, count, 0, Seq::empty());
        a_field_of_a_prefix(bytes, n, 8, 4);
        a_field_of_a_prefix(bytes, n, 12, 4);
        a_field_of_a_prefix(bytes, n, 16, 8);
        a_field_holds_one_thing(bytes, 8, 4);
        a_field_holds_one_thing(bytes, 12, 4);
        a_field_holds_one_thing(bytes, 16, 8);
        a_field_holds_one_thing(head, 8, 4);
        a_field_holds_one_thing(head, 12, 4);
        a_field_holds_one_thing(head, 16, 8);
    }
}

/// The whole sectors that hold `len` bytes, in bytes.
pub open spec fn sectors_around(len: int, size: int) -> int {
    (len + size - 1) / size * size
}

/// A table is read at a multiple of the sector size, from the bytes that stand
/// there, exactly where the sectors it lies in can be read.
#[verifier::rlimit(60)]
pub proof fn a_table_is_read_where_it_stands(image: ImageView, offset: u64)
    requires
        image.data.len() <= u64::MAX,
        0 < image.sector_size <= 4_194_304,
    ensures
        offset as int % image.sector_size as int != 0 ==> pit::table_at::<ImageSectors>(
            image,
            offset,
        ).0 is Err,
        pit::table_at::<ImageSectors>(image, offset).0 matches Ok(pit) ==> {
            &&& offset <= image.data.len()
            &&& pit::parsed(image.data.subrange(offset as int, image.data.len() as int)) == Ok::<
                PitView,
                ErrorView,
            >(pit)
        },
        ({
            let here = image.data.subrange(offset as int, image.data.len() as int);
            let size = image.sector_size as int;
            let around = sectors_around(28 + 132 * bytes::dword(here, 4), size);
            &&& offset as int % size == 0
            &&& offset <= image.data.len()
            &&& is_pit(here)
            &&& around <= 4_194_304
            &&& offset + around <= image.data.len()
        }) ==> pit::table_at::<ImageSectors>(image, offset).0 is Ok,
{
    let size = image.sector_size as int;
    let len = image.data.len() as int;
    if offset as int % size == 0 {
        vstd::arithmetic::div_mod::lemma_fundamental_div_mod(offset as int, size);
        let lba = offset as int / size;
        assert(lba * size == offset) by (nonlinear_arith)
            requires
                offset as int == size * lba,
        ;
        assert(0 <= lba <= offset) by (nonlinear_arith)
            requires
                lba * size == offset,
                size > 0,
                offset >= 0,
        ;
        let first = pit::sectors_for(28, image.sector_size);
        pit::whole_sectors_hold(28, image.sector_size);
        same_sectors_around(28, image.sector_size);
        parts::layout::an_image_gives_the_bytes_that_are_there(image, lba as u64, first);
        assert((lba + first) * size == offset + first * size) by (nonlinear_arith)
            requires
                lba * size == offset,
        ;
        if offset <= len {
            let here = image.data.subrange(offset as int, len);
            a_pit_is_what_its_bytes_say(here);
            if here.len() >= 8 {
                bytes::a_field_keeps_every_bit(here, 4);
                let count = bytes::dword(here, 4);
                if count <= 4096 {
                    sectors_go_up(28, 28 + 132 * count, size);
                }
            }
            if let Ok(head) = ImageSectors::serve(image, lba as u64, first).0 {
                assert(head =~= here.subrange(0, first * size));
                bytes::a_field_keeps_every_bit(head, 4);
                a_pit_is_what_its_bytes_say(head);
                assert(bytes::dword(head, 4) == bytes::dword(here, 4));
                let count = bytes::dword(here, 4);
                if let Ok(needed) = pit::announced(head) {
                    assert(needed == 28 + 132 * count);
                    if needed <= head.len() {
                        only_the_table_is_parsed(here, first * size);
                    } else {
                        let all = pit::sectors_for(needed as int, image.sector_size);
                        pit::whole_sectors_hold(needed as int, image.sector_size);
                        same_sectors_around(needed as int, image.sector_size);
                        parts::layout::an_image_gives_the_bytes_that_are_there(
                            image,
                            lba as u64,
                            all,
                        );
                        assert((lba + all) * size == offset + all * size) by (nonlinear_arith)
                            requires
                                lba * size == offset,
                        ;
                        if let Ok(whole) = ImageSectors::serve(image, lba as u64, all).0 {
                            assert(whole =~= here.subrange(0, all * size));
                            only_the_table_is_parsed(here, all * size);
                        }
                    }
                }
            }
        }
    }
}

proof fn same_sectors_around(len: int, sector: u32)
    requires
        sector > 0,
        0 < len <= 0xFFFF_FFFF,
    ensures
        pit::sectors_for(len, sector) * sector == sectors_around(len, sector as int),
{
    let size = sector as int;
    let up = transfer::rounded_up(len, size);
    transfer::rounding_up_finds_the_least_multiple(len, size);
    pit::whole_sectors_hold(len, sector);
    let n = pit::sectors_for(len, sector) as int;
    let q = (len + size - 1) / size;
    vstd::arithmetic::div_mod::lemma_fundamental_div_mod(len + size - 1, size);
    vstd::arithmetic::div_mod::lemma_mod_bound(len + size - 1, size);
    assert(n == q) by (nonlinear_arith)
        requires
            len <= n * size < len + size,
            len + size - 1 == size * q + (len + size - 1) % size,
            0 <= (len + size - 1) % size < size,
            size > 0,
    ;
}

proof fn sectors_go_up(a: int, b: int, size: int)
    requires
        a <= b,
        size > 0,
    ensures
        sectors_around(a, size) <= sectors_around(b, size),
{
    vstd::arithmetic::div_mod::lemma_div_is_ordered(a + size - 1, b + size - 1, size);
    let p = (a + size - 1) / size;
    let q = (b + size - 1) / size;
    assert(p * size <= q * size) by (nonlinear_arith)
        requires
            p <= q,
            size > 0,
    ;
}

/// Every storage type goes by its own name, and one that is not known by its
/// number.
pub proof fn every_storage_has_its_own_name(a: DeviceType, b: DeviceType)
    ensures
        a.name() == b.name() && !(a is Unknown) && !(b is Unknown) ==> a == b,
        a matches DeviceType::Unknown(raw) ==> a.name() == "unknown("@ + text::dec(raw as nat)
            + ")"@,
{
    reveal_strlit("onenand");
    reveal_strlit("filefat");
    reveal_strlit("mmc");
    reveal_strlit("all");
    assert("onenand"@[0] == 'o');
    assert("filefat"@[0] == 'f');
    assert("mmc"@[0] == 'm');
    assert("all"@[0] == 'a');
}

/// Whatever a PIT is read from, it is the one that the sectors at its offset
/// hold.
pub proof fn a_pit_is_read_from_its_sectors<S: Sectors>(medium: S::Medium, offset: u64)
    ensures
        pit::table_at::<S>(medium, offset).0 matches Ok(table) ==> exists|
            from: S::Medium,
            lba: u64,
            count: u64,
        |
            {
                let read = (#[trigger] S::serve(from, lba, count)).0;
                &&& lba * S::sector_bytes(medium) == offset
                &&& read is Ok
                &&& pit::parsed(read->Ok_0) == Ok::<PitView, ErrorView>(table)
            },
{
    let sector = S::sector_bytes(medium);
    if sector > 0 && offset as int % sector as int == 0 {
        let size = sector as int;
        vstd::arithmetic::div_mod::lemma_fundamental_div_mod(offset as int, size);
        let lba = offset as int / size;
        assert(lba * size == offset) by (nonlinear_arith)
            requires
                offset as int == size * lba,
        ;
        assert(0 <= lba <= offset) by (nonlinear_arith)
            requires
                lba * size == offset,
                size > 0,
                offset >= 0,
        ;
        let (read, after) = S::serve(medium, lba as u64, pit::sectors_for(28, sector));
        if let Ok(head) = read {
            if let Ok(needed) = pit::announced(head) {
                if needed > head.len() {
                    let _ = S::serve(after, lba as u64, pit::sectors_for(needed as int, sector));
                }
            }
        }
    }
}

} // verus!
