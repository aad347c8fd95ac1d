//! Which ranges a device takes, and what a transfer of one does to it, byte by
//! byte.

use vstd::arithmetic::power2;
use vstd::prelude::*;

use crate::device::{DeviceInfoView, MemoryDevice, MemoryState, RawDevice};
use crate::error::ErrorView;
use crate::medium;
use crate::parts::layout;
use crate::parts::{DeviceSectors, ImageSectors, ImageView, Recorded, Sectors};
use crate::progress::Progress;
use crate::stream::Source;
use crate::transfer;
use crate::transfer::Transfer;

verus! {

/// The whole sectors that `len` bytes lie in, in bytes.
pub open spec fn around(len: int, size: int) -> int {
    (len + size - 1) / size * size
}

/// A sector size that is a power of two, up to a MiB.
pub open spec fn regular(size: u32) -> bool {
    exists|e: nat| e <= 20 && size == #[trigger] power2::pow2(e)
}

proof fn rounding_up_goes_around(len: int, size: int)
    requires
        size > 0,
        len >= 0,
    ensures
        transfer::rounded_up(len, size) == around(len, size),
        len <= around(len, size) < len + size,
{
    transfer::rounding_up_finds_the_least_multiple(len, size);
    let up = transfer::rounded_up(len, size);
    let n = up / size;
    let q = (len + size - 1) / size;
    vstd::arithmetic::div_mod::lemma_fundamental_div_mod(up, size);
    vstd::arithmetic::div_mod::lemma_fundamental_div_mod(len + size - 1, size);
    vstd::arithmetic::div_mod::lemma_mod_bound(len + size - 1, size);
    assert(n == q) by (nonlinear_arith)
        requires
            len <= size * n < len + size,
            len + size - 1 == size * q + (len + size - 1) % size,
            0 <= (len + size - 1) % size < size,
            size > 0,
    ;
    assert(size * n == q * size) by (nonlinear_arith)
        requires
            n == q,
    ;
}

/// A transfer is approved exactly where the sector size is a power of two of at
/// most a MiB, the range starts on a sector, and the whole sectors it lies in
/// are on the device, as far as the device says how large it is. The answer is
/// where the range ends. A range that is refused for where it lies is a wrong
/// argument; a sector size is the device's fault.
pub proof fn a_range_is_approved_where_the_device_has_it(
    info: DeviceInfoView,
    offset: u64,
    length: u64,
)
    ensures
        ({
            let size = info.logical_sector_size as int;
            let answer = transfer::range_check(info, offset, length);
            &&& answer is Ok <==> {
                &&& regular(info.logical_sector_size)
                &&& offset as int % size == 0
                &&& offset + length <= u64::MAX
                &&& around(length as int, size) <= u64::MAX
                &&& info.size_bytes matches Some(bytes) ==> offset + around(length as int, size)
                    <= bytes
            }
            &&& answer matches Ok(end) ==> end == offset + length
            &&& answer matches Err(err) ==> if regular(info.logical_sector_size) {
                err is InvalidArgument && err.code() == 2
            } else {
                err is Device && err.code() == 3
            }
        }),
{
    let sector = info.logical_sector_size;
    if regular(sector) {
        let e = choose|e: nat| e <= 20 && sector == #[trigger] power2::pow2(e);
        assert(transfer::usable_sector(sector));
        power2::lemma_pow2_pos(e);
        rounding_up_goes_around(length as int, sector as int);
    } else {
        assert(!transfer::usable_sector(sector));
    }
}

/// A device of a known size takes every range on it that starts on a sector.
pub proof fn what_lies_on_a_device_is_approved(
    info: DeviceInfoView,
    bytes: u64,
    offset: u64,
    length: u64,
)
    requires
        regular(info.logical_sector_size),
        info.size_bytes == Some(bytes),
        offset as int % info.logical_sector_size as int == 0,
        bytes as int % info.logical_sector_size as int == 0,
        offset + length <= bytes,
    ensures
        transfer::range_check(info, offset, length) == Ok::<u64, ErrorView>(
            (offset + length) as u64,
        ),
{
    a_range_is_approved_where_the_device_has_it(info, offset, length);
    let size = info.logical_sector_size as int;
    assert(transfer::usable_sector(info.logical_sector_size));
    transfer::sectors_fill_a_chunk(info.logical_sector_size);
    rounding_up_goes_around(length as int, size);
    transfer::rounding_up_finds_the_least_multiple(length as int, size);
    crate::pit::whole_sectors_apart(bytes as int, offset as int, size);
    assert((bytes - offset) % size == 0);
    assert(bytes - offset >= transfer::rounded_up(length as int, size));
}

/// A read that only looks is approved exactly where the sector size is usable
/// and the whole sectors up to its end are on the device. It may start anywhere.
pub proof fn a_look_is_approved_where_the_device_has_it(
    info: DeviceInfoView,
    offset: u64,
    length: u64,
)
    ensures
        ({
            let size = info.logical_sector_size as int;
            let answer = transfer::read_range_check(info, offset, length);
            &&& answer is Ok <==> {
                &&& regular(info.logical_sector_size)
                &&& offset + length <= u64::MAX
                &&& around(offset + length, size) <= u64::MAX
                &&& info.size_bytes matches Some(bytes) ==> around(offset + length, size) <= bytes
            }
            &&& answer matches Ok(end) ==> end == offset + length
            &&& answer matches Err(err) ==> if regular(info.logical_sector_size) {
                err is InvalidArgument && err.code() == 2
            } else {
                err is Device && err.code() == 3
            }
        }),
{
    let sector = info.logical_sector_size;
    if regular(sector) {
        let e = choose|e: nat| e <= 20 && sector == #[trigger] power2::pow2(e);
        assert(transfer::usable_sector(sector));
        power2::lemma_pow2_pos(e);
        rounding_up_goes_around(offset + length, sector as int);
    } else {
        assert(!transfer::usable_sector(sector));
    }
}

/// A range of whole bytes in whole sectors of a device in memory.
pub open spec fn lies_on(device: MemoryState, offset: u64, length: u64) -> bool {
    let size = device.info.logical_sector_size;
    &&& regular(size)
    &&& offset as int % size as int == 0
    &&& offset + around(length as int, size as int) <= device.data.len()
}

pub(crate) proof fn what_lies_on_memory_is_approved(device: MemoryState, offset: u64, length: u64)
    requires
        medium::sound(device),
        lies_on(device, offset, length),
    ensures
        transfer::range_check(device.info, offset, length) is Ok,
        offset + length <= device.data.len(),
{
    a_range_is_approved_where_the_device_has_it(device.info, offset, length);
    let size = device.info.logical_sector_size;
    assert(transfer::usable_sector(size));
    transfer::sectors_fill_a_chunk(size);
    rounding_up_goes_around(length as int, size as int);
}

/// A removable device that stays takes every image that lies on it: each byte
/// of the image ends up where it belongs, and every other byte of the device is
/// what it was.
pub proof fn an_image_that_lies_on_a_device_is_written<'a, P: Progress>(
    at: Transfer<MemoryState, Seq<u8>, P::State>,
    offset: u64,
    length: u64,
)
    requires
        medium::healthy(at.device),
        at.device.info.removability is Removable,
        lies_on(at.device, offset, length),
        at.file.len() >= length,
    ensures
        ({
            let (answer, after) = transfer::flashed::<MemoryDevice, &'a [u8], P>(
                at,
                offset,
                length,
            );
            &&& answer == Ok::<u64, ErrorView>(length)
            &&& after.device.data.len() == at.device.data.len()
            &&& forall|i: int|
                0 <= i < at.device.data.len() ==> #[trigger] after.device.data[i] == if offset
                    <= i < offset + length {
                    at.file[i - offset]
                } else {
                    at.device.data[i]
                }
            &&& after.file == at.file.subrange(length as int, at.file.len() as int)
        }),
{
    what_lies_on_memory_is_approved(at.device, offset, length);
    medium::a_flash_succeeds_on_a_healthy_device::<P>(at, offset, length);
}

/// What an aborted flash says of the medium is so, byte by byte: the bytes it
/// counts are on the medium and nothing else is changed.
pub proof fn what_an_aborted_flash_says_is_so<'a, P: Progress>(
    at: Transfer<MemoryState, Seq<u8>, P::State>,
    offset: u64,
    length: u64,
)
    requires
        medium::sound(at.device),
    ensures
        ({
            let (answer, after) = transfer::flashed::<MemoryDevice, &'a [u8], P>(
                at,
                offset,
                length,
            );
            answer matches Err(err) ==> {
                let written = match err {
                    ErrorView::WriteAborted { written, .. } => written as int,
                    _ => 0,
                };
                &&& err is WriteAborted ==> err->WriteAborted_start == offset
                &&& after.device.data.len() == at.device.data.len()
                &&& forall|i: int|
                    0 <= i < at.device.data.len() ==> #[trigger] after.device.data[i] == if offset
                        <= i < offset + written {
                        at.file[i - offset]
                    } else {
                        at.device.data[i]
                    }
            }
        }),
{
    medium::what_a_flash_reports_is_what_landed::<P>(at, offset, length);
}

/// A device that can be read gives every range that lies on it, byte by byte.
pub proof fn a_range_that_lies_on_a_device_is_dumped<P: Progress>(
    at: Transfer<MemoryState, Seq<u8>, P::State>,
    offset: u64,
    length: u64,
)
    requires
        medium::readable(at.device),
        lies_on(at.device, offset, length),
    ensures
        ({
            let (answer, after) = transfer::dumped::<MemoryDevice, Vec<u8>, P>(at, offset, length);
            &&& answer == Ok::<u64, ErrorView>(length)
            &&& after.device == at.device
            &&& after.file.len() == at.file.len() + length
            &&& forall|i: int|
                0 <= i < after.file.len() ==> #[trigger] after.file[i] == if i < at.file.len() {
                    at.file[i]
                } else {
                    at.device.data[offset + i - at.file.len()]
                }
        }),
{
    what_lies_on_memory_is_approved(at.device, offset, length);
    medium::a_dump_copies_the_range::<P>(at, offset, length);
}

/// A comparison of a range that lies on a device passes exactly where every
/// byte is the same, and otherwise names the first that is not.
pub proof fn a_range_that_lies_on_a_device_is_compared<'a, P: Progress>(
    at: Transfer<MemoryState, Seq<u8>, P::State>,
    offset: u64,
    length: u64,
)
    requires
        medium::readable(at.device),
        lies_on(at.device, offset, length),
        at.file.len() >= length,
    ensures
        ({
            let (answer, after) = transfer::verified::<MemoryDevice, &'a [u8], P>(
                at,
                offset,
                length,
            );
            &&& after.device == at.device
            &&& match answer {
                Ok(count) => {
                    &&& count == length
                    &&& forall|i: int|
                        0 <= i < length ==> at.device.data[offset + i] == #[trigger] at.file[i]
                },
                Err(err) => {
                    &&& err matches ErrorView::VerifyFailed { offset: place, expected, found } && {
                        &&& offset <= place < offset + length
                        &&& expected == at.file[place - offset]
                        &&& found == at.device.data[place as int]
                        &&& expected != found
                        &&& forall|i: int|
                            0 <= i < place - offset ==> at.device.data[offset + i]
                                == #[trigger] at.file[i]
                    }
                },
            }
        }),
{
    what_lies_on_memory_is_approved(at.device, offset, length);
    medium::a_verify_finds_the_first_difference::<P>(at, offset, length);
    let found = at.device.data.subrange(offset as int, offset + length);
    let expected = at.file.subrange(0, length as int);
    let (answer, _) = transfer::verified::<MemoryDevice, &'a [u8], P>(at, offset, length);
    if answer is Ok {
        assert forall|i: int| 0 <= i < length implies at.device.data[offset + i]
            == #[trigger] at.file[i] by {
            assert(found[i] == expected[i]);
        }
    } else {
        let k = choose|k: int|
            {
                &&& #[trigger] transfer::differ_first_at(found, expected, k)
                &&& answer == Err::<u64, ErrorView>(
                    ErrorView::VerifyFailed {
                        offset: (offset + k) as u64,
                        expected: expected[k],
                        found: found[k],
                    },
                )
            };
        assert forall|i: int| 0 <= i < k implies at.device.data[offset + i]
            == #[trigger] at.file[i] by {
            assert(found[i] == expected[i]);
        }
    }
}

/// A look at a range that is on a device gives it byte by byte, wherever in a
/// sector it starts.
pub proof fn a_look_gives_the_bytes_that_are_there(
    at: Transfer<MemoryState, Seq<u8>, ()>,
    offset: u64,
    length: u64,
)
    requires
        medium::readable(at.device),
        regular(at.device.info.logical_sector_size),
        around(offset + length, at.device.info.logical_sector_size as int)
            <= at.device.data.len(),
    ensures
        ({
            let (answer, after) = transfer::read_through::<
                MemoryDevice,
                Vec<u8>,
                transfer::Collect,
            >(at, offset, length);
            &&& answer == Ok::<u64, ErrorView>(length)
            &&& after.device == at.device
            &&& after.file.len() == at.file.len() + length
            &&& forall|i: int|
                0 <= i < after.file.len() ==> #[trigger] after.file[i] == if i < at.file.len() {
                    at.file[i]
                } else {
                    at.device.data[offset + i - at.file.len()]
                }
        }),
{
    a_look_is_approved_where_the_device_has_it(at.device.info, offset, length);
    let size = at.device.info.logical_sector_size;
    assert(transfer::usable_sector(size));
    transfer::sectors_fill_a_chunk(size);
    rounding_up_goes_around(offset + length, size as int);
    medium::a_read_starts_where_it_was_asked_to(at, offset, length);
}

/// Reading sectors of a device in memory is reading an image of what it holds.
pub proof fn the_sectors_of_a_device_are_those_of_its_image(
    medium: Recorded<MemoryState>,
    lba: u64,
    count: u64,
)
    requires
        medium.device.data.len() <= usize::MAX,
        medium.device.data.len() <= u64::MAX,
        medium.device.fail_read_at is None,
    ensures
        ({
            let image = ImageView {
                data: medium.device.data,
                sector_size: medium.device.info.logical_sector_size,
            };
            let (read, after) = DeviceSectors::<MemoryDevice>::serve(medium, lba, count);
            &&& after.device == medium.device
            &&& read is Ok <==> ImageSectors::serve(image, lba, count).0 is Ok
            &&& read matches Ok(bytes) ==> {
                &&& bytes.len() == count * image.sector_size
                &&& forall|i: int|
                    0 <= i < bytes.len() ==> #[trigger] bytes[i] == medium.device.data[lba
                        * image.sector_size + i]
            }
        }),
{
    let image = ImageView {
        data: medium.device.data,
        sector_size: medium.device.info.logical_sector_size,
    };
    layout::an_image_gives_the_bytes_that_are_there(image, lba, count);
    let s = image.sector_size as int;
    assert((lba + count) * s == lba * s + count * s) by (nonlinear_arith);
}

/// A device in memory keeps what is written to it and gives it back, byte by
/// byte, and neither reads nor writes past its end.
pub proof fn a_device_in_memory_keeps_its_bytes(
    device: MemoryState,
    offset: u64,
    bytes: Seq<u8>,
    buf: Seq<u8>,
)
    requires
        medium::healthy(device),
        bytes.len() <= usize::MAX,
        buf.len() <= usize::MAX,
    ensures
        ({
            let (read, held, same) = MemoryDevice::read_step(device, offset, buf);
            &&& same == device
            &&& read is Ok <==> offset + buf.len() <= device.data.len()
            &&& read matches Ok(n) ==> {
                &&& n == buf.len()
                &&& held.len() == buf.len()
                &&& forall|i: int|
                    0 <= i < held.len() ==> #[trigger] held[i] == device.data[offset + i]
            }
        }),
        ({
            let (written, after) = MemoryDevice::write_step(device, offset, bytes);
            &&& written is Ok <==> offset + bytes.len() <= device.data.len()
            &&& written is Err ==> after == device
            &&& after.data.len() == device.data.len()
            &&& written matches Ok(n) ==> n == bytes.len() && forall|i: int|
                0 <= i < device.data.len() ==> #[trigger] after.data[i] == if offset <= i < offset
                    + bytes.len() {
                    bytes[i - offset]
                } else {
                    device.data[i]
                }
        }),
{
}

/// A device by what it holds, whatever size it says it has.
pub open spec fn said_to_be(device: MemoryState, size: Option<u64>) -> MemoryState {
    MemoryState { info: DeviceInfoView { size_bytes: size, ..device.info }, ..device }
}

proof fn a_flash_from_here_does_not_ask_the_size<'a, P: Progress>(
    at: Transfer<MemoryState, Seq<u8>, P::State>,
    size: Option<u64>,
    offset: u64,
    length: u64,
    sector: u32,
    done: u64,
    last_flushed: u64,
)
    ensures
        ({
            let (answer, after) = transfer::flash_from::<MemoryDevice, &'a [u8], P>(
                at,
                offset,
                length,
                sector,
                done,
                last_flushed,
            );
            transfer::flash_from::<MemoryDevice, &'a [u8], P>(
                Transfer { device: said_to_be(at.device, size), ..at },
                offset,
                length,
                sector,
                done,
                last_flushed,
            ) == (answer, Transfer { device: said_to_be(after.device, size), ..after })
        }),
    decreases length - done,
{
    let other = Transfer { device: said_to_be(at.device, size), ..at };
    if done < length {
        a_chunk_does_not_ask_the_size::<P>(at, size, offset, length, sector, done, last_flushed);
        let (chunk, after) = transfer::flash_chunk::<MemoryDevice, &'a [u8], P>(
            at,
            offset,
            length,
            sector,
            done,
            last_flushed,
        );
        if let Ok(flushed) = chunk {
            a_flash_from_here_does_not_ask_the_size::<P>(
                after,
                size,
                offset,
                length,
                sector,
                (done + transfer::chunk_of(length - done)) as u64,
                flushed,
            );
        }
    }
}

#[verifier::rlimit(60)]
proof fn a_chunk_does_not_ask_the_size<'a, P: Progress>(
    at: Transfer<MemoryState, Seq<u8>, P::State>,
    size: Option<u64>,
    offset: u64,
    length: u64,
    sector: u32,
    done: u64,
    last_flushed: u64,
)
    ensures
        ({
            let (answer, after) = transfer::flash_chunk::<MemoryDevice, &'a [u8], P>(
                at,
                offset,
                length,
                sector,
                done,
                last_flushed,
            );
            transfer::flash_chunk::<MemoryDevice, &'a [u8], P>(
                Transfer { device: said_to_be(at.device, size), ..at },
                offset,
                length,
                sector,
                done,
                last_flushed,
            ) == (answer, Transfer { device: said_to_be(after.device, size), ..after })
        }),
{
    reveal(transfer::flash_chunk);
}

/// The size a device says it has decides which ranges it takes and nothing
/// else: a flash it takes does the same whatever that size is, and whether it
/// says one at all.
pub proof fn a_size_decides_only_what_is_refused<'a, P: Progress>(
    at: Transfer<MemoryState, Seq<u8>, P::State>,
    size: Option<u64>,
    offset: u64,
    length: u64,
)
    requires
        transfer::range_check(at.device.info, offset, length) is Ok,
        transfer::range_check(said_to_be(at.device, size).info, offset, length) is Ok,
    ensures
        ({
            let (answer, after) = transfer::flashed::<MemoryDevice, &'a [u8], P>(
                at,
                offset,
                length,
            );
            let other = Transfer { device: said_to_be(at.device, size), ..at };
            let (same, there) = transfer::flashed::<MemoryDevice, &'a [u8], P>(
                other,
                offset,
                length,
            );
            &&& at.device.info.removability is Removable ==> same == answer
            &&& answer is Ok <==> same is Ok
            &&& there.device.data == after.device.data
            &&& there.device.flushes == after.device.flushes
            &&& there.file == after.file
        }),
{
    a_flash_from_here_does_not_ask_the_size::<P>(
        at,
        size,
        offset,
        length,
        at.device.info.logical_sector_size,
        0,
        0,
    );
}

proof fn a_dump_from_here_does_not_ask_the_size<P: Progress>(
    at: Transfer<MemoryState, Seq<u8>, P::State>,
    size: Option<u64>,
    offset: u64,
    length: u64,
    sector: u32,
    done: u64,
)
    ensures
        ({
            let (answer, after) = transfer::dump_from::<MemoryDevice, Vec<u8>, P>(
                at,
                offset,
                length,
                sector,
                done,
            );
            transfer::dump_from::<MemoryDevice, Vec<u8>, P>(
                Transfer { device: said_to_be(at.device, size), ..at },
                offset,
                length,
                sector,
                done,
            ) == (answer, Transfer { device: said_to_be(after.device, size), ..after })
        }),
    decreases length - done,
{
    if done < length {
        let want = transfer::chunk_of(length - done);
        let (read, device, trace) = transfer::read_sectors::<MemoryDevice>(
            at.device,
            at.trace,
            "read "@,
            (offset + done) as u64,
            transfer::rounded_up(want, sector as int),
        );
        if let Ok(bytes) = read {
            let now = (done + want) as u64;
            a_dump_from_here_does_not_ask_the_size::<P>(
                Transfer {
                    device,
                    trace,
                    file: at.file + bytes.subrange(0, want),
                    progress: P::on(
                        at.progress,
                        crate::progress::ProgressEvent::Advance { done: now, total: length },
                    ),
                },
                size,
                offset,
                length,
                sector,
                now,
            );
        }
    }
}

/// The same of a dump.
pub proof fn a_size_decides_only_what_is_not_dumped<P: Progress>(
    at: Transfer<MemoryState, Seq<u8>, P::State>,
    size: Option<u64>,
    offset: u64,
    length: u64,
)
    requires
        transfer::range_check(at.device.info, offset, length) is Ok,
        transfer::range_check(said_to_be(at.device, size).info, offset, length) is Ok,
    ensures
        ({
            let (answer, after) = transfer::dumped::<MemoryDevice, Vec<u8>, P>(at, offset, length);
            let other = Transfer { device: said_to_be(at.device, size), ..at };
            let (same, there) = transfer::dumped::<MemoryDevice, Vec<u8>, P>(
                other,
                offset,
                length,
            );
            &&& same == answer
            &&& there.device.data == after.device.data
            &&& there.file == after.file
        }),
{
    a_dump_from_here_does_not_ask_the_size::<P>(
        at,
        size,
        offset,
        length,
        at.device.info.logical_sector_size,
        0,
    );
}

proof fn a_comparison_from_here_does_not_ask_the_size<'a, P: Progress>(
    at: Transfer<MemoryState, Seq<u8>, P::State>,
    size: Option<u64>,
    offset: u64,
    length: u64,
    sector: u32,
    done: u64,
)
    ensures
        ({
            let (answer, after) = transfer::verify_from::<MemoryDevice, &'a [u8], P>(
                at,
                offset,
                length,
                sector,
                done,
            );
            transfer::verify_from::<MemoryDevice, &'a [u8], P>(
                Transfer { device: said_to_be(at.device, size), ..at },
                offset,
                length,
                sector,
                done,
            ) == (answer, Transfer { device: said_to_be(after.device, size), ..after })
        }),
    decreases length - done,
{
    if done < length {
        let want = transfer::chunk_of(length - done);
        let (read, device, trace) = transfer::read_sectors::<MemoryDevice>(
            at.device,
            at.trace,
            "verify read "@,
            (offset + done) as u64,
            transfer::rounded_up(want, sector as int),
        );
        if read is Ok {
            let now = (done + want) as u64;
            let (served, expected, file) = <&'a [u8]>::read_step(at.file, transfer::zeros(want));
            a_comparison_from_here_does_not_ask_the_size::<P>(
                Transfer {
                    device,
                    file,
                    trace,
                    progress: P::on(
                        at.progress,
                        crate::progress::ProgressEvent::Advance { done: now, total: length },
                    ),
                },
                size,
                offset,
                length,
                sector,
                now,
            );
        }
    }
}

/// The same of a comparison.
pub proof fn a_size_decides_only_what_is_not_compared<'a, P: Progress>(
    at: Transfer<MemoryState, Seq<u8>, P::State>,
    size: Option<u64>,
    offset: u64,
    length: u64,
)
    requires
        transfer::range_check(at.device.info, offset, length) is Ok,
        transfer::range_check(said_to_be(at.device, size).info, offset, length) is Ok,
    ensures
        ({
            let (answer, after) = transfer::verified::<MemoryDevice, &'a [u8], P>(
                at,
                offset,
                length,
            );
            let other = Transfer { device: said_to_be(at.device, size), ..at };
            let (same, there) = transfer::verified::<MemoryDevice, &'a [u8], P>(
                other,
                offset,
                length,
            );
            &&& same == answer
            &&& there.device.data == after.device.data
            &&& there.file == after.file
        }),
{
    a_comparison_from_here_does_not_ask_the_size::<P>(
        at,
        size,
        offset,
        length,
        at.device.info.logical_sector_size,
        0,
    );
}

/// Every read of sectors that was asked of a device is on its record, once, with
/// what came of it; one that was not asked of it is not.
pub proof fn a_read_of_sectors_is_recorded<D: RawDevice>(
    medium: Recorded<D::State>,
    lba: u64,
    count: u64,
)
    ensures
        ({
            let (read, after) = DeviceSectors::<D>::serve(medium, lba, count);
            let size = D::described(medium.device).logical_sector_size;
            let asked = 0 < count * size <= 4_194_304 && lba * size <= u64::MAX;
            &&& !asked ==> read is Err && after == medium
            &&& asked ==> {
                &&& after.trace.len() == medium.trace.len() + 1
                &&& after.trace.subrange(0, medium.trace.len() as int) == medium.trace
                &&& read is Ok <==> after.trace.last().outcome is Succeeded
                &&& read is Ok <==> D::read_step(
                    medium.device,
                    (lba * size) as u64,
                    transfer::zeros(count * size),
                ).0 is Ok
            }
        }),
{
    let (_, after) = DeviceSectors::<D>::serve(medium, lba, count);
    if after.trace.len() == medium.trace.len() + 1 {
        assert(after.trace.subrange(0, medium.trace.len() as int) =~= medium.trace);
    }
}

proof fn a_look_from_here_does_not_ask_the_size(
    at: Transfer<MemoryState, Seq<u8>, ()>,
    size: Option<u64>,
    offset: u64,
    length: u64,
    sector: u32,
    done: u64,
)
    ensures
        ({
            let (answer, after) = transfer::read_from::<
                MemoryDevice,
                Vec<u8>,
                transfer::Collect,
            >(at, offset, length, sector, done);
            transfer::read_from::<MemoryDevice, Vec<u8>, transfer::Collect>(
                Transfer { device: said_to_be(at.device, size), ..at },
                offset,
                length,
                sector,
                done,
            ) == (answer, Transfer { device: said_to_be(after.device, size), ..after })
        }),
    decreases length - done,
{
    if done < length {
        let from = offset + done;
        let head = transfer::head_of(from, sector);
        let want = transfer::run_of(length - done, from, sector);
        let (read, device, trace) = transfer::read_sectors::<MemoryDevice>(
            at.device,
            at.trace,
            "read "@,
            (from - head) as u64,
            transfer::rounded_up(head + want, sector as int),
        );
        if let Ok(bytes) = read {
            if want > 0 {
                a_look_from_here_does_not_ask_the_size(
                    Transfer {
                        device,
                        trace,
                        file: at.file + bytes.subrange(head, head + want),
                        progress: (),
                    },
                    size,
                    offset,
                    length,
                    sector,
                    (done + want) as u64,
                );
            }
        }
    }
}

/// The same of a look.
pub proof fn a_size_decides_only_what_is_not_shown(
    at: Transfer<MemoryState, Seq<u8>, ()>,
    size: Option<u64>,
    offset: u64,
    length: u64,
)
    requires
        transfer::read_range_check(at.device.info, offset, length) is Ok,
        transfer::read_range_check(said_to_be(at.device, size).info, offset, length) is Ok,
    ensures
        ({
            let (answer, after) = transfer::read_through::<
                MemoryDevice,
                Vec<u8>,
                transfer::Collect,
            >(at, offset, length);
            let other = Transfer { device: said_to_be(at.device, size), ..at };
            let (same, there) = transfer::read_through::<
                MemoryDevice,
                Vec<u8>,
                transfer::Collect,
            >(other, offset, length);
            &&& same == answer
            &&& there.file == after.file
        }),
{
    a_look_from_here_does_not_ask_the_size(
        at,
        size,
        offset,
        length,
        at.device.info.logical_sector_size,
        0,
    );
}

} // verus!
