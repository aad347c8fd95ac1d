//! What a transfer leaves behind, stated on the in-memory device: the bytes on
//! the medium, the bytes in the file, and what the caller was told of them.

use vstd::prelude::*;

use crate::device::{MemoryDevice, MemoryState};
use crate::error::ErrorView;
use crate::progress::Progress;
use crate::reading;
use crate::stream;
use crate::transfer;
use crate::transfer::{Transfer, CHUNK, FLUSH_INTERVAL};

verus! {

/// A device that holds as many bytes as it says, in memory that can be addressed.
pub open spec fn sound(device: MemoryState) -> bool {
    &&& device.info.size_bytes == Some(device.data.len() as u64)
    &&& device.data.len() <= usize::MAX
    &&& device.data.len() <= u64::MAX
}

/// A device that will not vanish while it is read.
pub open spec fn readable(device: MemoryState) -> bool {
    sound(device) && device.fail_read_at is None
}

/// A device that will not vanish at all.
pub open spec fn healthy(device: MemoryState) -> bool {
    readable(device) && device.fail_write_at is None
}

proof fn rounding_moves_with_whole_sectors(value: int, by: int, step: int)
    requires
        step > 0,
        by % step == 0,
    ensures
        transfer::rounded_up(value - by, step) == transfer::rounded_up(value, step) - by,
{
    vstd::arithmetic::div_mod::lemma_sub_mod_noop_right(value, by, step);
    assert((value - by) % step == value % step) by {
        vstd::arithmetic::div_mod::lemma_sub_mod_noop(value, by, step);
        vstd::arithmetic::div_mod::lemma_mod_twice(value, step);
    }
}

/// A chunk of a range that passed its check lies on the device, whole sectors
/// and all.
pub(crate) proof fn a_chunk_lies_on_the_device(device: MemoryState, offset: u64, length: u64, done: u64)
    requires
        sound(device),
        transfer::range_check(device.info, offset, length) is Ok,
        done < length,
        done as int % CHUNK as int == 0,
    ensures
        ({
            let sector = device.info.logical_sector_size;
            let want = transfer::chunk_of(length - done);
            &&& 0 < sector <= CHUNK
            &&& 0 < want <= length - done
            &&& want <= transfer::rounded_up(want, sector as int) <= CHUNK
            &&& transfer::rounded_up(want, sector as int) < want + sector
            &&& offset + done + transfer::rounded_up(want, sector as int) <= device.data.len()
            &&& done + want < length ==> (done + want) % CHUNK as int == 0
            &&& offset + length <= device.data.len()
        }),
{
    let sector = device.info.logical_sector_size;
    let want = transfer::chunk_of(length - done);
    transfer::sectors_fill_a_chunk(sector);
    transfer::a_rounded_chunk_fits(want, sector);
    transfer::rounding_up_finds_the_least_multiple(length as int, sector as int);
    transfer::rounding_up_finds_the_least_multiple(want, sector as int);
    let k = CHUNK as int / sector as int;
    vstd::arithmetic::div_mod::lemma_fundamental_div_mod(CHUNK as int, sector as int);
    vstd::arithmetic::div_mod::lemma_fundamental_div_mod(done as int, CHUNK as int);
    let q = done as int / CHUNK as int;
    assert(done as int == (q * k) * sector as int) by (nonlinear_arith)
        requires
            done as int == CHUNK as int * q,
            CHUNK as int == sector as int * k,
    ;
    vstd::arithmetic::div_mod::lemma_mod_multiples_basic(q * k, sector as int);
    rounding_moves_with_whole_sectors(length as int, done as int, sector as int);
    if want == CHUNK {
        assert((done + CHUNK) % CHUNK as int == 0) by {
            vstd::arithmetic::div_mod::lemma_mod_add_multiples_vanish(done as int, CHUNK as int);
        }
        assert(transfer::rounded_up(CHUNK as int, sector as int) == CHUNK);
    }
}

/// How many bytes of the image an answer says have landed.
pub open spec fn landed(answer: Result<u64, ErrorView>) -> u64 {
    match answer {
        Ok(written) => written,
        Err(ErrorView::WriteAborted { written, .. }) => written,
        Err(_) => 0,
    }
}

/// What one chunk of a flash does to the medium: all of it lands, or none.
#[verifier::rlimit(60)]
pub(crate) proof fn a_chunk_lands<'a, P: Progress>(
    at: Transfer<MemoryState, Seq<u8>, P::State>,
    offset: u64,
    length: u64,
    done: u64,
    last_flushed: u64,
)
    requires
        sound(at.device),
        transfer::range_check(at.device.info, offset, length) is Ok,
        done < length,
        done as int % CHUNK as int == 0,
    ensures
        ({
            let (answer, after) = transfer::flash_chunk::<MemoryDevice, &'a [u8], P>(
                at,
                offset,
                length,
                at.device.info.logical_sector_size,
                done,
                last_flushed,
            );
            let want = transfer::chunk_of(length - done);
            &&& answer matches Err(err) ==> {
                &&& after.device.data == at.device.data
                &&& {
                    ||| err is Io && done == 0
                    ||| err matches ErrorView::WriteAborted { start, written, .. } && start
                        == offset && written == done
                }
            }
            &&& answer is Ok ==> {
                &&& want <= at.file.len()
                &&& after.file == at.file.subrange(want, at.file.len() as int)
                &&& after.device.data == stream::overlaid(
                    at.device.data,
                    offset + done,
                    at.file.subrange(0, want),
                )
            }
            &&& after.device == (MemoryState {
                data: after.device.data,
                flushes: after.device.flushes,
                ..at.device
            })
            &&& healthy(at.device) && at.file.len() >= length - done ==> answer is Ok
        }),
{
    reveal(transfer::flash_chunk);
    let sector = at.device.info.logical_sector_size;
    let here = at.device.data;
    a_chunk_lies_on_the_device(at.device, offset, length, done);
    let want = transfer::chunk_of(length - done);
    let to = (offset + done) as u64;
    if want <= at.file.len() {
        let image = at.file.subrange(0, want);
        let head = want % sector as int;
        vstd::arithmetic::div_mod::lemma_mod_decreases(want as nat, sector as nat);
        let aligned = transfer::rounded_up(want, sector as int);
        let tail = if head == 0 {
            Seq::empty()
        } else {
            here.subrange(to + want, to + aligned)
        };
        if head != 0 {
            assert(here.subrange(to + want - head, to + want - head + sector).subrange(
                head,
                sector as int,
            ) =~= tail);
        }
        assert(stream::overlaid(here, to as int, image + tail) =~= stream::overlaid(
            here,
            to as int,
            image,
        ));
    }
}

#[verifier::rlimit(60)]
proof fn flash_lands_from<'a, P: Progress>(
    at: Transfer<MemoryState, Seq<u8>, P::State>,
    offset: u64,
    length: u64,
    done: u64,
    last_flushed: u64,
)
    requires
        sound(at.device),
        transfer::range_check(at.device.info, offset, length) is Ok,
        done <= length,
        done < length ==> done as int % CHUNK as int == 0,
    ensures
        ({
            let (answer, after) = transfer::flash_from::<MemoryDevice, &'a [u8], P>(
                at,
                offset,
                length,
                at.device.info.logical_sector_size,
                done,
                last_flushed,
            );
            let written = landed(answer);
            &&& answer is Ok ==> answer->Ok_0 == length
            &&& answer is Ok ==> after.file == at.file.subrange(
                length - done,
                at.file.len() as int,
            )
            &&& answer matches Err(err) ==> {
                ||| err is Io && done == 0
                ||| err matches ErrorView::WriteAborted { start, .. } && start == offset
            }
            &&& done <= written <= length
            &&& written - done <= at.file.len()
            &&& after.device.data == stream::overlaid(
                at.device.data,
                offset + done,
                at.file.subrange(0, written - done),
            )
            &&& after.device == (MemoryState {
                data: after.device.data,
                flushes: after.device.flushes,
                ..at.device
            })
            &&& healthy(at.device) && at.file.len() >= length - done ==> answer is Ok
        }),
    decreases length - done,
{
    let sector = at.device.info.logical_sector_size;
    let here = at.device.data;
    assert(offset + length <= here.len()) by {
        transfer::sectors_fill_a_chunk(sector);
        transfer::rounding_up_finds_the_least_multiple(length as int, sector as int);
    }
    assert(stream::overlaid(here, offset + done, at.file.subrange(0, 0)) =~= here);
    assert(at.file.subrange(0, at.file.len() as int) =~= at.file);
    if done < length {
        a_chunk_lies_on_the_device(at.device, offset, length, done);
        let want = transfer::chunk_of(length - done);
        let now = (done + want) as u64;
        let to = (offset + done) as u64;
        let (answer, after) = transfer::flash_chunk::<MemoryDevice, &'a [u8], P>(
            at,
            offset,
            length,
            sector,
            done,
            last_flushed,
        );
        a_chunk_lands::<P>(at, offset, length, done, last_flushed);
        if let Ok(flushed) = answer {
            let image = at.file.subrange(0, want);
            let rest = at.file.subrange(want, at.file.len() as int);
            flash_lands_from::<P>(after, offset, length, now, flushed);
            let (end, last) = transfer::flash_from::<MemoryDevice, &'a [u8], P>(
                after,
                offset,
                length,
                sector,
                now,
                flushed,
            );
            let more = rest.subrange(0, landed(end) - now);
            let whole = at.file.subrange(0, landed(end) - done);
            assert(whole =~= image + more);
            assert(stream::overlaid(
                stream::overlaid(here, to as int, image),
                offset + now,
                more,
            ) =~= stream::overlaid(here, to as int, whole));
            if end is Ok {
                assert(last.file =~= at.file.subrange(length - done, at.file.len() as int));
            }
        }
    }
}

/// What an answer says of a write is what is on the medium: exactly the bytes
/// of the image that are reported as written stand at the start of the range,
/// and every other byte of the device is as it was - those past the end of an
/// image that stops inside a sector included. This holds when the device
/// vanishes half way and when the input ends early.
pub proof fn what_a_flash_reports_is_what_landed<'a, P: Progress>(
    at: Transfer<MemoryState, Seq<u8>, P::State>,
    offset: u64,
    length: u64,
)
    requires
        sound(at.device),
    ensures
        ({
            let (answer, after) = transfer::flashed::<MemoryDevice, &'a [u8], P>(
                at,
                offset,
                length,
            );
            let written = landed(answer);
            &&& answer is Ok ==> written == length
            &&& answer matches Err(ErrorView::WriteAborted { start, .. }) ==> start == offset
            &&& written <= length
            &&& written <= at.file.len()
            &&& written == 0 || offset + written <= at.device.data.len()
            &&& written == 0 ==> after.device.data == at.device.data
            &&& written > 0 ==> after.device.data == stream::overlaid(
                at.device.data,
                offset as int,
                at.file.subrange(0, written as int),
            )
            &&& after.device.info == at.device.info
        }),
{
    let info = at.device.info;
    if info.removability is Removable && transfer::range_check(info, offset, length) is Ok {
        flash_lands_from::<P>(at, offset, length, 0, 0);
        transfer::sectors_fill_a_chunk(info.logical_sector_size);
        transfer::rounding_up_finds_the_least_multiple(
            length as int,
            info.logical_sector_size as int,
        );
        let (answer, _) = transfer::flashed::<MemoryDevice, &'a [u8], P>(at, offset, length);
        assert(stream::overlaid(at.device.data, offset as int, at.file.subrange(0, 0))
            =~= at.device.data);
    }
}

/// A removable device that stays takes every image its range check admits.
pub proof fn a_flash_succeeds_on_a_healthy_device<'a, P: Progress>(
    at: Transfer<MemoryState, Seq<u8>, P::State>,
    offset: u64,
    length: u64,
)
    requires
        healthy(at.device),
        at.device.info.removability is Removable,
        transfer::range_check(at.device.info, offset, length) is Ok,
        at.file.len() >= length,
    ensures
        ({
            let (answer, after) = transfer::flashed::<MemoryDevice, &'a [u8], P>(
                at,
                offset,
                length,
            );
            &&& answer == Ok::<u64, ErrorView>(length)
            &&& after.device.data == stream::overlaid(
                at.device.data,
                offset as int,
                at.file.subrange(0, length as int),
            )
            &&& healthy(after.device)
            &&& after.device.info == at.device.info
            &&& after.file == at.file.subrange(length as int, at.file.len() as int)
        }),
{
    flash_lands_from::<P>(at, offset, length, 0, 0);
    let info = at.device.info;
    transfer::sectors_fill_a_chunk(info.logical_sector_size);
    transfer::rounding_up_finds_the_least_multiple(length as int, info.logical_sector_size as int);
}

/// A chunk pushes the medium when enough has gathered since the last time.
proof fn a_chunk_is_pushed_when_due<'a, P: Progress>(
    at: Transfer<MemoryState, Seq<u8>, P::State>,
    offset: u64,
    length: u64,
    sector: u32,
    done: u64,
    last_flushed: u64,
)
    requires
        at.device.flushes < usize::MAX,
    ensures
        ({
            let (answer, after) = transfer::flash_chunk::<MemoryDevice, &'a [u8], P>(
                at,
                offset,
                length,
                sector,
                done,
                last_flushed,
            );
            let now = (done + transfer::chunk_of(length - done)) as u64;
            answer matches Ok(flushed) ==> if transfer::due_for_flush(now, last_flushed) {
                flushed == now && after.device.flushes == at.device.flushes + 1
            } else {
                flushed == last_flushed && after.device.flushes == at.device.flushes
            }
        }),
{
    reveal(transfer::flash_chunk);
}

proof fn flash_pushes_from<'a, P: Progress>(
    at: Transfer<MemoryState, Seq<u8>, P::State>,
    offset: u64,
    length: u64,
    sector: u32,
    done: u64,
    last_flushed: u64,
)
    requires
        last_flushed <= done <= length,
        done - last_flushed < FLUSH_INTERVAL,
        last_flushed as int % FLUSH_INTERVAL as int == 0,
        done < length ==> done as int % CHUNK as int == 0,
        at.device.flushes + (length - last_flushed) / FLUSH_INTERVAL as int + 1 <= usize::MAX,
    ensures
        ({
            let (answer, after) = transfer::flash_from::<MemoryDevice, &'a [u8], P>(
                at,
                offset,
                length,
                sector,
                done,
                last_flushed,
            );
            answer is Ok ==> after.device.flushes == at.device.flushes + (length - last_flushed)
                / FLUSH_INTERVAL as int + 1
        }),
    decreases length - done,
{
    if done < length {
        let now = (done + transfer::chunk_of(length - done)) as u64;
        a_chunk_is_pushed_when_due::<P>(at, offset, length, sector, done, last_flushed);
        let (answer, after) = transfer::flash_chunk::<MemoryDevice, &'a [u8], P>(
            at,
            offset,
            length,
            sector,
            done,
            last_flushed,
        );
        if let Ok(flushed) = answer {
            assert(transfer::due_for_flush(now, last_flushed) ==> now == last_flushed
                + FLUSH_INTERVAL);
            flash_pushes_from::<P>(after, offset, length, sector, now, flushed);
        }
    }
}

/// The medium is never far behind: a flash that succeeds has pushed it once for
/// every whole interval of the image, and once at the end.
pub proof fn a_flash_pushes_as_it_goes<'a, P: Progress>(
    at: Transfer<MemoryState, Seq<u8>, P::State>,
    offset: u64,
    length: u64,
)
    requires
        at.device.flushes + length / 33_554_432 + 1 <= usize::MAX,
    ensures
        ({
            let (answer, after) = transfer::flashed::<MemoryDevice, &'a [u8], P>(
                at,
                offset,
                length,
            );
            answer is Ok ==> after.device.flushes == at.device.flushes + length / 33_554_432
                + 1
        }),
{
    flash_pushes_from::<P>(at, offset, length, at.device.info.logical_sector_size, 0, 0);
}

proof fn dump_copies_from<P: Progress>(
    at: Transfer<MemoryState, Seq<u8>, P::State>,
    offset: u64,
    length: u64,
    done: u64,
)
    requires
        sound(at.device),
        transfer::range_check(at.device.info, offset, length) is Ok,
        done <= length,
        done < length ==> done as int % CHUNK as int == 0,
    ensures
        ({
            let (answer, after) = transfer::dump_from::<MemoryDevice, Vec<u8>, P>(
                at,
                offset,
                length,
                at.device.info.logical_sector_size,
                done,
            );
            &&& after.device == at.device
            &&& answer is Ok ==> {
                &&& answer->Ok_0 == length
                &&& after.file == at.file + at.device.data.subrange(
                    offset + done,
                    offset + length,
                )
            }
            &&& readable(at.device) ==> answer is Ok
        }),
    decreases length - done,
{
    let data = at.device.data;
    let sector = at.device.info.logical_sector_size;
    transfer::sectors_fill_a_chunk(sector);
    transfer::rounding_up_finds_the_least_multiple(length as int, sector as int);
    assert(offset + length <= data.len());
    assert(at.file + data.subrange(offset + length, offset + length) =~= at.file);
    if done < length {
        a_chunk_lies_on_the_device(at.device, offset, length, done);
        let want = transfer::chunk_of(length - done);
        let now = (done + want) as u64;
        let aligned = transfer::rounded_up(want, sector as int);
        let from = (offset + done) as u64;
        let (read, device, trace) = transfer::read_sectors::<MemoryDevice>(
            at.device,
            at.trace,
            "read "@,
            from,
            aligned,
        );
        if read is Ok {
            let bytes = data.subrange(offset + done, offset + now);
            assert(data.subrange(from as int, from + aligned).subrange(0, want) =~= bytes);
            let next = Transfer {
                device,
                trace,
                file: at.file + bytes,
                progress: P::on(
                    at.progress,
                    crate::progress::ProgressEvent::Advance { done: now, total: length },
                ),
            };
            dump_copies_from::<P>(next, offset, length, now);
            assert(at.file + bytes + data.subrange(offset + now, offset + length) =~= at.file
                + data.subrange(offset + done, offset + length));
        }
    }
}

/// A dump never changes the device, and what it hands over is the range it was
/// asked for, byte for byte; on a device that can be read it always succeeds.
pub proof fn a_dump_copies_the_range<P: Progress>(
    at: Transfer<MemoryState, Seq<u8>, P::State>,
    offset: u64,
    length: u64,
)
    requires
        sound(at.device),
    ensures
        ({
            let (answer, after) = transfer::dumped::<MemoryDevice, Vec<u8>, P>(at, offset, length);
            &&& after.device == at.device
            &&& answer is Ok ==> {
                &&& answer->Ok_0 == length
                &&& offset + length <= at.device.data.len()
                &&& after.file == at.file + at.device.data.subrange(
                    offset as int,
                    offset + length,
                )
            }
            &&& readable(at.device) && transfer::range_check(
                at.device.info,
                offset,
                length,
            ) is Ok ==> answer is Ok
        }),
{
    let info = at.device.info;
    if transfer::range_check(info, offset, length) is Ok {
        dump_copies_from::<P>(at, offset, length, 0);
        transfer::sectors_fill_a_chunk(info.logical_sector_size);
        transfer::rounding_up_finds_the_least_multiple(
            length as int,
            info.logical_sector_size as int,
        );
    }
}

/// Flashing an image and dumping the same range gives the image back.
pub proof fn a_dump_gives_back_what_a_flash_wrote<'a, P: Progress, Q: Progress>(
    at: Transfer<MemoryState, Seq<u8>, P::State>,
    offset: u64,
    length: u64,
    sink: Seq<u8>,
    trace: Seq<crate::trace::StepView>,
    progress: Q::State,
)
    requires
        healthy(at.device),
        at.device.info.removability is Removable,
        transfer::range_check(at.device.info, offset, length) is Ok,
        at.file.len() >= length,
    ensures
        ({
            let (written, after) = transfer::flashed::<MemoryDevice, &'a [u8], P>(
                at,
                offset,
                length,
            );
            let (read, end) = transfer::dumped::<MemoryDevice, Vec<u8>, Q>(
                Transfer { device: after.device, file: sink, trace, progress },
                offset,
                length,
            );
            &&& written == Ok::<u64, ErrorView>(length)
            &&& read == Ok::<u64, ErrorView>(length)
            &&& end.file == sink + at.file.subrange(0, length as int)
            &&& end.device == after.device
        }),
{
    a_flash_succeeds_on_a_healthy_device::<P>(at, offset, length);
    let (_, after) = transfer::flashed::<MemoryDevice, &'a [u8], P>(at, offset, length);
    let image = at.file.subrange(0, length as int);
    a_dump_copies_the_range::<Q>(
        Transfer { device: after.device, file: sink, trace, progress },
        offset,
        length,
    );
    assert(after.device.data.subrange(offset as int, offset + length) =~= image);
}

proof fn verify_compares_from<'a, P: Progress>(
    at: Transfer<MemoryState, Seq<u8>, P::State>,
    offset: u64,
    length: u64,
    done: u64,
)
    requires
        readable(at.device),
        transfer::range_check(at.device.info, offset, length) is Ok,
        done <= length,
        done < length ==> done as int % CHUNK as int == 0,
        at.file.len() >= length - done,
    ensures
        ({
            let (answer, after) = transfer::verify_from::<MemoryDevice, &'a [u8], P>(
                at,
                offset,
                length,
                at.device.info.logical_sector_size,
                done,
            );
            let found = at.device.data.subrange(offset + done, offset + length);
            let expected = at.file.subrange(0, length - done);
            &&& after.device == at.device
            &&& found == expected ==> answer == Ok::<u64, ErrorView>(length)
            &&& forall|i: int| #[trigger]
                transfer::differ_first_at(found, expected, i) ==> answer == Err::<u64, ErrorView>(
                    ErrorView::VerifyFailed {
                        offset: (offset + done + i) as u64,
                        expected: expected[i],
                        found: found[i],
                    },
                )
        }),
    decreases length - done,
{
    let data = at.device.data;
    let sector = at.device.info.logical_sector_size;
    transfer::sectors_fill_a_chunk(sector);
    transfer::rounding_up_finds_the_least_multiple(length as int, sector as int);
    assert(offset + length <= data.len());
    if done < length {
        a_chunk_lies_on_the_device(at.device, offset, length, done);
        let want = transfer::chunk_of(length - done);
        let now = (done + want) as u64;
        let aligned = transfer::rounded_up(want, sector as int);
        let from = (offset + done) as u64;
        let whole = data.subrange(offset + done, offset + length);
        let image = at.file.subrange(0, length - done);
        let found = data.subrange(from as int, from + aligned).subrange(0, want);
        let expected = at.file.subrange(0, want);
        assert(found =~= whole.subrange(0, want));
        assert(expected =~= image.subrange(0, want));
        let rest = at.file.subrange(want, at.file.len() as int);
        let (read, device, trace) = transfer::read_sectors::<MemoryDevice>(
            at.device,
            at.trace,
            "verify read "@,
            from,
            aligned,
        );
        if found == expected {
            let next = Transfer {
                device,
                file: rest,
                trace,
                progress: P::on(
                    at.progress,
                    crate::progress::ProgressEvent::Advance { done: now, total: length },
                ),
            };
            verify_compares_from::<P>(next, offset, length, now);
            let whole_rest = data.subrange(offset + now, offset + length);
            let image_rest = rest.subrange(0, length - now);
            assert(whole_rest =~= whole.subrange(want, length - done));
            assert(image_rest =~= image.subrange(want, length - done));
            assert forall|i: int| #[trigger]
                transfer::differ_first_at(whole, image, i) implies transfer::differ_first_at(
                whole_rest,
                image_rest,
                i - want,
            ) && i >= want by {
                if i < want {
                    assert(found[i] == expected[i]);
                }
                assert(whole_rest[i - want] == whole[i]);
                assert(image_rest[i - want] == image[i]);
                assert forall|j: int| 0 <= j < i - want implies whole_rest[j] == image_rest[j] by {
                    assert(whole[j + want] == image[j + want]);
                }
            }
        } else {
            first_difference_exists(found, expected);
            let c = choose|c: int| transfer::differ_first_at(found, expected, c);
            assert(whole[c] == found[c] && image[c] == expected[c]);
            assert forall|i: int| #[trigger]
                transfer::differ_first_at(whole, image, i) implies i == c by {
                if i < c {
                    assert(found[i] == expected[i]);
                }
                if c < i {
                    assert(whole[c] == image[c]);
                }
            }
            assert(whole != image);
        }
    }
}

proof fn first_difference_exists(a: Seq<u8>, b: Seq<u8>)
    requires
        a.len() == b.len(),
        a != b,
    ensures
        exists|i: int| transfer::differ_first_at(a, b, i),
{
    if forall|i: int| 0 <= i < a.len() ==> a[i] == b[i] {
        assert(a =~= b);
    }
    let k = choose|k: int| 0 <= k < a.len() && a[k] != b[k];
    first_difference_below(a, b, k);
}

proof fn first_difference_below(a: Seq<u8>, b: Seq<u8>, k: int)
    requires
        a.len() == b.len(),
        0 <= k < a.len(),
        a[k] != b[k],
    ensures
        exists|i: int| transfer::differ_first_at(a, b, i),
    decreases k,
{
    if forall|j: int| 0 <= j < k ==> a[j] == b[j] {
        assert(transfer::differ_first_at(a, b, k));
    } else {
        let j = choose|j: int| 0 <= j < k && a[j] != b[j];
        first_difference_below(a, b, j);
    }
}

/// A comparison passes exactly when the range holds the image; otherwise it
/// names the first byte that differs, what was expected there and what was
/// found. Either way it changes nothing.
pub proof fn a_verify_finds_the_first_difference<'a, P: Progress>(
    at: Transfer<MemoryState, Seq<u8>, P::State>,
    offset: u64,
    length: u64,
)
    requires
        readable(at.device),
        transfer::range_check(at.device.info, offset, length) is Ok,
        at.file.len() >= length,
    ensures
        ({
            let (answer, after) = transfer::verified::<MemoryDevice, &'a [u8], P>(
                at,
                offset,
                length,
            );
            let found = at.device.data.subrange(offset as int, offset + length);
            let expected = at.file.subrange(0, length as int);
            &&& after.device == at.device
            &&& answer is Ok <==> found == expected
            &&& answer is Ok ==> answer->Ok_0 == length
            &&& answer is Err ==> exists|i: int|
                {
                    &&& #[trigger] transfer::differ_first_at(found, expected, i)
                    &&& answer == Err::<u64, ErrorView>(
                        ErrorView::VerifyFailed {
                            offset: (offset + i) as u64,
                            expected: expected[i],
                            found: found[i],
                        },
                    )
                }
        }),
{
    verify_compares_from::<P>(at, offset, length, 0);
    let info = at.device.info;
    transfer::sectors_fill_a_chunk(info.logical_sector_size);
    transfer::rounding_up_finds_the_least_multiple(length as int, info.logical_sector_size as int);
    let found = at.device.data.subrange(offset as int, offset + length);
    let expected = at.file.subrange(0, length as int);
    if found != expected {
        first_difference_exists(found, expected);
        let i = choose|i: int| transfer::differ_first_at(found, expected, i);
        assert(transfer::differ_first_at(found, expected, i));
    }
}

/// What was just flashed verifies.
pub proof fn a_flashed_image_verifies<'a, P: Progress, Q: Progress>(
    at: Transfer<MemoryState, Seq<u8>, P::State>,
    offset: u64,
    length: u64,
    trace: Seq<crate::trace::StepView>,
    progress: Q::State,
)
    requires
        healthy(at.device),
        at.device.info.removability is Removable,
        transfer::range_check(at.device.info, offset, length) is Ok,
        at.file.len() >= length,
    ensures
        ({
            let (_, after) = transfer::flashed::<MemoryDevice, &'a [u8], P>(at, offset, length);
            transfer::verified::<MemoryDevice, &'a [u8], Q>(
                Transfer { device: after.device, file: at.file, trace, progress },
                offset,
                length,
            ).0 == Ok::<u64, ErrorView>(length)
        }),
{
    a_flash_succeeds_on_a_healthy_device::<P>(at, offset, length);
    let (_, after) = transfer::flashed::<MemoryDevice, &'a [u8], P>(at, offset, length);
    a_verify_finds_the_first_difference::<Q>(
        Transfer { device: after.device, file: at.file, trace, progress },
        offset,
        length,
    );
    assert(after.device.data.subrange(offset as int, offset + length) =~= at.file.subrange(
        0,
        length as int,
    ));
}

/// A run of a range that passed its check lies on the device, whole sectors
/// and all.
pub(crate) proof fn a_run_lies_on_the_device(device: MemoryState, offset: u64, length: u64, done: u64)
    requires
        sound(device),
        transfer::read_range_check(device.info, offset, length) is Ok,
        done < length,
    ensures
        ({
            let sector = device.info.logical_sector_size;
            let from = offset + done;
            let head = transfer::head_of(from, sector);
            let want = transfer::run_of(length - done, from, sector);
            let aligned = transfer::rounded_up(head + want, sector as int);
            &&& 0 <= head <= from
            &&& 0 < want <= length - done
            &&& head + want <= aligned <= CHUNK
            &&& from - head + aligned <= device.data.len()
        }),
{
    let sector = device.info.logical_sector_size;
    transfer::sectors_fill_a_chunk(sector);
    let from = offset + done;
    transfer::a_run_makes_headway(length - done, from, sector);
    let head = transfer::head_of(from, sector);
    let want = transfer::run_of(length - done, from, sector);
    transfer::a_rounded_chunk_fits(head + want, sector);
    assert((from - head) % sector as int == 0) by {
        vstd::arithmetic::div_mod::lemma_fundamental_div_mod(from, sector as int);
        let q = from / sector as int;
        assert(from - head == q * sector as int) by (nonlinear_arith)
            requires
                from == sector as int * q + head,
        ;
        vstd::arithmetic::div_mod::lemma_mod_multiples_basic(q, sector as int);
    }
    rounding_moves_with_whole_sectors(from + want, from - head, sector as int);
    transfer::rounding_up_finds_the_least_multiple(from + want, sector as int);
    transfer::rounding_up_finds_the_least_multiple(offset + length, sector as int);
    assert(transfer::rounded_up(offset + length, sector as int) % sector as int == 0);
}

/// A read of whole sectors that lie on the device returns them, or fails and
/// changes nothing.
pub(crate) proof fn whole_sectors_are_read(
    device: MemoryState,
    trace: Seq<crate::trace::StepView>,
    verb: Seq<char>,
    at: u64,
    len: int,
)
    requires
        sound(device),
        0 <= len <= CHUNK,
        at + len <= device.data.len(),
    ensures
        ({
            let (read, after, _) = transfer::read_sectors::<MemoryDevice>(
                device,
                trace,
                verb,
                at,
                len,
            );
            &&& after == device
            &&& read is Ok ==> read->Ok_0 == device.data.subrange(at as int, at + len)
            &&& readable(device) ==> read is Ok
        }),
{
}

#[verifier::rlimit(60)]
proof fn read_collects_from(
    at: Transfer<MemoryState, Seq<u8>, ()>,
    offset: u64,
    length: u64,
    done: u64,
)
    requires
        sound(at.device),
        transfer::read_range_check(at.device.info, offset, length) is Ok,
        done <= length,
    ensures
        ({
            let (answer, after) = transfer::read_from::<MemoryDevice, Vec<u8>, transfer::Collect>(
                at,
                offset,
                length,
                at.device.info.logical_sector_size,
                done,
            );
            &&& after.device == at.device
            &&& answer is Ok ==> {
                &&& answer->Ok_0 == length
                &&& after.file == at.file + at.device.data.subrange(
                    offset + done,
                    offset + length,
                )
            }
            &&& readable(at.device) ==> answer is Ok
        }),
    decreases length - done,
{
    let data = at.device.data;
    let sector = at.device.info.logical_sector_size;
    assert(offset + length <= data.len()) by {
        transfer::sectors_fill_a_chunk(sector);
        transfer::rounding_up_finds_the_least_multiple(offset + length, sector as int);
    }
    assert(at.file + data.subrange(offset + length, offset + length) =~= at.file);
    if done < length {
        a_run_lies_on_the_device(at.device, offset, length, done);
        let from = offset + done;
        let head = transfer::head_of(from, sector);
        let want = transfer::run_of(length - done, from, sector);
        let now = (done + want) as u64;
        let start = (from - head) as u64;
        let aligned = transfer::rounded_up(head + want, sector as int);
        whole_sectors_are_read(at.device, at.trace, "read "@, start, aligned);
        let (read, device, trace) = transfer::read_sectors::<MemoryDevice>(
            at.device,
            at.trace,
            "read "@,
            start,
            aligned,
        );
        if read is Ok {
            let bytes = data.subrange(from, offset + now);
            assert(data.subrange(start as int, start + aligned).subrange(head, head + want)
                =~= bytes);
            let next = Transfer { device, trace, file: at.file + bytes, progress: () };
            read_collects_from(next, offset, length, now);
            assert(at.file + bytes + data.subrange(offset + now, offset + length) =~= at.file
                + data.subrange(offset + done, offset + length));
        }
    }
}

/// A read that only looks starts where it was asked to start, sector or no
/// sector, hands over exactly the range, and changes nothing.
pub proof fn a_read_starts_where_it_was_asked_to(
    at: Transfer<MemoryState, Seq<u8>, ()>,
    offset: u64,
    length: u64,
)
    requires
        sound(at.device),
    ensures
        ({
            let (answer, after) = transfer::read_through::<
                MemoryDevice,
                Vec<u8>,
                transfer::Collect,
            >(at, offset, length);
            &&& after.device == at.device
            &&& answer is Ok ==> {
                &&& answer->Ok_0 == length
                &&& offset + length <= at.device.data.len()
                &&& after.file == at.file + at.device.data.subrange(
                    offset as int,
                    offset + length,
                )
            }
            &&& readable(at.device) && transfer::read_range_check(
                at.device.info,
                offset,
                length,
            ) is Ok ==> answer is Ok
        }),
{
    let info = at.device.info;
    if transfer::read_range_check(info, offset, length) is Ok {
        read_collects_from(at, offset, length, 0);
        transfer::sectors_fill_a_chunk(info.logical_sector_size);
        transfer::rounding_up_finds_the_least_multiple(
            offset + length,
            info.logical_sector_size as int,
        );
    }
}

/// Reading leaves a device exactly as it was, so whatever only reads does.
pub proof fn reading_leaves_the_device_as_it_was(device: MemoryState)
    ensures
        reading::kept_by_device_reads::<MemoryDevice>(|state: MemoryState| state == device),
{
}

} // verus!
