//! How far a transfer gets when something gives out: to the chunk that could not
//! be moved and no less, with everything before it in place.

use vstd::prelude::*;

use crate::device::{MemoryDevice, MemoryState};
use crate::error::ErrorView;
use crate::medium;
use crate::progress::Progress;
use crate::progress::ProgressEvent;
use crate::ranges;
use crate::transfer;
use crate::transfer::Transfer;

verus! {

/// A device that gives out at or before `offset`.
pub open spec fn gives_out(fail_at: Option<u64>, offset: int) -> bool {
    fail_at is Some && fail_at->0 <= offset
}

/// The chunk `done` bytes into an image of `length` cannot be had or written.
pub open spec fn sticks(
    fail_write_at: Option<u64>,
    file_len: int,
    offset: u64,
    length: u64,
    done: int,
) -> bool {
    ||| gives_out(fail_write_at, offset + done)
    ||| file_len < if done + 1_048_576 < length {
        done + 1_048_576
    } else {
        length as int
    }
}

#[verifier::rlimit(60)]
proof fn a_chunk_sticks_for_cause<'a, P: Progress>(
    at: Transfer<MemoryState, Seq<u8>, P::State>,
    offset: u64,
    length: u64,
    done: u64,
    last_flushed: u64,
)
    requires
        medium::sound(at.device),
        at.device.fail_read_at is None,
        transfer::range_check(at.device.info, offset, length) is Ok,
        done < length,
        done as int % 1_048_576 == 0,
    ensures
        ({
            let (answer, after) = transfer::flash_chunk::<MemoryDevice, &'a [u8], P>(
                at,
                offset,
                length,
                at.device.info.logical_sector_size,
                done,
                last_flushed,
            );
            &&& answer is Ok <==> !sticks(
                at.device.fail_write_at,
                done + at.file.len(),
                offset,
                length,
                done as int,
            )
            &&& answer matches Err(err) ==> if done == 0 && at.file.len() < transfer::chunk_of(
                length - done,
            ) {
                err is Io
            } else {
                err matches ErrorView::WriteAborted { start, written, .. } && start == offset
                    && written == done
            }
        }),
{
    reveal(transfer::flash_chunk);
    medium::a_chunk_lies_on_the_device(at.device, offset, length, done);
    let sector = at.device.info.logical_sector_size as int;
    let want = transfer::chunk_of(length - done);
    let head = want % sector;
    vstd::arithmetic::div_mod::lemma_mod_bound(want, sector);
    vstd::arithmetic::div_mod::lemma_mod_decreases(want as nat, sector as nat);
    if want <= at.file.len() {
        let image = at.file.subrange(0, want);
        let to = (offset + done) as u64;
        let rest = if head == 0 {
            Seq::<u8>::empty()
        } else {
            at.device.data.subrange(to + want - head, to + want - head + sector).subrange(
                head,
                sector,
            )
        };
        assert((image + rest).len() == transfer::rounded_up(want, sector));
    }
}

/// The same of the `k`th chunk.
pub open spec fn nth_sticks(
    fail_write_at: Option<u64>,
    file_len: int,
    offset: u64,
    length: u64,
    k: int,
) -> bool {
    sticks(fail_write_at, file_len, offset, length, 1_048_576 * k)
}

/// A flash that has `done` bytes behind it went on to the first chunk that
/// sticks, or to its end where none does.
pub open spec fn went_on(
    answer: Result<u64, ErrorView>,
    fail: Option<u64>,
    file: int,
    offset: u64,
    length: u64,
    done: int,
) -> bool {
    match answer {
        Ok(written) => {
            &&& written == length
            &&& forall|k: int|
                done <= 1_048_576 * k < length ==> !#[trigger] nth_sticks(
                    fail,
                    file,
                    offset,
                    length,
                    k,
                )
        },
        Err(err) => {
            let stuck = match err {
                ErrorView::WriteAborted { written, .. } => written as int,
                _ => 0,
            };
            &&& err is WriteAborted || err is Io && done == 0
            &&& done <= stuck < length
            &&& stuck % 1_048_576 == 0
            &&& sticks(fail, file, offset, length, stuck)
            &&& forall|k: int|
                done <= 1_048_576 * k < stuck ==> !#[trigger] nth_sticks(
                    fail,
                    file,
                    offset,
                    length,
                    k,
                )
        },
    }
}

proof fn one_chunk_further(
    answer: Result<u64, ErrorView>,
    fail: Option<u64>,
    file: int,
    offset: u64,
    length: u64,
    done: int,
    now: int,
)
    requires
        0 <= done < length,
        done % 1_048_576 == 0,
        now == length || now == done + 1_048_576,
        done < now <= done + 1_048_576,
        !sticks(fail, file, offset, length, done),
        went_on(answer, fail, file, offset, length, now),
    ensures
        went_on(answer, fail, file, offset, length, done),
{
    let here = done / 1_048_576;
    assert(1_048_576 * here == done);
    assert forall|k: int| done <= 1_048_576 * k < now implies !#[trigger] nth_sticks(
        fail,
        file,
        offset,
        length,
        k,
    ) by {
        assert(k == here);
    }
}

proof fn a_flash_goes_on_until_it_sticks<'a, P: Progress>(
    at: Transfer<MemoryState, Seq<u8>, P::State>,
    offset: u64,
    length: u64,
    done: u64,
    last_flushed: u64,
)
    requires
        medium::sound(at.device),
        at.device.fail_read_at is None,
        transfer::range_check(at.device.info, offset, length) is Ok,
        done <= length,
        done < length ==> done as int % 1_048_576 == 0,
    ensures
        went_on(
            transfer::flash_from::<MemoryDevice, &'a [u8], P>(
                at,
                offset,
                length,
                at.device.info.logical_sector_size,
                done,
                last_flushed,
            ).0,
            at.device.fail_write_at,
            done + at.file.len(),
            offset,
            length,
            done as int,
        ),
    decreases length - done,
{
    if done < length {
        a_chunk_sticks_for_cause::<P>(at, offset, length, done, last_flushed);
        medium::a_chunk_lands::<P>(at, offset, length, done, last_flushed);
        medium::a_chunk_lies_on_the_device(at.device, offset, length, done);
        let (chunk, after) = transfer::flash_chunk::<MemoryDevice, &'a [u8], P>(
            at,
            offset,
            length,
            at.device.info.logical_sector_size,
            done,
            last_flushed,
        );
        if let Ok(flushed) = chunk {
            let now = (done + transfer::chunk_of(length - done)) as u64;
            a_flash_goes_on_until_it_sticks::<P>(after, offset, length, now, flushed);
            let answer = transfer::flash_from::<MemoryDevice, &'a [u8], P>(
                after,
                offset,
                length,
                at.device.info.logical_sector_size,
                now,
                flushed,
            ).0;
            one_chunk_further(
                answer,
                at.device.fail_write_at,
                done + at.file.len(),
                offset,
                length,
                done as int,
                now as int,
            );
        }
    }
}

/// A flash stops at the first MiB that the device will not take or that the
/// input does not have, and not before: the bytes it says are written are all
/// of those in front of it. Where there is no such MiB it succeeds, and where
/// it is the very first of an input that is too short, nothing was written and
/// the file is at fault.
pub proof fn a_flash_gets_as_far_as_it_can<'a, P: Progress>(
    at: Transfer<MemoryState, Seq<u8>, P::State>,
    offset: u64,
    length: u64,
)
    requires
        medium::sound(at.device),
        at.device.fail_read_at is None,
        at.device.info.removability is Removable,
        ranges::lies_on(at.device, offset, length),
    ensures
        went_on(
            transfer::flashed::<MemoryDevice, &'a [u8], P>(at, offset, length).0,
            at.device.fail_write_at,
            at.file.len() as int,
            offset,
            length,
            0,
        ),
{
    ranges::what_lies_on_memory_is_approved(at.device, offset, length);
    a_flash_goes_on_until_it_sticks::<P>(at, offset, length, 0, 0);
}

#[verifier::rlimit(60)]
proof fn a_dump_goes_on_until_it_cannot_read<P: Progress>(
    at: Transfer<MemoryState, Seq<u8>, P::State>,
    offset: u64,
    length: u64,
    done: u64,
)
    requires
        medium::sound(at.device),
        transfer::range_check(at.device.info, offset, length) is Ok,
        offset + length <= at.device.data.len(),
        done <= length,
        done < length ==> done as int % 1_048_576 == 0,
    ensures
        ({
            let (answer, after) = transfer::dump_from::<MemoryDevice, Vec<u8>, P>(
                at,
                offset,
                length,
                at.device.info.logical_sector_size,
                done,
            );
            let fail = at.device.fail_read_at;
            match answer {
                Ok(_) => forall|k: int|
                    done <= 1_048_576 * k < length ==> !gives_out(
                        fail,
                        offset + #[trigger] (1_048_576 * k),
                    ),
                Err(err) => {
                    let got = done + (after.file.len() - at.file.len());
                    &&& err is Device
                    &&& done <= got < length
                    &&& got % 1_048_576 == 0
                    &&& gives_out(fail, offset + got)
                    &&& forall|k: int|
                        done <= 1_048_576 * k < got ==> !gives_out(
                            fail,
                            offset + #[trigger] (1_048_576 * k),
                        )
                    &&& after.file == at.file + at.device.data.subrange(
                        offset + done,
                        offset + got,
                    )
                },
            }
        }),
    decreases length - done,
{
    if done < length {
        let data = at.device.data;
        let sector = at.device.info.logical_sector_size;
        medium::a_chunk_lies_on_the_device(at.device, offset, length, done);
        let want = transfer::chunk_of(length - done);
        let now = (done + want) as u64;
        let from = (offset + done) as u64;
        let aligned = transfer::rounded_up(want, sector as int);
        let here = done as int / 1_048_576;
        assert(1_048_576 * here == done);
        let (read, device, trace) = transfer::read_sectors::<MemoryDevice>(
            at.device,
            at.trace,
            "read "@,
            from,
            aligned,
        );
        if read is Ok {
            let bytes = data.subrange(offset + done, offset + now);
            assert(data.subrange(from as int, from + aligned).subrange(0, want) =~= bytes);
            let next = Transfer {
                device,
                trace,
                file: at.file + bytes,
                progress: P::on(at.progress, ProgressEvent::Advance { done: now, total: length }),
            };
            a_dump_goes_on_until_it_cannot_read::<P>(next, offset, length, now);
            assert forall|k: int| done <= 1_048_576 * k < now implies !gives_out(
                at.device.fail_read_at,
                offset + #[trigger] (1_048_576 * k),
            ) by {
                assert(k == here);
            }
            let (answer, after) = transfer::dump_from::<MemoryDevice, Vec<u8>, P>(
                next,
                offset,
                length,
                sector,
                now,
            );
            if answer is Err {
                let got = now + (after.file.len() - next.file.len());
                assert(at.file + bytes + data.subrange(offset + now, offset + got) =~= at.file
                    + data.subrange(offset + done, offset + got));
            }
        } else {
            assert(at.file + data.subrange(offset + done, offset + done) =~= at.file);
        }
    }
}

/// A dump of a device that gives out leaves in its file every MiB in front of
/// the one that could not be read, and nothing else; it fails only where the
/// device did.
pub proof fn a_dump_gets_as_far_as_it_can<P: Progress>(
    at: Transfer<MemoryState, Seq<u8>, P::State>,
    offset: u64,
    length: u64,
)
    requires
        medium::sound(at.device),
        ranges::lies_on(at.device, offset, length),
    ensures
        ({
            let (answer, after) = transfer::dumped::<MemoryDevice, Vec<u8>, P>(at, offset, length);
            let fail = at.device.fail_read_at;
            match answer {
                Ok(_) => forall|k: int|
                    0 <= 1_048_576 * k < length ==> !gives_out(
                        fail,
                        offset + #[trigger] (1_048_576 * k),
                    ),
                Err(err) => {
                    let got = after.file.len() - at.file.len();
                    &&& err is Device
                    &&& 0 <= got < length
                    &&& got % 1_048_576 == 0
                    &&& gives_out(fail, offset + got)
                    &&& forall|k: int|
                        0 <= 1_048_576 * k < got ==> !gives_out(
                            fail,
                            offset + #[trigger] (1_048_576 * k),
                        )
                    &&& after.file == at.file + at.device.data.subrange(
                        offset as int,
                        offset + got,
                    )
                },
            }
        }),
{
    ranges::what_lies_on_memory_is_approved(at.device, offset, length);
    a_dump_goes_on_until_it_cannot_read::<P>(at, offset, length, 0);
}

} // verus!
