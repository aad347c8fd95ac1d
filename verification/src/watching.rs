//! What whoever watches a transfer is told of it, and what the record keeps: one
//! report and one read for every MiB, and the end.

use vstd::prelude::*;

use crate::device::RawDevice;
use crate::progress::{Progress, ProgressEvent};
use crate::stream::{Sink, Source};
use crate::trace::StepView;
use crate::transfer;
use crate::transfer::Transfer;

verus! {

/// How far a transfer of `length` bytes is after `n` chunks of a MiB.
pub open spec fn after_chunks(length: u64, n: int) -> u64 {
    if n * 1_048_576 < length {
        (n * 1_048_576) as u64
    } else {
        length
    }
}

/// The chunks a transfer of `length` bytes takes.
pub open spec fn chunks_in(length: u64) -> int {
    (length + 1_048_575) / 1_048_576
}

/// A watcher once `n` chunks have been reported to it, each with how far that
/// is out of the whole.
pub open spec fn watched<P: Progress>(state: P::State, length: u64, n: int) -> P::State
    decreases n,
{
    if n <= 0 {
        state
    } else {
        P::on(
            watched::<P>(state, length, n - 1),
            ProgressEvent::Advance { done: after_chunks(length, n), total: length },
        )
    }
}

/// `after` is the record `before` with `n` more steps behind it.
pub open spec fn gains_steps(before: Seq<StepView>, after: Seq<StepView>, n: int) -> bool {
    after.len() == before.len() + n && before == after.subrange(0, before.len() as int)
}

/// The steps from the `from`th on are reads that went through.
pub open spec fn reads_from(trace: Seq<StepView>, from: int) -> bool {
    forall|i: int|
        from <= i < trace.len() ==> (#[trigger] trace[i]).stage is Read && trace[i].outcome
            is Succeeded
}

proof fn the_next_chunk(length: u64, k: int)
    requires
        0 <= k < chunks_in(length),
    ensures
        after_chunks(length, k) < length,
        after_chunks(length, k) == k * 1_048_576,
        after_chunks(length, k) + transfer::chunk_of(length - after_chunks(length, k))
            == after_chunks(length, k + 1),
{
}

proof fn the_last_chunk(length: u64)
    ensures
        after_chunks(length, chunks_in(length)) == length,
{
}

proof fn one_step_more(before: Seq<StepView>, trace: Seq<StepView>, step: StepView, n: int)
    requires
        gains_steps(before, trace, n),
        n >= 0,
    ensures
        gains_steps(before, trace.push(step), n + 1),
{
    assert(trace.push(step).subrange(0, before.len() as int) =~= before);
}

proof fn a_dump_is_watched_from<D: RawDevice, K: Sink, P: Progress>(
    start: P::State,
    steps: Seq<StepView>,
    at: Transfer<D::State, K::State, P::State>,
    offset: u64,
    length: u64,
    sector: u32,
    k: int,
)
    requires
        0 <= k <= chunks_in(length),
        at.progress == watched::<P>(start, length, k),
        gains_steps(steps, at.trace, k),
        reads_from(at.trace, steps.len() as int),
    ensures
        ({
            let (answer, after) = transfer::dump_from::<D, K, P>(
                at,
                offset,
                length,
                sector,
                after_chunks(length, k),
            );
            let n = chunks_in(length);
            answer matches Ok(done) ==> {
                &&& done == length
                &&& after.progress == P::on(
                    watched::<P>(start, length, n),
                    ProgressEvent::Finish(length),
                )
                &&& gains_steps(steps, after.trace, n)
                &&& reads_from(after.trace, steps.len() as int)
            }
        }),
    decreases chunks_in(length) - k,
{
    the_last_chunk(length);
    if k < chunks_in(length) {
        the_next_chunk(length, k);
        let done = after_chunks(length, k);
        let want = transfer::chunk_of(length - done);
        let (read, device, trace) = transfer::read_sectors::<D>(
            at.device,
            at.trace,
            "read "@,
            (offset + done) as u64,
            transfer::rounded_up(want, sector as int),
        );
        if let Ok(bytes) = read {
            let (written, file) = K::write_step(at.file, bytes.subrange(0, want));
            let now = after_chunks(length, k + 1);
            one_step_more(steps, at.trace, trace.last(), k);
            assert(trace =~= at.trace.push(trace.last()));
            a_dump_is_watched_from::<D, K, P>(
                start,
                steps,
                Transfer {
                    device,
                    trace,
                    file,
                    progress: P::on(
                        at.progress,
                        ProgressEvent::Advance { done: now, total: length },
                    ),
                },
                offset,
                length,
                sector,
                k + 1,
            );
        }
    }
}

/// A dump that succeeds reports every MiB it moved, out of the whole, and then
/// that it is done, and leaves one read on the record for each.
pub proof fn a_dump_reports_every_mib<D: RawDevice, K: Sink, P: Progress>(
    at: Transfer<D::State, K::State, P::State>,
    offset: u64,
    length: u64,
)
    ensures
        ({
            let (answer, after) = transfer::dumped::<D, K, P>(at, offset, length);
            let n = chunks_in(length);
            answer matches Ok(done) ==> {
                &&& done == length
                &&& after.progress == P::on(
                    watched::<P>(at.progress, length, n),
                    ProgressEvent::Finish(length),
                )
                &&& gains_steps(at.trace, after.trace, n)
                &&& reads_from(after.trace, at.trace.len() as int)
            }
        }),
{
    assert(at.trace.subrange(0, at.trace.len() as int) =~= at.trace);
    a_dump_is_watched_from::<D, K, P>(
        at.progress,
        at.trace,
        at,
        offset,
        length,
        D::described(at.device).logical_sector_size,
        0,
    );
}

proof fn a_comparison_is_watched_from<D: RawDevice, S: Source, P: Progress>(
    start: P::State,
    steps: Seq<StepView>,
    at: Transfer<D::State, S::State, P::State>,
    offset: u64,
    length: u64,
    sector: u32,
    k: int,
)
    requires
        0 <= k <= chunks_in(length),
        at.progress == watched::<P>(start, length, k),
        gains_steps(steps, at.trace, k),
        reads_from(at.trace, steps.len() as int),
    ensures
        ({
            let (answer, after) = transfer::verify_from::<D, S, P>(
                at,
                offset,
                length,
                sector,
                after_chunks(length, k),
            );
            let n = chunks_in(length);
            answer matches Ok(done) ==> {
                &&& done == length
                &&& after.progress == P::on(
                    watched::<P>(start, length, n),
                    ProgressEvent::Finish(length),
                )
                &&& gains_steps(steps, after.trace, n)
                &&& reads_from(after.trace, steps.len() as int)
            }
        }),
    decreases chunks_in(length) - k,
{
    the_last_chunk(length);
    if k < chunks_in(length) {
        the_next_chunk(length, k);
        let done = after_chunks(length, k);
        let want = transfer::chunk_of(length - done);
        let (read, device, trace) = transfer::read_sectors::<D>(
            at.device,
            at.trace,
            "verify read "@,
            (offset + done) as u64,
            transfer::rounded_up(want, sector as int),
        );
        if let Ok(bytes) = read {
            let (served, expected, file) = S::read_step(at.file, transfer::zeros(want));
            let now = after_chunks(length, k + 1);
            one_step_more(steps, at.trace, trace.last(), k);
            assert(trace =~= at.trace.push(trace.last()));
            a_comparison_is_watched_from::<D, S, P>(
                start,
                steps,
                Transfer {
                    device,
                    file,
                    trace,
                    progress: P::on(
                        at.progress,
                        ProgressEvent::Advance { done: now, total: length },
                    ),
                },
                offset,
                length,
                sector,
                k + 1,
            );
        }
    }
}

/// The same of a comparison that passes.
pub proof fn a_comparison_reports_every_mib<D: RawDevice, S: Source, P: Progress>(
    at: Transfer<D::State, S::State, P::State>,
    offset: u64,
    length: u64,
)
    ensures
        ({
            let (answer, after) = transfer::verified::<D, S, P>(at, offset, length);
            let n = chunks_in(length);
            answer matches Ok(done) ==> {
                &&& done == length
                &&& after.progress == P::on(
                    watched::<P>(at.progress, length, n),
                    ProgressEvent::Finish(length),
                )
                &&& gains_steps(at.trace, after.trace, n)
                &&& reads_from(after.trace, at.trace.len() as int)
            }
        }),
{
    assert(at.trace.subrange(0, at.trace.len() as int) =~= at.trace);
    a_comparison_is_watched_from::<D, S, P>(
        at.progress,
        at.trace,
        at,
        offset,
        length,
        D::described(at.device).logical_sector_size,
        0,
    );
}

proof fn a_chunk_is_reported<D: RawDevice, S: Source, P: Progress>(
    at: Transfer<D::State, S::State, P::State>,
    offset: u64,
    length: u64,
    sector: u32,
    done: u64,
    last_flushed: u64,
)
    ensures
        ({
            let (answer, after) = transfer::flash_chunk::<D, S, P>(
                at,
                offset,
                length,
                sector,
                done,
                last_flushed,
            );
            let now = (done + transfer::chunk_of(length - done)) as u64;
            answer is Ok ==> after.progress == P::on(
                at.progress,
                ProgressEvent::Advance { done: now, total: length },
            )
        }),
{
    reveal(transfer::flash_chunk);
}

proof fn a_flash_is_watched_from<D: RawDevice, S: Source, P: Progress>(
    start: P::State,
    at: Transfer<D::State, S::State, P::State>,
    offset: u64,
    length: u64,
    sector: u32,
    k: int,
    last_flushed: u64,
)
    requires
        0 <= k <= chunks_in(length),
        at.progress == watched::<P>(start, length, k),
    ensures
        ({
            let (answer, after) = transfer::flash_from::<D, S, P>(
                at,
                offset,
                length,
                sector,
                after_chunks(length, k),
                last_flushed,
            );
            answer matches Ok(done) ==> {
                &&& done == length
                &&& after.progress == P::on(
                    P::on(
                        watched::<P>(start, length, chunks_in(length)),
                        ProgressEvent::Waiting("waiting for the medium"@),
                    ),
                    ProgressEvent::Finish(length),
                )
            }
        }),
    decreases chunks_in(length) - k,
{
    the_last_chunk(length);
    if k < chunks_in(length) {
        the_next_chunk(length, k);
        let done = after_chunks(length, k);
        a_chunk_is_reported::<D, S, P>(at, offset, length, sector, done, last_flushed);
        let (chunk, after) = transfer::flash_chunk::<D, S, P>(
            at,
            offset,
            length,
            sector,
            done,
            last_flushed,
        );
        if let Ok(flushed) = chunk {
            a_flash_is_watched_from::<D, S, P>(
                start,
                after,
                offset,
                length,
                sector,
                k + 1,
                flushed,
            );
        }
    }
}

/// A flash that succeeds reports every MiB it wrote, out of the whole, that it
/// waits for the medium, and only then that it is done.
pub proof fn a_flash_reports_every_mib<D: RawDevice, S: Source, P: Progress>(
    at: Transfer<D::State, S::State, P::State>,
    offset: u64,
    length: u64,
)
    ensures
        ({
            let (answer, after) = transfer::flashed::<D, S, P>(at, offset, length);
            answer matches Ok(done) ==> {
                &&& done == length
                &&& after.progress == P::on(
                    P::on(
                        watched::<P>(at.progress, length, chunks_in(length)),
                        ProgressEvent::Waiting("waiting for the medium"@),
                    ),
                    ProgressEvent::Finish(length),
                )
            }
        }),
{
    a_flash_is_watched_from::<D, S, P>(
        at.progress,
        at,
        offset,
        length,
        D::described(at.device).logical_sector_size,
        0,
        0,
    );
}

} // verus!
