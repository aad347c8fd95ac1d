//! The read and write paths, expressed over `RawDevice` so they run identically
//! on every platform and in tests.

use vstd::arithmetic::power2;
use vstd::prelude::*;
use vstd::slice::*;
use vstd::string::*;

use crate::device::{DeviceInfo, DeviceInfoView, RawDevice};
use crate::error;
use crate::error::{DeviceError, DeviceErrorView, Error, ErrorView, Result, Stage};
use crate::progress::{Progress, ProgressEvent};
use crate::stream::{Sink, Source};
use crate::text;
use crate::trace::{StepView, Trace};

verus! {

/// Transfer granularity. Always a multiple of any plausible sector size.
pub const CHUNK: usize = 1_048_576;

/// How much may sit in the page cache before it is pushed at the medium.
///
/// Without this the whole image is absorbed at memory speed and the single
/// flush at the end blocks for as long as the card needs, so the progress
/// report races to 100% and then appears to hang. Flushing as we go costs
/// nothing on a device that is already the bottleneck.
pub const FLUSH_INTERVAL: u64 = 33_554_432;

/// True when enough has been written since the last flush to push again.
pub fn flush_due(done: u64, last_flushed: u64) -> (due: bool)
    ensures
        due == due_for_flush(done, last_flushed),
{
    done.saturating_sub(last_flushed) >= FLUSH_INTERVAL
}

pub open spec fn due_for_flush(done: u64, last_flushed: u64) -> bool {
    done >= last_flushed + FLUSH_INTERVAL
}

/// The least multiple of `step` that is not below `value`.
pub open spec fn rounded_up(value: int, step: int) -> int {
    if value % step == 0 {
        value
    } else {
        value - value % step + step
    }
}

/// `rounded_up` is what its name says: a multiple of the step, at least the
/// value, and less than one step above it.
pub proof fn rounding_up_finds_the_least_multiple(value: int, step: int)
    requires
        step > 0,
    ensures
        rounded_up(value, step) % step == 0,
        value <= rounded_up(value, step) < value + step,
        forall|m: int| m >= value && #[trigger] (m % step) == 0 ==> m >= rounded_up(value, step),
{
    let up = rounded_up(value, step);
    vstd::arithmetic::div_mod::lemma_fundamental_div_mod(value, step);
    let q = value / step;
    let r = value % step;
    assert(0 <= r < step);
    if r != 0 {
        assert(up == step * (q + 1)) by (nonlinear_arith)
            requires
                up == value - r + step,
                value == step * q + r,
        ;
        vstd::arithmetic::div_mod::lemma_mod_multiples_basic(q + 1, step);
        assert(step * (q + 1) == (q + 1) * step) by (nonlinear_arith);
    }
    assert forall|m: int| m >= value && #[trigger] (m % step) == 0 implies m >= up by {
        vstd::arithmetic::div_mod::lemma_fundamental_div_mod(m, step);
        let k = m / step;
        if r != 0 {
            assert(k >= q + 1) by (nonlinear_arith)
                requires
                    m == step * k,
                    m >= value,
                    value == step * q + r,
                    0 < r < step,
            ;
            assert(m >= up) by (nonlinear_arith)
                requires
                    m == step * k,
                    k >= q + 1,
                    up == step * (q + 1),
                    step > 0,
            ;
        }
    }
}

pub fn align_up(value: u64, sector: u32) -> (aligned: u64)
    requires
        sector > 0,
        rounded_up(value as int, sector as int) <= u64::MAX,
    ensures
        aligned == rounded_up(value as int, sector as int),
{
    let over: u64 = value % (sector as u64);
    proof {
        vstd::arithmetic::div_mod::lemma_mod_decreases(value as nat, sector as nat);
    }
    if over == 0 {
        value
    } else {
        value - over + sector as u64
    }
}

/// A sector size the chunk math holds for: a power of two that divides `CHUNK`.
pub open spec fn usable_sector(sector: u32) -> bool {
    exists|e: nat| e <= 20 && sector == #[trigger] power2::pow2(e)
}

pub open spec fn unusable_sector(info: DeviceInfoView) -> ErrorView {
    ErrorView::Device(
        DeviceErrorView::plain(
            Stage::QueryGeometry,
            info.id + " reports logical sector size "@ + text::dec(
                info.logical_sector_size as nat,
            ) + ", which cannot chunk a transfer (need a power of two of at most "@ + text::dec(
                CHUNK as nat,
            ) + ")"@,
        ),
    )
}

/// True when `sector` is a power of two of at most `CHUNK`.
fn is_usable(sector: u32) -> (usable: bool)
    ensures
        usable == usable_sector(sector),
{
    let mut power: u32 = 1;
    let ghost mut e: nat = 0;
    proof {
        power2::lemma2_to64();
    }
    while power < sector && power < CHUNK as u32
        invariant
            power == power2::pow2(e),
            e <= 20,
            power <= CHUNK,
            forall|k: nat| k < e ==> #[trigger] power2::pow2(k) < sector,
        decreases CHUNK - power,
    {
        proof {
            power2::lemma2_to64();
            if e == 20 {
                assert(power2::pow2(20) == 1048576);
            }
            power2::lemma_pow2_unfold((e + 1) as nat);
            assert forall|k: nat| k < e + 1 implies #[trigger] power2::pow2(k) < sector by {
                if k == e {
                }
            }
            if e < 20 {
                if e + 1 < 20 {
                    power2::lemma_pow2_strictly_increases((e + 1) as nat, 20);
                }
            }
            e = (e + 1) as nat;
        }
        power = power * 2;
    }
    proof {
        power2::lemma2_to64();
        if power != sector {
            assert forall|k: nat| k <= 20 implies sector != #[trigger] power2::pow2(k) by {
                if k > e {
                    power2::lemma_pow2_strictly_increases(e, k);
                    if power >= CHUNK {
                        assert(e == 20) by {
                            if e < 20 {
                                power2::lemma_pow2_strictly_increases(e, 20);
                            }
                        }
                    }
                }
            }
        }
    }
    power == sector
}

/// The facts the chunk math rests on: whole sectors fill a chunk.
pub proof fn sectors_fill_a_chunk(sector: u32)
    requires
        usable_sector(sector),
    ensures
        0 < sector <= CHUNK,
        CHUNK as int % sector as int == 0,
{
    let e = choose|e: nat| e <= 20 && sector == #[trigger] power2::pow2(e);
    power2::lemma2_to64();
    power2::lemma_pow2_pos(e);
    if e < 20 {
        power2::lemma_pow2_strictly_increases(e, 20);
    }
    power2::lemma_pow2_adds(e, (20 - e) as nat);
    assert(CHUNK == power2::pow2(e) * power2::pow2((20 - e) as nat));
    let q = power2::pow2((20 - e) as nat) as int;
    assert(CHUNK as int == q * sector as int) by (nonlinear_arith)
        requires
            CHUNK as int == sector as int * q,
    ;
    vstd::arithmetic::div_mod::lemma_mod_multiples_basic(q, sector as int);
}

/// What fits in a chunk still fits once it is rounded up to whole sectors.
pub proof fn a_rounded_chunk_fits(len: int, sector: u32)
    requires
        usable_sector(sector),
        0 <= len <= CHUNK,
    ensures
        sector > 0,
        len <= rounded_up(len, sector as int) <= CHUNK,
        rounded_up(len, sector as int) < len + sector,
{
    sectors_fill_a_chunk(sector);
    rounding_up_finds_the_least_multiple(len, sector as int);
    assert(CHUNK as int % sector as int == 0);
}

/// The chunk math assumes the sector size divides `CHUNK`; any other value
/// would overrun the transfer buffers, so the device is refused up front.
fn require_usable_sector(info: &DeviceInfo) -> (result: Result<()>)
    ensures
        usable_sector(info@.logical_sector_size) ==> result is Ok,
        !usable_sector(info@.logical_sector_size) ==> error::outcome(result) == Err::<
            (),
            ErrorView,
        >(unusable_sector(info@)),
{
    let sector: u32 = info.logical_sector_size;
    if !is_usable(sector) {
        let mut message = info.id.clone();
        message.append(" reports logical sector size ");
        text::push_dec(&mut message, sector as u64);
        message.append(", which cannot chunk a transfer (need a power of two of at most ");
        text::push_dec(&mut message, CHUNK as u64);
        message.append(")");
        return Err(Error::Device(DeviceError::new(Stage::QueryGeometry, message.as_str())));
    }
    Ok(())
}

pub open spec fn misaligned(label: Seq<char>, value: u64, sector: u32) -> ErrorView {
    ErrorView::InvalidArgument(
        label + " "@ + text::dec(value as nat) + " is not a multiple of the logical sector size "@
            + text::dec(sector as nat),
    )
}

pub fn require_aligned(label: &str, value: u64, sector: u32) -> (result: Result<()>)
    requires
        sector > 0,
    ensures
        value as int % sector as int == 0 ==> result is Ok,
        value as int % sector as int != 0 ==> error::outcome(result) == Err::<(), ErrorView>(
            misaligned(label@, value, sector),
        ),
{
    if value % (sector as u64) != 0 {
        let mut message = label.to_owned();
        message.append(" ");
        text::push_dec(&mut message, value);
        message.append(" is not a multiple of the logical sector size ");
        text::push_dec(&mut message, sector as u64);
        return Err(Error::InvalidArgument(message));
    }
    Ok(())
}

pub open spec fn not_removable(info: DeviceInfoView) -> ErrorView {
    ErrorView::NotRemovable { device: info.id, classification: info.removability.name() }
}

/// No argument reaches this check, so there is nothing to override.
pub fn ensure_writable(info: &DeviceInfo) -> (result: Result<()>)
    ensures
        info@.removability is Removable ==> result is Ok,
        !(info@.removability is Removable) ==> error::outcome(result) == Err::<(), ErrorView>(
            not_removable(info@),
        ),
{
    if info.removability.writable() {
        return Ok(());
    }
    Err(
        Error::NotRemovable {
            device: info.id.clone(),
            classification: info.removability.as_str(),
        },
    )
}

pub open spec fn overflows(offset: u64, length: u64) -> ErrorView {
    ErrorView::InvalidArgument(
        "offset "@ + text::dec(offset as nat) + " + length "@ + text::dec(length as nat)
            + " overflows"@,
    )
}

fn overflow_error(offset: u64, length: u64) -> (err: Error)
    ensures
        err@ == overflows(offset, length),
{
    let mut message = "offset ".to_owned();
    text::push_dec(&mut message, offset);
    message.append(" + length ");
    text::push_dec(&mut message, length);
    message.append(" overflows");
    Error::InvalidArgument(message)
}

pub open spec fn past_the_end(offset: u64, length: u64, size: u64) -> ErrorView {
    ErrorView::InvalidArgument(
        "range "@ + text::dec(offset as nat) + "+"@ + text::dec(length as nat)
            + " exceeds device size "@ + text::dec(size as nat),
    )
}

fn past_the_end_error(offset: u64, length: u64, size: u64) -> (err: Error)
    ensures
        err@ == past_the_end(offset, length, size),
{
    let mut message = "range ".to_owned();
    text::push_dec(&mut message, offset);
    message.append("+");
    text::push_dec(&mut message, length);
    message.append(" exceeds device size ");
    text::push_dec(&mut message, size);
    Error::InvalidArgument(message)
}

/// Whether `length` bytes at `offset` exist on a device of known size. Nothing
/// is refused where the size is not known.
pub open spec fn within_device(info: DeviceInfoView, offset: u64, length: u64) -> core::result::Result<
    (),
    ErrorView,
> {
    match info.size_bytes {
        None => Ok(()),
        Some(size) => if offset + length > u64::MAX {
            Err(overflows(offset, length))
        } else if offset + length > size {
            Err(past_the_end(offset, length, size))
        } else {
            Ok(())
        },
    }
}

fn ensure_within_device(info: &DeviceInfo, offset: u64, length: u64) -> (result: Result<()>)
    ensures
        error::outcome(result) == within_device(info@, offset, length),
{
    let size: u64 = match info.size_bytes {
        Some(size) => size,
        None => {
            return Ok(());
        },
    };
    match offset.checked_add(length) {
        None => Err(overflow_error(offset, length)),
        Some(end) => if end > size {
            Err(past_the_end_error(offset, length, size))
        } else {
            Ok(())
        },
    }
}

/// What a transfer of `length` bytes at `offset` is answered before it starts:
/// the exclusive end of the range, or why the device will not have it.
pub open spec fn range_check(info: DeviceInfoView, offset: u64, length: u64) -> core::result::Result<
    u64,
    ErrorView,
> {
    let sector = info.logical_sector_size;
    let aligned = rounded_up(length as int, sector as int);
    if !usable_sector(sector) {
        Err(unusable_sector(info))
    } else if offset as int % sector as int != 0 {
        Err(misaligned("offset"@, offset, sector))
    } else if offset + length > u64::MAX || aligned > u64::MAX {
        Err(overflows(offset, length))
    } else {
        match within_device(info, offset, aligned as u64) {
            Err(err) => Err(err),
            Ok(()) => Ok((offset + length) as u64),
        }
    }
}

/// Rounds up to whole sectors where the result still fits.
pub fn checked_align(value: u64, sector: u32) -> (aligned: Option<u64>)
    requires
        sector > 0,
    ensures
        match aligned {
            Some(n) => n == rounded_up(value as int, sector as int),
            None => rounded_up(value as int, sector as int) > u64::MAX,
        },
{
    let over: u64 = value % (sector as u64);
    proof {
        vstd::arithmetic::div_mod::lemma_mod_decreases(value as nat, sector as nat);
    }
    if over == 0 {
        Some(value)
    } else {
        (value - over).checked_add(sector as u64)
    }
}

/// Everything a range operation proves before it touches the device, shared
/// with `--dry-run` so a rehearsal approves exactly what the real run would.
/// Returns the exclusive end of the range.
pub fn check_range(info: &DeviceInfo, offset: u64, length: u64) -> (result: Result<u64>)
    ensures
        error::outcome(result) == range_check(info@, offset, length),
{
    if let Err(err) = require_usable_sector(info) {
        return Err(err);
    }
    let sector: u32 = info.logical_sector_size;
    proof {
        sectors_fill_a_chunk(sector);
    }
    if let Err(err) = require_aligned("offset", offset, sector) {
        return Err(err);
    }
    let end: u64 = match offset.checked_add(length) {
        Some(end) => end,
        None => {
            return Err(overflow_error(offset, length));
        },
    };
    let aligned: u64 = match checked_align(length, sector) {
        Some(aligned) => aligned,
        None => {
            return Err(overflow_error(offset, length));
        },
    };
    match ensure_within_device(info, offset, aligned) {
        Err(err) => Err(err),
        Ok(()) => Ok(end),
    }
}

/// What a read that only looks is answered before it starts: the exclusive end
/// of the range, or why the device will not have it.
pub open spec fn read_range_check(
    info: DeviceInfoView,
    offset: u64,
    length: u64,
) -> core::result::Result<u64, ErrorView> {
    let sector = info.logical_sector_size;
    let aligned = rounded_up(offset + length, sector as int);
    if !usable_sector(sector) {
        Err(unusable_sector(info))
    } else if offset + length > u64::MAX || aligned > u64::MAX {
        Err(overflows(offset, length))
    } else if info.size_bytes is Some && aligned > info.size_bytes->0 {
        Err(past_the_end(offset, length, info.size_bytes->0))
    } else {
        Ok((offset + length) as u64)
    }
}

/// What a read that only looks proves before it touches the device. Unlike a
/// transfer the offset need not be sector aligned: the sector the range starts
/// in is read whole and its head discarded, which is what lets an inspection
/// look at a structure that does not begin on a sector. Returns the exclusive
/// end of the range.
pub fn check_read_range(info: &DeviceInfo, offset: u64, length: u64) -> (result: Result<u64>)
    ensures
        error::outcome(result) == read_range_check(info@, offset, length),
{
    if let Err(err) = require_usable_sector(info) {
        return Err(err);
    }
    let sector: u32 = info.logical_sector_size;
    proof {
        sectors_fill_a_chunk(sector);
    }
    let end: u64 = match offset.checked_add(length) {
        Some(end) => end,
        None => {
            return Err(overflow_error(offset, length));
        },
    };
    // The last sector is read whole, so it is the aligned end that has to fit.
    let aligned: u64 = match checked_align(end, sector) {
        Some(aligned) => aligned,
        None => {
            return Err(overflow_error(offset, length));
        },
    };
    match info.size_bytes {
        Some(size) => if aligned > size {
            Err(past_the_end_error(offset, length, size))
        } else {
            Ok(end)
        },
        None => Ok(end),
    }
}

/// Everything a transfer touches: the device, the file on its other side, the
/// record of steps, and whoever is watching.
#[verifier::ext_equal]
pub struct Transfer<D, F, P> {
    pub device: D,
    pub file: F,
    pub trace: Seq<StepView>,
    pub progress: P,
}

/// The bytes that go in one chunk when `left` are still to go.
pub open spec fn chunk_of(left: int) -> int {
    if left < CHUNK {
        left
    } else {
        CHUNK as int
    }
}

/// A cleared buffer.
pub open spec fn zeros(len: int) -> Seq<u8> {
    Seq::new(len as nat, |i: int| 0u8)
}

/// How a step that moves bytes is recorded: what it does, how many and where.
pub open spec fn moving(verb: Seq<char>, bytes: int, at: int) -> Seq<char> {
    verb + text::dec(bytes as nat) + "B at "@ + text::dec(at as nat)
}

fn moving_text(verb: &str, bytes: usize, at: u64) -> (detail: String)
    ensures
        detail@ == moving(verb@, bytes as int, at as int),
{
    let mut detail = verb.to_owned();
    text::push_dec(&mut detail, bytes as u64);
    detail.append("B at ");
    text::push_dec(&mut detail, at);
    detail
}

/// One read of whole sectors into a cleared buffer, on the record under `verb`.
pub open spec fn read_sectors<D: RawDevice>(
    device: D::State,
    trace: Seq<StepView>,
    verb: Seq<char>,
    at: u64,
    len: int,
) -> (core::result::Result<Seq<u8>, DeviceErrorView>, D::State, Seq<StepView>) {
    let (read, bytes, after) = D::read_step(device, at, zeros(len));
    match read {
        Ok(_) => (
            Ok(bytes),
            after,
            trace.push(StepView::ok(Stage::Read, moving(verb, len, at as int), "ok"@)),
        ),
        Err(err) => (
            Err(err),
            after,
            trace.push(StepView::failed(moving(verb, len, at as int), err)),
        ),
    }
}

fn read_sectors_at<D: RawDevice>(
    device: &mut D,
    trace: &mut Trace,
    verb: &str,
    at: u64,
    len: usize,
) -> (result: core::result::Result<Vec<u8>, DeviceError>)
    ensures
        ({
            let (read, after, steps) = read_sectors::<D>(
                old(device).state(),
                old(trace)@,
                verb@,
                at,
                len as int,
            );
            &&& match result {
                Ok(bytes) => read == Ok::<Seq<u8>, DeviceErrorView>(bytes@) && bytes@.len() == len,
                Err(err) => read == Err::<Seq<u8>, DeviceErrorView>(err@),
            }
            &&& final(device).state() == after
            &&& final(trace)@ == steps
        }),
        D::described(final(device).state()) == D::described(old(device).state()),
{
    let mut buf: Vec<u8> = vec![0u8; len];
    assert(buf@ =~= zeros(len as int));
    let detail = moving_text(verb, len, at);
    match device.read_at(at, buf.as_mut_slice()) {
        Ok(_) => {
            trace.ok(Stage::Read, detail.as_str(), "ok");
            Ok(buf)
        },
        Err(err) => {
            trace.failed(detail.as_str(), &err);
            Err(err)
        },
    }
}

/// The rest of a dump once `done` bytes have been handed over: chunk after
/// chunk from the device to the file, then the file flushed. A device that
/// fails leaves the file flushed; a file that refuses its bytes ends the dump.
pub open spec fn dump_from<D: RawDevice, K: Sink, P: Progress>(
    at: Transfer<D::State, K::State, P::State>,
    offset: u64,
    length: u64,
    sector: u32,
    done: u64,
) -> (core::result::Result<u64, ErrorView>, Transfer<D::State, K::State, P::State>)
    decreases length - done,
{
    if done >= length {
        let (flushed, file) = K::flush_step(at.file);
        match flushed {
            Ok(()) => (
                Ok(done),
                Transfer { file, progress: P::on(at.progress, ProgressEvent::Finish(done)), ..at },
            ),
            Err(err) => (
                Err(ErrorView::Io { context: "flushing output file"@, source: err }),
                Transfer { file, ..at },
            ),
        }
    } else {
        let want = chunk_of(length - done);
        let (read, device, trace) = read_sectors::<D>(
            at.device,
            at.trace,
            "read "@,
            (offset + done) as u64,
            rounded_up(want, sector as int),
        );
        match read {
            Err(err) => (
                Err(ErrorView::Device(err)),
                Transfer { device, trace, file: K::flush_step(at.file).1, ..at },
            ),
            Ok(bytes) => {
                let (written, file) = K::write_step(at.file, bytes.subrange(0, want));
                match written {
                    Err(err) => (
                        Err(ErrorView::Io { context: "writing output file"@, source: err }),
                        Transfer { device, trace, file, ..at },
                    ),
                    Ok(()) => {
                        let now = (done + want) as u64;
                        dump_from::<D, K, P>(
                            Transfer {
                                device,
                                trace,
                                file,
                                progress: P::on(
                                    at.progress,
                                    ProgressEvent::Advance { done: now, total: length },
                                ),
                            },
                            offset,
                            length,
                            sector,
                            now,
                        )
                    },
                }
            },
        }
    }
}

/// A whole dump: the range is checked, and nothing is touched if it fails.
pub open spec fn dumped<D: RawDevice, K: Sink, P: Progress>(
    at: Transfer<D::State, K::State, P::State>,
    offset: u64,
    length: u64,
) -> (core::result::Result<u64, ErrorView>, Transfer<D::State, K::State, P::State>) {
    let info = D::described(at.device);
    match range_check(info, offset, length) {
        Err(err) => (Err(err), at),
        Ok(_) => dump_from::<D, K, P>(at, offset, length, info.logical_sector_size, 0),
    }
}

/// Returns the number of bytes written to `sink`.
#[verifier::loop_isolation(false)]
pub fn dump<D: RawDevice, K: Sink, P: Progress>(
    device: &mut D,
    offset: u64,
    length: u64,
    sink: &mut K,
    trace: &mut Trace,
    progress: &mut P,
) -> (result: Result<u64>)
    ensures
        (
            error::outcome(result),
            Transfer {
                device: final(device).state(),
                file: final(sink).state(),
                trace: final(trace)@,
                progress: final(progress).state(),
            },
        ) == dumped::<D, K, P>(
            Transfer {
                device: old(device).state(),
                file: old(sink).state(),
                trace: old(trace)@,
                progress: old(progress).state(),
            },
            offset,
            length,
        ),
        result is Ok ==> result->Ok_0 == length,
        D::described(final(device).state()) == D::described(old(device).state()),
{
    if let Err(err) = check_range(device.info(), offset, length) {
        return Err(err);
    }
    let sector: u32 = device.info().logical_sector_size;
    let mut done: u64 = 0;
    let ghost start = Transfer {
        device: device.state(),
        file: sink.state(),
        trace: trace@,
        progress: progress.state(),
    };
    while done < length
        invariant
            done <= length,
            offset + length <= u64::MAX,
            usable_sector(sector),
            D::described(device.state()) == D::described(start.device),
            dump_from::<D, K, P>(
                Transfer {
                    device: device.state(),
                    file: sink.state(),
                    trace: trace@,
                    progress: progress.state(),
                },
                offset,
                length,
                sector,
                done,
            ) == dump_from::<D, K, P>(start, offset, length, sector, 0),
        decreases length - done,
    {
        let left: u64 = length - done;
        let want: usize = if left < CHUNK as u64 {
            left as usize
        } else {
            CHUNK
        };
        proof {
            a_rounded_chunk_fits(want as int, sector);
        }
        let aligned: usize = align_up(want as u64, sector) as usize;
        let at: u64 = offset + done;
        let bytes = match read_sectors_at(device, trace, "read ", at, aligned) {
            Ok(bytes) => bytes,
            Err(err) => {
                let _ = sink.flush();
                return Err(Error::Device(err));
            },
        };
        if let Err(err) = sink.write_all(slice_subrange(bytes.as_slice(), 0, want)) {
            return Err(Error::io("writing output file", err));
        }
        done = done + want as u64;
        progress.advance(done, length);
    }
    if let Err(err) = sink.flush() {
        return Err(Error::io("flushing output file", err));
    }
    progress.finish(done);
    Ok(done)
}

/// Pushes what has been written at the medium, on the record. A medium that
/// refuses leaves the write aborted after `done` bytes.
pub open spec fn pushed<D: RawDevice>(
    device: D::State,
    trace: Seq<StepView>,
    start: u64,
    done: u64,
) -> (core::result::Result<(), ErrorView>, D::State, Seq<StepView>) {
    let (flushed, after) = D::flush_step(device);
    let detail = "flush after "@ + text::dec(done as nat) + "B"@;
    match flushed {
        Ok(()) => (Ok(()), after, trace.push(StepView::ok(Stage::Flush, detail, "ok"@))),
        Err(err) => (
            Err(ErrorView::WriteAborted { start, written: done, source: err }),
            after,
            trace.push(StepView::failed(detail, err)),
        ),
    }
}

fn push<D: RawDevice>(device: &mut D, start: u64, done: u64, trace: &mut Trace) -> (result: Result<
    (),
>)
    ensures
        (error::outcome(result), final(device).state(), final(trace)@) == pushed::<D>(
            old(device).state(),
            old(trace)@,
            start,
            done,
        ),
        D::described(final(device).state()) == D::described(old(device).state()),
{
    let mut detail = "flush after ".to_owned();
    text::push_dec(&mut detail, done);
    detail.append("B");
    match device.flush() {
        Ok(()) => {
            trace.ok(Stage::Flush, detail.as_str(), "ok");
            Ok(())
        },
        Err(err) => {
            trace.failed(detail.as_str(), &err);
            Err(abort(start, done, err))
        },
    }
}

fn abort(start: u64, written: u64, source: DeviceError) -> (err: Error)
    ensures
        err@ == (ErrorView::WriteAborted { start, written, source: source@ }),
{
    Error::WriteAborted { start, written, source }
}

/// The bytes past the end of an image of `want` bytes at `at`, inside the last
/// sector it touches. Only that sector is read.
pub open spec fn tail_kept<D: RawDevice>(
    device: D::State,
    trace: Seq<StepView>,
    at: u64,
    want: int,
    sector: u32,
) -> (core::result::Result<Seq<u8>, DeviceErrorView>, D::State, Seq<StepView>) {
    let head = want % sector as int;
    let from = (at + want - head) as u64;
    let (read, bytes, after) = D::read_step(device, from, zeros(sector as int));
    let detail = moving("read-back "@, sector as int, from as int);
    match read {
        Ok(_) => (
            Ok(bytes.subrange(head, sector as int)),
            after,
            trace.push(StepView::ok(Stage::Read, detail, "tail sector preserved"@)),
        ),
        Err(err) => (Err(err), after, trace.push(StepView::failed(detail, err))),
    }
}

/// Restores the bytes past the end of the image inside the sector it ends in,
/// so a length that is not a sector multiple leaves its neighbour intact. Only
/// that one sector is read, and its start is sector aligned because `at` is.
fn keep_tail<D: RawDevice>(
    device: &mut D,
    at: u64,
    sector: u32,
    buf: &mut Vec<u8>,
    trace: &mut Trace,
) -> (result: core::result::Result<(), DeviceError>)
    requires
        usable_sector(sector),
        old(buf)@.len() <= CHUNK,
        at + old(buf)@.len() <= u64::MAX,
        old(buf)@.len() as int % sector as int != 0,
    ensures
        ({
            let (kept, after, steps) = tail_kept::<D>(
                old(device).state(),
                old(trace)@,
                at,
                old(buf)@.len() as int,
                sector,
            );
            &&& match kept {
                Ok(tail) => result is Ok && final(buf)@ == old(buf)@ + tail,
                Err(err) => error::answer(result) == Err::<(), DeviceErrorView>(err),
            }
            &&& final(device).state() == after
            &&& final(trace)@ == steps
        }),
        D::described(final(device).state()) == D::described(old(device).state()),
{
    proof {
        sectors_fill_a_chunk(sector);
        vstd::arithmetic::div_mod::lemma_mod_decreases(buf@.len() as nat, sector as nat);
    }
    let want: usize = buf.len();
    let head: usize = want % (sector as usize);
    let from: u64 = at + (want - head) as u64;
    let mut tail: Vec<u8> = vec![0u8; sector as usize];
    assert(tail@ =~= zeros(sector as int));
    let detail = moving_text("read-back ", sector as usize, from);
    match device.read_at(from, tail.as_mut_slice()) {
        Ok(_) => {
            trace.ok(Stage::Read, detail.as_str(), "tail sector preserved");
            let rest = slice_subrange(tail.as_slice(), head, sector as usize);
            buf.extend_from_slice(rest);
            assert(buf@ =~= old(buf)@ + rest@);
            Ok(())
        },
        Err(err) => {
            trace.failed(detail.as_str(), &err);
            Err(err)
        },
    }
}

/// An input file that failed once part of the image was on the medium.
pub open spec fn input_failed(err: error::IoErrorView) -> DeviceErrorView {
    let failed = DeviceErrorView::of_io(Stage::Read, err);
    DeviceErrorView { message: "reading input file: "@ + failed.message, ..failed }
}

/// One chunk of a flash, `done` bytes in: it is read from the file, the tail
/// of its last sector is read back where the image ends inside one, and it is
/// written; the medium is pushed when enough has gathered since the last time.
/// Answers how far the medium has been pushed.
#[verifier::opaque]
pub open spec fn flash_chunk<D: RawDevice, S: Source, P: Progress>(
    at: Transfer<D::State, S::State, P::State>,
    offset: u64,
    length: u64,
    sector: u32,
    done: u64,
    last_flushed: u64,
) -> (core::result::Result<u64, ErrorView>, Transfer<D::State, S::State, P::State>) {
    let want = chunk_of(length - done);
    let to = (offset + done) as u64;
    let now = (done + want) as u64;
    let (read, image, file) = S::read_step(at.file, zeros(want));
    match read {
        Err(err) => if done == 0 {
            (
                Err(ErrorView::Io { context: "reading input file"@, source: err }),
                Transfer { file, ..at },
            )
        } else {
            let (push, device, trace) = pushed::<D>(at.device, at.trace, offset, done);
            let after = Transfer { device, file, trace, ..at };
            match push {
                Err(aborted) => (Err(aborted), after),
                Ok(()) => (
                    Err(
                        ErrorView::WriteAborted {
                            start: offset,
                            written: done,
                            source: input_failed(err),
                        },
                    ),
                    after,
                ),
            }
        },
        Ok(()) => {
            let (tail, device, trace) = if want % sector as int == 0 {
                (Ok(Seq::empty()), at.device, at.trace)
            } else {
                tail_kept::<D>(at.device, at.trace, to, want, sector)
            };
            match tail {
                Err(err) => (
                    Err(ErrorView::WriteAborted { start: offset, written: done, source: err }),
                    Transfer { device, file, trace, ..at },
                ),
                Ok(rest) => {
                    let (written, device) = D::write_step(device, to, image + rest);
                    let detail = moving("write "@, rounded_up(want, sector as int), to as int);
                    match written {
                        Err(err) => (
                            Err(
                                ErrorView::WriteAborted {
                                    start: offset,
                                    written: done,
                                    source: err,
                                },
                            ),
                            Transfer {
                                device,
                                file,
                                trace: trace.push(StepView::failed(detail, err)),
                                ..at
                            },
                        ),
                        Ok(_) => {
                            let trace = trace.push(StepView::ok(Stage::Write, detail, "ok"@));
                            let progress = P::on(
                                at.progress,
                                ProgressEvent::Advance { done: now, total: length },
                            );
                            if due_for_flush(now, last_flushed) {
                                let (push, device, trace) = pushed::<D>(device, trace, offset, now);
                                (
                                    match push {
                                        Ok(()) => Ok(now),
                                        Err(aborted) => Err(aborted),
                                    },
                                    Transfer { device, file, trace, progress },
                                )
                            } else {
                                (Ok(last_flushed), Transfer { device, file, trace, progress })
                            }
                        },
                    }
                },
            }
        },
    }
}

/// The rest of a flash once `done` bytes are on the device: chunk after chunk,
/// then the wait for the medium to take what is left.
pub open spec fn flash_from<D: RawDevice, S: Source, P: Progress>(
    at: Transfer<D::State, S::State, P::State>,
    offset: u64,
    length: u64,
    sector: u32,
    done: u64,
    last_flushed: u64,
) -> (core::result::Result<u64, ErrorView>, Transfer<D::State, S::State, P::State>)
    decreases length - done,
{
    if done >= length {
        let waiting = P::on(at.progress, ProgressEvent::Waiting("waiting for the medium"@));
        let (push, device, trace) = pushed::<D>(at.device, at.trace, offset, done);
        match push {
            Err(aborted) => (Err(aborted), Transfer { device, trace, progress: waiting, ..at }),
            Ok(()) => (
                Ok(done),
                Transfer {
                    device,
                    trace,
                    progress: P::on(waiting, ProgressEvent::Finish(done)),
                    ..at
                },
            ),
        }
    } else {
        let (chunk, after) = flash_chunk::<D, S, P>(
            at,
            offset,
            length,
            sector,
            done,
            last_flushed,
        );
        match chunk {
            Err(err) => (Err(err), after),
            Ok(flushed) => flash_from::<D, S, P>(
                after,
                offset,
                length,
                sector,
                (done + chunk_of(length - done)) as u64,
                flushed,
            ),
        }
    }
}

/// A whole flash: a device that is not removable, or a range it cannot hold, is
/// refused with nothing touched.
pub open spec fn flashed<D: RawDevice, S: Source, P: Progress>(
    at: Transfer<D::State, S::State, P::State>,
    offset: u64,
    length: u64,
) -> (core::result::Result<u64, ErrorView>, Transfer<D::State, S::State, P::State>) {
    let info = D::described(at.device);
    if !(info.removability is Removable) {
        (Err(not_removable(info)), at)
    } else {
        match range_check(info, offset, length) {
            Err(err) => (Err(err), at),
            Ok(_) => flash_from::<D, S, P>(at, offset, length, info.logical_sector_size, 0, 0),
        }
    }
}

fn write_chunk<D: RawDevice, S: Source, P: Progress>(
    device: &mut D,
    offset: u64,
    length: u64,
    sector: u32,
    done: u64,
    last_flushed: u64,
    source: &mut S,
    trace: &mut Trace,
    progress: &mut P,
) -> (result: Result<u64>)
    requires
        done < length,
        offset + length <= u64::MAX,
        usable_sector(sector),
    ensures
        (
            error::outcome(result),
            Transfer {
                device: final(device).state(),
                file: final(source).state(),
                trace: final(trace)@,
                progress: final(progress).state(),
            },
        ) == flash_chunk::<D, S, P>(
            Transfer {
                device: old(device).state(),
                file: old(source).state(),
                trace: old(trace)@,
                progress: old(progress).state(),
            },
            offset,
            length,
            sector,
            done,
            last_flushed,
        ),
        D::described(final(device).state()) == D::described(old(device).state()),
{
    reveal(flash_chunk);
    let left: u64 = length - done;
    let want: usize = if left < CHUNK as u64 {
        left as usize
    } else {
        CHUNK
    };
    proof {
        a_rounded_chunk_fits(want as int, sector);
    }
    let at: u64 = offset + done;
    let mut buf: Vec<u8> = vec![0u8; want];
    assert(buf@ =~= zeros(want as int));
    if let Err(err) = source.read_exact(buf.as_mut_slice()) {
        // Nothing written yet is a plain input failure; after that the
        // card is partially written, so the cache is pushed at the
        // medium and the error carries how much landed.
        if done == 0 {
            return Err(Error::io("reading input file", err));
        }
        if let Err(aborted) = push(device, offset, done, trace) {
            return Err(aborted);
        }
        let failed = DeviceError::from_io_error(Stage::Read, &err);
        let mut message = "reading input file: ".to_owned();
        message.append(failed.message.as_str());
        let failed = DeviceError { stage: failed.stage, message, os_error: failed.os_error };
        return Err(abort(offset, done, failed));
    }
    let aligned: usize = align_up(want as u64, sector) as usize;

    // Only the sector the image ends inside is read back, so the
    // bytes past its end survive.
    let ghost image = buf@;
    if aligned > want {
        if let Err(err) = keep_tail(device, at, sector, &mut buf, trace) {
            return Err(abort(offset, done, err));
        }
    } else {
        assert(image =~= image + Seq::<u8>::empty());
    }

    let detail = moving_text("write ", aligned, at);
    if let Err(err) = device.write_at(at, buf.as_slice()) {
        trace.failed(detail.as_str(), &err);
        return Err(abort(offset, done, err));
    }
    trace.ok(Stage::Write, detail.as_str(), "ok");
    let now: u64 = done + want as u64;
    progress.advance(now, length);

    if flush_due(now, last_flushed) {
        if let Err(aborted) = push(device, offset, now, trace) {
            return Err(aborted);
        }
        return Ok(now);
    }
    Ok(last_flushed)
}

/// On failure the last successfully written offset is carried in the error.
#[verifier::loop_isolation(false)]
pub fn flash<D: RawDevice, S: Source, P: Progress>(
    device: &mut D,
    offset: u64,
    length: u64,
    source: &mut S,
    trace: &mut Trace,
    progress: &mut P,
) -> (result: Result<u64>)
    ensures
        (
            error::outcome(result),
            Transfer {
                device: final(device).state(),
                file: final(source).state(),
                trace: final(trace)@,
                progress: final(progress).state(),
            },
        ) == flashed::<D, S, P>(
            Transfer {
                device: old(device).state(),
                file: old(source).state(),
                trace: old(trace)@,
                progress: old(progress).state(),
            },
            offset,
            length,
        ),
        result is Ok ==> result->Ok_0 == length,
        D::described(final(device).state()) == D::described(old(device).state()),
{
    if let Err(err) = ensure_writable(device.info()) {
        return Err(err);
    }
    if let Err(err) = check_range(device.info(), offset, length) {
        return Err(err);
    }
    let sector: u32 = device.info().logical_sector_size;
    let mut done: u64 = 0;
    let mut last_flushed: u64 = 0;
    let ghost start = Transfer {
        device: device.state(),
        file: source.state(),
        trace: trace@,
        progress: progress.state(),
    };
    while done < length
        invariant
            done <= length,
            D::described(device.state()) == D::described(start.device),
            flash_from::<D, S, P>(
                Transfer {
                    device: device.state(),
                    file: source.state(),
                    trace: trace@,
                    progress: progress.state(),
                },
                offset,
                length,
                sector,
                done,
                last_flushed,
            ) == flash_from::<D, S, P>(start, offset, length, sector, 0, 0),
        decreases length - done,
    {
        match write_chunk(
            device,
            offset,
            length,
            sector,
            done,
            last_flushed,
            source,
            trace,
            progress,
        ) {
            Ok(flushed) => {
                last_flushed = flushed;
            },
            Err(err) => {
                return Err(err);
            },
        }
        let left: u64 = length - done;
        done = if left < CHUNK as u64 {
            length
        } else {
            done + CHUNK as u64
        };
    }

    // What is left in the cache still has to cross to the medium, and on a
    // slow card that is most of the wall clock. Saying so beats a report
    // that reads as finished while the device is still working.
    progress.waiting("waiting for the medium");
    if let Err(aborted) = push(device, offset, done, trace) {
        return Err(aborted);
    }
    progress.finish(done);
    Ok(done)
}

/// `i` is the first place where two runs of bytes differ.
pub open spec fn differ_first_at(a: Seq<u8>, b: Seq<u8>, i: int) -> bool {
    &&& 0 <= i < a.len()
    &&& i < b.len()
    &&& a[i] != b[i]
    &&& forall|j: int| 0 <= j < i ==> a[j] == b[j]
}

/// The rest of a comparison once `done` bytes have matched: chunk after chunk
/// from the device and from the file, up to the first byte that differs.
pub open spec fn verify_from<D: RawDevice, S: Source, P: Progress>(
    at: Transfer<D::State, S::State, P::State>,
    offset: u64,
    length: u64,
    sector: u32,
    done: u64,
) -> (core::result::Result<u64, ErrorView>, Transfer<D::State, S::State, P::State>)
    decreases length - done,
{
    if done >= length {
        (
            Ok(done),
            Transfer { progress: P::on(at.progress, ProgressEvent::Finish(done)), ..at },
        )
    } else {
        let want = chunk_of(length - done);
        let from = (offset + done) as u64;
        let (read, device, trace) = read_sectors::<D>(
            at.device,
            at.trace,
            "verify read "@,
            from,
            rounded_up(want, sector as int),
        );
        match read {
            Err(err) => (Err(ErrorView::Device(err)), Transfer { device, trace, ..at }),
            Ok(bytes) => {
                let found = bytes.subrange(0, want);
                let (served, expected, file) = S::read_step(at.file, zeros(want));
                match served {
                    Err(err) => (
                        Err(ErrorView::Io { context: "reading input file"@, source: err }),
                        Transfer { device, file, trace, ..at },
                    ),
                    Ok(()) => if found != expected {
                        let i = choose|i: int| differ_first_at(found, expected, i);
                        (
                            Err(
                                ErrorView::VerifyFailed {
                                    offset: (from + i) as u64,
                                    expected: expected[i],
                                    found: found[i],
                                },
                            ),
                            Transfer { device, file, trace, ..at },
                        )
                    } else {
                        let now = (done + want) as u64;
                        verify_from::<D, S, P>(
                            Transfer {
                                device,
                                file,
                                trace,
                                progress: P::on(
                                    at.progress,
                                    ProgressEvent::Advance { done: now, total: length },
                                ),
                            },
                            offset,
                            length,
                            sector,
                            now,
                        )
                    },
                }
            },
        }
    }
}

/// A whole comparison, behind the guards a transfer has.
pub open spec fn verified<D: RawDevice, S: Source, P: Progress>(
    at: Transfer<D::State, S::State, P::State>,
    offset: u64,
    length: u64,
) -> (core::result::Result<u64, ErrorView>, Transfer<D::State, S::State, P::State>) {
    let info = D::described(at.device);
    match range_check(info, offset, length) {
        Err(err) => (Err(err), at),
        Ok(_) => verify_from::<D, S, P>(at, offset, length, info.logical_sector_size, 0),
    }
}

/// Where two runs of bytes of one length first differ.
fn first_difference(a: &[u8], b: &[u8]) -> (at: Option<usize>)
    requires
        a@.len() == b@.len(),
    ensures
        match at {
            Some(i) => differ_first_at(a@, b@, i as int),
            None => a@ == b@,
        },
{
    let mut i: usize = 0;
    while i < a.len()
        invariant
            i <= a@.len() == b@.len(),
            forall|j: int| 0 <= j < i ==> a@[j] == b@[j],
        decreases a@.len() - i,
    {
        if a[i] != b[i] {
            return Some(i);
        }
        i += 1;
    }
    assert(a@ =~= b@);
    None
}

/// Reads the range back and compares it with `source`. Returns the number of
/// bytes that matched; the first difference aborts with its offset. Shares the
/// transfer guards so verify accepts exactly the ranges dump and flash do.
#[verifier::loop_isolation(false)]
pub fn verify<D: RawDevice, S: Source, P: Progress>(
    device: &mut D,
    offset: u64,
    length: u64,
    source: &mut S,
    trace: &mut Trace,
    progress: &mut P,
) -> (result: Result<u64>)
    ensures
        (
            error::outcome(result),
            Transfer {
                device: final(device).state(),
                file: final(source).state(),
                trace: final(trace)@,
                progress: final(progress).state(),
            },
        ) == verified::<D, S, P>(
            Transfer {
                device: old(device).state(),
                file: old(source).state(),
                trace: old(trace)@,
                progress: old(progress).state(),
            },
            offset,
            length,
        ),
        result is Ok ==> result->Ok_0 == length,
        D::described(final(device).state()) == D::described(old(device).state()),
{
    if let Err(err) = check_range(device.info(), offset, length) {
        return Err(err);
    }
    let sector: u32 = device.info().logical_sector_size;
    let mut done: u64 = 0;
    let ghost start = Transfer {
        device: device.state(),
        file: source.state(),
        trace: trace@,
        progress: progress.state(),
    };
    while done < length
        invariant
            done <= length,
            D::described(device.state()) == D::described(start.device),
            verify_from::<D, S, P>(
                Transfer {
                    device: device.state(),
                    file: source.state(),
                    trace: trace@,
                    progress: progress.state(),
                },
                offset,
                length,
                sector,
                done,
            ) == verify_from::<D, S, P>(start, offset, length, sector, 0),
        decreases length - done,
    {
        let left: u64 = length - done;
        let want: usize = if left < CHUNK as u64 {
            left as usize
        } else {
            CHUNK
        };
        proof {
            a_rounded_chunk_fits(want as int, sector);
        }
        let aligned: usize = align_up(want as u64, sector) as usize;
        let at: u64 = offset + done;
        let from_device = match read_sectors_at(device, trace, "verify read ", at, aligned) {
            Ok(bytes) => bytes,
            Err(err) => {
                return Err(Error::Device(err));
            },
        };
        let mut from_file: Vec<u8> = vec![0u8; want];
        assert(from_file@ =~= zeros(want as int));
        if let Err(err) = source.read_exact(from_file.as_mut_slice()) {
            return Err(Error::io("reading input file", err));
        }
        let found = slice_subrange(from_device.as_slice(), 0, want);
        if let Some(i) = first_difference(found, from_file.as_slice()) {
            proof {
                assert(differ_first_at(found@, from_file@, i as int));
                let c = choose|c: int| differ_first_at(found@, from_file@, c);
                assert(c == i);
            }
            return Err(
                Error::VerifyFailed {
                    offset: at + i as u64,
                    expected: from_file[i],
                    found: from_device[i],
                },
            );
        }
        done = done + want as u64;
        progress.advance(done, length);
    }
    progress.finish(done);
    Ok(done)
}

/// A device that is not removable is never written, whatever it is asked and
/// whoever asks: the answer says so and nothing at all is touched.
pub proof fn only_a_removable_device_is_written<D: RawDevice, S: Source, P: Progress>(
    at: Transfer<D::State, S::State, P::State>,
    offset: u64,
    length: u64,
)
    requires
        !(D::described(at.device).removability is Removable),
    ensures
        flashed::<D, S, P>(at, offset, length) == (
            Err::<u64, ErrorView>(not_removable(D::described(at.device))),
            at,
        ),
{
}

/// A rehearsal refuses exactly what the real run would refuse: where the range
/// check fails, a dump, a comparison and a flash of a removable device all
/// give its answer and touch nothing, and where it passes none of them finds
/// fault with its arguments.
pub proof fn a_rehearsal_approves_what_the_real_run_would<
    D: RawDevice,
    K: Sink,
    S: Source,
    P: Progress,
>(
    out: Transfer<D::State, K::State, P::State>,
    back: Transfer<D::State, S::State, P::State>,
    offset: u64,
    length: u64,
)
    requires
        D::described(out.device) == D::described(back.device),
        D::described(out.device).removability is Removable,
    ensures
        match range_check(D::described(out.device), offset, length) {
            Err(err) => {
                &&& dumped::<D, K, P>(out, offset, length) == (Err::<u64, ErrorView>(err), out)
                &&& verified::<D, S, P>(back, offset, length) == (Err::<u64, ErrorView>(err), back)
                &&& flashed::<D, S, P>(back, offset, length) == (Err::<u64, ErrorView>(err), back)
            },
            Ok(_) => {
                &&& !(dumped::<D, K, P>(out, offset, length).0 matches Err(
                    ErrorView::InvalidArgument(_),
                ))
                &&& !(verified::<D, S, P>(back, offset, length).0 matches Err(
                    ErrorView::InvalidArgument(_),
                ))
                &&& !(flashed::<D, S, P>(back, offset, length).0 matches Err(
                    ErrorView::InvalidArgument(_),
                ))
            },
        },
{
    let sector = D::described(out.device).logical_sector_size;
    dump_finds_no_fault::<D, K, P>(out, offset, length, sector, 0);
    verify_finds_no_fault::<D, S, P>(back, offset, length, sector, 0);
    flash_finds_no_fault::<D, S, P>(back, offset, length, sector, 0, 0);
}

proof fn dump_finds_no_fault<D: RawDevice, K: Sink, P: Progress>(
    at: Transfer<D::State, K::State, P::State>,
    offset: u64,
    length: u64,
    sector: u32,
    done: u64,
)
    ensures
        !(dump_from::<D, K, P>(at, offset, length, sector, done).0 matches Err(
            ErrorView::InvalidArgument(_),
        )),
    decreases length - done,
{
    if done < length {
        let want = chunk_of(length - done);
        let now = (done + want) as u64;
        let (read, device, trace) = read_sectors::<D>(
            at.device,
            at.trace,
            "read "@,
            (offset + done) as u64,
            rounded_up(want, sector as int),
        );
        if let Ok(bytes) = read {
            let (_, file) = K::write_step(at.file, bytes.subrange(0, want));
            dump_finds_no_fault::<D, K, P>(
                Transfer {
                    device,
                    trace,
                    file,
                    progress: P::on(
                        at.progress,
                        ProgressEvent::Advance { done: now, total: length },
                    ),
                },
                offset,
                length,
                sector,
                now,
            );
        }
    }
}

proof fn verify_finds_no_fault<D: RawDevice, S: Source, P: Progress>(
    at: Transfer<D::State, S::State, P::State>,
    offset: u64,
    length: u64,
    sector: u32,
    done: u64,
)
    ensures
        !(verify_from::<D, S, P>(at, offset, length, sector, done).0 matches Err(
            ErrorView::InvalidArgument(_),
        )),
    decreases length - done,
{
    if done < length {
        let want = chunk_of(length - done);
        let now = (done + want) as u64;
        let (read, device, trace) = read_sectors::<D>(
            at.device,
            at.trace,
            "verify read "@,
            (offset + done) as u64,
            rounded_up(want, sector as int),
        );
        let (_, _, file) = S::read_step(at.file, zeros(want));
        verify_finds_no_fault::<D, S, P>(
            Transfer {
                device,
                file,
                trace,
                progress: P::on(at.progress, ProgressEvent::Advance { done: now, total: length }),
            },
            offset,
            length,
            sector,
            now,
        );
    }
}

proof fn flash_finds_no_fault<D: RawDevice, S: Source, P: Progress>(
    at: Transfer<D::State, S::State, P::State>,
    offset: u64,
    length: u64,
    sector: u32,
    done: u64,
    last_flushed: u64,
)
    ensures
        !(flash_from::<D, S, P>(at, offset, length, sector, done, last_flushed).0 matches Err(
            ErrorView::InvalidArgument(_),
        )),
    decreases length - done,
{
    if done < length {
        let (chunk, after) = flash_chunk::<D, S, P>(
            at,
            offset,
            length,
            sector,
            done,
            last_flushed,
        );
        assert(!(chunk matches Err(ErrorView::InvalidArgument(_)))) by {
            reveal(flash_chunk);
        }
        if let Ok(flushed) = chunk {
            flash_finds_no_fault::<D, S, P>(
                after,
                offset,
                length,
                sector,
                (done + chunk_of(length - done)) as u64,
                flushed,
            );
        }
    }
}

/// Where the bytes of a read that only looks are handed, run by run. `W` is
/// what they end up in.
///
/// The model has a default nothing is known of, so that an implementation
/// written in plain Rust can leave it out.
pub trait Receiver<W>: Sized {
    type State;

    open spec fn state(&self, into: W) -> Self::State {
        arbitrary()
    }

    open spec fn take_step(state: Self::State, bytes: Seq<u8>) -> (
        core::result::Result<(), ErrorView>,
        Self::State,
    ) {
        arbitrary()
    }

    fn take(&mut self, into: &mut W, bytes: &[u8]) -> (result: Result<()>)
        ensures
            (error::outcome(result), final(self).state(*final(into))) == Self::take_step(
                old(self).state(*old(into)),
                bytes@,
            ),
    ;
}

/// Keeps every byte, in order.
pub struct Collect;

impl Receiver<Vec<u8>> for Collect {
    type State = Seq<u8>;

    open spec fn state(&self, into: Vec<u8>) -> Seq<u8> {
        into@
    }

    open spec fn take_step(state: Seq<u8>, bytes: Seq<u8>) -> (
        core::result::Result<(), ErrorView>,
        Seq<u8>,
    ) {
        (Ok(()), state + bytes)
    }

    fn take(&mut self, into: &mut Vec<u8>, bytes: &[u8]) -> (result: Result<()>) {
        into.extend_from_slice(bytes);
        assert(into@ =~= old(into)@ + bytes@);
        Ok(())
    }
}

/// The bytes before `at` inside the sector it lies in.
pub open spec fn head_of(at: int, sector: u32) -> int {
    at % sector as int
}

/// The bytes handed over in one go when `left` are wanted at `at`: what a chunk
/// holds beside the one sector that may have to be discarded, or what is left
/// of the chunk where a sector fills all of it.
pub open spec fn run_of(left: int, at: int, sector: u32) -> int {
    let span = if sector < CHUNK {
        CHUNK - sector
    } else {
        CHUNK - head_of(at, sector)
    };
    if left < span {
        left
    } else {
        span
    }
}

/// The rest of a read that only looks, once `done` bytes have been handed over.
pub open spec fn read_from<D: RawDevice, W, R: Receiver<W>>(
    at: Transfer<D::State, R::State, ()>,
    offset: u64,
    length: u64,
    sector: u32,
    done: u64,
) -> (core::result::Result<u64, ErrorView>, Transfer<D::State, R::State, ()>)
    decreases length - done,
{
    if done >= length {
        (Ok(done), at)
    } else {
        let from = offset + done;
        let head = head_of(from, sector);
        let want = run_of(length - done, from, sector);
        let (read, device, trace) = read_sectors::<D>(
            at.device,
            at.trace,
            "read "@,
            (from - head) as u64,
            rounded_up(head + want, sector as int),
        );
        match read {
            Err(err) => (Err(ErrorView::Device(err)), Transfer { device, trace, ..at }),
            Ok(bytes) => {
                let (taken, file) = R::take_step(at.file, bytes.subrange(head, head + want));
                let after = Transfer { device, trace, file, ..at };
                match taken {
                    Err(err) => (Err(err), after),
                    Ok(()) => if want <= 0 {
                        (Ok(done), after)
                    } else {
                        read_from::<D, W, R>(after, offset, length, sector, (done + want) as u64)
                    },
                }
            },
        }
    }
}

/// A whole read that only looks: nothing is read if the range fails its check.
pub open spec fn read_through<D: RawDevice, W, R: Receiver<W>>(
    at: Transfer<D::State, R::State, ()>,
    offset: u64,
    length: u64,
) -> (core::result::Result<u64, ErrorView>, Transfer<D::State, R::State, ()>) {
    let info = D::described(at.device);
    match read_range_check(info, offset, length) {
        Err(err) => (Err(err), at),
        Ok(_) => read_from::<D, W, R>(at, offset, length, info.logical_sector_size, 0),
    }
}

/// Every run makes headway, and the sectors it touches fit one chunk.
pub proof fn a_run_makes_headway(left: int, at: int, sector: u32)
    requires
        usable_sector(sector),
        left > 0,
        at >= 0,
    ensures
        0 <= head_of(at, sector) < sector,
        head_of(at, sector) <= at,
        0 < run_of(left, at, sector) <= left,
        run_of(left, at, sector) <= CHUNK,
        head_of(at, sector) + run_of(left, at, sector) <= CHUNK,
{
    sectors_fill_a_chunk(sector);
    vstd::arithmetic::div_mod::lemma_mod_decreases(at as nat, sector as nat);
}

/// Reads `length` bytes from `offset` and hands them to `sink` in chunks, in
/// order. Returns the number of bytes handed over.
#[verifier::loop_isolation(false)]
pub fn read_range<D: RawDevice, W, R: Receiver<W>>(
    device: &mut D,
    offset: u64,
    length: u64,
    trace: &mut Trace,
    sink: &mut R,
    into: &mut W,
) -> (result: Result<u64>)
    ensures
        (
            error::outcome(result),
            Transfer {
                device: final(device).state(),
                file: final(sink).state(*final(into)),
                trace: final(trace)@,
                progress: (),
            },
        ) == read_through::<D, W, R>(
            Transfer {
                device: old(device).state(),
                file: old(sink).state(*old(into)),
                trace: old(trace)@,
                progress: (),
            },
            offset,
            length,
        ),
        result is Ok ==> result->Ok_0 == length,
        D::described(final(device).state()) == D::described(old(device).state()),
{
    if let Err(err) = check_read_range(device.info(), offset, length) {
        return Err(err);
    }
    let sector: u32 = device.info().logical_sector_size;
    let mut done: u64 = 0;
    let ghost start = Transfer {
        device: device.state(),
        file: sink.state(*into),
        trace: trace@,
        progress: (),
    };
    while done < length
        invariant
            done <= length,
            D::described(device.state()) == D::described(start.device),
            read_from::<D, W, R>(
                Transfer {
                    device: device.state(),
                    file: sink.state(*into),
                    trace: trace@,
                    progress: (),
                },
                offset,
                length,
                sector,
                done,
            ) == read_from::<D, W, R>(start, offset, length, sector, 0),
        decreases length - done,
    {
        let left: u64 = length - done;
        let at: u64 = offset + done;
        proof {
            sectors_fill_a_chunk(sector);
            a_run_makes_headway(left as int, at as int, sector);
        }
        let head: u64 = at % (sector as u64);
        let start_at: u64 = at - head;
        // One sector of the buffer belongs to the head that gets discarded, so
        // a full chunk of wanted bytes still fits after the aligned read grows.
        let span: u64 = if (sector as usize) < CHUNK {
            CHUNK as u64 - sector as u64
        } else {
            CHUNK as u64 - head
        };
        let want: u64 = if left < span {
            left
        } else {
            span
        };
        proof {
            a_rounded_chunk_fits(head + want, sector);
        }
        let aligned: usize = align_up(head + want, sector) as usize;
        let bytes = match read_sectors_at(device, trace, "read ", start_at, aligned) {
            Ok(bytes) => bytes,
            Err(err) => {
                return Err(Error::Device(err));
            },
        };
        let wanted = slice_subrange(bytes.as_slice(), head as usize, (head + want) as usize);
        if let Err(err) = sink.take(into, wanted) {
            return Err(err);
        }
        done = done + want;
    }
    Ok(done)
}

/// What has been written stays less than an interval ahead of what was pushed:
/// so it is when a flash begins, and every chunk keeps it so.
pub proof fn the_medium_is_never_far_behind<D: RawDevice, S: Source, P: Progress>(
    at: Transfer<D::State, S::State, P::State>,
    offset: u64,
    length: u64,
    sector: u32,
    done: u64,
    last_flushed: u64,
)
    requires
        last_flushed <= done < length,
        done - last_flushed < FLUSH_INTERVAL,
    ensures
        ({
            let (answer, _) = flash_chunk::<D, S, P>(
                at,
                offset,
                length,
                sector,
                done,
                last_flushed,
            );
            let now = done + chunk_of(length - done);
            answer matches Ok(flushed) ==> flushed <= now && now - flushed < FLUSH_INTERVAL
        }),
{
    reveal(flash_chunk);
}

/// The last thing done to the device was a push that the medium took.
pub open spec fn just_pushed<D: RawDevice>(device: D::State) -> bool {
    exists|before: D::State|
        (#[trigger] D::flush_step(before)).0 is Ok && D::flush_step(before).1 == device
}

proof fn success_waits_from<D: RawDevice, S: Source, P: Progress>(
    at: Transfer<D::State, S::State, P::State>,
    offset: u64,
    length: u64,
    sector: u32,
    done: u64,
    last_flushed: u64,
)
    ensures
        ({
            let (answer, after) = flash_from::<D, S, P>(
                at,
                offset,
                length,
                sector,
                done,
                last_flushed,
            );
            answer is Ok ==> just_pushed::<D>(after.device)
        }),
    decreases length - done,
{
    if done < length {
        let (chunk, after) = flash_chunk::<D, S, P>(
            at,
            offset,
            length,
            sector,
            done,
            last_flushed,
        );
        if let Ok(flushed) = chunk {
            success_waits_from::<D, S, P>(
                after,
                offset,
                length,
                sector,
                (done + chunk_of(length - done)) as u64,
                flushed,
            );
        }
    } else {
        let (push, device, _) = pushed::<D>(at.device, at.trace, offset, done);
        if push is Ok {
            assert(D::flush_step(at.device).0 is Ok && D::flush_step(at.device).1 == device);
        }
    }
}

/// A flash that succeeds has waited for the medium to take all of it.
pub proof fn success_waits_for_the_medium<D: RawDevice, S: Source, P: Progress>(
    at: Transfer<D::State, S::State, P::State>,
    offset: u64,
    length: u64,
)
    ensures
        ({
            let (answer, after) = flashed::<D, S, P>(at, offset, length);
            answer is Ok ==> just_pushed::<D>(after.device)
        }),
{
    success_waits_from::<D, S, P>(
        at,
        offset,
        length,
        D::described(at.device).logical_sector_size,
        0,
        0,
    );
}

} // verus!
