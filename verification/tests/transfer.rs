//! Moving bytes between a device and a file.

use rawio::device::{MemoryDevice, RawDevice, Removability};
use rawio::error::{Error, IoError};
use rawio::progress::{Progress, Silent};
use rawio::stream::{Sink, Source};
use rawio::trace::Trace;
use rawio::transfer::{
    align_up, check_range, check_read_range, checked_align, dump, ensure_writable, flash, flush_due,
    read_range, require_aligned, verify, Collect, CHUNK, FLUSH_INTERVAL,
};

/// Records the order the transfer reported things in.
#[derive(Default)]
struct Recorder {
    events: Vec<String>,
}

impl Progress for Recorder {
    type State = ();

    fn advance(&mut self, done: u64, total: u64) {
        self.events.push(format!("advance {done}/{total}"));
    }

    fn waiting(&mut self, what: &str) {
        self.events.push(format!("waiting {what}"));
    }

    fn finish(&mut self, done: u64) {
        self.events.push(format!("finish {done}"));
    }
}

#[test]
fn the_flush_interval_is_measured_from_the_last_flush() {
    assert!(!flush_due(0, 0));
    assert!(!flush_due(FLUSH_INTERVAL - 1, 0));
    assert!(flush_due(FLUSH_INTERVAL, 0));
    assert!(!flush_due(FLUSH_INTERVAL + 1, FLUSH_INTERVAL));
    assert!(flush_due(2 * FLUSH_INTERVAL, FLUSH_INTERVAL));
}

/// The page cache takes the write long before the medium does, so the
/// report has to say it is still waiting rather than claim it is done.
#[test]
fn flash_reports_the_wait_for_the_medium_before_it_finishes() {
    let mut device = MemoryDevice::new("mem0", 8192, Removability::Removable);
    let mut recorder = Recorder::default();

    flash(
        &mut device,
        0,
        2048,
        &mut pattern(2048).as_slice(),
        &mut Trace::new(),
        &mut recorder,
    )
    .unwrap();

    let waiting = recorder
        .events
        .iter()
        .position(|e| e.starts_with("waiting"));
    let finish = recorder.events.iter().position(|e| e.starts_with("finish"));
    assert!(waiting.is_some(), "{:?}", recorder.events);
    assert!(waiting < finish, "{:?}", recorder.events);
}

fn pattern(len: usize) -> Vec<u8> {
    (0..len).map(|i| (i % 251) as u8).collect()
}

#[test]
fn dump_returns_exact_bytes_at_offset() {
    let mut device = MemoryDevice::new("mem0", 8192, Removability::Removable);
    let data = pattern(1024);
    device.contents_mut()[512..1536].copy_from_slice(&data);

    let mut out = Vec::new();
    let n = dump(&mut device, 512, 1024, &mut out, &mut Trace::new(), &mut Silent).unwrap();

    assert_eq!(n, 1024);
    assert_eq!(out, data);
}

#[test]
fn flash_then_dump_round_trips() {
    let mut device = MemoryDevice::new("mem0", 8192, Removability::Removable);
    let data = pattern(2048);

    flash(
        &mut device,
        1024,
        2048,
        &mut data.as_slice(),
        &mut Trace::new(),
        &mut Silent,
    )
    .unwrap();
    let mut out = Vec::new();
    dump(
        &mut device,
        1024,
        2048,
        &mut out,
        &mut Trace::new(),
        &mut Silent,
    )
    .unwrap();

    assert_eq!(out, data);
}

#[test]
fn flash_preserves_bytes_after_an_unaligned_tail() {
    let mut device = MemoryDevice::new("mem0", 4096, Removability::Removable);
    device.contents_mut()[600..1024].fill(0xAA);

    flash(
        &mut device,
        0,
        600,
        &mut pattern(600).as_slice(),
        &mut Trace::new(),
        &mut Silent,
    )
    .unwrap();

    assert_eq!(&device.contents()[..600], pattern(600).as_slice());
    assert!(device.contents()[600..1024].iter().all(|b| *b == 0xAA));
}

#[test]
fn flash_refuses_a_fixed_device() {
    let mut device = MemoryDevice::new("disk0", 4096, Removability::Fixed);
    let err = flash(
        &mut device,
        0,
        512,
        &mut pattern(512).as_slice(),
        &mut Trace::new(),
        &mut Silent,
    )
    .unwrap_err();

    assert!(matches!(err, Error::NotRemovable { .. }));
    assert_eq!(err.exit_code(), 4);
    assert!(device.contents().iter().all(|b| *b == 0));
}

#[test]
fn flash_rejects_input_larger_than_the_device() {
    let mut device = MemoryDevice::new("mem0", 1024, Removability::Removable);
    let err = flash(
        &mut device,
        512,
        4096,
        &mut pattern(4096).as_slice(),
        &mut Trace::new(),
        &mut Silent,
    )
    .unwrap_err();

    assert!(matches!(err, Error::InvalidArgument(_)));
    assert_eq!(err.exit_code(), 2);
}

#[test]
fn flash_reports_the_last_written_offset_when_the_device_vanishes() {
    let mut device = MemoryDevice::new("mem0", 4 << 20, Removability::Removable);
    device.fail_writes_from(1 << 20);
    let data = pattern(2 << 20);

    let err = flash(
        &mut device,
        0,
        2 << 20,
        &mut data.as_slice(),
        &mut Trace::new(),
        &mut Silent,
    )
    .unwrap_err();

    match err {
        Error::WriteAborted {
            start,
            written,
            ref source,
        } => {
            assert_eq!(start, 0);
            assert_eq!(written, 1 << 20);
            assert_eq!(source.os_error, Some(433));
        }
        other => panic!("unexpected error: {other:?}"),
    }
    assert_eq!(err.exit_code(), 5);
}

/// `start` is where the transfer began, whichever step failed; a recovery
/// that reads `start + written` must not be pointed at the failing chunk.
#[test]
fn a_tail_read_back_failure_reports_the_transfer_start() {
    let mut device = MemoryDevice::new("mem0", 4 << 20, Removability::Removable);
    device.fail_reads_from(4096 + (1 << 20));
    let data = pattern((1 << 20) + 100);

    let err = flash(
        &mut device,
        4096,
        data.len() as u64,
        &mut data.as_slice(),
        &mut Trace::new(),
        &mut Silent,
    )
    .unwrap_err();

    match err {
        Error::WriteAborted { start, written, .. } => {
            assert_eq!(start, 4096);
            assert_eq!(written, 1 << 20);
        }
        other => panic!("unexpected error: {other:?}"),
    }
}

/// Errors from the far side of the transfer have to survive the handoff.
#[test]
fn dump_reports_a_sink_that_refuses_the_data() {
    struct Refuses;
    impl Sink for Refuses {
        type State = ();

        fn write_all(&mut self, _bytes: &[u8]) -> Result<(), IoError> {
            Err(IoError::from_std(&std::io::Error::from(
                std::io::ErrorKind::StorageFull,
            )))
        }

        fn flush(&mut self) -> Result<(), IoError> {
            Ok(())
        }
    }

    let mut device = MemoryDevice::new("mem0", 8192, Removability::Removable);
    let err = dump(
        &mut device,
        0,
        4096,
        &mut Refuses,
        &mut Trace::new(),
        &mut Silent,
    )
    .unwrap_err();

    assert!(matches!(err, Error::Io { .. }), "{err:?}");
    assert_eq!(err.exit_code(), 3);
}

/// The card holds every chunk that landed before the source died, so the
/// error has to say how much, and the cache has to be pushed at the medium
/// so that count describes the card rather than memory.
#[test]
fn a_source_failure_mid_flash_reports_and_flushes_what_landed() {
    struct DiesAfter {
        data: Vec<u8>,
        served: usize,
    }
    impl Source for DiesAfter {
        type State = ();

        fn read_exact(&mut self, buf: &mut [u8]) -> Result<(), IoError> {
            let n = buf.len().min(self.data.len() - self.served);
            buf[..n].copy_from_slice(&self.data[self.served..self.served + n]);
            self.served += n;
            if n < buf.len() {
                return Err(IoError::from_std(&std::io::Error::from(
                    std::io::ErrorKind::TimedOut,
                )));
            }
            Ok(())
        }
    }

    let mut device = MemoryDevice::new("mem0", 4 << 20, Removability::Removable);
    let mut source = DiesAfter {
        data: pattern(1 << 20),
        served: 0,
    };

    let err = flash(
        &mut device,
        4096,
        2 << 20,
        &mut source,
        &mut Trace::new(),
        &mut Silent,
    )
    .unwrap_err();

    match err {
        Error::WriteAborted {
            start,
            written,
            ref source,
        } => {
            assert_eq!(start, 4096);
            assert_eq!(written, 1 << 20);
            assert!(source.message.contains("reading input file"), "{source:?}");
        }
        other => panic!("unexpected error: {other:?}"),
    }
    assert_eq!(device.flushes(), 1);
}

#[test]
fn flash_reports_a_source_that_ends_early() {
    let mut device = MemoryDevice::new("mem0", 8192, Removability::Removable);
    let short = pattern(512);

    let err = flash(
        &mut device,
        0,
        4096,
        &mut short.as_slice(),
        &mut Trace::new(),
        &mut Silent,
    )
    .unwrap_err();

    assert!(matches!(err, Error::Io { .. }), "{err:?}");
}

/// The chunk math holds only for sector sizes that divide the chunk; a
/// device reporting anything else must be refused, not overrun a buffer.
#[test]
fn a_sector_size_that_cannot_chunk_is_refused_not_a_panic() {
    for sector in [0u32, 520, 4224, (CHUNK as u32) * 2] {
        let mut device = MemoryDevice::new("mem0", 4 << 20, Removability::Removable);
        device.set_sector_size(sector);

        let err = dump(
            &mut device,
            0,
            2 << 20,
            &mut Vec::new(),
            &mut Trace::new(),
            &mut Silent,
        )
        .unwrap_err();

        assert!(matches!(err, Error::Device(_)), "sector {sector}: {err:?}");
        assert!(err.to_string().contains("sector"), "sector {sector}: {err:?}");
    }
}

#[test]
fn unaligned_offset_is_rejected() {
    let mut device = MemoryDevice::new("mem0", 4096, Removability::Removable);
    let err = dump(
        &mut device,
        100,
        512,
        &mut Vec::new(),
        &mut Trace::new(),
        &mut Silent,
    )
    .unwrap_err();

    assert!(matches!(err, Error::InvalidArgument(_)));
}

/// An inspection has to be able to start where a structure starts, not
/// where the sector does.
#[test]
fn a_read_range_starts_where_it_was_asked_to_start() {
    let mut device = MemoryDevice::new("mem0", 8192, Removability::Removable);
    let data = pattern(8192);
    device.contents_mut().copy_from_slice(&data);

    let mut seen = Vec::new();
    let n = read_range(&mut device, 100, 300, &mut Trace::new(), &mut Collect, &mut seen).unwrap();

    assert_eq!(n, 300);
    assert_eq!(seen, data[100..400]);
}

/// A range longer than one chunk arrives in order and unbroken.
#[test]
fn a_read_range_longer_than_a_chunk_arrives_in_order() {
    let size = 3 * CHUNK;
    let mut device = MemoryDevice::new("mem0", size, Removability::Removable);
    let data = pattern(size);
    device.contents_mut().copy_from_slice(&data);

    let want = 2 * CHUNK as u64 + 4096;
    let mut seen = Vec::new();
    let n = read_range(&mut device, 512, want, &mut Trace::new(), &mut Collect, &mut seen).unwrap();

    assert_eq!(n, want);
    assert_eq!(seen, data[512..512 + want as usize]);
}

#[test]
fn a_read_range_past_the_device_end_is_refused_before_any_read() {
    let mut device = MemoryDevice::new("mem0", 4096, Removability::Removable);
    device.fail_reads_from(0);

    let err = read_range(
        &mut device,
        3900,
        512,
        &mut Trace::new(),
        &mut Collect,
        &mut Vec::new(),
    )
    .unwrap_err();

    assert!(matches!(err, Error::InvalidArgument(_)), "{err:?}");
}

/// The rehearsal has to approve exactly what the real read would, including
/// the unaligned start a transfer refuses.
#[test]
fn the_read_check_accepts_an_unaligned_offset_and_reports_the_end() {
    let device = MemoryDevice::new("mem0", 4096, Removability::Removable);

    assert_eq!(check_read_range(device.info(), 100, 300).unwrap(), 400);
    assert!(check_read_range(device.info(), 3900, 512).is_err());
}

/// Rounding finds the least multiple that is not below.
#[test]
fn rounding_up_finds_the_least_multiple() {
    assert_eq!(align_up(0, 512), 0);
    assert_eq!(align_up(1, 512), 512);
    assert_eq!(align_up(512, 512), 512);
    assert_eq!(align_up(513, 512), 1024);
    assert_eq!(checked_align(u64::MAX, 512), None);
    assert_eq!(checked_align(u64::MAX - 511, 512), Some(u64::MAX - 511));
    assert!(require_aligned("offset", 1024, 512).is_ok());
    let err = require_aligned("offset", 1000, 512).unwrap_err().to_string();
    assert!(err.contains("offset") && err.contains("512"), "{err}");
}

#[test]
fn only_a_removable_device_is_written() {
    for (verdict, allowed) in [
        (Removability::Removable, true),
        (Removability::Fixed, false),
        (Removability::Unknown, false),
    ] {
        let mut device = MemoryDevice::new("mem0", 4096, verdict);
        assert_eq!(ensure_writable(device.info()).is_ok(), allowed);
        let mut image: &[u8] = &[1u8; 512];
        let flashed = flash(&mut device, 0, 512, &mut image, &mut Trace::new(), &mut Silent);
        assert_eq!(flashed.is_ok(), allowed);
        assert_eq!(device.contents()[0] == 1, allowed);
    }
}

/// The check refuses what the transfer would, and says where the range ends.
#[test]
fn a_rehearsal_approves_what_the_real_run_would() {
    let mut device = MemoryDevice::new("mem0", 4096, Removability::Removable);
    for (offset, length) in [(0u64, 4096u64), (512, 100), (100, 512), (4096, 1), (3584, 513)] {
        let checked = check_range(device.info(), offset, length).is_ok();
        let mut out = Vec::new();
        let dumped = dump(&mut device, offset, length, &mut out, &mut Trace::new(), &mut Silent);
        assert_eq!(checked, dumped.is_ok(), "{offset} {length}");
    }
    assert_eq!(check_range(device.info(), 512, 100).unwrap(), 612);
}

/// What a failed flash reports is what is on the medium, and nothing past it.
#[test]
fn what_a_flash_reports_is_what_landed() {
    let mut device = MemoryDevice::new("mem0", 4 << 20, Removability::Removable);
    device.contents_mut().fill(0xAA);
    device.fail_writes_from(2 << 20);
    let data = pattern(3 << 20);

    let err = flash(
        &mut device,
        0,
        3 << 20,
        &mut data.as_slice(),
        &mut Trace::new(),
        &mut Silent,
    )
    .unwrap_err();

    let Error::WriteAborted { start, written, .. } = err else {
        panic!("{err:?}")
    };
    let end = (start + written) as usize;
    assert_eq!(&device.contents()[..end], &data[..end]);
    assert!(device.contents()[end..].iter().all(|b| *b == 0xAA));
}

#[test]
fn a_flashed_image_verifies() {
    let mut device = MemoryDevice::new("mem0", 4 << 20, Removability::Removable);
    let data = pattern((1 << 20) + 700);
    let length = data.len() as u64;
    let trace = &mut Trace::new();

    flash(&mut device, 512, length, &mut data.as_slice(), trace, &mut Silent).unwrap();
    let done = verify(&mut device, 512, length, &mut data.as_slice(), trace, &mut Silent);
    assert_eq!(done.unwrap(), length);

    device.contents_mut()[512 + (1 << 20) + 3] ^= 0xFF;
    device.contents_mut()[512 + (1 << 20) + 5] ^= 0xFF;
    let err = verify(&mut device, 512, length, &mut data.as_slice(), trace, &mut Silent)
        .unwrap_err();
    let Error::VerifyFailed { offset, expected, found } = err else {
        panic!("{err:?}")
    };
    assert_eq!(offset, 512 + (1 << 20) + 3);
    assert_eq!(expected, data[(1 << 20) + 3]);
    assert_eq!(found, expected ^ 0xFF);
}

/// The medium is pushed once per interval and once at the end.
#[test]
fn the_medium_is_never_far_behind() {
    let length = 2 * FLUSH_INTERVAL + 1000;
    let size = (length as usize).div_ceil(512) * 512;
    let mut device = MemoryDevice::new("mem0", size, Removability::Removable);
    let data = vec![7u8; length as usize];

    flash(
        &mut device,
        0,
        length,
        &mut data.as_slice(),
        &mut Trace::new(),
        &mut Silent,
    )
    .unwrap();

    assert_eq!(device.flushes(), 3);
}

/// Success is told only after the medium has taken everything.
#[test]
fn success_waits_for_the_medium() {
    let mut device = MemoryDevice::new("mem0", 4096, Removability::Removable);
    let mut trace = Trace::new();
    let mut image: &[u8] = &[1u8; 1024];

    flash(&mut device, 0, 1024, &mut image, &mut trace, &mut Silent).unwrap();

    assert_eq!(device.flushes(), 1);
    let rendered = trace.render();
    assert!(rendered.trim_end().lines().last().unwrap().contains("flush"), "{rendered}");
}

#[test]
fn a_transfer_is_on_the_record() {
    let mut device = MemoryDevice::new("mem0", 4096, Removability::Removable);
    let mut trace = Trace::new();
    let mut image: &[u8] = &[1u8; 700];

    flash(&mut device, 512, 700, &mut image, &mut trace, &mut Silent).unwrap();

    let rendered = trace.render();
    assert!(rendered.contains("read-back 512B at 1024"), "{rendered}");
    assert!(rendered.contains("tail sector preserved"), "{rendered}");
    assert!(rendered.contains("write 1024B at 512"), "{rendered}");
}
