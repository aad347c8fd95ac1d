//! What the progress line says.

use rawio::bar::{eta, human_rate, human_size, progress_line, Bar, Pace, MIN_INTERVAL};
use std::time::Duration;

/// Seconds left at a rate, when there is one to go by.
fn seconds_left(remaining: u64, bytes_per_second: f64) -> Option<u64> {
    if bytes_per_second <= 0.0 {
        None
    } else {
        Some((remaining as f64 / bytes_per_second).round() as u64)
    }
}

fn pace(done: u64, total: u64, elapsed: Duration) -> Pace {
    let seconds = elapsed.as_secs_f64();
    let rate = if seconds > 0.0 { done as f64 / seconds } else { 0.0 };
    Pace {
        rate: rate.max(0.0) as u64,
        left: seconds_left(total.saturating_sub(done), rate),
    }
}

#[test]
fn sizes_step_through_the_binary_units() {
    assert_eq!(human_size(0), "0 B");
    assert_eq!(human_size(512), "512 B");
    assert_eq!(human_size(1536), "1.5 KiB");
    assert_eq!(human_size(2 << 20), "2.0 MiB");
    assert_eq!(human_size(3 << 30), "3.0 GiB");
}

#[test]
fn rates_are_per_second_in_the_same_units() {
    assert_eq!(human_rate(0.0 as u64), "0 B/s");
    assert_eq!(human_rate(1536.0 as u64), "1.5 KiB/s");
    assert_eq!(human_rate((18.2 * (1 << 20) as f64) as u64), "18.2 MiB/s");
}

#[test]
fn eta_is_coarse_and_says_so_when_it_cannot_tell() {
    assert_eq!(eta(0, seconds_left(0, 100.0)), "0s");
    assert_eq!(eta(500, seconds_left(500, 100.0)), "5s");
    assert_eq!(eta(125_000, seconds_left(125_000, 1000.0)), "2m 05s");
    assert_eq!(eta(3_720_000, seconds_left(3_720_000, 1000.0)), "1h 02m");
    assert_eq!(eta(500, seconds_left(500, 0.0)), "--");
}

#[test]
fn the_line_carries_the_share_done_the_rate_and_the_time_left() {
    let (done, total) = (32 << 20, 512 << 20);
    let line = progress_line("flash", done, total, pace(done, total, Duration::from_secs(2)));

    assert!(line.starts_with("flash "), "{line}");
    assert!(line.contains("32.0 MiB / 512.0 MiB"), "{line}");
    assert!(line.contains("6%"), "{line}");
    assert!(line.contains("16.0 MiB/s"), "{line}");
    assert!(line.contains("30s"), "{line}");
}

/// A finished transfer must not read as 99% because of rounding.
#[test]
fn a_complete_transfer_reads_as_a_hundred_percent() {
    let line = progress_line("dump", 1000, 1000, pace(1000, 1000, Duration::from_secs(1)));
    assert!(line.contains("100%"), "{line}");
}

#[test]
fn an_empty_transfer_does_not_divide_by_zero() {
    let line = progress_line("dump", 0, 0, pace(0, 0, Duration::from_secs(0)));
    assert!(line.contains("100%"), "{line}");
}

/// One decimal, rounded to the nearest tenth; a tie takes the even one.
#[test]
fn a_size_is_rounded_to_the_nearest_tenth() {
    for bytes in [
        1024u64,
        1075,
        1076,
        1280,
        1382,
        1536,
        1664,
        1792,
        1_048_575,
        5 << 29,
        (1 << 53) + 1,
        (1 << 60) + (1 << 26) + 1,
        u64::MAX,
    ] {
        let (unit, scale) = if bytes >= 1 << 30 {
            ("GiB", 1u64 << 30)
        } else {
            ("KiB", 1 << 10)
        };
        assert_eq!(
            human_size(bytes),
            format!("{:.1} {unit}", bytes as f64 / scale as f64),
            "{bytes}"
        );
    }
}

#[test]
fn the_whole_line_is_laid_out_in_columns() {
    let line = progress_line("dump", 512, 1024, Pace { rate: 512, left: Some(1) });

    assert_eq!(line, "dump 512 B / 1.0 KiB   50%  512 B/s  1s");
}

#[test]
fn the_bar_is_off_when_told_so_or_when_nobody_watches() {
    assert!(Bar::enabled(false, true));
    assert!(!Bar::enabled(true, true));
    assert!(!Bar::enabled(false, false));
}

/// Redrawing is throttled, and a shorter line blanks what the longer one left.
#[test]
fn the_bar_redraws_at_most_once_per_interval() {
    let still = Pace { rate: 0, left: None };
    let mut bar = Bar::new("dump");

    let first = bar.advance(0, 1 << 20, 0, still);
    assert_eq!(first.as_deref(), Some("\rdump 0 B / 1.0 MiB    0%  0 B/s  --"));
    assert_eq!(bar.advance(1, 1 << 20, MIN_INTERVAL - 1, still), None);

    let waited = bar.waiting("flushing", still);
    assert_eq!(waited, "\rdump 1 B / 1.0 MiB    0%  0 B/s  --  flushing");

    let redrawn = bar.advance(1, 1 << 20, MIN_INTERVAL, still).unwrap();
    assert_eq!(redrawn, "\rdump 1 B / 1.0 MiB    0%  0 B/s  --          ");

    let over = bar.finish(2, Pace { rate: 2, left: None });
    assert_eq!(over, "\rdump 2 B / 2 B  100%  2 B/s  0s    \n");
}
