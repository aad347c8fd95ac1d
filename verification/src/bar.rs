//! The progress line. Everything that decides what it says is a pure function;
//! the writer only decides when to say it.

use vstd::prelude::*;
use vstd::string::*;

use crate::text;

verus! {

/// Redrawing faster than this buys nothing and costs a syscall each time. In
/// nanoseconds.
pub const MIN_INTERVAL: u64 = 100_000_000;

/// `value / unit` to the nearest whole number, and to the even one of two that
/// are equally near.
pub open spec fn nearest(value: nat, unit: nat) -> nat {
    let whole = value / unit;
    let over = value % unit;
    if 2 * over > unit || (2 * over == unit && whole % 2 == 1) {
        whole + 1
    } else {
        whole
    }
}

/// The weight of the last bit a double keeps of `n`.
pub open spec fn last_bit(n: nat) -> nat
    decreases n,
{
    if n < 0x20_0000_0000_0000 {
        1
    } else {
        2 * last_bit(n / 2)
    }
}

/// The double nearest to `n`.
pub open spec fn as_double(n: nat) -> nat {
    nearest(n, last_bit(n)) * last_bit(n)
}

/// `bytes` in tenths of `scale`, as printing the quotient of the two doubles to
/// one place rounds it.
pub open spec fn tenths(bytes: u64, scale: u64) -> nat {
    nearest(10 * as_double(bytes as nat), scale as nat)
}

/// A number of tenths with its decimal point.
pub open spec fn with_point(tenths: nat) -> Seq<char> {
    text::dec(tenths / 10) + "."@ + text::dec(tenths % 10)
}

pub open spec fn size_text(bytes: u64) -> Seq<char> {
    if bytes >= 0x4000_0000 {
        with_point(tenths(bytes, 0x4000_0000)) + " "@ + "GiB"@
    } else if bytes >= 0x10_0000 {
        with_point(tenths(bytes, 0x10_0000)) + " "@ + "MiB"@
    } else if bytes >= 0x400 {
        with_point(tenths(bytes, 0x400)) + " "@ + "KiB"@
    } else {
        text::dec(bytes as nat) + " B"@
    }
}

fn round(value: u128, unit: u128) -> (whole: u128)
    requires
        0 < unit <= 0x1_0000_0000_0000_0000,
        value <= 0xF_FFFF_FFFF_FFFF_FFFF_FFFF,
    ensures
        whole == nearest(value as nat, unit as nat),
{
    let whole: u128 = value / unit;
    let over: u128 = value % unit;
    assert(whole <= value) by (nonlinear_arith)
        requires
            whole == value / unit,
            unit > 0,
    ;
    if 2 * over > unit || (2 * over == unit && whole % 2 == 1) {
        whole + 1
    } else {
        whole
    }
}

fn bit_of(n: u64) -> (unit: u64)
    ensures
        unit == last_bit(n as nat),
        0 < unit <= 4096,
        unit == 1 || unit * 0x10_0000_0000_0000 <= n,
    decreases n,
{
    if n < 0x20_0000_0000_0000 {
        1
    } else {
        2 * bit_of(n / 2)
    }
}

/// `bytes` in tenths of `scale`.
pub fn in_tenths(bytes: u64, scale: u64) -> (count: u64)
    requires
        0x400 <= scale <= 0x4000_0000,
    ensures
        count == tenths(bytes, scale),
{
    let unit: u64 = bit_of(bytes);
    let kept: u128 = round(bytes as u128, unit as u128);
    assert(kept <= bytes + 1) by {
        let whole = bytes as nat / unit as nat;
        assert(whole <= bytes) by (nonlinear_arith)
            requires
                whole == bytes as nat / unit as nat,
                unit > 0,
        ;
    }
    assert(kept * unit <= bytes + 4096) by {
        let whole = bytes as nat / unit as nat;
        vstd::arithmetic::div_mod::lemma_fundamental_div_mod(bytes as int, unit as int);
        assert(kept <= whole + 1);
        assert(kept * unit <= unit * whole + unit) by (nonlinear_arith)
            requires
                kept <= whole + 1,
                unit >= 0,
        ;
    }
    let double: u128 = kept * unit as u128;
    let count: u128 = round(10 * double, scale as u128);
    assert(count <= u64::MAX) by {
        let value = 10 * double as nat;
        let whole = value / scale as nat;
        assert(whole <= value / 0x400) by (nonlinear_arith)
            requires
                whole == value / scale as nat,
                scale >= 0x400,
        ;
    }
    count as u64
}

fn push_size(out: &mut String, bytes: u64, scale: u64, unit: &str)
    requires
        0x400 <= scale <= 0x4000_0000,
    ensures
        final(out)@ == old(out)@ + (with_point(tenths(bytes, scale)) + " "@ + unit@),
{
    let count: u64 = in_tenths(bytes, scale);
    text::push_dec(out, count / 10);
    out.append(".");
    text::push_dec(out, count % 10);
    out.append(" ");
    out.append(unit);
    assert(out@ =~= old(out)@ + (with_point(tenths(bytes, scale)) + " "@ + unit@));
}

pub fn human_size(bytes: u64) -> (text: String)
    ensures
        text@ == size_text(bytes),
{
    let mut text = String::new();
    if bytes >= 0x4000_0000 {
        push_size(&mut text, bytes, 0x4000_0000, "GiB");
    } else if bytes >= 0x10_0000 {
        push_size(&mut text, bytes, 0x10_0000, "MiB");
    } else if bytes >= 0x400 {
        push_size(&mut text, bytes, 0x400, "KiB");
    } else {
        text::push_dec(&mut text, bytes);
        text.append(" B");
    }
    assert(text@ =~= size_text(bytes));
    text
}

pub open spec fn rate_text(bytes_per_second: u64) -> Seq<char> {
    size_text(bytes_per_second) + "/s"@
}

/// Whole bytes per second, in the units sizes have.
pub fn human_rate(bytes_per_second: u64) -> (text: String)
    ensures
        text@ == rate_text(bytes_per_second),
{
    let mut text = human_size(bytes_per_second);
    text.append("/s");
    text
}

/// A number of at most two digits in two places.
pub open spec fn two_places(n: nat) -> Seq<char> {
    if n < 10 {
        "0"@ + text::dec(n)
    } else {
        text::dec(n)
    }
}

/// `seconds` is the time left at the average rate so far, where there is a rate.
pub open spec fn eta_text(remaining: u64, seconds: Option<u64>) -> Seq<char> {
    if remaining == 0 {
        "0s"@
    } else {
        match seconds {
            None => "--"@,
            Some(seconds) => if seconds < 60 {
                text::dec(seconds as nat) + "s"@
            } else if seconds < 3600 {
                text::dec((seconds / 60) as nat) + "m "@ + two_places((seconds % 60) as nat) + "s"@
            } else {
                text::dec((seconds / 3600) as nat) + "h "@ + two_places(
                    ((seconds % 3600) / 60) as nat,
                ) + "m"@
            },
        }
    }
}

fn push_two_places(out: &mut String, n: u64)
    requires
        n < 100,
    ensures
        final(out)@ == old(out)@ + two_places(n as nat),
{
    if n < 10 {
        out.append("0");
    }
    text::push_dec(out, n);
    assert(out@ =~= old(out)@ + two_places(n as nat));
}

/// Time left at the average rate so far, or `--` when there is nothing to go on.
pub fn eta(remaining: u64, seconds: Option<u64>) -> (text: String)
    ensures
        text@ == eta_text(remaining, seconds),
{
    if remaining == 0 {
        return "0s".to_owned();
    }
    match seconds {
        None => "--".to_owned(),
        Some(seconds) => {
            if seconds < 60 {
                let mut text = text::decimal(seconds);
                text.append("s");
                text
            } else if seconds < 3600 {
                let mut text = text::decimal(seconds / 60);
                text.append("m ");
                push_two_places(&mut text, seconds % 60);
                text.append("s");
                text
            } else {
                let mut text = text::decimal(seconds / 3600);
                text.append("h ");
                push_two_places(&mut text, (seconds % 3600) / 60);
                text.append("m");
                text
            }
        },
    }
}

/// How a transfer is going: its average rate, and the seconds left at that rate.
#[derive(Debug, Clone, Copy, PartialEq, Eq, Structural)]
pub struct Pace {
    pub rate: u64,
    pub left: Option<u64>,
}

/// The share of the total that is done. A finished transfer reads as a hundred
/// however the division rounds, and so does one with nothing to move.
pub open spec fn percent(done: u64, total: u64) -> nat {
    if total == 0 {
        100
    } else {
        (done as nat * 100) / total as nat
    }
}

pub open spec fn line_text(label: Seq<char>, done: u64, total: u64, pace: Pace) -> Seq<char> {
    label + " "@ + size_text(done) + " / "@ + size_text(total) + "  "@ + text::right(
        text::dec(percent(done, total)),
        3,
    ) + "%  "@ + rate_text(pace.rate) + "  "@ + eta_text(
        if done < total {
            (total - done) as u64
        } else {
            0
        },
        pace.left,
    )
}

pub fn progress_line(label: &str, done: u64, total: u64, pace: Pace) -> (line: String)
    requires
        done * 100 <= u64::MAX,
    ensures
        line@ == line_text(label@, done, total, pace),
{
    let percent: u64 = if total == 0 {
        100
    } else {
        assert((done as nat * 100) / total as nat <= done as nat * 100) by (nonlinear_arith)
            requires
                total > 0,
        ;
        (done * 100) / total
    };
    let mut line = label.to_owned();
    line.append(" ");
    line.append(human_size(done).as_str());
    line.append(" / ");
    line.append(human_size(total).as_str());
    line.append("  ");
    text::push_right(&mut line, text::decimal(percent).as_str(), 3);
    line.append("%  ");
    line.append(human_rate(pace.rate).as_str());
    line.append("  ");
    line.append(eta(total.saturating_sub(done), pace.left).as_str());
    line
}

/// A finished transfer reads as a hundred percent, and one that moves nothing
/// does too.
pub proof fn a_complete_transfer_reads_as_a_hundred_percent(total: u64)
    ensures
        percent(total, total) == 100,
{
    if total > 0 {
        vstd::arithmetic::div_mod::lemma_div_multiples_vanish(100, total as int);
        assert(total as int * 100 == 100 * total as int) by (nonlinear_arith);
    }
}

/// What decides when a progress line is drawn and over how much of the last
/// one. Time is handed in; what is to be written comes back.
#[derive(Debug)]
pub struct Bar {
    label: &'static str,
    /// When a line was last drawn, in nanoseconds since the transfer started.
    last_drawn: Option<u64>,
    width: usize,
    /// Last reported position, so a wait can redraw the line it interrupts.
    at: (u64, u64),
}

/// A [`Bar`] by what it knows.
#[verifier::ext_equal]
pub struct BarView {
    pub label: Seq<char>,
    pub last_drawn: Option<u64>,
    pub width: nat,
    pub at: (u64, u64),
}

impl View for Bar {
    type V = BarView;

    closed spec fn view(&self) -> BarView {
        BarView {
            label: self.label@,
            last_drawn: self.last_drawn,
            width: self.width as nat,
            at: self.at,
        }
    }
}

impl BarView {
    /// What drawing `line` writes: it starts the row again and blanks what the
    /// last line leaves over.
    pub open spec fn drawn(self, line: Seq<char>) -> Seq<char> {
        "\r"@ + line + text::repeated(' ', text::shortfall(line.len(), self.width))
    }

    /// True when a line was drawn too short a time ago.
    pub open spec fn too_soon(self, elapsed: u64) -> bool {
        self.last_drawn is Some && elapsed < self.last_drawn->0 + MIN_INTERVAL
    }
}

impl Bar {
    /// On by default only where someone is watching: a piped or redirected
    /// stderr gets nothing.
    pub fn enabled(disabled_by_flag: bool, watched: bool) -> (enabled: bool)
        ensures
            enabled == (!disabled_by_flag && watched),
    {
        !disabled_by_flag && watched
    }

    pub fn new(label: &'static str) -> (bar: Bar)
        ensures
            bar@ == (BarView { label: label@, last_drawn: None, width: 0, at: (0, 0) }),
    {
        Bar { label, last_drawn: None, width: 0, at: (0, 0) }
    }

    fn draw(&mut self, line: &str) -> (text: String)
        ensures
            text@ == old(self)@.drawn(line@),
            final(self)@ == (BarView { width: line@.len(), ..old(self)@ }),
    {
        let mut text = "\r".to_owned();
        text.append(line);
        let len: usize = line.unicode_len();
        if len < self.width {
            text::push_repeated(&mut text, ' ', self.width - len);
        }
        assert(text@ =~= self@.drawn(line@));
        self.width = len;
        text
    }

    /// A chunk landed. Gives what to write, or nothing when the last line is
    /// too recent.
    pub fn advance(&mut self, done: u64, total: u64, elapsed: u64, pace: Pace) -> (text: Option<
        String,
    >)
        requires
            done * 100 <= u64::MAX,
        ensures
            ({
                let line = line_text(old(self)@.label, done, total, pace);
                if old(self)@.too_soon(elapsed) {
                    &&& text is None
                    &&& final(self)@ == (BarView { at: (done, total), ..old(self)@ })
                } else {
                    &&& text is Some
                    &&& text->0@ == old(self)@.drawn(line)
                    &&& final(self)@ == (BarView {
                        at: (done, total),
                        last_drawn: Some(elapsed),
                        width: line.len(),
                        ..old(self)@
                    })
                }
            }),
    {
        self.at = (done, total);
        if let Some(last) = self.last_drawn {
            if elapsed < last || elapsed - last < MIN_INTERVAL {
                return None;
            }
        }
        self.last_drawn = Some(elapsed);
        let line = progress_line(self.label, done, total, pace);
        Some(self.draw(line.as_str()))
    }

    /// The transfer waits. Redraws the last position with what it waits for.
    pub fn waiting(&mut self, what: &str, pace: Pace) -> (text: String)
        requires
            old(self)@.at.0 * 100 <= u64::MAX,
        ensures
            ({
                let at = old(self)@.at;
                let line = line_text(old(self)@.label, at.0, at.1, pace) + "  "@ + what@;
                &&& text@ == old(self)@.drawn(line)
                &&& final(self)@ == (BarView { width: line.len(), ..old(self)@ })
            }),
    {
        let (done, total) = self.at;
        let mut line = progress_line(self.label, done, total, pace);
        line.append("  ");
        line.append(what);
        self.draw(line.as_str())
    }

    /// The transfer is over. Draws it as complete and ends the row.
    pub fn finish(&mut self, done: u64, pace: Pace) -> (text: String)
        requires
            done * 100 <= u64::MAX,
        ensures
            ({
                let line = line_text(old(self)@.label, done, done, pace);
                &&& text@ == old(self)@.drawn(line) + "\n"@
                &&& final(self)@ == (BarView { width: line.len(), ..old(self)@ })
            }),
    {
        let line = progress_line(self.label, done, done, pace);
        let mut text = self.draw(line.as_str());
        text.append("\n");
        text
    }
}

} // verus!
