//! What the figures and names a reader sees say: how a size is rounded, how far
//! along a transfer is, and when two names are the same.

use vstd::prelude::*;

use crate::bar;
use crate::cli;
use crate::number;
use crate::text;

verus! {

/// Rounding goes to the nearest multiple, and to the even one of two that are
/// equally near.
pub proof fn the_nearest_is_nearest(value: nat, unit: nat)
    requires
        unit > 0,
    ensures
        ({
            let n = bar::nearest(value, unit);
            &&& 2 * (n * unit - value) <= unit
            &&& 2 * (value - n * unit) <= unit
            &&& 2 * (n * unit - value) == unit || 2 * (value - n * unit) == unit ==> n % 2 == 0
        }),
{
    let whole = value / unit;
    let over = value % unit;
    vstd::arithmetic::div_mod::lemma_fundamental_div_mod(value as int, unit as int);
    vstd::arithmetic::div_mod::lemma_mod_bound(value as int, unit as int);
    assert(whole * unit == unit * whole) by (nonlinear_arith);
    assert((whole + 1) * unit == whole * unit + unit) by (nonlinear_arith);
}

proof fn a_double_keeps_what_it_can(n: nat)
    ensures
        bar::last_bit(n) > 0,
        n < 0x20_0000_0000_0000 ==> bar::last_bit(n) == 1,
        n >= 0x20_0000_0000_0000 ==> bar::last_bit(n) * 0x10_0000_0000_0000 <= n,
    decreases n,
{
    if n >= 0x20_0000_0000_0000 {
        a_double_keeps_what_it_can(n / 2);
    }
}

/// A size in tenths of a unit is the nearest tenth there is: off by no more than
/// half of one, and exact where a double is.
pub proof fn a_size_is_rounded_to_the_nearest_tenth(bytes: u64, scale: u64)
    requires
        scale > 0,
        bytes < 0x20_0000_0000_0000,
    ensures
        ({
            let n = bar::tenths(bytes, scale);
            &&& 2 * (n * scale - 10 * bytes) <= scale
            &&& 2 * (10 * bytes - n * scale) <= scale
            &&& 2 * (n * scale - 10 * bytes) == scale || 2 * (10 * bytes - n * scale) == scale
                ==> n % 2 == 0
        }),
{
    a_double_keeps_what_it_can(bytes as nat);
    the_nearest_is_nearest(bytes as nat, 1);
    assert(bar::as_double(bytes as nat) == bytes);
    the_nearest_is_nearest(10 * bytes as nat, scale as nat);
}

/// A size beyond what a double keeps exactly is off by no more than the last
/// bit that a double keeps of it.
pub proof fn a_large_size_is_near(bytes: u64)
    ensures
        ({
            let near = bar::as_double(bytes as nat);
            &&& near - bytes <= bytes / 0x20_0000_0000_0000 + 1
            &&& bytes - near <= bytes / 0x20_0000_0000_0000 + 1
        }),
{
    let unit = bar::last_bit(bytes as nat);
    a_double_keeps_what_it_can(bytes as nat);
    the_nearest_is_nearest(bytes as nat, unit);
    if bytes >= 0x20_0000_0000_0000 {
        let near = bar::as_double(bytes as nat);
        assert(unit <= bytes / 0x10_0000_0000_0000);
    }
}

/// A number with one place behind the point: the digits in front and the one
/// behind are those of the tenths.
pub proof fn a_point_stands_in_front_of_the_last_digit(count: nat)
    ensures
        ({
            let shown = bar::with_point(count);
            let n = shown.len();
            &&& n >= 3
            &&& shown[n - 2] == '.'
            &&& number::positional(shown.subrange(0, n - 2).push(shown.last()), 10) == Some(count)
        }),
{
    reveal_strlit(".");
    let shown = bar::with_point(count);
    let whole = text::dec(count / 10);
    let rest = text::dec(count % 10);
    number::decimals_read_back(count / 10);
    number::decimals_read_back(count % 10);
    assert(rest.len() == 1);
    let n = shown.len();
    assert(shown.subrange(0, n - 2) =~= whole);
    assert(shown.last() == rest[0]);
    let joined = whole.push(rest[0]);
    assert(joined =~= whole + rest);
    number::digits_count_by_where_they_stand(whole, rest, 10);
    reveal_with_fuel(number::power, 2);
    assert(number::power(10, 1) == 10);
    let high = count / 10;
    let low = count % 10;
    assert(number::positional(joined, 10) == Some((high * 10 + low) as nat));
    assert(high * 10 + low == count);
    assert(shown.subrange(0, n - 2).push(shown.last()) =~= joined);
}

/// A size is told in bytes below a KiB, and from there in the largest of KiB,
/// MiB and GiB that it is at least one of.
pub proof fn a_size_is_told_in_its_unit(bytes: u64)
    ensures
        bytes < 1024 ==> bar::size_text(bytes) == text::dec(bytes as nat) + seq![' ', 'B'],
        1024 <= bytes < 1048576 ==> bar::size_text(bytes) == bar::with_point(
            bar::tenths(bytes, 1024),
        ) + seq![' ', 'K', 'i', 'B'],
        1048576 <= bytes < 1073741824 ==> bar::size_text(bytes) == bar::with_point(
            bar::tenths(bytes, 1048576),
        ) + seq![' ', 'M', 'i', 'B'],
        1073741824 <= bytes ==> bar::size_text(bytes) == bar::with_point(
            bar::tenths(bytes, 1073741824),
        ) + seq![' ', 'G', 'i', 'B'],
        bar::rate_text(bytes) == bar::size_text(bytes) + seq!['/', 's'],
{
    reveal_strlit(" B");
    reveal_strlit(" ");
    reveal_strlit("KiB");
    reveal_strlit("MiB");
    reveal_strlit("GiB");
    reveal_strlit("/s");
    let point = bar::with_point(bar::tenths(bytes, 1024));
    assert(" B"@ =~= seq![' ', 'B']);
    assert("/s"@ =~= seq!['/', 's']);
    assert(point + " "@ + "KiB"@ =~= point + seq![' ', 'K', 'i', 'B']);
    let point = bar::with_point(bar::tenths(bytes, 1048576));
    assert(point + " "@ + "MiB"@ =~= point + seq![' ', 'M', 'i', 'B']);
    let point = bar::with_point(bar::tenths(bytes, 1073741824));
    assert(point + " "@ + "GiB"@ =~= point + seq![' ', 'G', 'i', 'B']);
}

/// A percentage is the whole hundredths that are done: no more than is done, and
/// less than one short of it.
pub proof fn a_percentage_is_what_is_done(done: u64, total: u64)
    requires
        total > 0,
    ensures
        bar::percent(done, total) * total <= 100 * done,
        100 * done < (bar::percent(done, total) + 1) * total,
{
    let p = bar::percent(done, total);
    let all = done as int * 100;
    vstd::arithmetic::div_mod::lemma_fundamental_div_mod(all, total as int);
    vstd::arithmetic::div_mod::lemma_mod_bound(all, total as int);
    assert(p * total == total * p && (p + 1) * total == p * total + total) by (nonlinear_arith);
}

/// Two digits are always two, and count as they stand.
pub proof fn two_places_are_two_digits(n: nat)
    requires
        n < 100,
    ensures
        bar::two_places(n).len() == 2,
        number::positional(bar::two_places(n), 10) == Some(n),
{
    reveal_strlit("0");
    number::decimals_read_back(n);
    if n < 10 {
        assert(text::dec(n).len() == 1);
        assert("0"@ =~= seq!['0']);
        number::digits_count_by_where_they_stand("0"@, text::dec(n), 10);
        assert("0"@.drop_last() =~= Seq::empty());
        assert(number::positional("0"@.drop_last(), 10) == Some(0nat));
        assert(number::positional("0"@, 10) == Some(0nat));
        reveal_with_fuel(number::power, 2);
    } else {
        assert(text::dec(n / 10).len() == 1);
        assert(text::dec(n).len() == 2);
    }
}

/// The time left is told to the second below an hour and to the minute from
/// there on: what is told adds up to it, and nothing that is left over is as
/// much as the next unit.
pub proof fn the_time_left_adds_up(remaining: u64, seconds: u64)
    requires
        remaining > 0,
    ensures
        ({
            let shown = bar::eta_text(remaining, Some(seconds));
            if seconds < 60 {
                shown == text::dec(seconds as nat) + seq!['s']
            } else if seconds < 3600 {
                exists|minutes: nat, rest: nat|
                    {
                        &&& 60 * minutes + rest == seconds
                        &&& rest < 60
                        &&& shown == #[trigger] text::dec(minutes) + seq!['m', ' ']
                            + #[trigger] bar::two_places(rest) + seq!['s']
                    }
            } else {
                exists|hours: nat, minutes: nat|
                    {
                        &&& 3600 * hours + 60 * minutes <= seconds < 3600 * hours + 60 * (minutes
                            + 1)
                        &&& minutes < 60
                        &&& shown == #[trigger] text::dec(hours) + seq!['h', ' ']
                            + #[trigger] bar::two_places(minutes) + seq!['m']
                    }
            }
        }),
        bar::eta_text(0, Some(seconds)) == seq!['0', 's'],
        bar::eta_text(0, None) == seq!['0', 's'],
        bar::eta_text(remaining, None) == seq!['-', '-'],
{
    reveal_strlit("s");
    reveal_strlit("m ");
    reveal_strlit("h ");
    reveal_strlit("m");
    reveal_strlit("0s");
    reveal_strlit("--");
    assert("0s"@ =~= seq!['0', 's']);
    assert("--"@ =~= seq!['-', '-']);
    assert("s"@ =~= seq!['s']);
    assert("m "@ =~= seq!['m', ' ']);
    assert("h "@ =~= seq!['h', ' ']);
    assert("m"@ =~= seq!['m']);
    let shown = bar::eta_text(remaining, Some(seconds));
    if 60 <= seconds < 3600 {
        let minutes = (seconds / 60) as nat;
        let rest = (seconds % 60) as nat;
        assert(shown == text::dec(minutes) + seq!['m', ' '] + bar::two_places(rest) + seq!['s']);
    } else if seconds >= 3600 {
        let hours = (seconds / 3600) as nat;
        let minutes = ((seconds % 3600) / 60) as nat;
        assert(shown == text::dec(hours) + seq!['h', ' '] + bar::two_places(minutes) + seq!['m']);
    }
}

/// A suffix is a power of 1024 in either case; anything else scales nothing.
pub proof fn a_suffix_is_a_power_of_1024(c: char)
    ensures
        c == 'k' || c == 'K' ==> cli::suffix_scale(c) == 1024,
        c == 'm' || c == 'M' ==> cli::suffix_scale(c) == 1024 * 1024,
        c == 'g' || c == 'G' ==> cli::suffix_scale(c) == 1024 * 1024 * 1024,
        c != 'k' && c != 'K' && c != 'm' && c != 'M' && c != 'g' && c != 'G' ==> cli::suffix_scale(
            c,
        ) == 1,
{
}

/// Every count is read back from its decimal spelling with a suffix behind it,
/// times the suffix, and refused where the product does not fit.
pub proof fn a_suffixed_size_is_its_product(n: u64, suffix: char, scale: nat)
    requires
        (suffix == 'k' || suffix == 'K') && scale == 1024 || (suffix == 'm' || suffix == 'M')
            && scale == 1048576 || (suffix == 'g' || suffix == 'G') && scale == 1073741824,
    ensures
        n * scale <= u64::MAX ==> cli::size_of(text::dec(n as nat).push(suffix)) == Ok::<
            u64,
            Seq<char>,
        >((n * scale) as u64),
        n * scale > u64::MAX ==> cli::size_of(text::dec(n as nat).push(suffix)) is Err,
{
    a_suffix_is_a_power_of_1024(suffix);
    cli::a_suffix_scales(n, suffix);
}

/// White space, as far as ASCII goes, is the blank and the five controls from
/// the tab to the carriage return.
pub proof fn blanks_of_ascii(c: char)
    requires
        (c as u32) < 0x80,
    ensures
        text::is_white(c) <==> c == ' ' || c == '\t' || c == '\n' || c == '\r' || c as u32 == 11
            || c as u32 == 12,
{
}

proof fn trimmed_start_takes_blanks(s: Seq<char>) -> (k: int)
    ensures
        0 <= k <= s.len(),
        text::blank(s.subrange(0, k)),
        text::trimmed_start(s) == s.subrange(k, s.len() as int),
        k < s.len() ==> !text::is_white(s[k]),
    decreases s.len(),
{
    if s.len() > 0 && text::is_white(s[0]) {
        let rest = s.subrange(1, s.len() as int);
        let k = trimmed_start_takes_blanks(rest);
        assert(rest.subrange(k, rest.len() as int) =~= s.subrange(k + 1, s.len() as int));
        assert forall|i: int| 0 <= i < k + 1 implies text::is_white(
            #[trigger] s.subrange(0, k + 1)[i],
        ) by {
            if i > 0 {
                assert(rest.subrange(0, k)[i - 1] == s[i]);
            }
        }
        if k < rest.len() {
            assert(rest[k] == s[k + 1]);
        }
        k + 1
    } else {
        assert(s.subrange(0, s.len() as int) =~= s);
        0
    }
}

proof fn trimmed_end_takes_blanks(s: Seq<char>) -> (k: int)
    ensures
        0 <= k <= s.len(),
        text::blank(s.subrange(k, s.len() as int)),
        text::trimmed_end(s) == s.subrange(0, k),
        k > 0 ==> !text::is_white(s[k - 1]),
    decreases s.len(),
{
    if s.len() > 0 && text::is_white(s.last()) {
        let less = s.drop_last();
        let k = trimmed_end_takes_blanks(less);
        assert(less.subrange(0, k) =~= s.subrange(0, k));
        assert forall|i: int| 0 <= i < s.len() - k implies text::is_white(
            #[trigger] s.subrange(k, s.len() as int)[i],
        ) by {
            if i < less.len() - k {
                assert(less.subrange(k, less.len() as int)[i] == s[k + i]);
            }
        }
        if k > 0 {
            assert(less[k - 1] == s[k - 1]);
        }
        k
    } else {
        assert(s.subrange(0, s.len() as int) =~= s);
        s.len() as int
    }
}

/// Trimming takes off white space and nothing else, and leaves none at either
/// end.
pub proof fn trimming_takes_the_blanks_around(s: Seq<char>)
    ensures
        ({
            let kept = text::trimmed(s);
            &&& kept.len() > 0 ==> !text::is_white(kept[0]) && !text::is_white(kept.last())
            &&& exists|i: int, j: int|
                {
                    &&& 0 <= i <= j <= s.len()
                    &&& kept == #[trigger] s.subrange(i, j)
                    &&& text::blank(s.subrange(0, i))
                    &&& text::blank(s.subrange(j, s.len() as int))
                }
        }),
{
    let i = trimmed_start_takes_blanks(s);
    let mid = s.subrange(i, s.len() as int);
    let k = trimmed_end_takes_blanks(mid);
    let kept = text::trimmed(s);
    assert(kept =~= s.subrange(i, i + k));
    assert(s.subrange(i + k, s.len() as int) =~= mid.subrange(k, mid.len() as int));
    assert(kept == s.subrange(i, i + k) && text::blank(s.subrange(0, i)) && text::blank(
        s.subrange(i + k, s.len() as int),
    ));
}

/// Letters are the same whatever their case, and every other character is the
/// same as itself alone.
pub proof fn only_the_case_of_letters_is_ignored(a: char, b: char)
    ensures
        text::lowered(a) == text::lowered(b) <==> {
            ||| a == b
            ||| 0x41 <= a as u32 <= 0x5A && b as u32 == a as u32 + 32
            ||| 0x41 <= b as u32 <= 0x5A && a as u32 == b as u32 + 32
        },
{
}

/// UTF-16 for a run of characters: one unit below 0x10000, and from there a pair
/// that carries ten bits each.
pub open spec fn encoded(s: Seq<char>) -> Seq<u16>
    decreases s.len(),
{
    if s.len() == 0 {
        Seq::empty()
    } else {
        let code = s[0] as u32;
        let rest = encoded(s.subrange(1, s.len() as int));
        if code < 0x1_0000 {
            seq![code as u16] + rest
        } else {
            seq![
                (0xD800 + (code - 0x1_0000) / 0x400) as u16,
                (0xDC00 + (code - 0x1_0000) % 0x400) as u16,
            ] + rest
        }
    }
}

proof fn a_character_is_its_code(c: char, unit: u16, code: int)
    ensures
        unit == c as u32 ==> unit as char == c,
        code == c as u32 ==> code as char == c,
{
}

proof fn a_character_is_no_surrogate(c: char)
    ensures
        !(0xD800 <= c as u32 <= 0xDFFF),
        c as u32 <= 0x10_FFFF,
{
}

/// Whatever was written as UTF-16 is read back.
pub proof fn utf16_is_read_back(s: Seq<char>)
    ensures
        text::decoded_utf16(encoded(s)) == s,
    decreases s.len(),
{
    if s.len() > 0 {
        let rest = s.subrange(1, s.len() as int);
        let units = encoded(s);
        let code = s[0] as u32;
        utf16_is_read_back(rest);
        a_character_is_no_surrogate(s[0]);
        if code < 0x1_0000 {
            assert(units.subrange(1, units.len() as int) =~= encoded(rest));
            assert(!(0xD800 <= code <= 0xDFFF));
            assert(units[0] == code);
            a_character_is_its_code(s[0], units[0], code as int);
        } else {
            assert(units.subrange(2, units.len() as int) =~= encoded(rest));
            let high = units[0];
            let low = units[1];
            let whole = 0x1_0000 + (high - 0xD800) * 0x400 + (low - 0xDC00);
            assert(high == 0xD800 + (code - 0x1_0000) / 0x400);
            assert(low == 0xDC00 + (code - 0x1_0000) % 0x400);
            assert(whole == code);
            a_character_is_its_code(s[0], high, whole);
            assert(text::paired(high, low) == s[0]);
        }
        assert(seq![s[0]] + rest =~= s);
    } else {
        assert(text::decoded_utf16(encoded(s)) =~= s);
    }
}

/// A surrogate that stands alone reads as one replacement character, and what
/// follows it reads as it would by itself.
pub proof fn a_lone_surrogate_is_replaced(unit: u16, rest: Seq<u16>)
    requires
        0xD800 <= unit <= 0xDFFF,
        unit <= 0xDBFF ==> rest.len() == 0 || !(0xDC00 <= rest[0] <= 0xDFFF),
    ensures
        text::decoded_utf16(seq![unit] + rest) == seq!['\u{FFFD}'] + text::decoded_utf16(rest),
{
    let units = seq![unit] + rest;
    assert(units.subrange(1, units.len() as int) =~= rest);
    if rest.len() > 0 {
        assert(units[1] == rest[0]);
    }
}

/// A column holds its text, and as many blanks as it takes to fill it: behind
/// the text where it stands left, in front of it where it stands right.
pub proof fn a_column_is_filled_with_blanks(s: Seq<char>, width: nat)
    ensures
        ({
            let left = text::left(s, width);
            let right = text::right(s, width);
            let full = if s.len() < width {
                width
            } else {
                s.len()
            };
            &&& left.len() == full
            &&& right.len() == full
            &&& forall|i: int|
                0 <= i < full ==> #[trigger] left[i] == if i < s.len() {
                    s[i]
                } else {
                    ' '
                }
            &&& forall|i: int|
                0 <= i < full ==> #[trigger] right[i] == if i >= full - s.len() {
                    s[i - (full - s.len())]
                } else {
                    ' '
                }
        }),
{
}

proof fn digits_and_nothing_else(s: Seq<char>, radix: nat)
    ensures
        positional_is_some(s, radix) <==> forall|i: int|
            0 <= i < s.len() ==> number::digit_value(#[trigger] s[i], radix) is Some,
    decreases s.len(),
{
    if s.len() > 0 {
        let less = s.drop_last();
        digits_and_nothing_else(less, radix);
        if positional_is_some(s, radix) {
            assert forall|i: int| 0 <= i < s.len() implies number::digit_value(
                #[trigger] s[i],
                radix,
            ) is Some by {
                if i < less.len() {
                    assert(less[i] == s[i]);
                }
            }
        }
        if forall|i: int|
            0 <= i < s.len() ==> number::digit_value(#[trigger] s[i], radix) is Some {
            assert forall|i: int| 0 <= i < less.len() implies number::digit_value(
                #[trigger] less[i],
                radix,
            ) is Some by {
                assert(less[i] == s[i]);
            }
            assert(s[s.len() - 1] == s.last());
        }
    }
}

/// A run of digits and nothing else.
pub open spec fn positional_is_some(s: Seq<char>, radix: nat) -> bool {
    number::positional(s, radix) is Some
}

/// A number is at least one digit and nothing but digits, but for one plus that
/// may stand in front, and is no more than it may be.
pub proof fn a_number_is_nothing_but_digits(s: Seq<char>, radix: nat, most: nat)
    ensures
        number::spelled(s, radix, most) matches Some(n) ==> {
            let from = if s[0] == '+' {
                1int
            } else {
                0
            };
            &&& s.len() > from
            &&& forall|i: int|
                from <= i < s.len() ==> number::digit_value(#[trigger] s[i], radix) is Some
            &&& number::positional(s.subrange(from, s.len() as int), radix) == Some(n)
            &&& n <= most
        },
{
    if number::spelled(s, radix, most) is Some {
        let from = if s[0] == '+' {
            1int
        } else {
            0
        };
        let digits = s.subrange(from, s.len() as int);
        assert(from == 0 ==> digits =~= s);
        digits_and_nothing_else(digits, radix);
        assert forall|i: int| from <= i < s.len() implies number::digit_value(
            #[trigger] s[i],
            radix,
        ) is Some by {
            assert(digits[i - from] == s[i]);
        }
    }
}

proof fn an_underscore_does_not_show(a: Seq<char>, b: Seq<char>)
    ensures
        cli::without_underscores(a + seq!['_'] + b) == cli::without_underscores(a + b),
    decreases b.len(),
{
    reveal(Seq::filter);
    if b.len() == 0 {
        assert((a + seq!['_'] + b).drop_last() =~= a);
        assert(a + b =~= a);
    } else {
        let with = a + seq!['_'] + b;
        let plain = a + b;
        assert(with.drop_last() =~= a + seq!['_'] + b.drop_last());
        assert(plain.drop_last() =~= a + b.drop_last());
        assert(with.last() == b.last() && plain.last() == b.last());
        an_underscore_does_not_show(a, b.drop_last());
    }
}

/// Underscores between the digits and blanks around a size do not change it.
pub proof fn underscores_and_blanks_do_not_count(
    before: Seq<char>,
    a: Seq<char>,
    b: Seq<char>,
    after: Seq<char>,
)
    requires
        text::blank(before),
        text::blank(after),
        a.len() > 0,
        b.len() > 0,
        !text::is_white(a[0]),
        !text::is_white(b.last()),
    ensures
        ({
            let plain = cli::size_of(a + b);
            let spaced = cli::size_of(before + (a + seq!['_'] + b) + after);
            &&& plain is Ok <==> spaced is Ok
            &&& plain is Ok ==> plain->Ok_0 == spaced->Ok_0
        }),
{
    let whole = a + b;
    let cut = a + seq!['_'] + b;
    assert(whole[0] == a[0] && whole.last() == b.last());
    assert(cut[0] == a[0] && cut.last() == b.last());
    text::blanks_around_are_trimmed(before, cut, after);
    text::blanks_around_are_trimmed(Seq::empty(), whole, Seq::empty());
    assert(Seq::<char>::empty() + whole + Seq::<char>::empty() =~= whole);
    an_underscore_does_not_show(a, b);
}

proof fn hexadecimals_count(n: u64)
    ensures
        ({
            let plain = seq!['0', 'x'] + text::hex(n as nat);
            &&& text::trimmed(plain) == plain
            &&& cli::count_of(plain) == Some(n as nat)
            &&& forall|i: int| 0 <= i < plain.len() ==> #[trigger] plain[i] != '_'
        }),
{
    let digits = text::hex(n as nat);
    let plain = seq!['0', 'x'] + digits;
    number::hexadecimals_read_back(n as nat);
    let last = digits[digits.len() - 1];
    assert('0' <= last <= '9' || 'a' <= last <= 'f');
    assert('0' <= digits[0] <= '9' || 'a' <= digits[0] <= 'f');
    assert(plain.last() == last);
    assert(plain[0] == '0' && plain[1] == 'x');
    assert(text::trimmed(plain) == plain);
    assert(plain.subrange(2, plain.len() as int) =~= digits);
    assert(number::spelled(digits, 16, u64::MAX as nat) == Some(n as nat));
    assert forall|i: int| 0 <= i < plain.len() implies #[trigger] plain[i] != '_' by {
        if i >= 2 {
            assert(plain[i] == digits[i - 2]);
        }
    }
}

/// A hexadecimal size takes a suffix as a decimal one does.
#[verifier::rlimit(60)]
pub proof fn a_hexadecimal_size_takes_a_suffix(n: u64, suffix: char, scale: nat)
    requires
        (suffix == 'k' || suffix == 'K') && scale == 1024 || (suffix == 'm' || suffix == 'M')
            && scale == 1048576 || (suffix == 'g' || suffix == 'G') && scale == 1073741824,
    ensures
        ({
            let read = cli::size_of((seq!['0', 'x'] + text::hex(n as nat)).push(suffix));
            &&& n * scale <= u64::MAX ==> read == Ok::<u64, Seq<char>>((n * scale) as u64)
            &&& n * scale > u64::MAX ==> read is Err
        }),
{
    let plain = seq!['0', 'x'] + text::hex(n as nat);
    let s = plain.push(suffix);
    hexadecimals_count(n);
    a_suffix_is_a_power_of_1024(suffix);
    assert forall|i: int| 0 <= i < s.len() implies #[trigger] s[i] != '_' by {
        if i < plain.len() {
            assert(s[i] == plain[i]);
        }
    }
    cli::nothing_to_filter(s);
    assert(s[0] == '0' && s.last() == suffix);
    assert(text::trimmed(s) == s);
    assert(s.drop_last() =~= plain);
}

/// A line is drawn over the whole of the last one: it starts the row again, and
/// what the last one had beyond it is blanked.
pub proof fn a_line_covers_the_last_one(bar: bar::BarView, line: Seq<char>)
    ensures
        ({
            let drawn = bar.drawn(line);
            &&& drawn[0] == '\r'
            &&& drawn.subrange(1, (1 + line.len()) as int) == line
            &&& drawn.len() >= 1 + bar.width
            &&& forall|i: int| 1 + line.len() <= i < drawn.len() ==> #[trigger] drawn[i] == ' '
        }),
{
    reveal_strlit("\r");
    assert(bar.drawn(line).subrange(1, (1 + line.len()) as int) =~= line);
}

/// A line is drawn at most every tenth of a second.
pub proof fn lines_are_a_tenth_of_a_second_apart(bar: bar::BarView, elapsed: u64)
    ensures
        bar.too_soon(elapsed) <==> bar.last_drawn is Some && elapsed < bar.last_drawn->0
            + 100_000_000,
{
}

/// A hexadecimal count reads the same in either case.
pub proof fn hexadecimals_read_in_either_case(digits: Seq<char>)
    ensures
        cli::count_of(seq!['0', 'X'] + digits) == cli::count_of(seq!['0', 'x'] + digits),
        digits.len() > 0 && digits[0] != '+' && positional_is_some(digits, 16)
            && number::positional(digits, 16)->0 <= u64::MAX ==> cli::count_of(
            seq!['0', 'x'] + digits,
        ) == number::positional(digits, 16),
{
    let upper = seq!['0', 'X'] + digits;
    let lower = seq!['0', 'x'] + digits;
    assert(upper.subrange(2, upper.len() as int) =~= digits);
    assert(lower.subrange(2, lower.len() as int) =~= digits);
}

proof fn a_last_character_is_kept(s: Seq<char>)
    requires
        s.len() > 0,
        !text::is_white(s.last()),
    ensures
        text::trimmed(s).len() > 0,
        text::trimmed(s).last() == s.last(),
{
    let k = trimmed_start_takes_blanks(s);
    if k == s.len() {
        assert(s.subrange(0, k)[k - 1] == s.last());
    }
    let mid = text::trimmed_start(s);
    assert(mid.last() == s.last());
}

/// What is read as a size ends in a digit or in one of the suffixes; anything
/// else is refused.
pub proof fn a_size_ends_in_a_digit_or_a_suffix(value: Seq<char>)
    ensures
        cli::size_of(value) is Ok ==> {
            let s = text::trimmed(cli::without_underscores(text::trimmed(value)));
            &&& s.len() > 0
            &&& {
                ||| number::digit_value(s.last(), 16) is Some
                ||| s.last() == 'k' || s.last() == 'm' || s.last() == 'g'
                ||| s.last() == 'K' || s.last() == 'M' || s.last() == 'G'
            }
        },
{
    if cli::size_of(value) is Ok {
        let whole = cli::without_underscores(text::trimmed(value));
        if whole.len() > 0 && cli::suffix_scale(whole.last()) > 1 {
            a_suffix_is_a_power_of_1024(whole.last());
            a_last_character_is_kept(whole);
        } else {
            let digits = text::trimmed(whole);
            if digits.len() >= 2 && digits[0] == '0' && (digits[1] == 'x' || digits[1] == 'X') {
                let rest = digits.subrange(2, digits.len() as int);
                a_number_is_nothing_but_digits(rest, 16, u64::MAX as nat);
                assert(rest[rest.len() - 1] == digits.last());
            } else {
                a_number_is_nothing_but_digits(digits, 10, u64::MAX as nat);
                assert(number::digit_value(digits[digits.len() - 1], 10) is Some);
            }
        }
    }
}

/// A progress line opens with what moves, how much of how much, and the share
/// that is in three places, and closes with the time left for what is not done
/// yet.
pub proof fn a_progress_line_tells_how_far_it_is(
    label: Seq<char>,
    done: u64,
    total: u64,
    pace: bar::Pace,
)
    ensures
        ({
            let line = bar::line_text(label, done, total, pace);
            let left = if done < total {
                (total - done) as u64
            } else {
                0
            };
            &&& (label + " "@ + bar::size_text(done) + " / "@ + bar::size_text(total) + "  "@
                + text::right(text::dec(bar::percent(done, total)), 3) + "%  "@ + bar::size_text(
                pace.rate,
            ) + "/s"@).is_prefix_of(line)
            &&& bar::eta_text(left, pace.left).is_suffix_of(line)
        }),
{
    let line = bar::line_text(label, done, total, pace);
    let left = if done < total {
        (total - done) as u64
    } else {
        0
    };
    let head = label + " "@ + bar::size_text(done) + " / "@ + bar::size_text(total) + "  "@
        + text::right(text::dec(bar::percent(done, total)), 3) + "%  "@;
    let rate = bar::size_text(pace.rate) + "/s"@;
    let last = bar::eta_text(left, pace.left);
    assert(line == head + rate + "  "@ + last);
    let shown = head + bar::size_text(pace.rate) + "/s"@;
    assert(shown =~= head + rate);
    assert(line.subrange(0, shown.len() as int) =~= shown);
    assert(line.subrange(line.len() - last.len(), line.len() as int) =~= last);
}

/// A list reads the same however it is put together: what is joined of two lists
/// is the one, the separator, and the other.
pub proof fn lists_are_joined_by_their_separator(
    a: Seq<Seq<char>>,
    b: Seq<Seq<char>>,
    separator: Seq<char>,
)
    requires
        a.len() > 0,
        b.len() > 0,
    ensures
        text::joined(a + b, separator) == text::joined(a, separator) + separator + text::joined(
            b,
            separator,
        ),
        text::joined(seq![a[0]], separator) == a[0],
    decreases b.len(),
{
    let all = a + b;
    assert(all.last() == b.last());
    if b.len() == 1 {
        assert(all.drop_last() =~= a);
    } else {
        assert(all.drop_last() =~= a + b.drop_last());
        lists_are_joined_by_their_separator(a, b.drop_last(), separator);
        assert(text::joined(all, separator) =~= text::joined(a, separator) + separator
            + text::joined(b, separator));
    }
}

} // verus!
