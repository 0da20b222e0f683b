//! How sizes and times are shown.

use crate::i18n::{pick, picked, Lang};
use crate::text::{decimal, push_decimal};
use vstd::prelude::*;

verus! {

/// `n / d`, rounded to the nearest whole number, and to an even one where two
/// are equally near.
pub open spec fn half_even(n: nat, d: nat) -> nat {
    let q = n / d;
    let r = n % d;
    if 2 * r > d || (2 * r == d && q % 2 == 1) {
        q + 1
    } else {
        q
    }
}

/// The number of whole values that a double-precision number tells apart.
pub const DOUBLE_PRECISION: u64 = 0x20_0000_0000_0000;

/// The distance between two neighbouring double-precision numbers around `n`.
pub open spec fn double_step(n: nat) -> nat
    decreases n,
{
    if n < DOUBLE_PRECISION {
        1
    } else {
        2 * double_step(n / 2)
    }
}

/// The double-precision number nearest to `n`.
pub open spec fn nearest_double(n: nat) -> nat {
    half_even(n, double_step(n)) * double_step(n)
}

/// How many bytes the unit with the number `unit` stands for.
pub open spec fn unit_bytes(unit: nat) -> nat {
    if unit == 0 {
        1
    } else if unit == 1 {
        1024
    } else if unit == 2 {
        1_048_576
    } else if unit == 3 {
        1_073_741_824
    } else {
        1_099_511_627_776
    }
}

/// The largest unit of which `size` is at least one.
pub open spec fn unit_for(size: nat) -> nat {
    if size < unit_bytes(1) {
        0
    } else if size < unit_bytes(2) {
        1
    } else if size < unit_bytes(3) {
        2
    } else if size < unit_bytes(4) {
        3
    } else {
        4
    }
}

/// The name of a unit.
pub open spec fn unit_name(unit: nat) -> Seq<char> {
    if unit == 0 {
        "B"@
    } else if unit == 1 {
        "KB"@
    } else if unit == 2 {
        "MB"@
    } else if unit == 3 {
        "GB"@
    } else {
        "TB"@
    }
}

/// A number of tenths, written with one decimal place.
pub open spec fn tenths(n: nat) -> Seq<char> {
    decimal(n / 10) + "."@ + decimal(n % 10)
}

/// A size as it is shown: in bytes as it is, else in the largest unit that fits,
/// to one decimal place.
///
/// The size is taken to double precision first, which only bears on sizes of
/// many petabytes.
pub open spec fn size_text(bytes: nat) -> Seq<char> {
    let size = nearest_double(bytes);
    let unit = unit_for(size);
    if unit == 0 {
        decimal(bytes) + " "@ + unit_name(0)
    } else {
        tenths(half_even(size * 10, unit_bytes(unit))) + " "@ + unit_name(unit)
    }
}

fn half_even_div(n: u128, d: u128) -> (r: u128)
    requires
        0 < d <= 1_099_511_627_776,
    ensures
        r == half_even(n as nat, d as nat),
        r <= n / d + 1,
{
    let q: u128 = n / d;
    let rest: u128 = n % d;
    proof {
        vstd::arithmetic::div_mod::lemma_div_is_ordered_by_denominator(n as int, 1, d as int);
        vstd::arithmetic::div_mod::lemma_div_basics(n as int);
        vstd::arithmetic::div_mod::lemma_mod_bound(n as int, d as int);
    }
    if 2 * rest > d || (2 * rest == d && q % 2 == 1) {
        assert(q + 1 <= u128::MAX) by {
            if d == 1 {
                assert(rest == 0);
            } else {
                vstd::arithmetic::div_mod::lemma_div_is_ordered_by_denominator(
                    n as int,
                    2,
                    d as int,
                );
            }
        }
        q + 1
    } else {
        q
    }
}

fn double_step_of(n: u64) -> (r: u64)
    ensures
        r == double_step(n as nat),
        1 <= r < 4096,
        n >= DOUBLE_PRECISION ==> r * (DOUBLE_PRECISION / 2) <= n,
        n < DOUBLE_PRECISION ==> r == 1,
    decreases n,
{
    if n < DOUBLE_PRECISION {
        1
    } else {
        let half: u64 = double_step_of(n / 2);
        2 * half
    }
}

fn nearest_double_of(n: u64) -> (r: u128)
    ensures
        r == nearest_double(n as nat),
        r <= 0x1_0000_0000_0000_0000 + 4096,
{
    let step: u128 = double_step_of(n) as u128;
    let q: u128 = half_even_div(n as u128, step);
    proof {
        let a = n as int / step as int;
        vstd::arithmetic::div_mod::lemma_fundamental_div_mod(n as int, step as int);
        vstd::arithmetic::div_mod::lemma_mod_bound(n as int, step as int);
        assert((a + 1) * step <= n + step) by (nonlinear_arith)
            requires
                n == step * a + n as int % step as int,
                n as int % step as int >= 0,
        ;
        assert(q * step <= (a + 1) * step) by (nonlinear_arith)
            requires
                q <= a + 1,
                step >= 0,
        ;
    }
    q * step
}

/// A size as it is shown.
pub fn human_size(bytes: u64) -> (r: String)
    ensures
        r@ == size_text(bytes as nat),
{
    let size: u128 = nearest_double_of(bytes);
    let mut out = String::new();
    if size < 1024 {
        push_decimal(&mut out, bytes);
        out.append(" ");
        out.append("B");
        assert(out@ =~= size_text(bytes as nat));
        return out;
    }
    let (divisor, name): (u128, &str) = if size < 1_048_576 {
        (1024, "KB")
    } else if size < 1_073_741_824 {
        (1_048_576, "MB")
    } else if size < 1_099_511_627_776 {
        (1_073_741_824, "GB")
    } else {
        (1_099_511_627_776, "TB")
    };
    let shown: u128 = half_even_div(size * 10, divisor);
    assert(shown <= u64::MAX) by {
        vstd::arithmetic::div_mod::lemma_div_is_ordered_by_denominator(
            (size * 10) as int,
            1024,
            divisor as int,
        );
    }
    push_decimal(&mut out, (shown / 10) as u64);
    out.append(".");
    push_decimal(&mut out, (shown % 10) as u64);
    out.append(" ");
    out.append(name);
    assert(out@ =~= size_text(bytes as nat));
    out
}

/// The seconds of one day.
pub const SECS_PER_DAY: u64 = 86_400;

/// How long ago something was, in Japanese and in the coarsest unit that fits:
/// days, weeks of seven days, months of thirty, years of three hundred and
/// sixty-five.
pub open spec fn ago_text(seconds_ago: nat) -> Seq<char> {
    let days = seconds_ago / (SECS_PER_DAY as nat);
    if days == 0 {
        "本日"@
    } else if days < 7 {
        decimal(days) + "日前"@
    } else if days < 30 {
        decimal(days / 7) + "週間前"@
    } else if days < 365 {
        decimal(days / 30) + "か月前"@
    } else {
        decimal(days / 365) + "年前"@
    }
}

/// How long ago something was, in the words of a language.
pub open spec fn ago_words(seconds_ago: nat, lang: Lang) -> Seq<char> {
    let days = seconds_ago / (SECS_PER_DAY as nat);
    if days == 0 {
        picked(lang, "本日"@, "Today"@)
    } else if days < 7 {
        decimal(days) + picked(lang, "日前"@, " days ago"@)
    } else if days < 30 {
        decimal(days / 7) + picked(lang, "週間前"@, " weeks ago"@)
    } else if days < 365 {
        decimal(days / 30) + picked(lang, "か月前"@, " months ago"@)
    } else {
        decimal(days / 365) + picked(lang, "年前"@, " years ago"@)
    }
}

/// How long ago something was, in the words of a language.
pub fn relative_days_in(seconds_ago: u64, lang: Lang) -> (r: String)
    ensures
        r@ == ago_words(seconds_ago as nat, lang),
{
    let days: u64 = seconds_ago / SECS_PER_DAY;
    let (count, unit): (u64, &str) = if days == 0 {
        return pick(lang, "本日", "Today").to_owned();
    } else if days < 7 {
        (days, pick(lang, "日前", " days ago"))
    } else if days < 30 {
        (days / 7, pick(lang, "週間前", " weeks ago"))
    } else if days < 365 {
        (days / 30, pick(lang, "か月前", " months ago"))
    } else {
        (days / 365, pick(lang, "年前", " years ago"))
    };
    let mut out = String::new();
    push_decimal(&mut out, count);
    out.append(unit);
    assert(out@ =~= ago_words(seconds_ago as nat, lang));
    out
}

/// How long ago something was, in Japanese.
pub fn relative_days(seconds_ago: u64) -> (r: String)
    ensures
        r@ == ago_text(seconds_ago as nat),
{
    relative_days_in(seconds_ago, Lang::Ja)
}

// ---- What sizes and times read like ----

proof fn rounding_is_near(n: nat, d: nat)
    requires
        d > 0,
    ensures
        2 * (half_even(n, d) * d - n) <= d,
        2 * (n - half_even(n, d) * d) <= d,
{
    let q = n / d;
    let r = n % d;
    assert(n == q * d + r && r < d) by (nonlinear_arith)
        requires
            d > 0,
            q == n / d,
            r == n % d,
    ;
    assert((q + 1) * d == q * d + d) by (nonlinear_arith);
}

/// The unit with the name `name` has `bytes` bytes.
pub open spec fn is_unit(name: Seq<char>, bytes: nat) -> bool {
    ||| name == "KB"@ && bytes == 1024
    ||| name == "MB"@ && bytes == 1024 * 1024
    ||| name == "GB"@ && bytes == 1024 * 1024 * 1024
    ||| name == "TB"@ && bytes == 1024 * 1024 * 1024 * 1024
}

/// Below one kilobyte a size is written in bytes. Above, it is written with one
/// decimal in the largest unit that it reaches, off by half of the last digit at
/// most. This is said of sizes that a double holds exactly.
pub proof fn sizes_are_written_to_one_decimal(bytes: nat) -> (r: (nat, nat, Seq<char>))
    requires
        bytes < 0x20_0000_0000_0000,
    ensures
        bytes < 1024 ==> size_text(bytes) == decimal(bytes) + " "@ + "B"@,
        bytes >= 1024 ==> {
            let (tenth, unit, name) = r;
            &&& is_unit(name, unit)
            &&& unit <= bytes
            &&& bytes < 1024 * unit || unit == 1024 * 1024 * 1024 * 1024
            &&& 2 * (tenth * unit - 10 * bytes) <= unit
            &&& 2 * (10 * bytes - tenth * unit) <= unit
            &&& size_text(bytes) == decimal(tenth / 10) + "."@ + decimal(tenth % 10) + " "@ + name
        },
{
    assert(double_step(bytes) == 1);
    assert(half_even(bytes, 1) == bytes);
    assert(nearest_double(bytes) == half_even(bytes, 1) * 1);
    let unit = unit_for(bytes);
    let size = unit_bytes(unit);
    rounding_is_near(bytes * 10, size);
    (half_even(bytes * 10, size), size, unit_name(unit))
}

/// The days that have passed, of 86400 seconds each.
pub open spec fn is_days(seconds: nat, days: nat) -> bool {
    days * 86_400 <= seconds < (days + 1) * 86_400
}

/// A time is told in days up to a week, in weeks up to thirty days, in months of
/// thirty days up to a year of 365 days, and in years after that.
pub proof fn times_are_told_in_growing_units(seconds: nat, days: nat, lang: Lang)
    requires
        is_days(seconds, days),
    ensures
        days == 0 ==> ago_words(seconds, lang) == picked(lang, "本日"@, "Today"@),
        1 <= days < 7 ==> ago_words(seconds, lang) == decimal(days) + picked(
            lang,
            "日前"@,
            " days ago"@,
        ),
        7 <= days < 30 ==> ago_words(seconds, lang) == decimal(days / 7) + picked(
            lang,
            "週間前"@,
            " weeks ago"@,
        ),
        30 <= days < 365 ==> ago_words(seconds, lang) == decimal(days / 30) + picked(
            lang,
            "か月前"@,
            " months ago"@,
        ),
        365 <= days ==> ago_words(seconds, lang) == decimal(days / 365) + picked(
            lang,
            "年前"@,
            " years ago"@,
        ),
        ago_text(seconds) == ago_words(seconds, Lang::Ja),
{
}

} // verus!
