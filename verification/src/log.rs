//! The run log: UTC timestamps, action lines, and where the log lives.
//!
//! Timestamps are UTC; no local timezone offset is applied. The Unix epoch
//! (0) therefore formats as `1970-01-01 00:00:00`.

use vstd::prelude::*;
use crate::config_model::path_join;
use crate::text::{dec, zpad, push_dec, push_str, string_push};

verus! {

/// Howard Hinnant's civil-from-days arithmetic on a day count
/// `z >= 0` since 1970-01-01: the (year, month, day) of that day.
pub open spec fn civil(z: int) -> (int, int, int) {
    let zz = z + 719468;
    let era = zz / 146097;
    let doe = zz - era * 146097;
    let yoe = (doe - doe / 1460 + doe / 36524 - doe / 146096) / 365;
    let y = yoe + era * 400;
    let doy = doe - (365 * yoe + yoe / 4 - yoe / 100);
    let mp = (5 * doy + 2) / 153;
    let d = doy - (153 * mp + 2) / 5 + 1;
    let m = if mp < 10 {
        mp + 3
    } else {
        mp - 9
    };
    (if m <= 2 {
        y + 1
    } else {
        y
    }, m, d)
}

/// Every day from 1970-01-01 on falls in a year from 1970 on, in a month
/// from 1 to 12, on a day from 1 to 31: the fields a timestamp shows are in
/// range.
pub proof fn lemma_civil_ranges(z: int)
    requires
        z >= 0,
    ensures
        1 <= civil(z).1 <= 12,
        1 <= civil(z).2 <= 31,
        civil(z).0 >= 1970,
{
    let zz = z + 719468;
    let era = zz / 146097;
    let doe = zz - era * 146097;
    assert(0 <= doe < 146097) by (nonlinear_arith)
        requires
            zz >= 0,
            era == zz / 146097,
            doe == zz - era * 146097,
    ;
    let yoe = (doe - doe / 1460 + doe / 36524 - doe / 146096) / 365;
    assert(0 <= yoe <= 399) by (nonlinear_arith)
        requires
            0 <= doe < 146097,
            yoe == (doe - doe / 1460 + doe / 36524 - doe / 146096) / 365,
    ;
    let doy = doe - (365 * yoe + yoe / 4 - yoe / 100);
    assert(0 <= doy <= 365) by (nonlinear_arith)
        requires
            0 <= doe < 146097,
            0 <= yoe <= 399,
            yoe == (doe - doe / 1460 + doe / 36524 - doe / 146096) / 365,
            doy == doe - (365 * yoe + yoe / 4 - yoe / 100),
    ;
    let mp = (5 * doy + 2) / 153;
    assert(0 <= mp <= 11);
    let d = doy - (153 * mp + 2) / 5 + 1;
    assert(1 <= d <= 31) by (nonlinear_arith)
        requires
            0 <= doy <= 365,
            mp == (5 * doy + 2) / 153,
            d == doy - (153 * mp + 2) / 5 + 1,
    ;
    assert(era >= 4) by (nonlinear_arith)
        requires
            zz >= 719468,
            era == zz / 146097,
    ;
}

/// The UTC date and time of `secs` seconds since the epoch as
/// `YYYY-MM-DD<sep>HH:MM:SS`.
pub open spec fn stamp_spec(secs: nat, sep: char) -> Seq<char> {
    let days = secs / 86400;
    let rem = secs % 86400;
    let (y, mo, d) = civil(days as int);
    zpad(dec(y as nat), 4) + seq!['-'] + zpad(dec(mo as nat), 2) + seq!['-'] + zpad(
        dec(d as nat),
        2,
    ) + seq![sep] + zpad(dec(rem / 3600), 2) + seq![':'] + zpad(dec((rem % 3600) / 60), 2) + seq![
        ':',
    ] + zpad(dec(rem % 60), 2)
}

/// `YYYY-MM-DD HH:MM:SS` for a count of seconds since the epoch, in UTC.
pub open spec fn format_unix_secs_spec(secs: nat) -> Seq<char> {
    stamp_spec(secs, ' ')
}

/// Hinnant's days-from-civil: the day number (since 1970-01-01) of a
/// proleptic Gregorian date with year >= 1.
pub open spec fn days_from_civil(y: int, m: int, d: int) -> int {
    let yy = if m <= 2 {
        y - 1
    } else {
        y
    };
    let era = yy / 400;
    let yoe = yy - era * 400;
    let mp = if m > 2 {
        m - 3
    } else {
        m + 9
    };
    let doy = (153 * mp + 2) / 5 + d - 1;
    let doe = yoe * 365 + yoe / 4 - yoe / 100 + doy;
    era * 146097 + doe - 719468
}

/// Every day number names a date that names it back: the date of day `z`
/// counts `z` days from 1970-01-01.
pub proof fn lemma_civil_round_trip(z: int)
    requires
        z >= 0,
    ensures
        days_from_civil(civil(z).0, civil(z).1, civil(z).2) == z,
{
    let zz = z + 719468;
    let era = zz / 146097;
    let doe = zz - era * 146097;
    assert(0 <= doe < 146097) by (nonlinear_arith)
        requires
            zz >= 0,
            era == zz / 146097,
            doe == zz - era * 146097,
    ;
    let yoe = (doe - doe / 1460 + doe / 36524 - doe / 146096) / 365;
    assert(0 <= yoe <= 399) by (nonlinear_arith)
        requires
            0 <= doe < 146097,
            yoe == (doe - doe / 1460 + doe / 36524 - doe / 146096) / 365,
    ;
    let y = yoe + era * 400;
    assert(y / 400 == era && y - (y / 400) * 400 == yoe) by (nonlinear_arith)
        requires
            0 <= yoe <= 399,
            y == yoe + era * 400,
            era >= 0,
    ;
    assert(era >= 0) by (nonlinear_arith)
        requires
            zz >= 0,
            era == zz / 146097,
    ;
    lemma_civil_ranges(z);
}


/// Leap years of the Gregorian calendar.
pub open spec fn is_leap(y: int) -> bool {
    y % 4 == 0 && (y % 100 != 0 || y % 400 == 0)
}

/// The number of days in month `m` of year `y`.
pub open spec fn month_length(y: int, m: int) -> int {
    if m == 2 {
        if is_leap(y) {
            29
        } else {
            28
        }
    } else if m == 4 || m == 6 || m == 9 || m == 11 {
        30
    } else {
        31
    }
}

/// Days before March-based year `y` of a 400-year era, for `y < 400`.
spec fn era_days(y: int) -> int {
    365 * y + y / 4 - y / 100
}

/// The day count that the civil arithmetic divides by 365 to find the year.
spec fn year_key(doe: int) -> int {
    doe - doe / 1460 + doe / 36524 - doe / 146096
}

proof fn lemma_div_by_bounds(x: int, k: int, q: int)
    requires
        k > 0,
        k * q <= x < k * q + k,
    ensures
        x / k == q,
{
    assert(x / k == q) by (nonlinear_arith)
        requires
            k > 0,
            k * q <= x < k * q + k,
    ;
}

proof fn lemma_year_key_at_year_start(y: int)
    requires
        0 <= y < 400,
    ensures
        year_key(era_days(y)) == 365 * y,
{
    let a = y / 4;
    let b = y % 4;
    let c = y / 100;
    let e = y % 100;
    assert(y == 4 * a + b && 0 <= b < 4) by (nonlinear_arith)
        requires
            a == y / 4,
            b == y % 4,
            y >= 0,
    ;
    assert(y == 100 * c + e && 0 <= e < 100 && 0 <= c < 4) by (nonlinear_arith)
        requires
            c == y / 100,
            e == y % 100,
            0 <= y < 400,
    ;
    assert(a == 25 * c + e / 4 && 0 <= e / 4 <= 24) by (nonlinear_arith)
        requires
            y == 100 * c + e,
            0 <= e < 100,
            a == y / 4,
    ;
    let sd = era_days(y);
    assert(sd == 365 * y + a - c);
    assert(1460 * a <= sd < 1460 * a + 1460);
    lemma_div_by_bounds(sd, 1460, a);
    assert(36524 * c <= sd < 36524 * c + 36524);
    lemma_div_by_bounds(sd, 36524, c);
    assert(0 <= sd < 146096);
    lemma_div_by_bounds(sd, 146096, 0);
}

proof fn lemma_year_key_monotone(d1: int, d2: int)
    requires
        0 <= d1 <= d2 <= 146095,
    ensures
        year_key(d1) <= year_key(d2),
{
    assert(d1 / 146096 == 0 && d2 / 146096 == 0);
    assert(d2 - d2 / 1460 >= d1 - d1 / 1460) by (nonlinear_arith)
        requires
            0 <= d1 <= d2,
    ;
    assert(d2 / 36524 >= d1 / 36524) by (nonlinear_arith)
        requires
            0 <= d1 <= d2,
    ;
}

/// Within a 400-year era, the day of the March-based year stays below the
/// year's length: day 365 exists only in a year whose February (falling in
/// the next calendar year) has 29 days.
proof fn lemma_day_of_year(doe: int)
    requires
        0 <= doe < 146097,
    ensures
        0 <= year_key(doe) / 365 <= 399,
        doe - era_days(year_key(doe) / 365) >= 0,
        doe - era_days(year_key(doe) / 365) <= 364 || {
            let yoe = year_key(doe) / 365;
            &&& doe - era_days(yoe) == 365
            &&& yoe % 4 == 3
            &&& (yoe % 100 != 99 || yoe == 399)
        },
{
    let yoe = year_key(doe) / 365;
    assert(0 <= yoe <= 399) by (nonlinear_arith)
        requires
            0 <= doe < 146097,
            yoe == (doe - doe / 1460 + doe / 36524 - doe / 146096) / 365,
    ;
    let doy = doe - era_days(yoe);
    assert(0 <= doy <= 365) by (nonlinear_arith)
        requires
            0 <= doe < 146097,
            0 <= yoe <= 399,
            yoe == (doe - doe / 1460 + doe / 36524 - doe / 146096) / 365,
            doy == doe - (365 * yoe + yoe / 4 - yoe / 100),
    ;
    if doe == 146096 {
        assert(year_key(doe) == 145999);
        lemma_div_by_bounds(145999, 365, 399);
        assert(yoe == 399);
    } else if yoe <= 398 {
        if doe >= era_days(yoe + 1) {
            lemma_year_key_at_year_start(yoe + 1);
            assert(era_days(yoe + 1) >= 0) by (nonlinear_arith)
                requires
                    0 <= yoe <= 398,
            ;
            lemma_year_key_monotone(era_days(yoe + 1), doe);
            assert(year_key(doe) / 365 >= yoe + 1) by (nonlinear_arith)
                requires
                    year_key(doe) >= 365 * (yoe + 1),
            ;
        }
        let y1 = yoe + 1;
        assert(y1 / 4 - yoe / 4 == (if yoe % 4 == 3 { 1int } else { 0int })) by (nonlinear_arith)
            requires
                y1 == yoe + 1,
                yoe >= 0,
        ;
        assert(y1 / 100 - yoe / 100 == (if yoe % 100 == 99 { 1int } else { 0int })) by (nonlinear_arith)
            requires
                y1 == yoe + 1,
                yoe >= 0,
        ;
        assert(yoe % 100 == 99 ==> yoe % 4 == 3) by (nonlinear_arith)
            requires
                yoe >= 0,
        ;
    }
}

/// Every day from 1970-01-01 on is a real calendar date: its day lies
/// within its month's length, February having 29 days exactly in leap
/// years.
pub proof fn lemma_civil_is_a_date(z: int)
    requires
        z >= 0,
    ensures
        1 <= civil(z).1 <= 12,
        1 <= civil(z).2 <= month_length(civil(z).0, civil(z).1),
{
    lemma_civil_ranges(z);
    let zz = z + 719468;
    let era = zz / 146097;
    let doe = zz - era * 146097;
    assert(0 <= doe < 146097 && era >= 0) by (nonlinear_arith)
        requires
            zz >= 0,
            era == zz / 146097,
            doe == zz - era * 146097,
    ;
    lemma_day_of_year(doe);
    let yoe = year_key(doe) / 365;
    let doy = doe - era_days(yoe);
    let mp = (5 * doy + 2) / 153;
    let d = doy - (153 * mp + 2) / 5 + 1;
    assert(153 * mp <= 5 * doy + 2 < 153 * mp + 153) by (nonlinear_arith)
        requires
            mp == (5 * doy + 2) / 153,
            doy >= 0,
    ;
    assert(0 <= mp <= 11);
    if mp == 11 {
        assert(doy >= 337);
        assert(d == doy - 336);
        if doy == 365 {
            let y1 = yoe + era * 400 + 1;
            assert(is_leap(y1)) by (nonlinear_arith)
                requires
                    y1 == yoe + era * 400 + 1,
                    yoe % 4 == 3,
                    yoe % 100 != 99 || yoe == 399,
                    0 <= yoe <= 399,
                    era >= 0,
            ;
        }
    }
}

/// Through 9999-12-31 (day 2932896) the year has four digits.
proof fn lemma_year_bound(z: int)
    requires
        0 <= z <= 2932896,
    ensures
        civil(z).0 <= 9999,
{
    let zz = z + 719468;
    let era = zz / 146097;
    let doe = zz - era * 146097;
    assert(0 <= era <= 24 && 0 <= doe < 146097) by (nonlinear_arith)
        requires
            0 <= zz <= 3652364,
            era == zz / 146097,
            doe == zz - era * 146097,
    ;
    let yoe = (doe - doe / 1460 + doe / 36524 - doe / 146096) / 365;
    assert(0 <= yoe <= 399) by (nonlinear_arith)
        requires
            0 <= doe < 146097,
            yoe == (doe - doe / 1460 + doe / 36524 - doe / 146096) / 365,
    ;
    let doy = doe - (365 * yoe + yoe / 4 - yoe / 100);
    let mp = (5 * doy + 2) / 153;
    if era == 24 && yoe == 399 {
        assert(doe <= 146036);
        assert(doy <= 305);
        assert(mp <= 9) by (nonlinear_arith)
            requires
                doy <= 305,
                mp == (5 * doy + 2) / 153,
        ;
    }
}

proof fn lemma_dec_len4(v: nat)
    requires
        1000 <= v <= 9999,
    ensures
        dec(v).len() == 4,
{
    assert(dec(v) == dec(v / 10).push(crate::text::digit_char(v % 10)));
    assert(dec(v / 10) == dec(v / 100).push(crate::text::digit_char((v / 10) % 10)));
    assert(dec(v / 100) == dec(v / 1000).push(crate::text::digit_char((v / 100) % 10)));
    assert(v / 1000 < 10);
}

proof fn lemma_pad2(v: nat)
    requires
        v < 100,
    ensures
        zpad(dec(v), 2).len() == 2,
{
    if v < 10 {
        assert(dec(v).len() == 1);
        assert(zpad(dec(v), 2) == seq!['0'] + zpad(dec(v), 1));
        assert(zpad(dec(v), 1) == dec(v));
    } else {
        assert(dec(v) == dec(v / 10).push(crate::text::digit_char(v % 10)));
        assert(v / 10 < 10);
        assert(dec(v).len() == 2);
    }
}

/// Up to the end of year 9999, a log timestamp is 19 characters with `-`,
/// `-`, ` `, `:`, `:` at positions 4, 7, 10, 13 and 16.
pub proof fn lemma_timestamp_shape(secs: nat)
    requires
        secs < 253402300800,
    ensures
        format_unix_secs_spec(secs).len() == 19,
        format_unix_secs_spec(secs)[4] == '-',
        format_unix_secs_spec(secs)[7] == '-',
        format_unix_secs_spec(secs)[10] == ' ',
        format_unix_secs_spec(secs)[13] == ':',
        format_unix_secs_spec(secs)[16] == ':',
{
    let days = secs / 86400;
    let rem = secs % 86400;
    assert(days <= 2932896);
    lemma_year_bound(days as int);
    lemma_civil_ranges(days as int);
    let (y, mo, d) = civil(days as int);
    lemma_dec_len4(y as nat);
    assert(zpad(dec(y as nat), 4) == dec(y as nat));
    lemma_pad2(mo as nat);
    lemma_pad2(d as nat);
    lemma_pad2(rem / 3600);
    lemma_pad2((rem % 3600) / 60);
    lemma_pad2(rem % 60);
}

/// Convert days since the Unix epoch to (year, month, day).
fn civil_from_days(z: i64) -> (r: (i64, u32, u32))
    requires
        0 <= z <= i64::MAX - 719468,
    ensures
        r.0 as int == civil(z as int).0,
        r.1 as int == civil(z as int).1,
        r.2 as int == civil(z as int).2,
        1 <= r.1 <= 12,
        1 <= r.2 <= 31,
        r.0 >= 1970,
{
    proof {
        lemma_civil_ranges(z as int);
    }
    let zz = z + 719468;
    let era = zz / 146097;
    let doe = zz - era * 146097;
    assert(0 <= doe < 146097) by (nonlinear_arith)
        requires
            zz >= 0,
            era == zz / 146097,
            doe == zz - era * 146097,
    ;
    let yoe = (doe - doe / 1460 + doe / 36524 - doe / 146096) / 365;
    assert(0 <= yoe <= 399) by (nonlinear_arith)
        requires
            0 <= doe < 146097,
            yoe == (doe - doe / 1460 + doe / 36524 - doe / 146096) / 365,
    ;
    assert(era * 400 <= zz) by (nonlinear_arith)
        requires
            zz >= 0,
            era == zz / 146097,
    ;
    let mut y = yoe + era * 400;
    let doy = doe - (365 * yoe + yoe / 4 - yoe / 100);
    assert(0 <= doy <= 365) by (nonlinear_arith)
        requires
            0 <= doe < 146097,
            0 <= yoe <= 399,
            yoe == (doe - doe / 1460 + doe / 36524 - doe / 146096) / 365,
            doy == doe - (365 * yoe + yoe / 4 - yoe / 100),
    ;
    let mp = (5 * doy + 2) / 153;
    let d = (doy - (153 * mp + 2) / 5 + 1) as u32;
    let m = (if mp < 10 {
        mp + 3
    } else {
        mp - 9
    }) as u32;
    if m <= 2 {
        y += 1;
    }
    (y, m, d)
}

/// Append `v` left-padded with zeros to `w` digits.
fn push_padded(s: &mut String, v: u64, w: u64)
    requires
        w <= 4,
    ensures
        final(s)@ == old(s)@ + zpad(dec(v as nat), w as nat),
{
    let mut digits = String::new();
    push_dec(&mut digits, v);
    let n = digits_len(v);
    let mut k = w;
    let ghost target = zpad(dec(v as nat), w as nat);
    while k > n
        invariant
            n as nat == dec(v as nat).len(),
            k <= w,
            s@ + zpad(dec(v as nat), k as nat) == old(s)@ + target,
        decreases k,
    {
        string_push(s, '0');
        proof {
            assert(zpad(dec(v as nat), k as nat) == seq!['0'] + zpad(dec(v as nat), (k - 1) as nat));
        }
        assert(s@ + zpad(dec(v as nat), (k - 1) as nat) =~= old(s)@ + target);
        k = k - 1;
    }
    proof {
        assert(zpad(dec(v as nat), k as nat) == dec(v as nat));
    }
    crate::text::push_str(s, digits.as_str());
}

/// The number of decimal digits of `v`.
fn digits_len(v: u64) -> (n: u64)
    ensures
        n as nat == dec(v as nat).len(),
        n >= 1,
    decreases v,
{
    if v < 10 {
        1
    } else {
        let n = digits_len(v / 10);
        proof {
            assert(dec(v as nat) == dec((v / 10) as nat).push(crate::text::digit_char((v % 10) as nat)));
        }
        assert(n < 20) by {
            reveal_with_fuel(pow10, 20);
            assert(pow10(19) == 10_000_000_000_000_000_000);
            lemma_dec_len((v / 10) as nat, 19);
        }
        n + 1
    }
}

pub open spec fn pow10(k: nat) -> nat
    decreases k,
{
    if k == 0 {
        1
    } else {
        10 * pow10((k - 1) as nat)
    }
}

proof fn lemma_dec_len(v: nat, k: nat)
    requires
        k >= 1,
        v < pow10(k),
    ensures
        dec(v).len() <= k,
    decreases k,
{
    if v >= 10 {
        if k == 1 {
            assert(pow10(1) == 10 * pow10(0));
        }
        assert(pow10(k) == 10 * pow10((k - 1) as nat));
        assert(v / 10 < pow10((k - 1) as nat)) by (nonlinear_arith)
            requires
                v < 10 * pow10((k - 1) as nat),
        ;
        lemma_dec_len(v / 10, (k - 1) as nat);
    }
}

/// `YYYY-MM-DD<sep>HH:MM:SS` (UTC) for `secs` seconds since the Unix epoch.
pub fn format_stamp(secs: u64, sep: char) -> (s: String)
    ensures
        s@ == stamp_spec(secs as nat, sep),
{
    let days = (secs / 86400) as i64;
    let rem = secs % 86400;
    let hour = rem / 3600;
    let min = (rem % 3600) / 60;
    let sec = rem % 60;
    let (y, mo, d) = civil_from_days(days);
    let mut s = String::new();
    push_padded(&mut s, y as u64, 4);
    string_push(&mut s, '-');
    push_padded(&mut s, mo as u64, 2);
    string_push(&mut s, '-');
    push_padded(&mut s, d as u64, 2);
    string_push(&mut s, sep);
    push_padded(&mut s, hour, 2);
    string_push(&mut s, ':');
    push_padded(&mut s, min, 2);
    string_push(&mut s, ':');
    push_padded(&mut s, sec, 2);
    assert(s@ =~= stamp_spec(secs as nat, sep));
    s
}

/// `YYYY-MM-DD HH:MM:SS` (UTC) for `secs` seconds since the Unix epoch.
pub fn format_unix_secs(secs: u64) -> (s: String)
    ensures
        s@ == format_unix_secs_spec(secs as nat),
{
    format_stamp(secs, ' ')
}

pub open spec fn action_line_spec(
    action: Seq<char>,
    entry: Seq<char>,
    file: Seq<char>,
    size: nat,
    reason: Seq<char>,
) -> Seq<char> {
    action + seq![' '] + entry + seq![' '] + file + seq![' '] + dec(size) + seq![' '] + reason
}

pub open spec fn has_space(s: Seq<char>) -> bool {
    exists|k: int| 0 <= k < s.len() && s[k] == ' '
}

/// When no field holds a space, splitting an action line at spaces gives
/// back its five fields, the size written in decimal.
pub proof fn lemma_action_line_fields(
    action: Seq<char>,
    entry: Seq<char>,
    file: Seq<char>,
    size: nat,
    reason: Seq<char>,
)
    requires
        !has_space(action),
        !has_space(entry),
        !has_space(file),
        !has_space(reason),
    ensures
        crate::text::split_at(action_line_spec(action, entry, file, size, reason), ' ') == seq![
            action,
            entry,
            file,
            dec(size),
            reason,
        ],
{
    crate::manifest::lemma_dec_digits(size);
    let d = dec(size);
    assert forall|k: int| 0 <= k < d.len() implies d[k] != ' ' by {
        assert(crate::text::is_digit(d[k]));
    }
    let a1 = action;
    let a2 = a1 + seq![' '] + entry;
    let a3 = a2 + seq![' '] + file;
    let a4 = a3 + seq![' '] + d;
    let a5 = a4 + seq![' '] + reason;
    assert(a5 =~= action_line_spec(action, entry, file, size, reason));
    crate::text::lemma_split_single(a1, ' ');
    crate::text::lemma_split_then_piece(a1, ' ', entry);
    crate::text::lemma_split_then_piece(a2, ' ', file);
    crate::text::lemma_split_then_piece(a3, ' ', d);
    crate::text::lemma_split_then_piece(a4, ' ', reason);
    assert(seq![action].push(entry).push(file).push(d).push(reason) =~= seq![action, entry, file, d, reason]);
}

/// Build `<action> <entry> <file> <size> <reason>`. Callers pass
/// single-token fields; this only joins them.
pub fn action_line(action: &str, entry: &str, file: &str, size: u64, reason: &str) -> (s: String)
    ensures
        s@ == action_line_spec(action@, entry@, file@, size as nat, reason@),
{
    let mut s = String::new();
    push_str(&mut s, action);
    string_push(&mut s, ' ');
    push_str(&mut s, entry);
    string_push(&mut s, ' ');
    push_str(&mut s, file);
    string_push(&mut s, ' ');
    push_dec(&mut s, size);
    string_push(&mut s, ' ');
    push_str(&mut s, reason);
    assert(s@ =~= action_line_spec(action@, entry@, file@, size as nat, reason@));
    s
}

/// The text appended to the log for `line` at `secs`:
/// `<YYYY-MM-DD HH:MM:SS> exsync: <line>` and a newline.
pub fn log_record(secs: u64, line: &str) -> (s: String)
    ensures
        s@ == format_unix_secs_spec(secs as nat) + " exsync: "@ + line@ + seq!['\n'],
{
    let mut s = format_unix_secs(secs);
    push_str(&mut s, " exsync: ");
    push_str(&mut s, line);
    string_push(&mut s, '\n');
    s
}

pub open spec fn present(v: Option<Seq<char>>) -> bool {
    v matches Some(s) && s.len() > 0
}

/// Where the log lives: `EXSYNC_LOG` when set and not empty, otherwise
/// `Library/Logs/exsync.log` under a set, non-empty `HOME`; with neither
/// there is no log path.
pub open spec fn log_path_spec(exsync_log: Option<Seq<char>>, home: Option<Seq<char>>) -> Option<
    Seq<char>,
> {
    if present(exsync_log) {
        exsync_log
    } else if present(home) {
        Some(path_join(home->0, "Library/Logs/exsync.log"@))
    } else {
        None
    }
}

pub open spec fn opt_str(v: Option<&str>) -> Option<Seq<char>> {
    match v {
        Some(s) => Some(s@),
        None => None,
    }
}

/// Resolve the log file path from the values of `EXSYNC_LOG` and `HOME`.
pub fn resolve_log_path(exsync_log: Option<&str>, home: Option<&str>) -> (r: Option<String>)
    ensures
        match r {
            Some(p) => log_path_spec(opt_str(exsync_log), opt_str(home)) == Some(p@),
            None => log_path_spec(opt_str(exsync_log), opt_str(home)) is None,
        },
{
    if let Some(p) = exsync_log {
        if !p.is_empty() {
            return Some(p.to_owned());
        }
    }
    if let Some(h) = home {
        if !h.is_empty() {
            return Some(crate::paths::join_path(h, "Library/Logs/exsync.log"));
        }
    }
    None
}

} // verus!
