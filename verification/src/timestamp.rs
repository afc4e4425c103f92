//! Timestamps of the two line formats, for a count of nanoseconds since the Unix epoch.
use crate::calendar::{civil_date, lemma_civil_date_exists, lemma_civil_date_year};
use crate::text::digit;
use chrono::{DateTime, SecondsFormat, Utc};
use vstd::prelude::*;

verus! {

/// `n` below one hundred as two decimal digits.
pub open spec fn two_digits(n: int) -> Seq<char> {
    seq![digit(n / 10), digit(n % 10)]
}

/// `hh:mm:ss` for a second of the day.
pub open spec fn clock_text(second_of_day: int) -> Seq<char> {
    two_digits(second_of_day / 3600) + seq![':'] + two_digits(second_of_day / 60 % 60) + seq![':']
        + two_digits(second_of_day % 60)
}

/// `YYYY-MM-DDThh:mm:ss.ffffffZ` in UTC, for `secs` seconds and `nanos` nanoseconds after the
/// Unix epoch.
pub open spec fn rfc3339_text(secs: int, nanos: int) -> Seq<char> {
    let date = civil_date(secs / 86_400);
    let micros = nanos / 1000;
    two_digits(date.year / 100) + two_digits(date.year % 100) + seq!['-'] + two_digits(date.month)
        + seq!['-'] + two_digits(date.day) + seq!['T'] + clock_text(secs % 86_400) + seq!['.']
        + two_digits(micros / 10_000) + two_digits(micros / 100 % 100) + two_digits(micros % 100)
        + seq!['Z']
}

/// The English three-letter name of a month.
pub open spec fn month_name(month: int) -> Seq<char> {
    if month == 1 {
        seq!['J', 'a', 'n']
    } else if month == 2 {
        seq!['F', 'e', 'b']
    } else if month == 3 {
        seq!['M', 'a', 'r']
    } else if month == 4 {
        seq!['A', 'p', 'r']
    } else if month == 5 {
        seq!['M', 'a', 'y']
    } else if month == 6 {
        seq!['J', 'u', 'n']
    } else if month == 7 {
        seq!['J', 'u', 'l']
    } else if month == 8 {
        seq!['A', 'u', 'g']
    } else if month == 9 {
        seq!['S', 'e', 'p']
    } else if month == 10 {
        seq!['O', 'c', 't']
    } else if month == 11 {
        seq!['N', 'o', 'v']
    } else {
        seq!['D', 'e', 'c']
    }
}

/// `Mmm dd hh:mm:ss` in UTC, for `secs` seconds after the Unix epoch. A day below ten has a space
/// for its first digit.
pub open spec fn bsd_text(secs: int) -> Seq<char> {
    let date = civil_date(secs / 86_400);
    month_name(date.month) + seq![' '] + (if date.day < 10 {
        seq![' ', digit(date.day)]
    } else {
        two_digits(date.day)
    }) + seq![' '] + clock_text(secs % 86_400)
}

/// `DateTime::<Utc>::from_timestamp` of chrono, and `to_rfc3339_opts` of the instant it gives, with
/// microseconds and with `Z` for the offset. Up to the end of the year 9999 the seconds are in
/// range, so the instant is always there, and the text is its date and time in UTC, the
/// nanoseconds cut to whole microseconds.
#[verifier::external_body]
fn utc_rfc3339_micros(secs: i64, nsec: u32) -> (r: String)
    requires
        0 <= secs < 253_402_300_800,
        nsec < 1_000_000_000,
    ensures
        r@ == rfc3339_text(secs as int, nsec as int),
{
    DateTime::<Utc>::from_timestamp(secs, nsec).unwrap_or_default().to_rfc3339_opts(
        SecondsFormat::Micros,
        true,
    )
}

/// `DateTime::<Utc>::from_timestamp` of chrono, and `format` of the instant it gives. Up to the end
/// of the year 9999 the seconds are in range, so the instant is always there. The contract speaks
/// of one pattern: the English short name of the month, the day padded with a space, and hours,
/// minutes and seconds of two digits.
#[verifier::external_body]
fn utc_format(secs: i64, pattern: &str) -> (r: String)
    requires
        0 <= secs < 253_402_300_800,
        pattern@ == "%b %e %H:%M:%S"@,
    ensures
        r@ == bsd_text(secs as int),
{
    DateTime::<Utc>::from_timestamp(secs, 0).unwrap_or_default().format(pattern).to_string()
}

/// RFC 3339 (UTC, microseconds) for a unix-nanosecond timestamp.
pub fn rfc3339(ts_ns: u64) -> (r: String)
    ensures
        r@ == rfc3339_text(ts_ns as int / 1_000_000_000, ts_ns as int % 1_000_000_000),
{
    let secs: i64 = (ts_ns / 1_000_000_000) as i64;
    let nsec: u32 = (ts_ns % 1_000_000_000) as u32;
    utc_rfc3339_micros(secs, nsec)
}

/// BSD (RFC 3164) timestamp `Mmm dd hh:mm:ss` for a unix-nanosecond timestamp.
pub fn bsd_timestamp(ts_ns: u64) -> (r: String)
    ensures
        r@ == bsd_text(ts_ns as int / 1_000_000_000),
{
    let secs: i64 = (ts_ns / 1_000_000_000) as i64;
    utc_format(secs, "%b %e %H:%M:%S")
}

/// The timestamp of an RFC 5424 line has 27 characters, and white space is not among them.
#[verifier::spinoff_prover]
#[verifier::rlimit(50)]
pub proof fn law_rfc3339_is_one_word(secs: int, nanos: int)
    requires
        0 <= secs < 253_402_300_800,
        0 <= nanos < 1_000_000_000,
    ensures
        rfc3339_text(secs, nanos).len() == 27,
        forall|i: int|
            0 <= i < rfc3339_text(secs, nanos).len() ==> ' ' < #[trigger] rfc3339_text(
                secs,
                nanos,
            )[i] <= 'Z',
{
    lemma_civil_date_exists(secs / 86_400);
    lemma_civil_date_year(secs / 86_400);
}

/// The timestamp of an RFC 3164 line has 15 characters, and control characters are not among them.
#[verifier::spinoff_prover]
#[verifier::rlimit(50)]
pub proof fn law_bsd_is_one_line(secs: int)
    requires
        0 <= secs < 253_402_300_800,
    ensures
        bsd_text(secs).len() == 15,
        forall|i: int| 0 <= i < bsd_text(secs).len() ==> ' ' <= #[trigger] bsd_text(secs)[i] <= 'z',
{
    lemma_civil_date_exists(secs / 86_400);
}

proof fn lemma_two_digits_injective(a: int, b: int)
    requires
        0 <= a < 100,
        0 <= b < 100,
        digit(a / 10) == digit(b / 10),
        digit(a % 10) == digit(b % 10),
    ensures
        a == b,
{
}

proof fn lemma_clock_from_parts(clock: int)
    ensures
        clock == clock / 3600 * 3600 + clock / 60 % 60 * 60 + clock % 60,
{
}

proof fn lemma_micros_from_parts(micros: int)
    ensures
        micros == micros / 10_000 * 10_000 + micros / 100 % 100 * 100 + micros % 100,
{
}

/// The digits of a timestamp, at their places.
#[verifier::spinoff_prover]
#[verifier::rlimit(50)]
proof fn lemma_rfc3339_chars(secs: int, nanos: int)
    ensures
        ({
            let text = rfc3339_text(secs, nanos);
            let date = civil_date(secs / 86_400);
            let clock = secs % 86_400;
            let micros = nanos / 1000;
            &&& text[0] == digit(date.year / 100 / 10) && text[1] == digit(date.year / 100 % 10)
            &&& text[2] == digit(date.year % 100 / 10) && text[3] == digit(date.year % 100 % 10)
            &&& text[5] == digit(date.month / 10) && text[6] == digit(date.month % 10)
            &&& text[8] == digit(date.day / 10) && text[9] == digit(date.day % 10)
            &&& text[11] == digit(clock / 3600 / 10) && text[12] == digit(clock / 3600 % 10)
            &&& text[14] == digit(clock / 60 % 60 / 10) && text[15] == digit(clock / 60 % 60 % 10)
            &&& text[17] == digit(clock % 60 / 10) && text[18] == digit(clock % 60 % 10)
            &&& text[20] == digit(micros / 10_000 / 10) && text[21] == digit(micros / 10_000 % 10)
            &&& text[22] == digit(micros / 100 % 100 / 10)
            &&& text[23] == digit(micros / 100 % 100 % 10)
            &&& text[24] == digit(micros % 100 / 10) && text[25] == digit(micros % 100 % 10)
        }),
{
}

#[verifier::spinoff_prover]
#[verifier::rlimit(50)]
proof fn lemma_same_date(sa: int, na: int, sb: int, nb: int)
    requires
        0 <= sa < 253_402_300_800,
        0 <= sb < 253_402_300_800,
        rfc3339_text(sa, na) == rfc3339_text(sb, nb),
    ensures
        sa / 86_400 == sb / 86_400,
{
    let (da, db) = (civil_date(sa / 86_400), civil_date(sb / 86_400));
    lemma_civil_date_exists(sa / 86_400);
    lemma_civil_date_exists(sb / 86_400);
    lemma_civil_date_year(sa / 86_400);
    lemma_civil_date_year(sb / 86_400);
    lemma_rfc3339_chars(sa, na);
    lemma_rfc3339_chars(sb, nb);
    lemma_two_digits_injective(da.year / 100, db.year / 100);
    lemma_two_digits_injective(da.year % 100, db.year % 100);
    lemma_two_digits_injective(da.month, db.month);
    lemma_two_digits_injective(da.day, db.day);
    assert(da == db);
}

#[verifier::spinoff_prover]
#[verifier::rlimit(50)]
proof fn lemma_same_clock(sa: int, na: int, sb: int, nb: int)
    requires
        rfc3339_text(sa, na) == rfc3339_text(sb, nb),
    ensures
        sa % 86_400 == sb % 86_400,
{
    let (ca, cb) = (sa % 86_400, sb % 86_400);
    lemma_rfc3339_chars(sa, na);
    lemma_rfc3339_chars(sb, nb);
    lemma_two_digits_injective(ca / 3600, cb / 3600);
    lemma_two_digits_injective(ca / 60 % 60, cb / 60 % 60);
    lemma_two_digits_injective(ca % 60, cb % 60);
    lemma_clock_from_parts(ca);
    lemma_clock_from_parts(cb);
}

#[verifier::spinoff_prover]
#[verifier::rlimit(50)]
proof fn lemma_same_micros(sa: int, na: int, sb: int, nb: int)
    requires
        0 <= na < 1_000_000_000,
        0 <= nb < 1_000_000_000,
        rfc3339_text(sa, na) == rfc3339_text(sb, nb),
    ensures
        na / 1000 == nb / 1000,
{
    let (ma, mb) = (na / 1000, nb / 1000);
    lemma_rfc3339_chars(sa, na);
    lemma_rfc3339_chars(sb, nb);
    lemma_two_digits_injective(ma / 10_000, mb / 10_000);
    lemma_two_digits_injective(ma / 100 % 100, mb / 100 % 100);
    lemma_two_digits_injective(ma % 100, mb % 100);
    lemma_micros_from_parts(ma);
    lemma_micros_from_parts(mb);
}

/// Timestamps have the precision of a microsecond: two instants have the same timestamp exactly
/// when they lie in the same microsecond.
pub proof fn law_rfc3339_tells_microseconds_apart(a: u64, b: u64)
    ensures
        rfc3339_text(a as int / 1_000_000_000, a as int % 1_000_000_000) == rfc3339_text(
            b as int / 1_000_000_000,
            b as int % 1_000_000_000,
        ) <==> a / 1000 == b / 1000,
{
    let (sa, na) = (a as int / 1_000_000_000, a as int % 1_000_000_000);
    let (sb, nb) = (b as int / 1_000_000_000, b as int % 1_000_000_000);
    if a / 1000 == b / 1000 {
        assert(sa == sb);
        assert(na / 1000 == nb / 1000);
    }
    if rfc3339_text(sa, na) == rfc3339_text(sb, nb) {
        lemma_same_date(sa, na, sb, nb);
        lemma_same_clock(sa, na, sb, nb);
        lemma_same_micros(sa, na, sb, nb);
        assert(sa == sb);
    }
}

/// The number that two digits stand for.
spec fn read_two(tens: char, ones: char) -> int {
    (tens as int - 48) * 10 + (ones as int - 48)
}

#[verifier::spinoff_prover]
#[verifier::rlimit(50)]
proof fn lemma_two_digits_read(n: int)
    requires
        0 <= n < 100,
    ensures
        read_two(digit(n / 10), digit(n % 10)) == n,
        '0' <= digit(n / 10) <= '9',
        '0' <= digit(n % 10) <= '9',
{
}

#[verifier::spinoff_prover]
#[verifier::rlimit(50)]
proof fn lemma_rfc3339_marks(secs: int, nanos: int)
    ensures
        ({
            let text = rfc3339_text(secs, nanos);
            &&& text.len() == 27
            &&& text[4] == '-' && text[7] == '-' && text[10] == 'T' && text[13] == ':'
            &&& text[16] == ':' && text[19] == '.' && text[26] == 'Z'
        }),
{
}

/// The timestamp of an RFC 5424 line, read place by place: the date of the day, the hours, minutes
/// and seconds of the second of that day, and the whole microseconds.
#[verifier::spinoff_prover]
#[verifier::rlimit(50)]
pub proof fn law_rfc3339_places(secs: int, nanos: int)
    requires
        0 <= secs < 253_402_300_800,
        0 <= nanos < 1_000_000_000,
    ensures
        ({
            let t = rfc3339_text(secs, nanos).map_values(|c: char| c as int - 48);
            let text = rfc3339_text(secs, nanos);
            let date = civil_date(secs / 86_400);
            let (hour, minute, second) = (
                t[11] * 10 + t[12],
                t[14] * 10 + t[15],
                t[17] * 10 + t[18],
            );
            &&& text.len() == 27
            &&& text[4] == '-' && text[7] == '-' && text[10] == 'T' && text[13] == ':'
            &&& text[16] == ':' && text[19] == '.' && text[26] == 'Z'
            &&& forall|i: int|
                0 <= i < 26 && i != 4 && i != 7 && i != 10 && i != 13 && i != 16 && i != 19
                    ==> 0 <= #[trigger] t[i] <= 9
            &&& t[0] * 1000 + t[1] * 100 + t[2] * 10 + t[3] == date.year
            &&& t[5] * 10 + t[6] == date.month
            &&& t[8] * 10 + t[9] == date.day
            &&& 0 <= hour < 24 && 0 <= minute < 60 && 0 <= second < 60
            &&& hour * 3600 + minute * 60 + second == secs % 86_400
            &&& t[20] * 100_000 + t[21] * 10_000 + t[22] * 1000 + t[23] * 100 + t[24] * 10 + t[25]
                == nanos / 1000
        }),
{
    let text = rfc3339_text(secs, nanos);
    let date = civil_date(secs / 86_400);
    let clock = secs % 86_400;
    let micros = nanos / 1000;
    lemma_civil_date_exists(secs / 86_400);
    lemma_civil_date_year(secs / 86_400);
    lemma_rfc3339_chars(secs, nanos);
    lemma_rfc3339_marks(secs, nanos);
    lemma_two_digits_read(date.year / 100);
    lemma_two_digits_read(date.year % 100);
    lemma_two_digits_read(date.month);
    lemma_two_digits_read(date.day);
    lemma_two_digits_read(clock / 3600);
    lemma_two_digits_read(clock / 60 % 60);
    lemma_two_digits_read(clock % 60);
    lemma_two_digits_read(micros / 10_000);
    lemma_two_digits_read(micros / 100 % 100);
    lemma_two_digits_read(micros % 100);
    lemma_clock_from_parts(clock);
    lemma_micros_from_parts(micros);
}

/// The timestamp of an RFC 3164 line, read place by place: the month by its name, the day with a
/// space for a missing first digit, and the hours, minutes and seconds of the second of the day.
#[verifier::spinoff_prover]
#[verifier::rlimit(50)]
pub proof fn law_bsd_places(secs: int)
    requires
        0 <= secs < 253_402_300_800,
    ensures
        ({
            let text = bsd_text(secs);
            let t = bsd_text(secs).map_values(|c: char| c as int - 48);
            let date = civil_date(secs / 86_400);
            let names = seq![
                seq!['J', 'a', 'n'],
                seq!['F', 'e', 'b'],
                seq!['M', 'a', 'r'],
                seq!['A', 'p', 'r'],
                seq!['M', 'a', 'y'],
                seq!['J', 'u', 'n'],
                seq!['J', 'u', 'l'],
                seq!['A', 'u', 'g'],
                seq!['S', 'e', 'p'],
                seq!['O', 'c', 't'],
                seq!['N', 'o', 'v'],
                seq!['D', 'e', 'c'],
            ];
            let (hour, minute, second) = (t[7] * 10 + t[8], t[10] * 10 + t[11], t[13] * 10 + t[14]);
            &&& text.len() == 15
            &&& 1 <= date.month <= 12
            &&& text[0] == names[date.month - 1][0] && text[1] == names[date.month - 1][1]
            &&& text[2] == names[date.month - 1][2]
            &&& text[3] == ' ' && text[6] == ' ' && text[9] == ':' && text[12] == ':'
            &&& date.day < 10 ==> text[4] == ' ' && t[5] == date.day
            &&& date.day >= 10 ==> 0 <= t[4] <= 9 && 0 <= t[5] <= 9 && t[4] * 10 + t[5] == date.day
            &&& 0 <= t[7] <= 9 && 0 <= t[8] <= 9 && 0 <= t[10] <= 9 && 0 <= t[11] <= 9
            &&& 0 <= t[13] <= 9 && 0 <= t[14] <= 9
            &&& 0 <= hour < 24 && 0 <= minute < 60 && 0 <= second < 60
            &&& hour * 3600 + minute * 60 + second == secs % 86_400
        }),
{
    let text = bsd_text(secs);
    let date = civil_date(secs / 86_400);
    let clock = secs % 86_400;
    lemma_civil_date_exists(secs / 86_400);
    lemma_two_digits_read(date.day);
    lemma_two_digits_read(clock / 3600);
    lemma_two_digits_read(clock / 60 % 60);
    lemma_two_digits_read(clock % 60);
    lemma_clock_from_parts(clock);
    assert(text[7] == digit(clock / 3600 / 10) && text[8] == digit(clock / 3600 % 10));
    assert(text[10] == digit(clock / 60 % 60 / 10) && text[11] == digit(clock / 60 % 60 % 10));
    assert(text[13] == digit(clock % 60 / 10) && text[14] == digit(clock % 60 % 10));
}

} // verus!
