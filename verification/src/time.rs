//! Instants and the calendar.
//!
//! An instant is a count of seconds since `1970-01-01T00:00:00Z`, held in an
//! `i128` so that reconstruction arithmetic is total. Calendar conversions use
//! the proleptic Gregorian calendar; day numbers are computed with the usual
//! era decomposition (400-year cycles of 146097 days).

use vstd::arithmetic::div_mod::{
    lemma_fundamental_div_mod, lemma_fundamental_div_mod_converse, lemma_mod_bound,
};
use vstd::prelude::*;

use crate::error::EntsoeError;
use crate::text::{
    four_digit_value, four_digits_at, is_digit_char, read_four_digits, read_two_digits,
    two_digit_value, two_digits_at,
};

verus! {

/// Every parsed period start lies strictly within this many seconds of the
/// epoch (the four-digit year keeps dates between the years 0 and 9999).
pub const PARSED_SECONDS_BOUND: i128 = 400_000_000_000;

/// An absolute instant: seconds since `1970-01-01T00:00:00Z`.
#[derive(Clone, Copy, Debug, PartialEq, Eq, Structural)]
pub struct Timestamp {
    pub seconds: i128,
}

/// Euclidean quotient of `a` by a positive divisor, as the mathematical `/`.
fn div_eu(a: i128, b: i128) -> (q: i128)
    requires
        1 <= b,
    ensures
        q == a as int / b as int,
{
    proof {
        let qi = a as int / b as int;
        let ri = a as int % b as int;
        lemma_fundamental_div_mod(a as int, b as int);
        lemma_mod_bound(a as int, b as int);
        assert(b * qi == a - ri);
        assert(qi <= 0x7fff_ffff_ffff_ffff_ffff_ffff_ffff_ffff) by (nonlinear_arith)
            requires
                1 <= b,
                b * qi == a - ri,
                0 <= ri,
                a <= 0x7fff_ffff_ffff_ffff_ffff_ffff_ffff_ffff,
        ;
        assert(qi >= -0x8000_0000_0000_0000_0000_0000_0000_0000) by (nonlinear_arith)
            requires
                1 <= b,
                b * qi == a - ri,
                0 <= ri < b,
                a >= -0x8000_0000_0000_0000_0000_0000_0000_0000,
        ;
        assert(i128::MIN <= qi <= i128::MAX);
    }
    a.checked_div_euclid(b).unwrap()
}

/// Euclidean remainder of `a` by a positive divisor, as the mathematical `%`.
fn rem_eu(a: i128, b: i128) -> (r: i128)
    requires
        1 <= b,
    ensures
        r == a as int % b as int,
        0 <= r < b,
{
    proof {
        lemma_mod_bound(a as int, b as int);
    }
    a.checked_rem_euclid(b).unwrap()
}

/// Is `y` a leap year of the proleptic Gregorian calendar?
pub open spec fn is_leap_year(y: int) -> bool {
    y % 4 == 0 && (y % 100 != 0 || y % 400 == 0)
}

/// The number of days of month `m` of year `y`.
pub open spec fn days_in_month(y: int, m: int) -> int {
    if m == 2 {
        if is_leap_year(y) {
            29
        } else {
            28
        }
    } else if m == 4 || m == 6 || m == 9 || m == 11 {
        30
    } else {
        31
    }
}

/// The day number (days since 1970-01-01) of the calendar date `y-m-d`.
pub open spec fn day_number_of_date(y: int, m: int, d: int) -> int {
    let yy = if m <= 2 {
        y - 1
    } else {
        y
    };
    let era = yy / 400;
    let yoe = yy - era * 400;
    let mp = if m > 2 {
        m - 3
    } else {
        m + 9
    };
    let doy = (153 * mp + 2) / 5 + d - 1;
    let doe = yoe * 365 + yoe / 4 - yoe / 100 + doy;
    era * 146097 + doe - 719468
}

/// The calendar date `(year, month, day)` holding day number `z`.
pub open spec fn civil_of_day(z: int) -> (int, int, int) {
    let za = z + 719468;
    let era = za / 146097;
    let doe = za - era * 146097;
    let yoe = (doe - doe / 1460 + doe / 36524 - doe / 146096) / 365;
    let y = yoe + era * 400;
    let doy = doe - (365 * yoe + yoe / 4 - yoe / 100);
    let mp = (5 * doy + 2) / 153;
    let d = doy - (153 * mp + 2) / 5 + 1;
    let m = if mp < 10 {
        mp + 3
    } else {
        mp - 9
    };
    (
        if m <= 2 {
            y + 1
        } else {
            y
        },
        m,
        d,
    )
}

/// Seconds since the epoch of the instant `y-mo-d h:mi:s` at the given UTC
/// offset.
pub open spec fn epoch_seconds_of(
    y: int,
    mo: int,
    d: int,
    h: int,
    mi: int,
    s: int,
    offset_seconds: int,
) -> int {
    day_number_of_date(y, mo, d) * 86400 + h * 3600 + mi * 60 + s - offset_seconds
}

impl Timestamp {
    /// The day number holding this instant.
    pub open spec fn day_number(self) -> int {
        self.seconds as int / 86400
    }

    /// Seconds elapsed since the midnight opening this instant's day.
    pub open spec fn second_of_day(self) -> int {
        self.seconds as int % 86400
    }

    /// The hour of day (UTC), 0 to 23.
    pub open spec fn hour_of_day(self) -> int {
        self.second_of_day() / 3600
    }

    /// The calendar date `(year, month, day)` of this instant, UTC.
    pub open spec fn civil_date(self) -> (int, int, int) {
        civil_of_day(self.day_number())
    }

    /// The hour of day (UTC).
    pub fn hour(&self) -> (h: u32)
        ensures
            h == self.hour_of_day(),
            h <= 23,
    {
        let sod = rem_eu(self.seconds, 86400);
        let h = div_eu(sod, 3600);
        proof {
            lemma_fundamental_div_mod(sod as int, 3600);
            lemma_mod_bound(sod as int, 3600);
        }
        h as u32
    }

    /// The calendar year of this instant (UTC).
    pub fn year(&self) -> (y: i128)
        ensures
            y == self.civil_date().0,
    {
        let (y, _, _) = self.civil_fields();
        y
    }

    /// The calendar month of this instant (UTC).
    pub fn month(&self) -> (m: i128)
        ensures
            m == self.civil_date().1,
    {
        let (_, m, _) = self.civil_fields();
        m
    }

    /// The calendar day of month of this instant (UTC).
    pub fn day(&self) -> (d: i128)
        ensures
            d == self.civil_date().2,
    {
        let (_, _, d) = self.civil_fields();
        d
    }

    /// The calendar date of this instant, computed as `civil_of_day` says.
    pub fn civil_fields(&self) -> (r: (i128, i128, i128))
        ensures
            r.0 == self.civil_date().0,
            r.1 == self.civil_date().1,
            r.2 == self.civil_date().2,
    {
        let day = div_eu(self.seconds, 86400);
        proof {
            let r = self.seconds as int % 86400;
            lemma_fundamental_div_mod(self.seconds as int, 86400);
            lemma_mod_bound(self.seconds as int, 86400);
            assert(-10_000_000_000_000_000_000_000_000_000_000_000 <= day
                <= 10_000_000_000_000_000_000_000_000_000_000_000) by (nonlinear_arith)
                requires
                    86400 * (day as int) == self.seconds - r,
                    0 <= r < 86400,
                    -0x8000_0000_0000_0000_0000_0000_0000_0000 <= self.seconds
                        <= 0x7fff_ffff_ffff_ffff_ffff_ffff_ffff_ffff,
            ;
        }
        civil_from_day(day)
    }
}

/// The calendar date holding day number `z`, as `civil_of_day` says.
fn civil_from_day(z: i128) -> (r: (i128, i128, i128))
    requires
        -10_000_000_000_000_000_000_000_000_000_000_000 <= z
            <= 10_000_000_000_000_000_000_000_000_000_000_000,
    ensures
        r.0 == civil_of_day(z as int).0,
        r.1 == civil_of_day(z as int).1,
        r.2 == civil_of_day(z as int).2,
{
    let za = z + 719468;
    let era = div_eu(za, 146097);
    let rem = rem_eu(za, 146097);
    proof {
        lemma_fundamental_div_mod(za as int, 146097);
        assert(rem == za - era * 146097);
    }
    let doe = rem;
    let doe_p1 = div_eu(doe, 1460);
    let doe_p2 = div_eu(doe, 36524);
    let doe_p3 = div_eu(doe, 146096);
    proof {
        lemma_fundamental_div_mod(doe as int, 1460);
        lemma_mod_bound(doe as int, 1460);
        lemma_fundamental_div_mod(doe as int, 36524);
        lemma_mod_bound(doe as int, 36524);
        lemma_fundamental_div_mod(doe as int, 146096);
        lemma_mod_bound(doe as int, 146096);
    }
    let yoe = div_eu(doe - doe_p1 + doe_p2 - doe_p3, 365);
    proof {
        lemma_fundamental_div_mod((doe - doe_p1 + doe_p2 - doe_p3) as int, 365);
        lemma_mod_bound((doe - doe_p1 + doe_p2 - doe_p3) as int, 365);
    }
    let yoe_p1 = div_eu(yoe, 4);
    let yoe_p2 = div_eu(yoe, 100);
    proof {
        lemma_fundamental_div_mod(yoe as int, 4);
        lemma_mod_bound(yoe as int, 4);
        lemma_fundamental_div_mod(yoe as int, 100);
        lemma_mod_bound(yoe as int, 100);
    }
    let doy = doe - (365 * yoe + yoe_p1 - yoe_p2);
    let mp = div_eu(5 * doy + 2, 153);
    proof {
        lemma_fundamental_div_mod((5 * doy + 2) as int, 153);
        lemma_mod_bound((5 * doy + 2) as int, 153);
    }
    let mp_scaled = div_eu(153 * mp + 2, 5);
    proof {
        lemma_fundamental_div_mod((153 * mp + 2) as int, 5);
        lemma_mod_bound((153 * mp + 2) as int, 5);
    }
    let d = doy - mp_scaled + 1;
    let m = if mp < 10 {
        mp + 3
    } else {
        mp - 9
    };
    let y = if m <= 2 {
        yoe + era * 400 + 1
    } else {
        yoe + era * 400
    };
    (y, m, d)
}

/// The day number of a date with a four-digit year, as `day_number_of_date`
/// says.
fn day_number_from_date(y: u32, m: u32, d: u32) -> (r: i64)
    requires
        y <= 9999,
        1 <= m <= 12,
        1 <= d <= 31,
    ensures
        r == day_number_of_date(y as int, m as int, d as int),
        -1_000_000 <= r <= 4_000_000,
{
    let yy: i64 = if m <= 2 {
        y as i64 - 1
    } else {
        y as i64
    };
    let era: i64 = if yy >= 0 {
        ((yy as u64) / 400) as i64
    } else {
        proof {
            lemma_fundamental_div_mod_converse(yy as int, 400, -1, (yy + 400) as int);
        }
        -1
    };
    proof {
        lemma_fundamental_div_mod(yy as int, 400);
        lemma_mod_bound(yy as int, 400);
    }
    let yoe: i64 = yy - era * 400;
    let mp: i64 = if m > 2 {
        m as i64 - 3
    } else {
        m as i64 + 9
    };
    let doy: i64 = ((153 * mp + 2) as u64 / 5) as i64 + d as i64 - 1;
    proof {
        lemma_fundamental_div_mod((153 * mp + 2) as int, 5);
        lemma_mod_bound((153 * mp + 2) as int, 5);
    }
    let doe: i64 = yoe * 365 + ((yoe as u64) / 4) as i64 - ((yoe as u64) / 100) as i64 + doy;
    proof {
        lemma_fundamental_div_mod(yoe as int, 4);
        lemma_mod_bound(yoe as int, 4);
        lemma_fundamental_div_mod(yoe as int, 100);
        lemma_mod_bound(yoe as int, 100);
    }
    era * 146097 + doe - 719468
}

/// The date-and-time separator: `T` in either case, or a space.
pub open spec fn is_date_time_separator(c: char) -> bool {
    c == 'T' || c == 't' || c == ' '
}

/// The UTC marker, in either case.
pub open spec fn is_zulu_marker(c: char) -> bool {
    c == 'Z' || c == 'z'
}

/// A sign opening a numeric offset: plus, hyphen-minus, or the typographic
/// minus sign.
pub open spec fn is_offset_sign(c: char) -> bool {
    c == '+' || c == '-' || c == '\u{2212}'
}

/// Does an offset sign read as negative?
pub open spec fn is_negative_sign(c: char) -> bool {
    c == '-' || c == '\u{2212}'
}

/// The sixteen-character date-time core `YYYY-MM-DD?HH:MM` with in-range
/// fields.
pub open spec fn date_time_core_ok(s: Seq<char>) -> bool {
    &&& s.len() >= 16
    &&& four_digits_at(s, 0)
    &&& s[4] == '-'
    &&& two_digits_at(s, 5)
    &&& s[7] == '-'
    &&& two_digits_at(s, 8)
    &&& is_date_time_separator(s[10])
    &&& two_digits_at(s, 11)
    &&& s[13] == ':'
    &&& two_digits_at(s, 14)
    &&& 1 <= two_digit_value(s, 5) <= 12
    &&& 1 <= two_digit_value(s, 8) <= days_in_month(four_digit_value(s, 0), two_digit_value(s, 5))
    &&& two_digit_value(s, 11) <= 23
    &&& two_digit_value(s, 14) <= 59
}

/// The first position at or past `i` not holding an ASCII digit (or the end
/// of the sequence).
pub open spec fn digits_end(s: Seq<char>, i: int) -> int
    decreases s.len() - i,
{
    if i < s.len() && is_digit_char(s[i]) {
        digits_end(s, i + 1)
    } else {
        i
    }
}

/// Where the zone of a full timestamp begins: right after the seconds field,
/// or past the optional fraction (a dot and its digits).
pub open spec fn zone_index(s: Seq<char>) -> int {
    if s.len() > 19 && s[19] == '.' {
        digits_end(s, 20)
    } else {
        19
    }
}

/// The zone closing a full timestamp: either the UTC marker as the last
/// character, or a signed `HH:MM` offset, minutes at most 59 and the whole
/// offset under one day.
pub open spec fn valid_zone(s: Seq<char>, z: int) -> bool {
    ||| (z == s.len() - 1 && is_zulu_marker(s[z]))
    ||| (z == s.len() - 6 && is_offset_sign(s[z]) && two_digits_at(s, z + 1) && s[z + 3] == ':'
        && two_digits_at(s, z + 4) && two_digit_value(s, z + 4) <= 59 && two_digit_value(s, z + 1)
        * 3600 + two_digit_value(s, z + 4) * 60 < 86400)
}

/// A well-formed full timestamp: the date-time core, a seconds field that may
/// read 60 (a leap second), an optional fraction of a second, and a zone.
pub open spec fn valid_rfc3339(s: Seq<char>) -> bool {
    &&& s.len() >= 19
    &&& date_time_core_ok(s)
    &&& s[16] == ':'
    &&& two_digits_at(s, 17)
    &&& two_digit_value(s, 17) <= 60
    &&& (s.len() > 19 && s[19] == '.' ==> digits_end(s, 20) > 20)
    &&& valid_zone(s, zone_index(s))
}

/// The seconds field of a valid full timestamp; the leap value 60 lands on
/// the same whole second as 59.
pub open spec fn rfc_second_field(s: Seq<char>) -> int {
    if two_digit_value(s, 17) == 60 {
        59
    } else {
        two_digit_value(s, 17)
    }
}

/// The UTC offset, in seconds, of a valid full timestamp.
pub open spec fn rfc_offset_seconds(s: Seq<char>) -> int {
    let z = zone_index(s);
    if is_zulu_marker(s[z]) {
        0
    } else {
        let mag = two_digit_value(s, z + 1) * 3600 + two_digit_value(s, z + 4) * 60;
        if is_negative_sign(s[z]) {
            -mag
        } else {
            mag
        }
    }
}

/// The instant a valid full timestamp denotes, in epoch seconds; the fraction
/// of a second, if any, is below the whole-second model and is dropped.
pub open spec fn rfc_seconds(s: Seq<char>) -> int {
    epoch_seconds_of(
        four_digit_value(s, 0),
        two_digit_value(s, 5),
        two_digit_value(s, 8),
        two_digit_value(s, 11),
        two_digit_value(s, 14),
        rfc_second_field(s),
        rfc_offset_seconds(s),
    )
}

/// Is `s` the compact form: exactly seventeen characters closing with the
/// uppercase UTC marker? Such a string omits the seconds field.
pub open spec fn is_compact_form(s: Seq<char>) -> bool {
    s.len() == 17 && s[16] == 'Z'
}

/// The compact form with `:00` inserted before the UTC marker: its seconds
/// are implicitly zero.
pub open spec fn normalized_compact(s: Seq<char>) -> Seq<char> {
    s.take(16) + seq![':', '0', '0', 'Z']
}

/// A well-formed period-start string: the compact form is read with its
/// seconds as zero; any other string must be a well-formed full timestamp.
pub open spec fn valid_timestamp(s: Seq<char>) -> bool {
    if is_compact_form(s) {
        valid_rfc3339(normalized_compact(s))
    } else {
        valid_rfc3339(s)
    }
}

/// The instant a well-formed period-start string denotes, in epoch seconds.
pub open spec fn timestamp_seconds(s: Seq<char>) -> int {
    if is_compact_form(s) {
        rfc_seconds(normalized_compact(s))
    } else {
        rfc_seconds(s)
    }
}

proof fn lemma_normalized_compact_chars(s: Seq<char>)
    requires
        s.len() == 17,
    ensures
        normalized_compact(s).len() == 20,
        forall|i: int| 0 <= i < 16 ==> #[trigger] normalized_compact(s)[i] == s[i],
        normalized_compact(s)[16] == ':',
        normalized_compact(s)[17] == '0',
        normalized_compact(s)[18] == '0',
        normalized_compact(s)[19] == 'Z',
{
}

/// Read and range-check the sixteen-character date-time core; the fields in
/// order are year, month, day, hour, minute.
fn read_date_time_core(s: &str) -> (r: Option<(u32, u32, u32, u32, u32)>)
    requires
        16 <= s@.len() <= usize::MAX,
    ensures
        r is Some <==> date_time_core_ok(s@),
        r matches Some(f) ==> {
            &&& f.0 == four_digit_value(s@, 0) && f.0 <= 9999
            &&& f.1 == two_digit_value(s@, 5) && 1 <= f.1 <= 12
            &&& f.2 == two_digit_value(s@, 8) && 1 <= f.2 <= 31
            &&& f.3 == two_digit_value(s@, 11) && f.3 <= 23
            &&& f.4 == two_digit_value(s@, 14) && f.4 <= 59
        },
{
    let sep = s.get_char(10);
    if s.get_char(4) != '-' || s.get_char(7) != '-' || (sep != 'T' && sep != 't' && sep != ' ')
        || s.get_char(13) != ':' {
        return None;
    }
    let y = match read_four_digits(s, 0) {
        Some(v) => v,
        None => {
            return None;
        },
    };
    let mo = match read_two_digits(s, 5) {
        Some(v) => v,
        None => {
            return None;
        },
    };
    let d = match read_two_digits(s, 8) {
        Some(v) => v,
        None => {
            return None;
        },
    };
    let h = match read_two_digits(s, 11) {
        Some(v) => v,
        None => {
            return None;
        },
    };
    let mi = match read_two_digits(s, 14) {
        Some(v) => v,
        None => {
            return None;
        },
    };
    if mo < 1 || mo > 12 {
        return None;
    }
    let dim = days_in_month_of(y, mo);
    if d < 1 || d > dim || h > 23 || mi > 59 {
        return None;
    }
    Some((y, mo, d, h, mi))
}

/// Parse a period-start string into an instant.
///
/// The compact form (seventeen characters, no seconds field, closing with the
/// UTC marker) reads its seconds as zero. Anything else must be a full
/// timestamp: `YYYY-MM-DD?HH:MM:SS`, an optional fraction of a second
/// (dropped by the whole-second model), and either the UTC marker or a
/// signed `HH:MM` offset; the seconds field may read 60, a leap second
/// landing on the same whole second as 59.
pub fn parse_timestamp(timestamp: &str) -> (r: Result<Timestamp, EntsoeError>)
    ensures
        r is Ok <==> valid_timestamp(timestamp@),
        r is Ok ==> r->Ok_0.seconds == timestamp_seconds(timestamp@),
        r is Ok ==> -PARSED_SECONDS_BOUND < r->Ok_0.seconds < PARSED_SECONDS_BOUND,
        r is Err ==> (r->Err_0 matches EntsoeError::InvalidTimestamp(m) && m@ == timestamp@),
{
    let n = timestamp.unicode_len();
    if n == 17 && timestamp.get_char(16) == 'Z' {
        let ghost norm = normalized_compact(timestamp@);
        proof {
            lemma_normalized_compact_chars(timestamp@);
            assert(date_time_core_ok(norm) == date_time_core_ok(timestamp@));
        }
        let core = match read_date_time_core(timestamp) {
            Some(f) => f,
            None => {
                return Err(EntsoeError::InvalidTimestamp(timestamp.to_owned()));
            },
        };
        proof {
            assert(two_digits_at(norm, 17));
            assert(two_digit_value(norm, 17) == 0);
            assert(zone_index(norm) == 19);
            assert(valid_zone(norm, 19));
            assert(valid_rfc3339(norm));
            assert(rfc_second_field(norm) == 0);
            assert(rfc_offset_seconds(norm) == 0);
        }
        let days = day_number_from_date(core.0, core.1, core.2);
        let secs: i64 = days * 86400 + (core.3 as i64) * 3600 + (core.4 as i64) * 60;
        proof {
            assert(four_digit_value(norm, 0) == four_digit_value(timestamp@, 0));
            assert(rfc_seconds(norm) == secs as int);
        }
        return Ok(Timestamp { seconds: secs as i128 });
    }
    if n < 20 {
        return Err(EntsoeError::InvalidTimestamp(timestamp.to_owned()));
    }
    let core = match read_date_time_core(timestamp) {
        Some(f) => f,
        None => {
            return Err(EntsoeError::InvalidTimestamp(timestamp.to_owned()));
        },
    };
    if timestamp.get_char(16) != ':' {
        return Err(EntsoeError::InvalidTimestamp(timestamp.to_owned()));
    }
    let sec_raw = match read_two_digits(timestamp, 17) {
        Some(v) => v,
        None => {
            return Err(EntsoeError::InvalidTimestamp(timestamp.to_owned()));
        },
    };
    if sec_raw > 60 {
        return Err(EntsoeError::InvalidTimestamp(timestamp.to_owned()));
    }
    let mut z: usize = 19;
    if timestamp.get_char(19) == '.' {
        z = 20;
        while z < n
            invariant_except_break
                20 <= z <= n,
                n == timestamp@.len(),
                digits_end(timestamp@, 20) == digits_end(timestamp@, z as int),
            ensures
                20 <= z <= n,
                n == timestamp@.len(),
                digits_end(timestamp@, 20) == z,
            decreases n - z,
        {
            let c = timestamp.get_char(z) as u32;
            if c < 48 || c > 57 {
                proof {
                    assert(digits_end(timestamp@, z as int) == z);
                }
                break;
            }
            proof {
                assert(digits_end(timestamp@, z as int) == digits_end(timestamp@, z + 1));
            }
            z += 1;
        }
        if z == 20 {
            return Err(EntsoeError::InvalidTimestamp(timestamp.to_owned()));
        }
    }
    proof {
        assert(zone_index(timestamp@) == z);
    }
    let offset: i64;
    if n - z == 1 {
        let zc = timestamp.get_char(z);
        if !(zc == 'Z' || zc == 'z') {
            return Err(EntsoeError::InvalidTimestamp(timestamp.to_owned()));
        }
        offset = 0;
    } else if n - z == 6 {
        let sign = timestamp.get_char(z);
        if sign != '+' && sign != '-' && sign != '\u{2212}' {
            return Err(EntsoeError::InvalidTimestamp(timestamp.to_owned()));
        }
        if timestamp.get_char(z + 3) != ':' {
            return Err(EntsoeError::InvalidTimestamp(timestamp.to_owned()));
        }
        let oh = match read_two_digits(timestamp, z + 1) {
            Some(v) => v,
            None => {
                return Err(EntsoeError::InvalidTimestamp(timestamp.to_owned()));
            },
        };
        let om = match read_two_digits(timestamp, z + 4) {
            Some(v) => v,
            None => {
                return Err(EntsoeError::InvalidTimestamp(timestamp.to_owned()));
            },
        };
        if om > 59 || oh * 3600 + om * 60 >= 86400 {
            return Err(EntsoeError::InvalidTimestamp(timestamp.to_owned()));
        }
        let mag = (oh * 3600 + om * 60) as i64;
        offset = if sign == '+' {
            mag
        } else {
            -mag
        };
    } else {
        return Err(EntsoeError::InvalidTimestamp(timestamp.to_owned()));
    }
    let sec_eff: u32 = if sec_raw == 60 {
        59
    } else {
        sec_raw
    };
    let days = day_number_from_date(core.0, core.1, core.2);
    let secs: i64 = days * 86400 + (core.3 as i64) * 3600 + (core.4 as i64) * 60 + sec_eff as i64
        - offset;
    Ok(Timestamp { seconds: secs as i128 })
}

/// The number of days of month `m` of year `y`, as `days_in_month` says.
fn days_in_month_of(y: u32, m: u32) -> (r: u32)
    requires
        1 <= m <= 12,
    ensures
        r == days_in_month(y as int, m as int),
        28 <= r <= 31,
{
    if m == 2 {
        if y % 4 == 0 && (y % 100 != 0 || y % 400 == 0) {
            29
        } else {
            28
        }
    } else if m == 4 || m == 6 || m == 9 || m == 11 {
        30
    } else {
        31
    }
}

} // verus!
