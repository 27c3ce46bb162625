//! HTTP date parsing: the three date formats of RFC 7231 section 7.1.1.1
//! (IMF-fixdate, RFC 850, asctime), the RFC 3339 profile, and tolerant plain
//! numeric seconds. Every format yields seconds since the Unix epoch;
//! anything else yields nothing.
use vstd::prelude::*;

verus! {

use vstd::string::*;
use crate::text::{
    eq_ci,
    find_char,
    find_from,
    is_digit,
    is_digit_ch,
    parse_dec,
    parse_dec_str,
    str_eq_ci,
    trim_str,
    trimmed,
};

/// Two decimal digits at `i`.
pub open spec fn digits2(t: Seq<char>, i: int) -> bool {
    is_digit(t[i]) && is_digit(t[i + 1])
}

/// Their value.
pub open spec fn val2(t: Seq<char>, i: int) -> int {
    (t[i] as int - 48) * 10 + (t[i + 1] as int - 48)
}

/// Four decimal digits at `i`.
pub open spec fn digits4(t: Seq<char>, i: int) -> bool {
    is_digit(t[i]) && is_digit(t[i + 1]) && is_digit(t[i + 2]) && is_digit(t[i + 3])
}

/// Their value.
pub open spec fn val4(t: Seq<char>, i: int) -> int {
    ((t[i] as int - 48) * 10 + (t[i + 1] as int - 48)) * 100 + val2(t, i + 2)
}

/// The month named by three characters, or zero.
pub open spec fn month_num(m: Seq<char>) -> int {
    if eq_ci(m, "Jan"@) {
        1
    } else if eq_ci(m, "Feb"@) {
        2
    } else if eq_ci(m, "Mar"@) {
        3
    } else if eq_ci(m, "Apr"@) {
        4
    } else if eq_ci(m, "May"@) {
        5
    } else if eq_ci(m, "Jun"@) {
        6
    } else if eq_ci(m, "Jul"@) {
        7
    } else if eq_ci(m, "Aug"@) {
        8
    } else if eq_ci(m, "Sep"@) {
        9
    } else if eq_ci(m, "Oct"@) {
        10
    } else if eq_ci(m, "Nov"@) {
        11
    } else if eq_ci(m, "Dec"@) {
        12
    } else {
        0
    }
}

/// Days between 1970-01-01 and the given civil date, for years one and up.
pub open spec fn days_from_civil(y: int, m: int, d: int) -> int {
    let yy = if m <= 2 {
        y - 1
    } else {
        y
    };
    let era = yy / 400;
    let yoe = yy % 400;
    let mp = (m + 9) % 12;
    let doy = (153 * mp + 2) / 5 + d - 1;
    let doe = yoe * 365 + yoe / 4 - yoe / 100 + doy;
    era * 146097 + doe - 719468
}

/// Seconds since the epoch of a civil date and time of day.
pub open spec fn civil_secs(y: int, m: int, d: int, h: int, mi: int, s: int) -> int {
    days_from_civil(y, m, d) * 86400 + h * 3600 + mi * 60 + s
}

pub open spec fn time_fields_ok(h: int, mi: int, s: int) -> bool {
    0 <= h <= 23 && 0 <= mi <= 59 && 0 <= s <= 60
}

/// IMF-fixdate: `Sun, 06 Nov 1994 08:49:37 GMT`. The week-day name is not
/// checked.
pub open spec fn parse_imf(t: Seq<char>) -> Option<int> {
    if t.len() == 29 && t[3] == ',' && t[4] == ' ' && digits2(t, 5) && t[7] == ' ' && month_num(
        t.subrange(8, 11),
    ) >= 1 && t[11] == ' ' && digits4(t, 12) && t[16] == ' ' && digits2(t, 17) && t[19] == ':'
        && digits2(t, 20) && t[22] == ':' && digits2(t, 23) && t[25] == ' ' && eq_ci(
        t.subrange(26, 29),
        "GMT"@,
    ) && 1 <= val2(t, 5) <= 31 && 1 <= val4(t, 12) && time_fields_ok(
        val2(t, 17),
        val2(t, 20),
        val2(t, 23),
    ) {
        Some(
            civil_secs(
                val4(t, 12),
                month_num(t.subrange(8, 11)),
                val2(t, 5),
                val2(t, 17),
                val2(t, 20),
                val2(t, 23),
            ),
        )
    } else {
        None
    }
}

/// First index at or after `i` that holds no digit.
pub open spec fn skip_digits(s: Seq<char>, i: int) -> int
    decreases s.len() - i,
{
    if i >= s.len() {
        s.len() as int
    } else if !is_digit(s[i]) {
        i
    } else {
        skip_digits(s, i + 1)
    }
}

/// The seconds that an RFC 3339 suffix adds or removes: nothing or `Z` for
/// UTC, or a `+hh:mm` / `-hh:mm` offset.
pub open spec fn zone_offset(z: Seq<char>) -> Option<int> {
    if z.len() == 0 {
        Some(0)
    } else if z.len() == 1 && (z[0] == 'Z' || z[0] == 'z') {
        Some(0)
    } else if z.len() == 6 && (z[0] == '+' || z[0] == '-') && digits2(z, 1) && z[3] == ':'
        && digits2(z, 4) && val2(z, 1) <= 23 && val2(z, 4) <= 59 {
        if z[0] == '+' {
            Some(val2(z, 1) * 3600 + val2(z, 4) * 60)
        } else {
            Some(-(val2(z, 1) * 3600 + val2(z, 4) * 60))
        }
    } else {
        None
    }
}

/// RFC 3339: `1994-11-06T08:49:37`, then an optional fraction of a second,
/// then the zone.
pub open spec fn parse_rfc3339(t: Seq<char>) -> Option<int> {
    if t.len() >= 19 && digits4(t, 0) && t[4] == '-' && digits2(t, 5) && t[7] == '-' && digits2(
        t,
        8,
    ) && t[10] == 'T' && digits2(t, 11) && t[13] == ':' && digits2(t, 14) && t[16] == ':'
        && digits2(t, 17) && 1 <= val4(t, 0) && 1 <= val2(t, 5) <= 12 && 1 <= val2(t, 8) <= 31
        && time_fields_ok(val2(t, 11), val2(t, 14), val2(t, 17)) {
        let k = if t.len() > 19 && t[19] == '.' {
            skip_digits(t, 20)
        } else {
            19
        };
        if t.len() > 19 && t[19] == '.' && k == 20 {
            None
        } else {
            match zone_offset(t.subrange(k, t.len() as int)) {
                Some(off) => Some(
                    civil_secs(
                        val4(t, 0),
                        val2(t, 5),
                        val2(t, 8),
                        val2(t, 11),
                        val2(t, 14),
                        val2(t, 17),
                    ) - off,
                ),
                None => None,
            }
        }
    } else {
        None
    }
}

/// asctime: `Sun Nov  6 08:49:37 1994`, day space-padded.
pub open spec fn parse_asctime(t: Seq<char>) -> Option<int> {
    if t.len() == 24 && t[3] == ' ' && month_num(t.subrange(4, 7)) >= 1 && t[7] == ' ' && (is_digit(
        t[8],
    ) || t[8] == ' ') && is_digit(t[9]) && t[10] == ' ' && digits2(t, 11) && t[13] == ':'
        && digits2(t, 14) && t[16] == ':' && digits2(t, 17) && t[19] == ' ' && digits4(t, 20) {
        let d = if t[8] == ' ' {
            t[9] as int - 48
        } else {
            val2(t, 8)
        };
        if 1 <= d <= 31 && 1 <= val4(t, 20) && time_fields_ok(val2(t, 11), val2(t, 14), val2(t, 17))
         {
            Some(
                civil_secs(
                    val4(t, 20),
                    month_num(t.subrange(4, 7)),
                    d,
                    val2(t, 11),
                    val2(t, 14),
                    val2(t, 17),
                ),
            )
        } else {
            None
        }
    } else {
        None
    }
}

/// RFC 850: `Sunday, 06-Nov-94 08:49:37 GMT`. Two-digit years under seventy
/// fall in this century.
pub open spec fn parse_rfc850(t: Seq<char>) -> Option<int> {
    let c = find_from(t, ',', 0);
    if c < t.len() && t.len() == c + 24 && t[c + 1] == ' ' && digits2(t, c + 2) && t[c + 4] == '-'
        && month_num(t.subrange(c + 5, c + 8)) >= 1 && t[c + 8] == '-' && digits2(t, c + 9) && t[c
        + 11] == ' ' && digits2(t, c + 12) && t[c + 14] == ':' && digits2(t, c + 15) && t[c + 17]
        == ':' && digits2(t, c + 18) && t[c + 20] == ' ' && eq_ci(
        t.subrange(c + 21, c + 24),
        "GMT"@,
    ) && 1 <= val2(t, c + 2) <= 31 && time_fields_ok(
        val2(t, c + 12),
        val2(t, c + 15),
        val2(t, c + 18),
    ) {
        let y = if val2(t, c + 9) < 70 {
            2000 + val2(t, c + 9)
        } else {
            1900 + val2(t, c + 9)
        };
        Some(
            civil_secs(
                y,
                month_num(t.subrange(c + 5, c + 8)),
                val2(t, c + 2),
                val2(t, c + 12),
                val2(t, c + 15),
                val2(t, c + 18),
            ),
        )
    } else {
        None
    }
}

/// An HTTP date, tolerantly: the value is trimmed; plain digits are seconds
/// since the epoch; otherwise the first of the four date formats that fits
/// decides.
pub open spec fn parse_http_date(s: Seq<char>) -> Option<int> {
    let t = trimmed(s);
    if parse_dec(t) is Some {
        parse_dec(t)
    } else if parse_imf(t) is Some {
        parse_imf(t)
    } else if parse_rfc3339(t) is Some {
        parse_rfc3339(t)
    } else if parse_asctime(t) is Some {
        parse_asctime(t)
    } else {
        parse_rfc850(t)
    }
}

fn two_digits_at(t: &str, i: usize) -> (r: Option<u64>)
    requires
        i + 2 <= t@.len(),
        t@.len() <= usize::MAX as int,
    ensures
        r is Some <==> digits2(t@, i as int),
        r is Some ==> r->Some_0 as int == val2(t@, i as int) && r->Some_0 <= 99,
{
    let c1 = t.get_char(i);
    let c2 = t.get_char(i + 1);
    if is_digit_ch(c1) && is_digit_ch(c2) {
        Some(((c1 as u64) - 48) * 10 + ((c2 as u64) - 48))
    } else {
        None
    }
}

fn four_digits_at(t: &str, i: usize) -> (r: Option<u64>)
    requires
        i + 4 <= t@.len(),
        t@.len() <= usize::MAX as int,
    ensures
        r is Some <==> digits4(t@, i as int),
        r is Some ==> r->Some_0 as int == val4(t@, i as int) && r->Some_0 <= 9999,
{
    let a = two_digits_at(t, i);
    let b = two_digits_at(t, i + 2);
    match (a, b) {
        (Some(x), Some(y)) => Some(x * 100 + y),
        _ => None,
    }
}

fn month_at(t: &str, i: usize) -> (r: u64)
    requires
        i + 3 <= t@.len(),
        t@.len() <= usize::MAX as int,
    ensures
        r as int == month_num(t@.subrange(i as int, i as int + 3)),
        r <= 12,
{
    let m = t.substring_char(i, i + 3);
    if str_eq_ci(m, "Jan") {
        1
    } else if str_eq_ci(m, "Feb") {
        2
    } else if str_eq_ci(m, "Mar") {
        3
    } else if str_eq_ci(m, "Apr") {
        4
    } else if str_eq_ci(m, "May") {
        5
    } else if str_eq_ci(m, "Jun") {
        6
    } else if str_eq_ci(m, "Jul") {
        7
    } else if str_eq_ci(m, "Aug") {
        8
    } else if str_eq_ci(m, "Sep") {
        9
    } else if str_eq_ci(m, "Oct") {
        10
    } else if str_eq_ci(m, "Nov") {
        11
    } else if str_eq_ci(m, "Dec") {
        12
    } else {
        0
    }
}

fn char_at_is(t: &str, i: usize, c: char) -> (r: bool)
    requires
        i < t@.len(),
    ensures
        r == (t@[i as int] == c),
{
    t.get_char(i) == c
}

fn civil_secs_calc(y: u64, m: u64, d: u64, h: u64, mi: u64, s: u64) -> (r: i64)
    requires
        1 <= y <= 9999,
        1 <= m <= 12,
        1 <= d <= 31,
        h <= 23,
        mi <= 59,
        s <= 60,
    ensures
        r as int == civil_secs(y as int, m as int, d as int, h as int, mi as int, s as int),
        -100000000000000 <= r <= 1000000000000000,
{
    let yy: u64 = if m <= 2 {
        y - 1
    } else {
        y
    };
    let era: u64 = yy / 400;
    let yoe: u64 = yy % 400;
    let mp: u64 = (m + 9) % 12;
    let doy: u64 = (153 * mp + 2) / 5 + d - 1;
    let doe: u64 = yoe * 365 + yoe / 4 - yoe / 100 + doy;
    assert(yoe / 100 <= yoe * 365 + yoe / 4) by {
        assert(yoe / 100 <= yoe);
        assert(yoe <= yoe * 365);
    }
    let days: i64 = (era * 146097 + doe) as i64 - 719468;
    assert(era <= 24 && doe <= 146200);
    let secs: i64 = days * 86400 + (h * 3600 + mi * 60 + s) as i64;
    secs
}

fn parse_imf_str(t: &str) -> (r: Option<i64>)
    ensures
        parse_imf(t@) is Some ==> r is Some && r->Some_0 as int == parse_imf(t@)->Some_0,
        parse_imf(t@) is None ==> r is None,
        r is Some ==> -100000000000000 <= r->Some_0 <= 1000000000000000,
{
    let n = t.unicode_len();
    if n != 29 {
        return None;
    }
    if !(char_at_is(t, 3, ',') && char_at_is(t, 4, ' ') && char_at_is(t, 7, ' ') && char_at_is(
        t,
        11,
        ' ',
    ) && char_at_is(t, 16, ' ') && char_at_is(t, 19, ':') && char_at_is(t, 22, ':') && char_at_is(
        t,
        25,
        ' ',
    )) {
        return None;
    }
    if !str_eq_ci(t.substring_char(26, 29), "GMT") {
        proof {
            assert(t@.subrange(26, 29) == t@.subrange(26int, 29int));
        }
        return None;
    }
    let day = two_digits_at(t, 5);
    let mon = month_at(t, 8);
    let year = four_digits_at(t, 12);
    let h = two_digits_at(t, 17);
    let mi = two_digits_at(t, 20);
    let sec = two_digits_at(t, 23);
    match (day, year, h, mi, sec) {
        (Some(d), Some(y), Some(hh), Some(mm), Some(ss)) => {
            if mon >= 1 && 1 <= d && d <= 31 && 1 <= y && hh <= 23 && mm <= 59 && ss <= 60 {
                Some(civil_secs_calc(y, mon, d, hh, mm, ss))
            } else {
                None
            }
        },
        _ => None,
    }
}

fn skip_digits_idx(t: &str, i: usize) -> (r: usize)
    requires
        i <= t@.len(),
    ensures
        r as int == skip_digits(t@, i as int),
        i <= r <= t@.len(),
{
    let n = t.unicode_len();
    let mut j: usize = i;
    while j < n
        invariant
            i <= j <= n,
            n == t@.len(),
            skip_digits(t@, i as int) == skip_digits(t@, j as int),
        decreases n - j,
    {
        if !is_digit_ch(t.get_char(j)) {
            return j;
        }
        j += 1;
    }
    j
}

fn zone_offset_str(z: &str) -> (r: Option<i64>)
    ensures
        zone_offset(z@) is Some ==> r is Some && r->Some_0 as int == zone_offset(z@)->Some_0,
        zone_offset(z@) is None ==> r is None,
        r is Some ==> -86400 <= r->Some_0 <= 86400,
{
    let n = z.unicode_len();
    if n == 0 {
        return Some(0);
    }
    if n == 1 {
        if char_at_is(z, 0, 'Z') || char_at_is(z, 0, 'z') {
            return Some(0);
        }
        return None;
    }
    if n == 6 && (char_at_is(z, 0, '+') || char_at_is(z, 0, '-')) && char_at_is(z, 3, ':') {
        let hh = two_digits_at(z, 1);
        let mm = two_digits_at(z, 4);
        match (hh, mm) {
            (Some(a), Some(b)) => {
                if a <= 23 && b <= 59 {
                    let v: i64 = (a * 3600 + b * 60) as i64;
                    if char_at_is(z, 0, '+') {
                        Some(v)
                    } else {
                        Some(-v)
                    }
                } else {
                    None
                }
            },
            _ => None,
        }
    } else {
        None
    }
}

fn parse_rfc3339_str(t: &str) -> (r: Option<i64>)
    ensures
        parse_rfc3339(t@) is Some ==> r is Some && r->Some_0 as int == parse_rfc3339(t@)->Some_0,
        parse_rfc3339(t@) is None ==> r is None,
        r is Some ==> -100000000000000 - 86400 <= r->Some_0 <= 1000000000000000 + 86400,
{
    let n = t.unicode_len();
    if n < 19 {
        return None;
    }
    if !(char_at_is(t, 4, '-') && char_at_is(t, 7, '-') && char_at_is(t, 10, 'T') && char_at_is(
        t,
        13,
        ':',
    ) && char_at_is(t, 16, ':')) {
        return None;
    }
    let year = four_digits_at(t, 0);
    let mon = two_digits_at(t, 5);
    let day = two_digits_at(t, 8);
    let h = two_digits_at(t, 11);
    let mi = two_digits_at(t, 14);
    let sec = two_digits_at(t, 17);
    match (year, mon, day, h, mi, sec) {
        (Some(y), Some(m), Some(d), Some(hh), Some(mm), Some(ss)) => {
            if !(1 <= y && 1 <= m && m <= 12 && 1 <= d && d <= 31 && hh <= 23 && mm <= 59 && ss
                <= 60) {
                return None;
            }
            let k: usize = if n > 19 && char_at_is(t, 19, '.') {
                skip_digits_idx(t, 20)
            } else {
                19
            };
            if n > 19 && char_at_is(t, 19, '.') && k == 20 {
                return None;
            }
            let zone = t.substring_char(k, n);
            let off = zone_offset_str(zone);
            match off {
                Some(o) => {
                    let base = civil_secs_calc(y, m, d, hh, mm, ss);
                    Some(base - o)
                },
                None => None,
            }
        },
        _ => None,
    }
}

fn parse_asctime_str(t: &str) -> (r: Option<i64>)
    ensures
        parse_asctime(t@) is Some ==> r is Some && r->Some_0 as int == parse_asctime(t@)->Some_0,
        parse_asctime(t@) is None ==> r is None,
        r is Some ==> -100000000000000 <= r->Some_0 <= 1000000000000000,
{
    let n = t.unicode_len();
    if n != 24 {
        return None;
    }
    if !(char_at_is(t, 3, ' ') && char_at_is(t, 7, ' ') && char_at_is(t, 10, ' ') && char_at_is(
        t,
        13,
        ':',
    ) && char_at_is(t, 16, ':') && char_at_is(t, 19, ' ')) {
        return None;
    }
    let mon = month_at(t, 4);
    let c8 = t.get_char(8);
    let c9 = t.get_char(9);
    if !((is_digit_ch(c8) || c8 == ' ') && is_digit_ch(c9)) {
        return None;
    }
    let d: u64 = if c8 == ' ' {
        (c9 as u64) - 48
    } else {
        ((c8 as u64) - 48) * 10 + ((c9 as u64) - 48)
    };
    let h = two_digits_at(t, 11);
    let mi = two_digits_at(t, 14);
    let sec = two_digits_at(t, 17);
    let year = four_digits_at(t, 20);
    match (h, mi, sec, year) {
        (Some(hh), Some(mm), Some(ss), Some(y)) => {
            if mon >= 1 && 1 <= d && d <= 31 && 1 <= y && hh <= 23 && mm <= 59 && ss <= 60 {
                Some(civil_secs_calc(y, mon, d, hh, mm, ss))
            } else {
                None
            }
        },
        _ => None,
    }
}

fn parse_rfc850_str(t: &str) -> (r: Option<i64>)
    ensures
        parse_rfc850(t@) is Some ==> r is Some && r->Some_0 as int == parse_rfc850(t@)->Some_0,
        parse_rfc850(t@) is None ==> r is None,
        r is Some ==> -100000000000000 <= r->Some_0 <= 1000000000000000,
{
    let n = t.unicode_len();
    let c = find_char(t, ',');
    if c >= n || n < 24 || c != n - 24 {
        return None;
    }
    if !(char_at_is(t, c + 1, ' ') && char_at_is(t, c + 4, '-') && char_at_is(t, c + 8, '-')
        && char_at_is(t, c + 11, ' ') && char_at_is(t, c + 14, ':') && char_at_is(t, c + 17, ':')
        && char_at_is(t, c + 20, ' ')) {
        return None;
    }
    if !str_eq_ci(t.substring_char(c + 21, c + 24), "GMT") {
        proof {
            assert(t@.subrange(c as int + 21, c as int + 24) == t@.subrange(
                (c + 21) as int,
                (c + 24) as int,
            ));
        }
        return None;
    }
    let day = two_digits_at(t, c + 2);
    let mon = month_at(t, c + 5);
    let yy = two_digits_at(t, c + 9);
    let h = two_digits_at(t, c + 12);
    let mi = two_digits_at(t, c + 15);
    let sec = two_digits_at(t, c + 18);
    match (day, yy, h, mi, sec) {
        (Some(d), Some(y2), Some(hh), Some(mm), Some(ss)) => {
            if mon >= 1 && 1 <= d && d <= 31 && hh <= 23 && mm <= 59 && ss <= 60 {
                let y: u64 = if y2 < 70 {
                    2000 + y2
                } else {
                    1900 + y2
                };
                Some(civil_secs_calc(y, mon, d, hh, mm, ss))
            } else {
                None
            }
        },
        _ => None,
    }
}

/// The engine's one date entry point.
pub fn parse_date_str(s: &str) -> (r: Option<i64>)
    ensures
        parse_http_date(s@) is Some ==> r is Some && r->Some_0 as int == parse_http_date(
            s@,
        )->Some_0,
        parse_http_date(s@) is None ==> r is None,
        r is Some ==> -1000000000000000 <= r->Some_0 <= 1000000000000000,
{
    let tt = trim_str(s);
    let t = tt.as_str();
    let num = parse_dec_str(t);
    match num {
        Some(v) => {
            return Some(v as i64);
        },
        None => {},
    }
    let imf = parse_imf_str(t);
    match imf {
        Some(v) => {
            return Some(v);
        },
        None => {},
    }
    let r3339 = parse_rfc3339_str(t);
    match r3339 {
        Some(v) => {
            return Some(v);
        },
        None => {},
    }
    let asct = parse_asctime_str(t);
    match asct {
        Some(v) => {
            return Some(v);
        },
        None => {},
    }
    parse_rfc850_str(t)
}

} // verus!
