//! Timestamps: reading the dates and times that bill cells hold, and
//! writing them as "YYYY-MM-DD HH:MM:SS".
use vstd::prelude::*;

use chrono::{Datelike, Timelike};

use crate::chart::{all_digits, digits_value};
use crate::text::{chars_of, push_all, string_of, trim, trim_chars};

verus! {

// ---------------------------------------------------------------------
// Decimal digits
// ---------------------------------------------------------------------

pub open spec fn digit(d: nat) -> char {
    (48 + d) as char
}

/// The decimal digits of `n`, most significant first.
pub open spec fn dec(n: nat) -> Seq<char>
    decreases n,
{
    if n < 10 {
        seq![digit(n)]
    } else {
        dec(n / 10).push(digit(n % 10))
    }
}

pub open spec fn zeros(k: nat) -> Seq<char> {
    Seq::new(k, |i: int| '0')
}

/// `n` in decimal, zero-padded on the left to `w` digits.
pub open spec fn pad(n: nat, w: nat) -> Seq<char> {
    if dec(n).len() < w {
        zeros((w - dec(n).len()) as nat) + dec(n)
    } else {
        dec(n)
    }
}

fn digit_char(d: u64) -> (r: char)
    requires
        d < 10,
    ensures
        r == digit(d as nat),
{
    let c = ((48 + d) as u8) as char;
    c
}

/// Appends the decimal digits of `n`.
pub fn push_dec(out: &mut Vec<char>, n: u64)
    ensures
        final(out)@ == old(out)@ + dec(n as nat),
    decreases n,
{
    if n >= 10 {
        push_dec(out, n / 10);
    }
    let ghost before = out@;
    out.push(digit_char(n % 10));
    proof {
        if n >= 10 {
            assert(old(out)@ + dec((n / 10) as nat) + seq![digit((n % 10) as nat)] =~= old(out)@
                + dec(n as nat));
        } else {
            assert(out@ =~= old(out)@ + dec(n as nat));
        }
    }
}

/// Appends `n` zero-padded to `w` digits.
pub fn push_pad(out: &mut Vec<char>, n: u64, w: usize)
    ensures
        final(out)@ == old(out)@ + pad(n as nat, w as nat),
{
    let mut d: Vec<char> = Vec::new();
    push_dec(&mut d, n);
    assert(d@ =~= dec(n as nat));
    if d.len() < w {
        let ghost start = out@;
        let k = w - d.len();
        let mut i: usize = 0;
        while i < k
            invariant
                i <= k,
                out@ == start + zeros(i as nat),
            decreases k - i,
        {
            out.push('0');
            i = i + 1;
            assert(zeros(i as nat) =~= zeros((i - 1) as nat).push('0'));
        }
        push_all(out, d.as_slice());
        assert(start + zeros(k as nat) + d@ =~= start + (zeros(k as nat) + d@));
    } else {
        push_all(out, d.as_slice());
    }
}

// ---------------------------------------------------------------------
// Formatting
// ---------------------------------------------------------------------

/// A year as chrono's "%Y" writes it: four digits at least, with a sign
/// outside 0..=9999.
pub open spec fn year_text(y: int) -> Seq<char> {
    if 0 <= y <= 9999 {
        pad(y as nat, 4)
    } else if y < 0 {
        seq!['-'] + pad((-y) as nat, 4)
    } else {
        seq!['+'] + pad(y as nat, 4)
    }
}

/// A date and time as its fields: year, month, day, hour, minute, second,
/// nanosecond (from 1_000_000_000 on, a leap second).
pub open spec fn fields_ok(f: (i32, u32, u32, u32, u32, u32, u32)) -> bool {
    &&& 1 <= f.1 <= 12
    &&& 1 <= f.2 <= 31
    &&& f.3 <= 23
    &&& f.4 <= 59
    &&& f.5 <= 59
    &&& f.6 < 2_000_000_000
}

pub open spec fn date_ok(d: (i32, u32, u32)) -> bool {
    1 <= d.1 <= 12 && 1 <= d.2 <= 31
}

/// "%Y-%m-%d".
pub open spec fn date_text(y: int, m: nat, d: nat) -> Seq<char> {
    year_text(y) + seq!['-'] + pad(m, 2) + seq!['-'] + pad(d, 2)
}

/// "%Y-%m-%d %H:%M:%S" (a leap second shows as 60).
pub open spec fn datetime_text(f: (i32, u32, u32, u32, u32, u32, u32)) -> Seq<char> {
    date_text(f.0 as int, f.1 as nat, f.2 as nat) + seq![' '] + pad(f.3 as nat, 2) + seq![':'] + pad(
        f.4 as nat,
        2,
    ) + seq![':'] + pad((f.5 + f.6 / 1_000_000_000) as nat, 2)
}

/// "%Y-%m-%d 00:00:00".
pub open spec fn midnight_text(d: (i32, u32, u32)) -> Seq<char> {
    date_text(d.0 as int, d.1 as nat, d.2 as nat) + " 00:00:00"@
}

/// The decimal digits of a number read back give the number.
pub proof fn lemma_dec_digits(n: nat)
    ensures
        digits_value(dec(n)) == n,
        all_digits(dec(n)),
        dec(n).len() >= 1,
        n < 10 ==> dec(n).len() == 1,
        n < 100 ==> dec(n).len() <= 2,
        n < 1000 ==> dec(n).len() <= 3,
        n < 10000 ==> dec(n).len() <= 4,
    decreases n,
{
    assert(digit(n % 10) as int == 48 + n % 10);
    if n < 10 {
        assert(dec(n).last() == digit(n));
        assert(dec(n).drop_last() =~= Seq::<char>::empty());
        assert(digits_value(dec(n)) == digits_value(dec(n).drop_last()) * 10 + (dec(n).last() as int - '0' as int));
        assert(digits_value(Seq::<char>::empty()) == 0);
    } else {
        lemma_dec_digits(n / 10);
        let d = dec(n);
        assert(d.drop_last() =~= dec(n / 10));
        assert(d.last() == digit(n % 10));
        assert(digits_value(d) == digits_value(d.drop_last()) * 10 + (d.last() as int - '0' as int));
        assert(n == (n / 10) * 10 + n % 10);
        assert forall|i: int| 0 <= i < d.len() implies '0' <= #[trigger] d[i] <= '9' by {
            if i < d.len() - 1 {
                assert(d[i] == dec(n / 10)[i]);
            }
        }
    }
}

proof fn lemma_zeros_then(k: nat, s: Seq<char>)
    requires
        all_digits(s),
    ensures
        digits_value(zeros(k) + s) == digits_value(s),
        all_digits(zeros(k) + s),
        (zeros(k) + s).len() == k + s.len(),
    decreases s.len() + k,
{
    let t = zeros(k) + s;
    assert forall|i: int| 0 <= i < t.len() implies '0' <= #[trigger] t[i] <= '9' by {
        if i >= k {
            assert(t[i] == s[i - k]);
        }
    }
    if s.len() > 0 {
        assert forall|i: int| 0 <= i < s.drop_last().len() implies '0' <= #[trigger] s.drop_last()[i] <= '9' by {
            assert(s.drop_last()[i] == s[i]);
        }
        lemma_zeros_then(k, s.drop_last());
        assert(t.drop_last() =~= zeros(k) + s.drop_last());
        assert(t.last() == s.last());
    } else if k > 0 {
        lemma_zeros_then((k - 1) as nat, s);
        assert(t.drop_last() =~= zeros((k - 1) as nat) + s);
        assert(t.last() == '0');
    } else {
        assert(t =~= Seq::<char>::empty());
    }
}

proof fn lemma_pad_digits(n: nat, w: nat)
    requires
        1 <= w <= 4,
        w == 1 ==> n < 10,
        w == 2 ==> n < 100,
        w == 3 ==> n < 1000,
        w == 4 ==> n < 10000,
    ensures
        pad(n, w).len() == w,
        digits_value(pad(n, w)) == n,
        all_digits(pad(n, w)),
{
    lemma_dec_digits(n);
    if dec(n).len() < w {
        lemma_zeros_then((w - dec(n).len()) as nat, dec(n));
    }
}

/// A date and time with its year in 0..=9999 is written in the fixed
/// layout "YYYY-MM-DD HH:MM:SS": nineteen characters, the separators in
/// their places, and each group of digits read back gives its field (a
/// leap second reads as 60).
pub proof fn law_datetime_layout(f: (i32, u32, u32, u32, u32, u32, u32))
    requires
        fields_ok(f),
        0 <= f.0 <= 9999,
    ensures
        ({
            let t = datetime_text(f);
            &&& t.len() == 19
            &&& t[4] == '-' && t[7] == '-' && t[10] == ' ' && t[13] == ':' && t[16] == ':'
            &&& all_digits(t.subrange(0, 4)) && digits_value(t.subrange(0, 4)) == f.0
            &&& all_digits(t.subrange(5, 7)) && digits_value(t.subrange(5, 7)) == f.1
            &&& all_digits(t.subrange(8, 10)) && digits_value(t.subrange(8, 10)) == f.2
            &&& all_digits(t.subrange(11, 13)) && digits_value(t.subrange(11, 13)) == f.3
            &&& all_digits(t.subrange(14, 16)) && digits_value(t.subrange(14, 16)) == f.4
            &&& all_digits(t.subrange(17, 19)) && digits_value(t.subrange(17, 19)) == f.5 + f.6 / 1_000_000_000
        }),
{
    let sec = (f.5 + f.6 / 1_000_000_000) as nat;
    lemma_pad_digits(f.0 as nat, 4);
    lemma_pad_digits(f.1 as nat, 2);
    lemma_pad_digits(f.2 as nat, 2);
    lemma_pad_digits(f.3 as nat, 2);
    lemma_pad_digits(f.4 as nat, 2);
    lemma_pad_digits(sec, 2);
    let t = datetime_text(f);
    let y = pad(f.0 as nat, 4);
    let mo = pad(f.1 as nat, 2);
    let d = pad(f.2 as nat, 2);
    let h = pad(f.3 as nat, 2);
    let mi = pad(f.4 as nat, 2);
    let se = pad(sec, 2);
    assert(year_text(f.0 as int) == y);
    assert(t =~= y + seq!['-'] + mo + seq!['-'] + d + seq![' '] + h + seq![':'] + mi + seq![':'] + se);
    assert(t.subrange(0, 4) =~= y);
    assert(t.subrange(5, 7) =~= mo);
    assert(t.subrange(8, 10) =~= d);
    assert(t.subrange(11, 13) =~= h);
    assert(t.subrange(14, 16) =~= mi);
    assert(t.subrange(17, 19) =~= se);
}

fn push_year(out: &mut Vec<char>, y: i32)
    ensures
        final(out)@ == old(out)@ + year_text(y as int),
{
    if 0 <= y && y <= 9999 {
        push_pad(out, y as u64, 4);
    } else if y < 0 {
        let ghost start = out@;
        out.push('-');
        let a: i64 = -(y as i64);
        push_pad(out, a as u64, 4);
        assert(out@ =~= start + year_text(y as int));
    } else {
        let ghost start = out@;
        out.push('+');
        push_pad(out, y as u64, 4);
        assert(out@ =~= start + year_text(y as int));
    }
}

fn push_date(out: &mut Vec<char>, y: i32, m: u32, d: u32)
    ensures
        final(out)@ == old(out)@ + date_text(y as int, m as nat, d as nat),
{
    let ghost start = out@;
    push_year(out, y);
    out.push('-');
    push_pad(out, m as u64, 2);
    out.push('-');
    push_pad(out, d as u64, 2);
    assert(out@ =~= start + date_text(y as int, m as nat, d as nat));
}

/// Writes date-time fields as "YYYY-MM-DD HH:MM:SS".
pub fn format_datetime(f: (i32, u32, u32, u32, u32, u32, u32)) -> (r: String)
    requires
        fields_ok(f),
    ensures
        r@ == datetime_text(f),
{
    let mut out: Vec<char> = Vec::new();
    push_date(&mut out, f.0, f.1, f.2);
    out.push(' ');
    push_pad(&mut out, f.3 as u64, 2);
    out.push(':');
    push_pad(&mut out, f.4 as u64, 2);
    out.push(':');
    let sec = f.5 + f.6 / 1_000_000_000;
    push_pad(&mut out, sec as u64, 2);
    assert(out@ =~= datetime_text(f));
    string_of(out.as_slice())
}

/// Writes a date as "YYYY-MM-DD 00:00:00".
pub fn format_date_midnight(d: (i32, u32, u32)) -> (r: String)
    ensures
        r@ == midnight_text(d),
{
    let mut out: Vec<char> = Vec::new();
    push_date(&mut out, d.0, d.1, d.2);
    let tail = chars_of(" 00:00:00");
    push_all(&mut out, tail.as_slice());
    string_of(out.as_slice())
}

// ---------------------------------------------------------------------
// The calendar (proleptic Gregorian, as chrono's `NaiveDate`)
// ---------------------------------------------------------------------

pub open spec fn is_leap(y: int) -> bool {
    (y % 4 == 0 && y % 100 != 0) || y % 400 == 0
}

pub open spec fn days_in_month(y: int, m: int) -> int {
    if m == 2 {
        if is_leap(y) { 29 } else { 28 }
    } else if m == 4 || m == 6 || m == 9 || m == 11 {
        30
    } else {
        31
    }
}

/// The first and last years that a `NaiveDate` can hold.
pub open spec fn min_year() -> int {
    -262143
}

pub open spec fn max_year() -> int {
    262142
}

/// A day that exists in the calendar, in the range of `NaiveDate`.
pub open spec fn valid_ymd(y: int, m: int, d: int) -> bool {
    &&& min_year() <= y <= max_year()
    &&& 1 <= m <= 12
    &&& 1 <= d <= days_in_month(y, m)
}

/// The day after a day (`None` after the last day a `NaiveDate` holds).
pub open spec fn next_day_spec(d: (i32, u32, u32)) -> Option<(i32, u32, u32)> {
    if (d.2 as int) < days_in_month(d.0 as int, d.1 as int) {
        Some((d.0, d.1, (d.2 + 1) as u32))
    } else if d.1 < 12 {
        Some((d.0, (d.1 + 1) as u32, 1u32))
    } else if (d.0 as int) < max_year() {
        Some(((d.0 + 1) as i32, 1u32, 1u32))
    } else {
        None
    }
}

/// `chrono::NaiveDate::from_ymd_opt`, its result taken apart: a date when
/// the day exists in the calendar and the year is in range, else `None`.
#[verifier::external_body]
pub(crate) fn ymd_opt(y: i32, m: u32, d: u32) -> (r: Option<(i32, u32, u32)>)
    ensures
        r == (if valid_ymd(y as int, m as int, d as int) { Some((y, m, d)) } else { None }),
{
    match chrono::NaiveDate::from_ymd_opt(y, m, d) {
        Some(x) => Some((x.year(), x.month(), x.day())),
        None => None,
    }
}

/// `chrono::NaiveDate::succ_opt` on the date with these fields: the next
/// calendar day, or `None` after the last date chrono holds.
#[verifier::external_body]
pub(crate) fn succ_date(d: (i32, u32, u32)) -> (r: Option<(i32, u32, u32)>)
    requires
        valid_ymd(d.0 as int, d.1 as int, d.2 as int),
    ensures
        r == next_day_spec(d),
{
    match chrono::NaiveDate::from_ymd_opt(d.0, d.1, d.2) {
        Some(x) => match x.succ_opt() {
            Some(n) => Some((n.year(), n.month(), n.day())),
            None => None,
        },
        None => None,
    }
}

// ---------------------------------------------------------------------
// Reading dates and times (chrono)
// ---------------------------------------------------------------------

/// What `chrono::NaiveDateTime::parse_from_str` reads from a text with a
/// format, as fields (`None` when it rejects the text).
pub uninterp spec fn naive_datetime_parse(s: Seq<char>, fmt: Seq<char>) -> Option<
    (i32, u32, u32, u32, u32, u32, u32),
>;

/// What `chrono::NaiveDate::parse_from_str` reads from a text with a
/// format, as year, month and day (`None` when it rejects the text).
pub uninterp spec fn naive_date_parse(s: Seq<char>, fmt: Seq<char>) -> Option<(i32, u32, u32)>;

/// `chrono::NaiveDateTime::parse_from_str`, its result taken apart into
/// fields. Which texts it accepts is not stated (it is named); the fields
/// lie in the ranges that chrono documents for them.
#[verifier::external_body]
fn parse_naive_datetime(s: &str, fmt: &str) -> (r: Option<(i32, u32, u32, u32, u32, u32, u32)>)
    ensures
        r == naive_datetime_parse(s@, fmt@),
        r matches Some(f) ==> fields_ok(f),
{
    match chrono::NaiveDateTime::parse_from_str(s, fmt) {
        Ok(d) => Some((d.year(), d.month(), d.day(), d.hour(), d.minute(), d.second(), d.nanosecond())),
        Err(_) => None,
    }
}

/// `chrono::NaiveDate::parse_from_str`, its result taken apart into year,
/// month and day. Which texts it accepts is not stated (it is named); what
/// it gives is a calendar date in the range of `NaiveDate`, as every value
/// of that type is.
#[verifier::external_body]
pub(crate) fn parse_naive_date(s: &str, fmt: &str) -> (r: Option<(i32, u32, u32)>)
    ensures
        r == naive_date_parse(s@, fmt@),
        r matches Some(d) ==> date_ok(d) && valid_ymd(d.0 as int, d.1 as int, d.2 as int),
{
    match chrono::NaiveDate::parse_from_str(s, fmt) {
        Ok(d) => Some((d.year(), d.month(), d.day())),
        Err(_) => None,
    }
}

/// The formats a text cell may hold a time in, tried in this order.
pub open spec fn time_formats() -> Seq<Seq<char>> {
    seq![
        "%Y-%m-%d %H:%M:%S"@,
        "%Y-%m-%d %H:%M"@,
        "%Y/%m/%d %H:%M:%S"@,
        "%Y/%m/%d %H:%M"@,
        "%Y-%m-%d"@,
        "%Y/%m/%d"@,
    ]
}

/// The first format of `fmts` that reads `t` as a date and time, or else
/// as a date, written out.
pub open spec fn try_formats(t: Seq<char>, fmts: Seq<Seq<char>>) -> Option<Seq<char>>
    decreases fmts.len(),
{
    if fmts.len() == 0 {
        None
    } else {
        match naive_datetime_parse(t, fmts[0]) {
            Some(f) => Some(datetime_text(f)),
            None => match naive_date_parse(t, fmts[0]) {
                Some(d) => Some(midnight_text(d)),
                None => try_formats(t, fmts.drop_first()),
            },
        }
    }
}

/// What `parse_time_text` gives for a cell text.
pub open spec fn time_text_spec(s: Seq<char>) -> Option<Seq<char>> {
    try_formats(trim(s), time_formats())
}

/// Reads a time from a cell text, trimmed, in the first of the formats
/// "%Y-%m-%d %H:%M:%S", "%Y-%m-%d %H:%M", "%Y/%m/%d %H:%M:%S",
/// "%Y/%m/%d %H:%M", "%Y-%m-%d", "%Y/%m/%d" that reads it (a date alone is
/// taken at midnight), and writes it as "YYYY-MM-DD HH:MM:SS".
pub fn parse_time_text(s: &str) -> (r: Option<String>)
    ensures
        match r {
            Some(x) => time_text_spec(s@) == Some(x@),
            None => time_text_spec(s@) is None,
        },
{
    let cs = chars_of(s);
    let tc = trim_chars(cs.as_slice());
    let t = string_of(tc.as_slice());
    let fmts: [&str; 6] = [
        "%Y-%m-%d %H:%M:%S",
        "%Y-%m-%d %H:%M",
        "%Y/%m/%d %H:%M:%S",
        "%Y/%m/%d %H:%M",
        "%Y-%m-%d",
        "%Y/%m/%d",
    ];
    let ghost fs = time_formats();
    assert(fmts@.map_values(|f: &str| f@) =~= fs);
    assert(fs.skip(0) == fs);
    let mut i: usize = 0;
    while i < 6
        invariant
            i <= 6,
            fs == time_formats(),
            fmts@.map_values(|f: &str| f@) == fs,
            t@ == trim(s@),
            try_formats(t@, fs) == try_formats(t@, fs.skip(i as int)),
        decreases 6 - i,
    {
        let fmt = fmts[i];
        assert(fs.skip(i as int)[0] == fmt@);
        assert(fs.skip(i as int).drop_first() == fs.skip(i + 1));
        match parse_naive_datetime(t.as_str(), fmt) {
            Some(f) => {
                return Some(format_datetime(f));
            },
            None => {},
        }
        match parse_naive_date(t.as_str(), fmt) {
            Some(d) => {
                return Some(format_date_midnight(d));
            },
            None => {},
        }
        i = i + 1;
    }
    assert(fs.skip(6) =~= Seq::<Seq<char>>::empty());
    None
}

} // verus!
