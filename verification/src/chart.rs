//! The time axis of the bar chart: which buckets (days, months or years)
//! lie between the first and the last bucket that hold transactions, so
//! that the chart shows empty ones too.
use vstd::prelude::*;

use crate::datetime::{
    dec, max_year, min_year, naive_date_parse, next_day_spec, pad, parse_naive_date, push_dec, push_pad, succ_date, valid_ymd,
    ymd_opt,
};
use crate::importer::str_views;
use crate::text::{chars_of, push_all, str_eq, string_of};

verus! {

// ---------------------------------------------------------------------
// Length in bytes
// ---------------------------------------------------------------------

/// How many bytes UTF-8 takes for a character.
pub open spec fn utf8_width(c: char) -> nat {
    if (c as u32) < 0x80 {
        1
    } else if (c as u32) < 0x800 {
        2
    } else if (c as u32) < 0x10000 {
        3
    } else {
        4
    }
}

/// The length of a text in bytes (what `str::len` gives).
pub open spec fn utf8_len(s: Seq<char>) -> nat
    decreases s.len(),
{
    if s.len() == 0 {
        0
    } else {
        utf8_len(s.drop_last()) + utf8_width(s.last())
    }
}

/// The byte length of a text, or 11 when it is longer than that.
fn utf8_len_upto_11(s: &[char]) -> (r: usize)
    ensures
        r == (if utf8_len(s@) < 11 { utf8_len(s@) } else { 11 }),
{
    let mut acc: usize = 0;
    let mut i: usize = 0;
    while i < s.len()
        invariant
            i <= s@.len(),
            acc == (if utf8_len(s@.take(i as int)) < 11 { utf8_len(s@.take(i as int)) } else { 11 }),
        decreases s@.len() - i,
    {
        assert(s@.take(i + 1).drop_last() =~= s@.take(i as int));
        let c = s[i];
        let cv = c as u32;
        let w: usize = if cv < 0x80 {
            1
        } else if cv < 0x800 {
            2
        } else if cv < 0x10000 {
            3
        } else {
            4
        };
        acc = if acc + w < 11 { acc + w } else { 11 };
        i = i + 1;
    }
    assert(s@.take(s@.len() as int) =~= s@);
    acc
}

// ---------------------------------------------------------------------
// Reading an integer (as `str::parse::<i32>` does)
// ---------------------------------------------------------------------

pub open spec fn all_digits(s: Seq<char>) -> bool {
    forall|i: int| 0 <= i < s.len() ==> '0' <= #[trigger] s[i] <= '9'
}

/// The value of a run of decimal digits.
pub open spec fn digits_value(s: Seq<char>) -> int
    decreases s.len(),
{
    if s.len() == 0 {
        0
    } else {
        digits_value(s.drop_last()) * 10 + (s.last() as int - '0' as int)
    }
}

/// An integer written as an optional sign and one or more decimal
/// digits, that fits in an `i32`.
pub open spec fn int_text(s: Seq<char>) -> Option<int> {
    let neg = s.len() > 0 && s[0] == '-';
    let body = if s.len() > 0 && (s[0] == '-' || s[0] == '+') { s.drop_first() } else { s };
    let v = if neg { -digits_value(body) } else { digits_value(body) };
    if body.len() > 0 && all_digits(body) && i32::MIN <= v <= i32::MAX {
        Some(v)
    } else {
        None
    }
}

/// Reads an `i32` written in decimal.
pub fn parse_i32(s: &[char]) -> (r: Option<i32>)
    ensures
        match r {
            Some(v) => int_text(s@) == Some(v as int),
            None => int_text(s@) is None,
        },
{
    let neg = s.len() > 0 && s[0] == '-';
    let start: usize = if s.len() > 0 && (s[0] == '-' || s[0] == '+') { 1 } else { 0 };
    let ghost body = s@.skip(start as int);
    assert(start == 1 ==> body =~= s@.drop_first());
    assert(start == 0 ==> body =~= s@);
    assert(body == (if s@.len() > 0 && (s@[0] == '-' || s@[0] == '+') { s@.drop_first() } else { s@ }));
    assert(neg == (s@.len() > 0 && s@[0] == '-'));
    if start == s.len() {
        return None;
    }
    let mut acc: i64 = 0;
    let mut big = false;
    let mut k: usize = start;
    while k < s.len()
        invariant
            start <= k <= s@.len(),
            body == s@.skip(start as int),
            body == (if s@.len() > 0 && (s@[0] == '-' || s@[0] == '+') { s@.drop_first() } else { s@ }),
            neg == (s@.len() > 0 && s@[0] == '-'),
            all_digits(body.take(k - start)),
            !big ==> acc == digits_value(body.take(k - start)) && 0 <= acc <= 0x8000_0000,
            big ==> digits_value(body.take(k - start)) > 0x8000_0000,
        decreases s@.len() - k,
    {
        let c = s[k];
        if !('0' <= c && c <= '9') {
            assert(body[k - start] == c);
            assert(!all_digits(body));
            return None;
        }
        let ghost prev = body.take(k - start);
        assert(body.take(k - start + 1).drop_last() =~= prev);
        assert(body.take(k - start + 1).last() == c);
        let d = (c as u32 - '0' as u32) as i64;
        assert(d == c as int - '0' as int);
        if !big {
            let n = acc * 10 + d;
            if n > 0x8000_0000 {
                big = true;
            } else {
                acc = n;
            }
        }
        k = k + 1;
        assert(all_digits(body.take(k - start))) by {
            assert forall|i: int| 0 <= i < body.take(k - start).len() implies '0' <= #[trigger] body.take(
                k - start,
            )[i] <= '9' by {
                if i < k - 1 - start {
                    assert(body.take(k - start)[i] == prev[i]);
                }
            }
        }
    }
    assert(body.take(s@.len() - start) =~= body);
    if big {
        return None;
    }
    if neg {
        let v: i64 = -acc;
        Some(v as i32)
    } else {
        if acc > 0x7fff_ffff {
            None
        } else {
            Some(acc as i32)
        }
    }
}

// ---------------------------------------------------------------------
// Bucket labels
// ---------------------------------------------------------------------

/// An integer as "{}" writes it.
pub open spec fn int_dec(y: int) -> Seq<char> {
    if y < 0 {
        seq!['-'] + dec((-y) as nat)
    } else {
        dec(y as nat)
    }
}

/// An integer as "{:04}" writes it: zero-padded to four characters, the
/// sign included.
pub open spec fn int_pad4(y: int) -> Seq<char> {
    if y < 0 {
        seq!['-'] + pad((-y) as nat, 3)
    } else {
        pad(y as nat, 4)
    }
}

/// The label of the bucket a date falls in: "YYYY" for years,
/// "YYYY-MM" for months, "YYYY-MM-DD" otherwise.
pub open spec fn chart_label(dim: Seq<char>, d: (i32, u32, u32)) -> Seq<char> {
    if dim == "year"@ {
        int_dec(d.0 as int)
    } else if dim == "month"@ {
        int_pad4(d.0 as int) + seq!['-'] + pad(d.1 as nat, 2)
    } else {
        int_pad4(d.0 as int) + seq!['-'] + pad(d.1 as nat, 2) + seq!['-'] + pad(d.2 as nat, 2)
    }
}

fn push_year_plain(out: &mut Vec<char>, y: i32)
    ensures
        final(out)@ == old(out)@ + int_dec(y as int),
{
    if y < 0 {
        let ghost start = out@;
        out.push('-');
        let a: i64 = -(y as i64);
        push_dec(out, a as u64);
        assert(out@ =~= start + int_dec(y as int));
    } else {
        push_dec(out, y as u64);
    }
}

fn push_year_pad4(out: &mut Vec<char>, y: i32)
    ensures
        final(out)@ == old(out)@ + int_pad4(y as int),
{
    if y < 0 {
        let ghost start = out@;
        out.push('-');
        let a: i64 = -(y as i64);
        push_pad(out, a as u64, 3);
        assert(out@ =~= start + int_pad4(y as int));
    } else {
        push_pad(out, y as u64, 4);
    }
}

fn label_of(dimension: &str, d: (i32, u32, u32)) -> (r: String)
    ensures
        r@ == chart_label(dimension@, d),
{
    let mut out: Vec<char> = Vec::new();
    if str_eq(dimension, "year") {
        push_year_plain(&mut out, d.0);
        assert(out@ =~= chart_label(dimension@, d));
    } else if str_eq(dimension, "month") {
        push_year_pad4(&mut out, d.0);
        out.push('-');
        push_pad(&mut out, d.1 as u64, 2);
        assert(out@ =~= chart_label(dimension@, d));
    } else {
        push_year_pad4(&mut out, d.0);
        out.push('-');
        push_pad(&mut out, d.1 as u64, 2);
        out.push('-');
        push_pad(&mut out, d.2 as u64, 2);
        assert(out@ =~= chart_label(dimension@, d));
    }
    string_of(out.as_slice())
}

// ---------------------------------------------------------------------
// Walking from the first bucket to the last
// ---------------------------------------------------------------------

/// Dates in calendar order.
pub open spec fn date_le(a: (i32, u32, u32), b: (i32, u32, u32)) -> bool {
    a.0 < b.0 || (a.0 == b.0 && (a.1 < b.1 || (a.1 == b.1 && a.2 <= b.2)))
}

pub open spec fn date_valid(d: (i32, u32, u32)) -> bool {
    valid_ymd(d.0 as int, d.1 as int, d.2 as int)
}

/// The first day of the next bucket: the next year, the next month, or
/// the next day; the last date when there is none.
pub open spec fn step_spec(dim: Seq<char>, cur: (i32, u32, u32), end: (i32, u32, u32)) -> (i32, u32, u32) {
    if dim == "year"@ {
        if valid_ymd(cur.0 + 1, 1, 1) {
            ((cur.0 + 1) as i32, 1u32, 1u32)
        } else {
            end
        }
    } else if dim == "month"@ {
        let y = if cur.1 == 12 { cur.0 + 1 } else { cur.0 as int };
        let m = if cur.1 == 12 { 1 } else { cur.1 + 1 };
        if valid_ymd(y, m, 1) {
            (y as i32, m as u32, 1u32)
        } else {
            end
        }
    } else {
        match next_day_spec(cur) {
            Some(n) => n,
            None => end,
        }
    }
}

/// The labels met walking from `cur` to `end`, one step at a time, for at
/// most 800 steps in all (`guard` of them are taken).
pub open spec fn fill_from(dim: Seq<char>, cur: (i32, u32, u32), end: (i32, u32, u32), guard: int) -> Seq<
    Seq<char>,
>
    decreases 800 - guard,
{
    if guard < 800 && date_le(cur, end) {
        seq![chart_label(dim, cur)] + fill_from(dim, step_spec(dim, cur, end), end, guard + 1)
    } else {
        seq![]
    }
}

/// Walking from a bucket takes at most 800 steps in all.
proof fn lemma_fill_bounded(dim: Seq<char>, cur: (i32, u32, u32), end: (i32, u32, u32), guard: int)
    requires
        0 <= guard <= 800,
    ensures
        fill_from(dim, cur, end, guard).len() <= 800 - guard,
    decreases 800 - guard,
{
    if guard < 800 && date_le(cur, end) {
        lemma_fill_bounded(dim, step_spec(dim, cur, end), end, guard + 1);
    }
}

proof fn lemma_next_day_valid(d: (i32, u32, u32))
    requires
        date_valid(d),
    ensures
        next_day_spec(d) matches Some(n) ==> date_valid(n),
{
}

fn date_le_exec(a: (i32, u32, u32), b: (i32, u32, u32)) -> (r: bool)
    ensures
        r == date_le(a, b),
{
    a.0 < b.0 || (a.0 == b.0 && (a.1 < b.1 || (a.1 == b.1 && a.2 <= b.2)))
}

fn step(dimension: &str, cur: (i32, u32, u32), end: (i32, u32, u32)) -> (r: (i32, u32, u32))
    requires
        date_valid(cur),
        date_valid(end),
    ensures
        r == step_spec(dimension@, cur, end),
        date_valid(r),
{
    if str_eq(dimension, "year") {
        match ymd_opt(cur.0 + 1, 1, 1) {
            Some(n) => n,
            None => end,
        }
    } else if str_eq(dimension, "month") {
        let (y, m) = if cur.1 == 12 { (cur.0 + 1, 1u32) } else { (cur.0, cur.1 + 1) };
        match ymd_opt(y, m, 1) {
            Some(n) => n,
            None => end,
        }
    } else {
        proof {
            lemma_next_day_valid(cur);
        }
        match succ_date(cur) {
            Some(n) => n,
            None => end,
        }
    }
}

/// The labels from `start` to `end`, as the chart walks them.
fn fill_labels(dimension: &str, start: (i32, u32, u32), end: (i32, u32, u32)) -> (r: Vec<String>)
    requires
        date_valid(start),
        date_valid(end),
    ensures
        str_views(r@) == fill_from(dimension@, start, end, 0),
{
    let mut out: Vec<String> = Vec::new();
    let mut cur = start;
    let mut guard: u32 = 0;
    while guard < 800 && date_le_exec(cur, end)
        invariant
            guard <= 800,
            date_valid(cur),
            date_valid(end),
            fill_from(dimension@, start, end, 0) == str_views(out@) + fill_from(
                dimension@,
                cur,
                end,
                guard as int,
            ),
        decreases 800 - guard,
    {
        let label = label_of(dimension, cur);
        let ghost before = str_views(out@);
        out.push(label);
        assert(str_views(out@) =~= before.push(chart_label(dimension@, cur)));
        let next = step(dimension, cur, end);
        assert(fill_from(dimension@, cur, end, guard as int) == seq![chart_label(dimension@, cur)]
            + fill_from(dimension@, next, end, guard + 1));
        assert(before + (seq![chart_label(dimension@, cur)] + fill_from(dimension@, next, end, guard + 1))
            =~= before.push(chart_label(dimension@, cur)) + fill_from(dimension@, next, end, guard + 1));
        cur = next;
        guard = guard + 1;
    }
    assert(str_views(out@) + Seq::<Seq<char>>::empty() =~= str_views(out@));
    out
}

// ---------------------------------------------------------------------
// Buckets to dates, and the labels between two buckets
// ---------------------------------------------------------------------

/// The first day of a bucket label: "YYYY-MM-DD" (ten bytes) read as a
/// date, "YYYY-MM" (seven bytes) as its first day, anything else as a
/// year number and its first of January.
pub open spec fn bucket_date_spec(s: Seq<char>) -> Option<(i32, u32, u32)> {
    if utf8_len(s) == 10 {
        naive_date_parse(s, "%Y-%m-%d"@)
    } else if utf8_len(s) == 7 {
        naive_date_parse(s + "-01"@, "%Y-%m-%d"@)
    } else {
        match int_text(s) {
            Some(y) => if valid_ymd(y, 1, 1) { Some((y as i32, 1u32, 1u32)) } else { None },
            None => None,
        }
    }
}

fn bucket_date(s: &str) -> (r: Option<(i32, u32, u32)>)
    ensures
        r == bucket_date_spec(s@),
        r matches Some(d) ==> date_valid(d),
{
    let cs = chars_of(s);
    let n = utf8_len_upto_11(cs.as_slice());
    if n == 10 {
        parse_naive_date(s, "%Y-%m-%d")
    } else if n == 7 {
        let mut v = cs;
        let tail = chars_of("-01");
        push_all(&mut v, tail.as_slice());
        let t = string_of(v.as_slice());
        parse_naive_date(t.as_str(), "%Y-%m-%d")
    } else {
        match parse_i32(cs.as_slice()) {
            Some(y) => ymd_opt(y, 1, 1),
            None => None,
        }
    }
}

/// The labels the chart shows between its first and last bucket.
pub open spec fn gap_labels_spec(dim: Seq<char>, first: Seq<char>, last: Seq<char>) -> Seq<Seq<char>> {
    match (bucket_date_spec(first), bucket_date_spec(last)) {
        (Some(c), Some(e)) => fill_from(dim, c, e, 0),
        _ => seq![],
    }
}

/// The chart adds at most 800 buckets between its first and last one.
pub proof fn law_gap_labels_bounded(dim: Seq<char>, first: Seq<char>, last: Seq<char>)
    ensures
        gap_labels_spec(dim, first, last).len() <= 800,
{
    match (bucket_date_spec(first), bucket_date_spec(last)) {
        (Some(c), Some(e)) => lemma_fill_bounded(dim, c, e, 0),
        _ => {},
    }
}

/// The number of the month a date falls in, counted from year 0.
pub open spec fn month_index(d: (i32, u32, u32)) -> int {
    d.0 as int * 12 + d.1 as int - 1
}

/// The label of the month with that number.
pub open spec fn month_label(t: int) -> Seq<char> {
    int_pad4(t / 12) + seq!['-'] + pad((t % 12 + 1) as nat, 2)
}

proof fn lemma_fill_months(cur: (i32, u32, u32), end: (i32, u32, u32), g: int)
    requires
        date_valid(cur),
        date_valid(end),
        cur.2 == 1,
        end.2 == 1,
        month_index(end) < max_year() * 12 + 11,
        month_index(cur) <= month_index(end) + 1,
        0 <= g,
        g + month_index(end) - month_index(cur) + 1 <= 800,
    ensures
        fill_from("month"@, cur, end, g) == Seq::new(
            (month_index(end) - month_index(cur) + 1) as nat,
            |k: int| month_label(month_index(cur) + k),
        ),
    decreases month_index(end) - month_index(cur) + 1,
{
    let want = Seq::new((month_index(end) - month_index(cur) + 1) as nat, |k: int| month_label(month_index(cur) + k));
    if month_index(cur) <= month_index(end) {
        reveal_strlit("month");
        reveal_strlit("year");
        assert("month"@ != "year"@) by {
            assert("month"@[0] != "year"@[0]);
        }
        let next = step_spec("month"@, cur, end);
        let y = if cur.1 == 12 { cur.0 + 1 } else { cur.0 as int };
        let m = if cur.1 == 12 { 1 } else { cur.1 + 1 };
        assert(valid_ymd(y, m, 1));
        assert(next == (y as i32, m as u32, 1u32));
        assert(month_index(next) == month_index(cur) + 1);
        lemma_fill_months(next, end, g + 1);
        vstd::arithmetic::div_mod::lemma_fundamental_div_mod_converse(
            month_index(cur),
            12,
            cur.0 as int,
            cur.1 as int - 1,
        );
        assert(chart_label("month"@, cur) == month_label(month_index(cur)));
        assert(fill_from("month"@, cur, end, g) =~= want);
    } else {
        assert(fill_from("month"@, cur, end, g) =~= want);
    }
}

/// By months, the chart walks month by month: from the first bucket's
/// month to the last's, one label for each month in order, its year
/// written in four digits and its month in two.
pub proof fn law_month_labels(first: (i32, u32, u32), last: (i32, u32, u32))
    requires
        date_valid(first),
        date_valid(last),
        first.2 == 1,
        last.2 == 1,
        month_index(last) < max_year() * 12 + 11,
        month_index(first) <= month_index(last) + 1,
        month_index(last) - month_index(first) + 1 <= 800,
    ensures
        fill_from("month"@, first, last, 0) == Seq::new(
            (month_index(last) - month_index(first) + 1) as nat,
            |k: int| month_label(month_index(first) + k),
        ),
{
    lemma_fill_months(first, last, 0);
}

proof fn lemma_fill_years(y: int, z: int, g: int)
    requires
        min_year() <= y <= z + 1,
        z < max_year(),
        0 <= g,
        g + z - y + 1 <= 800,
    ensures
        fill_from("year"@, (y as i32, 1u32, 1u32), (z as i32, 1u32, 1u32), g) == Seq::new(
            (z - y + 1) as nat,
            |k: int| int_dec(y + k),
        ),
    decreases z - y + 1,
{
    let want = Seq::new((z - y + 1) as nat, |k: int| int_dec(y + k));
    let cur = (y as i32, 1u32, 1u32);
    let end = (z as i32, 1u32, 1u32);
    if y <= z {
        assert(valid_ymd(y + 1, 1, 1));
        assert(step_spec("year"@, cur, end) == ((y + 1) as i32, 1u32, 1u32));
        lemma_fill_years(y + 1, z, g + 1);
        assert(fill_from("year"@, cur, end, g) =~= want);
    } else {
        assert(fill_from("year"@, cur, end, g) =~= want);
    }
}

/// By years, the chart walks year by year: from the first bucket's year
/// to the last's, one label for each year in order, written as a plain
/// number.
pub proof fn law_year_labels(y: int, z: int)
    requires
        min_year() <= y <= z + 1,
        z < max_year(),
        z - y + 1 <= 800,
    ensures
        fill_from("year"@, (y as i32, 1u32, 1u32), (z as i32, 1u32, 1u32), 0) == Seq::new(
            (z - y + 1) as nat,
            |k: int| int_dec(y + k),
        ),
{
    lemma_fill_years(y, z, 0);
}

/// The bucket labels from the first bucket to the last, in steps of the
/// chart's dimension ("year", "month", otherwise days), at most 800 of
/// them; none when either bucket cannot be read as a date. The chart adds
/// an empty bucket for each that holds no transaction.
pub fn gap_labels(dimension: &str, first: &str, last: &str) -> (r: Vec<String>)
    ensures
        str_views(r@) == gap_labels_spec(dimension@, first@, last@),
{
    match (bucket_date(first), bucket_date(last)) {
        (Some(c), Some(e)) => fill_labels(dimension, c, e),
        _ => {
            let v: Vec<String> = Vec::new();
            assert(str_views(v@) =~= Seq::<Seq<char>>::empty());
            v
        },
    }
}

} // verus!
