//! Bill import: recognising the file format, locating header rows and
//! columns, building transaction records from cell texts, fingerprints for
//! duplicate detection, and the routing of WeChat rows (rule, pending
//! queue, fallback category) with the report's counters.
use vstd::prelude::*;

use crate::models::{opt_view, ImportReport, Rule, RuleView, SheetStat, TxFields, TxFieldsView};
use crate::rules::{classify, first_applying, known_by, merchant_known, rule_applies, rule_views};
use crate::text::{
    chars_of, contains, contains_exec, occurs_at, contains_str, in_set, push_all, starts_with, str_eq,
    string_of, strip_start, strip_start_in, ws_pred, is_whitespace, char_in, is_ws, is_ascii_digit,
    lead_len, lemma_lead_len_bound, lemma_lead_len_at,
};

verus! {

// ---------------------------------------------------------------------
// Small conversions
// ---------------------------------------------------------------------

pub open spec fn nonempty_or_none(s: Seq<char>) -> Option<Seq<char>> {
    if s.len() == 0 {
        None
    } else {
        Some(s)
    }
}

/// `None` for an empty text, the text otherwise.
pub fn opt_nonempty(s: String) -> (r: Option<String>)
    ensures
        opt_view(r) == nonempty_or_none(s@),
{
    if s.as_str().is_empty() {
        None
    } else {
        Some(s)
    }
}

/// The text, or `default` when it is empty; never `None`.
pub fn some_or_default(s: String, default: &str) -> (r: Option<String>)
    ensures
        opt_view(r) == Some(
            if s@.len() == 0 {
                default@
            } else {
                s@
            },
        ),
{
    Some(
        if s.as_str().is_empty() {
            default.to_owned()
        } else {
            s
        },
    )
}

pub open spec fn or_empty(o: Option<Seq<char>>) -> Seq<char> {
    match o {
        Some(s) => s,
        None => seq![],
    }
}

pub(crate) fn or_empty_chars(o: &Option<String>) -> (r: Vec<char>)
    ensures
        r@ == or_empty(opt_view(*o)),
{
    match o {
        Some(s) => chars_of(s.as_str()),
        None => Vec::new(),
    }
}

// ---------------------------------------------------------------------
// Amount texts
// ---------------------------------------------------------------------

/// `s` without the characters that satisfy `p`.
pub open spec fn drop_matching(s: Seq<char>, p: spec_fn(char) -> bool) -> Seq<char>
    decreases s.len(),
{
    if s.len() == 0 {
        seq![]
    } else {
        let prev = drop_matching(s.drop_last(), p);
        if p(s.last()) {
            prev
        } else {
            prev.push(s.last())
        }
    }
}

pub open spec fn currency_marks() -> Seq<char> {
    seq!['¥', '￥', '$', '€']
}

/// The number text of an amount cell: whitespace removed, leading currency
/// signs removed, thousands separators removed; `None` for an empty cell,
/// "/" or a "#…" error value.
pub open spec fn amount_text_spec(s: Seq<char>) -> Option<Seq<char>> {
    let c = strip_start(drop_matching(s, ws_pred()), in_set(currency_marks()));
    if c.len() == 0 || c == "/"@ || starts_with(c, '#') {
        None
    } else {
        Some(drop_matching(c, in_set(seq![','])))
    }
}

proof fn lemma_drop_matching_keeps(s: Seq<char>, p: spec_fn(char) -> bool, q: spec_fn(char) -> bool)
    requires
        forall|k: int| 0 <= k < s.len() ==> q(#[trigger] s[k]),
    ensures
        forall|k: int|
            0 <= k < drop_matching(s, p).len() ==> q(#[trigger] drop_matching(s, p)[k]) && !p(
                drop_matching(s, p)[k],
            ),
        (forall|k: int| 0 <= k < s.len() ==> !p(#[trigger] s[k])) ==> drop_matching(s, p) == s,
    decreases s.len(),
{
    if s.len() > 0 {
        let prev = drop_matching(s.drop_last(), p);
        assert forall|k: int| 0 <= k < s.drop_last().len() implies q(#[trigger] s.drop_last()[k]) by {
            assert(s.drop_last()[k] == s[k]);
        }
        lemma_drop_matching_keeps(s.drop_last(), p, q);
        assert forall|k: int| 0 <= k < drop_matching(s, p).len() implies q(#[trigger] drop_matching(s, p)[k])
            && !p(drop_matching(s, p)[k]) by {
            if k < prev.len() {
                assert(drop_matching(s, p)[k] == prev[k]);
            }
        }
        if forall|k: int| 0 <= k < s.len() ==> !p(#[trigger] s[k]) {
            assert forall|k: int| 0 <= k < s.drop_last().len() implies !p(#[trigger] s.drop_last()[k]) by {
                assert(s.drop_last()[k] == s[k]);
            }
            assert(!p(s[s.len() - 1]));
            assert(drop_matching(s, p) =~= s);
        }
    }
}

/// The number text of an amount cell holds no whitespace and no thousands
/// separator, and is made only of the cell's own characters; a cell that
/// is a plain number already (digits and points, a digit first) is read
/// as it stands.
pub proof fn law_amount_text_clean(s: Seq<char>)
    ensures
        amount_text_spec(s) matches Some(t) ==> forall|k: int|
            0 <= k < t.len() ==> !is_ws(#[trigger] t[k]) && t[k] != ',' && s.contains(t[k]),
        s.len() > 0 && is_ascii_digit(s[0]) && (forall|k: int|
            0 <= k < s.len() ==> is_ascii_digit(#[trigger] s[k]) || s[k] == '.') ==> amount_text_spec(s) == Some(s),
{
    let inside = |c: char| s.contains(c);
    assert forall|k: int| 0 <= k < s.len() implies inside(#[trigger] s[k]) by {}
    let d = drop_matching(s, ws_pred());
    lemma_drop_matching_keeps(s, ws_pred(), inside);
    let not_ws = |c: char| s.contains(c) && !is_ws(c);
    assert forall|k: int| 0 <= k < d.len() implies not_ws(#[trigger] d[k]) by {}
    let c = strip_start(d, in_set(currency_marks()));
    lemma_lead_len_bound(d, in_set(currency_marks()));
    assert forall|k: int| 0 <= k < c.len() implies not_ws(#[trigger] c[k]) by {
        assert(c[k] == d[k + lead_len(d, in_set(currency_marks()))]);
    }
    lemma_drop_matching_keeps(c, in_set(seq![',']), not_ws);
    if let Some(t) = amount_text_spec(s) {
        let t2 = drop_matching(c, in_set(seq![',']));
        assert(t == t2);
        assert forall|k: int| 0 <= k < t.len() implies !is_ws(#[trigger] t[k]) && t[k] != ',' && s.contains(t[k]) by {
            assert(not_ws(t2[k]));
            assert(!in_set(seq![','])(t2[k]));
            if t2[k] == ',' {
                assert(seq![','][0] == ',');
            }
        }
    }
    if s.len() > 0 && is_ascii_digit(s[0]) && (forall|k: int| 0 <= k < s.len() ==> is_ascii_digit(#[trigger] s[k]) || s[k] == '.') {
        assert forall|k: int| 0 <= k < s.len() implies !ws_pred()(#[trigger] s[k]) by {
            assert(is_ascii_digit(s[k]) || s[k] == '.');
        }
        assert(d == s);
        assert(!currency_marks().contains(s[0])) by {
            if currency_marks().contains(s[0]) {
                let j = choose|j: int| 0 <= j < 4 && currency_marks()[j] == s[0];
            }
        }
        lemma_lead_len_at(s, in_set(currency_marks()), 0);
        assert(c =~= s);
        assert forall|k: int| 0 <= k < s.len() implies !in_set(seq![','])(#[trigger] s[k]) by {
            if seq![','].contains(s[k]) {
                let j = choose|j: int| 0 <= j < 1 && seq![','][j] == s[k];
            }
        }
        reveal_strlit("/");
        assert(s != "/"@) by {
            assert("/"@[0] == '/');
        }
    }
}

fn drop_ws(s: &[char]) -> (r: Vec<char>)
    ensures
        r@ == drop_matching(s@, ws_pred()),
{
    let mut out: Vec<char> = Vec::new();
    let mut i: usize = 0;
    while i < s.len()
        invariant
            i <= s@.len(),
            out@ == drop_matching(s@.take(i as int), ws_pred()),
        decreases s@.len() - i,
    {
        assert(s@.take(i + 1).drop_last() == s@.take(i as int));
        if !is_whitespace(s[i]) {
            out.push(s[i]);
        }
        i = i + 1;
    }
    assert(s@.take(s@.len() as int) == s@);
    out
}

fn drop_in(s: &[char], set: &[char]) -> (r: Vec<char>)
    ensures
        r@ == drop_matching(s@, in_set(set@)),
{
    let mut out: Vec<char> = Vec::new();
    let mut i: usize = 0;
    while i < s.len()
        invariant
            i <= s@.len(),
            out@ == drop_matching(s@.take(i as int), in_set(set@)),
        decreases s@.len() - i,
    {
        assert(s@.take(i + 1).drop_last() == s@.take(i as int));
        if !char_in(s[i], set) {
            out.push(s[i]);
        }
        i = i + 1;
    }
    assert(s@.take(s@.len() as int) == s@);
    out
}

/// The number text of an amount cell, ready to be read as a decimal
/// number: "¥ 1,234.50" gives "1234.50"; an empty cell, "/" and "#N/A"
/// give `None`.
pub fn amount_text(s: &str) -> (r: Option<String>)
    ensures
        opt_view(r) == amount_text_spec(s@),
{
    let cs = chars_of(s);
    let a = drop_ws(cs.as_slice());
    let marks = ['¥', '￥', '$', '€'];
    assert(marks@ == currency_marks());
    let c = strip_start_in(a.as_slice(), &marks);
    let cv = c.as_slice();
    let slash = chars_of("/");
    if c.len() == 0 || crate::text::chars_eq(cv, slash.as_slice()) || cv[0] == '#' {
        return None;
    }
    let comma = [','];
    assert(comma@ == seq![',']);
    let d = drop_in(cv, &comma);
    Some(string_of(d.as_slice()))
}

// ---------------------------------------------------------------------
// Fingerprints
// ---------------------------------------------------------------------

/// The key that tells a transaction already stored: "wx|" and the WeChat
/// transaction number when there is one, otherwise "ss|" and type, time,
/// amount (two decimals), merchant and both accounts, joined by '|'.
pub open spec fn fingerprint_spec(f: TxFieldsView, amount: Seq<char>) -> Seq<char> {
    let ss = "ss|"@ + f.tx_type + seq!['|'] + f.tx_time + seq!['|'] + amount + seq!['|'] + or_empty(
        f.merchant,
    ) + seq!['|'] + or_empty(f.account_out) + seq!['|'] + or_empty(f.account_in);
    match f.tx_no {
        Some(no) => if no.len() > 0 {
            "wx|"@ + no
        } else {
            ss
        },
        None => ss,
    }
}

/// The duplicate-detection key of a transaction; `amount` is its amount
/// written with two decimals.
pub fn fingerprint(f: &TxFields, amount: &str) -> (r: String)
    ensures
        r@ == fingerprint_spec(f@, amount@),
{
    match &f.tx_no {
        Some(no) => {
            if !no.as_str().is_empty() {
                let mut out = chars_of("wx|");
                let n = chars_of(no.as_str());
                push_all(&mut out, n.as_slice());
                return string_of(out.as_slice());
            }
        },
        None => {},
    }
    let mut out = chars_of("ss|");
    let t = chars_of(f.tx_type.as_str());
    push_all(&mut out, t.as_slice());
    out.push('|');
    let tm = chars_of(f.tx_time.as_str());
    push_all(&mut out, tm.as_slice());
    out.push('|');
    let a = chars_of(amount);
    push_all(&mut out, a.as_slice());
    out.push('|');
    let m = or_empty_chars(&f.merchant);
    push_all(&mut out, m.as_slice());
    out.push('|');
    let ao = or_empty_chars(&f.account_out);
    push_all(&mut out, ao.as_slice());
    out.push('|');
    let ai = or_empty_chars(&f.account_in);
    push_all(&mut out, ai.as_slice());
    assert(out@ =~= fingerprint_spec(f@, amount@));
    string_of(out.as_slice())
}

// ---------------------------------------------------------------------
// Header cells
// ---------------------------------------------------------------------

/// How a header cell may match a wanted column name.
#[derive(Debug, Clone, PartialEq, Eq)]
pub enum HeaderMatch {
    /// The cell is the name.
    Exact,
    /// The cell (two characters at least) holds the name or lies within it.
    Loose,
    /// The cell holds the name.
    Within,
}

pub open spec fn hit(h: Seq<char>, c: Seq<char>, m: HeaderMatch) -> bool {
    match m {
        HeaderMatch::Exact => h == c,
        HeaderMatch::Loose => h.len() >= 2 && (contains(h, c) || contains(c, h)),
        HeaderMatch::Within => contains(h, c),
    }
}

/// The first cell of `hs` that matches `c`.
pub open spec fn first_hit(hs: Seq<Seq<char>>, c: Seq<char>, m: HeaderMatch) -> Option<int>
    decreases hs.len(),
{
    if hs.len() == 0 {
        None
    } else {
        match first_hit(hs.drop_last(), c, m) {
            Some(i) => Some(i),
            None => if hit(hs.last(), c, m) {
                Some(hs.len() - 1)
            } else {
                None
            },
        }
    }
}

/// The first cell matching the first name of `cs` that some cell matches.
pub open spec fn scan_names(hs: Seq<Seq<char>>, cs: Seq<Seq<char>>, m: HeaderMatch) -> Option<int>
    decreases cs.len(),
{
    if cs.len() == 0 {
        None
    } else {
        match scan_names(hs, cs.drop_last(), m) {
            Some(i) => Some(i),
            None => first_hit(hs, cs.last(), m),
        }
    }
}

pub proof fn lemma_first_hit_extends(hs: Seq<Seq<char>>, c: Seq<char>, m: HeaderMatch, n: int)
    requires
        0 <= n <= hs.len(),
        first_hit(hs.take(n), c, m) is Some,
    ensures
        first_hit(hs, c, m) == first_hit(hs.take(n), c, m),
    decreases hs.len(),
{
    if n == hs.len() {
        assert(hs.take(n) == hs);
    } else {
        assert(hs.drop_last().take(n) == hs.take(n));
        lemma_first_hit_extends(hs.drop_last(), c, m, n);
    }
}

pub proof fn lemma_scan_extends(hs: Seq<Seq<char>>, cs: Seq<Seq<char>>, m: HeaderMatch, n: int)
    requires
        0 <= n <= cs.len(),
        scan_names(hs, cs.take(n), m) is Some,
    ensures
        scan_names(hs, cs, m) == scan_names(hs, cs.take(n), m),
    decreases cs.len(),
{
    if n == cs.len() {
        assert(cs.take(n) == cs);
    } else {
        assert(cs.drop_last().take(n) == cs.take(n));
        lemma_scan_extends(hs, cs.drop_last(), m, n);
    }
}

pub open spec fn str_views(v: Seq<String>) -> Seq<Seq<char>> {
    v.map_values(|s: String| s@)
}

pub open spec fn lit_views(v: Seq<&str>) -> Seq<Seq<char>> {
    v.map_values(|s: &str| s@)
}

fn hit_exec(h: &[char], c: &[char], m: &HeaderMatch) -> (r: bool)
    ensures
        r == hit(h@, c@, *m),
{
    match m {
        HeaderMatch::Exact => crate::text::chars_eq(h, c),
        HeaderMatch::Loose => h.len() >= 2 && (contains_exec(h, c) || contains_exec(c, h)),
        HeaderMatch::Within => contains_exec(h, c),
    }
}

fn first_hit_exec(hs: &Vec<Vec<char>>, c: &[char], m: &HeaderMatch) -> (r: Option<usize>)
    ensures
        match r {
            Some(i) => first_hit(crate::text::views(hs@), c@, *m) == Some(i as int),
            None => first_hit(crate::text::views(hs@), c@, *m) is None,
        },
{
    let ghost v = crate::text::views(hs@);
    let mut i: usize = 0;
    while i < hs.len()
        invariant
            i <= hs@.len(),
            v == crate::text::views(hs@),
            first_hit(v.take(i as int), c@, *m) is None,
        decreases hs@.len() - i,
    {
        assert(v.take(i + 1).drop_last() == v.take(i as int));
        assert(v.take(i + 1).last() == hs@[i as int]@);
        if hit_exec(hs[i].as_slice(), c, m) {
            proof {
                lemma_first_hit_extends(v, c@, *m, i + 1);
            }
            return Some(i);
        }
        i = i + 1;
    }
    assert(v.take(hs@.len() as int) == v);
    None
}

fn scan_names_exec(hs: &Vec<Vec<char>>, cs: &[&str], m: &HeaderMatch) -> (r: Option<usize>)
    ensures
        match r {
            Some(i) => scan_names(crate::text::views(hs@), lit_views(cs@), *m) == Some(i as int),
            None => scan_names(crate::text::views(hs@), lit_views(cs@), *m) is None,
        },
{
    let ghost v = crate::text::views(hs@);
    let ghost cv = lit_views(cs@);
    let mut k: usize = 0;
    while k < cs.len()
        invariant
            k <= cs@.len(),
            v == crate::text::views(hs@),
            cv == lit_views(cs@),
            scan_names(v, cv.take(k as int), *m) is None,
        decreases cs@.len() - k,
    {
        assert(cv.take(k + 1).drop_last() == cv.take(k as int));
        assert(cv.take(k + 1).last() == cs@[k as int]@);
        let c = chars_of(cs[k]);
        match first_hit_exec(hs, c.as_slice(), m) {
            Some(i) => {
                proof {
                    lemma_scan_extends(v, cv, *m, k + 1);
                }
                return Some(i);
            },
            None => {},
        }
        k = k + 1;
    }
    assert(cv.take(cs@.len() as int) == cv);
    None
}

fn all_chars(v: &Vec<String>) -> (r: Vec<Vec<char>>)
    ensures
        crate::text::views(r@) == str_views(v@),
{
    let mut out: Vec<Vec<char>> = Vec::new();
    let mut i: usize = 0;
    while i < v.len()
        invariant
            i <= v@.len(),
            out@.len() == i,
            forall|k: int| 0 <= k < i ==> (#[trigger] out@[k])@ == v@[k]@,
        decreases v@.len() - i,
    {
        out.push(chars_of(v[i].as_str()));
        i = i + 1;
    }
    assert(crate::text::views(out@) =~= str_views(v@));
    out
}

/// Where the annual ledger's header row puts a column: the first cell that
/// is one of the names (tried in order), else the first cell of two
/// characters at least that holds a name or lies within it.
pub open spec fn header_index_spec(hs: Seq<Seq<char>>, cs: Seq<Seq<char>>) -> Option<int> {
    match scan_names(hs, cs, HeaderMatch::Exact) {
        Some(i) => Some(i),
        None => scan_names(hs, cs, HeaderMatch::Loose),
    }
}

/// The column of the annual ledger's header row that `candidates` name.
pub fn header_index(headers: &Vec<String>, candidates: &[&str]) -> (r: Option<usize>)
    ensures
        match r {
            Some(i) => header_index_spec(str_views(headers@), lit_views(candidates@)) == Some(
                i as int,
            ),
            None => header_index_spec(str_views(headers@), lit_views(candidates@)) is None,
        },
{
    let hs = all_chars(headers);
    match scan_names_exec(&hs, candidates, &HeaderMatch::Exact) {
        Some(i) => Some(i),
        None => scan_names_exec(&hs, candidates, &HeaderMatch::Loose),
    }
}

/// Where a WeChat statement's header row puts a column: the first cell that
/// is one of the names (in order), else the first cell holding one.
pub open spec fn wechat_column_spec(hs: Seq<Seq<char>>, cs: Seq<Seq<char>>) -> Option<int> {
    match scan_names(hs, cs, HeaderMatch::Exact) {
        Some(i) => Some(i),
        None => scan_names(hs, cs, HeaderMatch::Within),
    }
}

/// The column of a WeChat statement's header row that `names` name.
pub fn wechat_column(headers: &Vec<String>, names: &[&str]) -> (r: Option<usize>)
    ensures
        match r {
            Some(i) => wechat_column_spec(str_views(headers@), lit_views(names@)) == Some(i as int),
            None => wechat_column_spec(str_views(headers@), lit_views(names@)) is None,
        },
{
    let hs = all_chars(headers);
    match scan_names_exec(&hs, names, &HeaderMatch::Exact) {
        Some(i) => Some(i),
        None => scan_names_exec(&hs, names, &HeaderMatch::Within),
    }
}


proof fn lemma_first_hit_at(hs: Seq<Seq<char>>, c: Seq<char>, m: HeaderMatch)
    ensures
        first_hit(hs, c, m) matches Some(i) ==> 0 <= i < hs.len() && hit(hs[i], c, m) && forall|j: int|
            0 <= j < i ==> !hit(#[trigger] hs[j], c, m),
        first_hit(hs, c, m) is None ==> forall|j: int| 0 <= j < hs.len() ==> !hit(#[trigger] hs[j], c, m),
    decreases hs.len(),
{
    if hs.len() > 0 {
        lemma_first_hit_at(hs.drop_last(), c, m);
        assert forall|j: int| 0 <= j < hs.len() - 1 implies #[trigger] hs[j] == hs.drop_last()[j] by {}
    }
}

proof fn lemma_scan_at(hs: Seq<Seq<char>>, cs: Seq<Seq<char>>, m: HeaderMatch)
    ensures
        scan_names(hs, cs, m) matches Some(i) ==> 0 <= i < hs.len() && exists|k: int|
            0 <= k < cs.len() && hit(hs[i], #[trigger] cs[k], m) && forall|q: int, j: int| 0 <= q < k && 0 <= j < hs.len() ==> !hit(#[trigger] hs[j], #[trigger] cs[q], m),
        scan_names(hs, cs, m) is None ==> forall|j: int, k: int|
            0 <= j < hs.len() && 0 <= k < cs.len() ==> !hit(#[trigger] hs[j], #[trigger] cs[k], m),
    decreases cs.len(),
{
    if cs.len() > 0 {
        let pre = cs.drop_last();
        lemma_scan_at(hs, pre, m);
        lemma_first_hit_at(hs, cs.last(), m);
        assert forall|k: int| 0 <= k < cs.len() - 1 implies #[trigger] cs[k] == pre[k] by {}
        match scan_names(hs, pre, m) {
            Some(i) => {
                let k = choose|k: int|
                    0 <= k < pre.len() && hit(hs[i], #[trigger] pre[k], m) && forall|q: int, j: int| 0 <= q < k && 0 <= j < hs.len() ==> !hit(#[trigger] hs[j], #[trigger] pre[q], m);
                assert(hit(hs[i], cs[k], m));
            },
            None => {
                if let Some(i) = first_hit(hs, cs.last(), m) {
                    let k = cs.len() - 1;
                    assert(hit(hs[i], cs[k], m));
                    assert forall|q: int, j: int| 0 <= q < k && 0 <= j < hs.len() implies !hit(
                        #[trigger] hs[j],
                        #[trigger] cs[q],
                        m,
                    ) by {
                        assert(cs[q] == pre[q]);
                    }
                }
            },
        }
    }
}

proof fn lemma_scan_first_name(hs: Seq<Seq<char>>, cs: Seq<Seq<char>>, m: HeaderMatch)
    requires
        cs.len() > 0,
        first_hit(hs, cs[0], m) is Some,
    ensures
        scan_names(hs, cs, m) == first_hit(hs, cs[0], m),
{
    assert(cs.take(1).drop_last() =~= Seq::<Seq<char>>::empty());
    assert(cs.take(1).last() == cs[0]);
    assert(scan_names(hs, cs.take(1).drop_last(), m) is None);
    assert(scan_names(hs, cs.take(1), m) == first_hit(hs, cs[0], m));
    lemma_scan_extends(hs, cs, m, 1);
}

/// Where a header row puts a column, read exactly: the result is a cell
/// that one of the names matches (the same, or, for the annual ledger, a
/// cell of two characters at least that holds a name or lies within it;
/// for a WeChat statement a cell that holds a name); a cell equal to a
/// name is preferred to any looser match, the first name that some cell
/// equals decides and its first such cell is taken; and no column is
/// found only when no cell matches any name at all.
pub proof fn law_header_columns(hs: Seq<Seq<char>>, cs: Seq<Seq<char>>)
    ensures
        header_index_spec(hs, cs) matches Some(i) ==> 0 <= i < hs.len() && exists|k: int|
            0 <= k < cs.len() && (hs[i] == #[trigger] cs[k] || hit(hs[i], cs[k], HeaderMatch::Loose)),
        wechat_column_spec(hs, cs) matches Some(i) ==> 0 <= i < hs.len() && exists|k: int|
            0 <= k < cs.len() && contains(hs[i], #[trigger] cs[k]),
        (exists|j: int, k: int| 0 <= j < hs.len() && 0 <= k < cs.len() && #[trigger] hs[j] == #[trigger] cs[k]) ==> {
            &&& header_index_spec(hs, cs) == scan_names(hs, cs, HeaderMatch::Exact)
            &&& wechat_column_spec(hs, cs) == scan_names(hs, cs, HeaderMatch::Exact)
            &&& scan_names(hs, cs, HeaderMatch::Exact) matches Some(i) && 0 <= i < hs.len() && cs.contains(hs[i])
        },
        cs.len() > 0 && hs.contains(cs[0]) ==> {
            &&& header_index_spec(hs, cs) matches Some(i) && 0 <= i < hs.len() && hs[i] == cs[0] && forall|j: int|
                0 <= j < i ==> #[trigger] hs[j] != cs[0]
            &&& wechat_column_spec(hs, cs) == header_index_spec(hs, cs)
        },
        header_index_spec(hs, cs) is None ==> forall|j: int, k: int|
            0 <= j < hs.len() && 0 <= k < cs.len() ==> #[trigger] hs[j] != #[trigger] cs[k] && !hit(
                hs[j],
                cs[k],
                HeaderMatch::Loose,
            ),
        wechat_column_spec(hs, cs) is None ==> forall|j: int, k: int|
            0 <= j < hs.len() && 0 <= k < cs.len() ==> !contains(#[trigger] hs[j], #[trigger] cs[k]),
{
    lemma_scan_at(hs, cs, HeaderMatch::Exact);
    lemma_scan_at(hs, cs, HeaderMatch::Loose);
    lemma_scan_at(hs, cs, HeaderMatch::Within);
    if exists|j: int, k: int| 0 <= j < hs.len() && 0 <= k < cs.len() && #[trigger] hs[j] == #[trigger] cs[k] {
        let (j, k) = choose|j: int, k: int| 0 <= j < hs.len() && 0 <= k < cs.len() && #[trigger] hs[j] == #[trigger] cs[k];
        assert(hit(hs[j], cs[k], HeaderMatch::Exact));
        let i = scan_names(hs, cs, HeaderMatch::Exact)->0;
        let k2 = choose|k2: int|
            0 <= k2 < cs.len() && hit(hs[i], #[trigger] cs[k2], HeaderMatch::Exact) && forall|q: int, j: int| 0 <= q < k2 && 0 <= j < hs.len() ==> !hit(#[trigger] hs[j], #[trigger] cs[q], HeaderMatch::Exact);
        assert(cs[k2] == hs[i]);
    }
    if cs.len() > 0 && hs.contains(cs[0]) {
        let j = choose|j: int| 0 <= j < hs.len() && hs[j] == cs[0];
        lemma_first_hit_at(hs, cs[0], HeaderMatch::Exact);
        assert(hit(hs[j], cs[0], HeaderMatch::Exact));
        lemma_scan_first_name(hs, cs, HeaderMatch::Exact);
        let i = first_hit(hs, cs[0], HeaderMatch::Exact)->0;
        assert forall|q: int| 0 <= q < i implies #[trigger] hs[q] != cs[0] by {
            assert(!hit(hs[q], cs[0], HeaderMatch::Exact));
        }
    }
    if header_index_spec(hs, cs) is None {
        assert forall|j: int, k: int| 0 <= j < hs.len() && 0 <= k < cs.len() implies #[trigger] hs[j]
            != #[trigger] cs[k] && !hit(hs[j], cs[k], HeaderMatch::Loose) by {
            assert(!hit(hs[j], cs[k], HeaderMatch::Exact));
        }
    }
    if let Some(i) = header_index_spec(hs, cs) {
        if scan_names(hs, cs, HeaderMatch::Exact) is Some {
            let k = choose|k: int|
                0 <= k < cs.len() && hit(hs[i], #[trigger] cs[k], HeaderMatch::Exact) && forall|q: int, j: int| 0 <= q < k && 0 <= j < hs.len() ==> !hit(#[trigger] hs[j], #[trigger] cs[q], HeaderMatch::Exact);
            assert(hs[i] == cs[k]);
        } else {
            let k = choose|k: int|
                0 <= k < cs.len() && hit(hs[i], #[trigger] cs[k], HeaderMatch::Loose) && forall|q: int, j: int| 0 <= q < k && 0 <= j < hs.len() ==> !hit(#[trigger] hs[j], #[trigger] cs[q], HeaderMatch::Loose);
            assert(hit(hs[i], cs[k], HeaderMatch::Loose));
        }
    }
    if let Some(i) = wechat_column_spec(hs, cs) {
        if scan_names(hs, cs, HeaderMatch::Exact) is Some {
            let k = choose|k: int|
                0 <= k < cs.len() && hit(hs[i], #[trigger] cs[k], HeaderMatch::Exact) && forall|q: int, j: int| 0 <= q < k && 0 <= j < hs.len() ==> !hit(#[trigger] hs[j], #[trigger] cs[q], HeaderMatch::Exact);
            assert(hs[i] == cs[k]);
            crate::rules::lemma_contains_self(hs[i]);
        } else {
            let k = choose|k: int|
                0 <= k < cs.len() && hit(hs[i], #[trigger] cs[k], HeaderMatch::Within) && forall|q: int, j: int| 0 <= q < k && 0 <= j < hs.len() ==> !hit(#[trigger] hs[j], #[trigger] cs[q], HeaderMatch::Within);
            assert(contains(hs[i], cs[k]));
        }
    }
    if wechat_column_spec(hs, cs) is None {
        assert forall|j: int, k: int| 0 <= j < hs.len() && 0 <= k < cs.len() implies !contains(
            #[trigger] hs[j],
            #[trigger] cs[k],
        ) by {
            assert(!hit(hs[j], cs[k], HeaderMatch::Within));
        }
    }
}

// ---------------------------------------------------------------------
// Annual ledger (multi-sheet Excel)
// ---------------------------------------------------------------------

/// The transaction types, in the order a sheet name is tested against them.
pub open spec fn tx_types() -> Seq<Seq<char>> {
    seq!["支出"@, "收入"@, "转账"@, "报销"@, "代付"@, "余额变更"@, "债权变更"@]
}

/// The first transaction type that a sheet name holds.
pub open spec fn sheet_type_from(name: Seq<char>, ts: Seq<Seq<char>>) -> Option<Seq<char>>
    decreases ts.len(),
{
    if ts.len() == 0 {
        None
    } else if contains(name, ts[0]) {
        Some(ts[0])
    } else {
        sheet_type_from(name, ts.drop_first())
    }
}

/// The transaction type of a ledger sheet, by its name; `None` for a sheet
/// that holds no transactions.
pub fn sheet_tx_type(sheet: &str) -> (r: Option<String>)
    ensures
        opt_view(r) == sheet_type_from(sheet@, tx_types()),
{
    let types: [&str; 7] = ["支出", "收入", "转账", "报销", "代付", "余额变更", "债权变更"];
    let ghost ts = tx_types();
    assert(lit_views(types@) =~= ts);
    assert(ts.skip(0) == ts);
    let name = chars_of(sheet);
    let mut i: usize = 0;
    while i < 7
        invariant
            i <= 7,
            ts == tx_types(),
            lit_views(types@) == ts,
            name@ == sheet@,
            sheet_type_from(sheet@, ts) == sheet_type_from(sheet@, ts.skip(i as int)),
        decreases 7 - i,
    {
        assert(ts.skip(i as int)[0] == types@[i as int]@);
        assert(ts.skip(i as int).drop_first() == ts.skip(i + 1));
        if contains_str(name.as_slice(), types[i]) {
            return Some(types[i].to_owned());
        }
        i = i + 1;
    }
    assert(ts.skip(7) =~= Seq::<Seq<char>>::empty());
    None
}

pub open spec fn count_nonempty(ts: Seq<Seq<char>>) -> nat
    decreases ts.len(),
{
    if ts.len() == 0 {
        0
    } else {
        count_nonempty(ts.drop_last()) + if ts.last().len() > 0 {
            1nat
        } else {
            0nat
        }
    }
}

/// A ledger header row: three non-empty cells at least, one that is "日期"
/// and one that holds "金额".
pub open spec fn is_ledger_header(ts: Seq<Seq<char>>) -> bool {
    &&& count_nonempty(ts) >= 3
    &&& exists|j: int| 0 <= j < ts.len() && ts[j] == "日期"@
    &&& exists|j: int| 0 <= j < ts.len() && contains(#[trigger] ts[j], "金额"@)
}

fn is_ledger_header_exec(ts: &Vec<String>) -> (r: bool)
    ensures
        r == is_ledger_header(str_views(ts@)),
{
    let ghost v = str_views(ts@);
    let mut n: usize = 0;
    let mut has_date = false;
    let mut has_amount = false;
    let mut i: usize = 0;
    while i < ts.len()
        invariant
            i <= ts@.len(),
            v == str_views(ts@),
            n == count_nonempty(v.take(i as int)),
            n <= i,
            has_date == exists|j: int| 0 <= j < i && v[j] == "日期"@,
            has_amount == exists|j: int| 0 <= j < i && contains(#[trigger] v[j], "金额"@),
        decreases ts@.len() - i,
    {
        assert(v.take(i + 1).drop_last() == v.take(i as int));
        assert(v[i as int] == ts@[i as int]@);
        let c = chars_of(ts[i].as_str());
        if c.len() > 0 {
            n = n + 1;
        }
        if str_eq(ts[i].as_str(), "日期") {
            has_date = true;
        }
        if contains_str(c.as_slice(), "金额") {
            has_amount = true;
        }
        i = i + 1;
    }
    assert(v.take(ts@.len() as int) == v);
    n >= 3 && has_date && has_amount
}

pub open spec fn row_views(rows: Seq<Vec<String>>) -> Seq<Seq<Seq<char>>> {
    rows.map_values(|r: Vec<String>| str_views(r@))
}

/// The index of a ledger sheet's header row: the first row that is one.
pub fn find_ledger_header(rows: &Vec<Vec<String>>) -> (r: Option<usize>)
    ensures
        match r {
            Some(i) => i < rows@.len() && is_ledger_header(row_views(rows@)[i as int]) && forall|j: int|
                0 <= j < i ==> !is_ledger_header(#[trigger] row_views(rows@)[j]),
            None => forall|j: int|
                0 <= j < rows@.len() ==> !is_ledger_header(#[trigger] row_views(rows@)[j]),
        },
{
    let ghost rv = row_views(rows@);
    let mut i: usize = 0;
    while i < rows.len()
        invariant
            i <= rows@.len(),
            rv == row_views(rows@),
            forall|j: int| 0 <= j < i ==> !is_ledger_header(#[trigger] rv[j]),
        decreases rows@.len() - i,
    {
        assert(rv[i as int] == str_views(rows@[i as int]@));
        if is_ledger_header_exec(&rows[i]) {
            return Some(i);
        }
        i = i + 1;
    }
    None
}

pub open spec fn opt_int(o: Option<usize>) -> Option<int> {
    match o {
        Some(i) => Some(i as int),
        None => None,
    }
}

/// The names of the ledger's columns, slot by slot: date, first-level
/// category, second-level category, outgoing account, incoming account,
/// currency, amount, member, merchant, project category, project, booker,
/// remark.
pub open spec fn ledger_slot_names() -> Seq<Seq<Seq<char>>> {
    seq![
        seq!["日期"@, "交易时间"@],
        seq!["一级分类"@, "分类"@],
        seq!["二级分类"@],
        seq!["转出账户"@, "支出账户"@, "账户"@],
        seq!["转入账户"@, "收入账户"@],
        seq!["账户币种"@, "币种"@],
        seq!["金额"@],
        seq!["成员"@],
        seq!["商家"@],
        seq!["项目分类"@],
        seq!["项目"@],
        seq!["记账人"@],
        seq!["备注"@],
    ]
}

fn push_slot(out: &mut Vec<Option<usize>>, header: &Vec<String>, names: &[&str], Ghost(want): Ghost<Seq<Seq<char>>>)
    requires
        lit_views(names@) == want,
    ensures
        final(out)@ == old(out)@.push(final(out)@.last()),
        opt_int(final(out)@.last()) == header_index_spec(str_views(header@), want),
{
    let i = header_index(header, names);
    out.push(i);
}

/// The column of each ledger slot (see `ledger_slot_names`), found in the
/// header row; a 14th slot stays empty.
pub fn ledger_columns(header: &Vec<String>) -> (r: Vec<Option<usize>>)
    ensures
        r@.len() == 14,
        forall|k: int|
            0 <= k < 13 ==> opt_int(#[trigger] r@[k]) == header_index_spec(
                str_views(header@),
                ledger_slot_names()[k],
            ),
        r@[13] is None,
{
    let ghost sn = ledger_slot_names();
    let mut out: Vec<Option<usize>> = Vec::new();
    let a0: [&str; 2] = ["日期", "交易时间"];
    assert(lit_views(a0@) =~= sn[0]);
    push_slot(&mut out, header, &a0, Ghost(sn[0]));
    let a1: [&str; 2] = ["一级分类", "分类"];
    assert(lit_views(a1@) =~= sn[1]);
    push_slot(&mut out, header, &a1, Ghost(sn[1]));
    let a2: [&str; 1] = ["二级分类"];
    assert(lit_views(a2@) =~= sn[2]);
    push_slot(&mut out, header, &a2, Ghost(sn[2]));
    let a3: [&str; 3] = ["转出账户", "支出账户", "账户"];
    assert(lit_views(a3@) =~= sn[3]);
    push_slot(&mut out, header, &a3, Ghost(sn[3]));
    let a4: [&str; 2] = ["转入账户", "收入账户"];
    assert(lit_views(a4@) =~= sn[4]);
    push_slot(&mut out, header, &a4, Ghost(sn[4]));
    let a5: [&str; 2] = ["账户币种", "币种"];
    assert(lit_views(a5@) =~= sn[5]);
    push_slot(&mut out, header, &a5, Ghost(sn[5]));
    let a6: [&str; 1] = ["金额"];
    assert(lit_views(a6@) =~= sn[6]);
    push_slot(&mut out, header, &a6, Ghost(sn[6]));
    let a7: [&str; 1] = ["成员"];
    assert(lit_views(a7@) =~= sn[7]);
    push_slot(&mut out, header, &a7, Ghost(sn[7]));
    let a8: [&str; 1] = ["商家"];
    assert(lit_views(a8@) =~= sn[8]);
    push_slot(&mut out, header, &a8, Ghost(sn[8]));
    let a9: [&str; 1] = ["项目分类"];
    assert(lit_views(a9@) =~= sn[9]);
    push_slot(&mut out, header, &a9, Ghost(sn[9]));
    let a10: [&str; 1] = ["项目"];
    assert(lit_views(a10@) =~= sn[10]);
    push_slot(&mut out, header, &a10, Ghost(sn[10]));
    let a11: [&str; 1] = ["记账人"];
    assert(lit_views(a11@) =~= sn[11]);
    push_slot(&mut out, header, &a11, Ghost(sn[11]));
    let a12: [&str; 1] = ["备注"];
    assert(lit_views(a12@) =~= sn[12]);
    push_slot(&mut out, header, &a12, Ghost(sn[12]));
    out.push(None);
    out
}

/// The text of the cell at `idx` (empty when there is no such cell).
pub open spec fn cell_spec(ts: Seq<Seq<char>>, idx: Option<int>) -> Seq<char> {
    match idx {
        Some(i) => if 0 <= i < ts.len() {
            ts[i]
        } else {
            seq![]
        },
        None => seq![],
    }
}

fn cell(ts: &Vec<String>, idx: Option<usize>) -> (r: String)
    ensures
        r@ == cell_spec(str_views(ts@), opt_int(idx)),
{
    match idx {
        Some(i) => if i < ts.len() {
            ts[i].clone()
        } else {
            String::new()
        },
        None => String::new(),
    }
}

/// The record of a ledger row of a sheet of type `tx_type`, its time
/// already read: the slots' cells, empty ones as `None`, currency "CNY"
/// when its cell is empty.
pub open spec fn ledger_fields_spec(
    tx_type: Seq<char>,
    time: Seq<char>,
    ts: Seq<Seq<char>>,
    cols: Seq<Option<usize>>,
    path: Seq<char>,
) -> TxFieldsView {
    let g = |k: int| cell_spec(ts, opt_int(cols[k]));
    TxFieldsView {
        tx_type,
        tx_time: time,
        l1: nonempty_or_none(g(1)),
        l2: nonempty_or_none(g(2)),
        l3: None,
        account_out: nonempty_or_none(g(3)),
        account_in: nonempty_or_none(g(4)),
        currency: Some(
            if g(5).len() == 0 {
                "CNY"@
            } else {
                g(5)
            },
        ),
        member: nonempty_or_none(g(7)),
        merchant: nonempty_or_none(g(8)),
        project_category: nonempty_or_none(g(9)),
        project: nonempty_or_none(g(10)),
        booker: nonempty_or_none(g(11)),
        remark: nonempty_or_none(g(12)),
        tx_no: None,
        source: Some("import:suishouji"@),
        source_file: Some(path),
    }
}

/// Builds the record of a ledger data row from its cell texts.
pub fn ledger_fields(tx_type: &str, time: String, ts: &Vec<String>, cols: &Vec<Option<usize>>, path: &str) -> (r: TxFields)
    requires
        cols@.len() >= 13,
    ensures
        r@ == ledger_fields_spec(tx_type@, time@, str_views(ts@), cols@, path@),
{
    TxFields {
        tx_type: tx_type.to_owned(),
        tx_time: time,
        l1: opt_nonempty(cell(ts, cols[1])),
        l2: opt_nonempty(cell(ts, cols[2])),
        l3: None,
        account_out: opt_nonempty(cell(ts, cols[3])),
        account_in: opt_nonempty(cell(ts, cols[4])),
        currency: some_or_default(cell(ts, cols[5]), "CNY"),
        member: opt_nonempty(cell(ts, cols[7])),
        merchant: opt_nonempty(cell(ts, cols[8])),
        project_category: opt_nonempty(cell(ts, cols[9])),
        project: opt_nonempty(cell(ts, cols[10])),
        booker: opt_nonempty(cell(ts, cols[11])),
        remark: opt_nonempty(cell(ts, cols[12])),
        tx_no: None,
        source: Some("import:suishouji".to_owned()),
        source_file: Some(path.to_owned()),
    }
}


// ---------------------------------------------------------------------
// WeChat Pay statements
// ---------------------------------------------------------------------

/// A WeChat header row: a cell that is "交易时间", and one that holds
/// "交易对方" or "收/支".
pub open spec fn is_wechat_header(ts: Seq<Seq<char>>) -> bool {
    &&& exists|j: int| 0 <= j < ts.len() && ts[j] == "交易时间"@
    &&& (exists|j: int| 0 <= j < ts.len() && contains(#[trigger] ts[j], "交易对方"@)) || (exists|
        j: int,
    |
        0 <= j < ts.len() && contains(#[trigger] ts[j], "收/支"@))
}

fn is_wechat_header_exec(ts: &Vec<String>) -> (r: bool)
    ensures
        r == is_wechat_header(str_views(ts@)),
{
    let ghost v = str_views(ts@);
    let mut has_time = false;
    let mut has_party = false;
    let mut has_dir = false;
    let mut i: usize = 0;
    while i < ts.len()
        invariant
            i <= ts@.len(),
            v == str_views(ts@),
            has_time == exists|j: int| 0 <= j < i && v[j] == "交易时间"@,
            has_party == exists|j: int| 0 <= j < i && contains(#[trigger] v[j], "交易对方"@),
            has_dir == exists|j: int| 0 <= j < i && contains(#[trigger] v[j], "收/支"@),
        decreases ts@.len() - i,
    {
        assert(v[i as int] == ts@[i as int]@);
        let c = chars_of(ts[i].as_str());
        if str_eq(ts[i].as_str(), "交易时间") {
            has_time = true;
        }
        if contains_str(c.as_slice(), "交易对方") {
            has_party = true;
        }
        if contains_str(c.as_slice(), "收/支") {
            has_dir = true;
        }
        i = i + 1;
    }
    has_time && (has_party || has_dir)
}

/// The index of a WeChat statement's header row: the first of the first 30
/// rows that is one.
pub fn find_wechat_header(rows: &Vec<Vec<String>>) -> (r: Option<usize>)
    ensures
        match r {
            Some(i) => i < rows@.len() && i < 30 && is_wechat_header(row_views(rows@)[i as int])
                && forall|j: int| 0 <= j < i ==> !is_wechat_header(#[trigger] row_views(rows@)[j]),
            None => forall|j: int|
                0 <= j < rows@.len() && j < 30 ==> !is_wechat_header(
                    #[trigger] row_views(rows@)[j],
                ),
        },
{
    let ghost rv = row_views(rows@);
    let mut i: usize = 0;
    while i < rows.len() && i < 30
        invariant
            i <= rows@.len(),
            i <= 30,
            rv == row_views(rows@),
            forall|j: int| 0 <= j < i ==> !is_wechat_header(#[trigger] rv[j]),
        decreases rows@.len() - i,
    {
        assert(rv[i as int] == str_views(rows@[i as int]@));
        if is_wechat_header_exec(&rows[i]) {
            return Some(i);
        }
        i = i + 1;
    }
    None
}

/// Where the columns of a WeChat statement are.
#[derive(Debug, Clone, PartialEq, Eq)]
pub struct WechatColumns {
    pub time: usize,
    pub counterparty: usize,
    pub goods: Option<usize>,
    pub dir: usize,
    pub amount: usize,
    pub pay: Option<usize>,
    pub status: Option<usize>,
    pub txno: Option<usize>,
    pub remark: Option<usize>,
}

pub open spec fn col(hs: Seq<Seq<char>>, names: Seq<Seq<char>>) -> Option<int> {
    wechat_column_spec(hs, names)
}

/// The columns of a WeChat statement from its header row; the time,
/// counterparty, direction and amount columns must all be there, and the
/// error names the first one missing.
pub fn wechat_columns(headers: &Vec<String>) -> (r: Result<WechatColumns, String>)
    ensures
        ({
            let hs = str_views(headers@);
            let t = col(hs, seq!["交易时间"@]);
            let p = col(hs, seq!["交易对方"@]);
            let d = col(hs, seq!["收/支"@]);
            let a = col(hs, seq!["金额(元)"@, "金额"@]);
            match r {
                Ok(c) => {
                    &&& t == Some(c.time as int)
                    &&& p == Some(c.counterparty as int)
                    &&& d == Some(c.dir as int)
                    &&& a == Some(c.amount as int)
                    &&& opt_int(c.goods) == col(hs, seq!["商品"@])
                    &&& opt_int(c.pay) == col(hs, seq!["支付方式"@])
                    &&& opt_int(c.status) == col(hs, seq!["当前状态"@])
                    &&& opt_int(c.txno) == col(hs, seq!["交易单号"@])
                    &&& opt_int(c.remark) == col(hs, seq!["备注"@])
                },
                Err(e) => {
                    ||| (t is None && e@ == "缺少「交易时间」列"@)
                    ||| (t is Some && p is None && e@ == "缺少「交易对方」列"@)
                    ||| (t is Some && p is Some && d is None && e@ == "缺少「收/支」列"@)
                    ||| (t is Some && p is Some && d is Some && a is None && e@ == "缺少「金额」列"@)
                },
            }
        }),
{
    let n_time: [&str; 1] = ["交易时间"];
    assert(lit_views(n_time@) =~= seq!["交易时间"@]);
    let time = match wechat_column(headers, &n_time) {
        Some(i) => i,
        None => return Err("缺少「交易时间」列".to_owned()),
    };
    let n_party: [&str; 1] = ["交易对方"];
    assert(lit_views(n_party@) =~= seq!["交易对方"@]);
    let counterparty = match wechat_column(headers, &n_party) {
        Some(i) => i,
        None => return Err("缺少「交易对方」列".to_owned()),
    };
    let n_goods: [&str; 1] = ["商品"];
    assert(lit_views(n_goods@) =~= seq!["商品"@]);
    let goods = wechat_column(headers, &n_goods);
    let n_dir: [&str; 1] = ["收/支"];
    assert(lit_views(n_dir@) =~= seq!["收/支"@]);
    let dir = match wechat_column(headers, &n_dir) {
        Some(i) => i,
        None => return Err("缺少「收/支」列".to_owned()),
    };
    let n_amount: [&str; 2] = ["金额(元)", "金额"];
    assert(lit_views(n_amount@) =~= seq!["金额(元)"@, "金额"@]);
    let amount = match wechat_column(headers, &n_amount) {
        Some(i) => i,
        None => return Err("缺少「金额」列".to_owned()),
    };
    let n_pay: [&str; 1] = ["支付方式"];
    assert(lit_views(n_pay@) =~= seq!["支付方式"@]);
    let n_status: [&str; 1] = ["当前状态"];
    assert(lit_views(n_status@) =~= seq!["当前状态"@]);
    let n_txno: [&str; 1] = ["交易单号"];
    assert(lit_views(n_txno@) =~= seq!["交易单号"@]);
    let n_remark: [&str; 1] = ["备注"];
    assert(lit_views(n_remark@) =~= seq!["备注"@]);
    Ok(
        WechatColumns {
            time,
            counterparty,
            goods,
            dir,
            amount,
            pay: wechat_column(headers, &n_pay),
            status: wechat_column(headers, &n_status),
            txno: wechat_column(headers, &n_txno),
            remark: wechat_column(headers, &n_remark),
        },
    )
}

/// The transaction type of a WeChat row by its "收/支" cell: expenses and
/// income only ("中性" rows and the like are skipped).
pub open spec fn wechat_type_spec(dir: Seq<char>) -> Option<Seq<char>> {
    if dir == "支出"@ {
        Some("支出"@)
    } else if dir == "收入"@ {
        Some("收入"@)
    } else {
        None
    }
}

pub fn wechat_tx_type(dir: &str) -> (r: Option<&'static str>)
    ensures
        match r {
            Some(t) => wechat_type_spec(dir@) == Some(t@),
            None => wechat_type_spec(dir@) is None,
        },
{
    if str_eq(dir, "支出") {
        Some("支出")
    } else if str_eq(dir, "收入") {
        Some("收入")
    } else {
        None
    }
}

/// The rule kind of a transaction type: income for "收入", expense otherwise.
pub open spec fn kind_of_type(tx_type: Seq<char>) -> Seq<char> {
    if tx_type == "收入"@ {
        "income"@
    } else {
        "expense"@
    }
}

pub fn kind_of_tx_type(tx_type: &str) -> (r: &'static str)
    ensures
        r@ == kind_of_type(tx_type@),
{
    if str_eq(tx_type, "收入") {
        "income"
    } else {
        "expense"
    }
}

/// A payment status that needs no mention in the remark.
pub open spec fn plain_status(status: Seq<char>) -> bool {
    status.len() == 0 || status == "支付成功"@ || status == "已存入零钱"@ || status == "已收款"@
}

/// The remark of a WeChat row: its remark cell, or else the goods text;
/// then an unusual status in brackets after it.
pub open spec fn wechat_remark_spec(remark: Seq<char>, goods: Seq<char>, status: Seq<char>) -> Seq<char> {
    let r = if remark.len() == 0 && goods.len() > 0 {
        goods
    } else {
        remark
    };
    if plain_status(status) {
        r
    } else if r.len() == 0 {
        seq!['('] + status + seq![')']
    } else {
        r + " ("@ + status + seq![')']
    }
}

pub fn wechat_remark(remark: &str, goods: &str, status: &str) -> (r: String)
    ensures
        r@ == wechat_remark_spec(remark@, goods@, status@),
{
    let mut base = if remark.is_empty() && !goods.is_empty() {
        chars_of(goods)
    } else {
        chars_of(remark)
    };
    let plain = status.is_empty() || str_eq(status, "支付成功") || str_eq(status, "已存入零钱")
        || str_eq(status, "已收款");
    if plain {
        return string_of(base.as_slice());
    }
    let st = chars_of(status);
    let mut out: Vec<char>;
    if base.len() == 0 {
        out = Vec::new();
        out.push('(');
    } else {
        out = base;
        let sp = chars_of(" (");
        push_all(&mut out, sp.as_slice());
    }
    push_all(&mut out, st.as_slice());
    out.push(')');
    assert(out@ =~= wechat_remark_spec(remark@, goods@, status@));
    string_of(out.as_slice())
}

/// An empty status, or one of the usual ones (支付成功, 已存入零钱, 已收款),
/// adds nothing: the remark is the remark cell, or else the goods text.
/// Any other status is named in brackets at the end, after that text.
pub proof fn law_wechat_remark_status(remark: Seq<char>, goods: Seq<char>, status: Seq<char>)
    ensures
        ({
            let base = if remark.len() == 0 { goods } else { remark };
            let r = wechat_remark_spec(remark, goods, status);
            &&& (status.len() == 0 || status == "支付成功"@ || status == "已存入零钱"@ || status == "已收款"@) ==> r
                == base
            &&& !(status.len() == 0 || status == "支付成功"@ || status == "已存入零钱"@ || status == "已收款"@) ==> {
                &&& r.len() == base.len() + (if base.len() == 0 { 0int } else { 1int }) + status.len() + 2
                &&& r.subrange(0, base.len() as int) == base
                &&& r.subrange(r.len() - status.len() - 2, r.len() as int) == seq!['('] + status + seq![')']
            }
        }),
{
    let base = if remark.len() == 0 { goods } else { remark };
    let r = wechat_remark_spec(remark, goods, status);
    reveal_strlit(" (");
    assert(" ("@ =~= seq![' ', '(']);
    if !plain_status(status) {
        if base.len() == 0 {
            assert(r =~= seq!['('] + status + seq![')']);
            assert(r.subrange(0, 0) =~= base);
            assert(r.subrange(r.len() - status.len() - 2, r.len() as int) =~= r);
        } else {
            assert(r =~= base + " ("@ + status + seq![')']);
            assert(r.subrange(0, base.len() as int) =~= base);
            assert(r.subrange(r.len() - status.len() - 2, r.len() as int) =~= seq!['('] + status + seq![')']);
        }
    }
}

/// The record of a WeChat row: the payment method is the outgoing account
/// of an expense and the incoming account of an income; currency "CNY".
pub open spec fn wechat_fields_spec(
    tx_type: Seq<char>,
    time: Seq<char>,
    merchant: Seq<char>,
    account: Option<Seq<char>>,
    remark: Seq<char>,
    txno: Seq<char>,
    path: Seq<char>,
) -> TxFieldsView {
    TxFieldsView {
        tx_type,
        tx_time: time,
        l1: None,
        l2: None,
        l3: None,
        account_out: if tx_type == "支出"@ {
            account
        } else {
            None
        },
        account_in: if tx_type == "收入"@ {
            account
        } else {
            None
        },
        currency: Some("CNY"@),
        member: None,
        merchant: nonempty_or_none(merchant),
        project_category: None,
        project: None,
        booker: None,
        remark: nonempty_or_none(remark),
        tx_no: nonempty_or_none(txno),
        source: Some("import:wechat"@),
        source_file: Some(path),
    }
}

/// The payment method of a WeChat row is the one account its record
/// touches: an expense takes the amount out of it, an income puts the
/// amount into it.
pub proof fn law_wechat_account_postings(
    tx_type: Seq<char>,
    time: Seq<char>,
    merchant: Seq<char>,
    account: Seq<char>,
    remark: Seq<char>,
    txno: Seq<char>,
    path: Seq<char>,
)
    requires
        account.len() > 0,
    ensures
        ({
            let f = wechat_fields_spec(tx_type, time, merchant, Some(account), remark, txno, path);
            &&& tx_type == "支出"@ ==> crate::stats::postings_spec(f.tx_type, f.account_out, f.account_in) == seq![
                (account, -1int),
            ]
            &&& tx_type == "收入"@ ==> crate::stats::postings_spec(f.tx_type, f.account_out, f.account_in) == seq![
                (account, 1int),
            ]
        }),
{
    let f = wechat_fields_spec(tx_type, time, merchant, Some(account), remark, txno, path);
    reveal_strlit("支出");
    reveal_strlit("收入");
    assert("支出"@[0] != "收入"@[0]);
    crate::stats::law_expense_and_income_sides(tx_type, f.account_out, f.account_in, account);
}

fn clone_opt_string(o: &Option<String>) -> (r: Option<String>)
    ensures
        opt_view(r) == opt_view(*o),
{
    match o {
        Some(s) => Some(s.clone()),
        None => None,
    }
}

/// Builds the record of a WeChat row (not yet classified).
pub fn wechat_fields(
    tx_type: &str,
    time: String,
    merchant: &str,
    account: Option<String>,
    remark: String,
    txno: String,
    path: &str,
) -> (r: TxFields)
    ensures
        r@ == wechat_fields_spec(tx_type@, time@, merchant@, opt_view(account), remark@, txno@, path@),
{
    let is_out = str_eq(tx_type, "支出");
    let is_in = str_eq(tx_type, "收入");
    TxFields {
        tx_type: tx_type.to_owned(),
        tx_time: time,
        l1: None,
        l2: None,
        l3: None,
        account_out: if is_out {
            clone_opt_string(&account)
        } else {
            None
        },
        account_in: if is_in {
            account
        } else {
            None
        },
        currency: Some("CNY".to_owned()),
        member: None,
        merchant: opt_nonempty(merchant.to_owned()),
        project_category: None,
        project: None,
        booker: None,
        remark: opt_nonempty(remark),
        tx_no: opt_nonempty(txno),
        source: Some("import:wechat".to_owned()),
        source_file: Some(path.to_owned()),
    }
}

/// Where a WeChat row goes.
#[derive(Debug, Clone, PartialEq, Eq)]
pub enum WechatRoute {
    /// A rule gave it this category.
    Classified(String, Option<String>),
    /// Its merchant is new: it waits in the pending queue for the user.
    Pending,
    /// It takes the fallback category.
    Fallback,
}

/// Where a WeChat row of `kind` with this merchant and goods text goes,
/// given the rules in order of precedence: the category of the first rule
/// that applies; else the pending queue for a new merchant (prompting
/// on, merchant not empty, no enabled rule covering it); else the
/// fallback category.
pub open spec fn route_fits(
    rv: Seq<RuleView>,
    kind: Seq<char>,
    merchant: Seq<char>,
    goods: Seq<char>,
    prompt: bool,
    r: WechatRoute,
) -> bool {
    let none = forall|i: int| 0 <= i < rv.len() ==> !rule_applies(#[trigger] rv[i], kind, merchant, goods);
    let new_merchant = prompt && merchant.len() > 0 && !known_by(rv, merchant);
    match r {
        WechatRoute::Classified(l1, l2) => exists|i: int|
            first_applying(rv, kind, merchant, goods, i) && l1@ == rv[i].l1 && opt_view(l2) == rv[i].l2,
        WechatRoute::Pending => none && new_merchant,
        WechatRoute::Fallback => none && !new_merchant,
    }
}

/// Routes a WeChat row: a rule that applies classifies it; otherwise a new
/// merchant (prompting on, merchant not empty, no enabled rule covering it)
/// sends it to the pending queue; otherwise it takes the fallback category.
pub fn wechat_route(rules: &Vec<Rule>, kind: &str, merchant: &str, goods: &str, prompt: bool) -> (r: WechatRoute)
    ensures
        route_fits(rule_views(rules@), kind@, merchant@, goods@, prompt, r),
{
    match classify(rules, kind, merchant, goods) {
        Some((l1, l2)) => WechatRoute::Classified(l1, l2),
        None => {
            if prompt && !merchant.is_empty() && !merchant_known(rules, merchant) {
                WechatRoute::Pending
            } else {
                WechatRoute::Fallback
            }
        },
    }
}

// ---------------------------------------------------------------------
// Report counters
// ---------------------------------------------------------------------

/// What storing a record came to.
#[derive(Debug, Clone, PartialEq, Eq)]
pub enum InsertOutcome {
    Inserted,
    Duplicate,
    Failed,
}

/// Counts a stored record: inserted, duplicate (its fingerprint was there)
/// or skipped (the store failed).
pub fn tally_insert(report: &mut ImportReport, outcome: InsertOutcome)
    requires
        old(report).inserted < i64::MAX,
        old(report).duplicates < i64::MAX,
        old(report).skipped < i64::MAX,
    ensures
        final(report).inserted == old(report).inserted + (if outcome is Inserted {
            1int
        } else {
            0
        }),
        final(report).duplicates == old(report).duplicates + (if outcome is Duplicate {
            1int
        } else {
            0
        }),
        final(report).skipped == old(report).skipped + (if outcome is Failed {
            1int
        } else {
            0
        }),
        final(report).total_rows == old(report).total_rows,
        final(report).pending == old(report).pending,
        final(report).pending_merchants@ == old(report).pending_merchants@,
        final(report).sheet_stats@ == old(report).sheet_stats@,
{
    match outcome {
        InsertOutcome::Inserted => report.inserted = report.inserted + 1,
        InsertOutcome::Duplicate => report.duplicates = report.duplicates + 1,
        InsertOutcome::Failed => report.skipped = report.skipped + 1,
    }
}

pub open spec fn str_list(v: Seq<String>) -> Seq<Seq<char>> {
    v.map_values(|s: String| s@)
}

/// Counts a row sent to the pending queue: when the queue took it, one
/// more pending row and its merchant listed once; when the queue had it
/// already, a duplicate.
pub fn tally_pending(report: &mut ImportReport, queued: bool, merchant: String)
    requires
        old(report).pending < i64::MAX,
        old(report).duplicates < i64::MAX,
    ensures
        queued ==> final(report).pending == old(report).pending + 1 && final(report).duplicates
            == old(report).duplicates && str_list(final(report).pending_merchants@) == (if str_list(
            old(report).pending_merchants@,
        ).contains(merchant@) {
            str_list(old(report).pending_merchants@)
        } else {
            str_list(old(report).pending_merchants@).push(merchant@)
        }),
        !queued ==> final(report).duplicates == old(report).duplicates + 1 && final(report).pending
            == old(report).pending && final(report).pending_merchants@ == old(
            report,
        ).pending_merchants@,
        final(report).inserted == old(report).inserted,
        final(report).skipped == old(report).skipped,
        final(report).total_rows == old(report).total_rows,
        final(report).sheet_stats@ == old(report).sheet_stats@,
{
    if !queued {
        report.duplicates = report.duplicates + 1;
        return ;
    }
    report.pending = report.pending + 1;
    let ghost names = str_list(report.pending_merchants@);
    let mut found = false;
    let mut i: usize = 0;
    while i < report.pending_merchants.len()
        invariant
            i <= report.pending_merchants@.len(),
            names == str_list(report.pending_merchants@),
            found == exists|j: int| 0 <= j < i && names[j] == merchant@,
        decreases report.pending_merchants@.len() - i,
    {
        assert(names[i as int] == report.pending_merchants@[i as int]@);
        if report.pending_merchants[i].eq(&merchant) {
            found = true;
        }
        i = i + 1;
    }
    if !found {
        let ghost before = report.pending_merchants@;
        report.pending_merchants.push(merchant);
        assert(str_list(report.pending_merchants@) =~= str_list(before).push(merchant@));
    } else {
        assert(names.contains(merchant@));
    }
}

/// Adds a finished ledger sheet's counters to the report and lists it.
pub fn tally_sheet(report: &mut ImportReport, stat: SheetStat)
    requires
        old(report).total_rows + stat.rows <= i64::MAX,
        old(report).inserted + stat.inserted <= i64::MAX,
        old(report).duplicates + stat.duplicates <= i64::MAX,
        old(report).total_rows + stat.rows >= i64::MIN,
        old(report).inserted + stat.inserted >= i64::MIN,
        old(report).duplicates + stat.duplicates >= i64::MIN,
    ensures
        final(report).total_rows == old(report).total_rows + stat.rows,
        final(report).inserted == old(report).inserted + stat.inserted,
        final(report).duplicates == old(report).duplicates + stat.duplicates,
        final(report).sheet_stats@ == old(report).sheet_stats@.push(stat),
        final(report).skipped == old(report).skipped,
        final(report).pending == old(report).pending,
{
    report.total_rows = report.total_rows + stat.rows;
    report.inserted = report.inserted + stat.inserted;
    report.duplicates = report.duplicates + stat.duplicates;
    report.sheet_stats.push(stat);
}

// ---------------------------------------------------------------------
// One data row at a time
// ---------------------------------------------------------------------

/// A row with no text in any cell.
pub open spec fn all_blank(ts: Seq<Seq<char>>) -> bool {
    forall|j: int| 0 <= j < ts.len() ==> (#[trigger] ts[j]).len() == 0
}

fn all_blank_exec(ts: &Vec<String>) -> (r: bool)
    ensures
        r == all_blank(str_views(ts@)),
{
    let mut i: usize = 0;
    while i < ts.len()
        invariant
            i <= ts@.len(),
            forall|j: int| 0 <= j < i ==> (#[trigger] ts@[j])@.len() == 0,
        decreases ts@.len() - i,
    {
        if ts[i].unicode_len() > 0 {
            assert(str_views(ts@)[i as int] == ts@[i as int]@);
            return false;
        }
        i = i + 1;
    }
    assert forall|j: int| 0 <= j < ts@.len() implies (#[trigger] str_views(ts@)[j]).len() == 0 by {
        assert(str_views(ts@)[j] == ts@[j]@);
    }
    true
}

/// What a data row of a ledger sheet comes to.
#[derive(Debug, Clone, PartialEq, Eq)]
pub enum LedgerRow {
    /// A row without any text: passed over.
    Blank,
    /// A row whose time or amount cannot be read: counted as skipped.
    Skip,
    /// The record of the row.
    Read(TxFields),
}

/// Reads a data row of a ledger sheet of type `tx_type`: `time` is what
/// its date cell reads as, `amount_ok` whether its amount cell reads as a
/// number.
pub fn ledger_row(
    tx_type: &str,
    ts: &Vec<String>,
    cols: &Vec<Option<usize>>,
    time: Option<String>,
    amount_ok: bool,
    path: &str,
) -> (r: LedgerRow)
    requires
        cols@.len() >= 13,
    ensures
        match r {
            LedgerRow::Blank => time is None && all_blank(str_views(ts@)),
            LedgerRow::Skip => (time is None && !all_blank(str_views(ts@))) || (time is Some && !amount_ok),
            LedgerRow::Read(f) => time is Some && amount_ok && f@ == ledger_fields_spec(
                tx_type@,
                time->0@,
                str_views(ts@),
                cols@,
                path@,
            ),
        },
{
    match time {
        None => if all_blank_exec(ts) {
            LedgerRow::Blank
        } else {
            LedgerRow::Skip
        },
        Some(t) => if !amount_ok {
            LedgerRow::Skip
        } else {
            LedgerRow::Read(ledger_fields(tx_type, t, ts, cols, path))
        },
    }
}

/// The record of a routed WeChat row: the category of its rule, the
/// fallback category, or none yet while it waits in the queue.
pub open spec fn routed_fields(base: TxFieldsView, route: WechatRoute, fallback: Seq<char>) -> TxFieldsView {
    match route {
        WechatRoute::Classified(l1, l2) => TxFieldsView { l1: Some(l1@), l2: opt_view(l2), ..base },
        WechatRoute::Fallback => TxFieldsView { l1: Some(fallback), ..base },
        WechatRoute::Pending => base,
    }
}

/// What a data row of a WeChat statement comes to.
#[derive(Debug, Clone, PartialEq, Eq)]
pub enum WechatRow {
    /// A row without any text: passed over.
    Blank,
    /// A row that is not taken: no readable time, a direction other than
    /// expense or income, or no readable amount. Counted as skipped.
    Skip,
    /// The record of the row and where it goes.
    Read(TxFields, WechatRoute),
}

pub open spec fn wechat_cell(ts: Seq<Seq<char>>, i: Option<usize>) -> Seq<char> {
    cell_spec(ts, opt_int(i))
}

/// Reads a data row of a WeChat statement: `time` is what its time cell
/// reads as, `amount_ok` whether its amount cell reads as a number.
pub fn wechat_row(
    rules: &Vec<Rule>,
    c: &WechatColumns,
    ts: &Vec<String>,
    time: Option<String>,
    amount_ok: bool,
    prompt: bool,
    fallback: &str,
    path: &str,
) -> (r: WechatRow)
    ensures
        ({
            let tv = str_views(ts@);
            let dir = wechat_cell(tv, Some(c.dir));
            let merchant = wechat_cell(tv, Some(c.counterparty));
            let goods = wechat_cell(tv, c.goods);
            match r {
                WechatRow::Blank => time is None && all_blank(tv),
                WechatRow::Skip => (time is None && !all_blank(tv)) || (time is Some && (wechat_type_spec(dir) is None
                    || !amount_ok)),
                WechatRow::Read(f, route) => {
                    &&& time is Some
                    &&& amount_ok
                    &&& wechat_type_spec(dir) is Some
                    &&& route_fits(
                        rule_views(rules@),
                        kind_of_type(wechat_type_spec(dir)->0),
                        merchant,
                        goods,
                        prompt,
                        route,
                    )
                    &&& f@ == routed_fields(
                        wechat_fields_spec(
                            wechat_type_spec(dir)->0,
                            time->0@,
                            merchant,
                            nonempty_or_none(wechat_cell(tv, c.pay)),
                            wechat_remark_spec(wechat_cell(tv, c.remark), goods, wechat_cell(tv, c.status)),
                            wechat_cell(tv, c.txno),
                            path@,
                        ),
                        route,
                        fallback@,
                    )
                },
            }
        }),
{
    let t = match time {
        None => {
            if all_blank_exec(ts) {
                return WechatRow::Blank;
            }
            return WechatRow::Skip;
        },
        Some(t) => t,
    };
    let dir = cell(ts, Some(c.dir));
    let tx_type = match wechat_tx_type(dir.as_str()) {
        Some(x) => x,
        None => return WechatRow::Skip,
    };
    if !amount_ok {
        return WechatRow::Skip;
    }
    let merchant = cell(ts, Some(c.counterparty));
    let goods = cell(ts, c.goods);
    let kind = kind_of_tx_type(tx_type);
    let account = opt_nonempty(cell(ts, c.pay));
    let status = cell(ts, c.status);
    let remark_cell = cell(ts, c.remark);
    let remark = wechat_remark(remark_cell.as_str(), goods.as_str(), status.as_str());
    let txno = cell(ts, c.txno);
    let base = wechat_fields(tx_type, t, merchant.as_str(), account, remark, txno, path);
    let route = wechat_route(rules, kind, merchant.as_str(), goods.as_str(), prompt);
    let ghost bv = base@;
    let f = match &route {
        WechatRoute::Classified(l1, l2) => TxFields { l1: Some(l1.clone()), l2: clone_opt_string(l2), ..base },
        WechatRoute::Fallback => TxFields { l1: Some(fallback.to_owned()), ..base },
        WechatRoute::Pending => base,
    };
    assert(f@ == routed_fields(bv, route, fallback@));
    WechatRow::Read(f, route)
}

/// Counts a row that was not taken.
pub fn tally_skip(report: &mut ImportReport)
    requires
        old(report).skipped < i64::MAX,
    ensures
        final(report).skipped == old(report).skipped + 1,
        final(report).inserted == old(report).inserted,
        final(report).duplicates == old(report).duplicates,
        final(report).total_rows == old(report).total_rows,
        final(report).pending == old(report).pending,
        final(report).pending_merchants@ == old(report).pending_merchants@,
        final(report).sheet_stats@ == old(report).sheet_stats@,
{
    report.skipped = report.skipped + 1;
}

/// Counts a WeChat row that was read.
pub fn tally_read(report: &mut ImportReport)
    requires
        old(report).total_rows < i64::MAX,
    ensures
        final(report).total_rows == old(report).total_rows + 1,
        final(report).skipped == old(report).skipped,
        final(report).inserted == old(report).inserted,
        final(report).duplicates == old(report).duplicates,
        final(report).pending == old(report).pending,
        final(report).pending_merchants@ == old(report).pending_merchants@,
        final(report).sheet_stats@ == old(report).sheet_stats@,
{
    report.total_rows = report.total_rows + 1;
}

/// Whether a ledger sheet's columns can be read: its date and amount
/// columns were found.
pub fn ledger_header_found(cols: &Vec<Option<usize>>) -> (r: bool)
    requires
        cols@.len() >= 7,
    ensures
        r == (cols@[0] is Some && cols@[6] is Some),
{
    cols[0].is_some() && cols[6].is_some()
}

/// A second import of the same rows finds them all stored: the key of a
/// record depends only on its type, time, amount, merchant, accounts and
/// transaction number, not on its category, notes, source file or batch.
pub proof fn law_fingerprint_ignores_category_and_source(f: TxFieldsView, g: TxFieldsView, amount: Seq<char>)
    requires
        f.tx_type == g.tx_type,
        f.tx_time == g.tx_time,
        f.merchant == g.merchant,
        f.account_out == g.account_out,
        f.account_in == g.account_in,
        f.tx_no == g.tx_no,
    ensures
        fingerprint_spec(f, amount) == fingerprint_spec(g, amount),
{
}

proof fn lemma_middle_differs(a: Seq<char>, x: Seq<char>, y: Seq<char>, b: Seq<char>)
    requires
        x != y,
    ensures
        a + x + b != a + y + b,
{
    if x.len() != y.len() {
        assert((a + x + b).len() != (a + y + b).len());
    } else {
        assert((a + x + b).subrange(a.len() as int, (a.len() + x.len()) as int) =~= x);
        assert((a + y + b).subrange(a.len() as int, (a.len() + y.len()) as int) =~= y);
    }
}

spec fn ss_key(t: Seq<char>, h: Seq<char>, a: Seq<char>, m: Seq<char>, o: Seq<char>, i: Seq<char>) -> Seq<char> {
    "ss|"@ + t + seq!['|'] + h + seq!['|'] + a + seq!['|'] + m + seq!['|'] + o + seq!['|'] + i
}

proof fn lemma_ss_key_in(t: Seq<char>, h: Seq<char>, a: Seq<char>, m: Seq<char>, o: Seq<char>, i: Seq<char>, i2: Seq<char>)
    requires
        i != i2,
    ensures
        ss_key(t, h, a, m, o, i) != ss_key(t, h, a, m, o, i2),
{
    let p = "ss|"@ + t + seq!['|'] + h + seq!['|'] + a + seq!['|'] + m + seq!['|'] + o + seq!['|'];
    assert(ss_key(t, h, a, m, o, i) =~= p + i + Seq::<char>::empty());
    assert(ss_key(t, h, a, m, o, i2) =~= p + i2 + Seq::<char>::empty());
    lemma_middle_differs(p, i, i2, Seq::<char>::empty());
}

proof fn lemma_ss_key_out(t: Seq<char>, h: Seq<char>, a: Seq<char>, m: Seq<char>, o: Seq<char>, o2: Seq<char>, i: Seq<char>)
    requires
        o != o2,
    ensures
        ss_key(t, h, a, m, o, i) != ss_key(t, h, a, m, o2, i),
{
    let p = "ss|"@ + t + seq!['|'] + h + seq!['|'] + a + seq!['|'] + m + seq!['|'];
    let q = seq!['|'] + i;
    assert(ss_key(t, h, a, m, o, i) =~= p + o + q);
    assert(ss_key(t, h, a, m, o2, i) =~= p + o2 + q);
    lemma_middle_differs(p, o, o2, q);
}

proof fn lemma_ss_key_merchant(t: Seq<char>, h: Seq<char>, a: Seq<char>, m: Seq<char>, m2: Seq<char>, o: Seq<char>, i: Seq<char>)
    requires
        m != m2,
    ensures
        ss_key(t, h, a, m, o, i) != ss_key(t, h, a, m2, o, i),
{
    let p = "ss|"@ + t + seq!['|'] + h + seq!['|'] + a + seq!['|'];
    let q = seq!['|'] + o + seq!['|'] + i;
    assert(ss_key(t, h, a, m, o, i) =~= p + m + q);
    assert(ss_key(t, h, a, m2, o, i) =~= p + m2 + q);
    lemma_middle_differs(p, m, m2, q);
}

proof fn lemma_ss_key_amount(t: Seq<char>, h: Seq<char>, a: Seq<char>, a2: Seq<char>, m: Seq<char>, o: Seq<char>, i: Seq<char>)
    requires
        a != a2,
    ensures
        ss_key(t, h, a, m, o, i) != ss_key(t, h, a2, m, o, i),
{
    let p = "ss|"@ + t + seq!['|'] + h + seq!['|'];
    let q = seq!['|'] + m + seq!['|'] + o + seq!['|'] + i;
    assert(ss_key(t, h, a, m, o, i) =~= p + a + q);
    assert(ss_key(t, h, a2, m, o, i) =~= p + a2 + q);
    lemma_middle_differs(p, a, a2, q);
}

proof fn lemma_ss_key_time(t: Seq<char>, h: Seq<char>, h2: Seq<char>, a: Seq<char>, m: Seq<char>, o: Seq<char>, i: Seq<char>)
    requires
        h != h2,
    ensures
        ss_key(t, h, a, m, o, i) != ss_key(t, h2, a, m, o, i),
{
    let p = "ss|"@ + t + seq!['|'];
    let q = seq!['|'] + a + seq!['|'] + m + seq!['|'] + o + seq!['|'] + i;
    assert(ss_key(t, h, a, m, o, i) =~= p + h + q);
    assert(ss_key(t, h2, a, m, o, i) =~= p + h2 + q);
    lemma_middle_differs(p, h, h2, q);
}

proof fn lemma_ss_key_type(t: Seq<char>, t2: Seq<char>, h: Seq<char>, a: Seq<char>, m: Seq<char>, o: Seq<char>, i: Seq<char>)
    requires
        t != t2,
    ensures
        ss_key(t, h, a, m, o, i) != ss_key(t2, h, a, m, o, i),
{
    let p = "ss|"@;
    let q = seq!['|'] + h + seq!['|'] + a + seq!['|'] + m + seq!['|'] + o + seq!['|'] + i;
    assert(ss_key(t, h, a, m, o, i) =~= p + t + q);
    assert(ss_key(t2, h, a, m, o, i) =~= p + t2 + q);
    lemma_middle_differs(p, t, t2, q);
}

/// A record with a transaction number is known by that number alone: its
/// key is "wx|" and the number, so two such records share a key exactly
/// when their numbers agree.
pub proof fn law_fingerprint_by_tx_no(f: TxFieldsView, g: TxFieldsView, af: Seq<char>, ag: Seq<char>)
    requires
        or_empty(f.tx_no).len() > 0,
        or_empty(g.tx_no).len() > 0,
    ensures
        fingerprint_spec(f, af) == "wx|"@ + or_empty(f.tx_no),
        (fingerprint_spec(f, af) == fingerprint_spec(g, ag)) == (f.tx_no == g.tx_no),
{
    let p = "wx|"@;
    let (a, b) = (or_empty(f.tx_no), or_empty(g.tx_no));
    assert(fingerprint_spec(f, af) == p + a);
    assert(fingerprint_spec(g, ag) == p + b);
    if fingerprint_spec(f, af) == fingerprint_spec(g, ag) {
        assert((p + a).len() == p.len() + a.len());
        assert((p + b).len() == p.len() + b.len());
        assert(a.len() == b.len());
        assert((p + or_empty(f.tx_no)).subrange(p.len() as int, (p + or_empty(f.tx_no)).len() as int) =~= or_empty(f.tx_no));
        assert((p + or_empty(g.tx_no)).subrange(p.len() as int, (p + or_empty(g.tx_no)).len() as int) =~= or_empty(g.tx_no));
    }
}

/// Without a transaction number the key ends with the incoming account's
/// text, after a '|'; and two records whose keyed fields (type, time,
/// amount, merchant, outgoing and incoming account) differ in just one
/// get different keys, so neither is taken for the other.
pub proof fn law_fingerprint_tells_records_apart(f: TxFieldsView, g: TxFieldsView, af: Seq<char>, ag: Seq<char>)
    requires
        or_empty(f.tx_no).len() == 0,
        or_empty(g.tx_no).len() == 0,
    ensures
        ({
            let k = fingerprint_spec(f, af).len() - or_empty(f.account_in).len();
            &&& 0 < k
            &&& fingerprint_spec(f, af)[k - 1] == '|'
            &&& fingerprint_spec(f, af).subrange(k, fingerprint_spec(f, af).len() as int) == or_empty(f.account_in)
        }),
        f.tx_type == g.tx_type && f.tx_time == g.tx_time && af == ag && or_empty(f.merchant) == or_empty(g.merchant)
            && or_empty(f.account_out) == or_empty(g.account_out) && or_empty(f.account_in) != or_empty(g.account_in)
            ==> fingerprint_spec(f, af) != fingerprint_spec(g, ag),
        f.tx_type == g.tx_type && f.tx_time == g.tx_time && af == ag && or_empty(f.merchant) == or_empty(g.merchant)
            && or_empty(f.account_out) != or_empty(g.account_out) && or_empty(f.account_in) == or_empty(g.account_in)
            ==> fingerprint_spec(f, af) != fingerprint_spec(g, ag),
        f.tx_type == g.tx_type && f.tx_time == g.tx_time && af == ag && or_empty(f.merchant) != or_empty(g.merchant)
            && or_empty(f.account_out) == or_empty(g.account_out) && or_empty(f.account_in) == or_empty(g.account_in)
            ==> fingerprint_spec(f, af) != fingerprint_spec(g, ag),
        f.tx_type == g.tx_type && f.tx_time == g.tx_time && af != ag && or_empty(f.merchant) == or_empty(g.merchant)
            && or_empty(f.account_out) == or_empty(g.account_out) && or_empty(f.account_in) == or_empty(g.account_in)
            ==> fingerprint_spec(f, af) != fingerprint_spec(g, ag),
        f.tx_type == g.tx_type && f.tx_time != g.tx_time && af == ag && or_empty(f.merchant) == or_empty(g.merchant)
            && or_empty(f.account_out) == or_empty(g.account_out) && or_empty(f.account_in) == or_empty(g.account_in)
            ==> fingerprint_spec(f, af) != fingerprint_spec(g, ag),
        f.tx_type != g.tx_type && f.tx_time == g.tx_time && af == ag && or_empty(f.merchant) == or_empty(g.merchant)
            && or_empty(f.account_out) == or_empty(g.account_out) && or_empty(f.account_in) == or_empty(g.account_in)
            ==> fingerprint_spec(f, af) != fingerprint_spec(g, ag),
{
    let (tf, tg) = (f.tx_type, g.tx_type);
    let (hf, hg) = (f.tx_time, g.tx_time);
    let (mf, mg) = (or_empty(f.merchant), or_empty(g.merchant));
    let (of, og) = (or_empty(f.account_out), or_empty(g.account_out));
    let (inf, ing) = (or_empty(f.account_in), or_empty(g.account_in));
    let ff = fingerprint_spec(f, af);
    assert(ff == ss_key(tf, hf, af, mf, of, inf));
    assert(fingerprint_spec(g, ag) == ss_key(tg, hg, ag, mg, og, ing));
    let pre = "ss|"@ + tf + seq!['|'] + hf + seq!['|'] + af + seq!['|'] + mf + seq!['|'] + of + seq!['|'];
    assert(ff =~= pre + inf);
    assert(ff.subrange(pre.len() as int, ff.len() as int) =~= inf);
    assert(ff[pre.len() - 1] == '|');
    if inf != ing {
        lemma_ss_key_in(tf, hf, af, mf, of, inf, ing);
    }
    if of != og {
        lemma_ss_key_out(tf, hf, af, mf, of, og, inf);
    }
    if mf != mg {
        lemma_ss_key_merchant(tf, hf, af, mf, mg, of, inf);
    }
    if af != ag {
        lemma_ss_key_amount(tf, hf, af, ag, mf, of, inf);
    }
    if hf != hg {
        lemma_ss_key_time(tf, hf, hg, af, mf, of, inf);
    }
    if tf != tg {
        lemma_ss_key_type(tf, tg, hf, af, mf, of, inf);
    }
}

/// With no rule at all and prompting on, every row with a merchant waits
/// for the user in the pending queue.
pub proof fn law_empty_rules_pend_new_merchants(
    kind: Seq<char>,
    merchant: Seq<char>,
    goods: Seq<char>,
    route: WechatRoute,
)
    requires
        merchant.len() > 0,
        route_fits(Seq::<RuleView>::empty(), kind, merchant, goods, true, route),
    ensures
        route == WechatRoute::Pending,
{
}

/// A WeChat row that does not wait in the queue gets a first-level
/// category: its rule's or the fallback.
pub proof fn law_routed_rows_have_category(base: TxFieldsView, route: WechatRoute, fallback: Seq<char>)
    requires
        route != WechatRoute::Pending,
    ensures
        routed_fields(base, route, fallback).l1 is Some,
{
}

/// Storing records with keys `keys`, in order, into a store that holds
/// the keys `stored` and keeps each key once (the store's unique
/// fingerprint): a key not stored yet is inserted, any other is a
/// duplicate. Gives the keys stored after, and the counts of inserted and
/// duplicate records.
pub open spec fn store_run(stored: Set<Seq<char>>, keys: Seq<Seq<char>>) -> (Set<Seq<char>>, nat, nat)
    decreases keys.len(),
{
    if keys.len() == 0 {
        (stored, 0, 0)
    } else {
        let (st, ins, dup) = store_run(stored, keys.drop_last());
        if st.contains(keys.last()) {
            (st, ins, dup + 1)
        } else {
            (st.insert(keys.last()), ins + 1, dup)
        }
    }
}

proof fn lemma_store_run_keeps(stored: Set<Seq<char>>, keys: Seq<Seq<char>>)
    ensures
        forall|k: Seq<char>| stored.contains(k) ==> #[trigger] store_run(stored, keys).0.contains(k),
        forall|i: int| 0 <= i < keys.len() ==> store_run(stored, keys).0.contains(#[trigger] keys[i]),
    decreases keys.len(),
{
    if keys.len() > 0 {
        lemma_store_run_keeps(stored, keys.drop_last());
        let st = store_run(stored, keys.drop_last()).0;
        let r = store_run(stored, keys).0;
        assert(forall|k: Seq<char>| st.contains(k) ==> r.contains(k));
        assert forall|k: Seq<char>| stored.contains(k) implies #[trigger] r.contains(k) by {
            assert(store_run(stored, keys.drop_last()).0.contains(k));
        }
        assert forall|i: int| 0 <= i < keys.len() implies r.contains(#[trigger] keys[i]) by {
            if i < keys.len() - 1 {
                assert(keys.drop_last()[i] == keys[i]);
                assert(st.contains(keys.drop_last()[i]));
            }
        }
    }
}

proof fn lemma_store_run_all_stored(stored: Set<Seq<char>>, keys: Seq<Seq<char>>)
    requires
        forall|i: int| 0 <= i < keys.len() ==> stored.contains(#[trigger] keys[i]),
    ensures
        store_run(stored, keys) == (stored, 0nat, keys.len()),
    decreases keys.len(),
{
    if keys.len() > 0 {
        assert forall|i: int| 0 <= i < keys.len() - 1 implies stored.contains(#[trigger] keys.drop_last()[i]) by {
            assert(keys.drop_last()[i] == keys[i]);
        }
        lemma_store_run_all_stored(stored, keys.drop_last());
        assert(stored.contains(keys[keys.len() - 1]));
    }
}

/// Importing the same records a second time adds nothing: every record
/// is a duplicate and the store is unchanged. With the fingerprint law
/// above (a record's key does not depend on the batch, its category or
/// its source file) and the row functions giving the same records for
/// the same rows, a second import of the same file only counts
/// duplicates, as many as the rows it reads.
pub proof fn law_reimport_adds_nothing(stored: Set<Seq<char>>, keys: Seq<Seq<char>>)
    ensures
        store_run(store_run(stored, keys).0, keys) == (store_run(stored, keys).0, 0nat, keys.len()),
{
    lemma_store_run_keeps(stored, keys);
    lemma_store_run_all_stored(store_run(stored, keys).0, keys);
}

// ---------------------------------------------------------------------
// Format detection
// ---------------------------------------------------------------------

/// The sheet names joined by '|'.
pub open spec fn join_bar(names: Seq<Seq<char>>) -> Seq<char>
    decreases names.len(),
{
    if names.len() == 0 {
        seq![]
    } else if names.len() == 1 {
        names[0]
    } else {
        join_bar(names.drop_last()) + seq!['|'] + names.last()
    }
}

/// A leading row of a WeChat statement: its title, or the header with
/// transaction number and time.
pub open spec fn wechat_marker(row: Seq<char>) -> bool {
    contains(row, "微信支付账单"@) || (contains(row, "交易单号"@) && contains(row, "交易时间"@))
}

/// What kind of bill a workbook is, from its sheet names and the texts of
/// its leading rows (the first 20 rows of each of its first 3 sheets, each
/// row's cells joined): an annual ledger when the sheet names hold 支出,
/// 收入 and 转账; a WeChat statement when a leading row looks like one, or
/// the sheet names speak of 交易 or 微信; otherwise an error.
pub open spec fn detect_format_spec(names: Seq<Seq<char>>, rows: Seq<Seq<char>>) -> Result<Seq<char>, Seq<char>> {
    let joined = join_bar(names);
    if contains(joined, "支出"@) && contains(joined, "收入"@) && contains(joined, "转账"@) {
        Ok("suishouji"@)
    } else if exists|i: int| 0 <= i < rows.len() && wechat_marker(#[trigger] rows[i]) {
        Ok("wechat"@)
    } else if contains(joined, "交易"@) || contains(joined, "微信"@) {
        Ok("wechat"@)
    } else {
        Err("无法识别文件格式（支持年度账本多 Sheet Excel 与微信支付流水 xlsx）"@)
    }
}

proof fn lemma_join_bar_holds(names: Seq<Seq<char>>, i: int, x: Seq<char>)
    requires
        0 <= i < names.len(),
        contains(names[i], x),
    ensures
        contains(join_bar(names), x),
    decreases names.len(),
{
    let k = choose|k: int| occurs_at(names[i], x, k);
    if names.len() > 1 {
        let pre = join_bar(names.drop_last());
        let j = join_bar(names);
        assert(j == pre + seq!['|'] + names.last());
        if i < names.len() - 1 {
            assert(names.drop_last()[i] == names[i]);
            lemma_join_bar_holds(names.drop_last(), i, x);
            let k2 = choose|k2: int| occurs_at(pre, x, k2);
            assert(j.subrange(k2, k2 + x.len()) =~= pre.subrange(k2, k2 + x.len()));
            assert(occurs_at(j, x, k2));
        } else {
            let off = pre.len() + 1;
            assert(j.subrange(off + k, off + k + x.len()) =~= names[i].subrange(k, k + x.len()));
            assert(occurs_at(j, x, off + k));
        }
    } else {
        assert(occurs_at(join_bar(names), x, k));
    }
}

/// A workbook with a sheet for expenses, one for income and one for
/// transfers (sheet names holding 支出, 收入 and 转账) is an annual
/// ledger, whatever its rows hold.
pub proof fn law_detect_ledger_by_sheets(names: Seq<Seq<char>>, rows: Seq<Seq<char>>, a: int, b: int, c: int)
    requires
        0 <= a < names.len() && contains(names[a], "支出"@),
        0 <= b < names.len() && contains(names[b], "收入"@),
        0 <= c < names.len() && contains(names[c], "转账"@),
    ensures
        detect_format_spec(names, rows) == Ok::<Seq<char>, Seq<char>>("suishouji"@),
{
    lemma_join_bar_holds(names, a, "支出"@);
    lemma_join_bar_holds(names, b, "收入"@);
    lemma_join_bar_holds(names, c, "转账"@);
}

/// What a workbook is detected as is an annual ledger or a WeChat
/// statement; one whose leading rows hold the WeChat statement title is
/// read as a WeChat statement unless its sheet names make it a ledger.
pub proof fn law_detect_format_kinds(names: Seq<Seq<char>>, rows: Seq<Seq<char>>, i: int)
    ensures
        detect_format_spec(names, rows) matches Ok(x) ==> x == "suishouji"@ || x == "wechat"@,
        0 <= i < rows.len() && contains(rows[i], "微信支付账单"@) ==> detect_format_spec(names, rows) is Ok,
        0 <= i < rows.len() && contains(rows[i], "微信支付账单"@) && !(contains(join_bar(names), "支出"@) && contains(
            join_bar(names),
            "收入"@,
        ) && contains(join_bar(names), "转账"@)) ==> detect_format_spec(names, rows) == Ok::<Seq<char>, Seq<char>>(
            "wechat"@,
        ),
{
    if 0 <= i < rows.len() && contains(rows[i], "微信支付账单"@) {
        assert(wechat_marker(rows[i]));
    }
}

/// Tells an annual ledger ("suishouji") from a WeChat statement ("wechat").
pub fn detect_format_from(names: &Vec<String>, rows: &Vec<String>) -> (r: Result<String, String>)
    ensures
        match r {
            Ok(x) => detect_format_spec(str_views(names@), str_views(rows@)) == Ok::<Seq<char>, Seq<char>>(x@),
            Err(e) => detect_format_spec(str_views(names@), str_views(rows@)) == Err::<Seq<char>, Seq<char>>(e@),
        },
{
    let ghost nv = str_views(names@);
    let mut joined: Vec<char> = Vec::new();
    let mut i: usize = 0;
    while i < names.len()
        invariant
            i <= names@.len(),
            nv == str_views(names@),
            joined@ == join_bar(nv.take(i as int)),
        decreases names@.len() - i,
    {
        assert(nv.take(i + 1).drop_last() == nv.take(i as int));
        assert(nv[i as int] == names@[i as int]@);
        if i > 0 {
            joined.push('|');
        }
        let n = chars_of(names[i].as_str());
        push_all(&mut joined, n.as_slice());
        proof {
            if i == 0 {
                assert(joined@ =~= join_bar(nv.take(1)));
            }
        }
        i = i + 1;
    }
    assert(nv.take(names@.len() as int) == nv);
    let j = joined.as_slice();
    if contains_str(j, "支出") && contains_str(j, "收入") && contains_str(j, "转账") {
        return Ok("suishouji".to_owned());
    }
    let ghost rv = str_views(rows@);
    let mut k: usize = 0;
    while k < rows.len()
        invariant
            k <= rows@.len(),
            rv == str_views(rows@),
            nv == str_views(names@),
            j@ == join_bar(nv),
            !(contains(j@, "支出"@) && contains(j@, "收入"@) && contains(j@, "转账"@)),
            forall|x: int| 0 <= x < k ==> !wechat_marker(#[trigger] rv[x]),
        decreases rows@.len() - k,
    {
        assert(rv[k as int] == rows@[k as int]@);
        let t = chars_of(rows[k].as_str());
        let ts = t.as_slice();
        if contains_str(ts, "微信支付账单") || (contains_str(ts, "交易单号") && contains_str(
            ts,
            "交易时间",
        )) {
            assert(wechat_marker(rv[k as int]));
            return Ok("wechat".to_owned());
        }
        k = k + 1;
    }
    if contains_str(j, "交易") || contains_str(j, "微信") {
        return Ok("wechat".to_owned());
    }
    Err("无法识别文件格式（支持年度账本多 Sheet Excel 与微信支付流水 xlsx）".to_owned())
}

} // verus!
