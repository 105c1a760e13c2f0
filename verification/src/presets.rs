//! Category presets: Markdown documents (headed sections, "一级目录" lines and
//! tables) and plain-text trees (indentation or `A / B / C` paths). Parsing
//! only builds a preview; nothing is stored until the user confirms it.
use vstd::prelude::*;

use crate::models::{opt_view, PresetCategory, PresetCategoryView, PresetPreview, PresetPreviewView, RuleInput, RuleInputView};
use crate::text::{
    chars_of, count_char, count_char_exec, lead_len, lead_len_ws, push_all, ws_pred, lines, lines_of, contains, contains_str, eq_str, find_in_from, first_idx, in_set, is_ascii_digit,
    lemma_contains_trim, lemma_trail_len_at, lemma_trail_len_bound, lemma_lead_len_bound, is_ws, is_whitespace, lemma_first_idx_at, lemma_first_idx_bound, lemma_split_by_nonempty, starts_with, ends_with, char_in, lemma_rfind, lemma_trim_len, rfind, rfind_char,
    slice_vec, split_by, split_on, split_once, split_once_char, string_of, strip_end, strip_end_in,
    strip_start, strip_start_in, trim, trim_chars, trim_start, trim_start_chars, views, contains_char,
};

verus! {

// ---------------------------------------------------------------------
// Name cleaning
// ---------------------------------------------------------------------

pub open spec fn is_open_paren(c: char) -> bool {
    c == '(' || c == '（'
}

pub open spec fn close_paren() -> spec_fn(char) -> bool {
    |c: char| c == ')' || c == '）'
}

pub open spec fn open_paren() -> spec_fn(char) -> bool {
    |c: char| is_open_paren(c)
}

/// Characters that are not part of a leading "12." / "1、" number mark.
pub open spec fn not_num_mark() -> spec_fn(char) -> bool {
    |c: char| !(is_ascii_digit(c) || c == '.' || c == '、')
}

pub open spec fn not_digit() -> spec_fn(char) -> bool {
    |c: char| !is_ascii_digit(c)
}

/// Where a leading mark ends in `t` (0: there is none to remove): a
/// bracketed mark "(1)" / "（1）" up to its closing bracket; a number ended
/// by ')' / '）' ("1)") up to that bracket; a number ended by '.' or '、'
/// ("1." / "1、" / "1.2.") up to the end of the run of digits, '.' and
/// '、'. A number that nothing of these ends ("3C数码") is no mark.
pub open spec fn prefix_mark_end(t: Seq<char>) -> nat {
    if t.len() > 0 && is_open_paren(t[0]) {
        let k = first_idx(t, close_paren());
        if k < t.len() {
            k + 1
        } else {
            0
        }
    } else if t.len() > 0 && is_ascii_digit(t[0]) {
        let j = first_idx(t, not_digit());
        if j < t.len() && (t[j as int] == '.' || t[j as int] == '、') {
            first_idx(t, not_num_mark())
        } else if j < t.len() && (t[j as int] == ')' || t[j as int] == '）') {
            j + 1
        } else {
            0
        }
    } else {
        0
    }
}

pub proof fn lemma_prefix_mark_end(t: Seq<char>)
    ensures
        prefix_mark_end(t) <= t.len(),
{
    lemma_first_idx_bound(t, close_paren());
    lemma_first_idx_bound(t, not_num_mark());
    lemma_first_idx_bound(t, not_digit());
}

/// Removes leading number marks, one after the other, as long as
/// something is left after them.
pub open spec fn strip_prefix_marks(out: Seq<char>) -> Seq<char>
    decreases out.len(),
{
    let t = trim_start(out);
    if t.len() > 0 && (is_ascii_digit(t[0]) || is_open_paren(t[0])) {
        let e = prefix_mark_end(t);
        let cand = trim(t.skip(e as int));
        if e > 0 && cand.len() > 0 {
            proof {
                lemma_trim_len(out);
                lemma_prefix_mark_end(t);
                lemma_trim_len(t.skip(e as int));
            }
            strip_prefix_marks(cand)
        } else {
            out
        }
    } else {
        out
    }
}

/// Every character is an ASCII digit or '.'.
pub open spec fn all_num(s: Seq<char>) -> bool {
    forall|i: int| 0 <= i < s.len() ==> is_ascii_digit(#[trigger] s[i]) || s[i] == '.'
}

/// The bracket contents that a trailing "(…)" may hold to be removed: a
/// number, or a note on lending, income or expense.
pub open spec fn removable_note(inner: Seq<char>) -> bool {
    ||| (inner.len() > 0 && all_num(inner))
    ||| contains(inner, "借"@)
    ||| contains(inner, "收入"@)
    ||| contains(inner, "支出"@)
}

/// Removes trailing "(5)" / "（借?）" marks, one after the other.
pub open spec fn strip_suffix_marks(out: Seq<char>) -> Seq<char>
    decreases out.len(),
{
    if out.len() > 2 && (out.last() == ')' || out.last() == '）') {
        let open = if out.last() == ')' {
            '('
        } else {
            '（'
        };
        let oi = rfind(out, open);
        if oi >= 0 && removable_note(trim(out.subrange(oi + 1, out.len() - 1))) {
            proof {
                lemma_rfind(out, open);
                lemma_trim_len(out.take(oi));
            }
            strip_suffix_marks(trim(out.take(oi)))
        } else {
            out
        }
    } else {
        out
    }
}

pub open spec fn deng() -> Seq<char> {
    seq!['等']
}

/// Whitespace or "等": what a cleaned name may not end with.
pub open spec fn ws_or_deng() -> spec_fn(char) -> bool {
    |c: char| is_ws(c) || c == '等'
}

/// A category name without number marks, bracketed notes, surrounding
/// whitespace and trailing "等" (trailing whitespace and 等 are removed
/// together, until neither is left).
pub open spec fn clean_name_spec(s: Seq<char>) -> Seq<char> {
    trim_start(strip_end(strip_suffix_marks(strip_prefix_marks(trim(s))), ws_or_deng()))
}

/// A cleaned name neither starts with whitespace nor ends with
/// whitespace or "等".
pub proof fn law_clean_name_ends_clean(s: Seq<char>)
    ensures
        ({
            let r = clean_name_spec(s);
            r.len() > 0 ==> !is_ws(r[0]) && !is_ws(r.last()) && r.last() != '等'
        }),
{
    let x = strip_suffix_marks(strip_prefix_marks(trim(s)));
    let t = strip_end(x, ws_or_deng());
    lemma_trail_len_bound(x, ws_or_deng());
    lemma_lead_len_bound(t, ws_pred());
    let r = clean_name_spec(s);
    if r.len() > 0 {
        assert(r.last() == t.last());
    }
}

fn strip_end_ws_deng(s: &[char]) -> (r: Vec<char>)
    ensures
        r@ == strip_end(s@, ws_or_deng()),
{
    let mut k: usize = s.len();
    while k > 0 && (is_whitespace(s[k - 1]) || s[k - 1] == '等')
        invariant
            k <= s@.len(),
            forall|j: int| k <= j < s@.len() ==> ws_or_deng()(#[trigger] s@[j]),
        decreases k,
    {
        k = k - 1;
    }
    proof {
        lemma_trail_len_at(s@, ws_or_deng(), k as int);
    }
    slice_vec(s, 0, k)
}

fn is_digit(c: char) -> (r: bool)
    ensures
        r == is_ascii_digit(c),
{
    '0' <= c && c <= '9'
}

fn prefix_mark_end_exec(t: &[char]) -> (r: usize)
    ensures
        r == prefix_mark_end(t@),
{
    if t.len() > 0 && (t[0] == '(' || t[0] == '（') {
        let close = [')', '）'];
        assert(close@ == seq![')', '）']);
        let k = find_in_from(t, &close, 0);
        assert(t@.skip(0) == t@);
        assert(in_set(close@) == close_paren());
        if k < t.len() {
            k + 1
        } else {
            0
        }
    } else if t.len() > 0 && is_digit(t[0]) {
        let mut j: usize = 0;
        while j < t.len() && is_digit(t[j])
            invariant
                j <= t@.len(),
                forall|i: int| 0 <= i < j ==> !not_digit()(#[trigger] t@[i]),
            decreases t@.len() - j,
        {
            j = j + 1;
        }
        proof {
            lemma_first_idx_at(t@, not_digit(), j as int);
        }
        if j < t.len() && (t[j] == '.' || t[j] == '、') {
            let mut e: usize = 0;
            while e < t.len() && (is_digit(t[e]) || t[e] == '.' || t[e] == '、')
                invariant
                    e <= t@.len(),
                    forall|i: int| 0 <= i < e ==> !not_num_mark()(#[trigger] t@[i]),
                decreases t@.len() - e,
            {
                e = e + 1;
            }
            proof {
                lemma_first_idx_at(t@, not_num_mark(), e as int);
            }
            e
        } else if j < t.len() && (t[j] == ')' || t[j] == '）') {
            j + 1
        } else {
            0
        }
    } else {
        0
    }
}

fn strip_prefix_marks_exec(out: Vec<char>) -> (r: Vec<char>)
    ensures
        r@ == strip_prefix_marks(out@),
    decreases out@.len(),
{
    let t = trim_start_chars(out.as_slice());
    if t.len() > 0 && (is_digit(t[0]) || t[0] == '(' || t[0] == '（') {
        let e = prefix_mark_end_exec(t.as_slice());
        proof {
            lemma_prefix_mark_end(t@);
            lemma_trim_len(out@);
        }
        let rest = slice_vec(t.as_slice(), e, t.len());
        let cand = trim_chars(rest.as_slice());
        if e > 0 && cand.len() > 0 {
            proof {
                lemma_trim_len(rest@);
            }
            strip_prefix_marks_exec(cand)
        } else {
            out
        }
    } else {
        out
    }
}

fn removable_note_exec(inner: &[char]) -> (r: bool)
    ensures
        r == removable_note(inner@),
{
    let mut all = true;
    let mut i: usize = 0;
    while i < inner.len()
        invariant
            i <= inner@.len(),
            all == forall|j: int| 0 <= j < i ==> is_ascii_digit(#[trigger] inner@[j]) || inner@[j]
                == '.',
        decreases inner@.len() - i,
    {
        if !(is_digit(inner[i]) || inner[i] == '.') {
            all = false;
        }
        i = i + 1;
    }
    (inner.len() > 0 && all) || contains_str(inner, "借") || contains_str(inner, "收入")
        || contains_str(inner, "支出")
}

fn strip_suffix_marks_exec(out: Vec<char>) -> (r: Vec<char>)
    ensures
        r@ == strip_suffix_marks(out@),
    decreases out@.len(),
{
    let n = out.len();
    if n > 2 && (out[n - 1] == ')' || out[n - 1] == '）') {
        let open = if out[n - 1] == ')' {
            '('
        } else {
            '（'
        };
        proof {
            lemma_rfind(out@, open);
        }
        match rfind_char(out.as_slice(), open) {
            Some(oi) => {
                let inner_raw = slice_vec(out.as_slice(), oi + 1, n - 1);
                let inner = trim_chars(inner_raw.as_slice());
                if removable_note_exec(inner.as_slice()) {
                    let head = slice_vec(out.as_slice(), 0, oi);
                    let next = trim_chars(head.as_slice());
                    proof {
                        lemma_trim_len(head@);
                    }
                    strip_suffix_marks_exec(next)
                } else {
                    out
                }
            },
            None => out,
        }
    } else {
        out
    }
}

/// The cleaned name of `s`, as characters.
pub(crate) fn clean_name_chars(s: &[char]) -> (r: Vec<char>)
    ensures
        r@ == clean_name_spec(s@),
{
    let t = trim_chars(s);
    let a = strip_prefix_marks_exec(t);
    let b = strip_suffix_marks_exec(a);
    let d = strip_end_ws_deng(b.as_slice());
    trim_start_chars(d.as_slice())
}

/// Removes number marks and bracketed notes from a category name:
/// "(1) 兴趣爱好" becomes "兴趣爱好", "杂费（5）" becomes "杂费".
pub fn clean_name(s: &str) -> (r: String)
    ensures
        r@ == clean_name_spec(s@),
{
    let v = chars_of(s);
    let c = clean_name_chars(v.as_slice());
    string_of(c.as_slice())
}

// ---------------------------------------------------------------------
// Child lists, placeholders and kinds
// ---------------------------------------------------------------------

pub open spec fn child_sep() -> Seq<char> {
    seq!['，', ',', '、', '；', ';']
}

/// A cleaned child name that is kept: not empty and not a dash.
pub open spec fn keep_child(n: Seq<char>) -> bool {
    n.len() > 0 && n != "-"@ && n != "—"@
}

/// The kept cleaned names of `pieces`, in order.
pub open spec fn children_of(pieces: Seq<Seq<char>>) -> Seq<Seq<char>>
    decreases pieces.len(),
{
    if pieces.len() == 0 {
        seq![]
    } else {
        let rest = children_of(pieces.drop_last());
        let n = clean_name_spec(pieces.last());
        if keep_child(n) {
            rest.push(n)
        } else {
            rest
        }
    }
}

/// "谷费，ゲーム ， live&演出" is ["谷费", "ゲーム", "live&演出"].
pub open spec fn split_children_spec(s: Seq<char>) -> Seq<Seq<char>> {
    children_of(split_by(s, in_set(child_sep())))
}

proof fn lemma_children_kept(pieces: Seq<Seq<char>>)
    ensures
        forall|i: int| 0 <= i < children_of(pieces).len() ==> keep_child(#[trigger] children_of(pieces)[i]),
        children_of(pieces).len() <= pieces.len(),
    decreases pieces.len(),
{
    if pieces.len() > 0 {
        let prev = children_of(pieces.drop_last());
        lemma_children_kept(pieces.drop_last());
        assert forall|i: int| 0 <= i < children_of(pieces).len() implies keep_child(
            #[trigger] children_of(pieces)[i],
        ) by {
            if i < prev.len() {
                assert(children_of(pieces)[i] == prev[i]);
            }
        }
    }
}

/// A child list gives no empty name and no dash, and at most one name
/// for each piece between separators.
pub proof fn law_split_children_kept(s: Seq<char>)
    ensures
        forall|i: int|
            0 <= i < split_children_spec(s).len() ==> (#[trigger] split_children_spec(s)[i]).len() > 0
                && split_children_spec(s)[i] != "-"@ && split_children_spec(s)[i] != "—"@,
        split_children_spec(s).len() <= split_by(s, in_set(child_sep())).len(),
{
    lemma_children_kept(split_by(s, in_set(child_sep())));
}

/// The names of a separated child list, cleaned, without empty ones and dashes.
pub(crate) fn split_children_chars(s: &[char]) -> (r: Vec<Vec<char>>)
    ensures
        views(r@) == split_children_spec(s@),
{
    let set = ['，', ',', '、', '；', ';'];
    assert(set@ == child_sep());
    let pieces = split_on(s, &set);
    let ghost ps = views(pieces@);
    let mut out: Vec<Vec<char>> = Vec::new();
    let mut i: usize = 0;
    while i < pieces.len()
        invariant
            i <= pieces@.len(),
            ps == views(pieces@),
            views(out@) == children_of(ps.take(i as int)),
        decreases pieces@.len() - i,
    {
        let n = clean_name_chars(pieces[i].as_slice());
        assert(ps.take(i + 1).drop_last() == ps.take(i as int));
        assert(ps.take(i + 1).last() == pieces@[i as int]@);
        if n.len() > 0 && !eq_str(n.as_slice(), "-") && !eq_str(n.as_slice(), "—") {
            let ghost before = out@;
            out.push(n);
            assert(views(out@) == views(before).push(n@));
        }
        i = i + 1;
    }
    assert(ps.take(pieces@.len() as int) == ps);
    out
}

/// "谷费，ゲーム ， live&演出" → ["谷费", "ゲーム", "live&演出"].
pub fn split_children(s: &str) -> (r: Vec<String>)
    ensures
        r@.map_values(|x: String| x@) == split_children_spec(s@),
{
    let v = chars_of(s);
    let parts = split_children_chars(v.as_slice());
    strings_of(&parts)
}

/// Each character vector as a `String`.
pub fn strings_of(v: &Vec<Vec<char>>) -> (r: Vec<String>)
    ensures
        r@.map_values(|x: String| x@) == views(v@),
{
    let mut out: Vec<String> = Vec::new();
    let mut i: usize = 0;
    while i < v.len()
        invariant
            i <= v@.len(),
            out@.len() == i,
            forall|k: int| 0 <= k < i ==> (#[trigger] out@[k])@ == v@[k]@,
        decreases v@.len() - i,
    {
        let s = string_of(v[i].as_slice());
        out.push(s);
        i = i + 1;
    }
    assert(out@.map_values(|x: String| x@) =~= views(v@));
    out
}

/// A cell that stands for "nothing": empty, a dash, "留空" or "无".
pub open spec fn placeholder_is_empty_spec(s: Seq<char>) -> bool {
    let t = trim(s);
    ||| t.len() == 0
    ||| t == "-"@
    ||| t == "—"@
    ||| t == "（留空）"@
    ||| t == "(留空)"@
    ||| t == "留空"@
    ||| t == "无"@
}

pub(crate) fn placeholder_is_empty_chars(s: &[char]) -> (r: bool)
    ensures
        r == placeholder_is_empty_spec(s@),
{
    let t = trim_chars(s);
    let t = t.as_slice();
    t.len() == 0 || eq_str(t, "-") || eq_str(t, "—") || eq_str(t, "（留空）") || eq_str(
        t,
        "(留空)",
    ) || eq_str(t, "留空") || eq_str(t, "无")
}

/// Whether a table cell stands for "no second level": empty, a dash, or
/// one of the words for "left empty" / "none".
pub fn placeholder_is_empty(s: &str) -> (r: bool)
    ensures
        r == placeholder_is_empty_spec(s@),
{
    let v = chars_of(s);
    placeholder_is_empty_chars(v.as_slice())
}

pub open spec fn kind_account() -> Seq<char> {
    "account"@
}

pub open spec fn kind_income() -> Seq<char> {
    "income"@
}

pub open spec fn kind_expense() -> Seq<char> {
    "expense"@
}

/// The kind that a section heading names: accounts, income or expenses.
pub open spec fn heading_kind_spec(h: Seq<char>) -> Option<Seq<char>> {
    if contains(h, "账户"@) {
        Some(kind_account())
    } else if contains(h, "收入"@) {
        Some(kind_income())
    } else if contains(h, "支出"@) {
        Some(kind_expense())
    } else {
        None
    }
}

/// The kind that a heading names.
pub(crate) fn heading_kind_chars(h: &[char]) -> (r: Option<&'static str>)
    ensures
        match r {
            Some(k) => heading_kind_spec(h@) == Some(k@),
            None => heading_kind_spec(h@) is None,
        },
{
    if contains_str(h, "账户") {
        Some("account")
    } else if contains_str(h, "收入") {
        Some("income")
    } else if contains_str(h, "支出") {
        Some("expense")
    } else {
        None
    }
}

/// The kind that a single word (a line of a txt preset) names.
pub open spec fn kind_from_word_spec(w: Seq<char>) -> Option<Seq<char>> {
    heading_kind_spec(trim(w))
}

/// A word names the same kind as a heading with the same text: trimming
/// cannot change whether 账户, 收入 or 支出 occur in it.
pub proof fn law_word_kind_is_heading_kind(w: Seq<char>)
    ensures
        kind_from_word_spec(w) == heading_kind_spec(w),
{
    reveal_strlit("账户");
    reveal_strlit("收入");
    reveal_strlit("支出");
    lemma_contains_trim(w, "账户"@);
    lemma_contains_trim(w, "收入"@);
    lemma_contains_trim(w, "支出"@);
}

pub(crate) fn kind_from_word_chars(w: &[char]) -> (r: Option<&'static str>)
    ensures
        match r {
            Some(k) => kind_from_word_spec(w@) == Some(k@),
            None => kind_from_word_spec(w@) is None,
        },
{
    let t = trim_chars(w);
    heading_kind_chars(t.as_slice())
}

/// The kind a heading names: account, income or expense (in that order
/// of precedence).
pub fn heading_kind(h: &str) -> (r: Option<&'static str>)
    ensures
        match r {
            Some(k) => heading_kind_spec(h@) == Some(k@),
            None => heading_kind_spec(h@) is None,
        },
{
    let v = chars_of(h);
    heading_kind_chars(v.as_slice())
}

/// The kind a (trimmed) word of a rule table names.
pub fn kind_from_word(w: &str) -> (r: Option<&'static str>)
    ensures
        match r {
            Some(k) => kind_from_word_spec(w@) == Some(k@),
            None => kind_from_word_spec(w@) is None,
        },
{
    let v = chars_of(w);
    kind_from_word_chars(v.as_slice())
}


// ---------------------------------------------------------------------
// Building preview entries
// ---------------------------------------------------------------------

pub open spec fn mk_cat(kind: Seq<char>, l1: Seq<char>, l2: Option<Seq<char>>) -> PresetCategoryView {
    PresetCategoryView { kind, l1, l2 }
}

pub open spec fn cat_views(v: Seq<PresetCategory>) -> Seq<PresetCategoryView> {
    v.map_values(|c: PresetCategory| c@)
}

pub open spec fn rule_views(v: Seq<RuleInput>) -> Seq<RuleInputView> {
    v.map_values(|r: RuleInput| r@)
}

pub open spec fn opt_chars(o: Option<Vec<char>>) -> Option<Seq<char>> {
    match o {
        Some(v) => Some(v@),
        None => None,
    }
}

fn opt_string(o: Option<Vec<char>>) -> (r: Option<String>)
    ensures
        opt_view(r) == opt_chars(o),
{
    match o {
        Some(v) => Some(string_of(v.as_slice())),
        None => None,
    }
}

fn push_cat(out: &mut Vec<PresetCategory>, kind: &str, l1: &[char], l2: Option<Vec<char>>)
    ensures
        cat_views(final(out)@) == cat_views(old(out)@).push(mk_cat(kind@, l1@, opt_chars(l2))),
{
    let c = PresetCategory { kind: kind.to_owned(), l1: string_of(l1), l2: opt_string(l2) };
    let ghost before = out@;
    out.push(c);
    assert(cat_views(out@) =~= cat_views(before).push(mk_cat(kind@, l1@, opt_chars(l2))));
}

/// The second-level entries `children` under `l1`.
pub open spec fn child_cats(kind: Seq<char>, l1: Seq<char>, children: Seq<Seq<char>>) -> Seq<
    PresetCategoryView,
>
    decreases children.len(),
{
    if children.len() == 0 {
        seq![]
    } else {
        child_cats(kind, l1, children.drop_last()).push(mk_cat(kind, l1, Some(children.last())))
    }
}

/// One entry `l1` when there are no children, else one entry per child.
pub open spec fn family_cats(kind: Seq<char>, l1: Seq<char>, children: Seq<Seq<char>>) -> Seq<
    PresetCategoryView,
> {
    if children.len() == 0 {
        seq![mk_cat(kind, l1, None)]
    } else {
        child_cats(kind, l1, children)
    }
}

fn push_family(out: &mut Vec<PresetCategory>, kind: &str, l1: &[char], children: &Vec<Vec<char>>)
    ensures
        cat_views(final(out)@) == cat_views(old(out)@) + family_cats(kind@, l1@, views(children@)),
{
    let ghost start = cat_views(out@);
    if children.len() == 0 {
        push_cat(out, kind, l1, None);
        return ;
    }
    let mut i: usize = 0;
    while i < children.len()
        invariant
            i <= children@.len(),
            cat_views(out@) == start + child_cats(kind@, l1@, views(children@).take(i as int)),
        decreases children@.len() - i,
    {
        let c = slice_vec(children[i].as_slice(), 0, children[i].len());
        assert(children@[i as int]@.subrange(0, children@[i as int]@.len() as int)
            == children@[i as int]@);
        push_cat(out, kind, l1, Some(c));
        assert(views(children@).take(i + 1).drop_last() == views(children@).take(i as int));
        i = i + 1;
    }
    assert(views(children@).take(children@.len() as int) == views(children@));
}

// ---------------------------------------------------------------------
// Markdown: "一级目录" lines
// ---------------------------------------------------------------------

pub open spec fn bullet_set() -> Seq<char> {
    seq!['-', '*', ' ']
}

/// The text of a line after its list bullets.
pub open spec fn l1_line_text(line: Seq<char>) -> Seq<char> {
    trim(strip_start(line, in_set(bullet_set())))
}

pub open spec fn is_l1_line(t: Seq<char>) -> bool {
    (contains(t, "一级目录"@) || contains(t, "一级分类"@)) && (t.contains('：') || t.contains(':'))
}

/// `t` split at its first full-width colon, or else at its first ASCII colon.
pub open spec fn colon_split(t: Seq<char>) -> Option<(Seq<char>, Seq<char>)> {
    match split_once(t, '：') {
        Some(p) => Some(p),
        None => split_once(t, ':'),
    }
}

/// First-level entries for the names of a "一级目录" line, at most 20
/// characters each.
pub open spec fn l1_line_cats(kind: Seq<char>, names: Seq<Seq<char>>) -> Seq<PresetCategoryView>
    decreases names.len(),
{
    if names.len() == 0 {
        seq![]
    } else {
        let prev = l1_line_cats(kind, names.drop_last());
        if names.last().len() <= 20 {
            prev.push(mk_cat(kind, names.last(), None))
        } else {
            prev
        }
    }
}

pub open spec fn l1_line_entries(kind: Seq<char>, line: Seq<char>) -> Seq<PresetCategoryView> {
    let t = l1_line_text(line);
    if is_l1_line(t) {
        match colon_split(t) {
            Some((_, rest)) => l1_line_cats(kind, split_children_spec(rest)),
            None => seq![],
        }
    } else {
        seq![]
    }
}

pub open spec fn l1_pass(kind: Seq<char>, lines: Seq<Seq<char>>) -> Seq<PresetCategoryView>
    decreases lines.len(),
{
    if lines.len() == 0 {
        seq![]
    } else {
        l1_pass(kind, lines.drop_last()) + l1_line_entries(kind, lines.last())
    }
}

fn colon_split_exec(t: &[char]) -> (r: Option<(Vec<char>, Vec<char>)>)
    ensures
        match colon_split(t@) {
            Some((a, b)) => (r matches Some((x, y)) && x@ == a && y@ == b),
            None => r is None,
        },
{
    match split_once_char(t, '：') {
        Some(p) => Some(p),
        None => split_once_char(t, ':'),
    }
}

fn l1_line_entries_exec(out: &mut Vec<PresetCategory>, kind: &str, line: &[char])
    ensures
        cat_views(final(out)@) == cat_views(old(out)@) + l1_line_entries(kind@, line@),
{
    let bullets = ['-', '*', ' '];
    assert(bullets@ == bullet_set());
    let s = strip_start_in(line, &bullets);
    let t = trim_chars(s.as_slice());
    let is_l1 = (contains_str(t.as_slice(), "一级目录") || contains_str(t.as_slice(), "一级分类"))
        && (contains_char(t.as_slice(), '：') || contains_char(t.as_slice(), ':'));
    if !is_l1 {
        assert(cat_views(out@) + seq![] == cat_views(out@));
        return ;
    }
    match colon_split_exec(t.as_slice()) {
        Some((_, rest)) => {
            let names = split_children_chars(rest.as_slice());
            let ghost start = cat_views(out@);
            let ghost ns = views(names@);
            let mut i: usize = 0;
            while i < names.len()
                invariant
                    i <= names@.len(),
                    ns == views(names@),
                    cat_views(out@) == start + l1_line_cats(kind@, ns.take(i as int)),
                decreases names@.len() - i,
            {
                assert(ns.take(i + 1).drop_last() == ns.take(i as int));
                if names[i].len() <= 20 {
                    push_cat(out, kind, names[i].as_slice(), None);
                }
                i = i + 1;
            }
            assert(ns.take(names@.len() as int) == ns);
        },
        None => {
            assert(cat_views(out@) + seq![] == cat_views(out@));
        },
    }
}

fn l1_pass_exec(out: &mut Vec<PresetCategory>, kind: &str, lines: &Vec<Vec<char>>)
    ensures
        cat_views(final(out)@) == cat_views(old(out)@) + l1_pass(kind@, views(lines@)),
{
    let ghost start = cat_views(out@);
    let ghost ls = views(lines@);
    let mut i: usize = 0;
    while i < lines.len()
        invariant
            i <= lines@.len(),
            ls == views(lines@),
            cat_views(out@) == start + l1_pass(kind@, ls.take(i as int)),
        decreases lines@.len() - i,
    {
        assert(ls.take(i + 1).drop_last() == ls.take(i as int));
        l1_line_entries_exec(out, kind, lines[i].as_slice());
        i = i + 1;
    }
    assert(ls.take(lines@.len() as int) == ls);
}


// ---------------------------------------------------------------------
// Markdown: tables
// ---------------------------------------------------------------------

/// A table row: text between an opening and a closing '|'.
pub open spec fn is_row(t: Seq<char>) -> bool {
    starts_with(t, '|') && ends_with(t, '|')
}

/// The trimmed cells of a table row.
pub open spec fn row_cells(t: Seq<char>) -> Seq<Seq<char>> {
    split_by(t.subrange(1, t.len() - 1), in_set(seq!['|'])).map_values(|c: Seq<char>| trim(c))
}

pub open spec fn sep_chars() -> Seq<char> {
    seq!['-', ' ', ':']
}

/// A "|---|:--|" line: every cell is made of '-', ' ' and ':'.
pub open spec fn is_sep_row(cells: Seq<Seq<char>>) -> bool {
    forall|i: int, j: int|
        0 <= i < cells.len() && 0 <= j < cells[i].len() ==> sep_chars().contains(
            #[trigger] cells[i][j],
        )
}

/// A line that trims to a lone '|'.
pub open spec fn is_bar_line(line: Seq<char>) -> bool {
    trim(line) == seq!['|']
}

pub open spec fn no_bar_line(lines: Seq<Seq<char>>) -> bool {
    forall|i: int| 0 <= i < lines.len() ==> !is_bar_line(#[trigger] lines[i])
}

fn row_cells_exec(t: &[char]) -> (r: Vec<Vec<char>>)
    requires
        t@.len() >= 2,
    ensures
        views(r@) == row_cells(t@),
        r@.len() >= 1,
{
    let inner = slice_vec(t, 1, t.len() - 1);
    let bar = ['|'];
    assert(bar@ == seq!['|']);
    let parts = split_on(inner.as_slice(), &bar);
    proof {
        lemma_split_by_nonempty(inner@, in_set(bar@));
    }
    let mut out: Vec<Vec<char>> = Vec::new();
    let mut i: usize = 0;
    while i < parts.len()
        invariant
            i <= parts@.len(),
            out@.len() == i,
            forall|k: int| 0 <= k < i ==> (#[trigger] out@[k])@ == trim(parts@[k]@),
        decreases parts@.len() - i,
    {
        out.push(trim_chars(parts[i].as_slice()));
        i = i + 1;
    }
    assert(views(out@) =~= views(parts@).map_values(|c: Seq<char>| trim(c)));
    out
}

fn is_sep_row_exec(cells: &Vec<Vec<char>>) -> (r: bool)
    ensures
        r == is_sep_row(views(cells@)),
{
    let seps = ['-', ' ', ':'];
    assert(seps@ == sep_chars());
    let mut i: usize = 0;
    while i < cells.len()
        invariant
            i <= cells@.len(),
            seps@ == sep_chars(),
            forall|a: int, b: int|
                0 <= a < i && 0 <= b < cells@[a]@.len() ==> sep_chars().contains(
                    #[trigger] cells@[a]@[b],
                ),
        decreases cells@.len() - i,
    {
        let mut j: usize = 0;
        while j < cells[i].len()
            invariant
                i < cells@.len(),
                seps@ == sep_chars(),
                j <= cells@[i as int]@.len(),
                forall|b: int| 0 <= b < j ==> sep_chars().contains(#[trigger] cells@[i as int]@[b]),
            decreases cells@[i as int]@.len() - j,
        {
            if !char_in(cells[i][j], &seps) {
                assert(!sep_chars().contains(views(cells@)[i as int][j as int]));
                return false;
            }
            j = j + 1;
        }
        i = i + 1;
    }
    assert forall|a: int, b: int|
        0 <= a < views(cells@).len() && 0 <= b < views(cells@)[a].len() implies sep_chars().contains(
        #[trigger] views(cells@)[a][b],
    ) by {
        assert(views(cells@)[a] == cells@[a]@);
    }
    true
}

/// The second cell of a mapping row holds only a bracketed note or a placeholder.
pub open spec fn is_note_only(c: Seq<char>) -> bool {
    ||| (starts_with(c, '（') && ends_with(c, '）'))
    ||| (starts_with(c, '(') && ends_with(c, ')'))
    ||| placeholder_is_empty_spec(c)
}

/// The entries of a mapping row "| l1 | children |".
pub open spec fn mapping_cats(kind: Seq<char>, l1: Seq<char>, cell: Seq<char>) -> Seq<
    PresetCategoryView,
> {
    let children = if is_note_only(trim(cell)) {
        seq![]
    } else {
        split_children_spec(cell)
    };
    family_cats(kind, l1, children)
}

/// A header row "| 一级 | … |" opens a mapping table unless one of its
/// other cells speaks of "归属" (a rule table).
pub open spec fn opens_mapping(cells: Seq<Seq<char>>) -> bool {
    !(exists|j: int| 1 <= j < cells.len() && contains(#[trigger] cells[j], "归属"@))
}

pub struct TableState {
    pub in_mapping: bool,
    pub cats: Seq<PresetCategoryView>,
}

/// The category-mapping tables of a section, line by line.
pub open spec fn table_pass(kind: Seq<char>, lines: Seq<Seq<char>>) -> TableState
    decreases lines.len(),
{
    if lines.len() == 0 {
        TableState { in_mapping: false, cats: seq![] }
    } else {
        let st = table_pass(kind, lines.drop_last());
        let t = trim(lines.last());
        if !is_row(t) {
            if t.len() == 0 {
                TableState { in_mapping: false, cats: st.cats }
            } else {
                st
            }
        } else {
            let cells = row_cells(t);
            if is_sep_row(cells) {
                st
            } else if contains(cells[0], "一级"@) {
                TableState { in_mapping: opens_mapping(cells), cats: st.cats }
            } else if !st.in_mapping || cells.len() < 2 {
                st
            } else {
                let l1 = clean_name_spec(cells[0]);
                if l1.len() == 0 {
                    st
                } else {
                    TableState { in_mapping: true, cats: st.cats + mapping_cats(kind, l1, cells[1]) }
                }
            }
        }
    }
}

fn starts_with_exec(t: &[char], c: char) -> (r: bool)
    ensures
        r == starts_with(t@, c),
{
    t.len() > 0 && t[0] == c
}

fn ends_with_exec(t: &[char], c: char) -> (r: bool)
    ensures
        r == ends_with(t@, c),
{
    t.len() > 0 && t[t.len() - 1] == c
}

fn opens_mapping_exec(cells: &Vec<Vec<char>>) -> (r: bool)
    ensures
        r == opens_mapping(views(cells@)),
{
    let mut j: usize = 1;
    while j < cells.len()
        invariant
            1 <= j,
            forall|k: int| 1 <= k < j && k < cells@.len() ==> !contains(cells@[k]@, "归属"@),
        decreases cells@.len() - j,
    {
        if contains_str(cells[j].as_slice(), "归属") {
            assert(contains(views(cells@)[j as int], "归属"@));
            return false;
        }
        j = j + 1;
    }
    assert forall|k: int| 1 <= k < views(cells@).len() implies !contains(
        #[trigger] views(cells@)[k],
        "归属"@,
    ) by {
        assert(views(cells@)[k] == cells@[k]@);
    }
    true
}

fn mapping_cats_exec(out: &mut Vec<PresetCategory>, kind: &str, l1: &[char], cell: &[char])
    ensures
        cat_views(final(out)@) == cat_views(old(out)@) + mapping_cats(kind@, l1@, cell@),
{
    let raw = trim_chars(cell);
    let r = raw.as_slice();
    let note_only = (starts_with_exec(r, '（') && ends_with_exec(r, '）')) || (starts_with_exec(
        r,
        '(',
    ) && ends_with_exec(r, ')')) || placeholder_is_empty_chars(r);
    let children = if note_only {
        Vec::new()
    } else {
        split_children_chars(cell)
    };
    assert(views(children@) == (if is_note_only(trim(cell@)) {
        seq![]
    } else {
        split_children_spec(cell@)
    }));
    push_family(out, kind, l1, &children);
}

fn table_pass_exec(out: &mut Vec<PresetCategory>, kind: &str, lines: &Vec<Vec<char>>)
    requires
        no_bar_line(views(lines@)),
    ensures
        cat_views(final(out)@) == cat_views(old(out)@) + table_pass(kind@, views(lines@)).cats,
{
    let ghost start = cat_views(out@);
    let ghost ls = views(lines@);
    let mut in_mapping = false;
    let mut i: usize = 0;
    while i < lines.len()
        invariant
            i <= lines@.len(),
            ls == views(lines@),
            no_bar_line(ls),
            in_mapping == table_pass(kind@, ls.take(i as int)).in_mapping,
            cat_views(out@) == start + table_pass(kind@, ls.take(i as int)).cats,
        decreases lines@.len() - i,
    {
        assert(ls.take(i + 1).drop_last() == ls.take(i as int));
        assert(ls.take(i + 1).last() == lines@[i as int]@);
        let t = trim_chars(lines[i].as_slice());
        let ts = t.as_slice();
        if !(starts_with_exec(ts, '|') && ends_with_exec(ts, '|')) {
            if t.len() == 0 {
                in_mapping = false;
            }
        } else {
            assert(!is_bar_line(ls[i as int]));
            if t.len() == 1 {
                assert(t@ =~= seq!['|']);
            }
            let cells = row_cells_exec(ts);
            if is_sep_row_exec(&cells) {
            } else if contains_str(cells[0].as_slice(), "一级") {
                in_mapping = opens_mapping_exec(&cells);
            } else if !in_mapping || cells.len() < 2 {
            } else {
                let l1 = clean_name_chars(cells[0].as_slice());
                if l1.len() > 0 {
                    mapping_cats_exec(out, kind, l1.as_slice(), cells[1].as_slice());
                }
            }
        }
        i = i + 1;
    }
    assert(ls.take(lines@.len() as int) == ls);
}

// ---------------------------------------------------------------------
// Markdown: "现金账户：现金" account lines
// ---------------------------------------------------------------------

/// The text of an account line after trimming and list bullets.
pub open spec fn acct_text(line: Seq<char>) -> Seq<char> {
    trim(strip_start(trim(line), in_set(bullet_set())))
}

/// Tables, headings, bracketed notes and format hints are not account lines.
pub open spec fn acct_skip(t: Seq<char>) -> bool {
    ||| starts_with(t, '|')
    ||| t.contains('|')
    ||| starts_with(t, '#')
    ||| starts_with(t, '（')
    ||| starts_with(t, '(')
    ||| contains(t, "格式"@)
    ||| contains(t, "一级分类"@)
    ||| contains(t, "二级分类"@)
}

pub open spec fn acct_line_cats(kind: Seq<char>, line: Seq<char>) -> Seq<PresetCategoryView> {
    let t = acct_text(line);
    if acct_skip(t) {
        seq![]
    } else {
        match colon_split(t) {
            None => seq![],
            Some((a, rest)) => {
                let l1 = clean_name_spec(a);
                if l1.len() > 0 && l1.len() <= 15 {
                    family_cats(kind, l1, split_children_spec(rest))
                } else {
                    seq![]
                }
            },
        }
    }
}

pub open spec fn acct_pass(kind: Seq<char>, lines: Seq<Seq<char>>) -> Seq<PresetCategoryView>
    decreases lines.len(),
{
    if lines.len() == 0 {
        seq![]
    } else {
        acct_pass(kind, lines.drop_last()) + acct_line_cats(kind, lines.last())
    }
}

fn acct_line_exec(out: &mut Vec<PresetCategory>, kind: &str, line: &[char])
    ensures
        cat_views(final(out)@) == cat_views(old(out)@) + acct_line_cats(kind@, line@),
{
    let bullets = ['-', '*', ' '];
    assert(bullets@ == bullet_set());
    let a = trim_chars(line);
    let b = strip_start_in(a.as_slice(), &bullets);
    let t = trim_chars(b.as_slice());
    let ts = t.as_slice();
    let skip = starts_with_exec(ts, '|') || contains_char(ts, '|') || starts_with_exec(ts, '#')
        || starts_with_exec(ts, '（') || starts_with_exec(ts, '(') || contains_str(ts, "格式")
        || contains_str(ts, "一级分类") || contains_str(ts, "二级分类");
    if skip {
        assert(cat_views(out@) + seq![] == cat_views(out@));
        return ;
    }
    match colon_split_exec(ts) {
        None => {
            assert(cat_views(out@) + seq![] == cat_views(out@));
        },
        Some((l1_raw, rest)) => {
            let l1 = clean_name_chars(l1_raw.as_slice());
            if l1.len() > 0 && l1.len() <= 15 {
                let children = split_children_chars(rest.as_slice());
                push_family(out, kind, l1.as_slice(), &children);
            } else {
                assert(cat_views(out@) + seq![] == cat_views(out@));
            }
        },
    }
}

fn acct_pass_exec(out: &mut Vec<PresetCategory>, kind: &str, lines: &Vec<Vec<char>>)
    ensures
        cat_views(final(out)@) == cat_views(old(out)@) + acct_pass(kind@, views(lines@)),
{
    let ghost start = cat_views(out@);
    let ghost ls = views(lines@);
    let mut i: usize = 0;
    while i < lines.len()
        invariant
            i <= lines@.len(),
            ls == views(lines@),
            cat_views(out@) == start + acct_pass(kind@, ls.take(i as int)),
        decreases lines@.len() - i,
    {
        assert(ls.take(i + 1).drop_last() == ls.take(i as int));
        acct_line_exec(out, kind, lines[i].as_slice());
        i = i + 1;
    }
    assert(ls.take(lines@.len() as int) == ls);
}


// ---------------------------------------------------------------------
// Markdown: rule tables "| 规则/关键词 | 归属一级 | 归属二级 |"
// ---------------------------------------------------------------------

pub open spec fn kw_sep() -> Seq<char> {
    seq!['/', '、', '，', ',']
}

/// A keyword cleaned of marks, trailing "等" and a bracketed note
/// ("红包（收入）" is "红包").
pub open spec fn kw_clean(k: Seq<char>) -> Seq<char> {
    let b = trim(strip_end(clean_name_spec(k), in_set(deng())));
    let i = first_idx(b, open_paren());
    if 0 < i < b.len() {
        trim(b.take(i as int))
    } else {
        b
    }
}

pub open spec fn keep_kw(k: Seq<char>) -> bool {
    k.len() > 0 && k.len() <= 30
}

pub open spec fn keywords_of(pieces: Seq<Seq<char>>) -> Seq<Seq<char>>
    decreases pieces.len(),
{
    if pieces.len() == 0 {
        seq![]
    } else {
        let prev = keywords_of(pieces.drop_last());
        let k = kw_clean(pieces.last());
        if keep_kw(k) {
            prev.push(k)
        } else {
            prev
        }
    }
}

/// Rules of a first-level category that lies in the income tree are
/// income rules; all others are expense rules.
pub open spec fn rule_kind(l1: Seq<char>) -> Seq<char> {
    if contains(l1, "收入"@) || l1 == "职业收入"@ || l1 == "其他收入"@ {
        kind_income()
    } else {
        kind_expense()
    }
}

pub open spec fn mk_rule(kw: Seq<char>, kind: Seq<char>, l1: Seq<char>, l2: Option<Seq<char>>) -> RuleInputView {
    RuleInputView {
        id: None,
        keyword: kw,
        kind,
        l1,
        l2,
        priority: Some(0),
        enabled: Some(true),
    }
}

pub open spec fn rules_for(kws: Seq<Seq<char>>, kind: Seq<char>, l1: Seq<char>, l2: Option<Seq<char>>) -> Seq<RuleInputView>
    decreases kws.len(),
{
    if kws.len() == 0 {
        seq![]
    } else {
        rules_for(kws.drop_last(), kind, l1, l2).push(mk_rule(kws.last(), kind, l1, l2))
    }
}

proof fn lemma_keywords_kept(pieces: Seq<Seq<char>>)
    ensures
        forall|i: int| 0 <= i < keywords_of(pieces).len() ==> keep_kw(#[trigger] keywords_of(pieces)[i]),
    decreases pieces.len(),
{
    if pieces.len() > 0 {
        let prev = keywords_of(pieces.drop_last());
        lemma_keywords_kept(pieces.drop_last());
        assert forall|i: int| 0 <= i < keywords_of(pieces).len() implies keep_kw(
            #[trigger] keywords_of(pieces)[i],
        ) by {
            if i < prev.len() {
                assert(keywords_of(pieces)[i] == prev[i]);
            }
        }
    }
}

proof fn lemma_rules_for_items(kws: Seq<Seq<char>>, kind: Seq<char>, l1: Seq<char>, l2: Option<Seq<char>>)
    ensures
        rules_for(kws, kind, l1, l2).len() == kws.len(),
        forall|i: int| 0 <= i < kws.len() ==> #[trigger] rules_for(kws, kind, l1, l2)[i] == mk_rule(kws[i], kind, l1, l2),
    decreases kws.len(),
{
    if kws.len() > 0 {
        lemma_rules_for_items(kws.drop_last(), kind, l1, l2);
    }
}

/// A first-level category is of the income tree exactly when its name
/// contains 收入.
pub proof fn law_rule_kind_income_iff_contains(l1: Seq<char>)
    ensures
        rule_kind(l1) == (if contains(l1, "收入"@) { kind_income() } else { kind_expense() }),
{
    reveal_strlit("收入");
    reveal_strlit("职业收入");
    reveal_strlit("其他收入");
    if l1 == "职业收入"@ || l1 == "其他收入"@ {
        assert(l1.subrange(2, 4) =~= "收入"@);
        assert(crate::text::occurs_at(l1, "收入"@, 2));
    }
}

/// The rules of one table row: one per keyword of the first cell.
pub open spec fn row_rules(cells: Seq<Seq<char>>) -> Seq<RuleInputView> {
    if cells.len() < 2 {
        seq![]
    } else if contains(cells[0], "规则"@) || contains(cells[0], "关键词"@) {
        seq![]
    } else {
        let l1 = clean_name_spec(cells[1]);
        let l2_raw = if cells.len() > 2 {
            cells[2]
        } else {
            seq![]
        };
        let l2 = if placeholder_is_empty_spec(l2_raw) {
            None
        } else {
            Some(clean_name_spec(l2_raw))
        };
        rules_for(keywords_of(split_by(cells[0], in_set(kw_sep()))), rule_kind(l1), l1, l2)
    }
}

/// Each rule of a table row has one of the row's keywords (not empty, at
/// most 30 characters), the row's first-level category, a second level
/// unless the third cell is missing or a placeholder, priority 0, enabled,
/// and the kind that its category lies in: income when its name contains
/// 收入, expense otherwise.
pub proof fn law_row_rules_kind(cells: Seq<Seq<char>>)
    ensures
        forall|i: int|
            0 <= i < row_rules(cells).len() ==> {
                &&& (#[trigger] row_rules(cells)[i]).kind == (if contains(row_rules(cells)[i].l1, "收入"@) {
                    kind_income()
                } else {
                    kind_expense()
                })
                &&& row_rules(cells)[i].l1 == clean_name_spec(cells[1])
                &&& 0 < row_rules(cells)[i].keyword.len() <= 30
                &&& (row_rules(cells)[i].l2 is None <==> (cells.len() <= 2 || placeholder_is_empty_spec(cells[2])))
                &&& row_rules(cells)[i].priority == Some(0i64)
                &&& row_rules(cells)[i].enabled == Some(true)
            },
{
    if cells.len() >= 2 && !(contains(cells[0], "规则"@) || contains(cells[0], "关键词"@)) {
        let l1 = clean_name_spec(cells[1]);
        let l2_raw = if cells.len() > 2 {
            cells[2]
        } else {
            seq![]
        };
        let l2 = if placeholder_is_empty_spec(l2_raw) {
            None
        } else {
            Some(clean_name_spec(l2_raw))
        };
        let kws = keywords_of(split_by(cells[0], in_set(kw_sep())));
        lemma_keywords_kept(split_by(cells[0], in_set(kw_sep())));
        lemma_rules_for_items(kws, rule_kind(l1), l1, l2);
        law_rule_kind_income_iff_contains(l1);
    }
}

pub open spec fn rules_line(line: Seq<char>) -> Seq<RuleInputView> {
    let t = trim(line);
    if is_row(t) && !is_sep_row(row_cells(t)) {
        row_rules(row_cells(t))
    } else {
        seq![]
    }
}

/// The rules of a rule section, row by row.
pub open spec fn rules_pass(lines: Seq<Seq<char>>) -> Seq<RuleInputView>
    decreases lines.len(),
{
    if lines.len() == 0 {
        seq![]
    } else {
        rules_pass(lines.drop_last()) + rules_line(lines.last())
    }
}

fn kw_clean_exec(k: &[char]) -> (r: Vec<char>)
    ensures
        r@ == kw_clean(k@),
{
    let a = clean_name_chars(k);
    let set = ['等'];
    assert(set@ == deng());
    let b0 = strip_end_in(a.as_slice(), &set);
    let b = trim_chars(b0.as_slice());
    let parens = ['(', '（'];
    assert(parens@ == seq!['(', '（']);
    assert(in_set(parens@) == open_paren());
    let i = find_in_from(b.as_slice(), &parens, 0);
    assert(b@.skip(0) == b@);
    if 0 < i && i < b.len() {
        let head = slice_vec(b.as_slice(), 0, i);
        trim_chars(head.as_slice())
    } else {
        b
    }
}

fn push_rule(out: &mut Vec<RuleInput>, kw: &[char], kind: &str, l1: &[char], l2: &Option<Vec<char>>)
    ensures
        rule_views(final(out)@) == rule_views(old(out)@).push(mk_rule(kw@, kind@, l1@, opt_chars(*l2))),
{
    let l2s = match l2 {
        Some(v) => Some(string_of(v.as_slice())),
        None => None,
    };
    let r = RuleInput {
        id: None,
        keyword: string_of(kw),
        kind: kind.to_owned(),
        l1: string_of(l1),
        l2: l2s,
        priority: Some(0),
        enabled: Some(true),
    };
    let ghost before = out@;
    out.push(r);
    assert(rule_views(out@) =~= rule_views(before).push(mk_rule(kw@, kind@, l1@, opt_chars(*l2))));
}

fn row_rules_exec(out: &mut Vec<RuleInput>, cells: &Vec<Vec<char>>)
    ensures
        rule_views(final(out)@) == rule_views(old(out)@) + row_rules(views(cells@)),
{
    let ghost cs = views(cells@);
    if cells.len() < 2 || contains_str(cells[0].as_slice(), "规则") || contains_str(
        cells[0].as_slice(),
        "关键词",
    ) {
        assert(rule_views(out@) + seq![] == rule_views(out@));
        return ;
    }
    let l1 = clean_name_chars(cells[1].as_slice());
    let income = contains_str(l1.as_slice(), "收入") || eq_str(l1.as_slice(), "职业收入") || eq_str(
        l1.as_slice(),
        "其他收入",
    );
    let kind: &str = if income {
        "income"
    } else {
        "expense"
    };
    assert(kind@ == rule_kind(l1@));
    let l2_raw: Vec<char> = if cells.len() > 2 {
        slice_vec(cells[2].as_slice(), 0, cells[2].len())
    } else {
        Vec::new()
    };
    assert(l2_raw@ == (if cs.len() > 2 {
        cs[2]
    } else {
        seq![]
    }));
    let l2: Option<Vec<char>> = if placeholder_is_empty_chars(l2_raw.as_slice()) {
        None
    } else {
        Some(clean_name_chars(l2_raw.as_slice()))
    };
    let seps = ['/', '、', '，', ','];
    assert(seps@ == kw_sep());
    let pieces = split_on(cells[0].as_slice(), &seps);
    let ghost ps = views(pieces@);
    let mut kws: Vec<Vec<char>> = Vec::new();
    let mut i: usize = 0;
    while i < pieces.len()
        invariant
            i <= pieces@.len(),
            ps == views(pieces@),
            views(kws@) == keywords_of(ps.take(i as int)),
        decreases pieces@.len() - i,
    {
        assert(ps.take(i + 1).drop_last() == ps.take(i as int));
        let k = kw_clean_exec(pieces[i].as_slice());
        if k.len() > 0 && k.len() <= 30 {
            let ghost before = kws@;
            kws.push(k);
            assert(views(kws@) == views(before).push(k@));
        }
        i = i + 1;
    }
    assert(ps.take(pieces@.len() as int) == ps);
    let ghost start = rule_views(out@);
    let ghost ks = views(kws@);
    let mut j: usize = 0;
    while j < kws.len()
        invariant
            j <= kws@.len(),
            ks == views(kws@),
            rule_views(out@) == start + rules_for(ks.take(j as int), kind@, l1@, opt_chars(l2)),
        decreases kws@.len() - j,
    {
        assert(ks.take(j + 1).drop_last() == ks.take(j as int));
        push_rule(out, kws[j].as_slice(), kind, l1.as_slice(), &l2);
        j = j + 1;
    }
    assert(ks.take(kws@.len() as int) == ks);
}

/// Reads the rule table of a rule section into `rules`.
fn parse_rules_table(lines: &Vec<Vec<char>>, rules: &mut Vec<RuleInput>)
    requires
        no_bar_line(views(lines@)),
    ensures
        rule_views(final(rules)@) == rule_views(old(rules)@) + rules_pass(views(lines@)),
{
    let ghost start = rule_views(rules@);
    let ghost ls = views(lines@);
    let mut i: usize = 0;
    while i < lines.len()
        invariant
            i <= lines@.len(),
            ls == views(lines@),
            no_bar_line(ls),
            rule_views(rules@) == start + rules_pass(ls.take(i as int)),
        decreases lines@.len() - i,
    {
        assert(ls.take(i + 1).drop_last() == ls.take(i as int));
        assert(ls.take(i + 1).last() == lines@[i as int]@);
        let t = trim_chars(lines[i].as_slice());
        let ts = t.as_slice();
        if starts_with_exec(ts, '|') && ends_with_exec(ts, '|') {
            assert(!is_bar_line(ls[i as int]));
            if t.len() == 1 {
                assert(t@ =~= seq!['|']);
            }
            let cells = row_cells_exec(ts);
            if !is_sep_row_exec(&cells) {
                row_rules_exec(rules, &cells);
            } else {
                assert(rule_views(rules@) + seq![] == rule_views(rules@));
            }
        } else {
            assert(rule_views(rules@) + seq![] == rule_views(rules@));
        }
        i = i + 1;
    }
    assert(ls.take(lines@.len() as int) == ls);
}


// ---------------------------------------------------------------------
// Markdown: sections and the whole document
// ---------------------------------------------------------------------

/// A section of a Markdown preset: a heading and the lines under it.
pub struct MdSection {
    pub title: Seq<char>,
    pub lines: Seq<Seq<char>>,
}

pub open spec fn is_heading(line: Seq<char>) -> bool {
    starts_with(trim(line), '#')
}

pub open spec fn heading_title(line: Seq<char>) -> Seq<char> {
    trim(strip_start(trim(line), in_set(seq!['#'])))
}

/// The sections that the headings of `lines` open; lines before the
/// first heading belong to none.
pub open spec fn sections_of(lines: Seq<Seq<char>>) -> Seq<MdSection>
    decreases lines.len(),
{
    if lines.len() == 0 {
        seq![]
    } else {
        let prev = sections_of(lines.drop_last());
        let l = lines.last();
        if is_heading(l) {
            prev.push(MdSection { title: heading_title(l), lines: seq![] })
        } else if prev.len() > 0 {
            prev.update(
                prev.len() - 1,
                MdSection { title: prev.last().title, lines: prev.last().lines.push(l) },
            )
        } else {
            prev
        }
    }
}

/// The sections of the lines of a document; one holding every line when
/// no line is a heading.
pub open spec fn sections_of_doc(ls: Seq<Seq<char>>) -> Seq<MdSection> {
    let secs = sections_of(ls);
    if secs.len() == 0 {
        seq![MdSection { title: "全文"@, lines: ls }]
    } else {
        secs
    }
}

/// The sections of a document.
pub open spec fn md_sections(text: Seq<char>) -> Seq<MdSection> {
    sections_of_doc(lines(text))
}

proof fn lemma_no_heading_no_sections(pre: Seq<Seq<char>>)
    requires
        forall|i: int| 0 <= i < pre.len() ==> !is_heading(#[trigger] pre[i]),
    ensures
        sections_of(pre) == Seq::<MdSection>::empty(),
    decreases pre.len(),
{
    if pre.len() > 0 {
        lemma_no_heading_no_sections(pre.drop_last());
    }
}

proof fn lemma_sections_skip_prefix(pre: Seq<Seq<char>>, ls: Seq<Seq<char>>)
    requires
        forall|i: int| 0 <= i < pre.len() ==> !is_heading(#[trigger] pre[i]),
    ensures
        sections_of(pre + ls) == sections_of(ls),
    decreases ls.len(),
{
    if ls.len() == 0 {
        assert(pre + ls =~= pre);
        lemma_no_heading_no_sections(pre);
    } else {
        assert((pre + ls).drop_last() =~= pre + ls.drop_last());
        assert((pre + ls).last() == ls.last());
        lemma_sections_skip_prefix(pre, ls.drop_last());
    }
}

proof fn lemma_heading_opens_section(ls: Seq<Seq<char>>)
    requires
        exists|i: int| 0 <= i < ls.len() && is_heading(#[trigger] ls[i]),
    ensures
        sections_of(ls).len() > 0,
    decreases ls.len(),
{
    if !is_heading(ls.last()) {
        let i = choose|i: int| 0 <= i < ls.len() && is_heading(#[trigger] ls[i]);
        assert(ls.drop_last()[i] == ls[i]);
        lemma_heading_opens_section(ls.drop_last());
    }
}

/// Lines before the first heading of a Markdown preset belong to no
/// section: they change neither its sections nor what is read from it.
pub proof fn law_md_ignores_lines_before_first_heading(pre: Seq<Seq<char>>, ls: Seq<Seq<char>>)
    requires
        forall|i: int| 0 <= i < pre.len() ==> !is_heading(#[trigger] pre[i]),
        exists|i: int| 0 <= i < ls.len() && is_heading(#[trigger] ls[i]),
    ensures
        sections_of_doc(pre + ls) == sections_of_doc(ls),
        parse_md_lines(pre + ls) == parse_md_lines(ls),
{
    lemma_sections_skip_prefix(pre, ls);
    lemma_heading_opens_section(ls);
}

pub open spec fn sec_views(titles: Seq<Vec<char>>, bodies: Seq<Vec<Vec<char>>>) -> Seq<MdSection> {
    Seq::new(titles.len(), |k: int| MdSection { title: titles[k]@, lines: views(bodies[k]@) })
}

fn md_sections_exec(text: &[char]) -> (r: (Vec<Vec<char>>, Vec<Vec<Vec<char>>>))
    ensures
        r.0@.len() == r.1@.len(),
        sec_views(r.0@, r.1@) == md_sections(text@),
{
    let ls = lines_of(text);
    let ghost lv = views(ls@);
    let mut titles: Vec<Vec<char>> = Vec::new();
    let mut bodies: Vec<Vec<Vec<char>>> = Vec::new();
    let hash = ['#'];
    assert(hash@ == seq!['#']);
    let mut i: usize = 0;
    while i < ls.len()
        invariant
            i <= ls@.len(),
            lv == views(ls@),
            hash@ == seq!['#'],
            titles@.len() == bodies@.len(),
            sec_views(titles@, bodies@) == sections_of(lv.take(i as int)),
        decreases ls@.len() - i,
    {
        assert(lv.take(i + 1).drop_last() == lv.take(i as int));
        assert(lv.take(i + 1).last() == ls@[i as int]@);
        let ghost prev = sec_views(titles@, bodies@);
        let t = trim_chars(ls[i].as_slice());
        if starts_with_exec(t.as_slice(), '#') {
            let h = strip_start_in(t.as_slice(), &hash);
            let title = trim_chars(h.as_slice());
            assert(title@ == heading_title(lv[i as int]));
            titles.push(title);
            let empty: Vec<Vec<char>> = Vec::new();
            assert(views(empty@) =~= Seq::<Seq<char>>::empty());
            bodies.push(empty);
            assert(sec_views(titles@, bodies@) =~= prev.push(
                MdSection { title: heading_title(lv[i as int]), lines: seq![] },
            ));
        } else if titles.len() > 0 {
            let line = slice_vec(ls[i].as_slice(), 0, ls[i].len());
            assert(ls@[i as int]@.subrange(0, ls@[i as int]@.len() as int) == ls@[i as int]@);
            let mut last = bodies.pop().unwrap();
            let ghost lb = last@;
            last.push(line);
            assert(views(last@) =~= views(lb).push(lv[i as int]));
            bodies.push(last);
            assert(sec_views(titles@, bodies@) =~= prev.update(
                prev.len() - 1,
                MdSection { title: prev.last().title, lines: prev.last().lines.push(lv[i as int]) },
            ));
        }
        i = i + 1;
    }
    assert(lv.take(ls@.len() as int) == lv);
    if titles.len() == 0 {
        titles.push(chars_of("全文"));
        bodies.push(ls);
        assert(sec_views(titles@, bodies@) =~= seq![MdSection { title: "全文"@, lines: lv }]);
    }
    (titles, bodies)
}

pub open spec fn is_rule_title(t: Seq<char>) -> bool {
    contains(t, "规则"@) || contains(t, "自动分类"@)
}

/// The kind in effect after a heading: the one it names, else the previous one.
pub open spec fn next_kind(title: Seq<char>, k: Option<Seq<char>>) -> Option<Seq<char>> {
    match heading_kind_spec(title) {
        Some(h) => Some(h),
        None => k,
    }
}

/// The entries of a category section of kind `kind`.
pub open spec fn section_cats(kind: Seq<char>, lines: Seq<Seq<char>>) -> Seq<PresetCategoryView> {
    l1_pass(kind, lines) + table_pass(kind, lines).cats + (if kind == kind_account() {
        acct_pass(kind, lines)
    } else {
        seq![]
    })
}

pub struct MdState {
    pub kind: Option<Seq<char>>,
    pub cats: Seq<PresetCategoryView>,
    pub rules: Seq<RuleInputView>,
}

/// Reads the sections in order: rule sections give rules; other sections
/// give categories of the kind that the latest naming heading set.
pub open spec fn md_fold(secs: Seq<MdSection>) -> MdState
    decreases secs.len(),
{
    if secs.len() == 0 {
        MdState { kind: None, cats: seq![], rules: seq![] }
    } else {
        let st = md_fold(secs.drop_last());
        let sec = secs.last();
        if is_rule_title(sec.title) {
            MdState { kind: st.kind, cats: st.cats, rules: st.rules + rules_pass(sec.lines) }
        } else {
            match next_kind(sec.title, st.kind) {
                None => st,
                Some(kind) => MdState {
                    kind: Some(kind),
                    cats: st.cats + section_cats(kind, sec.lines),
                    rules: st.rules,
                },
            }
        }
    }
}

/// The tables of a read section hold no line that is a lone '|'.
pub open spec fn section_safe(sec: MdSection, before: Option<Seq<char>>) -> bool {
    (is_rule_title(sec.title) || next_kind(sec.title, before) is Some) ==> no_bar_line(sec.lines)
}

pub open spec fn md_safe(secs: Seq<MdSection>) -> bool
    decreases secs.len(),
{
    secs.len() == 0 || (md_safe(secs.drop_last()) && section_safe(
        secs.last(),
        md_fold(secs.drop_last()).kind,
    ))
}

/// A Markdown preset that `parse_md` reads: no table line of a section
/// it reads is a lone '|'.
pub open spec fn md_readable(text: Seq<char>) -> bool {
    md_safe(md_sections(text))
}

pub proof fn lemma_md_safe_take(secs: Seq<MdSection>, k: int)
    requires
        md_safe(secs),
        0 <= k <= secs.len(),
    ensures
        md_safe(secs.take(k)),
    decreases secs.len(),
{
    if k < secs.len() {
        assert(secs.drop_last().take(k) == secs.take(k));
        lemma_md_safe_take(secs.drop_last(), k);
    } else {
        assert(secs.take(k) == secs);
    }
}

/// Removes the entries equal to the one just before them (`Vec::dedup_by`).
pub open spec fn dedup(s: Seq<PresetCategoryView>) -> Seq<PresetCategoryView>
    decreases s.len(),
{
    if s.len() == 0 {
        seq![]
    } else {
        let d = dedup(s.drop_last());
        if d.len() > 0 && d.last() == s.last() {
            d
        } else {
            d.push(s.last())
        }
    }
}

/// No two neighbouring entries of `dedup(s)` are equal.
pub open spec fn no_adjacent_repeats(s: Seq<PresetCategoryView>) -> bool {
    forall|i: int| 0 <= i < s.len() - 1 ==> #[trigger] s[i] != s[i + 1]
}

pub proof fn lemma_dedup_no_repeats(s: Seq<PresetCategoryView>)
    ensures
        no_adjacent_repeats(dedup(s)),
        s.len() > 0 ==> dedup(s).len() > 0 && dedup(s).last() == s.last(),
    decreases s.len(),
{
    if s.len() > 0 {
        lemma_dedup_no_repeats(s.drop_last());
        let d = dedup(s.drop_last());
        if !(d.len() > 0 && d.last() == s.last()) {
            let e = d.push(s.last());
            assert forall|i: int| 0 <= i < e.len() - 1 implies #[trigger] e[i] != e[i + 1] by {
                if i < d.len() - 1 {
                    assert(e[i] == d[i] && e[i + 1] == d[i + 1]);
                }
            }
        }
    }
}

/// A parsed preset never lists the same entry twice in a row (repeated
/// entries next to each other are merged), in either format.
pub proof fn law_preset_entries_not_repeated(text: Seq<char>)
    ensures
        no_adjacent_repeats(parse_md_spec(text).categories),
        no_adjacent_repeats(parse_txt_spec(text).categories),
{
    lemma_dedup_no_repeats(md_fold(md_sections(text)).cats);
    lemma_dedup_no_repeats(txt_fold(lines(text)).cats);
}

pub open spec fn md_warning() -> Seq<char> {
    "未识别出任何分类或规则，请检查文档格式（需包含「一级目录」「二级目录」或对应表格）"@
}

/// What `parse_md` gives for a document.
pub open spec fn parse_md_spec(text: Seq<char>) -> PresetPreviewView {
    parse_md_lines(lines(text))
}

/// A rule as a table row gives it: a keyword of 1 to 30 characters,
/// priority 0, enabled, and the kind its first-level category lies in.
pub open spec fn table_rule_ok(r: RuleInputView) -> bool {
    &&& r.kind == (if contains(r.l1, "收入"@) { kind_income() } else { kind_expense() })
    &&& 0 < r.keyword.len() <= 30
    &&& r.priority == Some(0i64)
    &&& r.enabled == Some(true)
}

proof fn lemma_rules_pass_ok(lines: Seq<Seq<char>>)
    ensures
        forall|i: int| 0 <= i < rules_pass(lines).len() ==> table_rule_ok(#[trigger] rules_pass(lines)[i]),
    decreases lines.len(),
{
    if lines.len() > 0 {
        let a = rules_pass(lines.drop_last());
        let b = rules_line(lines.last());
        lemma_rules_pass_ok(lines.drop_last());
        let t = trim(lines.last());
        law_row_rules_kind(row_cells(t));
        assert forall|i: int| 0 <= i < rules_pass(lines).len() implies table_rule_ok(#[trigger] rules_pass(lines)[i]) by {
            if i < a.len() {
                assert(rules_pass(lines)[i] == a[i]);
            } else {
                assert(rules_pass(lines)[i] == b[i - a.len()]);
            }
        }
    }
}

proof fn lemma_md_fold_rules_ok(secs: Seq<MdSection>)
    ensures
        forall|i: int| 0 <= i < md_fold(secs).rules.len() ==> table_rule_ok(#[trigger] md_fold(secs).rules[i]),
    decreases secs.len(),
{
    if secs.len() > 0 {
        let st = md_fold(secs.drop_last());
        lemma_md_fold_rules_ok(secs.drop_last());
        lemma_rules_pass_ok(secs.last().lines);
        let r = md_fold(secs).rules;
        assert forall|i: int| 0 <= i < r.len() implies table_rule_ok(#[trigger] r[i]) by {
            if is_rule_title(secs.last().title) {
                if i < st.rules.len() {
                    assert(r[i] == st.rules[i]);
                } else {
                    assert(r[i] == rules_pass(secs.last().lines)[i - st.rules.len()]);
                }
            }
        }
    }
}

/// Every rule that a Markdown preset gives has a keyword of 1 to 30
/// characters, priority 0, is enabled, and is an income rule exactly when
/// its first-level category contains 收入 (an expense rule otherwise).
pub proof fn law_md_rules_kind(text: Seq<char>)
    ensures
        forall|i: int|
            0 <= i < parse_md_spec(text).rules.len() ==> table_rule_ok(#[trigger] parse_md_spec(text).rules[i]),
{
    lemma_md_fold_rules_ok(sections_of_doc(lines(text)));
}

/// What is read from a Markdown preset with these lines.
pub open spec fn parse_md_lines(ls: Seq<Seq<char>>) -> PresetPreviewView {
    let st = md_fold(sections_of_doc(ls));
    let cats = dedup(st.cats);
    PresetPreviewView {
        categories: cats,
        rules: st.rules,
        warnings: if cats.len() == 0 && st.rules.len() == 0 {
            seq![md_warning()]
        } else {
            seq![]
        },
    }
}

pub open spec fn opt_nat(o: Option<usize>) -> Option<nat> {
    match o {
        Some(n) => Some(n as nat),
        None => None,
    }
}

pub open spec fn opt_str(o: Option<&str>) -> Option<Seq<char>> {
    match o {
        Some(s) => Some(s@),
        None => None,
    }
}

fn clone_opt(o: &Option<String>) -> (r: Option<String>)
    ensures
        opt_view(r) == opt_view(*o),
{
    match o {
        Some(s) => Some(s.clone()),
        None => None,
    }
}

fn opt_eq(a: &Option<String>, b: &Option<String>) -> (r: bool)
    ensures
        r == (opt_view(*a) == opt_view(*b)),
{
    match (a, b) {
        (Some(x), Some(y)) => x.eq(y),
        (None, None) => true,
        _ => false,
    }
}

fn clone_cat(c: &PresetCategory) -> (r: PresetCategory)
    ensures
        r@ == c@,
{
    PresetCategory { kind: c.kind.clone(), l1: c.l1.clone(), l2: clone_opt(&c.l2) }
}

fn same_cat(a: &PresetCategory, b: &PresetCategory) -> (r: bool)
    ensures
        r == (a@ == b@),
{
    a.kind == b.kind && a.l1 == b.l1 && opt_eq(&a.l2, &b.l2)
}

fn dedup_cats(cats: &Vec<PresetCategory>) -> (r: Vec<PresetCategory>)
    ensures
        cat_views(r@) == dedup(cat_views(cats@)),
{
    let ghost cv = cat_views(cats@);
    let mut out: Vec<PresetCategory> = Vec::new();
    let mut i: usize = 0;
    while i < cats.len()
        invariant
            i <= cats@.len(),
            cv == cat_views(cats@),
            cat_views(out@) == dedup(cv.take(i as int)),
        decreases cats@.len() - i,
    {
        assert(cv.take(i + 1).drop_last() == cv.take(i as int));
        assert(cv.take(i + 1).last() == cats@[i as int]@);
        let dup = out.len() > 0 && same_cat(&out[out.len() - 1], &cats[i]);
        if !dup {
            let ghost before = out@;
            out.push(clone_cat(&cats[i]));
            assert(cat_views(out@) =~= cat_views(before).push(cats@[i as int]@));
        }
        i = i + 1;
    }
    assert(cv.take(cats@.len() as int) == cv);
    out
}

fn section_cats_exec(out: &mut Vec<PresetCategory>, kind: &'static str, lines: &Vec<Vec<char>>)
    requires
        no_bar_line(views(lines@)),
    ensures
        cat_views(final(out)@) == cat_views(old(out)@) + section_cats(kind@, views(lines@)),
{
    let ghost start = cat_views(out@);
    l1_pass_exec(out, kind, lines);
    table_pass_exec(out, kind, lines);
    let ghost mid = cat_views(out@);
    let k = chars_of(kind);
    if eq_str(k.as_slice(), "account") {
        acct_pass_exec(out, kind, lines);
    } else {
        assert(cat_views(out@) + seq![] == cat_views(out@));
    }
}

/// Parses a Markdown preset: sections titled with "规则" or "自动分类" hold
/// rule tables; other sections hold "一级目录" lines, "| 一级 | 二级 |"
/// tables and, under an account heading, "现金账户：现金" lines.
pub fn parse_md(text: &str) -> (r: PresetPreview)
    requires
        md_readable(text@),
    ensures
        r@ == parse_md_spec(text@),
{
    let chars = chars_of(text);
    let (titles, bodies) = md_sections_exec(chars.as_slice());
    let ghost secs = sec_views(titles@, bodies@);
    let mut cur: Option<&'static str> = None;
    let mut cats: Vec<PresetCategory> = Vec::new();
    let mut rules: Vec<RuleInput> = Vec::new();
    let mut i: usize = 0;
    while i < titles.len()
        invariant
            i <= titles@.len(),
            titles@.len() == bodies@.len(),
            secs == sec_views(titles@, bodies@),
            md_safe(secs),
            opt_str(cur) == md_fold(secs.take(i as int)).kind,
            cat_views(cats@) == md_fold(secs.take(i as int)).cats,
            rule_views(rules@) == md_fold(secs.take(i as int)).rules,
        decreases titles@.len() - i,
    {
        proof {
            lemma_md_safe_take(secs, i + 1);
            assert(secs.take(i + 1).drop_last() == secs.take(i as int));
            assert(secs.take(i + 1).last() == secs[i as int]);
        }
        let title = titles[i].as_slice();
        if contains_str(title, "规则") || contains_str(title, "自动分类") {
            parse_rules_table(&bodies[i], &mut rules);
        } else {
            let h = heading_kind_chars(title);
            if h.is_some() {
                cur = h;
            }
            match cur {
                None => {},
                Some(kind) => {
                    section_cats_exec(&mut cats, kind, &bodies[i]);
                },
            }
        }
        i = i + 1;
    }
    assert(secs.take(titles@.len() as int) == secs);
    let categories = dedup_cats(&cats);
    let mut warnings: Vec<String> = Vec::new();
    if categories.len() == 0 && rules.len() == 0 {
        let w = chars_of("未识别出任何分类或规则，请检查文档格式（需包含「一级目录」「二级目录」或对应表格）");
        warnings.push(string_of(w.as_slice()));
    }
    let r = PresetPreview { categories, rules, warnings };
    assert(r@.warnings =~= parse_md_spec(text@).warnings);
    r
}


fn no_bar_line_exec(lines: &Vec<Vec<char>>) -> (r: bool)
    ensures
        r == no_bar_line(views(lines@)),
{
    let mut i: usize = 0;
    while i < lines.len()
        invariant
            i <= lines@.len(),
            forall|k: int| 0 <= k < i ==> !is_bar_line(#[trigger] views(lines@)[k]),
        decreases lines@.len() - i,
    {
        assert(views(lines@)[i as int] == lines@[i as int]@);
        let t = trim_chars(lines[i].as_slice());
        if t.len() == 1 && t[0] == '|' {
            assert(t@ =~= seq!['|']);
            return false;
        }
        assert(t@ != seq!['|']);
        i = i + 1;
    }
    true
}

/// Whether `parse_md` can read a document: no table line of a section it
/// reads is a lone '|'.
#[verifier::rlimit(30)]
pub fn md_readable_text(text: &str) -> (r: bool)
    ensures
        r == md_readable(text@),
{
    let chars = chars_of(text);
    let (titles, bodies) = md_sections_exec(chars.as_slice());
    let ghost secs = sec_views(titles@, bodies@);
    let mut cur: Option<&'static str> = None;
    let mut ok = true;
    let mut i: usize = 0;
    while i < titles.len()
        invariant
            i <= titles@.len(),
            titles@.len() == bodies@.len(),
            secs == sec_views(titles@, bodies@),
            secs == md_sections(text@),
            opt_str(cur) == md_fold(secs.take(i as int)).kind,
            ok == md_safe(secs.take(i as int)),
        decreases titles@.len() - i,
    {
        proof {
            assert(secs.take(i + 1).drop_last() == secs.take(i as int));
            assert(secs.take(i + 1).last() == secs[i as int]);
        }
        let title = titles[i].as_slice();
        let read = if contains_str(title, "规则") || contains_str(title, "自动分类") {
            true
        } else {
            let h = heading_kind_chars(title);
            if h.is_some() {
                cur = h;
            }
            cur.is_some()
        };
        let safe = !read || no_bar_line_exec(&bodies[i]);
        ok = ok && safe;
        i = i + 1;
    }
    assert(secs.take(titles@.len() as int) == secs);
    ok
}

// ---------------------------------------------------------------------
// Plain-text presets
// ---------------------------------------------------------------------

pub open spec fn path_sep() -> Seq<char> {
    seq!['/', '>', '＞']
}

/// The trimmed pieces of `pieces` that are not empty.
pub open spec fn nonempty_trimmed(pieces: Seq<Seq<char>>) -> Seq<Seq<char>>
    decreases pieces.len(),
{
    if pieces.len() == 0 {
        seq![]
    } else {
        let prev = nonempty_trimmed(pieces.drop_last());
        let p = trim(pieces.last());
        if p.len() > 0 {
            prev.push(p)
        } else {
            prev
        }
    }
}

/// The parts of a path line "支出 > 食品饮料 > 早午晚餐".
pub open spec fn path_parts(t: Seq<char>) -> Seq<Seq<char>> {
    nonempty_trimmed(split_by(t, in_set(path_sep())))
}

pub open spec fn is_path_line(t: Seq<char>) -> bool {
    (t.contains('/') || t.contains('>') || t.contains('＞')) && path_parts(t).len() >= 2
}

pub open spec fn or_expense(k: Option<Seq<char>>) -> Seq<char> {
    match k {
        Some(x) => x,
        None => kind_expense(),
    }
}

pub open spec fn txt_warning(name: Seq<char>) -> Seq<char> {
    "行「"@ + name + "」缺少所属一级分类，已跳过"@
}

pub struct TxtState {
    pub kind: Option<Seq<char>>,
    /// The indentation of the latest first-level line of the current kind.
    pub l1_indent: Option<nat>,
    pub cats: Seq<PresetCategoryView>,
    pub warnings: Seq<Seq<char>>,
}

/// One line of a plain-text preset. Blank lines and '#' lines change
/// nothing. A path line "A / B / C" (or with '>', '＞') gives first level
/// B and second level C, of the kind A names (else the current kind). A
/// line naming a kind (支出/收入/账户) starts that kind. Other lines are
/// names in an outline: a line indented deeper than the latest
/// first-level line of the kind is a second level of the latest entry;
/// otherwise it is a first level (of the current kind, expense when none),
/// except that an indented line before any kind or first level is
/// skipped with a warning.
pub open spec fn txt_step(st: TxtState, raw: Seq<char>) -> TxtState {
    let t = trim(raw);
    if t.len() == 0 || starts_with(t, '#') {
        st
    } else if is_path_line(t) {
        let parts = path_parts(t);
        let named = kind_from_word_spec(parts[0]);
        let kind = match named {
            Some(k) => k,
            None => or_expense(st.kind),
        };
        let l2 = if parts.len() > 2 {
            Some(clean_name_spec(parts[2]))
        } else {
            None
        };
        TxtState {
            kind: match named {
                Some(k) => Some(k),
                None => st.kind,
            },
            l1_indent: st.l1_indent,
            cats: st.cats.push(mk_cat(kind, clean_name_spec(parts[1]), l2)),
            warnings: st.warnings,
        }
    } else if kind_from_word_spec(t) is Some {
        TxtState { kind: kind_from_word_spec(t), l1_indent: None, cats: st.cats, warnings: st.warnings }
    } else {
        let name = clean_name_spec(t);
        let indent = lead_len(raw, ws_pred());
        if name.len() == 0 {
            st
        } else if st.l1_indent matches Some(li) && indent > li && st.cats.len() > 0 {
            TxtState {
                kind: st.kind,
                l1_indent: st.l1_indent,
                cats: st.cats.push(mk_cat(st.cats.last().kind, st.cats.last().l1, Some(name))),
                warnings: st.warnings,
            }
        } else if indent == 0 || st.kind is Some {
            TxtState {
                kind: st.kind,
                l1_indent: Some(indent),
                cats: st.cats.push(mk_cat(or_expense(st.kind), name, None)),
                warnings: st.warnings,
            }
        } else {
            TxtState { warnings: st.warnings.push(txt_warning(name)), ..st }
        }
    }
}

pub open spec fn txt_fold(lines: Seq<Seq<char>>) -> TxtState
    decreases lines.len(),
{
    if lines.len() == 0 {
        TxtState { kind: None, l1_indent: None, cats: seq![], warnings: seq![] }
    } else {
        txt_step(txt_fold(lines.drop_last()), lines.last())
    }
}

/// Blank lines and '#' comment lines, wherever they stand, change neither
/// the kind in effect nor the result of a plain-text preset.
pub proof fn law_txt_ignores_blank_and_comment_lines(ls: Seq<Seq<char>>, k: int, x: Seq<char>)
    requires
        0 <= k <= ls.len(),
        trim(x).len() == 0 || starts_with(trim(x), '#'),
    ensures
        txt_fold(ls.insert(k, x)) == txt_fold(ls),
    decreases ls.len(),
{
    let l2 = ls.insert(k, x);
    if k == ls.len() {
        assert(l2.drop_last() =~= ls);
    } else {
        assert(l2.drop_last() =~= ls.drop_last().insert(k, x));
        assert(l2.last() == ls.last());
        law_txt_ignores_blank_and_comment_lines(ls.drop_last(), k, x);
    }
}

/// In a plain-text outline, a name at the margin is a first-level
/// category of the kind in effect (expense when none is), and a name
/// indented under it is a second level of that category.
pub proof fn law_txt_outline_nests(st: TxtState, x: Seq<char>, y: Seq<char>)
    requires
        trim(x).len() > 0 && !starts_with(trim(x), '#') && !is_path_line(trim(x)),
        kind_from_word_spec(trim(x)) is None,
        clean_name_spec(trim(x)).len() > 0,
        lead_len(x, ws_pred()) == 0,
        trim(y).len() > 0 && !starts_with(trim(y), '#') && !is_path_line(trim(y)),
        kind_from_word_spec(trim(y)) is None,
        clean_name_spec(trim(y)).len() > 0,
        lead_len(y, ws_pred()) > 0,
    ensures
        txt_step(txt_step(st, x), y).cats == st.cats.push(
            mk_cat(or_expense(st.kind), clean_name_spec(trim(x)), None),
        ).push(mk_cat(or_expense(st.kind), clean_name_spec(trim(x)), Some(clean_name_spec(trim(y))))),
        txt_step(txt_step(st, x), y).warnings == st.warnings,
{
    let s1 = txt_step(st, x);
    assert(s1.l1_indent == Some(0nat));
    assert(s1.cats.last() == mk_cat(or_expense(st.kind), clean_name_spec(trim(x)), None));
    assert(s1.kind == st.kind);
}

/// What `parse_txt_file` gives for a document.
pub open spec fn parse_txt_spec(text: Seq<char>) -> PresetPreviewView {
    let st = txt_fold(lines(text));
    PresetPreviewView { categories: dedup(st.cats), rules: seq![], warnings: st.warnings }
}

fn path_parts_exec(t: &[char]) -> (r: Vec<Vec<char>>)
    ensures
        views(r@) == path_parts(t@),
{
    let seps = ['/', '>', '＞'];
    assert(seps@ == path_sep());
    let pieces = split_on(t, &seps);
    let ghost ps = views(pieces@);
    let mut out: Vec<Vec<char>> = Vec::new();
    let mut i: usize = 0;
    while i < pieces.len()
        invariant
            i <= pieces@.len(),
            ps == views(pieces@),
            views(out@) == nonempty_trimmed(ps.take(i as int)),
        decreases pieces@.len() - i,
    {
        assert(ps.take(i + 1).drop_last() == ps.take(i as int));
        let p = trim_chars(pieces[i].as_slice());
        if p.len() > 0 {
            let ghost before = out@;
            out.push(p);
            assert(views(out@) == views(before).push(p@));
        }
        i = i + 1;
    }
    assert(ps.take(pieces@.len() as int) == ps);
    out
}

fn push_family_cat(out: &mut Vec<PresetCategory>, kind: &String, l1: &String, l2: Vec<char>)
    ensures
        cat_views(final(out)@) == cat_views(old(out)@).push(mk_cat(kind@, l1@, Some(l2@))),
{
    let c = PresetCategory { kind: kind.clone(), l1: l1.clone(), l2: Some(string_of(l2.as_slice())) };
    let ghost before = out@;
    out.push(c);
    assert(cat_views(out@) =~= cat_views(before).push(mk_cat(kind@, l1@, Some(l2@))));
}

/// Parses a plain-text preset: "支出 > 食品饮料 > 早午晚餐" path lines, and
/// outlines whose top lines name the kind (支出/收入/账户), with
/// first-level names below them and second-level names indented deeper
/// (first-level names may also stand at the left margin).
pub fn parse_txt_file(text: &str) -> (r: PresetPreview)
    ensures
        r@ == parse_txt_spec(text@),
{
    let chars = chars_of(text);
    let ls = lines_of(chars.as_slice());
    let ghost lv = views(ls@);
    let mut cur: Option<&'static str> = None;
    let mut l1_ind: Option<usize> = None;
    let mut cats: Vec<PresetCategory> = Vec::new();
    let mut warnings: Vec<String> = Vec::new();
    let mut i: usize = 0;
    while i < ls.len()
        invariant
            i <= ls@.len(),
            lv == views(ls@),
            opt_str(cur) == txt_fold(lv.take(i as int)).kind,
            opt_nat(l1_ind) == txt_fold(lv.take(i as int)).l1_indent,
            cat_views(cats@) == txt_fold(lv.take(i as int)).cats,
            warnings@.map_values(|w: String| w@) == txt_fold(lv.take(i as int)).warnings,
        decreases ls@.len() - i,
    {
        assert(lv.take(i + 1).drop_last() == lv.take(i as int));
        assert(lv.take(i + 1).last() == ls@[i as int]@);
        let raw = ls[i].as_slice();
        let t = trim_chars(raw);
        let ts = t.as_slice();
        let mut done = false;
        if t.len() == 0 || starts_with_exec(ts, '#') {
            done = true;
        }
        if !done && (contains_char(ts, '/') || contains_char(ts, '>') || contains_char(ts, '＞')) {
            let parts = path_parts_exec(ts);
            if parts.len() >= 2 {
                let named = kind_from_word_chars(parts[0].as_slice());
                let kind: &str = match named {
                    Some(k) => k,
                    None => match cur {
                        Some(c) => c,
                        None => "expense",
                    },
                };
                if named.is_some() {
                    cur = named;
                }
                let l1 = clean_name_chars(parts[1].as_slice());
                let l2 = if parts.len() > 2 {
                    Some(clean_name_chars(parts[2].as_slice()))
                } else {
                    None
                };
                push_cat(&mut cats, kind, l1.as_slice(), l2);
                done = true;
            }
        }
        if !done {
            let named = kind_from_word_chars(ts);
            if named.is_some() {
                cur = named;
                l1_ind = None;
            } else {
                let name = clean_name_chars(ts);
                let indent = lead_len_ws(raw);
                if name.len() > 0 {
                    let deeper = match l1_ind {
                        Some(li) => indent > li && cats.len() > 0,
                        None => false,
                    };
                    if deeper {
                        let n = cats.len();
                        let k = cats[n - 1].kind.clone();
                        let l1 = cats[n - 1].l1.clone();
                        push_family_cat(&mut cats, &k, &l1, name);
                    } else if indent == 0 || cur.is_some() {
                        let kind: &str = match cur {
                            Some(c) => c,
                            None => "expense",
                        };
                        push_cat(&mut cats, kind, name.as_slice(), None);
                        l1_ind = Some(indent);
                    } else {
                        let mut w = chars_of("行「");
                        push_all(&mut w, name.as_slice());
                        let tail = chars_of("」缺少所属一级分类，已跳过");
                        push_all(&mut w, tail.as_slice());
                        let ghost before = warnings@;
                        warnings.push(string_of(w.as_slice()));
                        assert(warnings@.map_values(|x: String| x@) =~= before.map_values(
                            |x: String| x@,
                        ).push(txt_warning(name@)));
                    }
                }
            }
        }
        i = i + 1;
    }
    assert(lv.take(ls@.len() as int) == lv);
    let categories = dedup_cats(&cats);
    let r = PresetPreview { categories, rules: Vec::new(), warnings };
    assert(r@.rules =~= Seq::<RuleInputView>::empty());
    r
}

/// A document that looks like Markdown: a line opening with '#', or at
/// least four '|'.
pub open spec fn looks_md(text: Seq<char>) -> bool {
    (exists|i: int| 0 <= i < lines(text).len() && starts_with(trim_start(#[trigger] lines(text)[i]), '#'))
        || count_char(text, '|') >= 4
}

/// Whether a document looks like Markdown.
pub fn looks_md_text(text: &str) -> (r: bool)
    ensures
        r == looks_md(text@),
{
    let chars = chars_of(text);
    let ls = lines_of(chars.as_slice());
    let mut any_heading = false;
    let mut i: usize = 0;
    while i < ls.len()
        invariant
            i <= ls@.len(),
            views(ls@) == lines(chars@),
            any_heading == exists|j: int|
                0 <= j < i && starts_with(trim_start(#[trigger] lines(chars@)[j]), '#'),
        decreases ls@.len() - i,
    {
        let t = trim_start_chars(ls[i].as_slice());
        assert(views(ls@)[i as int] == ls@[i as int]@);
        if starts_with_exec(t.as_slice(), '#') {
            any_heading = true;
        }
        i = i + 1;
    }
    any_heading || count_char_exec(chars.as_slice(), '|') >= 4
}

/// Parses a preset in whichever format it looks like, and says which.
pub fn parse_auto(text: &str) -> (r: (String, PresetPreview))
    requires
        looks_md(text@) ==> md_readable(text@),
    ensures
        looks_md(text@) ==> r.0@ == "md"@ && r.1@ == parse_md_spec(text@),
        !looks_md(text@) ==> r.0@ == "txt"@ && r.1@ == parse_txt_spec(text@),
{
    if looks_md_text(text) {
        ("md".to_owned(), parse_md(text))
    } else {
        ("txt".to_owned(), parse_txt_file(text))
    }
}

} // verus!
