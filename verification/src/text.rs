//! Character-level text primitives: whitespace, trimming, searching,
//! splitting and line breaking, each stated over `Seq<char>`.
use vstd::prelude::*;

verus! {

// ---------------------------------------------------------------------
// Character classes
// ---------------------------------------------------------------------

/// Unicode `White_Space` (the class that `char::is_whitespace` and
/// `str::trim` use).
pub open spec fn is_ws(c: char) -> bool {
    let u = c as u32;
    ||| 0x09 <= u <= 0x0d
    ||| u == 0x20
    ||| u == 0x85
    ||| u == 0xa0
    ||| u == 0x1680
    ||| 0x2000 <= u <= 0x200a
    ||| u == 0x2028
    ||| u == 0x2029
    ||| u == 0x202f
    ||| u == 0x205f
    ||| u == 0x3000
}

pub open spec fn ws_pred() -> spec_fn(char) -> bool {
    |c: char| is_ws(c)
}

/// Membership in a small set of characters.
pub open spec fn in_set(set: Seq<char>) -> spec_fn(char) -> bool {
    |c: char| set.contains(c)
}

pub open spec fn is_ascii_digit(c: char) -> bool {
    '0' <= c <= '9'
}

pub fn is_whitespace(c: char) -> (r: bool)
    ensures
        r == is_ws(c),
{
    let u = c as u32;
    (0x09 <= u && u <= 0x0d) || u == 0x20 || u == 0x85 || u == 0xa0 || u == 0x1680 || (0x2000
        <= u && u <= 0x200a) || u == 0x2028 || u == 0x2029 || u == 0x202f || u == 0x205f || u
        == 0x3000
}

pub fn char_in(c: char, set: &[char]) -> (r: bool)
    ensures
        r == set@.contains(c),
{
    let mut i: usize = 0;
    while i < set.len()
        invariant
            i <= set@.len(),
            forall|j: int| 0 <= j < i ==> set@[j] != c,
        decreases set@.len() - i,
    {
        if set[i] == c {
            return true;
        }
        i = i + 1;
    }
    false
}

// ---------------------------------------------------------------------
// Conversions between `str`, `String` and `Vec<char>`
// ---------------------------------------------------------------------

/// The characters of `s`, in order.
pub fn chars_of(s: &str) -> (r: Vec<char>)
    ensures
        r@ == s@,
{
    let mut out: Vec<char> = Vec::new();
    for c in it: s.chars()
        invariant
            out@ == it.seq().take(it.index() as int),
    {
        out.push(c);
    }
    out
}

/// `String::push`: appends one character.
#[verifier::external_body]
fn string_push(s: &mut String, c: char)
    ensures
        final(s)@ == old(s)@.push(c),
{
    s.push(c);
}

/// The string made of the characters of `v`.
pub fn string_of(v: &[char]) -> (r: String)
    ensures
        r@ == v@,
{
    let mut out = String::new();
    let mut i: usize = 0;
    while i < v.len()
        invariant
            i <= v@.len(),
            out@ == v@.take(i as int),
        decreases v@.len() - i,
    {
        string_push(&mut out, v[i]);
        i = i + 1;
        assert(v@.take(i as int) == v@.take(i - 1).push(v@[i - 1]));
    }
    assert(v@.take(v@.len() as int) == v@);
    out
}

// ---------------------------------------------------------------------
// Prefix / suffix runs
// ---------------------------------------------------------------------

/// Length of the longest prefix of `s` whose characters all satisfy `p`.
pub open spec fn lead_len(s: Seq<char>, p: spec_fn(char) -> bool) -> nat
    decreases s.len(),
{
    if s.len() > 0 && p(s[0]) {
        1 + lead_len(s.drop_first(), p)
    } else {
        0
    }
}

/// Length of the longest suffix of `s` whose characters all satisfy `p`.
pub open spec fn trail_len(s: Seq<char>, p: spec_fn(char) -> bool) -> nat
    decreases s.len(),
{
    if s.len() > 0 && p(s.last()) {
        1 + trail_len(s.drop_last(), p)
    } else {
        0
    }
}

/// `s` without its leading run of characters satisfying `p`
/// (`str::trim_start_matches` with a character pattern).
pub open spec fn strip_start(s: Seq<char>, p: spec_fn(char) -> bool) -> Seq<char> {
    s.skip(lead_len(s, p) as int)
}

/// `s` without its trailing run of characters satisfying `p`
/// (`str::trim_end_matches` with a character pattern).
pub open spec fn strip_end(s: Seq<char>, p: spec_fn(char) -> bool) -> Seq<char> {
    s.take(s.len() - trail_len(s, p))
}

pub open spec fn trim_start(s: Seq<char>) -> Seq<char> {
    strip_start(s, ws_pred())
}

pub open spec fn trim_end(s: Seq<char>) -> Seq<char> {
    strip_end(s, ws_pred())
}

/// `str::trim`.
pub open spec fn trim(s: Seq<char>) -> Seq<char> {
    trim_end(trim_start(s))
}

pub proof fn lemma_lead_len_bound(s: Seq<char>, p: spec_fn(char) -> bool)
    ensures
        lead_len(s, p) <= s.len(),
        forall|j: int| 0 <= j < lead_len(s, p) ==> p(#[trigger] s[j]),
        lead_len(s, p) < s.len() ==> !p(s[lead_len(s, p) as int]),
    decreases s.len(),
{
    if s.len() > 0 && p(s[0]) {
        lemma_lead_len_bound(s.drop_first(), p);
        assert forall|j: int| 0 <= j < lead_len(s, p) implies p(#[trigger] s[j]) by {
            if j > 0 {
                assert(s[j] == s.drop_first()[j - 1]);
            }
        }
    }
}

pub proof fn lemma_trail_len_bound(s: Seq<char>, p: spec_fn(char) -> bool)
    ensures
        trail_len(s, p) <= s.len(),
        forall|j: int| s.len() - trail_len(s, p) <= j < s.len() ==> p(#[trigger] s[j]),
        trail_len(s, p) < s.len() ==> !p(s[s.len() - trail_len(s, p) - 1]),
    decreases s.len(),
{
    if s.len() > 0 && p(s.last()) {
        lemma_trail_len_bound(s.drop_last(), p);
        assert forall|j: int| s.len() - trail_len(s, p) <= j < s.len() implies p(
            #[trigger] s[j],
        ) by {
            if j < s.len() - 1 {
                assert(s[j] == s.drop_last()[j]);
            }
        }
    }
}

/// Characterises `lead_len` by the index at which the run stops.
pub proof fn lemma_lead_len_at(s: Seq<char>, p: spec_fn(char) -> bool, k: int)
    requires
        0 <= k <= s.len(),
        forall|j: int| 0 <= j < k ==> p(#[trigger] s[j]),
        k == s.len() || !p(s[k]),
    ensures
        lead_len(s, p) == k,
    decreases s.len(),
{
    if k > 0 {
        assert(p(s[0]));
        assert forall|j: int| 0 <= j < k - 1 implies p(#[trigger] s.drop_first()[j]) by {
            assert(s.drop_first()[j] == s[j + 1]);
        }
        if k < s.len() {
            assert(s.drop_first()[k - 1] == s[k]);
        }
        lemma_lead_len_at(s.drop_first(), p, k - 1);
    }
}

/// Characterises `trail_len` by the index at which the run starts.
pub proof fn lemma_trail_len_at(s: Seq<char>, p: spec_fn(char) -> bool, k: int)
    requires
        0 <= k <= s.len(),
        forall|j: int| k <= j < s.len() ==> p(#[trigger] s[j]),
        k == 0 || !p(s[k - 1]),
    ensures
        trail_len(s, p) == s.len() - k,
    decreases s.len(),
{
    if k < s.len() {
        assert(p(s.last()));
        assert forall|j: int| k <= j < s.len() - 1 implies p(#[trigger] s.drop_last()[j]) by {
            assert(s.drop_last()[j] == s[j]);
        }
        if k > 0 {
            assert(s.drop_last()[k - 1] == s[k - 1]);
        }
        lemma_trail_len_at(s.drop_last(), p, k);
    }
}

/// Index of the first character of `s` that is not in `set`.
pub fn lead_len_in(s: &[char], set: &[char]) -> (r: usize)
    ensures
        r == lead_len(s@, in_set(set@)),
{
    let mut i: usize = 0;
    while i < s.len() && char_in(s[i], set)
        invariant
            i <= s@.len(),
            forall|j: int| 0 <= j < i ==> in_set(set@)(#[trigger] s@[j]),
        decreases s@.len() - i,
    {
        i = i + 1;
    }
    proof {
        lemma_lead_len_at(s@, in_set(set@), i as int);
    }
    i
}

/// Index of the first character of `s` that is not whitespace.
pub fn lead_len_ws(s: &[char]) -> (r: usize)
    ensures
        r == lead_len(s@, ws_pred()),
{
    let mut i: usize = 0;
    while i < s.len() && is_whitespace(s[i])
        invariant
            i <= s@.len(),
            forall|j: int| 0 <= j < i ==> ws_pred()(#[trigger] s@[j]),
        decreases s@.len() - i,
    {
        i = i + 1;
    }
    proof {
        lemma_lead_len_at(s@, ws_pred(), i as int);
    }
    i
}

/// Length of the trailing whitespace run of `s`.
pub fn trail_len_ws(s: &[char]) -> (r: usize)
    ensures
        r == trail_len(s@, ws_pred()),
{
    let mut k: usize = s.len();
    while k > 0 && is_whitespace(s[k - 1])
        invariant
            k <= s@.len(),
            forall|j: int| k <= j < s@.len() ==> ws_pred()(#[trigger] s@[j]),
        decreases k,
    {
        k = k - 1;
    }
    proof {
        lemma_trail_len_at(s@, ws_pred(), k as int);
    }
    s.len() - k
}

/// Length of the trailing run of characters of `s` that lie in `set`.
pub fn trail_len_in(s: &[char], set: &[char]) -> (r: usize)
    ensures
        r == trail_len(s@, in_set(set@)),
{
    let mut k: usize = s.len();
    while k > 0 && char_in(s[k - 1], set)
        invariant
            k <= s@.len(),
            forall|j: int| k <= j < s@.len() ==> in_set(set@)(#[trigger] s@[j]),
        decreases k,
    {
        k = k - 1;
    }
    proof {
        lemma_trail_len_at(s@, in_set(set@), k as int);
    }
    s.len() - k
}

/// The characters `v[lo..hi]` as a new vector.
pub fn slice_vec(v: &[char], lo: usize, hi: usize) -> (r: Vec<char>)
    requires
        lo <= hi <= v@.len(),
    ensures
        r@ == v@.subrange(lo as int, hi as int),
{
    let mut out: Vec<char> = Vec::new();
    let mut i: usize = lo;
    while i < hi
        invariant
            lo <= i <= hi <= v@.len(),
            out@ == v@.subrange(lo as int, i as int),
        decreases hi - i,
    {
        out.push(v[i]);
        i = i + 1;
        assert(v@.subrange(lo as int, i as int) == v@.subrange(lo as int, i - 1).push(
            v@[i - 1],
        ));
    }
    out
}

/// `str::trim`.
pub fn trim_chars(s: &[char]) -> (r: Vec<char>)
    ensures
        r@ == trim(s@),
{
    let a = lead_len_ws(s);
    proof {
        lemma_lead_len_bound(s@, ws_pred());
    }
    let head = slice_vec(s, a, s.len());
    let b = trail_len_ws(head.as_slice());
    proof {
        lemma_trail_len_bound(head@, ws_pred());
    }
    slice_vec(head.as_slice(), 0, head.len() - b)
}

/// `str::trim_start`.
pub fn trim_start_chars(s: &[char]) -> (r: Vec<char>)
    ensures
        r@ == trim_start(s@),
{
    let a = lead_len_ws(s);
    proof {
        lemma_lead_len_bound(s@, ws_pred());
    }
    slice_vec(s, a, s.len())
}

/// `str::trim_start_matches` with a set of characters as pattern.
pub fn strip_start_in(s: &[char], set: &[char]) -> (r: Vec<char>)
    ensures
        r@ == strip_start(s@, in_set(set@)),
{
    let a = lead_len_in(s, set);
    proof {
        lemma_lead_len_bound(s@, in_set(set@));
    }
    slice_vec(s, a, s.len())
}

/// `str::trim_end_matches` with a set of characters as pattern.
pub fn strip_end_in(s: &[char], set: &[char]) -> (r: Vec<char>)
    ensures
        r@ == strip_end(s@, in_set(set@)),
{
    let b = trail_len_in(s, set);
    proof {
        lemma_trail_len_bound(s@, in_set(set@));
    }
    slice_vec(s, 0, s.len() - b)
}

// ---------------------------------------------------------------------
// Searching
// ---------------------------------------------------------------------

/// `needle` occurs in `hay` starting at `i`.
pub open spec fn occurs_at(hay: Seq<char>, needle: Seq<char>, i: int) -> bool {
    0 <= i && i + needle.len() <= hay.len() && hay.subrange(i, i + needle.len()) == needle
}

/// `str::contains` with a string pattern.
pub open spec fn contains(hay: Seq<char>, needle: Seq<char>) -> bool {
    exists|i: int| occurs_at(hay, needle, i)
}

/// Stripping a leading run of characters satisfying `p` keeps every
/// occurrence of a text that neither starts nor ends with such a character.
pub proof fn lemma_contains_strip_start(s: Seq<char>, p: spec_fn(char) -> bool, x: Seq<char>)
    requires
        x.len() > 0,
        !p(x[0]),
    ensures
        contains(strip_start(s, p), x) == contains(s, x),
{
    lemma_lead_len_bound(s, p);
    let l = lead_len(s, p) as int;
    let t = strip_start(s, p);
    if contains(t, x) {
        let i = choose|i: int| occurs_at(t, x, i);
        assert(s.subrange(i + l, i + l + x.len()) =~= t.subrange(i, i + x.len()));
        assert(occurs_at(s, x, i + l));
    }
    if contains(s, x) {
        let i = choose|i: int| occurs_at(s, x, i);
        assert(s[i] == s.subrange(i, i + x.len())[0]);
        assert(i >= l);
        assert(t.subrange(i - l, i - l + x.len()) =~= s.subrange(i, i + x.len()));
        assert(occurs_at(t, x, i - l));
    }
}

pub proof fn lemma_contains_strip_end(s: Seq<char>, p: spec_fn(char) -> bool, x: Seq<char>)
    requires
        x.len() > 0,
        !p(x.last()),
    ensures
        contains(strip_end(s, p), x) == contains(s, x),
{
    lemma_trail_len_bound(s, p);
    let e = s.len() - trail_len(s, p);
    let t = strip_end(s, p);
    if contains(t, x) {
        let i = choose|i: int| occurs_at(t, x, i);
        assert(s.subrange(i, i + x.len()) =~= t.subrange(i, i + x.len()));
        assert(occurs_at(s, x, i));
    }
    if contains(s, x) {
        let i = choose|i: int| occurs_at(s, x, i);
        assert(s[i + x.len() - 1] == s.subrange(i, i + x.len())[x.len() - 1]);
        assert(i + x.len() <= e);
        assert(t.subrange(i, i + x.len()) =~= s.subrange(i, i + x.len()));
        assert(occurs_at(t, x, i));
    }
}

/// Trimming keeps every occurrence of a text that neither starts nor ends
/// with whitespace.
pub proof fn lemma_contains_trim(s: Seq<char>, x: Seq<char>)
    requires
        x.len() > 0,
        !is_ws(x[0]),
        !is_ws(x.last()),
    ensures
        contains(trim(s), x) == contains(s, x),
{
    lemma_contains_strip_start(s, ws_pred(), x);
    lemma_contains_strip_end(trim_start(s), ws_pred(), x);
}

pub open spec fn starts_with(s: Seq<char>, c: char) -> bool {
    s.len() > 0 && s[0] == c
}

pub open spec fn ends_with(s: Seq<char>, c: char) -> bool {
    s.len() > 0 && s.last() == c
}

pub fn occurs_at_exec(hay: &[char], needle: &[char], i: usize) -> (r: bool)
    requires
        i + needle@.len() <= hay@.len(),
    ensures
        r == occurs_at(hay@, needle@, i as int),
{
    let _n = hay.len();
    let mut j: usize = 0;
    while j < needle.len()
        invariant
            j <= needle@.len(),
            _n == hay@.len(),
            i + needle@.len() <= hay@.len(),
            forall|k: int| 0 <= k < j ==> hay@[i + k] == needle@[k],
        decreases needle@.len() - j,
    {
        if hay[i + j] != needle[j] {
            assert(hay@.subrange(i as int, i + needle@.len())[j as int] != needle@[j as int]);
            return false;
        }
        j = j + 1;
    }
    assert(hay@.subrange(i as int, i + needle@.len()) =~= needle@);
    true
}

/// `str::contains` with a string pattern.
pub fn contains_exec(hay: &[char], needle: &[char]) -> (r: bool)
    ensures
        r == contains(hay@, needle@),
{
    if needle.len() > hay.len() {
        assert forall|i: int| !occurs_at(hay@, needle@, i) by {}
        return false;
    }
    let last = hay.len() - needle.len();
    let mut i: usize = 0;
    while i < last
        invariant
            i <= last,
            last + needle@.len() == hay@.len(),
            forall|k: int| 0 <= k < i ==> !occurs_at(hay@, needle@, k),
        decreases last - i,
    {
        if occurs_at_exec(hay, needle, i) {
            return true;
        }
        i = i + 1;
    }
    if occurs_at_exec(hay, needle, last) {
        return true;
    }
    assert forall|k: int| !occurs_at(hay@, needle@, k) by {
        if 0 <= k && k < i {
        }
    }
    false
}

/// `str::contains` with a `&str` literal as pattern.
pub fn contains_str(hay: &[char], needle: &str) -> (r: bool)
    ensures
        r == contains(hay@, needle@),
{
    let n = chars_of(needle);
    contains_exec(hay, n.as_slice())
}

/// `str::contains` with a character pattern.
pub fn contains_char(hay: &[char], c: char) -> (r: bool)
    ensures
        r == hay@.contains(c),
{
    char_in(c, hay)
}

/// Equality of two character sequences.
pub fn chars_eq(a: &[char], b: &[char]) -> (r: bool)
    ensures
        r == (a@ == b@),
{
    if a.len() != b.len() {
        return false;
    }
    let r = occurs_at_exec(a, b, 0);
    assert(a@.subrange(0, a@.len() as int) =~= a@);
    r
}

/// Equality with a `&str` literal.
pub fn eq_str(a: &[char], b: &str) -> (r: bool)
    ensures
        r == (a@ == b@),
{
    let n = chars_of(b);
    chars_eq(a, n.as_slice())
}


// ---------------------------------------------------------------------
// Splitting
// ---------------------------------------------------------------------

/// The views of a vector of character vectors.
pub open spec fn views(v: Seq<Vec<char>>) -> Seq<Seq<char>> {
    v.map_values(|x: Vec<char>| x@)
}

/// Index of the first character of `s` that satisfies `p`, or `s.len()`.
pub open spec fn first_idx(s: Seq<char>, p: spec_fn(char) -> bool) -> nat
    decreases s.len(),
{
    if s.len() == 0 {
        0
    } else if p(s[0]) {
        0
    } else {
        1 + first_idx(s.drop_first(), p)
    }
}

/// `str::split` with a character predicate: the pieces between matching
/// characters, empty pieces included.
pub open spec fn split_by(s: Seq<char>, p: spec_fn(char) -> bool) -> Seq<Seq<char>>
    decreases s.len(),
{
    let k = first_idx(s, p);
    if k < s.len() {
        seq![s.take(k as int)] + split_by(s.skip(k + 1int), p)
    } else {
        seq![s]
    }
}

/// `str::split_once` with a character pattern.
pub open spec fn split_once(s: Seq<char>, c: char) -> Option<(Seq<char>, Seq<char>)> {
    let k = first_idx(s, in_set(seq![c]));
    if k < s.len() {
        Some((s.take(k as int), s.skip(k + 1int)))
    } else {
        None
    }
}

pub open spec fn is_nl() -> spec_fn(char) -> bool {
    |c: char| c == '\n'
}

/// A line as `str::lines` yields it: the `\n` is gone, and a `\r` before it too.
pub open spec fn strip_cr(l: Seq<char>) -> Seq<char> {
    if l.len() > 0 && l.last() == '\r' {
        l.drop_last()
    } else {
        l
    }
}

/// `str::lines`.
pub open spec fn lines(s: Seq<char>) -> Seq<Seq<char>>
    decreases s.len(),
{
    if s.len() == 0 {
        seq![]
    } else {
        let k = first_idx(s, is_nl());
        if k < s.len() {
            seq![strip_cr(s.take(k as int))] + lines(s.skip(k + 1int))
        } else {
            seq![s]
        }
    }
}

pub proof fn lemma_first_idx_at(s: Seq<char>, p: spec_fn(char) -> bool, k: int)
    requires
        0 <= k <= s.len(),
        forall|j: int| 0 <= j < k ==> !p(#[trigger] s[j]),
        k == s.len() || p(s[k]),
    ensures
        first_idx(s, p) == k,
    decreases s.len(),
{
    if k > 0 {
        assert(!p(s[0]));
        assert forall|j: int| 0 <= j < k - 1 implies !p(#[trigger] s.drop_first()[j]) by {
            assert(s.drop_first()[j] == s[j + 1]);
        }
        if k < s.len() {
            assert(s.drop_first()[k - 1] == s[k]);
        }
        lemma_first_idx_at(s.drop_first(), p, k - 1);
    }
}

/// First index at or after `from` of a character of `s` in `set`, or `s.len()`.
pub fn find_in_from(s: &[char], set: &[char], from: usize) -> (r: usize)
    requires
        from <= s@.len(),
    ensures
        from <= r <= s@.len(),
        r == from + first_idx(s@.skip(from as int), in_set(set@)),
{
    let mut j: usize = from;
    while j < s.len() && !char_in(s[j], set)
        invariant
            from <= j <= s@.len(),
            forall|k: int| from <= k < j ==> !in_set(set@)(#[trigger] s@[k]),
        decreases s@.len() - j,
    {
        j = j + 1;
    }
    proof {
        let t = s@.skip(from as int);
        assert forall|k: int| 0 <= k < j - from implies !in_set(set@)(#[trigger] t[k]) by {
            assert(t[k] == s@[from + k]);
        }
        if j < s@.len() {
            assert(t[j - from] == s@[j as int]);
        }
        lemma_first_idx_at(t, in_set(set@), j - from);
    }
    j
}

/// `str::split` on any character of `set`.
pub fn split_on(s: &[char], set: &[char]) -> (r: Vec<Vec<char>>)
    ensures
        views(r@) == split_by(s@, in_set(set@)),
{
    let mut out: Vec<Vec<char>> = Vec::new();
    let mut st: usize = 0;
    assert(s@.skip(0) == s@);
    loop
        invariant
            st <= s@.len(),
            split_by(s@, in_set(set@)) == views(out@) + split_by(s@.skip(st as int), in_set(set@)),
        decreases s@.len() - st,
    {
        let j = find_in_from(s, set, st);
        let piece = slice_vec(s, st, j);
        let ghost t = s@.skip(st as int);
        assert(t.take(j - st) == piece@);
        let ghost old_out = out@;
        out.push(piece);
        assert(views(out@) == views(old_out).push(piece@));
        if j < s.len() {
            assert(t.skip(j - st + 1) == s@.skip(j + 1));
            assert(split_by(t, in_set(set@)) == seq![piece@] + split_by(s@.skip(j + 1), in_set(set@)));
            assert(views(out@) + split_by(s@.skip(j + 1), in_set(set@)) == views(old_out) + split_by(t, in_set(set@)));
            st = j + 1;
        } else {
            assert(split_by(t, in_set(set@)) == seq![t]);
            assert(t == piece@);
            assert(views(out@) == views(old_out) + split_by(t, in_set(set@)));
            return out;
        }
    }
}

/// `str::split_once` with a character pattern.
pub fn split_once_char(s: &[char], c: char) -> (r: Option<(Vec<char>, Vec<char>)>)
    ensures
        match split_once(s@, c) {
            Some((a, b)) => (r matches Some((x, y)) && x@ == a && y@ == b),
            None => r is None,
        },
{
    let set = [c];
    assert(set@ == seq![c]);
    let j = find_in_from(s, &set, 0);
    assert(s@.skip(0) == s@);
    if j < s.len() {
        Some((slice_vec(s, 0, j), slice_vec(s, j + 1, s.len())))
    } else {
        None
    }
}

/// `str::lines`.
pub fn lines_of(s: &[char]) -> (r: Vec<Vec<char>>)
    ensures
        views(r@) == lines(s@),
{
    let mut out: Vec<Vec<char>> = Vec::new();
    let mut st: usize = 0;
    assert(s@.skip(0) == s@);
    while st < s.len()
        invariant
            st <= s@.len(),
            lines(s@) == views(out@) + lines(s@.skip(st as int)),
        decreases s@.len() - st,
    {
        let ghost t = s@.skip(st as int);
        let mut j: usize = st;
        while j < s.len() && s[j] != '\n'
            invariant
                st <= j <= s@.len(),
                forall|k: int| st <= k < j ==> s@[k] != '\n',
            decreases s@.len() - j,
        {
            j = j + 1;
        }
        proof {
            assert forall|k: int| 0 <= k < j - st implies !is_nl()(#[trigger] t[k]) by {
                assert(t[k] == s@[st + k]);
            }
            if j < s@.len() {
                assert(t[j - st] == s@[j as int]);
            }
            lemma_first_idx_at(t, is_nl(), j - st);
        }
        let ghost old_out = out@;
        if j < s.len() {
            let hi = if j > st && s[j - 1] == '\r' {
                j - 1
            } else {
                j
            };
            let piece = slice_vec(s, st, hi);
            assert(strip_cr(t.take(j - st)) == piece@);
            out.push(piece);
            assert(views(out@) == views(old_out).push(piece@));
            assert(t.skip(j - st + 1) == s@.skip(j + 1));
            st = j + 1;
        } else {
            let piece = slice_vec(s, st, j);
            assert(t == piece@);
            out.push(piece);
            assert(views(out@) == views(old_out).push(piece@));
            assert(s@.skip(j as int).len() == 0);
            st = j;
        }
    }
    assert(lines(s@.skip(st as int)) == Seq::<Seq<char>>::empty());
    assert(views(out@) + Seq::<Seq<char>>::empty() == views(out@));
    out
}


pub proof fn lemma_first_idx_bound(s: Seq<char>, p: spec_fn(char) -> bool)
    ensures
        first_idx(s, p) <= s.len(),
        forall|j: int| 0 <= j < first_idx(s, p) ==> !p(#[trigger] s[j]),
        first_idx(s, p) < s.len() ==> p(s[first_idx(s, p) as int]),
    decreases s.len(),
{
    if s.len() > 0 && !p(s[0]) {
        lemma_first_idx_bound(s.drop_first(), p);
        assert forall|j: int| 0 <= j < first_idx(s, p) implies !p(#[trigger] s[j]) by {
            if j > 0 {
                assert(s[j] == s.drop_first()[j - 1]);
            }
        }
    }
}

pub proof fn lemma_trim_len(s: Seq<char>)
    ensures
        trim_start(s).len() <= s.len(),
        trim(s).len() <= s.len(),
        trim(s).len() <= trim_start(s).len(),
{
    lemma_lead_len_bound(s, ws_pred());
    lemma_trail_len_bound(trim_start(s), ws_pred());
}

pub proof fn lemma_split_by_nonempty(s: Seq<char>, p: spec_fn(char) -> bool)
    ensures
        split_by(s, p).len() >= 1,
    decreases s.len(),
{
    lemma_first_idx_bound(s, p);
    let k = first_idx(s, p);
    if k < s.len() {
        lemma_split_by_nonempty(s.skip(k + 1int), p);
    }
}

/// Index of the last occurrence of `c` in `s`, or -1 (`str::rfind`).
pub open spec fn rfind(s: Seq<char>, c: char) -> int
    decreases s.len(),
{
    if s.len() == 0 {
        -1
    } else if s.last() == c {
        s.len() - 1
    } else {
        rfind(s.drop_last(), c)
    }
}

pub proof fn lemma_rfind(s: Seq<char>, c: char)
    ensures
        -1 <= rfind(s, c) < s.len(),
        rfind(s, c) >= 0 ==> s[rfind(s, c)] == c,
        forall|j: int| rfind(s, c) < j < s.len() ==> #[trigger] s[j] != c,
    decreases s.len(),
{
    if s.len() > 0 && s.last() != c {
        lemma_rfind(s.drop_last(), c);
        assert forall|j: int| rfind(s, c) < j < s.len() implies #[trigger] s[j] != c by {
            if j < s.len() - 1 {
                assert(s[j] == s.drop_last()[j]);
            }
        }
    }
}

pub fn rfind_char(s: &[char], c: char) -> (r: Option<usize>)
    ensures
        match r {
            Some(i) => i == rfind(s@, c),
            None => rfind(s@, c) == -1,
        },
{
    let mut k: usize = s.len();
    assert(s@.take(k as int) == s@);
    while k > 0 && s[k - 1] != c
        invariant
            k <= s@.len(),
            rfind(s@, c) == rfind(s@.take(k as int), c),
        decreases k,
    {
        assert(s@.take(k - 1) == s@.take(k as int).drop_last());
        k = k - 1;
    }
    if k == 0 {
        None
    } else {
        Some(k - 1)
    }
}


/// Appends the characters of `s` to `out`.
pub fn push_all(out: &mut Vec<char>, s: &[char])
    ensures
        final(out)@ == old(out)@ + s@,
{
    let ghost start = out@;
    let mut i: usize = 0;
    while i < s.len()
        invariant
            i <= s@.len(),
            out@ == start + s@.take(i as int),
        decreases s@.len() - i,
    {
        out.push(s[i]);
        i = i + 1;
        assert(s@.take(i as int) == s@.take(i - 1).push(s@[i - 1]));
    }
    assert(s@.take(s@.len() as int) == s@);
}

/// Number of occurrences of `c` in `s`.
pub open spec fn count_char(s: Seq<char>, c: char) -> nat
    decreases s.len(),
{
    if s.len() == 0 {
        0
    } else {
        count_char(s.drop_last(), c) + if s.last() == c {
            1nat
        } else {
            0nat
        }
    }
}

pub fn count_char_exec(s: &[char], c: char) -> (r: usize)
    ensures
        r == count_char(s@, c),
{
    let mut n: usize = 0;
    let mut i: usize = 0;
    while i < s.len()
        invariant
            i <= s@.len(),
            n == count_char(s@.take(i as int), c),
            n <= i,
        decreases s@.len() - i,
    {
        assert(s@.take(i + 1).drop_last() == s@.take(i as int));
        if s[i] == c {
            n = n + 1;
        }
        i = i + 1;
    }
    assert(s@.take(s@.len() as int) == s@);
    n
}


/// Appends the characters of `s`.
pub fn push_str(out: &mut Vec<char>, s: &str)
    ensures
        final(out)@ == old(out)@ + s@,
{
    let cs = chars_of(s);
    push_all(out, cs.as_slice());
}

/// Equality of two `&str` values, character by character.
pub fn str_eq(a: &str, b: &str) -> (r: bool)
    ensures
        r == (a@ == b@),
{
    let x = chars_of(a);
    let y = chars_of(b);
    chars_eq(x.as_slice(), y.as_slice())
}

} // verus!
