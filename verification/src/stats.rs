//! Statistics: which accounts a transaction moves money in and out of,
//! how account names are grouped and listed, and the buckets of the
//! time-axis chart.
use vstd::prelude::*;

use crate::importer::str_views;
use crate::models::opt_view;
use crate::text::{chars_of, str_eq};

verus! {

// ---------------------------------------------------------------------
// Postings: the accounts a transaction touches, with a sign
// ---------------------------------------------------------------------

/// An account name that is present and not empty.
pub open spec fn named(a: Option<Seq<char>>) -> Option<Seq<char>> {
    match a {
        Some(s) => if s.len() > 0 { Some(s) } else { None },
        None => None,
    }
}

pub open spec fn debit(a: Option<Seq<char>>) -> Seq<(Seq<char>, int)> {
    match named(a) {
        Some(s) => seq![(s, -1int)],
        None => seq![],
    }
}

pub open spec fn credit(a: Option<Seq<char>>) -> Seq<(Seq<char>, int)> {
    match named(a) {
        Some(s) => seq![(s, 1int)],
        None => seq![],
    }
}

/// The postings of a transaction: each account it touches with the sign
/// of its amount there. Expenses and reimbursements come out of the
/// outgoing account, income goes into the incoming account, transfers and
/// payments on another's behalf do both, and balance or claim adjustments
/// add the signed amount to the incoming account, or else the outgoing
/// one. Other types touch no account.
pub open spec fn postings_spec(
    tx_type: Seq<char>,
    account_out: Option<Seq<char>>,
    account_in: Option<Seq<char>>,
) -> Seq<(Seq<char>, int)> {
    if tx_type == "支出"@ || tx_type == "报销"@ {
        debit(account_out)
    } else if tx_type == "收入"@ {
        credit(account_in)
    } else if tx_type == "转账"@ || tx_type == "代付"@ {
        debit(account_out) + credit(account_in)
    } else if tx_type == "余额变更"@ || tx_type == "债权变更"@ {
        if named(account_in) is Some {
            credit(account_in)
        } else {
            match named(account_out) {
                Some(s) => seq![(s, 1int)],
                None => seq![],
            }
        }
    } else {
        seq![]
    }
}

pub open spec fn posting_views(v: Seq<(String, i64)>) -> Seq<(Seq<char>, int)> {
    v.map_values(|p: (String, i64)| (p.0@, p.1 as int))
}

fn named_account(a: &Option<String>) -> (r: Option<String>)
    ensures
        opt_view(r) == named(opt_view(*a)),
{
    match a {
        Some(s) => {
            if s.as_str().unicode_len() > 0 {
                Some(s.clone())
            } else {
                None
            }
        },
        None => None,
    }
}

fn push_posting(out: &mut Vec<(String, i64)>, a: Option<String>, sign: i64)
    requires
        sign == 1 || sign == -1,
    ensures
        posting_views(final(out)@) == posting_views(old(out)@) + match opt_view(a) {
            Some(s) => seq![(s, sign as int)],
            None => Seq::<(Seq<char>, int)>::empty(),
        },
{
    let ghost before = out@;
    match a {
        Some(s) => {
            out.push((s, sign));
            assert(posting_views(out@) =~= posting_views(before) + seq![(out@.last().0@, sign as int)]);
        },
        None => {
            assert(posting_views(out@) =~= posting_views(before));
        },
    }
}

fn is_one_of(t: &str, a: &str, b: &str) -> (r: bool)
    ensures
        r == (t@ == a@ || t@ == b@),
{
    str_eq(t, a) || str_eq(t, b)
}

/// The accounts that a transaction moves money out of (sign -1) and into
/// (sign +1); the balance of an account is its base plus the sum of
/// sign times amount over all its postings.
pub fn postings(tx_type: &str, account_out: &Option<String>, account_in: &Option<String>) -> (r: Vec<(String, i64)>)
    ensures
        posting_views(r@) == postings_spec(tx_type@, opt_view(*account_out), opt_view(*account_in)),
{
    let out_acc = named_account(account_out);
    let in_acc = named_account(account_in);
    let mut r: Vec<(String, i64)> = Vec::new();
    assert(posting_views(r@) =~= Seq::<(Seq<char>, int)>::empty());
    if is_one_of(tx_type, "支出", "报销") {
        push_posting(&mut r, out_acc, -1);
        assert(posting_views(r@) =~= postings_spec(tx_type@, opt_view(*account_out), opt_view(*account_in)));
    } else if str_eq(tx_type, "收入") {
        push_posting(&mut r, in_acc, 1);
        assert(posting_views(r@) =~= postings_spec(tx_type@, opt_view(*account_out), opt_view(*account_in)));
    } else if is_one_of(tx_type, "转账", "代付") {
        push_posting(&mut r, out_acc, -1);
        push_posting(&mut r, in_acc, 1);
        assert(posting_views(r@) =~= postings_spec(tx_type@, opt_view(*account_out), opt_view(*account_in)));
    } else if is_one_of(tx_type, "余额变更", "债权变更") {
        if in_acc.is_some() {
            push_posting(&mut r, in_acc, 1);
        } else {
            push_posting(&mut r, out_acc, 1);
        }
        assert(posting_views(r@) =~= postings_spec(tx_type@, opt_view(*account_out), opt_view(*account_in)));
    }
    r
}

/// The sum of the signs of a list of postings.
pub open spec fn sign_sum(p: Seq<(Seq<char>, int)>) -> int
    decreases p.len(),
{
    if p.len() == 0 {
        0
    } else {
        sign_sum(p.drop_last()) + p.last().1
    }
}

/// A transfer (or a payment on another's behalf) between two named
/// accounts takes the amount out of the one and puts it into the other:
/// nothing is created or lost.
pub proof fn law_transfer_conserves(tx_type: Seq<char>, account_out: Seq<char>, account_in: Seq<char>)
    requires
        tx_type == "转账"@ || tx_type == "代付"@,
        account_out.len() > 0,
        account_in.len() > 0,
    ensures
        postings_spec(tx_type, Some(account_out), Some(account_in)) == seq![(account_out, -1int), (account_in, 1int)],
        sign_sum(postings_spec(tx_type, Some(account_out), Some(account_in))) == 0,
{
    reveal_strlit("支出");
    reveal_strlit("报销");
    reveal_strlit("收入");
    reveal_strlit("转账");
    reveal_strlit("代付");
    assert("转账"@[0] != "支出"@[0] && "转账"@[0] != "报销"@[0] && "转账"@[0] != "收入"@[0]);
    assert("代付"@[0] != "支出"@[0] && "代付"@[0] != "报销"@[0] && "代付"@[0] != "收入"@[0]);
    let p = postings_spec(tx_type, Some(account_out), Some(account_in));
    assert(p =~= seq![(account_out, -1int), (account_in, 1int)]);
    assert(p.drop_last() =~= seq![(account_out, -1int)]);
    assert(p.drop_last().drop_last() =~= Seq::<(Seq<char>, int)>::empty());
    assert(sign_sum(p.drop_last().drop_last()) == 0);
    assert(p.drop_last().last().1 == -1);
    assert(sign_sum(p.drop_last()) == -1);
}

/// An expense or a reimbursement takes the amount out of its outgoing
/// account, an income puts it into its incoming account, whatever the
/// other account is.
pub proof fn law_expense_and_income_sides(
    tx_type: Seq<char>,
    account_out: Option<Seq<char>>,
    account_in: Option<Seq<char>>,
    named_acc: Seq<char>,
)
    requires
        named_acc.len() > 0,
    ensures
        tx_type == "支出"@ || tx_type == "报销"@ ==> postings_spec(tx_type, Some(named_acc), account_in) == seq![
            (named_acc, -1int),
        ],
        tx_type == "收入"@ ==> postings_spec(tx_type, account_out, Some(named_acc)) == seq![(named_acc, 1int)],
{
    reveal_strlit("支出");
    reveal_strlit("报销");
    reveal_strlit("收入");
    assert("收入"@[0] != "支出"@[0] && "收入"@[0] != "报销"@[0]);
    if tx_type == "收入"@ {
        assert(postings_spec(tx_type, account_out, Some(named_acc)) =~= seq![(named_acc, 1int)]);
    }
    if tx_type == "支出"@ || tx_type == "报销"@ {
        assert(postings_spec(tx_type, Some(named_acc), account_in) =~= seq![(named_acc, -1int)]);
    }
}

/// A balance or claim adjustment adds the signed amount to the incoming
/// account whenever that account is named, whatever the outgoing account
/// is; with no incoming account named it goes to the outgoing one.
pub proof fn law_adjustment_goes_to_incoming(
    tx_type: Seq<char>,
    account_out: Option<Seq<char>>,
    account_in: Seq<char>,
    only_out: Seq<char>,
    no_in: Option<Seq<char>>,
)
    requires
        tx_type == "余额变更"@ || tx_type == "债权变更"@,
        account_in.len() > 0,
        only_out.len() > 0,
        no_in is None || no_in == Some(Seq::<char>::empty()),
    ensures
        postings_spec(tx_type, account_out, Some(account_in)) == seq![(account_in, 1int)],
        postings_spec(tx_type, Some(only_out), no_in) == seq![(only_out, 1int)],
        sign_sum(postings_spec(tx_type, account_out, Some(account_in))) == 1,
{
    reveal_strlit("支出");
    reveal_strlit("报销");
    reveal_strlit("收入");
    reveal_strlit("转账");
    reveal_strlit("代付");
    reveal_strlit("余额变更");
    reveal_strlit("债权变更");
    assert("余额变更"@[0] != "支出"@[0] && "余额变更"@[0] != "报销"@[0] && "余额变更"@[0] != "收入"@[0]);
    assert("余额变更"@[0] != "转账"@[0] && "余额变更"@[0] != "代付"@[0]);
    assert("债权变更"@[0] != "支出"@[0] && "债权变更"@[0] != "报销"@[0] && "债权变更"@[0] != "收入"@[0]);
    assert("债权变更"@[0] != "转账"@[0] && "债权变更"@[0] != "代付"@[0]);
    let p = postings_spec(tx_type, account_out, Some(account_in));
    assert(p =~= seq![(account_in, 1int)]);
    assert(p.drop_last() =~= Seq::<(Seq<char>, int)>::empty());
    assert(sign_sum(p.drop_last()) == 0);
    assert(postings_spec(tx_type, Some(only_out), no_in) =~= seq![(only_out, 1int)]);
}

/// Only transfers and payments on another's behalf touch two accounts;
/// every other transaction touches at most one, and every account it
/// touches is named.
pub proof fn law_postings_shape(tx_type: Seq<char>, account_out: Option<Seq<char>>, account_in: Option<Seq<char>>)
    ensures
        postings_spec(tx_type, account_out, account_in).len() <= 2,
        !(tx_type == "转账"@ || tx_type == "代付"@) ==> postings_spec(tx_type, account_out, account_in).len() <= 1,
        forall|k: int|
            0 <= k < postings_spec(tx_type, account_out, account_in).len() ==> (#[trigger] postings_spec(
                tx_type,
                account_out,
                account_in,
            )[k]).0.len() > 0,
{
}

// ---------------------------------------------------------------------
// Account groups
// ---------------------------------------------------------------------

/// The name of the root account category with this id (the last one
/// listed, should ids repeat).
pub open spec fn root_name(roots: Seq<(i64, Seq<char>)>, id: i64) -> Option<Seq<char>>
    decreases roots.len(),
{
    if roots.len() == 0 {
        None
    } else if roots.last().0 == id {
        Some(roots.last().1)
    } else {
        root_name(roots.drop_last(), id)
    }
}

pub open spec fn root_views(roots: Seq<(i64, String)>) -> Seq<(i64, Seq<char>)> {
    roots.map_values(|p: (i64, String)| (p.0, p.1@))
}

/// The group an account category is listed under: the root it hangs
/// from; a root without children is an account of its own, listed as
/// "未分组"; a root with children is a group, not an account (`None`).
pub open spec fn account_group_spec(roots: Seq<(i64, Seq<char>)>, parent: Option<i64>, kids: i64) -> Option<
    Seq<char>,
> {
    let g = match parent {
        Some(pid) => root_name(roots, pid),
        None => None,
    };
    match g {
        Some(name) => Some(name),
        None => if kids == 0 { Some("未分组"@) } else { None },
    }
}

fn root_lookup(roots: &Vec<(i64, String)>, id: i64) -> (r: Option<String>)
    ensures
        opt_view(r) == root_name(root_views(roots@), id),
{
    let ghost rv = root_views(roots@);
    let mut i: usize = roots.len();
    assert(rv.take(rv.len() as int) =~= rv);
    while i > 0
        invariant
            i <= roots@.len(),
            rv == root_views(roots@),
            root_name(rv, id) == root_name(rv.take(i as int), id),
        decreases i,
    {
        assert(rv.take(i as int).drop_last() =~= rv.take(i - 1));
        if roots[i - 1].0 == id {
            return Some(roots[i - 1].1.clone());
        }
        i = i - 1;
    }
    None
}

/// The group of an account category, from the roots of the account tree
/// (id and name), its parent and its number of children.
pub fn account_group(roots: &Vec<(i64, String)>, parent: Option<i64>, kids: i64) -> (r: Option<String>)
    ensures
        opt_view(r) == account_group_spec(root_views(roots@), parent, kids),
{
    let g = match parent {
        Some(pid) => root_lookup(roots, pid),
        None => None,
    };
    match g {
        Some(name) => Some(name),
        None => if kids == 0 { Some("未分组".to_owned()) } else { None },
    }
}

/// The group of an account in a list of (account, group) pairs: the last
/// pair for it wins; an account with none is "未分组".
pub open spec fn group_of_spec(meta: Seq<(Seq<char>, Seq<char>)>, name: Seq<char>) -> Seq<char>
    decreases meta.len(),
{
    if meta.len() == 0 {
        "未分组"@
    } else if meta.last().0 == name {
        meta.last().1
    } else {
        group_of_spec(meta.drop_last(), name)
    }
}

/// Setting an account's group overrides what stood before: after a pair
/// for it is added, the account is shown under that group, and every
/// other account under the group it had.
pub proof fn law_group_last_pair_wins(
    meta: Seq<(Seq<char>, Seq<char>)>,
    name: Seq<char>,
    group: Seq<char>,
    other: Seq<char>,
)
    ensures
        group_of_spec(meta.push((name, group)), name) == group,
        other != name ==> group_of_spec(meta.push((name, group)), other) == group_of_spec(meta, other),
{
    assert(meta.push((name, group)).drop_last() =~= meta);
}

pub open spec fn pair_views(v: Seq<(String, String)>) -> Seq<(Seq<char>, Seq<char>)> {
    v.map_values(|p: (String, String)| (p.0@, p.1@))
}

/// The group an account is shown under.
pub fn group_of(meta: &Vec<(String, String)>, name: &str) -> (r: String)
    ensures
        r@ == group_of_spec(pair_views(meta@), name@),
{
    let ghost mv = pair_views(meta@);
    let mut i: usize = meta.len();
    assert(mv.take(mv.len() as int) =~= mv);
    while i > 0
        invariant
            i <= meta@.len(),
            mv == pair_views(meta@),
            group_of_spec(mv, name@) == group_of_spec(mv.take(i as int), name@),
        decreases i,
    {
        assert(mv.take(i as int).drop_last() =~= mv.take(i - 1));
        if str_eq(meta[i - 1].0.as_str(), name) {
            return meta[i - 1].1.clone();
        }
        i = i - 1;
    }
    "未分组".to_owned()
}

// ---------------------------------------------------------------------
// Listing account names: sorted, each once
// ---------------------------------------------------------------------

/// `a` comes before `b` in the order of `String`: character by character
/// (UTF-8 bytes order as the characters do), a proper prefix first.
pub open spec fn lex_lt(a: Seq<char>, b: Seq<char>) -> bool
    decreases a.len(),
{
    if a.len() == 0 {
        b.len() > 0
    } else if b.len() == 0 {
        false
    } else if a[0] != b[0] {
        (a[0] as int) < (b[0] as int)
    } else {
        lex_lt(a.drop_first(), b.drop_first())
    }
}

/// Each name comes strictly before the next: sorted, none twice.
pub open spec fn sorted_strict(s: Seq<Seq<char>>) -> bool {
    forall|i: int, j: int| 0 <= i < j < s.len() ==> lex_lt(#[trigger] s[i], #[trigger] s[j])
}

pub proof fn lemma_lex_irreflexive(a: Seq<char>)
    ensures
        !lex_lt(a, a),
    decreases a.len(),
{
    if a.len() > 0 {
        lemma_lex_irreflexive(a.drop_first());
    }
}

/// The balance page lists each account once: a strictly sorted list holds
/// no name twice.
pub proof fn law_sorted_names_distinct(s: Seq<Seq<char>>)
    requires
        sorted_strict(s),
    ensures
        forall|i: int, j: int| 0 <= i < j < s.len() ==> #[trigger] s[i] != #[trigger] s[j],
{
    assert forall|i: int, j: int| 0 <= i < j < s.len() implies #[trigger] s[i] != #[trigger] s[j] by {
        if s[i] == s[j] {
            lemma_lex_irreflexive(s[i]);
        }
    }
}

pub proof fn lemma_lex_total(a: Seq<char>, b: Seq<char>)
    ensures
        a != b ==> lex_lt(a, b) || lex_lt(b, a),
        !(lex_lt(a, b) && lex_lt(b, a)),
    decreases a.len(),
{
    if a.len() > 0 && b.len() > 0 && a[0] == b[0] {
        lemma_lex_total(a.drop_first(), b.drop_first());
        if a != b {
            assert(a =~= seq![a[0]] + a.drop_first());
            assert(b =~= seq![b[0]] + b.drop_first());
        }
    } else if a.len() == 0 && b.len() == 0 {
        assert(a =~= b);
    }
}

pub proof fn lemma_lex_transitive(a: Seq<char>, b: Seq<char>, c: Seq<char>)
    requires
        lex_lt(a, b),
        lex_lt(b, c),
    ensures
        lex_lt(a, c),
    decreases a.len(),
{
    if a.len() > 0 && b.len() > 0 && c.len() > 0 && a[0] == b[0] && b[0] == c[0] {
        lemma_lex_transitive(a.drop_first(), b.drop_first(), c.drop_first());
    }
}

/// Whether `a` comes before `b`.
pub fn lex_less(a: &[char], b: &[char]) -> (r: bool)
    ensures
        r == lex_lt(a@, b@),
{
    let mut i: usize = 0;
    assert(a@.skip(0) =~= a@);
    assert(b@.skip(0) =~= b@);
    while i < a.len() && i < b.len() && a[i] == b[i]
        invariant
            i <= a@.len(),
            i <= b@.len(),
            lex_lt(a@, b@) == lex_lt(a@.skip(i as int), b@.skip(i as int)),
        decreases a@.len() - i,
    {
        assert(a@.skip(i as int).drop_first() =~= a@.skip(i + 1));
        assert(b@.skip(i as int).drop_first() =~= b@.skip(i + 1));
        i = i + 1;
    }
    assert(a@.skip(i as int).len() == a@.len() - i);
    assert(b@.skip(i as int).len() == b@.len() - i);
    if i == a.len() {
        i < b.len()
    } else if i == b.len() {
        false
    } else {
        assert(a@.skip(i as int)[0] == a@[i as int]);
        assert(b@.skip(i as int)[0] == b@[i as int]);
        assert(a@[i as int] != b@[i as int]);
        a[i] < b[i]
    }
}

proof fn lemma_insert_sorted(s: Seq<Seq<char>>, i: int, x: Seq<char>)
    requires
        sorted_strict(s),
        0 <= i <= s.len(),
        forall|k: int| 0 <= k < i ==> lex_lt(#[trigger] s[k], x),
        forall|k: int| i <= k < s.len() ==> lex_lt(x, #[trigger] s[k]),
    ensures
        sorted_strict(s.insert(i, x)),
{
    let t = s.insert(i, x);
    assert forall|p: int, q: int| 0 <= p < q < t.len() implies lex_lt(#[trigger] t[p], #[trigger] t[q]) by {
        if q < i {
            assert(t[p] == s[p] && t[q] == s[q]);
        } else if q == i {
            assert(t[p] == s[p]);
        } else if p < i {
            assert(t[p] == s[p] && t[q] == s[q - 1]);
        } else if p == i {
            assert(t[q] == s[q - 1]);
        } else {
            assert(t[p] == s[p - 1] && t[q] == s[q - 1]);
        }
    }
}

/// Adds a name to a sorted list of names, where it belongs, unless it is
/// there already.
fn insert_name(out: &mut Vec<String>, name: &String)
    requires
        sorted_strict(str_views(old(out)@)),
    ensures
        sorted_strict(str_views(final(out)@)),
        forall|x: Seq<char>|
            str_views(final(out)@).contains(x) <==> (str_views(old(out)@).contains(x) || x == name@),
{
    let ghost s = str_views(out@);
    let nm = chars_of(name.as_str());
    let mut i: usize = 0;
    while i < out.len()
        invariant
            i <= out@.len(),
            s == str_views(out@),
            nm@ == name@,
            forall|k: int| 0 <= k < i ==> lex_lt(#[trigger] s[k], name@),
        ensures
            i <= out@.len(),
            s == str_views(out@),
            nm@ == name@,
            forall|k: int| 0 <= k < i ==> lex_lt(#[trigger] s[k], name@),
            i < out@.len() ==> !lex_lt(s[i as int], name@),
        decreases out@.len() - i,
    {
        let c = chars_of(out[i].as_str());
        assert(s[i as int] == out@[i as int]@);
        if !lex_less(c.as_slice(), nm.as_slice()) {
            break;
        }
        i = i + 1;
    }
    if i < out.len() {
        let c = chars_of(out[i].as_str());
        assert(s[i as int] == out@[i as int]@);
        if lex_less(nm.as_slice(), c.as_slice()) {
            proof {
                assert forall|k: int| i <= k < s.len() implies lex_lt(name@, #[trigger] s[k]) by {
                    if k > i {
                        lemma_lex_transitive(name@, s[i as int], s[k]);
                    }
                }
                lemma_insert_sorted(s, i as int, name@);
            }
            out.insert(i, name.clone());
            assert(str_views(out@) =~= s.insert(i as int, name@));
        } else {
            proof {
                lemma_lex_total(s[i as int], name@);
            }
            assert(s[i as int] == name@);
        }
    } else {
        proof {
            lemma_insert_sorted(s, i as int, name@);
        }
        out.push(name.clone());
        assert(str_views(out@) =~= s.insert(i as int, name@));
    }
    proof {
        let t = str_views(out@);
        assert forall|x: Seq<char>| t.contains(x) <==> (s.contains(x) || x == name@) by {
            if s.contains(x) {
                let k = choose|k: int| 0 <= k < s.len() && s[k] == x;
                if t != s {
                    if k < i {
                        assert(t[k] == x);
                    } else {
                        assert(t[k + 1] == x);
                    }
                }
            }
            if x == name@ && t != s {
                assert(t[i as int] == x);
            }
            if t.contains(x) && t != s {
                let k = choose|k: int| 0 <= k < t.len() && t[k] == x;
                if k < i {
                    assert(s[k] == x);
                } else if k > i {
                    assert(s[k - 1] == x);
                }
            }
        }
    }
}

/// The names of two lists together, sorted, each once: the accounts that
/// the balance page lists (those of the account tree and those that
/// transactions touch).
pub fn account_names(a: &Vec<String>, b: &Vec<String>) -> (r: Vec<String>)
    ensures
        sorted_strict(str_views(r@)),
        forall|x: Seq<char>|
            str_views(r@).contains(x) <==> (str_views(a@).contains(x) || str_views(b@).contains(x)),
{
    let mut out: Vec<String> = Vec::new();
    let mut i: usize = 0;
    while i < a.len()
        invariant
            i <= a@.len(),
            sorted_strict(str_views(out@)),
            forall|x: Seq<char>|
                str_views(out@).contains(x) <==> str_views(a@).take(i as int).contains(x),
        decreases a@.len() - i,
    {
        insert_name(&mut out, &a[i]);
        proof {
            let av = str_views(a@);
            assert(av.take(i + 1) =~= av.take(i as int).push(a@[i as int]@));
            assert forall|x: Seq<char>| av.take(i + 1).contains(x) <==> (av.take(i as int).contains(x) || x
                == a@[i as int]@) by {
                let t1 = av.take(i + 1);
                let t0 = av.take(i as int);
                if t1.contains(x) {
                    let k = choose|k: int| 0 <= k < t1.len() && t1[k] == x;
                    if k < i {
                        assert(av.take(i as int)[k] == x);
                    }
                }
                if t0.contains(x) {
                    let k = choose|k: int| 0 <= k < t0.len() && t0[k] == x;
                    assert(av.take(i + 1)[k] == x);
                }
                if x == a@[i as int]@ {
                    assert(av.take(i + 1)[i as int] == x);
                }
            }
        }
        i = i + 1;
    }
    assert(str_views(a@).take(a@.len() as int) =~= str_views(a@));
    let mut j: usize = 0;
    while j < b.len()
        invariant
            j <= b@.len(),
            sorted_strict(str_views(out@)),
            forall|x: Seq<char>|
                str_views(out@).contains(x) <==> (str_views(a@).contains(x) || str_views(b@).take(
                    j as int,
                ).contains(x)),
        decreases b@.len() - j,
    {
        insert_name(&mut out, &b[j]);
        proof {
            let bv = str_views(b@);
            assert forall|x: Seq<char>| bv.take(j + 1).contains(x) <==> (bv.take(j as int).contains(x) || x
                == b@[j as int]@) by {
                let t1 = bv.take(j + 1);
                let t0 = bv.take(j as int);
                if t1.contains(x) {
                    let k = choose|k: int| 0 <= k < t1.len() && t1[k] == x;
                    if k < j {
                        assert(bv.take(j as int)[k] == x);
                    }
                }
                if t0.contains(x) {
                    let k = choose|k: int| 0 <= k < t0.len() && t0[k] == x;
                    assert(bv.take(j + 1)[k] == x);
                }
                if x == b@[j as int]@ {
                    assert(bv.take(j + 1)[j as int] == x);
                }
            }
        }
        j = j + 1;
    }
    assert(str_views(b@).take(b@.len() as int) =~= str_views(b@));
    out
}

// ---------------------------------------------------------------------
// Small choices
// ---------------------------------------------------------------------

/// How many leading characters of a timestamp make a chart bucket: a day
/// ("YYYY-MM-DD"), a month ("YYYY-MM"), or else a year ("YYYY").
pub fn bucket_len(dimension: &str) -> (r: usize)
    ensures
        r == (if dimension@ == "day"@ { 10usize } else if dimension@ == "month"@ { 7usize } else { 4usize }),
{
    if str_eq(dimension, "day") {
        10
    } else if str_eq(dimension, "month") {
        7
    } else {
        4
    }
}

/// The SQL expression that names the slice a transaction falls in, for
/// each way of grouping the pie chart (by first-level category when the
/// way is not known).
pub open spec fn pie_expr_spec(group_by: Seq<char>) -> Seq<char> {
    if group_by == "l2"@ {
        "IFNULL(NULLIF(l2,''),'未分类')"@
    } else if group_by == "merchant"@ {
        "IFNULL(NULLIF(merchant,''),'（无商家）')"@
    } else if group_by == "account"@ {
        "IFNULL(NULLIF(account_out,''),IFNULL(NULLIF(account_in,''),'（无账户）'))"@
    } else if group_by == "project"@ {
        "IFNULL(NULLIF(project_category,''),'（无项目）')"@
    } else if group_by == "member"@ {
        "IFNULL(NULLIF(member,''),'（无成员）')"@
    } else {
        "IFNULL(NULLIF(l1,''),'未分类')"@
    }
}

pub fn pie_expr(group_by: &str) -> (r: &'static str)
    ensures
        r@ == pie_expr_spec(group_by@),
{
    if str_eq(group_by, "l2") {
        "IFNULL(NULLIF(l2,''),'未分类')"
    } else if str_eq(group_by, "merchant") {
        "IFNULL(NULLIF(merchant,''),'（无商家）')"
    } else if str_eq(group_by, "account") {
        "IFNULL(NULLIF(account_out,''),IFNULL(NULLIF(account_in,''),'（无账户）'))"
    } else if str_eq(group_by, "project") {
        "IFNULL(NULLIF(project_category,''),'（无项目）')"
    } else if str_eq(group_by, "member") {
        "IFNULL(NULLIF(member,''),'（无成员）')"
    } else {
        "IFNULL(NULLIF(l1,''),'未分类')"
    }
}

/// The transaction type summed for a category page: income for "income",
/// expense otherwise.
pub fn sum_tx_type(kind: &str) -> (r: &'static str)
    ensures
        r@ == (if kind@ == "income"@ { "收入"@ } else { "支出"@ }),
{
    if str_eq(kind, "income") {
        "收入"
    } else {
        "支出"
    }
}

} // verus!
