//! The transaction query: the WHERE clause and parameters that a filter
//! stands for, and the window of a page of results.
use vstd::prelude::*;

use crate::datetime::{dec, push_dec};
use crate::export::{join_sep, push_joined};
use crate::importer::str_views;
use crate::models::{opt_view, TxFilter};
use crate::text::{push_all, push_str, str_eq, string_of};

verus! {

/// The kinds of condition a filter can set, in the order they are
/// written.
pub open spec fn cond_text(kind: int, n: nat) -> Seq<char> {
    let p = "?"@ + dec(n);
    if kind == 0 {
        "tx_type = "@ + p
    } else if kind == 1 {
        "l1 = "@ + p
    } else if kind == 2 {
        "l2 = "@ + p
    } else if kind == 3 {
        "merchant LIKE "@ + p
    } else if kind == 4 {
        "(merchant LIKE "@ + p + " OR remark LIKE "@ + p + " OR l1 LIKE "@ + p + " OR l2 LIKE "@ + p
            + " OR project LIKE "@ + p + " OR member LIKE "@ + p + " OR account_out LIKE "@ + p
            + " OR account_in LIKE "@ + p + ")"@
    } else if kind == 5 {
        "tx_time >= "@ + p
    } else if kind == 6 {
        "tx_time <= "@ + p
    } else if kind == 7 {
        "amount >= CAST("@ + p + " AS REAL)"@
    } else {
        "amount <= CAST("@ + p + " AS REAL)"@
    }
}

pub open spec fn item(kind: int, p: Option<Seq<char>>) -> Seq<(int, Seq<char>)> {
    match p {
        Some(x) => seq![(kind, x)],
        None => seq![],
    }
}

pub open spec fn wrap(o: Option<Seq<char>>, pre: Seq<char>, post: Seq<char>) -> Option<Seq<char>> {
    match o {
        Some(v) => Some(pre + v + post),
        None => None,
    }
}

/// The type filter, unless it asks for all types ("全部").
pub open spec fn type_filter(o: Option<Seq<char>>) -> Option<Seq<char>> {
    match o {
        Some(v) => if v == "全部"@ { None } else { Some(v) },
        None => None,
    }
}

/// The conditions a filter sets, each with its parameter: type, first and
/// second level category (equal), merchant (contains), keyword (contained
/// in any of eight columns), first and last day (from midnight to the
/// last second), least and greatest amount.
pub open spec fn where_items(f: TxFilter) -> Seq<(int, Seq<char>)> {
    item(0, type_filter(opt_view(f.tx_type))) + item(1, opt_view(f.l1)) + item(2, opt_view(f.l2)) + item(
        3,
        wrap(opt_view(f.merchant), "%"@, "%"@),
    ) + item(4, wrap(opt_view(f.keyword), "%"@, "%"@)) + item(
        5,
        wrap(opt_view(f.date_from), seq![], " 00:00:00"@),
    ) + item(6, wrap(opt_view(f.date_to), seq![], " 23:59:59"@)) + item(7, opt_view(f.min_amount)) + item(
        8,
        opt_view(f.max_amount),
    )
}

/// The conditions as SQL, the n-th with placeholder ?n.
pub open spec fn cond_texts(items: Seq<(int, Seq<char>)>) -> Seq<Seq<char>> {
    Seq::new(items.len(), |i: int| cond_text(items[i].0, (i + 1) as nat))
}

/// The WHERE clause of a filter: empty when it sets no condition.
pub open spec fn where_sql_spec(f: TxFilter) -> Seq<char> {
    let items = where_items(f);
    if items.len() == 0 {
        seq![]
    } else {
        "WHERE "@ + join_sep(cond_texts(items), " AND "@)
    }
}

/// The parameters of the WHERE clause, in placeholder order.
pub open spec fn where_params_spec(f: TxFilter) -> Seq<Seq<char>> {
    where_items(f).map_values(|x: (int, Seq<char>)| x.1)
}

fn cond_chars(kind: u8, n: u64) -> (r: Vec<char>)
    requires
        kind <= 8,
    ensures
        r@ == cond_text(kind as int, n as nat),
{
    let mut p: Vec<char> = Vec::new();
    push_str(&mut p, "?");
    push_dec(&mut p, n);
    let ghost pv = "?"@ + dec(n as nat);
    assert(p@ =~= pv);
    let ps = p.as_slice();
    let mut out: Vec<char> = Vec::new();
    if kind == 0 {
        push_str(&mut out, "tx_type = ");
        push_all(&mut out, ps);
    } else if kind == 1 {
        push_str(&mut out, "l1 = ");
        push_all(&mut out, ps);
    } else if kind == 2 {
        push_str(&mut out, "l2 = ");
        push_all(&mut out, ps);
    } else if kind == 3 {
        push_str(&mut out, "merchant LIKE ");
        push_all(&mut out, ps);
    } else if kind == 4 {
        push_str(&mut out, "(merchant LIKE ");
        push_all(&mut out, ps);
        push_str(&mut out, " OR remark LIKE ");
        push_all(&mut out, ps);
        push_str(&mut out, " OR l1 LIKE ");
        push_all(&mut out, ps);
        push_str(&mut out, " OR l2 LIKE ");
        push_all(&mut out, ps);
        push_str(&mut out, " OR project LIKE ");
        push_all(&mut out, ps);
        push_str(&mut out, " OR member LIKE ");
        push_all(&mut out, ps);
        push_str(&mut out, " OR account_out LIKE ");
        push_all(&mut out, ps);
        push_str(&mut out, " OR account_in LIKE ");
        push_all(&mut out, ps);
        push_str(&mut out, ")");
    } else if kind == 5 {
        push_str(&mut out, "tx_time >= ");
        push_all(&mut out, ps);
    } else if kind == 6 {
        push_str(&mut out, "tx_time <= ");
        push_all(&mut out, ps);
    } else if kind == 7 {
        push_str(&mut out, "amount >= CAST(");
        push_all(&mut out, ps);
        push_str(&mut out, " AS REAL)");
    } else {
        push_str(&mut out, "amount <= CAST(");
        push_all(&mut out, ps);
        push_str(&mut out, " AS REAL)");
    }
    assert(out@ =~= cond_text(kind as int, n as nat));
    out
}

fn wrapped(o: &Option<String>, pre: &str, post: &str) -> (r: Option<String>)
    ensures
        opt_view(r) == wrap(opt_view(*o), pre@, post@),
{
    match o {
        Some(v) => {
            let mut out: Vec<char> = Vec::new();
            push_str(&mut out, pre);
            push_str(&mut out, v.as_str());
            push_str(&mut out, post);
            Some(string_of(out.as_slice()))
        },
        None => None,
    }
}

pub open spec fn item_views(v: Seq<(u8, String)>) -> Seq<(int, Seq<char>)> {
    v.map_values(|x: (u8, String)| (x.0 as int, x.1@))
}

fn push_item(items: &mut Vec<(u8, String)>, kind: u8, p: Option<String>)
    requires
        kind <= 8,
        forall|k: int| 0 <= k < old(items)@.len() ==> (#[trigger] old(items)@[k]).0 <= 8,
    ensures
        item_views(final(items)@) == item_views(old(items)@) + item(kind as int, opt_view(p)),
        final(items)@.len() <= old(items)@.len() + 1,
        forall|k: int| 0 <= k < final(items)@.len() ==> (#[trigger] final(items)@[k]).0 <= 8,
{
    let ghost before = items@;
    match p {
        Some(x) => {
            items.push((kind, x));
            assert(item_views(items@) =~= item_views(before) + item(kind as int, opt_view(p)));
        },
        None => {
            assert(item_views(items@) =~= item_views(before) + item(kind as int, opt_view(p)));
        },
    }
}

fn clone_opt(o: &Option<String>) -> (r: Option<String>)
    ensures
        opt_view(r) == opt_view(*o),
{
    match o {
        Some(s) => Some(s.clone()),
        None => None,
    }
}

/// The WHERE clause (empty, or "WHERE " and the conditions joined by
/// " AND ") and its parameters, for a filter.
pub fn build_where(filter: &TxFilter) -> (r: (String, Vec<String>))
    ensures
        r.0@ == where_sql_spec(*filter),
        str_views(r.1@) == where_params_spec(*filter),
{
    let mut items: Vec<(u8, String)> = Vec::new();
    assert(item_views(items@) =~= Seq::<(int, Seq<char>)>::empty());
    let tf: Option<String> = match &filter.tx_type {
        Some(v) => if str_eq(v.as_str(), "全部") { None } else { Some(v.clone()) },
        None => None,
    };
    push_item(&mut items, 0, tf);
    push_item(&mut items, 1, clone_opt(&filter.l1));
    push_item(&mut items, 2, clone_opt(&filter.l2));
    push_item(&mut items, 3, wrapped(&filter.merchant, "%", "%"));
    push_item(&mut items, 4, wrapped(&filter.keyword, "%", "%"));
    push_item(&mut items, 5, wrapped(&filter.date_from, "", " 00:00:00"));
    push_item(&mut items, 6, wrapped(&filter.date_to, "", " 23:59:59"));
    push_item(&mut items, 7, clone_opt(&filter.min_amount));
    push_item(&mut items, 8, clone_opt(&filter.max_amount));
    proof {
        reveal_strlit("");
        assert(""@ =~= Seq::<char>::empty());
    }
    let ghost iv = item_views(items@);
    assert(iv =~= where_items(*filter));
    let mut conds: Vec<Vec<char>> = Vec::new();
    let mut params: Vec<String> = Vec::new();
    let mut i: usize = 0;
    while i < items.len()
        invariant
            i <= items@.len(),
            items@.len() <= 9,
            iv == item_views(items@),
            forall|k: int| 0 <= k < items@.len() ==> (#[trigger] items@[k]).0 <= 8,
            conds@.len() == i,
            params@.len() == i,
            forall|k: int| 0 <= k < i ==> (#[trigger] conds@[k])@ == cond_text(iv[k].0, (k + 1) as nat),
            forall|k: int| 0 <= k < i ==> (#[trigger] params@[k])@ == iv[k].1,
        decreases items@.len() - i,
    {
        let c = cond_chars(items[i].0, (i + 1) as u64);
        conds.push(c);
        params.push(items[i].1.clone());
        i = i + 1;
    }
    assert(conds@.map_values(|p: Vec<char>| p@) =~= cond_texts(iv));
    assert(str_views(params@) =~= where_params_spec(*filter));
    if items.len() == 0 {
        return (String::new(), params);
    }
    let mut out: Vec<char> = Vec::new();
    push_str(&mut out, "WHERE ");
    push_joined(&mut out, &conds, " AND ");
    (string_of(out.as_slice()), params)
}

/// The page size (50 when not positive) and the number of rows before the
/// page (the page counts from 1; one not positive is the first).
pub open spec fn page_window_spec(page: i64, page_size: i64) -> (int, int) {
    let size = if page_size <= 0 { 50 } else { page_size as int };
    let p = if page <= 0 { 1 } else { page as int };
    (size, (p - 1) * size)
}

pub fn page_window(page: i64, page_size: i64) -> (r: (i64, i64))
    requires
        i64::MIN <= page_window_spec(page, page_size).1 <= i64::MAX,
    ensures
        r.0 as int == page_window_spec(page, page_size).0,
        r.1 as int == page_window_spec(page, page_size).1,
{
    let size: i64 = if page_size <= 0 { 50 } else { page_size };
    let p: i64 = if page <= 0 { 1 } else { page };
    (size, (p - 1) * size)
}

/// A least amount keeps exactly the rows whose amount is at least it, a
/// greatest amount those whose amount is at most it. Set alone, each is
/// the whole WHERE clause with its value as the one parameter; set
/// together, the least comes first. In any filter they are the last
/// conditions, each comparing the amount with its own value.
pub proof fn law_amount_bounds(f: TxFilter)
    ensures
        ({
            let items = where_items(f);
            let n = items.len();
            let ps = where_params_spec(f);
            &&& f.max_amount is Some ==> n >= 1 && ps[n - 1] == opt_view(f.max_amount)->0
                && cond_texts(items)[n - 1] == "amount <= CAST(?"@ + dec(n) + " AS REAL)"@
            &&& f.min_amount is Some && f.max_amount is Some ==> n >= 2 && ps[n - 2] == opt_view(
                f.min_amount,
            )->0 && cond_texts(items)[n - 2] == "amount >= CAST(?"@ + dec((n - 1) as nat) + " AS REAL)"@
            &&& f.min_amount is Some && f.max_amount is None ==> n >= 1 && ps[n - 1] == opt_view(
                f.min_amount,
            )->0 && cond_texts(items)[n - 1] == "amount >= CAST(?"@ + dec(n) + " AS REAL)"@
        }),
        f.tx_type is None && f.l1 is None && f.l2 is None && f.merchant is None && f.keyword is None
            && f.date_from is None && f.date_to is None ==> {
            &&& f.min_amount is Some && f.max_amount is None ==> where_sql_spec(f)
                == "WHERE amount >= CAST(?1 AS REAL)"@ && where_params_spec(f) == seq![
                opt_view(f.min_amount)->0,
            ]
            &&& f.min_amount is None && f.max_amount is Some ==> where_sql_spec(f)
                == "WHERE amount <= CAST(?1 AS REAL)"@ && where_params_spec(f) == seq![
                opt_view(f.max_amount)->0,
            ]
            &&& f.min_amount is Some && f.max_amount is Some ==> where_sql_spec(f)
                == "WHERE amount >= CAST(?1 AS REAL) AND amount <= CAST(?2 AS REAL)"@ && where_params_spec(f)
                == seq![opt_view(f.min_amount)->0, opt_view(f.max_amount)->0]
        },
{
    let items = where_items(f);
    let head = item(0, type_filter(opt_view(f.tx_type))) + item(1, opt_view(f.l1)) + item(2, opt_view(f.l2)) + item(
        3,
        wrap(opt_view(f.merchant), "%"@, "%"@),
    ) + item(4, wrap(opt_view(f.keyword), "%"@, "%"@)) + item(
        5,
        wrap(opt_view(f.date_from), seq![], " 00:00:00"@),
    ) + item(6, wrap(opt_view(f.date_to), seq![], " 23:59:59"@));
    let tail = item(7, opt_view(f.min_amount)) + item(8, opt_view(f.max_amount));
    assert(items =~= head + tail);
    reveal_strlit("WHERE ");
    reveal_strlit(" AND ");
    reveal_strlit("amount >= CAST(");
    reveal_strlit("amount <= CAST(");
    reveal_strlit(" AS REAL)");
    reveal_strlit("?");
    reveal_strlit("amount >= CAST(?");
    reveal_strlit("amount <= CAST(?");
    reveal_strlit("WHERE amount >= CAST(?1 AS REAL)");
    reveal_strlit("WHERE amount <= CAST(?1 AS REAL)");
    reveal_strlit("WHERE amount >= CAST(?1 AS REAL) AND amount <= CAST(?2 AS REAL)");
    let n = items.len();
    let ct = cond_texts(items);
    if f.max_amount is Some {
        assert(items[n - 1] == (8int, opt_view(f.max_amount)->0));
        assert(ct[n - 1] =~= "amount <= CAST(?"@ + dec(n) + " AS REAL)"@);
    }
    if f.min_amount is Some && f.max_amount is Some {
        assert(items[n - 2] == (7int, opt_view(f.min_amount)->0));
        assert(ct[n - 2] =~= "amount >= CAST(?"@ + dec((n - 1) as nat) + " AS REAL)"@);
    }
    if f.min_amount is Some && f.max_amount is None {
        assert(items[n - 1] == (7int, opt_view(f.min_amount)->0));
        assert(ct[n - 1] =~= "amount >= CAST(?"@ + dec(n) + " AS REAL)"@);
    }
    if f.tx_type is None && f.l1 is None && f.l2 is None && f.merchant is None && f.keyword is None
        && f.date_from is None && f.date_to is None {
        assert(head =~= Seq::<(int, Seq<char>)>::empty());
        assert(items =~= tail);
        assert(dec(1) =~= seq!['1']);
        assert(dec(2) =~= seq!['2']);
        if f.min_amount is Some && f.max_amount is None {
            assert(join_sep(ct, " AND "@) == ct[0]);
            assert(where_sql_spec(f) =~= "WHERE amount >= CAST(?1 AS REAL)"@);
            assert(where_params_spec(f) =~= seq![opt_view(f.min_amount)->0]);
        }
        if f.min_amount is None && f.max_amount is Some {
            assert(join_sep(ct, " AND "@) == ct[0]);
            assert(where_sql_spec(f) =~= "WHERE amount <= CAST(?1 AS REAL)"@);
            assert(where_params_spec(f) =~= seq![opt_view(f.max_amount)->0]);
        }
        if f.min_amount is Some && f.max_amount is Some {
            assert(ct.drop_last() =~= seq![ct[0]]);
            assert(join_sep(ct.drop_last(), " AND "@) == ct[0]);
            assert(join_sep(ct, " AND "@) == ct[0] + " AND "@ + ct[1]);
            assert(where_sql_spec(f) =~= "WHERE amount >= CAST(?1 AS REAL) AND amount <= CAST(?2 AS REAL)"@);
            assert(where_params_spec(f) =~= seq![opt_view(f.min_amount)->0, opt_view(f.max_amount)->0]);
        }
    }
}

/// Pages tile the results: the first page starts at the first row, each
/// page starts where the one before it ends, and every page has the same
/// size, the one asked for when it is positive.
pub proof fn law_pages_follow_each_other(page: i64, page_size: i64)
    ensures
        page_window_spec(1, page_size).1 == 0,
        page <= 1 ==> page_window_spec(page, page_size) == page_window_spec(1, page_size),
        page >= 1 && page < i64::MAX ==> page_window_spec((page + 1) as i64, page_size).1 == page_window_spec(
            page,
            page_size,
        ).1 + page_window_spec(page, page_size).0,
        page_window_spec(page, page_size).0 > 0,
        page_size > 0 ==> page_window_spec(page, page_size).0 == page_size,
{
    let size = page_window_spec(page, page_size).0;
    if page >= 1 && page < i64::MAX {
        assert(page * size == (page - 1) * size + size) by (nonlinear_arith);
    }
}

} // verus!
