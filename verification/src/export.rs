//! Exports: the CSV text of a list of transactions, the text and
//! Markdown outlines of the category tree, and the query filter.
use vstd::prelude::*;

use crate::importer::{or_empty, or_empty_chars, str_views, tx_types};
use crate::models::opt_view;
use crate::text::{chars_of, chars_eq, push_all, push_str, starts_with, str_eq, string_of};

verus! {

// ---------------------------------------------------------------------
// Joining
// ---------------------------------------------------------------------

/// The parts with `sep` between each two.
pub open spec fn join_sep(parts: Seq<Seq<char>>, sep: Seq<char>) -> Seq<char>
    decreases parts.len(),
{
    if parts.len() == 0 {
        seq![]
    } else if parts.len() == 1 {
        parts[0]
    } else {
        join_sep(parts.drop_last(), sep) + sep + parts.last()
    }
}

/// Appends the parts joined by `sep`.
pub fn push_joined(out: &mut Vec<char>, parts: &Vec<Vec<char>>, sep: &str)
    ensures
        final(out)@ == old(out)@ + join_sep(parts@.map_values(|p: Vec<char>| p@), sep@),
{
    let ghost pv = parts@.map_values(|p: Vec<char>| p@);
    let ghost start = out@;
    let sc = chars_of(sep);
    let mut i: usize = 0;
    while i < parts.len()
        invariant
            i <= parts@.len(),
            pv == parts@.map_values(|p: Vec<char>| p@),
            sc@ == sep@,
            out@ == start + join_sep(pv.take(i as int), sep@),
        decreases parts@.len() - i,
    {
        assert(pv.take(i + 1).drop_last() =~= pv.take(i as int));
        assert(pv.take(i + 1).last() == parts@[i as int]@);
        if i > 0 {
            push_all(out, sc.as_slice());
        }
        push_all(out, parts[i].as_slice());
        proof {
            if i == 0 {
                assert(join_sep(pv.take(1), sep@) == pv.take(1)[0]);
                assert(out@ =~= start + join_sep(pv.take(1), sep@));
            } else {
                assert(out@ =~= start + join_sep(pv.take(i + 1), sep@));
            }
        }
        i = i + 1;
    }
    assert(pv.take(parts@.len() as int) =~= pv);
}

// ---------------------------------------------------------------------
// CSV
// ---------------------------------------------------------------------

/// The columns of an export, in order.
pub open spec fn export_columns() -> Seq<Seq<char>> {
    seq![
        "交易类型"@,
        "日期"@,
        "一级分类"@,
        "二级分类"@,
        "转出账户"@,
        "转入账户"@,
        "账户币种"@,
        "金额"@,
        "成员"@,
        "商家"@,
        "项目分类"@,
        "项目"@,
        "记账人"@,
        "备注"@,
        "交易单号"@,
    ]
}

/// The column names of an export.
pub fn columns() -> (r: Vec<String>)
    ensures
        str_views(r@) == export_columns(),
{
    let names: [&str; 15] = [
        "交易类型",
        "日期",
        "一级分类",
        "二级分类",
        "转出账户",
        "转入账户",
        "账户币种",
        "金额",
        "成员",
        "商家",
        "项目分类",
        "项目",
        "记账人",
        "备注",
        "交易单号",
    ];
    let ghost want = export_columns();
    assert(names@.map_values(|n: &str| n@) =~= want);
    let mut out: Vec<String> = Vec::new();
    let mut i: usize = 0;
    while i < 15
        invariant
            i <= 15,
            want == export_columns(),
            names@.map_values(|n: &str| n@) == want,
            out@.len() == i,
            str_views(out@) == want.take(i as int),
        decreases 15 - i,
    {
        assert(names@.map_values(|n: &str| n@)[i as int] == names@[i as int]@);
        let ghost before = out@;
        let nm = names[i];
        let owned = nm.to_owned();
        assert(owned@ == nm@);
        out.push(owned);
        assert(out@ == before.push(owned));
        assert(str_views(out@)[i as int] == want[i as int]);
        assert(str_views(out@) =~= want.take(i + 1));
        i = i + 1;
    }
    assert(want.take(15) =~= want);
    out
}

/// A cell that must stand in quotes: it holds a comma, a quote or a line
/// break.
pub open spec fn needs_quotes(c: Seq<char>) -> bool {
    c.contains(',') || c.contains('"') || c.contains('\n')
}

/// The text with each quote doubled.
pub open spec fn double_quotes(c: Seq<char>) -> Seq<char>
    decreases c.len(),
{
    if c.len() == 0 {
        seq![]
    } else if c.last() == '"' {
        double_quotes(c.drop_last()) + seq!['"', '"']
    } else {
        double_quotes(c.drop_last()).push(c.last())
    }
}

/// A cell as CSV writes it.
pub open spec fn csv_cell_spec(c: Seq<char>) -> Seq<char> {
    if needs_quotes(c) {
        seq!['"'] + double_quotes(c) + seq!['"']
    } else {
        c
    }
}

/// A quoted cell's inner text read back: each pair of quotes is one quote.
pub open spec fn undouble(s: Seq<char>) -> Seq<char>
    decreases s.len(),
{
    if s.len() == 0 {
        seq![]
    } else if s.len() >= 2 && s.last() == '"' && s[s.len() - 2] == '"' {
        undouble(s.subrange(0, s.len() - 2)).push('"')
    } else {
        undouble(s.drop_last()).push(s.last())
    }
}

/// A CSV cell read back: the inner text of a quoted cell with its quotes
/// undoubled, any other cell as it stands.
pub open spec fn csv_read_cell(t: Seq<char>) -> Seq<char> {
    if t.len() >= 2 && t[0] == '"' && t.last() == '"' {
        undouble(t.subrange(1, t.len() - 1))
    } else {
        t
    }
}

proof fn lemma_undouble_doubled(c: Seq<char>)
    ensures
        undouble(double_quotes(c)) == c,
    decreases c.len(),
{
    if c.len() > 0 {
        lemma_undouble_doubled(c.drop_last());
        let d = double_quotes(c.drop_last());
        let t = double_quotes(c);
        if c.last() == '"' {
            assert(t =~= d + seq!['"', '"']);
            assert(t.subrange(0, t.len() - 2) =~= d);
        } else {
            assert(t =~= d.push(c.last()));
            assert(t.drop_last() =~= d);
        }
        assert(undouble(t) =~= c);
    }
}

/// Writing a cell loses nothing: a reader that takes the inner text of a
/// quoted cell and undoubles its quotes gets the cell back. A cell that is
/// not quoted holds no comma, quote or line break, so it cannot be taken
/// for two cells, two lines or a quoted one; a cell that holds none of
/// them is written as it stands.
pub proof fn law_csv_cell_reads_back(c: Seq<char>)
    ensures
        csv_read_cell(csv_cell_spec(c)) == c,
        !starts_with(csv_cell_spec(c), '"') ==> !csv_cell_spec(c).contains(',') && !csv_cell_spec(c).contains('"')
            && !csv_cell_spec(c).contains('\n'),
        !(c.contains(',') || c.contains('"') || c.contains('\n')) ==> csv_cell_spec(c) == c,
{
    let t = csv_cell_spec(c);
    if needs_quotes(c) {
        lemma_undouble_doubled(c);
        let d = double_quotes(c);
        assert(t =~= seq!['"'] + d + seq!['"']);
        assert(t.subrange(1, t.len() - 1) =~= d);
    } else {
        if t.len() >= 2 && t[0] == '"' {
            assert(c.contains('"'));
        }
    }
}

fn csv_cell(c: &str) -> (r: Vec<char>)
    ensures
        r@ == csv_cell_spec(c@),
{
    let cs = chars_of(c);
    let mut quote = false;
    let mut i: usize = 0;
    while i < cs.len()
        invariant
            i <= cs@.len(),
            cs@ == c@,
            quote == needs_quotes(cs@.take(i as int)),
        decreases cs@.len() - i,
    {
        proof {
            let t = cs@.take(i + 1);
            assert(t =~= cs@.take(i as int).push(cs@[i as int]));
            assert forall|x: char| t.contains(x) <==> (cs@.take(i as int).contains(x) || x == cs@[i as int]) by {
                if t.contains(x) {
                    let k = choose|k: int| 0 <= k < t.len() && t[k] == x;
                    if k < i {
                        assert(cs@.take(i as int)[k] == x);
                    }
                }
                if cs@.take(i as int).contains(x) {
                    let k = choose|k: int| 0 <= k < i && cs@.take(i as int)[k] == x;
                    assert(t[k] == x);
                }
                if x == cs@[i as int] {
                    assert(t[i as int] == x);
                }
            }
        }
        let ch = cs[i];
        if ch == ',' || ch == '"' || ch == '\n' {
            quote = true;
        }
        i = i + 1;
    }
    assert(cs@.take(cs@.len() as int) =~= cs@);
    if !quote {
        return cs;
    }
    let mut out: Vec<char> = Vec::new();
    out.push('"');
    let mut j: usize = 0;
    while j < cs.len()
        invariant
            j <= cs@.len(),
            cs@ == c@,
            out@ == seq!['"'] + double_quotes(cs@.take(j as int)),
        decreases cs@.len() - j,
    {
        assert(cs@.take(j + 1).drop_last() =~= cs@.take(j as int));
        let ch = cs[j];
        if ch == '"' {
            out.push('"');
            out.push('"');
        } else {
            out.push(ch);
        }
        assert(out@ =~= seq!['"'] + double_quotes(cs@.take(j + 1)));
        j = j + 1;
    }
    out.push('"');
    out
}

/// One row of cells as a CSV line (without its line break).
pub open spec fn csv_line(cells: Seq<Seq<char>>) -> Seq<char> {
    join_sep(cells.map_values(|c: Seq<char>| csv_cell_spec(c)), ","@)
}

/// The lines of the rows, each ended by a line break.
pub open spec fn csv_lines(rows: Seq<Seq<Seq<char>>>) -> Seq<char>
    decreases rows.len(),
{
    if rows.len() == 0 {
        seq![]
    } else {
        csv_lines(rows.drop_last()) + csv_line(rows.last()) + seq!['\n']
    }
}

/// The byte order mark that lets spreadsheet programs read the text as
/// UTF-8.
pub open spec fn bom() -> char {
    0xFEFFu32 as char
}

/// The CSV text of an export: a byte order mark, the column names, then
/// one line per row; cells are quoted where needed.
pub open spec fn csv_text(rows: Seq<Seq<Seq<char>>>) -> Seq<char> {
    seq![bom()] + join_sep(export_columns(), ","@) + seq!['\n'] + csv_lines(rows)
}

pub open spec fn row_views(rows: Seq<Vec<String>>) -> Seq<Seq<Seq<char>>> {
    rows.map_values(|r: Vec<String>| str_views(r@))
}

fn push_csv_line(out: &mut Vec<char>, row: &Vec<String>)
    ensures
        final(out)@ == old(out)@ + csv_line(str_views(row@)),
{
    let mut cells: Vec<Vec<char>> = Vec::new();
    let mut i: usize = 0;
    while i < row.len()
        invariant
            i <= row@.len(),
            cells@.len() == i,
            forall|k: int| 0 <= k < i ==> (#[trigger] cells@[k])@ == csv_cell_spec(row@[k]@),
        decreases row@.len() - i,
    {
        let c = csv_cell(row[i].as_str());
        cells.push(c);
        i = i + 1;
    }
    assert(cells@.map_values(|p: Vec<char>| p@) =~= str_views(row@).map_values(|c: Seq<char>| csv_cell_spec(c)));
    push_joined(out, &cells, ",");
}

/// The CSV text of the rows of an export.
pub fn render_csv(rows: &Vec<Vec<String>>) -> (r: String)
    ensures
        r@ == csv_text(row_views(rows@)),
{
    let mut out: Vec<char> = Vec::new();
    let bom_text = chars_of("\u{FEFF}");
    proof {
        reveal_strlit("\u{FEFF}");
    }
    assert(bom_text@ =~= seq![bom()]);
    push_all(&mut out, bom_text.as_slice());
    let cols = columns();
    let mut cv: Vec<Vec<char>> = Vec::new();
    let mut k: usize = 0;
    while k < cols.len()
        invariant
            k <= cols@.len(),
            str_views(cols@) == export_columns(),
            cv@.len() == k,
            forall|j: int| 0 <= j < k ==> (#[trigger] cv@[j])@ == cols@[j]@,
        decreases cols@.len() - k,
    {
        cv.push(chars_of(cols[k].as_str()));
        k = k + 1;
    }
    assert(cv@.map_values(|p: Vec<char>| p@) =~= str_views(cols@));
    push_joined(&mut out, &cv, ",");
    out.push('\n');
    let ghost head = out@;
    let ghost rv = row_views(rows@);
    let mut i: usize = 0;
    while i < rows.len()
        invariant
            i <= rows@.len(),
            rv == row_views(rows@),
            out@ == head + csv_lines(rv.take(i as int)),
        decreases rows@.len() - i,
    {
        assert(rv.take(i + 1).drop_last() =~= rv.take(i as int));
        assert(rv.take(i + 1).last() == str_views(rows@[i as int]@));
        push_csv_line(&mut out, &rows[i]);
        out.push('\n');
        assert(out@ =~= head + csv_lines(rv.take(i + 1)));
        i = i + 1;
    }
    assert(rv.take(rows@.len() as int) =~= rv);
    assert(out@ =~= csv_text(rv));
    string_of(out.as_slice())
}

// ---------------------------------------------------------------------
// Sheets of a workbook export
// ---------------------------------------------------------------------

/// The transaction types, one sheet each, in order.
pub fn sheet_names() -> (r: Vec<String>)
    ensures
        str_views(r@) == tx_types(),
{
    let names: [&str; 7] = ["支出", "收入", "转账", "报销", "代付", "余额变更", "债权变更"];
    let ghost want = tx_types();
    assert(names@.map_values(|n: &str| n@) =~= want);
    let mut out: Vec<String> = Vec::new();
    let mut i: usize = 0;
    while i < 7
        invariant
            i <= 7,
            want == tx_types(),
            names@.map_values(|n: &str| n@) == want,
            out@.len() == i,
            str_views(out@) == want.take(i as int),
        decreases 7 - i,
    {
        assert(names@.map_values(|n: &str| n@)[i as int] == names@[i as int]@);
        let ghost before = out@;
        let owned = names[i].to_owned();
        out.push(owned);
        assert(out@ == before.push(owned));
        assert(str_views(out@)[i as int] == want[i as int]);
        assert(str_views(out@) =~= want.take(i + 1));
        i = i + 1;
    }
    assert(want.take(7) =~= want);
    out
}

/// The indices of the rows whose first cell (the type) is `t`, in order.
pub open spec fn rows_of_type_spec(rows: Seq<Seq<Seq<char>>>, t: Seq<char>) -> Seq<int>
    decreases rows.len(),
{
    if rows.len() == 0 {
        seq![]
    } else if rows.last()[0] == t {
        rows_of_type_spec(rows.drop_last(), t).push(rows.len() - 1)
    } else {
        rows_of_type_spec(rows.drop_last(), t)
    }
}

/// The rows that go to the sheet of type `t`.
pub fn rows_of_type(rows: &Vec<Vec<String>>, t: &str) -> (r: Vec<usize>)
    requires
        forall|i: int| 0 <= i < rows@.len() ==> (#[trigger] rows@[i])@.len() > 0,
    ensures
        r@.map_values(|x: usize| x as int) == rows_of_type_spec(row_views(rows@), t@),
{
    let ghost rv = row_views(rows@);
    let mut out: Vec<usize> = Vec::new();
    let mut i: usize = 0;
    while i < rows.len()
        invariant
            i <= rows@.len(),
            rv == row_views(rows@),
            forall|k: int| 0 <= k < rows@.len() ==> (#[trigger] rows@[k])@.len() > 0,
            out@.map_values(|x: usize| x as int) == rows_of_type_spec(rv.take(i as int), t@),
        decreases rows@.len() - i,
    {
        assert(rv.take(i + 1).drop_last() =~= rv.take(i as int));
        assert(rv.take(i + 1).last() == str_views(rows@[i as int]@));
        assert(rows@[i as int]@.len() > 0);
        let ghost before = out@;
        if str_eq(rows[i][0].as_str(), t) {
            out.push(i);
            assert(out@.map_values(|x: usize| x as int) =~= before.map_values(|x: usize| x as int).push(
                i as int,
            ));
        }
        i = i + 1;
    }
    assert(rv.take(rows@.len() as int) =~= rv);
    out
}

/// What a workbook export writes for a cell: the amount column as a
/// number, other cells as text unless they are empty.
#[derive(Debug, Clone, PartialEq, Eq)]
pub enum CellWrite {
    Number,
    Text,
    Skip,
}

pub fn cell_write(column: usize, cell: &str) -> (r: CellWrite)
    ensures
        r == (if column == 7 { CellWrite::Number } else if cell@.len() > 0 { CellWrite::Text } else {
            CellWrite::Skip
        }),
{
    if column == 7 {
        CellWrite::Number
    } else if cell.unicode_len() > 0 {
        CellWrite::Text
    } else {
        CellWrite::Skip
    }
}

// ---------------------------------------------------------------------
// The category tree as text and as Markdown
// ---------------------------------------------------------------------

pub open spec fn cat_row_views(rows: Seq<(Option<String>, Option<String>)>) -> Seq<
    (Option<Seq<char>>, Option<Seq<char>>),
> {
    rows.map_values(|r: (Option<String>, Option<String>)| (opt_view(r.0), opt_view(r.1)))
}

/// The outline lines of a list of (first level, second level) rows: a
/// first-level name, indented two spaces, each time it changes (the first
/// time unless it is empty), and each second-level name indented four.
pub open spec fn txt_body(rows: Seq<(Option<Seq<char>>, Option<Seq<char>>)>, last: Seq<char>) -> Seq<char>
    decreases rows.len(),
{
    if rows.len() == 0 {
        seq![]
    } else {
        let l1 = or_empty(rows[0].0);
        let head = if l1 != last { "  "@ + l1 + "\n"@ } else { seq![] };
        let tail = match rows[0].1 {
            Some(l2) => "    "@ + l2 + "\n"@,
            None => seq![],
        };
        head + tail + txt_body(rows.drop_first(), l1)
    }
}

/// A section of the text outline: the title, the rows, an empty line;
/// nothing for no rows.
pub open spec fn txt_section(title: Seq<char>, rows: Seq<(Option<Seq<char>>, Option<Seq<char>>)>) -> Seq<char> {
    if rows.len() == 0 {
        seq![]
    } else {
        title + "\n"@ + txt_body(rows, seq![]) + "\n"@
    }
}

/// The text outline of the category tree: expense, income and account
/// categories.
pub open spec fn categories_txt_spec(
    expense: Seq<(Option<Seq<char>>, Option<Seq<char>>)>,
    income: Seq<(Option<Seq<char>>, Option<Seq<char>>)>,
    account: Seq<(Option<Seq<char>>, Option<Seq<char>>)>,
) -> Seq<char> {
    txt_section("支出"@, expense) + txt_section("收入"@, income) + txt_section("账户"@, account)
}

fn push_txt_section(out: &mut Vec<char>, title: &str, rows: &Vec<(Option<String>, Option<String>)>)
    ensures
        final(out)@ == old(out)@ + txt_section(title@, cat_row_views(rows@)),
{
    let ghost rv = cat_row_views(rows@);
    if rows.len() == 0 {
        return;
    }
    let ghost start = out@;
    push_str(out, title);
    push_str(out, "\n");
    let ghost head = out@;
    let mut last: Vec<char> = Vec::new();
    assert(last@ =~= Seq::<char>::empty());
    let mut i: usize = 0;
    assert(rv.skip(0) =~= rv);
    while i < rows.len()
        invariant
            i <= rows@.len(),
            rv == cat_row_views(rows@),
            head + txt_body(rv, seq![]) == out@ + txt_body(rv.skip(i as int), last@),
        decreases rows@.len() - i,
    {
        assert(rv.skip(i as int)[0] == rv[i as int]);
        assert(rv.skip(i as int).drop_first() =~= rv.skip(i + 1));
        let ghost before = out@;
        assert(rv[i as int] == (opt_view(rows@[i as int].0), opt_view(rows@[i as int].1)));
        let l1 = or_empty_chars(&rows[i].0);
        assert(l1@ == or_empty(rv[i as int].0));
        if !chars_eq(l1.as_slice(), last.as_slice()) {
            push_str(out, "  ");
            push_all(out, l1.as_slice());
            push_str(out, "\n");
        }
        let ghost mid = out@;
        match &rows[i].1 {
            Some(l2) => {
                push_str(out, "    ");
                push_str(out, l2.as_str());
                push_str(out, "\n");
            },
            None => {},
        }
        proof {
            let l1v = or_empty(rv[i as int].0);
            let hd = if l1v != last@ { "  "@ + l1v + "\n"@ } else { seq![] };
            let tl = match rv[i as int].1 {
                Some(l2) => "    "@ + l2 + "\n"@,
                None => Seq::<char>::empty(),
            };
            assert(mid =~= before + hd);
            assert(out@ =~= before + hd + tl);
            assert(txt_body(rv.skip(i as int), last@) == hd + tl + txt_body(rv.skip(i + 1), l1v));
            assert(before + (hd + tl + txt_body(rv.skip(i + 1), l1v)) =~= out@ + txt_body(rv.skip(i + 1), l1v));
        }
        last = l1;
        i = i + 1;
    }
    assert(rv.skip(rows@.len() as int) =~= Seq::<(Option<Seq<char>>, Option<Seq<char>>)>::empty());
    push_str(out, "\n");
    assert(out@ =~= start + txt_section(title@, rv));
}

/// The category tree as an indented text outline.
pub fn categories_txt(
    expense: &Vec<(Option<String>, Option<String>)>,
    income: &Vec<(Option<String>, Option<String>)>,
    account: &Vec<(Option<String>, Option<String>)>,
) -> (r: String)
    ensures
        r@ == categories_txt_spec(cat_row_views(expense@), cat_row_views(income@), cat_row_views(account@)),
{
    let mut out: Vec<char> = Vec::new();
    push_txt_section(&mut out, "支出", expense);
    push_txt_section(&mut out, "收入", income);
    push_txt_section(&mut out, "账户", account);
    assert(out@ =~= categories_txt_spec(cat_row_views(expense@), cat_row_views(income@), cat_row_views(account@)));
    string_of(out.as_slice())
}

/// The table rows of a Markdown section: first level, and second level
/// or "（留空）" when there is none.
pub open spec fn md_rows(rows: Seq<(Option<Seq<char>>, Option<Seq<char>>)>) -> Seq<char>
    decreases rows.len(),
{
    if rows.len() == 0 {
        seq![]
    } else {
        md_rows(rows.drop_last()) + "| "@ + or_empty(rows.last().0) + " | "@ + match rows.last().1 {
            Some(l2) => l2,
            None => "（留空）"@,
        } + " |\n"@
    }
}

pub open spec fn md_section(title: Seq<char>, rows: Seq<(Option<Seq<char>>, Option<Seq<char>>)>) -> Seq<char> {
    if rows.len() == 0 {
        seq![]
    } else {
        "## "@ + title + "\n\n| 一级 | 二级 |\n|------|------|\n"@ + md_rows(rows) + "\n"@
    }
}

/// The Markdown outline of the category tree.
pub open spec fn categories_md_spec(
    expense: Seq<(Option<Seq<char>>, Option<Seq<char>>)>,
    income: Seq<(Option<Seq<char>>, Option<Seq<char>>)>,
    account: Seq<(Option<Seq<char>>, Option<Seq<char>>)>,
) -> Seq<char> {
    "# 账单分类体系\n\n"@ + md_section("支出分类"@, expense) + md_section("收入分类"@, income) + md_section(
        "账户分类"@,
        account,
    )
}

fn push_md_section(out: &mut Vec<char>, title: &str, rows: &Vec<(Option<String>, Option<String>)>)
    ensures
        final(out)@ == old(out)@ + md_section(title@, cat_row_views(rows@)),
{
    let ghost rv = cat_row_views(rows@);
    if rows.len() == 0 {
        return;
    }
    let ghost start = out@;
    push_str(out, "## ");
    push_str(out, title);
    push_str(out, "\n\n| 一级 | 二级 |\n|------|------|\n");
    let ghost head = out@;
    let mut i: usize = 0;
    while i < rows.len()
        invariant
            i <= rows@.len(),
            rv == cat_row_views(rows@),
            out@ == head + md_rows(rv.take(i as int)),
        decreases rows@.len() - i,
    {
        assert(rv.take(i + 1).drop_last() =~= rv.take(i as int));
        assert(rv.take(i + 1).last() == rv[i as int]);
        let ghost before = out@;
        push_str(out, "| ");
        let l1 = or_empty_chars(&rows[i].0);
        push_all(out, l1.as_slice());
        push_str(out, " | ");
        match &rows[i].1 {
            Some(l2) => push_str(out, l2.as_str()),
            None => push_str(out, "（留空）"),
        }
        push_str(out, " |\n");
        assert(out@ =~= head + md_rows(rv.take(i + 1)));
        i = i + 1;
    }
    assert(rv.take(rows@.len() as int) =~= rv);
    push_str(out, "\n");
    assert(out@ =~= start + md_section(title@, rv));
}

/// The category tree as Markdown tables.
pub fn categories_md(
    expense: &Vec<(Option<String>, Option<String>)>,
    income: &Vec<(Option<String>, Option<String>)>,
    account: &Vec<(Option<String>, Option<String>)>,
) -> (r: String)
    ensures
        r@ == categories_md_spec(cat_row_views(expense@), cat_row_views(income@), cat_row_views(account@)),
{
    let mut out: Vec<char> = Vec::new();
    push_str(&mut out, "# 账单分类体系\n\n");
    push_md_section(&mut out, "支出分类", expense);
    push_md_section(&mut out, "收入分类", income);
    push_md_section(&mut out, "账户分类", account);
    assert(out@ =~= categories_md_spec(cat_row_views(expense@), cat_row_views(income@), cat_row_views(account@)));
    string_of(out.as_slice())
}

} // verus!
