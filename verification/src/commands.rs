//! The decisions of the application's commands that are not about the
//! category tree: which data a clear removes, which images may serve as
//! background, the key of a transaction typed in by hand, export file
//! kinds, chart images, the data a new ledger starts with, and the
//! counters of a preset import.
use vstd::prelude::*;

use base64::Engine;

use crate::datetime::{dec, push_dec};
use crate::importer::{lit_views, str_views};
use crate::models::opt_view;
use crate::rules::{lowercase, to_lowercase};
use crate::text::{chars_of, push_all, push_str, str_eq, string_of};

verus! {

// ---------------------------------------------------------------------
// Lists of names
// ---------------------------------------------------------------------

/// Owned copies of a list of names.
pub fn owned_all(names: &[&str]) -> (r: Vec<String>)
    ensures
        str_views(r@) == lit_views(names@),
{
    let mut out: Vec<String> = Vec::new();
    let mut i: usize = 0;
    while i < names.len()
        invariant
            i <= names@.len(),
            out@.len() == i,
            forall|k: int| 0 <= k < i ==> (#[trigger] out@[k])@ == names@[k]@,
        decreases names@.len() - i,
    {
        let s = names[i].to_owned();
        out.push(s);
        i = i + 1;
    }
    assert(str_views(out@) =~= lit_views(names@));
    out
}

// ---------------------------------------------------------------------
// Clearing data
// ---------------------------------------------------------------------

/// A clear removes the transactions ("tx") or everything the user made
/// ("all"); any other scope is refused.
pub open spec fn clear_scope_spec(scope: Seq<char>) -> Result<(), Seq<char>> {
    if scope == "tx"@ || scope == "all"@ {
        Ok(())
    } else {
        Err("未知的数据清除范围"@)
    }
}

pub open spec fn unit_view(r: Result<(), String>) -> Result<(), Seq<char>> {
    match r {
        Ok(()) => Ok(()),
        Err(e) => Err(e@),
    }
}

pub fn check_clear_scope(scope: &str) -> (r: Result<(), String>)
    ensures
        unit_view(r) == clear_scope_spec(scope@),
{
    if str_eq(scope, "tx") || str_eq(scope, "all") {
        Ok(())
    } else {
        Err("未知的数据清除范围".to_owned())
    }
}

// ---------------------------------------------------------------------
// Background images
// ---------------------------------------------------------------------

/// The image types a background may have.
pub open spec fn background_exts() -> Seq<Seq<char>> {
    seq!["png"@, "jpg"@, "jpeg"@, "webp"@, "bmp"@, "gif"@]
}

pub fn background_ext_list() -> (r: Vec<String>)
    ensures
        str_views(r@) == background_exts(),
{
    let names: [&str; 6] = ["png", "jpg", "jpeg", "webp", "bmp", "gif"];
    let r = owned_all(names.as_slice());
    assert(lit_views(names@) =~= background_exts());
    r
}

/// The file name a background of this type is stored under.
pub open spec fn background_file_spec(ext: Seq<char>) -> Seq<char> {
    "background."@ + ext
}

/// The file names a background may have, one per image type.
pub fn background_files() -> (r: Vec<String>)
    ensures
        str_views(r@) == background_exts().map_values(|e: Seq<char>| background_file_spec(e)),
{
    let exts = background_ext_list();
    let mut out: Vec<String> = Vec::new();
    let mut i: usize = 0;
    while i < exts.len()
        invariant
            i <= exts@.len(),
            str_views(exts@) == background_exts(),
            out@.len() == i,
            forall|k: int| 0 <= k < i ==> (#[trigger] out@[k])@ == background_file_spec(exts@[k]@),
        decreases exts@.len() - i,
    {
        let mut v = chars_of("background.");
        let e = chars_of(exts[i].as_str());
        push_all(&mut v, e.as_slice());
        out.push(string_of(v.as_slice()));
        i = i + 1;
    }
    assert(str_views(out@) =~= background_exts().map_values(|e: Seq<char>| background_file_spec(e)));
    out
}

/// The type of an image chosen as background, from its file extension
/// (`None` when the path has none): lower-cased, and one of the image
/// types; otherwise an error.
pub open spec fn background_ext_spec(ext: Option<Seq<char>>) -> Result<Seq<char>, Seq<char>> {
    match ext {
        None => Err("无法识别文件类型"@),
        Some(e) => if background_exts().contains(lowercase(e)) {
            Ok(lowercase(e))
        } else {
            Err("仅支持 png / jpg / webp / bmp / gif 图片"@)
        },
    }
}

pub open spec fn text_result_view(r: Result<String, String>) -> Result<Seq<char>, Seq<char>> {
    match r {
        Ok(x) => Ok(x@),
        Err(e) => Err(e@),
    }
}

/// The type of a background image from its extension already lowercased:
/// one of the image types, or an error.
pub open spec fn background_ext_lc_spec(ext_lc: Seq<char>) -> Result<Seq<char>, Seq<char>> {
    if background_exts().contains(ext_lc) {
        Ok(ext_lc)
    } else {
        Err("仅支持 png / jpg / webp / bmp / gif 图片"@)
    }
}

pub fn background_ext_lc(ext_lc: String) -> (r: Result<String, String>)
    ensures
        text_result_view(r) == background_ext_lc_spec(ext_lc@),
{
    let exts = background_ext_list();
    let mut i: usize = 0;
    while i < exts.len()
        invariant
            i <= exts@.len(),
            str_views(exts@) == background_exts(),
            forall|k: int| 0 <= k < i ==> (#[trigger] exts@[k])@ != ext_lc@,
        decreases exts@.len() - i,
    {
        if str_eq(exts[i].as_str(), ext_lc.as_str()) {
            assert(str_views(exts@)[i as int] == ext_lc@);
            assert(background_exts()[i as int] == ext_lc@);
            return Ok(ext_lc);
        }
        i = i + 1;
    }
    proof {
        if background_exts().contains(ext_lc@) {
            let k = choose|k: int| 0 <= k < background_exts().len() && background_exts()[k] == ext_lc@;
            assert(str_views(exts@)[k] == exts@[k]@);
            assert(false);
        }
    }
    Err("仅支持 png / jpg / webp / bmp / gif 图片".to_owned())
}

/// The type of an image chosen as background, from the extension of its
/// path.
pub fn background_ext(ext: &Option<String>) -> (r: Result<String, String>)
    ensures
        text_result_view(r) == background_ext_spec(opt_view(*ext)),
{
    match ext {
        None => Err("无法识别文件类型".to_owned()),
        Some(e) => background_ext_lc(to_lowercase(e.as_str())),
    }
}

// ---------------------------------------------------------------------
// Transactions typed in by hand
// ---------------------------------------------------------------------

/// An integer as "{}" writes it.
pub open spec fn i64_text(n: int) -> Seq<char> {
    if n < 0 {
        seq!['-'] + dec((-n) as nat)
    } else {
        dec(n as nat)
    }
}

/// The key that keeps a transaction typed in by hand from being stored
/// twice: its number and batch when it has a number; else its type, time,
/// amount (two decimals), merchant and the moment it was saved (in
/// nanoseconds).
pub open spec fn manual_fingerprint_spec(
    tx_no: Option<Seq<char>>,
    batch: Seq<char>,
    tx_type: Seq<char>,
    tx_time: Seq<char>,
    amount: Seq<char>,
    merchant: Option<Seq<char>>,
    nanos: i64,
) -> Seq<char> {
    let no = match tx_no {
        Some(n) => n,
        None => seq![],
    };
    if no.len() > 0 {
        "manual|"@ + no + "|"@ + batch
    } else {
        "manual|"@ + tx_type + "|"@ + tx_time + "|"@ + amount + "|"@ + match merchant {
            Some(m) => m,
            None => seq![],
        } + "|"@ + i64_text(nanos as int)
    }
}

proof fn lemma_i64_text_injective(a: int, b: int)
    requires
        i64_text(a) == i64_text(b),
    ensures
        a == b,
{
    crate::datetime::lemma_dec_digits(if a < 0 { (-a) as nat } else { a as nat });
    crate::datetime::lemma_dec_digits(if b < 0 { (-b) as nat } else { b as nat });
    if a < 0 && b < 0 {
        assert(i64_text(a).drop_first() =~= dec((-a) as nat));
        assert(i64_text(b).drop_first() =~= dec((-b) as nat));
    } else if a < 0 {
        assert(i64_text(a)[0] == '-');
        assert(dec(b as nat)[0] == i64_text(b)[0]);
    } else if b < 0 {
        assert(i64_text(b)[0] == '-');
        assert(dec(a as nat)[0] == i64_text(a)[0]);
    }
}

/// A transaction typed in by hand with a number is known by its number
/// and batch alone; one without a number is known by its type, time,
/// amount and merchant together with the moment it was saved, so two
/// saved at different moments never share a key.
pub proof fn law_manual_keys(
    tx_no: Option<Seq<char>>,
    batch: Seq<char>,
    tx_type: Seq<char>,
    tx_time: Seq<char>,
    amount: Seq<char>,
    merchant: Option<Seq<char>>,
    nanos: i64,
    other_nanos: i64,
)
    ensures
        tx_no is Some && tx_no->0.len() > 0 ==> manual_fingerprint_spec(tx_no, batch, tx_type, tx_time, amount, merchant, nanos)
            == "manual|"@ + tx_no->0 + "|"@ + batch,
        (tx_no is None || tx_no == Some(Seq::<char>::empty())) && nanos != other_nanos ==> manual_fingerprint_spec(
            tx_no,
            batch,
            tx_type,
            tx_time,
            amount,
            merchant,
            nanos,
        ) != manual_fingerprint_spec(tx_no, batch, tx_type, tx_time, amount, merchant, other_nanos),
{
    if (tx_no is None || tx_no == Some(Seq::<char>::empty())) && nanos != other_nanos {
        let m = match merchant {
            Some(m) => m,
            None => seq![],
        };
        let pre = "manual|"@ + tx_type + "|"@ + tx_time + "|"@ + amount + "|"@ + m + "|"@;
        let k1 = manual_fingerprint_spec(tx_no, batch, tx_type, tx_time, amount, merchant, nanos);
        let k2 = manual_fingerprint_spec(tx_no, batch, tx_type, tx_time, amount, merchant, other_nanos);
        assert(k1 =~= pre + i64_text(nanos as int));
        assert(k2 =~= pre + i64_text(other_nanos as int));
        if k1 == k2 {
            assert(k1.subrange(pre.len() as int, k1.len() as int) =~= i64_text(nanos as int));
            assert(k2.subrange(pre.len() as int, k2.len() as int) =~= i64_text(other_nanos as int));
            lemma_i64_text_injective(nanos as int, other_nanos as int);
        }
    }
}

fn push_i64(out: &mut Vec<char>, n: i64)
    ensures
        final(out)@ == old(out)@ + i64_text(n as int),
{
    if n < 0 {
        let ghost start = out@;
        out.push('-');
        let a: i128 = -(n as i128);
        push_dec(out, a as u64);
        assert(out@ =~= start + i64_text(n as int));
    } else {
        push_dec(out, n as u64);
    }
}

/// The key of a transaction typed in by hand (`amount` is its amount
/// written with two decimals, `nanos` the time of saving).
pub fn manual_fingerprint(
    tx_no: &Option<String>,
    batch: &str,
    tx_type: &str,
    tx_time: &str,
    amount: &str,
    merchant: &Option<String>,
    nanos: i64,
) -> (r: String)
    ensures
        r@ == manual_fingerprint_spec(opt_view(*tx_no), batch@, tx_type@, tx_time@, amount@, opt_view(*merchant), nanos),
{
    let mut out: Vec<char> = Vec::new();
    let has_no = match tx_no {
        Some(n) => n.unicode_len() > 0,
        None => false,
    };
    if has_no {
        let n = match tx_no {
            Some(n) => n.as_str(),
            None => "",
        };
        push_str(&mut out, "manual|");
        push_str(&mut out, n);
        push_str(&mut out, "|");
        push_str(&mut out, batch);
    } else {
        push_str(&mut out, "manual|");
        push_str(&mut out, tx_type);
        push_str(&mut out, "|");
        push_str(&mut out, tx_time);
        push_str(&mut out, "|");
        push_str(&mut out, amount);
        push_str(&mut out, "|");
        match merchant {
            Some(m) => push_str(&mut out, m.as_str()),
            None => {},
        }
        push_str(&mut out, "|");
        push_i64(&mut out, nanos);
        proof {
            reveal_strlit("");
        }
    }
    assert(out@ =~= manual_fingerprint_spec(
        opt_view(*tx_no),
        batch@,
        tx_type@,
        tx_time@,
        amount@,
        opt_view(*merchant),
        nanos,
    ));
    string_of(out.as_slice())
}

/// A transaction typed in by hand keeps its source, or is marked
/// "manual".
pub fn manual_source(source: &Option<String>) -> (r: String)
    ensures
        r@ == (match opt_view(*source) {
            Some(s) => s,
            None => "manual"@,
        }),
{
    match source {
        Some(s) => s.clone(),
        None => "manual".to_owned(),
    }
}

// ---------------------------------------------------------------------
// Export file kinds
// ---------------------------------------------------------------------

/// Transactions export to CSV when asked for "csv", else to a workbook.
pub fn export_ext(format: &str) -> (r: &'static str)
    ensures
        r@ == (if format@ == "csv"@ { "csv"@ } else { "xlsx"@ }),
{
    if str_eq(format, "csv") {
        "csv"
    } else {
        "xlsx"
    }
}

/// The category tree exports to text when asked for "txt", else (and by
/// default) to Markdown.
pub fn category_export_ext(format: &Option<String>) -> (r: &'static str)
    ensures
        r@ == (if opt_view(*format) == Some("txt"@) { "txt"@ } else { "md"@ }),
{
    match format {
        Some(f) => if str_eq(f.as_str(), "txt") {
            "txt"
        } else {
            "md"
        },
        None => "md",
    }
}

// ---------------------------------------------------------------------
// Chart images
// ---------------------------------------------------------------------

/// What the standard Base64 engine of the `base64` crate decodes from a
/// text: the bytes, or the text of its error.
pub uninterp spec fn base64_standard(s: Seq<char>) -> Result<Seq<u8>, Seq<char>>;

pub open spec fn bytes_view(r: Result<Vec<u8>, String>) -> Result<Seq<u8>, Seq<char>> {
    match r {
        Ok(b) => Ok(b@),
        Err(e) => Err(e@),
    }
}

/// `base64::engine::general_purpose::STANDARD.decode`: the decoded bytes,
/// or the error written out. Which texts it accepts, and what it gives,
/// is not stated here (it is named).
#[verifier::external_body]
fn decode_base64(s: &str) -> (r: Result<Vec<u8>, String>)
    ensures
        bytes_view(r) == base64_standard(s@),
{
    match base64::engine::general_purpose::STANDARD.decode(s) {
        Ok(b) => Ok(b),
        Err(e) => Err(e.to_string()),
    }
}

/// The bytes of a chart image, or the error shown for data that is not
/// Base64.
pub open spec fn image_bytes_spec(decoded: Result<Seq<u8>, Seq<char>>) -> Result<Seq<u8>, Seq<char>> {
    match decoded {
        Ok(b) => Ok(b),
        Err(e) => Err("图片数据无效: "@ + e),
    }
}

/// What the chart image export makes of the decoder's result.
pub fn image_bytes_from(decoded: Result<Vec<u8>, String>) -> (r: Result<Vec<u8>, String>)
    ensures
        bytes_view(r) == image_bytes_spec(bytes_view(decoded)),
{
    match decoded {
        Ok(b) => Ok(b),
        Err(e) => {
            let mut out = chars_of("图片数据无效: ");
            let ec = chars_of(e.as_str());
            push_all(&mut out, ec.as_slice());
            Err(string_of(out.as_slice()))
        },
    }
}

/// The bytes of a chart image sent as standard Base64.
pub fn image_bytes(data_base64: &str) -> (r: Result<Vec<u8>, String>)
    ensures
        bytes_view(r) == image_bytes_spec(base64_standard(data_base64@)),
{
    image_bytes_from(decode_base64(data_base64))
}

// ---------------------------------------------------------------------
// The data a new ledger starts with
// ---------------------------------------------------------------------

/// The account groups and accounts of a new ledger.
pub open spec fn default_account_tree() -> Seq<(Seq<char>, Seq<Seq<char>>)> {
    seq![
        ("现金账户"@, seq!["现金"@]),
        ("储蓄账户"@, seq!["银行卡"@]),
        ("虚拟账户"@, seq!["支付宝余额"@, "微信钱包"@]),
        ("负债账户"@, seq!["应付款项"@]),
        ("债权账户"@, seq!["应收款项"@]),
        ("信用账户"@, seq!["信用卡"@]),
        ("投资账户"@, seq!["基金账户"@, "股票账户"@]),
    ]
}

/// The first-level expense categories of a new ledger.
pub open spec fn default_expense() -> Seq<Seq<char>> {
    seq![
        "兴趣爱好"@,
        "食品饮料"@,
        "购物支出"@,
        "行车交通"@,
        "生活"@,
        "医疗保健"@,
        "人情往来"@,
        "金融保险"@,
        "统计未确认"@,
    ]
}

/// The first-level income categories of a new ledger.
pub open spec fn default_income() -> Seq<Seq<char>> {
    seq!["职业收入"@, "其他收入"@]
}

pub fn default_accounts() -> (r: Vec<(String, Vec<String>)>)
    ensures
        r@.map_values(|p: (String, Vec<String>)| (p.0@, str_views(p.1@))) == default_account_tree(),
{
    let mut out: Vec<(String, Vec<String>)> = Vec::new();
    let a0: [&str; 1] = ["现金"];
    let a1: [&str; 1] = ["银行卡"];
    let a2: [&str; 2] = ["支付宝余额", "微信钱包"];
    let a3: [&str; 1] = ["应付款项"];
    let a4: [&str; 1] = ["应收款项"];
    let a5: [&str; 1] = ["信用卡"];
    let a6: [&str; 2] = ["基金账户", "股票账户"];
    out.push(("现金账户".to_owned(), owned_all(a0.as_slice())));
    out.push(("储蓄账户".to_owned(), owned_all(a1.as_slice())));
    out.push(("虚拟账户".to_owned(), owned_all(a2.as_slice())));
    out.push(("负债账户".to_owned(), owned_all(a3.as_slice())));
    out.push(("债权账户".to_owned(), owned_all(a4.as_slice())));
    out.push(("信用账户".to_owned(), owned_all(a5.as_slice())));
    out.push(("投资账户".to_owned(), owned_all(a6.as_slice())));
    assert(lit_views(a0@) =~= seq!["现金"@]);
    assert(lit_views(a1@) =~= seq!["银行卡"@]);
    assert(lit_views(a2@) =~= seq!["支付宝余额"@, "微信钱包"@]);
    assert(lit_views(a3@) =~= seq!["应付款项"@]);
    assert(lit_views(a4@) =~= seq!["应收款项"@]);
    assert(lit_views(a5@) =~= seq!["信用卡"@]);
    assert(lit_views(a6@) =~= seq!["基金账户"@, "股票账户"@]);
    assert(out@.map_values(|p: (String, Vec<String>)| (p.0@, str_views(p.1@))) =~= default_account_tree());
    out
}

pub fn default_expense_roots() -> (r: Vec<String>)
    ensures
        str_views(r@) == default_expense(),
{
    let names: [&str; 9] = [
        "兴趣爱好",
        "食品饮料",
        "购物支出",
        "行车交通",
        "生活",
        "医疗保健",
        "人情往来",
        "金融保险",
        "统计未确认",
    ];
    let r = owned_all(names.as_slice());
    assert(lit_views(names@) =~= default_expense());
    r
}

pub fn default_income_roots() -> (r: Vec<String>)
    ensures
        str_views(r@) == default_income(),
{
    let names: [&str; 2] = ["职业收入", "其他收入"];
    let r = owned_all(names.as_slice());
    assert(lit_views(names@) =~= default_income());
    r
}

// ---------------------------------------------------------------------
// Applying a preset
// ---------------------------------------------------------------------

/// The sort position after the greatest one present (first when there is
/// none, or it cannot be read).
pub fn next_sort(max_sort: Option<i64>) -> (r: i64)
    requires
        max_sort matches Some(m) ==> m < i64::MAX,
    ensures
        r == (match max_sort {
            Some(m) => m + 1,
            None => 0,
        }),
{
    match max_sort {
        Some(m) => m + 1,
        None => 0,
    }
}

/// What applying a preset entry does about its first level.
#[derive(Debug, Clone, PartialEq, Eq)]
pub enum RootStep {
    /// The first level is there, with this id.
    Existing(i64),
    /// The first level is stored anew, at this sort position.
    Insert(i64),
}

/// The first level of a preset entry: the one found, or a new one after
/// the greatest sort position among the first levels of its kind (first
/// when there is none, or it cannot be read).
pub fn preset_root(found: Option<i64>, max_sort: Option<i64>) -> (r: RootStep)
    requires
        max_sort matches Some(m) ==> m < i64::MAX,
    ensures
        r == (match found {
            Some(id) => RootStep::Existing(id),
            None => RootStep::Insert(
                match max_sort {
                    Some(m) => (m + 1) as i64,
                    None => 0,
                },
            ),
        }),
{
    match found {
        Some(id) => RootStep::Existing(id),
        None => RootStep::Insert(next_sort(max_sort)),
    }
}

/// The count of categories a preset added, after one more entry: a
/// second-level entry counts the rows it inserted, a first-level entry
/// counts one.
pub fn count_category(count: i64, has_l2: bool, inserted: i64) -> (r: i64)
    requires
        0 <= inserted <= 1,
        0 <= count < i64::MAX,
    ensures
        r == count + (if has_l2 { inserted } else { 1 }),
{
    if has_l2 {
        count + inserted
    } else {
        count + 1
    }
}

} // verus!
