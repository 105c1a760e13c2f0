use zhangji::export::{categories_md, categories_txt, cell_write, columns, render_csv, rows_of_type, sheet_names, CellWrite};
use zhangji::query::{build_where, page_window};
use zhangji::models::TxFilter;

fn s(v: &[&str]) -> Vec<String> {
    v.iter().map(|x| x.to_string()).collect()
}

fn row(t: &str, remark: &str) -> Vec<String> {
    let mut r = vec![String::new(); 15];
    r[0] = t.to_string();
    r[1] = "2024-01-02 12:00:00".to_string();
    r[7] = "12.5".to_string();
    r[13] = remark.to_string();
    r
}

#[test]
fn csv_text_with_bom_header_and_quoting() {
    let rows = vec![row("支出", "a,b"), row("收入", "say \"hi\"")];
    let text = render_csv(&rows);
    let header = columns().join(",");
    let want = format!(
        "\u{FEFF}{header}\n支出,2024-01-02 12:00:00,,,,,,12.5,,,,,,\"a,b\",\n收入,2024-01-02 12:00:00,,,,,,12.5,,,,,,\"say \"\"hi\"\"\",\n"
    );
    assert_eq!(text, want);
    assert!(header.starts_with("交易类型,日期,一级分类"));
    assert_eq!(render_csv(&vec![]), format!("\u{FEFF}{header}\n"));
}

#[test]
fn csv_quotes_line_breaks() {
    let text = render_csv(&vec![vec!["x\ny".to_string()]]);
    assert!(text.ends_with("\"x\ny\"\n"));
}

#[test]
fn workbook_sheets() {
    assert_eq!(sheet_names(), s(&["支出", "收入", "转账", "报销", "代付", "余额变更", "债权变更"]));
    let rows = vec![row("支出", ""), row("收入", ""), row("支出", "")];
    assert_eq!(rows_of_type(&rows, "支出"), vec![0, 2]);
    assert_eq!(rows_of_type(&rows, "转账"), Vec::<usize>::new());
    assert_eq!(cell_write(7, ""), CellWrite::Number);
    assert_eq!(cell_write(1, "x"), CellWrite::Text);
    assert_eq!(cell_write(1, ""), CellWrite::Skip);
}

fn cats(v: &[(Option<&str>, Option<&str>)]) -> Vec<(Option<String>, Option<String>)> {
    v.iter().map(|(a, b)| (a.map(|x| x.to_string()), b.map(|x| x.to_string()))).collect()
}

#[test]
fn category_outline_text() {
    let e = cats(&[(Some("食品"), Some("早餐")), (Some("食品"), Some("午餐")), (Some("交通"), None)]);
    let i = cats(&[]);
    let a = cats(&[(None, Some("现金"))]);
    assert_eq!(
        categories_txt(&e, &i, &a),
        "支出\n  食品\n    早餐\n    午餐\n  交通\n\n账户\n    现金\n\n"
    );
}

#[test]
fn category_outline_markdown() {
    let e = cats(&[(Some("食品"), Some("早餐")), (Some("交通"), None)]);
    let none = cats(&[]);
    assert_eq!(
        categories_md(&e, &none, &none),
        "# 账单分类体系\n\n## 支出分类\n\n| 一级 | 二级 |\n|------|------|\n| 食品 | 早餐 |\n| 交通 | （留空） |\n\n"
    );
    assert_eq!(categories_md(&none, &none, &none), "# 账单分类体系\n\n");
}

fn filter() -> TxFilter {
    TxFilter {
        tx_type: None,
        l1: None,
        l2: None,
        merchant: None,
        keyword: None,
        date_from: None,
        date_to: None,
        min_amount: None,
        max_amount: None,
        page: 0,
        page_size: 0,
    }
}

#[test]
fn where_clause_of_filters() {
    let (w, p) = build_where(&filter());
    assert_eq!(w, "");
    assert!(p.is_empty());
    let mut f = filter();
    f.tx_type = Some("全部".to_string());
    assert_eq!(build_where(&f).0, "");
    f.tx_type = Some("支出".to_string());
    f.merchant = Some("美团".to_string());
    f.date_from = Some("2024-01-01".to_string());
    f.max_amount = Some("100".to_string());
    let (w, p) = build_where(&f);
    assert_eq!(w, "WHERE tx_type = ?1 AND merchant LIKE ?2 AND tx_time >= ?3 AND amount <= CAST(?4 AS REAL)");
    assert_eq!(p, s(&["支出", "%美团%", "2024-01-01 00:00:00", "100"]));
}

#[test]
fn where_clause_keyword() {
    let mut f = filter();
    f.keyword = Some("咖啡".to_string());
    f.date_to = Some("2024-12-31".to_string());
    let (w, p) = build_where(&f);
    assert_eq!(
        w,
        "WHERE (merchant LIKE ?1 OR remark LIKE ?1 OR l1 LIKE ?1 OR l2 LIKE ?1 OR project LIKE ?1 OR member LIKE ?1 OR account_out LIKE ?1 OR account_in LIKE ?1) AND tx_time <= ?2"
    );
    assert_eq!(p, s(&["%咖啡%", "2024-12-31 23:59:59"]));
}

#[test]
fn page_windows() {
    assert_eq!(page_window(0, 0), (50, 0));
    assert_eq!(page_window(3, 20), (20, 40));
    assert_eq!(page_window(-1, -5), (50, 0));
}
