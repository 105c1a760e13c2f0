use zhangji::chart::{gap_labels, parse_i32};
use zhangji::stats::{
    account_group, account_names, bucket_len, group_of, lex_less, pie_expr, postings, sum_tx_type,
};

fn s(v: &[&str]) -> Vec<String> {
    v.iter().map(|x| x.to_string()).collect()
}

fn some(x: &str) -> Option<String> {
    Some(x.to_string())
}

#[test]
fn postings_by_type() {
    assert_eq!(postings("支出", &some("现金"), &some("银行卡")), vec![("现金".to_string(), -1)]);
    assert_eq!(postings("报销", &some("现金"), &None), vec![("现金".to_string(), -1)]);
    assert_eq!(postings("收入", &some("现金"), &some("银行卡")), vec![("银行卡".to_string(), 1)]);
    assert_eq!(postings("余额变更", &some("现金"), &some("")), vec![("现金".to_string(), 1)]);
    assert_eq!(postings("债权变更", &None, &some("应收款项")), vec![("应收款项".to_string(), 1)]);
    assert_eq!(postings("支出", &some(""), &None), vec![]);
    assert_eq!(postings("其他", &some("现金"), &some("银行卡")), vec![]);
}

#[test]
fn transfer_moves_money_between_accounts() {
    let p = postings("转账", &some("银行卡"), &some("支付宝余额"));
    assert_eq!(p, vec![("银行卡".to_string(), -1), ("支付宝余额".to_string(), 1)]);
    assert_eq!(p.iter().map(|x| x.1).sum::<i64>(), 0);
    let q = postings("代付", &some("信用卡"), &None);
    assert_eq!(q, vec![("信用卡".to_string(), -1)]);
}

#[test]
fn account_groups() {
    let roots = vec![(1, "现金账户".to_string()), (2, "虚拟账户".to_string())];
    assert_eq!(account_group(&roots, Some(2), 0), Some("虚拟账户".to_string()));
    assert_eq!(account_group(&roots, None, 0), Some("未分组".to_string()));
    assert_eq!(account_group(&roots, None, 3), None);
    assert_eq!(account_group(&roots, Some(9), 1), None);
    assert_eq!(account_group(&roots, Some(9), 0), Some("未分组".to_string()));
    let meta = vec![("现金".to_string(), "现金账户".to_string()), ("现金".to_string(), "其他".to_string())];
    assert_eq!(group_of(&meta, "现金"), "其他");
    assert_eq!(group_of(&meta, "银行卡"), "未分组");
}

#[test]
fn account_names_sorted_once() {
    let a = s(&["银行卡", "现金", "b"]);
    let b = s(&["现金", "a", "ab", "银行卡"]);
    let mut want = s(&["银行卡", "现金", "b", "a", "ab"]);
    want.sort();
    assert_eq!(account_names(&a, &b), want);
    assert!(account_names(&vec![], &vec![]).is_empty());
}

#[test]
fn lexicographic_order() {
    let x: Vec<char> = "ab".chars().collect();
    let y: Vec<char> = "abc".chars().collect();
    let z: Vec<char> = "b".chars().collect();
    assert!(lex_less(&x, &y));
    assert!(!lex_less(&y, &x));
    assert!(lex_less(&y, &z));
    assert!(!lex_less(&x, &x));
}

#[test]
fn small_choices() {
    assert_eq!(bucket_len("day"), 10);
    assert_eq!(bucket_len("month"), 7);
    assert_eq!(bucket_len("year"), 4);
    assert_eq!(bucket_len("week"), 4);
    assert_eq!(pie_expr("merchant"), "IFNULL(NULLIF(merchant,''),'（无商家）')");
    assert_eq!(pie_expr("l2"), "IFNULL(NULLIF(l2,''),'未分类')");
    assert_eq!(pie_expr("whatever"), "IFNULL(NULLIF(l1,''),'未分类')");
    assert_eq!(sum_tx_type("income"), "收入");
    assert_eq!(sum_tx_type("expense"), "支出");
}

#[test]
fn gap_labels_days() {
    assert_eq!(gap_labels("day", "2024-02-27", "2024-03-02"), s(&["2024-02-27", "2024-02-28", "2024-02-29", "2024-03-01", "2024-03-02"]));
    assert_eq!(gap_labels("day", "2023-12-31", "2024-01-01"), s(&["2023-12-31", "2024-01-01"]));
    assert!(gap_labels("day", "2024-03-02", "2024-03-01").is_empty());
}

#[test]
fn gap_labels_months_and_years() {
    assert_eq!(gap_labels("month", "2023-11", "2024-02"), s(&["2023-11", "2023-12", "2024-01", "2024-02"]));
    assert_eq!(gap_labels("year", "2021", "2024"), s(&["2021", "2022", "2023", "2024"]));
    assert!(gap_labels("year", "20x1", "2024").is_empty());
}

#[test]
fn gap_labels_stop_after_800_steps() {
    let v = gap_labels("day", "2020-01-01", "2024-12-31");
    assert_eq!(v.len(), 800);
    assert_eq!(v[0], "2020-01-01");
}

#[test]
fn parse_i32_like_std() {
    let p = |t: &str| parse_i32(&t.chars().collect::<Vec<char>>());
    assert_eq!(p("2024"), Some(2024));
    assert_eq!(p("+7"), Some(7));
    assert_eq!(p("-2147483648"), Some(i32::MIN));
    assert_eq!(p("2147483648"), None);
    assert_eq!(p("-"), None);
    assert_eq!(p(""), None);
    assert_eq!(p("1a"), None);
    for t in ["0", "-15", "+2147483647", "99999999999"] {
        assert_eq!(p(t), t.parse::<i32>().ok());
    }
}
