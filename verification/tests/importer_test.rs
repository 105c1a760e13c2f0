use zhangji::importer::{
    amount_text, detect_format_from, find_ledger_header, find_wechat_header, fingerprint, header_index,
    kind_of_tx_type, ledger_columns, ledger_header_found, ledger_row, opt_nonempty, sheet_tx_type,
    some_or_default, tally_insert, tally_pending, tally_read, tally_sheet, tally_skip, wechat_column,
    wechat_columns, wechat_remark, wechat_route, wechat_row, wechat_tx_type, InsertOutcome, LedgerRow,
    WechatRoute, WechatRow,
};
use zhangji::models::{ImportReport, Rule, SheetStat, TxFields};

fn s(v: &[&str]) -> Vec<String> {
    v.iter().map(|x| x.to_string()).collect()
}

fn empty_fields() -> TxFields {
    TxFields {
        tx_type: "支出".to_string(),
        tx_time: "2024-01-02 12:00:00".to_string(),
        l1: None,
        l2: None,
        l3: None,
        account_out: None,
        account_in: None,
        currency: None,
        member: None,
        merchant: None,
        project_category: None,
        project: None,
        booker: None,
        remark: None,
        tx_no: None,
        source: None,
        source_file: None,
    }
}

fn report() -> ImportReport {
    ImportReport {
        file: "f.xlsx".to_string(),
        detected_format: "wechat".to_string(),
        total_rows: 0,
        inserted: 0,
        duplicates: 0,
        skipped: 0,
        pending: 0,
        pending_merchants: vec![],
        sheet_stats: vec![],
        batch_id: "b".to_string(),
    }
}

fn rules() -> Vec<Rule> {
    vec![Rule {
        id: 1,
        keyword: "美团".to_string(),
        kind: "expense".to_string(),
        l1: "食品饮料".to_string(),
        l2: Some("早午晚餐".to_string()),
        priority: 0,
        enabled: true,
        source: "preset".to_string(),
    }]
}

#[test]
fn optional_cells() {
    assert_eq!(opt_nonempty(String::new()), None);
    assert_eq!(opt_nonempty("x".to_string()), Some("x".to_string()));
    assert_eq!(some_or_default(String::new(), "CNY"), Some("CNY".to_string()));
    assert_eq!(some_or_default("USD".to_string(), "CNY"), Some("USD".to_string()));
}

#[test]
fn amount_text_cleans_cells() {
    assert_eq!(amount_text("¥ 1,234.50"), Some("1234.50".to_string()));
    assert_eq!(amount_text("￥-3"), Some("-3".to_string()));
    assert_eq!(amount_text("$$5"), Some("5".to_string()));
    assert_eq!(amount_text(" / "), None);
    assert_eq!(amount_text("#N/A"), None);
    assert_eq!(amount_text("  "), None);
}

#[test]
fn fingerprint_prefers_transaction_number() {
    let mut f = empty_fields();
    f.merchant = Some("美团".to_string());
    f.account_out = Some("零钱".to_string());
    assert_eq!(fingerprint(&f, "25.00"), "ss|支出|2024-01-02 12:00:00|25.00|美团|零钱|");
    f.tx_no = Some(String::new());
    assert_eq!(fingerprint(&f, "25.00"), "ss|支出|2024-01-02 12:00:00|25.00|美团|零钱|");
    f.tx_no = Some("42".to_string());
    assert_eq!(fingerprint(&f, "25.00"), "wx|42");
}

#[test]
fn header_index_exact_then_loose() {
    let h = s(&["交易类型", "日期", "一级分类", "账户", "金额(元)"]);
    assert_eq!(header_index(&h, &["日期", "交易时间"]), Some(1));
    assert_eq!(header_index(&h, &["分类", "一级分类"]), Some(2));
    assert_eq!(header_index(&h, &["金额"]), Some(4));
    assert_eq!(header_index(&h, &["转入账户"]), Some(3));
    assert_eq!(header_index(&h, &["成员"]), None);
}

#[test]
fn wechat_column_exact_then_within() {
    let h = s(&["交易时间", "金额(元)", "备注说明"]);
    assert_eq!(wechat_column(&h, &["金额(元)", "金额"]), Some(1));
    assert_eq!(wechat_column(&h, &["备注"]), Some(2));
    assert_eq!(wechat_column(&h, &["商品"]), None);
}

#[test]
fn sheet_types_by_name() {
    assert_eq!(sheet_tx_type("2024支出"), Some("支出".to_string()));
    assert_eq!(sheet_tx_type("余额变更记录"), Some("余额变更".to_string()));
    assert_eq!(sheet_tx_type("说明"), None);
}

#[test]
fn ledger_header_and_columns() {
    let rows = vec![
        s(&["随手记", "", ""]),
        s(&["日期", "金额"]),
        s(&["交易类型", "日期", "一级分类", "二级分类", "转出账户", "转入账户", "账户币种", "金额", "成员", "商家", "项目分类", "项目", "记账人", "备注"]),
    ];
    assert_eq!(find_ledger_header(&rows), Some(2));
    let cols = ledger_columns(&rows[2]);
    assert_eq!(cols.len(), 14);
    assert_eq!(
        cols,
        vec![Some(1), Some(2), Some(3), Some(4), Some(5), Some(6), Some(7), Some(8), Some(9), Some(10), Some(11), Some(12), Some(13), None]
    );
    assert!(ledger_header_found(&cols));
    assert_eq!(find_ledger_header(&vec![s(&["a", "b", "c"])]), None);
}

#[test]
fn ledger_columns_loose_account_match() {
    let h = s(&["交易类型", "日期", "一级分类", "二级分类", "账户", "账户币种", "金额"]);
    let cols = ledger_columns(&h);
    assert_eq!(cols[3], Some(4));
    assert_eq!(cols[4], Some(4));
    assert_eq!(cols[7], None);
    let no_amount = ledger_columns(&s(&["日期", "一级分类", "备注"]));
    assert!(!ledger_header_found(&no_amount));
}

#[test]
fn ledger_rows() {
    let header = s(&["交易类型", "日期", "一级分类", "二级分类", "转出账户", "转入账户", "账户币种", "金额", "成员", "商家", "项目分类", "项目", "记账人", "备注"]);
    let cols = ledger_columns(&header);
    let row = s(&["支出", "2024-01-02", "食品饮料", "", "现金", "", "", "12.5", "", "面馆", "", "", "", "午饭"]);
    match ledger_row("支出", &row, &cols, Some("2024-01-02 00:00:00".to_string()), true, "a.xlsx") {
        LedgerRow::Read(f) => {
            assert_eq!(f.tx_type, "支出");
            assert_eq!(f.tx_time, "2024-01-02 00:00:00");
            assert_eq!(f.l1, Some("食品饮料".to_string()));
            assert_eq!(f.l2, None);
            assert_eq!(f.account_out, Some("现金".to_string()));
            assert_eq!(f.account_in, None);
            assert_eq!(f.currency, Some("CNY".to_string()));
            assert_eq!(f.merchant, Some("面馆".to_string()));
            assert_eq!(f.remark, Some("午饭".to_string()));
            assert_eq!(f.tx_no, None);
            assert_eq!(f.source, Some("import:suishouji".to_string()));
            assert_eq!(f.source_file, Some("a.xlsx".to_string()));
        },
        other => panic!("unexpected {:?}", other),
    }
    assert_eq!(ledger_row("支出", &s(&["", ""]), &cols, None, false, "a"), LedgerRow::Blank);
    assert_eq!(ledger_row("支出", &s(&["x", ""]), &cols, None, true, "a"), LedgerRow::Skip);
    assert_eq!(ledger_row("支出", &row, &cols, Some("t".to_string()), false, "a"), LedgerRow::Skip);
}

fn wechat_header() -> Vec<String> {
    s(&["交易时间", "交易类型", "交易对方", "商品", "收/支", "金额(元)", "支付方式", "当前状态", "交易单号", "商户单号", "备注"])
}

#[test]
fn wechat_header_and_columns() {
    let rows = vec![s(&["微信支付账单明细"]), s(&["交易时间", "金额"]), wechat_header()];
    assert_eq!(find_wechat_header(&rows), Some(2));
    let c = wechat_columns(&wechat_header()).unwrap();
    assert_eq!((c.time, c.counterparty, c.goods, c.dir, c.amount), (0, 2, Some(3), 4, 5));
    assert_eq!((c.pay, c.status, c.txno, c.remark), (Some(6), Some(7), Some(8), Some(10)));
    assert_eq!(find_wechat_header(&vec![s(&["a"])]), None);
}

#[test]
fn wechat_columns_errors() {
    assert_eq!(wechat_columns(&s(&["交易对方"])).unwrap_err(), "缺少「交易时间」列");
    assert_eq!(wechat_columns(&s(&["交易时间"])).unwrap_err(), "缺少「交易对方」列");
    assert_eq!(wechat_columns(&s(&["交易时间", "交易对方"])).unwrap_err(), "缺少「收/支」列");
    assert_eq!(wechat_columns(&s(&["交易时间", "交易对方", "收/支"])).unwrap_err(), "缺少「金额」列");
}

#[test]
fn wechat_small_rules() {
    assert_eq!(wechat_tx_type("支出"), Some("支出"));
    assert_eq!(wechat_tx_type("收入"), Some("收入"));
    assert_eq!(wechat_tx_type("/"), None);
    assert_eq!(kind_of_tx_type("收入"), "income");
    assert_eq!(kind_of_tx_type("支出"), "expense");
    assert_eq!(wechat_remark("", "外卖", "支付成功"), "外卖");
    assert_eq!(wechat_remark("备注", "外卖", "已退款"), "备注 (已退款)");
    assert_eq!(wechat_remark("", "", "已退款"), "(已退款)");
    assert_eq!(wechat_remark("", "", ""), "");
}

#[test]
fn wechat_routes() {
    let r = rules();
    assert_eq!(
        wechat_route(&r, "expense", "美团", "", true),
        WechatRoute::Classified("食品饮料".to_string(), Some("早午晚餐".to_string()))
    );
    assert_eq!(wechat_route(&r, "expense", "新店", "", true), WechatRoute::Pending);
    assert_eq!(wechat_route(&r, "expense", "新店", "", false), WechatRoute::Fallback);
    assert_eq!(wechat_route(&r, "expense", "", "", true), WechatRoute::Fallback);
    assert_eq!(wechat_route(&r, "income", "美团", "", true), WechatRoute::Fallback);
}

#[test]
fn wechat_rows() {
    let r = rules();
    let c = wechat_columns(&wechat_header()).unwrap();
    let row = s(&["2024-01-02 12:00:00", "商户消费", "美团", "外卖订单", "支出", "¥25.00", "零钱", "支付成功", "4200001", "1001", "/"]);
    match wechat_row(&r, &c, &row, Some("2024-01-02 12:00:00".to_string()), true, true, "统计未确认", "w.xlsx") {
        WechatRow::Read(f, route) => {
            assert_eq!(route, WechatRoute::Classified("食品饮料".to_string(), Some("早午晚餐".to_string())));
            assert_eq!(f.tx_type, "支出");
            assert_eq!(f.l1, Some("食品饮料".to_string()));
            assert_eq!(f.l2, Some("早午晚餐".to_string()));
            assert_eq!(f.account_out, Some("零钱".to_string()));
            assert_eq!(f.account_in, None);
            assert_eq!(f.currency, Some("CNY".to_string()));
            assert_eq!(f.merchant, Some("美团".to_string()));
            assert_eq!(f.remark, Some("/".to_string()));
            assert_eq!(f.tx_no, Some("4200001".to_string()));
            assert_eq!(f.source, Some("import:wechat".to_string()));
            assert_eq!(f.source_file, Some("w.xlsx".to_string()));
        },
        other => panic!("unexpected {:?}", other),
    }
    let mut income = row.clone();
    income[4] = "收入".to_string();
    income[2] = "新店".to_string();
    match wechat_row(&r, &c, &income, Some("t".to_string()), true, false, "统计未确认", "w") {
        WechatRow::Read(f, route) => {
            assert_eq!(route, WechatRoute::Fallback);
            assert_eq!(f.l1, Some("统计未确认".to_string()));
            assert_eq!(f.account_in, Some("零钱".to_string()));
            assert_eq!(f.account_out, None);
        },
        other => panic!("unexpected {:?}", other),
    }
    match wechat_row(&r, &c, &income, Some("t".to_string()), true, true, "统计未确认", "w") {
        WechatRow::Read(f, route) => {
            assert_eq!(route, WechatRoute::Pending);
            assert_eq!(f.l1, None);
        },
        other => panic!("unexpected {:?}", other),
    }
    let mut neutral = row.clone();
    neutral[4] = "/".to_string();
    assert_eq!(wechat_row(&r, &c, &neutral, Some("t".to_string()), true, true, "x", "w"), WechatRow::Skip);
    assert_eq!(wechat_row(&r, &c, &row, Some("t".to_string()), false, true, "x", "w"), WechatRow::Skip);
    assert_eq!(wechat_row(&r, &c, &row, None, true, true, "x", "w"), WechatRow::Skip);
    assert_eq!(wechat_row(&r, &c, &s(&["", ""]), None, true, true, "x", "w"), WechatRow::Blank);
}

#[test]
fn report_counters() {
    let mut rep = report();
    tally_insert(&mut rep, InsertOutcome::Inserted);
    tally_insert(&mut rep, InsertOutcome::Duplicate);
    tally_insert(&mut rep, InsertOutcome::Failed);
    tally_read(&mut rep);
    tally_skip(&mut rep);
    assert_eq!((rep.inserted, rep.duplicates, rep.skipped, rep.total_rows), (1, 1, 2, 1));
    tally_pending(&mut rep, true, "新店".to_string());
    tally_pending(&mut rep, true, "新店".to_string());
    tally_pending(&mut rep, false, "新店".to_string());
    assert_eq!(rep.pending, 2);
    assert_eq!(rep.duplicates, 2);
    assert_eq!(rep.pending_merchants, vec!["新店".to_string()]);
    tally_sheet(&mut rep, SheetStat { sheet: "支出".to_string(), rows: 3, inserted: 2, duplicates: 1 });
    assert_eq!((rep.total_rows, rep.inserted, rep.duplicates), (4, 3, 3));
    assert_eq!(rep.sheet_stats.len(), 1);
}

#[test]
fn detect_formats() {
    assert_eq!(detect_format_from(&s(&["2024支出", "收入", "转账"]), &vec![]), Ok("suishouji".to_string()));
    assert_eq!(detect_format_from(&s(&["Sheet1"]), &s(&["", "微信支付账单明细列表"])), Ok("wechat".to_string()));
    assert_eq!(detect_format_from(&s(&["Sheet1"]), &s(&["交易单号交易时间"])), Ok("wechat".to_string()));
    assert_eq!(detect_format_from(&s(&["交易明细"]), &vec![]), Ok("wechat".to_string()));
    assert_eq!(
        detect_format_from(&s(&["Sheet1"]), &s(&["abc"])),
        Err("无法识别文件格式（支持年度账本多 Sheet Excel 与微信支付流水 xlsx）".to_string())
    );
}

#[test]
fn reimport_gives_the_same_key() {
    let mut f = empty_fields();
    f.merchant = Some("美团".to_string());
    let mut g = f.clone();
    g.l1 = Some("食品饮料".to_string());
    g.source_file = Some("another.xlsx".to_string());
    g.remark = Some("备注".to_string());
    assert_eq!(fingerprint(&f, "1.00"), fingerprint(&g, "1.00"));
}

#[test]
fn empty_rules_send_new_merchants_to_the_queue() {
    assert_eq!(wechat_route(&vec![], "expense", "新店", "商品", true), WechatRoute::Pending);
    assert_eq!(wechat_route(&vec![], "income", "某人", "", true), WechatRoute::Pending);
}
