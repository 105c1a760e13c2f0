use zhangji::commands::{
    background_ext, background_ext_lc, background_files, category_export_ext, check_clear_scope, count_category, default_accounts,
    default_expense_roots, default_income_roots, export_ext, image_bytes, image_bytes_from, manual_fingerprint,
    manual_source, next_sort, preset_root, RootStep,
};

#[test]
fn clear_scopes() {
    assert_eq!(check_clear_scope("tx"), Ok(()));
    assert_eq!(check_clear_scope("all"), Ok(()));
    assert_eq!(check_clear_scope("everything"), Err("未知的数据清除范围".to_string()));
}

#[test]
fn background_types() {
    assert_eq!(background_ext(&Some("PNG".to_string())), Ok("png".to_string()));
    assert_eq!(background_ext(&Some("jpeg".to_string())), Ok("jpeg".to_string()));
    assert_eq!(background_ext(&Some("tiff".to_string())), Err("仅支持 png / jpg / webp / bmp / gif 图片".to_string()));
    assert_eq!(background_ext(&None), Err("无法识别文件类型".to_string()));
    assert_eq!(
        background_files(),
        vec!["background.png", "background.jpg", "background.jpeg", "background.webp", "background.bmp", "background.gif"]
    );
}

#[test]
fn manual_keys() {
    assert_eq!(
        manual_fingerprint(&Some("NO1".to_string()), "b1", "支出", "t", "1.00", &None, 5),
        "manual|NO1|b1"
    );
    assert_eq!(
        manual_fingerprint(&Some(String::new()), "b1", "支出", "2024-01-02 00:00:00", "12.50", &Some("面馆".to_string()), -7),
        "manual|支出|2024-01-02 00:00:00|12.50|面馆|-7"
    );
    assert_eq!(
        manual_fingerprint(&None, "b1", "收入", "t", "3.00", &None, i64::MIN),
        "manual|收入|t|3.00||-9223372036854775808"
    );
    assert_eq!(manual_source(&None), "manual");
    assert_eq!(manual_source(&Some("import:wechat".to_string())), "import:wechat");
}

#[test]
fn export_kinds() {
    assert_eq!(export_ext("csv"), "csv");
    assert_eq!(export_ext("xlsx"), "xlsx");
    assert_eq!(export_ext("pdf"), "xlsx");
    assert_eq!(category_export_ext(&Some("txt".to_string())), "txt");
    assert_eq!(category_export_ext(&None), "md");
    assert_eq!(category_export_ext(&Some("csv".to_string())), "md");
}

#[test]
fn chart_images() {
    assert_eq!(image_bytes("aGk="), Ok(vec![104u8, 105u8]));
    let err = image_bytes("%%%").unwrap_err();
    assert!(err.starts_with("图片数据无效: "));
    assert!(err.len() > "图片数据无效: ".len());
    assert_eq!(image_bytes_from(Err("bad".to_string())), Err("图片数据无效: bad".to_string()));
    assert_eq!(image_bytes_from(Ok(vec![1u8])), Ok(vec![1u8]));
}

#[test]
fn new_ledger_data() {
    let a = default_accounts();
    assert_eq!(a.len(), 7);
    assert_eq!(a[0], ("现金账户".to_string(), vec!["现金".to_string()]));
    assert_eq!(a[2].1, vec!["支付宝余额".to_string(), "微信钱包".to_string()]);
    assert_eq!(a[6].0, "投资账户");
    let e = default_expense_roots();
    assert_eq!(e.len(), 9);
    assert_eq!(e[8], "统计未确认");
    assert_eq!(default_income_roots(), vec!["职业收入".to_string(), "其他收入".to_string()]);
}

#[test]
fn preset_counters() {
    assert_eq!(next_sort(None), 0);
    assert_eq!(next_sort(Some(4)), 5);
    assert_eq!(next_sort(Some(-1)), 0);
    assert_eq!(count_category(3, true, 0), 3);
    assert_eq!(count_category(3, true, 1), 4);
    assert_eq!(count_category(3, false, 0), 4);
}

#[test]
fn background_types_lowercased() {
    assert_eq!(background_ext_lc("gif".to_string()), Ok("gif".to_string()));
    assert_eq!(background_ext_lc("GIF".to_string()), Err("仅支持 png / jpg / webp / bmp / gif 图片".to_string()));
}

#[test]
fn preset_roots() {
    assert_eq!(preset_root(Some(7), None), RootStep::Existing(7));
    assert_eq!(preset_root(Some(7), Some(3)), RootStep::Existing(7));
    assert_eq!(preset_root(None, Some(3)), RootStep::Insert(4));
    assert_eq!(preset_root(None, None), RootStep::Insert(0));
}
