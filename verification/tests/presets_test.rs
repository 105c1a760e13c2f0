use zhangji::export::categories_txt;
use zhangji::models::{PresetCategory, PresetPreview, RuleInput};
use zhangji::presets::{
    clean_name, heading_kind, kind_from_word, looks_md_text, md_readable_text, parse_auto, parse_md,
    parse_txt_file, placeholder_is_empty, split_children,
};

fn cat(kind: &str, l1: &str, l2: Option<&str>) -> PresetCategory {
    PresetCategory { kind: kind.to_string(), l1: l1.to_string(), l2: l2.map(|s| s.to_string()) }
}

fn rule(keyword: &str, kind: &str, l1: &str, l2: Option<&str>) -> RuleInput {
    RuleInput {
        id: None,
        keyword: keyword.to_string(),
        kind: kind.to_string(),
        l1: l1.to_string(),
        l2: l2.map(|s| s.to_string()),
        priority: Some(0),
        enabled: Some(true),
    }
}

#[test]
fn clean_name_strips_numbering() {
    assert_eq!(clean_name("(1) 兴趣爱好"), "兴趣爱好");
    assert_eq!(clean_name("杂费（5）"), "杂费");
    assert_eq!(clean_name("1. 早餐"), "早餐");
    assert_eq!(clean_name("（2）交通 "), "交通");
}

#[test]
fn clean_name_strips_notes_and_suffix() {
    assert_eq!(clean_name("转账（借?）"), "转账");
    assert_eq!(clean_name("红包(收入)"), "红包");
    assert_eq!(clean_name("零食等"), "零食");
    assert_eq!(clean_name("游戏(主机)"), "游戏(主机)");
    assert_eq!(clean_name("   "), "");
}

#[test]
fn split_children_example() {
    assert_eq!(split_children("谷费，ゲーム ， live&演出"), vec!["谷费", "ゲーム", "live&演出"]);
    assert_eq!(split_children("a,-,b；c"), vec!["a", "b", "c"]);
    assert!(split_children(" ， ").is_empty());
}

#[test]
fn placeholders() {
    assert!(placeholder_is_empty("（留空）"));
    assert!(placeholder_is_empty(" - "));
    assert!(placeholder_is_empty(""));
    assert!(placeholder_is_empty("无"));
    assert!(!placeholder_is_empty("早餐"));
}

#[test]
fn heading_and_word_kinds() {
    assert_eq!(heading_kind("支出分类"), Some("expense"));
    assert_eq!(heading_kind("收入分类"), Some("income"));
    assert_eq!(heading_kind("账户收入"), Some("account"));
    assert_eq!(heading_kind("其他"), None);
    assert_eq!(kind_from_word(" 收入 "), Some("income"));
    assert_eq!(kind_from_word("备注"), None);
}

const MD: &str = "# 支出分类
**一级目录**：食品饮料（1），行车交通（2）

| 一级 | 二级子项 |
|------|------|
| 食品饮料 | 早午晚餐，水果零食 |
| 行车交通 | （留空） |

# 账户分类
现金账户：现金
虚拟账户：支付宝余额，微信钱包

# 自动分类规则
| 关键词 | 归属一级 | 归属二级 |
|---|---|---|
| 美团/饿了么 | 食品饮料 | 早午晚餐 |
| 工资 | 职业收入 | - |
";

#[test]
fn parse_md_reads_sections_tables_accounts_and_rules() {
    let p = parse_md(MD);
    assert_eq!(
        p.categories,
        vec![
            cat("expense", "食品饮料", None),
            cat("expense", "行车交通", None),
            cat("expense", "食品饮料", Some("早午晚餐")),
            cat("expense", "食品饮料", Some("水果零食")),
            cat("expense", "行车交通", None),
            cat("account", "现金账户", Some("现金")),
            cat("account", "虚拟账户", Some("支付宝余额")),
            cat("account", "虚拟账户", Some("微信钱包")),
        ]
    );
    assert_eq!(
        p.rules,
        vec![
            rule("美团", "expense", "食品饮料", Some("早午晚餐")),
            rule("饿了么", "expense", "食品饮料", Some("早午晚餐")),
            rule("工资", "income", "职业收入", None),
        ]
    );
    assert!(p.warnings.is_empty());
}

#[test]
fn parse_md_drops_repeated_entries() {
    let p = parse_md("# 收入\n| 一级 | 二级 |\n|--|--|\n| 职业收入 | 工资 |\n| 职业收入 | 工资 |\n");
    assert_eq!(p.categories, vec![cat("income", "职业收入", Some("工资"))]);
}

#[test]
fn parse_md_mapping_table_with_owner_column_is_not_categories() {
    let p = parse_md("# 支出\n| 一级 | 归属 |\n|--|--|\n| 食品 | 生活 |\n");
    assert!(p.categories.is_empty());
    assert_eq!(p.warnings.len(), 1);
}

#[test]
fn parse_md_warns_when_nothing_found() {
    let p: PresetPreview = parse_md("hello\nworld");
    assert!(p.categories.is_empty());
    assert!(p.rules.is_empty());
    assert_eq!(
        p.warnings,
        vec!["未识别出任何分类或规则，请检查文档格式（需包含「一级目录」「二级目录」或对应表格）".to_string()]
    );
}

#[test]
fn parse_txt_reads_paths_and_indentation() {
    let text = "支出\n食品饮料\n  早午晚餐\n  水果零食\n收入 > 职业收入 > 工资\n账户\n现金\n";
    let p = parse_txt_file(text);
    assert_eq!(
        p.categories,
        vec![
            cat("expense", "食品饮料", None),
            cat("expense", "食品饮料", Some("早午晚餐")),
            cat("expense", "食品饮料", Some("水果零食")),
            cat("income", "职业收入", Some("工资")),
            cat("account", "现金", None),
        ]
    );
    assert!(p.warnings.is_empty());
}

#[test]
fn parse_txt_defaults_to_expense_and_warns_on_orphans() {
    let p = parse_txt_file("  孤儿\n食品 / 水果\n");
    assert_eq!(p.warnings, vec!["行「孤儿」缺少所属一级分类，已跳过".to_string()]);
    assert_eq!(p.categories, vec![cat("expense", "水果", None)]);
}

#[test]
fn parse_auto_picks_format() {
    let (f, p) = parse_auto(MD);
    assert_eq!(f, "md");
    assert_eq!(p.rules.len(), 3);
    let (f2, p2) = parse_auto("支出\n餐饮\n");
    assert_eq!(f2, "txt");
    assert_eq!(p2.categories, vec![cat("expense", "餐饮", None)]);
}

#[test]
fn markdown_checks() {
    assert!(looks_md_text("# 标题\n"));
    assert!(looks_md_text("|a|b|\n|c|"));
    assert!(!looks_md_text("支出\n餐饮\n"));
    assert!(md_readable_text(MD));
    assert!(!md_readable_text("# 支出\n|\n"));
    assert!(md_readable_text("# 说明\n|\n"));
}

#[test]
fn clean_name_keeps_leading_numbers_that_are_no_marks() {
    assert_eq!(clean_name("3C数码"), "3C数码");
    assert_eq!(clean_name("1) 早餐"), "早餐");
    assert_eq!(clean_name("2、午餐"), "午餐");
    assert_eq!(clean_name("1.2. 晚餐"), "晚餐");
    assert_eq!(clean_name("12306火车票"), "12306火车票");
}

#[test]
fn clean_name_trims_after_cutting_deng() {
    assert_eq!(clean_name("杂费 等"), "杂费");
    assert_eq!(clean_name("水果 等等"), "水果");
}

#[test]
fn parse_txt_reads_indented_outline() {
    let p = parse_txt_file("支出\n  食品饮料\n    早午晚餐\n    水果零食\n  行车交通\n收入\n  薪酬\n    工资\n");
    assert_eq!(
        p.categories,
        vec![
            cat("expense", "食品饮料", None),
            cat("expense", "食品饮料", Some("早午晚餐")),
            cat("expense", "食品饮料", Some("水果零食")),
            cat("expense", "行车交通", None),
            cat("income", "薪酬", None),
            cat("income", "薪酬", Some("工资")),
        ]
    );
    assert!(p.warnings.is_empty());
}

#[test]
fn parse_txt_reads_the_exported_outline() {
    let e = vec![
        (Some("食品".to_string()), Some("早餐".to_string())),
        (Some("食品".to_string()), Some("午餐".to_string())),
        (Some("交通".to_string()), Some("地铁".to_string())),
    ];
    let i = vec![(Some("薪酬".to_string()), Some("工资".to_string()))];
    let text = categories_txt(&e, &i, &vec![]);
    let p = parse_txt_file(&text);
    assert_eq!(
        p.categories,
        vec![
            cat("expense", "食品", None),
            cat("expense", "食品", Some("早餐")),
            cat("expense", "食品", Some("午餐")),
            cat("expense", "交通", None),
            cat("expense", "交通", Some("地铁")),
            cat("income", "薪酬", None),
            cat("income", "薪酬", Some("工资")),
        ]
    );
    assert!(p.warnings.is_empty());
}

#[test]
fn blank_and_comment_lines_change_nothing() {
    let a = parse_txt_file("支出\n  食品\n    早餐\n");
    let b = parse_txt_file("\n# 注释\n支出\n\n  食品\n  # 又一行\n    早餐\n");
    assert_eq!(a, b);
}

#[test]
fn lines_before_the_first_heading_change_nothing() {
    assert_eq!(parse_md(&format!("说明文字\n| x | y |\n{MD}")), parse_md(MD));
}

#[test]
fn word_kind_is_heading_kind() {
    for w in ["  支出 ", "收入", "现金账户", "其他", " 账户收入 "] {
        assert_eq!(kind_from_word(w), heading_kind(w));
    }
}

#[test]
fn clean_name_never_ends_in_deng() {
    assert_eq!(clean_name("a等 等"), "a");
    assert_eq!(clean_name("零食 等 "), "零食");
    assert_eq!(clean_name("等"), "");
}
