use zhangji::models::{Rule, RuleInput};
use zhangji::rules::{assign_kind, classify, first_applying_lc, known_lc, merchant_known, rule_settings, should_learn};

fn rule(id: i64, keyword: &str, kind: &str, l1: &str, l2: Option<&str>, enabled: bool) -> Rule {
    Rule {
        id,
        keyword: keyword.to_string(),
        kind: kind.to_string(),
        l1: l1.to_string(),
        l2: l2.map(|s| s.to_string()),
        priority: 0,
        enabled,
        source: "preset".to_string(),
    }
}

fn sample() -> Vec<Rule> {
    vec![
        rule(1, "美团", "expense", "食品饮料", Some("早午晚餐"), true),
        rule(2, "Starbucks", "expense", "食品饮料", Some("咖啡"), true),
        rule(3, "滴滴", "expense", "行车交通", None, false),
        rule(4, "", "expense", "杂项", None, true),
        rule(5, "工资", "income", "职业收入", None, true),
        rule(6, "美团", "expense", "生活", None, true),
    ]
}

#[test]
fn classify_takes_first_applying_rule() {
    let rules = sample();
    assert_eq!(
        classify(&rules, "expense", "美团外卖", ""),
        Some(("食品饮料".to_string(), Some("早午晚餐".to_string())))
    );
}

#[test]
fn classify_ignores_case_and_reads_goods() {
    let rules = sample();
    assert_eq!(
        classify(&rules, "expense", "某咖啡店", "STARBUCKS 拿铁"),
        Some(("食品饮料".to_string(), Some("咖啡".to_string())))
    );
}

#[test]
fn classify_skips_disabled_empty_and_other_kind() {
    let rules = sample();
    assert_eq!(classify(&rules, "expense", "滴滴出行", ""), None);
    assert_eq!(classify(&rules, "expense", "工资", ""), None);
    assert_eq!(classify(&rules, "income", "公司工资", ""), Some(("职业收入".to_string(), None)));
}

#[test]
fn merchant_known_by_enabled_rules() {
    let rules = sample();
    assert!(merchant_known(&rules, "美团外卖"));
    assert!(merchant_known(&rules, "starbucks"));
    assert!(!merchant_known(&rules, "滴滴出行"));
    assert!(!merchant_known(&rules, "新店"));
}

#[test]
fn learned_merchant_is_known_and_classified() {
    let mut rules = sample();
    assert!(!merchant_known(&rules, "新店"));
    assert!(should_learn(&rules, "expense", "新店", "生活", &None));
    rules.push(rule(7, "新店", "expense", "生活", None, true));
    assert!(merchant_known(&rules, "新店"));
    assert_eq!(classify(&rules, "expense", "新店", "随便"), Some(("生活".to_string(), None)));
    assert!(!should_learn(&rules, "expense", "新店", "生活", &None));
    assert!(!should_learn(&rules, "expense", "新店", "生活", &Some(String::new())));
    assert!(should_learn(&rules, "expense", "新店", "生活", &Some("日用".to_string())));
}

#[test]
fn assign_kind_by_category() {
    assert_eq!(assign_kind("其他收入"), "income");
    assert_eq!(assign_kind("食品饮料"), "expense");
}

#[test]
fn rule_settings_defaults() {
    let mut input = RuleInput {
        id: None,
        keyword: "k".to_string(),
        kind: "expense".to_string(),
        l1: "a".to_string(),
        l2: None,
        priority: None,
        enabled: None,
    };
    assert_eq!(rule_settings(&input), (0, true));
    input.priority = Some(5);
    input.enabled = Some(false);
    assert_eq!(rule_settings(&input), (5, false));
}

#[test]
fn engine_on_lowercased_texts() {
    let rules = sample();
    let kws: Vec<String> = vec!["美团", "starbucks", "滴滴", "", "工资", "美团"].iter().map(|s| s.to_string()).collect();
    assert_eq!(first_applying_lc(&rules, &kws, "expense", "某店", "starbucks 拿铁"), Some(1));
    assert_eq!(first_applying_lc(&rules, &kws, "expense", "某店", "STARBUCKS 拿铁"), None);
    assert_eq!(first_applying_lc(&rules, &kws, "income", "工资", ""), Some(4));
    assert!(known_lc(&rules, &kws, "starbucks"));
    assert!(!known_lc(&rules, &kws, "滴滴"));
}
