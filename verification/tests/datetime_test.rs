use zhangji::datetime::{format_date_midnight, format_datetime, parse_time_text};

#[test]
fn parse_time_text_formats() {
    assert_eq!(parse_time_text("2024-03-05 08:09:10"), Some("2024-03-05 08:09:10".to_string()));
    assert_eq!(parse_time_text("  2024-03-05 08:09 "), Some("2024-03-05 08:09:00".to_string()));
    assert_eq!(parse_time_text("2024/3/5 8:09:10"), Some("2024-03-05 08:09:10".to_string()));
    assert_eq!(parse_time_text("2024/03/05 08:09"), Some("2024-03-05 08:09:00".to_string()));
    assert_eq!(parse_time_text("2024-03-05"), Some("2024-03-05 00:00:00".to_string()));
    assert_eq!(parse_time_text("2024/03/05"), Some("2024-03-05 00:00:00".to_string()));
}

#[test]
fn parse_time_text_rejects_other_text() {
    assert_eq!(parse_time_text("昨天"), None);
    assert_eq!(parse_time_text(""), None);
    assert_eq!(parse_time_text("2024-13-01"), None);
}

#[test]
fn format_fields() {
    assert_eq!(format_datetime((2025, 1, 2, 3, 4, 5, 0)), "2025-01-02 03:04:05");
    assert_eq!(format_datetime((12345, 12, 31, 23, 59, 59, 0)), "+12345-12-31 23:59:59");
    assert_eq!(format_date_midnight((-5, 6, 7)), "-0005-06-07 00:00:00");
}
