use copilot_money_cli::dates::normalize_date;

#[test]
fn normalize_date_accepts_yyyy_mm_dd_and_mm_dd_yyyy() {
    assert_eq!(normalize_date("2025-12-03"), Some("2025-12-03".to_string()));
    assert_eq!(normalize_date("12-03-2025"), Some("2025-12-03".to_string()));
    assert_eq!(normalize_date("03-12-2025"), Some("2025-03-12".to_string()));
}

#[test]
fn normalize_date_rejects_invalid() {
    assert_eq!(normalize_date(""), None);
    assert_eq!(normalize_date("2025-13-01"), None);
    assert_eq!(normalize_date("2025-00-01"), None);
    assert_eq!(normalize_date("2025-12-32"), None);
    assert_eq!(normalize_date("2025/12/01"), None);
}

#[test]
fn normalize_date_drops_surrounding_white_space() {
    assert_eq!(normalize_date("  2025-12-03\n"), Some("2025-12-03".to_string()));
    assert_eq!(normalize_date("\t12-03-2025 "), Some("2025-12-03".to_string()));
}

#[test]
fn normalize_date_keeps_the_bounds_of_year_month_and_day() {
    assert_eq!(normalize_date("1900-01-01"), Some("1900-01-01".to_string()));
    assert_eq!(normalize_date("2100-12-31"), Some("2100-12-31".to_string()));
    assert_eq!(normalize_date("1899-12-31"), None);
    assert_eq!(normalize_date("2101-01-01"), None);
    assert_eq!(normalize_date("2025-01-00"), None);
}

#[test]
fn normalize_date_takes_a_plus_sign_before_a_number() {
    assert_eq!(normalize_date("2025-+1-03"), Some("2025-01-03".to_string()));
    assert_eq!(normalize_date("2025-1-+03"), Some("2025-01-03".to_string()));
    assert_eq!(normalize_date("2025-+-003"), None);
}

#[test]
fn normalize_date_rejects_other_shapes() {
    assert_eq!(normalize_date("2025-12-3"), None);
    assert_eq!(normalize_date("2025-12-003"), None);
    assert_eq!(normalize_date("20251203--"), None);
    assert_eq!(normalize_date("2025-1-2-3"), None);
    assert_eq!(normalize_date("25-12-2003"), None);
    assert_eq!(normalize_date("5-012-2003"), Some("2003-05-12".to_string()));
    assert_eq!(normalize_date("abcd-12-03"), None);
    assert_eq!(normalize_date("2025-12-0é"), None);
}
