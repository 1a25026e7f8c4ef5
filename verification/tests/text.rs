use vellum::scanner::parser::detect_sensitive;
use vellum::server::routes::auth::normalize_username;
use vellum::text::format_u64;

#[test]
fn decimal_formatting() {
    assert_eq!(format_u64(0), "0");
    assert_eq!(format_u64(7), "7");
    assert_eq!(format_u64(1_700_000_000), "1700000000");
    assert_eq!(format_u64(u64::MAX), u64::MAX.to_string());
}

#[test]
fn case_mapping() {
    assert_eq!(normalize_username("  MiXeD-User "), "mixed-user");
    assert!(detect_sensitive("api_key-9"));
    // `ß` upper-cases to `SS`, so this key contains ACCESS once upper-cased.
    assert!(detect_sensitive("acce\u{df}"));
    assert!(!detect_sensitive("stra\u{df}e"));
}
