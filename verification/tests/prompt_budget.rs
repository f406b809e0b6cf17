use yoyo::prompt_budget::{
    audit_timestamp_text, days_from_epoch, parse_session_budget, session_budget_exhausted,
    session_budget_remaining, truncate_audit_fields, truncate_audit_string, AuditArg, AuditField,
    AuditSwitch, DEFAULT_SESSION_BUDGET_SECS,
};
use yoyo::time::Dur;

#[test]
fn test_days_from_epoch_unix_epoch() {
    // 1970-01-01 is day 0
    let (y, m, d) = days_from_epoch(0);
    assert_eq!((y, m, d), (1970, 1, 1));
}

#[test]
fn test_days_from_epoch_known_date() {
    // 2024-01-01 is 19723 days after epoch
    let (y, m, d) = days_from_epoch(19723);
    assert_eq!((y, m, d), (2024, 1, 1));
}

#[test]
fn test_days_from_epoch_leap_year() {
    // 2024-02-29 is 19723 + 31 (Jan) + 28 (Feb 1-28) = 19782
    let (y, m, d) = days_from_epoch(19782);
    assert_eq!((y, m, d), (2024, 2, 29));
}

#[test]
fn test_days_from_epoch_y2k() {
    // 2000-01-01 is 10957 days after epoch
    let (y, m, d) = days_from_epoch(10957);
    assert_eq!((y, m, d), (2000, 1, 1));
}

#[test]
fn test_parse_session_budget_unset() {
    assert_eq!(parse_session_budget(None), None);
}

#[test]
fn test_parse_session_budget_empty() {
    assert_eq!(parse_session_budget(Some(String::new())), None);
}

#[test]
fn test_parse_session_budget_valid() {
    assert_eq!(parse_session_budget(Some("2700".to_string())), Some(2700));
    assert_eq!(parse_session_budget(Some("0".to_string())), Some(0));
    assert_eq!(parse_session_budget(Some("60".to_string())), Some(60));
}

#[test]
fn test_parse_session_budget_garbage_falls_back_to_default() {
    // A typo'd value should NOT silently disable the guard — it should
    // fall back to the default budget so the user gets *some* protection.
    assert_eq!(
        parse_session_budget(Some("forty-five-minutes".to_string())),
        Some(DEFAULT_SESSION_BUDGET_SECS)
    );
    assert_eq!(
        parse_session_budget(Some("-1".to_string())),
        Some(DEFAULT_SESSION_BUDGET_SECS)
    );
}

#[test]
fn test_parse_session_budget_default_is_45_min() {
    assert_eq!(DEFAULT_SESSION_BUDGET_SECS, 2700);
}

#[test]
fn test_session_budget_remaining_returns_zero_after_expiry() {
    // saturating_sub guarantees we never wrap: a 1 s budget 10 s in has nothing left.
    let remaining = session_budget_remaining(Some(1), Dur::from_secs(10));
    assert_eq!(remaining, Some(Dur::zero()));
}

#[test]
fn test_session_budget_exhausted_with_headroom_returns_false() {
    // A 9999-second budget with negligible elapsed time has plenty of headroom above
    // the 30 s grace, so it is not exhausted.
    let remaining = session_budget_remaining(Some(9999), Dur::from_millis(5));
    let exhausted = session_budget_exhausted(remaining, 30);
    assert!(
        !exhausted,
        "9999s budget with 5ms elapsed should have headroom"
    );
}

#[test]
fn test_session_budget_exhausted_after_expiry_returns_true() {
    // A 1-second budget after 10 s (and a little) is spent; the predicate then
    // returns true because 0 <= 30.
    let elapsed = Dur::from_millis(10_020);
    let remaining = session_budget_remaining(Some(1), elapsed);
    let exhausted = session_budget_exhausted(remaining, 30);
    assert_eq!(remaining, Some(Dur::zero()));
    assert!(exhausted, "expired budget must report exhausted");
}

#[test]
fn test_audit_enabled_default_false() {
    // Audit is off until something turns it on.
    let fresh = AuditSwitch::new();
    assert!(!fresh.is_audit_enabled());
}

#[test]
fn audit_switch_stays_on_once_enabled() {
    let mut switch = AuditSwitch::new();
    switch.enable_audit_log();
    assert!(switch.is_audit_enabled());
    switch.enable_audit_log();
    assert!(switch.is_audit_enabled());
}

#[test]
fn session_budget_remaining_unset_is_unbounded() {
    assert_eq!(session_budget_remaining(None, Dur::from_secs(99_999)), None);
    assert!(!session_budget_exhausted(None, 0));
    assert!(!session_budget_exhausted(None, 99_999));
}

#[test]
fn session_budget_remaining_subtracts_elapsed_time() {
    let remaining = session_budget_remaining(Some(60), Dur::from_millis(20));
    assert_eq!(remaining, Some(Dur::from_millis(59_980)));
    // 59.98 s left is 59 whole seconds: exhausted only for a grace of 59 or more.
    assert!(!session_budget_exhausted(remaining, 58));
    assert!(session_budget_exhausted(remaining, 59));
}

#[test]
fn days_from_epoch_handles_century_rules() {
    // 2100 is not a leap year, 2000 was.
    assert_eq!(days_from_epoch(47_540), (2100, 2, 28));
    assert_eq!(days_from_epoch(47_541), (2100, 3, 1));
    assert_eq!(days_from_epoch(11_016), (2000, 2, 29));
    assert_eq!(days_from_epoch(11_017), (2000, 3, 1));
    // The last day of a year and the first of the next.
    assert_eq!(days_from_epoch(364), (1970, 12, 31));
    assert_eq!(days_from_epoch(365), (1971, 1, 1));
}

#[test]
fn audit_timestamp_is_zero_padded_utc() {
    assert_eq!(audit_timestamp_text(0), "1970-01-01T00:00:00");
    // 2024-02-29 13:05:09
    assert_eq!(audit_timestamp_text(19_782 * 86_400 + 13 * 3600 + 5 * 60 + 9), "2024-02-29T13:05:09");
}

#[test]
fn truncate_audit_string_keeps_short_values_and_marks_long_ones() {
    assert_eq!(truncate_audit_string("src/main.rs"), "src/main.rs");
    let exact = "y".repeat(200);
    assert_eq!(truncate_audit_string(&exact), exact, "exactly 200 bytes is kept");
    let over = "z".repeat(201);
    let got = truncate_audit_string(&over);
    assert_eq!(got, format!("{}... [truncated, 201 chars total]", "z".repeat(200)));
    let long = "x".repeat(500);
    let got = truncate_audit_string(&long);
    assert!(got.len() < 500);
    assert!(got.contains("... [truncated, 500 chars total]"));
    // A multi-byte character straddling the cut is dropped whole.
    let wide = format!("{}é{}", "a".repeat(199), "b".repeat(10));
    let got = truncate_audit_string(&wide);
    assert!(got.starts_with(&format!("{}... [truncated, 211 chars total]", "a".repeat(199))));
}

#[test]
fn truncate_audit_fields_shortens_only_long_strings() {
    let long = "x".repeat(250);
    let fields = vec![
        AuditField { key: "path".to_string(), value: AuditArg::Text("src/main.rs".to_string()) },
        AuditField { key: "content".to_string(), value: AuditArg::Text(long) },
        AuditField { key: "line".to_string(), value: AuditArg::Kept },
    ];
    let got = truncate_audit_fields(&fields);
    assert_eq!(got.len(), 3);
    assert_eq!(got[0], fields[0]);
    assert_eq!(got[1].key, "content");
    assert_eq!(
        got[1].value,
        AuditArg::Text(format!("{}... [truncated, 250 chars total]", "x".repeat(200)))
    );
    assert_eq!(got[2], AuditField { key: "line".to_string(), value: AuditArg::Kept });
}
