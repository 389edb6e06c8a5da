use kg::mcp_server::{append_validation_flags, feedback_uid, parse_mode, trace_id, GraphValidateArgs};
use kg::source_refs::{is_valid_iso_date, is_valid_iso_utc_timestamp, validate_source_reference};

#[test]
fn validation_flags_follow_the_request() {
    let mut cmd = vec!["kg".to_owned()];
    let args = GraphValidateArgs {
        graph: "g".to_owned(),
        deep: true,
        base_dir: Some("/repo".to_owned()),
        errors_only: false,
        warnings_only: true,
        limit: Some(25),
    };
    append_validation_flags(&mut cmd, &args);
    assert_eq!(cmd, vec!["kg", "--deep", "--base-dir", "/repo", "--warnings-only", "--limit", "25"]);
}

#[test]
fn modes_default_and_are_checked() {
    assert_eq!(parse_mode(None).unwrap(), "best_effort");
    assert_eq!(parse_mode(Some("strict".to_owned())).unwrap(), "strict");
    assert_eq!(parse_mode(Some("lenient".to_owned())).unwrap_err(), "lenient");
}

#[test]
fn ids_have_fixed_shapes() {
    assert_eq!(trace_id(1700000000000, 35), "kgmcp-1700000000000-z");
    let uid = feedback_uid(0, 0);
    assert_eq!(uid, "000000");
    let uid = feedback_uid(1700000000123, 7);
    assert_eq!(uid.len(), 6);
    assert!(uid.chars().all(|c| c.is_ascii_digit() || c.is_ascii_lowercase()));
}

#[test]
fn timestamps_dates_and_sources() {
    assert!(is_valid_iso_utc_timestamp("2024-01-31T12:00:59Z"));
    assert!(!is_valid_iso_utc_timestamp("2024-01-31 12:00:59Z"));
    assert!(!is_valid_iso_utc_timestamp("2024-01-31T12:00:59"));
    assert!(is_valid_iso_date("2024-01-31"));
    assert!(!is_valid_iso_date("2024/01/31"));
    assert!(validate_source_reference("URL https://example.com").is_ok());
    assert_eq!(validate_source_reference("  ").unwrap_err(), "source entry cannot be empty");
    assert_eq!(
        validate_source_reference("URL").unwrap_err(),
        "source must match '<TYPE> <LINK_OR_DATE> <OPTIONAL_DETAILS>'"
    );
    assert!(validate_source_reference("BLOG x").unwrap_err().starts_with("invalid source type 'BLOG'; valid types: URL, SVN"));
    assert_eq!(
        validate_source_reference("CONVERSATION yesterday").unwrap_err(),
        "CONVERSATION source must use date YYYY-MM-DD"
    );
    assert!(validate_source_reference("CONVERSATION 2024-05-01 chat").is_ok());
    assert_eq!(
        validate_source_reference("GIT_COMMIT repo").unwrap_err(),
        "GIT_COMMIT source must include repository and commit SHA"
    );
}
