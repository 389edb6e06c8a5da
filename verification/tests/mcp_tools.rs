use kg::mcp_args::{parse_node_find_args, parse_node_get_args};
use kg::mcp_feedback::{
    compute_adaptive_nudge_percent, feedback_stats_from_log, parse_feedback_line,
    should_emit_nudge, update_feedback_stats, FeedbackStats, GlobalFeedbackStats,
    QueryFeedbackStats, QueryStatsTable,
};
use kg::mcp_script::{split_script, tokenize_command};
use kg::mcp_text::{
    classify_kg_error, error_hint, flag_enabled, last_lines, normalize_query_key,
    parse_find_candidate_ids, parse_find_total_results, redact_cli_args, to_base36,
};

fn words(items: &[&str]) -> Vec<String> {
    items.iter().map(|s| s.to_string()).collect()
}

#[test]
fn split_script_handles_semicolons_and_newlines() {
    let script = "a;b\nc";
    let parts = split_script(script);
    assert_eq!(parts, vec!["a", "b", "c"]);
}

#[test]
fn split_script_respects_quotes() {
    let script = "a; \"b;c\"; 'd;e'";
    let parts = split_script(script);
    assert_eq!(parts.len(), 3);
    assert_eq!(parts[1].trim(), "\"b;c\"");
    assert_eq!(parts[2].trim(), "'d;e'");
}

#[test]
fn split_script_allows_escaped_delimiter() {
    let script = "a\\;b;c";
    let parts = split_script(script);
    assert_eq!(parts, vec!["a\\;b", "c"]);
}

#[test]
fn split_script_keeps_empty_commands() {
    assert_eq!(split_script(""), vec![""]);
    assert_eq!(split_script("a;;b;"), vec!["a", "", "b", ""]);
}

#[test]
fn split_script_without_separators_is_one_command() {
    let script = "node find 'x y' \"z\"";
    assert_eq!(split_script(script), vec![script]);
}

#[test]
fn tokenize_command_parses_quotes_and_escapes() {
    let cmd = "fridge node find \"smart fridge\"";
    let tokens = tokenize_command(cmd).expect("tokenize");
    assert_eq!(tokens, vec!["fridge", "node", "find", "smart fridge"]);
}

#[test]
fn tokenize_command_handles_escaped_semicolon() {
    let cmd = "note\\;extra";
    let tokens = tokenize_command(cmd).expect("tokenize");
    assert_eq!(tokens, vec!["note;extra"]);
}

#[test]
fn tokenize_command_errors_on_unterminated_quote() {
    let cmd = "fridge node find \"smart";
    let err = tokenize_command(cmd).unwrap_err();
    assert_eq!(err, "unterminated quote");
}

#[test]
fn tokenize_command_single_quotes_and_trailing_backslash() {
    assert_eq!(tokenize_command("a 'b \\ c'").unwrap(), vec!["a", "b \\ c"]);
    assert_eq!(tokenize_command("end\\").unwrap(), vec!["end\\"]);
    assert_eq!(tokenize_command("   ").unwrap(), Vec::<String>::new());
    assert_eq!(tokenize_command("'open").unwrap_err(), "unterminated quote");
}

#[test]
fn parse_node_find_args_parses_options() {
    let args = words(&["fridge", "node", "find", "lodowka", "--limit", "5", "--mode", "bm25", "--full"]);
    let parsed = parse_node_find_args(&args).expect("match").expect("ok");
    assert_eq!(parsed.graph, "fridge");
    assert_eq!(parsed.queries, vec!["lodowka"]);
    assert_eq!(parsed.limit, Some(5));
    assert_eq!(parsed.mode.as_deref(), Some("bm25"));
    assert!(parsed.full);
}

#[test]
fn parse_node_get_args_rejects_unknown_option() {
    let args = words(&["fridge", "node", "get", "concept:refrigerator", "--nope"]);
    let err = parse_node_get_args(&args).expect("match").unwrap_err();
    assert!(err.contains("unknown option"));
}

#[test]
fn parse_node_find_args_parses_output_size() {
    let args = words(&["fridge", "node", "find", "lodowka", "--output-size", "900"]);
    let parsed = parse_node_find_args(&args).expect("match").expect("ok");
    assert_eq!(parsed.output_size, Some(900));
}

#[test]
fn parse_node_get_args_parses_output_size() {
    let args = words(&["fridge", "node", "get", "concept:refrigerator", "--output-size", "750"]);
    let parsed = parse_node_get_args(&args).expect("match").expect("ok");
    assert_eq!(parsed.output_size, Some(750));
}

#[test]
fn parse_node_args_errors_and_other_commands() {
    assert!(parse_node_find_args(&words(&["g", "node", "get", "x"])).is_none());
    assert!(parse_node_find_args(&words(&["g", "node"])).is_none());
    assert_eq!(
        parse_node_find_args(&words(&["g", "node", "find"])).unwrap().err().unwrap(),
        "missing query"
    );
    assert_eq!(
        parse_node_find_args(&words(&["g", "node", "find", "--full"])).unwrap().err().unwrap(),
        "missing query"
    );
    assert_eq!(
        parse_node_find_args(&words(&["g", "node", "find", "q", "--limit"])).unwrap().err().unwrap(),
        "missing value for --limit"
    );
    assert_eq!(
        parse_node_find_args(&words(&["g", "node", "find", "q", "--limit", "x"])).unwrap().err().unwrap(),
        "invalid value for --limit"
    );
    assert_eq!(
        parse_node_find_args(&words(&["g", "node", "find", "q", "--wat"])).unwrap().err().unwrap(),
        "unknown option: --wat"
    );
    let two = parse_node_find_args(&words(&["g", "node", "find", "a", "b"])).unwrap().unwrap();
    assert_eq!(two.queries, vec!["a", "b"]);
    assert_eq!(
        parse_node_get_args(&words(&["g", "node", "get", ""])).unwrap().err().unwrap(),
        "missing node id"
    );
    assert_eq!(
        parse_node_get_args(&words(&["g", "node", "get", "x", "y"])).unwrap().err().unwrap(),
        "unexpected argument: y"
    );
    let get = parse_node_get_args(&words(&["g", "node", "get", "x", "--full"])).unwrap().unwrap();
    assert_eq!(get.id, "x");
    assert!(get.full);
}

#[test]
fn parse_find_total_results_supports_shown_total_headers() {
    let rendered = "? lodowka (2/11)\n# concept:refrigerator | Lodowka [Concept]\n\n? api (1)\n# interface:smart_api | Smart API [Interface]\n";
    assert_eq!(parse_find_total_results(rendered), Some(12));
}

#[test]
fn parse_find_total_results_without_headers_is_none() {
    assert_eq!(parse_find_total_results("# a | b\n? q ()\n"), None);
}

#[test]
fn parse_find_candidate_ids_reads_result_lines() {
    let rendered = "? q (2)\n# concept:a | A [Concept]\n#  | empty\n# concept:b | B [Concept]\n";
    assert_eq!(parse_find_candidate_ids(rendered), vec!["concept:a", "concept:b"]);
}

#[test]
fn classify_kg_error_detects_parse_errors() {
    let message = "error: unexpected argument 'x' found\n\nUsage: kg graph";
    let (code, _msg, kind, exit_code) = classify_kg_error(message);
    assert_eq!(code.0, -32011);
    assert_eq!(kind, "parse_error");
    assert_eq!(exit_code, 2);
}

#[test]
fn classify_kg_error_permission_and_plain_failures() {
    let (code, msg, kind, exit_code) = classify_kg_error("Permission denied (os error 13)");
    assert_eq!((code.0, msg, kind, exit_code), (-32012, "kg command permission denied", "permission_denied", 1));
    let (code, msg, kind, exit_code) = classify_kg_error("boom");
    assert_eq!((code.0, msg, kind, exit_code), (-32010, "kg command failed", "command_failed", 1));
    assert_eq!(error_hint("parse_error"), "Check command syntax and required arguments.");
    assert_eq!(error_hint("other"), "Inspect stderr_tail for details.");
}

#[test]
fn redact_cli_args_masks_sensitive_values() {
    let args = words(&["kg", "--token", "abc123", "api_key=secret123", "--mode", "bm25"]);
    let redacted = redact_cli_args(&args);
    assert_eq!(redacted[2], "***REDACTED***");
    assert_eq!(redacted[3], "api_key=***REDACTED***");
    assert_eq!(redacted[5], "bm25");
}

#[test]
fn redact_cli_args_masks_inline_option_values() {
    let args = words(&["--password=hunter2", "--Secret", "x", "y"]);
    let redacted = redact_cli_args(&args);
    assert_eq!(redacted, vec!["--password=***REDACTED***", "--Secret", "***REDACTED***", "y"]);
}

#[test]
fn last_lines_and_flags() {
    assert_eq!(last_lines("a\nb\nc\n", 2), "b\nc");
    assert_eq!(last_lines("a\nb", 0), "");
    assert_eq!(last_lines("", 5), "");
    assert_eq!(last_lines("   ", 5), "   ");
    assert!(flag_enabled(" TRUE "));
    assert!(flag_enabled("1"));
    assert!(!flag_enabled("off"));
}

#[test]
fn query_keys_and_base36() {
    assert_eq!(normalize_query_key(&words(&[" Smart ", "", "FRIDGE"])), Some("smart | fridge".to_string()));
    assert_eq!(normalize_query_key(&words(&["  "])), None);
    assert_eq!(to_base36(0), "0");
    assert_eq!(to_base36(35), "z");
    assert_eq!(to_base36(36), "10");
    assert_eq!(to_base36(1295), "zz");
}

#[test]
fn should_emit_nudge_respects_zero_and_hundred() {
    assert!(!should_emit_nudge(0, "abc123"));
    assert!(should_emit_nudge(100, "abc123"));
}

#[test]
fn should_emit_nudge_is_deterministic_for_same_salt() {
    let first = should_emit_nudge(20, "abc123");
    let second = should_emit_nudge(20, "abc123");
    assert_eq!(first, second);
}

#[test]
fn parse_feedback_line_allows_passive_suffix() {
    let parsed = parse_feedback_line("uid=abc123 PICK 2 passive=1").expect("parse");
    assert_eq!(parsed.uid, "abc123");
    assert_eq!(parsed.action, "PICK");
    assert_eq!(parsed.pick, Some(2));
}

#[test]
fn parse_feedback_line_rejects_malformed_replies() {
    assert!(parse_feedback_line("uid=abc YES").is_some());
    assert_eq!(parse_feedback_line("uid=abc nil").unwrap().action, "NIL");
    assert!(parse_feedback_line("uid= YES").is_none());
    assert!(parse_feedback_line("abc YES").is_none());
    assert!(parse_feedback_line("uid=abc PICK").is_none());
    assert!(parse_feedback_line("uid=abc MAYBE").is_none());
    assert!(parse_feedback_line("").is_none());
}

#[test]
fn adaptive_nudge_guardrail_for_zero_results() {
    let percent = compute_adaptive_nudge_percent(
        5,
        &["missing query".to_owned()],
        0,
        &QueryStatsTable::new(),
        &GlobalFeedbackStats::default(),
    );
    assert_eq!(percent, 40);
}

#[test]
fn adaptive_nudge_increases_on_negative_history() {
    let mut query_stats = QueryStatsTable::new();
    query_stats.insert(
        "smart fridge".to_owned(),
        QueryFeedbackStats { yes: 1, no: 2, nil: 1, pick: 0 },
    );
    let percent = compute_adaptive_nudge_percent(
        10,
        &["smart fridge".to_owned()],
        3,
        &query_stats,
        &GlobalFeedbackStats::default(),
    );
    assert_eq!(percent, 35);
}

#[test]
fn adaptive_nudge_decreases_on_positive_history() {
    let mut query_stats = QueryStatsTable::new();
    query_stats.insert(
        "smart fridge".to_owned(),
        QueryFeedbackStats { yes: 4, no: 0, nil: 0, pick: 1 },
    );
    let percent = compute_adaptive_nudge_percent(
        25,
        &["smart fridge".to_owned()],
        3,
        &query_stats,
        &GlobalFeedbackStats::default(),
    );
    assert_eq!(percent, 5);
}

#[test]
fn adaptive_nudge_adds_global_guardrail() {
    let global = GlobalFeedbackStats { events: 25, negative_events: 12 };
    let percent =
        compute_adaptive_nudge_percent(10, &["query".to_owned()], 3, &QueryStatsTable::new(), &global);
    assert_eq!(percent, 20);
}

#[test]
fn adaptive_nudge_stays_within_bounds() {
    let global = GlobalFeedbackStats { events: 30, negative_events: 30 };
    let mut query_stats = QueryStatsTable::new();
    query_stats.insert("q".to_owned(), QueryFeedbackStats { yes: 0, no: 5, nil: 0, pick: 0 });
    assert_eq!(compute_adaptive_nudge_percent(90, &["Q".to_owned()], 1, &query_stats, &global), 100);
    let mut positive = QueryStatsTable::new();
    positive.insert("q".to_owned(), QueryFeedbackStats { yes: 5, no: 0, nil: 0, pick: 0 });
    assert_eq!(
        compute_adaptive_nudge_percent(10, &["q".to_owned()], 1, &positive, &GlobalFeedbackStats::default()),
        0
    );
}

#[test]
fn feedback_log_counts_actions_per_query() {
    let log = "ts=1\tuid=a\taction=YES\tqueries=Smart Fridge | -\n\
               ts=2\tuid=b\taction=NO\tqueries=smart fridge\n\
               ts=3\tuid=c\taction=MAYBE\tqueries=smart fridge\n\
               ts=4\tuid=d\taction=NIL\n";
    let stats = feedback_stats_from_log(log);
    assert_eq!(stats.global_stats, GlobalFeedbackStats { events: 3, negative_events: 2 });
    assert_eq!(
        stats.query_stats.get("smart fridge"),
        Some(QueryFeedbackStats { yes: 1, no: 1, nil: 0, pick: 0 })
    );
    assert_eq!(stats.query_stats.get("other"), None);
}

#[test]
fn update_feedback_stats_counts_globally_and_per_key() {
    let mut state = FeedbackStats {
        query_stats: QueryStatsTable::new(),
        global_stats: GlobalFeedbackStats::default(),
    };
    update_feedback_stats(&mut state, &["Alpha".to_owned()], "PICK");
    update_feedback_stats(&mut state, &[" ".to_owned()], "NO");
    assert_eq!(state.global_stats, GlobalFeedbackStats { events: 2, negative_events: 1 });
    assert_eq!(
        state.query_stats.get("alpha"),
        Some(QueryFeedbackStats { yes: 0, no: 0, nil: 0, pick: 1 })
    );
}
