use kg::config::{
    check_nudge_percent, check_user_short_uid, config_candidates, config_with_user_short_uid,
    normalize_user_short_uid, user_short_uid_from_nanos, KgConfig, DEFAULT_NUDGE_PERCENT,
};
use kg::paths::KgPath;

fn empty_config() -> KgConfig {
    KgConfig {
        backend: None,
        graph_dir: None,
        graph_dirs: Vec::new(),
        nudge: None,
        user_short_uid: None,
        graphs: Vec::new(),
        default_graph: None,
    }
}

#[test]
fn nudge_defaults_to_twenty() {
    let config = empty_config();
    assert_eq!(config.nudge_percent(), DEFAULT_NUDGE_PERCENT);
    assert_eq!(DEFAULT_NUDGE_PERCENT, 20);
}

#[test]
fn nudge_accepts_zero_and_hundred() {
    let disabled = KgConfig { nudge: check_nudge_percent(Some(0)).expect("config"), ..empty_config() };
    let always = KgConfig { nudge: check_nudge_percent(Some(100)).expect("config"), ..empty_config() };
    assert_eq!(disabled.nudge_percent(), 0);
    assert_eq!(always.nudge_percent(), 100);
}

#[test]
fn nudge_rejects_values_above_hundred() {
    let err = check_nudge_percent(Some(101)).expect_err("invalid config");
    assert!(err.contains("nudge must be between 0 and 100"));
}

#[test]
fn user_short_uid_accepts_valid_value() {
    let uid = check_user_short_uid(Some("dev_01".to_owned())).expect("config");
    assert_eq!(uid.as_deref(), Some("dev_01"));
}

#[test]
fn user_short_uid_rejects_invalid_value() {
    let err = check_user_short_uid(Some("bad uid".to_owned())).expect_err("invalid config");
    assert!(err.contains("user_short_uid must be"));
}

#[test]
fn normalize_user_short_uid_enforces_shape() {
    assert_eq!(normalize_user_short_uid(" u-1 "), Some("u-1".to_string()));
    assert_eq!(normalize_user_short_uid(""), None);
    assert_eq!(normalize_user_short_uid("bad uid"), None);
}

#[test]
fn graph_dirs_resolve_relative_paths_and_deduplicate() {
    let config = KgConfig {
        graph_dir: Some(KgPath::parse("graphs")),
        graph_dirs: vec![KgPath::parse("graphs"), KgPath::parse("extra"), KgPath::parse("/tmp/kg")],
        ..empty_config()
    };

    let config_path = KgPath::parse("/workspace/project/.kg.toml");
    let dirs: Vec<String> = config.graph_dirs(&config_path).iter().map(|d| d.to_text()).collect();

    assert_eq!(
        dirs,
        vec![
            "/workspace/project/graphs".to_owned(),
            "/workspace/project/extra".to_owned(),
            "/tmp/kg".to_owned(),
        ]
    );
}

#[test]
fn graph_path_resolves_named_graph() {
    let config = KgConfig {
        graphs: vec![("main".to_owned(), KgPath::parse("g/main.kg"))],
        ..empty_config()
    };
    let p = config.graph_path(&KgPath::parse("/w/.kg.toml"), "main").expect("graph");
    assert_eq!(p.to_text(), "/w/g/main.kg");
    assert!(config.graph_path(&KgPath::parse("/w/.kg.toml"), "other").is_none());
}

#[test]
fn user_short_uid_from_nanos_keeps_eight_base36_digits() {
    assert_eq!(user_short_uid_from_nanos(0), "00000000");
    assert_eq!(user_short_uid_from_nanos(35), "0000000z");
    assert_eq!(user_short_uid_from_nanos(36), "00000010");
    assert_eq!(user_short_uid_from_nanos(36u128.pow(9) + 5), "00000005");
}

#[test]
fn config_text_records_user_short_uid() {
    assert_eq!(config_with_user_short_uid("nudge = 20", "ab"), "nudge = 20\nuser_short_uid = \"ab\"\n");
    assert_eq!(config_with_user_short_uid("", "ab"), "user_short_uid = \"ab\"\n");
    assert_eq!(
        config_with_user_short_uid("a = 1\n  user_short_uid = \"x\"\nb = 2\n", "cd"),
        "a = 1\nuser_short_uid = \"cd\"\nb = 2\n"
    );
}

#[test]
fn config_candidates_walk_up_to_the_root() {
    let c: Vec<String> = config_candidates(&KgPath::parse("/a/b")).iter().map(|p| p.to_text()).collect();
    assert_eq!(c, vec!["/a/b/.kg.toml", "/a/.kg.toml", "/.kg.toml"]);
}
