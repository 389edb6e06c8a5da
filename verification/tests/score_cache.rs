use kg::score_cache::latest_score_snapshot;

#[test]
fn latest_score_snapshot_picks_largest_timestamp() {
    let names: Vec<String> = [
        "fridge.score.100.kg",
        "fridge.kg",
        "fridge.score.300.kg",
        "other.score.900.kg",
        "fridge.score.abc.kg",
        "fridge.score.300.kg",
        "fridge.score.200.kg",
    ]
    .iter()
    .map(|s| s.to_string())
    .collect();
    assert_eq!(latest_score_snapshot(&names, "fridge"), Some(2));
    assert_eq!(latest_score_snapshot(&names, "none"), None);
}
