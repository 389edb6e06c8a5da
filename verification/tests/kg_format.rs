use kg::kg_parse::parse_kg;

#[test]
fn parse_bidirectional_similarity_edge_is_canonical_and_scored() {
    let raw = "@ ~:dedupe_b\nN B\nD Desc\nV 0.5\nP U\nS docs/b.md\n= ~ ~:dedupe_a\nd C1 0.11\nd C2 0.83\nd 0.91\n\n@ ~:dedupe_a\nN A\nD Desc\nV 0.5\nP U\nS docs/a.md\n";
    let graph = parse_kg(raw, "virt", true).expect("parse kg");

    assert_eq!(graph.nodes.len(), 2);
    assert_eq!(graph.edges.len(), 1);
    let edge = &graph.edges[0];
    assert_eq!(edge.relation, "~");
    assert_eq!(edge.source_id, "~:dedupe_a");
    assert_eq!(edge.target_id, "~:dedupe_b");
    assert_eq!(edge.properties.detail, "0.91");
    assert!(edge.properties.bidirectional);
    let score = |key: &str| -> Option<f64> {
        edge.properties
            .score_components
            .iter()
            .find(|(k, _)| k == key)
            .map(|(_, v)| v.parse::<f64>().expect("score"))
    };
    assert_eq!(score("C1"), Some(0.11));
    assert_eq!(score("C2"), Some(0.83));
}

#[test]
fn strict_mode_rejects_bidirectional_relation_other_than_similarity() {
    let raw = "@ K:concept:a\nN A\nD Desc\nV 0.5\nP U\nS docs/a.md\n= HAS concept:b\n";
    let err = parse_kg(raw, "x", true).expect_err("strict mode should reject invalid '='");
    assert!(err.contains("expected '~'"));
}

#[test]
fn strict_mode_rejects_out_of_order_node_fields() {
    let raw = "@ K:concept:x\nD Desc\nN Name\nE 2026-04-04T12:00:00Z\nV 4\nP U\nS docs/a.md\n";
    let err = parse_kg(raw, "x", true).expect_err("strict mode should fail on field order");
    assert!(err.contains("invalid field order"));
}

#[test]
fn strict_mode_rejects_overlong_name_but_compat_mode_allows_it() {
    let long_name = "N ".to_owned() + &"X".repeat(121);
    let raw = format!(
        "@ K:concept:x\n{}\nD Desc\nE 2026-04-04T12:00:00Z\nV 4\nP U\nS docs/a.md\n",
        long_name
    );

    let strict_err = parse_kg(&raw, "x", true).expect_err("strict mode should fail on length");
    assert!(strict_err.contains("invalid N length"));

    parse_kg(&raw, "x", false).expect("compat mode keeps permissive behavior");
}
