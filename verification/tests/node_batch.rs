use kg::graph::GraphFile;
use kg::node_batch::{is_in_unit_range, node_add_batch, BatchError, BatchNode};

fn item(id: &str) -> BatchNode {
    BatchNode {
        id: id.to_owned(),
        canonical_id: Ok(id.to_owned()),
        node_type: "Concept".to_owned(),
        name: "Name".to_owned(),
        description: Some("desc".to_owned()),
        domain_area: Some("core".to_owned()),
        provenance: Some("A".to_owned()),
        created_at: Some("2026-04-04T12:00:00Z".to_owned()),
        confidence: Some("0.9".to_owned()),
        importance: Some("1".to_owned()),
        facts: vec!["fact".to_owned()],
        aliases: vec![],
        sources: vec!["DOC README.md".to_owned()],
    }
}

#[test]
fn unit_range_follows_the_decimal_value() {
    for ok in ["0", "1", "0.5", "1.000", "-0", "0.0001", "00.3"] {
        assert!(is_in_unit_range(ok), "{ok}");
    }
    for bad in ["1.01", "2", "-0.1", "NaN", "inf", "", ".5", "1.", "0.5x"] {
        assert!(!is_in_unit_range(bad), "{bad}");
    }
}

#[test]
fn batch_adds_valid_nodes_and_refreshes_counts() {
    let mut g = GraphFile::new("g");
    let r = node_add_batch(&mut g, &vec![item("K:a"), item("K:b")], &None, &None).unwrap();
    assert_eq!(r.created, vec!["K:a".to_owned(), "K:b".to_owned()]);
    assert_eq!(g.nodes.len(), 2);
    assert_eq!(g.metadata.node_count, 2);
    assert_eq!(g.nodes[0].properties.confidence, Some("0.9".to_owned()));
    assert_eq!(g.nodes[0].properties.key_facts, vec!["fact".to_owned()]);
}

#[test]
fn atomic_batch_stops_at_the_first_refused_node() {
    let mut g = GraphFile::new("g");
    let mut bad = item("K:b");
    bad.sources.clear();
    let r = node_add_batch(&mut g, &vec![item("K:a"), bad, item("K:c")], &Some("atomic".to_owned()), &None);
    assert_eq!(
        r.unwrap_err(),
        BatchError::InvalidNode("K:b".to_owned(), "at least one source is required".to_owned())
    );
}

#[test]
fn best_effort_batch_lists_refusals_and_adds_the_rest() {
    let mut g = GraphFile::new("g");
    let mut bad_type = item("K:t");
    bad_type.node_type = "Widget".to_owned();
    let mut bad_prov = item("K:p");
    bad_prov.provenance = Some("X".to_owned());
    let mut bad_conf = item("K:c");
    bad_conf.confidence = Some("1.5".to_owned());
    let mut bad_time = item("K:d");
    bad_time.created_at = Some("yesterday".to_owned());
    let mut bad_id = item("weird");
    bad_id.canonical_id = Err("bad id".to_owned());
    let mut missing = item("K:m");
    missing.importance = None;
    let mut blank = item("K:e");
    blank.domain_area = Some("  ".to_owned());
    let items = vec![item("K:a"), bad_type, bad_prov, bad_conf, bad_time, bad_id, missing, blank, item("K:a")];
    let r = node_add_batch(&mut g, &items, &Some("best_effort".to_owned()), &None).unwrap();
    assert_eq!(r.created, vec!["K:a".to_owned()]);
    let reasons: Vec<(&str, &str)> = r.failed.iter().map(|(a, b)| (a.as_str(), b.as_str())).collect();
    assert_eq!(
        reasons,
        vec![
            ("K:t", "invalid node_type 'Widget': expected one of [\"Concept\", \"Process\", \"DataStore\", \"Interface\", \"Rule\", \"Feature\", \"Decision\", \"Convention\", \"Note\", \"Bug\"]"),
            ("K:p", "provenance must be one of: U, D, A"),
            ("K:c", "confidence out of range: 1.5"),
            ("K:d", "created_at must use UTC format YYYY-MM-DDTHH:MM:SSZ"),
            ("weird", "bad id"),
            ("K:m", "importance is required and must be in range 0..1"),
            ("K:e", "description, domain_area, provenance and created_at are required"),
            ("K:a", "node already exists: K:a"),
        ]
    );
    assert_eq!(g.nodes.len(), 1);
}

#[test]
fn conflicts_can_be_skipped_and_bad_options_are_refused() {
    let mut g = GraphFile::new("g");
    node_add_batch(&mut g, &vec![item("K:a")], &None, &None).unwrap();
    let r = node_add_batch(&mut g, &vec![item("K:a")], &None, &Some("skip".to_owned())).unwrap();
    assert_eq!(r.skipped, vec!["K:a".to_owned()]);
    let r = node_add_batch(&mut g, &vec![item("K:a")], &None, &None);
    assert_eq!(r.unwrap_err(), BatchError::Conflict("K:a".to_owned(), "node already exists: K:a".to_owned()));
    let r = node_add_batch(&mut g, &vec![item("K:z")], &Some("fast".to_owned()), &None);
    assert_eq!(r.unwrap_err(), BatchError::InvalidMode("fast".to_owned()));
    let r = node_add_batch(&mut g, &vec![item("K:z")], &None, &Some("merge".to_owned()));
    assert_eq!(r.unwrap_err(), BatchError::InvalidOnConflict("merge".to_owned()));
    assert_eq!(g.nodes.len(), 1);
}

#[test]
fn invalid_source_reference_is_reported_with_the_source() {
    let mut g = GraphFile::new("g");
    let mut it = item("K:s");
    it.sources = vec!["DOC README.md".to_owned(), "   ".to_owned()];
    let r = node_add_batch(&mut g, &vec![it], &Some("best_effort".to_owned()), &None).unwrap();
    assert_eq!(r.failed[0].1, "invalid source '   ': source entry cannot be empty");
}
