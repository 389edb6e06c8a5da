use kg::graph::{Edge, EdgeProperties, GraphFile, Node, NodeProperties, Note};
use kg::kg_parse::parse_kg_with_warnings;
use kg::kg_write::serialize_kg;

fn sample() -> GraphFile {
    let mut graph = GraphFile::new("g");
    let mut a = NodeProperties::new_default();
    a.description = "Line 1\nLine 2 \\n literal".to_owned();
    a.alias = vec!["Alpha".to_owned(), "beta".to_owned()];
    a.created_at = "2026-04-04T12:00:00Z".to_owned();
    a.confidence = Some("0.9".to_owned());
    a.feedback_count = 3;
    graph.nodes.push(Node {
        id: "concept:a".to_owned(),
        node_type: "Concept".to_owned(),
        name: "A".to_owned(),
        properties: a,
        source_files: vec!["docs/a.md".to_owned()],
    });
    graph.nodes.push(Node {
        id: "concept:b".to_owned(),
        node_type: "Widget".to_owned(),
        name: String::new(),
        properties: NodeProperties::new_default(),
        source_files: Vec::new(),
    });
    let mut p = EdgeProperties::new_default();
    p.detail = "runtime\nread".to_owned();
    p.valid_from = "2026-04-04T12:00:00Z".to_owned();
    p.score_components = vec![("C1".to_owned(), "0.2".to_owned())];
    graph.edges.push(Edge {
        source_id: "concept:a".to_owned(),
        relation: "READS_FROM".to_owned(),
        target_id: "concept:b".to_owned(),
        properties: p,
    });
    graph.notes.push(Note {
        id: "note:1".to_owned(),
        node_id: "concept:a".to_owned(),
        body: "multi\nline".to_owned(),
        tags: vec!["maintenance".to_owned()],
        author: "alice".to_owned(),
        created_at: "1712345678".to_owned(),
        provenance: "U".to_owned(),
        source_files: Vec::new(),
    });
    graph.refresh_counts();
    graph
}

#[test]
fn written_graph_reads_back_unchanged() {
    let graph = sample();
    let text = serialize_kg(&graph);
    let (back, warnings) = parse_kg_with_warnings(&text, "g", false).expect("parse");
    assert!(warnings.is_empty());
    assert_eq!(serialize_kg(&back), text);
    assert!(text.contains("V 0.5\n"));
    assert_eq!(back.nodes.len(), 2);
    assert_eq!(back.nodes[0].properties.description, "Line 1\nLine 2 \\n literal");
    assert_eq!(back.nodes[0].properties.alias, vec!["Alpha".to_owned(), "beta".to_owned()]);
    assert_eq!(back.nodes[0].properties.confidence, Some("0.9".to_owned()));
    assert_eq!(back.nodes[0].properties.feedback_count, 3);
    assert_eq!(back.nodes[1].node_type, "Widget");
    assert_eq!(back.edges[0].relation, "READS_FROM");
    assert_eq!(back.edges[0].properties.detail, "runtime\nread");
    assert_eq!(back.edges[0].properties.score_components, vec![("C1".to_owned(), "0.200000".to_owned())]);
    assert_eq!(back.notes[0].body, "multi\nline");
    assert_eq!(back.metadata.node_count, 2);
    assert_eq!(back.metadata.edge_count, 1);
}

#[test]
fn writer_uses_codes_and_skips_empty_fields() {
    let text = serialize_kg(&sample());
    assert!(text.contains("@ K:concept:a\n"));
    assert!(text.contains("@ Widget:concept:b\n"));
    assert!(text.contains("> R concept:b\n"));
    assert!(text.contains("d C1 0.200000\n"));
    assert!(!text.contains("\nN \n"));
    assert!(!text.contains("\nP \n"));
}

#[test]
fn graph_in_any_order_reads_back_sorted_with_fresh_counts() {
    let mut graph = GraphFile::new("g");
    for id in ["concept:z", "concept:m", "concept:a"] {
        graph.nodes.push(Node {
            id: id.to_owned(),
            node_type: "Concept".to_owned(),
            name: id.to_owned(),
            properties: NodeProperties::new_default(),
            source_files: Vec::new(),
        });
    }
    for (s, t) in [("concept:z", "concept:a"), ("concept:a", "concept:m")] {
        graph.edges.push(Edge {
            source_id: s.to_owned(),
            relation: "DEPENDS_ON".to_owned(),
            target_id: t.to_owned(),
            properties: EdgeProperties::new_default(),
        });
    }
    // counts left stale on purpose
    let text = serialize_kg(&graph);
    let (back, warnings) = parse_kg_with_warnings(&text, "g", false).expect("parse");
    assert!(warnings.is_empty());
    let ids: Vec<&str> = back.nodes.iter().map(|n| n.id.as_str()).collect();
    assert_eq!(ids, vec!["concept:a", "concept:m", "concept:z"]);
    assert_eq!(back.edges[0].source_id, "concept:a");
    assert_eq!(back.edges[1].source_id, "concept:z");
    assert_eq!(back.metadata.node_count, 3);
    assert_eq!(back.metadata.edge_count, 2);
}

#[test]
fn serialize_bidirectional_similarity_edge_uses_equals_operator() {
    let mut graph = GraphFile::new("g");
    for id in ["~:dedupe_a", "~:dedupe_b"] {
        graph.nodes.push(Node {
            id: id.to_owned(),
            node_type: "~".to_owned(),
            name: id.to_owned(),
            properties: NodeProperties::new_default(),
            source_files: Vec::new(),
        });
    }
    let mut p = EdgeProperties::new_default();
    p.bidirectional = true;
    p.detail = "0.75".to_owned();
    p.score_components = vec![("C1".to_owned(), "0.2".to_owned()), ("C2".to_owned(), "0.8".to_owned())];
    graph.edges.push(Edge {
        source_id: "~:dedupe_a".to_owned(),
        relation: "~".to_owned(),
        target_id: "~:dedupe_b".to_owned(),
        properties: p,
    });
    let s = serialize_kg(&graph);
    assert!(s.contains("= ~ ~:dedupe_b"));
    assert!(s.contains("d C1 0.200000"));
    assert!(s.contains("d C2 0.800000"));
    assert!(!s.contains("> ~ ~:dedupe_b"));
}

#[test]
fn writer_prints_numbers_as_floats_are_displayed() {
    let mut graph = GraphFile::new("g");
    let mut props = NodeProperties::new_default();
    props.importance = "0.50".to_owned();
    props.confidence = Some("+01.250".to_owned());
    props.feedback_score = "2.0".to_owned();
    props.alias = vec!["beta".to_owned(), "Alpha".to_owned()];
    graph.nodes.push(Node {
        id: "concept:a".to_owned(),
        node_type: "Concept".to_owned(),
        name: "A".to_owned(),
        properties: props,
        source_files: Vec::new(),
    });
    let mut p = EdgeProperties::new_default();
    p.score_components = vec![("C2".to_owned(), "0.1234567".to_owned()), ("C1".to_owned(), "3".to_owned())];
    graph.edges.push(Edge {
        source_id: "concept:a".to_owned(),
        relation: "READS_FROM".to_owned(),
        target_id: "concept:b".to_owned(),
        properties: p,
    });
    let s = serialize_kg(&graph);
    assert!(s.contains("V 0.5\n"));
    assert!(s.contains("C 1.25\n"));
    assert!(s.contains("- feedback_score 2\n"));
    assert!(s.contains("A Alpha\nA beta\n"));
    assert!(s.contains("d C1 3.000000\nd C2 0.123457\n"));
}
