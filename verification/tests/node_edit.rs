use kg::graph::{Edge, EdgeProperties, GraphFile, Node, NodeProperties, Note};
use kg::node_edit::{node_change_lines, rename_node};

fn node(id: &str) -> Node {
    Node {
        id: id.to_owned(),
        node_type: "Concept".to_owned(),
        name: id.to_owned(),
        properties: NodeProperties::new_default(),
        source_files: Vec::new(),
    }
}

#[test]
fn rename_node_moves_edges_and_notes() {
    let mut g = GraphFile::new("g");
    g.nodes.push(node("K:a"));
    g.nodes.push(node("K:b"));
    g.edges.push(Edge {
        source_id: "K:a".to_owned(),
        relation: "USES".to_owned(),
        target_id: "K:b".to_owned(),
        properties: EdgeProperties::new_default(),
    });
    g.edges.push(Edge {
        source_id: "K:b".to_owned(),
        relation: "USES".to_owned(),
        target_id: "K:a".to_owned(),
        properties: EdgeProperties::new_default(),
    });
    g.notes.push(Note {
        id: "n".to_owned(),
        node_id: "K:a".to_owned(),
        body: String::new(),
        tags: vec![],
        author: String::new(),
        created_at: String::new(),
        provenance: String::new(),
        source_files: vec![],
    });
    assert_eq!(rename_node(&mut g, "K:a", "K:c"), Ok("~ node K:a -> K:c\n".to_owned()));
    assert_eq!(g.nodes[0].id, "K:c");
    assert_eq!(g.edges[0].source_id, "K:c");
    assert_eq!(g.edges[1].target_id, "K:c");
    assert_eq!(g.notes[0].node_id, "K:c");
    assert_eq!(rename_node(&mut g, "K:c", "K:b"), Err("node already exists: K:b".to_owned()));
    assert_eq!(rename_node(&mut g, "K:z", "K:y"), Err("node not found: K:z".to_owned()));
    assert_eq!(rename_node(&mut g, "K:b", "K:b"), Err("node already exists: K:b".to_owned()));
}

#[test]
fn change_lines_report_changed_fields() {
    let a = node("K:a");
    let mut b = node("K:a");
    b.name = "Alpha".to_owned();
    b.properties.description = "first\nsecond".to_owned();
    b.properties.importance = "0.90".to_owned();
    b.properties.confidence = Some("0.8".to_owned());
    b.properties.valid_to = "2026-01-01T00:00:00Z".to_owned();
    let lines = node_change_lines(&a, &b, true, true);
    assert_eq!(
        lines,
        vec![
            "- name: K:a",
            "+ name: Alpha",
            "- description: ",
            "+ description: first",
            "- importance: 0.5",
            "+ importance: 0.9",
            "- confidence: none",
            "+ confidence: 0.8",
            "- valid_to: ",
            "+ valid_to: 2026-01-01T00:00:00Z",
        ]
    );
    assert!(node_change_lines(&a, &node("K:a"), false, false).is_empty());
}
