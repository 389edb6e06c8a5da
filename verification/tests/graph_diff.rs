use kg::graph::{Edge, EdgeProperties, GraphFile, Node, NodeProperties};
use kg::graph_diff::{graph_diff, render_graph_diff_from_files};

fn node(id: &str, name: &str) -> Node {
    Node {
        id: id.to_owned(),
        node_type: "Concept".to_owned(),
        name: name.to_owned(),
        properties: NodeProperties::new_default(),
        source_files: Vec::new(),
    }
}

fn edge(source: &str, relation: &str, target: &str) -> Edge {
    Edge {
        source_id: source.to_owned(),
        relation: relation.to_owned(),
        target_id: target.to_owned(),
        properties: EdgeProperties::new_default(),
    }
}

#[test]
fn diff_lists_added_removed_and_changed_sorted() {
    let mut left = GraphFile::new("l");
    left.nodes.push(node("b", "B"));
    left.nodes.push(node("a", "A"));
    left.nodes.push(node("c", "C"));
    left.edges.push(edge("a", "HAS", "b"));
    let mut right = GraphFile::new("r");
    right.nodes.push(node("a", "A2"));
    right.nodes.push(node("d", "D"));
    right.nodes.push(node("c", "C"));
    right.edges.push(edge("a", "HAS", "d"));

    let d = graph_diff(&left, &right);
    assert_eq!(d.added_nodes, vec!["d".to_owned()]);
    assert_eq!(d.removed_nodes, vec!["b".to_owned()]);
    assert_eq!(d.changed_nodes, vec!["a".to_owned()]);
    assert_eq!(d.added_edges, vec!["a HAS d".to_owned()]);
    assert_eq!(d.removed_edges, vec!["a HAS b".to_owned()]);
    assert!(d.changed_edges.is_empty());
    assert!(d.added_notes.is_empty());

    let text = render_graph_diff_from_files(
        "l",
        "r",
        &d,
        &vec![vec!["name: \"A\" -> \"A2\"".to_owned()]],
        &vec![],
        &vec![],
    );
    assert_eq!(
        text,
        "= diff l -> r\n+ nodes (1)\n+ node d\n- nodes (1)\n- node b\n~ nodes (1)\n~ node a\n  ~ name: \"A\" -> \"A2\"\n+ edges (1)\n+ edge a HAS d\n- edges (1)\n- edge a HAS b\n~ edges (0)\n+ notes (0)\n- notes (0)\n~ notes (0)\n"
    );
}

#[test]
fn diff_of_a_graph_with_itself_is_empty() {
    let mut g = GraphFile::new("g");
    g.nodes.push(node("a", "A"));
    g.edges.push(edge("a", "HAS", "a"));
    let d = graph_diff(&g, &g);
    assert!(d.added_nodes.is_empty() && d.removed_nodes.is_empty() && d.changed_nodes.is_empty());
    assert!(d.added_edges.is_empty() && d.removed_edges.is_empty() && d.changed_edges.is_empty());
}

#[test]
fn diff_uses_the_last_entity_under_a_key() {
    let mut left = GraphFile::new("l");
    left.nodes.push(node("a", "old"));
    left.nodes.push(node("a", "same"));
    let mut right = GraphFile::new("r");
    right.nodes.push(node("a", "same"));
    let d = graph_diff(&left, &right);
    assert!(d.changed_nodes.is_empty());
}
