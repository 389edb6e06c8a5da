use kg::graph::{Edge, EdgeProperties, GraphFile, Node, NodeProperties, Note};
use kg::node_detail::{render_node_detail, truncate, LineStyle};

fn node(id: &str, name: &str) -> Node {
    Node {
        id: id.to_owned(),
        node_type: "Concept".to_owned(),
        name: name.to_owned(),
        properties: NodeProperties::new_default(),
        source_files: Vec::new(),
    }
}

fn edge(source: &str, relation: &str, target: &str) -> Edge {
    Edge {
        source_id: source.to_owned(),
        relation: relation.to_owned(),
        target_id: target.to_owned(),
        properties: EdgeProperties::new_default(),
    }
}

#[test]
fn render_node_detail_lists_sections() {
    let mut graph = GraphFile::new("g");
    let mut a = node("concept:a", "A");
    a.properties.description = "About A".to_owned();
    a.properties.alias = vec!["x".to_owned(), "y".to_owned()];
    a.properties.key_facts = (1..=6).map(|i| format!("fact {i}")).collect();
    graph.nodes.push(a);
    graph.nodes.push(node("concept:b", "B"));
    graph.edges.push(edge("concept:a", "HAS", "concept:b"));
    graph.edges.push(edge("concept:b", "USES", "concept:a"));
    graph.notes.push(Note {
        id: "n1".to_owned(),
        node_id: "concept:a".to_owned(),
        body: "body".to_owned(),
        tags: Vec::new(),
        author: "ann".to_owned(),
        created_at: "2024-01-01".to_owned(),
        provenance: String::new(),
        source_files: Vec::new(),
    });
    let lines = render_node_detail(&graph, &graph.nodes[0]);
    let texts: Vec<&str> = lines.iter().map(|l| l.text.as_str()).collect();
    assert_eq!(
        texts,
        vec![
            "concept:a | A",
            "About A",
            "aka: x, y",
            "",
            "facts",
            "- fact 1",
            "- fact 2",
            "- fact 3",
            "- fact 4",
            "- fact 5",
            "",
            "connections",
            "-> HAS concept:b",
            "<- USES concept:b",
            "",
            "notes",
            "2024-01-01 ann: body",
        ]
    );
    assert_eq!(lines[0].style, LineStyle::Title);
    assert_eq!(lines[4].style, LineStyle::Section);
    assert_eq!(lines[5].style, LineStyle::Plain);
}

#[test]
fn render_node_detail_of_a_bare_node_is_its_heading() {
    let mut graph = GraphFile::new("g");
    graph.nodes.push(node("concept:z", "Z"));
    let lines = render_node_detail(&graph, &graph.nodes[0]);
    assert_eq!(lines.len(), 1);
    assert_eq!(lines[0].text, "concept:z | Z");
}

#[test]
fn truncate_counts_characters() {
    assert_eq!(truncate("short", 10), "short");
    assert_eq!(truncate("abcdefghij", 6), "abc...");
    assert_eq!(truncate("żółwżółw", 5), "żó...");
    assert_eq!(truncate("abcd", 2), "...");
}
