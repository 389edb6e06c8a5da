use kg::graph::{GraphFile, Node, NodeProperties};
use kg::graph_info::{ensure_graph_info_node, graph_uuid_from_bytes};

#[test]
fn load_generates_graph_info_node_when_missing() {
    let mut graph = GraphFile::new("meta");
    let changed = ensure_graph_info_node(&mut graph, "00112233445566778899");
    assert!(changed);
    let info = &graph.nodes[0];
    assert_eq!(info.id, "^:graph_info");
    assert_eq!(info.node_type, "^");
    assert!(info.properties.key_facts.iter().any(|fact| fact.starts_with("graph_uuid=")));
    assert_eq!(info.properties.key_facts, vec!["graph_uuid=00112233445566778899"]);
    assert_eq!(info.source_files, vec!["DOC .kg/internal/graph_info"]);
}

#[test]
fn ensure_graph_info_node_repairs_and_then_keeps() {
    let mut graph = GraphFile::new("meta");
    graph.nodes.push(Node {
        id: "^:graph_info".to_owned(),
        node_type: "Concept".to_owned(),
        name: String::new(),
        properties: NodeProperties::new_default(),
        source_files: Vec::new(),
    });
    assert!(ensure_graph_info_node(&mut graph, "abc"));
    assert_eq!(graph.nodes.len(), 1);
    assert_eq!(graph.nodes[0].node_type, "^");
    assert_eq!(graph.nodes[0].name, "Graph Metadata");
    assert_eq!(graph.nodes[0].properties.key_facts, vec!["graph_uuid=abc"]);
    assert!(!ensure_graph_info_node(&mut graph, "def"));
    assert_eq!(graph.nodes[0].properties.key_facts, vec!["graph_uuid=abc"]);
}

#[test]
fn graph_uuid_is_lowercase_hex() {
    let bytes = [0u8, 1, 15, 16, 171, 205, 239, 255, 9, 10];
    assert_eq!(graph_uuid_from_bytes(&bytes), "00010f10abcdefff090a");
}
