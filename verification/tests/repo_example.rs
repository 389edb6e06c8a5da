use kg::kg_parse::parse_kg_with_warnings;
use kg::kg_write::serialize_kg;
use kg::repo_example::repo_example_graph;

#[test]
fn repo_example_has_its_nodes_and_edges() {
    let g = repo_example_graph();
    assert_eq!(g.metadata.name, "repo-example");
    assert_eq!(g.metadata.version, "1.0");
    assert_eq!(g.metadata.description, "Auto-generated example graph for the kg repository");
    assert_eq!(g.nodes.len(), 17);
    assert_eq!(g.edges.len(), 20);
    assert_eq!(g.nodes[0].id, "^:graph_info");
    assert_eq!(g.nodes[0].properties.importance, "1");
    assert_eq!(g.nodes[2].properties.importance, "5");
    assert_eq!(g.nodes[2].properties.provenance, "A");
    assert_eq!(g.edges[19].target_id, "R:stable_ids");
    for e in &g.edges {
        assert!(g.nodes.iter().any(|n| n.id == e.source_id));
        assert!(g.nodes.iter().any(|n| n.id == e.target_id));
    }
}

#[test]
fn repo_example_reads_back_without_warnings() {
    let g = repo_example_graph();
    let text = serialize_kg(&g);
    let (back, warnings) = parse_kg_with_warnings(&text, "repo-example", false).expect("parse");
    assert!(warnings.is_empty());
    assert_eq!(back.nodes.len(), 17);
    assert_eq!(back.edges.len(), 20);
}
