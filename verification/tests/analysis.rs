use kg::analysis::{
    edge_counts, filtered_nodes, render_edge_gaps, render_missing_descriptions,
    render_missing_facts, render_stats,
};
use kg::cli::{EdgeGapsArgs, MissingDescriptionsArgs, MissingFactsArgs, MissingFactsSort, StatsArgs};
use kg::graph::{Edge, EdgeProperties, GraphFile, Node, NodeProperties};

fn node(id: &str, node_type: &str, name: &str) -> Node {
    Node {
        id: id.to_owned(),
        node_type: node_type.to_owned(),
        name: name.to_owned(),
        properties: NodeProperties::new_default(),
        source_files: Vec::new(),
    }
}

fn edge(source: &str, relation: &str, target: &str) -> Edge {
    Edge {
        source_id: source.to_owned(),
        relation: relation.to_owned(),
        target_id: target.to_owned(),
        properties: EdgeProperties::new_default(),
    }
}

fn sample() -> GraphFile {
    let mut graph = GraphFile::new("test");
    let mut a = node("concept:a", "Concept", "A");
    a.properties.description = "described".to_owned();
    a.properties.key_facts.push("fact".to_owned());
    a.source_files.push("DOC a.md".to_owned());
    graph.nodes.push(a);
    let mut b = node("concept:b", "Concept", "B");
    b.properties.description = "  ".to_owned();
    b.source_files.push("DOC a.md".to_owned());
    b.source_files.push("DOC b.md".to_owned());
    graph.nodes.push(b);
    graph.nodes.push(node("process:p", "Process", "P"));
    graph.nodes.push(node("datastore:s", "DataStore", "S"));
    graph.nodes.push(node("datastore:t", "DataStore", "T"));
    graph.nodes.push(node("feature:f", "Feature", "F"));
    graph.edges.push(edge("concept:a", "HAS", "concept:b"));
    graph.edges.push(edge("concept:b", "STORED_IN", "datastore:s"));
    graph.edges.push(edge("concept:a", "USES", "feature:f"));
    graph.edges.push(edge("concept:b", "HAS", "concept:a"));
    graph
}

#[test]
fn filtered_nodes_skips_features_and_other_types() {
    let graph = sample();
    assert_eq!(filtered_nodes(&graph, &Vec::new(), false).len(), 5);
    assert_eq!(filtered_nodes(&graph, &Vec::new(), true).len(), 6);
    let only = filtered_nodes(&graph, &vec!["DataStore".to_owned()], false);
    let ids: Vec<&str> = only.iter().map(|n| n.id.as_str()).collect();
    assert_eq!(ids, vec!["datastore:s", "datastore:t"]);
}

#[test]
fn edge_counts_counts_both_ends() {
    let graph = sample();
    let counts = edge_counts(&graph);
    assert_eq!(counts[0], ("concept:a".to_owned(), 3));
    assert_eq!(counts[1], ("concept:b".to_owned(), 3));
    assert_eq!(counts.len(), 4);
}

#[test]
fn render_stats_counts_types_relations_and_sources() {
    let graph = sample();
    let args = StatsArgs { include_features: false, by_type: true, by_relation: true, show_sources: true };
    assert_eq!(
        render_stats(&graph, &args),
        "= stats\nnodes: 5\nedges: 4\ntypes:\n  - Concept: 2\n  - DataStore: 2\n  - Process: 1\nrelations:\n  - HAS: 2\n  - STORED_IN: 1\nsources: 2\n"
    );
    let plain = StatsArgs { include_features: true, by_type: false, by_relation: false, show_sources: false };
    assert_eq!(render_stats(&graph, &plain), "= stats\nnodes: 6\nedges: 4\n");
}

#[test]
fn render_missing_descriptions_lists_sorted_by_type_and_id() {
    let graph = sample();
    let args = MissingDescriptionsArgs { limit: 3, node_types: Vec::new(), include_features: false, json: false };
    assert_eq!(
        render_missing_descriptions(&graph, &args),
        "= missing-descriptions (4)\n- Concept | concept:b | B\n- DataStore | datastore:s | S\n- DataStore | datastore:t | T\n"
    );
}

#[test]
fn render_missing_facts_orders_by_edges_or_id() {
    let graph = sample();
    let args = MissingFactsArgs {
        limit: 10,
        node_types: Vec::new(),
        include_features: false,
        sort: MissingFactsSort::Edges,
        json: false,
    };
    assert_eq!(
        render_missing_facts(&graph, &args),
        "= missing-facts (4)\n- Concept | concept:b | B | edges:3\n- DataStore | datastore:s | S | edges:1\n- DataStore | datastore:t | T | edges:0\n- Process | process:p | P | edges:0\n"
    );
    let by_id = MissingFactsArgs { sort: MissingFactsSort::Id, limit: 2, ..args };
    assert_eq!(
        render_missing_facts(&graph, &by_id),
        "= missing-facts (4)\n- Concept | concept:b | B | edges:3\n- DataStore | datastore:s | S | edges:1\n"
    );
}

#[test]
fn render_edge_gaps_reports_unstored_datastores_and_orphan_processes() {
    let graph = sample();
    let args = EdgeGapsArgs { node_types: Vec::new(), relation: None, limit: 50, json: false };
    assert_eq!(
        render_edge_gaps(&graph, &args),
        "= edge-gaps\ndatastore-missing-stored-in: 1\n- DataStore | datastore:t | T\nprocess-missing-incoming: 1\n- Process | process:p | P\n"
    );
    let has = EdgeGapsArgs { node_types: Vec::new(), relation: Some("HAS".to_owned()), limit: 50, json: false };
    assert_eq!(
        render_edge_gaps(&graph, &has),
        "= edge-gaps\ndatastore-missing-stored-in: 2\n- DataStore | datastore:s | S\n- DataStore | datastore:t | T\nprocess-missing-incoming: 1\n- Process | process:p | P\n"
    );
}
