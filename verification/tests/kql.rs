use kg::graph::{Edge, EdgeProperties, GraphFile, Node, NodeProperties, Note};
use kg::kql::{parse_query, query, render_query, FilterOp, KqlResponse, NeighborDir, QueryKind};

fn node(id: &str, node_type: &str, name: &str) -> Node {
    Node {
        id: id.to_owned(),
        node_type: node_type.to_owned(),
        name: name.to_owned(),
        properties: NodeProperties::new_default(),
        source_files: Vec::new(),
    }
}

fn edge(source: &str, relation: &str, target: &str) -> Edge {
    Edge {
        source_id: source.to_owned(),
        relation: relation.to_owned(),
        target_id: target.to_owned(),
        properties: EdgeProperties::new_default(),
    }
}

fn sample() -> GraphFile {
    let mut graph = GraphFile::new("test");
    graph.nodes.push(node("concept:a", "Concept", "A"));
    graph.nodes.push(node("concept:b", "Concept", "B"));
    graph.nodes.push(node("process:c", "Process", "C"));
    graph.nodes.push(node("concept:d", "Concept", "D"));
    graph.edges.push(edge("concept:a", "HAS", "concept:b"));
    graph.edges.push(edge("concept:b", "TRIGGERS", "process:c"));
    graph
}

#[test]
fn query_without_filters_matches_all_nodes() {
    let mut graph = GraphFile::new("test");
    graph.nodes.push(node("concept:a", "Concept", "A"));
    graph.nodes.push(node("concept:b", "Concept", "B"));

    let result = query(&graph, "node").expect("query should succeed");
    match result {
        KqlResponse::Nodes { nodes, total } => {
            assert_eq!(total, 2);
            assert_eq!(nodes.len(), 2);
        }
        _ => panic!("expected node response"),
    }
}

#[test]
fn query_without_filters_matches_all_edges() {
    let mut graph = GraphFile::new("test");
    graph.nodes.push(node("concept:a", "Concept", "A"));
    graph.nodes.push(node("concept:b", "Concept", "B"));
    graph.edges.push(edge("concept:a", "HAS", "concept:b"));

    let result = query(&graph, "edge").expect("query should succeed");
    match result {
        KqlResponse::Edges { edges, total } => {
            assert_eq!(total, 1);
            assert_eq!(edges.len(), 1);
        }
        _ => panic!("expected edge response"),
    }
}

#[test]
fn query_without_filters_matches_all_notes() {
    let mut graph = GraphFile::new("test");
    graph.notes.push(Note {
        id: "note:1".to_owned(),
        node_id: "concept:a".to_owned(),
        body: "text".to_owned(),
        tags: vec!["tag".to_owned()],
        author: "tester".to_owned(),
        created_at: "2026-01-01".to_owned(),
        provenance: "U".to_owned(),
        source_files: vec![],
    });

    let result = query(&graph, "note").expect("query should succeed");
    match result {
        KqlResponse::Notes { notes, total } => {
            assert_eq!(total, 1);
            assert_eq!(notes.len(), 1);
        }
        _ => panic!("expected note response"),
    }
}

#[test]
fn parse_query_reads_filters_sort_and_limit() {
    match parse_query("nodes type=Concept name^\"A\" sort=-name limit=2").expect("parse") {
        QueryKind::Node { filters, limit, sort } => {
            assert_eq!(filters.len(), 2);
            assert_eq!(filters[0].key, "type");
            assert_eq!(filters[0].op, FilterOp::Eq);
            assert_eq!(filters[0].value, "Concept");
            assert_eq!(filters[1].op, FilterOp::Prefix);
            assert_eq!(filters[1].value, "A");
            assert_eq!(limit, Some(2));
            let sort = sort.expect("sort");
            assert_eq!(sort.key, "name");
            assert!(sort.desc);
        }
        _ => panic!("expected node query"),
    }
}

#[test]
fn parse_query_bang_reads_as_equality_with_the_rest_as_value() {
    match parse_query("node name!=x").expect("parse") {
        QueryKind::Node { filters, .. } => {
            assert_eq!(filters[0].key, "name");
            assert_eq!(filters[0].op, FilterOp::Eq);
            assert_eq!(filters[0].value, "=x");
        }
        _ => panic!("expected node query"),
    }
}

#[test]
fn parse_query_errors() {
    assert_eq!(parse_query("   ").err(), Some("empty query".to_owned()));
    assert_eq!(parse_query("widgets").err(), Some("unknown query kind: widgets".to_owned()));
    assert_eq!(parse_query("neighbors").err(), Some("neighbors requires an id".to_owned()));
    assert_eq!(parse_query("neighbors out").err(), Some("neighbors requires a node id".to_owned()));
    assert_eq!(parse_query("path a").err(), Some("path requires from and to".to_owned()));
    assert_eq!(parse_query("count").err(), Some("aggregate requires a kind".to_owned()));
}

#[test]
fn parse_query_neighbors_and_path_options() {
    match parse_query("neighbors concept:a hops=2 out limit=5").expect("parse") {
        QueryKind::Neighbors { id, hops, dir, limit } => {
            assert_eq!(id, "concept:a");
            assert_eq!(hops, 2);
            assert_eq!(dir, NeighborDir::Out);
            assert_eq!(limit, Some(5));
        }
        _ => panic!("expected neighbors"),
    }
    match parse_query("path from=a to=b hops=x").expect("parse") {
        QueryKind::Path { from, to, max_hops } => {
            assert_eq!((from.as_str(), to.as_str(), max_hops), ("a", "b", 3));
        }
        _ => panic!("expected path"),
    }
}

#[test]
fn node_filters_contains_and_sorting() {
    let graph = sample();
    match query(&graph, "node id~concept sort=-id").expect("query") {
        KqlResponse::Nodes { nodes, total } => {
            assert_eq!(total, 3);
            let ids: Vec<&str> = nodes.iter().map(|n| n.id.as_str()).collect();
            assert_eq!(ids, vec!["concept:d", "concept:b", "concept:a"]);
        }
        _ => panic!("expected nodes"),
    }
    match query(&graph, "node type!Concept").expect("query") {
        KqlResponse::Nodes { total, .. } => assert_eq!(total, 3),
        _ => panic!("expected nodes"),
    }
    match query(&graph, "node limit=1").expect("query") {
        KqlResponse::Nodes { nodes, total } => {
            assert_eq!(total, 4);
            assert_eq!(nodes.len(), 1);
        }
        _ => panic!("expected nodes"),
    }
}

#[test]
fn neighbors_follow_direction_and_hops() {
    let graph = sample();
    match query(&graph, "neighbors concept:a hops=2 out").expect("query") {
        KqlResponse::Neighbors { nodes, distance } => {
            assert_eq!(distance, 2);
            let ids: Vec<&str> = nodes.iter().map(|n| n.id.as_str()).collect();
            assert_eq!(ids, vec!["concept:b", "process:c"]);
        }
        _ => panic!("expected neighbors"),
    }
    match query(&graph, "neighbors concept:b in").expect("query") {
        KqlResponse::Neighbors { nodes, .. } => {
            let ids: Vec<&str> = nodes.iter().map(|n| n.id.as_str()).collect();
            assert_eq!(ids, vec!["concept:a"]);
        }
        _ => panic!("expected neighbors"),
    }
}

#[test]
fn path_is_found_within_hops_or_reported_missing() {
    let graph = sample();
    match query(&graph, "path concept:a process:c").expect("query") {
        KqlResponse::Path { nodes, length } => {
            assert_eq!(length, 3);
            let ids: Vec<&str> = nodes.iter().map(|n| n.id.as_str()).collect();
            assert_eq!(ids, vec!["concept:a", "concept:b", "process:c"]);
        }
        _ => panic!("expected path"),
    }
    assert_eq!(
        query(&graph, "path concept:a process:c hops=2").err(),
        Some("no path found from concept:a to process:c (max 2 hops)".to_owned())
    );
    assert_eq!(
        query(&graph, "path concept:a missing:x").err(),
        Some("node not found: missing:x".to_owned())
    );
}

#[test]
fn aggregate_counts_groups_most_frequent_first() {
    let graph = sample();
    match query(&graph, "count node by=type").expect("query") {
        KqlResponse::Aggregate { groups } => {
            assert_eq!(
                groups,
                vec![("Concept".to_owned(), 3), ("Process".to_owned(), 1)]
            );
        }
        _ => panic!("expected aggregate"),
    }
    assert_eq!(
        query(&graph, "count widgets").err(),
        Some("unknown aggregate kind: widgets".to_owned())
    );
}

#[test]
fn render_query_lists_nodes_and_edges() {
    let graph = sample();
    assert_eq!(
        render_query(&graph, "node type=Process").expect("render"),
        "= kql node type=Process\nnodes: 1 (total: 1)\n# process:c | C [Process]\n"
    );
    assert_eq!(
        render_query(&graph, "edge relation=HAS").expect("render"),
        "= kql edge relation=HAS\nedges: 1 (total: 1)\n- concept:a HAS concept:b\n"
    );
}

#[test]
fn path_takes_the_shortest_route() {
    let mut graph = GraphFile::new("test");
    for id in ["concept:a", "concept:b", "concept:c", "concept:d", "concept:e"] {
        graph.nodes.push(node(id, "Concept", id));
    }
    graph.edges.push(edge("concept:a", "HAS", "concept:b"));
    graph.edges.push(edge("concept:b", "HAS", "concept:c"));
    graph.edges.push(edge("concept:c", "HAS", "concept:e"));
    graph.edges.push(edge("concept:d", "HAS", "concept:a"));
    graph.edges.push(edge("concept:d", "HAS", "concept:e"));
    let found = kg::kql::find_path(&graph, &"concept:a".to_owned(), &"concept:e".to_owned(), 10)
        .expect("path");
    let ids: Vec<&str> = found.iter().map(|n| n.id.as_str()).collect();
    assert_eq!(ids, vec!["concept:a", "concept:d", "concept:e"]);
    assert!(kg::kql::find_path(&graph, &"concept:a".to_owned(), &"concept:e".to_owned(), 2).is_err());
    let same = kg::kql::find_path(&graph, &"concept:a".to_owned(), &"concept:a".to_owned(), 1).expect("self");
    assert_eq!(same.len(), 1);
}
