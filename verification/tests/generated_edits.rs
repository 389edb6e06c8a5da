use kg::auto_update::AutoUpdateSummary;
use kg::generated_edits::{
    ensure_generated_edge, remove_generated_nodes, rename_generated_node_id, GeneratedEdgeIndex, RenameError,
};
use kg::graph::{Edge, EdgeProperties, GraphFile, Node, NodeProperties, Note};

fn edge(source: &str, relation: &str, target: &str) -> Edge {
    Edge {
        source_id: source.to_owned(),
        relation: relation.to_owned(),
        target_id: target.to_owned(),
        properties: EdgeProperties::new_default(),
    }
}

fn note(id: &str, node_id: &str) -> Note {
    Note {
        id: id.to_owned(),
        node_id: node_id.to_owned(),
        body: String::new(),
        tags: Vec::new(),
        author: String::new(),
        created_at: String::new(),
        provenance: String::new(),
        source_files: Vec::new(),
    }
}

fn node(id: &str) -> Node {
    Node {
        id: id.to_owned(),
        node_type: "GDIR".to_owned(),
        name: id.to_owned(),
        properties: NodeProperties::new_default(),
        source_files: vec![],
    }
}

#[test]
fn ensure_generated_edge_reuses_local_index() {
    let mut graph = GraphFile::new("repo");
    graph.edges.push(edge("D:repo", "HAS", "GDIR:src"));

    let mut edge_index = GeneratedEdgeIndex::from_graph(&graph);
    let mut summary = AutoUpdateSummary::new();

    ensure_generated_edge(&mut graph, &"D:repo".to_owned(), &"GDIR:src".to_owned(), "GHAS", &mut edge_index, &mut summary);
    ensure_generated_edge(&mut graph, &"D:repo".to_owned(), &"GDIR:src".to_owned(), "GHAS", &mut edge_index, &mut summary);

    assert_eq!(graph.edges.len(), 1);
    assert_eq!(graph.edges[0].relation, "GHAS");
}

#[test]
fn ensure_generated_edge_adds_a_missing_edge_once() {
    let mut graph = GraphFile::new("repo");
    let mut edge_index = GeneratedEdgeIndex::from_graph(&graph);
    let mut summary = AutoUpdateSummary::new();
    ensure_generated_edge(&mut graph, &"GFIL:a.rs".to_owned(), &"GSYM:f".to_owned(), "GDEFINES", &mut edge_index, &mut summary);
    ensure_generated_edge(&mut graph, &"GFIL:a.rs".to_owned(), &"GSYM:f".to_owned(), "GDEF", &mut edge_index, &mut summary);
    assert_eq!(graph.edges.len(), 1);
    assert_eq!(graph.edges[0].relation, "GDEF");
    assert_eq!(summary.edges_added, 1);
    assert_eq!(edge_index.lookup(&"GFIL:a.rs".to_owned(), &"GSYM:f".to_owned(), &"GDEF".to_owned()), Some(0));
}

#[test]
fn index_from_graph_keeps_the_first_edge_of_a_key() {
    let mut graph = GraphFile::new("repo");
    graph.edges.push(edge("a", "GHAS", "b"));
    graph.edges.push(edge("a", "HAS", "b"));
    let index = GeneratedEdgeIndex::from_graph(&graph);
    assert_eq!(index.lookup(&"a".to_owned(), &"b".to_owned(), &"GHAS".to_owned()), Some(0));
    assert_eq!(index.lookup(&"a".to_owned(), &"b".to_owned(), &"HAS".to_owned()), None);
}

#[test]
fn rename_generated_node_moves_edges_and_notes() {
    let mut graph = GraphFile::new("repo");
    graph.nodes.push(node("old"));
    graph.nodes.push(node("other"));
    graph.edges.push(edge("old", "GHAS", "old"));
    graph.edges.push(edge("other", "GHAS", "x"));
    graph.notes.push(note("n1", "old"));
    let mut summary = AutoUpdateSummary::new();
    let r = rename_generated_node_id(&mut graph, &"old".to_owned(), &"new".to_owned(), &mut summary);
    assert_eq!(r, Ok(()));
    assert_eq!(graph.nodes[0].id, "new");
    assert_eq!(graph.edges[0].source_id, "new");
    assert_eq!(graph.edges[0].target_id, "new");
    assert_eq!(graph.edges[1].source_id, "other");
    assert_eq!(graph.notes[0].node_id, "new");
    assert_eq!(summary.edges_updated, 2);
}

#[test]
fn rename_generated_node_refuses_existing_and_missing_ids() {
    let mut graph = GraphFile::new("repo");
    graph.nodes.push(node("a"));
    graph.nodes.push(node("b"));
    let mut summary = AutoUpdateSummary::new();
    let r = rename_generated_node_id(&mut graph, &"a".to_owned(), &"b".to_owned(), &mut summary);
    assert_eq!(r, Err(RenameError::TargetExists("b".to_owned())));
    assert_eq!(
        RenameError::TargetExists("b".to_owned()).message(),
        "generated node id already exists: b"
    );
    let r = rename_generated_node_id(&mut graph, &"zz".to_owned(), &"c".to_owned(), &mut summary);
    assert_eq!(r, Err(RenameError::NotFound("zz".to_owned())));
    assert_eq!(r.unwrap_err().message(), "generated node not found for rename: zz");
    assert_eq!(rename_generated_node_id(&mut graph, &"a".to_owned(), &"a".to_owned(), &mut summary), Ok(()));
    assert_eq!(graph.nodes[0].id, "a");
}

#[test]
fn remove_generated_nodes_drops_their_edges_and_notes() {
    let mut graph = GraphFile::new("repo");
    graph.nodes.push(node("keep"));
    graph.nodes.push(node("gone"));
    graph.edges.push(edge("keep", "GHAS", "gone"));
    graph.edges.push(edge("keep", "GHAS", "keep"));
    graph.notes.push(note("n1", "gone"));
    let mut summary = AutoUpdateSummary::new();
    remove_generated_nodes(&mut graph, &vec!["gone".to_owned(), "never".to_owned()], &mut summary);
    assert_eq!(graph.nodes.len(), 1);
    assert_eq!(graph.nodes[0].id, "keep");
    assert_eq!(graph.edges.len(), 1);
    assert_eq!(graph.notes.len(), 0);
    assert_eq!(summary.edges_removed, 1);
    assert_eq!(summary.notes_removed, 1);
    assert_eq!(summary.nodes_removed, 2);
}
