use kg::graph::{GraphFile, Node, NodeProperties};
use kg::import_csv::{
    import_csv_tables, merge_summary_lines, CsvImportSummary, CsvStrategy, CsvTable,
};

fn table(text: &str) -> CsvTable {
    let mut lines = text.lines();
    let headers = lines
        .next()
        .unwrap()
        .split(',')
        .map(|s| s.to_owned())
        .collect();
    let records = lines
        .map(|l| l.split(',').map(|s| s.to_owned()).collect())
        .collect();
    CsvTable { headers, records }
}

fn node(id: &str, name: &str) -> Node {
    Node {
        id: id.to_owned(),
        node_type: "Concept".to_owned(),
        name: name.to_owned(),
        properties: NodeProperties::new_default(),
        source_files: vec![],
    }
}

fn empty_summary() -> CsvImportSummary {
    CsvImportSummary::new()
}

#[test]
fn merge_summary_lines_formats_correctly() {
    let summary = CsvImportSummary {
        nodes_added: 2,
        nodes_updated: 1,
        nodes_skipped: 0,
        ..empty_summary()
    };
    let lines = merge_summary_lines(&summary);
    assert!(lines[0].contains("+2 ~1 !0"));
}

#[test]
fn merge_summary_lines_lists_first_ten_conflicts() {
    let summary = CsvImportSummary {
        conflicts: (0..12).map(|i| format!("node n:{i}")).collect(),
        ..empty_summary()
    };
    let lines = merge_summary_lines(&summary);
    assert_eq!(lines.len(), 3 + 1 + 10 + 1 + 1);
    assert_eq!(lines[3], "conflicts: 12");
    assert_eq!(lines[4], "! node n:0");
    assert_eq!(lines[14], "! ...");
    assert_eq!(
        lines[15],
        "suggestion: re-run with --strategy prefer-new or resolve manually"
    );
}

#[test]
fn import_nodes_csv_adds_nodes() {
    let mut graph = GraphFile::new("test");
    let nodes = table("id,type,name,description\nn:1,Concept,Test,desc");
    let summary = import_csv_tables(&mut graph, Some(&nodes), None, None, CsvStrategy::PreferNew)
        .unwrap();
    assert_eq!(summary.nodes_added, 1);
    assert_eq!(graph.nodes.len(), 1);
    assert_eq!(graph.nodes[0].id, "n:1");
    assert_eq!(graph.nodes[0].properties.description, "desc");
    assert_eq!(graph.metadata.node_count, 1);
}

#[test]
fn import_edges_csv_adds_edges() {
    let mut graph = GraphFile::new("test");
    graph.nodes.push(node("n:a", "A"));
    graph.nodes.push(node("n:b", "B"));
    let edges = table("source_id,relation,target_id\nn:a,GRELATES,n:b");
    let summary = import_csv_tables(&mut graph, None, Some(&edges), None, CsvStrategy::PreferNew)
        .unwrap();
    assert_eq!(summary.edges_added, 1);
    assert_eq!(graph.edges.len(), 1);
}

#[test]
fn import_notes_csv_adds_notes() {
    let mut graph = GraphFile::new("test");
    graph.nodes.push(node("n:a", "A"));
    let notes = table("id,node_id,body\nnote:1,n:a,hello");
    let summary = import_csv_tables(&mut graph, None, None, Some(&notes), CsvStrategy::PreferNew)
        .unwrap();
    assert_eq!(summary.notes_added, 1);
    assert_eq!(graph.notes.len(), 1);
}

#[test]
fn import_csv_skips_edges_with_missing_nodes() {
    let mut graph = GraphFile::new("test");
    let edges = table("source_id,relation,target_id\nn:x,GRELATES,n:y");
    let summary = import_csv_tables(&mut graph, None, Some(&edges), None, CsvStrategy::PreferNew)
        .unwrap();
    assert_eq!(summary.edges_added, 0);
    assert_eq!(summary.edges_skipped, 1);
}

#[test]
fn import_csv_rejects_missing_columns() {
    let mut graph = GraphFile::new("test");
    let nodes = table("bad_column,other\nn:1,val");
    let result = import_csv_tables(&mut graph, Some(&nodes), None, None, CsvStrategy::PreferNew);
    assert_eq!(result.err().as_deref(), Some("missing column: id"));
}

#[test]
fn import_nodes_csv_requires_non_empty_id() {
    let mut graph = GraphFile::new("test");
    let nodes = table("id,type,name\n,Concept,Test");
    let result = import_csv_tables(&mut graph, Some(&nodes), None, None, CsvStrategy::PreferNew);
    assert_eq!(result.err().as_deref(), Some("nodes CSV row 1 missing id"));
}

#[test]
fn prefer_old_records_conflicts_and_lists_split() {
    let mut graph = GraphFile::new("test");
    graph.nodes.push(node("n:1", "Old"));
    let nodes = table("id,type,name,alias\nn:1,Concept,New, a | |b ");
    let summary = import_csv_tables(&mut graph, Some(&nodes), None, None, CsvStrategy::PreferOld)
        .unwrap();
    assert_eq!(summary.nodes_skipped, 1);
    assert_eq!(summary.conflicts, vec!["node n:1".to_owned()]);
    assert_eq!(graph.nodes[0].name, "Old");

    let mut graph2 = GraphFile::new("test");
    import_csv_tables(&mut graph2, Some(&nodes), None, None, CsvStrategy::PreferNew).unwrap();
    assert_eq!(graph2.nodes[0].properties.alias, vec!["a".to_owned(), "b".to_owned()]);
}

#[test]
fn csv_texts_are_read_and_imported() {
    let mut g = kg::graph::GraphFile::new("g");
    let nodes = "id,type,name\n concept:a , Concept , A \nconcept:b,Concept,B\n";
    let r = kg::import_csv::import_csv_texts(&mut g, Some(nodes), None, None, kg::import_csv::CsvStrategy::PreferNew)
        .unwrap();
    assert_eq!(r.nodes_added, 2);
    assert_eq!(g.nodes[0].id, "concept:a");
    assert_eq!(g.nodes[0].name, "A");
    assert_eq!(g.metadata.node_count, 2);
    let bad = "id,type,name\nconcept:c,Concept\n";
    let e = kg::import_csv::import_csv_texts(&mut g, Some(bad), None, None, kg::import_csv::CsvStrategy::PreferNew)
        .unwrap_err();
    assert_eq!(e, "failed to read nodes CSV row 1");
}
