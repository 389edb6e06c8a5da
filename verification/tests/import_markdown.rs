use kg::graph::{GraphFile, Node, NodeProperties};
use kg::import_markdown::{
    frontmatter_parts, import_markdown_documents, Frontmatter, MarkdownDocument,
    MarkdownImportArgs, MarkdownStrategy,
};

fn doc(frontmatter: Frontmatter, body: &str, stem: &str) -> MarkdownDocument {
    MarkdownDocument {
        frontmatter,
        body: body.to_owned(),
        stem: stem.to_owned(),
        source_file: format!("docs/{stem}.md"),
    }
}

fn args(strategy: MarkdownStrategy, notes_as_nodes: bool) -> MarkdownImportArgs {
    MarkdownImportArgs { path: "docs".to_owned(), notes_as_nodes, strategy }
}

#[test]
fn frontmatter_parts_splits_block_and_body() {
    let (fm, body) = frontmatter_parts("---\nid: concept:a\nname: A\n---\n\nBody text\n");
    assert_eq!(fm.as_deref(), Some("id: concept:a\nname: A"));
    assert_eq!(body, "Body text");
}

#[test]
fn frontmatter_parts_without_block_keeps_trimmed_text() {
    let (fm, body) = frontmatter_parts("  plain text  \n");
    assert_eq!(fm, None);
    assert_eq!(body, "plain text");
    let (fm, body) = frontmatter_parts("---x\nrest");
    assert_eq!(fm, None);
    assert_eq!(body, "---x\nrest");
    let (fm, body) = frontmatter_parts("---\n   \n---\nonly body");
    assert_eq!(fm, None);
    assert_eq!(body, "only body");
}

#[test]
fn import_markdown_adds_nodes_and_notes() {
    let mut graph = GraphFile::new("g");
    let mut node_fm = Frontmatter::empty();
    node_fm.id = Some("concept:a".to_owned());
    node_fm.node_type = Some("Concept".to_owned());
    let mut note_fm = Frontmatter::empty();
    note_fm.node_id = Some("concept:a".to_owned());
    note_fm.tags = Some(vec!["t".to_owned()]);
    let docs = vec![doc(node_fm, "Facts here", "a"), doc(note_fm, "A note", "n1")];
    let summary = import_markdown_documents(&mut graph, &docs, &args(MarkdownStrategy::PreferNew, true))
        .expect("import");
    assert_eq!(summary.nodes_added, 1);
    assert_eq!(summary.notes_added, 1);
    assert_eq!(graph.metadata.node_count, 1);
    let node = &graph.nodes[0];
    assert_eq!(node.id, "concept:a");
    assert_eq!(node.name, "concept:a");
    assert_eq!(node.node_type, "Concept");
    assert_eq!(node.properties.importance, "0.5");
    assert_eq!(node.properties.key_facts, vec!["Facts here"]);
    assert_eq!(node.source_files, vec!["docs/a.md"]);
    let note = &graph.notes[0];
    assert_eq!(note.id, "note:n1");
    assert_eq!(note.node_id, "concept:a");
    assert_eq!(note.body, "A note");
    assert_eq!(note.tags, vec!["t"]);
}

#[test]
fn import_markdown_prefer_old_records_conflicts() {
    let mut graph = GraphFile::new("g");
    graph.nodes.push(Node {
        id: "concept:a".to_owned(),
        node_type: "Concept".to_owned(),
        name: "Old".to_owned(),
        properties: NodeProperties::new_default(),
        source_files: Vec::new(),
    });
    let mut fm = Frontmatter::empty();
    fm.id = Some("concept:a".to_owned());
    fm.name = Some("New".to_owned());
    let docs = vec![doc(fm, "", "a")];
    let summary = import_markdown_documents(&mut graph, &docs, &args(MarkdownStrategy::PreferOld, false))
        .expect("import");
    assert_eq!(summary.nodes_skipped, 1);
    assert_eq!(summary.conflicts, vec!["node concept:a"]);
    assert_eq!(graph.nodes[0].name, "Old");
}

#[test]
fn import_markdown_requires_an_id_for_nodes() {
    let mut graph = GraphFile::new("g");
    let docs = vec![doc(Frontmatter::empty(), "text", "x")];
    let err = import_markdown_documents(&mut graph, &docs, &args(MarkdownStrategy::PreferNew, false))
        .unwrap_err();
    assert_eq!(err, "missing id in docs/x.md");
}
