use kg::graph::{GraphFile, Node, NodeProperties};
use kg::graph_merge::{merge_detail, merge_graph_contents, merge_report, MergeStrategy};

fn node(id: &str, name: &str) -> Node {
    Node {
        id: id.to_owned(),
        node_type: "Concept".to_owned(),
        name: name.to_owned(),
        properties: NodeProperties::new_default(),
        source_files: vec![],
    }
}

#[test]
fn merge_prefers_new_or_old_by_strategy() {
    let mut target = GraphFile::new("t");
    target.nodes.push(node("a", "old"));
    let mut source = GraphFile::new("s");
    source.nodes.push(node("a", "new"));
    source.nodes.push(node("b", "b"));

    let mut t1 = GraphFile::new("t");
    t1.nodes.push(node("a", "old"));
    let c = merge_graph_contents(&mut t1, &source, &MergeStrategy::PreferNew);
    assert_eq!((c.nodes_added, c.nodes_updated), (1, 1));
    assert_eq!(t1.nodes[0].name, "new");

    let c2 = merge_graph_contents(&mut target, &source, &MergeStrategy::PreferOld);
    assert_eq!((c2.nodes_added, c2.nodes_updated), (1, 0));
    assert_eq!(target.nodes[0].name, "old");
    assert_eq!(target.nodes.len(), 2);

    assert_eq!(
        merge_report("s", "t", &c),
        "+ merged s -> t\nnodes: +1 ~1\nedges: +0 ~0\nnotes: +0 ~0\n"
    );
    assert_eq!(merge_detail("s", "t", &MergeStrategy::PreferOld), "s -> t (PreferOld)");
}
