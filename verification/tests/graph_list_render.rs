use kg::graph_list_render::render_graph_list;

fn graphs(items: Vec<(&str, &str)>) -> Vec<(String, String)> {
    items.into_iter().map(|(n, p)| (n.to_owned(), p.to_owned())).collect()
}

#[test]
fn render_graph_list_empty() {
    let out = render_graph_list(&graphs(vec![]), false);
    assert_eq!(out, "= graphs (0)\n");
}

#[test]
fn render_graph_list_with_graphs() {
    let out = render_graph_list(&graphs(vec![("main", "/a/b.json"), ("dev", "/c/d.json")]), false);
    assert_eq!(out, "= graphs (2)\n- main\n- dev\n");
}

#[test]
fn render_graph_list_full_shows_paths() {
    let out = render_graph_list(&graphs(vec![("main", "/a/b.json")]), true);
    assert!(out.contains("main | /a/b.json"));
}
