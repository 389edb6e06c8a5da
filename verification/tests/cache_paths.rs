use kg::cache_paths::{cache_root_for_cwd, cache_root_for_graph, detect_kg_root_for_graph};
use kg::paths::{same_path, KgPath};

fn p(s: &str) -> KgPath {
    KgPath::parse(s)
}

#[test]
fn cache_root_for_cwd_uses_dot_kg_cache() {
    let root = cache_root_for_cwd(&p("/home/user/project"));
    assert!(same_path(&root, &p("/home/user/project/.kg/cache")));
}

#[test]
fn cache_root_for_graph_within_kg_project() {
    let path = p("/home/user/project/.kg/graphs/mygraph.json");
    let root = cache_root_for_graph(&path);
    assert!(same_path(&root, &p("/home/user/project/.kg/cache")));
}

#[test]
fn cache_root_for_graph_outside_kg_project() {
    let path = p("/home/user/random/graph.json");
    let root = cache_root_for_graph(&path);
    assert!(same_path(&root, &p("/home/user/random/.kg/cache")));
}

#[test]
fn detect_kg_root_finds_ancestor_dot_kg() {
    let path = p("/a/b/.kg/graphs/x.json");
    let root = detect_kg_root_for_graph(&path);
    assert!(root.is_some());
    assert!(same_path(&root.unwrap(), &p("/a/b/.kg")));
}

#[test]
fn detect_kg_root_returns_none_for_unrelated_path() {
    let path = p("/tmp/random/file.json");
    assert!(detect_kg_root_for_graph(&path).is_none());
}

#[test]
fn relative_graph_without_directory_uses_local_cache() {
    let root = cache_root_for_graph(&p("graph.kg"));
    assert_eq!(root.to_text(), ".kg/cache");
}

#[test]
fn paths_parse_like_std_components() {
    assert_eq!(p("/a//b/./c/").to_text(), "/a/b/c");
    assert_eq!(p("./x").to_text(), "./x");
    assert_eq!(p("a/..").file_name(), None);
    assert_eq!(p("/").parent().is_none(), true);
    assert_eq!(p("/x").parent().unwrap().to_text(), "/");
    assert_eq!(p("dir/.hidden").extension(), None);
    assert_eq!(p("dir/.hidden").file_stem(), Some(".hidden".to_owned()));
    assert_eq!(p("a/b.tar.gz").extension(), Some("gz".to_owned()));
    assert_eq!(p("a/b.tar.gz").file_stem(), Some("b.tar".to_owned()));
    assert_eq!(p("a/b.kg").with_extension("json").to_text(), "a/b.json");
    assert_eq!(p("a/b.kg").with_file_name("c.log").to_text(), "a/c.log");
    assert_eq!(p("a").join(&p("/abs")).to_text(), "/abs");
    assert_eq!(p("a").join_str("./b").to_text(), "a/b");
}
