use kg::export_html::{
    escape_js_string, export_output_path, export_title, exported_message, format_note, node_color,
    ExportHtmlOptions,
};
use kg::export_html::render_html;
use kg::graph::{Edge, EdgeProperties, GraphFile, Node, NodeProperties, Note};

#[test]
fn escape_js_string_escapes_quotes_and_controls() {
    assert_eq!(escape_js_string("a\"b\\c\nd\re\tf"), "a\\\"b\\\\c\\nd\\re\\tf");
    assert_eq!(escape_js_string("plain"), "plain");
}

#[test]
fn format_note_joins_parts() {
    let note = Note {
        id: "n".to_owned(),
        node_id: "k".to_owned(),
        body: "text".to_owned(),
        tags: vec!["a".to_owned(), "b".to_owned()],
        author: "ann".to_owned(),
        created_at: "2024".to_owned(),
        provenance: String::new(),
        source_files: Vec::new(),
    };
    assert_eq!(format_note(&note), "2024 ann: text [a, b]");
    let bare = Note { tags: Vec::new(), author: String::new(), created_at: String::new(), ..note };
    assert_eq!(format_note(&bare), "text");
}

#[test]
fn colors_titles_and_paths() {
    assert_eq!(node_color("Concept"), "#4A90D9");
    assert_eq!(node_color("Bug"), "#FF6B6B");
    assert_eq!(node_color("Other"), "#CCCCCC");
    let opts = ExportHtmlOptions { output: None, title: Some("My \"graph\"".to_owned()) };
    assert_eq!(export_output_path(&opts, "fridge"), "fridge.html");
    assert_eq!(export_title(&opts, "ignored"), "My &quot;graph&quot;");
    let named = ExportHtmlOptions { output: Some("out/x.html".to_owned()), title: None };
    assert_eq!(export_output_path(&named, "fridge"), "out/x.html");
    assert_eq!(export_title(&named, "fridge"), "fridge");
    assert_eq!(exported_message("out/x.html"), "+ exported out/x.html\n");
}

#[test]
fn render_html_lists_nodes_edges_filters_and_hubs() {
    let mut graph = GraphFile::new("demo \"g\"");
    for (id, ty, name) in [("b", "Process", "Bee"), ("a", "Concept", "A\"1"), ("c", "Concept", "Cee")] {
        graph.nodes.push(Node {
            id: id.to_owned(),
            node_type: ty.to_owned(),
            name: name.to_owned(),
            properties: NodeProperties::new_default(),
            source_files: vec!["src/x.rs".to_owned()],
        });
    }
    for (s, r, t) in [("a", "USES", "b"), ("c", "DEPENDS_ON", "a")] {
        graph.edges.push(Edge {
            source_id: s.to_owned(),
            relation: r.to_owned(),
            target_id: t.to_owned(),
            properties: EdgeProperties::new_default(),
        });
    }
    graph.notes.push(Note {
        id: "n1".to_owned(),
        node_id: "a".to_owned(),
        body: "hello".to_owned(),
        tags: vec![],
        author: "ann".to_owned(),
        created_at: String::new(),
        provenance: String::new(),
        source_files: vec![],
    });
    let conf = vec![String::new(), "0.90".to_owned(), String::new()];
    let html = render_html(&graph, "My &quot;title&quot;", &conf);
    assert!(html.starts_with("<!DOCTYPE html>"));
    assert!(html.contains("<title>My &quot;title&quot;</title>"));
    assert!(html.contains("3 nodes · 2 edges"));
    assert!(html.contains(
        r##"{data:{id:"a",label:"A\"1",type:"Concept",desc:"",facts:[],aliases:[],sources:["src/x.rs"],notes:["ann: hello"],confidence:"0.90",color:"#4A90D9"}}"##
    ));
    assert!(html.contains(r##"{data:{id:"e1",source:"c",target:"a",relation:"DEPENDS_ON",detail:""}}"##));
    let concept = html.find(r##"value="Concept""##).unwrap();
    let process = html.find(r##"value="Process""##).unwrap();
    assert!(concept < process);
    assert_eq!(html.matches(r##"class="type-filter" value="Concept""##).count(), 1);
    assert!(html.contains(r##"window.GRAPH_NAME = "demo \"g\"";"##));
    assert!(html.contains(
        r##"const TOP_HUBS = [{id:"a",label:"A\"1",type_:"Concept",color:"#4A90D9",degree:2},{id:"b",label:"Bee",type_:"Process",color:"#7ED321",degree:1},{id:"c",label:"Cee",type_:"Concept",color:"#4A90D9",degree:1}];"##
    ));
    assert!(html.trim_end().ends_with("</html>"));
}
