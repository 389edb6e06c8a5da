use kg::kg_sidecar::{find_node_line, kgindex_text};

fn table() -> Vec<(Vec<String>, String)> {
    vec![
        (vec!["Concept".to_owned(), "K".to_owned(), "concept".to_owned()], "concept".to_owned()),
        (vec!["Process".to_owned(), "P".to_owned(), "process".to_owned()], "process".to_owned()),
    ]
}

#[test]
fn rebuild_kgindex_indexes_node_headers_only() {
    let raw = "@ K:concept:refrigerator\nN Lodowka\nD Desc\n@ P:process:cooling\nN Cooling\nD Desc\n";
    let idx = kgindex_text(raw, &table());
    assert_eq!(idx, "concept:refrigerator 1\nprocess:cooling 4\n");
}

#[test]
fn lookup_node_line_reads_existing_entry() {
    let raw = "@ K:concept:refrigerator\nN Lodowka\nD Desc\n@ P:process:cooling\nN Cooling\nD Desc\n";
    let idx = kgindex_text(raw, &table());
    assert_eq!(find_node_line(&idx, "concept:refrigerator"), Some(1));
    assert_eq!(find_node_line(&idx, "process:cooling"), Some(4));
    assert_eq!(find_node_line(&idx, "concept:missing"), None);
}

#[test]
fn rebuild_kgindex_keeps_full_id_for_legacy_header_shape() {
    let raw = "@ concept:refrigerator\nN Lodowka\nD Desc\n@ process:cooling\nN Cooling\nD Desc\n";
    let idx = kgindex_text(raw, &table());
    assert_eq!(find_node_line(&idx, "concept:refrigerator"), Some(1));
    assert_eq!(find_node_line(&idx, "process:cooling"), Some(4));
}

#[test]
fn index_of_text_without_headers_finds_nothing() {
    let idx = kgindex_text("N x\n", &table());
    assert_eq!(idx, "\n");
    assert_eq!(find_node_line(&idx, "x"), None);
    let unknown = kgindex_text("@ Widget:thing\n", &table());
    assert_eq!(unknown, "thing 1\n");
}
