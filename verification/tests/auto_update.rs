use kg::auto_update::{
    canonical_generated_relation, escape_name, extract_scan_path, generated_node_id,
    generated_section_id, generated_symbol_id, is_known_scannable_file, should_skip_directory,
    unescape_generated_path,
};
use kg::paths::KgPath;

#[test]
fn extract_scan_path_no_spaces() {
    let sources = vec!["SOURCECODE /simple/path".to_string()];
    let result = extract_scan_path(&sources);
    assert_eq!(result, Some("/simple/path".to_owned()));
}

#[test]
fn extract_scan_path_with_spaces() {
    let sources = vec!["SOURCECODE /path/with spaces".to_string()];
    let result = extract_scan_path(&sources);
    assert_eq!(result, Some("/path/with spaces".to_owned()));
}

#[test]
fn extract_scan_path_no_type_prefix() {
    let sources = vec!["/simple/path".to_string()];
    let result = extract_scan_path(&sources);
    assert_eq!(result, Some("/simple/path".to_owned()));
}

#[test]
fn extract_scan_path_multiple_sources() {
    let sources = vec![
        "DOC /other/doc".to_string(),
        "SOURCECODE /target/path".to_string(),
    ];
    let result = extract_scan_path(&sources);
    assert_eq!(result, Some("/other/doc".to_owned()));
}

#[test]
fn extract_scan_path_empty_source() {
    let sources: Vec<String> = vec![];
    let result = extract_scan_path(&sources);
    assert_eq!(result, None);
}

#[test]
fn extract_scan_path_first_valid() {
    let sources = vec!["".to_string(), "SOURCECODE /valid/path".to_string()];
    let result = extract_scan_path(&sources);
    assert_eq!(result, Some("/valid/path".to_owned()));
}

#[test]
fn extract_scan_path_filesystem_root() {
    let sources = vec!["SOURCECODE /".to_string()];
    let result = extract_scan_path(&sources);
    assert_eq!(result, Some("/".to_owned()));
}

#[test]
fn escape_and_unescape_round_trip() {
    assert_eq!(escape_name("a:b~c"), "a~cb~~c");
    assert_eq!(unescape_generated_path("a~cb~~c"), "a:b~c");
    assert_eq!(unescape_generated_path("x~y~"), "x~y~");
}

#[test]
fn generated_ids_use_escaped_paths() {
    let rel = KgPath::parse("src/lib.rs");
    assert_eq!(generated_node_id("GFIL", &rel), "GFIL:src/lib.rs");
    assert_eq!(
        generated_section_id(&KgPath::parse("README.md"), &vec!["A~2BB".to_owned()]),
        "GSEC:README.md/__section__/A~~2BB"
    );
    assert_eq!(generated_symbol_id(&rel, "fn", "a:b"), "GSYM:src/lib.rs/fn/a~cb");
}

#[test]
fn generated_relations_and_scan_filters() {
    assert_eq!(canonical_generated_relation("HAS"), "GHAS");
    assert_eq!(canonical_generated_relation("GDEFINES"), "GDEF");
    assert_eq!(canonical_generated_relation("USES"), "USES");
    assert!(should_skip_directory(&KgPath::parse("/r/node_modules")));
    assert!(!should_skip_directory(&KgPath::parse("/r/src")));
    assert!(is_known_scannable_file(&KgPath::parse("/r/Makefile")));
    assert!(is_known_scannable_file(&KgPath::parse("/r/a.RS")));
    assert!(!is_known_scannable_file(&KgPath::parse("/r/unknown.bin")));
}
