use kg::document_sections::{is_document_source, parse_document_sections, try_parse_document_sections};
use kg::paths::KgPath;

#[test]
fn detects_document_sources() {
    assert!(is_document_source(&KgPath::parse("README.md")));
    assert!(is_document_source(&KgPath::parse("guide.adoc")));
    assert!(!is_document_source(&KgPath::parse("main.rs")));
}

#[test]
fn parses_nested_markdown_sections() {
    let source = r#"
# Intro
Hello world.

## Details
More text.
"#;
    let sections = parse_document_sections(source);
    assert_eq!(sections.len(), 2);
    assert!(sections.iter().any(|section| section.path == vec!["Intro"]));
    assert!(sections
        .iter()
        .any(|section| section.path == vec!["Intro", "Details"]));
    assert!(sections
        .iter()
        .any(|section| section.title == "Details" && section.content.contains("More text.")));
}

#[test]
fn ignores_headings_inside_code_fences() {
    let source = r#"
# Intro
```md
## Not a chapter
```
Body.
"#;
    let sections = parse_document_sections(source);
    assert_eq!(sections.len(), 1);
    assert_eq!(sections[0].title, "Intro");
    assert!(sections[0].content.contains("## Not a chapter"));
}

#[test]
fn keeps_duplicate_sibling_ordinals_stable() {
    let source = r#"
# Intro
Text

## Same
One

## Same
Two
"#;
    let sections = parse_document_sections(source);
    let ordinals: Vec<_> = sections
        .iter()
        .filter(|section| section.title == "Same")
        .map(|section| section.ordinal)
        .collect();
    assert_eq!(ordinals, vec![1, 2]);
}

#[test]
fn uses_lossless_section_ids_for_similar_headings() {
    let source = r#"
# A+B
One

# A B
Two
"#;
    let sections = parse_document_sections(source);
    let ids: Vec<_> = sections
        .iter()
        .filter(|section| section.level == 1)
        .map(|section| section.id_path.last().cloned().expect("id segment"))
        .collect();

    assert_eq!(ids.len(), 2);
    assert_ne!(ids[0], ids[1]);
    assert!(ids.iter().any(|id| id.contains("~2B")));
    assert!(ids.iter().any(|id| id.contains("~20")));
}

#[test]
fn sections_close_inner_before_outer_with_trimmed_content() {
    let sections = parse_document_sections("# A\n  x  \n## B\ny\n# C\nz\n");
    let titles: Vec<_> = sections.iter().map(|s| s.title.clone()).collect();
    assert_eq!(titles, vec!["B", "A", "C"]);
    assert_eq!(sections[1].content, "x");
    assert_eq!(sections[0].path, vec!["A", "B"]);
    assert_eq!(sections[0].id_path, vec!["A", "B"]);
    assert_eq!(sections[0].legacy_id_path, vec!["a", "b"]);
}

#[test]
fn setext_and_asciidoc_headings_are_recognized() {
    let sections = parse_document_sections("Title\n=====\nbody\nSub\n---\n== Ascii\ntext\n");
    let mut levels: Vec<_> = sections.iter().map(|s| (s.title.clone(), s.level)).collect();
    levels.sort();
    assert_eq!(
        levels,
        vec![("Ascii".to_owned(), 2), ("Sub".to_owned(), 2), ("Title".to_owned(), 1)]
    );
}

#[test]
fn atx_heading_with_closing_hashes_and_ordinal_suffix() {
    let sections = parse_document_sections("# Same #\na\n# Same\nb\n");
    assert_eq!(sections.len(), 2);
    assert_eq!(sections[0].title, "Same");
    assert_eq!(sections[1].id_path, vec!["Same~2"]);
    assert_eq!(sections[1].legacy_id_path, vec!["same~2"]);
}

#[test]
fn empty_escaped_title_and_legacy_slug_fall_back_to_section() {
    let sections = parse_document_sections("# +++\nx\n");
    assert_eq!(sections[0].id_path, vec!["~2B~2B~2B"]);
    assert_eq!(sections[0].legacy_id_path, vec!["section"]);
}

#[test]
fn heading_marker_followed_by_wide_space_is_refused() {
    assert!(try_parse_document_sections("#\u{3000}Title\n").is_none());
    assert!(try_parse_document_sections("```\n#\u{3000}Title\n```\n").is_some());
}
