use kg::annotate::{
    annotation_field_values, contains_subsequence, is_better_annotation, node_ref, overlaps,
    select_non_overlapping, AnnotateField, AnnotationCandidate,
};
use kg::graph::{Node, NodeProperties};

fn cand(start: usize, end: usize, score: i64, id: &str) -> AnnotationCandidate {
    AnnotationCandidate { start, end, score, node_id: id.to_owned() }
}

#[test]
fn select_non_overlapping_keeps_best_spans_in_text_order() {
    let chosen = select_non_overlapping(vec![
        cand(0, 5, 120, "K:a"),
        cand(3, 9, 130, "K:b"),
        cand(10, 12, 110, "K:c"),
        cand(10, 14, 110, "K:d"),
    ]);
    let ids: Vec<&str> = chosen.iter().map(|c| c.node_id.as_str()).collect();
    assert_eq!(ids, vec!["K:b", "K:d"]);
    assert_eq!((chosen[0].start, chosen[0].end), (3, 9));
}

#[test]
fn select_non_overlapping_breaks_ties_by_start_then_id() {
    let chosen = select_non_overlapping(vec![cand(4, 6, 100, "K:z"), cand(4, 6, 100, "K:a"), cand(0, 2, 100, "K:m")]);
    let ids: Vec<&str> = chosen.iter().map(|c| c.node_id.as_str()).collect();
    assert_eq!(ids, vec!["K:m", "K:a"]);
    assert!(select_non_overlapping(Vec::new()).is_empty());
}

#[test]
fn overlap_and_ranking_rules() {
    assert!(overlaps(&cand(0, 5, 0, "a"), &cand(4, 6, 0, "b")));
    assert!(!overlaps(&cand(0, 5, 0, "a"), &cand(5, 6, 0, "b")));
    assert!(is_better_annotation(&cand(0, 2, 10, "b"), &cand(0, 9, 9, "a")));
    assert!(is_better_annotation(&cand(0, 3, 10, "b"), &cand(0, 2, 10, "a")));
    assert!(is_better_annotation(&cand(0, 2, 10, "a"), &cand(5, 7, 10, "b")));
    assert!(!is_better_annotation(&cand(0, 2, 10, "b"), &cand(5, 7, 10, "a")));
}

#[test]
fn contains_subsequence_finds_consecutive_words() {
    let hay: Vec<String> = ["smart", "fridge", "door"].iter().map(|s| s.to_string()).collect();
    let yes: Vec<String> = ["fridge", "door"].iter().map(|s| s.to_string()).collect();
    let no: Vec<String> = ["smart", "door"].iter().map(|s| s.to_string()).collect();
    assert!(contains_subsequence(&hay, &yes));
    assert!(!contains_subsequence(&hay, &no));
    assert!(!contains_subsequence(&yes, &hay));
}

#[test]
fn field_values_and_node_ref() {
    let mut props = NodeProperties::new_default();
    props.alias = vec!["fridge".to_owned()];
    props.key_facts = vec!["keeps food cold".to_owned()];
    let node = Node {
        id: "concept:refrigerator".to_owned(),
        node_type: "Concept".to_owned(),
        name: "Lodowka".to_owned(),
        properties: props,
        source_files: Vec::new(),
    };
    let values = annotation_field_values(&node);
    assert_eq!(values.len(), 4);
    assert_eq!(values[0], (AnnotateField::Name, "Lodowka".to_owned()));
    assert_eq!(values[1], (AnnotateField::Id, "refrigerator".to_owned()));
    assert_eq!(values[2], (AnnotateField::Alias, "fridge".to_owned()));
    assert_eq!(values[3], (AnnotateField::Fact, "keeps food cold".to_owned()));
    assert_eq!(node_ref(&node), "K:refrigerator");
    assert_eq!(AnnotateField::Name.exact_score(), 150);
    assert_eq!(AnnotateField::Id.overlap_score(), 108);
}
