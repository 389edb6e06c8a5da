use kg::mcp_session::{classify_script_line, ScriptCommand, ScriptSession};

fn words(v: &[&str]) -> Vec<String> {
    v.iter().map(|s| s.to_string()).collect()
}

#[test]
fn blank_and_comment_lines_ask_for_nothing() {
    assert!(matches!(classify_script_line("   "), ScriptCommand::Blank));
    assert!(matches!(classify_script_line("  # note"), ScriptCommand::Blank));
}

#[test]
fn feedback_lines_are_held_back_trimmed() {
    match classify_script_line("  uid=abc123 YES  ") {
        ScriptCommand::Feedback(line) => assert_eq!(line, "uid=abc123 YES"),
        other => panic!("unexpected {other:?}"),
    }
}

#[test]
fn leading_kg_and_graph_words_are_dropped() {
    match classify_script_line("kg kg graph fridge node get concept:a") {
        ScriptCommand::NodeGet(Ok(get)) => {
            assert_eq!(get.graph, "fridge");
            assert_eq!(get.id, "concept:a");
        }
        other => panic!("unexpected {other:?}"),
    }
    match classify_script_line("kg fridge node find lights --limit 3") {
        ScriptCommand::NodeFind(Ok(find), w) => {
            assert_eq!(find.queries, words(&["lights"]));
            assert_eq!(find.limit, Some(3));
            assert_eq!(w, words(&["fridge", "node", "find", "lights", "--limit", "3"]));
        }
        other => panic!("unexpected {other:?}"),
    }
    match classify_script_line("fridge list") {
        ScriptCommand::Other(w) => assert_eq!(w, words(&["fridge", "list"])),
        other => panic!("unexpected {other:?}"),
    }
    assert!(matches!(classify_script_line("kg graph"), ScriptCommand::Empty));
    assert!(matches!(classify_script_line("fridge node find \"open"), ScriptCommand::Invalid(_)));
}

#[test]
fn node_get_after_pick_request_records_passive_feedback() {
    let mut s = ScriptSession::new();
    s.hold_feedback("uid=x1 NIL".to_owned());
    assert_eq!(s.take_feedback(), words(&["uid=x1 NIL"]));
    assert!(s.take_feedback().is_empty());
    s.note_pick_request(&"fridge".to_owned(), &"u1".to_owned(), &words(&["a", "b", "c"]));
    s.note_pick_request(&"fridge".to_owned(), &"u2".to_owned(), &words(&["c", "b"]));
    let line = s.before_node_get(&"fridge".to_owned(), &"b".to_owned());
    assert_eq!(line, Some("uid=u2 PICK 2 passive=1".to_owned()));
    assert_eq!(s.take_feedback(), words(&["uid=u2 PICK 2 passive=1"]));
    assert!(!s.still_owed(Some("u2")));
    assert!(s.still_owed(Some("u1")));
    assert!(s.still_owed(None));
    // the pending pick is gone once a node get has run
    assert_eq!(s.before_node_get(&"fridge".to_owned(), &"b".to_owned()), None);
}

#[test]
fn node_get_of_another_node_drops_the_pending_pick() {
    let mut s = ScriptSession::new();
    s.note_pick_request(&"g".to_owned(), &"u".to_owned(), &words(&["a"]));
    s.note_pick_request(&"h".to_owned(), &"v".to_owned(), &Vec::new());
    assert_eq!(s.before_node_get(&"g".to_owned(), &"z".to_owned()), None);
    assert_eq!(s.before_node_get(&"g".to_owned(), &"a".to_owned()), None);
    assert_eq!(s.before_node_get(&"h".to_owned(), &"a".to_owned()), None);
    assert!(s.take_feedback().is_empty());
}
