use kg::feedback_batch::{run_feedback_batch, FeedbackBatchError, FindContext};
use kg::mcp_feedback::{FeedbackStats, GlobalFeedbackStats, QueryStatsTable};

fn stats() -> FeedbackStats {
    FeedbackStats { query_stats: QueryStatsTable::new(), global_stats: GlobalFeedbackStats::zero() }
}

fn find(uid: &str, at: u128, cands: &[&str]) -> FindContext {
    FindContext {
        uid: uid.to_owned(),
        created_at_ms: at,
        graph: "fridge".to_owned(),
        queries: vec!["smart\tlights".to_owned(), "lamp".to_owned()],
        candidate_ids: cands.iter().map(|s| s.to_string()).collect(),
    }
}

fn lines(v: &[&str]) -> Vec<String> {
    v.iter().map(|s| s.to_string()).collect()
}

#[test]
fn pick_reply_selects_the_candidate_and_makes_an_update() {
    let mut finds = vec![find("u1", 200_000, &["K:a", "K:b"]), find("old", 0, &["K:z"])];
    let mut st = stats();
    let b = run_feedback_batch(
        &lines(&["uid=u1 PICK 2 passive=1", "nonsense", "uid=old YES"]),
        "best_effort",
        &mut finds,
        700_000,
        &mut st,
    )
    .unwrap();
    assert_eq!(finds.len(), 1);
    assert_eq!(b.ok, 2);
    assert_eq!(b.failed, 1);
    assert_eq!(b.items[0].selected, "K:b");
    assert_eq!(b.items[0].graph, "fridge");
    assert_eq!(b.items[0].source, "passive");
    assert!(!b.items[1].ok);
    assert_eq!(b.items[2].graph, "-");
    assert_eq!(b.items[2].selected, "-");
    assert_eq!(b.updates.len(), 1);
    assert_eq!(b.updates[0].node_id, "K:b");
    assert_eq!(b.updates[0].delta, 2);
    assert_eq!(b.updates[0].item_index, 0);
    assert_eq!(
        b.log,
        "ts_ms=700000\tuid=u1\taction=PICK\tpick=2\tselected=K:b\tgraph=fridge\tqueries=smart lights | lamp\tsource=passive\n\
         ts_ms=700000\tuid=old\taction=YES\tpick=-\tselected=-\tgraph=-\tqueries=\tsource=active\n"
    );
    assert_eq!(st.global_stats.events, 2);
}

#[test]
fn strict_batch_refuses_invalid_lines_and_unknown_modes() {
    let mut finds = Vec::new();
    let mut st = stats();
    let r = run_feedback_batch(&lines(&["uid=a NO", "bad"]), "strict", &mut finds, 0, &mut st);
    match r {
        Err(FeedbackBatchError::InvalidLines(bad)) => assert_eq!(bad, lines(&["bad"])),
        _ => panic!("expected invalid lines"),
    }
    assert_eq!(st.global_stats.events, 0);
    let r = run_feedback_batch(&lines(&["uid=a NO"]), "lenient", &mut finds, 0, &mut st);
    match r {
        Err(FeedbackBatchError::InvalidMode(m)) => assert_eq!(m, "lenient"),
        _ => panic!("expected invalid mode"),
    }
}

#[test]
fn yes_selects_only_a_single_candidate() {
    let mut finds = vec![find("one", 5, &["K:only"]), find("two", 5, &["K:a", "K:b"])];
    let mut st = stats();
    let b = run_feedback_batch(&lines(&["uid=one yes", "uid=two YES", "uid=two NIL"]), "strict", &mut finds, 10, &mut st)
        .unwrap();
    assert_eq!(b.items[0].selected, "K:only");
    assert_eq!(b.items[1].selected, "-");
    assert_eq!(b.updates.len(), 1);
    assert_eq!(b.updates[0].delta, 1);
    assert_eq!(st.global_stats.negative_events, 1);
}
