use kg::access_report::{access_stats, render_access_log};

const LOG: &str = "t1\tFIND\tfridge\t2\t5ms\nt2\tFIND\tzzz\t0\t3ms\nt3\tGET\tconcept:a\t1\t1ms\nbroken line\nt4\tFIND\tfridge\t1\t7msms\n";

#[test]
fn render_access_log_shows_newest_first_with_limit() {
    assert_eq!(
        render_access_log(LOG, 2, true),
        "= access-log\ntotal_entries: 5\nshowing: 2\nrecent_entries:\n- t4 | FIND | fridge | 1 results | 7msms"
    );
}

#[test]
fn render_access_log_filters_empty_queries() {
    assert_eq!(
        render_access_log(LOG, 10, false),
        "= access-log\ntotal_entries: 3\nshowing: 3\n(filtering: showing only queries with results)\nrecent_entries:\n- t4 | FIND | fridge | 1 results | 7msms\n- t3 | GET | concept:a | 1 results | 1ms\n- t1 | FIND | fridge | 2 results | 5ms"
    );
}

#[test]
fn access_stats_counts_operations_and_queries() {
    let s = access_stats(LOG).expect("stats");
    assert_eq!(s.total, 5);
    assert_eq!(s.finds, 3);
    assert_eq!(s.gets, 1);
    assert_eq!(s.empty_finds, 1);
    assert_eq!(s.total_duration_ms, 16);
    assert_eq!(
        s.queries,
        vec![("fridge".to_owned(), 2), ("zzz".to_owned(), 1)]
    );
}

#[test]
fn top_queries_keep_the_most_frequent_in_order() {
    let q: Vec<(String, usize)> = vec![("a", 1), ("b", 3), ("c", 3), ("d", 2)]
        .into_iter()
        .map(|(s, n)| (s.to_owned(), n))
        .collect();
    let top = kg::access_report::top_queries(&q, 3);
    assert_eq!(top, vec![("b".to_owned(), 3), ("c".to_owned(), 3), ("d".to_owned(), 2)]);
}
