//! The reports over the access log: the recent entries, and the counts
//! behind the access statistics.
//!
//! Each log line holds tab-separated fields: timestamp, operation, query,
//! result count and duration.
use vstd::prelude::*;
use crate::text::{
    append_chars, append_str, chars_of, decimal, decimal_usize, join_chars, join_with, lines,
    lines_exec, seqs_view, split_chars, split_on, string_of,
};

verus! {

/// Whether a log line records a query with results: its fourth field
/// exists and is not `0`.
pub open spec fn has_results(line: Seq<char>) -> bool {
    let parts = split_on(line, '\t');
    parts.len() >= 4 && parts[3] != "0"@
}

/// The lines kept for the report: all, or those with results.
pub open spec fn kept_lines(ls: Seq<Seq<char>>, show_empty: bool) -> Seq<Seq<char>>
    decreases ls.len(),
{
    if show_empty || ls.len() == 0 {
        ls
    } else {
        let k = kept_lines(ls.drop_last(), false);
        if has_results(ls.last()) {
            k.push(ls.last())
        } else {
            k
        }
    }
}

/// The last `n` lines (or all of them), newest first.
pub open spec fn newest_first(ls: Seq<Seq<char>>, n: nat) -> Seq<Seq<char>> {
    let m = if n < ls.len() {
        n as int
    } else {
        ls.len() as int
    };
    Seq::new(m as nat, |i: int| ls[ls.len() - 1 - i])
}

/// The report line of a log line with at least five fields.
pub open spec fn entry_text(parts: Seq<Seq<char>>) -> Seq<char> {
    "- "@ + parts[0] + " | "@ + parts[1] + " | "@ + parts[2] + " | "@ + parts[3] + " results | "@
        + parts[4]
}

/// The report lines of the shown log lines; lines with fewer than five
/// fields are left out.
pub open spec fn entry_lines(shown: Seq<Seq<char>>) -> Seq<Seq<char>>
    decreases shown.len(),
{
    if shown.len() == 0 {
        Seq::empty()
    } else {
        let init = entry_lines(shown.drop_last());
        let parts = split_on(shown.last(), '\t');
        if parts.len() >= 5 {
            init.push(entry_text(parts))
        } else {
            init
        }
    }
}

/// The lines of the recent-entries report.
pub open spec fn access_log_report_lines(content: Seq<char>, limit: nat, show_empty: bool) -> Seq<
    Seq<char>,
> {
    let kept = kept_lines(lines(content), show_empty);
    let shown = newest_first(kept, limit);
    seq!["= access-log"@, "total_entries: "@ + decimal(kept.len()), "showing: "@ + decimal(
        shown.len(),
    )] + (if show_empty {
        Seq::<Seq<char>>::empty()
    } else {
        seq!["(filtering: showing only queries with results)"@]
    }) + seq!["recent_entries:"@] + entry_lines(shown)
}

fn vec_of(s: &str) -> (r: Vec<char>)
    ensures
        r@ == s@,
{
    chars_of(s)
}

fn push_line(out: &mut Vec<Vec<char>>, l: Vec<char>)
    ensures
        seqs_view(final(out)@) == seqs_view(old(out)@).push(l@),
{
    let ghost before = seqs_view(out@);
    out.push(l);
    assert(seqs_view(out@) =~= before.push(l@));
}

fn has_results_exec(line: &[char]) -> (r: bool)
    ensures
        r == has_results(line@),
{
    let parts = split_chars(line, '\t');
    proof {
        assert(seqs_view(parts@).len() == parts.len());
    }
    if parts.len() < 4 {
        return false;
    }
    let zero = vec_of("0");
    let same = crate::text::chars_eq(parts[3].as_slice(), zero.as_slice());
    proof {
        assert(seqs_view(parts@)[3] == parts@[3]@);
    }
    !same
}

fn entry_text_exec(parts: &Vec<Vec<char>>) -> (r: Vec<char>)
    requires
        parts.len() >= 5,
    ensures
        r@ == entry_text(seqs_view(parts@)),
{
    let mut out: Vec<char> = Vec::new();
    append_str(&mut out, "- ");
    append_chars(&mut out, parts[0].as_slice());
    append_str(&mut out, " | ");
    append_chars(&mut out, parts[1].as_slice());
    append_str(&mut out, " | ");
    append_chars(&mut out, parts[2].as_slice());
    append_str(&mut out, " | ");
    append_chars(&mut out, parts[3].as_slice());
    append_str(&mut out, " results | ");
    append_chars(&mut out, parts[4].as_slice());
    let ghost v = seqs_view(parts@);
    assert(v[0] == parts@[0]@ && v[1] == parts@[1]@ && v[2] == parts@[2]@);
    assert(v[3] == parts@[3]@ && v[4] == parts@[4]@);
    assert(out@ =~= entry_text(v));
    out
}

/// `read_log` once the log is read: the entry count, how many are shown and
/// the newest `limit` entries, newest first; without `show_empty` only the
/// entries of queries with results count. Lines are joined by newlines.
pub fn render_access_log(content: &str, limit: usize, show_empty: bool) -> (r: String)
    ensures
        r@ == join_with(access_log_report_lines(content@, limit as nat, show_empty), '\n'),
{
    let text = chars_of(content);
    let all = lines_exec(text.as_slice());
    let ghost ls = seqs_view(all@);
    let mut kept: Vec<Vec<char>> = Vec::new();
    let mut i: usize = 0;
    assert(ls.take(0) =~= Seq::<Seq<char>>::empty());
    while i < all.len()
        invariant
            i <= all.len(),
            ls == seqs_view(all@),
            ls == lines(content@),
            seqs_view(kept@) == kept_lines(ls.take(i as int), show_empty),
        decreases all.len() - i,
    {
        proof {
            assert(ls.take(i + 1).drop_last() =~= ls.take(i as int));
            assert(ls.take(i + 1).last() == all@[i as int]@);
        }
        let keep = show_empty || has_results_exec(all[i].as_slice());
        if keep {
            let l = crate::text::copy_chars(all[i].as_slice(), 0, all[i].len());
            assert(l@ =~= all@[i as int]@);
            push_line(&mut kept, l);
        }
        proof {
            if show_empty {
                assert(seqs_view(kept@) =~= ls.take(i + 1));
            }
        }
        i += 1;
    }
    assert(ls.take(i as int) =~= ls);
    let ghost kv = seqs_view(kept@);
    let n = if limit < kept.len() {
        limit
    } else {
        kept.len()
    };
    let mut shown: Vec<Vec<char>> = Vec::new();
    let mut j: usize = 0;
    while j < n
        invariant
            j <= n,
            n <= kept.len(),
            kv == seqs_view(kept@),
            seqs_view(shown@) == newest_first(kv, limit as nat).take(j as int),
            newest_first(kv, limit as nat).len() == n,
        decreases n - j,
    {
        let k = kept.len() - 1 - j;
        let l = crate::text::copy_chars(kept[k].as_slice(), 0, kept[k].len());
        assert(l@ =~= kept@[k as int]@);
        let ghost before = seqs_view(shown@);
        push_line(&mut shown, l);
        assert(seqs_view(shown@) =~= newest_first(kv, limit as nat).take(j + 1));
        j += 1;
    }
    let ghost sv = seqs_view(shown@);
    assert(sv =~= newest_first(kv, limit as nat));
    let mut out_lines: Vec<Vec<char>> = Vec::new();
    push_line(&mut out_lines, vec_of("= access-log"));
    let mut l1 = vec_of("total_entries: ");
    let d1 = decimal_usize(kept.len());
    append_chars(&mut l1, d1.as_slice());
    push_line(&mut out_lines, l1);
    let mut l2 = vec_of("showing: ");
    let d2 = decimal_usize(shown.len());
    append_chars(&mut l2, d2.as_slice());
    push_line(&mut out_lines, l2);
    if !show_empty {
        push_line(&mut out_lines, vec_of("(filtering: showing only queries with results)"));
    }
    push_line(&mut out_lines, vec_of("recent_entries:"));
    let ghost head = seqs_view(out_lines@);
    assert(head =~= seq!["= access-log"@, "total_entries: "@ + decimal(kv.len()), "showing: "@
        + decimal(sv.len())] + (if show_empty {
        Seq::<Seq<char>>::empty()
    } else {
        seq!["(filtering: showing only queries with results)"@]
    }) + seq!["recent_entries:"@]);
    let mut t: usize = 0;
    assert(sv.take(0) =~= Seq::<Seq<char>>::empty());
    assert(seqs_view(out_lines@) =~= head + entry_lines(sv.take(0)));
    while t < shown.len()
        invariant
            t <= shown.len(),
            sv == seqs_view(shown@),
            seqs_view(out_lines@) == head + entry_lines(sv.take(t as int)),
        decreases shown.len() - t,
    {
        let parts = split_chars(shown[t].as_slice(), '\t');
        proof {
            assert(sv.take(t + 1).drop_last() =~= sv.take(t as int));
            assert(sv.take(t + 1).last() == shown@[t as int]@);
            assert(seqs_view(parts@).len() == parts.len());
        }
        if parts.len() >= 5 {
            let e = entry_text_exec(&parts);
            let ghost before = seqs_view(out_lines@);
            push_line(&mut out_lines, e);
            assert(seqs_view(out_lines@) =~= head + entry_lines(sv.take(t + 1)));
        }
        t += 1;
    }
    assert(sv.take(t as int) =~= sv);
    let joined = join_chars(&out_lines, '\n');
    string_of(joined.as_slice())
}

// ---------------------------------------------------------------------------
// Access statistics
// ---------------------------------------------------------------------------

/// The duration field without its trailing `ms` units (all of them, as
/// `trim_end_matches` removes).
pub open spec fn strip_ms(s: Seq<char>) -> Seq<char>
    decreases s.len(),
{
    if s.len() >= 2 && s[s.len() - 2] == 'm' && s[s.len() - 1] == 's' {
        strip_ms(s.take(s.len() - 2))
    } else {
        s
    }
}

/// The duration a log line records, 0 when it does not read as a number.
pub open spec fn duration_of(field: Seq<char>) -> nat {
    match crate::kg_codec::parse_u128_spec(strip_ms(field)) {
        Some(v) => v as nat,
        None => 0,
    }
}

/// Whether the result count reads as 0 (or does not read as a number).
pub open spec fn results_zero(field: Seq<char>) -> bool {
    match crate::kg_codec::parse_u64_spec(field) {
        Some(v) => v == 0,
        None => true,
    }
}

/// The counts behind the statistics.
pub struct StatsV {
    pub finds: nat,
    pub gets: nat,
    pub empty_finds: nat,
    pub duration: nat,
    pub queries: Seq<(Seq<char>, nat)>,
}

/// The index of query `q` in the counted queries, or -1.
pub open spec fn query_index(qs: Seq<(Seq<char>, nat)>, q: Seq<char>) -> int
    decreases qs.len(),
{
    if qs.len() == 0 {
        -1
    } else if qs.last().0 == q {
        qs.len() - 1
    } else {
        query_index(qs.drop_last(), q)
    }
}

/// One more occurrence of query `q`: its count goes up, or it is added last.
pub open spec fn add_query(qs: Seq<(Seq<char>, nat)>, q: Seq<char>) -> Seq<(Seq<char>, nat)> {
    let i = query_index(qs, q);
    if i >= 0 {
        qs.update(i, (q, qs[i].1 + 1))
    } else {
        qs.push((q, 1nat))
    }
}

/// The counts after one more log line; lines with fewer than five fields do
/// not count.
pub open spec fn stats_step(st: StatsV, line: Seq<char>) -> StatsV {
    let parts = split_on(line, '\t');
    if parts.len() < 5 {
        st
    } else {
        let st1 = StatsV { duration: st.duration + duration_of(parts[4]), ..st };
        if parts[1] == "FIND"@ {
            StatsV {
                finds: st.finds + 1,
                empty_finds: if results_zero(parts[3]) {
                    st.empty_finds + 1
                } else {
                    st.empty_finds
                },
                queries: add_query(st.queries, parts[2]),
                ..st1
            }
        } else if parts[1] == "GET"@ {
            StatsV { gets: st.gets + 1, ..st1 }
        } else {
            st1
        }
    }
}

/// The counts over log lines.
pub open spec fn stats_of(ls: Seq<Seq<char>>) -> StatsV
    decreases ls.len(),
{
    if ls.len() == 0 {
        StatsV { finds: 0, gets: 0, empty_finds: 0, duration: 0, queries: Seq::empty() }
    } else {
        stats_step(stats_of(ls.drop_last()), ls.last())
    }
}

/// The access statistics of a log: the number of lines, FIND and GET
/// operations, FIND operations without results, the total duration in
/// milliseconds, and each FIND query with its count, in order of first use.
pub struct AccessStats {
    pub total: usize,
    pub finds: usize,
    pub gets: usize,
    pub empty_finds: usize,
    pub total_duration_ms: u128,
    pub queries: Vec<(String, usize)>,
}

pub open spec fn queries_view(q: Seq<(String, usize)>) -> Seq<(Seq<char>, nat)> {
    q.map_values(|e: (String, usize)| (e.0@, e.1 as nat))
}

pub open spec fn stats_matches(a: AccessStats, st: StatsV) -> bool {
    &&& a.finds == st.finds
    &&& a.gets == st.gets
    &&& a.empty_finds == st.empty_finds
    &&& a.total_duration_ms == st.duration
    &&& queries_view(a.queries@) == st.queries
}

fn strip_ms_exec(s: &[char]) -> (r: Vec<char>)
    ensures
        r@ == strip_ms(s@),
{
    let mut n: usize = s.len();
    assert(s@.take(n as int) =~= s@);
    while n >= 2 && s[n - 2] == 'm' && s[n - 1] == 's'
        invariant
            n <= s.len(),
            strip_ms(s@) == strip_ms(s@.take(n as int)),
        decreases n,
    {
        assert(s@.take(n as int).take(n - 2) =~= s@.take(n - 2));
        n -= 2;
    }
    crate::text::copy_chars(s, 0, n)
}

fn query_pos(qs: &Vec<(String, usize)>, q: &[char]) -> (r: Option<usize>)
    ensures
        match r {
            Some(i) => i < qs.len() && i as int == query_index(queries_view(qs@), q@),
            None => query_index(queries_view(qs@), q@) == -1,
        },
{
    let ghost v = queries_view(qs@);
    let mut j: usize = qs.len();
    assert(v.take(j as int) =~= v);
    while j > 0
        invariant
            j <= qs.len(),
            v == queries_view(qs@),
            query_index(v, q@) == query_index(v.take(j as int), q@),
        decreases j,
    {
        proof {
            assert(v.take(j as int).drop_last() =~= v.take(j - 1));
            assert(v.take(j as int).last() == (qs@[j - 1].0@, qs@[j - 1].1 as nat));
        }
        let k = chars_of(qs[j - 1].0.as_str());
        if crate::text::chars_eq(k.as_slice(), q) {
            return Some(j - 1);
        }
        j -= 1;
    }
    assert(v.take(0) =~= Seq::<(Seq<char>, nat)>::empty());
    None
}

pub proof fn lemma_query_index_pub(qs: Seq<(Seq<char>, nat)>, q: Seq<char>)
    ensures
        -1 <= query_index(qs, q) < qs.len(),
        query_index(qs, q) >= 0 ==> qs[query_index(qs, q)].0 == q,
{
    lemma_query_index(qs, q);
}

proof fn lemma_query_index(qs: Seq<(Seq<char>, nat)>, q: Seq<char>)
    ensures
        -1 <= query_index(qs, q) < qs.len(),
        query_index(qs, q) >= 0 ==> qs[query_index(qs, q)].0 == q,
    decreases qs.len(),
{
    if qs.len() > 0 {
        lemma_query_index(qs.drop_last(), q);
    }
}

/// The access statistics of a log's text, or `None` when the durations add
/// up to more than `u128` holds.
pub fn access_stats(content: &str) -> (r: Option<AccessStats>)
    ensures
        match r {
            Some(a) => a.total == lines(content@).len() && stats_matches(a, stats_of(lines(content@))),
            None => stats_of(lines(content@)).duration > u128::MAX,
        },
{
    let text = chars_of(content);
    let all = lines_exec(text.as_slice());
    let ghost ls = seqs_view(all@);
    let mut finds: usize = 0;
    let mut gets: usize = 0;
    let mut empty: usize = 0;
    let mut dur: u128 = 0;
    let mut queries: Vec<(String, usize)> = Vec::new();
    let mut i: usize = 0;
    assert(ls.take(0) =~= Seq::<Seq<char>>::empty());
    while i < all.len()
        invariant
            i <= all.len(),
            ls == seqs_view(all@),
            ls == lines(content@),
            finds == stats_of(ls.take(i as int)).finds,
            gets == stats_of(ls.take(i as int)).gets,
            empty == stats_of(ls.take(i as int)).empty_finds,
            dur == stats_of(ls.take(i as int)).duration,
            queries_view(queries@) == stats_of(ls.take(i as int)).queries,
            finds <= i && gets <= i && empty <= i,
            forall|k: int| 0 <= k < queries.len() ==> (#[trigger] queries@[k]).1 <= i,
        decreases all.len() - i,
    {
        proof {
            assert(ls.take(i + 1).drop_last() =~= ls.take(i as int));
            assert(ls.take(i + 1).last() == all@[i as int]@);
        }
        let parts = split_chars(all[i].as_slice(), '\t');
        let ghost pv = seqs_view(parts@);
        proof {
            assert(pv.len() == parts.len());
        }
        if parts.len() >= 5 {
            let stripped = strip_ms_exec(parts[4].as_slice());
            let d: u128 = match crate::kg_codec::parse_u128(stripped.as_slice()) {
                Some(v) => v,
                None => 0,
            };
            proof {
                assert(pv[4] == parts@[4]@);
                assert(d as nat == duration_of(pv[4]));
            }
            if d > u128::MAX - dur {
                proof {
                    lemma_stats_duration_mono(ls, i as int + 1);
                }
                return None;
            }
            dur = dur + d;
            let is_find = crate::text::chars_eq_str(parts[1].as_slice(), "FIND");
            let is_get = crate::text::chars_eq_str(parts[1].as_slice(), "GET");
            proof {
                assert(pv[1] == parts@[1]@);
                assert(pv[2] == parts@[2]@);
                assert(pv[3] == parts@[3]@);
            }
            if is_find {
                finds = finds + 1;
                let zero = match crate::kg_codec::parse_u64(parts[3].as_slice()) {
                    Some(v) => v == 0,
                    None => true,
                };
                if zero {
                    empty = empty + 1;
                }
                let pos = query_pos(&queries, parts[2].as_slice());
                let ghost before = queries_view(queries@);
                proof {
                    lemma_query_index(before, pv[2]);
                }
                match pos {
                    Some(k) => {
                        let c = queries[k].1;
                        let name = string_of(parts[2].as_slice());
                        queries.set(k, (name, c + 1));
                        assert(queries_view(queries@) =~= before.update(
                            k as int,
                            (pv[2], before[k as int].1 + 1),
                        ));
                    },
                    None => {
                        let name = string_of(parts[2].as_slice());
                        queries.push((name, 1));
                        assert(queries_view(queries@) =~= before.push((pv[2], 1nat)));
                    },
                }
            } else if is_get {
                gets = gets + 1;
            }
        }
        i += 1;
    }
    assert(ls.take(i as int) =~= ls);
    Some(
        AccessStats {
            total: all.len(),
            finds,
            gets,
            empty_finds: empty,
            total_duration_ms: dur,
            queries,
        },
    )
}

proof fn lemma_stats_duration_mono(ls: Seq<Seq<char>>, k: int)
    requires
        0 <= k <= ls.len(),
    ensures
        stats_of(ls.take(k)).duration <= stats_of(ls).duration,
    decreases ls.len() - k,
{
    if k < ls.len() {
        lemma_stats_duration_mono(ls, k + 1);
        assert(ls.take(k + 1).drop_last() =~= ls.take(k));
    } else {
        assert(ls.take(k) =~= ls);
    }
}

/// The most frequent queries: highest count first, queries of equal count
/// in their order, at most `limit` of them.
pub open spec fn top_queries_spec(q: Seq<(Seq<char>, nat)>, limit: nat) -> Seq<(Seq<char>, nat)> {
    let s = crate::sorting::sorted_seq::<crate::kql::ByCount>(q);
    if s.len() <= limit { s } else { s.take(limit as int) }
}

/// The most frequent queries, as [`top_queries_spec`] states.
pub fn top_queries(queries: &Vec<(String, usize)>, limit: usize) -> (r: Vec<(String, usize)>)
    ensures
        queries_view(r@) == top_queries_spec(queries_view(queries@), limit as nat),
{
    let mut c: Vec<crate::kql::ByCount> = Vec::new();
    let mut i: usize = 0;
    while i < queries.len()
        invariant
            i <= queries.len(),
            c.len() == i,
            forall|j: int| 0 <= j < i ==> (#[trigger] c@[j])@ == queries_view(queries@)[j],
        decreases queries.len() - i,
    {
        c.push(crate::kql::ByCount(crate::graph::copy_string(&queries[i].0), queries[i].1));
        i += 1;
    }
    assert(crate::sorting::views(c@) =~= queries_view(queries@));
    let sorted = crate::sorting::stable_sort(c);
    let ghost sv = crate::sorting::views(sorted@);
    let n: usize = if sorted.len() <= limit { sorted.len() } else { limit };
    let mut out: Vec<(String, usize)> = Vec::new();
    let mut k: usize = 0;
    while k < n
        invariant
            k <= n,
            n <= sorted.len(),
            sv == crate::sorting::views(sorted@),
            out.len() == k,
            forall|j: int| 0 <= j < k ==> (#[trigger] out@[j]).0@ == sv[j].0 && out@[j].1 as nat == sv[j].1,
        decreases n - k,
    {
        out.push((crate::graph::copy_string(&sorted[k].0), sorted[k].1));
        k += 1;
    }
    let ghost top = if sv.len() <= limit { sv } else { sv.take(limit as int) };
    assert(queries_view(out@) =~= top);
    out
}

} // verus!
