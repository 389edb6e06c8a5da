//! A batch of feedback replies: each line is read, matched with the search
//! it answers (while that search is recent), counted in the statistics,
//! written to the feedback log, and, when it names a result of a known
//! graph, turned into a score update of that node.
use vstd::prelude::*;
use crate::mcp_feedback::{
    parse_feedback_line, parse_feedback_spec, record_feedback_spec, update_feedback_stats, FeedbackStats,
    ParsedFeedbackV,
};
use crate::mcp_text::join_sep;
use crate::graph::copy_string;
use crate::kql::{contains_text, text_contains};
use crate::text::{append_chars, append_str, chars_of, decimal, decimal_u128, decimal_usize, str_eq, string_of, strings_view};

verus! {

broadcast use vstd::string::group_string_axioms;

/// A search whose results may get feedback: its id, when it ran, its graph,
/// its queries and the ids of its results in order.
pub struct FindContext {
    pub uid: String,
    pub created_at_ms: u128,
    pub graph: String,
    pub queries: Vec<String>,
    pub candidate_ids: Vec<String>,
}

/// A search, as values.
pub struct FindContextV {
    pub uid: Seq<char>,
    pub created_at_ms: u128,
    pub graph: Seq<char>,
    pub queries: Seq<Seq<char>>,
    pub candidate_ids: Seq<Seq<char>>,
}

impl View for FindContext {
    type V = FindContextV;

    open spec fn view(&self) -> FindContextV {
        FindContextV {
            uid: self.uid@,
            created_at_ms: self.created_at_ms,
            graph: self.graph@,
            queries: strings_view(self.queries@),
            candidate_ids: strings_view(self.candidate_ids@),
        }
    }
}

/// Whether a search ran at most `ttl_ms` before `now_ms`.
pub open spec fn is_recent(c: FindContextV, now_ms: u128, ttl_ms: u128) -> bool {
    (if now_ms >= c.created_at_ms { now_ms - c.created_at_ms } else { 0 }) <= ttl_ms
}

/// The views of searches.
pub open spec fn finds_view(v: Seq<FindContext>) -> Seq<FindContextV> {
    v.map_values(|c: FindContext| c@)
}

/// Drops the searches older than `ttl_ms`.
pub fn retain_recent_finds(finds: &mut Vec<FindContext>, now_ms: u128, ttl_ms: u128)
    ensures
        finds_view(final(finds)@) == finds_view(old(finds)@).filter(|c: FindContextV| is_recent(c, now_ms, ttl_ms)),
{
    let ghost pred = |c: FindContextV| is_recent(c, now_ms, ttl_ms);
    let ghost xs = finds_view(finds@);
    let mut kept: Vec<FindContext> = Vec::new();
    let mut rest: Vec<FindContext> = Vec::new();
    std::mem::swap(&mut rest, finds);
    let ghost all = rest@;
    assert(xs.take(0).filter(pred) =~= Seq::<FindContextV>::empty()) by {
        reveal_with_fuel(Seq::<_>::filter, 1);
    }
    let mut i: usize = 0;
    let n = rest.len();
    while i < n
        invariant
            i <= n,
            n == all.len(),
            xs == finds_view(all),
            pred == (|c: FindContextV| is_recent(c, now_ms, ttl_ms)),
            finds_view(kept@) == xs.take(i as int).filter(pred),
            rest.len() == n - i,
            forall|j: int| 0 <= j < rest.len() ==> rest@[j] == all[j + i],
        decreases n - i,
    {
        proof {
            reveal_with_fuel(Seq::<_>::filter, 1);
            assert(xs.take(i + 1).drop_last() =~= xs.take(i as int));
            assert(xs.take(i + 1).last() == all[i as int]@);
        }
        let c = rest.remove(0);
        assert(c == all[i as int]);
        let now_ok = if now_ms >= c.created_at_ms { now_ms - c.created_at_ms <= ttl_ms } else { true };
        if now_ok {
            let ghost before = finds_view(kept@);
            kept.push(c);
            assert(finds_view(kept@) =~= before.push(all[i as int]@));
        }
        i += 1;
    }
    assert(xs.take(n as int) =~= xs);
    *finds = kept;
}

/// The first search with feedback id `uid`.
pub open spec fn context_of(finds: Seq<FindContextV>, uid: Seq<char>) -> Option<FindContextV>
    decreases finds.len(),
{
    if finds.len() == 0 {
        None
    } else if finds[0].uid == uid {
        Some(finds[0])
    } else {
        context_of(finds.drop_first(), uid)
    }
}

/// The result a reply selects: the picked one (counted from 1) of a
/// `PICK`, or the only result of a `YES`.
pub open spec fn selected_spec(action: Seq<char>, pick: Option<usize>, candidates: Seq<Seq<char>>) -> Option<Seq<char>> {
    if action == "PICK"@ && pick is Some && 1 <= pick->0 <= candidates.len() {
        Some(candidates[pick->0 - 1])
    } else if action == "YES"@ && pick is None && candidates.len() == 1 {
        Some(candidates[0])
    } else {
        None
    }
}

/// The score change an answer makes: `YES` +1, `NO` -1, `PICK` +2.
pub open spec fn delta_spec(action: Seq<char>) -> Option<i8> {
    if action == "YES"@ {
        Some(1i8)
    } else if action == "NO"@ {
        Some(-1i8)
    } else if action == "PICK"@ {
        Some(2i8)
    } else {
        None
    }
}

/// One line of a batch after reading.
pub struct FeedbackItem {
    pub line: String,
    /// Whether the line was a valid reply; the other fields are empty when
    /// it was not.
    pub ok: bool,
    pub uid: String,
    pub action: String,
    pub pick: Option<usize>,
    /// The selected node id, or `-`.
    pub selected: String,
    /// The search's graph, or `-`.
    pub graph: String,
    pub queries: Vec<String>,
    /// `passive` for a reply marked `passive=1`, else `active`.
    pub source: String,
}

/// One line of a batch, as values.
pub struct FeedbackItemV {
    pub line: Seq<char>,
    pub ok: bool,
    pub uid: Seq<char>,
    pub action: Seq<char>,
    pub pick: Option<usize>,
    pub selected: Seq<char>,
    pub graph: Seq<char>,
    pub queries: Seq<Seq<char>>,
    pub source: Seq<char>,
}

impl View for FeedbackItem {
    type V = FeedbackItemV;

    open spec fn view(&self) -> FeedbackItemV {
        FeedbackItemV {
            line: self.line@,
            ok: self.ok,
            uid: self.uid@,
            action: self.action@,
            pick: self.pick,
            selected: self.selected@,
            graph: self.graph@,
            queries: strings_view(self.queries@),
            source: self.source@,
        }
    }
}

/// A score change to apply to a node of a graph.
pub struct FeedbackUpdate {
    /// The position of the line in the batch.
    pub item_index: usize,
    pub graph: String,
    pub node_id: String,
    pub action: String,
    pub delta: i8,
    pub ts_ms: u128,
}

/// A score change, as values.
pub struct FeedbackUpdateV {
    pub item_index: usize,
    pub graph: Seq<char>,
    pub node_id: Seq<char>,
    pub action: Seq<char>,
    pub delta: i8,
    pub ts_ms: u128,
}

impl View for FeedbackUpdate {
    type V = FeedbackUpdateV;

    open spec fn view(&self) -> FeedbackUpdateV {
        FeedbackUpdateV {
            item_index: self.item_index,
            graph: self.graph@,
            node_id: self.node_id@,
            action: self.action@,
            delta: self.delta,
            ts_ms: self.ts_ms,
        }
    }
}

/// A text, or `-` when there is none.
pub open spec fn or_dash(o: Option<Seq<char>>) -> Seq<char> {
    match o {
        Some(s) => s,
        None => "-"@,
    }
}

/// What a line becomes, given the recent searches.
pub open spec fn item_spec(line: Seq<char>, finds: Seq<FindContextV>) -> FeedbackItemV {
    match parse_feedback_spec(line) {
        None => FeedbackItemV {
            line,
            ok: false,
            uid: Seq::empty(),
            action: Seq::empty(),
            pick: None,
            selected: Seq::empty(),
            graph: Seq::empty(),
            queries: Seq::empty(),
            source: Seq::empty(),
        },
        Some(p) => {
            let ctx = context_of(finds, p.uid);
            FeedbackItemV {
                line,
                ok: true,
                uid: p.uid,
                action: p.action,
                pick: p.pick,
                selected: or_dash(
                    match ctx {
                        Some(c) => selected_spec(p.action, p.pick, c.candidate_ids),
                        None => None,
                    },
                ),
                graph: or_dash(
                    match ctx {
                        Some(c) => Some(c.graph),
                        None => None,
                    },
                ),
                queries: match ctx {
                    Some(c) => c.queries,
                    None => Seq::empty(),
                },
                source: if contains_text(line, "passive=1"@) { "passive"@ } else { "active"@ },
            }
        },
    }
}

/// The score change a line asks for, at position `index` of the batch.
pub open spec fn update_spec(index: usize, line: Seq<char>, finds: Seq<FindContextV>, now_ms: u128) -> Option<FeedbackUpdateV> {
    match parse_feedback_spec(line) {
        None => None,
        Some(p) => match context_of(finds, p.uid) {
            None => None,
            Some(c) => match selected_spec(p.action, p.pick, c.candidate_ids) {
                None => None,
                Some(node) => match delta_spec(p.action) {
                    None => None,
                    Some(d) => if c.graph.len() > 0 && c.graph != "-"@ {
                        Some(FeedbackUpdateV { item_index: index, graph: c.graph, node_id: node, action: p.action, delta: d, ts_ms: now_ms })
                    } else {
                        None
                    },
                },
            },
        },
    }
}

/// Tabs written as spaces.
pub open spec fn untab(s: Seq<char>) -> Seq<char> {
    s.map_values(|c: char| if c == '\t' { ' ' } else { c })
}

/// The log line of a valid reply.
pub open spec fn log_line_spec(now_ms: u128, it: FeedbackItemV) -> Seq<char> {
    "ts_ms="@ + decimal(now_ms as nat) + "\tuid="@ + it.uid + "\taction="@ + it.action + "\tpick="@ + (match it.pick {
        Some(n) => decimal(n as nat),
        None => "-"@,
    }) + "\tselected="@ + it.selected + "\tgraph="@ + it.graph + "\tqueries="@ + untab(join_sep(it.queries, " | "@))
        + "\tsource="@ + it.source + "\n"@
}

/// The state of a batch run: the items, the updates, the log text and the
/// statistics.
pub struct RunV {
    pub items: Seq<FeedbackItemV>,
    pub updates: Seq<FeedbackUpdateV>,
    pub log: Seq<char>,
    pub query_stats: Map<Seq<char>, crate::mcp_feedback::QueryFeedbackStats>,
    pub global: crate::mcp_feedback::GlobalFeedbackStats,
}

/// The run after the lines, in order.
pub open spec fn run_spec(
    lines: Seq<Seq<char>>,
    finds: Seq<FindContextV>,
    now_ms: u128,
    m: Map<Seq<char>, crate::mcp_feedback::QueryFeedbackStats>,
    g: crate::mcp_feedback::GlobalFeedbackStats,
) -> RunV
    decreases lines.len(),
{
    if lines.len() == 0 {
        RunV { items: Seq::empty(), updates: Seq::empty(), log: Seq::empty(), query_stats: m, global: g }
    } else {
        let st = run_spec(lines.drop_last(), finds, now_ms, m, g);
        let it = item_spec(lines.last(), finds);
        if !it.ok {
            RunV { items: st.items.push(it), ..st }
        } else {
            let (m2, g2) = record_feedback_spec(st.query_stats, st.global, it.queries, it.action);
            RunV {
                items: st.items.push(it),
                updates: match update_spec(st.items.len() as usize, lines.last(), finds, now_ms) {
                    Some(u) => st.updates.push(u),
                    None => st.updates,
                },
                log: st.log + log_line_spec(now_ms, it),
                query_stats: m2,
                global: g2,
            }
        }
    }
}

/// The number of valid replies among the items.
pub open spec fn ok_count(items: Seq<FeedbackItemV>) -> nat
    decreases items.len(),
{
    if items.len() == 0 {
        0
    } else {
        ok_count(items.drop_last()) + if items.last().ok { 1nat } else { 0nat }
    }
}

/// What a batch of replies produced.
pub struct FeedbackBatch {
    pub ok: usize,
    pub failed: usize,
    pub items: Vec<FeedbackItem>,
    pub updates: Vec<FeedbackUpdate>,
    /// The lines to append to the feedback log.
    pub log: String,
}

/// Why a batch was refused.
#[derive(Debug, PartialEq, Eq)]
pub enum FeedbackBatchError {
    /// The mode is neither `best_effort` nor `strict`.
    InvalidMode(String),
    /// In strict mode, the lines that are not valid replies.
    InvalidLines(Vec<String>),
}

fn context_exec(finds: &Vec<FindContext>, uid: &String) -> (r: Option<usize>)
    ensures
        match r {
            Some(i) => i < finds.len() && context_of(finds_view(finds@), uid@) == Some(finds@[i as int]@),
            None => context_of(finds_view(finds@), uid@) is None,
        },
{
    let ghost fv = finds_view(finds@);
    let mut i: usize = 0;
    assert(fv.skip(0) =~= fv);
    while i < finds.len()
        invariant
            i <= finds.len(),
            fv == finds_view(finds@),
            context_of(fv, uid@) == context_of(fv.skip(i as int), uid@),
        decreases finds.len() - i,
    {
        assert(fv.skip(i as int)[0] == finds@[i as int]@);
        assert(fv.skip(i as int).drop_first() =~= fv.skip(i + 1));
        if str_eq(finds[i].uid.as_str(), uid.as_str()) {
            return Some(i);
        }
        i += 1;
    }
    assert(fv.skip(i as int) =~= Seq::<FindContextV>::empty());
    None
}

fn join_queries(qs: &Vec<String>) -> (r: Vec<char>)
    ensures
        r@ == untab(join_sep(strings_view(qs@), " | "@)),
{
    let ghost qv = strings_view(qs@);
    let mut out: Vec<char> = Vec::new();
    let mut i: usize = 0;
    while i < qs.len()
        invariant
            i <= qs.len(),
            qv == strings_view(qs@),
            out@ == join_sep(qv.take(i as int), " | "@),
        decreases qs.len() - i,
    {
        let ghost before = out@;
        if i > 0 {
            append_str(&mut out, " | ");
        }
        append_str(&mut out, qs[i].as_str());
        proof {
            let t = qv.take(i + 1);
            assert(t.drop_last() =~= qv.take(i as int));
            assert(t.last() == qs@[i as int]@);
            if i == 0 {
                assert(before =~= Seq::<char>::empty());
            }
        }
        i += 1;
    }
    assert(qv.take(qs.len() as int) =~= qv);
    let ghost joined = out@;
    let mut k: usize = 0;
    while k < out.len()
        invariant
            k <= out.len(),
            out.len() == joined.len(),
            forall|j: int| 0 <= j < k ==> out@[j] == (if joined[j] == '\t' { ' ' } else { joined[j] }),
            forall|j: int| k <= j < out.len() ==> out@[j] == joined[j],
        decreases out.len() - k,
    {
        if out[k] == '\t' {
            out.set(k, ' ');
        }
        k += 1;
    }
    assert(out@ =~= untab(joined));
    out
}

fn copy_all(v: &Vec<String>) -> (r: Vec<String>)
    ensures
        strings_view(r@) == strings_view(v@),
{
    let r = crate::graph::copy_strings(v);
    assert(strings_view(r@) =~= crate::sorting::views(r@));
    assert(strings_view(v@) =~= crate::sorting::views(v@));
    r
}

fn text(s: &str) -> (r: String)
    ensures
        r@ == s@,
{
    string_of(chars_of(s).as_slice())
}

fn selected_exec(action: &String, pick: Option<usize>, cands: &Vec<String>) -> (r: Option<String>)
    ensures
        match r {
            Some(s) => selected_spec(action@, pick, strings_view(cands@)) == Some(s@),
            None => selected_spec(action@, pick, strings_view(cands@)) is None,
        },
{
    if str_eq(action.as_str(), "PICK") && pick.is_some() && 1 <= pick.unwrap() && pick.unwrap() <= cands.len() {
        Some(copy_string(&cands[pick.unwrap() - 1]))
    } else if str_eq(action.as_str(), "YES") && pick.is_none() && cands.len() == 1 {
        Some(copy_string(&cands[0]))
    } else {
        None
    }
}

fn delta_exec(action: &String) -> (r: Option<i8>)
    ensures
        r == delta_spec(action@),
{
    if str_eq(action.as_str(), "YES") {
        Some(1)
    } else if str_eq(action.as_str(), "NO") {
        Some(-1)
    } else if str_eq(action.as_str(), "PICK") {
        Some(2)
    } else {
        None
    }
}

fn log_line_exec(now_ms: u128, it: &FeedbackItem) -> (r: Vec<char>)
    ensures
        r@ == log_line_spec(now_ms, it@),
{
    let mut out = chars_of("ts_ms=");
    append_chars(&mut out, decimal_u128(now_ms).as_slice());
    append_str(&mut out, "\tuid=");
    append_str(&mut out, it.uid.as_str());
    append_str(&mut out, "\taction=");
    append_str(&mut out, it.action.as_str());
    append_str(&mut out, "\tpick=");
    match it.pick {
        Some(n) => append_chars(&mut out, decimal_usize(n).as_slice()),
        None => append_str(&mut out, "-"),
    }
    append_str(&mut out, "\tselected=");
    append_str(&mut out, it.selected.as_str());
    append_str(&mut out, "\tgraph=");
    append_str(&mut out, it.graph.as_str());
    append_str(&mut out, "\tqueries=");
    append_chars(&mut out, join_queries(&it.queries).as_slice());
    append_str(&mut out, "\tsource=");
    append_str(&mut out, it.source.as_str());
    append_str(&mut out, "\n");
    out
}

/// What one line becomes, and the score change it asks for at position
/// `index`.
fn read_line(line: &String, finds: &Vec<FindContext>, index: usize, now_ms: u128) -> (r: (FeedbackItem, Option<FeedbackUpdate>))
    ensures
        r.0@ == item_spec(line@, finds_view(finds@)),
        match r.1 {
            Some(u) => update_spec(index, line@, finds_view(finds@), now_ms) == Some(u@),
            None => update_spec(index, line@, finds_view(finds@), now_ms) is None,
        },
{
    let p = match parse_feedback_line(line.as_str()) {
        None => {
            let queries: Vec<String> = Vec::new();
            assert(strings_view(queries@) =~= Seq::<Seq<char>>::empty());
            let it = FeedbackItem {
                line: copy_string(line),
                ok: false,
                uid: text(""),
                action: text(""),
                pick: None,
                selected: text(""),
                graph: text(""),
                queries,
                source: text(""),
            };
            proof {
                reveal_strlit("");
                assert(parse_feedback_spec(line@) is None);
                let sp = item_spec(line@, finds_view(finds@));
                assert(it@.uid == sp.uid);
                assert(it@.queries == sp.queries);
                assert(it@.line == sp.line);
                assert(it@.source == sp.source);
            }
            assert(it@ =~= item_spec(line@, finds_view(finds@)));
            return (it, None);
        },
        Some(p) => p,
    };
    let passive = text_contains(chars_of(line.as_str()).as_slice(), chars_of("passive=1").as_slice());
    let source = if passive { text("passive") } else { text("active") };
    match context_exec(finds, &p.uid) {
        None => {
            let queries: Vec<String> = Vec::new();
            assert(strings_view(queries@) =~= Seq::<Seq<char>>::empty());
            let it = FeedbackItem {
                line: copy_string(line),
                ok: true,
                uid: copy_string(&p.uid),
                action: copy_string(&p.action),
                pick: p.pick,
                selected: text("-"),
                graph: text("-"),
                queries,
                source,
            };
            assert(it@ =~= item_spec(line@, finds_view(finds@)));
            (it, None)
        },
        Some(ci) => {
            let c = &finds[ci];
            let sel = selected_exec(&p.action, p.pick, &c.candidate_ids);
            let selected = match &sel {
                Some(s) => copy_string(s),
                None => text("-"),
            };
            let it = FeedbackItem {
                line: copy_string(line),
                ok: true,
                uid: copy_string(&p.uid),
                action: copy_string(&p.action),
                pick: p.pick,
                selected,
                graph: copy_string(&c.graph),
                queries: copy_all(&c.queries),
                source,
            };
            assert(it@ =~= item_spec(line@, finds_view(finds@)));
            let update = match sel {
                None => None,
                Some(node) => match delta_exec(&p.action) {
                    None => None,
                    Some(d) => if c.graph.as_str().unicode_len() > 0 && !str_eq(c.graph.as_str(), "-") {
                        Some(FeedbackUpdate {
                            item_index: index,
                            graph: copy_string(&c.graph),
                            node_id: node,
                            action: copy_string(&p.action),
                            delta: d,
                            ts_ms: now_ms,
                        })
                    } else {
                        None
                    },
                },
            };
            (it, update)
        },
    }
}

/// Reads a batch of feedback replies against the recent searches (those
/// older than ten minutes are dropped first): each valid reply is counted
/// in the statistics, logged and, when it selects a result of a known
/// graph, turned into a score update. In `strict` mode any invalid line
/// refuses the whole batch; `best_effort` lists it as failed.
pub fn run_feedback_batch(
    lines: &Vec<String>,
    mode: &str,
    finds: &mut Vec<FindContext>,
    now_ms: u128,
    stats: &mut FeedbackStats,
) -> (r: Result<FeedbackBatch, FeedbackBatchError>)
    requires
        old(stats).query_stats.wf(),
    ensures
        final(stats).query_stats.wf(),
        !(mode@ == "best_effort"@ || mode@ == "strict"@) ==> (r matches Err(FeedbackBatchError::InvalidMode(m))
            && m@ == mode@ && *final(finds) == *old(finds) && final(stats).global_stats == old(stats).global_stats
            && final(stats).query_stats@ == old(stats).query_stats@),
        (mode@ == "best_effort"@ || mode@ == "strict"@) ==> finds_view(final(finds)@) == finds_view(old(finds)@).filter(
            |c: FindContextV| is_recent(c, now_ms, 600000),
        ),
        mode@ == "strict"@ && (exists|i: int| 0 <= i < lines.len() && parse_feedback_spec(#[trigger] lines@[i]@) is None)
            ==> (r matches Err(FeedbackBatchError::InvalidLines(bad)) && strings_view(bad@) == strings_view(lines@).filter(
            |l: Seq<char>| parse_feedback_spec(l) is None,
        ) && final(stats).global_stats == old(stats).global_stats && final(stats).query_stats@ == old(stats).query_stats@),
        ((mode@ == "best_effort"@) || (mode@ == "strict"@ && forall|i: int| 0 <= i < lines.len() ==> parse_feedback_spec(
            #[trigger] lines@[i]@,
        ) is Some)) ==> ({
            let run = run_spec(
                strings_view(lines@),
                finds_view(final(finds)@),
                now_ms,
                old(stats).query_stats@,
                old(stats).global_stats,
            );
            &&& r matches Ok(b)
            &&& b.items@.map_values(|it: FeedbackItem| it@) == run.items
            &&& b.updates@.map_values(|u: FeedbackUpdate| u@) == run.updates
            &&& b.log@ == run.log
            &&& b.ok == ok_count(run.items)
            &&& b.ok + b.failed == lines.len()
            &&& final(stats).query_stats@ == run.query_stats
            &&& final(stats).global_stats == run.global
        }),
{
    proof {
        reveal_strlit("strict");
        reveal_strlit("best_effort");
    }
    let strict = str_eq(mode, "strict");
    if !strict && !str_eq(mode, "best_effort") {
        return Err(FeedbackBatchError::InvalidMode(text(mode)));
    }
    let ghost lv = strings_view(lines@);
    let ghost bad_pred = |l: Seq<char>| parse_feedback_spec(l) is None;
    let mut invalid: Vec<String> = Vec::new();
    let mut i: usize = 0;
    assert(lv.take(0).filter(bad_pred) =~= Seq::<Seq<char>>::empty()) by {
        reveal_with_fuel(Seq::<_>::filter, 1);
    }
    while i < lines.len()
        invariant
            i <= lines.len(),
            lv == strings_view(lines@),
            bad_pred == (|l: Seq<char>| parse_feedback_spec(l) is None),
            strings_view(invalid@) == lv.take(i as int).filter(bad_pred),
            (invalid.len() == 0) == (forall|j: int| 0 <= j < i ==> parse_feedback_spec(#[trigger] lines@[j]@) is Some),
        decreases lines.len() - i,
    {
        proof {
            reveal_with_fuel(Seq::<_>::filter, 1);
            assert(lv.take(i + 1).drop_last() =~= lv.take(i as int));
            assert(lv.take(i + 1).last() == lines@[i as int]@);
        }
        if parse_feedback_line(lines[i].as_str()).is_none() {
            let ghost before = strings_view(invalid@);
            invalid.push(copy_string(&lines[i]));
            assert(strings_view(invalid@) =~= before.push(lines@[i as int]@));
        } else {
            proof {
                if invalid.len() == 0 {
                    assert forall|j: int| 0 <= j < i + 1 implies parse_feedback_spec(#[trigger] lines@[j]@) is Some by {
                        if j < i {
                        }
                    }
                }
            }
        }
        i += 1;
    }
    assert(lv.take(lines.len() as int) =~= lv);
    retain_recent_finds(finds, now_ms, 600000);
    if strict && invalid.len() > 0 {
        proof {
            reveal_strlit("strict");
            reveal_strlit("best_effort");
            assert(mode@ == "strict"@);
            assert("strict"@[0] == 's');
            assert("best_effort"@[0] == 'b');
            assert(mode@ != "best_effort"@);
            assert(!(forall|j: int| 0 <= j < lines.len() ==> parse_feedback_spec(#[trigger] lines@[j]@) is Some));
        }
        return Err(FeedbackBatchError::InvalidLines(invalid));
    }
    let ghost fv = finds_view(finds@);
    let ghost m0 = stats.query_stats@;
    let ghost g0 = stats.global_stats;
    let mut items: Vec<FeedbackItem> = Vec::new();
    let mut updates: Vec<FeedbackUpdate> = Vec::new();
    let mut log: Vec<char> = Vec::new();
    let mut ok: usize = 0;
    let mut k: usize = 0;
    assert(lv.take(0) =~= Seq::<Seq<char>>::empty());
    assert(items@.map_values(|it: FeedbackItem| it@) =~= Seq::<FeedbackItemV>::empty());
    assert(updates@.map_values(|u: FeedbackUpdate| u@) =~= Seq::<FeedbackUpdateV>::empty());
    while k < lines.len()
        invariant
            k <= lines.len(),
            lv == strings_view(lines@),
            fv == finds_view(finds@),
            stats.query_stats.wf(),
            items.len() == k,
            ok <= k,
            ({
                let run = run_spec(lv.take(k as int), fv, now_ms, m0, g0);
                &&& items@.map_values(|it: FeedbackItem| it@) == run.items
                &&& updates@.map_values(|u: FeedbackUpdate| u@) == run.updates
                &&& log@ == run.log
                &&& ok == ok_count(run.items)
                &&& stats.query_stats@ == run.query_stats
                &&& stats.global_stats == run.global
            }),
        decreases lines.len() - k,
    {
        proof {
            assert(lv.take(k + 1).drop_last() =~= lv.take(k as int));
            assert(lv.take(k + 1).last() == lines@[k as int]@);
        }
        let ghost iv0 = items@.map_values(|it: FeedbackItem| it@);
        let ghost uv0 = updates@.map_values(|u: FeedbackUpdate| u@);
        let (it, up) = read_line(&lines[k], finds, k, now_ms);
        if it.ok {
            update_feedback_stats(stats, it.queries.as_slice(), it.action.as_str());
            let l = log_line_exec(now_ms, &it);
            append_chars(&mut log, l.as_slice());
            ok += 1;
            match up {
                Some(u) => {
                    updates.push(u);
                    assert(updates@.map_values(|u: FeedbackUpdate| u@) =~= uv0.push(u@));
                },
                None => {},
            }
        }
        let ghost itv = it@;
        items.push(it);
        assert(items@.map_values(|it: FeedbackItem| it@) =~= iv0.push(itv));
        proof {
            assert(items@.map_values(|it: FeedbackItem| it@).drop_last() =~= iv0);
        }
        k += 1;
    }
    assert(lv.take(lines.len() as int) =~= lv);
    let failed = lines.len() - ok;
    Ok(FeedbackBatch { ok, failed, items, updates, log: string_of(log.as_slice()) })
}

} // verus!
