//! Feedback on search results: reading a feedback reply, counting the
//! answers per query and overall, and deciding how often to ask for
//! feedback.
use vstd::prelude::*;
use crate::kql::{parse_usize, parse_usize_spec};
use crate::mcp_text::{find_text_from, normalize_query_key, query_key_spec};
use crate::text::{
    chars_eq_str, chars_of, copy_chars, lines, lines_exec, seqs_view, split_chars, split_on,
    string_of, strings_view, strip_prefix, strip_prefix_str, tokens, tokens_exec, trim, trim_chars,
};

verus! {

// ---------------------------------------------------------------------------
// Feedback replies
// ---------------------------------------------------------------------------

/// `char::to_ascii_uppercase`.
pub open spec fn ascii_upper(c: char) -> char {
    if 'a' <= c && c <= 'z' {
        ((c as u32) - 32) as char
    } else {
        c
    }
}

/// `str::to_ascii_uppercase`.
pub open spec fn ascii_upper_seq(s: Seq<char>) -> Seq<char> {
    s.map_values(|c: char| ascii_upper(c))
}

fn ascii_upper_chars(s: &[char]) -> (out: Vec<char>)
    ensures
        out@ == ascii_upper_seq(s@),
{
    let mut out: Vec<char> = Vec::new();
    let mut i: usize = 0;
    while i < s.len()
        invariant
            i <= s.len(),
            out@ == ascii_upper_seq(s@.take(i as int)),
        decreases s.len() - i,
    {
        let c = s[i];
        let u = if 'a' <= c && c <= 'z' {
            crate::text::char_from_ascii((c as u32) - 32)
        } else {
            c
        };
        out.push(u);
        assert(ascii_upper_seq(s@.take(i + 1)) =~= ascii_upper_seq(s@.take(i as int)).push(u));
        i += 1;
    }
    assert(s@.take(s.len() as int) =~= s@);
    out
}

/// A feedback reply: `uid=<id> YES`, `NO`, `NIL`, or `PICK <n>`.
#[derive(Debug)]
pub struct ParsedFeedback {
    pub uid: String,
    pub action: String,
    pub pick: Option<usize>,
}

/// A feedback reply, as values.
pub struct ParsedFeedbackV {
    pub uid: Seq<char>,
    pub action: Seq<char>,
    pub pick: Option<usize>,
}

impl View for ParsedFeedback {
    type V = ParsedFeedbackV;

    open spec fn view(&self) -> ParsedFeedbackV {
        ParsedFeedbackV { uid: self.uid@, action: self.action@, pick: self.pick }
    }
}

/// What a feedback reply says: its words are `uid=<id>` with a non-empty
/// id, then the answer in any ASCII case, then for `PICK` the number of the
/// chosen result; further words are ignored.
pub open spec fn parse_feedback_spec(line: Seq<char>) -> Option<ParsedFeedbackV> {
    let parts = tokens(line);
    if parts.len() < 2 {
        None
    } else {
        match strip_prefix(parts[0], "uid="@) {
            None => None,
            Some(raw) => {
                let uid = trim(raw);
                let action = ascii_upper_seq(parts[1]);
                if uid.len() == 0 {
                    None
                } else if action == "YES"@ || action == "NO"@ || action == "NIL"@ {
                    Some(ParsedFeedbackV { uid, action, pick: None })
                } else if action == "PICK"@ {
                    if parts.len() < 3 {
                        None
                    } else {
                        match parse_usize_spec(parts[2]) {
                            Some(n) => Some(ParsedFeedbackV { uid, action, pick: Some(n) }),
                            None => None,
                        }
                    }
                } else {
                    None
                }
            },
        }
    }
}

/// Reads a feedback reply.
pub fn parse_feedback_line(line: &str) -> (r: Option<ParsedFeedback>)
    ensures
        match r {
            Some(p) => parse_feedback_spec(line@) == Some(p@),
            None => parse_feedback_spec(line@) is None,
        },
{
    let s = chars_of(line);
    let parts = tokens_exec(s.as_slice());
    let ghost pv = seqs_view(parts@);
    if parts.len() < 2 {
        return None;
    }
    assert(pv[0] == parts@[0]@ && pv[1] == parts@[1]@);
    let raw = match strip_prefix_str(parts[0].as_slice(), "uid=") {
        Some(raw) => raw,
        None => return None,
    };
    let uid = trim_chars(raw.as_slice());
    if uid.len() == 0 {
        return None;
    }
    let action = ascii_upper_chars(parts[1].as_slice());
    if chars_eq_str(action.as_slice(), "YES") || chars_eq_str(action.as_slice(), "NO")
        || chars_eq_str(action.as_slice(), "NIL") {
        return Some(
            ParsedFeedback {
                uid: string_of(uid.as_slice()),
                action: string_of(action.as_slice()),
                pick: None,
            },
        );
    }
    if chars_eq_str(action.as_slice(), "PICK") {
        if parts.len() < 3 {
            return None;
        }
        assert(pv[2] == parts@[2]@);
        return match parse_usize(parts[2].as_slice()) {
            Some(n) => Some(
                ParsedFeedback {
                    uid: string_of(uid.as_slice()),
                    action: string_of(action.as_slice()),
                    pick: Some(n),
                },
            ),
            None => None,
        };
    }
    None
}

// ---------------------------------------------------------------------------
// Counting answers
// ---------------------------------------------------------------------------

/// The answers given on one query.
#[derive(Clone, Copy, PartialEq, Eq, Structural, Debug, Default)]
pub struct QueryFeedbackStats {
    pub yes: u64,
    pub no: u64,
    pub nil: u64,
    pub pick: u64,
}

/// `n + 1`, or `n` at the largest value.
pub open spec fn sat_inc(n: u64) -> u64 {
    if n == u64::MAX {
        n
    } else {
        (n + 1) as u64
    }
}

/// The counts after one more answer; an unknown answer changes nothing.
pub open spec fn add_action_spec(s: QueryFeedbackStats, action: Seq<char>) -> QueryFeedbackStats {
    if action == "YES"@ {
        QueryFeedbackStats { yes: sat_inc(s.yes), ..s }
    } else if action == "NO"@ {
        QueryFeedbackStats { no: sat_inc(s.no), ..s }
    } else if action == "NIL"@ {
        QueryFeedbackStats { nil: sat_inc(s.nil), ..s }
    } else if action == "PICK"@ {
        QueryFeedbackStats { pick: sat_inc(s.pick), ..s }
    } else {
        s
    }
}

/// The number of answers counted.
pub open spec fn events_spec(s: QueryFeedbackStats) -> int {
    s.yes + s.no + s.nil + s.pick
}

impl QueryFeedbackStats {
    /// No answers.
    pub fn zero() -> (r: QueryFeedbackStats)
        ensures
            r == (QueryFeedbackStats { yes: 0, no: 0, nil: 0, pick: 0 }),
    {
        QueryFeedbackStats { yes: 0, no: 0, nil: 0, pick: 0 }
    }

    /// The number of answers counted.
    pub fn events(&self) -> (r: u64)
        requires
            events_spec(*self) <= u64::MAX,
        ensures
            r == events_spec(*self),
    {
        self.yes + self.no + self.nil + self.pick
    }

    /// Counts one more answer (`YES`, `NO`, `NIL` or `PICK`).
    pub fn add_action(&mut self, action: &str)
        ensures
            *final(self) == add_action_spec(*old(self), action@),
    {
        let a = chars_of(action);
        if chars_eq_str(a.as_slice(), "YES") {
            self.yes = self.yes.saturating_add(1);
        } else if chars_eq_str(a.as_slice(), "NO") {
            self.no = self.no.saturating_add(1);
        } else if chars_eq_str(a.as_slice(), "NIL") {
            self.nil = self.nil.saturating_add(1);
        } else if chars_eq_str(a.as_slice(), "PICK") {
            self.pick = self.pick.saturating_add(1);
        }
    }
}

/// The answers given overall.
#[derive(Clone, Copy, PartialEq, Eq, Structural, Debug, Default)]
pub struct GlobalFeedbackStats {
    pub events: u64,
    pub negative_events: u64,
}

/// The overall counts after one more answer: every answer counts, `NO`
/// and `NIL` count as negative.
pub open spec fn add_global_spec(g: GlobalFeedbackStats, action: Seq<char>) -> GlobalFeedbackStats {
    GlobalFeedbackStats {
        events: sat_inc(g.events),
        negative_events: if action == "NO"@ || action == "NIL"@ {
            sat_inc(g.negative_events)
        } else {
            g.negative_events
        },
    }
}

impl GlobalFeedbackStats {
    /// No answers.
    pub fn zero() -> (r: GlobalFeedbackStats)
        ensures
            r == (GlobalFeedbackStats { events: 0, negative_events: 0 }),
    {
        GlobalFeedbackStats { events: 0, negative_events: 0 }
    }

    /// Counts one more answer.
    pub fn add_action(&mut self, action: &str)
        ensures
            *final(self) == add_global_spec(*old(self), action@),
    {
        self.events = self.events.saturating_add(1);
        let a = chars_of(action);
        if chars_eq_str(a.as_slice(), "NO") || chars_eq_str(a.as_slice(), "NIL") {
            self.negative_events = self.negative_events.saturating_add(1);
        }
    }
}

/// The answers per query key.
pub struct QueryStatsTable {
    keys: Vec<String>,
    stats: Vec<QueryFeedbackStats>,
}

/// The map the entries stand for; a later entry for a key wins.
pub open spec fn table_map(keys: Seq<Seq<char>>, vals: Seq<QueryFeedbackStats>) -> Map<
    Seq<char>,
    QueryFeedbackStats,
>
    decreases keys.len(),
{
    if keys.len() == 0 || vals.len() == 0 {
        Map::empty()
    } else {
        table_map(keys.drop_last(), vals.drop_last()).insert(keys.last(), vals.last())
    }
}

proof fn lemma_table_map_update(keys: Seq<Seq<char>>, vals: Seq<QueryFeedbackStats>, i: int, v: QueryFeedbackStats)
    requires
        keys.len() == vals.len(),
        0 <= i < keys.len(),
        forall|j: int| i < j < keys.len() ==> keys[j] != keys[i],
    ensures
        table_map(keys, vals.update(i, v)) == table_map(keys, vals).insert(keys[i], v),
    decreases keys.len(),
{
    let u = vals.update(i, v);
    if i == keys.len() - 1 {
        assert(u.drop_last() =~= vals.drop_last());
        assert(table_map(keys, u) =~= table_map(keys, vals).insert(keys[i], v));
    } else {
        let dk = keys.drop_last();
        let dv = vals.drop_last();
        assert(u.drop_last() =~= dv.update(i, v));
        assert forall|j: int| i < j < dk.len() implies dk[j] != dk[i] by {
            assert(dk[j] == keys[j]);
        }
        lemma_table_map_update(dk, dv, i, v);
        assert(keys.last() != keys[i]);
        assert(table_map(keys, u) =~= table_map(keys, vals).insert(keys[i], v));
    }
}

impl View for QueryStatsTable {
    type V = Map<Seq<char>, QueryFeedbackStats>;

    closed spec fn view(&self) -> Map<Seq<char>, QueryFeedbackStats> {
        table_map(strings_view(self.keys@), self.stats@)
    }
}

impl QueryStatsTable {
    /// Whether the two columns have the same length.
    pub closed spec fn wf(&self) -> bool {
        self.keys.len() == self.stats.len()
    }

    /// An empty table.
    pub fn new() -> (r: QueryStatsTable)
        ensures
            r.wf(),
            r@ == Map::<Seq<char>, QueryFeedbackStats>::empty(),
    {
        let r = QueryStatsTable { keys: Vec::new(), stats: Vec::new() };
        assert(strings_view(r.keys@).len() == 0);
        r
    }

    fn last_index(&self, key: &[char]) -> (r: Option<usize>)
        requires
            self.wf(),
        ensures
            match r {
                Some(i) => i < self.keys.len() && self.keys@[i as int]@ == key@ && forall|j: int|
                    i < j < self.keys.len() ==> #[trigger] self.keys@[j]@ != key@,
                None => forall|j: int| 0 <= j < self.keys.len() ==> #[trigger] self.keys@[j]@ != key@,
            },
    {
        let mut k = self.keys.len();
        while k > 0
            invariant
                k <= self.keys.len(),
                forall|j: int| k <= j < self.keys.len() ==> #[trigger] self.keys@[j]@ != key@,
            decreases k,
        {
            let kc = chars_of(self.keys[k - 1].as_str());
            if crate::text::chars_eq(kc.as_slice(), key) {
                return Some(k - 1);
            }
            k -= 1;
        }
        None
    }

    proof fn lemma_absent(keys: Seq<Seq<char>>, vals: Seq<QueryFeedbackStats>, key: Seq<char>)
        requires
            keys.len() == vals.len(),
            forall|j: int| 0 <= j < keys.len() ==> #[trigger] keys[j] != key,
        ensures
            !table_map(keys, vals).contains_key(key),
        decreases keys.len(),
    {
        if keys.len() > 0 {
            let dk = keys.drop_last();
            assert forall|j: int| 0 <= j < dk.len() implies #[trigger] dk[j] != key by {
                assert(dk[j] == keys[j]);
            }
            Self::lemma_absent(dk, vals.drop_last(), key);
            assert(keys[keys.len() - 1] != key);
        }
    }

    proof fn lemma_present(keys: Seq<Seq<char>>, vals: Seq<QueryFeedbackStats>, i: int)
        requires
            keys.len() == vals.len(),
            0 <= i < keys.len(),
            forall|j: int| i < j < keys.len() ==> #[trigger] keys[j] != keys[i],
        ensures
            table_map(keys, vals).contains_key(keys[i]),
            table_map(keys, vals)[keys[i]] == vals[i],
        decreases keys.len(),
    {
        if i < keys.len() - 1 {
            let dk = keys.drop_last();
            assert forall|j: int| i < j < dk.len() implies #[trigger] dk[j] != dk[i] by {
                assert(dk[j] == keys[j]);
            }
            Self::lemma_present(dk, vals.drop_last(), i);
            assert(keys[keys.len() - 1] != keys[i]);
        }
    }

    /// The answers counted for a key.
    pub fn get(&self, key: &str) -> (r: Option<QueryFeedbackStats>)
        requires
            self.wf(),
        ensures
            match r {
                Some(s) => self@.contains_key(key@) && self@[key@] == s,
                None => !self@.contains_key(key@),
            },
    {
        let kc = chars_of(key);
        let ghost kv = strings_view(self.keys@);
        match self.last_index(kc.as_slice()) {
            Some(i) => {
                proof {
                    assert forall|j: int| i < j < kv.len() implies #[trigger] kv[j] != kv[i as int] by {
                        assert(kv[j] == self.keys@[j]@);
                    }
                    Self::lemma_present(kv, self.stats@, i as int);
                }
                Some(self.stats[i])
            },
            None => {
                proof {
                    assert forall|j: int| 0 <= j < kv.len() implies #[trigger] kv[j] != kc@ by {
                        assert(kv[j] == self.keys@[j]@);
                    }
                    Self::lemma_absent(kv, self.stats@, kc@);
                }
                None
            },
        }
    }

    /// Sets the answers counted for a key (`HashMap::insert`).
    pub fn insert(&mut self, key: String, value: QueryFeedbackStats)
        requires
            old(self).wf(),
        ensures
            final(self).wf(),
            final(self)@ == old(self)@.insert(key@, value),
    {
        let kc = chars_of(key.as_str());
        let ghost kv = strings_view(self.keys@);
        match self.last_index(kc.as_slice()) {
            Some(i) => {
                proof {
                    assert forall|j: int| i < j < kv.len() implies #[trigger] kv[j] != kv[i as int] by {
                        assert(kv[j] == self.keys@[j]@);
                    }
                    lemma_table_map_update(kv, self.stats@, i as int, value);
                }
                self.stats.set(i, value);
            },
            None => {
                self.keys.push(key);
                self.stats.push(value);
                proof {
                    let nk = strings_view(self.keys@);
                    assert(nk.drop_last() =~= kv);
                    assert(self.stats@.drop_last() =~= old(self).stats@);
                }
            },
        }
    }

    /// Counts one more answer for a key (`entry(key).or_default()` then
    /// `add_action`).
    pub fn record(&mut self, key: String, action: &str)
        requires
            old(self).wf(),
        ensures
            final(self).wf(),
            final(self)@ == old(self)@.insert(
                key@,
                add_action_spec(
                    if old(self)@.contains_key(key@) {
                        old(self)@[key@]
                    } else {
                        QueryFeedbackStats { yes: 0, no: 0, nil: 0, pick: 0 }
                    },
                    action@,
                ),
            ),
    {
        let mut s = match self.get(key.as_str()) {
            Some(s) => s,
            None => QueryFeedbackStats::zero(),
        };
        s.add_action(action);
        self.insert(key, s);
    }
}

/// The answers counted per query and overall.
pub struct FeedbackStats {
    pub query_stats: QueryStatsTable,
    pub global_stats: GlobalFeedbackStats,
}

/// The counts after one more answer on a set of queries: overall, and
/// under the queries' key when they have one.
pub open spec fn record_feedback_spec(
    m: Map<Seq<char>, QueryFeedbackStats>,
    g: GlobalFeedbackStats,
    queries: Seq<Seq<char>>,
    action: Seq<char>,
) -> (Map<Seq<char>, QueryFeedbackStats>, GlobalFeedbackStats) {
    let g2 = add_global_spec(g, action);
    match query_key_spec(queries) {
        Some(k) => (
            m.insert(
                k,
                add_action_spec(
                    if m.contains_key(k) {
                        m[k]
                    } else {
                        QueryFeedbackStats { yes: 0, no: 0, nil: 0, pick: 0 }
                    },
                    action,
                ),
            ),
            g2,
        ),
        None => (m, g2),
    }
}

/// Counts one more answer on a set of queries.
pub fn update_feedback_stats(state: &mut FeedbackStats, queries: &[String], action: &str)
    requires
        old(state).query_stats.wf(),
    ensures
        final(state).query_stats.wf(),
        (final(state).query_stats@, final(state).global_stats) == record_feedback_spec(
            old(state).query_stats@,
            old(state).global_stats,
            strings_view(queries@),
            action@,
        ),
{
    state.global_stats.add_action(action);
    match normalize_query_key(queries) {
        Some(key) => state.query_stats.record(key, action),
        None => {},
    }
}

// ---------------------------------------------------------------------------
// The feedback log
// ---------------------------------------------------------------------------

/// The first tab-separated field of a log line that starts with `<key>=`,
/// without that prefix.
pub open spec fn first_field(parts: Seq<Seq<char>>, key: Seq<char>) -> Option<Seq<char>>
    decreases parts.len(),
{
    if parts.len() == 0 {
        None
    } else {
        match strip_prefix(parts[0], key + "="@) {
            Some(v) => Some(v),
            None => first_field(parts.drop_first(), key),
        }
    }
}

/// The value of a `key=value` field of a tab-separated log line.
pub open spec fn log_field_spec(line: Seq<char>, key: Seq<char>) -> Option<Seq<char>> {
    first_field(split_on(line, '\t'), key)
}

/// The value of a `key=value` field of a tab-separated log line.
pub fn parse_feedback_log_field(line: &[char], key: &str) -> (r: Option<Vec<char>>)
    ensures
        match r {
            Some(v) => log_field_spec(line@, key@) == Some(v@),
            None => log_field_spec(line@, key@) is None,
        },
{
    let parts = split_chars(line, '\t');
    let ghost pv = seqs_view(parts@);
    let mut prefix = chars_of(key);
    prefix.push('=');
    proof {
        reveal_strlit("=");
        assert(prefix@ =~= key@ + "="@);
    }
    let mut i: usize = 0;
    assert(pv.skip(0) =~= pv);
    while i < parts.len()
        invariant
            i <= parts.len(),
            pv == seqs_view(parts@),
            prefix@ == key@ + "="@,
            pv == split_on(line@, '\t'),
            first_field(pv, key@) == first_field(pv.skip(i as int), key@),
        decreases parts.len() - i,
    {
        proof {
            let rest = pv.skip(i as int);
            assert(rest[0] == parts@[i as int]@);
            assert(rest.drop_first() =~= pv.skip(i + 1));
        }
        if crate::text::starts_with(parts[i].as_slice(), prefix.as_slice()) {
            let v = copy_chars(parts[i].as_slice(), prefix.len(), parts[i].len());
            assert(v@ =~= parts@[i as int]@.skip(prefix@.len() as int));
            return Some(v);
        }
        i += 1;
    }
    None
}

/// The pieces of `s` between occurrences of the non-empty text `sep`.
pub open spec fn split_text(s: Seq<char>, sep: Seq<char>) -> Seq<Seq<char>>
    decreases s.len(),
{
    if sep.len() == 0 {
        seq![s]
    } else {
        match find_text_from(s, sep, 0) {
            Some(i) => if 0 <= i && i + sep.len() <= s.len() {
                seq![s.take(i)] + split_text(s.skip(i + sep.len()), sep)
            } else {
                seq![s]
            },
            None => seq![s],
        }
    }
}

/// The queries a log field lists: split on ` | `, trimmed, without empty
/// ones and without the placeholder `-`.
pub open spec fn logged_queries(pieces: Seq<Seq<char>>) -> Seq<Seq<char>>
    decreases pieces.len(),
{
    if pieces.len() == 0 {
        Seq::empty()
    } else {
        let q = trim(pieces.last());
        if q.len() > 0 && q != "-"@ {
            logged_queries(pieces.drop_last()).push(q)
        } else {
            logged_queries(pieces.drop_last())
        }
    }
}

/// Whether a logged answer is one that is counted.
pub open spec fn counted_action(a: Seq<char>) -> bool {
    a == "YES"@ || a == "NO"@ || a == "NIL"@ || a == "PICK"@
}

/// The counts after one line of the feedback log: a line without a counted
/// `action` field is skipped; otherwise the answer counts overall, and
/// under the key of the `queries` field when there is one.
pub open spec fn log_line_step(
    st: (Map<Seq<char>, QueryFeedbackStats>, GlobalFeedbackStats),
    line: Seq<char>,
) -> (Map<Seq<char>, QueryFeedbackStats>, GlobalFeedbackStats) {
    match log_field_spec(line, "action"@) {
        Some(a) => if counted_action(a) {
            match log_field_spec(line, "queries"@) {
                Some(q) => record_feedback_spec(
                    st.0,
                    st.1,
                    logged_queries(split_text(q, " | "@)),
                    a,
                ),
                None => (st.0, add_global_spec(st.1, a)),
            }
        } else {
            st
        },
        None => st,
    }
}

/// The counts after the first lines of the feedback log.
pub open spec fn log_run(ls: Seq<Seq<char>>) -> (Map<Seq<char>, QueryFeedbackStats>, GlobalFeedbackStats)
    decreases ls.len(),
{
    if ls.len() == 0 {
        (Map::empty(), GlobalFeedbackStats { events: 0, negative_events: 0 })
    } else {
        log_line_step(log_run(ls.drop_last()), ls.last())
    }
}

fn split_text_exec(s: &[char], sep: &[char]) -> (out: Vec<Vec<char>>)
    requires
        sep.len() > 0,
    ensures
        seqs_view(out@) == split_text(s@, sep@),
{
    let mut out: Vec<Vec<char>> = Vec::new();
    let mut rest = copy_chars(s, 0, s.len());
    assert(rest@ =~= s@);
    loop
        invariant
            sep.len() > 0,
            split_text(s@, sep@) == seqs_view(out@) + split_text(rest@, sep@),
        decreases rest.len(),
    {
        let ghost before = seqs_view(out@);
        match crate::mcp_text::find_text_exec(rest.as_slice(), sep) {
            Some(i) => {
                let head = copy_chars(rest.as_slice(), 0, i);
                let tail = copy_chars(rest.as_slice(), i + sep.len(), rest.len());
                assert(head@ =~= rest@.take(i as int));
                assert(tail@ =~= rest@.skip(i + sep.len()));
                out.push(head);
                assert(seqs_view(out@) =~= before.push(head@));
                assert(seqs_view(out@) + split_text(tail@, sep@) =~= before + split_text(rest@, sep@));
                rest = tail;
            },
            None => {
                out.push(rest);
                assert(seqs_view(out@) =~= before + split_text(rest@, sep@));
                return out;
            },
        }
    }
}

/// The counts a feedback log holds, one answer per line with `action=` and
/// `queries=` fields.
pub fn feedback_stats_from_log(content: &str) -> (r: FeedbackStats)
    ensures
        r.query_stats.wf(),
        (r.query_stats@, r.global_stats) == log_run(lines(content@)),
{
    let s = chars_of(content);
    let ls = lines_exec(s.as_slice());
    let ghost lv = seqs_view(ls@);
    let mut state = FeedbackStats {
        query_stats: QueryStatsTable::new(),
        global_stats: GlobalFeedbackStats::zero(),
    };
    let sep = chars_of(" | ");
    proof {
        reveal_strlit(" | ");
    }
    let mut i: usize = 0;
    while i < ls.len()
        invariant
            i <= ls.len(),
            lv == seqs_view(ls@),
            lv == lines(content@),
            sep@ == " | "@,
            sep.len() > 0,
            state.query_stats.wf(),
            (state.query_stats@, state.global_stats) == log_run(lv.take(i as int)),
        decreases ls.len() - i,
    {
        proof {
            let tk = lv.take(i + 1);
            assert(tk.drop_last() =~= lv.take(i as int));
            assert(tk.last() == ls@[i as int]@);
        }
        let line = &ls[i];
        match parse_feedback_log_field(line.as_slice(), "action") {
            Some(a) => {
                let counted = chars_eq_str(a.as_slice(), "YES") || chars_eq_str(a.as_slice(), "NO")
                    || chars_eq_str(a.as_slice(), "NIL") || chars_eq_str(a.as_slice(), "PICK");
                if counted {
                    let action = string_of(a.as_slice());
                    match parse_feedback_log_field(line.as_slice(), "queries") {
                        Some(q) => {
                            let pieces = split_text_exec(q.as_slice(), sep.as_slice());
                            let ghost pcv = seqs_view(pieces@);
                            let mut values: Vec<String> = Vec::new();
                            let mut j: usize = 0;
                            while j < pieces.len()
                                invariant
                                    j <= pieces.len(),
                                    pcv == seqs_view(pieces@),
                                    strings_view(values@) == logged_queries(pcv.take(j as int)),
                                decreases pieces.len() - j,
                            {
                                proof {
                                    let tk = pcv.take(j + 1);
                                    assert(tk.drop_last() =~= pcv.take(j as int));
                                    assert(tk.last() == pieces@[j as int]@);
                                }
                                let v = trim_chars(pieces[j].as_slice());
                                if v.len() > 0 && !chars_eq_str(v.as_slice(), "-") {
                                    let ghost before = strings_view(values@);
                                    values.push(string_of(v.as_slice()));
                                    assert(strings_view(values@) =~= before.push(v@));
                                }
                                j += 1;
                            }
                            assert(pcv.take(pieces.len() as int) =~= pcv);
                            update_feedback_stats(&mut state, values.as_slice(), action.as_str());
                        },
                        None => {
                            state.global_stats.add_action(action.as_str());
                        },
                    }
                }
            },
            None => {},
        }
        i += 1;
    }
    assert(lv.take(ls.len() as int) =~= lv);
    state
}

// ---------------------------------------------------------------------------
// How often to ask
// ---------------------------------------------------------------------------

/// The nudge percentage after the query's own history: mostly negative
/// answers (at least three, half or more `NO`/`NIL`) raise it by 25, mostly
/// positive ones (at least five, four fifths or more `YES`/`PICK`) lower it
/// by 20.
pub open spec fn query_adjusted(e: int, s: QueryFeedbackStats) -> int {
    let ev = events_spec(s);
    if ev >= 3 && 2 * (s.no + s.nil) >= ev {
        e + 25
    } else if ev >= 5 && 5 * (s.yes + s.pick) >= 4 * ev {
        e - 20
    } else {
        e
    }
}

/// The percentage of searches that ask for feedback: at least 40 when
/// nothing was found, adjusted by the history of the query, raised by 10
/// when at least 20 answers overall are two fifths or more negative, and
/// kept within 0..=100.
pub open spec fn adaptive_nudge_spec(
    base: u8,
    queries: Seq<Seq<char>>,
    total_results: usize,
    m: Map<Seq<char>, QueryFeedbackStats>,
    g: GlobalFeedbackStats,
) -> u8 {
    let e1: int = if total_results == 0 && base < 40 { 40 } else { base as int };
    let e2: int = match query_key_spec(queries) {
        Some(k) => if m.contains_key(k) {
            query_adjusted(e1, m[k])
        } else {
            e1
        },
        None => e1,
    };
    let e3: int = if g.events >= 20 && 5 * g.negative_events >= 2 * g.events {
        e2 + 10
    } else {
        e2
    };
    if e3 < 0 {
        0
    } else if e3 > 100 {
        100
    } else {
        e3 as u8
    }
}

/// The percentage of searches that ask for feedback, from the base
/// percentage, the number of results and the answers counted so far.  The
/// thresholds are ratios of the counts (one half, four fifths, two fifths),
/// compared exactly.
pub fn compute_adaptive_nudge_percent(
    base_percent: u8,
    queries: &[String],
    total_results: usize,
    query_stats: &QueryStatsTable,
    global_stats: &GlobalFeedbackStats,
) -> (r: u8)
    requires
        query_stats.wf(),
    ensures
        r == adaptive_nudge_spec(
            base_percent,
            strings_view(queries@),
            total_results,
            query_stats@,
            *global_stats,
        ),
{
    let mut effective: i32 = base_percent as i32;
    if total_results == 0 && effective < 40 {
        effective = 40;
    }
    match normalize_query_key(queries) {
        Some(key) => match query_stats.get(key.as_str()) {
            Some(stats) => {
                let ev: u128 = stats.yes as u128 + stats.no as u128 + stats.nil as u128
                    + stats.pick as u128;
                let neg: u128 = stats.no as u128 + stats.nil as u128;
                let pos: u128 = stats.yes as u128 + stats.pick as u128;
                if ev >= 3 && 2 * neg >= ev {
                    effective = effective + 25;
                } else if ev >= 5 && 5 * pos >= 4 * ev {
                    effective = effective - 20;
                }
            },
            None => {},
        },
        None => {},
    }
    let gev: u128 = global_stats.events as u128;
    let gneg: u128 = global_stats.negative_events as u128;
    if gev >= 20 && 5 * gneg >= 2 * gev {
        effective = effective + 10;
    }
    if effective < 0 {
        0
    } else if effective > 100 {
        100
    } else {
        effective as u8
    }
}

/// What `DefaultHasher::new()` gives after hashing the text `s` and
/// finishing.
pub uninterp spec fn default_hash(s: Seq<char>) -> u64;

/// Hashes a text with a hasher from `DefaultHasher::new()` (`Hash::hash` on
/// the `str`, then `Hasher::finish`).  Such a hasher starts from fixed keys,
/// so one build of the program gives one result for one text.
#[verifier::external_body]
fn hash_text(s: &str) -> (r: u64)
    ensures
        r == default_hash(s@),
{
    let mut hasher = std::collections::hash_map::DefaultHasher::new();
    std::hash::Hash::hash(s, &mut hasher);
    std::hash::Hasher::finish(&hasher)
}

/// Whether a search asks for feedback: never at 0 percent, always at 100,
/// otherwise when the hash of the salt falls in the first `percent` of a
/// hundred buckets.
pub fn should_emit_nudge(percent: u8, salt: &str) -> (r: bool)
    ensures
        percent == 0 ==> !r,
        percent == 100 ==> r,
        percent != 0 && percent != 100 ==> r == (default_hash(salt@) % 100 < percent),
{
    if percent == 0 {
        false
    } else if percent == 100 {
        true
    } else {
        hash_text(salt) % 100 < percent as u64
    }
}

/// The nudge percentage is a percentage: never above 100.
pub proof fn law_adaptive_nudge_at_most_hundred(
    base: u8,
    queries: Seq<Seq<char>>,
    total_results: usize,
    m: Map<Seq<char>, QueryFeedbackStats>,
    g: GlobalFeedbackStats,
)
    ensures
        adaptive_nudge_spec(base, queries, total_results, m, g) <= 100,
{
}

/// Nothing found and no history: feedback is asked at least 40 percent of
/// the time.
pub proof fn law_no_results_asks_at_least_forty(base: u8, queries: Seq<Seq<char>>, g: GlobalFeedbackStats)
    ensures
        adaptive_nudge_spec(base, queries, 0, Map::empty(), g) >= 40,
{
}

} // verus!
