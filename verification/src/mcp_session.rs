//! The decisions of a tool-script run, one line at a time: what a line
//! asks for, which feedback lines are held back and when they are sent,
//! and the passive feedback recorded when a `node get` follows a `node
//! find` that asked the caller to pick a result.
use vstd::prelude::*;
use crate::mcp_args::{
    node_find_spec, node_get_spec, parse_node_find_args, parse_node_get_args, NodeFindArgs,
    NodeFindArgsV, NodeGetArgs, NodeGetArgsV,
};
use crate::mcp_feedback::{parse_feedback_line, parse_feedback_spec};
use crate::mcp_script::{tokenize_command, tokenize_spec};
use crate::text::{
    append_chars, append_str, chars_of, decimal, decimal_usize, str_eq, string_of, strings_view, trim,
    trim_chars,
};

verus! {

broadcast use vstd::string::group_string_axioms;

/// What one line of a script asks for.
#[derive(Debug)]
pub enum ScriptCommand {
    /// A blank line or a comment: nothing happens.
    Blank,
    /// A feedback line: held back until the next command runs.
    Feedback(String),
    /// A line that does not split into words (an open quote).
    Invalid(String),
    /// A command with no words after the leading `kg` and `graph`.
    Empty,
    /// A `node find` command, its options or their error, and its words.
    NodeFind(Result<NodeFindArgs, String>, Vec<String>),
    /// A `node get` command, its options or their error.
    NodeGet(Result<NodeGetArgs, String>),
    /// Any other command, as its words.
    Other(Vec<String>),
}

/// What one line of a script asks for, as values.
pub enum ScriptCommandV {
    Blank,
    Feedback(Seq<char>),
    Invalid(Seq<char>),
    Empty,
    NodeFind(Result<NodeFindArgsV, Seq<char>>, Seq<Seq<char>>),
    NodeGet(Result<NodeGetArgsV, Seq<char>>),
    Other(Seq<Seq<char>>),
}

impl View for ScriptCommand {
    type V = ScriptCommandV;

    open spec fn view(&self) -> ScriptCommandV {
        match self {
            ScriptCommand::Blank => ScriptCommandV::Blank,
            ScriptCommand::Feedback(l) => ScriptCommandV::Feedback(l@),
            ScriptCommand::Invalid(e) => ScriptCommandV::Invalid(e@),
            ScriptCommand::Empty => ScriptCommandV::Empty,
            ScriptCommand::NodeFind(r, w) => ScriptCommandV::NodeFind(
                match r {
                    Ok(a) => Ok(a@),
                    Err(e) => Err(e@),
                },
                strings_view(w@),
            ),
            ScriptCommand::NodeGet(r) => ScriptCommandV::NodeGet(
                match r {
                    Ok(a) => Ok(a@),
                    Err(e) => Err(e@),
                },
            ),
            ScriptCommand::Other(w) => ScriptCommandV::Other(strings_view(w@)),
        }
    }
}

/// The words without every leading `kg`.
pub open spec fn drop_kg(t: Seq<Seq<char>>) -> Seq<Seq<char>>
    decreases t.len(),
{
    if t.len() > 0 && t[0] == "kg"@ {
        drop_kg(t.drop_first())
    } else {
        t
    }
}

/// The words of a command: leading `kg` words and then one `graph` removed.
pub open spec fn command_words(t: Seq<Seq<char>>) -> Seq<Seq<char>> {
    let u = drop_kg(t);
    if u.len() > 0 && u[0] == "graph"@ {
        u.drop_first()
    } else {
        u
    }
}

/// What a script line asks for. Blank lines and lines starting with `#`
/// ask for nothing; a feedback line is held back; otherwise the line is
/// split into words, and `node find`, `node get` and other commands are
/// told apart.
pub open spec fn classify_spec(line: Seq<char>) -> ScriptCommandV {
    let t = trim(line);
    if t.len() == 0 || t[0] == '#' {
        ScriptCommandV::Blank
    } else if parse_feedback_spec(t) is Some {
        ScriptCommandV::Feedback(t)
    } else {
        match tokenize_spec(t) {
            Err(e) => ScriptCommandV::Invalid(e),
            Ok(tokens) => {
                let args = command_words(tokens);
                if args.len() == 0 {
                    ScriptCommandV::Empty
                } else {
                    match node_find_spec(args) {
                        Some(r) => ScriptCommandV::NodeFind(r, args),
                        None => match node_get_spec(args) {
                            Some(r) => ScriptCommandV::NodeGet(r),
                            None => ScriptCommandV::Other(args),
                        },
                    }
                }
            },
        }
    }
}

proof fn lemma_drop_kg(t: Seq<Seq<char>>, i: int)
    requires
        0 <= i <= t.len(),
        forall|j: int| 0 <= j < i ==> t[j] == "kg"@,
        i < t.len() ==> t[i] != "kg"@,
    ensures
        drop_kg(t) == t.skip(i),
    decreases i,
{
    if i > 0 {
        lemma_drop_kg(t.drop_first(), i - 1);
        assert(t.drop_first().skip(i - 1) =~= t.skip(i));
    } else {
        assert(t.skip(0) =~= t);
    }
}

fn copy_words(t: &Vec<String>, from: usize) -> (r: Vec<String>)
    requires
        from <= t.len(),
    ensures
        strings_view(r@) == strings_view(t@).skip(from as int),
{
    let mut out: Vec<String> = Vec::new();
    let mut i: usize = from;
    while i < t.len()
        invariant
            from <= i <= t.len(),
            out.len() == i - from,
            forall|j: int| 0 <= j < out.len() ==> (#[trigger] out@[j])@ == t@[j + from]@,
        decreases t.len() - i,
    {
        out.push(crate::graph::copy_string(&t[i]));
        i += 1;
    }
    assert(strings_view(out@) =~= strings_view(t@).skip(from as int));
    out
}

/// The words of a command without the leading `kg` words and one `graph`.
fn strip_command_words(tokens: &Vec<String>) -> (r: Vec<String>)
    ensures
        strings_view(r@) == command_words(strings_view(tokens@)),
{
    let ghost tv = strings_view(tokens@);
    let mut i: usize = 0;
    while i < tokens.len() && str_eq(tokens[i].as_str(), "kg")
        invariant
            i <= tokens.len(),
            tv == strings_view(tokens@),
            forall|j: int| 0 <= j < i ==> tv[j] == "kg"@,
        decreases tokens.len() - i,
    {
        i += 1;
    }
    proof {
        lemma_drop_kg(tv, i as int);
    }
    if i < tokens.len() && str_eq(tokens[i].as_str(), "graph") {
        assert(tv.skip(i as int).drop_first() =~= tv.skip(i + 1));
        copy_words(tokens, i + 1)
    } else {
        copy_words(tokens, i)
    }
}

/// What a script line asks for, as [`classify_spec`] states.
pub fn classify_script_line(raw: &str) -> (r: ScriptCommand)
    ensures
        r@ == classify_spec(raw@),
{
    let t = trim_chars(chars_of(raw).as_slice());
    if t.len() == 0 || t[0] == '#' {
        return ScriptCommand::Blank;
    }
    let line = string_of(t.as_slice());
    if parse_feedback_line(line.as_str()).is_some() {
        return ScriptCommand::Feedback(line);
    }
    match tokenize_command(line.as_str()) {
        Err(e) => ScriptCommand::Invalid(e),
        Ok(tokens) => {
            let args = strip_command_words(&tokens);
            if args.len() == 0 {
                return ScriptCommand::Empty;
            }
            match parse_node_find_args(args.as_slice()) {
                Some(r) => ScriptCommand::NodeFind(r, args),
                None => match parse_node_get_args(args.as_slice()) {
                    Some(r) => ScriptCommand::NodeGet(r),
                    None => ScriptCommand::Other(args),
                },
            }
        },
    }
}

// ---------------------------------------------------------------------------
// The session state
// ---------------------------------------------------------------------------

/// A `node find` whose caller was asked to pick a result: the graph, the
/// feedback id and the candidate node ids in order.
pub type PendingV = (Seq<char>, Seq<char>, Seq<Seq<char>>);

/// The state carried from line to line of a script.
pub struct ScriptSession {
    buffer: Vec<String>,
    graphs: Vec<String>,
    uids: Vec<String>,
    candidates: Vec<Vec<String>>,
    resolved: Vec<String>,
}

/// The position of the first text equal to `x`.
pub open spec fn first_pos(s: Seq<Seq<char>>, x: Seq<char>) -> Option<nat>
    decreases s.len(),
{
    if s.len() == 0 {
        None
    } else if s[0] == x {
        Some(0)
    } else {
        match first_pos(s.drop_first(), x) {
            Some(k) => Some(k + 1),
            None => None,
        }
    }
}

proof fn lemma_first_pos(s: Seq<Seq<char>>, x: Seq<char>, i: int)
    requires
        0 <= i <= s.len(),
        forall|j: int| 0 <= j < i ==> s[j] != x,
        i < s.len() ==> s[i] == x,
    ensures
        first_pos(s, x) == if i < s.len() { Some(i as nat) } else { None::<nat> },
    decreases i,
{
    if i > 0 {
        lemma_first_pos(s.drop_first(), x, i - 1);
    }
}

/// The position of the first text equal to `x`, as [`first_pos`] states.
fn position_of(s: &Vec<String>, x: &str) -> (r: Option<usize>)
    ensures
        match r {
            Some(i) => i < s.len() && first_pos(strings_view(s@), x@) == Some(i as nat),
            None => first_pos(strings_view(s@), x@) is None,
        },
{
    let ghost sv = strings_view(s@);
    let mut i: usize = 0;
    while i < s.len()
        invariant
            i <= s.len(),
            sv == strings_view(s@),
            forall|j: int| 0 <= j < i ==> sv[j] != x@,
        decreases s.len() - i,
    {
        if str_eq(s[i].as_str(), x) {
            proof {
                lemma_first_pos(sv, x@, i as int);
            }
            return Some(i);
        }
        i += 1;
    }
    proof {
        lemma_first_pos(sv, x@, i as int);
    }
    None
}

/// The texts of a list of word lists.
pub open spec fn lists_view(v: Seq<Vec<String>>) -> Seq<Seq<Seq<char>>> {
    v.map_values(|w: Vec<String>| strings_view(w@))
}

/// The feedback line of a passive pick of candidate `k` (counted from 1).
pub open spec fn passive_line(uid: Seq<char>, k: nat) -> Seq<char> {
    "uid="@ + uid + " PICK "@ + decimal(k) + " passive=1"@
}

impl ScriptSession {
    /// The feedback lines held back, in order.
    pub closed spec fn held(&self) -> Seq<Seq<char>> {
        strings_view(self.buffer@)
    }

    /// The feedback ids answered by a passive pick.
    pub closed spec fn answered(&self) -> Seq<Seq<char>> {
        strings_view(self.resolved@)
    }

    /// The pending picks: graph, feedback id and candidates.
    pub closed spec fn pending(&self) -> Seq<PendingV> {
        Seq::new(
            self.graphs.len() as nat,
            |i: int| (self.graphs@[i]@, self.uids@[i]@, strings_view(self.candidates@[i]@)),
        )
    }

    /// The graphs of the pending picks.
    pub open spec fn pending_graphs(&self) -> Seq<Seq<char>> {
        self.pending().map_values(|p: PendingV| p.0)
    }

    /// The columns have one entry per pending pick, and no graph has two.
    pub closed spec fn wf(&self) -> bool {
        &&& self.uids.len() == self.graphs.len()
        &&& self.candidates.len() == self.graphs.len()
        &&& forall|i: int, j: int|
            0 <= i < j < self.graphs.len() ==> (#[trigger] self.graphs@[i])@ != (#[trigger] self.graphs@[j])@
    }

    proof fn lemma_graphs(&self)
        requires
            self.wf(),
        ensures
            self.pending_graphs() == strings_view(self.graphs@),
            self.pending().len() == self.graphs.len(),
    {
        assert(self.pending_graphs() =~= strings_view(self.graphs@));
    }

    /// A session with nothing held back and nothing pending.
    pub fn new() -> (r: ScriptSession)
        ensures
            r.wf(),
            r.held().len() == 0,
            r.pending().len() == 0,
            r.answered().len() == 0,
    {
        ScriptSession {
            buffer: Vec::new(),
            graphs: Vec::new(),
            uids: Vec::new(),
            candidates: Vec::new(),
            resolved: Vec::new(),
        }
    }

    /// Holds a feedback line back until the next command.
    pub fn hold_feedback(&mut self, line: String)
        ensures
            final(self).held() == old(self).held().push(line@),
            final(self).pending() == old(self).pending(),
            final(self).answered() == old(self).answered(),
            final(self).wf() == old(self).wf(),
    {
        let ghost before = strings_view(self.buffer@);
        self.buffer.push(line);
        assert(strings_view(self.buffer@) =~= before.push(line@));
    }

    /// Takes the held-back feedback lines, to be sent as one batch; none
    /// are left.
    pub fn take_feedback(&mut self) -> (r: Vec<String>)
        ensures
            strings_view(r@) == old(self).held(),
            final(self).held().len() == 0,
            final(self).pending() == old(self).pending(),
            final(self).answered() == old(self).answered(),
            final(self).wf() == old(self).wf(),
    {
        let mut taken: Vec<String> = Vec::new();
        std::mem::swap(&mut taken, &mut self.buffer);
        taken
    }

    /// Records that a `node find` on `graph` asked to pick among
    /// `candidates` under feedback id `uid`: it replaces what was pending
    /// for that graph. Nothing is recorded without candidates.
    pub fn note_pick_request(&mut self, graph: &String, uid: &String, candidates: &Vec<String>)
        requires
            old(self).wf(),
        ensures
            final(self).wf(),
            final(self).held() == old(self).held(),
            final(self).answered() == old(self).answered(),
            final(self).pending() == if candidates.len() == 0 {
                old(self).pending()
            } else {
                match first_pos(old(self).pending_graphs(), graph@) {
                    Some(i) => old(self).pending().update(i as int, (graph@, uid@, strings_view(candidates@))),
                    None => old(self).pending().push((graph@, uid@, strings_view(candidates@))),
                }
            },
    {
        proof {
            self.lemma_graphs();
        }
        if candidates.len() == 0 {
            return;
        }
        let ghost p0 = self.pending();
        let ghost entry = (graph@, uid@, strings_view(candidates@));
        let cands = crate::graph::copy_strings(candidates);
        assert(strings_view(cands@) == strings_view(candidates@)) by {
            assert(strings_view(cands@) =~= crate::sorting::views(cands@));
            assert(strings_view(candidates@) =~= crate::sorting::views(candidates@));
        }
        match position_of(&self.graphs, graph.as_str()) {
            Some(i) => {
                proof {
                    lemma_first_pos_some_at(strings_view(self.graphs@), graph@, i as int);
                }
                self.uids.set(i, crate::graph::copy_string(uid));
                self.candidates.set(i, cands);
                assert(self.pending() =~= p0.update(i as int, entry));
            },
            None => {
                proof {
                    assert forall|j: int| 0 <= j < self.graphs.len() implies self.graphs@[j]@ != graph@ by {
                        if self.graphs@[j]@ == graph@ {
                            lemma_first_pos_some(strings_view(self.graphs@), graph@, j);
                        }
                    }
                }
                self.graphs.push(crate::graph::copy_string(graph));
                self.uids.push(crate::graph::copy_string(uid));
                self.candidates.push(cands);
                assert(self.pending() =~= p0.push(entry));
            },
        }
    }

    /// Before a `node get` of node `id` on `graph`: when a pick is pending
    /// for the graph and `id` is one of its candidates, the passive pick
    /// of that candidate is held back as feedback, its feedback id is
    /// marked as answered, and the line is returned; the pending pick of
    /// the graph is dropped either way.
    pub fn before_node_get(&mut self, graph: &String, id: &String) -> (r: Option<String>)
        requires
            old(self).wf(),
        ensures
            final(self).wf(),
            match first_pos(old(self).pending_graphs(), graph@) {
                None => r is None && final(self).pending() == old(self).pending() && final(self).held()
                    == old(self).held() && final(self).answered() == old(self).answered(),
                Some(i) => {
                    let p = old(self).pending()[i as int];
                    &&& final(self).pending() == old(self).pending().remove(i as int)
                    &&& match first_pos(p.2, id@) {
                        None => r is None && final(self).held() == old(self).held() && final(self).answered()
                            == old(self).answered(),
                        Some(k) => r matches Some(line) && line@ == passive_line(p.1, k + 1)
                            && final(self).held() == old(self).held().push(line@)
                            && final(self).answered() == old(self).answered().push(p.1),
                    }
                },
            },
    {
        proof {
            self.lemma_graphs();
        }
        let ghost p0 = self.pending();
        let i = match position_of(&self.graphs, graph.as_str()) {
            Some(i) => i,
            None => {
                return None;
            },
        };
        let ghost p = p0[i as int];
        let found = position_of(&self.candidates[i], id.as_str());
        let mut result: Option<String> = None;
        match found {
            Some(k) => {
                let mut line = chars_of("uid=");
                append_str(&mut line, self.uids[i].as_str());
                append_str(&mut line, " PICK ");
                append_chars(&mut line, decimal_usize(k + 1).as_slice());
                append_str(&mut line, " passive=1");
                let text = string_of(line.as_slice());
                let ghost b0 = strings_view(self.buffer@);
                let ghost r0 = strings_view(self.resolved@);
                self.buffer.push(string_of(line.as_slice()));
                self.resolved.push(crate::graph::copy_string(&self.uids[i]));
                assert(strings_view(self.buffer@) =~= b0.push(text@));
                assert(strings_view(self.resolved@) =~= r0.push(p.1));
                result = Some(text);
            },
            None => {},
        }
        let ghost g0 = self.graphs@;
        self.graphs.remove(i);
        self.uids.remove(i);
        self.candidates.remove(i);
        proof {
            assert forall|a: int, b: int| 0 <= a < b < self.graphs.len() implies (#[trigger] self.graphs@[a])@
                != (#[trigger] self.graphs@[b])@ by {
                let a0 = if a < i { a } else { a + 1 };
                let b0 = if b < i { b } else { b + 1 };
                assert(self.graphs@[a] == g0[a0] && self.graphs@[b] == g0[b0]);
            }
        }
        assert(self.pending() =~= p0.remove(i as int));
        result
    }

    /// Whether a feedback request with id `uid` is still owed at the end
    /// of the script: one answered by a passive pick is not.
    pub fn still_owed(&self, uid: Option<&str>) -> (r: bool)
        ensures
            r == match uid {
                Some(u) => !self.answered().contains(u@),
                None => true,
            },
    {
        match uid {
            None => true,
            Some(u) => match position_of(&self.resolved, u) {
                Some(k) => {
                    proof {
                        lemma_first_pos_some_at(strings_view(self.resolved@), u@, k as int);
                    }
                    false
                },
                None => {
                    proof {
                        if strings_view(self.resolved@).contains(u@) {
                            let j = choose|j: int| 0 <= j < self.resolved.len() && strings_view(self.resolved@)[j] == u@;
                            lemma_first_pos_some(strings_view(self.resolved@), u@, j);
                        }
                    }
                    true
                },
            },
        }
    }
}

proof fn lemma_first_pos_some(s: Seq<Seq<char>>, x: Seq<char>, j: int)
    requires
        0 <= j < s.len(),
        s[j] == x,
    ensures
        first_pos(s, x) is Some,
    decreases j,
{
    if j > 0 && s[0] != x {
        lemma_first_pos_some(s.drop_first(), x, j - 1);
    }
}

proof fn lemma_first_pos_some_at(s: Seq<Seq<char>>, x: Seq<char>, k: int)
    requires
        0 <= k < s.len(),
        first_pos(s, x) == Some(k as nat),
    ensures
        s[k] == x,
        s.contains(x),
    decreases k,
{
    if k > 0 {
        assert(s[0] != x);
        lemma_first_pos_some_at(s.drop_first(), x, k - 1);
        assert(s.drop_first()[k - 1] == s[k]);
    }
}

proof fn lemma_first_pos_none(s: Seq<Seq<char>>, x: Seq<char>)
    requires
        first_pos(s, x) is None,
    ensures
        forall|j: int| 0 <= j < s.len() ==> s[j] != x,
{
    assert forall|j: int| 0 <= j < s.len() implies s[j] != x by {
        if s[j] == x {
            lemma_first_pos_some(s, x, j);
        }
    }
}

/// After a pick request with candidates is recorded for a graph, the
/// pick found for that graph is the one just recorded.
pub proof fn law_recorded_pick_is_found(p: Seq<PendingV>, graph: Seq<char>, uid: Seq<char>, candidates: Seq<Seq<char>>)
    ensures
        ({
            let gs = p.map_values(|e: PendingV| e.0);
            let p2 = match first_pos(gs, graph) {
                Some(i) => p.update(i as int, (graph, uid, candidates)),
                None => p.push((graph, uid, candidates)),
            };
            let gs2 = p2.map_values(|e: PendingV| e.0);
            first_pos(gs2, graph) matches Some(j) && p2[j as int] == (graph, uid, candidates)
        }),
{
    let gs = p.map_values(|e: PendingV| e.0);
    match first_pos(gs, graph) {
        Some(i) => {
            let p2 = p.update(i as int, (graph, uid, candidates));
            let gs2 = p2.map_values(|e: PendingV| e.0);
            lemma_first_pos_bound(gs, graph);
            lemma_first_pos_some_at(gs, graph, i as int);
            assert(gs2 =~= gs);
        },
        None => {
            let p2 = p.push((graph, uid, candidates));
            let gs2 = p2.map_values(|e: PendingV| e.0);
            lemma_first_pos_none(gs, graph);
            assert forall|j: int| 0 <= j < p.len() implies gs2[j] != graph by {
                assert(gs2[j] == gs[j]);
            }
            lemma_first_pos(gs2, graph, p.len() as int);
        },
    }
}

proof fn lemma_first_pos_bound(s: Seq<Seq<char>>, x: Seq<char>)
    ensures
        first_pos(s, x) matches Some(k) ==> k < s.len(),
    decreases s.len(),
{
    if s.len() > 0 {
        lemma_first_pos_bound(s.drop_first(), x);
    }
}

} // verus!
