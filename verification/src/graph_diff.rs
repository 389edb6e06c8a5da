//! Differences between two graphs: which nodes, edges and notes were added,
//! removed or changed, and the text report of them.
//!
//! Nodes and notes are identified by id, edges by `source relation target`.
//! Where a graph holds several entities under one key, the last one counts.
use vstd::prelude::*;
use crate::graph::{Edge, EdgeV, GraphFile, GraphV, Node, NodeV, Note, NoteV};
use crate::import_csv::CsvItem;
use crate::sorting::views;
use crate::text::{append_chars, append_str, chars_of, decimal, decimal_usize, lex_order, string_of};

verus! {

broadcast use vstd::string::group_string_axioms;

// ---------------------------------------------------------------------------
// Keys
// ---------------------------------------------------------------------------

/// An entity compared by key.
pub trait DiffItem: View + Sized {
    spec fn key_of(v: Self::V) -> Seq<char>;

    fn key(&self) -> (r: String)
        ensures
            r@ == Self::key_of(self@),
    ;

    fn same(&self, other: &Self) -> (r: bool)
        ensures
            r == (self@ == other@),
    ;
}

/// The key of an edge: source, relation and target separated by spaces.
pub open spec fn edge_key(e: EdgeV) -> Seq<char> {
    e.source_id + " "@ + e.relation + " "@ + e.target_id
}

impl DiffItem for Node {
    open spec fn key_of(v: NodeV) -> Seq<char> {
        v.id
    }

    fn key(&self) -> (r: String) {
        crate::graph::copy_string(&self.id)
    }

    fn same(&self, other: &Node) -> (r: bool) {
        self.same_value(other)
    }
}

impl DiffItem for Edge {
    open spec fn key_of(v: EdgeV) -> Seq<char> {
        edge_key(v)
    }

    fn key(&self) -> (r: String) {
        let mut out: Vec<char> = Vec::new();
        append_str(&mut out, self.source_id.as_str());
        append_str(&mut out, " ");
        append_str(&mut out, self.relation.as_str());
        append_str(&mut out, " ");
        append_str(&mut out, self.target_id.as_str());
        string_of(out.as_slice())
    }

    fn same(&self, other: &Edge) -> (r: bool) {
        self.same_value(other)
    }
}

impl DiffItem for Note {
    open spec fn key_of(v: NoteV) -> Seq<char> {
        v.id
    }

    fn key(&self) -> (r: String) {
        crate::graph::copy_string(&self.id)
    }

    fn same(&self, other: &Note) -> (r: bool) {
        self.same_value(other)
    }
}

/// The keys of a list of entities, in order.
pub open spec fn keys_of<T: DiffItem>(s: Seq<T::V>) -> Seq<Seq<char>> {
    s.map_values(|v: T::V| T::key_of(v))
}

/// The index of the last occurrence of `k`, or -1.
pub open spec fn last_index(keys: Seq<Seq<char>>, k: Seq<char>) -> int
    decreases keys.len(),
{
    if keys.len() == 0 {
        -1
    } else if keys.last() == k {
        keys.len() - 1
    } else {
        last_index(keys.drop_last(), k)
    }
}

proof fn lemma_last_index(keys: Seq<Seq<char>>, k: Seq<char>)
    ensures
        -1 <= last_index(keys, k) < keys.len(),
        (last_index(keys, k) >= 0) == keys.contains(k),
        last_index(keys, k) >= 0 ==> keys[last_index(keys, k)] == k,
    decreases keys.len(),
{
    if keys.len() > 0 {
        let init = keys.drop_last();
        lemma_last_index(init, k);
        if keys.last() == k {
            assert(keys[keys.len() - 1] == k);
        } else {
            if keys.contains(k) {
                let j = choose|j: int| 0 <= j < keys.len() && keys[j] == k;
                assert(j < keys.len() - 1);
                assert(init[j] == k);
            }
            if init.contains(k) {
                let j = choose|j: int| 0 <= j < init.len() && init[j] == k;
                assert(keys[j] == k);
            }
        }
    }
}

/// The entity stored under `k`: the last one with that key.
pub open spec fn entity_at<T: DiffItem>(s: Seq<T::V>, k: Seq<char>) -> T::V {
    s[last_index(keys_of::<T>(s), k)]
}

/// A key whose entity differs between the two lists.
pub open spec fn changed_key<T: DiffItem>(l: Seq<T::V>, r: Seq<T::V>, k: Seq<char>) -> bool {
    &&& keys_of::<T>(l).contains(k)
    &&& keys_of::<T>(r).contains(k)
    &&& entity_at::<T>(l, k) != entity_at::<T>(r, k)
}

/// A key of `a` that `b` does not have.
pub open spec fn only_in<T: DiffItem>(a: Seq<T::V>, b: Seq<T::V>, k: Seq<char>) -> bool {
    keys_of::<T>(a).contains(k) && !keys_of::<T>(b).contains(k)
}

/// Strictly increasing texts: sorted, without repeats.
pub open spec fn strictly_sorted(v: Seq<Seq<char>>) -> bool {
    forall|i: int, j: int| 0 <= i < j < v.len() ==> lex_order(v[i], v[j]) < 0
}

/// The sorted listing of the texts for which `p` holds.
pub open spec fn lists(v: Seq<Seq<char>>, p: spec_fn(Seq<char>) -> bool) -> bool {
    strictly_sorted(v) && forall|x: Seq<char>| v.contains(x) == p(x)
}

// ---------------------------------------------------------------------------
// Sorted sets of keys
// ---------------------------------------------------------------------------

fn keys_exec<T: DiffItem>(items: &Vec<T>) -> (r: Vec<String>)
    ensures
        views(r@) == keys_of::<T>(views(items@)),
        r.len() == items.len(),
{
    let mut out: Vec<String> = Vec::new();
    let mut i: usize = 0;
    while i < items.len()
        invariant
            i <= items.len(),
            views(out@) == keys_of::<T>(views(items@).take(i as int)),
            out.len() == i,
        decreases items.len() - i,
    {
        let k = items[i].key();
        let ghost before = views(out@);
        out.push(k);
        proof {
            assert(views(items@).take(i + 1) =~= views(items@).take(i as int).push(items@[i as int]@));
            assert(views(out@) =~= before.push(k@));
            assert(keys_of::<T>(views(items@).take(i + 1)) =~= keys_of::<T>(
                views(items@).take(i as int),
            ).push(T::key_of(items@[i as int]@)));
        }
        i += 1;
    }
    proof {
        assert(views(items@).take(i as int) =~= views(items@));
    }
    out
}

pub fn string_eq(a: &String, b: &String) -> (r: bool)
    ensures
        r == (a@ == b@),
{
    crate::text::str_eq(a.as_str(), b.as_str())
}

fn string_order(a: &String, b: &String) -> (r: i8)
    ensures
        r as int == lex_order(a@, b@),
{
    let x = chars_of(a.as_str());
    let y = chars_of(b.as_str());
    crate::text::lex_order_chars(x.as_slice(), y.as_slice())
}

/// The position of the last occurrence of `k` in `keys`.
fn key_pos(keys: &Vec<String>, k: &String) -> (r: Option<usize>)
    ensures
        match r {
            Some(i) => i < keys.len() && i as int == last_index(views(keys@), k@),
            None => last_index(views(keys@), k@) == -1,
        },
{
    let ghost s = views(keys@);
    let mut j: usize = keys.len();
    assert(s.take(j as int) =~= s);
    while j > 0
        invariant
            j <= keys.len(),
            s == views(keys@),
            last_index(s, k@) == last_index(s.take(j as int), k@),
        decreases j,
    {
        proof {
            assert(s.take(j as int).drop_last() =~= s.take(j - 1));
            assert(s.take(j as int).last() == keys@[j - 1]@);
        }
        if string_eq(&keys[j - 1], k) {
            return Some(j - 1);
        }
        j -= 1;
    }
    proof {
        assert(s.take(0) =~= Seq::<Seq<char>>::empty());
    }
    None
}

proof fn lemma_lex_strict_trans(a: Seq<char>, b: Seq<char>, c: Seq<char>)
    requires
        lex_order(a, b) < 0,
        lex_order(b, c) <= 0,
    ensures
        lex_order(a, c) < 0,
{
    crate::text::lemma_lex_order_trans(a, b, c);
    crate::text::lemma_lex_order_eq(a, c);
    if a == c {
        crate::text::lemma_lex_order_antisym(a, b);
    }
}

pub proof fn lemma_push_contains(s: Seq<Seq<char>>, k: Seq<char>)
    ensures
        forall|y: Seq<char>| s.push(k).contains(y) == (s.contains(y) || y == k),
{
    assert forall|y: Seq<char>| s.push(k).contains(y) == (s.contains(y) || y == k) by {
        if s.push(k).contains(y) {
            let j = choose|j: int| 0 <= j < s.push(k).len() && s.push(k)[j] == y;
            if j < s.len() {
                assert(s[j] == y);
            }
        }
        if s.contains(y) {
            let j = choose|j: int| 0 <= j < s.len() && s[j] == y;
            assert(s.push(k)[j] == y);
        }
        if y == k {
            assert(s.push(k)[s.len() as int] == y);
        }
    }
}

/// In a strictly sorted list, equal texts stand at one index.
pub proof fn lemma_sorted_unique(v: Seq<Seq<char>>, a: int, b: int)
    requires
        strictly_sorted(v),
        0 <= a < v.len(),
        0 <= b < v.len(),
        v[a] == v[b],
    ensures
        a == b,
{
    if a < b {
        assert(lex_order(v[a], v[b]) < 0);
        crate::text::lemma_lex_order_eq(v[a], v[b]);
    } else if b < a {
        assert(lex_order(v[b], v[a]) < 0);
        crate::text::lemma_lex_order_eq(v[b], v[a]);
    }
}

/// Adds `x` to a strictly sorted list of texts, unless it is there already.
pub fn insert_unique_sorted(v: &mut Vec<String>, x: String)
    requires
        strictly_sorted(views(old(v)@)),
    ensures
        strictly_sorted(views(final(v)@)),
        forall|y: Seq<char>| views(final(v)@).contains(y) == (views(old(v)@).contains(y) || y == x@),
{
    let ghost s = views(v@);
    let mut p: usize = 0;
    loop
        invariant
            p <= v.len(),
            s == views(v@),
            forall|j: int| 0 <= j < p ==> lex_order(#[trigger] s[j], x@) < 0,
        ensures
            p <= v.len(),
            forall|j: int| 0 <= j < p ==> lex_order(#[trigger] s[j], x@) < 0,
            p < v.len() ==> lex_order(s[p as int], x@) >= 0,
        decreases v.len() - p,
    {
        if p >= v.len() {
            break;
        }
        if string_order(&v[p], &x) >= 0 {
            break;
        }
        p += 1;
    }
    if p < v.len() && string_eq(&v[p], &x) {
        proof {
            assert(s[p as int] == x@);
            assert(s.contains(x@));
        }
        return;
    }
    proof {
        if p < v.len() {
            crate::text::lemma_lex_order_eq(s[p as int], x@);
            crate::text::lemma_lex_order_antisym(s[p as int], x@);
            assert(lex_order(x@, s[p as int]) < 0);
        }
    }
    v.insert(p, x);
    proof {
        let t = views(v@);
        assert(t =~= s.insert(p as int, x@));
        assert forall|i: int, j: int| 0 <= i < j < t.len() implies lex_order(t[i], t[j]) < 0 by {
            if j < p {
                assert(t[i] == s[i] && t[j] == s[j]);
            } else if j == p {
                assert(t[i] == s[i] && t[j] == x@);
            } else if i == p {
                assert(t[j] == s[j - 1]);
                if j - 1 > p {
                    assert(lex_order(s[p as int], s[j - 1]) < 0);
                    lemma_lex_strict_trans(x@, s[p as int], s[j - 1]);
                }
            } else if i < p {
                assert(t[i] == s[i] && t[j] == s[j - 1]);
                assert(lex_order(s[i], x@) < 0);
                if j - 1 > i {
                    assert(lex_order(s[i], s[j - 1]) < 0);
                }
            } else {
                assert(t[i] == s[i - 1] && t[j] == s[j - 1]);
            }
        }
        assert forall|y: Seq<char>| t.contains(y) == (s.contains(y) || y == x@) by {
            if t.contains(y) {
                let k = choose|k: int| 0 <= k < t.len() && t[k] == y;
                if k < p {
                    assert(s[k] == y);
                } else if k > p {
                    assert(s[k - 1] == y);
                }
            }
            if s.contains(y) {
                let k = choose|k: int| 0 <= k < s.len() && s[k] == y;
                if k < p {
                    assert(t[k] == y);
                } else {
                    assert(t[k + 1] == y);
                }
            }
            if y == x@ {
                assert(t[p as int] == y);
            }
        }
    }
}

/// The sorted keys of `a` that `b` does not have.
fn keys_only_in<T: DiffItem>(a: &Vec<T>, b: &Vec<T>) -> (r: Vec<String>)
    ensures
        lists(views(r@), |k: Seq<char>| only_in::<T>(views(a@), views(b@), k)),
{
    let ka = keys_exec(a);
    let kb = keys_exec(b);
    let ghost sa = views(ka@);
    let ghost sb = views(kb@);
    let mut out: Vec<String> = Vec::new();
    let mut i: usize = 0;
    while i < ka.len()
        invariant
            i <= ka.len(),
            sa == views(ka@),
            sb == views(kb@),
            sa == keys_of::<T>(views(a@)),
            sb == keys_of::<T>(views(b@)),
            strictly_sorted(views(out@)),
            forall|y: Seq<char>|
                #[trigger] views(out@).contains(y) == (sa.take(i as int).contains(y) && !sb.contains(
                    y,
                )),
        decreases ka.len() - i,
    {
        let k = crate::graph::copy_string(&ka[i]);
        let pos = key_pos(&kb, &k);
        proof {
            lemma_last_index(sb, k@);
            assert(sa[i as int] == k@);
            assert(sa.take(i + 1) =~= sa.take(i as int).push(k@));
            lemma_push_contains(sa.take(i as int), k@);
        }
        if pos.is_none() {
            insert_unique_sorted(&mut out, k);
        }
        i += 1;
    }
    proof {
        assert(sa.take(i as int) =~= sa);
    }
    out
}

/// The sorted keys present in both lists whose entities differ.
fn changed_keys<T: DiffItem>(a: &Vec<T>, b: &Vec<T>) -> (r: Vec<String>)
    ensures
        lists(views(r@), |k: Seq<char>| changed_key::<T>(views(a@), views(b@), k)),
{
    let ka = keys_exec(a);
    let kb = keys_exec(b);
    let ghost sa = views(ka@);
    let ghost sb = views(kb@);
    let ghost va = views(a@);
    let ghost vb = views(b@);
    let mut out: Vec<String> = Vec::new();
    let mut i: usize = 0;
    while i < ka.len()
        invariant
            i <= ka.len(),
            ka.len() == a.len(),
            kb.len() == b.len(),
            sa == views(ka@),
            sb == views(kb@),
            va == views(a@),
            vb == views(b@),
            sa == keys_of::<T>(va),
            sb == keys_of::<T>(vb),
            strictly_sorted(views(out@)),
            forall|y: Seq<char>|
                views(out@).contains(y) == (sa.take(i as int).contains(y) && changed_key::<T>(
                    va,
                    vb,
                    y,
                )),
        decreases ka.len() - i,
    {
        let k = crate::graph::copy_string(&ka[i]);
        proof {
            lemma_last_index(sa, k@);
            lemma_last_index(sb, k@);
            assert(sa[i as int] == k@);
            assert(sa.contains(k@));
            assert(sa.take(i + 1) =~= sa.take(i as int).push(k@));
            lemma_push_contains(sa.take(i as int), k@);
        }
        let li = key_pos(&ka, &k);
        let ri = key_pos(&kb, &k);
        match (li, ri) {
            (Some(x), Some(y)) => {
                if !a[x].same(&b[y]) {
                    insert_unique_sorted(&mut out, k);
                }
            },
            _ => {},
        }
        i += 1;
    }
    proof {
        assert(sa.take(i as int) =~= sa);
    }
    out
}

// ---------------------------------------------------------------------------
// The difference of two graphs
// ---------------------------------------------------------------------------

/// What differs between two graphs, each list sorted.
pub struct GraphDiff {
    pub added_nodes: Vec<String>,
    pub removed_nodes: Vec<String>,
    pub changed_nodes: Vec<String>,
    pub added_edges: Vec<String>,
    pub removed_edges: Vec<String>,
    pub changed_edges: Vec<String>,
    pub added_notes: Vec<String>,
    pub removed_notes: Vec<String>,
    pub changed_notes: Vec<String>,
}

/// The difference of `l` (before) and `r` (after).
pub open spec fn diff_of(d: GraphDiff, l: GraphV, r: GraphV) -> bool {
    &&& lists(views(d.added_nodes@), |k: Seq<char>| only_in::<Node>(r.nodes, l.nodes, k))
    &&& lists(views(d.removed_nodes@), |k: Seq<char>| only_in::<Node>(l.nodes, r.nodes, k))
    &&& lists(views(d.changed_nodes@), |k: Seq<char>| changed_key::<Node>(l.nodes, r.nodes, k))
    &&& lists(views(d.added_edges@), |k: Seq<char>| only_in::<Edge>(r.edges, l.edges, k))
    &&& lists(views(d.removed_edges@), |k: Seq<char>| only_in::<Edge>(l.edges, r.edges, k))
    &&& lists(views(d.changed_edges@), |k: Seq<char>| changed_key::<Edge>(l.edges, r.edges, k))
    &&& lists(views(d.added_notes@), |k: Seq<char>| only_in::<Note>(r.notes, l.notes, k))
    &&& lists(views(d.removed_notes@), |k: Seq<char>| only_in::<Note>(l.notes, r.notes, k))
    &&& lists(views(d.changed_notes@), |k: Seq<char>| changed_key::<Note>(l.notes, r.notes, k))
}

/// The added, removed and changed nodes, edges and notes from `left` to `right`.
pub fn graph_diff(left: &GraphFile, right: &GraphFile) -> (d: GraphDiff)
    ensures
        diff_of(d, left@, right@),
{
    GraphDiff {
        added_nodes: keys_only_in(&right.nodes, &left.nodes),
        removed_nodes: keys_only_in(&left.nodes, &right.nodes),
        changed_nodes: changed_keys(&left.nodes, &right.nodes),
        added_edges: keys_only_in(&right.edges, &left.edges),
        removed_edges: keys_only_in(&left.edges, &right.edges),
        changed_edges: changed_keys(&left.edges, &right.edges),
        added_notes: keys_only_in(&right.notes, &left.notes),
        removed_notes: keys_only_in(&left.notes, &right.notes),
        changed_notes: changed_keys(&left.notes, &right.notes),
    }
}

// ---------------------------------------------------------------------------
// The text report
// ---------------------------------------------------------------------------

/// `\n<mark> <kind> <id>` for each id.
pub open spec fn id_lines(mark: Seq<char>, kind: Seq<char>, ids: Seq<Seq<char>>) -> Seq<char>
    decreases ids.len(),
{
    if ids.len() == 0 {
        Seq::empty()
    } else {
        id_lines(mark, kind, ids.drop_last()) + "\n"@ + mark + " "@ + kind + " "@ + ids.last()
    }
}

/// `\n<mark> <plural> (<n>)`.
pub open spec fn count_line(mark: Seq<char>, plural: Seq<char>, n: nat) -> Seq<char> {
    "\n"@ + mark + " "@ + plural + " ("@ + decimal(n) + ")"@
}

/// `\n  ~ <d>` for each value difference.
pub open spec fn detail_lines(ds: Seq<Seq<char>>) -> Seq<char>
    decreases ds.len(),
{
    if ds.len() == 0 {
        Seq::empty()
    } else {
        detail_lines(ds.drop_last()) + "\n  ~ "@ + ds.last()
    }
}

/// `\n~ <kind> <id>` and its value differences, for each changed id.
pub open spec fn changed_lines(kind: Seq<char>, ids: Seq<Seq<char>>, details: Seq<Seq<Seq<char>>>) -> Seq<char>
    decreases ids.len(),
{
    if ids.len() == 0 {
        Seq::empty()
    } else {
        changed_lines(kind, ids.drop_last(), details) + "\n~ "@ + kind + " "@ + ids.last()
            + detail_lines(details[ids.len() - 1])
    }
}

/// The added, removed and changed sections of one kind of entity.
pub open spec fn section_text(
    plural: Seq<char>,
    kind: Seq<char>,
    added: Seq<Seq<char>>,
    removed: Seq<Seq<char>>,
    changed: Seq<Seq<char>>,
    details: Seq<Seq<Seq<char>>>,
) -> Seq<char> {
    count_line("+"@, plural, added.len()) + id_lines("+"@, kind, added) + count_line(
        "-"@,
        plural,
        removed.len(),
    ) + id_lines("-"@, kind, removed) + count_line("~"@, plural, changed.len()) + changed_lines(
        kind,
        changed,
        details,
    )
}

/// The value of a list of line lists.
pub open spec fn details_view(d: Seq<Vec<String>>) -> Seq<Seq<Seq<char>>> {
    d.map_values(|v: Vec<String>| views(v@))
}

/// The report of a graph difference.
pub open spec fn diff_text(
    left: Seq<char>,
    right: Seq<char>,
    d: GraphDiff,
    nd: Seq<Seq<Seq<char>>>,
    ed: Seq<Seq<Seq<char>>>,
    od: Seq<Seq<Seq<char>>>,
) -> Seq<char> {
    "= diff "@ + left + " -> "@ + right + section_text(
        "nodes"@,
        "node"@,
        views(d.added_nodes@),
        views(d.removed_nodes@),
        views(d.changed_nodes@),
        nd,
    ) + section_text(
        "edges"@,
        "edge"@,
        views(d.added_edges@),
        views(d.removed_edges@),
        views(d.changed_edges@),
        ed,
    ) + section_text(
        "notes"@,
        "note"@,
        views(d.added_notes@),
        views(d.removed_notes@),
        views(d.changed_notes@),
        od,
    ) + "\n"@
}

fn append_count(out: &mut Vec<char>, mark: &str, plural: &str, n: usize)
    ensures
        final(out)@ == old(out)@ + count_line(mark@, plural@, n as nat),
{
    append_str(out, "\n");
    append_str(out, mark);
    append_str(out, " ");
    append_str(out, plural);
    append_str(out, " (");
    let d = decimal_usize(n);
    append_chars(out, d.as_slice());
    append_str(out, ")");
    proof {
        reveal_strlit("\n");
        reveal_strlit(" ");
        reveal_strlit(" (");
        reveal_strlit(")");
    }
    assert(final(out)@ =~= old(out)@ + count_line(mark@, plural@, n as nat));
}

fn append_ids(out: &mut Vec<char>, mark: &str, kind: &str, ids: &Vec<String>)
    ensures
        final(out)@ == old(out)@ + id_lines(mark@, kind@, views(ids@)),
{
    let ghost v = views(ids@);
    let ghost start = out@;
    let mut i: usize = 0;
    assert(v.take(0) =~= Seq::<Seq<char>>::empty());
    assert(out@ =~= start + id_lines(mark@, kind@, v.take(0)));
    while i < ids.len()
        invariant
            i <= ids.len(),
            v == views(ids@),
            out@ == start + id_lines(mark@, kind@, v.take(i as int)),
        decreases ids.len() - i,
    {
        let ghost before = out@;
        append_str(out, "\n");
        append_str(out, mark);
        append_str(out, " ");
        append_str(out, kind);
        append_str(out, " ");
        append_str(out, ids[i].as_str());
        proof {
            assert(v.take(i + 1).drop_last() =~= v.take(i as int));
            assert(v.take(i + 1).last() == ids@[i as int]@);
            assert(out@ =~= before + "\n"@ + mark@ + " "@ + kind@ + " "@ + ids@[i as int]@);
        }
        i += 1;
    }
    assert(v.take(i as int) =~= v);
}

fn append_details(out: &mut Vec<char>, ds: &Vec<String>)
    ensures
        final(out)@ == old(out)@ + detail_lines(views(ds@)),
{
    let ghost v = views(ds@);
    let ghost start = out@;
    let mut i: usize = 0;
    assert(v.take(0) =~= Seq::<Seq<char>>::empty());
    assert(out@ =~= start + detail_lines(v.take(0)));
    while i < ds.len()
        invariant
            i <= ds.len(),
            v == views(ds@),
            out@ == start + detail_lines(v.take(i as int)),
        decreases ds.len() - i,
    {
        let ghost before = out@;
        append_str(out, "\n  ~ ");
        append_str(out, ds[i].as_str());
        proof {
            assert(v.take(i + 1).drop_last() =~= v.take(i as int));
            assert(v.take(i + 1).last() == ds@[i as int]@);
            assert(out@ =~= before + "\n  ~ "@ + ds@[i as int]@);
        }
        i += 1;
    }
    assert(v.take(i as int) =~= v);
}

fn append_changed(out: &mut Vec<char>, kind: &str, ids: &Vec<String>, details: &Vec<Vec<String>>)
    requires
        details.len() == ids.len(),
    ensures
        final(out)@ == old(out)@ + changed_lines(kind@, views(ids@), details_view(details@)),
{
    let ghost v = views(ids@);
    let ghost dv = details_view(details@);
    let ghost start = out@;
    let mut i: usize = 0;
    assert(v.take(0) =~= Seq::<Seq<char>>::empty());
    assert(out@ =~= start + changed_lines(kind@, v.take(0), dv));
    while i < ids.len()
        invariant
            i <= ids.len(),
            details.len() == ids.len(),
            v == views(ids@),
            dv == details_view(details@),
            out@ == start + changed_lines(kind@, v.take(i as int), dv),
        decreases ids.len() - i,
    {
        let ghost before = out@;
        append_str(out, "\n~ ");
        append_str(out, kind);
        append_str(out, " ");
        append_str(out, ids[i].as_str());
        let ghost mid = out@;
        append_details(out, &details[i]);
        proof {
            assert(v.take(i + 1).drop_last() =~= v.take(i as int));
            assert(v.take(i + 1).last() == ids@[i as int]@);
            assert(v.take(i + 1).len() == i + 1);
            assert(dv[i as int] == views(details@[i as int]@));
            assert(out@ =~= before + "\n~ "@ + kind@ + " "@ + ids@[i as int]@ + detail_lines(
                dv[i as int],
            ));
        }
        i += 1;
    }
    assert(v.take(i as int) =~= v);
}

fn append_section(
    out: &mut Vec<char>,
    plural: &str,
    kind: &str,
    added: &Vec<String>,
    removed: &Vec<String>,
    changed: &Vec<String>,
    details: &Vec<Vec<String>>,
)
    requires
        details.len() == changed.len(),
    ensures
        final(out)@ == old(out)@ + section_text(
            plural@,
            kind@,
            views(added@),
            views(removed@),
            views(changed@),
            details_view(details@),
        ),
{
    append_count(out, "+", plural, added.len());
    append_ids(out, "+", kind, added);
    append_count(out, "-", plural, removed.len());
    append_ids(out, "-", kind, removed);
    append_count(out, "~", plural, changed.len());
    append_changed(out, kind, changed, details);
    assert(views(added@).len() == added.len());
    assert(views(removed@).len() == removed.len());
    assert(views(changed@).len() == changed.len());
    assert(final(out)@ =~= old(out)@ + section_text(
        plural@,
        kind@,
        views(added@),
        views(removed@),
        views(changed@),
        details_view(details@),
    ));
}

/// The text report of a difference: a header, then for nodes, edges and
/// notes the added, removed and changed entries, each changed entry followed
/// by its value differences (`details`, one list per changed entry, in order).
pub fn render_graph_diff_from_files(
    left: &str,
    right: &str,
    diff: &GraphDiff,
    node_details: &Vec<Vec<String>>,
    edge_details: &Vec<Vec<String>>,
    note_details: &Vec<Vec<String>>,
) -> (r: String)
    requires
        node_details.len() == diff.changed_nodes.len(),
        edge_details.len() == diff.changed_edges.len(),
        note_details.len() == diff.changed_notes.len(),
    ensures
        r@ == diff_text(
            left@,
            right@,
            *diff,
            details_view(node_details@),
            details_view(edge_details@),
            details_view(note_details@),
        ),
{
    let mut out: Vec<char> = Vec::new();
    append_str(&mut out, "= diff ");
    append_str(&mut out, left);
    append_str(&mut out, " -> ");
    append_str(&mut out, right);
    append_section(
        &mut out,
        "nodes",
        "node",
        &diff.added_nodes,
        &diff.removed_nodes,
        &diff.changed_nodes,
        node_details,
    );
    append_section(
        &mut out,
        "edges",
        "edge",
        &diff.added_edges,
        &diff.removed_edges,
        &diff.changed_edges,
        edge_details,
    );
    append_section(
        &mut out,
        "notes",
        "note",
        &diff.added_notes,
        &diff.removed_notes,
        &diff.changed_notes,
        note_details,
    );
    append_str(&mut out, "\n");
    assert(out@ =~= diff_text(
        left@,
        right@,
        *diff,
        details_view(node_details@),
        details_view(edge_details@),
        details_view(note_details@),
    ));
    string_of(out.as_slice())
}

proof fn lemma_lists_nothing(v: Seq<Seq<char>>, p: spec_fn(Seq<char>) -> bool)
    requires
        lists(v, p),
        forall|x: Seq<char>| !#[trigger] p(x),
    ensures
        v.len() == 0,
{
    if v.len() > 0 {
        assert(v.contains(v[0]));
        assert(p(v[0]));
    }
}

/// Comparing a graph with itself finds nothing added, removed or changed.
pub proof fn law_diff_with_itself_is_empty(d: GraphDiff, g: GraphV)
    requires
        diff_of(d, g, g),
    ensures
        d.added_nodes@.len() == 0,
        d.removed_nodes@.len() == 0,
        d.changed_nodes@.len() == 0,
        d.added_edges@.len() == 0,
        d.removed_edges@.len() == 0,
        d.changed_edges@.len() == 0,
        d.added_notes@.len() == 0,
        d.removed_notes@.len() == 0,
        d.changed_notes@.len() == 0,
{
    lemma_lists_nothing(views(d.added_nodes@), |k: Seq<char>| only_in::<Node>(g.nodes, g.nodes, k));
    lemma_lists_nothing(views(d.removed_nodes@), |k: Seq<char>| only_in::<Node>(g.nodes, g.nodes, k));
    lemma_lists_nothing(views(d.changed_nodes@), |k: Seq<char>| changed_key::<Node>(g.nodes, g.nodes, k));
    lemma_lists_nothing(views(d.added_edges@), |k: Seq<char>| only_in::<Edge>(g.edges, g.edges, k));
    lemma_lists_nothing(views(d.removed_edges@), |k: Seq<char>| only_in::<Edge>(g.edges, g.edges, k));
    lemma_lists_nothing(views(d.changed_edges@), |k: Seq<char>| changed_key::<Edge>(g.edges, g.edges, k));
    lemma_lists_nothing(views(d.added_notes@), |k: Seq<char>| only_in::<Note>(g.notes, g.notes, k));
    lemma_lists_nothing(views(d.removed_notes@), |k: Seq<char>| only_in::<Note>(g.notes, g.notes, k));
    lemma_lists_nothing(views(d.changed_notes@), |k: Seq<char>| changed_key::<Note>(g.notes, g.notes, k));
}

} // verus!
