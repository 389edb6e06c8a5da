//! Merging one graph into another.
use vstd::prelude::*;
use crate::graph::{Edge, EdgeV, GraphFile, GraphV, Node, NodeV, Note, NoteV};
use crate::sorting::views;
use crate::text::{append_chars, append_str, chars_eq, chars_of, decimal, decimal_usize, string_of};

verus! {

/// Which side wins when both graphs hold an item with the same key.
pub enum MergeStrategy {
    /// The incoming item replaces the existing one.
    PreferNew,
    /// The existing item is kept.
    PreferOld,
}

/// Items matched by a text key when graphs are merged.
pub trait MergeItem: View + Sized {
    /// The key of an item's value.
    spec fn key_of(v: Self::V) -> Seq<char>;

    /// The key of this item.
    fn merge_key(&self) -> (r: Vec<char>)
        ensures
            r@ == Self::key_of(self@),
    ;

    /// A copy of this item.
    fn duplicate(&self) -> (r: Self)
        ensures
            r@ == self@,
    ;
}

impl MergeItem for Node {
    open spec fn key_of(v: NodeV) -> Seq<char> {
        v.id
    }

    fn merge_key(&self) -> (r: Vec<char>) {
        chars_of(self.id.as_str())
    }

    fn duplicate(&self) -> (r: Node) {
        self.copy()
    }
}

impl MergeItem for Edge {
    open spec fn key_of(v: EdgeV) -> Seq<char> {
        v.source_id + " "@ + v.relation + " "@ + v.target_id
    }

    fn merge_key(&self) -> (r: Vec<char>) {
        let mut out: Vec<char> = Vec::new();
        append_str(&mut out, self.source_id.as_str());
        append_str(&mut out, " ");
        append_str(&mut out, self.relation.as_str());
        append_str(&mut out, " ");
        append_str(&mut out, self.target_id.as_str());
        out
    }

    fn duplicate(&self) -> (r: Edge) {
        self.copy()
    }
}

impl MergeItem for Note {
    open spec fn key_of(v: NoteV) -> Seq<char> {
        v.id
    }

    fn merge_key(&self) -> (r: Vec<char>) {
        chars_of(self.id.as_str())
    }

    fn duplicate(&self) -> (r: Note) {
        self.copy()
    }
}

/// The position of the last item whose key is `k`.
pub open spec fn last_key_index<T: MergeItem>(items: Seq<T::V>, k: Seq<char>) -> Option<int>
    decreases items.len(),
{
    if items.len() == 0 {
        None
    } else if T::key_of(items.last()) == k {
        Some(items.len() - 1)
    } else {
        last_key_index::<T>(items.drop_last(), k)
    }
}

/// `src` merged into `items` in order: an item whose key is already present
/// replaces the last item with that key when the new side is preferred and
/// is dropped otherwise; an item with a new key is appended.  Also gives
/// how many were appended and how many replaced.
pub open spec fn merge_in<T: MergeItem>(items: Seq<T::V>, src: Seq<T::V>, prefer_new: bool) -> (Seq<T::V>, nat, nat)
    decreases src.len(),
{
    if src.len() == 0 {
        (items, 0, 0)
    } else {
        let prev = merge_in::<T>(items, src.drop_last(), prefer_new);
        let x = src.last();
        match last_key_index::<T>(prev.0, T::key_of(x)) {
            Some(i) => if prefer_new {
                (prev.0.update(i, x), prev.1, prev.2 + 1)
            } else {
                prev
            },
            None => (prev.0.push(x), prev.1 + 1, prev.2),
        }
    }
}

proof fn lemma_last_key_index<T: MergeItem>(items: Seq<T::V>, k: Seq<char>)
    ensures
        last_key_index::<T>(items, k) matches Some(i) ==> 0 <= i < items.len(),
    decreases items.len(),
{
    if items.len() > 0 {
        lemma_last_key_index::<T>(items.drop_last(), k);
    }
}

proof fn lemma_merge_counts<T: MergeItem>(items: Seq<T::V>, src: Seq<T::V>, prefer_new: bool)
    ensures
        merge_in::<T>(items, src, prefer_new).1 + merge_in::<T>(items, src, prefer_new).2
            <= src.len(),
    decreases src.len(),
{
    if src.len() > 0 {
        lemma_merge_counts::<T>(items, src.drop_last(), prefer_new);
    }
}

proof fn lemma_last_key_none<T: MergeItem>(items: Seq<T::V>, k: Seq<char>)
    requires
        forall|i: int| 0 <= i < items.len() ==> T::key_of(#[trigger] items[i]) != k,
    ensures
        last_key_index::<T>(items, k) is None,
    decreases items.len(),
{
    if items.len() > 0 {
        assert(T::key_of(items[items.len() - 1]) != k);
        assert forall|i: int| 0 <= i < items.drop_last().len() implies T::key_of(
            #[trigger] items.drop_last()[i],
        ) != k by {
            assert(items.drop_last()[i] == items[i]);
        }
        lemma_last_key_index::<T>(items.drop_last(), k);
        lemma_last_key_none::<T>(items.drop_last(), k);
    }
}

/// Whether an edge's source id and relation hold no space.
pub open spec fn plain_edge(e: EdgeV) -> bool {
    !e.source_id.contains(' ') && !e.relation.contains(' ')
}

/// Whether two edges join the same nodes by the same relation.
pub open spec fn same_triple(a: EdgeV, b: EdgeV) -> bool {
    a.source_id == b.source_id && a.relation == b.relation && a.target_id == b.target_id
}

proof fn lemma_split_at_space(s1: Seq<char>, r1: Seq<char>, s2: Seq<char>, r2: Seq<char>)
    requires
        !s1.contains(' '),
        !s2.contains(' '),
        s1 + seq![' '] + r1 == s2 + seq![' '] + r2,
    ensures
        s1 == s2,
        r1 == r2,
{
    let a = s1 + seq![' '] + r1;
    let b = s2 + seq![' '] + r2;
    if s1.len() < s2.len() {
        assert(a[s1.len() as int] == ' ');
        assert(b[s1.len() as int] == s2[s1.len() as int]);
        assert(s2.contains(' '));
    }
    if s2.len() < s1.len() {
        assert(b[s2.len() as int] == ' ');
        assert(a[s2.len() as int] == s1[s2.len() as int]);
        assert(s1.contains(' '));
    }
    assert(s1 =~= a.take(s1.len() as int));
    assert(s2 =~= b.take(s2.len() as int));
    assert(r1 =~= a.skip(s1.len() as int + 1));
    assert(r2 =~= b.skip(s2.len() as int + 1));
}

proof fn lemma_edge_key_shape(e: EdgeV)
    ensures
        Edge::key_of(e) == e.source_id + seq![' '] + (e.relation + seq![' '] + e.target_id),
{
    reveal_strlit(" ");
    assert(Edge::key_of(e) =~= e.source_id + seq![' '] + (e.relation + seq![' '] + e.target_id));
}

/// Edges are matched in a merge by source, relation and target: where
/// source ids and relations hold no space, two edges have the same merge
/// key exactly when they join the same nodes by the same relation.
pub proof fn law_edge_key_fields(a: EdgeV, b: EdgeV)
    requires
        plain_edge(a),
        plain_edge(b),
    ensures
        Edge::key_of(a) == Edge::key_of(b) <==> same_triple(a, b),
{
    lemma_edge_key_shape(a);
    lemma_edge_key_shape(b);
    if Edge::key_of(a) == Edge::key_of(b) {
        lemma_split_at_space(
            a.source_id,
            a.relation + seq![' '] + a.target_id,
            b.source_id,
            b.relation + seq![' '] + b.target_id,
        );
        lemma_split_at_space(a.relation, a.target_id, b.relation, b.target_id);
    }
}

/// Incoming edges that join other nodes, or the same nodes by another
/// relation, than every existing edge and every other incoming edge are all
/// appended in order, whichever side is preferred; nothing is replaced.
pub proof fn law_merge_appends_new_edges(items: Seq<EdgeV>, src: Seq<EdgeV>, prefer_new: bool)
    requires
        forall|i: int| 0 <= i < items.len() ==> plain_edge(#[trigger] items[i]),
        forall|j: int| 0 <= j < src.len() ==> plain_edge(#[trigger] src[j]),
        forall|i: int, j: int|
            0 <= i < items.len() && 0 <= j < src.len() ==> !same_triple(
                #[trigger] items[i],
                #[trigger] src[j],
            ),
        forall|j: int, k: int|
            0 <= j < k < src.len() ==> !same_triple(#[trigger] src[j], #[trigger] src[k]),
    ensures
        merge_in::<Edge>(items, src, prefer_new) == (items + src, src.len(), 0nat),
    decreases src.len(),
{
    if src.len() > 0 {
        let pre = src.drop_last();
        let x = src.last();
        assert forall|j: int| 0 <= j < pre.len() implies plain_edge(#[trigger] pre[j]) by {
            assert(pre[j] == src[j]);
        }
        assert forall|i: int, j: int|
            0 <= i < items.len() && 0 <= j < pre.len() implies !same_triple(
            #[trigger] items[i],
            #[trigger] pre[j],
        ) by {
            assert(pre[j] == src[j]);
        }
        assert forall|j: int, k: int| 0 <= j < k < pre.len() implies !same_triple(
            #[trigger] pre[j],
            #[trigger] pre[k],
        ) by {
            assert(pre[j] == src[j]);
            assert(pre[k] == src[k]);
        }
        law_merge_appends_new_edges(items, pre, prefer_new);
        let cur = items + pre;
        assert(plain_edge(src[src.len() - 1]));
        assert forall|i: int| 0 <= i < cur.len() implies Edge::key_of(#[trigger] cur[i]) != Edge::key_of(x) by {
            if i < items.len() {
                assert(cur[i] == items[i]);
                assert(!same_triple(items[i], src[src.len() - 1]));
                law_edge_key_fields(items[i], x);
            } else {
                assert(cur[i] == src[i - items.len()]);
                assert(!same_triple(src[i - items.len()], src[src.len() - 1]));
                assert(plain_edge(src[i - items.len()]));
                law_edge_key_fields(cur[i], x);
            }
        }
        lemma_last_key_none::<Edge>(cur, Edge::key_of(x));
        assert(cur.push(x) =~= items + src);
    }
}

proof fn lemma_last_key_at<T: MergeItem>(items: Seq<T::V>, k: Seq<char>, i: int)
    requires
        0 <= i < items.len(),
        T::key_of(items[i]) == k,
        forall|j: int| i < j < items.len() ==> T::key_of(#[trigger] items[j]) != k,
    ensures
        last_key_index::<T>(items, k) == Some(i),
    decreases items.len(),
{
    if i < items.len() - 1 {
        assert(T::key_of(items[items.len() - 1]) != k);
        let pre = items.drop_last();
        assert(pre[i] == items[i]);
        assert forall|j: int| i < j < pre.len() implies T::key_of(#[trigger] pre[j]) != k by {
            assert(pre[j] == items[j]);
        }
        lemma_last_key_at::<T>(pre, k, i);
    }
}

/// Nodes are matched in a merge by id: an incoming node whose id no node has
/// is appended; one whose id the graph holds replaces the last node with
/// that id when the new side is preferred, and leaves the nodes as they were
/// otherwise.
pub proof fn law_merge_node_by_id(items: Seq<NodeV>, x: NodeV, prefer_new: bool)
    ensures
        (forall|i: int| 0 <= i < items.len() ==> (#[trigger] items[i]).id != x.id) ==> merge_in::<Node>(
            items,
            seq![x],
            prefer_new,
        ) == (items.push(x), 1nat, 0nat),
        forall|i: int|
            0 <= i < items.len() && (#[trigger] items[i]).id == x.id && (forall|j: int|
                i < j < items.len() ==> (#[trigger] items[j]).id != x.id) ==> merge_in::<Node>(
                items,
                seq![x],
                prefer_new,
            ) == if prefer_new {
                (items.update(i, x), 0nat, 1nat)
            } else {
                (items, 0nat, 0nat)
            },
{
    assert(seq![x].drop_last() =~= Seq::<NodeV>::empty());
    assert(seq![x].last() == x);
    assert(merge_in::<Node>(items, Seq::<NodeV>::empty(), prefer_new) == (items, 0nat, 0nat));
    assert(merge_in::<Node>(items, seq![x].drop_last(), prefer_new) == (items, 0nat, 0nat));
    assert(Node::key_of(x) == x.id);
    if forall|i: int| 0 <= i < items.len() ==> (#[trigger] items[i]).id != x.id {
        lemma_last_key_none::<Node>(items, x.id);
    }
    assert forall|i: int|
        0 <= i < items.len() && (#[trigger] items[i]).id == x.id && (forall|j: int|
            i < j < items.len() ==> (#[trigger] items[j]).id != x.id) implies merge_in::<Node>(
        items,
        seq![x],
        prefer_new,
    ) == if prefer_new {
        (items.update(i, x), 0nat, 1nat)
    } else {
        (items, 0nat, 0nat)
    } by {
        lemma_last_key_at::<Node>(items, x.id, i);
    }
}

/// Notes are matched in a merge by id: an incoming note whose id no note has
/// is appended; one whose id the graph holds replaces the last note with
/// that id when the new side is preferred, and leaves the notes as they were
/// otherwise.
pub proof fn law_merge_note_by_id(items: Seq<NoteV>, x: NoteV, prefer_new: bool)
    ensures
        (forall|i: int| 0 <= i < items.len() ==> (#[trigger] items[i]).id != x.id) ==> merge_in::<Note>(
            items,
            seq![x],
            prefer_new,
        ) == (items.push(x), 1nat, 0nat),
        forall|i: int|
            0 <= i < items.len() && (#[trigger] items[i]).id == x.id && (forall|j: int|
                i < j < items.len() ==> (#[trigger] items[j]).id != x.id) ==> merge_in::<Note>(
                items,
                seq![x],
                prefer_new,
            ) == if prefer_new {
                (items.update(i, x), 0nat, 1nat)
            } else {
                (items, 0nat, 0nat)
            },
{
    assert(seq![x].drop_last() =~= Seq::<NoteV>::empty());
    assert(seq![x].last() == x);
    assert(merge_in::<Note>(items, Seq::<NoteV>::empty(), prefer_new) == (items, 0nat, 0nat));
    assert(merge_in::<Note>(items, seq![x].drop_last(), prefer_new) == (items, 0nat, 0nat));
    assert(Note::key_of(x) == x.id);
    if forall|i: int| 0 <= i < items.len() ==> (#[trigger] items[i]).id != x.id {
        lemma_last_key_none::<Note>(items, x.id);
    }
    assert forall|i: int|
        0 <= i < items.len() && (#[trigger] items[i]).id == x.id && (forall|j: int|
            i < j < items.len() ==> (#[trigger] items[j]).id != x.id) implies merge_in::<Note>(
        items,
        seq![x],
        prefer_new,
    ) == if prefer_new {
        (items.update(i, x), 0nat, 1nat)
    } else {
        (items, 0nat, 0nat)
    } by {
        lemma_last_key_at::<Note>(items, x.id, i);
    }
}

fn last_index_with_key<T: MergeItem>(items: &Vec<T>, key: &Vec<char>) -> (r: Option<usize>)
    ensures
        match r {
            Some(j) => last_key_index::<T>(views(items@), key@) == Some(j as int),
            None => last_key_index::<T>(views(items@), key@) is None,
        },
{
    let ghost iv = views(items@);
    let mut k = items.len();
    assert(iv.take(k as int) =~= iv);
    while k > 0
        invariant
            k <= items.len(),
            iv == views(items@),
            last_key_index::<T>(iv, key@) == last_key_index::<T>(iv.take(k as int), key@),
        decreases k,
    {
        let ik = items[k - 1].merge_key();
        proof {
            assert(iv.take(k as int).last() == items@[k - 1]@);
            assert(iv.take(k as int).drop_last() =~= iv.take(k - 1));
        }
        if chars_eq(ik.as_slice(), key.as_slice()) {
            return Some(k - 1);
        }
        k -= 1;
    }
    None
}

/// Merges `src` into `items`; gives how many items were appended and how
/// many replaced.
pub fn merge_list<T: MergeItem>(items: &mut Vec<T>, src: &Vec<T>, prefer_new: bool) -> (r: (usize, usize))
    ensures
        views(final(items)@) == merge_in::<T>(views(old(items)@), views(src@), prefer_new).0,
        r.0 as nat == merge_in::<T>(views(old(items)@), views(src@), prefer_new).1,
        r.1 as nat == merge_in::<T>(views(old(items)@), views(src@), prefer_new).2,
{
    let ghost start = views(items@);
    let ghost sv = views(src@);
    let mut added: usize = 0;
    let mut updated: usize = 0;
    let mut i: usize = 0;
    while i < src.len()
        invariant
            i <= src.len(),
            sv == views(src@),
            (views(items@), added as nat, updated as nat) == merge_in::<T>(
                start,
                sv.take(i as int),
                prefer_new,
            ),
        decreases src.len() - i,
    {
        proof {
            assert(sv.take(i + 1).drop_last() =~= sv.take(i as int));
            assert(sv.take(i + 1).last() == src@[i as int]@);
            lemma_merge_counts::<T>(start, sv.take(i as int), prefer_new);
            lemma_last_key_index::<T>(views(items@), T::key_of(src@[i as int]@));
        }
        let ghost x = src@[i as int]@;
        let ghost prev = merge_in::<T>(start, sv.take(i as int), prefer_new);
        let ghost next = merge_in::<T>(start, sv.take(i + 1), prefer_new);
        proof {
            assert(next == match last_key_index::<T>(prev.0, T::key_of(x)) {
                Some(j) => if prefer_new {
                    (prev.0.update(j, x), prev.1, prev.2 + 1)
                } else {
                    prev
                },
                None => (prev.0.push(x), prev.1 + 1, prev.2),
            });
        }
        let key = src[i].merge_key();
        match last_index_with_key(items, &key) {
            Some(idx) => {
                if prefer_new {
                    let ghost before = views(items@);
                    let item = src[i].duplicate();
                    items.set(idx, item);
                    proof {
                        assert(views(items@) =~= before.update(idx as int, src@[i as int]@));
                    }
                    updated += 1;
                }
            },
            None => {
                let ghost before = views(items@);
                let item = src[i].duplicate();
                items.push(item);
                proof {
                    assert(views(items@) =~= before.push(src@[i as int]@));
                }
                added += 1;
            },
        }
        proof {
            assert((views(items@), added as nat, updated as nat) == next);
        }
        i += 1;
    }
    proof {
        assert(sv.take(i as int) =~= sv);
    }
    (added, updated)
}

/// What a merge changed.
pub struct MergeCounts {
    pub nodes_added: usize,
    pub nodes_updated: usize,
    pub edges_added: usize,
    pub edges_updated: usize,
    pub notes_added: usize,
    pub notes_updated: usize,
}

/// The graph `source` merged into `target`: nodes by id, edges by source,
/// relation and target, notes by id.
pub open spec fn merge_graph_spec(target: GraphV, source: GraphV, prefer_new: bool) -> GraphV {
    GraphV {
        nodes: merge_in::<Node>(target.nodes, source.nodes, prefer_new).0,
        edges: merge_in::<Edge>(target.edges, source.edges, prefer_new).0,
        notes: merge_in::<Note>(target.notes, source.notes, prefer_new).0,
        ..target
    }
}

/// Merges the nodes, edges and notes of `source` into `target`.
pub fn merge_graph_contents(target: &mut GraphFile, source: &GraphFile, strategy: &MergeStrategy) -> (r: MergeCounts)
    ensures
        final(target)@ == merge_graph_spec(old(target)@, source@, strategy is PreferNew),
        r.nodes_added as nat == merge_in::<Node>(old(target)@.nodes, source@.nodes, strategy is PreferNew).1,
        r.nodes_updated as nat == merge_in::<Node>(old(target)@.nodes, source@.nodes, strategy is PreferNew).2,
        r.edges_added as nat == merge_in::<Edge>(old(target)@.edges, source@.edges, strategy is PreferNew).1,
        r.edges_updated as nat == merge_in::<Edge>(old(target)@.edges, source@.edges, strategy is PreferNew).2,
        r.notes_added as nat == merge_in::<Note>(old(target)@.notes, source@.notes, strategy is PreferNew).1,
        r.notes_updated as nat == merge_in::<Note>(old(target)@.notes, source@.notes, strategy is PreferNew).2,
{
    let prefer_new = match strategy {
        MergeStrategy::PreferNew => true,
        MergeStrategy::PreferOld => false,
    };
    let (na, nu) = merge_list(&mut target.nodes, &source.nodes, prefer_new);
    let (ea, eu) = merge_list(&mut target.edges, &source.edges, prefer_new);
    let (oa, ou) = merge_list(&mut target.notes, &source.notes, prefer_new);
    proof {
        assert(target@ =~= merge_graph_spec(old(target)@, source@, prefer_new));
    }
    MergeCounts {
        nodes_added: na,
        nodes_updated: nu,
        edges_added: ea,
        edges_updated: eu,
        notes_added: oa,
        notes_updated: ou,
    }
}

/// `+a ~u`: added and updated counts.
pub open spec fn counts_text(added: nat, updated: nat) -> Seq<char> {
    "+"@ + decimal(added) + " ~"@ + decimal(updated)
}

/// The report of a merge.
pub open spec fn merge_report_spec(source: Seq<char>, target: Seq<char>, c: MergeCounts) -> Seq<char> {
    "+ merged "@ + source + " -> "@ + target + "\nnodes: "@ + counts_text(
        c.nodes_added as nat,
        c.nodes_updated as nat,
    ) + "\nedges: "@ + counts_text(c.edges_added as nat, c.edges_updated as nat) + "\nnotes: "@
        + counts_text(c.notes_added as nat, c.notes_updated as nat) + "\n"@
}

fn append_counts(out: &mut Vec<char>, added: usize, updated: usize)
    ensures
        final(out)@ == old(out)@ + counts_text(added as nat, updated as nat),
{
    append_str(out, "+");
    let a = decimal_usize(added);
    append_chars(out, a.as_slice());
    append_str(out, " ~");
    let u = decimal_usize(updated);
    append_chars(out, u.as_slice());
    proof {
        assert(final(out)@ =~= old(out)@ + counts_text(added as nat, updated as nat));
    }
}

/// The report of a merge of graph `source` into graph `target`.
pub fn merge_report(source: &str, target: &str, counts: &MergeCounts) -> (r: String)
    ensures
        r@ == merge_report_spec(source@, target@, *counts),
{
    let mut out: Vec<char> = Vec::new();
    append_str(&mut out, "+ merged ");
    append_str(&mut out, source);
    append_str(&mut out, " -> ");
    append_str(&mut out, target);
    append_str(&mut out, "\nnodes: ");
    append_counts(&mut out, counts.nodes_added, counts.nodes_updated);
    append_str(&mut out, "\nedges: ");
    append_counts(&mut out, counts.edges_added, counts.edges_updated);
    append_str(&mut out, "\nnotes: ");
    append_counts(&mut out, counts.notes_added, counts.notes_updated);
    append_str(&mut out, "\n");
    proof {
        assert(out@ =~= merge_report_spec(source@, target@, *counts));
    }
    string_of(out.as_slice())
}

/// The name of a strategy as the event log records it.
pub open spec fn strategy_name(s: MergeStrategy) -> Seq<char> {
    match s {
        MergeStrategy::PreferNew => "PreferNew"@,
        MergeStrategy::PreferOld => "PreferOld"@,
    }
}

/// The event-log detail of a merge: `source -> target (Strategy)`.
pub fn merge_detail(source: &str, target: &str, strategy: &MergeStrategy) -> (r: String)
    ensures
        r@ == source@ + " -> "@ + target@ + " ("@ + strategy_name(*strategy) + ")"@,
{
    let mut out: Vec<char> = Vec::new();
    append_str(&mut out, source);
    append_str(&mut out, " -> ");
    append_str(&mut out, target);
    append_str(&mut out, " (");
    match strategy {
        MergeStrategy::PreferNew => append_str(&mut out, "PreferNew"),
        MergeStrategy::PreferOld => append_str(&mut out, "PreferOld"),
    }
    append_str(&mut out, ")");
    proof {
        assert(out@ =~= source@ + " -> "@ + target@ + " ("@ + strategy_name(*strategy) + ")"@);
    }
    string_of(out.as_slice())
}

} // verus!
