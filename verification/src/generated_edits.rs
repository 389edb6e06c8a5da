//! Edits of the generated part of a graph (the nodes and edges that
//! mirror a source tree): linking generated nodes without duplicating
//! edges, renaming a generated node, and dropping stale ones.
use vstd::prelude::*;
use crate::auto_update::{canonical_generated_relation, canonical_relation_spec, AutoUpdateSummary};
use crate::graph::{copy_string, Edge, EdgeProperties, EdgeV, GraphFile, Node, Note, NodeV, NoteV};
use crate::kql::contains_string;
use crate::sorting::views;
use crate::text::{append_str, str_eq, string_of};

verus! {

broadcast use vstd::string::group_string_axioms;

/// A generated edge's key: source, target and relation.
pub type EdgeKey = (Seq<char>, Seq<char>, Seq<char>);

/// The position of the first edge under each key, as far as it has been
/// recorded.
pub struct GeneratedEdgeIndex {
    keys: Vec<(String, String, String)>,
    positions: Vec<usize>,
}

/// The map the entries stand for; the first entry for a key wins.
pub open spec fn index_map(keys: Seq<EdgeKey>, pos: Seq<usize>) -> Map<EdgeKey, usize>
    decreases keys.len(),
{
    if keys.len() == 0 || pos.len() == 0 {
        Map::empty()
    } else {
        let m = index_map(keys.drop_last(), pos.drop_last());
        if m.contains_key(keys.last()) {
            m
        } else {
            m.insert(keys.last(), pos.last())
        }
    }
}

/// The view of the keys.
pub open spec fn keys_view(k: Seq<(String, String, String)>) -> Seq<EdgeKey> {
    k.map_values(|x: (String, String, String)| (x.0@, x.1@, x.2@))
}

impl View for GeneratedEdgeIndex {
    type V = Map<EdgeKey, usize>;

    closed spec fn view(&self) -> Map<EdgeKey, usize> {
        index_map(keys_view(self.keys@), self.positions@)
    }
}

/// The key of an edge in the index: its relation in the current spelling.
pub open spec fn edge_index_key(e: EdgeV) -> EdgeKey {
    (e.source_id, e.target_id, canonical_relation_spec(e.relation))
}

/// The index of the edges: each key mapped to its first edge.
pub open spec fn edges_index(es: Seq<EdgeV>) -> Map<EdgeKey, usize>
    decreases es.len(),
{
    if es.len() == 0 {
        Map::empty()
    } else {
        let m = edges_index(es.drop_last());
        if m.contains_key(edge_index_key(es.last())) {
            m
        } else {
            m.insert(edge_index_key(es.last()), (es.len() - 1) as usize)
        }
    }
}

proof fn lemma_index_absent(keys: Seq<EdgeKey>, pos: Seq<usize>, k: EdgeKey)
    requires
        keys.len() == pos.len(),
        forall|j: int| 0 <= j < keys.len() ==> keys[j] != k,
    ensures
        !index_map(keys, pos).contains_key(k),
    decreases keys.len(),
{
    if keys.len() > 0 {
        lemma_index_absent(keys.drop_last(), pos.drop_last(), k);
    }
}

proof fn lemma_index_first(keys: Seq<EdgeKey>, pos: Seq<usize>, i: int)
    requires
        keys.len() == pos.len(),
        0 <= i < keys.len(),
        forall|j: int| 0 <= j < i ==> keys[j] != keys[i],
    ensures
        index_map(keys, pos).contains_key(keys[i]),
        index_map(keys, pos)[keys[i]] == pos[i],
    decreases keys.len(),
{
    if i < keys.len() - 1 {
        lemma_index_first(keys.drop_last(), pos.drop_last(), i);
    } else {
        lemma_index_absent(keys.drop_last(), pos.drop_last(), keys[i]);
    }
}

impl GeneratedEdgeIndex {
    /// Whether the two columns have the same length.
    pub closed spec fn wf(&self) -> bool {
        self.keys.len() == self.positions.len()
    }

    fn first_pos(&self, s: &String, t: &String, r: &String) -> (res: Option<usize>)
        requires
            self.wf(),
        ensures
            match res {
                Some(i) => i < self.keys.len() && keys_view(self.keys@)[i as int] == (s@, t@, r@)
                    && forall|j: int| 0 <= j < i ==> keys_view(self.keys@)[j] != (s@, t@, r@),
                None => forall|j: int| 0 <= j < self.keys.len() ==> keys_view(self.keys@)[j] != (s@, t@, r@),
            },
    {
        let mut i: usize = 0;
        while i < self.keys.len()
            invariant
                i <= self.keys.len(),
                forall|j: int| 0 <= j < i ==> keys_view(self.keys@)[j] != (s@, t@, r@),
            decreases self.keys.len() - i,
        {
            let k = &self.keys[i];
            if str_eq(k.0.as_str(), s.as_str()) && str_eq(k.1.as_str(), t.as_str()) && str_eq(
                k.2.as_str(),
                r.as_str(),
            ) {
                return Some(i);
            }
            i += 1;
        }
        None
    }

    /// The recorded position of an edge key.
    pub fn lookup(&self, source_id: &String, target_id: &String, relation: &String) -> (r: Option<usize>)
        requires
            self.wf(),
        ensures
            r == self@.get((source_id@, target_id@, relation@)),
    {
        match self.first_pos(source_id, target_id, relation) {
            Some(i) => {
                proof {
                    lemma_index_first(keys_view(self.keys@), self.positions@, i as int);
                }
                Some(self.positions[i])
            },
            None => {
                proof {
                    lemma_index_absent(keys_view(self.keys@), self.positions@, (source_id@, target_id@, relation@));
                }
                None
            },
        }
    }

    /// Records a position for a key that has none yet; a recorded key keeps
    /// its position.
    pub fn insert(&mut self, source_id: &String, target_id: &String, relation: &String, edge_index: usize)
        requires
            old(self).wf(),
        ensures
            final(self).wf(),
            final(self)@ == if old(self)@.contains_key((source_id@, target_id@, relation@)) {
                old(self)@
            } else {
                old(self)@.insert((source_id@, target_id@, relation@), edge_index)
            },
    {
        let ghost kv = keys_view(self.keys@);
        let ghost pv = self.positions@;
        self.keys.push((copy_string(source_id), copy_string(target_id), copy_string(relation)));
        self.positions.push(edge_index);
        proof {
            assert(keys_view(self.keys@).drop_last() =~= kv);
            assert(self.positions@.drop_last() =~= pv);
        }
    }

    /// The index of a graph's edges: each key (relation in the current
    /// spelling) mapped to its first edge.
    pub fn from_graph(graph: &GraphFile) -> (r: GeneratedEdgeIndex)
        ensures
            r.wf(),
            r@ == edges_index(views(graph.edges@)),
    {
        let ghost es = views(graph.edges@);
        let mut r = GeneratedEdgeIndex { keys: Vec::new(), positions: Vec::new() };
        proof {
            assert(keys_view(r.keys@) =~= Seq::<EdgeKey>::empty());
            assert(es.take(0) =~= Seq::<EdgeV>::empty());
        }
        let mut i: usize = 0;
        while i < graph.edges.len()
            invariant
                i <= graph.edges.len(),
                es == views(graph.edges@),
                r.wf(),
                r@ == edges_index(es.take(i as int)),
            decreases graph.edges.len() - i,
        {
            let e = &graph.edges[i];
            let rel = canonical_generated_relation(e.relation.as_str());
            proof {
                assert(es.take(i + 1).drop_last() =~= es.take(i as int));
                assert(es.take(i + 1).last() == e@);
            }
            r.insert(&e.source_id, &e.target_id, &rel, i);
            i += 1;
        }
        assert(es.take(graph.edges.len() as int) =~= es);
        r
    }
}

/// Whether an edge between `s` and `t` counts as the generated edge of
/// relation `rel` (older spellings included).
pub open spec fn same_generated(e: EdgeV, s: Seq<char>, t: Seq<char>, rel: Seq<char>) -> bool {
    &&& e.source_id == s
    &&& e.target_id == t
    &&& if rel == "GHAS"@ {
        e.relation == rel || e.relation == "HAS"@
    } else if rel == "GDEF"@ {
        e.relation == rel || e.relation == "GDEFINES"@
    } else {
        e.relation == rel
    }
}

/// The first edge that counts as the generated edge.
pub open spec fn first_generated(es: Seq<EdgeV>, s: Seq<char>, t: Seq<char>, rel: Seq<char>) -> Option<int> {
    if exists|i: int| 0 <= i < es.len() && same_generated(es[i], s, t, rel) {
        Some(choose|i: int| 0 <= i < es.len() && same_generated(es[i], s, t, rel) && forall|j: int| 0 <= j < i ==> !same_generated(#[trigger] es[j], s, t, rel))
    } else {
        None
    }
}

/// Whether every recorded position is an edge of the graph.
pub open spec fn index_fits(m: Map<EdgeKey, usize>, n: nat) -> bool {
    forall|k: EdgeKey| #[trigger] m.contains_key(k) ==> m[k] < n
}

/// A new generated edge.
pub open spec fn new_generated_edge(s: Seq<char>, t: Seq<char>, rel: Seq<char>) -> EdgeV {
    EdgeV { source_id: s, relation: rel, target_id: t, props: crate::graph::default_edge_props() }
}

/// The edges, the index and the count of changed edges after making sure
/// the generated edge `s -> t` of relation `relation` exists: an edge the
/// index records is given the current spelling; else the first matching
/// edge is, and recorded; else a new edge is added and recorded.
pub open spec fn ensure_edge_spec(es: Seq<EdgeV>, m: Map<EdgeKey, usize>, s: Seq<char>, t: Seq<char>, relation: Seq<char>) -> (Seq<EdgeV>, Map<EdgeKey, usize>, nat) {
    let rel = canonical_relation_spec(relation);
    let key = (s, t, rel);
    if m.contains_key(key) {
        let p = m[key] as int;
        if es[p].relation != rel {
            (es.update(p, EdgeV { relation: rel, ..es[p] }), m, 1)
        } else {
            (es, m, 0)
        }
    } else {
        match first_generated(es, s, t, rel) {
            Some(p) => if es[p].relation != rel {
                (es.update(p, EdgeV { relation: rel, ..es[p] }), m.insert(key, p as usize), 1)
            } else {
                (es, m.insert(key, p as usize), 0)
            },
            None => (es.push(new_generated_edge(s, t, rel)), m.insert(key, es.len() as usize), 1),
        }
    }
}

fn is_generated_match(e: &Edge, source_id: &String, target_id: &String, rel: &String) -> (r: bool)
    ensures
        r == same_generated(e@, source_id@, target_id@, rel@),
{
    let relation_ok = if str_eq(rel.as_str(), "GHAS") {
        str_eq(e.relation.as_str(), rel.as_str()) || str_eq(e.relation.as_str(), "HAS")
    } else if str_eq(rel.as_str(), "GDEF") {
        str_eq(e.relation.as_str(), rel.as_str()) || str_eq(e.relation.as_str(), "GDEFINES")
    } else {
        str_eq(e.relation.as_str(), rel.as_str())
    };
    str_eq(e.source_id.as_str(), source_id.as_str()) && str_eq(e.target_id.as_str(), target_id.as_str())
        && relation_ok
}

fn find_generated(edges: &Vec<Edge>, source_id: &String, target_id: &String, rel: &String) -> (r: Option<usize>)
    ensures
        match r {
            Some(p) => p < edges.len() && first_generated(views(edges@), source_id@, target_id@, rel@) == Some(p as int),
            None => first_generated(views(edges@), source_id@, target_id@, rel@) is None,
        },
{
    let ghost es = views(edges@);
    let mut i: usize = 0;
    while i < edges.len()
        invariant
            i <= edges.len(),
            es == views(edges@),
            forall|j: int| 0 <= j < i ==> !same_generated(#[trigger] es[j], source_id@, target_id@, rel@),
        decreases edges.len() - i,
    {
        if is_generated_match(&edges[i], source_id, target_id, rel) {
            proof {
                assert(same_generated(es[i as int], source_id@, target_id@, rel@));
                let k = choose|k: int| 0 <= k < es.len() && same_generated(es[k], source_id@, target_id@, rel@) && forall|j: int| 0 <= j < k ==> !same_generated(#[trigger] es[j], source_id@, target_id@, rel@);
                if k < i as int {
                    assert(!same_generated(es[k], source_id@, target_id@, rel@));
                } else if (i as int) < k {
                    assert(!same_generated(es[i as int], source_id@, target_id@, rel@));
                }
            }
            return Some(i);
        }
        i += 1;
    }
    proof {
        if exists|k: int| 0 <= k < es.len() && same_generated(es[k], source_id@, target_id@, rel@) {
            let k = choose|k: int| 0 <= k < es.len() && same_generated(es[k], source_id@, target_id@, rel@);
            assert(!same_generated(es[k], source_id@, target_id@, rel@));
        }
    }
    None
}

/// Gives the edge at `p` the relation `rel`; whether it changed.
fn respell_edge(edges: &mut Vec<Edge>, p: usize, rel: &String) -> (changed: bool)
    requires
        p < old(edges).len(),
    ensures
        final(edges).len() == old(edges).len(),
        changed == (views(old(edges)@)[p as int].relation != rel@),
        views(final(edges)@) == if changed {
            views(old(edges)@).update(p as int, EdgeV { relation: rel@, ..views(old(edges)@)[p as int] })
        } else {
            views(old(edges)@)
        },
{
    let ghost es0 = views(edges@);
    if str_eq(edges[p].relation.as_str(), rel.as_str()) {
        false
    } else {
        let mut e = edges[p].copy();
        e.relation = copy_string(rel);
        edges.set(p, e);
        assert(views(edges@) =~= es0.update(p as int, EdgeV { relation: rel@, ..es0[p as int] }));
        true
    }
}

/// Makes sure the generated edge `source -> target` of `relation` exists
/// exactly once as far as the index knows, counting an added or respelled
/// edge.
pub fn ensure_generated_edge(
    graph: &mut GraphFile,
    source_id: &String,
    target_id: &String,
    relation: &str,
    edge_index: &mut GeneratedEdgeIndex,
    summary: &mut AutoUpdateSummary,
)
    requires
        old(edge_index).wf(),
        index_fits(old(edge_index)@, old(graph).edges.len() as nat),
        old(graph).edges.len() < usize::MAX,
        old(summary).edges_added < usize::MAX,
    ensures
        final(edge_index).wf(),
        index_fits(final(edge_index)@, final(graph).edges.len() as nat),
        ({
            let (es, m, added) = ensure_edge_spec(
                views(old(graph).edges@),
                old(edge_index)@,
                source_id@,
                target_id@,
                relation@,
            );
            &&& views(final(graph).edges@) == es
            &&& final(edge_index)@ == m
            &&& final(summary).edges_added == old(summary).edges_added + added
        }),
        final(graph).nodes@ == old(graph).nodes@,
        final(graph).notes@ == old(graph).notes@,
        final(graph).metadata == old(graph).metadata,
        final(summary).nodes_added == old(summary).nodes_added,
        final(summary).nodes_updated == old(summary).nodes_updated,
        final(summary).nodes_removed == old(summary).nodes_removed,
        final(summary).edges_removed == old(summary).edges_removed,
        final(summary).edges_updated == old(summary).edges_updated,
        final(summary).notes_removed == old(summary).notes_removed,
        final(summary).roots_updated == old(summary).roots_updated,
{
    let ghost es0 = views(graph.edges@);
    let ghost m0 = edge_index@;
    let rel = canonical_generated_relation(relation);
    let ghost key = (source_id@, target_id@, rel@);
    match edge_index.lookup(source_id, target_id, &rel) {
        Some(pos) => {
            proof {
                assert(m0.contains_key(key));
            }
            if respell_edge(&mut graph.edges, pos, &rel) {
                summary.edges_added += 1;
            }
            return;
        },
        None => {},
    }
    match find_generated(&graph.edges, source_id, target_id, &rel) {
        Some(p) => {
            if respell_edge(&mut graph.edges, p, &rel) {
                summary.edges_added += 1;
            }
            edge_index.insert(source_id, target_id, &rel, p);
            proof {
                assert forall|k: EdgeKey| #[trigger] edge_index@.contains_key(k) implies edge_index@[k] < graph.edges.len() by {
                    if k != key {
                        assert(m0.contains_key(k));
                    }
                }
            }
        },
        None => {
            let e = Edge {
                source_id: copy_string(source_id),
                relation: copy_string(&rel),
                target_id: copy_string(target_id),
                properties: EdgeProperties::new_default(),
            };
            graph.edges.push(e);
            assert(views(graph.edges@) =~= es0.push(new_generated_edge(source_id@, target_id@, rel@)));
            edge_index.insert(source_id, target_id, &rel, graph.edges.len() - 1);
            summary.edges_added += 1;
            proof {
                assert forall|k: EdgeKey| #[trigger] edge_index@.contains_key(k) implies edge_index@[k] < graph.edges.len() by {
                    if k != key {
                        assert(m0.contains_key(k));
                    }
                }
            }
        },
    }
}

/// The first node with the given id.
pub open spec fn first_node(ns: Seq<NodeV>, id: Seq<char>) -> Option<int> {
    if exists|i: int| 0 <= i < ns.len() && ns[i].id == id {
        Some(choose|i: int| 0 <= i < ns.len() && ns[i].id == id && forall|j: int| 0 <= j < i ==> #[trigger] ns[j].id != id)
    } else {
        None
    }
}

/// An id after the rename of `from` to `to`.
pub open spec fn renamed(x: Seq<char>, from: Seq<char>, to: Seq<char>) -> Seq<char> {
    if x == from { to } else { x }
}

/// An edge after the rename: each endpoint that was `from` becomes `to`.
pub open spec fn rename_edge(e: EdgeV, from: Seq<char>, to: Seq<char>) -> EdgeV {
    EdgeV { source_id: renamed(e.source_id, from, to), target_id: renamed(e.target_id, from, to), ..e }
}

/// A note after the rename.
pub open spec fn rename_note(n: NoteV, from: Seq<char>, to: Seq<char>) -> NoteV {
    NoteV { node_id: renamed(n.node_id, from, to), ..n }
}

/// How many edge endpoints are `id`.
pub open spec fn endpoint_count(es: Seq<EdgeV>, id: Seq<char>) -> nat
    decreases es.len(),
{
    if es.len() == 0 {
        0
    } else {
        endpoint_count(es.drop_last(), id) + (if es.last().source_id == id { 1nat } else { 0nat }) + (
        if es.last().target_id == id { 1nat } else { 0nat })
    }
}

pub(crate) proof fn lemma_endpoint_count_bound(es: Seq<EdgeV>, id: Seq<char>)
    ensures
        endpoint_count(es, id) <= 2 * es.len(),
    decreases es.len(),
{
    if es.len() > 0 {
        lemma_endpoint_count_bound(es.drop_last(), id);
    }
}

/// Why a rename of a generated node was refused.
#[derive(Debug, PartialEq, Eq)]
pub enum RenameError {
    /// A node already has the new id.
    TargetExists(String),
    /// No node has the old id.
    NotFound(String),
}

impl RenameError {
    /// The message shown for the error.
    pub fn message(&self) -> (r: String)
        ensures
            r@ == match self {
                RenameError::TargetExists(id) => "generated node id already exists: "@ + id@,
                RenameError::NotFound(id) => "generated node not found for rename: "@ + id@,
            },
    {
        let mut out: Vec<char> = Vec::new();
        match self {
            RenameError::TargetExists(id) => {
                append_str(&mut out, "generated node id already exists: ");
                append_str(&mut out, id.as_str());
            },
            RenameError::NotFound(id) => {
                append_str(&mut out, "generated node not found for rename: ");
                append_str(&mut out, id.as_str());
            },
        }
        string_of(out.as_slice())
    }
}

fn rename_in_edges(edges: &mut Vec<Edge>, old_id: &String, new_id: &String, count: &mut usize)
    requires
        *old(count) + 2 * old(edges).len() <= usize::MAX,
    ensures
        views(final(edges)@) == views(old(edges)@).map_values(|e: EdgeV| rename_edge(e, old_id@, new_id@)),
        *final(count) == *old(count) + endpoint_count(views(old(edges)@), old_id@),
{
    let ghost es0 = views(edges@);
    let ghost c0 = *count;
    let mut i: usize = 0;
    assert(es0.take(0) =~= Seq::<EdgeV>::empty());
    while i < edges.len()
        invariant
            i <= edges.len(),
            edges.len() == es0.len(),
            c0 + 2 * es0.len() <= usize::MAX,
            forall|j: int| 0 <= j < i ==> #[trigger] views(edges@)[j] == rename_edge(es0[j], old_id@, new_id@),
            forall|j: int| i <= j < edges.len() ==> #[trigger] views(edges@)[j] == es0[j],
            *count == c0 + endpoint_count(es0.take(i as int), old_id@),
        decreases edges.len() - i,
    {
        proof {
            assert(es0.take(i + 1).drop_last() =~= es0.take(i as int));
            lemma_endpoint_count_bound(es0.take(i as int), old_id@);
        }
        let ghost before = views(edges@);
        let mut e = edges[i].copy();
        assert(views(edges@)[i as int] == es0[i as int]);
        assert(e@ == es0[i as int]);
        if str_eq(e.source_id.as_str(), old_id.as_str()) {
            e.source_id = copy_string(new_id);
            *count += 1;
        }
        if str_eq(e.target_id.as_str(), old_id.as_str()) {
            e.target_id = copy_string(new_id);
            *count += 1;
        }
        edges.set(i, e);
        assert(views(edges@) =~= before.update(i as int, rename_edge(es0[i as int], old_id@, new_id@)));
        i += 1;
    }
    assert(es0.take(es0.len() as int) =~= es0);
    assert(views(edges@) =~= es0.map_values(|e: EdgeV| rename_edge(e, old_id@, new_id@)));
}

fn rename_in_notes(notes: &mut Vec<Note>, old_id: &String, new_id: &String)
    ensures
        views(final(notes)@) == views(old(notes)@).map_values(|n: NoteV| rename_note(n, old_id@, new_id@)),
{
    let ghost ns0 = views(notes@);
    let mut i: usize = 0;
    while i < notes.len()
        invariant
            i <= notes.len(),
            notes.len() == ns0.len(),
            forall|j: int| 0 <= j < i ==> #[trigger] views(notes@)[j] == rename_note(ns0[j], old_id@, new_id@),
            forall|j: int| i <= j < notes.len() ==> #[trigger] views(notes@)[j] == ns0[j],
        decreases notes.len() - i,
    {
        let ghost before = views(notes@);
        let mut n = notes[i].copy();
        assert(views(notes@)[i as int] == ns0[i as int]);
        assert(n@ == ns0[i as int]);
        if str_eq(n.node_id.as_str(), old_id.as_str()) {
            n.node_id = copy_string(new_id);
        }
        notes.set(i, n);
        assert(views(notes@) =~= before.update(i as int, rename_note(ns0[i as int], old_id@, new_id@)));
        i += 1;
    }
    assert(views(notes@) =~= ns0.map_values(|n: NoteV| rename_note(n, old_id@, new_id@)));
}

/// Renames the generated node `old_id` to `new_id`: the first node with
/// the old id takes the new one, and so do the edge endpoints (each one
/// counted as an updated edge) and the notes that referred to it.
/// Nothing changes when the ids are equal; the rename is refused when a
/// node already has the new id, or none has the old one.
pub fn rename_generated_node_id(
    graph: &mut GraphFile,
    old_id: &String,
    new_id: &String,
    summary: &mut AutoUpdateSummary,
) -> (r: Result<(), RenameError>)
    requires
        old(summary).edges_updated + 2 * old(graph).edges.len() <= usize::MAX,
    ensures
        match r {
            Ok(()) => old_id@ == new_id@ ==> *final(graph) == *old(graph) && *final(summary) == *old(summary),
            Err(RenameError::TargetExists(id)) => old_id@ != new_id@ && id@ == new_id@
                && first_node(old(graph)@.nodes, new_id@) is Some,
            Err(RenameError::NotFound(id)) => old_id@ != new_id@ && id@ == old_id@
                && first_node(old(graph)@.nodes, new_id@) is None
                && first_node(old(graph)@.nodes, old_id@) is None,
        },
        r is Err ==> *final(graph) == *old(graph) && *final(summary) == *old(summary),
        (old_id@ != new_id@ && first_node(old(graph)@.nodes, new_id@) is None && first_node(
            old(graph)@.nodes,
            old_id@,
        ) is Some) ==> {
            let p = first_node(old(graph)@.nodes, old_id@)->0;
            &&& r is Ok
            &&& final(graph)@.nodes == old(graph)@.nodes.update(p, NodeV { id: new_id@, ..old(graph)@.nodes[p] })
            &&& final(graph)@.edges == old(graph)@.edges.map_values(|e: EdgeV| rename_edge(e, old_id@, new_id@))
            &&& final(graph)@.notes == old(graph)@.notes.map_values(|n: NoteV| rename_note(n, old_id@, new_id@))
            &&& final(graph)@.metadata == old(graph)@.metadata
            &&& *final(summary) == AutoUpdateSummary {
                edges_updated: (old(summary).edges_updated + endpoint_count(old(graph)@.edges, old_id@)) as usize,
                ..*old(summary)
            }
        },
{
    if str_eq(old_id.as_str(), new_id.as_str()) {
        return Ok(());
    }
    proof {
        lemma_node_lookup(graph@.nodes, new_id@);
        lemma_node_lookup(graph@.nodes, old_id@);
    }
    if let Some(_) = graph.node_by_id(new_id.as_str()) {
        return Err(RenameError::TargetExists(copy_string(new_id)));
    }
    let pos = match graph.node_by_id(old_id.as_str()) {
        Some(p) => p,
        None => {
            return Err(RenameError::NotFound(copy_string(old_id)));
        },
    };
    let ghost g0 = graph@;
    let mut node = graph.nodes[pos].copy();
    node.id = copy_string(new_id);
    graph.nodes.set(pos, node);
    rename_in_edges(&mut graph.edges, old_id, new_id, &mut summary.edges_updated);
    rename_in_notes(&mut graph.notes, old_id, new_id);
    proof {
        assert(graph@.nodes =~= g0.nodes.update(pos as int, NodeV { id: new_id@, ..g0.nodes[pos as int] }));
    }
    Ok(())
}

/// The first node with an id is the one before which no node has it.
pub(crate) proof fn lemma_first_node_at(ns: Seq<NodeV>, id: Seq<char>, p: int)
    requires
        0 <= p < ns.len(),
        ns[p].id == id,
        forall|j: int| 0 <= j < p ==> ns[j].id != id,
    ensures
        first_node(ns, id) == Some(p),
{
    lemma_node_lookup(ns, id);
}

pub(crate) proof fn lemma_node_lookup(ns: Seq<NodeV>, id: Seq<char>)
    ensures
        forall|i: int|
            0 <= i < ns.len() && ns[i].id == id && (forall|j: int| 0 <= j < i ==> ns[j].id != id) ==> first_node(ns, id) == Some(i),
        (forall|j: int| 0 <= j < ns.len() ==> ns[j].id != id) ==> first_node(ns, id) is None,
{
    assert forall|i: int|
        0 <= i < ns.len() && ns[i].id == id && (forall|j: int| 0 <= j < i ==> ns[j].id != id) implies first_node(ns, id) == Some(i) by {
        let k = choose|k: int| 0 <= k < ns.len() && ns[k].id == id && forall|j: int| 0 <= j < k ==> #[trigger] ns[j].id != id;
        if k < i {
            assert(ns[k].id != id);
        } else if i < k {
            assert(ns[i].id != id);
        }
    }
}

/// Whether a node stays when the nodes `stale` are dropped.
pub open spec fn keeps_node(stale: Seq<Seq<char>>, n: NodeV) -> bool {
    !stale.contains(n.id)
}

/// Whether an edge stays: neither endpoint is dropped.
pub open spec fn keeps_edge(stale: Seq<Seq<char>>, e: EdgeV) -> bool {
    !stale.contains(e.source_id) && !stale.contains(e.target_id)
}

/// Whether a note stays: its node is not dropped.
pub open spec fn keeps_note(stale: Seq<Seq<char>>, n: NoteV) -> bool {
    !stale.contains(n.node_id)
}

fn retain_nodes(nodes: &mut Vec<Node>, stale: &Vec<String>)
    ensures
        views(final(nodes)@) == views(old(nodes)@).filter(|n: NodeV| keeps_node(views(stale@), n)),
        final(nodes).len() <= old(nodes).len(),
{
    let ghost pred = |n: NodeV| keeps_node(views(stale@), n);
    let ghost xs = views(nodes@);
    let mut kept: Vec<Node> = Vec::new();
    let mut i: usize = 0;
    assert(xs.take(0) =~= Seq::<NodeV>::empty());
    assert(xs.take(0).filter(pred) =~= Seq::<NodeV>::empty()) by {
        reveal_with_fuel(Seq::<_>::filter, 1);
    }
    while i < nodes.len()
        invariant
            i <= nodes.len(),
            xs == views(nodes@),
            pred == (|n: NodeV| keeps_node(views(stale@), n)),
            views(kept@) == xs.take(i as int).filter(pred),
            kept.len() <= i,
        decreases nodes.len() - i,
    {
        proof {
            reveal_with_fuel(Seq::<_>::filter, 1);
            assert(xs.take(i + 1).drop_last() =~= xs.take(i as int));
            assert(xs.take(i + 1).last() == nodes@[i as int]@);
        }
        if !contains_string(stale, &nodes[i].id) {
            let c = nodes[i].copy();
            let ghost before = views(kept@);
            kept.push(c);
            assert(views(kept@) =~= before.push(c@));
        }
        i += 1;
    }
    assert(xs.take(nodes.len() as int) =~= xs);
    *nodes = kept;
}

fn retain_edges(edges: &mut Vec<Edge>, stale: &Vec<String>)
    ensures
        views(final(edges)@) == views(old(edges)@).filter(|e: EdgeV| keeps_edge(views(stale@), e)),
        final(edges).len() <= old(edges).len(),
{
    let ghost pred = |e: EdgeV| keeps_edge(views(stale@), e);
    let ghost xs = views(edges@);
    let mut kept: Vec<Edge> = Vec::new();
    let mut i: usize = 0;
    assert(xs.take(0) =~= Seq::<EdgeV>::empty());
    assert(xs.take(0).filter(pred) =~= Seq::<EdgeV>::empty()) by {
        reveal_with_fuel(Seq::<_>::filter, 1);
    }
    while i < edges.len()
        invariant
            i <= edges.len(),
            xs == views(edges@),
            pred == (|e: EdgeV| keeps_edge(views(stale@), e)),
            views(kept@) == xs.take(i as int).filter(pred),
            kept.len() <= i,
        decreases edges.len() - i,
    {
        proof {
            reveal_with_fuel(Seq::<_>::filter, 1);
            assert(xs.take(i + 1).drop_last() =~= xs.take(i as int));
            assert(xs.take(i + 1).last() == edges@[i as int]@);
        }
        if !contains_string(stale, &edges[i].source_id) && !contains_string(stale, &edges[i].target_id) {
            let c = edges[i].copy();
            let ghost before = views(kept@);
            kept.push(c);
            assert(views(kept@) =~= before.push(c@));
        }
        i += 1;
    }
    assert(xs.take(edges.len() as int) =~= xs);
    *edges = kept;
}

fn retain_notes(notes: &mut Vec<Note>, stale: &Vec<String>)
    ensures
        views(final(notes)@) == views(old(notes)@).filter(|n: NoteV| keeps_note(views(stale@), n)),
        final(notes).len() <= old(notes).len(),
{
    let ghost pred = |n: NoteV| keeps_note(views(stale@), n);
    let ghost xs = views(notes@);
    let mut kept: Vec<Note> = Vec::new();
    let mut i: usize = 0;
    assert(xs.take(0) =~= Seq::<NoteV>::empty());
    assert(xs.take(0).filter(pred) =~= Seq::<NoteV>::empty()) by {
        reveal_with_fuel(Seq::<_>::filter, 1);
    }
    while i < notes.len()
        invariant
            i <= notes.len(),
            xs == views(notes@),
            pred == (|n: NoteV| keeps_note(views(stale@), n)),
            views(kept@) == xs.take(i as int).filter(pred),
            kept.len() <= i,
        decreases notes.len() - i,
    {
        proof {
            reveal_with_fuel(Seq::<_>::filter, 1);
            assert(xs.take(i + 1).drop_last() =~= xs.take(i as int));
            assert(xs.take(i + 1).last() == notes@[i as int]@);
        }
        if !contains_string(stale, &notes[i].node_id) {
            let c = notes[i].copy();
            let ghost before = views(kept@);
            kept.push(c);
            assert(views(kept@) =~= before.push(c@));
        }
        i += 1;
    }
    assert(xs.take(notes.len() as int) =~= xs);
    *notes = kept;
}

/// Drops the nodes `stale_ids`, their notes and every edge that touches
/// one of them, and records how many notes and edges went and how many
/// ids were dropped. Nothing changes when the list is empty.
pub fn remove_generated_nodes(graph: &mut GraphFile, stale_ids: &Vec<String>, summary: &mut AutoUpdateSummary)
    ensures
        stale_ids.len() == 0 ==> *final(graph) == *old(graph) && *final(summary) == *old(summary),
        stale_ids.len() > 0 ==> {
            let stale = views(stale_ids@);
            &&& final(graph)@.nodes == old(graph)@.nodes.filter(|n: NodeV| keeps_node(stale, n))
            &&& final(graph)@.edges == old(graph)@.edges.filter(|e: EdgeV| keeps_edge(stale, e))
            &&& final(graph)@.notes == old(graph)@.notes.filter(|n: NoteV| keeps_note(stale, n))
            &&& final(graph)@.metadata == old(graph)@.metadata
            &&& *final(summary) == AutoUpdateSummary {
                notes_removed: (old(graph).notes.len() - final(graph).notes.len()) as usize,
                edges_removed: (old(graph).edges.len() - final(graph).edges.len()) as usize,
                nodes_removed: stale_ids.len(),
                ..*old(summary)
            }
        },
{
    if stale_ids.len() == 0 {
        return;
    }
    let notes_before = graph.notes.len();
    retain_notes(&mut graph.notes, stale_ids);
    summary.notes_removed = notes_before - graph.notes.len();
    let edges_before = graph.edges.len();
    retain_nodes(&mut graph.nodes, stale_ids);
    retain_edges(&mut graph.edges, stale_ids);
    summary.edges_removed = edges_before - graph.edges.len();
    summary.nodes_removed = stale_ids.len();
}

} // verus!
