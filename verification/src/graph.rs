//! The knowledge-graph data model and its basic queries.
//!
//! Numeric properties that the format stores as floating-point numbers
//! (importance, confidence, feedback and score values) are held as their
//! decimal text, which is what the `.kg` format reads and writes.
use vstd::prelude::*;
use crate::sorting::{KeyOrder, views};
use crate::text::{chars_of, lex_order, lex_order_chars, string_of, append_str};

verus! {

broadcast use vstd::string::group_string_axioms;

// ---------------------------------------------------------------------------
// Executable model
// ---------------------------------------------------------------------------

/// Graph-level metadata.
#[derive(Debug)]
pub struct Metadata {
    pub name: String,
    pub version: String,
    pub description: String,
    pub node_count: usize,
    pub edge_count: usize,
}

/// Properties of a node.
#[derive(Debug)]
pub struct NodeProperties {
    pub description: String,
    pub domain_area: String,
    pub provenance: String,
    /// Decimal text of the confidence, when present.
    pub confidence: Option<String>,
    pub created_at: String,
    /// Decimal text of the importance (default `0.5`).
    pub importance: String,
    pub key_facts: Vec<String>,
    pub alias: Vec<String>,
    pub valid_from: String,
    pub valid_to: String,
    /// Decimal text of the feedback score (default `0`).
    pub feedback_score: String,
    pub feedback_count: u64,
    pub feedback_last_ts_ms: Option<u64>,
}

/// A node of the graph.
#[derive(Debug)]
pub struct Node {
    pub id: String,
    pub node_type: String,
    pub name: String,
    pub properties: NodeProperties,
    pub source_files: Vec<String>,
}

/// Properties of an edge.
#[derive(Debug)]
pub struct EdgeProperties {
    pub detail: String,
    pub valid_from: String,
    pub valid_to: String,
    /// Decimal text of the feedback score (default `0`).
    pub feedback_score: String,
    pub feedback_count: u64,
    pub feedback_last_ts_ms: Option<u64>,
    pub bidirectional: bool,
    /// Score components as (label, decimal text), sorted by label, labels unique.
    pub score_components: Vec<(String, String)>,
}

/// A directed (or, for similarity, bidirectional) edge.
#[derive(Debug)]
pub struct Edge {
    pub source_id: String,
    pub relation: String,
    pub target_id: String,
    pub properties: EdgeProperties,
}

/// A note attached to a node.
#[derive(Debug)]
pub struct Note {
    pub id: String,
    pub node_id: String,
    pub body: String,
    pub tags: Vec<String>,
    pub author: String,
    pub created_at: String,
    pub provenance: String,
    pub source_files: Vec<String>,
}

/// A whole graph.
#[derive(Debug)]
pub struct GraphFile {
    pub metadata: Metadata,
    pub nodes: Vec<Node>,
    pub edges: Vec<Edge>,
    pub notes: Vec<Note>,
}

// ---------------------------------------------------------------------------
// Mathematical model
// ---------------------------------------------------------------------------

#[verifier::ext_equal]
pub struct MetadataV {
    pub name: Seq<char>,
    pub version: Seq<char>,
    pub description: Seq<char>,
    pub node_count: nat,
    pub edge_count: nat,
}

#[verifier::ext_equal]
pub struct NodePropsV {
    pub description: Seq<char>,
    pub domain_area: Seq<char>,
    pub provenance: Seq<char>,
    pub confidence: Option<Seq<char>>,
    pub created_at: Seq<char>,
    pub importance: Seq<char>,
    pub key_facts: Seq<Seq<char>>,
    pub alias: Seq<Seq<char>>,
    pub valid_from: Seq<char>,
    pub valid_to: Seq<char>,
    pub feedback_score: Seq<char>,
    pub feedback_count: u64,
    pub feedback_last_ts_ms: Option<u64>,
}

#[verifier::ext_equal]
pub struct NodeV {
    pub id: Seq<char>,
    pub node_type: Seq<char>,
    pub name: Seq<char>,
    pub props: NodePropsV,
    pub source_files: Seq<Seq<char>>,
}

#[verifier::ext_equal]
pub struct EdgePropsV {
    pub detail: Seq<char>,
    pub valid_from: Seq<char>,
    pub valid_to: Seq<char>,
    pub feedback_score: Seq<char>,
    pub feedback_count: u64,
    pub feedback_last_ts_ms: Option<u64>,
    pub bidirectional: bool,
    pub score_components: Seq<(Seq<char>, Seq<char>)>,
}

#[verifier::ext_equal]
pub struct EdgeV {
    pub source_id: Seq<char>,
    pub relation: Seq<char>,
    pub target_id: Seq<char>,
    pub props: EdgePropsV,
}

#[verifier::ext_equal]
pub struct NoteV {
    pub id: Seq<char>,
    pub node_id: Seq<char>,
    pub body: Seq<char>,
    pub tags: Seq<Seq<char>>,
    pub author: Seq<char>,
    pub created_at: Seq<char>,
    pub provenance: Seq<char>,
    pub source_files: Seq<Seq<char>>,
}

#[verifier::ext_equal]
pub struct GraphV {
    pub metadata: MetadataV,
    pub nodes: Seq<NodeV>,
    pub edges: Seq<EdgeV>,
    pub notes: Seq<NoteV>,
}

/// The view of a list of (label, value) text pairs.
pub open spec fn pairs_view(s: Seq<(String, String)>) -> Seq<(Seq<char>, Seq<char>)> {
    s.map_values(|p: (String, String)| (p.0@, p.1@))
}

/// The view of an optional string.
pub open spec fn opt_view(o: Option<String>) -> Option<Seq<char>> {
    match o {
        Some(s) => Some(s@),
        None => None,
    }
}

impl View for Metadata {
    type V = MetadataV;

    open spec fn view(&self) -> MetadataV {
        MetadataV {
            name: self.name@,
            version: self.version@,
            description: self.description@,
            node_count: self.node_count as nat,
            edge_count: self.edge_count as nat,
        }
    }
}

impl View for NodeProperties {
    type V = NodePropsV;

    open spec fn view(&self) -> NodePropsV {
        NodePropsV {
            description: self.description@,
            domain_area: self.domain_area@,
            provenance: self.provenance@,
            confidence: opt_view(self.confidence),
            created_at: self.created_at@,
            importance: self.importance@,
            key_facts: views(self.key_facts@),
            alias: views(self.alias@),
            valid_from: self.valid_from@,
            valid_to: self.valid_to@,
            feedback_score: self.feedback_score@,
            feedback_count: self.feedback_count,
            feedback_last_ts_ms: self.feedback_last_ts_ms,
        }
    }
}

impl View for Node {
    type V = NodeV;

    open spec fn view(&self) -> NodeV {
        NodeV {
            id: self.id@,
            node_type: self.node_type@,
            name: self.name@,
            props: self.properties@,
            source_files: views(self.source_files@),
        }
    }
}

impl View for EdgeProperties {
    type V = EdgePropsV;

    open spec fn view(&self) -> EdgePropsV {
        EdgePropsV {
            detail: self.detail@,
            valid_from: self.valid_from@,
            valid_to: self.valid_to@,
            feedback_score: self.feedback_score@,
            feedback_count: self.feedback_count,
            feedback_last_ts_ms: self.feedback_last_ts_ms,
            bidirectional: self.bidirectional,
            score_components: pairs_view(self.score_components@),
        }
    }
}

impl View for Edge {
    type V = EdgeV;

    open spec fn view(&self) -> EdgeV {
        EdgeV {
            source_id: self.source_id@,
            relation: self.relation@,
            target_id: self.target_id@,
            props: self.properties@,
        }
    }
}

impl View for Note {
    type V = NoteV;

    open spec fn view(&self) -> NoteV {
        NoteV {
            id: self.id@,
            node_id: self.node_id@,
            body: self.body@,
            tags: views(self.tags@),
            author: self.author@,
            created_at: self.created_at@,
            provenance: self.provenance@,
            source_files: views(self.source_files@),
        }
    }
}

impl View for GraphFile {
    type V = GraphV;

    open spec fn view(&self) -> GraphV {
        GraphV {
            metadata: self.metadata@,
            nodes: views(self.nodes@),
            edges: views(self.edges@),
            notes: views(self.notes@),
        }
    }
}

// ---------------------------------------------------------------------------
// Defaults and constructors
// ---------------------------------------------------------------------------

/// The default node properties: everything empty, importance `0.5`, feedback score `0`.
pub open spec fn default_node_props() -> NodePropsV {
    NodePropsV {
        description: Seq::empty(),
        domain_area: Seq::empty(),
        provenance: Seq::empty(),
        confidence: None,
        created_at: Seq::empty(),
        importance: "0.5"@,
        key_facts: Seq::empty(),
        alias: Seq::empty(),
        valid_from: Seq::empty(),
        valid_to: Seq::empty(),
        feedback_score: "0"@,
        feedback_count: 0,
        feedback_last_ts_ms: None,
    }
}

/// The default edge properties.
pub open spec fn default_edge_props() -> EdgePropsV {
    EdgePropsV {
        detail: Seq::empty(),
        valid_from: Seq::empty(),
        valid_to: Seq::empty(),
        feedback_score: "0"@,
        feedback_count: 0,
        feedback_last_ts_ms: None,
        bidirectional: false,
        score_components: Seq::empty(),
    }
}

/// A note with the given id and node id and every other field empty.
pub open spec fn empty_note(id: Seq<char>, node_id: Seq<char>) -> NoteV {
    NoteV {
        id,
        node_id,
        body: Seq::empty(),
        tags: Seq::empty(),
        author: Seq::empty(),
        created_at: Seq::empty(),
        provenance: Seq::empty(),
        source_files: Seq::empty(),
    }
}

/// The empty graph called `name`.
pub open spec fn new_graph(name: Seq<char>) -> GraphV {
    GraphV {
        metadata: MetadataV {
            name,
            version: "1.0"@,
            description: "Knowledge graph: "@ + name,
            node_count: 0,
            edge_count: 0,
        },
        nodes: Seq::empty(),
        edges: Seq::empty(),
        notes: Seq::empty(),
    }
}

impl NodeProperties {
    /// Default node properties.
    pub fn new_default() -> (r: NodeProperties)
        ensures
            r@ == default_node_props(),
    {
        let r = NodeProperties {
            description: String::new(),
            domain_area: String::new(),
            provenance: String::new(),
            confidence: None,
            created_at: String::new(),
            importance: string_of(chars_of("0.5").as_slice()),
            key_facts: Vec::new(),
            alias: Vec::new(),
            valid_from: String::new(),
            valid_to: String::new(),
            feedback_score: string_of(chars_of("0").as_slice()),
            feedback_count: 0,
            feedback_last_ts_ms: None,
        };
        assert(r@ =~= default_node_props());
        r
    }
}

impl EdgeProperties {
    /// Default edge properties.
    pub fn new_default() -> (r: EdgeProperties)
        ensures
            r@ == default_edge_props(),
    {
        let r = EdgeProperties {
            detail: String::new(),
            valid_from: String::new(),
            valid_to: String::new(),
            feedback_score: string_of(chars_of("0").as_slice()),
            feedback_count: 0,
            feedback_last_ts_ms: None,
            bidirectional: false,
            score_components: Vec::new(),
        };
        assert(r@ =~= default_edge_props());
        r
    }
}

impl GraphFile {
    /// `GraphFile::new`: an empty graph named `name`, version `1.0`,
    /// described as `Knowledge graph: <name>`.
    pub fn new(name: &str) -> (g: GraphFile)
        ensures
            g@ == new_graph(name@),
    {
        let mut description: Vec<char> = Vec::new();
        append_str(&mut description, "Knowledge graph: ");
        append_str(&mut description, name);
        let g = GraphFile {
            metadata: Metadata {
                name: string_of(chars_of(name).as_slice()),
                version: string_of(chars_of("1.0").as_slice()),
                description: string_of(description.as_slice()),
                node_count: 0,
                edge_count: 0,
            },
            nodes: Vec::new(),
            edges: Vec::new(),
            notes: Vec::new(),
        };
        assert(g@ =~= new_graph(name@));
        g
    }

    /// The counts become the numbers of nodes and edges.
    pub fn refresh_counts(&mut self)
        ensures
            final(self)@ == (GraphV {
                metadata: MetadataV {
                    node_count: old(self)@.nodes.len(),
                    edge_count: old(self)@.edges.len(),
                    ..old(self)@.metadata
                },
                ..old(self)@
            }),
    {
        self.metadata.node_count = self.nodes.len();
        self.metadata.edge_count = self.edges.len();
        assert(self@ =~= (GraphV {
            metadata: MetadataV {
                node_count: old(self)@.nodes.len(),
                edge_count: old(self)@.edges.len(),
                ..old(self)@.metadata
            },
            ..old(self)@
        }));
    }

    /// The first node with the given id.
    pub fn node_by_id(&self, id: &str) -> (r: Option<usize>)
        ensures
            match r {
                Some(i) => i < self@.nodes.len() && self@.nodes[i as int].id == id@ && forall|j: int|
                    0 <= j < i ==> self@.nodes[j].id != id@,
                None => forall|j: int| 0 <= j < self@.nodes.len() ==> self@.nodes[j].id != id@,
            },
    {
        let mut i: usize = 0;
        while i < self.nodes.len()
            invariant
                i <= self.nodes.len(),
                forall|j: int| 0 <= j < i ==> self@.nodes[j].id != id@,
            decreases self.nodes.len() - i,
        {
            if crate::text::str_eq(self.nodes[i].id.as_str(), id) {
                return Some(i);
            }
            i += 1;
        }
        None
    }

    /// Whether some edge has exactly this source, relation and target.
    pub fn has_edge(&self, source_id: &str, relation: &str, target_id: &str) -> (r: bool)
        ensures
            r == exists|j: int|
                0 <= j < self@.edges.len() && self@.edges[j].source_id == source_id@
                    && self@.edges[j].relation == relation@ && self@.edges[j].target_id
                    == target_id@,
    {
        let mut i: usize = 0;
        while i < self.edges.len()
            invariant
                i <= self.edges.len(),
                forall|j: int|
                    0 <= j < i ==> !(self@.edges[j].source_id == source_id@
                        && self@.edges[j].relation == relation@ && self@.edges[j].target_id
                        == target_id@),
            decreases self.edges.len() - i,
        {
            let e = &self.edges[i];
            if crate::text::str_eq(e.source_id.as_str(), source_id) && crate::text::str_eq(
                e.relation.as_str(),
                relation,
            ) && crate::text::str_eq(e.target_id.as_str(), target_id) {
                assert(self@.edges[i as int] == e@);
                return true;
            }
            i += 1;
        }
        false
    }
}

// ---------------------------------------------------------------------------
// Orders
// ---------------------------------------------------------------------------

/// `false` sorts before `true`.
pub open spec fn bool_order(a: bool, b: bool) -> int {
    if a == b { 0 } else if !a { -1 } else { 1 }
}

/// The edge order: source, relation, target, bidirectional flag, detail.
pub open spec fn edge_order(a: EdgeV, b: EdgeV) -> int {
    let o1 = lex_order(a.source_id, b.source_id);
    let o2 = lex_order(a.relation, b.relation);
    let o3 = lex_order(a.target_id, b.target_id);
    let o4 = bool_order(a.props.bidirectional, b.props.bidirectional);
    let o5 = lex_order(a.props.detail, b.props.detail);
    if o1 != 0 { o1 } else if o2 != 0 { o2 } else if o3 != 0 { o3 } else if o4 != 0 { o4 } else { o5 }
}

/// The note order: id, node id, creation time.
pub open spec fn note_order(a: NoteV, b: NoteV) -> int {
    let o1 = lex_order(a.id, b.id);
    let o2 = lex_order(a.node_id, b.node_id);
    let o3 = lex_order(a.created_at, b.created_at);
    if o1 != 0 { o1 } else if o2 != 0 { o2 } else { o3 }
}

fn str_order(a: &String, b: &String) -> (r: i8)
    ensures
        r as int == lex_order(a@, b@),
{
    let x = chars_of(a.as_str());
    let y = chars_of(b.as_str());
    lex_order_chars(x.as_slice(), y.as_slice())
}

impl KeyOrder for Edge {
    open spec fn spec_after(a: EdgeV, b: EdgeV) -> bool {
        edge_order(a, b) > 0
    }

    fn after(&self, other: &Self) -> (r: bool) {
        let o1 = str_order(&self.source_id, &other.source_id);
        if o1 != 0 {
            return o1 > 0;
        }
        let o2 = str_order(&self.relation, &other.relation);
        if o2 != 0 {
            return o2 > 0;
        }
        let o3 = str_order(&self.target_id, &other.target_id);
        if o3 != 0 {
            return o3 > 0;
        }
        let a = self.properties.bidirectional;
        let b = other.properties.bidirectional;
        if a != b {
            return a;
        }
        str_order(&self.properties.detail, &other.properties.detail) > 0
    }
}

impl KeyOrder for Note {
    open spec fn spec_after(a: NoteV, b: NoteV) -> bool {
        note_order(a, b) > 0
    }

    fn after(&self, other: &Self) -> (r: bool) {
        let o1 = str_order(&self.id, &other.id);
        if o1 != 0 {
            return o1 > 0;
        }
        let o2 = str_order(&self.node_id, &other.node_id);
        if o2 != 0 {
            return o2 > 0;
        }
        str_order(&self.created_at, &other.created_at) > 0
    }
}

impl KeyOrder for Node {
    open spec fn spec_after(a: NodeV, b: NodeV) -> bool {
        lex_order(a.id, b.id) > 0
    }

    fn after(&self, other: &Self) -> (r: bool) {
        str_order(&self.id, &other.id) > 0
    }
}

// ---------------------------------------------------------------------------
// Score components
// ---------------------------------------------------------------------------

/// Inserts or replaces `(k, v)` in a list of pairs kept sorted by key
/// (what `BTreeMap::insert` does to its ordered contents).
pub open spec fn assoc_insert(s: Seq<(Seq<char>, Seq<char>)>, k: Seq<char>, v: Seq<char>) -> Seq<
    (Seq<char>, Seq<char>),
>
    decreases s.len(),
{
    if s.len() == 0 {
        seq![(k, v)]
    } else if s[0].0 == k {
        seq![(k, v)] + s.drop_first()
    } else if lex_order(k, s[0].0) < 0 {
        seq![(k, v)] + s
    } else {
        seq![s[0]] + assoc_insert(s.drop_first(), k, v)
    }
}

pub proof fn lemma_assoc_insert_at(s: Seq<(Seq<char>, Seq<char>)>, k: Seq<char>, v: Seq<char>, p: int)
    requires
        0 <= p <= s.len(),
        forall|j: int| 0 <= j < p ==> s[j].0 != k && lex_order(k, #[trigger] s[j].0) >= 0,
        p < s.len() ==> (s[p].0 == k || lex_order(k, s[p].0) < 0),
    ensures
        assoc_insert(s, k, v) == if p < s.len() && s[p].0 == k {
            s.take(p) + seq![(k, v)] + s.skip(p + 1)
        } else {
            s.take(p) + seq![(k, v)] + s.skip(p)
        },
    decreases s.len(),
{
    if s.len() == 0 {
        assert(s.take(p) + seq![(k, v)] + s.skip(p) =~= seq![(k, v)]);
    } else if p == 0 {
        if s[0].0 == k {
            assert(s.take(p) + seq![(k, v)] + s.skip(p + 1) =~= seq![(k, v)] + s.drop_first());
        } else {
            assert(s.take(p) + seq![(k, v)] + s.skip(p) =~= seq![(k, v)] + s);
        }
    } else {
        let t = s.drop_first();
        assert forall|j: int| 0 <= j < p - 1 implies t[j].0 != k && lex_order(k, #[trigger] t[j].0)
            >= 0 by {
            assert(t[j] == s[j + 1]);
        }
        if p - 1 < t.len() {
            assert(t[p - 1] == s[p]);
        }
        lemma_assoc_insert_at(t, k, v, p - 1);
        if p < s.len() && s[p].0 == k {
            assert(seq![s[0]] + (t.take(p - 1) + seq![(k, v)] + t.skip(p)) =~= s.take(p) + seq![
                (k, v),
            ] + s.skip(p + 1));
        } else {
            assert(seq![s[0]] + (t.take(p - 1) + seq![(k, v)] + t.skip(p - 1)) =~= s.take(p)
                + seq![(k, v)] + s.skip(p));
        }
    }
}

/// Inserts or replaces a score component.
pub fn insert_score_component(s: &mut Vec<(String, String)>, k: String, v: String)
    ensures
        pairs_view(final(s)@) == assoc_insert(pairs_view(old(s)@), k@, v@),
{
    let ghost ps = pairs_view(s@);
    let kc = chars_of(k.as_str());
    let mut p: usize = 0;
    let mut found = false;
    while p < s.len()
        invariant_except_break
            !found,
        invariant
            p <= s.len(),
            ps == pairs_view(s@),
            kc@ == k@,
            s@ == old(s)@,
            forall|j: int| 0 <= j < p ==> ps[j].0 != k@ && lex_order(k@, #[trigger] ps[j].0) >= 0,
        ensures
            p <= s.len(),
            ps == pairs_view(s@),
            s@ == old(s)@,
            forall|j: int| 0 <= j < p ==> ps[j].0 != k@ && lex_order(k@, #[trigger] ps[j].0) >= 0,
            p < s.len() ==> (ps[p as int].0 == k@ || lex_order(k@, ps[p as int].0) < 0),
            found == (p < s.len() && ps[p as int].0 == k@),
        decreases s.len() - p,
    {
        let key = chars_of(s[p].0.as_str());
        assert(ps[p as int].0 == key@);
        let o = lex_order_chars(kc.as_slice(), key.as_slice());
        proof {
            crate::text::lemma_lex_order_eq(k@, key@);
        }
        if o == 0 {
            found = true;
            break;
        }
        if o < 0 {
            break;
        }
        p += 1;
    }
    proof {
        lemma_assoc_insert_at(ps, k@, v@, p as int);
    }
    if found {
        s.remove(p);
        s.insert(p, (k, v));
        assert(pairs_view(s@) =~= ps.take(p as int) + seq![(k@, v@)] + ps.skip(p + 1));
    } else {
        s.insert(p, (k, v));
        assert(pairs_view(s@) =~= ps.take(p as int) + seq![(k@, v@)] + ps.skip(p as int));
    }
}

// ---------------------------------------------------------------------------
// Copies
// ---------------------------------------------------------------------------

/// Copies a string.
pub fn copy_string(s: &String) -> (r: String)
    ensures
        r@ == s@,
{
    s.clone()
}

/// Copies a list of strings.
pub fn copy_strings(v: &Vec<String>) -> (r: Vec<String>)
    ensures
        views(r@) == views(v@),
{
    let mut r: Vec<String> = Vec::new();
    let mut i: usize = 0;
    while i < v.len()
        invariant
            i <= v.len(),
            views(r@) == views(v@).take(i as int),
        decreases v.len() - i,
    {
        let x = v[i].clone();
        assert(x@ == v@[i as int]@);
        let ghost before = views(r@);
        r.push(x);
        assert(views(r@) =~= before.push(x@));
        assert(views(v@).take(i + 1) =~= views(v@).take(i as int).push(views(v@)[i as int]));
        i += 1;
    }
    assert(views(v@).take(v.len() as int) =~= views(v@));
    r
}

fn copy_opt_string(o: &Option<String>) -> (r: Option<String>)
    ensures
        opt_view(r) == opt_view(*o),
{
    match o {
        Some(s) => Some(s.clone()),
        None => None,
    }
}

fn copy_pairs(v: &Vec<(String, String)>) -> (r: Vec<(String, String)>)
    ensures
        pairs_view(r@) == pairs_view(v@),
{
    let mut r: Vec<(String, String)> = Vec::new();
    let mut i: usize = 0;
    while i < v.len()
        invariant
            i <= v.len(),
            pairs_view(r@) == pairs_view(v@).take(i as int),
        decreases v.len() - i,
    {
        let a = v[i].0.clone();
        let b = v[i].1.clone();
        assert(a@ == v@[i as int].0@ && b@ == v@[i as int].1@);
        let ghost before = pairs_view(r@);
        r.push((a, b));
        assert(pairs_view(r@) =~= before.push((a@, b@)));
        assert(pairs_view(v@).take(i + 1) =~= pairs_view(v@).take(i as int).push(
            pairs_view(v@)[i as int],
        ));
        i += 1;
    }
    assert(pairs_view(v@).take(v.len() as int) =~= pairs_view(v@));
    r
}

impl Node {
    /// A copy of the node.
    pub fn copy(&self) -> (r: Node)
        ensures
            r@ == self@,
    {
        let p = &self.properties;
        let r = Node {
            id: self.id.clone(),
            node_type: self.node_type.clone(),
            name: self.name.clone(),
            properties: NodeProperties {
                description: p.description.clone(),
                domain_area: p.domain_area.clone(),
                provenance: p.provenance.clone(),
                confidence: copy_opt_string(&p.confidence),
                created_at: p.created_at.clone(),
                importance: p.importance.clone(),
                key_facts: copy_strings(&p.key_facts),
                alias: copy_strings(&p.alias),
                valid_from: p.valid_from.clone(),
                valid_to: p.valid_to.clone(),
                feedback_score: p.feedback_score.clone(),
                feedback_count: p.feedback_count,
                feedback_last_ts_ms: p.feedback_last_ts_ms,
            },
            source_files: copy_strings(&self.source_files),
        };
        assert(r@ =~= self@);
        r
    }
}

impl Edge {
    /// A copy of the edge.
    pub fn copy(&self) -> (r: Edge)
        ensures
            r@ == self@,
    {
        let p = &self.properties;
        let r = Edge {
            source_id: self.source_id.clone(),
            relation: self.relation.clone(),
            target_id: self.target_id.clone(),
            properties: EdgeProperties {
                detail: p.detail.clone(),
                valid_from: p.valid_from.clone(),
                valid_to: p.valid_to.clone(),
                feedback_score: p.feedback_score.clone(),
                feedback_count: p.feedback_count,
                feedback_last_ts_ms: p.feedback_last_ts_ms,
                bidirectional: p.bidirectional,
                score_components: copy_pairs(&p.score_components),
            },
        };
        assert(r@ =~= self@);
        r
    }
}

impl Note {
    /// A copy of the note.
    pub fn copy(&self) -> (r: Note)
        ensures
            r@ == self@,
    {
        let r = Note {
            id: self.id.clone(),
            node_id: self.node_id.clone(),
            body: self.body.clone(),
            tags: copy_strings(&self.tags),
            author: self.author.clone(),
            created_at: self.created_at.clone(),
            provenance: self.provenance.clone(),
            source_files: copy_strings(&self.source_files),
        };
        assert(r@ =~= self@);
        r
    }
}

} // verus!
