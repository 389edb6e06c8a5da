//! Importing nodes, edges and notes from CSV tables into a graph.
use vstd::prelude::*;
use crate::graph::{
    Edge, EdgeProperties, EdgePropsV, EdgeV, GraphFile, GraphV, MetadataV, Node, NodeProperties, NodePropsV,
    NodeV, Note, NoteV, default_edge_props, default_node_props, pairs_view,
};
use crate::graph_merge::MergeItem;
use crate::kg_codec::{is_float_literal, is_float_literal_exec};
use crate::sorting::views;
use crate::text::{
    append_chars, append_str, chars_eq, chars_of, decimal, decimal_usize, seqs_view, split_chars,
    split_on, str_eq, string_of, trim, trim_chars,
};

verus! {

/// Which side wins when an imported item has the key of an existing one.
#[derive(Clone, Copy)]
pub enum CsvStrategy {
    PreferNew,
    PreferOld,
}

impl CsvStrategy {
    /// Whether imported items replace existing ones.
    pub fn is_prefer_new(self) -> (r: bool)
        ensures
            r == (self is PreferNew),
    {
        match self {
            CsvStrategy::PreferNew => true,
            CsvStrategy::PreferOld => false,
        }
    }
}

/// What an import changed, and the keys of items that were kept although
/// the imported version differed.
#[derive(Debug)]
pub struct CsvImportSummary {
    pub nodes_added: usize,
    pub nodes_updated: usize,
    pub nodes_skipped: usize,
    pub edges_added: usize,
    pub edges_updated: usize,
    pub edges_skipped: usize,
    pub notes_added: usize,
    pub notes_updated: usize,
    pub notes_skipped: usize,
    pub conflicts: Vec<String>,
}

impl CsvImportSummary {
    /// A summary with every count zero and no conflicts.
    pub fn new() -> (r: CsvImportSummary)
        ensures
            r.nodes_added == 0 && r.nodes_updated == 0 && r.nodes_skipped == 0,
            r.edges_added == 0 && r.edges_updated == 0 && r.edges_skipped == 0,
            r.notes_added == 0 && r.notes_updated == 0 && r.notes_skipped == 0,
            r.conflicts@.len() == 0,
    {
        CsvImportSummary {
            nodes_added: 0,
            nodes_updated: 0,
            nodes_skipped: 0,
            edges_added: 0,
            edges_updated: 0,
            edges_skipped: 0,
            notes_added: 0,
            notes_updated: 0,
            notes_skipped: 0,
            conflicts: Vec::new(),
        }
    }
}

/// The CSV files of an import and the strategy for existing items.
pub struct CsvImportArgs {
    pub nodes_path: Option<String>,
    pub edges_path: Option<String>,
    pub notes_path: Option<String>,
    pub strategy: CsvStrategy,
}

/// A CSV file as read: its header row and its records.
pub struct CsvTable {
    pub headers: Vec<String>,
    pub records: Vec<Vec<String>>,
}

// ---------------------------------------------------------------------------
// Fields
// ---------------------------------------------------------------------------

/// The first column named `name`.
pub open spec fn header_index(headers: Seq<Seq<char>>, name: Seq<char>) -> Option<int>
    decreases headers.len(),
{
    if headers.len() == 0 {
        None
    } else if headers[0] == name {
        Some(0)
    } else {
        match header_index(headers.drop_first(), name) {
            Some(i) => Some(i + 1),
            None => None,
        }
    }
}

/// The trimmed cell in column `i`, empty where the record is short.
pub open spec fn cell(record: Seq<Seq<char>>, i: int) -> Seq<char> {
    if 0 <= i < record.len() {
        trim(record[i])
    } else {
        Seq::empty()
    }
}

/// A required column.
pub open spec fn field_spec(h: Seq<Seq<char>>, r: Seq<Seq<char>>, name: Seq<char>) -> Result<Seq<char>, Seq<char>> {
    match header_index(h, name) {
        Some(i) => Ok(cell(r, i)),
        None => Err("missing column: "@ + name),
    }
}

/// An optional column, empty when absent.
pub open spec fn optional_spec(h: Seq<Seq<char>>, r: Seq<Seq<char>>, name: Seq<char>) -> Seq<char> {
    match header_index(h, name) {
        Some(i) => cell(r, i),
        None => Seq::empty(),
    }
}

/// The non-empty trimmed pieces.
pub open spec fn nonblank_pieces(segs: Seq<Seq<char>>) -> Seq<Seq<char>>
    decreases segs.len(),
{
    if segs.len() == 0 {
        Seq::empty()
    } else {
        let rest = nonblank_pieces(segs.drop_first());
        if trim(segs[0]).len() > 0 {
            seq![trim(segs[0])] + rest
        } else {
            rest
        }
    }
}

/// A `|`-separated list column.
pub open spec fn list_spec(h: Seq<Seq<char>>, r: Seq<Seq<char>>, name: Seq<char>) -> Seq<Seq<char>> {
    let raw = optional_spec(h, r, name);
    if raw.len() == 0 {
        Seq::empty()
    } else {
        nonblank_pieces(split_on(raw, '|'))
    }
}

fn header_index_exec(headers: &Vec<String>, name: &str) -> (r: Option<usize>)
    ensures
        match r {
            Some(j) => header_index(views(headers@), name@) == Some(j as int),
            None => header_index(views(headers@), name@) is None,
        },
{
    let ghost hv = views(headers@);
    let mut i: usize = 0;
    assert(hv.skip(0) =~= hv);
    while i < headers.len()
        invariant
            i <= headers.len(),
            hv == views(headers@),
            header_index(hv, name@) == match header_index(hv.skip(i as int), name@) {
                Some(k) => Some(k + i),
                None => None::<int>,
            },
        decreases headers.len() - i,
    {
        proof {
            assert(hv.skip(i as int)[0] == headers@[i as int]@);
            assert(hv.skip(i as int).drop_first() =~= hv.skip(i + 1));
        }
        if str_eq(headers[i].as_str(), name) {
            return Some(i);
        }
        i += 1;
    }
    proof {
        assert(hv.skip(i as int) =~= Seq::<Seq<char>>::empty());
    }
    None
}

fn cell_exec(record: &Vec<String>, i: usize) -> (r: Vec<char>)
    ensures
        r@ == cell(views(record@), i as int),
{
    if i < record.len() {
        let cs = chars_of(record[i].as_str());
        trim_chars(cs.as_slice())
    } else {
        Vec::new()
    }
}

fn field(headers: &Vec<String>, record: &Vec<String>, name: &str) -> (r: Result<Vec<char>, String>)
    ensures
        match field_spec(views(headers@), views(record@), name@) {
            Ok(v) => r matches Ok(x) && x@ == v,
            Err(e) => r matches Err(x) && x@ == e,
        },
{
    match header_index_exec(headers, name) {
        Some(i) => Ok(cell_exec(record, i)),
        None => {
            let mut m: Vec<char> = Vec::new();
            append_str(&mut m, "missing column: ");
            append_str(&mut m, name);
            Err(string_of(m.as_slice()))
        },
    }
}

fn optional_field(headers: &Vec<String>, record: &Vec<String>, name: &str) -> (r: Vec<char>)
    ensures
        r@ == optional_spec(views(headers@), views(record@), name@),
{
    match header_index_exec(headers, name) {
        Some(i) => cell_exec(record, i),
        None => Vec::new(),
    }
}

fn list_field(headers: &Vec<String>, record: &Vec<String>, name: &str) -> (r: Vec<String>)
    ensures
        views(r@) == list_spec(views(headers@), views(record@), name@),
{
    let raw = optional_field(headers, record, name);
    if raw.len() == 0 {
        return Vec::new();
    }
    let segs = split_chars(raw.as_slice(), '|');
    let ghost sv = seqs_view(segs@);
    let mut out: Vec<String> = Vec::new();
    let mut k = segs.len();
    assert(sv.skip(k as int) =~= Seq::<Seq<char>>::empty());
    while k > 0
        invariant
            k <= segs.len(),
            sv == seqs_view(segs@),
            views(out@) == nonblank_pieces(sv.skip(k as int)),
        decreases k,
    {
        let t = trim_chars(segs[k - 1].as_slice());
        proof {
            assert(sv.skip(k - 1)[0] == segs@[k - 1]@);
            assert(sv.skip(k - 1).drop_first() =~= sv.skip(k as int));
        }
        if t.len() > 0 {
            let ghost before = views(out@);
            out.insert(0, string_of(t.as_slice()));
            proof {
                assert(views(out@) =~= seq![t@] + before);
            }
        }
        k -= 1;
    }
    proof {
        assert(sv.skip(0) =~= sv);
    }
    out
}

// ---------------------------------------------------------------------------
// Rows
// ---------------------------------------------------------------------------

/// `<entity> CSV row <n> <what>`.
pub open spec fn row_error(entity: Seq<char>, row: nat, what: Seq<char>) -> Seq<char> {
    entity + " CSV row "@ + decimal(row) + " "@ + what
}

/// The node of a record.
pub open spec fn node_row_spec(h: Seq<Seq<char>>, r: Seq<Seq<char>>, row: nat) -> Result<NodeV, Seq<char>> {
    match field_spec(h, r, "id"@) {
        Err(e) => Err(e),
        Ok(id) => match field_spec(h, r, "type"@) {
            Err(e) => Err(e),
            Ok(t) => match field_spec(h, r, "name"@) {
                Err(e) => Err(e),
                Ok(n) => if id.len() == 0 {
                    Err(row_error("nodes"@, row, "missing id"@))
                } else if t.len() == 0 {
                    Err(row_error("nodes"@, row, "missing type"@))
                } else if n.len() == 0 {
                    Err(row_error("nodes"@, row, "missing name"@))
                } else {
                    let c = optional_spec(h, r, "confidence"@);
                    Ok(
                        NodeV {
                            id,
                            node_type: t,
                            name: n,
                            props: NodePropsV {
                                description: optional_spec(h, r, "description"@),
                                domain_area: optional_spec(h, r, "domain_area"@),
                                provenance: optional_spec(h, r, "provenance"@),
                                created_at: optional_spec(h, r, "created_at"@),
                                confidence: if is_float_literal(c) {
                                    Some(c)
                                } else {
                                    None
                                },
                                key_facts: list_spec(h, r, "key_facts"@),
                                alias: list_spec(h, r, "alias"@),
                                ..default_node_props()
                            },
                            source_files: list_spec(h, r, "source_files"@),
                        },
                    )
                },
            },
        },
    }
}

/// The edge of a record.
pub open spec fn edge_row_spec(h: Seq<Seq<char>>, r: Seq<Seq<char>>, row: nat) -> Result<EdgeV, Seq<char>> {
    match field_spec(h, r, "source_id"@) {
        Err(e) => Err(e),
        Ok(s) => match field_spec(h, r, "relation"@) {
            Err(e) => Err(e),
            Ok(rel) => match field_spec(h, r, "target_id"@) {
                Err(e) => Err(e),
                Ok(t) => if s.len() == 0 || rel.len() == 0 || t.len() == 0 {
                    Err(row_error("edges"@, row, "missing required fields"@))
                } else {
                    Ok(
                        EdgeV {
                            source_id: s,
                            relation: rel,
                            target_id: t,
                            props: EdgePropsV { detail: optional_spec(h, r, "detail"@), ..default_edge_props() },
                        },
                    )
                },
            },
        },
    }
}

/// The note of a record.
pub open spec fn note_row_spec(h: Seq<Seq<char>>, r: Seq<Seq<char>>, row: nat) -> Result<NoteV, Seq<char>> {
    match field_spec(h, r, "id"@) {
        Err(e) => Err(e),
        Ok(id) => match field_spec(h, r, "node_id"@) {
            Err(e) => Err(e),
            Ok(n) => if id.len() == 0 || n.len() == 0 {
                Err(row_error("notes"@, row, "missing id or node_id"@))
            } else {
                Ok(
                    NoteV {
                        id,
                        node_id: n,
                        body: optional_spec(h, r, "body"@),
                        tags: list_spec(h, r, "tags"@),
                        author: optional_spec(h, r, "author"@),
                        created_at: optional_spec(h, r, "created_at"@),
                        provenance: optional_spec(h, r, "provenance"@),
                        source_files: list_spec(h, r, "source_files"@),
                    },
                )
            },
        },
    }
}

/// Items read from CSV rows.
pub trait CsvItem: MergeItem {
    /// What the item is called in messages.
    spec fn entity() -> Seq<char>;

    /// The item of a record, or the error that stops the import.
    spec fn from_row(h: Seq<Seq<char>>, r: Seq<Seq<char>>, row: nat) -> Result<Self::V, Seq<char>>;

    /// Whether a new item may be added to a graph with these nodes.
    spec fn admissible(nodes: Seq<NodeV>, v: Self::V) -> bool;

    fn read_row(headers: &Vec<String>, record: &Vec<String>, row: usize) -> (r: Result<Self, String>)
        ensures
            match Self::from_row(views(headers@), views(record@), row as nat) {
                Ok(v) => r matches Ok(x) && x@ == v,
                Err(e) => r matches Err(x) && x@ == e,
            },
    ;

    fn admissible_exec(&self, nodes: &Vec<Node>) -> (r: bool)
        ensures
            r == Self::admissible(views(nodes@), self@),
    ;

    fn same_value(&self, other: &Self) -> (r: bool)
        ensures
            r == (self@ == other@),
    ;

    fn entity_name() -> (r: &'static str)
        ensures
            r@ == Self::entity(),
    ;
}

fn row_error_exec(entity: &str, row: usize, what: &str) -> (r: String)
    ensures
        r@ == row_error(entity@, row as nat, what@),
{
    let mut m: Vec<char> = Vec::new();
    append_str(&mut m, entity);
    append_str(&mut m, " CSV row ");
    let d = decimal_usize(row);
    append_chars(&mut m, d.as_slice());
    append_str(&mut m, " ");
    append_str(&mut m, what);
    string_of(m.as_slice())
}

fn strings_same(a: &Vec<String>, b: &Vec<String>) -> (r: bool)
    ensures
        r == (views(a@) == views(b@)),
{
    if a.len() != b.len() {
        proof {
            assert(views(a@).len() != views(b@).len());
        }
        return false;
    }
    let mut i: usize = 0;
    while i < a.len()
        invariant
            i <= a.len() == b.len(),
            forall|k: int| 0 <= k < i ==> views(a@)[k] == views(b@)[k],
        decreases a.len() - i,
    {
        if !str_eq(a[i].as_str(), b[i].as_str()) {
            proof {
                assert(views(a@)[i as int] != views(b@)[i as int]);
            }
            return false;
        }
        i += 1;
    }
    proof {
        assert(views(a@) =~= views(b@));
    }
    true
}

fn pairs_same(a: &Vec<(String, String)>, b: &Vec<(String, String)>) -> (r: bool)
    ensures
        r == (pairs_view(a@) == pairs_view(b@)),
{
    if a.len() != b.len() {
        proof {
            assert(pairs_view(a@).len() != pairs_view(b@).len());
        }
        return false;
    }
    let mut i: usize = 0;
    while i < a.len()
        invariant
            i <= a.len() == b.len(),
            forall|k: int| 0 <= k < i ==> pairs_view(a@)[k] == pairs_view(b@)[k],
        decreases a.len() - i,
    {
        if !str_eq(a[i].0.as_str(), b[i].0.as_str()) || !str_eq(a[i].1.as_str(), b[i].1.as_str()) {
            proof {
                assert(pairs_view(a@)[i as int] != pairs_view(b@)[i as int]);
            }
            return false;
        }
        i += 1;
    }
    proof {
        assert(pairs_view(a@) =~= pairs_view(b@));
    }
    true
}

fn opt_same(a: &Option<String>, b: &Option<String>) -> (r: bool)
    ensures
        r == (crate::graph::opt_view(*a) == crate::graph::opt_view(*b)),
{
    match (a, b) {
        (Some(x), Some(y)) => str_eq(x.as_str(), y.as_str()),
        (None, None) => true,
        _ => false,
    }
}

impl CsvItem for Node {
    open spec fn entity() -> Seq<char> {
        "node"@
    }

    open spec fn from_row(h: Seq<Seq<char>>, r: Seq<Seq<char>>, row: nat) -> Result<NodeV, Seq<char>> {
        node_row_spec(h, r, row)
    }

    open spec fn admissible(nodes: Seq<NodeV>, v: NodeV) -> bool {
        true
    }

    fn read_row(headers: &Vec<String>, record: &Vec<String>, row: usize) -> (r: Result<Node, String>) {
        let id = match field(headers, record, "id") {
            Ok(v) => v,
            Err(e) => return Err(e),
        };
        let t = match field(headers, record, "type") {
            Ok(v) => v,
            Err(e) => return Err(e),
        };
        let n = match field(headers, record, "name") {
            Ok(v) => v,
            Err(e) => return Err(e),
        };
        if id.len() == 0 {
            return Err(row_error_exec("nodes", row, "missing id"));
        }
        if t.len() == 0 {
            return Err(row_error_exec("nodes", row, "missing type"));
        }
        if n.len() == 0 {
            return Err(row_error_exec("nodes", row, "missing name"));
        }
        let mut props = NodeProperties::new_default();
        props.description = string_of(optional_field(headers, record, "description").as_slice());
        props.domain_area = string_of(optional_field(headers, record, "domain_area").as_slice());
        props.provenance = string_of(optional_field(headers, record, "provenance").as_slice());
        props.created_at = string_of(optional_field(headers, record, "created_at").as_slice());
        let c = optional_field(headers, record, "confidence");
        props.confidence = if is_float_literal_exec(c.as_slice()) {
            Some(string_of(c.as_slice()))
        } else {
            None
        };
        props.key_facts = list_field(headers, record, "key_facts");
        props.alias = list_field(headers, record, "alias");
        let node = Node {
            id: string_of(id.as_slice()),
            node_type: string_of(t.as_slice()),
            name: string_of(n.as_slice()),
            properties: props,
            source_files: list_field(headers, record, "source_files"),
        };
        proof {
            assert(node@ =~= node_row_spec(views(headers@), views(record@), row as nat)->Ok_0);
        }
        Ok(node)
    }

    fn admissible_exec(&self, nodes: &Vec<Node>) -> (r: bool) {
        true
    }

    fn same_value(&self, other: &Node) -> (r: bool) {
        let p = &self.properties;
        let q = &other.properties;
        let r = str_eq(self.id.as_str(), other.id.as_str()) && str_eq(
            self.node_type.as_str(),
            other.node_type.as_str(),
        ) && str_eq(self.name.as_str(), other.name.as_str()) && strings_same(
            &self.source_files,
            &other.source_files,
        ) && str_eq(p.description.as_str(), q.description.as_str()) && str_eq(
            p.domain_area.as_str(),
            q.domain_area.as_str(),
        ) && str_eq(p.provenance.as_str(), q.provenance.as_str()) && opt_same(
            &p.confidence,
            &q.confidence,
        ) && str_eq(p.created_at.as_str(), q.created_at.as_str()) && str_eq(
            p.importance.as_str(),
            q.importance.as_str(),
        ) && strings_same(&p.key_facts, &q.key_facts) && strings_same(&p.alias, &q.alias)
            && str_eq(p.valid_from.as_str(), q.valid_from.as_str()) && str_eq(
            p.valid_to.as_str(),
            q.valid_to.as_str(),
        ) && str_eq(p.feedback_score.as_str(), q.feedback_score.as_str()) && p.feedback_count
            == q.feedback_count && p.feedback_last_ts_ms == q.feedback_last_ts_ms;
        proof {
            if r {
                assert(self@.props =~= other@.props);
                assert(self@ =~= other@);
            }
        }
        r
    }

    fn entity_name() -> (r: &'static str) {
        "node"
    }
}

impl CsvItem for Edge {
    open spec fn entity() -> Seq<char> {
        "edge"@
    }

    open spec fn from_row(h: Seq<Seq<char>>, r: Seq<Seq<char>>, row: nat) -> Result<EdgeV, Seq<char>> {
        edge_row_spec(h, r, row)
    }

    open spec fn admissible(nodes: Seq<NodeV>, v: EdgeV) -> bool {
        (exists|i: int| 0 <= i < nodes.len() && nodes[i].id == v.source_id) && (exists|i: int|
            0 <= i < nodes.len() && nodes[i].id == v.target_id)
    }

    fn read_row(headers: &Vec<String>, record: &Vec<String>, row: usize) -> (r: Result<Edge, String>) {
        let s = match field(headers, record, "source_id") {
            Ok(v) => v,
            Err(e) => return Err(e),
        };
        let rel = match field(headers, record, "relation") {
            Ok(v) => v,
            Err(e) => return Err(e),
        };
        let t = match field(headers, record, "target_id") {
            Ok(v) => v,
            Err(e) => return Err(e),
        };
        if s.len() == 0 || rel.len() == 0 || t.len() == 0 {
            return Err(row_error_exec("edges", row, "missing required fields"));
        }
        let mut props = EdgeProperties::new_default();
        props.detail = string_of(optional_field(headers, record, "detail").as_slice());
        let edge = Edge {
            source_id: string_of(s.as_slice()),
            relation: string_of(rel.as_slice()),
            target_id: string_of(t.as_slice()),
            properties: props,
        };
        proof {
            assert(edge@ =~= edge_row_spec(views(headers@), views(record@), row as nat)->Ok_0);
        }
        Ok(edge)
    }

    fn admissible_exec(&self, nodes: &Vec<Node>) -> (r: bool) {
        let a = node_exists(nodes, self.source_id.as_str());
        let b = node_exists(nodes, self.target_id.as_str());
        a && b
    }

    fn same_value(&self, other: &Edge) -> (r: bool) {
        let p = &self.properties;
        let q = &other.properties;
        let r = str_eq(self.source_id.as_str(), other.source_id.as_str()) && str_eq(
            self.relation.as_str(),
            other.relation.as_str(),
        ) && str_eq(self.target_id.as_str(), other.target_id.as_str()) && str_eq(
            p.detail.as_str(),
            q.detail.as_str(),
        ) && str_eq(p.valid_from.as_str(), q.valid_from.as_str()) && str_eq(
            p.valid_to.as_str(),
            q.valid_to.as_str(),
        ) && str_eq(p.feedback_score.as_str(), q.feedback_score.as_str()) && p.feedback_count
            == q.feedback_count && p.feedback_last_ts_ms == q.feedback_last_ts_ms
            && p.bidirectional == q.bidirectional && pairs_same(
            &p.score_components,
            &q.score_components,
        );
        proof {
            if r {
                assert(self@.props =~= other@.props);
                assert(self@ =~= other@);
            }
        }
        r
    }

    fn entity_name() -> (r: &'static str) {
        "edge"
    }
}

impl CsvItem for Note {
    open spec fn entity() -> Seq<char> {
        "note"@
    }

    open spec fn from_row(h: Seq<Seq<char>>, r: Seq<Seq<char>>, row: nat) -> Result<NoteV, Seq<char>> {
        note_row_spec(h, r, row)
    }

    open spec fn admissible(nodes: Seq<NodeV>, v: NoteV) -> bool {
        exists|i: int| 0 <= i < nodes.len() && nodes[i].id == v.node_id
    }

    fn read_row(headers: &Vec<String>, record: &Vec<String>, row: usize) -> (r: Result<Note, String>) {
        let id = match field(headers, record, "id") {
            Ok(v) => v,
            Err(e) => return Err(e),
        };
        let n = match field(headers, record, "node_id") {
            Ok(v) => v,
            Err(e) => return Err(e),
        };
        if id.len() == 0 || n.len() == 0 {
            return Err(row_error_exec("notes", row, "missing id or node_id"));
        }
        let note = Note {
            id: string_of(id.as_slice()),
            node_id: string_of(n.as_slice()),
            body: string_of(optional_field(headers, record, "body").as_slice()),
            tags: list_field(headers, record, "tags"),
            author: string_of(optional_field(headers, record, "author").as_slice()),
            created_at: string_of(optional_field(headers, record, "created_at").as_slice()),
            provenance: string_of(optional_field(headers, record, "provenance").as_slice()),
            source_files: list_field(headers, record, "source_files"),
        };
        proof {
            assert(note@ =~= note_row_spec(views(headers@), views(record@), row as nat)->Ok_0);
        }
        Ok(note)
    }

    fn admissible_exec(&self, nodes: &Vec<Node>) -> (r: bool) {
        node_exists(nodes, self.node_id.as_str())
    }

    fn same_value(&self, other: &Note) -> (r: bool) {
        let r = str_eq(self.id.as_str(), other.id.as_str()) && str_eq(
            self.node_id.as_str(),
            other.node_id.as_str(),
        ) && str_eq(self.body.as_str(), other.body.as_str()) && strings_same(&self.tags, &other.tags)
            && str_eq(self.author.as_str(), other.author.as_str()) && str_eq(
            self.created_at.as_str(),
            other.created_at.as_str(),
        ) && str_eq(self.provenance.as_str(), other.provenance.as_str()) && strings_same(
            &self.source_files,
            &other.source_files,
        );
        proof {
            if r {
                assert(self@ =~= other@);
            }
        }
        r
    }

    fn entity_name() -> (r: &'static str) {
        "note"
    }
}

fn node_exists(nodes: &Vec<Node>, id: &str) -> (r: bool)
    ensures
        r == exists|i: int| 0 <= i < views(nodes@).len() && views(nodes@)[i].id == id@,
{
    let mut i: usize = 0;
    while i < nodes.len()
        invariant
            i <= nodes.len(),
            forall|k: int| 0 <= k < i ==> views(nodes@)[k].id != id@,
        decreases nodes.len() - i,
    {
        if str_eq(nodes[i].id.as_str(), id) {
            proof {
                assert(views(nodes@)[i as int].id == id@);
            }
            return true;
        }
        i += 1;
    }
    false
}

/// The items of all records, or the first error; rows count from 1.
pub open spec fn read_rows<T: CsvItem>(h: Seq<Seq<char>>, rs: Seq<Seq<Seq<char>>>) -> Result<Seq<T::V>, Seq<char>>
    decreases rs.len(),
{
    if rs.len() == 0 {
        Ok(Seq::empty())
    } else {
        match read_rows::<T>(h, rs.drop_last()) {
            Err(e) => Err(e),
            Ok(prev) => match T::from_row(h, rs.last(), rs.len() as nat) {
                Err(e) => Err(e),
                Ok(v) => Ok(prev.push(v)),
            },
        }
    }
}

proof fn lemma_read_rows_err<T: CsvItem>(h: Seq<Seq<char>>, rs: Seq<Seq<Seq<char>>>, k: int)
    requires
        0 <= k <= rs.len(),
        read_rows::<T>(h, rs.take(k)) is Err,
    ensures
        read_rows::<T>(h, rs) == read_rows::<T>(h, rs.take(k)),
    decreases rs.len() - k,
{
    if k < rs.len() {
        assert(rs.take(k + 1).drop_last() =~= rs.take(k));
        lemma_read_rows_err::<T>(h, rs, k + 1);
    } else {
        assert(rs.take(k) =~= rs);
    }
}

proof fn lemma_header_index_first(h: Seq<Seq<char>>, name: Seq<char>, c: int)
    requires
        0 <= c < h.len(),
        h[c] == name,
        forall|j: int| 0 <= j < c ==> #[trigger] h[j] != name,
    ensures
        header_index(h, name) == Some(c),
    decreases c,
{
    if c > 0 {
        assert(h[0] != name);
        assert forall|j: int| 0 <= j < c - 1 implies #[trigger] h.drop_first()[j] != name by {
            assert(h.drop_first()[j] == h[j + 1]);
        }
        lemma_header_index_first(h.drop_first(), name, c - 1);
    }
}

proof fn lemma_header_index_none(h: Seq<Seq<char>>, name: Seq<char>)
    requires
        forall|j: int| 0 <= j < h.len() ==> #[trigger] h[j] != name,
    ensures
        header_index(h, name) is None,
    decreases h.len(),
{
    if h.len() > 0 {
        assert(h[0] != name);
        assert forall|j: int| 0 <= j < h.len() - 1 implies #[trigger] h.drop_first()[j] != name by {
            assert(h.drop_first()[j] == h[j + 1]);
        }
        lemma_header_index_none(h.drop_first(), name);
    }
}

proof fn lemma_read_rows_items<T: CsvItem>(h: Seq<Seq<char>>, rs: Seq<Seq<Seq<char>>>)
    ensures
        read_rows::<T>(h, rs) matches Ok(items) ==> items.len() == rs.len() && forall|k: int|
            0 <= k < rs.len() ==> T::from_row(h, #[trigger] rs[k], (k + 1) as nat) == Ok::<
                T::V,
                Seq<char>,
            >(items[k]),
    decreases rs.len(),
{
    if rs.len() > 0 {
        let pre = rs.drop_last();
        lemma_read_rows_items::<T>(h, pre);
        if let Ok(items) = read_rows::<T>(h, rs) {
            let prev = read_rows::<T>(h, pre)->Ok_0;
            assert(items == prev.push(T::from_row(h, rs.last(), rs.len() as nat)->Ok_0));
            assert forall|k: int| 0 <= k < rs.len() implies T::from_row(
                h,
                #[trigger] rs[k],
                (k + 1) as nat,
            ) == Ok::<T::V, Seq<char>>(items[k]) by {
                if k < pre.len() {
                    assert(pre[k] == rs[k]);
                }
            }
        }
    }
}

/// Whether `c` is the first column named `name`.
pub open spec fn first_column(h: Seq<Seq<char>>, name: Seq<char>, c: int) -> bool {
    0 <= c < h.len() && h[c] == name && forall|j: int| 0 <= j < c ==> #[trigger] h[j] != name
}

/// Whether no column is named `name`.
pub open spec fn no_column(h: Seq<Seq<char>>, name: Seq<char>) -> bool {
    forall|j: int| 0 <= j < h.len() ==> #[trigger] h[j] != name
}

/// Whether `v` holds, for a column `name`, the trimmed cell of the first
/// column so named, and nothing when there is no such column.
pub open spec fn from_column(h: Seq<Seq<char>>, r: Seq<Seq<char>>, name: Seq<char>, v: Seq<char>) -> bool {
    &&& forall|c: int| #[trigger] first_column(h, name, c) ==> v == cell(r, c)
    &&& no_column(h, name) ==> v.len() == 0
}

proof fn lemma_from_column(h: Seq<Seq<char>>, r: Seq<Seq<char>>, name: Seq<char>)
    ensures
        from_column(h, r, name, optional_spec(h, r, name)),
        forall|c: int| #[trigger] first_column(h, name, c) ==> field_spec(h, r, name) == Ok::<Seq<char>, Seq<char>>(cell(r, c)),
{
    assert forall|c: int| #[trigger] first_column(h, name, c) implies optional_spec(h, r, name) == cell(r, c)
        && field_spec(h, r, name) == Ok::<Seq<char>, Seq<char>>(cell(r, c)) by {
        lemma_header_index_first(h, name, c);
    }
    if no_column(h, name) {
        lemma_header_index_none(h, name);
    }
}

/// Whether a note's text fields are the cells of the columns of the same
/// names.
pub open spec fn note_from_columns(h: Seq<Seq<char>>, r: Seq<Seq<char>>, v: NoteV) -> bool {
    &&& from_column(h, r, "id"@, v.id)
    &&& from_column(h, r, "node_id"@, v.node_id)
    &&& from_column(h, r, "body"@, v.body)
    &&& from_column(h, r, "author"@, v.author)
    &&& from_column(h, r, "created_at"@, v.created_at)
    &&& from_column(h, r, "provenance"@, v.provenance)
}

/// Whether a node's text fields are the cells of the columns of the same
/// names.
pub open spec fn node_from_columns(h: Seq<Seq<char>>, r: Seq<Seq<char>>, v: NodeV) -> bool {
    &&& from_column(h, r, "id"@, v.id)
    &&& from_column(h, r, "type"@, v.node_type)
    &&& from_column(h, r, "name"@, v.name)
    &&& from_column(h, r, "description"@, v.props.description)
    &&& from_column(h, r, "domain_area"@, v.props.domain_area)
    &&& from_column(h, r, "provenance"@, v.props.provenance)
    &&& from_column(h, r, "created_at"@, v.props.created_at)
}

/// Whether an edge's text fields are the cells of the columns of the same
/// names.
pub open spec fn edge_from_columns(h: Seq<Seq<char>>, r: Seq<Seq<char>>, v: EdgeV) -> bool {
    &&& from_column(h, r, "source_id"@, v.source_id)
    &&& from_column(h, r, "relation"@, v.relation)
    &&& from_column(h, r, "target_id"@, v.target_id)
    &&& from_column(h, r, "detail"@, v.props.detail)
}

/// Notes read from a CSV table, one per record: each text field is the
/// trimmed cell of the record's first column of that name (empty where the
/// record is shorter, or where there is no such column).
pub proof fn law_notes_from_columns(h: Seq<Seq<char>>, rs: Seq<Seq<Seq<char>>>)
    ensures
        read_rows::<Note>(h, rs) matches Ok(items) ==> items.len() == rs.len() && forall|k: int|
            0 <= k < rs.len() ==> note_from_columns(h, #[trigger] rs[k], items[k]),
{
    lemma_read_rows_items::<Note>(h, rs);
    if let Ok(items) = read_rows::<Note>(h, rs) {
        assert forall|k: int| 0 <= k < rs.len() implies note_from_columns(h, #[trigger] rs[k], items[k]) by {
            let r = rs[k];
            assert(Note::from_row(h, r, (k + 1) as nat) == Ok::<NoteV, Seq<char>>(items[k]));
            lemma_from_column(h, r, "id"@);
            lemma_from_column(h, r, "node_id"@);
            lemma_from_column(h, r, "body"@);
            lemma_from_column(h, r, "author"@);
            lemma_from_column(h, r, "created_at"@);
            lemma_from_column(h, r, "provenance"@);
            if no_column(h, "id"@) {
                lemma_header_index_none(h, "id"@);
            }
            if no_column(h, "node_id"@) {
                lemma_header_index_none(h, "node_id"@);
            }
        }
    }
}

/// Nodes read from a CSV table, one per record: each text field is the
/// trimmed cell of the record's first column of that name (empty where the
/// record is shorter, or where there is no such column).
pub proof fn law_nodes_from_columns(h: Seq<Seq<char>>, rs: Seq<Seq<Seq<char>>>)
    ensures
        read_rows::<Node>(h, rs) matches Ok(items) ==> items.len() == rs.len() && forall|k: int|
            0 <= k < rs.len() ==> node_from_columns(h, #[trigger] rs[k], items[k]),
{
    lemma_read_rows_items::<Node>(h, rs);
    if let Ok(items) = read_rows::<Node>(h, rs) {
        assert forall|k: int| 0 <= k < rs.len() implies node_from_columns(h, #[trigger] rs[k], items[k]) by {
            let r = rs[k];
            assert(Node::from_row(h, r, (k + 1) as nat) == Ok::<NodeV, Seq<char>>(items[k]));
            lemma_from_column(h, r, "id"@);
            lemma_from_column(h, r, "type"@);
            lemma_from_column(h, r, "name"@);
            lemma_from_column(h, r, "description"@);
            lemma_from_column(h, r, "domain_area"@);
            lemma_from_column(h, r, "provenance"@);
            lemma_from_column(h, r, "created_at"@);
            if no_column(h, "id"@) {
                lemma_header_index_none(h, "id"@);
            }
            if no_column(h, "type"@) {
                lemma_header_index_none(h, "type"@);
            }
            if no_column(h, "name"@) {
                lemma_header_index_none(h, "name"@);
            }
        }
    }
}

/// Edges read from a CSV table, one per record: each text field is the
/// trimmed cell of the record's first column of that name (empty where the
/// record is shorter, or where there is no such column).
pub proof fn law_edges_from_columns(h: Seq<Seq<char>>, rs: Seq<Seq<Seq<char>>>)
    ensures
        read_rows::<Edge>(h, rs) matches Ok(items) ==> items.len() == rs.len() && forall|k: int|
            0 <= k < rs.len() ==> edge_from_columns(h, #[trigger] rs[k], items[k]),
{
    lemma_read_rows_items::<Edge>(h, rs);
    if let Ok(items) = read_rows::<Edge>(h, rs) {
        assert forall|k: int| 0 <= k < rs.len() implies edge_from_columns(h, #[trigger] rs[k], items[k]) by {
            let r = rs[k];
            assert(Edge::from_row(h, r, (k + 1) as nat) == Ok::<EdgeV, Seq<char>>(items[k]));
            lemma_from_column(h, r, "source_id"@);
            lemma_from_column(h, r, "relation"@);
            lemma_from_column(h, r, "target_id"@);
            lemma_from_column(h, r, "detail"@);
            if no_column(h, "source_id"@) {
                lemma_header_index_none(h, "source_id"@);
            }
            if no_column(h, "relation"@) {
                lemma_header_index_none(h, "relation"@);
            }
            if no_column(h, "target_id"@) {
                lemma_header_index_none(h, "target_id"@);
            }
        }
    }
}

/// The value of a table's records.
pub open spec fn records_view(rs: Seq<Vec<String>>) -> Seq<Seq<Seq<char>>> {
    rs.map_values(|r: Vec<String>| views(r@))
}

/// Reads every record of a table as an item.
pub fn read_table<T: CsvItem>(table: &CsvTable) -> (r: Result<Vec<T>, String>)
    ensures
        match read_rows::<T>(views(table.headers@), records_view(table.records@)) {
            Ok(v) => r matches Ok(x) && views(x@) == v,
            Err(e) => r matches Err(x) && x@ == e,
        },
{
    let ghost hv = views(table.headers@);
    let ghost rv = records_view(table.records@);
    let mut out: Vec<T> = Vec::new();
    let mut i: usize = 0;
    assert(rv.take(0) =~= Seq::<Seq<Seq<char>>>::empty());
    assert(views(out@) =~= Seq::<T::V>::empty());
    while i < table.records.len()
        invariant
            i <= table.records.len(),
            hv == views(table.headers@),
            rv == records_view(table.records@),
            read_rows::<T>(hv, rv.take(i as int)) == Ok::<Seq<T::V>, Seq<char>>(views(out@)),
        decreases table.records.len() - i,
    {
        proof {
            assert(rv.take(i + 1).drop_last() =~= rv.take(i as int));
            assert(rv.take(i + 1).last() == views(table.records@[i as int]@));
            assert(rv.take(i + 1).len() == i + 1);
        }
        match T::read_row(&table.headers, &table.records[i], i + 1) {
            Ok(item) => {
                let ghost before = views(out@);
                out.push(item);
                proof {
                    assert(views(out@) =~= before.push(item@));
                }
            },
            Err(e) => {
                proof {
                    assert(read_rows::<T>(hv, rv.take(i + 1)) == Err::<Seq<T::V>, Seq<char>>(e@));
                    lemma_read_rows_err::<T>(hv, rv, i + 1);
                }
                return Err(e);
            },
        }
        i += 1;
    }
    proof {
        assert(rv.take(i as int) =~= rv);
    }
    Ok(out)
}

// ---------------------------------------------------------------------------
// Merging
// ---------------------------------------------------------------------------

/// The position of the first item whose key is `k`.
pub open spec fn first_key_index<T: MergeItem>(items: Seq<T::V>, k: Seq<char>) -> Option<int>
    decreases items.len(),
{
    if items.len() == 0 {
        None
    } else if T::key_of(items[0]) == k {
        Some(0)
    } else {
        match first_key_index::<T>(items.drop_first(), k) {
            Some(i) => Some(i + 1),
            None => None,
        }
    }
}

/// The state of a merge of imported items.
pub struct CsvMergeV<V> {
    pub items: Seq<V>,
    pub added: nat,
    pub updated: nat,
    pub skipped: nat,
    pub conflicts: Seq<Seq<char>>,
}

/// Imported items merged in order: an item whose key exists replaces the
/// first such item when the new side is preferred, else it is skipped and,
/// when it differs, recorded as a conflict; an item with a new key is
/// added when admissible and skipped otherwise.
pub open spec fn csv_merge<T: CsvItem>(items: Seq<T::V>, src: Seq<T::V>, nodes: Seq<NodeV>, prefer_new: bool) -> CsvMergeV<T::V>
    decreases src.len(),
{
    if src.len() == 0 {
        CsvMergeV { items, added: 0, updated: 0, skipped: 0, conflicts: Seq::empty() }
    } else {
        let p = csv_merge::<T>(items, src.drop_last(), nodes, prefer_new);
        let x = src.last();
        match first_key_index::<T>(p.items, T::key_of(x)) {
            Some(i) => if prefer_new {
                CsvMergeV { items: p.items.update(i, x), updated: p.updated + 1, ..p }
            } else {
                CsvMergeV {
                    skipped: p.skipped + 1,
                    conflicts: if p.items[i] != x {
                        p.conflicts.push(T::entity() + " "@ + T::key_of(x))
                    } else {
                        p.conflicts
                    },
                    ..p
                }
            },
            None => if T::admissible(nodes, x) {
                CsvMergeV { items: p.items.push(x), added: p.added + 1, ..p }
            } else {
                CsvMergeV { skipped: p.skipped + 1, ..p }
            },
        }
    }
}

/// The first key index is a position holding that key.
pub proof fn lemma_first_key_index<T: MergeItem>(items: Seq<T::V>, k: Seq<char>)
    ensures
        first_key_index::<T>(items, k) matches Some(i) ==> 0 <= i < items.len() && T::key_of(
            items[i],
        ) == k,
    decreases items.len(),
{
    if items.len() > 0 {
        lemma_first_key_index::<T>(items.drop_first(), k);
    }
}

proof fn lemma_csv_merge_counts<T: CsvItem>(items: Seq<T::V>, src: Seq<T::V>, nodes: Seq<NodeV>, prefer_new: bool)
    ensures
        ({
            let m = csv_merge::<T>(items, src, nodes, prefer_new);
            m.added + m.updated + m.skipped == src.len()
        }),
    decreases src.len(),
{
    if src.len() > 0 {
        lemma_csv_merge_counts::<T>(items, src.drop_last(), nodes, prefer_new);
    }
}

/// The position of the first item whose key is `key`.
pub fn first_index_with_key<T: MergeItem>(items: &Vec<T>, key: &Vec<char>) -> (r: Option<usize>)
    ensures
        match r {
            Some(j) => first_key_index::<T>(views(items@), key@) == Some(j as int),
            None => first_key_index::<T>(views(items@), key@) is None,
        },
{
    let ghost iv = views(items@);
    let mut i: usize = 0;
    assert(iv.skip(0) =~= iv);
    while i < items.len()
        invariant
            i <= items.len(),
            iv == views(items@),
            first_key_index::<T>(iv, key@) == match first_key_index::<T>(iv.skip(i as int), key@) {
                Some(k) => Some(k + i),
                None => None::<int>,
            },
        decreases items.len() - i,
    {
        proof {
            assert(iv.skip(i as int)[0] == items@[i as int]@);
            assert(iv.skip(i as int).drop_first() =~= iv.skip(i + 1));
        }
        let k = items[i].merge_key();
        if chars_eq(k.as_slice(), key.as_slice()) {
            return Some(i);
        }
        i += 1;
    }
    proof {
        assert(iv.skip(i as int) =~= Seq::<T::V>::empty());
    }
    None
}

/// Merges imported items into `items`; gives how many were added, updated
/// and skipped, and appends conflicts to `conflicts`.
fn csv_merge_list<T: CsvItem>(
    items: &mut Vec<T>,
    src: Vec<T>,
    nodes: &Vec<Node>,
    prefer_new: bool,
    conflicts: &mut Vec<String>,
) -> (r: (usize, usize, usize))
    ensures
        ({
            let m = csv_merge::<T>(views(old(items)@), views(src@), views(nodes@), prefer_new);
            &&& views(final(items)@) == m.items
            &&& r.0 as nat == m.added
            &&& r.1 as nat == m.updated
            &&& r.2 as nat == m.skipped
            &&& views(final(conflicts)@) == views(old(conflicts)@) + m.conflicts
        }),
{
    let ghost start = views(items@);
    let ghost c0 = views(conflicts@);
    let ghost sv = views(src@);
    let ghost nv = views(nodes@);
    let mut added: usize = 0;
    let mut updated: usize = 0;
    let mut skipped: usize = 0;
    let mut i: usize = 0;
    while i < src.len()
        invariant
            i <= src.len(),
            sv == views(src@),
            nv == views(nodes@),
            ({
                let m = csv_merge::<T>(start, sv.take(i as int), nv, prefer_new);
                &&& views(items@) == m.items
                &&& added as nat == m.added
                &&& updated as nat == m.updated
                &&& skipped as nat == m.skipped
                &&& views(conflicts@) == c0 + m.conflicts
            }),
        decreases src.len() - i,
    {
        let ghost x = src@[i as int]@;
        let ghost p = csv_merge::<T>(start, sv.take(i as int), nv, prefer_new);
        proof {
            assert(sv.take(i + 1).drop_last() =~= sv.take(i as int));
            assert(sv.take(i + 1).last() == x);
            lemma_csv_merge_counts::<T>(start, sv.take(i as int), nv, prefer_new);
            lemma_first_key_index::<T>(p.items, T::key_of(x));
        }
        let key = src[i].merge_key();
        match first_index_with_key(items, &key) {
            Some(idx) => {
                if prefer_new {
                    let ghost before = views(items@);
                    let item = src[i].duplicate();
                    items.set(idx, item);
                    proof {
                        assert(views(items@) =~= before.update(idx as int, x));
                    }
                    updated += 1;
                } else {
                    if !items[idx].same_value(&src[i]) {
                        let mut m: Vec<char> = Vec::new();
                        append_str(&mut m, T::entity_name());
                        append_str(&mut m, " ");
                        append_chars(&mut m, key.as_slice());
                        let ghost before = views(conflicts@);
                        conflicts.push(string_of(m.as_slice()));
                        proof {
                            assert(views(conflicts@) =~= before.push(T::entity() + " "@ + T::key_of(x)));
                        }
                    }
                    skipped += 1;
                }
            },
            None => {
                if src[i].admissible_exec(nodes) {
                    let ghost before = views(items@);
                    let item = src[i].duplicate();
                    items.push(item);
                    proof {
                        assert(views(items@) =~= before.push(x));
                    }
                    added += 1;
                } else {
                    skipped += 1;
                }
            },
        }
        i += 1;
    }
    proof {
        assert(sv.take(i as int) =~= sv);
    }
    (added, updated, skipped)
}

/// The value of a table: header names and record cells.
pub open spec fn table_view(t: CsvTable) -> (Seq<Seq<char>>, Seq<Seq<Seq<char>>>) {
    (views(t.headers@), records_view(t.records@))
}

/// Where an import stands after each kind of item.
pub struct ImportV {
    pub graph: GraphV,
    pub nodes: (nat, nat, nat),
    pub edges: (nat, nat, nat),
    pub notes: (nat, nat, nat),
    pub conflicts: Seq<Seq<char>>,
    pub error: Option<Seq<char>>,
}

/// The nodes table merged in, unless an error came first.
pub open spec fn import_nodes_stage(st: ImportV, t: Option<(Seq<Seq<char>>, Seq<Seq<Seq<char>>>)>, pn: bool) -> ImportV {
    match t {
        None => st,
        Some(t) => if st.error is Some {
            st
        } else {
            match read_rows::<Node>(t.0, t.1) {
                Err(e) => ImportV { error: Some(e), ..st },
                Ok(items) => {
                    let m = csv_merge::<Node>(st.graph.nodes, items, Seq::empty(), pn);
                    ImportV {
                        graph: GraphV { nodes: m.items, ..st.graph },
                        nodes: (m.added, m.updated, m.skipped),
                        conflicts: st.conflicts + m.conflicts,
                        ..st
                    }
                },
            }
        },
    }
}

/// The edges table merged in, unless an error came first.
pub open spec fn import_edges_stage(st: ImportV, t: Option<(Seq<Seq<char>>, Seq<Seq<Seq<char>>>)>, pn: bool) -> ImportV {
    match t {
        None => st,
        Some(t) => if st.error is Some {
            st
        } else {
            match read_rows::<Edge>(t.0, t.1) {
                Err(e) => ImportV { error: Some(e), ..st },
                Ok(items) => {
                    let m = csv_merge::<Edge>(st.graph.edges, items, st.graph.nodes, pn);
                    ImportV {
                        graph: GraphV { edges: m.items, ..st.graph },
                        edges: (m.added, m.updated, m.skipped),
                        conflicts: st.conflicts + m.conflicts,
                        ..st
                    }
                },
            }
        },
    }
}

/// The notes table merged in, unless an error came first.
pub open spec fn import_notes_stage(st: ImportV, t: Option<(Seq<Seq<char>>, Seq<Seq<Seq<char>>>)>, pn: bool) -> ImportV {
    match t {
        None => st,
        Some(t) => if st.error is Some {
            st
        } else {
            match read_rows::<Note>(t.0, t.1) {
                Err(e) => ImportV { error: Some(e), ..st },
                Ok(items) => {
                    let m = csv_merge::<Note>(st.graph.notes, items, st.graph.nodes, pn);
                    ImportV {
                        graph: GraphV { notes: m.items, ..st.graph },
                        notes: (m.added, m.updated, m.skipped),
                        conflicts: st.conflicts + m.conflicts,
                        ..st
                    }
                },
            }
        },
    }
}

/// Nodes, then edges, then notes imported into `g`.
pub open spec fn import_spec(
    g: GraphV,
    nodes: Option<(Seq<Seq<char>>, Seq<Seq<Seq<char>>>)>,
    edges: Option<(Seq<Seq<char>>, Seq<Seq<Seq<char>>>)>,
    notes: Option<(Seq<Seq<char>>, Seq<Seq<Seq<char>>>)>,
    pn: bool,
) -> ImportV {
    let st0 = ImportV {
        graph: g,
        nodes: (0, 0, 0),
        edges: (0, 0, 0),
        notes: (0, 0, 0),
        conflicts: Seq::empty(),
        error: None,
    };
    import_notes_stage(import_edges_stage(import_nodes_stage(st0, nodes, pn), edges, pn), notes, pn)
}

/// The value of an optional table.
pub open spec fn opt_table(t: Option<&CsvTable>) -> Option<(Seq<Seq<char>>, Seq<Seq<Seq<char>>>)> {
    match t {
        Some(t) => Some(table_view(*t)),
        None => None,
    }
}

/// The graph with its counts refreshed.
pub open spec fn with_counts(g: GraphV) -> GraphV {
    GraphV {
        metadata: MetadataV { node_count: g.nodes.len(), edge_count: g.edges.len(), ..g.metadata },
        ..g
    }
}

/// Imports the given tables into `graph`: nodes, then edges (between
/// existing nodes), then notes (on existing nodes).  On an error in a
/// table, the items merged from the tables before it stay merged.
pub fn import_csv_tables(
    graph: &mut GraphFile,
    nodes: Option<&CsvTable>,
    edges: Option<&CsvTable>,
    notes: Option<&CsvTable>,
    strategy: CsvStrategy,
) -> (r: Result<CsvImportSummary, String>)
    ensures
        ({
            let st = import_spec(
                old(graph)@,
                opt_table(nodes),
                opt_table(edges),
                opt_table(notes),
                strategy is PreferNew,
            );
            match r {
                Ok(s) => st.error is None && final(graph)@ == with_counts(st.graph) && (
                s.nodes_added as nat, s.nodes_updated as nat, s.nodes_skipped as nat) == st.nodes
                    && (s.edges_added as nat, s.edges_updated as nat, s.edges_skipped as nat)
                    == st.edges && (s.notes_added as nat, s.notes_updated as nat, s.notes_skipped
                    as nat) == st.notes && views(s.conflicts@) == st.conflicts,
                Err(e) => st.error == Some(e@) && final(graph)@ == st.graph,
            }
        }),
{
    let pn = strategy.is_prefer_new();
    let mut summary = CsvImportSummary::new();
    let ghost st0 = ImportV {
        graph: graph@,
        nodes: (0, 0, 0),
        edges: (0, 0, 0),
        notes: (0, 0, 0),
        conflicts: Seq::empty(),
        error: None,
    };
    proof {
        assert(views(summary.conflicts@) =~= Seq::<Seq<char>>::empty());
    }
    let ghost st1 = import_nodes_stage(st0, opt_table(nodes), pn);
    if let Some(t) = nodes {
        match read_table::<Node>(t) {
            Err(e) => {
                return Err(e);
            },
            Ok(items) => {
                let empty: Vec<Node> = Vec::new();
                proof {
                    assert(views(empty@) =~= Seq::<NodeV>::empty());
                }
                let (a, u, k) = csv_merge_list(&mut graph.nodes, items, &empty, pn, &mut summary.conflicts);
                summary.nodes_added = a;
                summary.nodes_updated = u;
                summary.nodes_skipped = k;
            },
        }
    }
    proof {
        assert(graph@ =~= st1.graph);
    }
    let ghost st2 = import_edges_stage(st1, opt_table(edges), pn);
    if let Some(t) = edges {
        match read_table::<Edge>(t) {
            Err(e) => {
                return Err(e);
            },
            Ok(items) => {
                let (a, u, k) = csv_merge_list(&mut graph.edges, items, &graph.nodes, pn, &mut summary.conflicts);
                summary.edges_added = a;
                summary.edges_updated = u;
                summary.edges_skipped = k;
            },
        }
    }
    proof {
        assert(graph@ =~= st2.graph);
    }
    let ghost st3 = import_notes_stage(st2, opt_table(notes), pn);
    if let Some(t) = notes {
        match read_table::<Note>(t) {
            Err(e) => {
                return Err(e);
            },
            Ok(items) => {
                let (a, u, k) = csv_merge_list(&mut graph.notes, items, &graph.nodes, pn, &mut summary.conflicts);
                summary.notes_added = a;
                summary.notes_updated = u;
                summary.notes_skipped = k;
            },
        }
    }
    proof {
        assert(graph@ =~= st3.graph);
    }
    graph.refresh_counts();
    Ok(summary)
}

/// What the `csv` crate reads from a text (fields trimmed, first row the
/// headers): the headers and the rows, or where reading failed (`None` for
/// the header row, else the row's position) and the crate's message.
pub uninterp spec fn csv_parse(text: Seq<char>) -> Result<(Seq<Seq<char>>, Seq<Seq<Seq<char>>>), (Option<usize>, Seq<char>)>;

/// Reads CSV text with the `csv` crate (`ReaderBuilder` with `Trim::All`,
/// `headers`, then `records`). The contract claims only that the result is
/// what the crate reads from this text: the tables it gives are
/// `csv_parse(text)`, and so is the failure.
#[verifier::external_body]
fn parse_csv_text(text: &str) -> (r: Result<CsvTable, (Option<usize>, String)>)
    ensures
        match r {
            Ok(t) => csv_parse(text@) == Ok::<(Seq<Seq<char>>, Seq<Seq<Seq<char>>>), (Option<usize>, Seq<char>)>(table_view(t)),
            Err((at, e)) => csv_parse(text@) == Err::<(Seq<Seq<char>>, Seq<Seq<Seq<char>>>), (Option<usize>, Seq<char>)>((at, e@)),
        },
{
    let mut reader = csv::ReaderBuilder::new().trim(csv::Trim::All).from_reader(text.as_bytes());
    let headers = match reader.headers() {
        Ok(h) => h.iter().map(|f| f.to_owned()).collect(),
        Err(e) => return Err((None, e.to_string())),
    };
    let mut records = Vec::new();
    for (idx, record) in reader.records().enumerate() {
        match record {
            Ok(r) => records.push(r.iter().map(|f| f.to_owned()).collect()),
            Err(e) => return Err((Some(idx), e.to_string())),
        }
    }
    Ok(CsvTable { headers, records })
}

/// The message for CSV text that could not be read.
pub open spec fn csv_error_text(entity: Seq<char>, at: Option<usize>, e: Seq<char>) -> Seq<char> {
    match at {
        Some(i) => "failed to read "@ + entity + " CSV row "@ + decimal((i + 1) as nat),
        None => e,
    }
}

/// The CSV text of one kind read, unless an error came first.
pub open spec fn parse_stage(st: ImportV, text: Option<Seq<char>>, entity: Seq<char>) -> (ImportV, Option<(Seq<Seq<char>>, Seq<Seq<Seq<char>>>)>) {
    match text {
        None => (st, None),
        Some(t) => if st.error is Some {
            (st, None)
        } else {
            match csv_parse(t) {
                Err((at, e)) => (ImportV { error: Some(csv_error_text(entity, at, e)), ..st }, None),
                Ok(tab) => (st, Some(tab)),
            }
        },
    }
}

/// Nodes, then edges, then notes read from CSV texts and imported into
/// `g`; each text is read just before its items are merged.
pub open spec fn import_texts_spec(g: GraphV, nodes: Option<Seq<char>>, edges: Option<Seq<char>>, notes: Option<Seq<char>>, pn: bool) -> ImportV {
    let st0 = ImportV {
        graph: g,
        nodes: (0, 0, 0),
        edges: (0, 0, 0),
        notes: (0, 0, 0),
        conflicts: Seq::empty(),
        error: None,
    };
    let (a, tn) = parse_stage(st0, nodes, "nodes"@);
    let s1 = import_nodes_stage(a, tn, pn);
    let (b, te) = parse_stage(s1, edges, "edges"@);
    let s2 = import_edges_stage(b, te, pn);
    let (c, to) = parse_stage(s2, notes, "notes"@);
    import_notes_stage(c, to, pn)
}

/// The text of an optional string slice.
pub open spec fn opt_text(t: Option<&str>) -> Option<Seq<char>> {
    match t {
        Some(s) => Some(s@),
        None => None,
    }
}

fn read_csv(text: &str, entity: &str) -> (r: Result<CsvTable, String>)
    ensures
        match r {
            Ok(t) => csv_parse(text@) == Ok::<(Seq<Seq<char>>, Seq<Seq<Seq<char>>>), (Option<usize>, Seq<char>)>(table_view(t)),
            Err(e) => csv_parse(text@) matches Err((at, m)) && e@ == csv_error_text(entity@, at, m),
        },
{
    match parse_csv_text(text) {
        Ok(t) => Ok(t),
        Err((at, m)) => match at {
            Some(i) => {
                let mut out = chars_of("failed to read ");
                append_str(&mut out, entity);
                append_str(&mut out, " CSV row ");
                append_chars(&mut out, crate::text::decimal_u128((i as u128) + 1).as_slice());
                Err(string_of(out.as_slice()))
            },
            None => Err(m),
        },
    }
}

/// Reads the CSV texts of nodes, edges and notes and imports them into
/// `graph`, as [`import_texts_spec`] states: each text is read just before
/// its items are merged; the first error ends the import, and the items
/// merged before it stay merged. The counts are refreshed on success.
pub fn import_csv_texts(
    graph: &mut GraphFile,
    nodes: Option<&str>,
    edges: Option<&str>,
    notes: Option<&str>,
    strategy: CsvStrategy,
) -> (r: Result<CsvImportSummary, String>)
    ensures
        ({
            let st = import_texts_spec(old(graph)@, opt_text(nodes), opt_text(edges), opt_text(notes), strategy is PreferNew);
            match r {
                Ok(s) => st.error is None && final(graph)@ == with_counts(st.graph) && (
                s.nodes_added as nat, s.nodes_updated as nat, s.nodes_skipped as nat) == st.nodes
                    && (s.edges_added as nat, s.edges_updated as nat, s.edges_skipped as nat)
                    == st.edges && (s.notes_added as nat, s.notes_updated as nat, s.notes_skipped
                    as nat) == st.notes && views(s.conflicts@) == st.conflicts,
                Err(e) => st.error == Some(e@) && final(graph)@ == st.graph,
            }
        }),
{
    let pn = strategy.is_prefer_new();
    let mut summary = CsvImportSummary::new();
    let ghost st0 = ImportV {
        graph: graph@,
        nodes: (0, 0, 0),
        edges: (0, 0, 0),
        notes: (0, 0, 0),
        conflicts: Seq::empty(),
        error: None,
    };
    proof {
        assert(views(summary.conflicts@) =~= Seq::<Seq<char>>::empty());
    }
    let ghost st1 = import_nodes_stage(parse_stage(st0, opt_text(nodes), "nodes"@).0, parse_stage(st0, opt_text(nodes), "nodes"@).1, pn);
    if let Some(text) = nodes {
        let t = match read_csv(text, "nodes") {
            Err(e) => {
                return Err(e);
            },
            Ok(t) => t,
        };
        match read_table::<Node>(&t) {
            Err(e) => {
                return Err(e);
            },
            Ok(items) => {
                let empty: Vec<Node> = Vec::new();
                proof {
                    assert(views(empty@) =~= Seq::<NodeV>::empty());
                }
                let (a, u, k) = csv_merge_list(&mut graph.nodes, items, &empty, pn, &mut summary.conflicts);
                summary.nodes_added = a;
                summary.nodes_updated = u;
                summary.nodes_skipped = k;
            },
        }
    }
    proof {
        assert(graph@ =~= st1.graph);
    }
    let ghost st2 = import_edges_stage(parse_stage(st1, opt_text(edges), "edges"@).0, parse_stage(st1, opt_text(edges), "edges"@).1, pn);
    if let Some(text) = edges {
        let t = match read_csv(text, "edges") {
            Err(e) => {
                return Err(e);
            },
            Ok(t) => t,
        };
        match read_table::<Edge>(&t) {
            Err(e) => {
                return Err(e);
            },
            Ok(items) => {
                let (a, u, k) = csv_merge_list(&mut graph.edges, items, &graph.nodes, pn, &mut summary.conflicts);
                summary.edges_added = a;
                summary.edges_updated = u;
                summary.edges_skipped = k;
            },
        }
    }
    proof {
        assert(graph@ =~= st2.graph);
    }
    let ghost st3 = import_notes_stage(parse_stage(st2, opt_text(notes), "notes"@).0, parse_stage(st2, opt_text(notes), "notes"@).1, pn);
    if let Some(text) = notes {
        let t = match read_csv(text, "notes") {
            Err(e) => {
                return Err(e);
            },
            Ok(t) => t,
        };
        match read_table::<Note>(&t) {
            Err(e) => {
                return Err(e);
            },
            Ok(items) => {
                let (a, u, k) = csv_merge_list(&mut graph.notes, items, &graph.nodes, pn, &mut summary.conflicts);
                summary.notes_added = a;
                summary.notes_updated = u;
                summary.notes_skipped = k;
            },
        }
    }
    proof {
        assert(graph@ =~= st3.graph);
    }
    graph.refresh_counts();
    Ok(summary)
}

/// `<label>: +a ~u !s`.
pub open spec fn count_line(label: Seq<char>, a: nat, u: nat, s: nat) -> Seq<char> {
    label + ": +"@ + decimal(a) + " ~"@ + decimal(u) + " !"@ + decimal(s)
}

/// The lines reporting conflicts: their number, the first ten, an ellipsis
/// when there are more, and a suggestion.
pub open spec fn conflict_lines(c: Seq<Seq<char>>) -> Seq<Seq<char>> {
    if c.len() == 0 {
        Seq::empty()
    } else {
        seq!["conflicts: "@ + decimal(c.len())] + c.take(
            if c.len() > 10 {
                10
            } else {
                c.len() as int
            },
        ).map_values(|x: Seq<char>| "! "@ + x) + (if c.len() > 10 {
            seq!["! ..."@]
        } else {
            Seq::empty()
        }) + seq!["suggestion: re-run with --strategy prefer-new or resolve manually"@]
    }
}

fn count_line_exec(label: &str, a: usize, u: usize, s: usize) -> (r: String)
    ensures
        r@ == count_line(label@, a as nat, u as nat, s as nat),
{
    let mut out: Vec<char> = Vec::new();
    append_str(&mut out, label);
    append_str(&mut out, ": +");
    append_chars(&mut out, decimal_usize(a).as_slice());
    append_str(&mut out, " ~");
    append_chars(&mut out, decimal_usize(u).as_slice());
    append_str(&mut out, " !");
    append_chars(&mut out, decimal_usize(s).as_slice());
    string_of(out.as_slice())
}

/// The report of an import, one line per kind of item, then the conflicts.
pub fn merge_summary_lines(summary: &CsvImportSummary) -> (r: Vec<String>)
    ensures
        views(r@) == seq![
            count_line("nodes"@, summary.nodes_added as nat, summary.nodes_updated as nat, summary.nodes_skipped as nat),
            count_line("edges"@, summary.edges_added as nat, summary.edges_updated as nat, summary.edges_skipped as nat),
            count_line("notes"@, summary.notes_added as nat, summary.notes_updated as nat, summary.notes_skipped as nat),
        ] + conflict_lines(views(summary.conflicts@)),
{
    let mut lines: Vec<String> = Vec::new();
    lines.push(count_line_exec("nodes", summary.nodes_added, summary.nodes_updated, summary.nodes_skipped));
    lines.push(count_line_exec("edges", summary.edges_added, summary.edges_updated, summary.edges_skipped));
    lines.push(count_line_exec("notes", summary.notes_added, summary.notes_updated, summary.notes_skipped));
    let ghost head = views(lines@);
    let ghost cv = views(summary.conflicts@);
    let n = summary.conflicts.len();
    if n > 0 {
        let mut h: Vec<char> = Vec::new();
        append_str(&mut h, "conflicts: ");
        append_chars(&mut h, decimal_usize(n).as_slice());
        lines.push(string_of(h.as_slice()));
        let lim: usize = if n > 10 {
            10
        } else {
            n
        };
        let ghost mid = views(lines@);
        let mut i: usize = 0;
        while i < lim
            invariant
                i <= lim <= n,
                n == summary.conflicts.len(),
                cv == views(summary.conflicts@),
                views(lines@) == mid + cv.take(i as int).map_values(|x: Seq<char>| "! "@ + x),
            decreases lim - i,
        {
            let mut l: Vec<char> = Vec::new();
            append_str(&mut l, "! ");
            append_str(&mut l, summary.conflicts[i].as_str());
            let ghost before = views(lines@);
            lines.push(string_of(l.as_slice()));
            proof {
                assert(cv.take(i + 1).map_values(|x: Seq<char>| "! "@ + x) =~= cv.take(i as int).map_values(
                    |x: Seq<char>| "! "@ + x,
                ).push("! "@ + cv[i as int]));
                assert(views(lines@) =~= before.push(l@));
            }
            i += 1;
        }
        let ghost body = views(lines@);
        if n > 10 {
            lines.push(String::from_str("! ..."));
        }
        lines.push(String::from_str("suggestion: re-run with --strategy prefer-new or resolve manually"));
        proof {
            if n > 10 {
                assert(views(lines@) =~= body + seq!["! ..."@] + seq![
                    "suggestion: re-run with --strategy prefer-new or resolve manually"@
                ]);
            } else {
                assert(views(lines@) =~= body + seq![
                    "suggestion: re-run with --strategy prefer-new or resolve manually"@
                ]);
            }
            assert(views(lines@) =~= head + conflict_lines(cv));
        }
    } else {
        proof {
            assert(views(lines@) =~= head + conflict_lines(cv));
        }
    }
    lines
}

} // verus!
