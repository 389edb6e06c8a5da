//! Adding a batch of nodes to a graph: each node is checked (type,
//! sources, required fields, provenance, ranges, timestamp, source
//! references, conflicts) and added, skipped or refused. In atomic mode the
//! first refusal ends the batch with an error; otherwise refusals are
//! collected and the rest is added.
use vstd::prelude::*;
use crate::analysis::has_node;
use crate::graph::{copy_string, GraphFile, Node, NodeProperties, NodePropsV, NodeV, default_node_props};
use crate::sorting::views;
use crate::source_refs::{is_valid_iso_utc_timestamp, shaped, source_reference_error, validate_source_reference};
use crate::text::{append_str, chars_of, is_digit, str_eq, string_of, trim, trim_chars};

verus! {

broadcast use vstd::string::group_string_axioms;

/// A node to add, as the caller sent it. `canonical_id` is the id in its
/// canonical form for the node's type, or the reason it has none.
pub struct BatchNode {
    pub id: String,
    pub canonical_id: Result<String, String>,
    pub node_type: String,
    pub name: String,
    pub description: Option<String>,
    pub domain_area: Option<String>,
    pub provenance: Option<String>,
    pub created_at: Option<String>,
    /// The confidence as decimal text.
    pub confidence: Option<String>,
    /// The importance as decimal text.
    pub importance: Option<String>,
    pub facts: Vec<String>,
    pub aliases: Vec<String>,
    pub sources: Vec<String>,
}

/// A node to add, as values.
pub struct BatchNodeV {
    pub id: Seq<char>,
    pub canonical_id: Result<Seq<char>, Seq<char>>,
    pub node_type: Seq<char>,
    pub name: Seq<char>,
    pub description: Seq<char>,
    pub domain_area: Seq<char>,
    pub provenance: Seq<char>,
    pub created_at: Seq<char>,
    pub confidence: Option<Seq<char>>,
    pub importance: Option<Seq<char>>,
    pub facts: Seq<Seq<char>>,
    pub aliases: Seq<Seq<char>>,
    pub sources: Seq<Seq<char>>,
}

/// A text that may be missing, read as empty when it is.
pub open spec fn or_empty(o: Option<String>) -> Seq<char> {
    match o {
        Some(s) => s@,
        None => Seq::empty(),
    }
}

impl View for BatchNode {
    type V = BatchNodeV;

    open spec fn view(&self) -> BatchNodeV {
        BatchNodeV {
            id: self.id@,
            canonical_id: match self.canonical_id {
                Ok(s) => Ok(s@),
                Err(e) => Err(e@),
            },
            node_type: self.node_type@,
            name: self.name@,
            description: or_empty(self.description),
            domain_area: or_empty(self.domain_area),
            provenance: or_empty(self.provenance),
            created_at: or_empty(self.created_at),
            confidence: crate::graph::opt_view(self.confidence),
            importance: crate::graph::opt_view(self.importance),
            facts: views(self.facts@),
            aliases: views(self.aliases@),
            sources: views(self.sources@),
        }
    }
}

/// The node types a node can have.
pub open spec fn valid_node_type(t: Seq<char>) -> bool {
    t == "Concept"@ || t == "Process"@ || t == "DataStore"@ || t == "Interface"@ || t == "Rule"@ || t
        == "Feature"@ || t == "Decision"@ || t == "Convention"@ || t == "Note"@ || t == "Bug"@
}

/// Digits only (possibly none).
pub open spec fn all_digits_seq(s: Seq<char>) -> bool {
    forall|i: int| 0 <= i < s.len() ==> is_digit(#[trigger] s[i])
}

/// Only zeros (possibly none).
pub open spec fn all_zeros(s: Seq<char>) -> bool {
    forall|i: int| 0 <= i < s.len() ==> #[trigger] s[i] == '0'
}

/// The position of the first `.`, or the length.
pub open spec fn dot_at(s: Seq<char>) -> int
    decreases s.len(),
{
    if s.len() == 0 {
        0
    } else if s[0] == '.' {
        0
    } else {
        1 + dot_at(s.drop_first())
    }
}

/// Whether a decimal text (an optional `-`, digits, then optionally `.`
/// and digits) stands for a number from 0 to 1.
pub open spec fn in_unit_range(t: Seq<char>) -> bool {
    let neg = t.len() > 0 && t[0] == '-';
    let body = if neg { t.drop_first() } else { t };
    let k = dot_at(body);
    let int_part = body.take(k);
    let frac = if k < body.len() { body.skip(k + 1) } else { Seq::empty() };
    let well = int_part.len() > 0 && all_digits_seq(int_part) && all_digits_seq(frac) && (k < body.len()
        ==> frac.len() > 0);
    let zero = all_zeros(int_part) && all_zeros(frac);
    let at_most_one = all_zeros(int_part) || (all_zeros(int_part.drop_last()) && int_part.last() == '1'
        && all_zeros(frac));
    well && (zero || (!neg && at_most_one))
}

/// The first source reference that is refused, with the reason.
pub open spec fn first_bad_source(sources: Seq<Seq<char>>) -> Option<(Seq<char>, Seq<char>)>
    decreases sources.len(),
{
    if sources.len() == 0 {
        None
    } else {
        match source_reference_error(sources[0]) {
            Some(e) => Some((sources[0], e)),
            None => first_bad_source(sources.drop_first()),
        }
    }
}

/// What happens to one node of a batch.
pub enum ItemOutcome {
    /// It is added as this node.
    Add(NodeV),
    /// A node with its id exists and conflicts are skipped.
    Skip(Seq<char>),
    /// It is refused: the id, the reason, and whether it was a conflict.
    Fail(Seq<char>, Seq<char>, bool),
}

/// The node types as the error message lists them.
pub open spec fn node_types_text() -> Seq<char> {
    "[\"Concept\", \"Process\", \"DataStore\", \"Interface\", \"Rule\", \"Feature\", \"Decision\", \"Convention\", \"Note\", \"Bug\"]"@
}

/// The node added for an accepted item.
pub open spec fn added_node(id: Seq<char>, it: BatchNodeV) -> NodeV {
    NodeV {
        id,
        node_type: it.node_type,
        name: it.name,
        props: NodePropsV {
            description: it.description,
            domain_area: it.domain_area,
            provenance: it.provenance,
            confidence: it.confidence,
            created_at: it.created_at,
            importance: it.importance->0,
            key_facts: it.facts,
            alias: it.aliases,
            ..default_node_props()
        },
        source_files: it.sources,
    }
}

/// The checks of one node, in order, against the nodes already there.
pub open spec fn check_item(ns: Seq<NodeV>, it: BatchNodeV, skip_conflicts: bool) -> ItemOutcome {
    match it.canonical_id {
        Err(e) => ItemOutcome::Fail(it.id, e, false),
        Ok(id) => if !valid_node_type(it.node_type) {
            ItemOutcome::Fail(id, "invalid node_type '"@ + it.node_type + "': expected one of "@ + node_types_text(), false)
        } else if it.sources.len() == 0 {
            ItemOutcome::Fail(id, "at least one source is required"@, false)
        } else if it.confidence is None {
            ItemOutcome::Fail(id, "confidence is required and must be in range 0..1"@, false)
        } else if it.importance is None {
            ItemOutcome::Fail(id, "importance is required and must be in range 0..1"@, false)
        } else if trim(it.description).len() == 0 || trim(it.domain_area).len() == 0 || trim(it.provenance).len()
            == 0 || trim(it.created_at).len() == 0 {
            ItemOutcome::Fail(id, "description, domain_area, provenance and created_at are required"@, false)
        } else if !(it.provenance == "U"@ || it.provenance == "D"@ || it.provenance == "A"@) {
            ItemOutcome::Fail(id, "provenance must be one of: U, D, A"@, false)
        } else if !in_unit_range(it.confidence->0) {
            ItemOutcome::Fail(id, "confidence out of range: "@ + it.confidence->0, false)
        } else if !in_unit_range(it.importance->0) {
            ItemOutcome::Fail(id, "importance out of range: "@ + it.importance->0, false)
        } else if !shaped(trim(it.created_at), "9999-99-99T99:99:99Z"@) {
            ItemOutcome::Fail(id, "created_at must use UTC format YYYY-MM-DDTHH:MM:SSZ"@, false)
        } else {
            match first_bad_source(it.sources) {
                Some((s, e)) => ItemOutcome::Fail(id, "invalid source '"@ + s + "': "@ + e, false),
                None => if has_node(ns, id) {
                    if skip_conflicts {
                        ItemOutcome::Skip(id)
                    } else {
                        ItemOutcome::Fail(id, "node already exists: "@ + id, true)
                    }
                } else {
                    ItemOutcome::Add(added_node(id, it))
                },
            }
        },
    }
}

/// The state of a batch: the nodes, and the ids created, skipped and
/// refused (with reasons).
pub struct BatchStateV {
    pub nodes: Seq<NodeV>,
    pub created: Seq<Seq<char>>,
    pub skipped: Seq<Seq<char>>,
    pub failed: Seq<(Seq<char>, Seq<char>)>,
}

/// Why an atomic batch stopped: the id, the reason, whether a conflict.
pub type BatchStopV = (Seq<char>, Seq<char>, bool);

/// The batch after its first `items`, or where an atomic batch stopped.
pub open spec fn batch_spec(ns: Seq<NodeV>, items: Seq<BatchNodeV>, atomic: bool, skip_conflicts: bool) -> Result<
    BatchStateV,
    BatchStopV,
>
    decreases items.len(),
{
    if items.len() == 0 {
        Ok(BatchStateV { nodes: ns, created: Seq::empty(), skipped: Seq::empty(), failed: Seq::empty() })
    } else {
        match batch_spec(ns, items.drop_last(), atomic, skip_conflicts) {
            Err(e) => Err(e),
            Ok(st) => match check_item(st.nodes, items.last(), skip_conflicts) {
                ItemOutcome::Add(n) => Ok(BatchStateV { nodes: st.nodes.push(n), created: st.created.push(n.id), ..st }),
                ItemOutcome::Skip(id) => Ok(BatchStateV { skipped: st.skipped.push(id), ..st }),
                ItemOutcome::Fail(id, e, c) => if atomic {
                    Err((id, e, c))
                } else {
                    Ok(BatchStateV { failed: st.failed.push((id, e)), ..st })
                },
            },
        }
    }
}

/// What a batch did: the ids created and skipped, and the refused ids
/// with their reasons.
#[derive(Debug)]
pub struct BatchOutcome {
    pub created: Vec<String>,
    pub skipped: Vec<String>,
    pub failed: Vec<(String, String)>,
}

/// Why a batch was refused.
#[derive(Debug, PartialEq, Eq)]
pub enum BatchError {
    /// The mode is neither `atomic` nor `best_effort`.
    InvalidMode(String),
    /// The conflict rule is neither `error` nor `skip`.
    InvalidOnConflict(String),
    /// In atomic mode, a node was refused: its id and the reason.
    InvalidNode(String, String),
    /// In atomic mode, a node's id already existed.
    Conflict(String, String),
}

fn all_digits_exec(s: &[char], a: usize, b: usize) -> (r: bool)
    requires
        a <= b <= s.len(),
    ensures
        r == all_digits_seq(s@.subrange(a as int, b as int)),
{
    let mut i = a;
    while i < b
        invariant
            a <= i <= b <= s.len(),
            forall|j: int| a <= j < i ==> is_digit(s@[j]),
        decreases b - i,
    {
        if !('0' <= s[i] && s[i] <= '9') {
            assert(!is_digit(s@.subrange(a as int, b as int)[i - a]));
            return false;
        }
        i += 1;
    }
    assert forall|j: int| 0 <= j < b - a implies is_digit(#[trigger] s@.subrange(a as int, b as int)[j]) by {
        assert(s@.subrange(a as int, b as int)[j] == s@[a + j]);
    }
    true
}

fn all_zeros_exec(s: &[char], a: usize, b: usize) -> (r: bool)
    requires
        a <= b <= s.len(),
    ensures
        r == all_zeros(s@.subrange(a as int, b as int)),
{
    let mut i = a;
    while i < b
        invariant
            a <= i <= b <= s.len(),
            forall|j: int| a <= j < i ==> s@[j] == '0',
        decreases b - i,
    {
        if s[i] != '0' {
            assert(s@.subrange(a as int, b as int)[i - a] != '0');
            return false;
        }
        i += 1;
    }
    assert forall|j: int| 0 <= j < b - a implies #[trigger] s@.subrange(a as int, b as int)[j] == '0' by {
        assert(s@.subrange(a as int, b as int)[j] == s@[a + j]);
    }
    true
}

proof fn lemma_dot_at(s: Seq<char>, k: int)
    requires
        0 <= k <= s.len(),
        forall|j: int| 0 <= j < k ==> s[j] != '.',
        k < s.len() ==> s[k] == '.',
    ensures
        dot_at(s) == k,
    decreases k,
{
    if k > 0 {
        lemma_dot_at(s.drop_first(), k - 1);
    }
}

/// Whether a decimal text stands for a number from 0 to 1, as
/// [`in_unit_range`] states.
pub fn is_in_unit_range(t: &str) -> (r: bool)
    ensures
        r == in_unit_range(t@),
{
    let c = chars_of(t);
    let neg = c.len() > 0 && c[0] == '-';
    let start: usize = if neg { 1 } else { 0 };
    let ghost body = if neg { c@.drop_first() } else { c@ };
    assert(body =~= c@.subrange(start as int, c.len() as int));
    let mut d = start;
    while d < c.len() && c[d] != '.'
        invariant
            start <= d <= c.len(),
            forall|j: int| start <= j < d ==> c@[j] != '.',
        decreases c.len() - d,
    {
        d += 1;
    }
    proof {
        lemma_dot_at(body, d - start);
    }
    let ghost k = d - start;
    let has_dot = d < c.len();
    let fs: usize = if has_dot { d + 1 } else { c.len() };
    assert(body.take(k) =~= c@.subrange(start as int, d as int));
    assert((if k < body.len() { body.skip(k + 1) } else { Seq::empty() }) =~= c@.subrange(fs as int, c.len() as int));
    let well = d > start && all_digits_exec(c.as_slice(), start, d) && all_digits_exec(c.as_slice(), fs, c.len())
        && (!has_dot || fs < c.len());
    let int_zero = all_zeros_exec(c.as_slice(), start, d);
    let frac_zero = all_zeros_exec(c.as_slice(), fs, c.len());
    let zero = int_zero && frac_zero;
    let one = d > start && all_zeros_exec(c.as_slice(), start, d - 1) && c[d - 1] == '1' && frac_zero;
    proof {
        if d > start {
            assert(c@.subrange(start as int, d as int).drop_last() =~= c@.subrange(start as int, d - 1));
            assert(c@.subrange(start as int, d as int).last() == c@[d - 1]);
        }
    }
    well && (zero || (!neg && (int_zero || one)))
}

fn first_bad_source_exec(sources: &Vec<String>) -> (r: Option<(String, String)>)
    ensures
        match r {
            Some((s, e)) => first_bad_source(views(sources@)) == Some((s@, e@)),
            None => first_bad_source(views(sources@)) is None,
        },
{
    let ghost sv = views(sources@);
    let mut i: usize = 0;
    assert(sv.skip(0) =~= sv);
    while i < sources.len()
        invariant
            i <= sources.len(),
            sv == views(sources@),
            first_bad_source(sv) == first_bad_source(sv.skip(i as int)),
        decreases sources.len() - i,
    {
        assert(sv.skip(i as int)[0] == sources@[i as int]@);
        assert(sv.skip(i as int).drop_first() =~= sv.skip(i + 1));
        match validate_source_reference(sources[i].as_str()) {
            Err(e) => {
                return Some((copy_string(&sources[i]), e));
            },
            Ok(()) => {},
        }
        i += 1;
    }
    assert(sv.skip(i as int) =~= Seq::<Seq<char>>::empty());
    None
}

fn text(s: &str) -> (r: String)
    ensures
        r@ == s@,
{
    string_of(chars_of(s).as_slice())
}

fn is_blank(o: &Option<String>) -> (r: bool)
    ensures
        r == (trim(or_empty(*o)).len() == 0),
{
    match o {
        Some(s) => trim_chars(chars_of(s.as_str()).as_slice()).len() == 0,
        None => true,
    }
}

fn text_or_empty(o: &Option<String>) -> (r: String)
    ensures
        r@ == or_empty(*o),
{
    match o {
        Some(s) => copy_string(s),
        None => String::new(),
    }
}

fn is_valid_node_type(t: &str) -> (r: bool)
    ensures
        r == valid_node_type(t@),
{
    str_eq(t, "Concept") || str_eq(t, "Process") || str_eq(t, "DataStore") || str_eq(t, "Interface")
        || str_eq(t, "Rule") || str_eq(t, "Feature") || str_eq(t, "Decision") || str_eq(t, "Convention")
        || str_eq(t, "Note") || str_eq(t, "Bug")
}

/// The outcome of the checks of one node, as exec values.
enum Checked {
    Add(Node),
    Skip(String),
    Fail(String, String, bool),
}

spec fn checked_view(c: Checked) -> ItemOutcome {
    match c {
        Checked::Add(n) => ItemOutcome::Add(n@),
        Checked::Skip(id) => ItemOutcome::Skip(id@),
        Checked::Fail(id, e, k) => ItemOutcome::Fail(id@, e@, k),
    }
}

fn prefixed(prefix: &str, s: &str) -> (r: String)
    ensures
        r@ == prefix@ + s@,
{
    let mut out = chars_of(prefix);
    append_str(&mut out, s);
    string_of(out.as_slice())
}

fn check_item_exec(graph: &GraphFile, it: &BatchNode, skip_conflicts: bool) -> (r: Checked)
    ensures
        checked_view(r) == check_item(graph@.nodes, it@, skip_conflicts),
{
    let id = match &it.canonical_id {
        Err(e) => {
            return Checked::Fail(copy_string(&it.id), copy_string(e), false);
        },
        Ok(id) => id,
    };
    if !is_valid_node_type(it.node_type.as_str()) {
        let mut out = chars_of("invalid node_type '");
        append_str(&mut out, it.node_type.as_str());
        append_str(&mut out, "': expected one of ");
        append_str(
            &mut out,
            "[\"Concept\", \"Process\", \"DataStore\", \"Interface\", \"Rule\", \"Feature\", \"Decision\", \"Convention\", \"Note\", \"Bug\"]",
        );
        return Checked::Fail(copy_string(id), string_of(out.as_slice()), false);
    }
    if it.sources.len() == 0 {
        return Checked::Fail(copy_string(id), text("at least one source is required"), false);
    }
    let confidence = match &it.confidence {
        None => {
            return Checked::Fail(copy_string(id), text("confidence is required and must be in range 0..1"), false);
        },
        Some(c) => c,
    };
    let importance = match &it.importance {
        None => {
            return Checked::Fail(copy_string(id), text("importance is required and must be in range 0..1"), false);
        },
        Some(c) => c,
    };
    if is_blank(&it.description) || is_blank(&it.domain_area) || is_blank(&it.provenance) || is_blank(
        &it.created_at,
    ) {
        return Checked::Fail(
            copy_string(id),
            text("description, domain_area, provenance and created_at are required"),
            false,
        );
    }
    let provenance = text_or_empty(&it.provenance);
    if !(str_eq(provenance.as_str(), "U") || str_eq(provenance.as_str(), "D") || str_eq(provenance.as_str(), "A")) {
        return Checked::Fail(copy_string(id), text("provenance must be one of: U, D, A"), false);
    }
    if !is_in_unit_range(confidence.as_str()) {
        return Checked::Fail(copy_string(id), prefixed("confidence out of range: ", confidence.as_str()), false);
    }
    if !is_in_unit_range(importance.as_str()) {
        return Checked::Fail(copy_string(id), prefixed("importance out of range: ", importance.as_str()), false);
    }
    let created_at = text_or_empty(&it.created_at);
    let created_trimmed = string_of(trim_chars(chars_of(created_at.as_str()).as_slice()).as_slice());
    if !is_valid_iso_utc_timestamp(created_trimmed.as_str()) {
        return Checked::Fail(copy_string(id), text("created_at must use UTC format YYYY-MM-DDTHH:MM:SSZ"), false);
    }
    match first_bad_source_exec(&it.sources) {
        Some((s, e)) => {
            let mut out = chars_of("invalid source '");
            append_str(&mut out, s.as_str());
            append_str(&mut out, "': ");
            append_str(&mut out, e.as_str());
            return Checked::Fail(copy_string(id), string_of(out.as_slice()), false);
        },
        None => {},
    }
    match graph.node_by_id(id.as_str()) {
        Some(_) => {
            if skip_conflicts {
                Checked::Skip(copy_string(id))
            } else {
                Checked::Fail(copy_string(id), prefixed("node already exists: ", id.as_str()), true)
            }
        },
        None => {
            let mut properties = NodeProperties::new_default();
            properties.description = text_or_empty(&it.description);
            properties.domain_area = text_or_empty(&it.domain_area);
            properties.provenance = provenance;
            properties.confidence = Some(copy_string(confidence));
            properties.created_at = created_at;
            properties.importance = copy_string(importance);
            properties.key_facts = crate::graph::copy_strings(&it.facts);
            properties.alias = crate::graph::copy_strings(&it.aliases);
            let node = Node {
                id: copy_string(id),
                node_type: copy_string(&it.node_type),
                name: copy_string(&it.name),
                properties,
                source_files: crate::graph::copy_strings(&it.sources),
            };
            assert(node@ =~= added_node(id@, it@));
            Checked::Add(node)
        },
    }
}

/// Adds a batch of nodes: `atomic` stops at the first refused node with
/// its error (the caller then keeps the graph it had), otherwise refused
/// nodes are listed and the others added; `skip_conflicts` skips nodes
/// whose id exists instead of refusing them. The counts are refreshed when
/// a node was created.
pub fn apply_node_add_batch(graph: &mut GraphFile, items: &Vec<BatchNode>, atomic: bool, skip_conflicts: bool) -> (r:
    Result<BatchOutcome, BatchError>)
    ensures
        match batch_spec(old(graph)@.nodes, views(items@), atomic, skip_conflicts) {
            Err((id, e, conflict)) => if conflict {
                r matches Err(BatchError::Conflict(i2, m2)) && i2@ == id && m2@ == e
            } else {
                r matches Err(BatchError::InvalidNode(i2, m2)) && i2@ == id && m2@ == e
            },
            Ok(st) => r matches Ok(out) && {
                &&& final(graph)@.nodes == st.nodes
                &&& final(graph)@.edges == old(graph)@.edges
                &&& final(graph)@.notes == old(graph)@.notes
                &&& final(graph)@.metadata == if st.created.len() > 0 {
                    crate::graph::MetadataV {
                        node_count: st.nodes.len(),
                        edge_count: old(graph)@.edges.len(),
                        ..old(graph)@.metadata
                    }
                } else {
                    old(graph)@.metadata
                }
                &&& views(out.created@) == st.created
                &&& views(out.skipped@) == st.skipped
                &&& out.failed@.map_values(|p: (String, String)| (p.0@, p.1@)) == st.failed
            },
        },
{
    let ghost ns0 = graph@.nodes;
    let ghost iv = views(items@);
    let ghost g0 = graph@;
    let mut created: Vec<String> = Vec::new();
    let mut skipped: Vec<String> = Vec::new();
    let mut failed: Vec<(String, String)> = Vec::new();
    let mut i: usize = 0;
    assert(iv.take(0) =~= Seq::<BatchNodeV>::empty());
    while i < items.len()
        invariant
            i <= items.len(),
            iv == views(items@),
            ns0 == old(graph)@.nodes,
            graph@.edges == g0.edges,
            graph@.notes == g0.notes,
            graph@.metadata == g0.metadata,
            batch_spec(ns0, iv.take(i as int), atomic, skip_conflicts) matches Ok(st) && {
                &&& graph@.nodes == st.nodes
                &&& views(created@) == st.created
                &&& views(skipped@) == st.skipped
                &&& failed@.map_values(|p: (String, String)| (p.0@, p.1@)) == st.failed
            },
        decreases items.len() - i,
    {
        proof {
            assert(iv.take(i + 1).drop_last() =~= iv.take(i as int));
            assert(iv.take(i + 1).last() == items@[i as int]@);
        }
        let ghost gb = graph@;
        let ghost cb = views(created@);
        let ghost sb = views(skipped@);
        let ghost fb = failed@.map_values(|p: (String, String)| (p.0@, p.1@));
        match check_item_exec(graph, &items[i], skip_conflicts) {
            Checked::Add(n) => {
                let id = copy_string(&n.id);
                graph.nodes.push(n);
                created.push(id);
                assert(views(created@) =~= cb.push(id@));
                assert(graph@.nodes =~= gb.nodes.push(n@));
            },
            Checked::Skip(id) => {
                skipped.push(id);
                assert(views(skipped@) =~= sb.push(id@));
            },
            Checked::Fail(id, e, conflict) => {
                if atomic {
                    proof {
                        let st = batch_spec(ns0, iv.take(i as int), atomic, skip_conflicts)->Ok_0;
                        assert(check_item(st.nodes, iv.take(i + 1).last(), skip_conflicts) == ItemOutcome::Fail(id@, e@, conflict));
                        assert(batch_spec(ns0, iv.take(i + 1), atomic, skip_conflicts) == Err::<BatchStateV, BatchStopV>((id@, e@, conflict)));
                        lemma_batch_stops(ns0, iv, atomic, skip_conflicts, i as int + 1);
                    }
                    if conflict {
                        return Err(BatchError::Conflict(id, e));
                    } else {
                        return Err(BatchError::InvalidNode(id, e));
                    }
                }
                let ghost pair = (id@, e@);
                failed.push((id, e));
                assert(failed@.map_values(|p: (String, String)| (p.0@, p.1@)) =~= fb.push(pair));
            },
        }
        i += 1;
    }
    assert(iv.take(items.len() as int) =~= iv);
    if created.len() > 0 {
        graph.refresh_counts();
    }
    Ok(BatchOutcome { created, skipped, failed })
}

proof fn lemma_batch_stops(ns: Seq<NodeV>, items: Seq<BatchNodeV>, atomic: bool, skip: bool, n: int)
    requires
        0 <= n <= items.len(),
        batch_spec(ns, items.take(n), atomic, skip) is Err,
    ensures
        batch_spec(ns, items, atomic, skip) == batch_spec(ns, items.take(n), atomic, skip),
    decreases items.len() - n,
{
    if n < items.len() {
        assert(items.take(n + 1).drop_last() =~= items.take(n));
        lemma_batch_stops(ns, items, atomic, skip, n + 1);
    } else {
        assert(items.take(n) =~= items);
    }
}

/// Reads the batch mode: `atomic` (the default) or `best_effort`; any
/// other value is refused.
pub fn parse_batch_mode(mode: &Option<String>) -> (r: Result<bool, BatchError>)
    ensures
        match mode {
            None => r == Ok::<bool, BatchError>(true),
            Some(m) => if m@ == "atomic"@ {
                r == Ok::<bool, BatchError>(true)
            } else if m@ == "best_effort"@ {
                r == Ok::<bool, BatchError>(false)
            } else {
                r matches Err(BatchError::InvalidMode(got)) && got@ == m@
            },
        },
{
    match mode {
        None => Ok(true),
        Some(m) => if str_eq(m.as_str(), "atomic") {
            Ok(true)
        } else if str_eq(m.as_str(), "best_effort") {
            Ok(false)
        } else {
            Err(BatchError::InvalidMode(copy_string(m)))
        },
    }
}

/// Reads the conflict rule: `error` (the default) or `skip`; whether
/// conflicts are skipped.
pub fn parse_on_conflict(rule: &Option<String>) -> (r: Result<bool, BatchError>)
    ensures
        match rule {
            None => r == Ok::<bool, BatchError>(false),
            Some(m) => if m@ == "error"@ {
                r == Ok::<bool, BatchError>(false)
            } else if m@ == "skip"@ {
                r == Ok::<bool, BatchError>(true)
            } else {
                r matches Err(BatchError::InvalidOnConflict(got)) && got@ == m@
            },
        },
{
    match rule {
        None => Ok(false),
        Some(m) => if str_eq(m.as_str(), "error") {
            Ok(false)
        } else if str_eq(m.as_str(), "skip") {
            Ok(true)
        } else {
            Err(BatchError::InvalidOnConflict(copy_string(m)))
        },
    }
}

/// The batch mode a text names: atomic unless it says `best_effort`.
pub open spec fn mode_flag(mode: Option<Seq<char>>) -> Option<bool> {
    match mode {
        None => Some(true),
        Some(m) => if m == "atomic"@ {
            Some(true)
        } else if m == "best_effort"@ {
            Some(false)
        } else {
            None
        },
    }
}

/// Whether the conflict rule a text names skips conflicts.
pub open spec fn skip_flag(rule: Option<Seq<char>>) -> Option<bool> {
    match rule {
        None => Some(false),
        Some(m) => if m == "error"@ {
            Some(false)
        } else if m == "skip"@ {
            Some(true)
        } else {
            None
        },
    }
}

/// What a batch run gives, as [`apply_node_add_batch`] states it.
pub open spec fn batch_result(
    g0: crate::graph::GraphV,
    g1: crate::graph::GraphV,
    items: Seq<BatchNodeV>,
    atomic: bool,
    skip: bool,
    r: Result<BatchOutcome, BatchError>,
) -> bool {
    match batch_spec(g0.nodes, items, atomic, skip) {
        Err((id, e, conflict)) => if conflict {
            r matches Err(BatchError::Conflict(i2, m2)) && i2@ == id && m2@ == e
        } else {
            r matches Err(BatchError::InvalidNode(i2, m2)) && i2@ == id && m2@ == e
        },
        Ok(st) => r matches Ok(out) && {
            &&& g1.nodes == st.nodes
            &&& g1.edges == g0.edges
            &&& g1.notes == g0.notes
            &&& g1.metadata == if st.created.len() > 0 {
                crate::graph::MetadataV { node_count: st.nodes.len(), edge_count: g0.edges.len(), ..g0.metadata }
            } else {
                g0.metadata
            }
            &&& views(out.created@) == st.created
            &&& views(out.skipped@) == st.skipped
            &&& out.failed@.map_values(|p: (String, String)| (p.0@, p.1@)) == st.failed
        },
    }
}

/// Adds a batch of nodes under a mode (`atomic` by default, or
/// `best_effort`) and a conflict rule (`error` by default, or `skip`); an
/// unknown mode or rule is refused before any node is looked at.
pub fn node_add_batch(
    graph: &mut GraphFile,
    items: &Vec<BatchNode>,
    mode: &Option<String>,
    on_conflict: &Option<String>,
) -> (r: Result<BatchOutcome, BatchError>)
    ensures
        mode_flag(crate::graph::opt_view(*mode)) is None ==> (r matches Err(BatchError::InvalidMode(got))
            && Some(got@) == crate::graph::opt_view(*mode) && *final(graph) == *old(graph)),
        mode_flag(crate::graph::opt_view(*mode)) is Some && skip_flag(crate::graph::opt_view(*on_conflict)) is None
            ==> (r matches Err(BatchError::InvalidOnConflict(got)) && Some(got@) == crate::graph::opt_view(
            *on_conflict,
        ) && *final(graph) == *old(graph)),
        mode_flag(crate::graph::opt_view(*mode)) is Some && skip_flag(crate::graph::opt_view(*on_conflict)) is Some
            ==> batch_result(
            old(graph)@,
            final(graph)@,
            views(items@),
            mode_flag(crate::graph::opt_view(*mode))->0,
            skip_flag(crate::graph::opt_view(*on_conflict))->0,
            r,
        ),
{
    let atomic = match parse_batch_mode(mode) {
        Ok(a) => a,
        Err(e) => {
            return Err(e);
        },
    };
    let skip = match parse_on_conflict(on_conflict) {
        Ok(k) => k,
        Err(e) => {
            return Err(e);
        },
    };
    apply_node_add_batch(graph, items, atomic, skip)
}

} // verus!
