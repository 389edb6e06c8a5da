//! The metadata node every graph carries: `^:graph_info`, of type `^`,
//! whose key facts hold the graph's identifier `graph_uuid=<hex>`.
use vstd::prelude::*;
use crate::graph::{default_node_props, GraphFile, GraphV, Node, NodeProperties, NodeV};
use crate::sorting::views;
use crate::text::{append_str, chars_eq_str, chars_of, starts_with_str, string_of};

verus! {

broadcast use vstd::string::group_string_axioms;

/// The id of the metadata node.
pub open spec fn info_id() -> Seq<char> {
    "^:graph_info"@
}

/// The fact prefix of the graph identifier.
pub open spec fn uuid_prefix() -> Seq<char> {
    "graph_uuid="@
}

/// The position of the first node with the metadata id.
pub open spec fn info_index(ns: Seq<NodeV>) -> Option<int> {
    if exists|i: int| 0 <= i < ns.len() && ns[i].id == info_id() {
        Some(choose|i: int| 0 <= i < ns.len() && ns[i].id == info_id() && forall|j: int| 0 <= j < i ==> ns[j].id != info_id())
    } else {
        None
    }
}

/// Whether some fact starts with the identifier prefix.
pub open spec fn has_uuid_fact(facts: Seq<Seq<char>>) -> bool {
    exists|i: int| 0 <= i < facts.len() && uuid_prefix().is_prefix_of(#[trigger] facts[i])
}

/// An existing metadata node put right: type `^`, a name and a description
/// when they are empty, and an identifier fact when there is none.
pub open spec fn repaired_info(n: NodeV, uuid: Seq<char>) -> NodeV {
    NodeV {
        node_type: "^"@,
        name: if n.name.len() == 0 { "Graph Metadata"@ } else { n.name },
        props: crate::graph::NodePropsV {
            description: if n.props.description.len() == 0 {
                "Internal graph metadata for cross-graph linking"@
            } else {
                n.props.description
            },
            key_facts: if has_uuid_fact(n.props.key_facts) {
                n.props.key_facts
            } else {
                n.props.key_facts.push(uuid_prefix() + uuid)
            },
            ..n.props
        },
        ..n
    }
}

/// Whether the repair changes anything.
pub open spec fn repair_changes(n: NodeV) -> bool {
    n.node_type != "^"@ || n.name.len() == 0 || n.props.description.len() == 0 || !has_uuid_fact(
        n.props.key_facts,
    )
}

/// A new metadata node with the identifier `uuid`.
pub open spec fn new_info(uuid: Seq<char>) -> NodeV {
    NodeV {
        id: info_id(),
        node_type: "^"@,
        name: "Graph Metadata"@,
        props: crate::graph::NodePropsV {
            description: "Internal graph metadata for cross-graph linking"@,
            domain_area: "internal_metadata"@,
            provenance: "A"@,
            importance: "1"@,
            key_facts: seq![uuid_prefix() + uuid],
            ..default_node_props()
        },
        source_files: seq!["DOC .kg/internal/graph_info"@],
    }
}

fn lit(s: &str) -> (r: String)
    ensures
        r@ == s@,
{
    string_of(chars_of(s).as_slice())
}

fn uuid_fact(uuid: &str) -> (r: String)
    ensures
        r@ == uuid_prefix() + uuid@,
{
    let mut c = chars_of("graph_uuid=");
    append_str(&mut c, uuid);
    string_of(c.as_slice())
}

fn has_uuid_fact_exec(facts: &Vec<String>) -> (r: bool)
    ensures
        r == has_uuid_fact(views(facts@)),
{
    let mut i: usize = 0;
    while i < facts.len()
        invariant
            i <= facts.len(),
            forall|j: int| 0 <= j < i ==> !uuid_prefix().is_prefix_of(#[trigger] views(facts@)[j]),
        decreases facts.len() - i,
    {
        let f = chars_of(facts[i].as_str());
        if starts_with_str(f.as_slice(), "graph_uuid=") {
            assert(uuid_prefix().is_prefix_of(views(facts@)[i as int]));
            return true;
        }
        i += 1;
    }
    false
}

/// Makes sure the graph has its metadata node: the first node with the
/// id `^:graph_info` is put right, or a new one is added with the
/// identifier `uuid`.  Tells whether the graph changed.
pub fn ensure_graph_info_node(graph: &mut GraphFile, uuid: &str) -> (changed: bool)
    ensures
        final(graph)@.edges == old(graph)@.edges,
        final(graph)@.notes == old(graph)@.notes,
        final(graph)@.metadata == old(graph)@.metadata,
        match info_index(old(graph)@.nodes) {
            Some(i) => final(graph)@.nodes == old(graph)@.nodes.update(
                i,
                repaired_info(old(graph)@.nodes[i], uuid@),
            ) && changed == repair_changes(old(graph)@.nodes[i]),
            None => final(graph)@.nodes == old(graph)@.nodes.push(new_info(uuid@)) && changed,
        },
{
    let ghost g0 = graph@;
    match graph.node_by_id("^:graph_info") {
        Some(i) => {
            proof {
                let ns = g0.nodes;
                assert(ns[i as int].id == info_id());
                let k = choose|k: int| 0 <= k < ns.len() && ns[k].id == info_id() && forall|j: int| 0 <= j < k ==> ns[j].id != info_id();
                assert(k == i) by {
                    if k < i {
                        assert(ns[k].id != info_id());
                    }
                    if i < k {
                        assert(ns[i as int].id != info_id());
                    }
                }
            }
            let mut node = graph.nodes[i].copy();
            let mut changed = false;
            if !chars_eq_str(chars_of(node.node_type.as_str()).as_slice(), "^") {
                node.node_type = lit("^");
                changed = true;
            } else {
                node.node_type = lit("^");
            }
            if node.name.as_str().unicode_len() == 0 {
                node.name = lit("Graph Metadata");
                changed = true;
            }
            if node.properties.description.as_str().unicode_len() == 0 {
                node.properties.description = lit("Internal graph metadata for cross-graph linking");
                changed = true;
            }
            if !has_uuid_fact_exec(&node.properties.key_facts) {
                let ghost before = views(node.properties.key_facts@);
                node.properties.key_facts.push(uuid_fact(uuid));
                assert(views(node.properties.key_facts@) =~= before.push(uuid_prefix() + uuid@));
                changed = true;
            }
            let ghost want = repaired_info(g0.nodes[i as int], uuid@);
            assert(node@.props =~= want.props);
            assert(node@ =~= want);
            let ghost before = views(graph.nodes@);
            graph.nodes.set(i, node);
            assert(views(graph.nodes@) =~= before.update(i as int, want));
            changed
        },
        None => {
            proof {
                assert(!(exists|k: int| 0 <= k < g0.nodes.len() && g0.nodes[k].id == info_id()));
            }
            let mut props = NodeProperties::new_default();
            props.description = lit("Internal graph metadata for cross-graph linking");
            props.domain_area = lit("internal_metadata");
            props.provenance = lit("A");
            props.importance = lit("1");
            let mut facts: Vec<String> = Vec::new();
            facts.push(uuid_fact(uuid));
            props.key_facts = facts;
            let mut sources: Vec<String> = Vec::new();
            sources.push(lit("DOC .kg/internal/graph_info"));
            let node = Node {
                id: lit("^:graph_info"),
                node_type: lit("^"),
                name: lit("Graph Metadata"),
                properties: props,
                source_files: sources,
            };
            assert(node@.props =~= new_info(uuid@).props);
            assert(node@ =~= new_info(uuid@));
            let ghost before = views(graph.nodes@);
            graph.nodes.push(node);
            assert(views(graph.nodes@) =~= before.push(new_info(uuid@)));
            true
        },
    }
}

/// The lowercase hexadecimal digit of `d < 16`.
pub open spec fn hex_digit(d: nat) -> char {
    if d < 10 {
        ((d + 48) as u32) as char
    } else {
        ((d - 10 + 97) as u32) as char
    }
}

/// The bytes in lowercase hexadecimal, two digits each (`{:02x}`).
pub open spec fn hex_of(bytes: Seq<u8>) -> Seq<char>
    decreases bytes.len(),
{
    if bytes.len() == 0 {
        Seq::empty()
    } else {
        hex_of(bytes.drop_last()) + seq![
            hex_digit((bytes.last() / 16) as nat),
            hex_digit((bytes.last() % 16) as nat),
        ]
    }
}

fn hex_digit_exec(d: u8) -> (c: char)
    requires
        d < 16,
    ensures
        c == hex_digit(d as nat),
{
    if d < 10 {
        crate::text::char_from_ascii((d + 48) as u32)
    } else {
        crate::text::char_from_ascii((d - 10 + 97) as u32)
    }
}

/// A graph identifier from ten random bytes: twenty lowercase hexadecimal
/// digits.
pub fn graph_uuid_from_bytes(bytes: &[u8; 10]) -> (r: String)
    ensures
        r@ == hex_of(bytes@),
        r@.len() == 20,
{
    let mut out: Vec<char> = Vec::new();
    let mut i: usize = 0;
    while i < 10
        invariant
            i <= 10,
            bytes@.len() == 10,
            out@ == hex_of(bytes@.take(i as int)),
            out@.len() == 2 * i,
        decreases 10 - i,
    {
        let b = bytes[i];
        out.push(hex_digit_exec(b / 16));
        out.push(hex_digit_exec(b % 16));
        proof {
            let t = bytes@.take(i + 1);
            assert(t.drop_last() =~= bytes@.take(i as int));
            assert(t.last() == b);
            assert(out@ =~= hex_of(t));
        }
        i += 1;
    }
    assert(bytes@.take(10) =~= bytes@);
    string_of(out.as_slice())
}

} // verus!
