//! Editing nodes in place: renaming a node (its edges and notes follow)
//! and the lines that report what a change did to a node.
use vstd::prelude::*;
use crate::generated_edits::{first_node, lemma_first_node_at, rename_edge, rename_note};
use crate::graph::{copy_string, Edge, EdgeV, GraphFile, GraphV, Node, NodeV, Note, NoteV};
use crate::number_text::{display_number, display_spec};
use crate::sorting::views;
use crate::text::{append_str, chars_of, lines, lines_exec, seqs_view, str_eq, string_of};

verus! {

broadcast use vstd::string::group_string_axioms;

/// Whether a node has the id.
pub open spec fn has_node_id(g: GraphV, id: Seq<char>) -> bool {
    first_node(g.nodes, id) is Some
}

/// The graph after renaming node `from` to `to`: the first node with the
/// old id takes the new one, and so do edge ends and notes.
pub open spec fn rename_spec(g: GraphV, from: Seq<char>, to: Seq<char>) -> GraphV {
    let p = first_node(g.nodes, from)->0;
    GraphV {
        nodes: g.nodes.update(p, NodeV { id: to, ..g.nodes[p] }),
        edges: g.edges.map_values(|e: EdgeV| rename_edge(e, from, to)),
        notes: g.notes.map_values(|n: NoteV| rename_note(n, from, to)),
        ..g
    }
}

fn lookup_first(graph: &GraphFile, id: &str) -> (r: Option<usize>)
    ensures
        match r {
            Some(p) => p < graph.nodes.len() && first_node(graph@.nodes, id@) == Some(p as int),
            None => first_node(graph@.nodes, id@) is None,
        },
{
    let ghost ns = graph@.nodes;
    proof {
        crate::generated_edits::lemma_node_lookup(ns, id@);
    }
    match graph.node_by_id(id) {
        Some(p) => {
            proof {
                lemma_first_node_at(ns, id@, p as int);
            }
            Some(p)
        },
        None => None,
    }
}

fn rename_edges(edges: &mut Vec<Edge>, from: &str, to: &str)
    ensures
        views(final(edges)@) == views(old(edges)@).map_values(|e: EdgeV| rename_edge(e, from@, to@)),
{
    let ghost es0 = views(edges@);
    let mut i: usize = 0;
    while i < edges.len()
        invariant
            i <= edges.len(),
            edges.len() == es0.len(),
            forall|j: int| 0 <= j < i ==> #[trigger] views(edges@)[j] == rename_edge(es0[j], from@, to@),
            forall|j: int| i <= j < edges.len() ==> #[trigger] views(edges@)[j] == es0[j],
        decreases edges.len() - i,
    {
        let ghost before = views(edges@);
        assert(views(edges@)[i as int] == es0[i as int]);
        let mut e = edges[i].copy();
        if str_eq(e.source_id.as_str(), from) {
            e.source_id = string_of(chars_of(to).as_slice());
        }
        if str_eq(e.target_id.as_str(), from) {
            e.target_id = string_of(chars_of(to).as_slice());
        }
        edges.set(i, e);
        assert(views(edges@) =~= before.update(i as int, rename_edge(es0[i as int], from@, to@)));
        i += 1;
    }
    assert(views(edges@) =~= es0.map_values(|e: EdgeV| rename_edge(e, from@, to@)));
}

fn rename_notes(notes: &mut Vec<Note>, from: &str, to: &str)
    ensures
        views(final(notes)@) == views(old(notes)@).map_values(|n: NoteV| rename_note(n, from@, to@)),
{
    let ghost ns0 = views(notes@);
    let mut i: usize = 0;
    while i < notes.len()
        invariant
            i <= notes.len(),
            notes.len() == ns0.len(),
            forall|j: int| 0 <= j < i ==> #[trigger] views(notes@)[j] == rename_note(ns0[j], from@, to@),
            forall|j: int| i <= j < notes.len() ==> #[trigger] views(notes@)[j] == ns0[j],
        decreases notes.len() - i,
    {
        let ghost before = views(notes@);
        assert(views(notes@)[i as int] == ns0[i as int]);
        let mut n = notes[i].copy();
        if str_eq(n.node_id.as_str(), from) {
            n.node_id = string_of(chars_of(to).as_slice());
        }
        notes.set(i, n);
        assert(views(notes@) =~= before.update(i as int, rename_note(ns0[i as int], from@, to@)));
        i += 1;
    }
    assert(views(notes@) =~= ns0.map_values(|n: NoteV| rename_note(n, from@, to@)));
}

/// Renames node `from` to `to`, with its edge ends and notes, and gives
/// the report line `~ node <from> -> <to>`. Refused with `node already
/// exists: <to>` when a node has the new id (checked first), or `node not
/// found: <from>` when none has the old one; the graph is then unchanged.
pub fn rename_node(graph: &mut GraphFile, from: &str, to: &str) -> (r: Result<String, String>)
    ensures
        r is Err <==> (has_node_id(old(graph)@, to@) || !has_node_id(old(graph)@, from@)),
        r matches Err(e) ==> *final(graph) == *old(graph) && e@ == if has_node_id(old(graph)@, to@) {
            "node already exists: "@ + to@
        } else {
            "node not found: "@ + from@
        },
        r matches Ok(line) ==> final(graph)@ == rename_spec(old(graph)@, from@, to@) && line@ == "~ node "@ + from@
            + " -> "@ + to@ + "\n"@,
{
    if lookup_first(graph, to).is_some() {
        let mut m = chars_of("node already exists: ");
        append_str(&mut m, to);
        return Err(string_of(m.as_slice()));
    }
    let p = match lookup_first(graph, from) {
        Some(p) => p,
        None => {
            let mut m = chars_of("node not found: ");
            append_str(&mut m, from);
            return Err(string_of(m.as_slice()));
        },
    };
    let ghost g0 = graph@;
    let mut node = graph.nodes[p].copy();
    node.id = string_of(chars_of(to).as_slice());
    graph.nodes.set(p, node);
    rename_edges(&mut graph.edges, from, to);
    rename_notes(&mut graph.notes, from, to);
    assert(graph@.nodes =~= g0.nodes.update(p as int, NodeV { id: to@, ..g0.nodes[p as int] }));
    assert(graph@ =~= rename_spec(g0, from@, to@));
    let mut line = chars_of("~ node ");
    append_str(&mut line, from);
    append_str(&mut line, " -> ");
    append_str(&mut line, to);
    append_str(&mut line, "\n");
    Ok(string_of(line.as_slice()))
}

/// The first line of a text, or nothing.
pub open spec fn first_line(s: Seq<char>) -> Seq<char> {
    if lines(s).len() > 0 { lines(s)[0] } else { Seq::empty() }
}

/// A number as shown in a change line, or `none`.
pub open spec fn shown_number(o: Option<Seq<char>>) -> Seq<char> {
    match o {
        Some(c) => display_spec(c),
        None => "none"@,
    }
}

/// A `- field: old` / `+ field: new` pair.
pub open spec fn change_pair(field: Seq<char>, a: Seq<char>, b: Seq<char>) -> Seq<Seq<char>> {
    seq!["- "@ + field + ": "@ + a, "+ "@ + field + ": "@ + b]
}

/// The lines reporting what changed in a node: the name, the first line of
/// the description, the importance and the confidence (when the caller
/// found their values changed), and the validity dates, each as an
/// old/new pair.
pub open spec fn change_lines_spec(a: NodeV, b: NodeV, importance_changed: bool, confidence_changed: bool) -> Seq<Seq<char>> {
    (if a.name != b.name { change_pair("name"@, a.name, b.name) } else { Seq::empty() })
        + (if a.props.description != b.props.description && first_line(a.props.description) != first_line(b.props.description) {
        change_pair("description"@, first_line(a.props.description), first_line(b.props.description))
    } else {
        Seq::empty()
    }) + (if importance_changed {
        change_pair("importance"@, display_spec(a.props.importance), display_spec(b.props.importance))
    } else {
        Seq::empty()
    }) + (if confidence_changed {
        change_pair("confidence"@, shown_number(a.props.confidence), shown_number(b.props.confidence))
    } else {
        Seq::empty()
    }) + (if a.props.valid_from != b.props.valid_from {
        change_pair("valid_from"@, a.props.valid_from, b.props.valid_from)
    } else {
        Seq::empty()
    }) + (if a.props.valid_to != b.props.valid_to {
        change_pair("valid_to"@, a.props.valid_to, b.props.valid_to)
    } else {
        Seq::empty()
    })
}

fn first_line_exec(s: &str) -> (r: Vec<char>)
    ensures
        r@ == first_line(s@),
{
    let ls = lines_exec(chars_of(s).as_slice());
    if ls.len() > 0 {
        let mut out: Vec<char> = Vec::new();
        crate::text::append_chars(&mut out, ls[0].as_slice());
        assert(seqs_view(ls@)[0] == ls@[0]@);
        out
    } else {
        Vec::new()
    }
}

fn push_pair(out: &mut Vec<String>, field: &str, a: &[char], b: &[char])
    ensures
        views(final(out)@) == views(old(out)@) + change_pair(field@, a@, b@),
{
    let mut x = chars_of("- ");
    append_str(&mut x, field);
    append_str(&mut x, ": ");
    crate::text::append_chars(&mut x, a);
    let mut y = chars_of("+ ");
    append_str(&mut y, field);
    append_str(&mut y, ": ");
    crate::text::append_chars(&mut y, b);
    let ghost before = views(out@);
    out.push(string_of(x.as_slice()));
    out.push(string_of(y.as_slice()));
    assert(views(out@) =~= before + change_pair(field@, a@, b@));
}

fn shown_number_exec(o: &Option<String>) -> (r: Vec<char>)
    ensures
        r@ == shown_number(crate::graph::opt_view(*o)),
{
    match o {
        Some(c) => chars_of(display_number(c.as_str()).as_str()),
        None => chars_of("none"),
    }
}

/// The lines reporting what changed from node `a` to node `b`, as
/// [`change_lines_spec`] states; whether the importance and confidence
/// changed is the caller's comparison of their values.
pub fn node_change_lines(a: &Node, b: &Node, importance_changed: bool, confidence_changed: bool) -> (r: Vec<String>)
    ensures
        views(r@) == change_lines_spec(a@, b@, importance_changed, confidence_changed),
{
    let mut out: Vec<String> = Vec::new();
    let ghost s0 = views(out@);
    assert(s0 =~= Seq::<Seq<char>>::empty());
    if !str_eq(a.name.as_str(), b.name.as_str()) {
        push_pair(&mut out, "name", chars_of(a.name.as_str()).as_slice(), chars_of(b.name.as_str()).as_slice());
    }
    let ghost s1 = views(out@);
    if !str_eq(a.properties.description.as_str(), b.properties.description.as_str()) {
        let x = first_line_exec(a.properties.description.as_str());
        let y = first_line_exec(b.properties.description.as_str());
        if !crate::text::chars_eq(x.as_slice(), y.as_slice()) {
            push_pair(&mut out, "description", x.as_slice(), y.as_slice());
        }
    }
    let ghost s2 = views(out@);
    if importance_changed {
        let x = chars_of(display_number(a.properties.importance.as_str()).as_str());
        let y = chars_of(display_number(b.properties.importance.as_str()).as_str());
        push_pair(&mut out, "importance", x.as_slice(), y.as_slice());
    }
    let ghost s3 = views(out@);
    if confidence_changed {
        let x = shown_number_exec(&a.properties.confidence);
        let y = shown_number_exec(&b.properties.confidence);
        push_pair(&mut out, "confidence", x.as_slice(), y.as_slice());
    }
    let ghost s4 = views(out@);
    if !str_eq(a.properties.valid_from.as_str(), b.properties.valid_from.as_str()) {
        push_pair(
            &mut out,
            "valid_from",
            chars_of(a.properties.valid_from.as_str()).as_slice(),
            chars_of(b.properties.valid_from.as_str()).as_slice(),
        );
    }
    let ghost s5 = views(out@);
    if !str_eq(a.properties.valid_to.as_str(), b.properties.valid_to.as_str()) {
        push_pair(
            &mut out,
            "valid_to",
            chars_of(a.properties.valid_to.as_str()).as_slice(),
            chars_of(b.properties.valid_to.as_str()).as_slice(),
        );
    }
    assert(views(out@) =~= change_lines_spec(a@, b@, importance_changed, confidence_changed));
    out
}

} // verus!
