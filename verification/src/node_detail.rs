//! The detail panel of a node in the terminal browser: its title, text,
//! facts, connections and notes, as lines with a display style.
use vstd::prelude::*;
use crate::analysis::first_n;
use crate::graph::{EdgeV, GraphFile, Node, NodeV, NoteV};
use crate::mcp_text::join_sep;
use crate::sorting::views;
use crate::text::{append_chars, append_str, chars_of, string_of, str_eq};

verus! {

broadcast use vstd::string::group_string_axioms;

/// How a detail line is shown.
#[derive(Clone, Copy, PartialEq, Eq, Structural, Debug)]
pub enum LineStyle {
    /// Ordinary text.
    Plain,
    /// The node's heading, in bold.
    Title,
    /// A section heading, highlighted.
    Section,
}

/// One line of the detail panel.
#[derive(Debug)]
pub struct DetailLine {
    pub text: String,
    pub style: LineStyle,
}

impl View for DetailLine {
    type V = (Seq<char>, LineStyle);

    open spec fn view(&self) -> (Seq<char>, LineStyle) {
        (self.text@, self.style)
    }
}

/// At most `max` characters: a longer text keeps its first `max - 3`
/// characters followed by `...`.
pub open spec fn truncate_chars(s: Seq<char>, max: nat) -> Seq<char> {
    if s.len() <= max {
        s
    } else {
        s.take(if max >= 3 { max - 3 } else { 0 }) + "..."@
    }
}

/// The text of a note line: date, author and body.
pub open spec fn note_text(o: NoteV) -> Seq<char> {
    (if o.created_at.len() > 0 {
        o.created_at + " "@
    } else {
        Seq::empty()
    }) + (if o.author.len() > 0 {
        o.author + ": "@
    } else {
        Seq::empty()
    }) + o.body
}

/// The edges leaving `id`, in graph order.
pub open spec fn outgoing(es: Seq<EdgeV>, id: Seq<char>) -> Seq<EdgeV>
    decreases es.len(),
{
    if es.len() == 0 {
        Seq::empty()
    } else if es.last().source_id == id {
        outgoing(es.drop_last(), id).push(es.last())
    } else {
        outgoing(es.drop_last(), id)
    }
}

/// The edges arriving at `id`, in graph order.
pub open spec fn incoming(es: Seq<EdgeV>, id: Seq<char>) -> Seq<EdgeV>
    decreases es.len(),
{
    if es.len() == 0 {
        Seq::empty()
    } else if es.last().target_id == id {
        incoming(es.drop_last(), id).push(es.last())
    } else {
        incoming(es.drop_last(), id)
    }
}

/// The notes about `id`, in graph order.
pub open spec fn notes_about(os: Seq<NoteV>, id: Seq<char>) -> Seq<NoteV>
    decreases os.len(),
{
    if os.len() == 0 {
        Seq::empty()
    } else if os.last().node_id == id {
        notes_about(os.drop_last(), id).push(os.last())
    } else {
        notes_about(os.drop_last(), id)
    }
}

/// A plain line.
pub open spec fn plain(s: Seq<char>) -> (Seq<char>, LineStyle) {
    (s, LineStyle::Plain)
}

/// A blank line and a section heading.
pub open spec fn section(title: Seq<char>) -> Seq<(Seq<char>, LineStyle)> {
    seq![plain(Seq::empty()), (title, LineStyle::Section)]
}

/// The heading, description and aliases of a node.
pub open spec fn head_part(n: NodeV) -> Seq<(Seq<char>, LineStyle)> {
    seq![(n.id + " | "@ + n.name, LineStyle::Title)] + (if n.props.description.len() > 0 {
        seq![plain(n.props.description)]
    } else {
        Seq::empty()
    }) + (if n.props.alias.len() > 0 {
        seq![plain("aka: "@ + join_sep(n.props.alias, ", "@))]
    } else {
        Seq::empty()
    })
}

/// The facts section: the first five facts, when there are any.
pub open spec fn facts_part(n: NodeV) -> Seq<(Seq<char>, LineStyle)> {
    if n.props.key_facts.len() > 0 {
        section("facts"@) + first_n(n.props.key_facts, 5).map_values(|f: Seq<char>| plain("- "@ + f))
    } else {
        Seq::empty()
    }
}

/// The connections section: the first five outgoing and the first five
/// incoming edges, when there are any.
pub open spec fn connections_part(es: Seq<EdgeV>, id: Seq<char>) -> Seq<(Seq<char>, LineStyle)> {
    let out = outgoing(es, id);
    let inc = incoming(es, id);
    if out.len() > 0 || inc.len() > 0 {
        section("connections"@) + first_n(out, 5).map_values(|e: EdgeV| plain(edge_text(e, true)))
            + first_n(inc, 5).map_values(|e: EdgeV| plain(edge_text(e, false)))
    } else {
        Seq::empty()
    }
}

/// The notes section: the first five notes about the node, each cut to
/// 120 characters, when there are any.
pub open spec fn notes_part(os: Seq<NoteV>, id: Seq<char>) -> Seq<(Seq<char>, LineStyle)> {
    let notes = notes_about(os, id);
    if notes.len() > 0 {
        section("notes"@) + first_n(notes, 5).map_values(
            |o: NoteV| plain(truncate_chars(note_text(o), 120)),
        )
    } else {
        Seq::empty()
    }
}

/// The lines of the detail panel of node `n` in a graph with edges `es`
/// and notes `os`: the heading `id | name`; the description and the
/// aliases when there are any; the first five facts; the first five
/// outgoing and first five incoming edges; the first five notes about the
/// node, each cut to 120 characters.
pub open spec fn node_detail_spec(es: Seq<EdgeV>, os: Seq<NoteV>, n: NodeV) -> Seq<(Seq<char>, LineStyle)> {
    head_part(n) + facts_part(n) + connections_part(es, n.id) + notes_part(os, n.id)
}

/// The text of an edge line: `-> relation target` or `<- relation source`.
pub open spec fn edge_text(e: EdgeV, out: bool) -> Seq<char> {
    if out {
        "-> "@ + e.relation + " "@ + e.target_id
    } else {
        "<- "@ + e.relation + " "@ + e.source_id
    }
}

/// `s` cut to at most `max` characters, as [`truncate_chars`] states.
pub fn truncate(value: &str, max_len: usize) -> (r: String)
    ensures
        r@ == truncate_chars(value@, max_len as nat),
{
    let c = chars_of(value);
    if c.len() <= max_len {
        return string_of(c.as_slice());
    }
    let keep: usize = if max_len >= 3 { max_len - 3 } else { 0 };
    let mut out = crate::text::copy_chars(c.as_slice(), 0, keep);
    append_str(&mut out, "...");
    assert(c@.subrange(0, keep as int) =~= c@.take(keep as int));
    string_of(out.as_slice())
}

fn line(text: Vec<char>, style: LineStyle) -> (r: DetailLine)
    ensures
        r@ == (text@, style),
{
    DetailLine { text: string_of(text.as_slice()), style }
}

fn push(lines: &mut Vec<DetailLine>, l: DetailLine)
    ensures
        views(final(lines)@) == views(old(lines)@).push(l@),
{
    lines.push(l);
    assert(views(lines@) =~= views(old(lines)@).push(l@));
}

fn push_section(lines: &mut Vec<DetailLine>, title: &str)
    ensures
        views(final(lines)@) == views(old(lines)@) + section(title@),
{
    push(lines, line(Vec::new(), LineStyle::Plain));
    push(lines, line(chars_of(title), LineStyle::Section));
    assert(views(lines@) =~= views(old(lines)@) + section(title@));
}

fn join_comma(items: &Vec<String>) -> (r: Vec<char>)
    ensures
        r@ == join_sep(views(items@), ", "@),
{
    let ghost iv = views(items@);
    let mut out: Vec<char> = Vec::new();
    let mut i: usize = 0;
    while i < items.len()
        invariant
            i <= items.len(),
            iv == views(items@),
            out@ == join_sep(iv.take(i as int), ", "@),
        decreases items.len() - i,
    {
        let ghost before = out@;
        if i > 0 {
            append_str(&mut out, ", ");
        }
        append_str(&mut out, items[i].as_str());
        proof {
            let t = iv.take(i + 1);
            assert(t.drop_last() =~= iv.take(i as int));
            assert(t.last() == items@[i as int]@);
            if i == 0 {
                assert(before =~= Seq::<char>::empty());
            }
        }
        i += 1;
    }
    assert(iv.take(items.len() as int) =~= iv);
    out
}

fn edge_indices(graph: &GraphFile, id: &String, from_source: bool) -> (r: Vec<usize>)
    ensures
        forall|j: int| 0 <= j < r.len() ==> (#[trigger] r@[j]) < graph.edges.len(),
        r@.map_values(|j: usize| views(graph.edges@)[j as int]) == (if from_source {
            outgoing(views(graph.edges@), id@)
        } else {
            incoming(views(graph.edges@), id@)
        }),
{
    let ghost es = views(graph.edges@);
    let mut idx: Vec<usize> = Vec::new();
    let mut i: usize = 0;
    while i < graph.edges.len()
        invariant
            i <= graph.edges.len(),
            es == views(graph.edges@),
            forall|j: int| 0 <= j < idx.len() ==> (#[trigger] idx@[j]) < graph.edges.len(),
            idx@.map_values(|j: usize| es[j as int]) == (if from_source {
                outgoing(es.take(i as int), id@)
            } else {
                incoming(es.take(i as int), id@)
            }),
        decreases graph.edges.len() - i,
    {
        proof {
            assert(es.take(i + 1).drop_last() =~= es.take(i as int));
            assert(es.take(i + 1).last() == graph.edges@[i as int]@);
        }
        let ghost before = idx@.map_values(|j: usize| es[j as int]);
        let e = &graph.edges[i];
        let hit = if from_source {
            str_eq(e.source_id.as_str(), id.as_str())
        } else {
            str_eq(e.target_id.as_str(), id.as_str())
        };
        if hit {
            idx.push(i);
            assert(idx@.map_values(|j: usize| es[j as int]) =~= before.push(es[i as int]));
        }
        i += 1;
    }
    assert(es.take(graph.edges.len() as int) =~= es);
    idx
}

fn note_indices(graph: &GraphFile, id: &String) -> (r: Vec<usize>)
    ensures
        forall|j: int| 0 <= j < r.len() ==> (#[trigger] r@[j]) < graph.notes.len(),
        r@.map_values(|j: usize| views(graph.notes@)[j as int]) == notes_about(views(graph.notes@), id@),
{
    let ghost os = views(graph.notes@);
    let mut idx: Vec<usize> = Vec::new();
    let mut i: usize = 0;
    while i < graph.notes.len()
        invariant
            i <= graph.notes.len(),
            os == views(graph.notes@),
            forall|j: int| 0 <= j < idx.len() ==> (#[trigger] idx@[j]) < graph.notes.len(),
            idx@.map_values(|j: usize| os[j as int]) == notes_about(os.take(i as int), id@),
        decreases graph.notes.len() - i,
    {
        proof {
            assert(os.take(i + 1).drop_last() =~= os.take(i as int));
            assert(os.take(i + 1).last() == graph.notes@[i as int]@);
        }
        let ghost before = idx@.map_values(|j: usize| os[j as int]);
        if str_eq(graph.notes[i].node_id.as_str(), id.as_str()) {
            idx.push(i);
            assert(idx@.map_values(|j: usize| os[j as int]) =~= before.push(os[i as int]));
        }
        i += 1;
    }
    assert(os.take(graph.notes.len() as int) =~= os);
    idx
}

fn push_facts(lines: &mut Vec<DetailLine>, facts: &Vec<String>)
    ensures
        views(final(lines)@) == views(old(lines)@) + first_n(views(facts@), 5).map_values(
            |f: Seq<char>| plain("- "@ + f),
        ),
{
    let ghost start = views(lines@);
    let ghost fv = views(facts@);
    let shown: usize = if facts.len() <= 5 { facts.len() } else { 5 };
    let mut k: usize = 0;
    while k < shown
        invariant
            k <= shown <= facts.len(),
            fv == views(facts@),
            views(lines@) == start + fv.take(k as int).map_values(|f: Seq<char>| plain("- "@ + f)),
        decreases shown - k,
    {
        let mut t = chars_of("- ");
        append_str(&mut t, facts[k].as_str());
        push(lines, line(t, LineStyle::Plain));
        assert(fv.take(k + 1).map_values(|f: Seq<char>| plain("- "@ + f)) =~= fv.take(
            k as int,
        ).map_values(|f: Seq<char>| plain("- "@ + f)).push(plain("- "@ + fv[k as int])));
        k += 1;
    }
    assert(fv.take(shown as int) =~= first_n(fv, 5));
}

fn push_edges(lines: &mut Vec<DetailLine>, graph: &GraphFile, idx: &Vec<usize>, out: bool)
    requires
        forall|j: int| 0 <= j < idx.len() ==> (#[trigger] idx@[j]) < graph.edges.len(),
    ensures
        views(final(lines)@) == views(old(lines)@) + first_n(
            idx@.map_values(|j: usize| views(graph.edges@)[j as int]),
            5,
        ).map_values(|e: EdgeV| plain(edge_text(e, out))),
{
    let ghost start = views(lines@);
    let ghost ev = idx@.map_values(|j: usize| views(graph.edges@)[j as int]);
    let shown: usize = if idx.len() <= 5 { idx.len() } else { 5 };
    let mut k: usize = 0;
    while k < shown
        invariant
            k <= shown <= idx.len(),
            forall|j: int| 0 <= j < idx.len() ==> (#[trigger] idx@[j]) < graph.edges.len(),
            ev == idx@.map_values(|j: usize| views(graph.edges@)[j as int]),
            views(lines@) == start + ev.take(k as int).map_values(|e: EdgeV| plain(edge_text(e, out))),
        decreases shown - k,
    {
        let e = &graph.edges[idx[k]];
        assert(ev[k as int] == e@);
        let mut t = if out {
            chars_of("-> ")
        } else {
            chars_of("<- ")
        };
        append_str(&mut t, e.relation.as_str());
        append_str(&mut t, " ");
        if out {
            append_str(&mut t, e.target_id.as_str());
        } else {
            append_str(&mut t, e.source_id.as_str());
        }
        push(lines, line(t, LineStyle::Plain));
        assert(ev.take(k + 1).map_values(|e: EdgeV| plain(edge_text(e, out))) =~= ev.take(
            k as int,
        ).map_values(|e: EdgeV| plain(edge_text(e, out))).push(plain(edge_text(ev[k as int], out))));
        k += 1;
    }
    assert(ev.take(shown as int) =~= first_n(ev, 5));
}

fn push_notes(lines: &mut Vec<DetailLine>, graph: &GraphFile, idx: &Vec<usize>)
    requires
        forall|j: int| 0 <= j < idx.len() ==> (#[trigger] idx@[j]) < graph.notes.len(),
    ensures
        views(final(lines)@) == views(old(lines)@) + first_n(
            idx@.map_values(|j: usize| views(graph.notes@)[j as int]),
            5,
        ).map_values(|o: NoteV| plain(truncate_chars(note_text(o), 120))),
{
    let ghost start = views(lines@);
    let ghost nv = idx@.map_values(|j: usize| views(graph.notes@)[j as int]);
    let shown: usize = if idx.len() <= 5 { idx.len() } else { 5 };
    let mut k: usize = 0;
    while k < shown
        invariant
            k <= shown <= idx.len(),
            forall|j: int| 0 <= j < idx.len() ==> (#[trigger] idx@[j]) < graph.notes.len(),
            nv == idx@.map_values(|j: usize| views(graph.notes@)[j as int]),
            views(lines@) == start + nv.take(k as int).map_values(
                |o: NoteV| plain(truncate_chars(note_text(o), 120)),
            ),
        decreases shown - k,
    {
        let o = &graph.notes[idx[k]];
        assert(nv[k as int] == o@);
        let mut t: Vec<char> = Vec::new();
        if o.created_at.as_str().unicode_len() > 0 {
            append_str(&mut t, o.created_at.as_str());
            append_str(&mut t, " ");
        }
        if o.author.as_str().unicode_len() > 0 {
            append_str(&mut t, o.author.as_str());
            append_str(&mut t, ": ");
        }
        append_str(&mut t, o.body.as_str());
        assert(t@ =~= note_text(o@));
        let ts = string_of(t.as_slice());
        let cut = truncate(ts.as_str(), 120);
        push(lines, DetailLine { text: cut, style: LineStyle::Plain });
        assert(nv.take(k + 1).map_values(|o: NoteV| plain(truncate_chars(note_text(o), 120)))
            =~= nv.take(k as int).map_values(|o: NoteV| plain(truncate_chars(note_text(o), 120))).push(
            plain(truncate_chars(note_text(nv[k as int]), 120)),
        ));
        k += 1;
    }
    assert(nv.take(shown as int) =~= first_n(nv, 5));
}

/// The lines of the detail panel of `node` in `graph`.
pub fn render_node_detail(graph: &GraphFile, node: &Node) -> (r: Vec<DetailLine>)
    ensures
        views(r@) == node_detail_spec(views(graph.edges@), views(graph.notes@), node@),
{
    let ghost es = views(graph.edges@);
    let ghost os = views(graph.notes@);
    let ghost n = node@;
    let mut lines: Vec<DetailLine> = Vec::new();
    let mut head = chars_of(node.id.as_str());
    append_str(&mut head, " | ");
    append_str(&mut head, node.name.as_str());
    push(&mut lines, line(head, LineStyle::Title));
    if node.properties.description.as_str().unicode_len() > 0 {
        push(&mut lines, line(chars_of(node.properties.description.as_str()), LineStyle::Plain));
    }
    if node.properties.alias.len() > 0 {
        let mut aka = chars_of("aka: ");
        let joined = join_comma(&node.properties.alias);
        append_chars(&mut aka, joined.as_slice());
        push(&mut lines, line(aka, LineStyle::Plain));
    }
    assert(views(lines@) =~= head_part(n));
    let ghost p1 = views(lines@);
    if node.properties.key_facts.len() > 0 {
        push_section(&mut lines, "facts");
        push_facts(&mut lines, &node.properties.key_facts);
    }
    assert(views(lines@) =~= p1 + facts_part(n));
    let ghost p2 = views(lines@);
    let out_idx = edge_indices(graph, &node.id, true);
    let in_idx = edge_indices(graph, &node.id, false);
    if out_idx.len() > 0 || in_idx.len() > 0 {
        push_section(&mut lines, "connections");
        push_edges(&mut lines, graph, &out_idx, true);
        push_edges(&mut lines, graph, &in_idx, false);
    }
    proof {
        let ov = out_idx@.map_values(|j: usize| es[j as int]);
        let iv = in_idx@.map_values(|j: usize| es[j as int]);
        assert(ov.len() == out_idx.len());
        assert(iv.len() == in_idx.len());
    }
    assert(views(lines@) =~= p2 + connections_part(es, n.id));
    let ghost p3 = views(lines@);
    let note_idx = note_indices(graph, &node.id);
    if note_idx.len() > 0 {
        push_section(&mut lines, "notes");
        push_notes(&mut lines, graph, &note_idx);
    }
    proof {
        let nv = note_idx@.map_values(|j: usize| os[j as int]);
        assert(nv.len() == note_idx.len());
    }
    assert(views(lines@) =~= p3 + notes_part(os, n.id));
    lines
}

} // verus!
