//! Writing a graph in the `.kg` text format.
use vstd::prelude::*;
use crate::graph::{Edge, EdgePropsV, EdgeV, GraphFile, GraphV, Node, NodePropsV, NodeV, Note, NoteV, pairs_view, opt_view};
use crate::number_text::{display_number, display_spec, fixed6_number, fixed6_spec};
use crate::kg_codec::{
    encode_node_type_token, encode_type_token, escape_kg_text, escape_text,
    is_zero_float_literal, is_zero_float_literal_exec, relation_code, relation_to_code,
};
use crate::sorting::{sort_case_insensitive, sorted_seq, stable_sort, views, KeyOrder};
use crate::text::{append_chars, append_str, chars_eq_str, chars_of, decimal, decimal_exec, str_eq, string_of};

verus! {

broadcast use vstd::string::group_string_axioms;

// ---------------------------------------------------------------------------
// Specification
// ---------------------------------------------------------------------------

/// `<prefix><escaped value>\n`.
pub open spec fn text_line(prefix: Seq<char>, v: Seq<char>) -> Seq<char> {
    prefix + escape_text(v) + "\n"@
}

/// `<prefix><value>\n`, the value written as it is.
pub open spec fn plain_line(prefix: Seq<char>, v: Seq<char>) -> Seq<char> {
    prefix + v + "\n"@
}

/// The line when the condition holds, nothing otherwise.
pub open spec fn opt_line(c: bool, line: Seq<char>) -> Seq<char> {
    if c { line } else { Seq::empty() }
}

/// One text line per value, in order.
pub open spec fn text_lines(prefix: Seq<char>, vs: Seq<Seq<char>>) -> Seq<char>
    decreases vs.len(),
{
    if vs.len() == 0 {
        Seq::empty()
    } else {
        text_lines(prefix, vs.drop_last()) + text_line(prefix, vs.last())
    }
}

/// The text lines of a list written in case-insensitive order.
pub open spec fn sorted_text_lines(prefix: Seq<char>, vs: Seq<Seq<char>>) -> Seq<char> {
    text_lines(prefix, sorted_seq::<String>(vs))
}

/// `d <label> <value>` lines of the score components, in label order.
pub open spec fn score_lines(s: Seq<(Seq<char>, Seq<char>)>) -> Seq<char>
    decreases s.len(),
{
    if s.len() == 0 {
        Seq::empty()
    } else {
        score_lines(s.drop_last()) + "d "@ + s.last().0 + " "@ + s.last().1 + "\n"@
    }
}

/// The lines of one edge inside its source node's block.
#[verifier::opaque]
pub open spec fn edge_block(e: EdgeV) -> Seq<char> {
    let op = if e.props.bidirectional && e.relation == "~"@ { "= "@ } else { "> "@ };
    op + relation_code(e.relation) + " "@ + e.target_id + "\n"@
        + score_lines(e.props.score_components)
        + opt_line(e.props.detail.len() > 0, text_line("d "@, e.props.detail))
        + opt_line(e.props.valid_from.len() > 0, plain_line("i "@, e.props.valid_from))
        + opt_line(e.props.valid_to.len() > 0, plain_line("x "@, e.props.valid_to))
        + opt_line(!is_zero_float_literal(e.props.feedback_score), plain_line("- edge_feedback_score "@, e.props.feedback_score))
        + opt_line(e.props.feedback_count != 0, plain_line("- edge_feedback_count "@, decimal(e.props.feedback_count as nat)))
        + opt_line(e.props.feedback_last_ts_ms is Some, plain_line("- edge_feedback_last_ts_ms "@, decimal(e.props.feedback_last_ts_ms->0 as nat)))
}

/// The blocks of a list of edges, in order.
pub open spec fn edge_blocks(es: Seq<EdgeV>) -> Seq<char>
    decreases es.len(),
{
    if es.len() == 0 {
        Seq::empty()
    } else {
        edge_blocks(es.drop_last()) + edge_block(es.last())
    }
}

/// The edges leaving `id`, in edge order.
pub open spec fn outgoing(edges: Seq<EdgeV>, id: Seq<char>) -> Seq<EdgeV> {
    sorted_seq::<Edge>(edges.filter(|e: EdgeV| e.source_id == id))
}

/// The header and field lines of a node.
#[verifier::opaque]
pub open spec fn node_fields(n: NodeV) -> Seq<char> {
    plain_line("@ "@, encode_type_token(n.node_type) + ":"@ + n.id)
        + opt_line(n.name.len() > 0, text_line("N "@, n.name))
        + opt_line(n.props.description.len() > 0, text_line("D "@, n.props.description))
        + sorted_text_lines("A "@, n.props.alias)
        + sorted_text_lines("F "@, n.props.key_facts)
        + opt_line(n.props.created_at.len() > 0, plain_line("E "@, n.props.created_at))
        + opt_line(n.props.confidence is Some, plain_line("C "@, n.props.confidence->0))
        + plain_line("V "@, n.props.importance)
        + opt_line(n.props.provenance.len() > 0, text_line("P "@, n.props.provenance))
        + opt_line(n.props.domain_area.len() > 0, text_line("- domain_area "@, n.props.domain_area))
        + opt_line(!is_zero_float_literal(n.props.feedback_score), plain_line("- feedback_score "@, n.props.feedback_score))
        + opt_line(n.props.feedback_count != 0, plain_line("- feedback_count "@, decimal(n.props.feedback_count as nat)))
        + opt_line(n.props.feedback_last_ts_ms is Some, plain_line("- feedback_last_ts_ms "@, decimal(n.props.feedback_last_ts_ms->0 as nat)))
        + sorted_text_lines("S "@, n.source_files)
}

/// The block of a node: header, fields, outgoing edges and a blank line.
pub open spec fn node_block(n: NodeV, edges: Seq<EdgeV>) -> Seq<char> {
    node_fields(n) + edge_blocks(outgoing(edges, n.id)) + "\n"@
}

/// The blocks of the nodes, in order.
pub open spec fn node_blocks(ns: Seq<NodeV>, edges: Seq<EdgeV>) -> Seq<char>
    decreases ns.len(),
{
    if ns.len() == 0 {
        Seq::empty()
    } else {
        node_blocks(ns.drop_last(), edges) + node_block(ns.last(), edges)
    }
}

/// The block of a note.
#[verifier::opaque]
pub open spec fn note_block(n: NoteV) -> Seq<char> {
    plain_line("! "@, n.id + " "@ + n.node_id)
        + text_line("b "@, n.body)
        + sorted_text_lines("t "@, n.tags)
        + opt_line(n.author.len() > 0, text_line("a "@, n.author))
        + opt_line(n.created_at.len() > 0, plain_line("e "@, n.created_at))
        + opt_line(n.provenance.len() > 0, text_line("p "@, n.provenance))
        + sorted_text_lines("s "@, n.source_files)
        + "\n"@
}

/// The blocks of the notes, in order.
pub open spec fn note_blocks(ns: Seq<NoteV>) -> Seq<char>
    decreases ns.len(),
{
    if ns.len() == 0 {
        Seq::empty()
    } else {
        note_blocks(ns.drop_last()) + note_block(ns.last())
    }
}

/// Node blocks in id order, then note blocks in note order, each field
/// written as it is held.
pub open spec fn written_text(g: GraphV) -> Seq<char> {
    node_blocks(sorted_seq::<Node>(g.nodes), g.edges) + note_blocks(sorted_seq::<Note>(g.notes))
}

/// A score component as a (label, value) pair, ordered by label.
pub struct ScorePair(pub String, pub String);

impl View for ScorePair {
    type V = (Seq<char>, Seq<char>);

    open spec fn view(&self) -> (Seq<char>, Seq<char>) {
        (self.0@, self.1@)
    }
}

impl KeyOrder for ScorePair {
    open spec fn spec_after(a: (Seq<char>, Seq<char>), b: (Seq<char>, Seq<char>)) -> bool {
        crate::text::lex_order(a.0, b.0) > 0
    }

    fn after(&self, other: &Self) -> (r: bool) {
        let a = chars_of(self.0.as_str());
        let b = chars_of(other.0.as_str());
        crate::text::lex_order_chars(a.as_slice(), b.as_slice()) > 0
    }
}

/// A node as the writer prints it: lists in case-insensitive order,
/// numbers printed plainly.
pub open spec fn print_node(n: NodeV) -> NodeV {
    NodeV {
        props: NodePropsV {
            alias: sorted_seq::<String>(n.props.alias),
            key_facts: sorted_seq::<String>(n.props.key_facts),
            confidence: match n.props.confidence {
                Some(c) => Some(display_spec(c)),
                None => None,
            },
            importance: display_spec(n.props.importance),
            feedback_score: display_spec(n.props.feedback_score),
            ..n.props
        },
        source_files: sorted_seq::<String>(n.source_files),
        ..n
    }
}

/// An edge as the writer prints it: score components in label order with
/// six decimals, the feedback score printed plainly.
pub open spec fn print_edge(e: EdgeV) -> EdgeV {
    EdgeV {
        props: EdgePropsV {
            score_components: sorted_seq::<ScorePair>(e.props.score_components).map_values(
                |p: (Seq<char>, Seq<char>)| (p.0, fixed6_spec(p.1)),
            ),
            feedback_score: display_spec(e.props.feedback_score),
            ..e.props
        },
        ..e
    }
}

/// A note as the writer prints it: lists in case-insensitive order.
pub open spec fn print_note(o: NoteV) -> NoteV {
    NoteV { tags: sorted_seq::<String>(o.tags), source_files: sorted_seq::<String>(o.source_files), ..o }
}

/// A graph as the writer prints it.
pub open spec fn print_graph(g: GraphV) -> GraphV {
    GraphV {
        nodes: g.nodes.map_values(|n: NodeV| print_node(n)),
        edges: g.edges.map_values(|e: EdgeV| print_edge(e)),
        notes: g.notes.map_values(|o: NoteV| print_note(o)),
        ..g
    }
}

/// The `.kg` text of a graph: node blocks in id order, then note blocks in
/// note order, with lists in case-insensitive order, score components in
/// label order with six decimals, and other numbers printed plainly.
pub open spec fn serialize_spec(g: GraphV) -> Seq<char> {
    written_text(print_graph(g))
}

// ---------------------------------------------------------------------------
// Implementation
// ---------------------------------------------------------------------------

fn nonempty(s: &String) -> (r: bool)
    ensures
        r == (s@.len() > 0),
{
    !s.as_str().is_empty()
}

fn push_text_line(out: &mut Vec<char>, prefix: &str, v: &str)
    ensures
        final(out)@ == old(out)@ + text_line(prefix@, v@),
{
    append_str(out, prefix);
    let cs = chars_of(v);
    let e = escape_kg_text(cs.as_slice());
    append_chars(out, e.as_slice());
    append_str(out, "\n");
    assert(out@ =~= old(out)@ + text_line(prefix@, v@));
}

fn push_plain_line(out: &mut Vec<char>, prefix: &str, v: &[char])
    ensures
        final(out)@ == old(out)@ + plain_line(prefix@, v@),
{
    append_str(out, prefix);
    append_chars(out, v);
    append_str(out, "\n");
    assert(out@ =~= old(out)@ + plain_line(prefix@, v@));
}

fn push_text_lines(out: &mut Vec<char>, prefix: &str, vs: &Vec<String>)
    ensures
        final(out)@ == old(out)@ + text_lines(prefix@, views(vs@)),
{
    let mut i: usize = 0;
    assert(views(vs@).take(0) =~= Seq::<Seq<char>>::empty());
    while i < vs.len()
        invariant
            i <= vs.len(),
            out@ == old(out)@ + text_lines(prefix@, views(vs@).take(i as int)),
        decreases vs.len() - i,
    {
        let ghost before = out@;
        push_text_line(out, prefix, vs[i].as_str());
        proof {
            assert(views(vs@).take(i + 1).drop_last() =~= views(vs@).take(i as int));
            assert(views(vs@).take(i + 1).last() == vs@[i as int]@);
            assert(out@ =~= old(out)@ + text_lines(prefix@, views(vs@).take(i + 1)));
        }
        i += 1;
    }
    assert(views(vs@).take(vs.len() as int) =~= views(vs@));
}

fn push_sorted_text_lines(out: &mut Vec<char>, prefix: &str, vs: &Vec<String>)
    ensures
        final(out)@ == old(out)@ + sorted_text_lines(prefix@, views(vs@)),
{
    let copy = crate::graph::copy_strings(vs);
    let sorted = sort_case_insensitive(copy);
    push_text_lines(out, prefix, &sorted);
}

fn push_score_lines(out: &mut Vec<char>, s: &Vec<(String, String)>)
    ensures
        final(out)@ == old(out)@ + score_lines(pairs_view(s@)),
{
    let mut i: usize = 0;
    assert(pairs_view(s@).take(0) =~= Seq::<(Seq<char>, Seq<char>)>::empty());
    while i < s.len()
        invariant
            i <= s.len(),
            out@ == old(out)@ + score_lines(pairs_view(s@).take(i as int)),
        decreases s.len() - i,
    {
        append_str(out, "d ");
        let l = chars_of(s[i].0.as_str());
        append_chars(out, l.as_slice());
        append_str(out, " ");
        let v = chars_of(s[i].1.as_str());
        append_chars(out, v.as_slice());
        append_str(out, "\n");
        proof {
            let t = pairs_view(s@).take(i + 1);
            assert(t.drop_last() =~= pairs_view(s@).take(i as int));
            assert(t.last() == (s@[i as int].0@, s@[i as int].1@));
            assert(out@ =~= old(out)@ + score_lines(t));
        }
        i += 1;
    }
    assert(pairs_view(s@).take(s.len() as int) =~= pairs_view(s@));
}

fn push_edge_block(out: &mut Vec<char>, e: &Edge)
    ensures
        final(out)@ == old(out)@ + edge_block(e@),
{
    let rel = chars_of(e.relation.as_str());
    let mut b: Vec<char> = Vec::new();
    if e.properties.bidirectional && chars_eq_str(rel.as_slice(), "~") {
        append_str(&mut b, "= ");
    } else {
        append_str(&mut b, "> ");
    }
    let code = relation_to_code(rel.as_slice());
    append_chars(&mut b, code.as_slice());
    append_str(&mut b, " ");
    let t = chars_of(e.target_id.as_str());
    append_chars(&mut b, t.as_slice());
    append_str(&mut b, "\n");
    let ghost op = if e@.props.bidirectional && e@.relation == "~"@ { "= "@ } else { "> "@ };
    assert(b@ =~= op + relation_code(e@.relation) + " "@ + e@.target_id + "\n"@);
    let ghost a0 = b@;
    push_score_lines(&mut b, &e.properties.score_components);
    let ghost a1 = b@;
    if nonempty(&e.properties.detail) {
        push_text_line(&mut b, "d ", e.properties.detail.as_str());
    }
    assert(b@ == a1 + opt_line(e@.props.detail.len() > 0, text_line("d "@, e@.props.detail)));
    let ghost a2 = b@;
    let vf = chars_of(e.properties.valid_from.as_str());
    if vf.len() > 0 {
        push_plain_line(&mut b, "i ", vf.as_slice());
    }
    assert(b@ == a2 + opt_line(e@.props.valid_from.len() > 0, plain_line("i "@, e@.props.valid_from)));
    let ghost a3 = b@;
    let vt = chars_of(e.properties.valid_to.as_str());
    if vt.len() > 0 {
        push_plain_line(&mut b, "x ", vt.as_slice());
    }
    assert(b@ == a3 + opt_line(e@.props.valid_to.len() > 0, plain_line("x "@, e@.props.valid_to)));
    let ghost a4 = b@;
    let fs = chars_of(e.properties.feedback_score.as_str());
    if !is_zero_float_literal_exec(fs.as_slice()) {
        push_plain_line(&mut b, "- edge_feedback_score ", fs.as_slice());
    }
    assert(b@ == a4 + opt_line(!is_zero_float_literal(e@.props.feedback_score), plain_line("- edge_feedback_score "@, e@.props.feedback_score)));
    let ghost a5 = b@;
    if e.properties.feedback_count != 0 {
        let d = decimal_exec(e.properties.feedback_count);
        push_plain_line(&mut b, "- edge_feedback_count ", d.as_slice());
    }
    assert(b@ == a5 + opt_line(e@.props.feedback_count != 0, plain_line("- edge_feedback_count "@, decimal(e@.props.feedback_count as nat))));
    let ghost a6 = b@;
    if let Some(ts) = e.properties.feedback_last_ts_ms {
        let d = decimal_exec(ts);
        push_plain_line(&mut b, "- edge_feedback_last_ts_ms ", d.as_slice());
    }
    assert(b@ == a6 + opt_line(e@.props.feedback_last_ts_ms is Some, plain_line("- edge_feedback_last_ts_ms "@, decimal(e@.props.feedback_last_ts_ms->0 as nat))));
    proof {
        reveal(edge_block);
        assert(b@ == edge_block(e@));
    }
    append_chars(out, b.as_slice());
}

fn push_outgoing(out: &mut Vec<char>, edges: &Vec<Edge>, id: &String)
    ensures
        final(out)@ == old(out)@ + edge_blocks(outgoing(views(edges@), id@)),
{
    let ghost pred = |e: EdgeV| e.source_id == id@;
    let ghost es = views(edges@);
    let mut sel: Vec<Edge> = Vec::new();
    let mut i: usize = 0;
    assert(es.take(0) =~= Seq::<EdgeV>::empty());
    assert(es.take(0).filter(pred) =~= Seq::<EdgeV>::empty()) by {
        reveal_with_fuel(Seq::<_>::filter, 1);
    }
    while i < edges.len()
        invariant
            i <= edges.len(),
            es == views(edges@),
            pred == (|e: EdgeV| e.source_id == id@),
            views(sel@) == es.take(i as int).filter(pred),
        decreases edges.len() - i,
    {
        proof {
            reveal_with_fuel(Seq::<_>::filter, 1);
            assert(es.take(i + 1).drop_last() =~= es.take(i as int));
            assert(es.take(i + 1).last() == edges@[i as int]@);
        }
        if str_eq(edges[i].source_id.as_str(), id.as_str()) {
            let c = edges[i].copy();
            let ghost before = views(sel@);
            sel.push(c);
            assert(views(sel@) =~= before.push(c@));
        }
        i += 1;
    }
    assert(es.take(edges.len() as int) =~= es);
    let sorted = stable_sort(sel);
    let mut j: usize = 0;
    let ghost ss = views(sorted@);
    assert(ss.take(0) =~= Seq::<EdgeV>::empty());
    assert(edge_blocks(ss.take(0)) == Seq::<char>::empty());
    assert(out@ =~= old(out)@ + edge_blocks(ss.take(0)));
    while j < sorted.len()
        invariant
            j <= sorted.len(),
            ss == views(sorted@),
            ss == outgoing(es, id@),
            out@ == old(out)@ + edge_blocks(ss.take(j as int)),
        decreases sorted.len() - j,
    {
        let ghost before = out@;
        push_edge_block(out, &sorted[j]);
        proof {
            assert(ss.take(j + 1).drop_last() =~= ss.take(j as int));
            assert(ss.take(j + 1).last() == sorted@[j as int]@);
            assert(edge_blocks(ss.take(j + 1)) == edge_blocks(ss.take(j as int)) + edge_block(sorted@[j as int]@));
            assert(out@ =~= old(out)@ + edge_blocks(ss.take(j + 1)));
        }
        j += 1;
    }
    assert(ss.take(sorted.len() as int) =~= ss);
}

fn push_node_fields(out: &mut Vec<char>, n: &Node)
    ensures
        final(out)@ == old(out)@ + node_fields(n@),
{
    let ty = chars_of(n.node_type.as_str());
    let mut head = encode_node_type_token(ty.as_slice());
    head.push(':');
    let id = chars_of(n.id.as_str());
    append_chars(&mut head, id.as_slice());
    proof {
        reveal_strlit(":");
        assert(head@ =~= encode_type_token(n@.node_type) + ":"@ + n@.id);
    }
    let mut b: Vec<char> = Vec::new();
    push_plain_line(&mut b, "@ ", head.as_slice());
    let ghost a0 = plain_line("@ "@, encode_type_token(n@.node_type) + ":"@ + n@.id);
    assert(b@ =~= a0);
    if nonempty(&n.name) {
        push_text_line(&mut b, "N ", n.name.as_str());
    }
    let ghost a1 = a0 + opt_line(n@.name.len() > 0, text_line("N "@, n@.name));
    assert(b@ == a1);
    let p = &n.properties;
    if nonempty(&p.description) {
        push_text_line(&mut b, "D ", p.description.as_str());
    }
    let ghost a2 = a1 + opt_line(n@.props.description.len() > 0, text_line("D "@, n@.props.description));
    assert(b@ == a2);
    push_sorted_text_lines(&mut b, "A ", &p.alias);
    let ghost a3 = a2 + sorted_text_lines("A "@, n@.props.alias);
    assert(b@ == a3);
    push_sorted_text_lines(&mut b, "F ", &p.key_facts);
    let ghost a4 = a3 + sorted_text_lines("F "@, n@.props.key_facts);
    assert(b@ == a4);
    let ca = chars_of(p.created_at.as_str());
    if ca.len() > 0 {
        push_plain_line(&mut b, "E ", ca.as_slice());
    }
    let ghost a5 = a4 + opt_line(n@.props.created_at.len() > 0, plain_line("E "@, n@.props.created_at));
    assert(b@ == a5);
    match &p.confidence {
        Some(c) => {
            let cc = chars_of(c.as_str());
            push_plain_line(&mut b, "C ", cc.as_slice());
        },
        None => {},
    }
    let ghost a6 = a5 + opt_line(n@.props.confidence is Some, plain_line("C "@, n@.props.confidence->0));
    assert(b@ == a6);
    let imp = chars_of(p.importance.as_str());
    push_plain_line(&mut b, "V ", imp.as_slice());
    let ghost a7 = a6 + plain_line("V "@, n@.props.importance);
    assert(b@ == a7);
    if nonempty(&p.provenance) {
        push_text_line(&mut b, "P ", p.provenance.as_str());
    }
    let ghost a8 = a7 + opt_line(n@.props.provenance.len() > 0, text_line("P "@, n@.props.provenance));
    assert(b@ == a8);
    if nonempty(&p.domain_area) {
        push_text_line(&mut b, "- domain_area ", p.domain_area.as_str());
    }
    let ghost a9 = a8 + opt_line(n@.props.domain_area.len() > 0, text_line("- domain_area "@, n@.props.domain_area));
    assert(b@ == a9);
    let fs = chars_of(p.feedback_score.as_str());
    if !is_zero_float_literal_exec(fs.as_slice()) {
        push_plain_line(&mut b, "- feedback_score ", fs.as_slice());
    }
    let ghost a10 = a9 + opt_line(!is_zero_float_literal(n@.props.feedback_score), plain_line("- feedback_score "@, n@.props.feedback_score));
    assert(b@ == a10);
    if p.feedback_count != 0 {
        let d = decimal_exec(p.feedback_count);
        push_plain_line(&mut b, "- feedback_count ", d.as_slice());
    }
    let ghost a11 = a10 + opt_line(n@.props.feedback_count != 0, plain_line("- feedback_count "@, decimal(n@.props.feedback_count as nat)));
    assert(b@ == a11);
    if let Some(ts) = p.feedback_last_ts_ms {
        let d = decimal_exec(ts);
        push_plain_line(&mut b, "- feedback_last_ts_ms ", d.as_slice());
    }
    let ghost a12 = a11 + opt_line(n@.props.feedback_last_ts_ms is Some, plain_line("- feedback_last_ts_ms "@, decimal(n@.props.feedback_last_ts_ms->0 as nat)));
    assert(b@ == a12);
    push_sorted_text_lines(&mut b, "S ", &n.source_files);
    proof {
        reveal(node_fields);
        assert(b@ == node_fields(n@));
    }
    append_chars(out, b.as_slice());
}

fn push_note_block(out: &mut Vec<char>, n: &Note)
    ensures
        final(out)@ == old(out)@ + note_block(n@),
{
    let mut head = chars_of(n.id.as_str());
    head.push(' ');
    let nid = chars_of(n.node_id.as_str());
    append_chars(&mut head, nid.as_slice());
    proof {
        reveal_strlit(" ");
        assert(head@ =~= n@.id + " "@ + n@.node_id);
    }
    let mut b: Vec<char> = Vec::new();
    push_plain_line(&mut b, "! ", head.as_slice());
    let ghost a0 = plain_line("! "@, n@.id + " "@ + n@.node_id);
    assert(b@ =~= a0);
    push_text_line(&mut b, "b ", n.body.as_str());
    let ghost a1 = a0 + text_line("b "@, n@.body);
    assert(b@ == a1);
    push_sorted_text_lines(&mut b, "t ", &n.tags);
    let ghost a2 = a1 + sorted_text_lines("t "@, n@.tags);
    assert(b@ == a2);
    if nonempty(&n.author) {
        push_text_line(&mut b, "a ", n.author.as_str());
    }
    let ghost a3 = a2 + opt_line(n@.author.len() > 0, text_line("a "@, n@.author));
    assert(b@ == a3);
    let ca = chars_of(n.created_at.as_str());
    if ca.len() > 0 {
        push_plain_line(&mut b, "e ", ca.as_slice());
    }
    let ghost a4 = a3 + opt_line(n@.created_at.len() > 0, plain_line("e "@, n@.created_at));
    assert(b@ == a4);
    if nonempty(&n.provenance) {
        push_text_line(&mut b, "p ", n.provenance.as_str());
    }
    let ghost a5 = a4 + opt_line(n@.provenance.len() > 0, text_line("p "@, n@.provenance));
    assert(b@ == a5);
    push_sorted_text_lines(&mut b, "s ", &n.source_files);
    let ghost a6 = a5 + sorted_text_lines("s "@, n@.source_files);
    assert(b@ == a6);
    append_str(&mut b, "\n");
    proof {
        reveal(note_block);
        assert(b@ == note_block(n@));
    }
    append_chars(out, b.as_slice());
}

fn copy_nodes(v: &Vec<Node>) -> (r: Vec<Node>)
    ensures
        views(r@) == views(v@),
{
    let mut r: Vec<Node> = Vec::new();
    let mut i: usize = 0;
    while i < v.len()
        invariant
            i <= v.len(),
            views(r@) == views(v@).take(i as int),
        decreases v.len() - i,
    {
        let c = v[i].copy();
        let ghost before = views(r@);
        r.push(c);
        assert(views(r@) =~= before.push(c@));
        assert(views(v@).take(i + 1) =~= views(v@).take(i as int).push(v@[i as int]@));
        i += 1;
    }
    assert(views(v@).take(v.len() as int) =~= views(v@));
    r
}

fn copy_notes(v: &Vec<Note>) -> (r: Vec<Note>)
    ensures
        views(r@) == views(v@),
{
    let mut r: Vec<Note> = Vec::new();
    let mut i: usize = 0;
    while i < v.len()
        invariant
            i <= v.len(),
            views(r@) == views(v@).take(i as int),
        decreases v.len() - i,
    {
        let c = v[i].copy();
        let ghost before = views(r@);
        r.push(c);
        assert(views(r@) =~= before.push(c@));
        assert(views(v@).take(i + 1) =~= views(v@).take(i as int).push(v@[i as int]@));
        i += 1;
    }
    assert(views(v@).take(v.len() as int) =~= views(v@));
    r
}

fn sorted_strings(v: &Vec<String>) -> (r: Vec<String>)
    ensures
        views(r@) == sorted_seq::<String>(views(v@)),
{
    sort_case_insensitive(crate::graph::copy_strings(v))
}

fn print_node_exec(n: &Node) -> (r: Node)
    ensures
        r@ == print_node(n@),
{
    let mut c = n.copy();
    c.properties.alias = sorted_strings(&n.properties.alias);
    c.properties.key_facts = sorted_strings(&n.properties.key_facts);
    c.properties.confidence = match &n.properties.confidence {
        Some(v) => Some(display_number(v.as_str())),
        None => None,
    };
    c.properties.importance = display_number(n.properties.importance.as_str());
    c.properties.feedback_score = display_number(n.properties.feedback_score.as_str());
    c.source_files = sorted_strings(&n.source_files);
    assert(c@ =~= print_node(n@));
    c
}

fn print_scores(sc: &Vec<(String, String)>) -> (r: Vec<(String, String)>)
    ensures
        pairs_view(r@) == sorted_seq::<ScorePair>(pairs_view(sc@)).map_values(
            |p: (Seq<char>, Seq<char>)| (p.0, fixed6_spec(p.1)),
        ),
{
    let mut ps: Vec<ScorePair> = Vec::new();
    let mut i: usize = 0;
    while i < sc.len()
        invariant
            i <= sc.len(),
            ps.len() == i,
            forall|j: int| 0 <= j < i ==> (#[trigger] ps@[j])@ == pairs_view(sc@)[j],
        decreases sc.len() - i,
    {
        ps.push(ScorePair(crate::graph::copy_string(&sc[i].0), crate::graph::copy_string(&sc[i].1)));
        i += 1;
    }
    assert(views(ps@) =~= pairs_view(sc@));
    let sorted = stable_sort(ps);
    let ghost sv = views(sorted@);
    let mut out: Vec<(String, String)> = Vec::new();
    let mut k: usize = 0;
    while k < sorted.len()
        invariant
            k <= sorted.len(),
            sv == views(sorted@),
            out.len() == k,
            forall|j: int| 0 <= j < k ==> (#[trigger] out@[j]).0@ == sv[j].0 && out@[j].1@ == fixed6_spec(sv[j].1),
        decreases sorted.len() - k,
    {
        let label = crate::graph::copy_string(&sorted[k].0);
        let value = fixed6_number(sorted[k].1.as_str());
        out.push((label, value));
        k += 1;
    }
    assert(pairs_view(out@) =~= sv.map_values(|p: (Seq<char>, Seq<char>)| (p.0, fixed6_spec(p.1))));
    out
}

fn print_edge_exec(e: &Edge) -> (r: Edge)
    ensures
        r@ == print_edge(e@),
{
    let mut c = e.copy();
    c.properties.score_components = print_scores(&e.properties.score_components);
    c.properties.feedback_score = display_number(e.properties.feedback_score.as_str());
    assert(c@ =~= print_edge(e@));
    c
}

fn print_note_exec(o: &Note) -> (r: Note)
    ensures
        r@ == print_note(o@),
{
    let mut c = o.copy();
    c.tags = sorted_strings(&o.tags);
    c.source_files = sorted_strings(&o.source_files);
    assert(c@ =~= print_note(o@));
    c
}

fn print_graph_exec(graph: &GraphFile) -> (r: GraphFile)
    ensures
        r@ == print_graph(graph@),
{
    let mut nodes: Vec<Node> = Vec::new();
    let mut i: usize = 0;
    while i < graph.nodes.len()
        invariant
            i <= graph.nodes.len(),
            nodes.len() == i,
            forall|j: int| 0 <= j < i ==> (#[trigger] nodes@[j])@ == print_node(graph.nodes@[j]@),
        decreases graph.nodes.len() - i,
    {
        nodes.push(print_node_exec(&graph.nodes[i]));
        i += 1;
    }
    let mut edges: Vec<Edge> = Vec::new();
    let mut k: usize = 0;
    while k < graph.edges.len()
        invariant
            k <= graph.edges.len(),
            edges.len() == k,
            forall|j: int| 0 <= j < k ==> (#[trigger] edges@[j])@ == print_edge(graph.edges@[j]@),
        decreases graph.edges.len() - k,
    {
        edges.push(print_edge_exec(&graph.edges[k]));
        k += 1;
    }
    let mut notes: Vec<Note> = Vec::new();
    let mut m: usize = 0;
    while m < graph.notes.len()
        invariant
            m <= graph.notes.len(),
            notes.len() == m,
            forall|j: int| 0 <= j < m ==> (#[trigger] notes@[j])@ == print_note(graph.notes@[j]@),
        decreases graph.notes.len() - m,
    {
        notes.push(print_note_exec(&graph.notes[m]));
        m += 1;
    }
    let metadata = crate::graph::Metadata {
        name: crate::graph::copy_string(&graph.metadata.name),
        version: crate::graph::copy_string(&graph.metadata.version),
        description: crate::graph::copy_string(&graph.metadata.description),
        node_count: graph.metadata.node_count,
        edge_count: graph.metadata.edge_count,
    };
    let r = GraphFile { metadata, nodes, edges, notes };
    assert(r@.nodes =~= print_graph(graph@).nodes);
    assert(r@.edges =~= print_graph(graph@).edges);
    assert(r@.notes =~= print_graph(graph@).notes);
    r
}

/// The `.kg` text of a graph, as [`serialize_spec`] states.
pub fn serialize_kg(graph: &GraphFile) -> (r: String)
    ensures
        r@ == serialize_spec(graph@),
{
    let printed = print_graph_exec(graph);
    write_text(&printed)
}

/// The text of a graph with every field written as it is held.
fn write_text(graph: &GraphFile) -> (r: String)
    ensures
        r@ == written_text(graph@),
{
    let mut out: Vec<char> = Vec::new();
    let nodes = stable_sort(copy_nodes(&graph.nodes));
    let ghost ns = views(nodes@);
    let ghost es = graph@.edges;
    let mut i: usize = 0;
    assert(ns.take(0) =~= Seq::<NodeV>::empty());
    while i < nodes.len()
        invariant
            i <= nodes.len(),
            ns == views(nodes@),
            es == graph@.edges,
            out@ == node_blocks(ns.take(i as int), es),
        decreases nodes.len() - i,
    {
        let ghost before = out@;
        push_node_fields(&mut out, &nodes[i]);
        push_outgoing(&mut out, &graph.edges, &nodes[i].id);
        append_str(&mut out, "\n");
        proof {
            assert(nodes[i as int].id@ == ns[i as int].id);
            assert(out@ =~= before + node_block(ns[i as int], es));
            assert(ns.take(i + 1).drop_last() =~= ns.take(i as int));
            assert(ns.take(i + 1).last() == nodes@[i as int]@);
            assert(out@ =~= node_blocks(ns.take(i + 1), es));
        }
        i += 1;
    }
    assert(ns.take(nodes.len() as int) =~= ns);
    let ghost after_nodes = out@;
    let notes = stable_sort(copy_notes(&graph.notes));
    let ghost ts = views(notes@);
    let mut j: usize = 0;
    assert(ts.take(0) =~= Seq::<NoteV>::empty());
    assert(note_blocks(ts.take(0)) == Seq::<char>::empty());
    assert(out@ =~= after_nodes + note_blocks(ts.take(0)));
    while j < notes.len()
        invariant
            j <= notes.len(),
            ts == views(notes@),
            out@ == after_nodes + note_blocks(ts.take(j as int)),
        decreases notes.len() - j,
    {
        push_note_block(&mut out, &notes[j]);
        proof {
            assert(ts.take(j + 1).drop_last() =~= ts.take(j as int));
            assert(ts.take(j + 1).last() == notes@[j as int]@);
            assert(note_blocks(ts.take(j + 1)) == note_blocks(ts.take(j as int)) + note_block(notes@[j as int]@));
            assert(out@ =~= after_nodes + note_blocks(ts.take(j + 1)));
        }
        j += 1;
    }
    assert(ts.take(notes.len() as int) =~= ts);
    string_of(out.as_slice())
}

} // verus!
