//! Reading back what was written: the `.kg` text of a graph parses, in the
//! default (non-strict) mode, to the same graph with no warning.
use vstd::prelude::*;
use crate::graph::{
    Edge, EdgePropsV, EdgeV, GraphV, MetadataV, Node, NodePropsV, NodeV, Note, NoteV,
    default_edge_props, default_node_props, empty_note, new_graph,
};
use crate::kg_codec::{
    all_digits, code_relation, decode_text, decode_type_token, digits_value, encode_type_token,
    escape_text, is_float_literal, is_relation_alias, is_relation_code, is_utc_timestamp,
    is_zero_float_literal, law_decode_escape, law_escape_single_line, law_relation_roundtrip,
    law_type_token_roundtrip, parse_u64_spec, relation_code,
};
use crate::kg_parse::{
    ParserV, apply_custom, custom_split, directed_edge, field_value, is_score_label, last_edge,
    flush, header_id, node_key, node_line_kind, note_field_kind, note_key, open_edge, run,
    set_last_edge, set_node_number, set_node_text, set_note_field, similarity_edge, step,
    step_node_line,
};
use crate::graph::assoc_insert;
use crate::kg_write::{
    edge_block, edge_blocks, node_block, node_blocks, node_fields, note_block, note_blocks, opt_line,
    outgoing, plain_line, score_lines, written_text, sorted_text_lines, text_line, text_lines,
};
use crate::sorting::{KeyOrder, ci_seen_before, dedupe_ci, normalize_list, sorted_seq, insert_sorted};
use crate::text::{
    ascii_lower_seq, decimal, digit_char, find_char, find_char_from, is_ws, lex_order, lines, strip_cr,
    strip_prefix, tokens, trim, trim_end, trim_start, ws_index_from, ws_prefix_len,
    ws_suffix_len,
};

verus! {

// ---------------------------------------------------------------------------
// Lines of text
// ---------------------------------------------------------------------------

/// Lines, each followed by a newline.
pub open spec fn nl_join(ls: Seq<Seq<char>>) -> Seq<char>
    decreases ls.len(),
{
    if ls.len() == 0 {
        Seq::empty()
    } else {
        nl_join(ls.drop_last()) + ls.last() + seq!['\n']
    }
}

/// A line as written: no line break inside, no carriage return at its end.
pub open spec fn one_line(l: Seq<char>) -> bool {
    !l.contains('\n') && !(l.len() > 0 && l.last() == '\r')
}

proof fn lemma_nl_join_concat(a: Seq<Seq<char>>, b: Seq<Seq<char>>)
    ensures
        nl_join(a + b) == nl_join(a) + nl_join(b),
    decreases b.len(),
{
    if b.len() == 0 {
        assert(a + b =~= a);
        assert(nl_join(a) + nl_join(b) =~= nl_join(a));
    } else {
        lemma_nl_join_concat(a, b.drop_last());
        assert((a + b).drop_last() =~= a + b.drop_last());
        assert((a + b).last() == b.last());
        assert(nl_join(a) + nl_join(b) =~= nl_join(a) + nl_join(b.drop_last()) + b.last() + seq![
            '\n',
        ]);
    }
}

pub(crate) proof fn lemma_nl_join_one(l: Seq<char>)
    ensures
        nl_join(seq![l]) == l + seq!['\n'],
{
    assert(seq![l].drop_last() =~= Seq::<Seq<char>>::empty());
    assert(seq![l].last() == l);
    assert(nl_join(Seq::<Seq<char>>::empty()) =~= Seq::<char>::empty());
    assert(Seq::<char>::empty() + l + seq!['\n'] =~= l + seq!['\n']);
}

proof fn lemma_nl_join_ends(ls: Seq<Seq<char>>)
    ensures
        nl_join(ls).len() == 0 || nl_join(ls).last() == '\n',
{
}

proof fn lemma_find_in_prefix(a: Seq<char>, b: Seq<char>, i: int)
    requires
        0 <= i < a.len(),
        a[i] == '\n',
        forall|j: int| 0 <= j < i ==> a[j] != '\n',
    ensures
        find_char(a + b, '\n') == Some(i),
        find_char(a, '\n') == Some(i),
{
    let ab = a + b;
    assert forall|j: int| 0 <= j < i implies ab[j] != '\n' by {
        assert(ab[j] == a[j]);
    }
    crate::text::lemma_find_char_from_scan(ab, '\n', 0, i);
    crate::text::lemma_find_char_from_scan(a, '\n', 0, i);
    assert(ab[i] == '\n');
}

/// Splitting text that ends with a newline from what follows it.
proof fn lemma_lines_concat(a: Seq<char>, b: Seq<char>)
    requires
        a.len() == 0 || a.last() == '\n',
    ensures
        lines(a + b) == lines(a) + lines(b),
    decreases a.len(),
{
    if a.len() == 0 {
        assert(a + b =~= b);
        assert(lines(a) + lines(b) =~= lines(b));
    } else {
        crate::text::lemma_find_char_from(a, '\n', 0);
        let i = find_char(a, '\n')->0;
        lemma_find_in_prefix(a, b, i);
        let rest = a.skip(i + 1);
        assert((a + b).take(i) =~= a.take(i));
        assert((a + b).skip(i + 1) =~= rest + b);
        if rest.len() > 0 {
            assert(rest.last() == a.last());
        }
        lemma_lines_concat(rest, b);
        assert(lines(a + b) =~= seq![strip_cr(a.take(i))] + (lines(rest) + lines(b)));
    }
}

proof fn lemma_lines_one(l: Seq<char>)
    requires
        one_line(l),
    ensures
        lines(l + seq!['\n']) == seq![l],
{
    let s = l + seq!['\n'];
    assert forall|j: int| 0 <= j < l.len() implies s[j] != '\n' by {
        assert(s[j] == l[j]);
        if l[j] == '\n' {
            assert(l.contains('\n'));
        }
    }
    lemma_find_in_prefix(s, Seq::empty(), l.len() as int);
    assert(s + Seq::<char>::empty() =~= s);
    assert(s.take(l.len() as int) =~= l);
    assert(s.skip(l.len() + 1 as int) =~= Seq::<char>::empty());
    assert(strip_cr(l) == l);
    assert(lines(Seq::<char>::empty()) =~= Seq::<Seq<char>>::empty());
    assert(lines(s) =~= seq![strip_cr(s.take(l.len() as int))] + lines(s.skip(l.len() + 1 as int)));
}

/// Reading the lines of joined lines gives them back.
pub(crate) proof fn lemma_lines_nl_join(ls: Seq<Seq<char>>)
    requires
        forall|i: int| 0 <= i < ls.len() ==> one_line(#[trigger] ls[i]),
    ensures
        lines(nl_join(ls)) == ls,
    decreases ls.len(),
{
    if ls.len() > 0 {
        let init = ls.drop_last();
        assert forall|i: int| 0 <= i < init.len() implies one_line(#[trigger] init[i]) by {
            assert(init[i] == ls[i]);
        }
        lemma_lines_nl_join(init);
        lemma_nl_join_ends(init);
        assert(nl_join(ls) =~= nl_join(init) + (ls.last() + seq!['\n']));
        lemma_lines_concat(nl_join(init), ls.last() + seq!['\n']);
        lemma_lines_one(ls.last());
        assert(init + seq![ls.last()] =~= ls);
    }
}

// ---------------------------------------------------------------------------
// Running the parser over consecutive pieces
// ---------------------------------------------------------------------------

proof fn lemma_run_concat(p: ParserV, a: Seq<Seq<char>>, b: Seq<Seq<char>>, n: nat)
    ensures
        run(p, a + b, n, false) == match run(p, a, n, false) {
            Ok(q) => run(q, b, n + a.len(), false),
            Err(e) => Err(e),
        },
    decreases a.len(),
{
    if a.len() == 0 {
        assert(a + b =~= b);
    } else {
        assert((a + b)[0] == a[0]);
        assert((a + b).drop_first() =~= a.drop_first() + b);
        match step(p, n, a[0], false) {
            Ok(q) => {
                lemma_run_concat(q, a.drop_first(), b, n + 1);
            },
            Err(e) => {},
        }
    }
}

// ---------------------------------------------------------------------------
// The written text as a list of lines
// ---------------------------------------------------------------------------

/// One line when the condition holds, none otherwise.
pub open spec fn opt_list(c: bool, l: Seq<char>) -> Seq<Seq<char>> {
    if c {
        seq![l]
    } else {
        Seq::empty()
    }
}

/// The text lines of a list of values.
pub open spec fn text_list(prefix: Seq<char>, vs: Seq<Seq<char>>) -> Seq<Seq<char>>
    decreases vs.len(),
{
    if vs.len() == 0 {
        Seq::empty()
    } else {
        text_list(prefix, vs.drop_last()).push(prefix + escape_text(vs.last()))
    }
}

/// The score component lines.
pub open spec fn score_list(s: Seq<(Seq<char>, Seq<char>)>) -> Seq<Seq<char>>
    decreases s.len(),
{
    if s.len() == 0 {
        Seq::empty()
    } else {
        score_list(s.drop_last()).push("d "@ + s.last().0 + " "@ + s.last().1)
    }
}

/// The first line of an edge.
pub open spec fn edge_head(e: EdgeV) -> Seq<char> {
    let op = if e.props.bidirectional && e.relation == "~"@ {
        "= "@
    } else {
        "> "@
    };
    op + relation_code(e.relation) + " "@ + e.target_id
}

/// The lines of an edge.
pub open spec fn edge_list(e: EdgeV) -> Seq<Seq<char>> {
    seq![edge_head(e)] + score_list(e.props.score_components) + opt_list(
        e.props.detail.len() > 0,
        "d "@ + escape_text(e.props.detail),
    ) + opt_list(e.props.valid_from.len() > 0, "i "@ + e.props.valid_from) + opt_list(
        e.props.valid_to.len() > 0,
        "x "@ + e.props.valid_to,
    ) + opt_list(
        !is_zero_float_literal(e.props.feedback_score),
        "- edge_feedback_score "@ + e.props.feedback_score,
    ) + opt_list(
        e.props.feedback_count != 0,
        "- edge_feedback_count "@ + decimal(e.props.feedback_count as nat),
    ) + opt_list(
        e.props.feedback_last_ts_ms is Some,
        "- edge_feedback_last_ts_ms "@ + decimal(e.props.feedback_last_ts_ms->0 as nat),
    )
}

/// The lines of a list of edges.
pub open spec fn edges_list(es: Seq<EdgeV>) -> Seq<Seq<char>>
    decreases es.len(),
{
    if es.len() == 0 {
        Seq::empty()
    } else {
        edges_list(es.drop_last()) + edge_list(es.last())
    }
}

/// The header and field lines of a node.
pub open spec fn node_field_list(n: NodeV) -> Seq<Seq<char>> {
    seq!["@ "@ + encode_type_token(n.node_type) + ":"@ + n.id] + opt_list(
        n.name.len() > 0,
        "N "@ + escape_text(n.name),
    ) + opt_list(n.props.description.len() > 0, "D "@ + escape_text(n.props.description))
        + text_list("A "@, sorted_seq::<String>(n.props.alias)) + text_list(
        "F "@,
        sorted_seq::<String>(n.props.key_facts),
    ) + opt_list(n.props.created_at.len() > 0, "E "@ + n.props.created_at) + opt_list(
        n.props.confidence is Some,
        "C "@ + n.props.confidence->0,
    ) + seq!["V "@ + n.props.importance] + opt_list(
        n.props.provenance.len() > 0,
        "P "@ + escape_text(n.props.provenance),
    ) + opt_list(
        n.props.domain_area.len() > 0,
        "- domain_area "@ + escape_text(n.props.domain_area),
    ) + opt_list(
        !is_zero_float_literal(n.props.feedback_score),
        "- feedback_score "@ + n.props.feedback_score,
    ) + opt_list(
        n.props.feedback_count != 0,
        "- feedback_count "@ + decimal(n.props.feedback_count as nat),
    ) + opt_list(
        n.props.feedback_last_ts_ms is Some,
        "- feedback_last_ts_ms "@ + decimal(n.props.feedback_last_ts_ms->0 as nat),
    ) + text_list("S "@, sorted_seq::<String>(n.source_files))
}

/// The lines of a node's block.
pub open spec fn node_list(n: NodeV, edges: Seq<EdgeV>) -> Seq<Seq<char>> {
    node_field_list(n) + edges_list(outgoing(edges, n.id)) + seq![Seq::<char>::empty()]
}

/// The lines of the node blocks.
pub open spec fn nodes_list(ns: Seq<NodeV>, edges: Seq<EdgeV>) -> Seq<Seq<char>>
    decreases ns.len(),
{
    if ns.len() == 0 {
        Seq::empty()
    } else {
        nodes_list(ns.drop_last(), edges) + node_list(ns.last(), edges)
    }
}

/// The lines of a note's block.
pub open spec fn note_list(o: NoteV) -> Seq<Seq<char>> {
    seq!["! "@ + o.id + " "@ + o.node_id, "b "@ + escape_text(o.body)] + text_list(
        "t "@,
        sorted_seq::<String>(o.tags),
    ) + opt_list(o.author.len() > 0, "a "@ + escape_text(o.author)) + opt_list(
        o.created_at.len() > 0,
        "e "@ + o.created_at,
    ) + opt_list(o.provenance.len() > 0, "p "@ + escape_text(o.provenance)) + text_list(
        "s "@,
        sorted_seq::<String>(o.source_files),
    ) + seq![Seq::<char>::empty()]
}

/// The lines of the note blocks.
pub open spec fn notes_list(os: Seq<NoteV>) -> Seq<Seq<char>>
    decreases os.len(),
{
    if os.len() == 0 {
        Seq::empty()
    } else {
        notes_list(os.drop_last()) + note_list(os.last())
    }
}

proof fn lemma_text_line(prefix: Seq<char>, v: Seq<char>)
    ensures
        text_line(prefix, v) == nl_join(seq![prefix + escape_text(v)]),
{
    lemma_nl_join_one(prefix + escape_text(v));
    reveal_strlit("\n");
    assert(text_line(prefix, v) =~= prefix + escape_text(v) + seq!['\n']);
}

proof fn lemma_plain_line(prefix: Seq<char>, v: Seq<char>)
    ensures
        plain_line(prefix, v) == nl_join(seq![prefix + v]),
{
    lemma_nl_join_one(prefix + v);
    reveal_strlit("\n");
    assert(plain_line(prefix, v) =~= prefix + v + seq!['\n']);
}

proof fn lemma_opt_line(c: bool, text: Seq<char>, l: Seq<char>)
    requires
        text == nl_join(seq![l]),
    ensures
        opt_line(c, text) == nl_join(opt_list(c, l)),
{
    if !c {
        assert(nl_join(Seq::<Seq<char>>::empty()) =~= Seq::<char>::empty());
    }
}

proof fn lemma_text_lines(prefix: Seq<char>, vs: Seq<Seq<char>>)
    ensures
        text_lines(prefix, vs) == nl_join(text_list(prefix, vs)),
    decreases vs.len(),
{
    if vs.len() == 0 {
        assert(nl_join(Seq::<Seq<char>>::empty()) =~= Seq::<char>::empty());
    } else {
        lemma_text_lines(prefix, vs.drop_last());
        lemma_text_line(prefix, vs.last());
        let l = text_list(prefix, vs.drop_last());
        lemma_nl_join_concat(l, seq![prefix + escape_text(vs.last())]);
        assert(l.push(prefix + escape_text(vs.last())) =~= l + seq![prefix + escape_text(vs.last())]);
    }
}

proof fn lemma_score_lines(s: Seq<(Seq<char>, Seq<char>)>)
    ensures
        score_lines(s) == nl_join(score_list(s)),
    decreases s.len(),
{
    if s.len() == 0 {
        assert(nl_join(Seq::<Seq<char>>::empty()) =~= Seq::<char>::empty());
    } else {
        lemma_score_lines(s.drop_last());
        let l = score_list(s.drop_last());
        let x = "d "@ + s.last().0 + " "@ + s.last().1;
        lemma_nl_join_concat(l, seq![x]);
        lemma_nl_join_one(x);
        reveal_strlit("\n");
        assert(l.push(x) =~= l + seq![x]);
        assert(score_lines(s) =~= nl_join(l) + (x + seq!['\n']));
    }
}

proof fn lemma_edge_block(e: EdgeV)
    ensures
        edge_block(e) == nl_join(edge_list(e)),
{
    reveal(edge_block);
    let p = e.props;
    let l0 = seq![edge_head(e)];
    let l1 = score_list(p.score_components);
    let l2 = opt_list(p.detail.len() > 0, "d "@ + escape_text(p.detail));
    let l3 = opt_list(p.valid_from.len() > 0, "i "@ + p.valid_from);
    let l4 = opt_list(p.valid_to.len() > 0, "x "@ + p.valid_to);
    let l5 = opt_list(!is_zero_float_literal(p.feedback_score), "- edge_feedback_score "@ + p.feedback_score);
    let l6 = opt_list(p.feedback_count != 0, "- edge_feedback_count "@ + decimal(p.feedback_count as nat));
    let l7 = opt_list(p.feedback_last_ts_ms is Some, "- edge_feedback_last_ts_ms "@ + decimal(p.feedback_last_ts_ms->0 as nat));
    lemma_nl_join_one(edge_head(e));
    reveal_strlit("\n");
    lemma_score_lines(p.score_components);
    lemma_text_line("d "@, p.detail);
    lemma_opt_line(p.detail.len() > 0, text_line("d "@, p.detail), "d "@ + escape_text(p.detail));
    lemma_plain_line("i "@, p.valid_from);
    lemma_opt_line(p.valid_from.len() > 0, plain_line("i "@, p.valid_from), "i "@ + p.valid_from);
    lemma_plain_line("x "@, p.valid_to);
    lemma_opt_line(p.valid_to.len() > 0, plain_line("x "@, p.valid_to), "x "@ + p.valid_to);
    lemma_plain_line("- edge_feedback_score "@, p.feedback_score);
    lemma_opt_line(!is_zero_float_literal(p.feedback_score), plain_line("- edge_feedback_score "@, p.feedback_score), "- edge_feedback_score "@ + p.feedback_score);
    lemma_plain_line("- edge_feedback_count "@, decimal(p.feedback_count as nat));
    lemma_opt_line(p.feedback_count != 0, plain_line("- edge_feedback_count "@, decimal(p.feedback_count as nat)), "- edge_feedback_count "@ + decimal(p.feedback_count as nat));
    lemma_plain_line("- edge_feedback_last_ts_ms "@, decimal(p.feedback_last_ts_ms->0 as nat));
    lemma_opt_line(p.feedback_last_ts_ms is Some, plain_line("- edge_feedback_last_ts_ms "@, decimal(p.feedback_last_ts_ms->0 as nat)), "- edge_feedback_last_ts_ms "@ + decimal(p.feedback_last_ts_ms->0 as nat));
    lemma_nl_join_concat(l0, l1);
    lemma_nl_join_concat(l0 + l1, l2);
    lemma_nl_join_concat(l0 + l1 + l2, l3);
    lemma_nl_join_concat(l0 + l1 + l2 + l3, l4);
    lemma_nl_join_concat(l0 + l1 + l2 + l3 + l4, l5);
    lemma_nl_join_concat(l0 + l1 + l2 + l3 + l4 + l5, l6);
    lemma_nl_join_concat(l0 + l1 + l2 + l3 + l4 + l5 + l6, l7);
    assert(edge_list(e) == l0 + l1 + l2 + l3 + l4 + l5 + l6 + l7);
    assert(edge_head(e) + seq!['\n'] =~= (if p.bidirectional && e.relation == "~"@ { "= "@ } else { "> "@ }) + relation_code(e.relation) + " "@ + e.target_id + "\n"@);
}

proof fn lemma_edge_blocks(es: Seq<EdgeV>)
    ensures
        edge_blocks(es) == nl_join(edges_list(es)),
    decreases es.len(),
{
    if es.len() == 0 {
        assert(nl_join(Seq::<Seq<char>>::empty()) =~= Seq::<char>::empty());
    } else {
        lemma_edge_blocks(es.drop_last());
        lemma_edge_block(es.last());
        lemma_nl_join_concat(edges_list(es.drop_last()), edge_list(es.last()));
    }
}

proof fn lemma_node_fields(n: NodeV)
    ensures
        node_fields(n) == nl_join(node_field_list(n)),
{
    reveal(node_fields);
    let p = n.props;
    let h = "@ "@ + encode_type_token(n.node_type) + ":"@ + n.id;
    let l0 = seq![h];
    let l1 = opt_list(n.name.len() > 0, "N "@ + escape_text(n.name));
    let l2 = opt_list(p.description.len() > 0, "D "@ + escape_text(p.description));
    let l3 = text_list("A "@, sorted_seq::<String>(p.alias));
    let l4 = text_list("F "@, sorted_seq::<String>(p.key_facts));
    let l5 = opt_list(p.created_at.len() > 0, "E "@ + p.created_at);
    let l6 = opt_list(p.confidence is Some, "C "@ + p.confidence->0);
    let l7 = seq!["V "@ + p.importance];
    let l8 = opt_list(p.provenance.len() > 0, "P "@ + escape_text(p.provenance));
    let l9 = opt_list(p.domain_area.len() > 0, "- domain_area "@ + escape_text(p.domain_area));
    let l10 = opt_list(!is_zero_float_literal(p.feedback_score), "- feedback_score "@ + p.feedback_score);
    let l11 = opt_list(p.feedback_count != 0, "- feedback_count "@ + decimal(p.feedback_count as nat));
    let l12 = opt_list(p.feedback_last_ts_ms is Some, "- feedback_last_ts_ms "@ + decimal(p.feedback_last_ts_ms->0 as nat));
    let l13 = text_list("S "@, sorted_seq::<String>(n.source_files));
    lemma_plain_line("@ "@, encode_type_token(n.node_type) + ":"@ + n.id);
    assert("@ "@ + (encode_type_token(n.node_type) + ":"@ + n.id) =~= h);
    lemma_text_line("N "@, n.name);
    lemma_opt_line(n.name.len() > 0, text_line("N "@, n.name), "N "@ + escape_text(n.name));
    lemma_text_line("D "@, p.description);
    lemma_opt_line(p.description.len() > 0, text_line("D "@, p.description), "D "@ + escape_text(p.description));
    lemma_text_lines("A "@, sorted_seq::<String>(p.alias));
    lemma_text_lines("F "@, sorted_seq::<String>(p.key_facts));
    lemma_plain_line("E "@, p.created_at);
    lemma_opt_line(p.created_at.len() > 0, plain_line("E "@, p.created_at), "E "@ + p.created_at);
    lemma_plain_line("C "@, p.confidence->0);
    lemma_opt_line(p.confidence is Some, plain_line("C "@, p.confidence->0), "C "@ + p.confidence->0);
    lemma_plain_line("V "@, p.importance);
    lemma_text_line("P "@, p.provenance);
    lemma_opt_line(p.provenance.len() > 0, text_line("P "@, p.provenance), "P "@ + escape_text(p.provenance));
    lemma_text_line("- domain_area "@, p.domain_area);
    lemma_opt_line(p.domain_area.len() > 0, text_line("- domain_area "@, p.domain_area), "- domain_area "@ + escape_text(p.domain_area));
    lemma_plain_line("- feedback_score "@, p.feedback_score);
    lemma_opt_line(!is_zero_float_literal(p.feedback_score), plain_line("- feedback_score "@, p.feedback_score), "- feedback_score "@ + p.feedback_score);
    lemma_plain_line("- feedback_count "@, decimal(p.feedback_count as nat));
    lemma_opt_line(p.feedback_count != 0, plain_line("- feedback_count "@, decimal(p.feedback_count as nat)), "- feedback_count "@ + decimal(p.feedback_count as nat));
    lemma_plain_line("- feedback_last_ts_ms "@, decimal(p.feedback_last_ts_ms->0 as nat));
    lemma_opt_line(p.feedback_last_ts_ms is Some, plain_line("- feedback_last_ts_ms "@, decimal(p.feedback_last_ts_ms->0 as nat)), "- feedback_last_ts_ms "@ + decimal(p.feedback_last_ts_ms->0 as nat));
    lemma_text_lines("S "@, sorted_seq::<String>(n.source_files));
    lemma_nl_join_concat(l0, l1);
    lemma_nl_join_concat(l0 + l1, l2);
    lemma_nl_join_concat(l0 + l1 + l2, l3);
    lemma_nl_join_concat(l0 + l1 + l2 + l3, l4);
    lemma_nl_join_concat(l0 + l1 + l2 + l3 + l4, l5);
    lemma_nl_join_concat(l0 + l1 + l2 + l3 + l4 + l5, l6);
    lemma_nl_join_concat(l0 + l1 + l2 + l3 + l4 + l5 + l6, l7);
    lemma_nl_join_concat(l0 + l1 + l2 + l3 + l4 + l5 + l6 + l7, l8);
    lemma_nl_join_concat(l0 + l1 + l2 + l3 + l4 + l5 + l6 + l7 + l8, l9);
    lemma_nl_join_concat(l0 + l1 + l2 + l3 + l4 + l5 + l6 + l7 + l8 + l9, l10);
    lemma_nl_join_concat(l0 + l1 + l2 + l3 + l4 + l5 + l6 + l7 + l8 + l9 + l10, l11);
    lemma_nl_join_concat(l0 + l1 + l2 + l3 + l4 + l5 + l6 + l7 + l8 + l9 + l10 + l11, l12);
    lemma_nl_join_concat(l0 + l1 + l2 + l3 + l4 + l5 + l6 + l7 + l8 + l9 + l10 + l11 + l12, l13);
    assert(node_field_list(n) == l0 + l1 + l2 + l3 + l4 + l5 + l6 + l7 + l8 + l9 + l10 + l11 + l12 + l13);
}

proof fn lemma_node_block(n: NodeV, edges: Seq<EdgeV>)
    ensures
        node_block(n, edges) == nl_join(node_list(n, edges)),
{
    lemma_node_fields(n);
    lemma_edge_blocks(outgoing(edges, n.id));
    let a = node_field_list(n);
    let b = edges_list(outgoing(edges, n.id));
    let c = seq![Seq::<char>::empty()];
    lemma_nl_join_concat(a, b);
    lemma_nl_join_concat(a + b, c);
    lemma_nl_join_one(Seq::<char>::empty());
    reveal_strlit("\n");
    assert(Seq::<char>::empty() + seq!['\n'] =~= "\n"@);
}

proof fn lemma_node_blocks(ns: Seq<NodeV>, edges: Seq<EdgeV>)
    ensures
        node_blocks(ns, edges) == nl_join(nodes_list(ns, edges)),
    decreases ns.len(),
{
    if ns.len() == 0 {
        assert(nl_join(Seq::<Seq<char>>::empty()) =~= Seq::<char>::empty());
    } else {
        lemma_node_blocks(ns.drop_last(), edges);
        lemma_node_block(ns.last(), edges);
        lemma_nl_join_concat(nodes_list(ns.drop_last(), edges), node_list(ns.last(), edges));
    }
}

proof fn lemma_note_block(o: NoteV)
    ensures
        note_block(o) == nl_join(note_list(o)),
{
    reveal(note_block);
    let l0 = seq!["! "@ + o.id + " "@ + o.node_id];
    let l1 = seq!["b "@ + escape_text(o.body)];
    let l2 = text_list("t "@, sorted_seq::<String>(o.tags));
    let l3 = opt_list(o.author.len() > 0, "a "@ + escape_text(o.author));
    let l4 = opt_list(o.created_at.len() > 0, "e "@ + o.created_at);
    let l5 = opt_list(o.provenance.len() > 0, "p "@ + escape_text(o.provenance));
    let l6 = text_list("s "@, sorted_seq::<String>(o.source_files));
    let l7 = seq![Seq::<char>::empty()];
    lemma_plain_line("! "@, o.id + " "@ + o.node_id);
    assert("! "@ + (o.id + " "@ + o.node_id) =~= "! "@ + o.id + " "@ + o.node_id);
    lemma_text_line("b "@, o.body);
    lemma_text_lines("t "@, sorted_seq::<String>(o.tags));
    lemma_text_line("a "@, o.author);
    lemma_opt_line(o.author.len() > 0, text_line("a "@, o.author), "a "@ + escape_text(o.author));
    lemma_plain_line("e "@, o.created_at);
    lemma_opt_line(o.created_at.len() > 0, plain_line("e "@, o.created_at), "e "@ + o.created_at);
    lemma_text_line("p "@, o.provenance);
    lemma_opt_line(o.provenance.len() > 0, text_line("p "@, o.provenance), "p "@ + escape_text(o.provenance));
    lemma_text_lines("s "@, sorted_seq::<String>(o.source_files));
    lemma_nl_join_one(Seq::<char>::empty());
    reveal_strlit("\n");
    assert(Seq::<char>::empty() + seq!['\n'] =~= "\n"@);
    lemma_nl_join_concat(l0, l1);
    lemma_nl_join_concat(l0 + l1, l2);
    lemma_nl_join_concat(l0 + l1 + l2, l3);
    lemma_nl_join_concat(l0 + l1 + l2 + l3, l4);
    lemma_nl_join_concat(l0 + l1 + l2 + l3 + l4, l5);
    lemma_nl_join_concat(l0 + l1 + l2 + l3 + l4 + l5, l6);
    lemma_nl_join_concat(l0 + l1 + l2 + l3 + l4 + l5 + l6, l7);
    assert(note_list(o) =~= l0 + l1 + l2 + l3 + l4 + l5 + l6 + l7);
}

proof fn lemma_note_blocks(os: Seq<NoteV>)
    ensures
        note_blocks(os) == nl_join(notes_list(os)),
    decreases os.len(),
{
    if os.len() == 0 {
        assert(nl_join(Seq::<Seq<char>>::empty()) =~= Seq::<char>::empty());
    } else {
        lemma_note_blocks(os.drop_last());
        lemma_note_block(os.last());
        lemma_nl_join_concat(notes_list(os.drop_last()), note_list(os.last()));
    }
}

/// The written text of a graph as lines.
pub open spec fn graph_list(g: GraphV) -> Seq<Seq<char>> {
    nodes_list(sorted_seq::<Node>(g.nodes), g.edges) + notes_list(sorted_seq::<Note>(g.notes))
}

proof fn lemma_serialize_lines(g: GraphV)
    ensures
        written_text(g) == nl_join(graph_list(g)),
{
    lemma_node_blocks(sorted_seq::<Node>(g.nodes), g.edges);
    lemma_note_blocks(sorted_seq::<Note>(g.notes));
    lemma_nl_join_concat(nodes_list(sorted_seq::<Node>(g.nodes), g.edges), notes_list(sorted_seq::<Note>(g.notes)));
}

// ---------------------------------------------------------------------------
// Reading single lines
// ---------------------------------------------------------------------------

/// A non-empty text without whitespace.
pub open spec fn is_token(s: Seq<char>) -> bool {
    s.len() > 0 && forall|i: int| 0 <= i < s.len() ==> !is_ws(#[trigger] s[i])
}

proof fn lemma_trim_head(s: Seq<char>)
    requires
        s.len() > 0,
        !is_ws(s[0]),
    ensures
        trim_start(s) == s,
        trim(s).len() > 0,
        trim(s)[0] == s[0],
        !is_ws(s.last()) ==> trim(s) == s,
{
    assert(ws_prefix_len(s) == 0);
    assert(s.skip(0) =~= s);
    crate::text::lemma_ws_suffix_bound(s);
    if ws_suffix_len(s) == s.len() {
        assert(is_ws(s[0]));
    }
    if !is_ws(s.last()) {
        assert(ws_suffix_len(s) == 0);
        assert(s.take(s.len() as int) =~= s);
    }
}

pub(crate) proof fn lemma_token_trim(s: Seq<char>)
    requires
        is_token(s),
    ensures
        trim(s) == s,
{
    lemma_trim_head(s);
}

/// `tokens` of two tokens separated by one space.
proof fn lemma_two_tokens(a: Seq<char>, b: Seq<char>)
    requires
        is_token(a),
        is_token(b),
    ensures
        tokens(a + seq![' '] + b) == seq![a, b],
{
    let s = a + seq![' '] + b;
    lemma_trim_head(s);
    assert(s[0] == a[0]);
    assert forall|j: int| 0 <= j < a.len() implies !is_ws(#[trigger] s[j]) by {
        assert(s[j] == a[j]);
    }
    assert(s[a.len() as int] == ' ');
    crate::text::lemma_ws_index_scan_pub(s, 0, a.len() as int);
    assert(s.take(a.len() as int) =~= a);
    let r = s.skip(a.len() as int);
    assert(r =~= seq![' '] + b);
    assert(r[0] == ' ');
    assert(is_ws(' '));
    crate::text::lemma_ws_prefix_skip(r, 1);
    lemma_trim_head(b);
    assert(ws_prefix_len(b) == 0);
    assert(r.skip(1) =~= b);
    assert(trim_start(r) =~= b);
    assert forall|j: int| 0 <= j < b.len() implies !is_ws(#[trigger] b[j]) by {}
    crate::text::lemma_ws_index_scan_pub(b, 0, b.len() as int);
    assert(b.take(b.len() as int) =~= b);
    assert(b.skip(b.len() as int) =~= Seq::<char>::empty());
    assert(trim_start(Seq::<char>::empty()) =~= Seq::<char>::empty());
    assert(tokens(Seq::<char>::empty()) =~= Seq::<Seq<char>>::empty());
    assert(tokens(b) =~= seq![b]);
    assert(tokens(r) =~= seq![b]);
    assert(tokens(s) =~= seq![a] + tokens(r));
}

/// The characters of a decimal number.
pub(crate) proof fn lemma_decimal_digits(n: nat)
    ensures
        decimal(n).len() > 0,
        all_digits(decimal(n)),
        digits_value(decimal(n)) == n,
    decreases n,
{
    if n >= 10 {
        lemma_decimal_digits(n / 10);
        let d = decimal(n / 10);
        let e = decimal(n);
        assert(e == d.push(digit_char(n % 10)));
        assert(e.drop_last() =~= d);
        assert forall|i: int| 0 <= i < e.len() implies crate::text::is_digit(#[trigger] e[i]) by {
            if i < d.len() {
                assert(e[i] == d[i]);
            }
        }
        assert(digit_char(n % 10) as int == n % 10 + 48);
        assert(e.last() == digit_char(n % 10));
        assert((n / 10) * 10 + n % 10 == n) by (nonlinear_arith);
        assert(digits_value(e) == digits_value(d) * 10 + (n % 10));
    } else {
        let e = decimal(n);
        assert(e.drop_last() =~= Seq::<char>::empty());
        assert(digit_char(n) as int == n + 48);
        assert(digits_value(Seq::<char>::empty()) == 0);
    }
}

/// `u64::from_str` reads a written count back.
pub(crate) proof fn lemma_parse_decimal(n: u64)
    ensures
        parse_u64_spec(decimal(n as nat)) == Some(n),
        is_token(decimal(n as nat)),
{
    lemma_decimal_digits(n as nat);
    let d = decimal(n as nat);
    assert(d[0] != '+');
    assert forall|i: int| 0 <= i < d.len() implies !is_ws(#[trigger] d[i]) by {
        assert(crate::text::is_digit(d[i]));
    }
}

/// `custom_split` of a key, a space and a value.
proof fn lemma_custom_split(key: Seq<char>, value: Seq<char>)
    requires
        is_token(key),
    ensures
        custom_split(key + seq![' '] + value) == (key, value),
{
    let s = key + seq![' '] + value;
    assert forall|j: int| 0 <= j < key.len() implies !is_ws(#[trigger] s[j]) by {
        assert(s[j] == key[j]);
    }
    assert(s[key.len() as int] == ' ');
    crate::text::lemma_ws_index_scan_pub(s, 0, key.len() as int);
    assert(s.take(key.len() as int) =~= key);
    assert(s.skip(key.len() + 1 as int) =~= value);
    lemma_token_trim(key);
}

/// The key characters of node and edge field lines.
pub open spec fn is_field_char(c: char) -> bool {
    c == 'N' || c == 'D' || c == 'A' || c == 'F' || c == 'E' || c == 'C' || c == 'V' || c == 'P'
        || c == 'S' || c == 'd' || c == 'i' || c == 'x' || c == '-'
}

/// The kind the parser gives a field line with key character `c`.
pub open spec fn field_kind(c: char) -> nat {
    if c == 'N' {
        1
    } else if c == 'D' {
        2
    } else if c == 'A' {
        3
    } else if c == 'F' {
        4
    } else if c == 'E' {
        5
    } else if c == 'C' {
        6
    } else if c == 'V' {
        7
    } else if c == 'P' {
        8
    } else if c == 'S' {
        9
    } else if c == 'd' {
        12
    } else if c == 'i' {
        13
    } else if c == 'x' {
        14
    } else {
        15
    }
}

proof fn lemma_field_value_key(raw: Seq<char>, key: Seq<char>)
    requires
        raw.len() >= 2,
        key.len() == 1,
    ensures
        raw[0] != key[0] ==> field_value(raw, key) is None,
        raw[0] == key[0] && raw[1] == ' ' ==> field_value(raw, key) == Some(raw.skip(2)),
{
    let k2 = key.push(' ');
    if raw[0] != key[0] {
        assert(raw != key);
        assert(!k2.is_prefix_of(raw)) by {
            if k2.is_prefix_of(raw) {
                assert(k2[0] == raw[0]);
            }
        }
    } else if raw[1] == ' ' {
        assert(raw != key);
        assert(k2.is_prefix_of(raw)) by {
            assert(raw.subrange(0, 2) =~= k2);
        }
        assert(raw.skip(2) =~= raw.skip(k2.len() as int));
    }
}

proof fn lemma_prefix_pair_absent(t: Seq<char>, x: Seq<char>)
    requires
        t.len() >= 1,
        x.len() == 2,
        t[0] != x[0],
    ensures
        strip_prefix(t, x) is None,
{
    if x.is_prefix_of(t) {
        assert(x[0] == t[0]);
    }
}

proof fn lemma_field_kind(raw: Seq<char>, t: Seq<char>)
    requires
        raw.len() >= 2,
        raw[1] == ' ',
        is_field_char(raw[0]),
        t.len() >= 1,
        t[0] == raw[0],
    ensures
        node_line_kind(raw, t) == field_kind(raw[0]),
        field_value(raw, node_key(field_kind(raw[0]))) == Some(raw.skip(2)),
{
    reveal_strlit("N");
    reveal_strlit("D");
    reveal_strlit("A");
    reveal_strlit("F");
    reveal_strlit("E");
    reveal_strlit("C");
    reveal_strlit("V");
    reveal_strlit("P");
    reveal_strlit("S");
    reveal_strlit("d");
    reveal_strlit("i");
    reveal_strlit("x");
    reveal_strlit("-");
    reveal_strlit("> ");
    reveal_strlit("= ");
    lemma_field_value_key(raw, "N"@);
    lemma_field_value_key(raw, "D"@);
    lemma_field_value_key(raw, "A"@);
    lemma_field_value_key(raw, "F"@);
    lemma_field_value_key(raw, "E"@);
    lemma_field_value_key(raw, "C"@);
    lemma_field_value_key(raw, "V"@);
    lemma_field_value_key(raw, "P"@);
    lemma_field_value_key(raw, "S"@);
    lemma_field_value_key(raw, "d"@);
    lemma_field_value_key(raw, "i"@);
    lemma_field_value_key(raw, "x"@);
    lemma_field_value_key(raw, "-"@);
    lemma_prefix_pair_absent(t, "> "@);
    lemma_prefix_pair_absent(t, "= "@);
}

/// A field line: a key character, a space, then the value.
pub open spec fn field_line(c: char, v: Seq<char>) -> Seq<char> {
    seq![c, ' '] + v
}

proof fn lemma_step_field(p: ParserV, n: nat, c: char, v: Seq<char>)
    requires
        p.note is None,
        p.node is Some,
        is_field_char(c),
        one_line(field_line(c, v)),
    ensures
        step(p, n, field_line(c, v), false) == step_node_line(
            p,
            n,
            field_line(c, v),
            trim(field_line(c, v)),
            false,
        ),
        node_line_kind(field_line(c, v), trim(field_line(c, v))) == field_kind(c),
        field_value(field_line(c, v), node_key(field_kind(c))) == Some(v),
{
    reveal(step);
    let line = field_line(c, v);
    reveal_strlit("@ ");
    reveal_strlit("! ");
    assert(line[0] == c && line[1] == ' ');
    assert(!is_ws(c));
    lemma_trim_head(line);
    assert(crate::text::strip_cr(line) == line);
    let t = trim(line);
    assert(t.len() > 0 && t[0] != '#');
    lemma_prefix_pair_absent(t, "@ "@);
    lemma_prefix_pair_absent(t, "! "@);
    lemma_field_kind(line, t);
    assert(line.skip(2) =~= v);
}

/// `step` agrees with `p` except for the open node and the ranks.
pub open spec fn node_changed(p: ParserV, q: ParserV, nd: NodeV) -> bool {
    q == ParserV { node: Some(nd), node_rank: q.node_rank, ..p }
}

proof fn lemma_one_line_escaped(c: char, v: Seq<char>)
    requires
        !is_ws(c),
    ensures
        one_line(field_line(c, escape_text(v))),
{
    law_escape_single_line(v);
    let l = field_line(c, escape_text(v));
    let e = escape_text(v);
    if l.contains('\n') {
        let k = choose|k: int| 0 <= k < l.len() && l[k] == '\n';
        if k >= 2 {
            assert(e[k - 2] == '\n');
        }
    }
    if e.len() > 0 {
        assert(l.last() == e.last());
        if e.last() == '\r' {
            assert(e[e.len() - 1] == '\r');
            assert(e.contains('\r'));
        }
    }
}

/// A text field line of a node.
proof fn lemma_step_text(p: ParserV, n: nat, c: char, v: Seq<char>)
    requires
        p.note is None,
        p.node is Some,
        c == 'N' || c == 'D' || c == 'A' || c == 'F' || c == 'P' || c == 'S',
    ensures
        step(p, n, field_line(c, escape_text(v)), false) matches Ok(q) && node_changed(
            p,
            q,
            set_node_text(p.node->0, field_kind(c), v),
        ),
{
    lemma_one_line_escaped(c, v);
    lemma_step_field(p, n, c, escape_text(v));
    law_decode_escape(v);
}

/// A token line: the value has no whitespace, line breaks or trailing
/// carriage return.
proof fn lemma_one_line_token(c: char, v: Seq<char>)
    requires
        !is_ws(c),
        is_token(v),
    ensures
        one_line(field_line(c, v)),
        trim(v) == v,
{
    let l = field_line(c, v);
    if l.contains('\n') {
        let k = choose|k: int| 0 <= k < l.len() && l[k] == '\n';
        if k >= 2 {
            assert(is_ws(v[k - 2]));
        }
    }
    assert(l.last() == v[v.len() - 1]);
    assert(!is_ws(v[v.len() - 1]));
    lemma_token_trim(v);
}

/// The creation time line of a node.
proof fn lemma_step_created(p: ParserV, n: nat, ts: Seq<char>)
    requires
        p.note is None,
        p.node is Some,
        is_token(ts),
        is_utc_timestamp(ts),
    ensures
        step(p, n, field_line('E', ts), false) matches Ok(q) && node_changed(
            p,
            q,
            NodeV {
                props: NodePropsV { created_at: ts, ..p.node->0.props },
                ..p.node->0
            },
        ),
{
    lemma_one_line_token('E', ts);
    lemma_step_field(p, n, 'E', ts);
}

/// The confidence and importance lines of a node.
proof fn lemma_step_number(p: ParserV, n: nat, c: char, v: Seq<char>)
    requires
        p.note is None,
        p.node is Some,
        c == 'C' || c == 'V',
        is_token(v),
    ensures
        step(p, n, field_line(c, v), false) matches Ok(q) && node_changed(
            p,
            q,
            set_node_number(p.node->0, field_kind(c), v),
        ),
{
    lemma_one_line_token(c, v);
    lemma_step_field(p, n, c, v);
}

/// A `- <key> <value>` line.
pub open spec fn custom_line(key: Seq<char>, value: Seq<char>) -> Seq<char> {
    field_line('-', key + seq![' '] + value)
}

/// A node property line `- <key> <value>` for one of the node keys.
proof fn lemma_step_node_custom(p: ParserV, n: nat, key: Seq<char>, value: Seq<char>)
    requires
        p.note is None,
        p.node is Some,
        is_token(key),
        key == "domain_area"@ || key == "feedback_score"@ || key == "feedback_count"@ || key
            == "feedback_last_ts_ms"@,
        one_line(custom_line(key, value)),
    ensures
        step(p, n, custom_line(key, value), false) matches Ok(q) && q == apply_custom(
            ParserV { node_rank: q.node_rank, ..p },
            key,
            value,
        ),
{
    lemma_step_field(p, n, '-', key + seq![' '] + value);
    lemma_custom_split(key, value);
    reveal_strlit("edge_feedback_score");
    reveal_strlit("edge_feedback_count");
    reveal_strlit("edge_feedback_last_ts_ms");
    reveal_strlit("domain_area");
    reveal_strlit("feedback_score");
    reveal_strlit("feedback_count");
    reveal_strlit("feedback_last_ts_ms");
    assert(!crate::kg_parse::is_edge_custom(key));
}

/// An edge head line: the operator, the relation code and the target.
pub open spec fn head_line(op: char, code: Seq<char>, target: Seq<char>) -> Seq<char> {
    seq![op, ' '] + code + seq![' '] + target
}

proof fn lemma_head_line_shape(op: char, code: Seq<char>, target: Seq<char>)
    requires
        op == '>' || op == '=',
        is_token(code),
        is_token(target),
    ensures
        one_line(head_line(op, code, target)),
        trim(head_line(op, code, target)) == head_line(op, code, target),
        strip_prefix(head_line(op, code, target), seq![op, ' ']) == Some(
            code + seq![' '] + target,
        ),
        tokens(code + seq![' '] + target) == seq![code, target],
{
    let l = head_line(op, code, target);
    assert(l[0] == op && !is_ws(op));
    assert(l.last() == target[target.len() - 1]);
    lemma_trim_head(l);
    if l.contains('\n') {
        let k = choose|k: int| 0 <= k < l.len() && l[k] == '\n';
        if 2 <= k < 2 + code.len() {
            assert(l[k] == code[k - 2]);
        } else if k >= 3 + code.len() {
            assert(l[k] == target[k - 3 - code.len()]);
        }
    }
    assert(seq![op, ' '].is_prefix_of(l));
    assert(l.skip(2) =~= code + seq![' '] + target);
    lemma_two_tokens(code, target);
}

proof fn lemma_step_to_node_line(p: ParserV, n: nat, line: Seq<char>)
    requires
        p.note is None,
        p.node is Some,
        one_line(line),
        line.len() >= 2,
        !is_ws(line[0]),
        line[0] != '#' && line[0] != '@' && line[0] != '!',
    ensures
        step(p, n, line, false) == step_node_line(p, n, line, trim(line), false),
{
    reveal(step);
    reveal_strlit("@ ");
    reveal_strlit("! ");
    lemma_trim_head(line);
    assert(crate::text::strip_cr(line) == line);
    let t = trim(line);
    lemma_prefix_pair_absent(t, "@ "@);
    lemma_prefix_pair_absent(t, "! "@);
}

proof fn lemma_head_kind(op: char, code: Seq<char>, target: Seq<char>)
    requires
        op == '>' || op == '=',
        is_token(code),
        is_token(target),
    ensures
        node_line_kind(head_line(op, code, target), head_line(op, code, target)) == if op == '>' {
            10nat
        } else {
            11nat
        },
{
    let l = head_line(op, code, target);
    reveal_strlit("N");
    reveal_strlit("D");
    reveal_strlit("A");
    reveal_strlit("F");
    reveal_strlit("E");
    reveal_strlit("C");
    reveal_strlit("V");
    reveal_strlit("P");
    reveal_strlit("S");
    reveal_strlit("> ");
    reveal_strlit("= ");
    lemma_field_value_key(l, "N"@);
    lemma_field_value_key(l, "D"@);
    lemma_field_value_key(l, "A"@);
    lemma_field_value_key(l, "F"@);
    lemma_field_value_key(l, "E"@);
    lemma_field_value_key(l, "C"@);
    lemma_field_value_key(l, "V"@);
    lemma_field_value_key(l, "P"@);
    lemma_field_value_key(l, "S"@);
    lemma_head_line_shape(op, code, target);
    if op == '=' {
        lemma_prefix_pair_absent(l, "> "@);
        assert("= "@ =~= seq![op, ' ']);
    } else {
        assert("> "@ =~= seq![op, ' ']);
    }
}

/// A directed edge line.
proof fn lemma_step_directed(p: ParserV, n: nat, code: Seq<char>, target: Seq<char>)
    requires
        p.note is None,
        p.node is Some,
        is_token(code),
        is_token(target),
    ensures
        step(p, n, head_line('>', code, target), false) == Ok::<ParserV, Seq<char>>(
            open_edge(p, directed_edge(p.node->0, code, target)),
        ),
{
    let l = head_line('>', code, target);
    lemma_head_line_shape('>', code, target);
    lemma_step_to_node_line(p, n, l);
    lemma_head_kind('>', code, target);
    reveal_strlit("> ");
    assert("> "@ =~= seq!['>', ' ']);
}

/// A similarity edge line.
proof fn lemma_step_similarity(p: ParserV, n: nat, code: Seq<char>, target: Seq<char>)
    requires
        p.note is None,
        p.node is Some,
        is_token(code),
        is_token(target),
        code_relation(code) == "~"@,
    ensures
        step(p, n, head_line('=', code, target), false) == Ok::<ParserV, Seq<char>>(
            open_edge(p, similarity_edge(p.node->0, target)),
        ),
{
    let l = head_line('=', code, target);
    lemma_head_line_shape('=', code, target);
    lemma_step_to_node_line(p, n, l);
    lemma_head_kind('=', code, target);
    reveal_strlit("= ");
    assert("= "@ =~= seq!['=', ' ']);
}

/// `step` agrees with `p` except for the last edge and the ranks.
pub open spec fn edge_changed(p: ParserV, q: ParserV, e: EdgeV) -> bool {
    q == set_last_edge(ParserV { edge_rank: q.edge_rank, ..p }, e)
}

proof fn lemma_score_line_shape(label: Seq<char>, value: Seq<char>)
    requires
        is_token(label),
        is_token(value),
    ensures
        one_line(field_line('d', label + seq![' '] + value)),
        trim(label + seq![' '] + value) == label + seq![' '] + value,
        tokens(label + seq![' '] + value) == seq![label, value],
{
    let v = label + seq![' '] + value;
    let l = field_line('d', v);
    lemma_two_tokens(label, value);
    assert(v[0] == label[0]);
    assert(v.last() == value[value.len() - 1]);
    lemma_trim_head(v);
    if l.contains('\n') {
        let k = choose|k: int| 0 <= k < l.len() && l[k] == '\n';
        if 2 <= k < 2 + label.len() {
            assert(l[k] == label[k - 2]);
        } else if k >= 3 + label.len() {
            assert(l[k] == value[k - 3 - label.len()]);
        }
    }
    assert(l.last() == value[value.len() - 1]);
}

/// A score component line.
proof fn lemma_step_score(p: ParserV, n: nat, label: Seq<char>, value: Seq<char>)
    requires
        p.note is None,
        p.node is Some,
        p.edge_open,
        p.graph.edges.len() > 0,
        is_token(label),
        is_score_label(label),
        is_token(value),
        is_float_literal(value),
    ensures
        step(p, n, field_line('d', label + seq![' '] + value), false) matches Ok(q) && edge_changed(
            p,
            q,
            EdgeV {
                props: EdgePropsV {
                    score_components: assoc_insert(
                        last_edge(p).props.score_components,
                        label,
                        value,
                    ),
                    ..last_edge(p).props
                },
                ..last_edge(p)
            },
        ),
{
    let v = label + seq![' '] + value;
    lemma_score_line_shape(label, value);
    lemma_step_field(p, n, 'd', v);
}

/// An edge detail line whose text does not read as a score component.
proof fn lemma_step_detail(p: ParserV, n: nat, detail: Seq<char>)
    requires
        p.note is None,
        p.node is Some,
        p.edge_open,
        p.graph.edges.len() > 0,
        !(tokens(trim(escape_text(detail))).len() == 2 && is_score_label(
            tokens(trim(escape_text(detail)))[0],
        )),
    ensures
        step(p, n, field_line('d', escape_text(detail)), false) matches Ok(q) && edge_changed(
            p,
            q,
            EdgeV { props: EdgePropsV { detail, ..last_edge(p).props }, ..last_edge(p) },
        ),
{
    lemma_one_line_escaped('d', detail);
    lemma_step_field(p, n, 'd', escape_text(detail));
    law_decode_escape(detail);
}

/// An edge validity line (`i` or `x`).
proof fn lemma_step_validity(p: ParserV, n: nat, c: char, ts: Seq<char>)
    requires
        p.note is None,
        p.node is Some,
        p.edge_open,
        p.graph.edges.len() > 0,
        c == 'i' || c == 'x',
        is_token(ts),
        is_utc_timestamp(ts),
    ensures
        step(p, n, field_line(c, ts), false) matches Ok(q) && edge_changed(
            p,
            q,
            if c == 'i' {
                EdgeV { props: EdgePropsV { valid_from: ts, ..last_edge(p).props }, ..last_edge(p) }
            } else {
                EdgeV { props: EdgePropsV { valid_to: ts, ..last_edge(p).props }, ..last_edge(p) }
            },
        ),
{
    lemma_one_line_token(c, ts);
    lemma_step_field(p, n, c, ts);
}

/// An edge property line `- <key> <value>`.
proof fn lemma_step_edge_custom(p: ParserV, n: nat, key: Seq<char>, value: Seq<char>)
    requires
        p.note is None,
        p.node is Some,
        p.edge_open,
        p.graph.edges.len() > 0,
        is_token(key),
        key == "edge_feedback_score"@ || key == "edge_feedback_count"@ || key
            == "edge_feedback_last_ts_ms"@,
        one_line(custom_line(key, value)),
    ensures
        step(p, n, custom_line(key, value), false) matches Ok(q) && q == apply_custom(
            ParserV { edge_rank: q.edge_rank, ..p },
            key,
            value,
        ),
{
    lemma_step_field(p, n, '-', key + seq![' '] + value);
    lemma_custom_split(key, value);
    reveal_strlit("edge_feedback_score");
    reveal_strlit("edge_feedback_count");
    reveal_strlit("edge_feedback_last_ts_ms");
    assert(crate::kg_parse::is_edge_custom(key));
}

/// A blank line changes nothing.
proof fn lemma_step_blank(p: ParserV, n: nat)
    ensures
        step(p, n, Seq::empty(), false) == Ok::<ParserV, Seq<char>>(p),
{
    reveal(step);
    assert(crate::text::strip_cr(Seq::<char>::empty()) =~= Seq::<char>::empty());
    assert(ws_prefix_len(Seq::<char>::empty()) == 0);
    assert(trim(Seq::<char>::empty()).len() == 0);
}

proof fn lemma_split_at_colon(a: Seq<char>, b: Seq<char>)
    requires
        !a.contains(':'),
    ensures
        crate::text::split_once(a + seq![':'] + b, ':') == Some((a, b)),
{
    let s = a + seq![':'] + b;
    assert forall|j: int| 0 <= j < a.len() implies s[j] != ':' by {
        assert(s[j] == a[j]);
        if a[j] == ':' {
            assert(a.contains(':'));
        }
    }
    crate::text::lemma_find_char_from_scan(s, ':', 0, a.len() as int);
    assert(s[a.len() as int] == ':');
    assert(s.take(a.len() as int) =~= a);
    assert(s.skip(a.len() + 1 as int) =~= b);
}

/// The node a header line opens.
pub open spec fn header_node(t: Seq<char>, id: Seq<char>) -> NodeV {
    NodeV {
        id,
        node_type: t,
        name: Seq::empty(),
        props: default_node_props(),
        source_files: Seq::empty(),
    }
}

/// The line that opens a node block.
pub open spec fn node_header_line(t: Seq<char>, id: Seq<char>) -> Seq<char> {
    "@ "@ + encode_type_token(t) + ":"@ + id
}

/// Types whose header token reads back: tokens without `:` that do not
/// start with `=`.
pub open spec fn header_type_ok(t: Seq<char>) -> bool {
    &&& is_token(t)
    &&& !t.contains(':')
    &&& t[0] != '='
}

proof fn lemma_type_token(t: Seq<char>)
    requires
        header_type_ok(t),
    ensures
        is_token(encode_type_token(t)),
        !encode_type_token(t).contains(':'),
        decode_type_token(encode_type_token(t)) == t,
{
    law_type_token_roundtrip(t);
    reveal_strlit("Feature");
    reveal_strlit("Concept");
    reveal_strlit("Interface");
    reveal_strlit("Process");
    reveal_strlit("DataStore");
    reveal_strlit("Attribute");
    reveal_strlit("Entity");
    reveal_strlit("Note");
    reveal_strlit("Rule");
    reveal_strlit("Convention");
    reveal_strlit("Bug");
    reveal_strlit("Decision");
    reveal_strlit("OpenQuestion");
    reveal_strlit("Claim");
    reveal_strlit("Insight");
    reveal_strlit("Reference");
    reveal_strlit("Term");
    reveal_strlit("Status");
    reveal_strlit("Doubt");
    reveal_strlit("F");
    reveal_strlit("K");
    reveal_strlit("I");
    reveal_strlit("P");
    reveal_strlit("D");
    reveal_strlit("A");
    reveal_strlit("Y");
    reveal_strlit("N");
    reveal_strlit("R");
    reveal_strlit("C");
    reveal_strlit("B");
    reveal_strlit("Z");
    reveal_strlit("O");
    reveal_strlit("Q");
    reveal_strlit("W");
    reveal_strlit("M");
    reveal_strlit("T");
    reveal_strlit("S");
    reveal_strlit("L");
    let e = encode_type_token(t);
    let code = crate::kg_codec::node_type_code(t);
    if code != t {
        assert(e == code);
        assert(e.len() == 1);
        assert(!is_ws(e[0]) && e[0] != ':');
    } else if crate::kg_codec::code_node_type(t) != t {
        assert(e =~= seq!['='] + t);
        assert forall|i: int| 0 <= i < e.len() implies !is_ws(#[trigger] e[i]) by {
            if i > 0 {
                assert(e[i] == t[i - 1]);
            }
        }
        if e.contains(':') {
            let k = choose|k: int| 0 <= k < e.len() && e[k] == ':';
            assert(t[k - 1] == ':');
        }
    }
}

/// A node header line opens the node and closes what was open.
proof fn lemma_step_node_header(p: ParserV, n: nat, t: Seq<char>, id: Seq<char>)
    requires
        header_type_ok(t),
        is_token(id),
        id.contains(':'),
    ensures
        step(p, n, node_header_line(t, id), false) == Ok::<ParserV, Seq<char>>(
            ParserV {
                node: Some(header_node(t, id)),
                edge_open: false,
                node_rank: 0,
                edge_rank: 0,
                ..flush(p)
            },
        ),
{
    reveal(step);
    reveal_strlit("@ ");
    reveal_strlit(":");
    let e = encode_type_token(t);
    lemma_type_token(t);
    let rest = e + seq![':'] + id;
    let l = node_header_line(t, id);
    assert(l =~= seq!['@', ' '] + rest);
    assert(l.last() == id[id.len() - 1]);
    lemma_trim_head(l);
    if l.contains('\n') {
        let k = choose|k: int| 0 <= k < l.len() && l[k] == '\n';
        if 2 <= k < 2 + e.len() {
            assert(l[k] == e[k - 2]);
        } else if k >= 3 + e.len() {
            assert(l[k] == id[k - 3 - e.len()]);
        }
    }
    assert(crate::text::strip_cr(l) == l);
    assert(seq!['@', ' '].is_prefix_of(l));
    assert(l.skip(2) =~= rest);
    lemma_split_at_colon(e, id);
    lemma_token_trim(e);
    lemma_token_trim(id);
}

/// The line that opens a note block.
pub open spec fn note_header_line(id: Seq<char>, node_id: Seq<char>) -> Seq<char> {
    "! "@ + id + " "@ + node_id
}

proof fn lemma_note_header_shape(id: Seq<char>, node_id: Seq<char>)
    requires
        is_token(id),
        is_token(node_id),
    ensures
        crate::text::strip_cr(note_header_line(id, node_id)) == note_header_line(id, node_id),
        trim(note_header_line(id, node_id)) == note_header_line(id, node_id),
        note_header_line(id, node_id)[0] == '!',
        strip_prefix(note_header_line(id, node_id), "@ "@) is None,
        strip_prefix(note_header_line(id, node_id), "! "@) == Some(id + seq![' '] + node_id),
        one_line(note_header_line(id, node_id)),
{
    reveal_strlit("! ");
    reveal_strlit(" ");
    let rest = id + seq![' '] + node_id;
    let l = note_header_line(id, node_id);
    assert(l =~= seq!['!', ' '] + rest);
    assert(l.last() == node_id[node_id.len() - 1]);
    if l.contains('\n') {
        let k = choose|k: int| 0 <= k < l.len() && l[k] == '\n';
        if 2 <= k < 2 + id.len() {
            assert(l[k] == id[k - 2]);
        } else if k >= 3 + id.len() {
            assert(l[k] == node_id[k - 3 - id.len()]);
        }
    }
    lemma_trim_head(l);
    assert(crate::text::strip_cr(l) == l);
    reveal_strlit("@ ");
    lemma_prefix_pair_absent(l, "@ "@);
    assert(seq!['!', ' '].is_prefix_of(l));
    assert(l.skip(2) =~= rest);
}

/// A note header line opens the note and closes what was open.
proof fn lemma_step_note_header(p: ParserV, n: nat, id: Seq<char>, node_id: Seq<char>)
    requires
        is_token(id),
        is_token(node_id),
    ensures
        step(p, n, note_header_line(id, node_id), false) == Ok::<ParserV, Seq<char>>(
            ParserV {
                note: Some(empty_note(id, node_id)),
                edge_open: false,
                note_rank: 0,
                ..flush(p)
            },
        ),
{
    reveal(step);
    lemma_note_header_shape(id, node_id);
    lemma_two_tokens(id, node_id);
}

/// The key characters of note field lines.
pub open spec fn is_note_char(c: char) -> bool {
    c == 'b' || c == 't' || c == 'a' || c == 'e' || c == 'p' || c == 's'
}

/// The kind the parser gives a note line with key character `c`.
pub open spec fn note_kind(c: char) -> nat {
    if c == 'b' {
        1
    } else if c == 't' {
        2
    } else if c == 'a' {
        3
    } else if c == 'e' {
        4
    } else if c == 'p' {
        5
    } else {
        6
    }
}

/// `step` agrees with `p` except for the open note and the ranks.
pub open spec fn note_changed(p: ParserV, q: ParserV, o: NoteV) -> bool {
    q == ParserV { note: Some(o), note_rank: q.note_rank, ..p }
}

proof fn lemma_step_note_field(p: ParserV, n: nat, c: char, v: Seq<char>)
    requires
        p.note is Some,
        is_note_char(c),
        one_line(field_line(c, v)),
    ensures
        step(p, n, field_line(c, v), false) matches Ok(q) && note_changed(
            p,
            q,
            set_note_field(p.note->0, note_kind(c), v),
        ),
{
    reveal(step);
    let l = field_line(c, v);
    reveal_strlit("@ ");
    reveal_strlit("! ");
    reveal_strlit("b");
    reveal_strlit("t");
    reveal_strlit("a");
    reveal_strlit("e");
    reveal_strlit("p");
    reveal_strlit("s");
    assert(l[0] == c && l[1] == ' ' && !is_ws(c));
    lemma_trim_head(l);
    assert(crate::text::strip_cr(l) == l);
    let t = trim(l);
    lemma_prefix_pair_absent(t, "@ "@);
    lemma_prefix_pair_absent(t, "! "@);
    lemma_field_value_key(l, "b"@);
    lemma_field_value_key(l, "t"@);
    lemma_field_value_key(l, "a"@);
    lemma_field_value_key(l, "e"@);
    lemma_field_value_key(l, "p"@);
    lemma_field_value_key(l, "s"@);
    assert(note_field_kind(l) == note_kind(c));
    assert(note_key(note_kind(c)) == seq![c]);
    assert(l.skip(2) =~= v);
}

/// A note text line.
proof fn lemma_step_note_text(p: ParserV, n: nat, c: char, v: Seq<char>)
    requires
        p.note is Some,
        c == 'b' || c == 't' || c == 'a' || c == 'p' || c == 's',
    ensures
        step(p, n, field_line(c, escape_text(v)), false) matches Ok(q) && note_changed(
            p,
            q,
            set_note_field(p.note->0, note_kind(c), escape_text(v)),
        ),
        decode_text(escape_text(v)) == v,
{
    lemma_one_line_escaped(c, v);
    lemma_step_note_field(p, n, c, escape_text(v));
    law_decode_escape(v);
}

// ---------------------------------------------------------------------------
// Running the parser over the pieces of a block
// ---------------------------------------------------------------------------

proof fn lemma_run_empty(p: ParserV, n: nat)
    ensures
        run(p, Seq::empty(), n, false) == Ok::<ParserV, Seq<char>>(p),
{
}

proof fn lemma_run_one(p: ParserV, l: Seq<char>, n: nat)
    ensures
        run(p, seq![l], n, false) == step(p, n, l, false),
{
    assert(seq![l].drop_first() =~= Seq::<Seq<char>>::empty());
    assert(seq![l][0] == l);
    match step(p, n, l, false) {
        Ok(q) => {
            lemma_run_empty(q, n + 1);
        },
        Err(e) => {},
    }
}

proof fn lemma_run_opt(p: ParserV, c: bool, l: Seq<char>, n: nat)
    ensures
        run(p, opt_list(c, l), n, false) == if c {
            step(p, n, l, false)
        } else {
            Ok::<ParserV, Seq<char>>(p)
        },
{
    if c {
        lemma_run_one(p, l, n);
    } else {
        lemma_run_empty(p, n);
    }
}

/// A node with `vs` appended to the list field of kind `k` (`A`, `F` or `S`).
pub open spec fn with_node_list(nd: NodeV, k: nat, vs: Seq<Seq<char>>) -> NodeV {
    if k == 3 {
        NodeV { props: NodePropsV { alias: nd.props.alias + vs, ..nd.props }, ..nd }
    } else if k == 4 {
        NodeV { props: NodePropsV { key_facts: nd.props.key_facts + vs, ..nd.props }, ..nd }
    } else {
        NodeV { source_files: nd.source_files + vs, ..nd }
    }
}

/// The text lines of a node list field append their values in order.
proof fn lemma_run_node_text_list(p: ParserV, n: nat, c: char, vs: Seq<Seq<char>>)
    requires
        p.note is None,
        p.node is Some,
        c == 'A' || c == 'F' || c == 'S',
    ensures
        run(p, text_list(seq![c, ' '], vs), n, false) matches Ok(q) && node_changed(
            p,
            q,
            with_node_list(p.node->0, field_kind(c), vs),
        ),
    decreases vs.len(),
{
    let nd = p.node->0;
    let k = field_kind(c);
    if vs.len() == 0 {
        lemma_run_empty(p, n);
        assert(nd.props.alias + vs =~= nd.props.alias);
        assert(nd.props.key_facts + vs =~= nd.props.key_facts);
        assert(nd.source_files + vs =~= nd.source_files);
        assert(with_node_list(nd, k, vs) =~= nd);
    } else {
        let vs0 = vs.drop_last();
        let v = vs.last();
        let tl0 = text_list(seq![c, ' '], vs0);
        let line = seq![c, ' '] + escape_text(v);
        assert(text_list(seq![c, ' '], vs) =~= tl0 + seq![line]);
        lemma_run_node_text_list(p, n, c, vs0);
        lemma_run_concat(p, tl0, seq![line], n);
        let q0 = run(p, tl0, n, false)->Ok_0;
        let m = n + tl0.len();
        lemma_run_one(q0, line, m);
        lemma_step_text(q0, m, c, v);
        let nd0 = with_node_list(nd, k, vs0);
        if k == 3 {
            assert(nd0.props.alias.push(v) =~= nd.props.alias + vs);
        } else if k == 4 {
            assert(nd0.props.key_facts.push(v) =~= nd.props.key_facts + vs);
        } else {
            assert(nd0.source_files.push(v) =~= nd.source_files + vs);
        }
        assert(set_node_text(nd0, k, v) =~= with_node_list(nd, k, vs));
    }
}

/// A value that can end a written line: no line break, no carriage return.
pub open spec fn clean_value(v: Seq<char>) -> bool {
    !v.contains('\n') && !v.contains('\r')
}

proof fn lemma_clean_escaped(v: Seq<char>)
    ensures
        clean_value(escape_text(v)),
{
    law_escape_single_line(v);
}

proof fn lemma_clean_token(v: Seq<char>)
    requires
        is_token(v),
    ensures
        clean_value(v),
{
    if v.contains('\n') {
        let k = choose|k: int| 0 <= k < v.len() && v[k] == '\n';
        assert(is_ws(v[k]));
    }
    if v.contains('\r') {
        let k = choose|k: int| 0 <= k < v.len() && v[k] == '\r';
        assert(is_ws(v[k]));
    }
}

proof fn lemma_one_line_custom(key: Seq<char>, v: Seq<char>)
    requires
        is_token(key),
        clean_value(v),
    ensures
        one_line(custom_line(key, v)),
{
    let l = custom_line(key, v);
    assert(l =~= seq!['-', ' '] + key + seq![' '] + v);
    if l.contains('\n') {
        let k = choose|k: int| 0 <= k < l.len() && l[k] == '\n';
        if 2 <= k < 2 + key.len() {
            assert(l[k] == key[k - 2]);
        } else if k >= 3 + key.len() {
            assert(l[k] == v[k - 3 - key.len()]);
        }
    }
    if v.len() > 0 {
        assert(l.last() == v[v.len() - 1]);
    }
}

/// The run result of a piece of a node block: the open node becomes `nd`.
pub open spec fn node_res(p: ParserV, r: Result<ParserV, Seq<char>>, nd: NodeV) -> bool {
    r matches Ok(q) && node_changed(p, q, nd)
}

/// An optional text field line (`N`, `D` or `P`) of a node whose field is still empty.
proof fn lemma_piece_text(p: ParserV, n: nat, c: char, v: Seq<char>)
    requires
        p.note is None,
        p.node is Some,
        c == 'N' || c == 'D' || c == 'P',
        c == 'N' ==> p.node->0.name.len() == 0,
        c == 'D' ==> p.node->0.props.description.len() == 0,
        c == 'P' ==> p.node->0.props.provenance.len() == 0,
    ensures
        node_res(
            p,
            run(p, opt_list(v.len() > 0, seq![c, ' '] + escape_text(v)), n, false),
            set_node_text(p.node->0, field_kind(c), v),
        ),
{
    lemma_run_opt(p, v.len() > 0, seq![c, ' '] + escape_text(v), n);
    let nd = p.node->0;
    if v.len() > 0 {
        lemma_step_text(p, n, c, v);
    } else {
        assert(set_node_text(nd, field_kind(c), v) =~= nd);
    }
}

/// A timestamp field as written: empty, or a UTC timestamp.
pub open spec fn time_ok(ts: Seq<char>) -> bool {
    ts.len() == 0 || (is_token(ts) && is_utc_timestamp(ts))
}

/// A number field as written: a float literal without whitespace.
pub open spec fn number_ok(v: Seq<char>) -> bool {
    is_token(v) && is_float_literal(v)
}

/// A feedback score as written: `0` when it is zero, else a number.
pub open spec fn score_ok(v: Seq<char>) -> bool {
    if is_zero_float_literal(v) {
        v == "0"@
    } else {
        number_ok(v)
    }
}

pub open spec fn with_created(nd: NodeV, ts: Seq<char>) -> NodeV {
    NodeV { props: NodePropsV { created_at: ts, ..nd.props }, ..nd }
}

proof fn lemma_piece_created(p: ParserV, n: nat, ts: Seq<char>)
    requires
        p.note is None,
        p.node is Some,
        p.node->0.props.created_at.len() == 0,
        time_ok(ts),
    ensures
        node_res(p, run(p, opt_list(ts.len() > 0, "E "@ + ts), n, false), with_created(p.node->0, ts)),
{
    reveal_strlit("E ");
    assert("E "@ + ts =~= field_line('E', ts));
    lemma_run_opt(p, ts.len() > 0, "E "@ + ts, n);
    if ts.len() > 0 {
        lemma_step_created(p, n, ts);
    } else {
        assert(with_created(p.node->0, ts) =~= p.node->0);
    }
}

pub open spec fn with_confidence(nd: NodeV, c: Option<Seq<char>>) -> NodeV {
    NodeV { props: NodePropsV { confidence: c, ..nd.props }, ..nd }
}

proof fn lemma_piece_confidence(p: ParserV, n: nat, c: Option<Seq<char>>)
    requires
        p.note is None,
        p.node is Some,
        p.node->0.props.confidence is None,
        c is Some ==> number_ok(c->0),
    ensures
        node_res(
            p,
            run(p, opt_list(c is Some, "C "@ + c->0), n, false),
            with_confidence(p.node->0, c),
        ),
{
    reveal_strlit("C ");
    assert("C "@ + c->0 =~= field_line('C', c->0));
    lemma_run_opt(p, c is Some, "C "@ + c->0, n);
    if c is Some {
        lemma_step_number(p, n, 'C', c->0);
        lemma_token_trim(c->0);
        assert(set_node_number(p.node->0, 6, c->0) =~= with_confidence(p.node->0, c));
    } else {
        assert(with_confidence(p.node->0, c) =~= p.node->0);
    }
}

pub open spec fn with_importance(nd: NodeV, v: Seq<char>) -> NodeV {
    NodeV { props: NodePropsV { importance: v, ..nd.props }, ..nd }
}

proof fn lemma_piece_importance(p: ParserV, n: nat, v: Seq<char>)
    requires
        p.note is None,
        p.node is Some,
        number_ok(v),
    ensures
        node_res(p, run(p, seq!["V "@ + v], n, false), with_importance(p.node->0, v)),
{
    reveal_strlit("V ");
    assert("V "@ + v =~= field_line('V', v));
    lemma_run_one(p, "V "@ + v, n);
    lemma_step_number(p, n, 'V', v);
    lemma_token_trim(v);
    assert(set_node_number(p.node->0, 7, v) =~= with_importance(p.node->0, v));
}

pub open spec fn with_domain(nd: NodeV, v: Seq<char>) -> NodeV {
    NodeV { props: NodePropsV { domain_area: v, ..nd.props }, ..nd }
}

proof fn lemma_piece_domain(p: ParserV, n: nat, v: Seq<char>)
    requires
        p.note is None,
        p.node is Some,
        p.node->0.props.domain_area.len() == 0,
    ensures
        node_res(
            p,
            run(p, opt_list(v.len() > 0, "- domain_area "@ + escape_text(v)), n, false),
            with_domain(p.node->0, v),
        ),
{
    reveal_strlit("- domain_area ");
    reveal_strlit("domain_area");
    let key = "domain_area"@;
    let e = escape_text(v);
    assert("- domain_area "@ + e =~= custom_line(key, e));
    lemma_run_opt(p, v.len() > 0, "- domain_area "@ + e, n);
    if v.len() > 0 {
        assert(is_token(key));
        lemma_clean_escaped(v);
        lemma_one_line_custom(key, e);
        lemma_step_node_custom(p, n, key, e);
        law_decode_escape(v);
    } else {
        assert(with_domain(p.node->0, v) =~= p.node->0);
    }
}

pub open spec fn with_score(nd: NodeV, v: Seq<char>) -> NodeV {
    NodeV { props: NodePropsV { feedback_score: v, ..nd.props }, ..nd }
}

proof fn lemma_piece_score(p: ParserV, n: nat, v: Seq<char>)
    requires
        p.note is None,
        p.node is Some,
        p.node->0.props.feedback_score == "0"@,
        score_ok(v),
    ensures
        node_res(
            p,
            run(p, opt_list(!is_zero_float_literal(v), "- feedback_score "@ + v), n, false),
            with_score(p.node->0, v),
        ),
{
    reveal_strlit("- feedback_score ");
    reveal_strlit("feedback_score");
    reveal_strlit("domain_area");
    let key = "feedback_score"@;
    assert("- feedback_score "@ + v =~= custom_line(key, v));
    lemma_run_opt(p, !is_zero_float_literal(v), "- feedback_score "@ + v, n);
    if !is_zero_float_literal(v) {
        assert(is_token(key));
        lemma_clean_token(v);
        lemma_one_line_custom(key, v);
        lemma_step_node_custom(p, n, key, v);
        lemma_token_trim(v);
        assert(key != "domain_area"@);
    } else {
        assert(with_score(p.node->0, v) =~= p.node->0);
    }
}

pub open spec fn with_count(nd: NodeV, c: u64) -> NodeV {
    NodeV { props: NodePropsV { feedback_count: c, ..nd.props }, ..nd }
}

proof fn lemma_piece_count(p: ParserV, n: nat, c: u64)
    requires
        p.note is None,
        p.node is Some,
        p.node->0.props.feedback_count == 0,
    ensures
        node_res(
            p,
            run(p, opt_list(c != 0, "- feedback_count "@ + decimal(c as nat)), n, false),
            with_count(p.node->0, c),
        ),
{
    reveal_strlit("- feedback_count ");
    reveal_strlit("feedback_count");
    reveal_strlit("feedback_score");
    reveal_strlit("domain_area");
    let key = "feedback_count"@;
    let d = decimal(c as nat);
    assert("- feedback_count "@ + d =~= custom_line(key, d));
    lemma_run_opt(p, c != 0, "- feedback_count "@ + d, n);
    if c != 0 {
        assert(is_token(key));
        lemma_parse_decimal(c);
        lemma_clean_token(d);
        lemma_one_line_custom(key, d);
        lemma_step_node_custom(p, n, key, d);
        lemma_token_trim(d);
        assert(key != "domain_area"@);
        assert(key[9] != "feedback_score"@[9]);
    } else {
        assert(with_count(p.node->0, c) =~= p.node->0);
    }
}

pub open spec fn with_last_ts(nd: NodeV, t: Option<u64>) -> NodeV {
    NodeV { props: NodePropsV { feedback_last_ts_ms: t, ..nd.props }, ..nd }
}

proof fn lemma_piece_last_ts(p: ParserV, n: nat, t: Option<u64>)
    requires
        p.note is None,
        p.node is Some,
        p.node->0.props.feedback_last_ts_ms is None,
    ensures
        node_res(
            p,
            run(p, opt_list(t is Some, "- feedback_last_ts_ms "@ + decimal(t->0 as nat)), n, false),
            with_last_ts(p.node->0, t),
        ),
{
    reveal_strlit("- feedback_last_ts_ms ");
    reveal_strlit("feedback_last_ts_ms");
    reveal_strlit("feedback_count");
    reveal_strlit("feedback_score");
    reveal_strlit("domain_area");
    let key = "feedback_last_ts_ms"@;
    let d = decimal(t->0 as nat);
    assert("- feedback_last_ts_ms "@ + d =~= custom_line(key, d));
    lemma_run_opt(p, t is Some, "- feedback_last_ts_ms "@ + d, n);
    if t is Some {
        assert(is_token(key));
        lemma_parse_decimal(t->0);
        lemma_clean_token(d);
        lemma_one_line_custom(key, d);
        lemma_step_node_custom(p, n, key, d);
        lemma_token_trim(d);
        assert(key != "domain_area"@);
        assert(key != "feedback_score"@);
        assert(key != "feedback_count"@);
    } else {
        assert(with_last_ts(p.node->0, t) =~= p.node->0);
    }
}

/// A text list as written and read back: sorted case-insensitively, with no
/// two values equal up to ASCII case.
pub open spec fn text_list_ok(l: Seq<Seq<char>>) -> bool {
    forall|i: int, j: int|
        0 <= i < j < l.len() ==> lex_order(ascii_lower_seq(l[i]), ascii_lower_seq(l[j])) < 0
}

proof fn lemma_dedupe_ok(l: Seq<Seq<char>>)
    requires
        text_list_ok(l),
    ensures
        dedupe_ci(l) == l,
    decreases l.len(),
{
    if l.len() > 0 {
        let init = l.drop_last();
        assert forall|i: int, j: int| 0 <= i < j < init.len() implies lex_order(
            ascii_lower_seq(init[i]),
            ascii_lower_seq(init[j]),
        ) < 0 by {
            assert(init[i] == l[i] && init[j] == l[j]);
        }
        lemma_dedupe_ok(init);
        if ci_seen_before(l, l.len() - 1) {
            let j = choose|j: int|
                0 <= j < l.len() - 1 && ascii_lower_seq(#[trigger] l[j]) == ascii_lower_seq(
                    l[l.len() - 1],
                );
            crate::text::lemma_lex_order_eq(ascii_lower_seq(l[j]), ascii_lower_seq(l[l.len() - 1]));
        }
        assert(init.push(l.last()) =~= l);
    }
}

/// A list in written form is its own sorted and normalized form.
proof fn lemma_text_list_ok(l: Seq<Seq<char>>)
    requires
        text_list_ok(l),
    ensures
        sorted_seq::<String>(l) == l,
        normalize_list(l) == l,
{
    assert forall|i: int, j: int| 0 <= i < j < l.len() implies !<String as KeyOrder>::spec_after(
        l[i],
        l[j],
    ) by {}
    crate::sorting::lemma_sorted_identity::<String>(l);
    lemma_dedupe_ok(l);
}

/// A node that the written form carries without loss.
pub open spec fn node_writable(nd: NodeV) -> bool {
    &&& header_type_ok(nd.node_type)
    &&& is_token(nd.id)
    &&& nd.id.contains(':')
    &&& text_list_ok(nd.props.alias)
    &&& text_list_ok(nd.props.key_facts)
    &&& text_list_ok(nd.source_files)
    &&& time_ok(nd.props.created_at)
    &&& (nd.props.confidence is Some ==> number_ok(nd.props.confidence->0))
    &&& number_ok(nd.props.importance)
    &&& score_ok(nd.props.feedback_score)
    &&& nd.props.valid_from.len() == 0
    &&& nd.props.valid_to.len() == 0
}

pub open spec fn upd1(x: NodeV, nd: NodeV) -> NodeV {
    NodeV {
        name: nd.name,
        props: NodePropsV {
            description: nd.props.description,
            alias: nd.props.alias,
            key_facts: nd.props.key_facts,
            ..x.props
        },
        ..x
    }
}

pub open spec fn upd2(x: NodeV, nd: NodeV) -> NodeV {
    NodeV {
        props: NodePropsV {
            created_at: nd.props.created_at,
            confidence: nd.props.confidence,
            importance: nd.props.importance,
            provenance: nd.props.provenance,
            ..x.props
        },
        ..x
    }
}

pub open spec fn upd3(x: NodeV, nd: NodeV) -> NodeV {
    NodeV {
        props: NodePropsV {
            domain_area: nd.props.domain_area,
            feedback_score: nd.props.feedback_score,
            feedback_count: nd.props.feedback_count,
            feedback_last_ts_ms: nd.props.feedback_last_ts_ms,
            ..x.props
        },
        source_files: nd.source_files,
        ..x
    }
}

/// A run result in which the open node is `nd` and everything else but the
/// node rank is as in `b`.
pub open spec fn node_at(b: ParserV, r: Result<ParserV, Seq<char>>, nd: NodeV) -> bool {
    r matches Ok(q) && q == (ParserV { node: Some(nd), node_rank: q.node_rank, ..b })
}

proof fn lemma_node_chain_at(
    p: ParserV,
    b: ParserV,
    a: Seq<Seq<char>>,
    c: Seq<Seq<char>>,
    n: nat,
    na: NodeV,
    nb: NodeV,
)
    requires
        node_at(b, run(p, a, n, false), na),
        node_res(run(p, a, n, false)->Ok_0, run(run(p, a, n, false)->Ok_0, c, n + a.len(), false), nb),
    ensures
        node_at(b, run(p, a + c, n, false), nb),
{
    lemma_run_concat(p, a, c, n);
}

/// The name, description, alias and key fact lines after `pre`.
pub open spec fn with_group1(pre: Seq<Seq<char>>, nd: NodeV) -> Seq<Seq<char>> {
    pre + opt_list(nd.name.len() > 0, "N "@ + escape_text(nd.name)) + opt_list(
        nd.props.description.len() > 0,
        "D "@ + escape_text(nd.props.description),
    ) + text_list("A "@, sorted_seq::<String>(nd.props.alias)) + text_list(
        "F "@,
        sorted_seq::<String>(nd.props.key_facts),
    )
}

/// The creation time, confidence, importance and provenance lines after `pre`.
pub open spec fn with_group2(pre: Seq<Seq<char>>, nd: NodeV) -> Seq<Seq<char>> {
    pre + opt_list(nd.props.created_at.len() > 0, "E "@ + nd.props.created_at) + opt_list(
        nd.props.confidence is Some,
        "C "@ + nd.props.confidence->0,
    ) + seq!["V "@ + nd.props.importance] + opt_list(
        nd.props.provenance.len() > 0,
        "P "@ + escape_text(nd.props.provenance),
    )
}

/// The property and source lines after `pre`.
pub open spec fn with_group3(pre: Seq<Seq<char>>, nd: NodeV) -> Seq<Seq<char>> {
    pre + opt_list(
        nd.props.domain_area.len() > 0,
        "- domain_area "@ + escape_text(nd.props.domain_area),
    ) + opt_list(
        !is_zero_float_literal(nd.props.feedback_score),
        "- feedback_score "@ + nd.props.feedback_score,
    ) + opt_list(
        nd.props.feedback_count != 0,
        "- feedback_count "@ + decimal(nd.props.feedback_count as nat),
    ) + opt_list(
        nd.props.feedback_last_ts_ms is Some,
        "- feedback_last_ts_ms "@ + decimal(nd.props.feedback_last_ts_ms->0 as nat),
    ) + text_list("S "@, sorted_seq::<String>(nd.source_files))
}

proof fn lemma_run_group1(p: ParserV, b: ParserV, pre: Seq<Seq<char>>, n: nat, x: NodeV, nd: NodeV)
    requires
        b.note is None,
        node_at(b, run(p, pre, n, false), x),
        x.name.len() == 0,
        x.props.description.len() == 0,
        x.props.alias.len() == 0,
        x.props.key_facts.len() == 0,
        text_list_ok(nd.props.alias),
        text_list_ok(nd.props.key_facts),
    ensures
        node_at(b, run(p, with_group1(pre, nd), n, false), upd1(x, nd)),
{
    reveal_strlit("N ");
    reveal_strlit("D ");
    reveal_strlit("A ");
    reveal_strlit("F ");
    assert("N "@ =~= seq!['N', ' ']);
    assert("D "@ =~= seq!['D', ' ']);
    assert("A "@ =~= seq!['A', ' ']);
    assert("F "@ =~= seq!['F', ' ']);
    let pr = nd.props;
    lemma_text_list_ok(pr.alias);
    lemma_text_list_ok(pr.key_facts);
    let p1 = opt_list(nd.name.len() > 0, "N "@ + escape_text(nd.name));
    let p2 = opt_list(pr.description.len() > 0, "D "@ + escape_text(pr.description));
    let p3 = text_list("A "@, sorted_seq::<String>(pr.alias));
    let p4 = text_list("F "@, sorted_seq::<String>(pr.key_facts));
    let q0 = run(p, pre, n, false)->Ok_0;
    let nd1 = set_node_text(x, 1, nd.name);
    lemma_piece_text(q0, n + pre.len(), 'N', nd.name);
    lemma_node_chain_at(p, b, pre, p1, n, x, nd1);
    let l1 = pre + p1;
    let q1 = run(p, l1, n, false)->Ok_0;
    let nd2 = set_node_text(nd1, 2, pr.description);
    lemma_piece_text(q1, n + l1.len(), 'D', pr.description);
    lemma_node_chain_at(p, b, l1, p2, n, nd1, nd2);
    let l2 = l1 + p2;
    let q2 = run(p, l2, n, false)->Ok_0;
    let nd3 = with_node_list(nd2, 3, pr.alias);
    lemma_run_node_text_list(q2, n + l2.len(), 'A', pr.alias);
    lemma_node_chain_at(p, b, l2, p3, n, nd2, nd3);
    let l3 = l2 + p3;
    let q3 = run(p, l3, n, false)->Ok_0;
    let nd4 = with_node_list(nd3, 4, pr.key_facts);
    lemma_run_node_text_list(q3, n + l3.len(), 'F', pr.key_facts);
    lemma_node_chain_at(p, b, l3, p4, n, nd3, nd4);
    assert(x.props.alias + pr.alias =~= pr.alias);
    assert(x.props.key_facts + pr.key_facts =~= pr.key_facts);
    assert(nd4 =~= upd1(x, nd));
}

proof fn lemma_run_group2(p: ParserV, b: ParserV, pre: Seq<Seq<char>>, n: nat, x: NodeV, nd: NodeV)
    requires
        b.note is None,
        node_at(b, run(p, pre, n, false), x),
        x.props.created_at.len() == 0,
        x.props.confidence is None,
        x.props.provenance.len() == 0,
        time_ok(nd.props.created_at),
        nd.props.confidence is Some ==> number_ok(nd.props.confidence->0),
        number_ok(nd.props.importance),
    ensures
        node_at(b, run(p, with_group2(pre, nd), n, false), upd2(x, nd)),
{
    reveal_strlit("P ");
    assert("P "@ =~= seq!['P', ' ']);
    let pr = nd.props;
    let p1 = opt_list(pr.created_at.len() > 0, "E "@ + pr.created_at);
    let p2 = opt_list(pr.confidence is Some, "C "@ + pr.confidence->0);
    let p3 = seq!["V "@ + pr.importance];
    let p4 = opt_list(pr.provenance.len() > 0, "P "@ + escape_text(pr.provenance));
    let q0 = run(p, pre, n, false)->Ok_0;
    let nd1 = with_created(x, pr.created_at);
    lemma_piece_created(q0, n + pre.len(), pr.created_at);
    lemma_node_chain_at(p, b, pre, p1, n, x, nd1);
    let l1 = pre + p1;
    let q1 = run(p, l1, n, false)->Ok_0;
    let nd2 = with_confidence(nd1, pr.confidence);
    lemma_piece_confidence(q1, n + l1.len(), pr.confidence);
    lemma_node_chain_at(p, b, l1, p2, n, nd1, nd2);
    let l2 = l1 + p2;
    let q2 = run(p, l2, n, false)->Ok_0;
    let nd3 = with_importance(nd2, pr.importance);
    lemma_piece_importance(q2, n + l2.len(), pr.importance);
    lemma_node_chain_at(p, b, l2, p3, n, nd2, nd3);
    let l3 = l2 + p3;
    let q3 = run(p, l3, n, false)->Ok_0;
    let nd4 = set_node_text(nd3, 8, pr.provenance);
    lemma_piece_text(q3, n + l3.len(), 'P', pr.provenance);
    lemma_node_chain_at(p, b, l3, p4, n, nd3, nd4);
    assert(nd4 =~= upd2(x, nd));
}

proof fn lemma_run_group3(p: ParserV, b: ParserV, pre: Seq<Seq<char>>, n: nat, x: NodeV, nd: NodeV)
    requires
        b.note is None,
        node_at(b, run(p, pre, n, false), x),
        x.props.domain_area.len() == 0,
        x.props.feedback_score == "0"@,
        x.props.feedback_count == 0,
        x.props.feedback_last_ts_ms is None,
        x.source_files.len() == 0,
        score_ok(nd.props.feedback_score),
        text_list_ok(nd.source_files),
    ensures
        node_at(b, run(p, with_group3(pre, nd), n, false), upd3(x, nd)),
{
    reveal_strlit("S ");
    assert("S "@ =~= seq!['S', ' ']);
    let pr = nd.props;
    lemma_text_list_ok(nd.source_files);
    let p1 = opt_list(pr.domain_area.len() > 0, "- domain_area "@ + escape_text(pr.domain_area));
    let p2 = opt_list(
        !is_zero_float_literal(pr.feedback_score),
        "- feedback_score "@ + pr.feedback_score,
    );
    let p3 = opt_list(pr.feedback_count != 0, "- feedback_count "@ + decimal(pr.feedback_count as nat));
    let p4 = opt_list(
        pr.feedback_last_ts_ms is Some,
        "- feedback_last_ts_ms "@ + decimal(pr.feedback_last_ts_ms->0 as nat),
    );
    let p5 = text_list("S "@, sorted_seq::<String>(nd.source_files));
    let q0 = run(p, pre, n, false)->Ok_0;
    let nd1 = with_domain(x, pr.domain_area);
    lemma_piece_domain(q0, n + pre.len(), pr.domain_area);
    lemma_node_chain_at(p, b, pre, p1, n, x, nd1);
    let l1 = pre + p1;
    let q1 = run(p, l1, n, false)->Ok_0;
    let nd2 = with_score(nd1, pr.feedback_score);
    lemma_piece_score(q1, n + l1.len(), pr.feedback_score);
    lemma_node_chain_at(p, b, l1, p2, n, nd1, nd2);
    let l2 = l1 + p2;
    let q2 = run(p, l2, n, false)->Ok_0;
    let nd3 = with_count(nd2, pr.feedback_count);
    lemma_piece_count(q2, n + l2.len(), pr.feedback_count);
    lemma_node_chain_at(p, b, l2, p3, n, nd2, nd3);
    let l3 = l2 + p3;
    let q3 = run(p, l3, n, false)->Ok_0;
    let nd4 = with_last_ts(nd3, pr.feedback_last_ts_ms);
    lemma_piece_last_ts(q3, n + l3.len(), pr.feedback_last_ts_ms);
    lemma_node_chain_at(p, b, l3, p4, n, nd3, nd4);
    let l4 = l3 + p4;
    let q4 = run(p, l4, n, false)->Ok_0;
    let nd5 = with_node_list(nd4, 9, nd.source_files);
    lemma_run_node_text_list(q4, n + l4.len(), 'S', nd.source_files);
    lemma_node_chain_at(p, b, l4, p5, n, nd4, nd5);
    assert(x.source_files + nd.source_files =~= nd.source_files);
    assert(nd5 =~= upd3(x, nd));
}

// ---------------------------------------------------------------------------
// Every written line is a single line
// ---------------------------------------------------------------------------

pub open spec fn all_one_line(ls: Seq<Seq<char>>) -> bool {
    forall|i: int| 0 <= i < ls.len() ==> one_line(#[trigger] ls[i])
}

proof fn lemma_all_concat(a: Seq<Seq<char>>, b: Seq<Seq<char>>)
    requires
        all_one_line(a),
        all_one_line(b),
    ensures
        all_one_line(a + b),
{
    assert forall|i: int| 0 <= i < (a + b).len() implies one_line(#[trigger] (a + b)[i]) by {
        if i < a.len() {
            assert((a + b)[i] == a[i]);
        } else {
            assert((a + b)[i] == b[i - a.len()]);
        }
    }
}

proof fn lemma_all_opt(c: bool, l: Seq<char>)
    requires
        c ==> one_line(l),
    ensures
        all_one_line(opt_list(c, l)),
{
    if c {
        assert(opt_list(c, l)[0] == l);
    }
}

proof fn lemma_all_text_list(c: char, vs: Seq<Seq<char>>)
    requires
        !is_ws(c),
    ensures
        all_one_line(text_list(seq![c, ' '], vs)),
    decreases vs.len(),
{
    if vs.len() > 0 {
        lemma_all_text_list(c, vs.drop_last());
        lemma_one_line_escaped(c, vs.last());
        let t0 = text_list(seq![c, ' '], vs.drop_last());
        assert(text_list(seq![c, ' '], vs) =~= t0 + seq![field_line(c, escape_text(vs.last()))]);
        lemma_all_opt(true, field_line(c, escape_text(vs.last())));
        lemma_all_concat(t0, seq![field_line(c, escape_text(vs.last()))]);
    }
}

proof fn lemma_all_escaped(c: char, v: Seq<char>)
    requires
        !is_ws(c),
    ensures
        all_one_line(opt_list(v.len() > 0, seq![c, ' '] + escape_text(v))),
{
    lemma_one_line_escaped(c, v);
    lemma_all_opt(v.len() > 0, seq![c, ' '] + escape_text(v));
}

proof fn lemma_all_token(c: char, v: Seq<char>, b: bool)
    requires
        !is_ws(c),
        b ==> is_token(v),
    ensures
        all_one_line(opt_list(b, seq![c, ' '] + v)),
{
    if b {
        lemma_one_line_token(c, v);
    }
    lemma_all_opt(b, seq![c, ' '] + v);
}

proof fn lemma_lines_group1(pre: Seq<Seq<char>>, nd: NodeV)
    requires
        all_one_line(pre),
    ensures
        all_one_line(with_group1(pre, nd)),
{
    reveal_strlit("N ");
    reveal_strlit("D ");
    reveal_strlit("A ");
    reveal_strlit("F ");
    assert("N "@ =~= seq!['N', ' ']);
    assert("D "@ =~= seq!['D', ' ']);
    assert("A "@ =~= seq!['A', ' ']);
    assert("F "@ =~= seq!['F', ' ']);
    let pr = nd.props;
    lemma_all_escaped('N', nd.name);
    lemma_all_escaped('D', pr.description);
    lemma_all_text_list('A', sorted_seq::<String>(pr.alias));
    lemma_all_text_list('F', sorted_seq::<String>(pr.key_facts));
    let a1 = opt_list(nd.name.len() > 0, "N "@ + escape_text(nd.name));
    let a2 = opt_list(pr.description.len() > 0, "D "@ + escape_text(pr.description));
    let a3 = text_list("A "@, sorted_seq::<String>(pr.alias));
    let a4 = text_list("F "@, sorted_seq::<String>(pr.key_facts));
    lemma_all_concat(pre, a1);
    lemma_all_concat(pre + a1, a2);
    lemma_all_concat(pre + a1 + a2, a3);
    lemma_all_concat(pre + a1 + a2 + a3, a4);
}

proof fn lemma_lines_group2(pre: Seq<Seq<char>>, nd: NodeV)
    requires
        all_one_line(pre),
        node_writable(nd),
    ensures
        all_one_line(with_group2(pre, nd)),
{
    reveal_strlit("E ");
    reveal_strlit("C ");
    reveal_strlit("V ");
    reveal_strlit("P ");
    assert("E "@ =~= seq!['E', ' ']);
    assert("C "@ =~= seq!['C', ' ']);
    assert("V "@ =~= seq!['V', ' ']);
    assert("P "@ =~= seq!['P', ' ']);
    let pr = nd.props;
    lemma_all_token('E', pr.created_at, pr.created_at.len() > 0);
    lemma_all_token('C', pr.confidence->0, pr.confidence is Some);
    lemma_all_token('V', pr.importance, true);
    lemma_all_escaped('P', pr.provenance);
    let b1 = opt_list(pr.created_at.len() > 0, "E "@ + pr.created_at);
    let b2 = opt_list(pr.confidence is Some, "C "@ + pr.confidence->0);
    let b3 = seq!["V "@ + pr.importance];
    let b4 = opt_list(pr.provenance.len() > 0, "P "@ + escape_text(pr.provenance));
    assert(b3 == opt_list(true, "V "@ + pr.importance));
    lemma_all_concat(pre, b1);
    lemma_all_concat(pre + b1, b2);
    lemma_all_concat(pre + b1 + b2, b3);
    lemma_all_concat(pre + b1 + b2 + b3, b4);
}

proof fn lemma_lines_group3(pre: Seq<Seq<char>>, nd: NodeV)
    requires
        all_one_line(pre),
        node_writable(nd),
    ensures
        all_one_line(with_group3(pre, nd)),
{
    reveal_strlit("S ");
    reveal_strlit("- domain_area ");
    reveal_strlit("- feedback_score ");
    reveal_strlit("- feedback_count ");
    reveal_strlit("- feedback_last_ts_ms ");
    reveal_strlit("domain_area");
    reveal_strlit("feedback_score");
    reveal_strlit("feedback_count");
    reveal_strlit("feedback_last_ts_ms");
    assert("S "@ =~= seq!['S', ' ']);
    let pr = nd.props;
    let e = escape_text(pr.domain_area);
    assert("- domain_area "@ + e =~= custom_line("domain_area"@, e));
    lemma_clean_escaped(pr.domain_area);
    assert(is_token("domain_area"@));
    lemma_one_line_custom("domain_area"@, e);
    let c1 = opt_list(pr.domain_area.len() > 0, "- domain_area "@ + e);
    lemma_all_opt(pr.domain_area.len() > 0, "- domain_area "@ + e);
    let fs = pr.feedback_score;
    assert("- feedback_score "@ + fs =~= custom_line("feedback_score"@, fs));
    if !is_zero_float_literal(fs) {
        lemma_clean_token(fs);
        assert(is_token("feedback_score"@));
        lemma_one_line_custom("feedback_score"@, fs);
    }
    let c2 = opt_list(!is_zero_float_literal(fs), "- feedback_score "@ + fs);
    lemma_all_opt(!is_zero_float_literal(fs), "- feedback_score "@ + fs);
    let d1 = decimal(pr.feedback_count as nat);
    assert("- feedback_count "@ + d1 =~= custom_line("feedback_count"@, d1));
    lemma_parse_decimal(pr.feedback_count);
    lemma_clean_token(d1);
    assert(is_token("feedback_count"@));
    lemma_one_line_custom("feedback_count"@, d1);
    let c3 = opt_list(pr.feedback_count != 0, "- feedback_count "@ + d1);
    lemma_all_opt(pr.feedback_count != 0, "- feedback_count "@ + d1);
    let d2 = decimal(pr.feedback_last_ts_ms->0 as nat);
    assert("- feedback_last_ts_ms "@ + d2 =~= custom_line("feedback_last_ts_ms"@, d2));
    lemma_parse_decimal(pr.feedback_last_ts_ms->0);
    lemma_clean_token(d2);
    assert(is_token("feedback_last_ts_ms"@));
    lemma_one_line_custom("feedback_last_ts_ms"@, d2);
    let c4 = opt_list(pr.feedback_last_ts_ms is Some, "- feedback_last_ts_ms "@ + d2);
    lemma_all_opt(pr.feedback_last_ts_ms is Some, "- feedback_last_ts_ms "@ + d2);
    lemma_all_text_list('S', sorted_seq::<String>(nd.source_files));
    let c5 = text_list("S "@, sorted_seq::<String>(nd.source_files));
    lemma_all_concat(pre, c1);
    lemma_all_concat(pre + c1, c2);
    lemma_all_concat(pre + c1 + c2, c3);
    lemma_all_concat(pre + c1 + c2 + c3, c4);
    lemma_all_concat(pre + c1 + c2 + c3 + c4, c5);
}

proof fn lemma_header_one_line(t: Seq<char>, id: Seq<char>)
    requires
        header_type_ok(t),
        is_token(id),
    ensures
        one_line(node_header_line(t, id)),
{
    reveal_strlit("@ ");
    reveal_strlit(":");
    let e = encode_type_token(t);
    lemma_type_token(t);
    let l = node_header_line(t, id);
    assert(l =~= seq!['@', ' '] + e + seq![':'] + id);
    assert(l.last() == id[id.len() - 1]);
    if l.contains('\n') {
        let k = choose|k: int| 0 <= k < l.len() && l[k] == '\n';
        if 2 <= k < 2 + e.len() {
            assert(l[k] == e[k - 2]);
        } else if k >= 3 + e.len() {
            assert(l[k] == id[k - 3 - e.len()]);
        }
    }
}

/// The header and field lines of a writable node open exactly that node.
proof fn lemma_run_node_fields(p: ParserV, n: nat, nd: NodeV)
    requires
        p.note is None,
        node_writable(nd),
    ensures
        run(p, node_field_list(nd), n, false) matches Ok(q) && q == (ParserV {
            node: Some(nd),
            node_rank: q.node_rank,
            edge_open: false,
            edge_rank: 0,
            ..flush(p)
        }),
        all_one_line(node_field_list(nd)),
{
    let hdr = node_header_line(nd.node_type, nd.id);
    let h = seq![hdr];
    lemma_step_node_header(p, n, nd.node_type, nd.id);
    lemma_run_one(p, hdr, n);
    let nd0 = header_node(nd.node_type, nd.id);
    let b = ParserV { edge_open: false, edge_rank: 0, ..flush(p) };
    assert(node_at(b, run(p, h, n, false), nd0));
    let nd1 = upd1(nd0, nd);
    let nd2 = upd2(nd1, nd);
    let nd3 = upd3(nd2, nd);
    let w1 = with_group1(h, nd);
    let w2 = with_group2(w1, nd);
    let w3 = with_group3(w2, nd);
    lemma_run_group1(p, b, h, n, nd0, nd);
    lemma_run_group2(p, b, w1, n, nd1, nd);
    lemma_run_group3(p, b, w2, n, nd2, nd);
    assert(nd3 =~= nd);
    assert(w3 == node_field_list(nd));
    lemma_header_one_line(nd.node_type, nd.id);
    lemma_all_opt(true, hdr);
    lemma_lines_group1(h, nd);
    lemma_lines_group2(w1, nd);
    lemma_lines_group3(w2, nd);
}

// ---------------------------------------------------------------------------
// Edge blocks
// ---------------------------------------------------------------------------

/// Score components as written: labels `C<digits>` in strictly increasing
/// order, values numbers.
pub open spec fn scores_ok(sc: Seq<(Seq<char>, Seq<char>)>) -> bool {
    &&& forall|i: int| 0 <= i < sc.len() ==> is_score_label(#[trigger] sc[i].0) && number_ok(sc[i].1)
    &&& forall|i: int, j: int| 0 <= i < j < sc.len() ==> lex_order(sc[i].0, sc[j].0) < 0
}

/// Whether an edge detail would read back as a score component.
pub open spec fn detail_reads_as_score(d: Seq<char>) -> bool {
    tokens(trim(escape_text(d))).len() == 2 && is_score_label(tokens(trim(escape_text(d)))[0])
}

/// An edge that the written form carries without loss.
pub open spec fn edge_writable(e: EdgeV) -> bool {
    &&& is_token(e.target_id)
    &&& is_token(relation_code(e.relation))
    &&& !is_relation_alias(e.relation)
    &&& !is_relation_code(e.relation)
    &&& (e.props.bidirectional ==> e.relation == "~"@ && lex_order(e.source_id, e.target_id) <= 0)
    &&& scores_ok(e.props.score_components)
    &&& (e.props.detail.len() > 0 ==> !detail_reads_as_score(e.props.detail))
    &&& time_ok(e.props.valid_from)
    &&& time_ok(e.props.valid_to)
    &&& score_ok(e.props.feedback_score)
}

/// A run result in which the last edge is `e` and everything else but the
/// edge rank is as in `b`.
pub open spec fn edge_at(b: ParserV, r: Result<ParserV, Seq<char>>, e: EdgeV) -> bool {
    r matches Ok(q) && q == set_last_edge(ParserV { edge_rank: q.edge_rank, ..b }, e)
}

/// The run result of a piece of an edge block: the last edge becomes `e`.
pub open spec fn edge_res(p: ParserV, r: Result<ParserV, Seq<char>>, e: EdgeV) -> bool {
    r matches Ok(q) && edge_changed(p, q, e)
}

proof fn lemma_edge_chain_at(
    p: ParserV,
    b: ParserV,
    a: Seq<Seq<char>>,
    c: Seq<Seq<char>>,
    n: nat,
    ea: EdgeV,
    eb: EdgeV,
)
    requires
        b.graph.edges.len() > 0,
        edge_at(b, run(p, a, n, false), ea),
        edge_res(run(p, a, n, false)->Ok_0, run(run(p, a, n, false)->Ok_0, c, n + a.len(), false), eb),
    ensures
        edge_at(b, run(p, a + c, n, false), eb),
{
    lemma_run_concat(p, a, c, n);
    let q = run(p, a, n, false)->Ok_0;
    let r = run(q, c, n + a.len(), false)->Ok_0;
    let es = b.graph.edges;
    assert(es.update(es.len() - 1, ea).update(es.len() - 1, eb) =~= es.update(es.len() - 1, eb));
    assert(r == set_last_edge(ParserV { edge_rank: r.edge_rank, ..b }, eb));
}

proof fn lemma_edge_res_same(p: ParserV, n: nat)
    requires
        p.graph.edges.len() > 0,
    ensures
        edge_res(p, run(p, Seq::empty(), n, false), last_edge(p)),
{
    lemma_run_empty(p, n);
    let es = p.graph.edges;
    assert(es.update(es.len() - 1, es.last()) =~= es);
    assert(set_last_edge(ParserV { edge_rank: p.edge_rank, ..p }, last_edge(p)) == p);
}

pub open spec fn with_scores(e: EdgeV, sc: Seq<(Seq<char>, Seq<char>)>) -> EdgeV {
    EdgeV { props: EdgePropsV { score_components: sc, ..e.props }, ..e }
}

proof fn lemma_score_label_token(l: Seq<char>)
    requires
        is_score_label(l),
    ensures
        is_token(l),
{
    assert forall|i: int| 0 <= i < l.len() implies !is_ws(#[trigger] l[i]) by {
        if i > 0 {
            assert(crate::text::is_digit(l[i]));
        }
    }
}

/// The score component lines of an edge whose components are still empty.
proof fn lemma_run_scores(p: ParserV, n: nat, sc: Seq<(Seq<char>, Seq<char>)>)
    requires
        p.note is None,
        p.node is Some,
        p.edge_open,
        p.graph.edges.len() > 0,
        last_edge(p).props.score_components.len() == 0,
        scores_ok(sc),
    ensures
        edge_res(p, run(p, score_list(sc), n, false), with_scores(last_edge(p), sc)),
        all_one_line(score_list(sc)),
    decreases sc.len(),
{
    let x = last_edge(p);
    if sc.len() == 0 {
        lemma_edge_res_same(p, n);
        assert(with_scores(x, sc) =~= x);
    } else {
        let sc0 = sc.drop_last();
        let (label, value) = sc.last();
        assert forall|i: int| 0 <= i < sc0.len() implies is_score_label(#[trigger] sc0[i].0)
            && number_ok(sc0[i].1) by {
            assert(sc0[i] == sc[i]);
        }
        assert forall|i: int, j: int| 0 <= i < j < sc0.len() implies lex_order(sc0[i].0, sc0[j].0)
            < 0 by {
            assert(sc0[i] == sc[i] && sc0[j] == sc[j]);
        }
        lemma_run_scores(p, n, sc0);
        reveal_strlit("d ");
        reveal_strlit(" ");
        let line = "d "@ + label + " "@ + value;
        assert(line =~= field_line('d', label + seq![' '] + value));
        let l0 = score_list(sc0);
        assert(score_list(sc) =~= l0 + seq![line]);
        let q0 = run(p, l0, n, false)->Ok_0;
        let m = n + l0.len();
        lemma_run_one(q0, line, m);
        assert(is_score_label(sc[sc.len() - 1].0));
        lemma_score_label_token(label);
        lemma_step_score(q0, m, label, value);
        let e0 = with_scores(x, sc0);
        assert(last_edge(q0) == e0);
        assert forall|j: int| 0 <= j < sc0.len() implies sc0[j].0 != label && lex_order(
            label,
            #[trigger] sc0[j].0,
        ) >= 0 by {
            assert(sc0[j] == sc[j]);
            assert(lex_order(sc[j].0, sc[sc.len() - 1].0) < 0);
            crate::text::lemma_lex_order_antisym(label, sc0[j].0);
            crate::text::lemma_lex_order_eq(label, sc0[j].0);
        }
        crate::graph::lemma_assoc_insert_at(sc0, label, value, sc0.len() as int);
        assert(sc0.take(sc0.len() as int) + seq![(label, value)] + sc0.skip(sc0.len() as int) =~= sc);
        lemma_edge_chain_at(p, p, l0, seq![line], n, e0, with_scores(x, sc));
        lemma_score_line_shape(label, value);
        lemma_all_opt(true, line);
        lemma_all_concat(l0, seq![line]);
    }
}

/// The edge-block state: a node open, no note, an open edge.
pub open spec fn in_edge(p: ParserV) -> bool {
    p.note is None && p.node is Some && p.edge_open && p.graph.edges.len() > 0
}

pub open spec fn with_detail(e: EdgeV, d: Seq<char>) -> EdgeV {
    EdgeV { props: EdgePropsV { detail: d, ..e.props }, ..e }
}

proof fn lemma_edge_piece_detail(p: ParserV, n: nat, d: Seq<char>)
    requires
        in_edge(p),
        last_edge(p).props.detail.len() == 0,
        d.len() > 0 ==> !detail_reads_as_score(d),
    ensures
        edge_res(
            p,
            run(p, opt_list(d.len() > 0, "d "@ + escape_text(d)), n, false),
            with_detail(last_edge(p), d),
        ),
        all_one_line(opt_list(d.len() > 0, "d "@ + escape_text(d))),
{
    reveal_strlit("d ");
    assert("d "@ =~= seq!['d', ' ']);
    lemma_run_opt(p, d.len() > 0, "d "@ + escape_text(d), n);
    if d.len() > 0 {
        lemma_step_detail(p, n, d);
    } else {
        lemma_run_empty(p, n);
        lemma_edge_res_same(p, n);
        assert(with_detail(last_edge(p), d) =~= last_edge(p));
    }
    lemma_all_escaped('d', d);
}

pub open spec fn with_validity(e: EdgeV, c: char, ts: Seq<char>) -> EdgeV {
    if c == 'i' {
        EdgeV { props: EdgePropsV { valid_from: ts, ..e.props }, ..e }
    } else {
        EdgeV { props: EdgePropsV { valid_to: ts, ..e.props }, ..e }
    }
}

proof fn lemma_edge_piece_validity(p: ParserV, n: nat, c: char, ts: Seq<char>)
    requires
        in_edge(p),
        c == 'i' ==> last_edge(p).props.valid_from.len() == 0,
        c == 'x' ==> last_edge(p).props.valid_to.len() == 0,
        c == 'i' || c == 'x',
        time_ok(ts),
    ensures
        edge_res(
            p,
            run(p, opt_list(ts.len() > 0, seq![c, ' '] + ts), n, false),
            with_validity(last_edge(p), c, ts),
        ),
        all_one_line(opt_list(ts.len() > 0, seq![c, ' '] + ts)),
{
    lemma_run_opt(p, ts.len() > 0, seq![c, ' '] + ts, n);
    if ts.len() > 0 {
        lemma_step_validity(p, n, c, ts);
    } else {
        lemma_run_empty(p, n);
        lemma_edge_res_same(p, n);
        assert(with_validity(last_edge(p), c, ts) =~= last_edge(p));
    }
    lemma_all_token(c, ts, ts.len() > 0);
}

pub open spec fn with_edge_score(e: EdgeV, v: Seq<char>) -> EdgeV {
    EdgeV { props: EdgePropsV { feedback_score: v, ..e.props }, ..e }
}

proof fn lemma_edge_keys()
    ensures
        "edge_feedback_score"@ != "domain_area"@,
        "edge_feedback_score"@ != "feedback_score"@,
        "edge_feedback_score"@ != "feedback_count"@,
        "edge_feedback_score"@ != "feedback_last_ts_ms"@,
        "edge_feedback_count"@ != "domain_area"@,
        "edge_feedback_count"@ != "feedback_score"@,
        "edge_feedback_count"@ != "feedback_count"@,
        "edge_feedback_count"@ != "feedback_last_ts_ms"@,
        "edge_feedback_count"@ != "edge_feedback_score"@,
        "edge_feedback_last_ts_ms"@ != "domain_area"@,
        "edge_feedback_last_ts_ms"@ != "feedback_score"@,
        "edge_feedback_last_ts_ms"@ != "feedback_count"@,
        "edge_feedback_last_ts_ms"@ != "feedback_last_ts_ms"@,
        "edge_feedback_last_ts_ms"@ != "edge_feedback_score"@,
        "edge_feedback_last_ts_ms"@ != "edge_feedback_count"@,
        is_token("edge_feedback_score"@),
        is_token("edge_feedback_count"@),
        is_token("edge_feedback_last_ts_ms"@),
{
    reveal_strlit("edge_feedback_score");
    reveal_strlit("edge_feedback_count");
    reveal_strlit("edge_feedback_last_ts_ms");
    reveal_strlit("domain_area");
    reveal_strlit("feedback_score");
    reveal_strlit("feedback_count");
    reveal_strlit("feedback_last_ts_ms");
    let a = "edge_feedback_score"@;
    let b = "edge_feedback_count"@;
    let c = "edge_feedback_last_ts_ms"@;
    assert(a.len() == 19 && b.len() == 19 && c.len() == 24);
    assert("domain_area"@.len() == 11 && "feedback_score"@.len() == 14);
    assert("feedback_count"@.len() == 14 && "feedback_last_ts_ms"@.len() == 19);
    assert forall|i: int| 0 <= i < a.len() implies !is_ws(#[trigger] a[i]) by {}
    assert forall|i: int| 0 <= i < b.len() implies !is_ws(#[trigger] b[i]) by {}
    assert forall|i: int| 0 <= i < c.len() implies !is_ws(#[trigger] c[i]) by {}
    assert("edge_feedback_score"@[0] != "feedback_last_ts_ms"@[0]);
    assert("edge_feedback_count"@[0] != "feedback_last_ts_ms"@[0]);
    assert("edge_feedback_count"@[14] != "edge_feedback_score"@[14]);
}

proof fn lemma_edge_piece_score(p: ParserV, n: nat, v: Seq<char>)
    requires
        in_edge(p),
        last_edge(p).props.feedback_score == "0"@,
        score_ok(v),
    ensures
        edge_res(
            p,
            run(p, opt_list(!is_zero_float_literal(v), "- edge_feedback_score "@ + v), n, false),
            with_edge_score(last_edge(p), v),
        ),
        all_one_line(opt_list(!is_zero_float_literal(v), "- edge_feedback_score "@ + v)),
{
    reveal_strlit("- edge_feedback_score ");
    reveal_strlit("edge_feedback_score");
    let key = "edge_feedback_score"@;
    lemma_edge_keys();
    assert("- edge_feedback_score "@ + v =~= custom_line(key, v));
    lemma_run_opt(p, !is_zero_float_literal(v), "- edge_feedback_score "@ + v, n);
    if !is_zero_float_literal(v) {
        lemma_clean_token(v);
        lemma_one_line_custom(key, v);
        lemma_step_edge_custom(p, n, key, v);
        lemma_token_trim(v);
    } else {
        lemma_run_empty(p, n);
        lemma_edge_res_same(p, n);
        assert(with_edge_score(last_edge(p), v) =~= last_edge(p));
    }
    lemma_all_opt(!is_zero_float_literal(v), "- edge_feedback_score "@ + v);
}

pub open spec fn with_edge_count(e: EdgeV, c: u64) -> EdgeV {
    EdgeV { props: EdgePropsV { feedback_count: c, ..e.props }, ..e }
}

proof fn lemma_edge_piece_count(p: ParserV, n: nat, c: u64)
    requires
        in_edge(p),
        last_edge(p).props.feedback_count == 0,
    ensures
        edge_res(
            p,
            run(p, opt_list(c != 0, "- edge_feedback_count "@ + decimal(c as nat)), n, false),
            with_edge_count(last_edge(p), c),
        ),
        all_one_line(opt_list(c != 0, "- edge_feedback_count "@ + decimal(c as nat))),
{
    reveal_strlit("- edge_feedback_count ");
    reveal_strlit("edge_feedback_count");
    let key = "edge_feedback_count"@;
    let d = decimal(c as nat);
    lemma_edge_keys();
    assert("- edge_feedback_count "@ + d =~= custom_line(key, d));
    lemma_run_opt(p, c != 0, "- edge_feedback_count "@ + d, n);
    lemma_parse_decimal(c);
    lemma_clean_token(d);
    lemma_one_line_custom(key, d);
    if c != 0 {
        lemma_step_edge_custom(p, n, key, d);
        lemma_token_trim(d);
    } else {
        lemma_run_empty(p, n);
        lemma_edge_res_same(p, n);
        assert(with_edge_count(last_edge(p), c) =~= last_edge(p));
    }
    lemma_all_opt(c != 0, "- edge_feedback_count "@ + d);
}

pub open spec fn with_edge_last_ts(e: EdgeV, t: Option<u64>) -> EdgeV {
    EdgeV { props: EdgePropsV { feedback_last_ts_ms: t, ..e.props }, ..e }
}

proof fn lemma_edge_piece_last_ts(p: ParserV, n: nat, t: Option<u64>)
    requires
        in_edge(p),
        last_edge(p).props.feedback_last_ts_ms is None,
    ensures
        edge_res(
            p,
            run(
                p,
                opt_list(t is Some, "- edge_feedback_last_ts_ms "@ + decimal(t->0 as nat)),
                n,
                false,
            ),
            with_edge_last_ts(last_edge(p), t),
        ),
        all_one_line(opt_list(t is Some, "- edge_feedback_last_ts_ms "@ + decimal(t->0 as nat))),
{
    reveal_strlit("- edge_feedback_last_ts_ms ");
    reveal_strlit("edge_feedback_last_ts_ms");
    let key = "edge_feedback_last_ts_ms"@;
    let d = decimal(t->0 as nat);
    lemma_edge_keys();
    assert("- edge_feedback_last_ts_ms "@ + d =~= custom_line(key, d));
    lemma_run_opt(p, t is Some, "- edge_feedback_last_ts_ms "@ + d, n);
    lemma_parse_decimal(t->0);
    lemma_clean_token(d);
    lemma_one_line_custom(key, d);
    if t is Some {
        lemma_step_edge_custom(p, n, key, d);
        lemma_token_trim(d);
    } else {
        lemma_run_empty(p, n);
        lemma_edge_res_same(p, n);
        assert(with_edge_last_ts(last_edge(p), t) =~= last_edge(p));
    }
    lemma_all_opt(t is Some, "- edge_feedback_last_ts_ms "@ + d);
}

/// The edge an edge head line opens: the edge with default properties.
pub open spec fn head_edge(e: EdgeV) -> EdgeV {
    EdgeV { props: EdgePropsV { bidirectional: e.props.bidirectional, ..default_edge_props() }, ..e }
}

proof fn lemma_run_edge_head(p: ParserV, n: nat, e: EdgeV)
    requires
        p.note is None,
        p.node is Some,
        p.node->0.id == e.source_id,
        edge_writable(e),
    ensures
        run(p, seq![edge_head(e)], n, false) == Ok::<ParserV, Seq<char>>(open_edge(p, head_edge(e))),
        all_one_line(seq![edge_head(e)]),
{
    reveal_strlit("= ");
    reveal_strlit("> ");
    reveal_strlit(" ");
    reveal_strlit("~");
    let code = relation_code(e.relation);
    law_relation_roundtrip(e.relation);
    lemma_run_one(p, edge_head(e), n);
    if e.props.bidirectional && e.relation == "~"@ {
        assert(edge_head(e) =~= head_line('=', code, e.target_id));
        lemma_step_similarity(p, n, code, e.target_id);
        lemma_head_line_shape('=', code, e.target_id);
        assert(similarity_edge(p.node->0, e.target_id) =~= head_edge(e));
    } else {
        assert(edge_head(e) =~= head_line('>', code, e.target_id));
        lemma_step_directed(p, n, code, e.target_id);
        lemma_head_line_shape('>', code, e.target_id);
        assert(directed_edge(p.node->0, code, e.target_id) =~= head_edge(e));
    }
    lemma_all_opt(true, edge_head(e));
}

#[verifier::rlimit(30)]
proof fn lemma_run_edge(p: ParserV, n: nat, e: EdgeV)
    requires
        p.note is None,
        p.node is Some,
        p.node->0.id == e.source_id,
        edge_writable(e),
    ensures
        run(p, edge_list(e), n, false) matches Ok(q) && q == (ParserV {
            graph: GraphV { edges: p.graph.edges.push(e), ..p.graph },
            edge_open: true,
            edge_rank: q.edge_rank,
            ..p
        }),
        all_one_line(edge_list(e)),
{
    reveal_strlit("i ");
    reveal_strlit("x ");
    assert("i "@ =~= seq!['i', ' ']);
    assert("x "@ =~= seq!['x', ' ']);
    let pr = e.props;
    let e0 = head_edge(e);
    let h = seq![edge_head(e)];
    lemma_run_edge_head(p, n, e);
    let b = open_edge(p, e0);
    let es = b.graph.edges;
    assert(es.update(es.len() - 1, e0) =~= es);
    assert(edge_at(b, run(p, h, n, false), e0));
    let p1 = score_list(pr.score_components);
    let p2 = opt_list(pr.detail.len() > 0, "d "@ + escape_text(pr.detail));
    let p3 = opt_list(pr.valid_from.len() > 0, "i "@ + pr.valid_from);
    let p4 = opt_list(pr.valid_to.len() > 0, "x "@ + pr.valid_to);
    let p5 = opt_list(!is_zero_float_literal(pr.feedback_score), "- edge_feedback_score "@ + pr.feedback_score);
    let p6 = opt_list(pr.feedback_count != 0, "- edge_feedback_count "@ + decimal(pr.feedback_count as nat));
    let p7 = opt_list(
        pr.feedback_last_ts_ms is Some,
        "- edge_feedback_last_ts_ms "@ + decimal(pr.feedback_last_ts_ms->0 as nat),
    );
    let q0 = run(p, h, n, false)->Ok_0;
    let e1 = with_scores(e0, pr.score_components);
    lemma_run_scores(q0, n + 1, pr.score_components);
    lemma_edge_chain_at(p, b, h, p1, n, e0, e1);
    let l1 = h + p1;
    let q1 = run(p, l1, n, false)->Ok_0;
    let e2 = with_detail(e1, pr.detail);
    lemma_edge_piece_detail(q1, n + l1.len(), pr.detail);
    lemma_edge_chain_at(p, b, l1, p2, n, e1, e2);
    let l2 = l1 + p2;
    let q2 = run(p, l2, n, false)->Ok_0;
    let e3 = with_validity(e2, 'i', pr.valid_from);
    lemma_edge_piece_validity(q2, n + l2.len(), 'i', pr.valid_from);
    lemma_edge_chain_at(p, b, l2, p3, n, e2, e3);
    let l3 = l2 + p3;
    let q3 = run(p, l3, n, false)->Ok_0;
    let e4 = with_validity(e3, 'x', pr.valid_to);
    lemma_edge_piece_validity(q3, n + l3.len(), 'x', pr.valid_to);
    lemma_edge_chain_at(p, b, l3, p4, n, e3, e4);
    let l4 = l3 + p4;
    let q4 = run(p, l4, n, false)->Ok_0;
    let e5 = with_edge_score(e4, pr.feedback_score);
    lemma_edge_piece_score(q4, n + l4.len(), pr.feedback_score);
    lemma_edge_chain_at(p, b, l4, p5, n, e4, e5);
    let l5 = l4 + p5;
    let q5 = run(p, l5, n, false)->Ok_0;
    let e6 = with_edge_count(e5, pr.feedback_count);
    lemma_edge_piece_count(q5, n + l5.len(), pr.feedback_count);
    lemma_edge_chain_at(p, b, l5, p6, n, e5, e6);
    let l6 = l5 + p6;
    let q6 = run(p, l6, n, false)->Ok_0;
    let e7 = with_edge_last_ts(e6, pr.feedback_last_ts_ms);
    lemma_edge_piece_last_ts(q6, n + l6.len(), pr.feedback_last_ts_ms);
    lemma_edge_chain_at(p, b, l6, p7, n, e6, e7);
    let l7 = l6 + p7;
    assert(l7 == edge_list(e));
    assert(e7 =~= e);
    assert(es.update(es.len() - 1, e) =~= p.graph.edges.push(e));
    lemma_all_concat(h, p1);
    lemma_all_concat(l1, p2);
    lemma_all_concat(l2, p3);
    lemma_all_concat(l3, p4);
    lemma_all_concat(l4, p5);
    lemma_all_concat(l5, p6);
    lemma_all_concat(l6, p7);
}

proof fn lemma_run_edges(p: ParserV, n: nat, es: Seq<EdgeV>)
    requires
        p.note is None,
        p.node is Some,
        forall|i: int|
            0 <= i < es.len() ==> (#[trigger] es[i]).source_id == p.node->0.id && edge_writable(
                es[i],
            ),
    ensures
        run(p, edges_list(es), n, false) matches Ok(q) && q == (ParserV {
            graph: GraphV { edges: p.graph.edges + es, ..p.graph },
            edge_open: q.edge_open,
            edge_rank: q.edge_rank,
            ..p
        }),
        all_one_line(edges_list(es)),
    decreases es.len(),
{
    if es.len() == 0 {
        lemma_run_empty(p, n);
        assert(p.graph.edges + es =~= p.graph.edges);
        assert(p.graph == GraphV { edges: p.graph.edges + es, ..p.graph });
    } else {
        let es0 = es.drop_last();
        let e = es.last();
        assert forall|i: int| 0 <= i < es0.len() implies (#[trigger] es0[i]).source_id
            == p.node->0.id && edge_writable(es0[i]) by {
            assert(es0[i] == es[i]);
        }
        lemma_run_edges(p, n, es0);
        let l0 = edges_list(es0);
        lemma_run_concat(p, l0, edge_list(e), n);
        let q0 = run(p, l0, n, false)->Ok_0;
        assert(es[es.len() - 1] == e);
        lemma_run_edge(q0, n + l0.len(), e);
        assert(p.graph.edges + es0 + seq![e] =~= p.graph.edges + es);
        assert((p.graph.edges + es0).push(e) =~= p.graph.edges + es);
        lemma_all_concat(l0, edge_list(e));
    }
}

/// The lines of a node's block with the given outgoing edges.
pub open spec fn block_list(nd: NodeV, out: Seq<EdgeV>) -> Seq<Seq<char>> {
    node_field_list(nd) + edges_list(out) + seq![Seq::<char>::empty()]
}

/// A node block adds the node and its edges to the graph and closes
/// whatever was open before it.
proof fn lemma_run_node_block(p: ParserV, n: nat, nd: NodeV, out: Seq<EdgeV>)
    requires
        p.note is None,
        node_writable(nd),
        forall|i: int|
            0 <= i < out.len() ==> (#[trigger] out[i]).source_id == nd.id && edge_writable(out[i]),
    ensures
        run(p, block_list(nd, out), n, false) matches Ok(q) && q.note is None && q.warnings
            == p.warnings && flush(q).graph == (GraphV {
            nodes: flush(p).graph.nodes.push(nd),
            edges: flush(p).graph.edges + out,
            ..flush(p).graph
        }),
        all_one_line(block_list(nd, out)),
{
    let f = node_field_list(nd);
    let el = edges_list(out);
    lemma_run_node_fields(p, n, nd);
    let q1 = run(p, f, n, false)->Ok_0;
    lemma_run_edges(q1, n + f.len(), out);
    lemma_run_concat(p, f, el, n);
    let q2 = run(p, f + el, n, false)->Ok_0;
    lemma_run_one(q2, Seq::empty(), n + (f + el).len());
    lemma_step_blank(q2, n + (f + el).len());
    lemma_run_concat(p, f + el, seq![Seq::<char>::empty()], n);
    lemma_all_concat(f, el);
    lemma_all_opt(true, Seq::<char>::empty());
    lemma_all_concat(f + el, seq![Seq::<char>::empty()]);
}

// ---------------------------------------------------------------------------
// Node blocks in sequence
// ---------------------------------------------------------------------------

/// Edges in the order the writer keeps them.
#[verifier::opaque]
pub open spec fn edges_sorted(es: Seq<EdgeV>) -> bool {
    forall|i: int, j: int|
        0 <= i < j < es.len() ==> #[trigger] crate::graph::edge_order(es[i], es[j]) <= 0
}

/// The edges whose source is `id`, in their order.
pub open spec fn from_node(es: Seq<EdgeV>, id: Seq<char>) -> Seq<EdgeV> {
    es.filter(|e: EdgeV| e.source_id == id)
}

proof fn lemma_filter_props(es: Seq<EdgeV>, id: Seq<char>)
    requires
        edges_sorted(es),
    ensures
        forall|k: int|
            0 <= k < from_node(es, id).len() ==> (#[trigger] from_node(es, id)[k]).source_id == id
                && es.contains(from_node(es, id)[k]),
        edges_sorted(from_node(es, id)),
    decreases es.len(),
{
    reveal(edges_sorted);
    reveal(Seq::filter);
    let pred = |e: EdgeV| e.source_id == id;
    if es.len() > 0 {
        let es0 = es.drop_last();
        let e = es.last();
        assert forall|i: int, j: int| 0 <= i < j < es0.len() implies crate::graph::edge_order(
            es0[i],
            es0[j],
        ) <= 0 by {
            assert(es0[i] == es[i] && es0[j] == es[j]);
        }
        lemma_filter_props(es0, id);
        let f0 = from_node(es0, id);
        let f = from_node(es, id);
        assert(f == if pred(e) {
            f0.push(e)
        } else {
            f0
        });
        assert forall|k: int| 0 <= k < f0.len() implies es.contains(#[trigger] f0[k])
            && crate::graph::edge_order(f0[k], e) <= 0 by {
            assert(es0.contains(f0[k]));
            let m = choose|m: int| 0 <= m < es0.len() && es0[m] == f0[k];
            assert(es[m] == f0[k]);
        }
        assert forall|k: int| 0 <= k < f.len() implies (#[trigger] f[k]).source_id == id
            && es.contains(f[k]) by {
            if k < f0.len() {
                assert(f[k] == f0[k]);
            } else {
                assert(f[k] == e);
                assert(es[es.len() - 1] == e);
            }
        }
        assert forall|i: int, j: int| 0 <= i < j < f.len() implies crate::graph::edge_order(
            f[i],
            f[j],
        ) <= 0 by {
            assert(f[i] == f0[i]);
            if j < f0.len() {
                assert(f[j] == f0[j]);
            } else {
                assert(f[j] == e);
            }
        }
    }
}

/// The outgoing edges of a node, in order, for edges kept sorted.
proof fn lemma_outgoing(es: Seq<EdgeV>, id: Seq<char>)
    requires
        edges_sorted(es),
        forall|k: int| 0 <= k < es.len() ==> edge_writable(#[trigger] es[k]),
    ensures
        outgoing(es, id) == from_node(es, id),
        forall|k: int|
            0 <= k < outgoing(es, id).len() ==> (#[trigger] outgoing(es, id)[k]).source_id == id
                && edge_writable(outgoing(es, id)[k]),
{
    reveal(edges_sorted);
    lemma_filter_props(es, id);
    let f = from_node(es, id);
    assert(outgoing(es, id) == sorted_seq::<Edge>(f));
    assert forall|i: int, j: int| 0 <= i < j < f.len() implies !<Edge as KeyOrder>::spec_after(
        f[i],
        f[j],
    ) by {}
    crate::sorting::lemma_sorted_identity::<Edge>(f);
    assert forall|k: int| 0 <= k < f.len() implies edge_writable(#[trigger] f[k]) by {
        assert(es.contains(f[k]));
        let m = choose|m: int| 0 <= m < es.len() && es[m] == f[k];
    }
}

/// The edges the node blocks of `ns` carry, block by block.
pub open spec fn node_edges(ns: Seq<NodeV>, es: Seq<EdgeV>) -> Seq<EdgeV>
    decreases ns.len(),
{
    if ns.len() == 0 {
        Seq::empty()
    } else {
        node_edges(ns.drop_last(), es) + outgoing(es, ns.last().id)
    }
}

proof fn lemma_run_nodes(p: ParserV, n: nat, ns: Seq<NodeV>, es: Seq<EdgeV>)
    requires
        p.note is None,
        forall|i: int| 0 <= i < ns.len() ==> node_writable(#[trigger] ns[i]),
        edges_sorted(es),
        forall|k: int| 0 <= k < es.len() ==> edge_writable(#[trigger] es[k]),
    ensures
        run(p, nodes_list(ns, es), n, false) matches Ok(q) && q.note is None && q.warnings
            == p.warnings && flush(q).graph == (GraphV {
            nodes: flush(p).graph.nodes + ns,
            edges: flush(p).graph.edges + node_edges(ns, es),
            ..flush(p).graph
        }),
        all_one_line(nodes_list(ns, es)),
    decreases ns.len(),
{
    let fg = flush(p).graph;
    if ns.len() == 0 {
        lemma_run_empty(p, n);
        assert(fg.nodes + ns =~= fg.nodes);
        assert(fg.edges + node_edges(ns, es) =~= fg.edges);
        assert(fg == GraphV { nodes: fg.nodes + ns, edges: fg.edges + node_edges(ns, es), ..fg });
    } else {
        let ns0 = ns.drop_last();
        let nd = ns.last();
        assert forall|i: int| 0 <= i < ns0.len() implies node_writable(#[trigger] ns0[i]) by {
            assert(ns0[i] == ns[i]);
        }
        lemma_run_nodes(p, n, ns0, es);
        let l0 = nodes_list(ns0, es);
        let out = outgoing(es, nd.id);
        assert(node_list(nd, es) == block_list(nd, out));
        lemma_run_concat(p, l0, block_list(nd, out), n);
        let q0 = run(p, l0, n, false)->Ok_0;
        assert(ns[ns.len() - 1] == nd);
        lemma_outgoing(es, nd.id);
        lemma_run_node_block(q0, n + l0.len(), nd, out);
        assert(fg.nodes + ns0 + seq![nd] =~= fg.nodes + ns);
        assert((fg.nodes + ns0).push(nd) =~= fg.nodes + ns);
        assert(fg.edges + node_edges(ns0, es) + out =~= fg.edges + node_edges(ns, es));
        lemma_all_concat(l0, block_list(nd, out));
    }
}

// ---------------------------------------------------------------------------
// Note blocks
// ---------------------------------------------------------------------------

/// A note creation time as written: no surrounding whitespace, no line break.
pub open spec fn note_time_ok(c: Seq<char>) -> bool {
    trim(c) == c && clean_value(c)
}

/// A list of note tags or sources as written: in normal form, no empty value.
pub open spec fn note_list_ok(l: Seq<Seq<char>>) -> bool {
    text_list_ok(l) && forall|i: int| 0 <= i < l.len() ==> (#[trigger] l[i]).len() > 0
}

/// A note that the written form carries without loss.
pub open spec fn note_writable(o: NoteV) -> bool {
    &&& is_token(o.id)
    &&& is_token(o.node_id)
    &&& note_list_ok(o.tags)
    &&& note_list_ok(o.source_files)
    &&& note_time_ok(o.created_at)
}

/// A run result in which the open note is `o` and everything else but the
/// note rank is as in `b`.
pub open spec fn note_at(b: ParserV, r: Result<ParserV, Seq<char>>, o: NoteV) -> bool {
    r matches Ok(q) && q == (ParserV { note: Some(o), note_rank: q.note_rank, ..b })
}

pub open spec fn note_res(p: ParserV, r: Result<ParserV, Seq<char>>, o: NoteV) -> bool {
    r matches Ok(q) && note_changed(p, q, o)
}

proof fn lemma_note_chain_at(
    p: ParserV,
    b: ParserV,
    a: Seq<Seq<char>>,
    c: Seq<Seq<char>>,
    n: nat,
    oa: NoteV,
    ob: NoteV,
)
    requires
        note_at(b, run(p, a, n, false), oa),
        note_res(run(p, a, n, false)->Ok_0, run(run(p, a, n, false)->Ok_0, c, n + a.len(), false), ob),
    ensures
        note_at(b, run(p, a + c, n, false), ob),
{
    lemma_run_concat(p, a, c, n);
}

/// A note with `vs` appended to its tags (`k == 2`) or sources.
pub open spec fn with_note_list(o: NoteV, k: nat, vs: Seq<Seq<char>>) -> NoteV {
    if k == 2 {
        NoteV { tags: o.tags + vs, ..o }
    } else {
        NoteV { source_files: o.source_files + vs, ..o }
    }
}

proof fn lemma_run_note_text_list(p: ParserV, n: nat, c: char, vs: Seq<Seq<char>>)
    requires
        p.note is Some,
        c == 't' || c == 's',
        forall|i: int| 0 <= i < vs.len() ==> (#[trigger] vs[i]).len() > 0,
    ensures
        note_res(p, run(p, text_list(seq![c, ' '], vs), n, false), with_note_list(p.note->0, note_kind(c), vs)),
        all_one_line(text_list(seq![c, ' '], vs)),
    decreases vs.len(),
{
    let o = p.note->0;
    let k = note_kind(c);
    lemma_all_text_list(c, vs);
    if vs.len() == 0 {
        lemma_run_empty(p, n);
        assert(o.tags + vs =~= o.tags);
        assert(o.source_files + vs =~= o.source_files);
        assert(with_note_list(o, k, vs) =~= o);
    } else {
        let vs0 = vs.drop_last();
        let v = vs.last();
        assert forall|i: int| 0 <= i < vs0.len() implies (#[trigger] vs0[i]).len() > 0 by {
            assert(vs0[i] == vs[i]);
        }
        assert(vs[vs.len() - 1] == v);
        let tl0 = text_list(seq![c, ' '], vs0);
        let line = seq![c, ' '] + escape_text(v);
        assert(text_list(seq![c, ' '], vs) =~= tl0 + seq![line]);
        lemma_run_note_text_list(p, n, c, vs0);
        lemma_run_concat(p, tl0, seq![line], n);
        let q0 = run(p, tl0, n, false)->Ok_0;
        let m = n + tl0.len();
        lemma_run_one(q0, line, m);
        lemma_step_note_text(q0, m, c, v);
        let o0 = with_note_list(o, k, vs0);
        if k == 2 {
            assert(o0.tags.push(v) =~= o.tags + vs);
        } else {
            assert(o0.source_files.push(v) =~= o.source_files + vs);
        }
        assert(set_note_field(o0, k, escape_text(v)) =~= with_note_list(o, k, vs));
    }
}

proof fn lemma_note_piece_text(p: ParserV, n: nat, c: char, v: Seq<char>, always: bool)
    requires
        p.note is Some,
        c == 'b' || c == 'a' || c == 'p',
        c == 'b' ==> always,
        c == 'a' ==> p.note->0.author.len() == 0,
        c == 'p' ==> p.note->0.provenance.len() == 0,
    ensures
        note_res(
            p,
            run(p, opt_list(always || v.len() > 0, seq![c, ' '] + escape_text(v)), n, false),
            set_note_field(p.note->0, note_kind(c), escape_text(v)),
        ),
        all_one_line(opt_list(always || v.len() > 0, seq![c, ' '] + escape_text(v))),
{
    lemma_run_opt(p, always || v.len() > 0, seq![c, ' '] + escape_text(v), n);
    lemma_all_escaped(c, v);
    lemma_one_line_escaped(c, v);
    lemma_all_opt(always || v.len() > 0, seq![c, ' '] + escape_text(v));
    if always || v.len() > 0 {
        lemma_step_note_text(p, n, c, v);
    } else {
        lemma_run_empty(p, n);
        law_decode_escape(v);
        assert(set_note_field(p.note->0, note_kind(c), escape_text(v)) =~= p.note->0);
    }
}

proof fn lemma_note_piece_created(p: ParserV, n: nat, v: Seq<char>)
    requires
        p.note is Some,
        p.note->0.created_at.len() == 0,
        note_time_ok(v),
    ensures
        note_res(
            p,
            run(p, opt_list(v.len() > 0, seq!['e', ' '] + v), n, false),
            NoteV { created_at: v, ..p.note->0 },
        ),
        all_one_line(opt_list(v.len() > 0, seq!['e', ' '] + v)),
{
    lemma_run_opt(p, v.len() > 0, seq!['e', ' '] + v, n);
    let l = field_line('e', v);
    if v.len() > 0 {
        if l.contains('\n') {
            let k = choose|k: int| 0 <= k < l.len() && l[k] == '\n';
            assert(k >= 2);
            assert(v[k - 2] == '\n');
        }
        assert(l.last() == v[v.len() - 1]);
        if v[v.len() - 1] == '\r' {
            assert(v.contains('\r'));
        }
        lemma_step_note_field(p, n, 'e', v);
    } else {
        lemma_run_empty(p, n);
        assert(NoteV { created_at: v, ..p.note->0 } =~= p.note->0);
    }
    lemma_all_opt(v.len() > 0, l);
}

#[verifier::rlimit(30)]
proof fn lemma_run_note_block(p: ParserV, n: nat, o: NoteV)
    requires
        note_writable(o),
    ensures
        run(p, note_list(o), n, false) matches Ok(q) && q.node is None && q.warnings == p.warnings
            && flush(q).graph == (GraphV { notes: flush(p).graph.notes.push(o), ..flush(p).graph }),
        all_one_line(note_list(o)),
{
    reveal_strlit("b ");
    reveal_strlit("t ");
    reveal_strlit("a ");
    reveal_strlit("e ");
    reveal_strlit("p ");
    reveal_strlit("s ");
    assert("b "@ =~= seq!['b', ' ']);
    assert("t "@ =~= seq!['t', ' ']);
    assert("a "@ =~= seq!['a', ' ']);
    assert("e "@ =~= seq!['e', ' ']);
    assert("p "@ =~= seq!['p', ' ']);
    assert("s "@ =~= seq!['s', ' ']);
    lemma_text_list_ok(o.tags);
    lemma_text_list_ok(o.source_files);
    let hdr = note_header_line(o.id, o.node_id);
    let bl = "b "@ + escape_text(o.body);
    let h = seq![hdr];
    lemma_step_note_header(p, n, o.id, o.node_id);
    lemma_run_one(p, hdr, n);
    let x0 = empty_note(o.id, o.node_id);
    let b = ParserV { edge_open: false, ..flush(p) };
    assert(note_at(b, run(p, h, n, false), x0));
    let p1 = seq![bl];
    let p2 = text_list("t "@, sorted_seq::<String>(o.tags));
    let p3 = opt_list(o.author.len() > 0, "a "@ + escape_text(o.author));
    let p4 = opt_list(o.created_at.len() > 0, "e "@ + o.created_at);
    let p5 = opt_list(o.provenance.len() > 0, "p "@ + escape_text(o.provenance));
    let p6 = text_list("s "@, sorted_seq::<String>(o.source_files));
    let p7 = seq![Seq::<char>::empty()];
    let q0 = run(p, h, n, false)->Ok_0;
    let o1 = set_note_field(x0, 1, escape_text(o.body));
    assert(p1 == opt_list(true || o.body.len() > 0, seq!['b', ' '] + escape_text(o.body)));
    lemma_note_piece_text(q0, n + 1, 'b', o.body, true);
    lemma_note_chain_at(p, b, h, p1, n, x0, o1);
    let l1 = h + p1;
    let q1 = run(p, l1, n, false)->Ok_0;
    let o2 = with_note_list(o1, 2, o.tags);
    lemma_run_note_text_list(q1, n + l1.len(), 't', o.tags);
    lemma_note_chain_at(p, b, l1, p2, n, o1, o2);
    let l2 = l1 + p2;
    let q2 = run(p, l2, n, false)->Ok_0;
    let o3 = set_note_field(o2, 3, escape_text(o.author));
    lemma_note_piece_text(q2, n + l2.len(), 'a', o.author, false);
    lemma_note_chain_at(p, b, l2, p3, n, o2, o3);
    let l3 = l2 + p3;
    let q3 = run(p, l3, n, false)->Ok_0;
    let o4 = NoteV { created_at: o.created_at, ..o3 };
    lemma_note_piece_created(q3, n + l3.len(), o.created_at);
    lemma_note_chain_at(p, b, l3, p4, n, o3, o4);
    let l4 = l3 + p4;
    let q4 = run(p, l4, n, false)->Ok_0;
    let o5 = set_note_field(o4, 5, escape_text(o.provenance));
    lemma_note_piece_text(q4, n + l4.len(), 'p', o.provenance, false);
    lemma_note_chain_at(p, b, l4, p5, n, o4, o5);
    let l5 = l4 + p5;
    let q5 = run(p, l5, n, false)->Ok_0;
    let o6 = with_note_list(o5, 6, o.source_files);
    lemma_run_note_text_list(q5, n + l5.len(), 's', o.source_files);
    lemma_note_chain_at(p, b, l5, p6, n, o5, o6);
    let l6 = l5 + p6;
    let q6 = run(p, l6, n, false)->Ok_0;
    lemma_run_one(q6, Seq::empty(), n + l6.len());
    lemma_step_blank(q6, n + l6.len());
    lemma_run_concat(p, l6, p7, n);
    let l7 = l6 + p7;
    law_decode_escape(o.body);
    law_decode_escape(o.author);
    law_decode_escape(o.provenance);
    assert(x0.tags + o.tags =~= o.tags);
    assert(x0.source_files + o.source_files =~= o.source_files);
    assert(o6 =~= o);
    assert(seq![hdr, bl] =~= h + p1);
    assert(l7 =~= note_list(o));
    lemma_note_header_shape(o.id, o.node_id);
    lemma_all_opt(true, hdr);
    lemma_all_concat(h, p1);
    lemma_all_concat(l1, p2);
    lemma_all_concat(l2, p3);
    lemma_all_concat(l3, p4);
    lemma_all_concat(l4, p5);
    lemma_all_concat(l5, p6);
    lemma_all_opt(true, Seq::<char>::empty());
    lemma_all_concat(l6, p7);
}

proof fn lemma_run_notes(p: ParserV, n: nat, os: Seq<NoteV>)
    requires
        forall|i: int| 0 <= i < os.len() ==> note_writable(#[trigger] os[i]),
    ensures
        run(p, notes_list(os), n, false) matches Ok(q) && q.warnings == p.warnings && flush(q).graph
            == (GraphV { notes: flush(p).graph.notes + os, ..flush(p).graph }),
        all_one_line(notes_list(os)),
    decreases os.len(),
{
    let fg = flush(p).graph;
    if os.len() == 0 {
        lemma_run_empty(p, n);
        assert(fg.notes + os =~= fg.notes);
        assert(fg == GraphV { notes: fg.notes + os, ..fg });
    } else {
        let os0 = os.drop_last();
        let o = os.last();
        assert forall|i: int| 0 <= i < os0.len() implies note_writable(#[trigger] os0[i]) by {
            assert(os0[i] == os[i]);
        }
        assert(os[os.len() - 1] == o);
        lemma_run_notes(p, n, os0);
        let l0 = notes_list(os0);
        lemma_run_concat(p, l0, note_list(o), n);
        let q0 = run(p, l0, n, false)->Ok_0;
        lemma_run_note_block(q0, n + l0.len(), o);
        assert((fg.notes + os0).push(o) =~= fg.notes + os);
        lemma_all_concat(l0, note_list(o));
    }
}

// ---------------------------------------------------------------------------
// The node blocks carry every edge once, in order
// ---------------------------------------------------------------------------

proof fn lemma_from_node_last(es: Seq<EdgeV>, id: Seq<char>)
    requires
        es.len() > 0,
    ensures
        from_node(es, id) == if es.last().source_id == id {
            from_node(es.drop_last(), id).push(es.last())
        } else {
            from_node(es.drop_last(), id)
        },
{
    reveal(Seq::filter);
}

proof fn lemma_from_node_none(es: Seq<EdgeV>, id: Seq<char>)
    requires
        forall|k: int| 0 <= k < es.len() ==> (#[trigger] es[k]).source_id != id,
    ensures
        from_node(es, id) == Seq::<EdgeV>::empty(),
    decreases es.len(),
{
    reveal(Seq::filter);
    if es.len() > 0 {
        let es0 = es.drop_last();
        assert forall|k: int| 0 <= k < es0.len() implies (#[trigger] es0[k]).source_id != id by {
            assert(es0[k] == es[k]);
        }
        lemma_from_node_none(es0, id);
        assert(es[es.len() - 1] == es.last());
    } else {
        assert(from_node(es, id) =~= Seq::<EdgeV>::empty());
    }
}

/// The edges of the blocks of `ns`, block by block, by source.
pub open spec fn blocks_of(ns: Seq<NodeV>, es: Seq<EdgeV>) -> Seq<EdgeV>
    decreases ns.len(),
{
    if ns.len() == 0 {
        Seq::empty()
    } else {
        blocks_of(ns.drop_last(), es) + from_node(es, ns.last().id)
    }
}

/// Node ids strictly increasing.
#[verifier::opaque]
pub open spec fn ids_increasing(ns: Seq<NodeV>) -> bool {
    forall|i: int, j: int| 0 <= i < j < ns.len() ==> lex_order(ns[i].id, ns[j].id) < 0
}

proof fn lemma_node_edges_blocks(ns: Seq<NodeV>, es: Seq<EdgeV>)
    requires
        edges_sorted(es),
        forall|k: int| 0 <= k < es.len() ==> edge_writable(#[trigger] es[k]),
    ensures
        node_edges(ns, es) == blocks_of(ns, es),
    decreases ns.len(),
{
    if ns.len() > 0 {
        lemma_node_edges_blocks(ns.drop_last(), es);
        lemma_outgoing(es, ns.last().id);
    }
}

proof fn lemma_blocks_skip(ns: Seq<NodeV>, es: Seq<EdgeV>)
    requires
        es.len() > 0,
        forall|i: int| 0 <= i < ns.len() ==> (#[trigger] ns[i]).id != es.last().source_id,
    ensures
        blocks_of(ns, es) == blocks_of(ns, es.drop_last()),
    decreases ns.len(),
{
    if ns.len() > 0 {
        let ns0 = ns.drop_last();
        assert forall|i: int| 0 <= i < ns0.len() implies (#[trigger] ns0[i]).id
            != es.last().source_id by {
            assert(ns0[i] == ns[i]);
        }
        lemma_blocks_skip(ns0, es);
        assert(ns[ns.len() - 1] == ns.last());
        lemma_from_node_last(es, ns.last().id);
    }
}

proof fn lemma_blocks_empty(ns: Seq<NodeV>)
    ensures
        blocks_of(ns, Seq::<EdgeV>::empty()) == Seq::<EdgeV>::empty(),
    decreases ns.len(),
{
    if ns.len() > 0 {
        lemma_blocks_empty(ns.drop_last());
        lemma_from_node_none(Seq::<EdgeV>::empty(), ns.last().id);
        assert(Seq::<EdgeV>::empty() + Seq::<EdgeV>::empty() =~= Seq::<EdgeV>::empty());
    }
}

proof fn lemma_blocks_push(ns: Seq<NodeV>, es: Seq<EdgeV>, m: int)
    requires
        ids_increasing(ns),
        es.len() > 0,
        0 <= m < ns.len(),
        ns[m].id == es.last().source_id,
        forall|k: int|
            0 <= k < es.len() - 1 ==> lex_order((#[trigger] es[k]).source_id, es.last().source_id)
                <= 0,
    ensures
        blocks_of(ns, es) == blocks_of(ns, es.drop_last()).push(es.last()),
    decreases ns.len(),
{
    reveal(ids_increasing);
    let e = es.last();
    let es0 = es.drop_last();
    let ns0 = ns.drop_last();
    let last = ns.last();
    assert(ns[ns.len() - 1] == last);
    lemma_from_node_last(es, last.id);
    if e.source_id == last.id {
        assert forall|i: int| 0 <= i < ns0.len() implies (#[trigger] ns0[i]).id != e.source_id by {
            assert(ns0[i] == ns[i]);
            assert(lex_order(ns[i].id, ns[ns.len() - 1].id) < 0);
            crate::text::lemma_lex_order_eq(ns[i].id, last.id);
        }
        lemma_blocks_skip(ns0, es);
        assert(blocks_of(ns0, es0) + from_node(es0, last.id).push(e) =~= (blocks_of(ns0, es0)
            + from_node(es0, last.id)).push(e));
    } else {
        assert(m < ns.len() - 1);
        assert(ns0[m] == ns[m]);
        assert(lex_order(ns[m].id, ns[ns.len() - 1].id) < 0);
        assert forall|k: int| 0 <= k < es0.len() implies (#[trigger] es0[k]).source_id != last.id by {
            assert(es0[k] == es[k]);
            crate::text::lemma_lex_order_trans(es[k].source_id, e.source_id, last.id);
            if es[k].source_id == last.id {
                crate::text::lemma_lex_order_antisym(e.source_id, last.id);
            }
        }
        lemma_from_node_none(es0, last.id);
        assert forall|i: int, j: int| 0 <= i < j < ns0.len() implies lex_order(ns0[i].id, ns0[j].id)
            < 0 by {
            assert(ns0[i] == ns[i] && ns0[j] == ns[j]);
        }
        assert(ids_increasing(ns0));
        lemma_blocks_push(ns0, es, m);
        assert(blocks_of(ns0, es0).push(e) + Seq::<EdgeV>::empty() =~= (blocks_of(ns0, es0)
            + Seq::<EdgeV>::empty()).push(e));
    }
}

/// Every edge has a node among `ns` as its source.
#[verifier::opaque]
pub open spec fn sources_known(ns: Seq<NodeV>, es: Seq<EdgeV>) -> bool {
    forall|k: int|
        0 <= k < es.len() ==> exists|i: int| 0 <= i < ns.len() && (#[trigger] ns[i]).id == (
        #[trigger] es[k]).source_id
}

proof fn lemma_edge_order_source(a: EdgeV, b: EdgeV)
    requires
        crate::graph::edge_order(a, b) <= 0,
    ensures
        lex_order(a.source_id, b.source_id) <= 0,
{
}

proof fn lemma_blocks_prefix(ns: Seq<NodeV>, es: Seq<EdgeV>)
    requires
        es.len() > 0,
        edges_sorted(es),
        sources_known(ns, es),
    ensures
        edges_sorted(es.drop_last()),
        sources_known(ns, es.drop_last()),
        forall|k: int|
            0 <= k < es.len() - 1 ==> lex_order((#[trigger] es[k]).source_id, es.last().source_id)
                <= 0,
        exists|i: int| 0 <= i < ns.len() && (#[trigger] ns[i]).id == es.last().source_id,
{
    reveal(edges_sorted);
    reveal(sources_known);
    let es0 = es.drop_last();
    assert forall|i: int, j: int| 0 <= i < j < es0.len() implies crate::graph::edge_order(
        es0[i],
        es0[j],
    ) <= 0 by {
        assert(es0[i] == es[i] && es0[j] == es[j]);
    }
    assert forall|k: int| 0 <= k < es0.len() implies exists|i: int|
        0 <= i < ns.len() && (#[trigger] ns[i]).id == (#[trigger] es0[k]).source_id by {
        assert(es0[k] == es[k]);
    }
    assert forall|k: int| 0 <= k < es.len() - 1 implies lex_order(
        (#[trigger] es[k]).source_id,
        es.last().source_id,
    ) <= 0 by {
        assert(es[es.len() - 1] == es.last());
        lemma_edge_order_source(es[k], es[es.len() - 1]);
    }
    assert(es[es.len() - 1] == es.last());
}

#[verifier::rlimit(40)]
proof fn lemma_blocks_all(ns: Seq<NodeV>, es: Seq<EdgeV>)
    requires
        ids_increasing(ns),
        edges_sorted(es),
        sources_known(ns, es),
    ensures
        blocks_of(ns, es) == es,
    decreases es.len(),
{
    if es.len() == 0 {
        lemma_blocks_empty(ns);
        assert(es =~= Seq::<EdgeV>::empty());
    } else {
        lemma_blocks_prefix(ns, es);
        lemma_blocks_all(ns, es.drop_last());
        let m = choose|i: int| 0 <= i < ns.len() && (#[trigger] ns[i]).id == es.last().source_id;
        lemma_blocks_push(ns, es, m);
        assert(es.drop_last().push(es.last()) =~= es);
    }
}

// ---------------------------------------------------------------------------
// The whole graph
// ---------------------------------------------------------------------------

/// Notes in the order the writer keeps them.
pub open spec fn notes_sorted(os: Seq<NoteV>) -> bool {
    forall|i: int, j: int|
        0 <= i < j < os.len() ==> #[trigger] crate::graph::note_order(os[i], os[j]) <= 0
}

/// The metadata a graph read from `.kg` text has: the file's name, the
/// default version and description, and its counts.
pub open spec fn read_metadata(g: GraphV) -> MetadataV {
    MetadataV {
        node_count: g.nodes.len(),
        edge_count: g.edges.len(),
        ..new_graph(g.metadata.name).metadata
    }
}

/// A graph that the `.kg` text form carries without loss: every node, edge
/// and note is writable, nodes are sorted by id without repeats, edges and
/// notes are in the writer's order, every edge starts at a node of the graph,
/// and the metadata is what reading gives.
pub open spec fn graph_writable(g: GraphV) -> bool {
    &&& forall|i: int| 0 <= i < g.nodes.len() ==> node_writable(#[trigger] g.nodes[i])
    &&& ids_increasing(g.nodes)
    &&& forall|k: int| 0 <= k < g.edges.len() ==> edge_writable(#[trigger] g.edges[k])
    &&& edges_sorted(g.edges)
    &&& sources_known(g.nodes, g.edges)
    &&& forall|i: int| 0 <= i < g.notes.len() ==> note_writable(#[trigger] g.notes[i])
    &&& notes_sorted(g.notes)
    &&& g.metadata == read_metadata(g)
}

proof fn lemma_normal_nodes(ns: Seq<NodeV>)
    requires
        forall|i: int| 0 <= i < ns.len() ==> node_writable(#[trigger] ns[i]),
    ensures
        ns.map_values(|n: NodeV| crate::kg_parse::normalize_node(n)) == ns,
{
    assert forall|i: int| 0 <= i < ns.len() implies crate::kg_parse::normalize_node(#[trigger] ns[i])
        == ns[i] by {
        let nd = ns[i];
        lemma_text_list_ok(nd.props.alias);
        lemma_text_list_ok(nd.props.key_facts);
        lemma_text_list_ok(nd.source_files);
        assert(crate::kg_parse::normalize_node(nd) =~= nd);
    }
    assert(ns.map_values(|n: NodeV| crate::kg_parse::normalize_node(n)) =~= ns);
}

proof fn lemma_normal_notes(os: Seq<NoteV>)
    requires
        forall|i: int| 0 <= i < os.len() ==> note_writable(#[trigger] os[i]),
    ensures
        os.map_values(|n: NoteV| crate::kg_parse::normalize_note(n)) == os,
{
    assert forall|i: int| 0 <= i < os.len() implies crate::kg_parse::normalize_note(#[trigger] os[i])
        == os[i] by {
        let o = os[i];
        lemma_text_list_ok(o.tags);
        lemma_text_list_ok(o.source_files);
        assert(crate::kg_parse::normalize_note(o) =~= o);
    }
    assert(os.map_values(|n: NoteV| crate::kg_parse::normalize_note(n)) =~= os);
}

proof fn lemma_sorted_parts(g: GraphV)
    requires
        graph_writable(g),
    ensures
        sorted_seq::<Node>(g.nodes) == g.nodes,
        sorted_seq::<Note>(g.notes) == g.notes,
        sorted_seq::<Edge>(g.edges) == g.edges,
        graph_list(g) == nodes_list(g.nodes, g.edges) + notes_list(g.notes),
{
    reveal(ids_increasing);
    reveal(edges_sorted);
    let ns = g.nodes;
    let os = g.notes;
    let es = g.edges;
    assert forall|i: int, j: int| 0 <= i < j < ns.len() implies !<Node as KeyOrder>::spec_after(
        ns[i],
        ns[j],
    ) by {}
    crate::sorting::lemma_sorted_identity::<Node>(ns);
    assert forall|i: int, j: int| 0 <= i < j < os.len() implies !<Note as KeyOrder>::spec_after(
        os[i],
        os[j],
    ) by {
        assert(crate::graph::note_order(os[i], os[j]) <= 0);
    }
    crate::sorting::lemma_sorted_identity::<Note>(os);
    assert forall|i: int, j: int| 0 <= i < j < es.len() implies !<Edge as KeyOrder>::spec_after(
        es[i],
        es[j],
    ) by {
        assert(crate::graph::edge_order(es[i], es[j]) <= 0);
    }
    crate::sorting::lemma_sorted_identity::<Edge>(es);
}

/// Reading back the text of a writable graph written field by field, in
/// the default mode and under the graph's own name, gives the same graph
/// and no warning.
pub proof fn law_read_written_text(g: GraphV)
    requires
        graph_writable(g),
    ensures
        crate::kg_parse::parse_kg_spec(written_text(g), g.metadata.name, false) == Ok::<
            (GraphV, Seq<Seq<char>>),
            Seq<char>,
        >((g, Seq::empty())),
{
    let name = g.metadata.name;
    let ns = g.nodes;
    let es = g.edges;
    let os = g.notes;
    lemma_serialize_lines(g);
    lemma_sorted_parts(g);
    let nl = nodes_list(ns, es);
    let ol = notes_list(os);
    let init = crate::kg_parse::initial_state(name);
    assert(flush(init) == init);
    lemma_run_nodes(init, 1, ns, es);
    let q1 = run(init, nl, 1, false)->Ok_0;
    lemma_run_notes(q1, 1 + nl.len(), os);
    lemma_run_concat(init, nl, ol, 1);
    let q2 = run(init, nl + ol, 1, false)->Ok_0;
    lemma_all_concat(nl, ol);
    lemma_lines_nl_join(graph_list(g));
    let g2 = flush(q2).graph;
    assert(Seq::<NodeV>::empty() + ns =~= ns);
    assert(Seq::<NoteV>::empty() + os =~= os);
    assert(Seq::<EdgeV>::empty() + node_edges(ns, es) =~= node_edges(ns, es));
    assert(g2.nodes == ns);
    assert(g2.notes == os);
    lemma_node_edges_blocks(ns, es);
    lemma_blocks_all(ns, es);
    assert(g2.edges == es);
    lemma_normal_nodes(ns);
    lemma_normal_notes(os);
    assert(crate::kg_parse::finish(q2) =~= g);
    assert(q2.warnings =~= Seq::<Seq<char>>::empty());
}

// ---------------------------------------------------------------------------
// Any order
// ---------------------------------------------------------------------------

proof fn lemma_lex_facts(a: Seq<char>, b: Seq<char>, c: Seq<char>)
    ensures
        lex_order(a, b) == -lex_order(b, a),
        (lex_order(a, b) == 0) == (a == b),
        lex_order(a, b) <= 0 && lex_order(b, c) <= 0 ==> lex_order(a, c) <= 0,
{
    crate::text::lemma_lex_order_antisym(a, b);
    crate::text::lemma_lex_order_eq(a, b);
    if lex_order(a, b) <= 0 && lex_order(b, c) <= 0 {
        crate::text::lemma_lex_order_trans(a, b, c);
    }
}

proof fn lemma_node_preorder()
    ensures
        crate::sorting::preorder_ok::<Node>(),
{
    assert forall|a: NodeV, b: NodeV| #[trigger] Node::spec_after(a, b) implies !Node::spec_after(b, a) by {
        lemma_lex_facts(a.id, b.id, b.id);
    }
    assert forall|a: NodeV, b: NodeV, c: NodeV| Node::spec_after(a, c) implies #[trigger] Node::spec_after(a, b)
        || #[trigger] Node::spec_after(b, c) by {
        lemma_lex_facts(a.id, b.id, c.id);
    }
}

proof fn lemma_edge_facts(a: EdgeV, b: EdgeV, c: EdgeV)
    ensures
        crate::graph::edge_order(a, b) == -crate::graph::edge_order(b, a),
        crate::graph::edge_order(a, b) <= 0 && crate::graph::edge_order(b, c) <= 0 ==> crate::graph::edge_order(a, c) <= 0,
{
    lemma_lex_facts(a.source_id, b.source_id, c.source_id);
    lemma_lex_facts(b.source_id, c.source_id, a.source_id);
    lemma_lex_facts(a.source_id, c.source_id, b.source_id);
    lemma_lex_facts(a.relation, b.relation, c.relation);
    lemma_lex_facts(b.relation, c.relation, a.relation);
    lemma_lex_facts(a.relation, c.relation, b.relation);
    lemma_lex_facts(a.target_id, b.target_id, c.target_id);
    lemma_lex_facts(b.target_id, c.target_id, a.target_id);
    lemma_lex_facts(a.target_id, c.target_id, b.target_id);
    lemma_lex_facts(a.props.detail, b.props.detail, c.props.detail);
    lemma_lex_facts(b.props.detail, c.props.detail, a.props.detail);
    lemma_lex_facts(a.props.detail, c.props.detail, b.props.detail);
}

proof fn lemma_edge_preorder()
    ensures
        crate::sorting::preorder_ok::<Edge>(),
{
    assert forall|a: EdgeV, b: EdgeV| #[trigger] Edge::spec_after(a, b) implies !Edge::spec_after(b, a) by {
        lemma_edge_facts(a, b, b);
    }
    assert forall|a: EdgeV, b: EdgeV, c: EdgeV| Edge::spec_after(a, c) implies #[trigger] Edge::spec_after(a, b)
        || #[trigger] Edge::spec_after(b, c) by {
        lemma_edge_facts(a, b, c);
    }
}

proof fn lemma_note_facts(a: NoteV, b: NoteV, c: NoteV)
    ensures
        crate::graph::note_order(a, b) == -crate::graph::note_order(b, a),
        crate::graph::note_order(a, b) <= 0 && crate::graph::note_order(b, c) <= 0 ==> crate::graph::note_order(a, c) <= 0,
{
    lemma_lex_facts(a.id, b.id, c.id);
    lemma_lex_facts(b.id, c.id, a.id);
    lemma_lex_facts(a.id, c.id, b.id);
    lemma_lex_facts(a.node_id, b.node_id, c.node_id);
    lemma_lex_facts(b.node_id, c.node_id, a.node_id);
    lemma_lex_facts(a.node_id, c.node_id, b.node_id);
    lemma_lex_facts(a.created_at, b.created_at, c.created_at);
    lemma_lex_facts(b.created_at, c.created_at, a.created_at);
    lemma_lex_facts(a.created_at, c.created_at, b.created_at);
}

proof fn lemma_note_preorder()
    ensures
        crate::sorting::preorder_ok::<Note>(),
{
    assert forall|a: NoteV, b: NoteV| #[trigger] Note::spec_after(a, b) implies !Note::spec_after(b, a) by {
        lemma_note_facts(a, b, b);
    }
    assert forall|a: NoteV, b: NoteV, c: NoteV| Note::spec_after(a, c) implies #[trigger] Note::spec_after(a, b)
        || #[trigger] Note::spec_after(b, c) by {
        lemma_note_facts(a, b, c);
    }
}

/// A graph whose parts the `.kg` text form carries, in any order: every
/// node, edge and note is writable, no two nodes share an id, and every
/// edge starts at a node of the graph.
pub open spec fn parts_writable(g: GraphV) -> bool {
    &&& forall|i: int| 0 <= i < g.nodes.len() ==> node_writable(#[trigger] g.nodes[i])
    &&& forall|i: int, j: int| 0 <= i < j < g.nodes.len() ==> #[trigger] g.nodes[i].id != #[trigger] g.nodes[j].id
    &&& forall|k: int| 0 <= k < g.edges.len() ==> edge_writable(#[trigger] g.edges[k])
    &&& sources_known(g.nodes, g.edges)
    &&& forall|i: int| 0 <= i < g.notes.len() ==> note_writable(#[trigger] g.notes[i])
}

/// The graph as reading gives it back: nodes, edges and notes in the
/// writer's order (a stable sort), and the metadata that reading sets.
pub open spec fn read_order(g: GraphV) -> GraphV {
    let g1 = GraphV {
        nodes: sorted_seq::<Node>(g.nodes),
        edges: sorted_seq::<Edge>(g.edges),
        notes: sorted_seq::<Note>(g.notes),
        ..g
    };
    GraphV { metadata: read_metadata(g1), ..g1 }
}

proof fn lemma_node_blocks_same(ns: Seq<NodeV>, e1: Seq<EdgeV>, e2: Seq<EdgeV>)
    requires
        forall|id: Seq<char>| #[trigger] outgoing(e1, id) == outgoing(e2, id),
    ensures
        node_blocks(ns, e1) == node_blocks(ns, e2),
    decreases ns.len(),
{
    if ns.len() > 0 {
        lemma_node_blocks_same(ns.drop_last(), e1, e2);
        assert(outgoing(e1, ns.last().id) == outgoing(e2, ns.last().id));
    }
}

proof fn lemma_read_order_writable(g: GraphV)
    requires
        parts_writable(g),
    ensures
        graph_writable(read_order(g)),
{
    let h = read_order(g);
    lemma_node_preorder();
    lemma_edge_preorder();
    lemma_note_preorder();
    crate::sorting::lemma_sorted_seq_props::<Node>(g.nodes);
    crate::sorting::lemma_sorted_seq_props::<Edge>(g.edges);
    crate::sorting::lemma_sorted_seq_props::<Note>(g.notes);
    assert forall|i: int, j: int|
        0 <= i < g.nodes.len() && 0 <= j < g.nodes.len() && i != j implies Node::spec_after(#[trigger] g.nodes[i], #[trigger] g.nodes[j])
            || Node::spec_after(g.nodes[j], g.nodes[i]) by {
        lemma_lex_facts(g.nodes[i].id, g.nodes[j].id, g.nodes[j].id);
        if i < j {
            assert(g.nodes[i].id != g.nodes[j].id);
        } else {
            assert(g.nodes[j].id != g.nodes[i].id);
        }
    }
    crate::sorting::lemma_sorted_no_ties::<Node>(g.nodes);
    assert forall|i: int| 0 <= i < h.nodes.len() implies node_writable(#[trigger] h.nodes[i]) by {
        assert(h.nodes.contains(h.nodes[i]));
        assert(g.nodes.contains(h.nodes[i]));
        let j = choose|j: int| 0 <= j < g.nodes.len() && g.nodes[j] == h.nodes[i];
        assert(node_writable(g.nodes[j]));
    }
    assert(ids_increasing(h.nodes)) by {
        reveal(ids_increasing);
        assert forall|i: int, j: int| 0 <= i < j < h.nodes.len() implies lex_order(h.nodes[i].id, h.nodes[j].id) < 0 by {
            assert(!Node::spec_after(h.nodes[i], h.nodes[j]));
            assert(Node::spec_after(h.nodes[i], h.nodes[j]) || Node::spec_after(h.nodes[j], h.nodes[i]));
            lemma_lex_facts(h.nodes[i].id, h.nodes[j].id, h.nodes[j].id);
        }
    }
    assert forall|k: int| 0 <= k < h.edges.len() implies edge_writable(#[trigger] h.edges[k]) by {
        assert(h.edges.contains(h.edges[k]));
        assert(g.edges.contains(h.edges[k]));
        let j = choose|j: int| 0 <= j < g.edges.len() && g.edges[j] == h.edges[k];
        assert(edge_writable(g.edges[j]));
    }
    assert(edges_sorted(h.edges)) by {
        reveal(edges_sorted);
        assert forall|i: int, j: int| 0 <= i < j < h.edges.len() implies #[trigger] crate::graph::edge_order(h.edges[i], h.edges[j]) <= 0 by {
            assert(!Edge::spec_after(h.edges[i], h.edges[j]));
        }
    }
    assert(sources_known(h.nodes, h.edges)) by {
        reveal(sources_known);
        assert forall|k: int| 0 <= k < h.edges.len() implies exists|i: int| 0 <= i < h.nodes.len() && (#[trigger] h.nodes[i]).id == (
            #[trigger] h.edges[k]).source_id by {
            assert(h.edges.contains(h.edges[k]));
            assert(g.edges.contains(h.edges[k]));
            let j = choose|j: int| 0 <= j < g.edges.len() && g.edges[j] == h.edges[k];
            assert(g.edges[j] == h.edges[k]);
            assert(sources_known(g.nodes, g.edges));
            assert(exists|i: int| 0 <= i < g.nodes.len() && (#[trigger] g.nodes[i]).id == g.edges[j].source_id);
            let i = choose|i: int| 0 <= i < g.nodes.len() && (#[trigger] g.nodes[i]).id == g.edges[j].source_id;
            assert(g.nodes.contains(g.nodes[i]));
            assert(h.nodes.contains(g.nodes[i]));
            let i2 = choose|i2: int| 0 <= i2 < h.nodes.len() && h.nodes[i2] == g.nodes[i];
            assert(h.nodes[i2].id == h.edges[k].source_id);
        }
    }
    assert forall|i: int| 0 <= i < h.notes.len() implies note_writable(#[trigger] h.notes[i]) by {
        assert(h.notes.contains(h.notes[i]));
        assert(g.notes.contains(h.notes[i]));
        let j = choose|j: int| 0 <= j < g.notes.len() && g.notes[j] == h.notes[i];
        assert(note_writable(g.notes[j]));
    }
    assert(notes_sorted(h.notes)) by {
        assert forall|i: int, j: int| 0 <= i < j < h.notes.len() implies #[trigger] crate::graph::note_order(h.notes[i], h.notes[j]) <= 0 by {
            assert(!Note::spec_after(h.notes[i], h.notes[j]));
        }
    }
    assert(h.metadata == read_metadata(h));
}

/// Reading back the field-by-field text of any graph whose parts are
/// writable gives the graph with its nodes, edges and notes in the
/// writer's order and the metadata that reading sets, and no warning.
pub proof fn law_read_written_text_any_order(g: GraphV)
    requires
        parts_writable(g),
    ensures
        crate::kg_parse::parse_kg_spec(written_text(g), g.metadata.name, false) == Ok::<
            (GraphV, Seq<Seq<char>>),
            Seq<char>,
        >((read_order(g), Seq::empty())),
{
    let h = read_order(g);
    lemma_read_order_writable(g);
    lemma_node_preorder();
    lemma_edge_preorder();
    lemma_note_preorder();
    crate::sorting::lemma_sorted_seq_props::<Node>(g.nodes);
    crate::sorting::lemma_sorted_seq_props::<Note>(g.notes);
    crate::sorting::lemma_sorted_identity::<Node>(h.nodes);
    crate::sorting::lemma_sorted_identity::<Note>(h.notes);
    assert forall|id: Seq<char>| #[trigger] outgoing(h.edges, id) == outgoing(g.edges, id) by {
        let p = |e: EdgeV| e.source_id == id;
        crate::sorting::lemma_sorted_filter::<Edge>(g.edges, p);
        crate::sorting::lemma_sorted_seq_props::<Edge>(g.edges.filter(p));
        crate::sorting::lemma_sorted_identity::<Edge>(sorted_seq::<Edge>(g.edges.filter(p)));
    }
    lemma_node_blocks_same(sorted_seq::<Node>(g.nodes), h.edges, g.edges);
    assert(written_text(h) == written_text(g));
    law_read_written_text(h);
}

/// Reading back the `.kg` text of a writable graph already in the form the
/// writer prints (lists in order, numbers as printed), in the default mode
/// and under the graph's own name, gives the same graph and no warning.
pub proof fn law_parse_serialize_roundtrip(g: GraphV)
    requires
        graph_writable(g),
        crate::kg_write::print_graph(g) == g,
    ensures
        crate::kg_parse::parse_kg_spec(crate::kg_write::serialize_spec(g), g.metadata.name, false) == Ok::<
            (GraphV, Seq<Seq<char>>),
            Seq<char>,
        >((g, Seq::empty())),
{
    law_read_written_text(g);
}

/// Reading back the `.kg` text of any graph, in the default mode and under
/// the graph's own name, gives the graph as the writer prints it (lists in
/// case-insensitive order, score components in label order with six
/// decimals, other numbers printed plainly) with its nodes, edges and notes
/// in the writer's order and the metadata that reading sets (its name, the
/// default version and description, fresh counts), and no warning, as long
/// as the printed parts are writable: no two nodes share an id, every edge
/// starts at a node, list items are distinct ignoring case, score labels
/// are distinct, and every field is one the text form carries.
pub proof fn law_parse_serialize_any_order(g: GraphV)
    requires
        parts_writable(crate::kg_write::print_graph(g)),
    ensures
        crate::kg_parse::parse_kg_spec(crate::kg_write::serialize_spec(g), g.metadata.name, false) == Ok::<
            (GraphV, Seq<Seq<char>>),
            Seq<char>,
        >((read_order(crate::kg_write::print_graph(g)), Seq::empty())),
{
    law_read_written_text_any_order(crate::kg_write::print_graph(g));
}

} // verus!
