//! Parsing of the line-oriented `.kg` graph format.
//!
//! A file is a sequence of blocks. `@ <type>:<id>` opens a node block,
//! `! <id> <node_id>` a note block; single-letter fields follow. Within a
//! node block `> <rel> <target>` and `= ~ <target>` open edges whose
//! `d`/`i`/`x`/`- edge_*` lines follow them. In strict mode every problem is
//! an error; otherwise recoverable problems are collected as warnings.
use vstd::prelude::*;
use crate::graph::{
    Edge, EdgeProperties, EdgePropsV, EdgeV, GraphFile, GraphV, MetadataV, Node, NodeProperties,
    NodePropsV, NodeV, Note, NoteV, assoc_insert, default_edge_props, default_node_props,
    empty_note, insert_score_component, new_graph, pairs_view, opt_view,
};
use crate::kg_codec::{
    code_node_type, code_relation, code_to_node_type, code_to_relation, decode_kg_text,
    decode_node_type_token, decode_text, decode_type_token, is_float_literal, is_float_literal_exec,
    is_utc_timestamp, parse_u64, parse_u64_spec, parse_utc_timestamp,
};
use crate::sorting::{normalize_list, normalize_text_list, sorted_seq, stable_sort, views};
use crate::text::{
    append_chars, append_str, char_is_ws, chars_eq, chars_eq_str, chars_of, contains_char,
    copy_chars, decimal, decimal_usize, is_ws, lex_order, lex_order_chars, lines, lines_exec,
    seqs_view, split_once, split_once_chars, starts_with_str, string_of, strip_prefix,
    strip_prefix_str, tokens, tokens_exec, trim, trim_chars,
};

verus! {

broadcast use vstd::string::group_string_axioms;

// ---------------------------------------------------------------------------
// Line-level helpers
// ---------------------------------------------------------------------------

/// The value after `key` and one space, or empty when the line is exactly `key`.
pub open spec fn field_value(line: Seq<char>, key: Seq<char>) -> Option<Seq<char>> {
    if line == key {
        Some(Seq::empty())
    } else {
        strip_prefix(line, key.push(' '))
    }
}

/// The trimmed line, cut after 160 characters with `...` appended.
pub open spec fn abbreviated(line: Seq<char>) -> Seq<char> {
    let t = trim(line);
    if t.len() > 160 {
        t.take(160) + "..."@
    } else {
        t
    }
}

/// The part of a line shown in a message.
pub open spec fn fragment(line: Seq<char>) -> Seq<char> {
    let s = abbreviated(line);
    if s.len() == 0 {
        "fragment: <empty line>"@
    } else {
        "fragment: "@ + s
    }
}

/// A message of the shape `<prefix><line number><suffix>`.
pub open spec fn line_msg(prefix: Seq<char>, n: nat, suffix: Seq<char>) -> Seq<char> {
    prefix + decimal(n) + suffix
}

/// The message of `enforce_field_order`.
pub open spec fn order_msg(n: nat, key: Seq<char>, section: Seq<char>, raw: Seq<char>) -> Seq<char> {
    line_msg("invalid field order at line "@, n, ": "@ + key + " in "@ + section + " block\n"@ + fragment(raw))
}

/// The new last rank, or an error in strict mode when
/// the field comes after a field of higher rank.
pub open spec fn order_check(last: nat, rank: nat, strict: bool, msg: Seq<char>) -> Result<nat, Seq<char>> {
    if strict && rank < last {
        Err(msg)
    } else if rank > last {
        Ok(rank)
    } else {
        Ok(last)
    }
}

/// The message of `validate_len`.
pub open spec fn len_msg(n: nat, field: Seq<char>, value: Seq<char>, raw: Seq<char>, min: nat, max: nat) -> Seq<char> {
    line_msg("invalid "@ + field + " length at line "@, n, ": expected "@ + decimal(min) + "..="@
        + decimal(max) + ", got "@ + decimal(value.len()) + "\n"@ + fragment(raw))
}

/// In strict mode the value must have `min..=max` characters.
pub open spec fn len_ok(value: Seq<char>, min: nat, max: nat, strict: bool) -> bool {
    !(strict && (value.len() < min || value.len() > max))
}

/// `C` followed by one or more ASCII digits.
pub open spec fn is_score_label(s: Seq<char>) -> bool {
    &&& s.len() >= 2
    &&& s[0] == 'C'
    &&& forall|i: int| 1 <= i < s.len() ==> crate::text::is_digit(#[trigger] s[i])
}

/// The smaller id first.
pub open spec fn canonical_pair(a: Seq<char>, b: Seq<char>) -> (Seq<char>, Seq<char>) {
    if lex_order(a, b) <= 0 {
        (a, b)
    } else {
        (b, a)
    }
}

/// The key and value of a `- <key> <value>` line: split at the first
/// whitespace character, key trimmed.
pub open spec fn custom_split(rest: Seq<char>) -> (Seq<char>, Seq<char>) {
    let w = crate::text::ws_index_from(rest, 0);
    if w < rest.len() {
        (trim(rest.take(w)), rest.skip(w + 1))
    } else {
        (trim(rest), Seq::empty())
    }
}

// ---------------------------------------------------------------------------
// Parser state
// ---------------------------------------------------------------------------

/// The state of the parser between lines.
#[verifier::ext_equal]
pub struct ParserV {
    pub graph: GraphV,
    pub warnings: Seq<Seq<char>>,
    pub node: Option<NodeV>,
    pub note: Option<NoteV>,
    /// Whether the last edge of the graph is the edge that detail lines apply to.
    pub edge_open: bool,
    pub node_rank: nat,
    pub note_rank: nat,
    pub edge_rank: nat,
}

/// The state before the first line.
pub open spec fn initial_state(name: Seq<char>) -> ParserV {
    ParserV {
        graph: new_graph(name),
        warnings: Seq::empty(),
        node: None,
        note: None,
        edge_open: false,
        node_rank: 0,
        note_rank: 0,
        edge_rank: 0,
    }
}

/// The parser's consistency: an open edge is the graph's last edge.
pub open spec fn state_ok(p: ParserV) -> bool {
    p.edge_open ==> p.graph.edges.len() > 0
}

/// An error in strict mode, otherwise the message is recorded.
pub open spec fn warn(p: ParserV, strict: bool, msg: Seq<char>) -> Result<ParserV, Seq<char>> {
    if strict {
        Err(msg)
    } else {
        Ok(ParserV { warnings: p.warnings.push(msg), ..p })
    }
}

/// Moves the open node and note (if any) into the graph.
pub open spec fn flush(p: ParserV) -> ParserV {
    let g1 = match p.note {
        Some(n) => GraphV { notes: p.graph.notes.push(n), ..p.graph },
        None => p.graph,
    };
    let g2 = match p.node {
        Some(n) => GraphV { nodes: g1.nodes.push(n), ..g1 },
        None => g1,
    };
    ParserV { graph: g2, node: None, note: None, ..p }
}

/// Replaces the last edge of the graph.
pub open spec fn set_last_edge(p: ParserV, e: EdgeV) -> ParserV {
    ParserV {
        graph: GraphV { edges: p.graph.edges.update(p.graph.edges.len() - 1, e), ..p.graph },
        ..p
    }
}

/// The last edge of the graph.
pub open spec fn last_edge(p: ParserV) -> EdgeV {
    p.graph.edges.last()
}

// ---------------------------------------------------------------------------
// Block headers
// ---------------------------------------------------------------------------

/// The id of a node header `@ <tc>:<raw_id>`: ids that contain `:` are kept;
/// otherwise the id is prefixed by the type code (when it is a known code)
/// or by the decoded type.
pub open spec fn header_id(tc: Seq<char>, raw_id: Seq<char>) -> Seq<char> {
    if raw_id.contains(':') {
        raw_id
    } else if code_node_type(tc) != tc {
        tc + ":"@ + raw_id
    } else {
        decode_type_token(tc) + ":"@ + raw_id
    }
}

/// A `@ ` line whose text after `@ ` is `rest`.
pub open spec fn step_node_header(p: ParserV, n: nat, t: Seq<char>, rest: Seq<char>, strict: bool) -> Result<ParserV, Seq<char>> {
    let q = flush(p);
    match split_once(rest, ':') {
        None => warn(ParserV { edge_open: false, ..q }, strict, line_msg("invalid node header at line "@, n, ": "@ + t)),
        Some((tc0, id0)) => {
            let tc = trim(tc0);
            let raw_id = trim(id0);
            let node = NodeV {
                id: header_id(tc, raw_id),
                node_type: decode_type_token(tc),
                name: Seq::empty(),
                props: default_node_props(),
                source_files: Seq::empty(),
            };
            Ok(ParserV { node: Some(node), edge_open: false, node_rank: 0, edge_rank: 0, ..q })
        },
    }
}

/// A `! ` line whose text after `! ` is `rest`.
pub open spec fn step_note_header(p: ParserV, n: nat, t: Seq<char>, rest: Seq<char>, strict: bool) -> Result<ParserV, Seq<char>> {
    let q = flush(p);
    let toks = tokens(rest);
    if toks.len() < 2 {
        warn(ParserV { edge_open: false, ..q }, strict, line_msg("invalid note header at line "@, n, ": "@ + t))
    } else {
        Ok(ParserV { note: Some(empty_note(toks[0], toks[1])), edge_open: false, note_rank: 0, ..q })
    }
}

// ---------------------------------------------------------------------------
// Note fields
// ---------------------------------------------------------------------------

/// The note field keys in their rank order.
pub open spec fn note_key(k: nat) -> Seq<char> {
    if k == 1 { "b"@ } else if k == 2 { "t"@ } else if k == 3 { "a"@ } else if k == 4 { "e"@ } else if k == 5 { "p"@ } else { "s"@ }
}

/// The first note field key (by rank) that the line carries, or 0.
pub open spec fn note_field_kind(raw: Seq<char>) -> nat {
    if field_value(raw, "b"@) is Some { 1 }
    else if field_value(raw, "t"@) is Some { 2 }
    else if field_value(raw, "a"@) is Some { 3 }
    else if field_value(raw, "e"@) is Some { 4 }
    else if field_value(raw, "p"@) is Some { 5 }
    else if field_value(raw, "s"@) is Some { 6 }
    else { 0 }
}

/// A note with the field of kind `k` set from `rest`.
pub open spec fn set_note_field(note: NoteV, k: nat, rest: Seq<char>) -> NoteV {
    let v = decode_text(rest);
    if k == 1 {
        NoteV { body: v, ..note }
    } else if k == 2 {
        if v.len() > 0 { NoteV { tags: note.tags.push(v), ..note } } else { note }
    } else if k == 3 {
        NoteV { author: v, ..note }
    } else if k == 4 {
        NoteV { created_at: trim(rest), ..note }
    } else if k == 5 {
        NoteV { provenance: v, ..note }
    } else {
        if v.len() > 0 { NoteV { source_files: note.source_files.push(v), ..note } } else { note }
    }
}

/// A line inside a note block.
pub open spec fn step_note_line(p: ParserV, n: nat, raw: Seq<char>, t: Seq<char>, strict: bool) -> Result<ParserV, Seq<char>> {
    let k = note_field_kind(raw);
    if k == 0 {
        warn(p, strict, line_msg("unrecognized note line at "@, n, ": "@ + t))
    } else {
        let key = note_key(k);
        let rest = field_value(raw, key)->0;
        match order_check(p.note_rank, k, strict, order_msg(n, key, "note"@, raw)) {
            Err(e) => Err(e),
            Ok(r) => Ok(ParserV { note: Some(set_note_field(p.note->0, k, rest)), note_rank: r, ..p }),
        }
    }
}

// ---------------------------------------------------------------------------
// Node fields and edges
// ---------------------------------------------------------------------------

/// What a line in a node block is, in the order the parser tries them:
/// 1 `N`, 2 `D`, 3 `A`, 4 `F`, 5 `E`, 6 `C`, 7 `V`, 8 `P`, 9 `S`,
/// 10 `> `, 11 `= `, 12 `d`, 13 `i`, 14 `x`, 15 `-`, 0 unrecognized.
pub open spec fn node_line_kind(raw: Seq<char>, t: Seq<char>) -> nat {
    if field_value(raw, "N"@) is Some { 1 }
    else if field_value(raw, "D"@) is Some { 2 }
    else if field_value(raw, "A"@) is Some { 3 }
    else if field_value(raw, "F"@) is Some { 4 }
    else if field_value(raw, "E"@) is Some { 5 }
    else if field_value(raw, "C"@) is Some { 6 }
    else if field_value(raw, "V"@) is Some { 7 }
    else if field_value(raw, "P"@) is Some { 8 }
    else if field_value(raw, "S"@) is Some { 9 }
    else if strip_prefix(t, "> "@) is Some { 10 }
    else if strip_prefix(t, "= "@) is Some { 11 }
    else if field_value(raw, "d"@) is Some { 12 }
    else if field_value(raw, "i"@) is Some { 13 }
    else if field_value(raw, "x"@) is Some { 14 }
    else if field_value(raw, "-"@) is Some { 15 }
    else { 0 }
}

/// The field key of a node line kind 1..=9 and 12..=15.
pub open spec fn node_key(k: nat) -> Seq<char> {
    if k == 1 { "N"@ } else if k == 2 { "D"@ } else if k == 3 { "A"@ } else if k == 4 { "F"@ }
    else if k == 5 { "E"@ } else if k == 6 { "C"@ } else if k == 7 { "V"@ } else if k == 8 { "P"@ }
    else if k == 9 { "S"@ } else if k == 12 { "d"@ } else if k == 13 { "i"@ } else if k == 14 { "x"@ }
    else { "-"@ }
}

/// The rank of a node field kind (the order fields must follow in strict mode).
pub open spec fn node_rank_of(k: nat) -> nat {
    if k == 9 { 10 } else { k }
}

/// Length bounds of the length-checked node text fields.
pub open spec fn text_min(k: nat) -> nat { 1 }

pub open spec fn text_max(k: nat) -> nat {
    if k == 1 { 120 } else if k == 3 { 80 } else { 200 }
}

/// A node with a text field (`N`, `D`, `A`, `F`, `P`, `S`) set from the decoded value.
pub open spec fn set_node_text(node: NodeV, k: nat, v: Seq<char>) -> NodeV {
    if k == 1 {
        NodeV { name: v, ..node }
    } else if k == 2 {
        NodeV { props: NodePropsV { description: v, ..node.props }, ..node }
    } else if k == 3 {
        NodeV { props: NodePropsV { alias: node.props.alias.push(v), ..node.props }, ..node }
    } else if k == 4 {
        NodeV { props: NodePropsV { key_facts: node.props.key_facts.push(v), ..node.props }, ..node }
    } else if k == 8 {
        NodeV { props: NodePropsV { provenance: v, ..node.props }, ..node }
    } else {
        NodeV { source_files: node.source_files.push(v), ..node }
    }
}

/// Text fields `N`, `D`, `A`, `F`, `S` (length-checked) and `P`.
pub open spec fn step_text_field(p: ParserV, n: nat, raw: Seq<char>, k: nat, r: nat, rest: Seq<char>, strict: bool) -> Result<ParserV, Seq<char>> {
    let v = decode_text(rest);
    if k != 8 && !len_ok(v, text_min(k), text_max(k), strict) {
        Err(len_msg(n, node_key(k), v, raw, text_min(k), text_max(k)))
    } else {
        Ok(ParserV { node: Some(set_node_text(p.node->0, k, v)), node_rank: r, ..p })
    }
}

/// `E`: a creation timestamp, ignored (with a warning) when malformed.
pub open spec fn step_created_at(p: ParserV, n: nat, raw: Seq<char>, r: nat, rest: Seq<char>, strict: bool) -> Result<ParserV, Seq<char>> {
    let v = trim(rest);
    let q = ParserV { node_rank: r, ..p };
    if v.len() > 0 && !is_utc_timestamp(v) {
        warn(q, strict, line_msg("invalid E timestamp at line "@, n, ": expected YYYY-MM-DDTHH:MM:SSZ\n"@ + fragment(raw)))
    } else {
        let node = p.node->0;
        Ok(ParserV { node: Some(NodeV { props: NodePropsV { created_at: v, ..node.props }, ..node }), ..q })
    }
}

/// `C` and `V`: confidence (absent when not a number) and importance (kept when not a number).
pub open spec fn set_node_number(node: NodeV, k: nat, rest: Seq<char>) -> NodeV {
    let v = trim(rest);
    if k == 6 {
        if v.len() > 0 {
            NodeV { props: NodePropsV { confidence: if is_float_literal(v) { Some(v) } else { None }, ..node.props }, ..node }
        } else {
            node
        }
    } else {
        if is_float_literal(v) {
            NodeV { props: NodePropsV { importance: v, ..node.props }, ..node }
        } else {
            node
        }
    }
}

/// The edge opened by `> <rel> <target>` in the block of `node`.
pub open spec fn directed_edge(node: NodeV, rel: Seq<char>, target: Seq<char>) -> EdgeV {
    EdgeV {
        source_id: node.id,
        relation: code_relation(rel),
        target_id: target,
        props: default_edge_props(),
    }
}

/// The edge opened by `= ~ <target>` in the block of `node`.
pub open spec fn similarity_edge(node: NodeV, target: Seq<char>) -> EdgeV {
    let pair = canonical_pair(node.id, target);
    EdgeV {
        source_id: pair.0,
        relation: "~"@,
        target_id: pair.1,
        props: EdgePropsV { bidirectional: true, ..default_edge_props() },
    }
}

/// Appends an edge and makes it the open edge.
pub open spec fn open_edge(p: ParserV, e: EdgeV) -> ParserV {
    ParserV {
        graph: GraphV { edges: p.graph.edges.push(e), ..p.graph },
        edge_open: true,
        edge_rank: 0,
        ..p
    }
}

/// `> ` lines.
pub open spec fn step_directed(p: ParserV, n: nat, t: Seq<char>, strict: bool) -> Result<ParserV, Seq<char>> {
    let toks = tokens(strip_prefix(t, "> "@)->0);
    let q = ParserV { edge_open: false, ..p };
    if toks.len() == 0 {
        warn(q, strict, line_msg("missing relation in edge at line "@, n, ": "@ + t))
    } else if toks.len() == 1 {
        warn(q, strict, line_msg("missing target id in edge at line "@, n, ": "@ + t))
    } else {
        Ok(open_edge(p, directed_edge(p.node->0, toks[0], toks[1])))
    }
}

/// `= ` lines.
pub open spec fn step_similarity(p: ParserV, n: nat, t: Seq<char>, strict: bool) -> Result<ParserV, Seq<char>> {
    let toks = tokens(strip_prefix(t, "= "@)->0);
    let q = ParserV { edge_open: false, ..p };
    if toks.len() == 0 {
        warn(q, strict, line_msg("missing relation in bidirectional edge at line "@, n, ": "@ + t))
    } else if toks.len() == 1 {
        warn(q, strict, line_msg("missing target id in bidirectional edge at line "@, n, ": "@ + t))
    } else if code_relation(toks[0]) != "~"@ {
        warn(q, strict, line_msg("invalid bidirectional relation at line "@, n, ": expected '~', got '"@ + code_relation(toks[0]) + "'"@))
    } else {
        Ok(open_edge(p, similarity_edge(p.node->0, toks[1])))
    }
}

/// `d`: a score component `C<digits> <number>` or the edge detail text.
pub open spec fn step_detail(p: ParserV, n: nat, raw: Seq<char>, r: nat, rest: Seq<char>, strict: bool) -> Result<ParserV, Seq<char>> {
    let q = ParserV { edge_rank: r, ..p };
    if !p.edge_open {
        warn(q, strict, line_msg("edge detail without preceding edge at line "@, n, "\n"@ + fragment(raw)))
    } else {
        let toks = tokens(trim(rest));
        let e = last_edge(q);
        if toks.len() == 2 && is_score_label(toks[0]) {
            if is_float_literal(toks[1]) {
                Ok(set_last_edge(q, EdgeV { props: EdgePropsV { score_components: assoc_insert(e.props.score_components, toks[0], toks[1]), ..e.props }, ..e }))
            } else {
                Err(line_msg("invalid score component value at line "@, n, ": expected number in '"@ + fragment(raw) + "', got '"@ + toks[1] + "'"@))
            }
        } else {
            let v = decode_text(rest);
            if !len_ok(v, 1, 200, strict) {
                Err(len_msg(n, "d"@, v, raw, 1, 200))
            } else {
                Ok(set_last_edge(q, EdgeV { props: EdgePropsV { detail: v, ..e.props }, ..e }))
            }
        }
    }
}

/// `i` and `x`: edge validity bounds, ignored (with a warning) when malformed.
pub open spec fn step_validity(p: ParserV, n: nat, raw: Seq<char>, k: nat, r: nat, rest: Seq<char>, strict: bool) -> Result<ParserV, Seq<char>> {
    let q = ParserV { edge_rank: r, ..p };
    let what = if k == 13 { "edge valid_from without preceding edge at line "@ } else { "edge valid_to without preceding edge at line "@ };
    let bad = if k == 13 { "invalid i timestamp at line "@ } else { "invalid x timestamp at line "@ };
    if !p.edge_open {
        warn(q, strict, line_msg(what, n, "\n"@ + fragment(raw)))
    } else {
        let v = trim(rest);
        if v.len() > 0 && !is_utc_timestamp(v) {
            warn(q, strict, line_msg(bad, n, ": expected YYYY-MM-DDTHH:MM:SSZ\n"@ + fragment(raw)))
        } else {
            let e = last_edge(q);
            let e2 = if k == 13 {
                EdgeV { props: EdgePropsV { valid_from: v, ..e.props }, ..e }
            } else {
                EdgeV { props: EdgePropsV { valid_to: v, ..e.props }, ..e }
            };
            Ok(set_last_edge(q, e2))
        }
    }
}

/// The float text a feedback score line stores: the trimmed value when it is a number, else `0`.
pub open spec fn score_text(value: Seq<char>) -> Seq<char> {
    if is_float_literal(trim(value)) { trim(value) } else { "0"@ }
}

/// Whether a `-` key belongs to the open edge.
pub open spec fn is_edge_custom(key: Seq<char>) -> bool {
    key == "edge_feedback_score"@ || key == "edge_feedback_count"@ || key == "edge_feedback_last_ts_ms"@
}

/// The effect of a `- <key> <value>` line on the node and the open edge.
pub open spec fn apply_custom(p: ParserV, key: Seq<char>, value: Seq<char>) -> ParserV {
    let node = p.node->0;
    let e = last_edge(p);
    if key == "domain_area"@ {
        ParserV { node: Some(NodeV { props: NodePropsV { domain_area: decode_text(value), ..node.props }, ..node }), ..p }
    } else if key == "feedback_score"@ {
        ParserV { node: Some(NodeV { props: NodePropsV { feedback_score: score_text(value), ..node.props }, ..node }), ..p }
    } else if key == "feedback_count"@ {
        ParserV { node: Some(NodeV { props: NodePropsV { feedback_count: match parse_u64_spec(trim(value)) { Some(x) => x, None => 0 }, ..node.props }, ..node }), ..p }
    } else if key == "feedback_last_ts_ms"@ {
        ParserV { node: Some(NodeV { props: NodePropsV { feedback_last_ts_ms: parse_u64_spec(trim(value)), ..node.props }, ..node }), ..p }
    } else if key == "edge_feedback_score"@ && p.edge_open {
        set_last_edge(p, EdgeV { props: EdgePropsV { feedback_score: score_text(value), ..e.props }, ..e })
    } else if key == "edge_feedback_count"@ && p.edge_open {
        set_last_edge(p, EdgeV { props: EdgePropsV { feedback_count: match parse_u64_spec(trim(value)) { Some(x) => x, None => 0 }, ..e.props }, ..e })
    } else if key == "edge_feedback_last_ts_ms"@ && p.edge_open {
        set_last_edge(p, EdgeV { props: EdgePropsV { feedback_last_ts_ms: parse_u64_spec(trim(value)), ..e.props }, ..e })
    } else {
        p
    }
}

/// `- <key> <value>` lines.
pub open spec fn step_custom(p: ParserV, n: nat, raw: Seq<char>, rest: Seq<char>, strict: bool) -> Result<ParserV, Seq<char>> {
    let kv = custom_split(rest);
    if is_edge_custom(kv.0) {
        match order_check(p.edge_rank, 4, strict, order_msg(n, "-"@, "edge"@, raw)) {
            Err(e) => Err(e),
            Ok(r) => Ok(apply_custom(ParserV { edge_rank: r, ..p }, kv.0, kv.1)),
        }
    } else {
        match order_check(p.node_rank, 9, strict, order_msg(n, "-"@, "node"@, raw)) {
            Err(e) => Err(e),
            Ok(r) => Ok(apply_custom(ParserV { node_rank: r, ..p }, kv.0, kv.1)),
        }
    }
}

/// A line inside a node block (no note open).
pub open spec fn step_node_line(p: ParserV, n: nat, raw: Seq<char>, t: Seq<char>, strict: bool) -> Result<ParserV, Seq<char>> {
    let k = node_line_kind(raw, t);
    if k == 0 {
        warn(p, strict, line_msg("unrecognized line at "@, n, ": "@ + t))
    } else if k == 10 {
        step_directed(p, n, t, strict)
    } else if k == 11 {
        step_similarity(p, n, t, strict)
    } else {
        let key = node_key(k);
        let rest = field_value(raw, key)->0;
        if k == 15 {
            step_custom(p, n, raw, rest, strict)
        } else if k >= 12 {
            match order_check(p.edge_rank, (k - 11) as nat, strict, order_msg(n, key, "edge"@, raw)) {
                Err(e) => Err(e),
                Ok(r) => if k == 12 {
                    step_detail(p, n, raw, r, rest, strict)
                } else {
                    step_validity(p, n, raw, k, r, rest, strict)
                },
            }
        } else {
            match order_check(p.node_rank, node_rank_of(k), strict, order_msg(n, key, "node"@, raw)) {
                Err(e) => Err(e),
                Ok(r) => if k == 5 {
                    step_created_at(p, n, raw, r, rest, strict)
                } else if k == 6 || k == 7 {
                    Ok(ParserV { node: Some(set_node_number(p.node->0, k, rest)), node_rank: r, ..p })
                } else {
                    step_text_field(p, n, raw, k, r, rest, strict)
                },
            }
        }
    }
}

/// One line of input (numbered `n` from 1).
#[verifier::opaque]
pub open spec fn step(p: ParserV, n: nat, line: Seq<char>, strict: bool) -> Result<ParserV, Seq<char>> {
    let raw = crate::text::strip_cr(line);
    let t = trim(raw);
    if t.len() == 0 || t[0] == '#' {
        Ok(p)
    } else if strip_prefix(t, "@ "@) is Some {
        step_node_header(p, n, t, strip_prefix(t, "@ "@)->0, strict)
    } else if strip_prefix(t, "! "@) is Some {
        step_note_header(p, n, t, strip_prefix(t, "! "@)->0, strict)
    } else if p.note is Some {
        step_note_line(p, n, raw, t, strict)
    } else if p.node is None {
        warn(p, strict, line_msg("unexpected line before first node at line "@, n, ": "@ + t))
    } else {
        step_node_line(p, n, raw, t, strict)
    }
}

/// Runs the parser over `lines`, the first of which has number `n`.
pub open spec fn run(p: ParserV, lines: Seq<Seq<char>>, n: nat, strict: bool) -> Result<ParserV, Seq<char>>
    decreases lines.len(),
{
    if lines.len() == 0 {
        Ok(p)
    } else {
        match step(p, n, lines[0], strict) {
            Err(e) => Err(e),
            Ok(q) => run(q, lines.drop_first(), n + 1, strict),
        }
    }
}

/// A node with its alias, fact and source lists de-duplicated and sorted.
pub open spec fn normalize_node(node: NodeV) -> NodeV {
    NodeV {
        props: NodePropsV {
            alias: normalize_list(node.props.alias),
            key_facts: normalize_list(node.props.key_facts),
            ..node.props
        },
        source_files: normalize_list(node.source_files),
        ..node
    }
}

/// A note with its tag and source lists de-duplicated and sorted.
pub open spec fn normalize_note(note: NoteV) -> NoteV {
    NoteV {
        tags: normalize_list(note.tags),
        source_files: normalize_list(note.source_files),
        ..note
    }
}

/// The graph after the last line: lists normalized, edges and notes sorted, counts refreshed.
pub open spec fn finish(p: ParserV) -> GraphV {
    let g = flush(p).graph;
    let nodes = g.nodes.map_values(|n: NodeV| normalize_node(n));
    let edges = sorted_seq::<Edge>(g.edges);
    let notes = sorted_seq::<Note>(g.notes.map_values(|n: NoteV| normalize_note(n)));
    GraphV {
        metadata: MetadataV { node_count: nodes.len(), edge_count: edges.len(), ..g.metadata },
        nodes,
        edges,
        notes,
    }
}

/// The graph and the warnings, or the first error.
pub open spec fn parse_kg_spec(raw: Seq<char>, name: Seq<char>, strict: bool) -> Result<(GraphV, Seq<Seq<char>>), Seq<char>> {
    match run(initial_state(name), lines(raw), 1, strict) {
        Err(e) => Err(e),
        Ok(p) => Ok((finish(p), p.warnings)),
    }
}


// ---------------------------------------------------------------------------
// Executable parser
// ---------------------------------------------------------------------------

/// The parser's state between lines.
pub struct KgParser {
    pub graph: GraphFile,
    pub warnings: Vec<String>,
    pub node: Option<Node>,
    pub note: Option<Note>,
    pub edge_open: bool,
    pub node_rank: u8,
    pub note_rank: u8,
    pub edge_rank: u8,
}

/// The view of an optional node.
pub open spec fn opt_node_view(o: Option<Node>) -> Option<NodeV> {
    match o {
        Some(n) => Some(n@),
        None => None,
    }
}

/// The view of an optional note.
pub open spec fn opt_note_view(o: Option<Note>) -> Option<NoteV> {
    match o {
        Some(n) => Some(n@),
        None => None,
    }
}

impl View for KgParser {
    type V = ParserV;

    open spec fn view(&self) -> ParserV {
        ParserV {
            graph: self.graph@,
            warnings: views(self.warnings@),
            node: opt_node_view(self.node),
            note: opt_note_view(self.note),
            edge_open: self.edge_open,
            node_rank: self.node_rank as nat,
            note_rank: self.note_rank as nat,
            edge_rank: self.edge_rank as nat,
        }
    }
}

/// Whether an executable step's result matches the specified step.
pub open spec fn outcome(r: Result<(), String>, after: ParserV, expected: Result<ParserV, Seq<char>>) -> bool {
    match r {
        Ok(_) => expected == Ok::<ParserV, Seq<char>>(after),
        Err(e) => expected == Err::<ParserV, Seq<char>>(e@),
    }
}

fn line_msg_exec(prefix: &str, n: usize, suffix: &[char]) -> (r: Vec<char>)
    ensures
        r@ == line_msg(prefix@, n as nat, suffix@),
{
    let mut out = chars_of(prefix);
    let d = decimal_usize(n);
    append_chars(&mut out, d.as_slice());
    append_chars(&mut out, suffix);
    out
}

fn concat_str(a: &str, b: &[char]) -> (r: Vec<char>)
    ensures
        r@ == a@ + b@,
{
    let mut out = chars_of(a);
    append_chars(&mut out, b);
    out
}

/// A line trimmed and shortened for a message.
pub fn abbreviated_line(line: &[char]) -> (r: Vec<char>)
    ensures
        r@ == abbreviated(line@),
{
    let t = trim_chars(line);
    if t.len() > 160 {
        let mut out = copy_chars(t.as_slice(), 0, 160);
        append_str(&mut out, "...");
        out
    } else {
        t
    }
}

/// The part of a line shown in a message.
pub fn line_fragment(line: &[char]) -> (r: Vec<char>)
    ensures
        r@ == fragment(line@),
{
    let s = abbreviated_line(line);
    if s.len() == 0 {
        chars_of("fragment: <empty line>")
    } else {
        concat_str("fragment: ", s.as_slice())
    }
}

/// The value of a field line with the given key.
pub fn field_value_exec(line: &[char], key: &str) -> (r: Option<Vec<char>>)
    ensures
        match r {
            Some(v) => field_value(line@, key@) == Some(v@),
            None => field_value(line@, key@) is None,
        },
{
    if chars_eq_str(line, key) {
        return Some(Vec::new());
    }
    let mut k = chars_of(key);
    k.push(' ');
    if crate::text::starts_with(line, k.as_slice()) {
        Some(copy_chars(line, k.len(), line.len()))
    } else {
        None
    }
}

fn order_check_exec(last: u8, rank: u8, strict: bool, n: usize, key: &str, section: &str, raw: &[char]) -> (r: Result<u8, String>)
    ensures
        match r {
            Ok(x) => order_check(last as nat, rank as nat, strict, order_msg(n as nat, key@, section@, raw@)) == Ok::<nat, Seq<char>>(x as nat),
            Err(e) => order_check(last as nat, rank as nat, strict, order_msg(n as nat, key@, section@, raw@)) == Err::<nat, Seq<char>>(e@),
        },
{
    if strict && rank < last {
        let mut tail = chars_of(": ");
        append_str(&mut tail, key);
        append_str(&mut tail, " in ");
        append_str(&mut tail, section);
        append_str(&mut tail, " block\n");
        let f = line_fragment(raw);
        append_chars(&mut tail, f.as_slice());
        let m = line_msg_exec("invalid field order at line ", n, tail.as_slice());
        Err(string_of(m.as_slice()))
    } else if rank > last {
        Ok(rank)
    } else {
        Ok(last)
    }
}

fn len_msg_exec(n: usize, field: &str, value: &[char], raw: &[char], min: usize, max: usize) -> (r: Vec<char>)
    ensures
        r@ == len_msg(n as nat, field@, value@, raw@, min as nat, max as nat),
{
    let mut prefix = chars_of("invalid ");
    append_str(&mut prefix, field);
    append_str(&mut prefix, " length at line ");
    let d = decimal_usize(n);
    append_chars(&mut prefix, d.as_slice());
    append_str(&mut prefix, ": expected ");
    let a = decimal_usize(min);
    append_chars(&mut prefix, a.as_slice());
    append_str(&mut prefix, "..=");
    let b = decimal_usize(max);
    append_chars(&mut prefix, b.as_slice());
    append_str(&mut prefix, ", got ");
    let c = decimal_usize(value.len());
    append_chars(&mut prefix, c.as_slice());
    append_str(&mut prefix, "\n");
    let f = line_fragment(raw);
    append_chars(&mut prefix, f.as_slice());
    proof {
        let fx = field@;
        assert(prefix@ =~= len_msg(n as nat, field@, value@, raw@, min as nat, max as nat));
    }
    prefix
}

/// Whether the text labels a score component: `C` and digits.
pub fn is_score_component_label(s: &[char]) -> (r: bool)
    ensures
        r == is_score_label(s@),
{
    if s.len() < 2 || s[0] != 'C' {
        return false;
    }
    let mut i: usize = 1;
    while i < s.len()
        invariant
            1 <= i <= s.len(),
            forall|j: int| 1 <= j < i ==> crate::text::is_digit(#[trigger] s@[j]),
        decreases s.len() - i,
    {
        if !('0' <= s[i] && s[i] <= '9') {
            return false;
        }
        i += 1;
    }
    true
}

/// The two ids of a bidirectional edge, the smaller first.
pub fn canonicalize_bidirectional_pair(a: &[char], b: &[char]) -> (r: (Vec<char>, Vec<char>))
    ensures
        (r.0@, r.1@) == canonical_pair(a@, b@),
{
    if lex_order_chars(a, b) <= 0 {
        (copy_chars(a, 0, a.len()), copy_chars(b, 0, b.len()))
    } else {
        (copy_chars(b, 0, b.len()), copy_chars(a, 0, a.len()))
    }
}

fn custom_split_exec(rest: &[char]) -> (r: (Vec<char>, Vec<char>))
    ensures
        (r.0@, r.1@) == custom_split(rest@),
{
    let mut w: usize = 0;
    while w < rest.len() && !char_is_ws(rest[w])
        invariant
            w <= rest.len(),
            forall|j: int| 0 <= j < w ==> !is_ws(#[trigger] rest@[j]),
        decreases rest.len() - w,
    {
        w += 1;
    }
    proof {
        crate::text::lemma_ws_index_scan_pub(rest@, 0, w as int);
    }
    if w < rest.len() {
        let k = copy_chars(rest, 0, w);
        (trim_chars(k.as_slice()), copy_chars(rest, w + 1, rest.len()))
    } else {
        proof {
            assert(rest@.take(w as int) =~= rest@);
        }
        (trim_chars(rest), Vec::new())
    }
}

fn warn_exec(p: &mut KgParser, strict: bool, msg: Vec<char>) -> (r: Result<(), String>)
    ensures
        outcome(r, final(p)@, warn(old(p)@, strict, msg@)),
        r is Ok ==> final(p).graph@ == old(p).graph@ && final(p).edge_open == old(p).edge_open,
{
    let m = string_of(msg.as_slice());
    if strict {
        return Err(m);
    }
    let ghost before = views(p.warnings@);
    p.warnings.push(m);
    assert(views(p.warnings@) =~= before.push(msg@));
    assert(p@ =~= ParserV { warnings: old(p)@.warnings.push(msg@), ..old(p)@ });
    Ok(())
}

fn flush_exec(p: &mut KgParser)
    ensures
        final(p)@ == flush(old(p)@),
        final(p).edge_open == old(p).edge_open,
        final(p).graph.edges@ == old(p).graph.edges@,
{
    if let Some(note) = p.note.take() {
        let ghost before = views(p.graph.notes@);
        p.graph.notes.push(note);
        assert(views(p.graph.notes@) =~= before.push(note@));
    }
    if let Some(node) = p.node.take() {
        let ghost before = views(p.graph.nodes@);
        p.graph.nodes.push(node);
        assert(views(p.graph.nodes@) =~= before.push(node@));
    }
    assert(p@ =~= flush(old(p)@));
}


fn step_node_header_exec(p: &mut KgParser, n: usize, t: &[char], rest: &[char], strict: bool) -> (r: Result<(), String>)
    requires
        state_ok(old(p)@),
    ensures
        outcome(r, final(p)@, step_node_header(old(p)@, n as nat, t@, rest@, strict)),
        r is Ok ==> state_ok(final(p)@),
{
    flush_exec(p);
    match split_once_chars(rest, ':') {
        None => {
            p.edge_open = false;
            let suffix = concat_str(": ", t);
            let m = line_msg_exec("invalid node header at line ", n, suffix.as_slice());
            warn_exec(p, strict, m)
        },
        Some((tc0, id0)) => {
            let tc = trim_chars(tc0.as_slice());
            let raw_id = trim_chars(id0.as_slice());
            let decoded = decode_node_type_token(tc.as_slice());
            let id = if contains_char(raw_id.as_slice(), ':') {
                raw_id
            } else {
                let back = code_to_node_type(tc.as_slice());
                let mut id = if !chars_eq(back.as_slice(), tc.as_slice()) {
                    copy_chars(tc.as_slice(), 0, tc.len())
                } else {
                    copy_chars(decoded.as_slice(), 0, decoded.len())
                };
                id.push(':');
                append_chars(&mut id, raw_id.as_slice());
                proof {
                    reveal_strlit(":");
                    assert(id@ =~= header_id(tc@, raw_id@));
                }
                id
            };
            assert(id@ == header_id(tc@, raw_id@));
            let node = Node {
                id: string_of(id.as_slice()),
                node_type: string_of(decoded.as_slice()),
                name: String::new(),
                properties: NodeProperties::new_default(),
                source_files: Vec::new(),
            };
            p.node = Some(node);
            p.edge_open = false;
            p.node_rank = 0;
            p.edge_rank = 0;
            proof {
                assert(views(node.source_files@) =~= Seq::<Seq<char>>::empty());
            }
            Ok(())
        },
    }
}

fn step_note_header_exec(p: &mut KgParser, n: usize, t: &[char], rest: &[char], strict: bool) -> (r: Result<(), String>)
    requires
        state_ok(old(p)@),
    ensures
        outcome(r, final(p)@, step_note_header(old(p)@, n as nat, t@, rest@, strict)),
        r is Ok ==> state_ok(final(p)@),
{
    flush_exec(p);
    let toks = tokens_exec(rest);
    if toks.len() < 2 {
        p.edge_open = false;
        let suffix = concat_str(": ", t);
        let m = line_msg_exec("invalid note header at line ", n, suffix.as_slice());
        return warn_exec(p, strict, m);
    }
    assert(seqs_view(toks@)[0] == toks@[0]@ && seqs_view(toks@)[1] == toks@[1]@);
    let note = Note {
        id: string_of(toks[0].as_slice()),
        node_id: string_of(toks[1].as_slice()),
        body: String::new(),
        tags: Vec::new(),
        author: String::new(),
        created_at: String::new(),
        provenance: String::new(),
        source_files: Vec::new(),
    };
    proof {
        assert(note@ =~= empty_note(toks@[0]@, toks@[1]@));
    }
    p.note = Some(note);
    p.edge_open = false;
    p.note_rank = 0;
    Ok(())
}

fn note_field_kind_exec(raw: &[char]) -> (r: (u8, Vec<char>))
    ensures
        r.0 as nat == note_field_kind(raw@),
        r.0 != 0 ==> field_value(raw@, note_key(r.0 as nat)) == Some(r.1@),
{
    if let Some(v) = field_value_exec(raw, "b") { return (1, v); }
    if let Some(v) = field_value_exec(raw, "t") { return (2, v); }
    if let Some(v) = field_value_exec(raw, "a") { return (3, v); }
    if let Some(v) = field_value_exec(raw, "e") { return (4, v); }
    if let Some(v) = field_value_exec(raw, "p") { return (5, v); }
    if let Some(v) = field_value_exec(raw, "s") { return (6, v); }
    (0, Vec::new())
}

fn note_key_str(k: u8) -> (r: &'static str)
    requires
        1 <= k <= 6,
    ensures
        r@ == note_key(k as nat),
{
    if k == 1 { "b" } else if k == 2 { "t" } else if k == 3 { "a" } else if k == 4 { "e" } else if k == 5 { "p" } else { "s" }
}

fn push_string(v: &mut Vec<String>, x: Vec<char>)
    ensures
        views(final(v)@) == views(old(v)@).push(x@),
{
    let ghost before = views(v@);
    v.push(string_of(x.as_slice()));
    assert(views(v@) =~= before.push(x@));
}

fn set_note_field_exec(note: &mut Note, k: u8, rest: &[char])
    requires
        1 <= k <= 6,
    ensures
        final(note)@ == set_note_field(old(note)@, k as nat, rest@),
{
    let v = decode_kg_text(rest);
    if k == 1 {
        note.body = string_of(v.as_slice());
    } else if k == 2 {
        if v.len() > 0 {
            push_string(&mut note.tags, v);
        }
    } else if k == 3 {
        note.author = string_of(v.as_slice());
    } else if k == 4 {
        let t = trim_chars(rest);
        note.created_at = string_of(t.as_slice());
    } else if k == 5 {
        note.provenance = string_of(v.as_slice());
    } else {
        if v.len() > 0 {
            push_string(&mut note.source_files, v);
        }
    }
    assert(note@ =~= set_note_field(old(note)@, k as nat, rest@));
}

fn step_note_line_exec(p: &mut KgParser, n: usize, raw: &[char], t: &[char], strict: bool) -> (r: Result<(), String>)
    requires
        state_ok(old(p)@),
        old(p).note is Some,
    ensures
        outcome(r, final(p)@, step_note_line(old(p)@, n as nat, raw@, t@, strict)),
        r is Ok ==> state_ok(final(p)@),
{
    let (k, rest) = note_field_kind_exec(raw);
    if k == 0 {
        let suffix = concat_str(": ", t);
        let m = line_msg_exec("unrecognized note line at ", n, suffix.as_slice());
        return warn_exec(p, strict, m);
    }
    let key = note_key_str(k);
    let rank = order_check_exec(p.note_rank, k, strict, n, key, "note", raw);
    match rank {
        Err(e) => Err(e),
        Ok(r) => {
            let mut note = p.note.take().unwrap();
            set_note_field_exec(&mut note, k, rest.as_slice());
            p.note = Some(note);
            p.note_rank = r;
            assert(p@ =~= ParserV { note: Some(set_note_field(old(p)@.note->0, k as nat, rest@)), note_rank: r as nat, ..old(p)@ });
            Ok(())
        },
    }
}


fn node_line_kind_exec(raw: &[char], t: &[char]) -> (r: (u8, Vec<char>))
    ensures
        r.0 as nat == node_line_kind(raw@, t@),
        r.0 != 0 && r.0 != 10 && r.0 != 11 ==> field_value(raw@, node_key(r.0 as nat)) == Some(r.1@),
{
    if let Some(v) = field_value_exec(raw, "N") { return (1, v); }
    if let Some(v) = field_value_exec(raw, "D") { return (2, v); }
    if let Some(v) = field_value_exec(raw, "A") { return (3, v); }
    if let Some(v) = field_value_exec(raw, "F") { return (4, v); }
    if let Some(v) = field_value_exec(raw, "E") { return (5, v); }
    if let Some(v) = field_value_exec(raw, "C") { return (6, v); }
    if let Some(v) = field_value_exec(raw, "V") { return (7, v); }
    if let Some(v) = field_value_exec(raw, "P") { return (8, v); }
    if let Some(v) = field_value_exec(raw, "S") { return (9, v); }
    if starts_with_str(t, "> ") { return (10, Vec::new()); }
    if starts_with_str(t, "= ") { return (11, Vec::new()); }
    if let Some(v) = field_value_exec(raw, "d") { return (12, v); }
    if let Some(v) = field_value_exec(raw, "i") { return (13, v); }
    if let Some(v) = field_value_exec(raw, "x") { return (14, v); }
    if let Some(v) = field_value_exec(raw, "-") { return (15, v); }
    (0, Vec::new())
}

fn node_key_str(k: u8) -> (r: &'static str)
    ensures
        r@ == node_key(k as nat),
{
    if k == 1 { "N" } else if k == 2 { "D" } else if k == 3 { "A" } else if k == 4 { "F" }
    else if k == 5 { "E" } else if k == 6 { "C" } else if k == 7 { "V" } else if k == 8 { "P" }
    else if k == 9 { "S" } else if k == 12 { "d" } else if k == 13 { "i" } else if k == 14 { "x" }
    else { "-" }
}

fn set_node_text_exec(node: &mut Node, k: u8, v: Vec<char>)
    ensures
        final(node)@ == set_node_text(old(node)@, k as nat, v@),
{
    if k == 1 {
        node.name = string_of(v.as_slice());
    } else if k == 2 {
        node.properties.description = string_of(v.as_slice());
    } else if k == 3 {
        push_string(&mut node.properties.alias, v);
    } else if k == 4 {
        push_string(&mut node.properties.key_facts, v);
    } else if k == 8 {
        node.properties.provenance = string_of(v.as_slice());
    } else {
        push_string(&mut node.source_files, v);
    }
    assert(node@ =~= set_node_text(old(node)@, k as nat, v@));
}

fn step_text_field_exec(p: &mut KgParser, n: usize, raw: &[char], k: u8, r: u8, rest: &[char], strict: bool) -> (res: Result<(), String>)
    requires
        state_ok(old(p)@),
        old(p).node is Some,
        k == 1 || k == 2 || k == 3 || k == 4 || k == 8 || k == 9,
    ensures
        outcome(res, final(p)@, step_text_field(old(p)@, n as nat, raw@, k as nat, r as nat, rest@, strict)),
        res is Ok ==> state_ok(final(p)@),
{
    let v = decode_kg_text(rest);
    let max: usize = if k == 1 { 120 } else if k == 3 { 80 } else { 200 };
    if k != 8 && strict && (v.len() < 1 || v.len() > max) {
        let m = len_msg_exec(n, node_key_str(k), v.as_slice(), raw, 1, max);
        return Err(string_of(m.as_slice()));
    }
    let mut node = p.node.take().unwrap();
    set_node_text_exec(&mut node, k, v);
    p.node = Some(node);
    p.node_rank = r;
    assert(p@ =~= ParserV { node: Some(set_node_text(old(p)@.node->0, k as nat, decode_text(rest@))), node_rank: r as nat, ..old(p)@ });
    Ok(())
}

fn step_created_at_exec(p: &mut KgParser, n: usize, raw: &[char], r: u8, rest: &[char], strict: bool) -> (res: Result<(), String>)
    requires
        state_ok(old(p)@),
        old(p).node is Some,
    ensures
        outcome(res, final(p)@, step_created_at(old(p)@, n as nat, raw@, r as nat, rest@, strict)),
        res is Ok ==> state_ok(final(p)@),
{
    let v = trim_chars(rest);
    p.node_rank = r;
    if v.len() > 0 && !parse_utc_timestamp(v.as_slice()) {
        let f = line_fragment(raw);
        let suffix = concat_str(": expected YYYY-MM-DDTHH:MM:SSZ\n", f.as_slice());
        let m = line_msg_exec("invalid E timestamp at line ", n, suffix.as_slice());
        return warn_exec(p, strict, m);
    }
    let mut node = p.node.take().unwrap();
    node.properties.created_at = string_of(v.as_slice());
    p.node = Some(node);
    proof {
        let node0 = old(p)@.node->0;
        assert(p@ =~= ParserV { node: Some(NodeV { props: NodePropsV { created_at: v@, ..node0.props }, ..node0 }), node_rank: r as nat, ..old(p)@ });
    }
    Ok(())
}

fn set_node_number_exec(node: &mut Node, k: u8, rest: &[char])
    requires
        k == 6 || k == 7,
    ensures
        final(node)@ == set_node_number(old(node)@, k as nat, rest@),
{
    let v = trim_chars(rest);
    if k == 6 {
        if v.len() > 0 {
            if is_float_literal_exec(v.as_slice()) {
                node.properties.confidence = Some(string_of(v.as_slice()));
            } else {
                node.properties.confidence = None;
            }
        }
    } else {
        if is_float_literal_exec(v.as_slice()) {
            node.properties.importance = string_of(v.as_slice());
        }
    }
    assert(node@ =~= set_node_number(old(node)@, k as nat, rest@));
}

fn open_edge_exec(p: &mut KgParser, e: Edge)
    ensures
        final(p)@ == open_edge(old(p)@, e@),
        state_ok(final(p)@),
{
    let ghost before = views(p.graph.edges@);
    p.graph.edges.push(e);
    p.edge_open = true;
    p.edge_rank = 0;
    assert(views(p.graph.edges@) =~= before.push(e@));
    assert(p@ =~= open_edge(old(p)@, e@));
}

fn step_directed_exec(p: &mut KgParser, n: usize, t: &[char], strict: bool) -> (res: Result<(), String>)
    requires
        state_ok(old(p)@),
        old(p).node is Some,
        strip_prefix(t@, "> "@) is Some,
    ensures
        outcome(res, final(p)@, step_directed(old(p)@, n as nat, t@, strict)),
        res is Ok ==> state_ok(final(p)@),
{
    let rest = strip_prefix_str(t, "> ").unwrap();
    let toks = tokens_exec(rest.as_slice());
    if toks.len() < 2 {
        p.edge_open = false;
        let suffix = concat_str(": ", t);
        let m = if toks.len() == 0 {
            line_msg_exec("missing relation in edge at line ", n, suffix.as_slice())
        } else {
            line_msg_exec("missing target id in edge at line ", n, suffix.as_slice())
        };
        return warn_exec(p, strict, m);
    }
    assert(seqs_view(toks@)[0] == toks@[0]@ && seqs_view(toks@)[1] == toks@[1]@);
    let rel = code_to_relation(toks[0].as_slice());
    let source = match &p.node {
        Some(node) => node.id.clone(),
        None => String::new(),
    };
    let e = Edge {
        source_id: source,
        relation: string_of(rel.as_slice()),
        target_id: string_of(toks[1].as_slice()),
        properties: EdgeProperties::new_default(),
    };
    assert(e@ =~= directed_edge(old(p)@.node->0, toks@[0]@, toks@[1]@));
    open_edge_exec(p, e);
    Ok(())
}

fn step_similarity_exec(p: &mut KgParser, n: usize, t: &[char], strict: bool) -> (res: Result<(), String>)
    requires
        state_ok(old(p)@),
        old(p).node is Some,
        strip_prefix(t@, "= "@) is Some,
    ensures
        outcome(res, final(p)@, step_similarity(old(p)@, n as nat, t@, strict)),
        res is Ok ==> state_ok(final(p)@),
{
    let rest = strip_prefix_str(t, "= ").unwrap();
    let toks = tokens_exec(rest.as_slice());
    if toks.len() < 2 {
        p.edge_open = false;
        let suffix = concat_str(": ", t);
        let m = if toks.len() == 0 {
            line_msg_exec("missing relation in bidirectional edge at line ", n, suffix.as_slice())
        } else {
            line_msg_exec("missing target id in bidirectional edge at line ", n, suffix.as_slice())
        };
        return warn_exec(p, strict, m);
    }
    assert(seqs_view(toks@)[0] == toks@[0]@ && seqs_view(toks@)[1] == toks@[1]@);
    let rel = code_to_relation(toks[0].as_slice());
    if !chars_eq_str(rel.as_slice(), "~") {
        p.edge_open = false;
        let mut suffix = chars_of(": expected '~', got '");
        append_chars(&mut suffix, rel.as_slice());
        append_str(&mut suffix, "'");
        let m = line_msg_exec("invalid bidirectional relation at line ", n, suffix.as_slice());
        return warn_exec(p, strict, m);
    }
    let source = match &p.node {
        Some(node) => chars_of(node.id.as_str()),
        None => Vec::new(),
    };
    let (a, b) = canonicalize_bidirectional_pair(source.as_slice(), toks[1].as_slice());
    let mut props = EdgeProperties::new_default();
    props.bidirectional = true;
    let e = Edge {
        source_id: string_of(a.as_slice()),
        relation: string_of(rel.as_slice()),
        target_id: string_of(b.as_slice()),
        properties: props,
    };
    assert(e@ =~= similarity_edge(old(p)@.node->0, toks@[1]@));
    open_edge_exec(p, e);
    Ok(())
}


fn take_last_edge(p: &mut KgParser) -> (e: Edge)
    requires
        old(p).graph.edges.len() > 0,
    ensures
        e@ == last_edge(old(p)@),
        final(p).graph.edges@ == old(p).graph.edges@.drop_last(),
        final(p).graph.nodes@ == old(p).graph.nodes@,
        final(p).graph.notes@ == old(p).graph.notes@,
        final(p).graph.metadata == old(p).graph.metadata,
        final(p).warnings@ == old(p).warnings@,
        final(p).node == old(p).node,
        final(p).note == old(p).note,
        final(p).edge_open == old(p).edge_open,
        final(p).node_rank == old(p).node_rank,
        final(p).note_rank == old(p).note_rank,
        final(p).edge_rank == old(p).edge_rank,
{
    p.graph.edges.pop().unwrap()
}

fn put_last_edge(p: &mut KgParser, e: Edge)
    ensures
        final(p).graph.edges@ == old(p).graph.edges@.push(e),
        final(p).graph.nodes@ == old(p).graph.nodes@,
        final(p).graph.notes@ == old(p).graph.notes@,
        final(p).graph.metadata == old(p).graph.metadata,
        final(p).warnings@ == old(p).warnings@,
        final(p).node == old(p).node,
        final(p).note == old(p).note,
        final(p).edge_open == old(p).edge_open,
        final(p).node_rank == old(p).node_rank,
        final(p).note_rank == old(p).note_rank,
        final(p).edge_rank == old(p).edge_rank,
{
    p.graph.edges.push(e);
}

proof fn lemma_replace_last(before: Seq<Edge>, after: Seq<Edge>, e: Edge)
    requires
        before.len() > 0,
        after == before.drop_last().push(e),
    ensures
        views(after) == views(before).update(views(before).len() - 1, e@),
{
    assert(views(after) =~= views(before).update(views(before).len() - 1, e@));
}

fn step_detail_exec(p: &mut KgParser, n: usize, raw: &[char], r: u8, rest: &[char], strict: bool) -> (res: Result<(), String>)
    requires
        state_ok(old(p)@),
    ensures
        outcome(res, final(p)@, step_detail(old(p)@, n as nat, raw@, r as nat, rest@, strict)),
        res is Ok ==> state_ok(final(p)@),
{
    p.edge_rank = r;
    if !p.edge_open {
        let f = line_fragment(raw);
        let suffix = concat_str("\n", f.as_slice());
        let m = line_msg_exec("edge detail without preceding edge at line ", n, suffix.as_slice());
        return warn_exec(p, strict, m);
    }
    let tr = trim_chars(rest);
    let toks = tokens_exec(tr.as_slice());
    let ghost q = ParserV { edge_rank: r as nat, ..old(p)@ };
    assert(p@ == q);
    if toks.len() == 2 && is_score_component_label(toks[0].as_slice()) {
        assert(seqs_view(toks@)[0] == toks@[0]@ && seqs_view(toks@)[1] == toks@[1]@);
        if is_float_literal_exec(toks[1].as_slice()) {
            let ghost before = p.graph.edges@;
            let mut e = take_last_edge(p);
            let ghost e0 = e@;
            insert_score_component(&mut e.properties.score_components, string_of(toks[0].as_slice()), string_of(toks[1].as_slice()));
            put_last_edge(p, e);
            proof {
                lemma_replace_last(before, p.graph.edges@, e);
                assert(e@ =~= EdgeV { props: EdgePropsV { score_components: assoc_insert(e0.props.score_components, toks@[0]@, toks@[1]@), ..e0.props }, ..e0 });
                assert(p@ =~= set_last_edge(q, e@));
            }
            return Ok(());
        } else {
            let f = line_fragment(raw);
            let mut suffix = concat_str(": expected number in '", f.as_slice());
            append_str(&mut suffix, "', got '");
            append_chars(&mut suffix, toks[1].as_slice());
            append_str(&mut suffix, "'");
            let m = line_msg_exec("invalid score component value at line ", n, suffix.as_slice());
            proof {
                assert(suffix@ =~= ": expected number in '"@ + fragment(raw@) + "', got '"@ + toks@[1]@ + "'"@);
            }
            return Err(string_of(m.as_slice()));
        }
    }
    let v = decode_kg_text(rest);
    if strict && (v.len() < 1 || v.len() > 200) {
        let m = len_msg_exec(n, "d", v.as_slice(), raw, 1, 200);
        return Err(string_of(m.as_slice()));
    }
    let ghost before = p.graph.edges@;
    let mut e = take_last_edge(p);
    let ghost e0 = e@;
    e.properties.detail = string_of(v.as_slice());
    put_last_edge(p, e);
    proof {
        lemma_replace_last(before, p.graph.edges@, e);
        assert(e@ =~= EdgeV { props: EdgePropsV { detail: v@, ..e0.props }, ..e0 });
        assert(p@ =~= set_last_edge(q, e@));
    }
    Ok(())
}

fn step_validity_exec(p: &mut KgParser, n: usize, raw: &[char], k: u8, r: u8, rest: &[char], strict: bool) -> (res: Result<(), String>)
    requires
        state_ok(old(p)@),
        k == 13 || k == 14,
    ensures
        outcome(res, final(p)@, step_validity(old(p)@, n as nat, raw@, k as nat, r as nat, rest@, strict)),
        res is Ok ==> state_ok(final(p)@),
{
    p.edge_rank = r;
    let ghost q = ParserV { edge_rank: r as nat, ..old(p)@ };
    assert(p@ == q);
    if !p.edge_open {
        let f = line_fragment(raw);
        let suffix = concat_str("\n", f.as_slice());
        let m = if k == 13 {
            line_msg_exec("edge valid_from without preceding edge at line ", n, suffix.as_slice())
        } else {
            line_msg_exec("edge valid_to without preceding edge at line ", n, suffix.as_slice())
        };
        return warn_exec(p, strict, m);
    }
    let v = trim_chars(rest);
    if v.len() > 0 && !parse_utc_timestamp(v.as_slice()) {
        let f = line_fragment(raw);
        let suffix = concat_str(": expected YYYY-MM-DDTHH:MM:SSZ\n", f.as_slice());
        let m = if k == 13 {
            line_msg_exec("invalid i timestamp at line ", n, suffix.as_slice())
        } else {
            line_msg_exec("invalid x timestamp at line ", n, suffix.as_slice())
        };
        return warn_exec(p, strict, m);
    }
    let ghost before = p.graph.edges@;
    let mut e = take_last_edge(p);
    let ghost e0 = e@;
    if k == 13 {
        e.properties.valid_from = string_of(v.as_slice());
    } else {
        e.properties.valid_to = string_of(v.as_slice());
    }
    put_last_edge(p, e);
    proof {
        lemma_replace_last(before, p.graph.edges@, e);
        if k == 13 {
            assert(e@ =~= EdgeV { props: EdgePropsV { valid_from: v@, ..e0.props }, ..e0 });
        } else {
            assert(e@ =~= EdgeV { props: EdgePropsV { valid_to: v@, ..e0.props }, ..e0 });
        }
        assert(p@ =~= set_last_edge(q, e@));
    }
    Ok(())
}

fn score_text_exec(value: &[char]) -> (r: Vec<char>)
    ensures
        r@ == score_text(value@),
{
    let t = trim_chars(value);
    if is_float_literal_exec(t.as_slice()) {
        t
    } else {
        chars_of("0")
    }
}

fn count_value(value: &[char]) -> (r: u64)
    ensures
        r == match parse_u64_spec(trim(value@)) { Some(x) => x, None => 0 },
{
    let t = trim_chars(value);
    match parse_u64(t.as_slice()) {
        Some(x) => x,
        None => 0,
    }
}

fn ts_value(value: &[char]) -> (r: Option<u64>)
    ensures
        r == parse_u64_spec(trim(value@)),
{
    let t = trim_chars(value);
    parse_u64(t.as_slice())
}

fn apply_custom_exec(p: &mut KgParser, key: &[char], value: &[char])
    requires
        state_ok(old(p)@),
        old(p).node is Some,
    ensures
        final(p)@ == apply_custom(old(p)@, key@, value@),
        state_ok(final(p)@),
{
    let ghost q = p@;
    if chars_eq_str(key, "domain_area") || chars_eq_str(key, "feedback_score") || chars_eq_str(key, "feedback_count") || chars_eq_str(key, "feedback_last_ts_ms") {
        let mut node = p.node.take().unwrap();
        let ghost n0 = node@;
        if chars_eq_str(key, "domain_area") {
            let d = decode_kg_text(value);
            node.properties.domain_area = string_of(d.as_slice());
        } else if chars_eq_str(key, "feedback_score") {
            let s = score_text_exec(value);
            node.properties.feedback_score = string_of(s.as_slice());
        } else if chars_eq_str(key, "feedback_count") {
            node.properties.feedback_count = count_value(value);
        } else {
            node.properties.feedback_last_ts_ms = ts_value(value);
        }
        p.node = Some(node);
        proof {
            assert(p@ =~= apply_custom(q, key@, value@));
        }
        return;
    }
    let is_edge_key = chars_eq_str(key, "edge_feedback_score") || chars_eq_str(key, "edge_feedback_count") || chars_eq_str(key, "edge_feedback_last_ts_ms");
    if is_edge_key && p.edge_open {
        let ghost before = p.graph.edges@;
        let mut e = take_last_edge(p);
        let ghost e0 = e@;
        if chars_eq_str(key, "edge_feedback_score") {
            let s = score_text_exec(value);
            e.properties.feedback_score = string_of(s.as_slice());
        } else if chars_eq_str(key, "edge_feedback_count") {
            e.properties.feedback_count = count_value(value);
        } else {
            e.properties.feedback_last_ts_ms = ts_value(value);
        }
        put_last_edge(p, e);
        proof {
            lemma_replace_last(before, p.graph.edges@, e);
            assert(p@ =~= apply_custom(q, key@, value@));
        }
        return;
    }
}

fn step_custom_exec(p: &mut KgParser, n: usize, raw: &[char], rest: &[char], strict: bool) -> (res: Result<(), String>)
    requires
        state_ok(old(p)@),
        old(p).node is Some,
    ensures
        outcome(res, final(p)@, step_custom(old(p)@, n as nat, raw@, rest@, strict)),
        res is Ok ==> state_ok(final(p)@),
{
    let (key, value) = custom_split_exec(rest);
    let is_edge_key = chars_eq_str(key.as_slice(), "edge_feedback_score") || chars_eq_str(key.as_slice(), "edge_feedback_count") || chars_eq_str(key.as_slice(), "edge_feedback_last_ts_ms");
    if is_edge_key {
        match order_check_exec(p.edge_rank, 4, strict, n, "-", "edge", raw) {
            Err(e) => Err(e),
            Ok(r) => {
                p.edge_rank = r;
                apply_custom_exec(p, key.as_slice(), value.as_slice());
                Ok(())
            },
        }
    } else {
        match order_check_exec(p.node_rank, 9, strict, n, "-", "node", raw) {
            Err(e) => Err(e),
            Ok(r) => {
                p.node_rank = r;
                apply_custom_exec(p, key.as_slice(), value.as_slice());
                Ok(())
            },
        }
    }
}


fn step_node_line_exec(p: &mut KgParser, n: usize, raw: &[char], t: &[char], strict: bool) -> (res: Result<(), String>)
    requires
        state_ok(old(p)@),
        old(p).node is Some,
    ensures
        outcome(res, final(p)@, step_node_line(old(p)@, n as nat, raw@, t@, strict)),
        res is Ok ==> state_ok(final(p)@),
{
    let (k, rest) = node_line_kind_exec(raw, t);
    if k == 0 {
        let suffix = concat_str(": ", t);
        let m = line_msg_exec("unrecognized line at ", n, suffix.as_slice());
        return warn_exec(p, strict, m);
    }
    if k == 10 {
        return step_directed_exec(p, n, t, strict);
    }
    if k == 11 {
        return step_similarity_exec(p, n, t, strict);
    }
    let key = node_key_str(k);
    if k == 15 {
        return step_custom_exec(p, n, raw, rest.as_slice(), strict);
    }
    if k >= 12 {
        match order_check_exec(p.edge_rank, k - 11, strict, n, key, "edge", raw) {
            Err(e) => Err(e),
            Ok(r) => {
                if k == 12 {
                    step_detail_exec(p, n, raw, r, rest.as_slice(), strict)
                } else {
                    step_validity_exec(p, n, raw, k, r, rest.as_slice(), strict)
                }
            },
        }
    } else {
        let rank: u8 = if k == 9 { 10 } else { k };
        match order_check_exec(p.node_rank, rank, strict, n, key, "node", raw) {
            Err(e) => Err(e),
            Ok(r) => {
                if k == 5 {
                    step_created_at_exec(p, n, raw, r, rest.as_slice(), strict)
                } else if k == 6 || k == 7 {
                    let mut node = p.node.take().unwrap();
                    set_node_number_exec(&mut node, k, rest.as_slice());
                    p.node = Some(node);
                    p.node_rank = r;
                    assert(p@ =~= ParserV { node: Some(set_node_number(old(p)@.node->0, k as nat, rest@)), node_rank: r as nat, ..old(p)@ });
                    Ok(())
                } else {
                    step_text_field_exec(p, n, raw, k, r, rest.as_slice(), strict)
                }
            },
        }
    }
}

fn step_exec(p: &mut KgParser, n: usize, line: &[char], strict: bool) -> (res: Result<(), String>)
    requires
        state_ok(old(p)@),
    ensures
        outcome(res, final(p)@, step(old(p)@, n as nat, line@, strict)),
        res is Ok ==> state_ok(final(p)@),
{
    reveal(step);
    let raw = if line.len() > 0 && line[line.len() - 1] == '\r' {
        copy_chars(line, 0, line.len() - 1)
    } else {
        copy_chars(line, 0, line.len())
    };
    assert(raw@ =~= crate::text::strip_cr(line@));
    let t = trim_chars(raw.as_slice());
    if t.len() == 0 || t[0] == '#' {
        return Ok(());
    }
    if let Some(rest) = strip_prefix_str(t.as_slice(), "@ ") {
        return step_node_header_exec(p, n, t.as_slice(), rest.as_slice(), strict);
    }
    if let Some(rest) = strip_prefix_str(t.as_slice(), "! ") {
        return step_note_header_exec(p, n, t.as_slice(), rest.as_slice(), strict);
    }
    if p.note.is_some() {
        return step_note_line_exec(p, n, raw.as_slice(), t.as_slice(), strict);
    }
    if p.node.is_none() {
        let suffix = concat_str(": ", t.as_slice());
        let m = line_msg_exec("unexpected line before first node at line ", n, suffix.as_slice());
        return warn_exec(p, strict, m);
    }
    step_node_line_exec(p, n, raw.as_slice(), t.as_slice(), strict)
}

fn normalize_node_exec(node: &mut Node)
    ensures
        final(node)@ == normalize_node(old(node)@),
{
    let mut tmp: Vec<String> = Vec::new();
    std::mem::swap(&mut tmp, &mut node.properties.alias);
    node.properties.alias = normalize_text_list(tmp);
    let mut tmp2: Vec<String> = Vec::new();
    std::mem::swap(&mut tmp2, &mut node.properties.key_facts);
    node.properties.key_facts = normalize_text_list(tmp2);
    let mut tmp3: Vec<String> = Vec::new();
    std::mem::swap(&mut tmp3, &mut node.source_files);
    node.source_files = normalize_text_list(tmp3);
    assert(node@ =~= normalize_node(old(node)@));
}

fn normalize_note_exec(note: &mut Note)
    ensures
        final(note)@ == normalize_note(old(note)@),
{
    let mut tmp: Vec<String> = Vec::new();
    std::mem::swap(&mut tmp, &mut note.tags);
    note.tags = normalize_text_list(tmp);
    let mut tmp2: Vec<String> = Vec::new();
    std::mem::swap(&mut tmp2, &mut note.source_files);
    note.source_files = normalize_text_list(tmp2);
    assert(note@ =~= normalize_note(old(note)@));
}

fn normalize_nodes(nodes: Vec<Node>) -> (out: Vec<Node>)
    ensures
        views(out@) == views(nodes@).map_values(|n: NodeV| normalize_node(n)),
{
    let ghost orig = views(nodes@);
    let mut nodes = nodes;
    let mut out: Vec<Node> = Vec::new();
    let mut i: usize = 0;
    let n = nodes.len();
    while i < n
        invariant
            n == nodes.len(),
            orig == views(nodes@),
            i <= n,
            views(out@) == orig.take(i as int).map_values(|n: NodeV| normalize_node(n)),
        decreases n - i,
    {
        let mut node = nodes[i].copy();
        normalize_node_exec(&mut node);
        let ghost before = views(out@);
        assert(orig[i as int] == nodes@[i as int]@);
        out.push(node);
        assert(views(out@) =~= before.push(normalize_node(orig[i as int])));
        assert(orig.take(i + 1).map_values(|n: NodeV| normalize_node(n)) =~= orig.take(i as int).map_values(|n: NodeV| normalize_node(n)).push(normalize_node(orig[i as int])));
        i += 1;
    }
    assert(orig.take(n as int) =~= orig);
    out
}

fn normalize_notes(notes: Vec<Note>) -> (out: Vec<Note>)
    ensures
        views(out@) == views(notes@).map_values(|n: NoteV| normalize_note(n)),
{
    let ghost orig = views(notes@);
    let mut out: Vec<Note> = Vec::new();
    let mut i: usize = 0;
    let n = notes.len();
    while i < n
        invariant
            n == notes.len(),
            orig == views(notes@),
            i <= n,
            views(out@) == orig.take(i as int).map_values(|n: NoteV| normalize_note(n)),
        decreases n - i,
    {
        let mut note = notes[i].copy();
        normalize_note_exec(&mut note);
        let ghost before = views(out@);
        assert(orig[i as int] == notes@[i as int]@);
        out.push(note);
        assert(views(out@) =~= before.push(normalize_note(orig[i as int])));
        assert(orig.take(i + 1).map_values(|n: NoteV| normalize_note(n)) =~= orig.take(i as int).map_values(|n: NoteV| normalize_note(n)).push(normalize_note(orig[i as int])));
        i += 1;
    }
    assert(orig.take(n as int) =~= orig);
    out
}

/// Parses `.kg` text into a graph named
/// `graph_name`, with the warnings about ignored entries; in strict mode
/// the first problem is an error.
pub fn parse_kg_with_warnings(raw: &str, graph_name: &str, strict: bool) -> (r: Result<(GraphFile, Vec<String>), String>)
    ensures
        match r {
            Ok((g, w)) => parse_kg_spec(raw@, graph_name@, strict) == Ok::<(GraphV, Seq<Seq<char>>), Seq<char>>((g@, views(w@))),
            Err(e) => parse_kg_spec(raw@, graph_name@, strict) == Err::<(GraphV, Seq<Seq<char>>), Seq<char>>(e@),
        },
{
    let text = chars_of(raw);
    let all = lines_exec(text.as_slice());
    let mut p = KgParser {
        graph: GraphFile::new(graph_name),
        warnings: Vec::new(),
        node: None,
        note: None,
        edge_open: false,
        node_rank: 0,
        note_rank: 0,
        edge_rank: 0,
    };
    assert(p@ =~= initial_state(graph_name@));
    let ghost lns = seqs_view(all@);
    assert(lns.skip(0) =~= lns);
    let mut i: usize = 0;
    while i < all.len()
        invariant
            i <= all.len(),
            lns == seqs_view(all@),
            lns == lines(raw@),
            state_ok(p@),
            run(initial_state(graph_name@), lns, 1, strict) == run(p@, lns.skip(i as int), (i + 1) as nat, strict),
        decreases all.len() - i,
    {
        let ghost before = p@;
        let res = step_exec(&mut p, i + 1, all[i].as_slice(), strict);
        proof {
            assert(lns.skip(i as int)[0] == all@[i as int]@);
            assert(lns.skip(i as int).drop_first() =~= lns.skip(i + 1));
        }
        match res {
            Err(e) => {
                return Err(e);
            },
            Ok(()) => {},
        }
        i += 1;
    }
    assert(lns.skip(i as int) =~= Seq::<Seq<char>>::empty());
    let ghost final_state = p@;
    flush_exec(&mut p);
    let ghost flushed = p@;
    let mut graph = p.graph;
    let mut nodes: Vec<Node> = Vec::new();
    std::mem::swap(&mut nodes, &mut graph.nodes);
    graph.nodes = normalize_nodes(nodes);
    let mut edges: Vec<Edge> = Vec::new();
    std::mem::swap(&mut edges, &mut graph.edges);
    graph.edges = stable_sort(edges);
    let mut notes: Vec<Note> = Vec::new();
    std::mem::swap(&mut notes, &mut graph.notes);
    let normalized = normalize_notes(notes);
    graph.notes = stable_sort(normalized);
    graph.refresh_counts();
    proof {
        assert(graph@ =~= finish(final_state));
    }
    Ok((graph, p.warnings))
}

/// The graph without the warnings.
pub fn parse_kg(raw: &str, graph_name: &str, strict: bool) -> (r: Result<GraphFile, String>)
    ensures
        match r {
            Ok(g) => parse_kg_spec(raw@, graph_name@, strict) matches Ok((gv, _)) && gv == g@,
            Err(e) => parse_kg_spec(raw@, graph_name@, strict) == Err::<(GraphV, Seq<Seq<char>>), Seq<char>>(e@),
        },
{
    match parse_kg_with_warnings(raw, graph_name, strict) {
        Ok((g, _)) => Ok(g),
        Err(e) => Err(e),
    }
}

} // verus!
