//! Importing Markdown documents: a document with a frontmatter block
//! becomes a node, or a note when its frontmatter says so; the body goes
//! into the note, or into the node's facts when asked for.
use vstd::prelude::*;
use crate::graph::{copy_string, copy_strings, opt_view, GraphFile, GraphV, Node, NodeProperties, NodeV, Note, NoteV};
use crate::graph_merge::MergeItem;
use crate::import_csv::{first_index_with_key, first_key_index, CsvImportSummary, CsvItem};
use crate::sorting::views;
use crate::text::{
    append_chars, append_str, chars_eq_str, chars_of, join_chars, join_with, lines, lines_exec,
    seqs_view, starts_with_str, string_of, trim, trim_chars, trim_start, trim_start_chars,
};

verus! {

broadcast use vstd::string::group_string_axioms;

/// Which side wins when an imported item's id already exists.
#[derive(Clone, Copy, PartialEq, Eq, Structural, Debug)]
pub enum MarkdownStrategy {
    PreferNew,
    PreferOld,
}

/// What to import and how.
#[derive(Debug)]
pub struct MarkdownImportArgs {
    /// A Markdown file, or a directory searched for `.md` files.
    pub path: String,
    /// Whether the body of a node document becomes one more key fact.
    pub notes_as_nodes: bool,
    pub strategy: MarkdownStrategy,
}

/// The fields a frontmatter block may set.  Numbers are kept as the
/// decimal text the graph stores.
#[derive(Debug)]
pub struct Frontmatter {
    pub id: Option<String>,
    pub node_id: Option<String>,
    pub note_id: Option<String>,
    pub name: Option<String>,
    pub node_type: Option<String>,
    pub description: Option<String>,
    pub domain_area: Option<String>,
    pub provenance: Option<String>,
    pub confidence: Option<String>,
    pub importance: Option<String>,
    pub created_at: Option<String>,
    pub alias: Option<Vec<String>>,
    pub key_facts: Option<Vec<String>>,
    pub source_files: Option<Vec<String>>,
    pub tags: Option<Vec<String>>,
    pub author: Option<String>,
    pub note: Option<bool>,
}

/// A frontmatter block, as values.
pub struct FrontmatterV {
    pub id: Option<Seq<char>>,
    pub node_id: Option<Seq<char>>,
    pub note_id: Option<Seq<char>>,
    pub name: Option<Seq<char>>,
    pub node_type: Option<Seq<char>>,
    pub description: Option<Seq<char>>,
    pub domain_area: Option<Seq<char>>,
    pub provenance: Option<Seq<char>>,
    pub confidence: Option<Seq<char>>,
    pub importance: Option<Seq<char>>,
    pub created_at: Option<Seq<char>>,
    pub alias: Option<Seq<Seq<char>>>,
    pub key_facts: Option<Seq<Seq<char>>>,
    pub source_files: Option<Seq<Seq<char>>>,
    pub tags: Option<Seq<Seq<char>>>,
    pub author: Option<Seq<char>>,
    pub note: Option<bool>,
}

/// The view of an optional list of strings.
pub open spec fn opt_list_view(o: Option<Vec<String>>) -> Option<Seq<Seq<char>>> {
    match o {
        Some(v) => Some(views(v@)),
        None => None,
    }
}

impl View for Frontmatter {
    type V = FrontmatterV;

    open spec fn view(&self) -> FrontmatterV {
        FrontmatterV {
            id: opt_view(self.id),
            node_id: opt_view(self.node_id),
            note_id: opt_view(self.note_id),
            name: opt_view(self.name),
            node_type: opt_view(self.node_type),
            description: opt_view(self.description),
            domain_area: opt_view(self.domain_area),
            provenance: opt_view(self.provenance),
            confidence: opt_view(self.confidence),
            importance: opt_view(self.importance),
            created_at: opt_view(self.created_at),
            alias: opt_list_view(self.alias),
            key_facts: opt_list_view(self.key_facts),
            source_files: opt_list_view(self.source_files),
            tags: opt_list_view(self.tags),
            author: opt_view(self.author),
            note: self.note,
        }
    }
}

impl Frontmatter {
    /// A frontmatter that sets nothing.
    pub fn empty() -> (r: Frontmatter)
        ensures
            r@ == empty_frontmatter(),
    {
        Frontmatter {
            id: None,
            node_id: None,
            note_id: None,
            name: None,
            node_type: None,
            description: None,
            domain_area: None,
            provenance: None,
            confidence: None,
            importance: None,
            created_at: None,
            alias: None,
            key_facts: None,
            source_files: None,
            tags: None,
            author: None,
            note: None,
        }
    }
}

/// A frontmatter that sets nothing.
pub open spec fn empty_frontmatter() -> FrontmatterV {
    FrontmatterV {
        id: None,
        node_id: None,
        note_id: None,
        name: None,
        node_type: None,
        description: None,
        domain_area: None,
        provenance: None,
        confidence: None,
        importance: None,
        created_at: None,
        alias: None,
        key_facts: None,
        source_files: None,
        tags: None,
        author: None,
        note: None,
    }
}

/// One Markdown document read from disk: its frontmatter, its trimmed
/// body, its file stem and its path.
#[derive(Debug)]
pub struct MarkdownDocument {
    pub frontmatter: Frontmatter,
    pub body: String,
    pub stem: String,
    pub source_file: String,
}

/// A document, as values.
pub struct DocV {
    pub fm: FrontmatterV,
    pub body: Seq<char>,
    pub stem: Seq<char>,
    pub source_file: Seq<char>,
}

impl View for MarkdownDocument {
    type V = DocV;

    open spec fn view(&self) -> DocV {
        DocV {
            fm: self.frontmatter@,
            body: self.body@,
            stem: self.stem@,
            source_file: self.source_file@,
        }
    }
}

// ---------------------------------------------------------------------------
// Splitting a document
// ---------------------------------------------------------------------------

/// The lines of a frontmatter block and of the body: the block runs up to
/// the first line that is `---` once trimmed (to the end when there is
/// none), the body is the rest.
pub open spec fn split_block(ls: Seq<Seq<char>>) -> (Seq<Seq<char>>, Seq<Seq<char>>, bool)
    decreases ls.len(),
{
    if ls.len() == 0 {
        (Seq::empty(), Seq::empty(), true)
    } else {
        let (fm, body, open) = split_block(ls.drop_last());
        if open && trim(ls.last()) == "---"@ {
            (fm, body, false)
        } else if open {
            (fm.push(ls.last()), body, true)
        } else {
            (fm, body.push(ls.last()), false)
        }
    }
}

/// The frontmatter text of a document (none when it has no block, or a
/// blank one) and its body.  A document has a block when, after leading
/// whitespace, its first line is `---`; without one, the body is the whole
/// trimmed text.
pub open spec fn frontmatter_parts_spec(raw: Seq<char>) -> (Option<Seq<char>>, Seq<char>) {
    let t = trim_start(raw);
    let ls = lines(t);
    if !"---"@.is_prefix_of(t) || ls.len() == 0 || trim(ls[0]) != "---"@ {
        (None, trim(raw))
    } else {
        let (fm, body, _) = split_block(ls.drop_first());
        let fm_raw = join_with(fm, '\n');
        (if trim(fm_raw).len() == 0 {
            None
        } else {
            Some(fm_raw)
        }, trim(join_with(body, '\n')))
    }
}

/// Splits a document into its frontmatter text (to be read as YAML) and
/// its trimmed body.
pub fn frontmatter_parts(raw: &str) -> (r: (Option<String>, String))
    ensures
        (opt_view(r.0), r.1@) == frontmatter_parts_spec(raw@),
{
    let s = chars_of(raw);
    let t = trim_start_chars(s.as_slice());
    let ls = lines_exec(t.as_slice());
    let ghost lv = seqs_view(ls@);
    if !starts_with_str(t.as_slice(), "---") || ls.len() == 0 {
        let b = trim_chars(s.as_slice());
        return (None, string_of(b.as_slice()));
    }
    let first = trim_chars(ls[0].as_slice());
    assert(lv[0] == ls@[0]@);
    if !chars_eq_str(first.as_slice(), "---") {
        let b = trim_chars(s.as_slice());
        return (None, string_of(b.as_slice()));
    }
    let ghost rest = lv.drop_first();
    let mut fm: Vec<Vec<char>> = Vec::new();
    let mut body: Vec<Vec<char>> = Vec::new();
    let mut open = true;
    let mut i: usize = 1;
    assert(rest.take(0) =~= Seq::<Seq<char>>::empty());
    while i < ls.len()
        invariant
            1 <= i <= ls.len(),
            lv == seqs_view(ls@),
            rest == lv.drop_first(),
            (seqs_view(fm@), seqs_view(body@), open) == split_block(rest.take(i - 1)),
        decreases ls.len() - i,
    {
        proof {
            assert(rest.take(i as int).drop_last() =~= rest.take(i - 1));
            assert(rest.take(i as int).last() == ls@[i as int]@);
        }
        let line = &ls[i];
        let lt = trim_chars(line.as_slice());
        if open && chars_eq_str(lt.as_slice(), "---") {
            open = false;
        } else if open {
            let ghost before = seqs_view(fm@);
            fm.push(crate::text::copy_chars(line.as_slice(), 0, line.len()));
            assert(line@.subrange(0, line@.len() as int) =~= line@);
            assert(seqs_view(fm@) =~= before.push(line@));
        } else {
            let ghost before = seqs_view(body@);
            body.push(crate::text::copy_chars(line.as_slice(), 0, line.len()));
            assert(line@.subrange(0, line@.len() as int) =~= line@);
            assert(seqs_view(body@) =~= before.push(line@));
        }
        i += 1;
    }
    assert(rest.take(ls.len() - 1) =~= rest);
    let fm_raw = join_chars(&fm, '\n');
    let fm_trim = trim_chars(fm_raw.as_slice());
    let body_raw = join_chars(&body, '\n');
    let b = trim_chars(body_raw.as_slice());
    let fm_out = if fm_trim.len() == 0 {
        None
    } else {
        Some(string_of(fm_raw.as_slice()))
    };
    (fm_out, string_of(b.as_slice()))
}

// ---------------------------------------------------------------------------
// Documents as graph items
// ---------------------------------------------------------------------------

/// Whether a document is a note: its frontmatter says `note: true` or
/// names a node id or a note id.
pub open spec fn is_note_doc(fm: FrontmatterV) -> bool {
    fm.note == Some(true) || fm.node_id is Some || fm.note_id is Some
}

/// The value, or the default.
pub open spec fn or_text(o: Option<Seq<char>>, d: Seq<char>) -> Seq<char> {
    match o {
        Some(v) => v,
        None => d,
    }
}

/// The list, or the default.
pub open spec fn or_list(o: Option<Seq<Seq<char>>>, d: Seq<Seq<char>>) -> Seq<Seq<char>> {
    match o {
        Some(v) => v,
        None => d,
    }
}

/// The note a note document stands for: its id is the note id, else the
/// id, else `note:<stem>`; its node is the node id, else `note:<stem>`; its
/// body is the document body, or the description when the body is empty;
/// its sources are the listed ones, else the document's path.
pub open spec fn note_of_doc(d: DocV) -> NoteV {
    let fallback = "note:"@ + d.stem;
    NoteV {
        id: match d.fm.note_id {
            Some(v) => v,
            None => or_text(d.fm.id, fallback),
        },
        node_id: or_text(d.fm.node_id, fallback),
        body: if d.body.len() == 0 {
            or_text(d.fm.description, Seq::empty())
        } else {
            d.body
        },
        tags: or_list(d.fm.tags, Seq::empty()),
        author: or_text(d.fm.author, Seq::empty()),
        created_at: or_text(d.fm.created_at, Seq::empty()),
        provenance: or_text(d.fm.provenance, Seq::empty()),
        source_files: or_list(d.fm.source_files, seq![d.source_file]),
    }
}

/// The node a node document stands for, or the error when it has no id:
/// type `Note` and name the id unless given, importance `0.5` unless
/// given, and the body as one more key fact when asked for and not empty.
pub open spec fn node_of_doc(d: DocV, notes_as_nodes: bool) -> Result<NodeV, Seq<char>> {
    match d.fm.id {
        None => Err("missing id in "@ + d.source_file),
        Some(id) => {
            let facts = or_list(d.fm.key_facts, Seq::empty());
            Ok(
                NodeV {
                    id,
                    node_type: or_text(d.fm.node_type, "Note"@),
                    name: or_text(d.fm.name, id),
                    props: crate::graph::NodePropsV {
                        description: or_text(d.fm.description, Seq::empty()),
                        domain_area: or_text(d.fm.domain_area, Seq::empty()),
                        provenance: or_text(d.fm.provenance, Seq::empty()),
                        confidence: d.fm.confidence,
                        importance: or_text(d.fm.importance, "0.5"@),
                        created_at: or_text(d.fm.created_at, Seq::empty()),
                        alias: or_list(d.fm.alias, Seq::empty()),
                        key_facts: if notes_as_nodes && d.body.len() > 0 {
                            facts.push(d.body)
                        } else {
                            facts
                        },
                        ..crate::graph::default_node_props()
                    },
                    source_files: or_list(d.fm.source_files, seq![d.source_file]),
                },
            )
        },
    }
}

// ---------------------------------------------------------------------------
// Merging
// ---------------------------------------------------------------------------

/// What merging one item into a list gives: the new list, whether it was
/// added (0), updated (1) or skipped (2), and the conflict it records.  An
/// item whose key exists replaces the first such item when the new side is
/// preferred; otherwise it is skipped, and recorded as a conflict when it
/// differs.
pub open spec fn merge_into<T: CsvItem>(items: Seq<T::V>, x: T::V, prefer_new: bool) -> (
    Seq<T::V>,
    nat,
    Option<Seq<char>>,
) {
    match first_key_index::<T>(items, T::key_of(x)) {
        Some(i) => if prefer_new {
            (items.update(i, x), 1, None)
        } else {
            (items, 2, if items[i] != x {
                Some(T::entity() + " "@ + T::key_of(x))
            } else {
                None
            })
        },
        None => (items.push(x), 0, None),
    }
}

fn merge_one<T: CsvItem>(items: &mut Vec<T>, x: T, prefer_new: bool) -> (r: (usize, Option<String>))
    ensures
        (views(final(items)@), r.0 as nat, opt_view(r.1)) == merge_into::<T>(
            views(old(items)@),
            x@,
            prefer_new,
        ),
{
    let key = x.merge_key();
    proof {
        crate::import_csv::lemma_first_key_index::<T>(views(items@), key@);
    }
    match first_index_with_key(items, &key) {
        Some(i) => {
            if prefer_new {
                let ghost before = views(items@);
                items.set(i, x);
                assert(views(items@) =~= before.update(i as int, x@));
                (1, None)
            } else {
                let differs = !items[i].same_value(&x);
                if differs {
                    let mut msg = chars_of(T::entity_name());
                    msg.push(' ');
                    append_chars(&mut msg, key.as_slice());
                    proof {
                        reveal_strlit(" ");
                        assert(msg@ =~= T::entity() + " "@ + key@);
                    }
                    (2, Some(string_of(msg.as_slice())))
                } else {
                    (2, None)
                }
            }
        },
        None => {
            let ghost before = views(items@);
            items.push(x);
            assert(views(items@) =~= before.push(x@));
            (0, None)
        },
    }
}

/// The state of a Markdown import: the graph's nodes and notes, the counts
/// and the conflicts.
pub struct MdImportV {
    pub nodes: Seq<NodeV>,
    pub notes: Seq<NoteV>,
    pub nodes_added: nat,
    pub nodes_updated: nat,
    pub nodes_skipped: nat,
    pub notes_added: nat,
    pub notes_updated: nat,
    pub notes_skipped: nat,
    pub conflicts: Seq<Seq<char>>,
}

/// The conflicts after one more merge.
pub open spec fn with_conflict(c: Seq<Seq<char>>, x: Option<Seq<char>>) -> Seq<Seq<char>> {
    match x {
        Some(m) => c.push(m),
        None => c,
    }
}

/// The import after one more document, or the error that stops it.
pub open spec fn md_step(st: MdImportV, d: DocV, notes_as_nodes: bool, prefer_new: bool) -> Result<
    MdImportV,
    Seq<char>,
> {
    if is_note_doc(d.fm) {
        let (notes, k, c) = merge_into::<Note>(st.notes, note_of_doc(d), prefer_new);
        Ok(
            MdImportV {
                notes,
                notes_added: st.notes_added + if k == 0 { 1nat } else { 0nat },
                notes_updated: st.notes_updated + if k == 1 { 1nat } else { 0nat },
                notes_skipped: st.notes_skipped + if k == 2 { 1nat } else { 0nat },
                conflicts: with_conflict(st.conflicts, c),
                ..st
            },
        )
    } else {
        match node_of_doc(d, notes_as_nodes) {
            Err(e) => Err(e),
            Ok(n) => {
                let (nodes, k, c) = merge_into::<Node>(st.nodes, n, prefer_new);
                Ok(
                    MdImportV {
                        nodes,
                        nodes_added: st.nodes_added + if k == 0 { 1nat } else { 0nat },
                        nodes_updated: st.nodes_updated + if k == 1 { 1nat } else { 0nat },
                        nodes_skipped: st.nodes_skipped + if k == 2 { 1nat } else { 0nat },
                        conflicts: with_conflict(st.conflicts, c),
                        ..st
                    },
                )
            },
        }
    }
}

/// The import after the given documents, in order, or the first error.
pub open spec fn md_run(st: MdImportV, docs: Seq<DocV>, notes_as_nodes: bool, prefer_new: bool) -> Result<
    MdImportV,
    Seq<char>,
>
    decreases docs.len(),
{
    if docs.len() == 0 {
        Ok(st)
    } else {
        match md_run(st, docs.drop_last(), notes_as_nodes, prefer_new) {
            Err(e) => Err(e),
            Ok(p) => md_step(p, docs.last(), notes_as_nodes, prefer_new),
        }
    }
}

proof fn lemma_md_run_err(st: MdImportV, docs: Seq<DocV>, k: int, notes_as_nodes: bool, prefer_new: bool)
    requires
        0 <= k <= docs.len(),
        md_run(st, docs.take(k), notes_as_nodes, prefer_new) is Err,
    ensures
        md_run(st, docs, notes_as_nodes, prefer_new) == md_run(st, docs.take(k), notes_as_nodes, prefer_new),
    decreases docs.len() - k,
{
    if k < docs.len() {
        let t = docs.take(k + 1);
        assert(t.drop_last() =~= docs.take(k));
        lemma_md_run_err(st, docs, k + 1, notes_as_nodes, prefer_new);
    } else {
        assert(docs.take(k) =~= docs);
    }
}

/// A document that is not a note and has an id becomes a node with that id:
/// named by the frontmatter's `name` where one is given and by the id where
/// none is, of the given type or else `Note`, of the given importance or
/// else `0.5`; once merged (preferring the new side, or with an id no node
/// has yet) the nodes hold it.
pub proof fn law_md_node_name(st: MdImportV, d: DocV, notes_as_nodes: bool, prefer_new: bool)
    requires
        !is_note_doc(d.fm),
        d.fm.id is Some,
        prefer_new || forall|i: int| 0 <= i < st.nodes.len() ==> (#[trigger] st.nodes[i]).id != d.fm.id->0,
    ensures
        md_step(st, d, notes_as_nodes, prefer_new) matches Ok(s) && exists|j: int|
            0 <= j < s.nodes.len() && (#[trigger] s.nodes[j]).id == d.fm.id->0 && (d.fm.name matches Some(
                n,
            ) ==> s.nodes[j].name == n) && (d.fm.name is None ==> s.nodes[j].name == d.fm.id->0) && (
            d.fm.node_type matches Some(t) ==> s.nodes[j].node_type == t) && (d.fm.node_type is None
                ==> s.nodes[j].node_type == "Note"@) && (d.fm.importance matches Some(m)
                ==> s.nodes[j].props.importance == m) && (d.fm.importance is None
                ==> s.nodes[j].props.importance == "0.5"@),
{
    let id = d.fm.id->0;
    let n = node_of_doc(d, notes_as_nodes)->Ok_0;
    crate::import_csv::lemma_first_key_index::<Node>(st.nodes, id);
    let s = md_step(st, d, notes_as_nodes, prefer_new)->Ok_0;
    match first_key_index::<Node>(st.nodes, id) {
        Some(i) => {
            assert(prefer_new);
            assert(s.nodes == st.nodes.update(i, n));
            assert(s.nodes[i] == n);
        },
        None => {
            assert(s.nodes == st.nodes.push(n));
            assert(s.nodes[st.nodes.len() as int] == n);
        },
    }
}

/// A note document becomes a note whose id is the frontmatter's note id,
/// else its id, else `note:` and the file stem; whose node is the
/// frontmatter's node id, else `note:` and the stem; and whose body is the
/// document's body, or the description where the body is empty.  Once
/// merged (preferring the new side, or with an id no note has yet) the
/// notes hold it.
pub proof fn law_md_note_fields(st: MdImportV, d: DocV, notes_as_nodes: bool, prefer_new: bool)
    requires
        is_note_doc(d.fm),
        prefer_new || forall|i: int| 0 <= i < st.notes.len() ==> (#[trigger] st.notes[i]).id != note_of_doc(
            d,
        ).id,
    ensures
        md_step(st, d, notes_as_nodes, prefer_new) matches Ok(s) && exists|j: int|
            0 <= j < s.notes.len() && {
                let o = #[trigger] s.notes[j];
                &&& d.fm.note_id matches Some(x) ==> o.id == x
                &&& d.fm.note_id is None ==> (d.fm.id matches Some(x) ==> o.id == x)
                &&& d.fm.note_id is None && d.fm.id is None ==> o.id == "note:"@ + d.stem
                &&& d.fm.node_id matches Some(x) ==> o.node_id == x
                &&& d.fm.node_id is None ==> o.node_id == "note:"@ + d.stem
                &&& d.body.len() > 0 ==> o.body == d.body
                &&& d.body.len() == 0 ==> (d.fm.description matches Some(x) ==> o.body == x)
                &&& d.body.len() == 0 && d.fm.description is None ==> o.body.len() == 0
            },
{
    let o = note_of_doc(d);
    crate::import_csv::lemma_first_key_index::<Note>(st.notes, o.id);
    let s = md_step(st, d, notes_as_nodes, prefer_new)->Ok_0;
    match first_key_index::<Note>(st.notes, o.id) {
        Some(i) => {
            assert(prefer_new);
            assert(s.notes == st.notes.update(i, o));
            assert(s.notes[i] == o);
        },
        None => {
            assert(s.notes == st.notes.push(o));
            assert(s.notes[st.notes.len() as int] == o);
        },
    }
}

/// The state before any document.
pub open spec fn md_start(g: GraphV) -> MdImportV {
    MdImportV {
        nodes: g.nodes,
        notes: g.notes,
        nodes_added: 0,
        nodes_updated: 0,
        nodes_skipped: 0,
        notes_added: 0,
        notes_updated: 0,
        notes_skipped: 0,
        conflicts: Seq::empty(),
    }
}

fn opt_copy(o: &Option<String>) -> (r: Option<String>)
    ensures
        opt_view(r) == opt_view(*o),
{
    match o {
        Some(s) => Some(copy_string(s)),
        None => None,
    }
}

fn text_or(o: &Option<String>, d: &str) -> (r: String)
    ensures
        r@ == or_text(opt_view(*o), d@),
{
    match o {
        Some(s) => copy_string(s),
        None => string_of(chars_of(d).as_slice()),
    }
}

fn list_or_empty(o: &Option<Vec<String>>) -> (r: Vec<String>)
    ensures
        views(r@) == or_list(opt_list_view(*o), Seq::empty()),
{
    match o {
        Some(v) => copy_strings(v),
        None => {
            let r: Vec<String> = Vec::new();
            assert(views(r@) =~= Seq::<Seq<char>>::empty());
            r
        },
    }
}

fn sources_or_path(o: &Option<Vec<String>>, path: &String) -> (r: Vec<String>)
    ensures
        views(r@) == or_list(opt_list_view(*o), seq![path@]),
{
    match o {
        Some(v) => copy_strings(v),
        None => {
            let mut r: Vec<String> = Vec::new();
            r.push(copy_string(path));
            assert(views(r@) =~= seq![path@]);
            r
        },
    }
}

fn note_of(d: &MarkdownDocument) -> (r: Note)
    ensures
        r@ == note_of_doc(d@),
{
    let fm = &d.frontmatter;
    let mut fallback = chars_of("note:");
    append_str(&mut fallback, d.stem.as_str());
    let fb = string_of(fallback.as_slice());
    let id = match &fm.note_id {
        Some(v) => copy_string(v),
        None => match &fm.id {
            Some(v) => copy_string(v),
            None => copy_string(&fb),
        },
    };
    let node_id = match &fm.node_id {
        Some(v) => copy_string(v),
        None => copy_string(&fb),
    };
    let body = if d.body.as_str().unicode_len() == 0 {
        text_or(&fm.description, "")
    } else {
        copy_string(&d.body)
    };
    let r = Note {
        id,
        node_id,
        body,
        tags: list_or_empty(&fm.tags),
        author: text_or(&fm.author, ""),
        created_at: text_or(&fm.created_at, ""),
        provenance: text_or(&fm.provenance, ""),
        source_files: sources_or_path(&fm.source_files, &d.source_file),
    };
    proof {
        reveal_strlit("");
        assert(""@ =~= Seq::<char>::empty());
    }
    r
}

fn node_of(d: &MarkdownDocument, notes_as_nodes: bool) -> (r: Result<Node, String>)
    ensures
        match node_of_doc(d@, notes_as_nodes) {
            Ok(n) => r matches Ok(x) && x@ == n,
            Err(e) => r matches Err(x) && x@ == e,
        },
{
    let fm = &d.frontmatter;
    let id = match &fm.id {
        Some(v) => copy_string(v),
        None => {
            let mut msg = chars_of("missing id in ");
            append_str(&mut msg, d.source_file.as_str());
            return Err(string_of(msg.as_slice()));
        },
    };
    let mut props = NodeProperties::new_default();
    props.description = text_or(&fm.description, "");
    props.domain_area = text_or(&fm.domain_area, "");
    props.provenance = text_or(&fm.provenance, "");
    props.confidence = opt_copy(&fm.confidence);
    props.importance = text_or(&fm.importance, "0.5");
    props.created_at = text_or(&fm.created_at, "");
    props.alias = list_or_empty(&fm.alias);
    let mut facts = list_or_empty(&fm.key_facts);
    if notes_as_nodes && d.body.as_str().unicode_len() > 0 {
        let ghost before = views(facts@);
        facts.push(copy_string(&d.body));
        assert(views(facts@) =~= before.push(d.body@));
    }
    props.key_facts = facts;
    let name = match &fm.name {
        Some(v) => copy_string(v),
        None => copy_string(&id),
    };
    let r = Node {
        id,
        node_type: text_or(&fm.node_type, "Note"),
        name,
        properties: props,
        source_files: sources_or_path(&fm.source_files, &d.source_file),
    };
    proof {
        reveal_strlit("");
        assert(""@ =~= Seq::<char>::empty());
        let n = node_of_doc(d@, notes_as_nodes)->Ok_0;
        assert(r@.props =~= n.props);
        assert(r@ =~= n);
    }
    Ok(r)
}

/// Imports Markdown documents, in order, into a graph: each note document
/// is merged into the notes, each other document into the nodes; the first
/// document without an id (and not a note) stops the import with an error,
/// the documents before it staying merged.
pub fn import_markdown_documents(
    graph: &mut GraphFile,
    docs: &Vec<MarkdownDocument>,
    args: &MarkdownImportArgs,
) -> (r: Result<CsvImportSummary, String>)
    ensures
        match md_run(
            md_start(old(graph)@),
            views(docs@),
            args.notes_as_nodes,
            args.strategy == MarkdownStrategy::PreferNew,
        ) {
            Ok(st) => r matches Ok(s) && final(graph)@.nodes == st.nodes && final(graph)@.notes
                == st.notes && final(graph)@.edges == old(graph)@.edges && final(graph)@.metadata
                == (crate::graph::MetadataV {
                node_count: st.nodes.len(),
                edge_count: old(graph)@.edges.len(),
                ..old(graph)@.metadata
            }) && s.nodes_added == st.nodes_added && s.nodes_updated == st.nodes_updated
                && s.nodes_skipped == st.nodes_skipped && s.notes_added == st.notes_added
                && s.notes_updated == st.notes_updated && s.notes_skipped == st.notes_skipped
                && s.edges_added == 0 && s.edges_updated == 0 && s.edges_skipped == 0 && views(
                s.conflicts@,
            ) == st.conflicts,
            Err(e) => r matches Err(x) && x@ == e,
        },
{
    let prefer_new = args.strategy == MarkdownStrategy::PreferNew;
    let ghost dv = views(docs@);
    let ghost start = md_start(graph@);
    let ghost edges0 = graph@.edges;
    let ghost meta0 = graph@.metadata;
    let mut summary = CsvImportSummary::new();
    let mut i: usize = 0;
    assert(dv.take(0) =~= Seq::<DocV>::empty());
    assert(views(summary.conflicts@) =~= Seq::<Seq<char>>::empty());
    while i < docs.len()
        invariant
            i <= docs.len(),
            dv == views(docs@),
            start == md_start(old(graph)@),
            prefer_new == (args.strategy == MarkdownStrategy::PreferNew),
            graph@.edges == edges0,
            graph@.metadata == meta0,
            summary.edges_added == 0 && summary.edges_updated == 0 && summary.edges_skipped == 0,
            summary.nodes_added + summary.nodes_updated + summary.nodes_skipped
                + summary.notes_added + summary.notes_updated + summary.notes_skipped == i,
            md_run(start, dv.take(i as int), args.notes_as_nodes, prefer_new) matches Ok(st) && (
            st.nodes == graph@.nodes && st.notes == graph@.notes && st.nodes_added
                == summary.nodes_added && st.nodes_updated == summary.nodes_updated
                && st.nodes_skipped == summary.nodes_skipped && st.notes_added
                == summary.notes_added && st.notes_updated == summary.notes_updated
                && st.notes_skipped == summary.notes_skipped && st.conflicts == views(
                summary.conflicts@,
            )),
        decreases docs.len() - i,
    {
        let d = &docs[i];
        proof {
            assert(dv.take(i + 1).drop_last() =~= dv.take(i as int));
            assert(dv.take(i + 1).last() == d@);
        }
        let fm = &d.frontmatter;
        let is_note = match fm.note {
            Some(b) => b,
            None => false,
        } || fm.node_id.is_some() || fm.note_id.is_some();
        let outcome: (usize, Option<String>);
        if is_note {
            let note = note_of(d);
            outcome = merge_one(&mut graph.notes, note, prefer_new);
            if outcome.0 == 0 {
                summary.notes_added += 1;
            } else if outcome.0 == 1 {
                summary.notes_updated += 1;
            } else {
                summary.notes_skipped += 1;
            }
        } else {
            let node = match node_of(d, args.notes_as_nodes) {
                Ok(n) => n,
                Err(e) => {
                    proof {
                        let t = dv.take(i + 1);
                        assert(t.drop_last() =~= dv.take(i as int));
                        assert(t.last() == d@);
                        assert(!is_note_doc(d@.fm));
                        assert(node_of_doc(d@, args.notes_as_nodes) == Err::<NodeV, Seq<char>>(e@));
                        assert(md_run(start, t, args.notes_as_nodes, prefer_new) == Err::<
                            MdImportV,
                            Seq<char>,
                        >(e@));
                        lemma_md_run_err(start, dv, i + 1, args.notes_as_nodes, prefer_new);
                    }
                    return Err(e);
                },
            };
            outcome = merge_one(&mut graph.nodes, node, prefer_new);
            if outcome.0 == 0 {
                summary.nodes_added += 1;
            } else if outcome.0 == 1 {
                summary.nodes_updated += 1;
            } else {
                summary.nodes_skipped += 1;
            }
        }
        match outcome.1 {
            Some(c) => {
                let ghost before = views(summary.conflicts@);
                summary.conflicts.push(c);
                assert(views(summary.conflicts@) =~= before.push(c@));
            },
            None => {},
        }
        i += 1;
    }
    assert(dv.take(docs.len() as int) =~= dv);
    graph.refresh_counts();
    Ok(summary)
}

} // verus!
