//! Choosing annotations of a text: candidate spans that name a node are
//! ranked, and the best ones that do not overlap are kept.
use vstd::prelude::*;
use crate::graph::{copy_string, Node, NodeV};
use crate::kg_codec::{node_type_code, node_type_to_code};
use crate::sorting::{KeyOrder, sorted_seq, stable_sort, views};
use crate::text::{append_chars, append_str, chars_eq, chars_of, lex_order, lex_order_chars, split_once, split_once_chars, string_of};

verus! {

broadcast use vstd::string::group_string_axioms;

/// A span of a text (byte offsets `start..end`) that names a node, with
/// its score.
#[derive(Debug)]
pub struct AnnotationCandidate {
    pub start: usize,
    pub end: usize,
    pub score: i64,
    pub node_id: String,
}

/// A candidate, as values.
pub struct CandV {
    pub start: nat,
    pub end: nat,
    pub score: int,
    pub node_id: Seq<char>,
}

impl View for AnnotationCandidate {
    type V = CandV;

    open spec fn view(&self) -> CandV {
        CandV {
            start: self.start as nat,
            end: self.end as nat,
            score: self.score as int,
            node_id: self.node_id@,
        }
    }
}

impl AnnotationCandidate {
    /// A copy of the candidate.
    pub fn copy(&self) -> (r: AnnotationCandidate)
        ensures
            r@ == self@,
    {
        AnnotationCandidate {
            start: self.start,
            end: self.end,
            score: self.score,
            node_id: copy_string(&self.node_id),
        }
    }
}

/// The length of a candidate's span.
pub open spec fn span_len(c: CandV) -> int {
    c.end - c.start
}

/// Whether two spans share a byte.
pub open spec fn overlaps_spec(a: CandV, b: CandV) -> bool {
    a.start < b.end && b.start < a.end
}

/// Whether two candidates' spans overlap.
pub fn overlaps(left: &AnnotationCandidate, right: &AnnotationCandidate) -> (r: bool)
    ensures
        r == overlaps_spec(left@, right@),
{
    left.start < right.end && right.start < left.end
}

/// Whether `a` is a better annotation than `b`: a higher score, then a
/// longer span, then a smaller node id.
pub open spec fn better_spec(a: CandV, b: CandV) -> bool {
    ||| a.score > b.score
    ||| (a.score == b.score && span_len(a) > span_len(b))
    ||| (a.score == b.score && span_len(a) == span_len(b) && lex_order(a.node_id, b.node_id) < 0)
}

/// Whether the first candidate is a better annotation than the second.
pub fn is_better_annotation(left: &AnnotationCandidate, right: &AnnotationCandidate) -> (r: bool)
    requires
        left.start <= left.end,
        right.start <= right.end,
    ensures
        r == better_spec(left@, right@),
{
    let ll = left.end - left.start;
    let rl = right.end - right.start;
    if left.score > right.score {
        return true;
    }
    if left.score == right.score && ll > rl {
        return true;
    }
    if left.score == right.score && ll == rl {
        let a = chars_of(left.node_id.as_str());
        let b = chars_of(right.node_id.as_str());
        return lex_order_chars(a.as_slice(), b.as_slice()) < 0;
    }
    false
}

/// Candidates ranked best first: score, then span length, both
/// descending; then start and node id, ascending.
pub struct ByRank(pub AnnotationCandidate);

/// Candidates in text order: by start, then by end.
pub struct ByPosition(pub AnnotationCandidate);

impl View for ByRank {
    type V = CandV;

    open spec fn view(&self) -> CandV {
        self.0@
    }
}

impl View for ByPosition {
    type V = CandV;

    open spec fn view(&self) -> CandV {
        self.0@
    }
}

impl KeyOrder for ByRank {
    open spec fn spec_after(a: CandV, b: CandV) -> bool {
        ||| a.score < b.score
        ||| (a.score == b.score && span_len(a) < span_len(b))
        ||| (a.score == b.score && span_len(a) == span_len(b) && a.start > b.start)
        ||| (a.score == b.score && span_len(a) == span_len(b) && a.start == b.start && lex_order(
            a.node_id,
            b.node_id,
        ) > 0)
    }

    fn after(&self, other: &Self) -> (r: bool) {
        let a = &self.0;
        let b = &other.0;
        if a.score != b.score {
            return a.score < b.score;
        }
        let la: i128 = a.end as i128 - a.start as i128;
        let lb: i128 = b.end as i128 - b.start as i128;
        if la != lb {
            return la < lb;
        }
        if a.start != b.start {
            return a.start > b.start;
        }
        let x = chars_of(a.node_id.as_str());
        let y = chars_of(b.node_id.as_str());
        lex_order_chars(x.as_slice(), y.as_slice()) > 0
    }
}

impl KeyOrder for ByPosition {
    open spec fn spec_after(a: CandV, b: CandV) -> bool {
        a.start > b.start || (a.start == b.start && a.end > b.end)
    }

    fn after(&self, other: &Self) -> (r: bool) {
        self.0.start > other.0.start || (self.0.start == other.0.start && self.0.end > other.0.end)
    }
}

/// The candidates kept in rank order: each one that overlaps none kept
/// before it.
pub open spec fn greedy(s: Seq<CandV>) -> Seq<CandV>
    decreases s.len(),
{
    if s.len() == 0 {
        Seq::empty()
    } else {
        let p = greedy(s.drop_last());
        if exists|k: int| 0 <= k < p.len() && overlaps_spec(p[k], s.last()) {
            p
        } else {
            p.push(s.last())
        }
    }
}

/// The annotations kept from the candidates: in rank order, each that
/// overlaps none kept before it; then put in text order.
pub open spec fn select_spec(cands: Seq<CandV>) -> Seq<CandV> {
    sorted_seq::<ByPosition>(greedy(sorted_seq::<ByRank>(cands)))
}

fn unwrap_rank(v: Vec<ByRank>) -> (r: Vec<AnnotationCandidate>)
    ensures
        views(r@) == views(v@),
{
    let mut out: Vec<AnnotationCandidate> = Vec::new();
    let mut i: usize = 0;
    while i < v.len()
        invariant
            i <= v.len(),
            views(out@) == views(v@).take(i as int),
        decreases v.len() - i,
    {
        let ghost before = views(out@);
        out.push(v[i].0.copy());
        assert(views(out@) =~= before.push(views(v@)[i as int]));
        assert(views(v@).take(i + 1) =~= views(v@).take(i as int).push(views(v@)[i as int]));
        i += 1;
    }
    assert(views(v@).take(v.len() as int) =~= views(v@));
    out
}

fn unwrap_position(v: Vec<ByPosition>) -> (r: Vec<AnnotationCandidate>)
    ensures
        views(r@) == views(v@),
{
    let mut out: Vec<AnnotationCandidate> = Vec::new();
    let mut i: usize = 0;
    while i < v.len()
        invariant
            i <= v.len(),
            views(out@) == views(v@).take(i as int),
        decreases v.len() - i,
    {
        let ghost before = views(out@);
        out.push(v[i].0.copy());
        assert(views(out@) =~= before.push(views(v@)[i as int]));
        assert(views(v@).take(i + 1) =~= views(v@).take(i as int).push(views(v@)[i as int]));
        i += 1;
    }
    assert(views(v@).take(v.len() as int) =~= views(v@));
    out
}

/// Keeps the best candidates that do not overlap, in text order.
pub fn select_non_overlapping(candidates: Vec<AnnotationCandidate>) -> (r: Vec<AnnotationCandidate>)
    ensures
        views(r@) == select_spec(views(candidates@)),
{
    let ghost cv = views(candidates@);
    let mut ranked: Vec<ByRank> = Vec::new();
    let mut i: usize = 0;
    while i < candidates.len()
        invariant
            i <= candidates.len(),
            cv == views(candidates@),
            views(ranked@) == cv.take(i as int),
        decreases candidates.len() - i,
    {
        let ghost before = views(ranked@);
        ranked.push(ByRank(candidates[i].copy()));
        assert(views(ranked@) =~= before.push(cv[i as int]));
        assert(cv.take(i + 1) =~= cv.take(i as int).push(cv[i as int]));
        i += 1;
    }
    assert(cv.take(candidates.len() as int) =~= cv);
    let sorted = unwrap_rank(stable_sort(ranked));
    let ghost sv = views(sorted@);
    let mut selected: Vec<ByPosition> = Vec::new();
    let mut j: usize = 0;
    while j < sorted.len()
        invariant
            j <= sorted.len(),
            sv == views(sorted@),
            views(selected@) == greedy(sv.take(j as int)),
        decreases sorted.len() - j,
    {
        proof {
            assert(sv.take(j + 1).drop_last() =~= sv.take(j as int));
            assert(sv.take(j + 1).last() == sv[j as int]);
        }
        let c = &sorted[j];
        let ghost p = views(selected@);
        let mut clash = false;
        let mut k: usize = 0;
        while k < selected.len()
            invariant
                k <= selected.len(),
                p == views(selected@),
                sv == views(sorted@),
                j < sorted.len(),
                c@ == sv[j as int],
                clash == exists|q: int| 0 <= q < k && overlaps_spec(p[q], sv[j as int]),
            decreases selected.len() - k,
        {
            if overlaps(&selected[k].0, c) {
                assert(overlaps_spec(p[k as int], sv[j as int]));
                clash = true;
            }
            proof {
                if !clash {
                    assert forall|q: int| 0 <= q < k + 1 implies !overlaps_spec(p[q], sv[j as int]) by {
                        if q < k {
                        } else {
                            assert(p[q] == selected@[q]@);
                        }
                    }
                }
            }
            k += 1;
        }
        if !clash {
            selected.push(ByPosition(c.copy()));
            assert(views(selected@) =~= p.push(sv[j as int]));
        }
        j += 1;
    }
    assert(sv.take(sorted.len() as int) =~= sv);
    unwrap_position(stable_sort(selected))
}

// ---------------------------------------------------------------------------
// Matching node fields
// ---------------------------------------------------------------------------

/// Whether `needle` occurs as consecutive words in `haystack`.
pub open spec fn contains_subsequence_spec(haystack: Seq<Seq<char>>, needle: Seq<Seq<char>>) -> bool {
    exists|i: int|
        0 <= i && i + needle.len() <= haystack.len() && #[trigger] haystack.subrange(
            i,
            i + needle.len(),
        ) == needle
}

/// Whether `needle` occurs as consecutive words in `haystack`.
pub fn contains_subsequence(haystack: &Vec<String>, needle: &Vec<String>) -> (r: bool)
    requires
        needle.len() > 0,
    ensures
        r == contains_subsequence_spec(views(haystack@), views(needle@)),
{
    let ghost h = views(haystack@);
    let ghost n = views(needle@);
    if needle.len() > haystack.len() {
        return false;
    }
    let last = haystack.len() - needle.len();
    let mut i: usize = 0;
    while i <= last
        invariant
            last == haystack.len() - needle.len(),
            needle.len() > 0,
            i <= last + 1,
            h == views(haystack@),
            n == views(needle@),
            forall|q: int| 0 <= q < i ==> #[trigger] h.subrange(q, q + n.len()) != n,
        decreases last + 1 - i,
    {
        let mut same = true;
        let mut k: usize = 0;
        while k < needle.len()
            invariant
                k <= needle.len(),
                i + needle.len() <= haystack.len(),
                h == views(haystack@),
                n == views(needle@),
                same == (forall|t: int| 0 <= t < k ==> h[i + t] == n[t]),
            decreases needle.len() - k,
        {
            let a = chars_of(haystack[i + k].as_str());
            let b = chars_of(needle[k].as_str());
            let eq = chars_eq(a.as_slice(), b.as_slice());
            assert(eq == (h[i + k] == n[k as int]));
            same = same && eq;
            k += 1;
        }
        if same {
            assert(h.subrange(i as int, i + n.len()) =~= n);
            return true;
        }
        proof {
            if h.subrange(i as int, i + n.len()) == n {
                let t = choose|t: int| 0 <= t < n.len() && h[i + t] != n[t];
                assert(h.subrange(i as int, i + n.len())[t] == h[i + t]);
            }
        }
        i += 1;
    }
    false
}

/// The field of a node that a value comes from.
#[derive(Clone, Copy, PartialEq, Eq, Structural, Debug)]
pub enum AnnotateField {
    Id,
    Name,
    Alias,
    Fact,
}

/// The score of an exact match on a field.
pub open spec fn exact_score_spec(f: AnnotateField) -> int {
    match f {
        AnnotateField::Id => 125,
        AnnotateField::Name => 150,
        AnnotateField::Alias => 140,
        AnnotateField::Fact => 130,
    }
}

/// The score of a match on consecutive words of a field.
pub open spec fn overlap_score_spec(f: AnnotateField) -> int {
    match f {
        AnnotateField::Id => 108,
        AnnotateField::Name => 120,
        AnnotateField::Alias => 116,
        AnnotateField::Fact => 110,
    }
}

impl AnnotateField {
    /// The score of an exact match on this field.
    pub fn exact_score(self) -> (r: i64)
        ensures
            r == exact_score_spec(self),
    {
        match self {
            AnnotateField::Id => 125,
            AnnotateField::Name => 150,
            AnnotateField::Alias => 140,
            AnnotateField::Fact => 130,
        }
    }

    /// The score of a match on consecutive words of this field.
    pub fn overlap_score(self) -> (r: i64)
        ensures
            r == overlap_score_spec(self),
    {
        match self {
            AnnotateField::Id => 108,
            AnnotateField::Name => 120,
            AnnotateField::Alias => 116,
            AnnotateField::Fact => 110,
        }
    }
}

/// The part of an id after its first `:` (the whole id when it has none).
pub open spec fn id_suffix(id: Seq<char>) -> Seq<char> {
    match split_once(id, ':') {
        Some((_, suffix)) => suffix,
        None => id,
    }
}

/// The values of a node that a text can name it by: the name, the id
/// without its prefix, the aliases and the key facts.
pub open spec fn field_values_spec(n: NodeV) -> Seq<(AnnotateField, Seq<char>)> {
    seq![(AnnotateField::Name, n.name), (AnnotateField::Id, id_suffix(n.id))] + n.props.alias.map_values(
        |a: Seq<char>| (AnnotateField::Alias, a),
    ) + n.props.key_facts.map_values(|f: Seq<char>| (AnnotateField::Fact, f))
}

/// The view of field values.
pub open spec fn field_values_view(v: Seq<(AnnotateField, String)>) -> Seq<(AnnotateField, Seq<char>)> {
    v.map_values(|p: (AnnotateField, String)| (p.0, p.1@))
}

fn id_suffix_exec(id: &String) -> (r: Vec<char>)
    ensures
        r@ == id_suffix(id@),
{
    let c = chars_of(id.as_str());
    match split_once_chars(c.as_slice(), ':') {
        Some((_, suffix)) => suffix,
        None => c,
    }
}

fn push_field(out: &mut Vec<(AnnotateField, String)>, f: AnnotateField, s: String)
    ensures
        field_values_view(final(out)@) == field_values_view(old(out)@).push((f, s@)),
{
    out.push((f, s));
    assert(field_values_view(out@) =~= field_values_view(old(out)@).push((f, s@)));
}

/// The values of a node that a text can name it by.
pub fn annotation_field_values(node: &Node) -> (r: Vec<(AnnotateField, String)>)
    ensures
        field_values_view(r@) == field_values_spec(node@),
{
    let mut values: Vec<(AnnotateField, String)> = Vec::new();
    push_field(&mut values, AnnotateField::Name, copy_string(&node.name));
    let suffix = id_suffix_exec(&node.id);
    push_field(&mut values, AnnotateField::Id, string_of(suffix.as_slice()));
    let ghost head = field_values_view(values@);
    let aliases = &node.properties.alias;
    let mut i: usize = 0;
    while i < aliases.len()
        invariant
            i <= aliases.len(),
            field_values_view(values@) == head + views(aliases@).take(i as int).map_values(
                |a: Seq<char>| (AnnotateField::Alias, a),
            ),
        decreases aliases.len() - i,
    {
        push_field(&mut values, AnnotateField::Alias, copy_string(&aliases[i]));
        assert(views(aliases@).take(i + 1).map_values(|a: Seq<char>| (AnnotateField::Alias, a))
            =~= views(aliases@).take(i as int).map_values(|a: Seq<char>| (AnnotateField::Alias, a)).push(
            (AnnotateField::Alias, aliases@[i as int]@),
        ));
        i += 1;
    }
    assert(views(aliases@).take(aliases.len() as int) =~= views(aliases@));
    let ghost mid = field_values_view(values@);
    let facts = &node.properties.key_facts;
    let mut i: usize = 0;
    while i < facts.len()
        invariant
            i <= facts.len(),
            field_values_view(values@) == mid + views(facts@).take(i as int).map_values(
                |f: Seq<char>| (AnnotateField::Fact, f),
            ),
        decreases facts.len() - i,
    {
        push_field(&mut values, AnnotateField::Fact, copy_string(&facts[i]));
        assert(views(facts@).take(i + 1).map_values(|f: Seq<char>| (AnnotateField::Fact, f))
            =~= views(facts@).take(i as int).map_values(|f: Seq<char>| (AnnotateField::Fact, f)).push(
            (AnnotateField::Fact, facts@[i as int]@),
        ));
        i += 1;
    }
    assert(views(facts@).take(facts.len() as int) =~= views(facts@));
    assert(field_values_view(values@) =~= field_values_spec(node@));
    values
}

/// The short reference of a node in annotations: its type code and the id
/// without its prefix, `<code>:<suffix>`.
pub open spec fn node_ref_spec(n: NodeV) -> Seq<char> {
    node_type_code(n.node_type) + ":"@ + id_suffix(n.id)
}

/// The short reference of a node in annotations.
pub fn node_ref(node: &Node) -> (r: String)
    ensures
        r@ == node_ref_spec(node@),
{
    let t = chars_of(node.node_type.as_str());
    let mut out = node_type_to_code(t.as_slice());
    append_str(&mut out, ":");
    let suffix = id_suffix_exec(&node.id);
    append_chars(&mut out, suffix.as_slice());
    string_of(out.as_slice())
}

// ---------------------------------------------------------------------------
// Laws
// ---------------------------------------------------------------------------

/// Whether no two of the candidates overlap.
pub open spec fn pairwise_disjoint(s: Seq<CandV>) -> bool {
    forall|i: int, j: int| 0 <= i < s.len() && 0 <= j < s.len() && i != j ==> !overlaps_spec(s[i], s[j])
}

proof fn lemma_greedy_disjoint(s: Seq<CandV>)
    ensures
        pairwise_disjoint(greedy(s)),
    decreases s.len(),
{
    if s.len() > 0 {
        lemma_greedy_disjoint(s.drop_last());
        let p = greedy(s.drop_last());
        if !(exists|k: int| 0 <= k < p.len() && overlaps_spec(p[k], s.last())) {
            let q = p.push(s.last());
            assert forall|i: int, j: int| 0 <= i < q.len() && 0 <= j < q.len() && i != j implies !overlaps_spec(q[i], q[j]) by {
                if i == p.len() {
                    assert(!overlaps_spec(p[j], s.last()));
                } else if j == p.len() {
                    assert(!overlaps_spec(p[i], s.last()));
                } else {
                    assert(q[i] == p[i] && q[j] == p[j]);
                }
            }
        }
    }
}

proof fn lemma_insert_contents(t: Seq<CandV>, x: CandV)
    ensures
        crate::sorting::insert_sorted::<ByPosition>(t, x).len() == t.len() + 1,
        forall|k: int| 0 <= k < t.len() + 1 ==> {
            let y = #[trigger] crate::sorting::insert_sorted::<ByPosition>(t, x)[k];
            y == x || exists|m: int| 0 <= m < t.len() && t[m] == y
        },
    decreases t.len(),
{
    if t.len() > 0 && !ByPosition::spec_after(t[0], x) {
        let rest = crate::sorting::insert_sorted::<ByPosition>(t.drop_first(), x);
        lemma_insert_contents(t.drop_first(), x);
        let r = crate::sorting::insert_sorted::<ByPosition>(t, x);
        assert(r == seq![t[0]] + rest);
        assert forall|k: int| 0 <= k < t.len() + 1 implies {
            let y = #[trigger] r[k];
            y == x || exists|m: int| 0 <= m < t.len() && t[m] == y
        } by {
            if k == 0 {
                assert(t[0] == r[0]);
            } else {
                let y = rest[k - 1];
                assert(r[k] == y);
                if y != x {
                    let m = choose|m: int| 0 <= m < t.drop_first().len() && t.drop_first()[m] == y;
                    assert(t[m + 1] == y);
                }
            }
        }
    } else if t.len() > 0 {
        let r = crate::sorting::insert_sorted::<ByPosition>(t, x);
        assert(r == seq![x] + t);
        assert forall|k: int| 0 <= k < t.len() + 1 implies {
            let y = #[trigger] r[k];
            y == x || exists|m: int| 0 <= m < t.len() && t[m] == y
        } by {
            if k > 0 {
                assert(r[k] == t[k - 1]);
            }
        }
    }
}

proof fn lemma_insert_disjoint(t: Seq<CandV>, x: CandV)
    requires
        pairwise_disjoint(t),
        forall|m: int| 0 <= m < t.len() ==> !overlaps_spec(#[trigger] t[m], x),
    ensures
        pairwise_disjoint(crate::sorting::insert_sorted::<ByPosition>(t, x)),
    decreases t.len(),
{
    let r = crate::sorting::insert_sorted::<ByPosition>(t, x);
    if t.len() == 0 {
        assert(r == seq![x]);
    } else if ByPosition::spec_after(t[0], x) {
        assert(r == seq![x] + t);
        assert forall|i: int, j: int| 0 <= i < r.len() && 0 <= j < r.len() && i != j implies !overlaps_spec(r[i], r[j]) by {
            if i == 0 {
                assert(!overlaps_spec(t[j - 1], x));
            } else if j == 0 {
                assert(!overlaps_spec(t[i - 1], x));
            } else {
                assert(r[i] == t[i - 1] && r[j] == t[j - 1]);
            }
        }
    } else {
        let tail = t.drop_first();
        assert forall|i: int, j: int| 0 <= i < tail.len() && 0 <= j < tail.len() && i != j implies !overlaps_spec(tail[i], tail[j]) by {
            assert(tail[i] == t[i + 1] && tail[j] == t[j + 1]);
        }
        assert forall|m: int| 0 <= m < tail.len() implies !overlaps_spec(#[trigger] tail[m], x) by {
            assert(tail[m] == t[m + 1]);
        }
        lemma_insert_disjoint(tail, x);
        lemma_insert_contents(tail, x);
        let rest = crate::sorting::insert_sorted::<ByPosition>(tail, x);
        assert(r == seq![t[0]] + rest);
        assert forall|i: int, j: int| 0 <= i < r.len() && 0 <= j < r.len() && i != j implies !overlaps_spec(r[i], r[j]) by {
            if i == 0 || j == 0 {
                let k = if i == 0 { j } else { i };
                let y = rest[k - 1];
                assert(r[k] == y);
                if y == x {
                    assert(!overlaps_spec(t[0], x));
                } else {
                    let m = choose|m: int| 0 <= m < tail.len() && tail[m] == y;
                    assert(tail[m] == t[m + 1]);
                    assert(!overlaps_spec(t[0], t[m + 1]));
                    assert(!overlaps_spec(t[m + 1], t[0]));
                }
            } else {
                assert(r[i] == rest[i - 1] && r[j] == rest[j - 1]);
            }
        }
    }
}

proof fn lemma_sorted_contents(s: Seq<CandV>)
    ensures
        sorted_seq::<ByPosition>(s).len() == s.len(),
        forall|k: int| 0 <= k < s.len() ==> exists|m: int| 0 <= m < s.len() && s[m] == #[trigger] sorted_seq::<ByPosition>(s)[k],
    decreases s.len(),
{
    if s.len() > 0 {
        let init = s.drop_last();
        lemma_sorted_contents(init);
        let t = sorted_seq::<ByPosition>(init);
        lemma_insert_contents(t, s.last());
        let r = sorted_seq::<ByPosition>(s);
        assert forall|k: int| 0 <= k < s.len() implies exists|m: int| 0 <= m < s.len() && s[m] == #[trigger] sorted_seq::<ByPosition>(s)[k] by {
            let y = r[k];
            if y == s.last() {
                assert(s[s.len() - 1] == y);
            } else {
                let m1 = choose|m: int| 0 <= m < t.len() && t[m] == y;
                let m2 = choose|m: int| 0 <= m < init.len() && init[m] == t[m1];
                assert(s[m2] == y);
            }
        }
    }
}

proof fn lemma_sorted_disjoint(s: Seq<CandV>)
    requires
        pairwise_disjoint(s),
    ensures
        pairwise_disjoint(sorted_seq::<ByPosition>(s)),
    decreases s.len(),
{
    if s.len() > 0 {
        let init = s.drop_last();
        assert forall|i: int, j: int| 0 <= i < init.len() && 0 <= j < init.len() && i != j implies !overlaps_spec(init[i], init[j]) by {
            assert(init[i] == s[i] && init[j] == s[j]);
        }
        lemma_sorted_disjoint(init);
        lemma_sorted_contents(init);
        let t = sorted_seq::<ByPosition>(init);
        assert forall|m: int| 0 <= m < t.len() implies !overlaps_spec(#[trigger] t[m], s.last()) by {
            let k = choose|k: int| 0 <= k < init.len() && init[k] == t[m];
            assert(s[k] == t[m]);
            assert(!overlaps_spec(s[k], s[s.len() - 1]));
        }
        lemma_insert_disjoint(t, s.last());
    }
}

/// The annotations kept never overlap one another.
pub proof fn law_selected_annotations_do_not_overlap(cands: Seq<CandV>)
    ensures
        pairwise_disjoint(select_spec(cands)),
{
    lemma_greedy_disjoint(sorted_seq::<ByRank>(cands));
    lemma_sorted_disjoint(greedy(sorted_seq::<ByRank>(cands)));
}

} // verus!
