//! File-system paths held as their components.
//!
//! A `KgPath` is what a Unix `Path` means once parsed: whether it starts at
//! the root, and the list of its components.  Two paths are equal exactly
//! when these agree, which is how `Path` compares.  Empty components and
//! `.` components are dropped, except a leading `.` of a relative path.
use vstd::prelude::*;
use crate::graph::{copy_string, copy_strings};
use crate::sorting::views;
use crate::text::{append_chars, chars_of, split_chars, split_on, string_of};

verus! {

/// A parsed path.
pub struct KgPath {
    /// Whether the path starts at the root directory.
    pub absolute: bool,
    /// The components after the root, in order.
    pub parts: Vec<String>,
}

/// The mathematical value of a path.
pub struct PathV {
    pub absolute: bool,
    pub parts: Seq<Seq<char>>,
}

impl View for KgPath {
    type V = PathV;

    open spec fn view(&self) -> PathV {
        PathV { absolute: self.absolute, parts: views(self.parts@) }
    }
}

// ---------------------------------------------------------------------------
// Specifications
// ---------------------------------------------------------------------------

/// The component `.`.
pub open spec fn is_dot(seg: Seq<char>) -> bool {
    seg == seq!['.']
}

/// The component `..`.
pub open spec fn is_dotdot(seg: Seq<char>) -> bool {
    seg == seq!['.', '.']
}

/// A separator-delimited piece, kept when it names something.
pub open spec fn kept(seg: Seq<char>) -> Seq<Seq<char>> {
    if seg.len() > 0 && !is_dot(seg) {
        seq![seg]
    } else {
        Seq::empty()
    }
}

/// The pieces that are neither empty nor `.`.
pub open spec fn keep_parts(segs: Seq<Seq<char>>) -> Seq<Seq<char>>
    decreases segs.len(),
{
    if segs.len() == 0 {
        Seq::empty()
    } else {
        kept(segs[0]) + keep_parts(segs.drop_first())
    }
}

/// How `Path` splits text into components.
pub open spec fn parse_spec(s: Seq<char>) -> PathV {
    let absolute = s.len() > 0 && s[0] == '/';
    let segs = split_on(s, '/');
    let lead = if !absolute && segs.len() > 0 && is_dot(segs[0]) {
        seq![segs[0]]
    } else {
        Seq::<Seq<char>>::empty()
    };
    PathV { absolute, parts: lead + keep_parts(segs) }
}

/// Every component is a non-empty name without a separator; `.` only
/// leads a relative path.
pub open spec fn path_wf(p: PathV) -> bool {
    forall|i: int|
        0 <= i < p.parts.len() ==> {
            &&& (#[trigger] p.parts[i]).len() > 0
            &&& !p.parts[i].contains('/')
            &&& (is_dot(p.parts[i]) ==> i == 0 && !p.absolute)
        }
}

/// The components joined with `/`.
pub open spec fn join_parts(parts: Seq<Seq<char>>) -> Seq<char>
    decreases parts.len(),
{
    if parts.len() == 0 {
        Seq::empty()
    } else if parts.len() == 1 {
        parts[0]
    } else {
        join_parts(parts.drop_last()) + seq!['/'] + parts.last()
    }
}

/// The text of a path.
pub open spec fn text_spec(p: PathV) -> Seq<char> {
    if p.absolute {
        seq!['/'] + join_parts(p.parts)
    } else {
        join_parts(p.parts)
    }
}

/// `Path::file_name`: the last component when it is a name.
pub open spec fn file_name_spec(p: PathV) -> Option<Seq<char>> {
    if p.parts.len() > 0 && !is_dot(p.parts.last()) && !is_dotdot(p.parts.last()) {
        Some(p.parts.last())
    } else {
        None
    }
}

/// `Path::parent`.
pub open spec fn parent_spec(p: PathV) -> Option<PathV> {
    if p.parts.len() > 0 {
        Some(PathV { absolute: p.absolute, parts: p.parts.drop_last() })
    } else {
        None
    }
}

/// The components of `parts` without a leading `.`.
pub open spec fn drop_lead_dot(parts: Seq<Seq<char>>) -> Seq<Seq<char>> {
    if parts.len() > 0 && is_dot(parts[0]) {
        parts.drop_first()
    } else {
        parts
    }
}

/// `Path::join`.
pub open spec fn join_spec(a: PathV, b: PathV) -> PathV {
    if b.absolute {
        b
    } else if !a.absolute && a.parts.len() == 0 {
        b
    } else {
        PathV { absolute: a.absolute, parts: a.parts + drop_lead_dot(b.parts) }
    }
}

/// Index of the last occurrence of `c`.
pub open spec fn rfind_char(s: Seq<char>, c: char) -> Option<int>
    decreases s.len(),
{
    if s.len() == 0 {
        None
    } else if s.last() == c {
        Some(s.len() - 1)
    } else {
        rfind_char(s.drop_last(), c)
    }
}

/// The split of a file name at its last dot, when that dot is not the first
/// character: `(stem, extension)`.
pub open spec fn dot_split(name: Seq<char>) -> Option<(Seq<char>, Seq<char>)> {
    match rfind_char(name, '.') {
        Some(i) => if 0 < i < name.len() {
            Some((name.take(i), name.skip(i + 1)))
        } else {
            None
        },
        None => None,
    }
}

/// `Path::extension`.
pub open spec fn extension_spec(p: PathV) -> Option<Seq<char>> {
    match file_name_spec(p) {
        Some(n) => match dot_split(n) {
            Some(parts) => Some(parts.1),
            None => None,
        },
        None => None,
    }
}

/// `Path::file_stem`.
pub open spec fn file_stem_spec(p: PathV) -> Option<Seq<char>> {
    match file_name_spec(p) {
        Some(n) => match dot_split(n) {
            Some(parts) => Some(parts.0),
            None => Some(n),
        },
        None => None,
    }
}

/// `Path::with_extension`.
pub open spec fn with_extension_spec(p: PathV, ext: Seq<char>) -> PathV {
    match file_stem_spec(p) {
        Some(stem) => PathV {
            absolute: p.absolute,
            parts: p.parts.drop_last().push(
                if ext.len() > 0 {
                    stem + seq!['.'] + ext
                } else {
                    stem
                },
            ),
        },
        None => p,
    }
}

/// `Path::with_file_name`.
pub open spec fn with_file_name_spec(p: PathV, name: Seq<char>) -> PathV {
    let base = if file_name_spec(p) is Some {
        PathV { absolute: p.absolute, parts: p.parts.drop_last() }
    } else {
        p
    };
    join_spec(base, parse_spec(name))
}

// ---------------------------------------------------------------------------
// Lemmas
// ---------------------------------------------------------------------------

proof fn lemma_rfind_char(s: Seq<char>, c: char)
    ensures
        match rfind_char(s, c) {
            Some(i) => 0 <= i < s.len() && s[i] == c && forall|j: int| i < j < s.len() ==> s[j] != c,
            None => forall|j: int| 0 <= j < s.len() ==> s[j] != c,
        },
    decreases s.len(),
{
    if s.len() > 0 && s.last() != c {
        let t = s.drop_last();
        lemma_rfind_char(t, c);
        assert forall|j: int| 0 <= j < t.len() implies t[j] == s[j] by {}
    }
}

proof fn lemma_rfind_char_scan(s: Seq<char>, c: char, k: int)
    requires
        0 <= k <= s.len(),
        forall|j: int| k <= j < s.len() ==> s[j] != c,
    ensures
        rfind_char(s, c) == rfind_char(s.take(k), c),
    decreases s.len() - k,
{
    if k < s.len() {
        assert(s.drop_last() =~= s.take(s.len() - 1));
        lemma_rfind_char_scan(s.drop_last(), c, k);
        assert(s.drop_last().take(k) =~= s.take(k));
    } else {
        assert(s.take(k) =~= s);
    }
}

proof fn lemma_keep_parts_wf(segs: Seq<Seq<char>>)
    requires
        forall|i: int| 0 <= i < segs.len() ==> !(#[trigger] segs[i]).contains('/'),
    ensures
        forall|i: int|
            0 <= i < keep_parts(segs).len() ==> {
                &&& (#[trigger] keep_parts(segs)[i]).len() > 0
                &&& !keep_parts(segs)[i].contains('/')
                &&& !is_dot(keep_parts(segs)[i])
            },
    decreases segs.len(),
{
    if segs.len() > 0 {
        let rest = segs.drop_first();
        assert forall|i: int| 0 <= i < rest.len() implies !(#[trigger] rest[i]).contains('/') by {
            assert(rest[i] == segs[i + 1]);
        }
        lemma_keep_parts_wf(rest);
        assert(!segs[0].contains('/'));
        let k = keep_parts(segs);
        let h = kept(segs[0]);
        assert(k == h + keep_parts(rest));
        assert forall|i: int| 0 <= i < k.len() implies {
            &&& (#[trigger] k[i]).len() > 0
            &&& !k[i].contains('/')
            &&& !is_dot(k[i])
        } by {
            if i < h.len() {
                assert(k[i] == segs[0]);
            } else {
                assert(k[i] == keep_parts(rest)[i - h.len()]);
            }
        }
    }
}

proof fn lemma_split_on_no_sep(s: Seq<char>, c: char)
    ensures
        forall|i: int| 0 <= i < split_on(s, c).len() ==> !(#[trigger] split_on(s, c)[i]).contains(c),
        split_on(s, c).len() > 0,
        split_on(s, c)[0].len() == 0 ==> (s.len() == 0 || s[0] == c),
    decreases s.len(),
{
    crate::text::lemma_find_char_from(s, c, 0);
    match crate::text::find_char(s, c) {
        Some(i) => {
            if 0 <= i < s.len() {
                lemma_split_on_no_sep(s.skip(i + 1), c);
                let head = s.take(i);
                assert(!head.contains(c)) by {
                    if head.contains(c) {
                        let k = choose|k: int| 0 <= k < head.len() && head[k] == c;
                        assert(s[k] == c);
                    }
                }
                let rest = split_on(s.skip(i + 1), c);
                assert(split_on(s, c) == seq![head] + rest);
                assert forall|j: int| 0 <= j < split_on(s, c).len() implies !(#[trigger] split_on(
                    s,
                    c,
                )[j]).contains(c) by {
                    if j > 0 {
                        assert(split_on(s, c)[j] == rest[j - 1]);
                    }
                }
            }
        },
        None => {
            assert(!s.contains(c)) by {
                if s.contains(c) {
                    let k = choose|k: int| 0 <= k < s.len() && s[k] == c;
                }
            }
        },
    }
}

proof fn lemma_join_parts_push(parts: Seq<Seq<char>>, x: Seq<char>)
    requires
        parts.len() > 0,
    ensures
        join_parts(parts.push(x)) == join_parts(parts) + seq!['/'] + x,
{
    assert(parts.push(x).drop_last() =~= parts);
}

// ---------------------------------------------------------------------------
// Executable operations
// ---------------------------------------------------------------------------

/// Whether `s` is the component `.`.
fn is_dot_exec(s: &[char]) -> (r: bool)
    ensures
        r == is_dot(s@),
{
    let r = s.len() == 1 && s[0] == '.';
    proof {
        if s.len() == 1 && s[0] == '.' {
            assert(s@ =~= seq!['.']);
        }
    }
    r
}

/// Whether `s` is the component `..`.
fn is_dotdot_str(s: &str) -> (r: bool)
    ensures
        r == is_dotdot(s@),
{
    let cs = chars_of(s);
    let r = cs.len() == 2 && cs[0] == '.' && cs[1] == '.';
    proof {
        if r {
            assert(cs@ =~= seq!['.', '.']);
        }
    }
    r
}

/// Whether `s` is the component `.`.
fn is_dot_str(s: &str) -> (r: bool)
    ensures
        r == is_dot(s@),
{
    let cs = chars_of(s);
    is_dot_exec(cs.as_slice())
}

/// The last occurrence of `c` in `s`.
fn rfind_char_exec(s: &[char], c: char) -> (r: Option<usize>)
    ensures
        r matches Some(i) ==> rfind_char(s@, c) == Some(i as int),
        r is None ==> rfind_char(s@, c) is None,
{
    let mut k = s.len();
    while k > 0
        invariant
            k <= s.len(),
            forall|j: int| k <= j < s.len() ==> s@[j] != c,
        decreases k,
    {
        if s[k - 1] == c {
            proof {
                lemma_rfind_char_scan(s@, c, k as int);
                assert(s@.take(k as int).last() == c);
            }
            return Some(k - 1);
        }
        k = k - 1;
    }
    proof {
        lemma_rfind_char_scan(s@, c, 0);
        assert(s@.take(0) =~= Seq::<char>::empty());
    }
    None
}

/// The split of a file name at its last dot.
fn dot_split_exec(name: &[char]) -> (r: Option<(Vec<char>, Vec<char>)>)
    ensures
        match dot_split(name@) {
            Some(p) => r matches Some(q) && q.0@ == p.0 && q.1@ == p.1,
            None => r is None,
        },
{
    match rfind_char_exec(name, '.') {
        Some(i) => {
            if 0 < i {
                proof {
                    lemma_rfind_char(name@, '.');
                }
                assert(i < name.len());
                let stem = crate::text::copy_chars(name, 0, i);
                let ext = crate::text::copy_chars(name, i + 1, name.len());
                proof {
                    assert(stem@ =~= name@.take(i as int));
                    assert(ext@ =~= name@.skip(i + 1));
                }
                Some((stem, ext))
            } else {
                None
            }
        },
        None => None,
    }
}

impl KgPath {
    /// A copy of this path.
    pub fn copy(&self) -> (r: KgPath)
        ensures
            r@ == self@,
    {
        KgPath { absolute: self.absolute, parts: copy_strings(&self.parts) }
    }

    /// Parses path text.
    pub fn parse(s: &str) -> (r: KgPath)
        ensures
            r@ == parse_spec(s@),
            path_wf(r@),
    {
        let cs = chars_of(s);
        let absolute = cs.len() > 0 && cs[0] == '/';
        let segs = split_chars(cs.as_slice(), '/');
        let ghost sv = split_on(s@, '/');
        proof {
            lemma_split_on_no_sep(s@, '/');
        }
        let mut parts: Vec<String> = Vec::new();
        let mut i: usize = 0;
        if !absolute && segs.len() > 0 && is_dot_exec(segs[0].as_slice()) {
            parts.push(string_of(segs[0].as_slice()));
        }
        let ghost lead = views(parts@);
        proof {
            assert(segs@.len() == sv.len());
            assert(segs@[0]@ == sv[0]);
            assert(sv.skip(0) =~= sv);
            assert(lead + keep_parts(sv.skip(0)) =~= lead + keep_parts(sv));
        }
        while i < segs.len()
            invariant
                i <= segs.len(),
                sv == crate::text::seqs_view(segs@),
                lead + keep_parts(sv) == views(parts@) + keep_parts(sv.skip(i as int)),
            decreases segs.len() - i,
        {
            let seg = segs[i].as_slice();
            proof {
                assert(sv[i as int] == seg@);
                assert(sv.skip(i as int).drop_first() =~= sv.skip(i + 1));
                assert(sv.skip(i as int)[0] == seg@);
            }
            if seg.len() > 0 && !is_dot_exec(seg) {
                parts.push(string_of(seg));
                proof {
                    assert(views(parts@) =~= views(parts@.drop_last()).push(seg@));
                    assert(kept(seg@) == seq![seg@]);
                }
            }
            i += 1;
            proof {
                assert(lead + keep_parts(sv) =~= views(parts@) + keep_parts(sv.skip(i as int)));
            }
        }
        proof {
            assert(sv.skip(i as int) =~= Seq::<Seq<char>>::empty());
            assert(views(parts@) =~= lead + keep_parts(sv));
            let pv = parse_spec(s@);
            lemma_keep_parts_wf(sv);
            assert(pv.parts == lead + keep_parts(sv));
            assert forall|k: int| 0 <= k < pv.parts.len() implies {
                &&& (#[trigger] pv.parts[k]).len() > 0
                &&& !pv.parts[k].contains('/')
                &&& (is_dot(pv.parts[k]) ==> k == 0 && !pv.absolute)
            } by {
                if k < lead.len() {
                    assert(pv.parts[k] == sv[0]);
                    assert(sv[0] =~= seq!['.']);
                    assert(!seq!['.'].contains('/')) by {
                        if seq!['.'].contains('/') {
                            let z = choose|z: int| 0 <= z < 1 && seq!['.'][z] == '/';
                        }
                    }
                } else {
                    assert(pv.parts[k] == keep_parts(sv)[k - lead.len()]);
                }
            }
        }
        KgPath { absolute, parts }
    }

    /// The text of this path, components separated by `/`.
    pub fn to_text(&self) -> (r: String)
        ensures
            r@ == text_spec(self@),
    {
        let mut out: Vec<char> = Vec::new();
        if self.absolute {
            out.push('/');
        }
        let ghost prefix = out@;
        let mut i: usize = 0;
        while i < self.parts.len()
            invariant
                i <= self.parts.len(),
                out@ == prefix + join_parts(views(self.parts@).take(i as int)),
            decreases self.parts.len() - i,
        {
            let ghost before = views(self.parts@).take(i as int);
            let part = chars_of(self.parts[i].as_str());
            if i > 0 {
                out.push('/');
            }
            append_chars(&mut out, part.as_slice());
            proof {
                let now = views(self.parts@).take(i + 1);
                assert(now =~= before.push(part@));
                if i > 0 {
                    lemma_join_parts_push(before, part@);
                } else {
                    assert(before.push(part@) =~= seq![part@]);
                }
                assert(out@ =~= prefix + join_parts(now));
            }
            i += 1;
        }
        proof {
            assert(views(self.parts@).take(i as int) =~= views(self.parts@));
            if !self.absolute {
                assert(prefix =~= Seq::<char>::empty());
                assert(out@ =~= join_parts(views(self.parts@)));
            } else {
                assert(prefix =~= seq!['/']);
            }
        }
        string_of(out.as_slice())
    }

    /// `Path::is_absolute`.
    pub fn is_absolute(&self) -> (r: bool)
        ensures
            r == self@.absolute,
    {
        self.absolute
    }

    /// `Path::file_name`.
    pub fn file_name(&self) -> (r: Option<String>)
        ensures
            match file_name_spec(self@) {
                Some(n) => r matches Some(t) && t@ == n,
                None => r is None,
            },
    {
        let n = self.parts.len();
        if n == 0 {
            return None;
        }
        let last = self.parts[n - 1].as_str();
        proof {
            assert(views(self.parts@).last() == last@);
        }
        if is_dot_str(last) || is_dotdot_str(last) {
            None
        } else {
            Some(copy_string(&self.parts[n - 1]))
        }
    }

    /// `Path::parent`.
    pub fn parent(&self) -> (r: Option<KgPath>)
        ensures
            match parent_spec(self@) {
                Some(q) => r matches Some(t) && t@ == q,
                None => r is None,
            },
            r matches Some(t) ==> (path_wf(self@) ==> path_wf(t@)),
    {
        let n = self.parts.len();
        if n == 0 {
            return None;
        }
        let mut parts: Vec<String> = Vec::new();
        let mut i: usize = 0;
        while i + 1 < n
            invariant
                n == self.parts.len(),
                n > 0,
                i + 1 <= n,
                views(parts@) == views(self.parts@).take(i as int),
            decreases n - i,
        {
            let x = copy_string(&self.parts[i]);
            let ghost before = views(parts@);
            parts.push(x);
            proof {
                assert(views(parts@) =~= before.push(x@));
                assert(views(self.parts@).take(i + 1) =~= views(self.parts@).take(i as int).push(
                    views(self.parts@)[i as int],
                ));
            }
            i += 1;
        }
        proof {
            assert(views(parts@) =~= views(self.parts@).drop_last());
        }
        Some(KgPath { absolute: self.absolute, parts })
    }

    /// `Path::join`.
    pub fn join(&self, other: &KgPath) -> (r: KgPath)
        ensures
            r@ == join_spec(self@, other@),
            path_wf(self@) && path_wf(other@) ==> path_wf(r@),
    {
        if other.absolute || (!self.absolute && self.parts.len() == 0) {
            return other.copy();
        }
        let mut parts = copy_strings(&self.parts);
        let ghost base = views(parts@);
        let mut i: usize = 0;
        if other.parts.len() > 0 && is_dot_str(other.parts[0].as_str()) {
            i = 1;
        }
        let ghost rest = views(other.parts@).skip(i as int);
        proof {
            assert(rest =~= drop_lead_dot(views(other.parts@)));
        }
        while i < other.parts.len()
            invariant
                i <= other.parts.len(),
                rest == drop_lead_dot(views(other.parts@)),
                rest.len() == other.parts.len() - (other.parts.len() - rest.len()),
                other.parts.len() - rest.len() <= i,
                views(parts@) == base + rest.take(i - (other.parts.len() - rest.len())),
            decreases other.parts.len() - i,
        {
            let ghost off = other.parts.len() - rest.len();
            let x = copy_string(&other.parts[i]);
            let ghost before = views(parts@);
            parts.push(x);
            proof {
                assert(rest[i - off] == views(other.parts@)[i as int]);
                assert(views(parts@) =~= before.push(x@));
                assert(rest.take(i + 1 - off) =~= rest.take(i - off).push(rest[i - off]));
                assert(views(parts@) =~= base + rest.take(i + 1 - off));
            }
            i += 1;
        }
        proof {
            let off = other.parts.len() - rest.len();
            assert(rest.take(i - off) =~= rest);
        }
        let r = KgPath { absolute: self.absolute, parts };
        proof {
            if path_wf(self@) && path_wf(other@) {
                let rv = r@;
                let bl = base.len();
                assert forall|k: int| 0 <= k < rv.parts.len() implies {
                    &&& (#[trigger] rv.parts[k]).len() > 0
                    &&& !rv.parts[k].contains('/')
                    &&& (is_dot(rv.parts[k]) ==> k == 0 && !rv.absolute)
                } by {
                    let ov = views(other.parts@);
                    assert(rv.parts == self@.parts + drop_lead_dot(ov));
                    if k < bl {
                        assert(rv.parts[k] == self@.parts[k]);
                    } else {
                        if ov.len() > 0 && is_dot(ov[0]) {
                            assert(rv.parts[k] == ov[k - bl + 1]);
                            assert(other@.parts[k - bl + 1] == ov[k - bl + 1]);
                        } else {
                            assert(rv.parts[k] == ov[k - bl]);
                            assert(other@.parts[k - bl] == ov[k - bl]);
                        }
                    }
                }
            }
        }
        r
    }

    /// Joins the path text `name` onto this path.
    pub fn join_str(&self, name: &str) -> (r: KgPath)
        ensures
            r@ == join_spec(self@, parse_spec(name@)),
    {
        let other = KgPath::parse(name);
        self.join(&other)
    }

    /// `Path::extension`.
    pub fn extension(&self) -> (r: Option<String>)
        ensures
            match extension_spec(self@) {
                Some(e) => r matches Some(t) && t@ == e,
                None => r is None,
            },
    {
        match self.file_name() {
            Some(name) => {
                let cs = chars_of(name.as_str());
                match dot_split_exec(cs.as_slice()) {
                    Some(p) => Some(string_of(p.1.as_slice())),
                    None => None,
                }
            },
            None => None,
        }
    }

    /// `Path::file_stem`.
    pub fn file_stem(&self) -> (r: Option<String>)
        ensures
            match file_stem_spec(self@) {
                Some(e) => r matches Some(t) && t@ == e,
                None => r is None,
            },
    {
        match self.file_name() {
            Some(name) => {
                let cs = chars_of(name.as_str());
                match dot_split_exec(cs.as_slice()) {
                    Some(p) => Some(string_of(p.0.as_slice())),
                    None => Some(name),
                }
            },
            None => None,
        }
    }

    /// `Path::with_extension`.
    pub fn with_extension(&self, ext: &str) -> (r: KgPath)
        ensures
            r@ == with_extension_spec(self@, ext@),
    {
        match self.file_stem() {
            Some(stem) => {
                let mut name = chars_of(stem.as_str());
                let e = chars_of(ext);
                if e.len() > 0 {
                    name.push('.');
                    append_chars(&mut name, e.as_slice());
                }
                let mut parts = match self.parent() {
                    Some(p) => p.parts,
                    None => Vec::new(),
                };
                let ghost before = views(parts@);
                parts.push(string_of(name.as_slice()));
                proof {
                    assert(views(parts@) =~= before.push(name@));
                    assert(views(self.parts@).len() > 0);
                    if e.len() > 0 {
                        assert(name@ =~= stem@ + seq!['.'] + ext@);
                    } else {
                        assert(name@ =~= stem@);
                    }
                }
                KgPath { absolute: self.absolute, parts }
            },
            None => self.copy(),
        }
    }

    /// `Path::with_file_name`.
    pub fn with_file_name(&self, name: &str) -> (r: KgPath)
        ensures
            r@ == with_file_name_spec(self@, name@),
    {
        let base = match self.file_name() {
            Some(_) => match self.parent() {
                Some(p) => p,
                None => self.copy(),
            },
            None => self.copy(),
        };
        base.join_str(name)
    }
}

/// Whether two paths are equal, component by component.
pub fn same_path(a: &KgPath, b: &KgPath) -> (r: bool)
    ensures
        r == (a@ == b@),
{
    if a.absolute != b.absolute || a.parts.len() != b.parts.len() {
        proof {
            if a.parts.len() != b.parts.len() {
                assert(views(a.parts@).len() != views(b.parts@).len());
            }
        }
        return false;
    }
    let mut i: usize = 0;
    while i < a.parts.len()
        invariant
            i <= a.parts.len() == b.parts.len(),
            forall|k: int| 0 <= k < i ==> views(a.parts@)[k] == views(b.parts@)[k],
        decreases a.parts.len() - i,
    {
        if !crate::text::str_eq(a.parts[i].as_str(), b.parts[i].as_str()) {
            proof {
                assert(views(a.parts@)[i as int] != views(b.parts@)[i as int]);
            }
            return false;
        }
        i += 1;
    }
    proof {
        assert(views(a.parts@) =~= views(b.parts@));
    }
    true
}

} // verus!
