//! Splitting prose documents (Markdown, AsciiDoc, setext headings) into
//! nested sections.
use vstd::prelude::*;
use crate::paths::{KgPath, PathV, extension_spec, file_name_spec};
use crate::sorting::views;
use crate::text::{
    append_chars, ascii_lower, ascii_lower_chars, ascii_lower_seq, chars_eq_str, chars_of,
    copy_chars, decimal, decimal_usize, is_ascii_alnum, is_ws, join_chars, join_with, lines,
    lines_exec, seqs_view, str_eq, string_of, trim, trim_chars, trim_start, trim_start_chars,
};

verus! {

// ---------------------------------------------------------------------------
// Document sources
// ---------------------------------------------------------------------------

/// File names that are prose whatever their extension.
pub open spec fn is_document_name(n: Seq<char>) -> bool {
    ||| n == "README"@
    ||| n == "README.md"@
    ||| n == "README.markdown"@
    ||| n == "CHANGELOG.md"@
    ||| n == "LICENSE"@
    ||| n == "COPYING"@
}

/// Extensions, compared in ASCII lower case, of prose files.
pub open spec fn is_document_extension(e: Seq<char>) -> bool {
    ||| e == "md"@
    ||| e == "markdown"@
    ||| e == "txt"@
    ||| e == "rst"@
    ||| e == "adoc"@
}

/// Whether a path names a prose document.
pub open spec fn is_document_source_spec(p: PathV) -> bool {
    ||| (file_name_spec(p) matches Some(n) && is_document_name(n))
    ||| (extension_spec(p) matches Some(e) && is_document_extension(ascii_lower_seq(e)))
}

/// Whether the file at `path` is a prose document whose sections are worth
/// indexing.
pub fn is_document_source(path: &KgPath) -> (r: bool)
    ensures
        r == is_document_source_spec(path@),
{
    let named = match path.file_name() {
        Some(name) => {
            let n = name.as_str();
            str_eq(n, "README") || str_eq(n, "README.md") || str_eq(n, "README.markdown")
                || str_eq(n, "CHANGELOG.md") || str_eq(n, "LICENSE") || str_eq(n, "COPYING")
        },
        None => false,
    };
    if named {
        return true;
    }
    match path.extension() {
        Some(ext) => {
            let cs = chars_of(ext.as_str());
            let e = ascii_lower_chars(cs.as_slice());
            chars_eq_str(e.as_slice(), "md") || chars_eq_str(e.as_slice(), "markdown")
                || chars_eq_str(e.as_slice(), "txt") || chars_eq_str(e.as_slice(), "rst")
                || chars_eq_str(e.as_slice(), "adoc")
        },
        None => false,
    }
}

// ---------------------------------------------------------------------------
// Section identifiers
// ---------------------------------------------------------------------------

/// Bytes that stand for themselves in a section identifier.
pub open spec fn is_plain_id_byte(b: u8) -> bool {
    ||| (65 <= b && b <= 90)
    ||| (97 <= b && b <= 122)
    ||| (48 <= b && b <= 57)
    ||| b == 95
    ||| b == 45
    ||| b == 46
}

/// Upper-case hexadecimal digit of `d < 16`.
pub open spec fn hex_digit(d: nat) -> char {
    if d < 10 {
        ((d + 48) as u32) as char
    } else {
        ((d + 55) as u32) as char
    }
}

/// One byte of a title in an identifier: itself, or `~` and two upper-case
/// hexadecimal digits.
pub open spec fn escape_byte(b: u8) -> Seq<char> {
    if is_plain_id_byte(b) {
        seq![(b as u32) as char]
    } else {
        seq!['~', hex_digit((b / 16) as nat), hex_digit((b % 16) as nat)]
    }
}

/// The escapes of a byte string, concatenated.
pub open spec fn escape_bytes(bs: Seq<u8>) -> Seq<char>
    decreases bs.len(),
{
    if bs.len() == 0 {
        Seq::empty()
    } else {
        escape_bytes(bs.drop_last()) + escape_byte(bs.last())
    }
}

/// The word used for a title with nothing in it.
pub open spec fn section_word() -> Seq<char> {
    seq!['s', 'e', 'c', 't', 'i', 'o', 'n']
}

/// A title escaped byte by byte over its UTF-8 encoding, so that distinct
/// titles give distinct identifiers.
pub open spec fn escape_title_spec(title: Seq<char>) -> Seq<char> {
    let e = escape_bytes(vstd::utf8::encode_utf8(title));
    if e.len() == 0 {
        section_word()
    } else {
        e
    }
}

/// `~` and the ordinal, for every sibling after the first of its title.
pub open spec fn ordinal_suffix(ordinal: nat) -> Seq<char> {
    if ordinal > 1 {
        seq!['~'] + decimal(ordinal)
    } else {
        Seq::empty()
    }
}

/// The identifier segment of a section.
pub open spec fn section_id_segment_spec(title: Seq<char>, ordinal: nat) -> Seq<char> {
    escape_title_spec(title) + ordinal_suffix(ordinal)
}

/// A title character in an older identifier: ASCII letters and digits in
/// lower case, anything else `_`.
pub open spec fn slug_char(c: char) -> char {
    if is_ascii_alnum(c) {
        ascii_lower(c)
    } else {
        '_'
    }
}

/// `s` without leading occurrences of `c`.
pub open spec fn strip_leading(s: Seq<char>, c: char) -> Seq<char>
    decreases s.len(),
{
    if s.len() > 0 && s[0] == c {
        strip_leading(s.drop_first(), c)
    } else {
        s
    }
}

/// `s` without trailing occurrences of `c`.
pub open spec fn strip_trailing(s: Seq<char>, c: char) -> Seq<char>
    decreases s.len(),
{
    if s.len() > 0 && s.last() == c {
        strip_trailing(s.drop_last(), c)
    } else {
        s
    }
}

/// The older, lossy identifier segment of a section.
pub open spec fn legacy_segment_spec(title: Seq<char>, ordinal: nat) -> Seq<char> {
    let slug = strip_trailing(strip_leading(title.map_values(|c: char| slug_char(c)), '_'), '_');
    let base = if slug.len() == 0 {
        section_word()
    } else {
        slug
    };
    base + ordinal_suffix(ordinal)
}

proof fn lemma_escape_bytes_push(bs: Seq<u8>, b: u8)
    ensures
        escape_bytes(bs.push(b)) == escape_bytes(bs) + escape_byte(b),
{
    assert(bs.push(b).drop_last() =~= bs);
}

fn hex_digit_exec(d: u8) -> (c: char)
    requires
        d < 16,
    ensures
        c == hex_digit(d as nat),
{
    if d < 10 {
        crate::text::char_from_ascii((d + 48) as u32)
    } else {
        crate::text::char_from_ascii((d + 55) as u32)
    }
}

/// A title escaped over its UTF-8 bytes.
fn escape_section_title(title: &[char]) -> (r: Vec<char>)
    ensures
        r@ == escape_title_spec(title@),
{
    let s = string_of(title);
    let bytes = s.as_str().as_bytes();
    let ghost bv = bytes@;
    let mut out: Vec<char> = Vec::new();
    let mut i: usize = 0;
    while i < bytes.len()
        invariant
            i <= bytes.len(),
            bv == bytes@,
            out@ == escape_bytes(bv.take(i as int)),
        decreases bytes.len() - i,
    {
        let b = bytes[i];
        proof {
            assert(bv.take(i + 1) =~= bv.take(i as int).push(b));
            lemma_escape_bytes_push(bv.take(i as int), b);
        }
        if (65 <= b && b <= 90) || (97 <= b && b <= 122) || (48 <= b && b <= 57) || b == 95 || b
            == 45 || b == 46 {
            out.push(crate::text::char_from_ascii(b as u32));
        } else {
            out.push('~');
            out.push(hex_digit_exec(b / 16));
            out.push(hex_digit_exec(b % 16));
        }
        proof {
            assert(out@ =~= escape_bytes(bv.take(i + 1)));
        }
        i += 1;
    }
    proof {
        assert(bv.take(i as int) =~= bv);
    }
    if out.len() == 0 {
        let w = chars_of("section");
        proof {
            reveal_strlit("section");
            assert(w@ =~= section_word());
        }
        w
    } else {
        out
    }
}

/// `~` and the ordinal after the first sibling of a title.
fn ordinal_suffix_exec(ordinal: usize) -> (r: Vec<char>)
    ensures
        r@ == ordinal_suffix(ordinal as nat),
{
    let mut out: Vec<char> = Vec::new();
    if ordinal > 1 {
        out.push('~');
        let d = decimal_usize(ordinal);
        append_chars(&mut out, d.as_slice());
        proof {
            assert(out@ =~= seq!['~'] + decimal(ordinal as nat));
        }
    }
    out
}

/// The identifier segment of a section.
fn section_id_segment(title: &[char], ordinal: usize) -> (r: Vec<char>)
    ensures
        r@ == section_id_segment_spec(title@, ordinal as nat),
{
    let mut out = escape_section_title(title);
    let suffix = ordinal_suffix_exec(ordinal);
    append_chars(&mut out, suffix.as_slice());
    out
}

/// `s` without leading and trailing `c`.
fn strip_both(s: &[char], c: char) -> (r: Vec<char>)
    ensures
        r@ == strip_trailing(strip_leading(s@, c), c),
{
    let mut start: usize = 0;
    assert(s@.skip(0) =~= s@);
    while start < s.len() && s[start] == c
        invariant
            start <= s.len(),
            strip_leading(s@, c) == strip_leading(s@.skip(start as int), c),
        decreases s.len() - start,
    {
        proof {
            assert(s@.skip(start as int).drop_first() =~= s@.skip(start + 1));
        }
        start += 1;
    }
    let mut end: usize = s.len();
    proof {
        assert(s@.skip(start as int) =~= s@.subrange(start as int, end as int));
        if start < s.len() {
            assert(s@.skip(start as int)[0] == s@[start as int]);
        }
    }
    while end > start && s[end - 1] == c
        invariant
            start <= end <= s.len(),
            strip_trailing(strip_leading(s@, c), c) == strip_trailing(
                s@.subrange(start as int, end as int),
                c,
            ),
        decreases end,
    {
        proof {
            assert(s@.subrange(start as int, end as int).drop_last() =~= s@.subrange(
                start as int,
                end - 1,
            ));
        }
        end -= 1;
    }
    copy_chars(s, start, end)
}

/// The older identifier segment of a section.
fn legacy_section_id_segment(title: &[char], ordinal: usize) -> (r: Vec<char>)
    ensures
        r@ == legacy_segment_spec(title@, ordinal as nat),
{
    let mut mapped: Vec<char> = Vec::new();
    let mut i: usize = 0;
    while i < title.len()
        invariant
            i <= title.len(),
            mapped@ == title@.take(i as int).map_values(|c: char| slug_char(c)),
        decreases title.len() - i,
    {
        let c = title[i];
        let m = if ('0' <= c && c <= '9') || ('a' <= c && c <= 'z') || ('A' <= c && c <= 'Z') {
            crate::text::char_ascii_lower(c)
        } else {
            '_'
        };
        mapped.push(m);
        proof {
            assert(mapped@ =~= title@.take(i + 1).map_values(|c: char| slug_char(c)));
        }
        i += 1;
    }
    proof {
        assert(title@.take(i as int) =~= title@);
    }
    let slug = strip_both(mapped.as_slice(), '_');
    let mut out = if slug.len() == 0 {
        let w = chars_of("section");
        proof {
            reveal_strlit("section");
            assert(w@ =~= section_word());
        }
        w
    } else {
        slug
    };
    let suffix = ordinal_suffix_exec(ordinal);
    append_chars(&mut out, suffix.as_slice());
    out
}

// ---------------------------------------------------------------------------
// Headings
// ---------------------------------------------------------------------------

/// Whether a line opens or closes a fenced code block.
pub open spec fn is_fence(line: Seq<char>) -> bool {
    let t = trim_start(line);
    seq!['`', '`', '`'].is_prefix_of(t) || seq!['~', '~', '~'].is_prefix_of(t)
}

/// Number of leading occurrences of `c`.
pub open spec fn run_len(s: Seq<char>, c: char) -> nat
    decreases s.len(),
{
    if s.len() > 0 && s[0] == c {
        1 + run_len(s.drop_first(), c)
    } else {
        0
    }
}

/// A heading marker: one to six `c` followed by whitespace.
pub open spec fn marker_level(s: Seq<char>, c: char) -> Option<nat> {
    let n = run_len(s, c);
    if 1 <= n <= 6 && n < s.len() && is_ws(s[n as int]) {
        Some(n)
    } else {
        None
    }
}

/// The title of an ATX heading (`## Title ##`) of the given level.
pub open spec fn atx_title(t: Seq<char>, level: nat) -> Seq<char> {
    trim(strip_trailing(trim(t.skip(level + 1 as int)), '#'))
}

/// An ATX marker whose whitespace is not a single byte: the title is
/// sliced at a byte offset inside that character, which panics.
pub open spec fn heading_panics(t: Seq<char>) -> bool {
    t.len() > 0 && (marker_level(t, '#') matches Some(l) && (t[l as int] as u32) >= 128)
}

/// A setext underline: three or more `=` or `-`.
pub open spec fn is_underline(u: Seq<char>) -> bool {
    u.len() >= 3 && forall|k: int| 0 <= k < u.len() ==> (u[k] == '=' || u[k] == '-')
}

/// A setext heading: a title line over an underline.
pub open spec fn setext_spec(ls: Seq<Seq<char>>, i: int) -> Option<(nat, Seq<char>, nat)> {
    if 0 <= i && i + 1 < ls.len() && trim(ls[i]).len() > 0 && is_underline(trim(ls[i + 1])) {
        Some(
            (
                if trim(ls[i + 1])[0] == '=' {
                    1nat
                } else {
                    2nat
                },
                trim(ls[i]),
                2nat,
            ),
        )
    } else {
        None
    }
}

/// The ATX heading of a trimmed line, if its title is not empty.
pub open spec fn atx_spec(t: Seq<char>) -> Option<(nat, Seq<char>, nat)> {
    match marker_level(t, '#') {
        Some(l) => if atx_title(t, l).len() > 0 {
            Some((l, atx_title(t, l), 1nat))
        } else {
            None
        },
        None => None,
    }
}

/// The AsciiDoc heading (`== Title`) of a trimmed line, if its title is not
/// empty.
pub open spec fn asciidoc_spec(t: Seq<char>) -> Option<(nat, Seq<char>, nat)> {
    match marker_level(t, '=') {
        Some(l) => if trim(t.skip(l as int)).len() > 0 {
            Some((l, trim(t.skip(l as int)), 1nat))
        } else {
            None
        },
        None => None,
    }
}

/// The heading at line `i`: level, title and how many lines it takes.
pub open spec fn detect_spec(ls: Seq<Seq<char>>, i: int) -> Option<(nat, Seq<char>, nat)> {
    let t = trim(ls[i]);
    if t.len() == 0 {
        None
    } else if atx_spec(t) is Some {
        atx_spec(t)
    } else if setext_spec(ls, i) is Some {
        setext_spec(ls, i)
    } else {
        asciidoc_spec(t)
    }
}

fn is_fence_exec(line: &[char]) -> (r: bool)
    ensures
        r == is_fence(line@),
{
    let t = trim_start_chars(line);
    let a = crate::text::starts_with(t.as_slice(), &['`', '`', '`']);
    let b = crate::text::starts_with(t.as_slice(), &['~', '~', '~']);
    proof {
        assert(seq!['`', '`', '`'] =~= [ '`', '`', '`' ]@);
    }
    a || b
}

fn marker_level_exec(s: &[char], c: char) -> (r: Option<usize>)
    ensures
        match marker_level(s@, c) {
            Some(l) => r == Some(l as usize),
            None => r is None,
        },
{
    let mut n: usize = 0;
    assert(s@.skip(0) =~= s@);
    while n < s.len() && s[n] == c
        invariant
            n <= s.len(),
            run_len(s@, c) == n + run_len(s@.skip(n as int), c),
        decreases s.len() - n,
    {
        proof {
            assert(s@.skip(n as int).drop_first() =~= s@.skip(n + 1));
        }
        n += 1;
    }
    proof {
        if n < s.len() {
            assert(s@.skip(n as int)[0] == s@[n as int]);
        }
    }
    if 1 <= n && n <= 6 && n < s.len() && crate::text::char_is_ws(s[n]) {
        Some(n)
    } else {
        None
    }
}

fn strip_trailing_exec(s: &[char], c: char) -> (r: Vec<char>)
    ensures
        r@ == strip_trailing(s@, c),
{
    let mut end: usize = s.len();
    assert(s@.subrange(0, end as int) =~= s@);
    while end > 0 && s[end - 1] == c
        invariant
            end <= s.len(),
            strip_trailing(s@, c) == strip_trailing(s@.subrange(0, end as int), c),
        decreases end,
    {
        proof {
            assert(s@.subrange(0, end as int).drop_last() =~= s@.subrange(0, end - 1));
        }
        end -= 1;
    }
    copy_chars(s, 0, end)
}

fn is_underline_exec(u: &[char]) -> (r: bool)
    ensures
        r == is_underline(u@),
{
    if u.len() < 3 {
        return false;
    }
    let mut k: usize = 0;
    while k < u.len()
        invariant
            k <= u.len(),
            forall|j: int| 0 <= j < k ==> (u@[j] == '=' || u@[j] == '-'),
        decreases u.len() - k,
    {
        if u[k] != '=' && u[k] != '-' {
            return false;
        }
        k += 1;
    }
    true
}

/// Outcome of looking for a heading: `None` where cutting the title out of
/// the line would split a multi-byte character.
fn detect_heading(ls: &Vec<Vec<char>>, index: usize) -> (r: Option<Option<(usize, Vec<char>, usize)>>)
    requires
        index < ls.len(),
    ensures
        r is None <==> heading_panics(trim(seqs_view(ls@)[index as int])),
        r matches Some(d) ==> match detect_spec(seqs_view(ls@), index as int) {
            Some(x) => d matches Some(y) && y.0 == x.0 && y.1@ == x.1 && y.2 == x.2,
            None => d is None,
        },
{
    let ghost lv = seqs_view(ls@);
    let t = trim_chars(ls[index].as_slice());
    proof {
        assert(lv[index as int] == ls@[index as int]@);
    }
    if t.len() == 0 {
        return Some(None);
    }
    match marker_level_exec(t.as_slice(), '#') {
        Some(level) => {
            if (t[level] as u32) >= 128 {
                return None;
            }
            let rest = copy_chars(t.as_slice(), level + 1, t.len());
            let a = trim_chars(rest.as_slice());
            let b = strip_trailing_exec(a.as_slice(), '#');
            let title = trim_chars(b.as_slice());
            proof {
                assert(rest@ =~= t@.skip(level + 1));
            }
            if title.len() > 0 {
                return Some(Some((level, title, 1)));
            }
        },
        None => {},
    }
    if index + 1 < ls.len() {
        let u = trim_chars(ls[index + 1].as_slice());
        proof {
            assert(lv[index + 1] == ls@[index + 1]@);
        }
        if is_underline_exec(u.as_slice()) {
            let level: usize = if u[0] == '=' {
                1
            } else {
                2
            };
            return Some(Some((level, t, 2)));
        }
    }
    match marker_level_exec(t.as_slice(), '=') {
        Some(level) => {
            let rest = copy_chars(t.as_slice(), level, t.len());
            let title = trim_chars(rest.as_slice());
            proof {
                assert(rest@ =~= t@.skip(level as int));
            }
            if title.len() > 0 {
                return Some(Some((level, title, 1)));
            }
        },
        None => {},
    }
    Some(None)
}

// ---------------------------------------------------------------------------
// Sections
// ---------------------------------------------------------------------------

/// A section of a document.
pub struct DocumentSection {
    /// Titles from the outermost section down to this one.
    pub path: Vec<String>,
    /// Identifier segments matching `path`.
    pub id_path: Vec<String>,
    /// Older, lossy identifier segments matching `path`.
    pub legacy_id_path: Vec<String>,
    pub title: String,
    /// Heading level, 1 for the outermost.
    pub level: usize,
    /// 1 for the first sibling with this title, 2 for the next, and so on.
    pub ordinal: usize,
    /// The lines under the heading up to the next heading, trimmed.
    pub content: String,
}

/// The value of a section.
pub struct SectionV {
    pub path: Seq<Seq<char>>,
    pub id_path: Seq<Seq<char>>,
    pub legacy_id_path: Seq<Seq<char>>,
    pub title: Seq<char>,
    pub level: nat,
    pub ordinal: nat,
    pub content: Seq<char>,
}

impl View for DocumentSection {
    type V = SectionV;

    open spec fn view(&self) -> SectionV {
        SectionV {
            path: views(self.path@),
            id_path: views(self.id_path@),
            legacy_id_path: views(self.legacy_id_path@),
            title: self.title@,
            level: self.level as nat,
            ordinal: self.ordinal as nat,
            content: self.content@,
        }
    }
}

/// A section whose heading has been read and whose end has not.
pub struct OpenV {
    pub level: nat,
    pub title: Seq<char>,
    pub path: Seq<Seq<char>>,
    pub id_path: Seq<Seq<char>>,
    pub legacy_id_path: Seq<Seq<char>>,
    pub ordinal: nat,
    pub content: Seq<Seq<char>>,
}

/// What the reader holds between lines.
pub struct DocState {
    /// Finished sections, in the order they were closed.
    pub out: Seq<SectionV>,
    /// Open sections, outermost first.
    pub stack: Seq<OpenV>,
    /// The title paths of all sections opened so far.
    pub opened: Seq<Seq<Seq<char>>>,
    /// Whether the reader is inside a fenced code block.
    pub in_fence: bool,
}

/// A finished section: its lines joined and trimmed.
pub open spec fn close_spec(o: OpenV) -> SectionV {
    SectionV {
        path: o.path,
        id_path: o.id_path,
        legacy_id_path: o.legacy_id_path,
        title: o.title,
        level: o.level,
        ordinal: o.ordinal,
        content: trim(join_with(o.content, '\n')),
    }
}

/// A line added to the innermost open section, if there is one.
pub open spec fn add_content(stack: Seq<OpenV>, line: Seq<char>) -> Seq<OpenV> {
    if stack.len() == 0 {
        stack
    } else {
        let top = stack.last();
        stack.update(stack.len() - 1, OpenV { content: top.content.push(line), ..top })
    }
}

/// Closes the open sections of level `level` or deeper, innermost first.
pub open spec fn finalize_spec(stack: Seq<OpenV>, out: Seq<SectionV>, level: nat) -> (Seq<OpenV>, Seq<SectionV>)
    decreases stack.len(),
{
    if stack.len() > 0 && stack.last().level >= level {
        finalize_spec(stack.drop_last(), out.push(close_spec(stack.last())), level)
    } else {
        (stack, out)
    }
}

/// How many times `path` occurs in `opened`.
pub open spec fn count_path(opened: Seq<Seq<Seq<char>>>, path: Seq<Seq<char>>) -> nat
    decreases opened.len(),
{
    if opened.len() == 0 {
        0
    } else {
        count_path(opened.drop_last(), path) + if opened.last() == path {
            1nat
        } else {
            0nat
        }
    }
}

/// The section opened by a heading under the innermost open section; its
/// ordinal counts the earlier siblings with the same title.
pub open spec fn open_spec(stack: Seq<OpenV>, opened: Seq<Seq<Seq<char>>>, level: nat, title: Seq<char>) -> OpenV {
    let parent_path = if stack.len() > 0 {
        stack.last().path
    } else {
        Seq::empty()
    };
    let parent_id = if stack.len() > 0 {
        stack.last().id_path
    } else {
        Seq::empty()
    };
    let parent_legacy = if stack.len() > 0 {
        stack.last().legacy_id_path
    } else {
        Seq::empty()
    };
    let path = parent_path.push(title);
    let ordinal = count_path(opened, path) + 1;
    OpenV {
        level,
        title,
        path,
        id_path: parent_id.push(section_id_segment_spec(title, ordinal)),
        legacy_id_path: parent_legacy.push(legacy_segment_spec(title, ordinal)),
        ordinal,
        content: Seq::empty(),
    }
}

/// Reads lines from `i` on; `None` where cutting a heading's title out of
/// its line would split a multi-byte character.
pub open spec fn doc_run(ls: Seq<Seq<char>>, i: int, st: DocState) -> Option<Seq<SectionV>>
    decreases ls.len() - i,
{
    if i < 0 || i >= ls.len() {
        Some(finalize_spec(st.stack, st.out, 0).1)
    } else if is_fence(ls[i]) {
        doc_run(
            ls,
            i + 1,
            DocState { stack: add_content(st.stack, ls[i]), in_fence: !st.in_fence, ..st },
        )
    } else if !st.in_fence && heading_panics(trim(ls[i])) {
        None
    } else if !st.in_fence && detect_spec(ls, i) is Some {
        let h = detect_spec(ls, i)->Some_0;
        let fin = finalize_spec(st.stack, st.out, h.0);
        let o = open_spec(fin.0, st.opened, h.0, h.1);
        if h.2 >= 1 {
            doc_run(
                ls,
                i + h.2,
                DocState {
                    out: fin.1,
                    stack: fin.0.push(o),
                    opened: st.opened.push(o.path),
                    in_fence: st.in_fence,
                },
            )
        } else {
            None
        }
    } else {
        doc_run(ls, i + 1, DocState { stack: add_content(st.stack, ls[i]), ..st })
    }
}

/// The reader before the first line.
pub open spec fn initial_doc_state() -> DocState {
    DocState { out: Seq::empty(), stack: Seq::empty(), opened: Seq::empty(), in_fence: false }
}

/// The sections of a document, in the order they end; `None` where cutting
/// a heading's title out of its line would split a multi-byte character.
pub open spec fn sections_spec(source: Seq<char>) -> Option<Seq<SectionV>> {
    doc_run(lines(source), 0, initial_doc_state())
}

struct OpenSection {
    level: usize,
    title: Vec<char>,
    path: Vec<Vec<char>>,
    id_path: Vec<Vec<char>>,
    legacy_id_path: Vec<Vec<char>>,
    ordinal: usize,
    content: Vec<Vec<char>>,
}

spec fn open_v(o: OpenSection) -> OpenV {
    OpenV {
        level: o.level as nat,
        title: o.title@,
        path: seqs_view(o.path@),
        id_path: seqs_view(o.id_path@),
        legacy_id_path: seqs_view(o.legacy_id_path@),
        ordinal: o.ordinal as nat,
        content: seqs_view(o.content@),
    }
}

spec fn opens_view(s: Seq<OpenSection>) -> Seq<OpenV> {
    s.map_values(|o: OpenSection| open_v(o))
}

spec fn paths_view(s: Seq<Vec<Vec<char>>>) -> Seq<Seq<Seq<char>>> {
    s.map_values(|p: Vec<Vec<char>>| seqs_view(p@))
}

fn copy_lines(v: &Vec<Vec<char>>) -> (r: Vec<Vec<char>>)
    ensures
        seqs_view(r@) == seqs_view(v@),
{
    let mut r: Vec<Vec<char>> = Vec::new();
    let mut i: usize = 0;
    while i < v.len()
        invariant
            i <= v.len(),
            seqs_view(r@) == seqs_view(v@).take(i as int),
        decreases v.len() - i,
    {
        let x = copy_chars(v[i].as_slice(), 0, v[i].len());
        proof {
            assert(x@ =~= v@[i as int]@);
        }
        let ghost before = seqs_view(r@);
        r.push(x);
        proof {
            assert(seqs_view(r@) =~= before.push(x@));
            assert(seqs_view(v@).take(i + 1) =~= seqs_view(v@).take(i as int).push(
                seqs_view(v@)[i as int],
            ));
        }
        i += 1;
    }
    proof {
        assert(seqs_view(v@).take(i as int) =~= seqs_view(v@));
    }
    r
}

fn to_strings(v: &Vec<Vec<char>>) -> (r: Vec<String>)
    ensures
        views(r@) == seqs_view(v@),
{
    let mut r: Vec<String> = Vec::new();
    let mut i: usize = 0;
    while i < v.len()
        invariant
            i <= v.len(),
            views(r@) == seqs_view(v@).take(i as int),
        decreases v.len() - i,
    {
        let x = string_of(v[i].as_slice());
        let ghost before = views(r@);
        r.push(x);
        proof {
            assert(views(r@) =~= before.push(x@));
            assert(seqs_view(v@).take(i + 1) =~= seqs_view(v@).take(i as int).push(
                seqs_view(v@)[i as int],
            ));
        }
        i += 1;
    }
    proof {
        assert(seqs_view(v@).take(i as int) =~= seqs_view(v@));
    }
    r
}

fn seqs_eq(a: &Vec<Vec<char>>, b: &Vec<Vec<char>>) -> (r: bool)
    ensures
        r == (seqs_view(a@) == seqs_view(b@)),
{
    if a.len() != b.len() {
        proof {
            assert(seqs_view(a@).len() != seqs_view(b@).len());
        }
        return false;
    }
    let mut i: usize = 0;
    while i < a.len()
        invariant
            i <= a.len() == b.len(),
            forall|k: int| 0 <= k < i ==> seqs_view(a@)[k] == seqs_view(b@)[k],
        decreases a.len() - i,
    {
        if !crate::text::chars_eq(a[i].as_slice(), b[i].as_slice()) {
            proof {
                assert(seqs_view(a@)[i as int] != seqs_view(b@)[i as int]);
            }
            return false;
        }
        i += 1;
    }
    proof {
        assert(seqs_view(a@) =~= seqs_view(b@));
    }
    true
}

fn count_opened(opened: &Vec<Vec<Vec<char>>>, path: &Vec<Vec<char>>) -> (r: usize)
    ensures
        r == count_path(paths_view(opened@), seqs_view(path@)),
        r <= opened.len(),
{
    let ghost ov = paths_view(opened@);
    let mut c: usize = 0;
    let mut i: usize = 0;
    while i < opened.len()
        invariant
            i <= opened.len(),
            ov == paths_view(opened@),
            c <= i,
            c == count_path(ov.take(i as int), seqs_view(path@)),
        decreases opened.len() - i,
    {
        proof {
            assert(ov.take(i + 1).drop_last() =~= ov.take(i as int));
            assert(ov.take(i + 1).last() == seqs_view(opened@[i as int]@));
        }
        if seqs_eq(&opened[i], path) {
            c += 1;
        }
        i += 1;
    }
    proof {
        assert(ov.take(i as int) =~= ov);
    }
    c
}

fn close_section(o: OpenSection) -> (r: DocumentSection)
    ensures
        r@ == close_spec(open_v(o)),
{
    let joined = join_chars(&o.content, '\n');
    let content = trim_chars(joined.as_slice());
    DocumentSection {
        path: to_strings(&o.path),
        id_path: to_strings(&o.id_path),
        legacy_id_path: to_strings(&o.legacy_id_path),
        title: string_of(o.title.as_slice()),
        level: o.level,
        ordinal: o.ordinal,
        content: string_of(content.as_slice()),
    }
}

fn add_content_exec(stack: &mut Vec<OpenSection>, line: &Vec<char>)
    ensures
        opens_view(final(stack)@) == add_content(opens_view(old(stack)@), line@),
{
    let n = stack.len();
    if n > 0 {
        let ghost sv = opens_view(stack@);
        let mut top = stack.pop().unwrap();
        let copy = copy_chars(line.as_slice(), 0, line.len());
        proof {
            assert(copy@ =~= line@);
        }
        let ghost before = seqs_view(top.content@);
        top.content.push(copy);
        proof {
            assert(seqs_view(top.content@) =~= before.push(line@));
        }
        stack.push(top);
        proof {
            assert(opens_view(stack@) =~= add_content(sv, line@));
        }
    }
}

fn finalize_until(stack: &mut Vec<OpenSection>, level: usize, out: &mut Vec<DocumentSection>)
    ensures
        (opens_view(final(stack)@), views(final(out)@)) == finalize_spec(
            opens_view(old(stack)@),
            views(old(out)@),
            level as nat,
        ),
{
    loop
        invariant
            finalize_spec(opens_view(old(stack)@), views(old(out)@), level as nat) == finalize_spec(
                opens_view(stack@),
                views(out@),
                level as nat,
            ),
        decreases stack.len(),
    {
        let n = stack.len();
        if n == 0 || stack[n - 1].level < level {
            return;
        }
        let ghost sv = opens_view(stack@);
        let ghost ov = views(out@);
        let top = stack.pop().unwrap();
        proof {
            assert(opens_view(stack@) =~= sv.drop_last());
            assert(sv.last() == open_v(top));
        }
        let done = close_section(top);
        out.push(done);
        proof {
            assert(views(out@) =~= ov.push(done@));
        }
    }
}

/// Splits a document into sections, or gives `None` on a line whose heading
/// marker ends in a multi-byte whitespace character.
pub fn try_parse_document_sections(source: &str) -> (r: Option<Vec<DocumentSection>>)
    ensures
        match sections_spec(source@) {
            Some(v) => r matches Some(out) && views(out@) == v,
            None => r is None,
        },
{
    let chars = chars_of(source);
    let ls = lines_exec(chars.as_slice());
    let ghost lv = seqs_view(ls@);
    let mut out: Vec<DocumentSection> = Vec::new();
    let mut stack: Vec<OpenSection> = Vec::new();
    let mut opened: Vec<Vec<Vec<char>>> = Vec::new();
    let mut in_fence = false;
    let mut index: usize = 0;
    proof {
        assert(opens_view(stack@) =~= Seq::<OpenV>::empty());
        assert(views(out@) =~= Seq::<SectionV>::empty());
        assert(paths_view(opened@) =~= Seq::<Seq<Seq<char>>>::empty());
    }
    while index < ls.len()
        invariant
            lv == seqs_view(ls@),
            lv == lines(source@),
            index <= ls.len(),
            opened.len() <= index,
            sections_spec(source@) == doc_run(
                lv,
                index as int,
                DocState {
                    out: views(out@),
                    stack: opens_view(stack@),
                    opened: paths_view(opened@),
                    in_fence,
                },
            ),
        decreases ls.len() - index,
    {
        let ghost st = DocState {
            out: views(out@),
            stack: opens_view(stack@),
            opened: paths_view(opened@),
            in_fence,
        };
        proof {
            assert(lv[index as int] == ls@[index as int]@);
        }
        if is_fence_exec(ls[index].as_slice()) {
            add_content_exec(&mut stack, &ls[index]);
            in_fence = !in_fence;
            index += 1;
        } else {
            let mut handled = false;
            if !in_fence {
                match detect_heading(&ls, index) {
                    None => {
                        return None;
                    },
                    Some(Some((level, title, skip))) => {
                        let ghost h = detect_spec(lv, index as int)->Some_0;
                        finalize_until(&mut stack, level, &mut out);
                        let ghost fin = finalize_spec(st.stack, st.out, h.0);
                        let n = stack.len();
                        let (mut path, mut id_path, mut legacy) = if n > 0 {
                            (
                                copy_lines(&stack[n - 1].path),
                                copy_lines(&stack[n - 1].id_path),
                                copy_lines(&stack[n - 1].legacy_id_path),
                            )
                        } else {
                            (Vec::new(), Vec::new(), Vec::new())
                        };
                        proof {
                            if n > 0 {
                                assert(opens_view(stack@).last() == open_v(stack@[n - 1]));
                            } else {
                                assert(seqs_view(path@) =~= Seq::<Seq<char>>::empty());
                                assert(seqs_view(id_path@) =~= Seq::<Seq<char>>::empty());
                                assert(seqs_view(legacy@) =~= Seq::<Seq<char>>::empty());
                            }
                        }
                        let ghost pp = seqs_view(path@);
                        let ghost pi = seqs_view(id_path@);
                        let ghost pl = seqs_view(legacy@);
                        let tc = copy_chars(title.as_slice(), 0, title.len());
                        proof {
                            assert(tc@ =~= title@);
                        }
                        path.push(tc);
                        proof {
                            assert(seqs_view(path@) =~= pp.push(title@));
                        }
                        let count = count_opened(&opened, &path);
                        let ordinal = count + 1;
                        id_path.push(section_id_segment(title.as_slice(), ordinal));
                        legacy.push(legacy_section_id_segment(title.as_slice(), ordinal));
                        proof {
                            assert(seqs_view(id_path@) =~= pi.push(
                                section_id_segment_spec(title@, ordinal as nat),
                            ));
                            assert(seqs_view(legacy@) =~= pl.push(
                                legacy_segment_spec(title@, ordinal as nat),
                            ));
                        }
                        let ghost ov = paths_view(opened@);
                        opened.push(copy_lines(&path));
                        let o = OpenSection {
                            level,
                            title,
                            path,
                            id_path,
                            legacy_id_path: legacy,
                            ordinal,
                            content: Vec::new(),
                        };
                        let ghost sv = opens_view(stack@);
                        stack.push(o);
                        proof {
                            assert(seqs_view(o.content@) =~= Seq::<Seq<char>>::empty());
                            assert(open_v(o) == open_spec(fin.0, st.opened, h.0, h.1));
                            assert(opens_view(stack@) =~= sv.push(open_v(o)));
                            assert(paths_view(opened@) =~= ov.push(open_v(o).path));
                        }
                        index += skip;
                        handled = true;
                    },
                    Some(None) => {},
                }
            }
            if !handled {
                add_content_exec(&mut stack, &ls[index]);
                index += 1;
            }
        }
    }
    finalize_until(&mut stack, 0, &mut out);
    Some(out)
}

/// Splits a document into sections, listed in the order they end (a
/// section after the sections nested in it).
pub fn parse_document_sections(source: &str) -> (r: Vec<DocumentSection>)
    requires
        sections_spec(source@) is Some,
    ensures
        views(r@) == sections_spec(source@)->Some_0,
{
    match try_parse_document_sections(source) {
        Some(v) => v,
        None => Vec::new(),
    }
}

// ---------------------------------------------------------------------------
// Identifiers are lossless
// ---------------------------------------------------------------------------

/// The value of an upper-case hexadecimal digit.
pub open spec fn hex_value(c: char) -> int {
    if c <= '9' {
        c as int - 48
    } else {
        c as int - 55
    }
}

/// Reads back the bytes of an escaped title, from the front.
pub open spec fn unescape_bytes(cs: Seq<char>) -> Seq<u8>
    decreases cs.len(),
{
    if cs.len() == 0 {
        Seq::empty()
    } else if cs[0] == '~' && cs.len() >= 3 {
        seq![(hex_value(cs[1]) * 16 + hex_value(cs[2])) as u8] + unescape_bytes(cs.skip(3))
    } else {
        seq![(cs[0] as u32) as u8] + unescape_bytes(cs.drop_first())
    }
}

proof fn lemma_escape_bytes_concat(a: Seq<u8>, b: Seq<u8>)
    ensures
        escape_bytes(a + b) == escape_bytes(a) + escape_bytes(b),
    decreases b.len(),
{
    if b.len() == 0 {
        assert(a + b =~= a);
        assert(escape_bytes(a) + escape_bytes(b) =~= escape_bytes(a));
    } else {
        lemma_escape_bytes_concat(a, b.drop_last());
        assert((a + b).drop_last() =~= a + b.drop_last());
        assert((a + b).last() == b.last());
        assert(escape_bytes(a) + escape_bytes(b) =~= escape_bytes(a) + escape_bytes(b.drop_last())
            + escape_byte(b.last()));
    }
}

proof fn lemma_unescape_byte(b: u8, rest: Seq<char>)
    ensures
        unescape_bytes(escape_byte(b) + rest) == seq![b] + unescape_bytes(rest),
{
    let e = escape_byte(b) + rest;
    if is_plain_id_byte(b) {
        assert(e[0] == ((b as u32) as char));
        assert(e.drop_first() =~= rest);
        assert(((b as u32) as char) != '~');
        assert((((b as u32) as char) as u32) as u8 == b);
    } else {
        let hi = (b / 16) as nat;
        let lo = (b % 16) as nat;
        assert(e[0] == '~');
        assert(e[1] == hex_digit(hi));
        assert(e[2] == hex_digit(lo));
        assert(e.skip(3) =~= rest);
        assert(hex_value(hex_digit(hi)) == hi);
        assert(hex_value(hex_digit(lo)) == lo);
        assert(hi * 16 + lo == b);
    }
}

proof fn lemma_unescape_escape(bs: Seq<u8>)
    ensures
        unescape_bytes(escape_bytes(bs)) == bs,
    decreases bs.len(),
{
    if bs.len() > 0 {
        let rest = bs.drop_first();
        lemma_escape_bytes_concat(seq![bs[0]], rest);
        assert(seq![bs[0]] + rest =~= bs);
        assert(seq![bs[0]].drop_last() =~= Seq::<u8>::empty());
        assert(seq![bs[0]].last() == bs[0]);
        assert(escape_bytes(Seq::<u8>::empty()) =~= Seq::<char>::empty());
        assert(escape_bytes(seq![bs[0]]) =~= escape_byte(bs[0]));
        lemma_unescape_byte(bs[0], escape_bytes(rest));
        lemma_unescape_escape(rest);
    }
}

proof fn lemma_escape_bytes_nonempty(bs: Seq<u8>)
    requires
        bs.len() > 0,
    ensures
        escape_bytes(bs).len() > 0,
{
}

proof fn lemma_encode_nonempty(cs: Seq<char>)
    requires
        cs.len() > 0,
    ensures
        vstd::utf8::encode_utf8(cs).len() > 0,
{
    assert(vstd::utf8::encode_scalar(cs[0] as u32).len() > 0);
}

/// Distinct non-empty titles get distinct identifier segments: the escape
/// of a title can be read back.
pub proof fn law_title_escape_is_lossless(a: Seq<char>, b: Seq<char>)
    requires
        a.len() > 0,
        b.len() > 0,
        escape_title_spec(a) == escape_title_spec(b),
    ensures
        a == b,
{
    broadcast use vstd::utf8::encode_utf8_decode_utf8;

    let ea = vstd::utf8::encode_utf8(a);
    let eb = vstd::utf8::encode_utf8(b);
    lemma_encode_nonempty(a);
    lemma_encode_nonempty(b);
    lemma_escape_bytes_nonempty(ea);
    lemma_escape_bytes_nonempty(eb);
    lemma_unescape_escape(ea);
    lemma_unescape_escape(eb);
    assert(ea == eb);
    assert(vstd::utf8::decode_utf8(ea) == a);
    assert(vstd::utf8::decode_utf8(eb) == b);
}

} // verus!
