//! How numbers are printed in `.kg` text: plainly (`0.5`, `1`, `-0`,
//! `inf`, `NaN`) or with six decimals (`0.200000`). Numbers are held as
//! the decimal text they were given in.
use vstd::prelude::*;
use crate::kg_codec::{digit_run, digit_run_exec, is_decimal_number, is_decimal_number_exec, mantissa_len, unsigned_part};
use crate::text::{ascii_lower_chars, ascii_lower_seq, chars_eq_str, copy_chars, is_digit, string_of};

verus! {

broadcast use vstd::string::group_string_axioms;

/// The number of leading `c` characters.
pub open spec fn lead_count(d: Seq<char>, c: char) -> nat
    decreases d.len(),
{
    if d.len() > 0 && d[0] == c {
        1 + lead_count(d.drop_first(), c)
    } else {
        0
    }
}

/// The number of trailing `c` characters.
pub open spec fn trail_count(d: Seq<char>, c: char) -> nat
    decreases d.len(),
{
    if d.len() > 0 && d.last() == c {
        1 + trail_count(d.drop_last(), c)
    } else {
        0
    }
}

/// `n` zeros.
pub open spec fn zeros(n: nat) -> Seq<char> {
    Seq::new(n, |i: int| '0')
}

/// The integer digits without leading zeros, `0` when nothing is left.
pub open spec fn int_text(d: Seq<char>) -> Seq<char> {
    let k = lead_count(d, '0');
    if k == d.len() { "0"@ } else { d.skip(k as int) }
}

/// The digit after a digit below 9.
pub open spec fn next_digit(c: char) -> char {
    if c == '0' { '1' } else if c == '1' { '2' } else if c == '2' { '3' } else if c == '3' { '4' }
    else if c == '4' { '5' } else if c == '5' { '6' } else if c == '6' { '7' } else if c == '7' { '8' }
    else { '9' }
}

/// A digit string plus one.
pub open spec fn incr(d: Seq<char>) -> Seq<char> {
    let t = trail_count(d, '9');
    if t == d.len() {
        seq!['1'] + zeros(t)
    } else {
        d.take(d.len() - t - 1).push(next_digit(d[d.len() - t - 1])) + zeros(t)
    }
}

/// Whether a text is a number without exponent: digits, optionally a dot
/// and more digits.
pub open spec fn is_plain(u: Seq<char>) -> bool {
    is_decimal_number(u) && mantissa_len(u) == u.len()
}

/// The digits before the dot.
pub open spec fn int_digits(u: Seq<char>) -> Seq<char> {
    u.take(digit_run(u, 0))
}

/// The digits after the dot.
pub open spec fn frac_digits(u: Seq<char>) -> Seq<char> {
    let d1 = digit_run(u, 0);
    if d1 < u.len() && u[d1] == '.' { u.skip(d1 + 1) } else { Seq::empty() }
}

/// Whether the text starts with `-`.
pub open spec fn negative(s: Seq<char>) -> bool {
    s.len() > 0 && s[0] == '-'
}

/// The sign as printed.
pub open spec fn sign_text(s: Seq<char>) -> Seq<char> {
    if negative(s) { "-"@ } else { Seq::empty() }
}

/// A number printed plainly, as a float is displayed: the sign if
/// negative, the integer digits without leading zeros, and the fraction
/// without trailing zeros (no dot when nothing is left); `inf` and `NaN`
/// for the infinite and undefined values. A number with an exponent is
/// kept as it is.
pub open spec fn display_spec(s: Seq<char>) -> Seq<char> {
    let u = unsigned_part(s);
    let l = ascii_lower_seq(u);
    if l == "nan"@ {
        "NaN"@
    } else if l == "inf"@ || l == "infinity"@ {
        sign_text(s) + "inf"@
    } else if is_plain(u) {
        let f = frac_digits(u);
        let f2 = f.take(f.len() - trail_count(f, '0'));
        sign_text(s) + int_text(int_digits(u)) + if f2.len() > 0 { "."@ + f2 } else { Seq::empty() }
    } else {
        s
    }
}

/// Whether the fraction digits beyond the sixth round the number up: above
/// one half, or exactly one half with an odd last kept digit.
pub open spec fn rounds_up(kept: Seq<char>, rest: Seq<char>) -> bool {
    let r0 = rest[0];
    let tail = rest.drop_first();
    let odd = kept.len() > 0 && (kept.last() == '1' || kept.last() == '3' || kept.last() == '5' || kept.last()
        == '7' || kept.last() == '9');
    (r0 == '6' || r0 == '7' || r0 == '8' || r0 == '9') || (r0 == '5' && (trail_count(tail, '0') < tail.len() || odd))
}

/// Integer and fraction digits rounded to six decimals: `int.ffffff`.
pub open spec fn six_decimals(i: Seq<char>, f: Seq<char>) -> Seq<char> {
    if f.len() <= 6 {
        i + "."@ + f + zeros((6 - f.len()) as nat)
    } else {
        let kept = i + f.take(6);
        let digits = if rounds_up(kept, f.skip(6)) { incr(kept) } else { kept };
        digits.take(digits.len() - 6) + "."@ + digits.skip(digits.len() - 6)
    }
}

/// A number printed with six decimals, as a float is with `{:.6}`: the
/// sign if negative, the integer digits without leading zeros, and the
/// fraction padded or rounded to six digits; `inf` and `NaN` for the
/// infinite and undefined values. A number with an exponent is kept as
/// it is.
pub open spec fn fixed6_spec(s: Seq<char>) -> Seq<char> {
    let u = unsigned_part(s);
    let l = ascii_lower_seq(u);
    if l == "nan"@ {
        "NaN"@
    } else if l == "inf"@ || l == "infinity"@ {
        sign_text(s) + "inf"@
    } else if is_plain(u) {
        sign_text(s) + six_decimals(int_text(int_digits(u)), frac_digits(u))
    } else {
        s
    }
}

proof fn lemma_lead_count(d: Seq<char>, c: char, k: int)
    requires
        0 <= k <= d.len(),
        forall|j: int| 0 <= j < k ==> d[j] == c,
        k < d.len() ==> d[k] != c,
    ensures
        lead_count(d, c) == k,
    decreases k,
{
    if k > 0 {
        lemma_lead_count(d.drop_first(), c, k - 1);
    }
}

proof fn lemma_trail_count(d: Seq<char>, c: char, k: int)
    requires
        0 <= k <= d.len(),
        forall|j: int| d.len() - k <= j < d.len() ==> d[j] == c,
        k < d.len() ==> d[d.len() - k - 1] != c,
    ensures
        trail_count(d, c) == k,
    decreases k,
{
    if k > 0 {
        lemma_trail_count(d.drop_last(), c, k - 1);
    }
}

fn lead_count_exec(d: &[char], c: char) -> (r: usize)
    ensures
        r == lead_count(d@, c),
        r <= d.len(),
{
    let mut i: usize = 0;
    while i < d.len() && d[i] == c
        invariant
            i <= d.len(),
            forall|j: int| 0 <= j < i ==> d@[j] == c,
        decreases d.len() - i,
    {
        i += 1;
    }
    proof {
        lemma_lead_count(d@, c, i as int);
    }
    i
}

fn trail_count_exec(d: &[char], c: char) -> (r: usize)
    ensures
        r == trail_count(d@, c),
        r <= d.len(),
{
    let mut k: usize = 0;
    while k < d.len() && d[d.len() - k - 1] == c
        invariant
            k <= d.len(),
            forall|j: int| d.len() - k <= j < d.len() ==> d@[j] == c,
        decreases d.len() - k,
    {
        k += 1;
    }
    proof {
        lemma_trail_count(d@, c, k as int);
    }
    k
}

fn push_zeros(out: &mut Vec<char>, n: usize)
    ensures
        final(out)@ == old(out)@ + zeros(n as nat),
{
    let mut i: usize = 0;
    while i < n
        invariant
            i <= n,
            out@ == old(out)@ + zeros(i as nat),
        decreases n - i,
    {
        out.push('0');
        i += 1;
        assert(out@ =~= old(out)@ + zeros(i as nat));
    }
}

fn append_from(out: &mut Vec<char>, s: &[char], a: usize, b: usize)
    requires
        a <= b <= s.len(),
    ensures
        final(out)@ == old(out)@ + s@.subrange(a as int, b as int),
{
    let mut i = a;
    while i < b
        invariant
            a <= i <= b <= s.len(),
            out@ == old(out)@ + s@.subrange(a as int, i as int),
        decreases b - i,
    {
        out.push(s[i]);
        i += 1;
        assert(out@ =~= old(out)@ + s@.subrange(a as int, i as int));
    }
}

fn int_text_exec(d: &[char]) -> (r: Vec<char>)
    ensures
        r@ == int_text(d@),
{
    let k = lead_count_exec(d, '0');
    let mut out: Vec<char> = Vec::new();
    if k == d.len() {
        out.push('0');
        assert(out@ =~= "0"@) by {
            reveal_strlit("0");
        }
    } else {
        append_from(&mut out, d, k, d.len());
        assert(out@ =~= d@.skip(k as int));
    }
    out
}

fn next_digit_exec(c: char) -> (r: char)
    ensures
        r == next_digit(c),
{
    if c == '0' { '1' } else if c == '1' { '2' } else if c == '2' { '3' } else if c == '3' { '4' }
    else if c == '4' { '5' } else if c == '5' { '6' } else if c == '6' { '7' } else if c == '7' { '8' }
    else { '9' }
}

fn incr_exec(d: &[char]) -> (r: Vec<char>)
    ensures
        r@ == incr(d@),
{
    let t = trail_count_exec(d, '9');
    let mut out: Vec<char> = Vec::new();
    if t == d.len() {
        out.push('1');
        push_zeros(&mut out, t);
        assert(out@ =~= seq!['1'] + zeros(t as nat));
    } else {
        let p = d.len() - t - 1;
        append_from(&mut out, d, 0, p);
        out.push(next_digit_exec(d[p]));
        push_zeros(&mut out, t);
        assert(out@ =~= d@.take(p as int).push(next_digit(d@[p as int])) + zeros(t as nat));
    }
    out
}

/// The sign, the unsigned text and its lower-case form.
fn split_sign(s: &[char]) -> (r: (bool, Vec<char>))
    ensures
        r.0 == negative(s@),
        r.1@ == unsigned_part(s@),
{
    let neg = s.len() > 0 && s[0] == '-';
    let u = if s.len() > 0 && (s[0] == '+' || s[0] == '-') {
        copy_chars(s, 1, s.len())
    } else {
        copy_chars(s, 0, s.len())
    };
    assert(u@ == unsigned_part(s@)) by {
        if s.len() > 0 && (s[0] == '+' || s[0] == '-') {
            assert(u@ =~= s@.drop_first());
        } else {
            assert(u@ =~= s@);
        }
    }
    (neg, u)
}

/// Whether the unsigned text is a plain number, with its integer and
/// fraction digits.
fn plain_parts(u: &[char]) -> (r: Option<(Vec<char>, Vec<char>)>)
    ensures
        match r {
            Some((i, f)) => is_plain(u@) && i@ == int_digits(u@) && f@ == frac_digits(u@),
            None => !is_plain(u@),
        },
{
    if !is_decimal_number_exec(u) {
        return None;
    }
    let d1 = digit_run_exec(u, 0);
    let has_dot = d1 < u.len() && u[d1] == '.';
    let m = if has_dot { d1 + 1 + digit_run_exec(u, d1 + 1) } else { d1 };
    if m != u.len() {
        return None;
    }
    let i = copy_chars(u, 0, d1);
    let f = if has_dot { copy_chars(u, d1 + 1, u.len()) } else { Vec::new() };
    assert(i@ =~= int_digits(u@));
    assert(f@ =~= frac_digits(u@));
    Some((i, f))
}

fn push_sign(out: &mut Vec<char>, neg: bool)
    ensures
        final(out)@ == old(out)@ + (if neg { "-"@ } else { Seq::<char>::empty() }),
{
    proof {
        reveal_strlit("-");
    }
    if neg {
        out.push('-');
        assert(out@ =~= old(out)@ + "-"@);
    } else {
        assert(out@ =~= old(out)@ + Seq::<char>::empty());
    }
}

/// The special values: `NaN`, or `inf` with its sign.
fn special_text(s: &[char], neg: bool, u: &[char]) -> (r: Option<Vec<char>>)
    requires
        neg == negative(s@),
        u@ == unsigned_part(s@),
    ensures
        match r {
            Some(t) => {
                let l = ascii_lower_seq(u@);
                &&& (l == "nan"@ || l == "inf"@ || l == "infinity"@)
                &&& t@ == if l == "nan"@ { "NaN"@ } else { sign_text(s@) + "inf"@ }
            },
            None => {
                let l = ascii_lower_seq(u@);
                !(l == "nan"@ || l == "inf"@ || l == "infinity"@)
            },
        },
{
    let l = ascii_lower_chars(u);
    if chars_eq_str(l.as_slice(), "nan") {
        let t = crate::text::chars_of("NaN");
        return Some(t);
    }
    if chars_eq_str(l.as_slice(), "inf") || chars_eq_str(l.as_slice(), "infinity") {
        let mut t: Vec<char> = Vec::new();
        push_sign(&mut t, neg);
        let i = crate::text::chars_of("inf");
        crate::text::append_chars(&mut t, i.as_slice());
        return Some(t);
    }
    None
}

/// A number printed plainly, as [`display_spec`] states.
pub fn display_number(s: &str) -> (r: String)
    ensures
        r@ == display_spec(s@),
{
    let c = crate::text::chars_of(s);
    let (neg, u) = split_sign(c.as_slice());
    match special_text(c.as_slice(), neg, u.as_slice()) {
        Some(t) => {
            return string_of(t.as_slice());
        },
        None => {},
    }
    match plain_parts(u.as_slice()) {
        None => string_of(c.as_slice()),
        Some((i, f)) => {
            let mut out: Vec<char> = Vec::new();
            push_sign(&mut out, neg);
            let it = int_text_exec(i.as_slice());
            crate::text::append_chars(&mut out, it.as_slice());
            let t = trail_count_exec(f.as_slice(), '0');
            let keep = f.len() - t;
            if keep > 0 {
                out.push('.');
                append_from(&mut out, f.as_slice(), 0, keep);
                proof {
                    reveal_strlit(".");
                }
                assert(out@ =~= sign_text(c@) + int_text(i@) + ("."@ + f@.take(keep as int)));
            } else {
                assert(out@ =~= sign_text(c@) + int_text(i@) + Seq::<char>::empty());
            }
            string_of(out.as_slice())
        },
    }
}

fn six_decimals_exec(i: &[char], f: &[char]) -> (r: Vec<char>)
    ensures
        r@ == six_decimals(i@, f@),
{
    proof {
        reveal_strlit(".");
    }
    let mut out: Vec<char> = Vec::new();
    if f.len() <= 6 {
        crate::text::append_chars(&mut out, i);
        out.push('.');
        crate::text::append_chars(&mut out, f);
        push_zeros(&mut out, 6 - f.len());
        assert(out@ =~= i@ + "."@ + f@ + zeros((6 - f.len()) as nat));
        return out;
    }
    let mut kept: Vec<char> = Vec::new();
    crate::text::append_chars(&mut kept, i);
    append_from(&mut kept, f, 0, 6);
    assert(kept@ =~= i@ + f@.take(6));
    let r0 = f[6];
    let tail = copy_chars(f, 7, f.len());
    let tz = trail_count_exec(tail.as_slice(), '0');
    let tail_len = f.len() - 7;
    let kl = kept.len();
    let odd = kl > 0 && (kept[kl - 1] == '1' || kept[kl - 1] == '3' || kept[kl - 1] == '5' || kept[kl - 1] == '7'
        || kept[kl - 1] == '9');
    let up = (r0 == '6' || r0 == '7' || r0 == '8' || r0 == '9') || (r0 == '5' && (tz < tail_len || odd));
    proof {
        assert(f@.skip(6)[0] == r0);
        assert(f@.skip(6).drop_first() =~= f@.subrange(7, f.len() as int));
        assert(tail@ =~= f@.subrange(7, f.len() as int));
    }
    assert(up == rounds_up(kept@, f@.skip(6)));
    let digits = if up { incr_exec(kept.as_slice()) } else { kept };
    let n = digits.len();
    assert(n >= 6) by {
        if up {
            assert(incr(kept@).len() >= kept@.len());
        }
    }
    append_from(&mut out, digits.as_slice(), 0, n - 6);
    out.push('.');
    append_from(&mut out, digits.as_slice(), n - 6, n);
    assert(out@ =~= digits@.take(n - 6) + "."@ + digits@.skip(n - 6));
    out
}

/// A number printed with six decimals, as [`fixed6_spec`] states.
pub fn fixed6_number(s: &str) -> (r: String)
    ensures
        r@ == fixed6_spec(s@),
{
    let c = crate::text::chars_of(s);
    let (neg, u) = split_sign(c.as_slice());
    match special_text(c.as_slice(), neg, u.as_slice()) {
        Some(t) => {
            return string_of(t.as_slice());
        },
        None => {},
    }
    match plain_parts(u.as_slice()) {
        None => string_of(c.as_slice()),
        Some((i, f)) => {
            let mut out: Vec<char> = Vec::new();
            push_sign(&mut out, neg);
            let it = int_text_exec(i.as_slice());
            let sd = six_decimals_exec(it.as_slice(), f.as_slice());
            crate::text::append_chars(&mut out, sd.as_slice());
            string_of(out.as_slice())
        },
    }
}

} // verus!
