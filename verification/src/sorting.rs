//! Stable sorting and case-insensitive de-duplication.
use vstd::prelude::*;
use crate::text::{ascii_lower_chars, ascii_lower_seq, chars_eq, lex_order, lex_order_chars};

verus! {

/// A type with a total preorder used for stable sorting: `spec_after(a, b)`
/// holds when `a` sorts strictly after `b`.
pub trait KeyOrder: View + Sized {
    spec fn spec_after(a: Self::V, b: Self::V) -> bool;

    fn after(&self, other: &Self) -> (r: bool)
        ensures
            r == Self::spec_after(self@, other@),
    ;
}

/// The views of a sequence of values.
pub open spec fn views<T: View>(s: Seq<T>) -> Seq<T::V> {
    s.map_values(|t: T| t@)
}

/// Inserts `x` before the first element that sorts strictly after it.
pub open spec fn insert_sorted<T: KeyOrder>(s: Seq<T::V>, x: T::V) -> Seq<T::V>
    decreases s.len(),
{
    if s.len() == 0 {
        seq![x]
    } else if T::spec_after(s[0], x) {
        seq![x] + s
    } else {
        seq![s[0]] + insert_sorted::<T>(s.drop_first(), x)
    }
}

/// Stable sort: elements are inserted one by one, in their original order,
/// each before the first element that sorts strictly after it; equal
/// elements therefore keep their original relative order.
pub open spec fn sorted_seq<T: KeyOrder>(s: Seq<T::V>) -> Seq<T::V>
    decreases s.len(),
{
    if s.len() == 0 {
        s
    } else {
        insert_sorted::<T>(sorted_seq::<T>(s.drop_last()), s.last())
    }
}

proof fn lemma_insert_sorted_at<T: KeyOrder>(s: Seq<T::V>, x: T::V, p: int)
    requires
        0 <= p <= s.len(),
        forall|j: int| 0 <= j < p ==> !T::spec_after(#[trigger] s[j], x),
        p < s.len() ==> T::spec_after(s[p], x),
    ensures
        insert_sorted::<T>(s, x) == s.take(p) + seq![x] + s.skip(p),
    decreases s.len(),
{
    if s.len() == 0 {
        assert(s.take(p) + seq![x] + s.skip(p) =~= seq![x]);
    } else if p == 0 {
        assert(s.take(p) + seq![x] + s.skip(p) =~= seq![x] + s);
    } else {
        assert(!T::spec_after(s[0], x));
        let t = s.drop_first();
        assert forall|j: int| 0 <= j < p - 1 implies !T::spec_after(#[trigger] t[j], x) by {
            assert(t[j] == s[j + 1]);
        }
        if p - 1 < t.len() {
            assert(t[p - 1] == s[p]);
        }
        lemma_insert_sorted_at::<T>(t, x, p - 1);
        assert(seq![s[0]] + (t.take(p - 1) + seq![x] + t.skip(p - 1)) =~= s.take(p) + seq![x]
            + s.skip(p));
    }
}

/// A sequence in which no element sorts strictly after a later one is its
/// own stable sort.
pub proof fn lemma_sorted_identity<T: KeyOrder>(s: Seq<T::V>)
    requires
        forall|i: int, j: int| 0 <= i < j < s.len() ==> !T::spec_after(s[i], s[j]),
    ensures
        sorted_seq::<T>(s) == s,
    decreases s.len(),
{
    if s.len() > 0 {
        let init = s.drop_last();
        assert forall|i: int, j: int| 0 <= i < j < init.len() implies !T::spec_after(
            init[i],
            init[j],
        ) by {
            assert(init[i] == s[i] && init[j] == s[j]);
        }
        lemma_sorted_identity::<T>(init);
        assert forall|j: int| 0 <= j < init.len() implies !T::spec_after(
            #[trigger] init[j],
            s.last(),
        ) by {
            assert(init[j] == s[j]);
        }
        lemma_insert_sorted_at::<T>(init, s.last(), init.len() as int);
        assert(init.take(init.len() as int) + seq![s.last()] + init.skip(init.len() as int) =~= s);
    }
}

/// The order is a total preorder: two elements never sort after each other,
/// and when `a` sorts after `c`, any `b` sorts before `a` or after `c`.
pub open spec fn preorder_ok<T: KeyOrder>() -> bool {
    &&& forall|a: T::V, b: T::V| #[trigger] T::spec_after(a, b) ==> !T::spec_after(b, a)
    &&& forall|a: T::V, b: T::V, c: T::V|
        #![trigger T::spec_after(a, b), T::spec_after(b, c)]
        #![trigger T::spec_after(a, c), T::spec_after(a, b)]
        #![trigger T::spec_after(a, c), T::spec_after(b, c)]
        T::spec_after(a, c) ==> T::spec_after(a, b) || T::spec_after(b, c)
}

/// No element sorts after a later one.
pub open spec fn is_sorted<T: KeyOrder>(s: Seq<T::V>) -> bool {
    forall|i: int, j: int| 0 <= i < j < s.len() ==> !T::spec_after(#[trigger] s[i], #[trigger] s[j])
}

/// Where a stable insertion puts `x` into a sorted sequence: after every
/// element that does not sort after it, before every one that does.
proof fn lemma_insert_split<T: KeyOrder>(t: Seq<T::V>, x: T::V) -> (k: int)
    requires
        preorder_ok::<T>(),
        is_sorted::<T>(t),
    ensures
        0 <= k <= t.len(),
        insert_sorted::<T>(t, x) == t.take(k) + seq![x] + t.skip(k),
        forall|j: int| 0 <= j < k ==> !T::spec_after(#[trigger] t[j], x),
        forall|j: int| k <= j < t.len() ==> T::spec_after(#[trigger] t[j], x),
    decreases t.len(),
{
    if t.len() == 0 {
        assert(t.take(0) + seq![x] + t.skip(0) =~= seq![x]);
        0
    } else if T::spec_after(t[0], x) {
        assert forall|j: int| 0 <= j < t.len() implies T::spec_after(#[trigger] t[j], x) by {
            if j > 0 {
                assert(!T::spec_after(t[0], t[j]));
            }
        }
        assert(t.take(0) + seq![x] + t.skip(0) =~= seq![x] + t);
        0
    } else {
        let r = t.drop_first();
        assert forall|i: int, j: int| 0 <= i < j < r.len() implies !T::spec_after(#[trigger] r[i], #[trigger] r[j]) by {
            assert(r[i] == t[i + 1] && r[j] == t[j + 1]);
        }
        let k1 = lemma_insert_split::<T>(r, x);
        assert(seq![t[0]] + (r.take(k1) + seq![x] + r.skip(k1)) =~= t.take(k1 + 1) + seq![x] + t.skip(k1 + 1));
        assert forall|j: int| 0 <= j < k1 + 1 implies !T::spec_after(#[trigger] t[j], x) by {
            if j > 0 {
                assert(t[j] == r[j - 1]);
            }
        }
        assert forall|j: int| k1 + 1 <= j < t.len() implies T::spec_after(#[trigger] t[j], x) by {
            assert(t[j] == r[j - 1]);
        }
        k1 + 1
    }
}

/// A stable sort is sorted and holds the same elements.
pub proof fn lemma_sorted_seq_props<T: KeyOrder>(s: Seq<T::V>)
    requires
        preorder_ok::<T>(),
    ensures
        is_sorted::<T>(sorted_seq::<T>(s)),
        sorted_seq::<T>(s).len() == s.len(),
        forall|y: T::V| sorted_seq::<T>(s).contains(y) <==> s.contains(y),
    decreases s.len(),
{
    if s.len() > 0 {
        let init = s.drop_last();
        let x = s.last();
        lemma_sorted_seq_props::<T>(init);
        let t = sorted_seq::<T>(init);
        let k = lemma_insert_split::<T>(t, x);
        let u = t.take(k) + seq![x] + t.skip(k);
        assert forall|i: int, j: int| 0 <= i < j < u.len() implies !T::spec_after(#[trigger] u[i], #[trigger] u[j]) by {
            if j < k {
                assert(u[i] == t[i] && u[j] == t[j]);
            } else if j == k {
                assert(u[i] == t[i]);
            } else if i < k {
                assert(u[i] == t[i] && u[j] == t[j - 1]);
            } else if i == k {
                assert(u[j] == t[j - 1]);
                assert(T::spec_after(t[j - 1], x));
            } else {
                assert(u[i] == t[i - 1] && u[j] == t[j - 1]);
            }
        }
        assert forall|y: T::V| u.contains(y) <==> s.contains(y) by {
            if u.contains(y) {
                let i = choose|i: int| 0 <= i < u.len() && u[i] == y;
                if i < k {
                    assert(t[i] == y);
                    assert(t.contains(y));
                    assert(init.contains(y));
                    let j = choose|j: int| 0 <= j < init.len() && init[j] == y;
                    assert(init[j] == s[j]);
                } else if i == k {
                    assert(s[s.len() - 1] == y);
                } else {
                    assert(t[i - 1] == y);
                    assert(t.contains(y));
                    assert(init.contains(y));
                    let j = choose|j: int| 0 <= j < init.len() && init[j] == y;
                    assert(init[j] == s[j]);
                }
            }
            if s.contains(y) {
                let j = choose|j: int| 0 <= j < s.len() && s[j] == y;
                if j == s.len() - 1 {
                    assert(u[k] == y);
                } else {
                    assert(init[j] == y);
                    assert(init.contains(y));
                    let i = choose|i: int| 0 <= i < t.len() && t[i] == y;
                    if i < k {
                        assert(u[i] == y);
                    } else {
                        assert(u[i + 1] == y);
                    }
                }
            }
        }
    }
}

/// Every element of a filtered sequence is in the sequence.
pub proof fn lemma_filter_from<A>(s: Seq<A>, p: spec_fn(A) -> bool)
    ensures
        forall|i: int| 0 <= i < s.filter(p).len() ==> s.contains(#[trigger] s.filter(p)[i]) && p(s.filter(p)[i]),
    decreases s.len(),
{
    reveal(Seq::filter);
    if s.len() > 0 {
        lemma_filter_from(s.drop_last(), p);
        let f = s.filter(p);
        let g = s.drop_last().filter(p);
        assert forall|i: int| 0 <= i < f.len() implies s.contains(#[trigger] f[i]) && p(f[i]) by {
            if i < g.len() {
                assert(f[i] == g[i]);
                let j = choose|j: int| 0 <= j < s.drop_last().len() && s.drop_last()[j] == g[i];
                assert(s[j] == f[i]);
            } else {
                assert(f[i] == s.last());
                assert(s[s.len() - 1] == f[i]);
            }
        }
    }
}

/// Filtering commutes with a stable sort.
pub proof fn lemma_sorted_filter<T: KeyOrder>(s: Seq<T::V>, p: spec_fn(T::V) -> bool)
    requires
        preorder_ok::<T>(),
    ensures
        sorted_seq::<T>(s).filter(p) == sorted_seq::<T>(s.filter(p)),
    decreases s.len(),
{
    reveal(Seq::filter);
    if s.len() == 0 {
    } else {
        let init = s.drop_last();
        let x = s.last();
        lemma_sorted_filter::<T>(init, p);
        lemma_sorted_seq_props::<T>(init);
        let t = sorted_seq::<T>(init);
        let k = lemma_insert_split::<T>(t, x);
        let a = t.take(k);
        let b = t.skip(k);
        Seq::filter_distributes_over_add(a + seq![x], b, p);
        Seq::filter_distributes_over_add(a, seq![x], p);
        Seq::filter_distributes_over_add(a, b, p);
        assert(a + b =~= t);
        assert(seq![x].drop_last() =~= Seq::<T::V>::empty());
        assert(seq![x].last() == x);
        assert(Seq::<T::V>::empty().filter(p) =~= Seq::<T::V>::empty());
        assert(seq![x].drop_last().filter(p) =~= Seq::<T::V>::empty());
        let af = a.filter(p);
        let bf = b.filter(p);
        let tf = t.filter(p);
        assert(tf == af + bf);
        if p(x) {
            assert(seq![x].filter(p) =~= seq![x]);
            let sf = s.filter(p);
            assert(sf == init.filter(p).push(x));
            assert(sf.drop_last() =~= init.filter(p));
            assert(sorted_seq::<T>(sf) == insert_sorted::<T>(tf, x));
            lemma_filter_from(a, p);
            lemma_filter_from(b, p);
            assert forall|j: int| 0 <= j < af.len() implies !T::spec_after(#[trigger] tf[j], x) by {
                assert(tf[j] == af[j]);
                assert(a.contains(af[j]));
                let q = choose|q: int| 0 <= q < a.len() && a[q] == af[j];
                assert(t[q] == a[q]);
            }
            if af.len() < tf.len() {
                assert(tf[af.len() as int] == bf[0]);
                assert(b.contains(bf[0]));
                let q = choose|q: int| 0 <= q < b.len() && b[q] == bf[0];
                assert(t[q + k] == b[q]);
            }
            lemma_insert_sorted_at::<T>(tf, x, af.len() as int);
            assert(tf.take(af.len() as int) =~= af);
            assert(tf.skip(af.len() as int) =~= bf);
        } else {
            assert(seq![x].filter(p) =~= Seq::<T::V>::empty());
            assert(s.filter(p) == init.filter(p));
            assert(af + Seq::<T::V>::empty() =~= af);
        }
    }
}

/// Any two elements at different positions are ordered one way or the other.
pub open spec fn no_ties<T: KeyOrder>(s: Seq<T::V>) -> bool {
    forall|i: int, j: int|
        0 <= i < s.len() && 0 <= j < s.len() && i != j ==> T::spec_after(#[trigger] s[i], #[trigger] s[j])
            || T::spec_after(s[j], s[i])
}

/// A stable sort of a sequence without ties has no ties either.
pub proof fn lemma_sorted_no_ties<T: KeyOrder>(s: Seq<T::V>)
    requires
        preorder_ok::<T>(),
        no_ties::<T>(s),
    ensures
        no_ties::<T>(sorted_seq::<T>(s)),
    decreases s.len(),
{
    if s.len() > 0 {
        let init = s.drop_last();
        let x = s.last();
        assert forall|i: int, j: int|
            0 <= i < init.len() && 0 <= j < init.len() && i != j implies T::spec_after(#[trigger] init[i], #[trigger] init[j])
                || T::spec_after(init[j], init[i]) by {
            assert(init[i] == s[i] && init[j] == s[j]);
        }
        lemma_sorted_no_ties::<T>(init);
        lemma_sorted_seq_props::<T>(init);
        let t = sorted_seq::<T>(init);
        let k = lemma_insert_split::<T>(t, x);
        let u = t.take(k) + seq![x] + t.skip(k);
        assert forall|q: int| 0 <= q < t.len() implies T::spec_after(#[trigger] t[q], x) || T::spec_after(x, t[q]) by {
            assert(t.contains(t[q]));
            assert(init.contains(t[q]));
            let j = choose|j: int| 0 <= j < init.len() && init[j] == t[q];
            assert(init[j] == s[j]);
            assert(s[s.len() - 1] == x);
        }
        assert forall|i: int, j: int|
            0 <= i < u.len() && 0 <= j < u.len() && i != j implies T::spec_after(#[trigger] u[i], #[trigger] u[j])
                || T::spec_after(u[j], u[i]) by {
            let ti = if i < k { i } else { i - 1 };
            let tj = if j < k { j } else { j - 1 };
            if i != k && j != k {
                assert(u[i] == t[ti] && u[j] == t[tj]);
            } else if i == k {
                assert(u[j] == t[tj]);
            } else {
                assert(u[i] == t[ti]);
            }
        }
    }
}

/// Sorts a vector stably by the type's `KeyOrder`.
pub fn stable_sort<T: KeyOrder>(v: Vec<T>) -> (out: Vec<T>)
    ensures
        views(out@) == sorted_seq::<T>(views(v@)),
{
    let ghost orig = v@;
    let mut v = v;
    let mut stack: Vec<T> = Vec::new();
    while v.len() > 0
        invariant
            views(v@) + views(stack@).reverse() == views(orig),
        decreases v.len(),
    {
        let ghost before_v = v@;
        let ghost before_s = stack@;
        let x = v.pop().unwrap();
        stack.push(x);
        proof {
            assert(views(v@) =~= views(before_v).drop_last());
            assert(views(stack@) =~= views(before_s).push(x@));
            assert(views(stack@).reverse() =~= seq![x@] + views(before_s).reverse());
            assert(views(before_v) =~= views(v@).push(x@));
            assert(views(v@) + views(stack@).reverse() =~= views(orig));
        }
    }
    assert(views(stack@).reverse() =~= views(orig));
    let mut out: Vec<T> = Vec::new();
    let ghost n = orig.len();
    assert(views(orig).take(0) =~= Seq::<T::V>::empty());
    assert(sorted_seq::<T>(views(orig).take(0)) == Seq::<T::V>::empty());
    while stack.len() > 0
        invariant
            stack.len() <= n,
            views(orig).len() == n,
            views(orig) == views(orig).take(n - stack.len()) + views(stack@).reverse(),
            views(out@) == sorted_seq::<T>(views(orig).take(n - stack.len())),
        decreases stack.len(),
    {
        let ghost before_s = stack@;
        let ghost i = n - stack.len();
        let x = stack.pop().unwrap();
        proof {
            assert(views(before_s) =~= views(stack@).push(x@));
            assert(views(before_s).reverse() =~= seq![x@] + views(stack@).reverse());
            assert(views(orig)[i] == x@);
            assert(views(orig).take(i + 1).drop_last() =~= views(orig).take(i));
            assert(views(orig).take(i + 1).last() == x@);
            assert(views(orig) =~= views(orig).take(i + 1) + views(stack@).reverse());
        }
        let mut p: usize = 0;
        while p < out.len() && !out[p].after(&x)
            invariant
                p <= out.len(),
                forall|j: int| 0 <= j < p ==> !T::spec_after(#[trigger] views(out@)[j], x@),
            decreases out.len() - p,
        {
            p += 1;
        }
        let ghost before_o = views(out@);
        proof {
            lemma_insert_sorted_at::<T>(before_o, x@, p as int);
        }
        out.insert(p, x);
        proof {
            assert(views(out@) =~= before_o.take(p as int) + seq![x@] + before_o.skip(p as int));
        }
    }
    assert(views(orig).take(n as int) =~= views(orig));
    out
}

// ---------------------------------------------------------------------------
// Case-insensitive order and de-duplication of strings
// ---------------------------------------------------------------------------

/// The order `sort_case_insensitive` uses: ASCII-lowercased text first, then the text itself.
pub open spec fn ci_after(a: Seq<char>, b: Seq<char>) -> bool {
    let o = lex_order(ascii_lower_seq(a), ascii_lower_seq(b));
    o > 0 || (o == 0 && lex_order(a, b) > 0)
}

impl KeyOrder for String {
    open spec fn spec_after(a: Seq<char>, b: Seq<char>) -> bool {
        ci_after(a, b)
    }

    fn after(&self, other: &Self) -> (r: bool) {
        let a = crate::text::chars_of(self.as_str());
        let b = crate::text::chars_of(other.as_str());
        let la = ascii_lower_chars(a.as_slice());
        let lb = ascii_lower_chars(b.as_slice());
        let o = lex_order_chars(la.as_slice(), lb.as_slice());
        o > 0 || (o == 0 && lex_order_chars(a.as_slice(), b.as_slice()) > 0)
    }
}

/// Whether an earlier element (before index `i`) has the same lowercase form as `s[i]`.
pub open spec fn ci_seen_before(s: Seq<Seq<char>>, i: int) -> bool {
    exists|j: int| 0 <= j < i && ascii_lower_seq(s[j]) == ascii_lower_seq(s[i])
}

/// Keeps the first of the elements that are
/// equal after ASCII lowercasing.
pub open spec fn dedupe_ci(s: Seq<Seq<char>>) -> Seq<Seq<char>>
    decreases s.len(),
{
    if s.len() == 0 {
        s
    } else if ci_seen_before(s, s.len() - 1) {
        dedupe_ci(s.drop_last())
    } else {
        dedupe_ci(s.drop_last()).push(s.last())
    }
}

/// `sort_case_insensitive(dedupe_case_insensitive(values))`, the normal form of a text list.
pub open spec fn normalize_list(s: Seq<Seq<char>>) -> Seq<Seq<char>> {
    sorted_seq::<String>(dedupe_ci(s))
}

/// The values without later duplicates that differ only in case.
pub fn dedupe_case_insensitive(values: Vec<String>) -> (out: Vec<String>)
    ensures
        views(out@) == dedupe_ci(views(values@)),
{
    let ghost s = views(values@);
    let mut lowers: Vec<Vec<char>> = Vec::new();
    let mut out: Vec<String> = Vec::new();
    let mut i: usize = 0;
    let n = values.len();
    assert(s.take(0) =~= Seq::<Seq<char>>::empty());
    while i < n
        invariant
            n == values.len(),
            s == views(values@),
            i <= n,
            lowers@.len() == i,
            forall|j: int| 0 <= j < i ==> (#[trigger] lowers@[j])@ == ascii_lower_seq(s[j]),
            views(out@) == dedupe_ci(s.take(i as int)),
        decreases n - i,
    {
        let c = crate::text::chars_of(values[i].as_str());
        let l = ascii_lower_chars(c.as_slice());
        let mut seen = false;
        let mut j: usize = 0;
        while j < i
            invariant
                i < n,
                n == values.len(),
                s == views(values@),
                j <= i,
                lowers@.len() == i,
                l@ == ascii_lower_seq(s[i as int]),
                forall|k: int| 0 <= k < i ==> (#[trigger] lowers@[k])@ == ascii_lower_seq(s[k]),
                seen == exists|k: int| 0 <= k < j && ascii_lower_seq(s[k]) == ascii_lower_seq(s[i as int]),
            decreases i - j,
        {
            if chars_eq(lowers[j].as_slice(), l.as_slice()) {
                seen = true;
            }
            j += 1;
        }
        let ghost t = s.take(i + 1);
        proof {
            assert(t.drop_last() =~= s.take(i as int));
            assert(t.last() == s[i as int]);
            assert(ci_seen_before(t, i as int) == seen) by {
                if seen {
                    let k = choose|k: int| 0 <= k < i && ascii_lower_seq(s[k]) == ascii_lower_seq(s[i as int]);
                    assert(t[k] == s[k]);
                }
                if ci_seen_before(t, i as int) {
                    let k = choose|k: int| 0 <= k < i && ascii_lower_seq(t[k]) == ascii_lower_seq(t[i as int]);
                    assert(t[k] == s[k]);
                }
            }
        }
        if !seen {
            let v = crate::text::string_of(c.as_slice());
            let ghost before = views(out@);
            out.push(v);
            proof {
                assert(views(out@) =~= before.push(s[i as int]));
            }
        }
        lowers.push(l);
        i += 1;
    }
    assert(s.take(n as int) =~= s);
    out
}

/// `sort_case_insensitive(&dedupe_case_insensitive(values))`.
pub fn normalize_text_list(values: Vec<String>) -> (out: Vec<String>)
    ensures
        views(out@) == normalize_list(views(values@)),
{
    let d = dedupe_case_insensitive(values);
    stable_sort(d)
}

/// The values sorted ignoring case.
pub fn sort_case_insensitive(values: Vec<String>) -> (out: Vec<String>)
    ensures
        views(out@) == sorted_seq::<String>(views(values@)),
{
    stable_sort(values)
}

} // verus!
