//! Finding the newest score snapshot of a graph among the cache files:
//! `<stem>.score.<timestamp>.kg`.
use vstd::prelude::*;
use crate::kg_codec::{parse_u128, parse_u128_spec};
use crate::sorting::views;
use crate::text::{append_str, chars_of, copy_chars, starts_with};

verus! {

/// The prefix of a snapshot name of the graph `stem`.
pub open spec fn snapshot_prefix(stem: Seq<char>) -> Seq<char> {
    stem + ".score."@
}

/// Whether a file name starts with the prefix and ends with `.kg` while
/// being too short to hold both apart.
pub open spec fn overlapping_name(name: Seq<char>, stem: Seq<char>) -> bool {
    snapshot_prefix(stem).is_prefix_of(name) && ".kg"@.is_suffix_of(name) && name.len()
        < snapshot_prefix(stem).len() + 3
}

/// The timestamp a file name carries, when it is a snapshot of `stem`.
pub open spec fn snapshot_ts(name: Seq<char>, stem: Seq<char>) -> Option<u128> {
    let p = snapshot_prefix(stem);
    if p.is_prefix_of(name) && ".kg"@.is_suffix_of(name) && name.len() >= p.len() + 3 {
        parse_u128_spec(name.subrange(p.len() as int, name.len() - 3))
    } else {
        None
    }
}

/// The newest snapshot among the first names: its timestamp and position;
/// the first of equal timestamps wins.
pub open spec fn newest_run(names: Seq<Seq<char>>, stem: Seq<char>) -> Option<(u128, int)>
    decreases names.len(),
{
    if names.len() == 0 {
        None
    } else {
        let p = newest_run(names.drop_last(), stem);
        match snapshot_ts(names.last(), stem) {
            Some(ts) => match p {
                Some((cur, i)) => if ts > cur {
                    Some((ts, names.len() - 1))
                } else {
                    p
                },
                None => Some((ts, names.len() - 1)),
            },
            None => p,
        }
    }
}

fn ends_with_kg(s: &[char]) -> (r: bool)
    ensures
        r == ".kg"@.is_suffix_of(s@),
{
    proof {
        reveal_strlit(".kg");
    }
    if s.len() < 3 {
        return false;
    }
    let n = s.len();
    let r = s[n - 3] == '.' && s[n - 2] == 'k' && s[n - 1] == 'g';
    proof {
        if ".kg"@.is_suffix_of(s@) {
            assert(".kg"@[0] == s@[n - 3]);
            assert(".kg"@[1] == s@[n - 2]);
            assert(".kg"@[2] == s@[n - 1]);
        }
        if r {
            assert(s@.subrange(n - 3, n as int) =~= ".kg"@);
        }
    }
    r
}

/// The position of the newest snapshot of the graph `stem` among the
/// cache's file names: the name must be `<stem>.score.<n>.kg` with `n` a
/// number; the largest number wins, the first name on a tie.
pub fn latest_score_snapshot(names: &Vec<String>, stem: &str) -> (r: Option<usize>)
    requires
        forall|i: int| 0 <= i < names.len() ==> !overlapping_name(#[trigger] names@[i]@, stem@),
    ensures
        match newest_run(views(names@), stem@) {
            Some((_, i)) => r == Some(i as usize),
            None => r is None,
        },
{
    let ghost nv = views(names@);
    let mut prefix = chars_of(stem);
    append_str(&mut prefix, ".score.");
    let mut best: Option<(u128, usize)> = None;
    let mut i: usize = 0;
    while i < names.len()
        invariant
            i <= names.len(),
            nv == views(names@),
            prefix@ == snapshot_prefix(stem@),
            forall|k: int| 0 <= k < names.len() ==> !overlapping_name(#[trigger] names@[k]@, stem@),
            match newest_run(nv.take(i as int), stem@) {
                Some((ts, k)) => best == Some((ts, k as usize)) && 0 <= k < i,
                None => best is None,
            },
        decreases names.len() - i,
    {
        proof {
            assert(nv.take(i + 1).drop_last() =~= nv.take(i as int));
            assert(nv.take(i + 1).last() == names@[i as int]@);
            assert(!overlapping_name(names@[i as int]@, stem@));
        }
        let name = chars_of(names[i].as_str());
        if starts_with(name.as_slice(), prefix.as_slice()) && ends_with_kg(name.as_slice()) {
            let part = copy_chars(name.as_slice(), prefix.len(), name.len() - 3);
            match parse_u128(part.as_slice()) {
                Some(ts) => {
                    let newer = match best {
                        Some((cur, _)) => ts > cur,
                        None => true,
                    };
                    if newer {
                        best = Some((ts, i));
                    }
                },
                None => {},
            }
        }
        i += 1;
    }
    assert(nv.take(names.len() as int) =~= nv);
    match best {
        Some((_, k)) => Some(k),
        None => None,
    }
}

} // verus!
