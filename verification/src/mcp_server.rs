//! Small decisions of the tool server: the command-line flags of a check
//! request, the accepted modes, and the identifiers it hands out.
use vstd::prelude::*;
use crate::mcp_text::{base36, to_base36};
use crate::sorting::views;
use crate::text::{append_chars, append_str, chars_of, decimal, decimal_u128, decimal_usize, str_eq, string_of, zero_pad, zero_pad_exec};

verus! {

broadcast use vstd::string::group_string_axioms;

/// The options of a check or audit request.
#[derive(Debug)]
pub struct GraphValidateArgs {
    pub graph: String,
    pub deep: bool,
    pub base_dir: Option<String>,
    pub errors_only: bool,
    pub warnings_only: bool,
    pub limit: Option<usize>,
}

/// The command-line flags a check request adds, in order.
pub open spec fn validation_flags(
    deep: bool,
    base_dir: Option<Seq<char>>,
    errors_only: bool,
    warnings_only: bool,
    limit: Option<usize>,
) -> Seq<Seq<char>> {
    (if deep { seq!["--deep"@] } else { Seq::empty() }) + (match base_dir {
        Some(d) => seq!["--base-dir"@, d],
        None => Seq::empty(),
    }) + (if errors_only { seq!["--errors-only"@] } else { Seq::empty() }) + (if warnings_only {
        seq!["--warnings-only"@]
    } else {
        Seq::empty()
    }) + (match limit {
        Some(n) => seq!["--limit"@, decimal(n as nat)],
        None => Seq::empty(),
    })
}

fn push_text(cmd: &mut Vec<String>, s: String)
    ensures
        views(final(cmd)@) == views(old(cmd)@).push(s@),
{
    cmd.push(s);
    assert(views(cmd@) =~= views(old(cmd)@).push(s@));
}

fn lit(s: &str) -> (r: String)
    ensures
        r@ == s@,
{
    string_of(chars_of(s).as_slice())
}

/// Appends the flags of a check request to a command line.
pub fn append_validation_flags(cmd: &mut Vec<String>, args: &GraphValidateArgs)
    ensures
        views(final(cmd)@) == views(old(cmd)@) + validation_flags(
            args.deep,
            crate::graph::opt_view(args.base_dir),
            args.errors_only,
            args.warnings_only,
            args.limit,
        ),
{
    if args.deep {
        push_text(cmd, lit("--deep"));
    }
    match &args.base_dir {
        Some(d) => {
            push_text(cmd, lit("--base-dir"));
            push_text(cmd, crate::graph::copy_string(d));
        },
        None => {},
    }
    if args.errors_only {
        push_text(cmd, lit("--errors-only"));
    }
    if args.warnings_only {
        push_text(cmd, lit("--warnings-only"));
    }
    match args.limit {
        Some(n) => {
            push_text(cmd, lit("--limit"));
            let d = decimal_usize(n);
            push_text(cmd, string_of(d.as_slice()));
        },
        None => {},
    }
    assert(views(cmd@) =~= views(old(cmd)@) + validation_flags(
        args.deep,
        crate::graph::opt_view(args.base_dir),
        args.errors_only,
        args.warnings_only,
        args.limit,
    ));
}

/// The mode of a batch request: `best_effort` unless given; any mode
/// other than `best_effort` and `strict` is refused, and the error holds
/// it.
pub fn parse_mode(mode: Option<String>) -> (r: Result<String, String>)
    ensures
        match mode {
            None => r matches Ok(m) && m@ == "best_effort"@,
            Some(m) => if m@ == "best_effort"@ || m@ == "strict"@ {
                r matches Ok(x) && x@ == m@
            } else {
                r matches Err(x) && x@ == m@
            },
        },
{
    let m = match mode {
        Some(m) => m,
        None => lit("best_effort"),
    };
    if !str_eq(m.as_str(), "best_effort") && !str_eq(m.as_str(), "strict") {
        return Err(m);
    }
    Ok(m)
}

/// The seed of the `n`-th feedback id at time `now_ms`.
pub open spec fn uid_seed(now_ms: u128, counter: u64) -> u64 {
    (now_ms as u64) ^ counter.wrapping_mul(0x9e37_79b9_7f4a_7c15u64)
}

/// A six-character id: the last six base-36 digits of the seed, or the
/// digits left-padded with zeros.
pub open spec fn six_digits(s: Seq<char>) -> Seq<char> {
    if s.len() > 6 {
        s.skip(s.len() - 6)
    } else {
        zero_pad(s, 6)
    }
}

/// The feedback id handed out for the search counted `counter` at time
/// A unique id for a feedback event: the time in milliseconds and a counter.
pub fn feedback_uid(now_ms: u128, counter: u64) -> (r: String)
    ensures
        r@ == six_digits(base36(uid_seed(now_ms, counter) as nat)),
{
    let seed: u64 = (now_ms as u64) ^ counter.wrapping_mul(0x9e37_79b9_7f4a_7c15u64);
    let s = chars_of(to_base36(seed).as_str());
    if s.len() > 6 {
        let tail = crate::text::copy_chars(s.as_slice(), s.len() - 6, s.len());
        assert(tail@ =~= s@.skip(s.len() - 6));
        string_of(tail.as_slice())
    } else {
        let p = zero_pad_exec(s.as_slice(), 6);
        string_of(p.as_slice())
    }
}

/// The trace id of the `seq`-th request at time `now_ms`:
/// `kgmcp-<now_ms>-<seq in base 36>`.
pub fn trace_id(now_ms: u128, seq: u64) -> (r: String)
    ensures
        r@ == "kgmcp-"@ + decimal(now_ms as nat) + "-"@ + base36(seq as nat),
{
    let mut c = chars_of("kgmcp-");
    let d = decimal_u128(now_ms);
    append_chars(&mut c, d.as_slice());
    append_str(&mut c, "-");
    append_str(&mut c, to_base36(seq).as_str());
    string_of(c.as_slice())
}

} // verus!
