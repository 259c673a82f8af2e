//! The command line: the program's arguments, and the one-shot subcommands that answer a
//! single question without the server.
use vstd::prelude::*;

use crate::text::{chars_of, owned, push_str, starts_with, str_eq};
use crate::tools::get_source::GetSourceParams;
use crate::tools::query_call_graph::QueryCallGraphParams;
use crate::tools::symbol_lookup::SymbolLookupParams;

verus! {

broadcast use vstd::seq_lib::group_seq_properties;

/// The extra cache slots, as a percentage of the file count, when none is asked for.
pub const DEFAULT_CACHE_OVERHEAD_PCT: usize = 25;

pub open spec fn is_digit(c: char) -> bool {
    '0' <= c && c <= '9'
}

/// The value of a run of decimal digits.
pub open spec fn digits_value(s: Seq<char>) -> int
    decreases s.len(),
{
    if s.len() == 0 {
        0
    } else {
        digits_value(s.drop_last()) * 10 + (s.last() as int - '0' as int)
    }
}

/// Every character of `d` is a decimal digit.
pub open spec fn all_digits(d: Seq<char>) -> bool {
    forall|i: int| 0 <= i < d.len() ==> is_digit(#[trigger] d[i])
}

/// What `str::parse` gives for an unsigned integer type whose largest value is `max`: an optional
/// `+`, then at least one decimal digit, for a value no larger than `max`.
pub open spec fn parse_unsigned(s: Seq<char>, max: int) -> Option<int> {
    let d = if s.len() > 0 && s[0] == '+' {
        s.drop_first()
    } else {
        s
    };
    if d.len() > 0 && all_digits(d) && digits_value(d) <= max {
        Some(digits_value(d))
    } else {
        None
    }
}

proof fn lemma_digits_grow(d: Seq<char>, i: int, j: int)
    requires
        0 <= i <= j <= d.len(),
        forall|k: int| 0 <= k < d.len() ==> is_digit(#[trigger] d[k]),
    ensures
        0 <= digits_value(d.take(i)) <= digits_value(d.take(j)),
    decreases j,
{
    if j > 0 {
        assert(d.take(j).drop_last() =~= d.take(j - 1));
        assert(d.take(j).last() == d[j - 1]);
        if i < j {
            lemma_digits_grow(d, i, j - 1);
        } else {
            lemma_digits_grow(d, i - 1, j - 1);
        }
    }
}

/// `s.parse()` for an unsigned integer type whose largest value is `max`.
pub fn parse_unsigned_exec(s: &str, max: u128) -> (r: Option<u128>)
    requires
        max <= u64::MAX,
    ensures
        match r {
            Some(v) => parse_unsigned(s@, max as int) == Some(v as int),
            None => parse_unsigned(s@, max as int) is None,
        },
{
    let cs = chars_of(s);
    let start: usize = if cs.len() > 0 && cs[0] == '+' {
        1
    } else {
        0
    };
    let ghost d = if s@.len() > 0 && s@[0] == '+' {
        s@.drop_first()
    } else {
        s@
    };
    proof {
        assert(d =~= cs@.skip(start as int));
    }
    if start >= cs.len() {
        return None;
    }
    let mut v: u128 = 0;
    let mut i = start;
    while i < cs.len()
        invariant
            cs@ == s@,
            d == cs@.skip(start as int),
            d == (if s@.len() > 0 && s@[0] == '+' {
                s@.drop_first()
            } else {
                s@
            }),
            start <= i <= cs@.len(),
            max <= u64::MAX,
            v <= max,
            forall|k: int| 0 <= k < i - start ==> is_digit(#[trigger] d[k]),
            v == digits_value(d.take(i - start)),
        decreases cs@.len() - i,
    {
        let c = cs[i];
        if !('0' <= c && c <= '9') {
            proof {
                assert(d[i - start] == c);
                assert(!is_digit(d[i - start]));
                assert(!all_digits(d));
            }
            return None;
        }
        let dig = (c as u32 - '0' as u32) as u128;
        proof {
            assert(d.take(i - start + 1).drop_last() =~= d.take(i - start));
            assert(d.take(i - start + 1).last() == c);
        }
        let nv = v * 10 + dig;
        proof {
            assert(digits_value(d.take(i - start + 1)) == nv);
        }
        if nv > max {
            proof {
                assert(d[i - start] == c);
                if all_digits(d) {
                    lemma_digits_grow(d, i - start + 1, d.len() as int);
                    assert(d.take(d.len() as int) =~= d);
                }
            }
            return None;
        }
        v = nv;
        i += 1;
    }
    proof {
        assert(d.take(d.len() as int) =~= d);
    }
    Some(v)
}

/// `s.parse::<u32>()`.
pub fn parse_u32(s: &str) -> (r: Option<u32>)
    ensures
        match r {
            Some(v) => parse_unsigned(s@, u32::MAX as int) == Some(v as int),
            None => parse_unsigned(s@, u32::MAX as int) is None,
        },
{
    match parse_unsigned_exec(s, 0xFFFF_FFFFu128) {
        Some(v) => Some(v as u32),
        None => None,
    }
}

/// `s.parse::<usize>()`.
pub fn parse_usize(s: &str) -> (r: Option<usize>)
    ensures
        match r {
            Some(v) => parse_unsigned(s@, usize::MAX as int) == Some(v as int),
            None => parse_unsigned(s@, usize::MAX as int) is None,
        },
{
    let m: usize = usize::MAX;
    match parse_unsigned_exec(s, m as u128) {
        Some(v) => Some(v as usize),
        None => None,
    }
}

/// An argument of the command line is a flag when it starts with `--`.
pub open spec fn is_flag(a: Seq<char>) -> bool {
    "--"@.is_prefix_of(a)
}

/// The first argument that is not a flag.
pub open spec fn first_positional(args: Seq<Seq<char>>) -> Option<Seq<char>>
    decreases args.len(),
{
    if args.len() == 0 {
        None
    } else if !is_flag(args[0]) {
        Some(args[0])
    } else {
        first_positional(args.drop_first())
    }
}

/// The argument right after the first occurrence of `flag` that has one.
pub open spec fn flag_value_spec(args: Seq<Seq<char>>, flag: Seq<char>) -> Option<Seq<char>>
    decreases args.len(),
{
    if args.len() < 2 {
        None
    } else if args[0] == flag {
        Some(args[1])
    } else {
        flag_value_spec(args.drop_first(), flag)
    }
}

/// The value given to `flag` (`--kind function` gives `function`).
pub fn flag_value(args: &Vec<String>, flag: &str) -> (r: Option<String>)
    ensures
        r.deep_view() == flag_value_spec(args.deep_view(), flag@),
{
    let ghost av = args.deep_view();
    let mut i: usize = 0;
    while i < args.len() && args.len() - i > 1
        invariant
            av == args.deep_view(),
            i <= av.len(),
            flag_value_spec(av, flag@) == flag_value_spec(av.skip(i as int), flag@),
        decreases av.len() - i,
    {
        proof {
            assert(av.skip(i as int).drop_first() =~= av.skip(i + 1));
            assert(av.skip(i as int)[0] == av[i as int]);
            assert(av.skip(i as int)[1] == av[i + 1]);
        }
        if str_eq(args[i].as_str(), flag) {
            return Some(args[i + 1].clone());
        }
        i += 1;
    }
    None
}

/// The first argument that is not a flag.
pub fn first_positional_exec(args: &Vec<String>) -> (r: Option<String>)
    ensures
        r.deep_view() == first_positional(args.deep_view()),
{
    let ghost av = args.deep_view();
    let mut i: usize = 0;
    while i < args.len()
        invariant
            av == args.deep_view(),
            i <= av.len(),
            first_positional(av) == first_positional(av.skip(i as int)),
        decreases av.len() - i,
    {
        proof {
            assert(av.skip(i as int).drop_first() =~= av.skip(i + 1));
            assert(av.skip(i as int)[0] == av[i as int]);
            reveal_strlit("--");
        }
        if !starts_with(args[i].as_str(), "--") {
            return Some(args[i].clone());
        }
        i += 1;
    }
    None
}

/// A one-shot question.
pub enum Command {
    SymbolLookup(SymbolLookupParams),
    GetSource(GetSourceParams),
    QueryCallGraph(QueryCallGraphParams),
}

pub open spec fn usage(sub: Seq<char>, rest: Seq<char>) -> Seq<char> {
    "usage: "@ + sub + rest
}

/// The question a subcommand and its arguments ask, or the message that says what is wrong.
pub fn plan(subcommand: &str, args: &Vec<String>) -> (r: Result<Command, String>)
    ensures
        subcommand@ == "symbol-lookup"@ ==> match first_positional(args.deep_view()) {
            None => r matches Err(m) && m@ == usage(subcommand@, " <file> [--kind <kind>]"@),
            Some(f) => r matches Ok(Command::SymbolLookup(p)) && p.file@ == f && p.kind.deep_view() == flag_value_spec(
                args.deep_view(),
                "--kind"@,
            ),
        },
        subcommand@ == "get-source"@ ==> match first_positional(args.deep_view()) {
            None => r matches Err(m) && m@ == usage(subcommand@, " <name> [--file <file>]"@),
            Some(n) => r matches Ok(Command::GetSource(p)) && p.name@ == n && p.file.deep_view() == flag_value_spec(
                args.deep_view(),
                "--file"@,
            ),
        },
        subcommand@ == "query-call-graph"@ ==> match first_positional(args.deep_view()) {
            None => r matches Err(m) && m@ == usage(
                subcommand@,
                " <name> --direction <callers|callees|both> [--depth <n>] [--file <file>]"@,
            ),
            Some(n) => match flag_value_spec(args.deep_view(), "--direction"@) {
                None => r matches Err(m) && m@ == "--direction <callers|callees|both> is required"@,
                Some(dir) => match flag_value_spec(args.deep_view(), "--depth"@) {
                    Some(dv) if parse_unsigned(dv, u32::MAX as int) is None => r matches Err(m) && m@
                        == "--depth must be a positive integer"@,
                    _ => r matches Ok(Command::QueryCallGraph(p)) && p.name@ == n && p.direction@ == dir
                        && p.file.deep_view() == flag_value_spec(args.deep_view(), "--file"@) && p.depth == match flag_value_spec(
                        args.deep_view(),
                        "--depth"@,
                    ) {
                        Some(dv) => Some(parse_unsigned(dv, u32::MAX as int)->0 as u32),
                        None => None,
                    },
                },
            },
        },
        subcommand@ != "symbol-lookup"@ && subcommand@ != "get-source"@ && subcommand@ != "query-call-graph"@ ==> (r matches Err(m)
            && m@ == "unknown subcommand '"@ + subcommand@ + "'\nvalid: symbol-lookup, get-source, query-call-graph, mcp"@),
{
    proof {
        reveal_strlit("symbol-lookup");
        reveal_strlit("get-source");
        reveal_strlit("query-call-graph");
        assert("symbol-lookup"@[0] != "get-source"@[0]);
        assert("symbol-lookup"@[0] != "query-call-graph"@[0]);
        assert("get-source"@[0] != "query-call-graph"@[0]);
    }
    if str_eq(subcommand, "symbol-lookup") {
        let file = match first_positional_exec(args) {
            Some(f) => f,
            None => {
                let mut m = owned("usage: ");
                push_str(&mut m, subcommand);
                push_str(&mut m, " <file> [--kind <kind>]");
                return Err(m);
            },
        };
        let kind = flag_value(args, "--kind");
        return Ok(Command::SymbolLookup(SymbolLookupParams { file, kind }));
    }
    if str_eq(subcommand, "get-source") {
        let name = match first_positional_exec(args) {
            Some(f) => f,
            None => {
                let mut m = owned("usage: ");
                push_str(&mut m, subcommand);
                push_str(&mut m, " <name> [--file <file>]");
                return Err(m);
            },
        };
        let file = flag_value(args, "--file");
        return Ok(Command::GetSource(GetSourceParams { name, file }));
    }
    if str_eq(subcommand, "query-call-graph") {
        let name = match first_positional_exec(args) {
            Some(f) => f,
            None => {
                let mut m = owned("usage: ");
                push_str(&mut m, subcommand);
                push_str(&mut m, " <name> --direction <callers|callees|both> [--depth <n>] [--file <file>]");
                return Err(m);
            },
        };
        let direction = match flag_value(args, "--direction") {
            Some(d) => d,
            None => return Err(owned("--direction <callers|callees|both> is required")),
        };
        let file = flag_value(args, "--file");
        let depth = match flag_value(args, "--depth") {
            Some(v) => match parse_u32(v.as_str()) {
                Some(d) => Some(d),
                None => return Err(owned("--depth must be a positive integer")),
            },
            None => None,
        };
        return Ok(Command::QueryCallGraph(QueryCallGraphParams { name, file, direction, depth }));
    }
    let mut m = owned("unknown subcommand '");
    push_str(&mut m, subcommand);
    push_str(&mut m, "'\nvalid: symbol-lookup, get-source, query-call-graph, mcp");
    Err(m)
}

/// The program's options.
pub struct Args {
    pub path: String,
    pub subcommand: String,
    pub subcommand_args: Vec<String>,
    pub use_toon: bool,
    pub quiet: bool,
    pub cache_overhead_pct: usize,
}

/// What is wrong with the program's arguments.
#[derive(PartialEq, Eq, Structural, Clone, Copy, Debug)]
pub enum ArgsError {
    /// The value after `--cache-overhead` is not a non-negative integer
    BadCacheOverhead,
    /// No project path
    MissingPath,
    /// No subcommand
    MissingSubcommand,
}

/// The second argument that is not a flag.
pub open spec fn second_positional(args: Seq<Seq<char>>) -> Option<Seq<char>>
    decreases args.len(),
{
    if args.len() == 0 {
        None
    } else if !is_flag(args[0]) {
        first_positional(args.drop_first())
    } else {
        second_positional(args.drop_first())
    }
}

/// The arguments after the first occurrence of `sub`.
pub open spec fn args_after(args: Seq<Seq<char>>, sub: Seq<char>) -> Seq<Seq<char>>
    decreases args.len(),
{
    if args.len() == 0 {
        Seq::empty()
    } else if args[0] == sub {
        args.drop_first()
    } else {
        args_after(args.drop_first(), sub)
    }
}

fn second_positional_exec(args: &Vec<String>) -> (r: Option<String>)
    ensures
        r.deep_view() == second_positional(args.deep_view()),
{
    let ghost av = args.deep_view();
    let mut i: usize = 0;
    while i < args.len()
        invariant
            av == args.deep_view(),
            i <= av.len(),
            second_positional(av) == second_positional(av.skip(i as int)),
        decreases av.len() - i,
    {
        proof {
            assert(av.skip(i as int).drop_first() =~= av.skip(i + 1));
            assert(av.skip(i as int)[0] == av[i as int]);
            reveal_strlit("--");
        }
        if !starts_with(args[i].as_str(), "--") {
            proof {
                assert(second_positional(av.skip(i as int)) == first_positional(av.skip(i as int).drop_first()));
            }
            let mut j = i + 1;
            while j < args.len()
                invariant
                    av == args.deep_view(),
                    i < j <= av.len(),
                    second_positional(av) == first_positional(av.skip(i + 1)),
                    first_positional(av.skip(i + 1)) == first_positional(av.skip(j as int)),
                decreases av.len() - j,
            {
                proof {
                    assert(av.skip(j as int).drop_first() =~= av.skip(j + 1));
                    assert(av.skip(j as int)[0] == av[j as int]);
                }
                if !starts_with(args[j].as_str(), "--") {
                    return Some(args[j].clone());
                }
                j += 1;
            }
            return None;
        }
        i += 1;
    }
    None
}

fn args_after_exec(args: &Vec<String>, sub: &String) -> (r: Vec<String>)
    ensures
        r.deep_view() == args_after(args.deep_view(), sub@),
{
    let ghost av = args.deep_view();
    let mut i: usize = 0;
    while i < args.len()
        invariant
            av == args.deep_view(),
            i <= av.len(),
            args_after(av, sub@) == args_after(av.skip(i as int), sub@),
        decreases av.len() - i,
    {
        proof {
            assert(av.skip(i as int).drop_first() =~= av.skip(i + 1));
            assert(av.skip(i as int)[0] == av[i as int]);
        }
        if args[i] == *sub {
            let mut r: Vec<String> = Vec::new();
            let mut j = i + 1;
            while j < args.len()
                invariant
                    av == args.deep_view(),
                    i < j <= av.len(),
                    r.deep_view() == av.subrange(i + 1, j as int),
                decreases av.len() - j,
            {
                let ghost before = r.deep_view();
                r.push(args[j].clone());
                proof {
                    assert(r.deep_view() =~= before.push(av[j as int]));
                }
                j += 1;
            }
            proof {
                assert(av.skip(i as int).drop_first() =~= av.subrange(i + 1, av.len() as int));
            }
            return r;
        }
        i += 1;
    }
    let r: Vec<String> = Vec::new();
    proof {
        assert(r.deep_view() =~= Seq::<Seq<char>>::empty());
    }
    r
}

fn has_arg(args: &Vec<String>, a: &str) -> (r: bool)
    ensures
        r == args.deep_view().contains(a@),
{
    let mut i: usize = 0;
    while i < args.len()
        invariant
            i <= args@.len(),
            forall|j: int| 0 <= j < i ==> args.deep_view()[j] != a@,
        decreases args@.len() - i,
    {
        if str_eq(args[i].as_str(), a) {
            proof {
                assert(args.deep_view()[i as int] == a@);
            }
            return true;
        }
        i += 1;
    }
    false
}

/// Reads the program's arguments (after the program name): the project path and the
/// subcommand (the first two arguments that are not flags), the arguments after the
/// subcommand, `--toon`, `--quiet`, and `--cache-overhead <N>` (25 when absent).
pub fn parse_args(args: &Vec<String>) -> (r: Result<Args, ArgsError>)
    ensures
        ({
            let av = args.deep_view();
            let co = flag_value_spec(av, "--cache-overhead"@);
            if (co matches Some(v) && parse_unsigned(v, usize::MAX as int) is None) {
                r == Err::<Args, ArgsError>(ArgsError::BadCacheOverhead)
            } else if first_positional(av) is None {
                r == Err::<Args, ArgsError>(ArgsError::MissingPath)
            } else if second_positional(av) is None {
                r == Err::<Args, ArgsError>(ArgsError::MissingSubcommand)
            } else {
                r matches Ok(a) && {
                    &&& a.path@ == first_positional(av)->0
                    &&& a.subcommand@ == second_positional(av)->0
                    &&& a.subcommand_args.deep_view() == args_after(av, second_positional(av)->0)
                    &&& a.use_toon == av.contains("--toon"@)
                    &&& a.quiet == av.contains("--quiet"@)
                    &&& a.cache_overhead_pct == match co {
                        Some(v) => parse_unsigned(v, usize::MAX as int)->0 as usize,
                        None => DEFAULT_CACHE_OVERHEAD_PCT,
                    }
                }
            }
        }),
{
    let use_toon = has_arg(args, "--toon");
    let quiet = has_arg(args, "--quiet");
    let cache_overhead_pct = match flag_value(args, "--cache-overhead") {
        Some(v) => match parse_usize(v.as_str()) {
            Some(n) => n,
            None => return Err(ArgsError::BadCacheOverhead),
        },
        None => DEFAULT_CACHE_OVERHEAD_PCT,
    };
    let path = match first_positional_exec(args) {
        Some(p) => p,
        None => return Err(ArgsError::MissingPath),
    };
    let subcommand = match second_positional_exec(args) {
        Some(s) => s,
        None => return Err(ArgsError::MissingSubcommand),
    };
    let subcommand_args = args_after_exec(args, &subcommand);
    Ok(Args { path, subcommand, subcommand_args, use_toon, quiet, cache_overhead_pct })
}

} // verus!
