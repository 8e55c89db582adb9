//! The search configuration: the query, the file to scan, and the flags
//! that shape matching and output, resolved once from the command line and
//! an environment snapshot.

use crate::text::str_eq;
use crate::text::views_of;
use vstd::prelude::*;

verus! {

/// One search invocation's settings, immutable once built.
#[derive(Debug)]
pub struct Config {
    pub query: String,
    pub file_path: String,
    pub ignore_case: bool,
    pub no_color: bool,
    pub line_number: bool,
    pub stats: bool,
}

/// Which of the flag environment variables were present in the process
/// environment. Presence alone enables a flag, whatever the value.
#[derive(Clone, Copy)]
pub struct EnvFlags {
    pub ignore_case: bool,
    pub no_color: bool,
    pub line_number: bool,
    pub stats: bool,
}

/// The Levenshtein distance: the least number of character insertions,
/// deletions and substitutions that turn `a` into `b`.
pub open spec fn edit_distance(a: Seq<char>, b: Seq<char>) -> nat
    decreases a.len(), b.len(),
{
    if a.len() == 0 {
        b.len()
    } else if b.len() == 0 {
        a.len()
    } else {
        let d_sub = edit_distance(a.drop_last(), b.drop_last()) + (if a.last() == b.last() {
            0nat
        } else {
            1nat
        });
        let d_del = edit_distance(a.drop_last(), b) + 1;
        let d_ins = edit_distance(a, b.drop_last()) + 1;
        if d_sub <= d_del && d_sub <= d_ins {
            d_sub
        } else if d_del <= d_ins {
            d_del
        } else {
            d_ins
        }
    }
}

/// Relies on `strsim::levenshtein`: the least number of character
/// insertions, deletions and substitutions required to change one string
/// into the other.
#[verifier::external_body]
fn levenshtein_dist(a: &str, b: &str) -> (r: usize)
    ensures
        r as nat == edit_distance(a@, b@),
{
    strsim::levenshtein(a, b)
}

/// The flags this tool understands, without their leading dashes.
pub open spec fn known_flags() -> Seq<Seq<char>> {
    seq!["ignore-case"@, "no-color"@, "line-number"@, "stats"@]
}

/// The known flag nearest to `f` by edit distance; the earliest of the
/// nearest when several tie, as an iterator minimum keeps the first.
pub open spec fn best_suggestion(f: Seq<char>) -> Seq<char> {
    let d0 = edit_distance(f, "ignore-case"@);
    let d1 = edit_distance(f, "no-color"@);
    let d2 = edit_distance(f, "line-number"@);
    let d3 = edit_distance(f, "stats"@);
    if d0 <= d1 && d0 <= d2 && d0 <= d3 {
        "ignore-case"@
    } else if d1 <= d2 && d1 <= d3 {
        "no-color"@
    } else if d2 <= d3 {
        "line-number"@
    } else {
        "stats"@
    }
}

/// Picks the known flag nearest to `flag` by edit distance, the earliest
/// on ties.
fn suggest_flag(flag: &str) -> (r: String)
    ensures
        r@ == best_suggestion(flag@),
{
    let d0 = levenshtein_dist(flag, "ignore-case");
    let d1 = levenshtein_dist(flag, "no-color");
    let d2 = levenshtein_dist(flag, "line-number");
    let d3 = levenshtein_dist(flag, "stats");
    if d0 <= d1 && d0 <= d2 && d0 <= d3 {
        String::from_str("ignore-case")
    } else if d1 <= d2 && d1 <= d3 {
        String::from_str("no-color")
    } else if d2 <= d3 {
        String::from_str("line-number")
    } else {
        String::from_str("stats")
    }
}

/// The token opens like a flag: two leading dashes.
pub open spec fn starts_dashdash(a: Seq<char>) -> bool {
    a.len() >= 2 && a[0] == '-' && a[1] == '-'
}

/// The flag body is one this tool understands.
pub open spec fn is_known_flag(f: Seq<char>) -> bool {
    known_flags().contains(f)
}

/// The token is a well-formed, recognized flag.
pub open spec fn valid_flag_token(a: Seq<char>) -> bool {
    starts_dashdash(a) && is_known_flag(a.skip(2))
}

/// Index of the first argument at or after `i` that is not a valid flag
/// token; the argument count when all of them are.
pub open spec fn first_bad_from(av: Seq<Seq<char>>, i: int) -> int
    decreases av.len() - i,
{
    if i < 0 || i >= av.len() {
        av.len() as int
    } else if !valid_flag_token(av[i]) {
        i
    } else {
        first_bad_from(av, i + 1)
    }
}

/// A flag with this body was passed on the command line (among the
/// arguments after the two positionals).
pub open spec fn cli_has(av: Seq<Seq<char>>, f: Seq<char>) -> bool {
    exists|j: int| 3 <= j < av.len() && starts_dashdash(av[j]) && av[j].skip(2) == f
}

impl Config {
    /// Resolves the configuration from the raw argument list (program name
    /// first, then query and file path, then flags) and a snapshot of which
    /// flag environment variables are present. Rejects a malformed flag
    /// token, and an unrecognized flag with the nearest known one named.
    pub fn build(args: &Vec<String>, env: EnvFlags) -> (r: Result<Config, String>)
        ensures
            ({
                let av = views_of(args@);
                if av.len() < 3 {
                    r matches Err(m) && m@ == "Not enough arguments!"@
                } else {
                    let b = first_bad_from(av, 3);
                    if b == av.len() {
                        r matches Ok(c) && c.query@ == av[1] && c.file_path@ == av[2]
                            && c.ignore_case == (env.ignore_case || cli_has(av, "ignore-case"@))
                            && c.no_color == (env.no_color || cli_has(av, "no-color"@))
                            && c.line_number == (env.line_number || cli_has(av, "line-number"@))
                            && c.stats == (env.stats || cli_has(av, "stats"@))
                    } else if !starts_dashdash(av[b]) {
                        r matches Err(m) && m@ == "Invalid flag format '"@ + av[b]
                            + "'. Flags must start with '--'"@
                    } else {
                        r matches Err(m) && m@ == "Unrecognized flag '--"@ + av[b].skip(2)
                            + "'. Did you mean '--"@ + best_suggestion(av[b].skip(2)) + "'?"@
                    }
                }
            }),
    {
        let ghost av = views_of(args@);
        if args.len() < 3 {
            return Err(String::from_str("Not enough arguments!"));
        }
        let query = args[1].clone();
        let file_path = args[2].clone();
        let mut c_ic: bool = false;
        let mut c_nc: bool = false;
        let mut c_ln: bool = false;
        let mut c_st: bool = false;
        let mut i: usize = 3;
        proof {
            reveal_strlit("ignore-case");
            reveal_strlit("no-color");
            reveal_strlit("line-number");
            reveal_strlit("stats");
            assert("ignore-case"@.len() == 11 && "no-color"@.len() == 8 && "line-number"@.len()
                == 11 && "stats"@.len() == 5);
            assert("ignore-case"@[0] == 'i' && "line-number"@[0] == 'l');
            assert("ignore-case"@ != "no-color"@);
            assert("ignore-case"@ != "line-number"@);
            assert("ignore-case"@ != "stats"@);
            assert("no-color"@ != "line-number"@);
            assert("no-color"@ != "stats"@);
            assert("line-number"@ != "stats"@);
        }
        while i < args.len()
            invariant
                3 <= i <= args@.len(),
                av == views_of(args@),
                av.len() == args@.len(),
                first_bad_from(av, 3) == first_bad_from(av, i as int),
                forall|j: int| 3 <= j < i ==> valid_flag_token(av[j]),
                c_ic == exists|j: int|
                    3 <= j < i && starts_dashdash(av[j]) && av[j].skip(2) == "ignore-case"@,
                c_nc == exists|j: int|
                    3 <= j < i && starts_dashdash(av[j]) && av[j].skip(2) == "no-color"@,
                c_ln == exists|j: int|
                    3 <= j < i && starts_dashdash(av[j]) && av[j].skip(2) == "line-number"@,
                c_st == exists|j: int|
                    3 <= j < i && starts_dashdash(av[j]) && av[j].skip(2) == "stats"@,
            decreases args@.len() - i,
        {
            let arg: &String = &args[i];
            proof {
                assert(arg@ == av[i as int]);
            }
            let n: usize = arg.as_str().unicode_len();
            if n < 2 || arg.as_str().get_char(0) != '-' || arg.as_str().get_char(1) != '-' {
                proof {
                    assert(!starts_dashdash(av[i as int]));
                    assert(first_bad_from(av, i as int) == i as int);
                }
                let mut msg = String::from_str("Invalid flag format '");
                msg.append(arg.as_str());
                msg.append("'. Flags must start with '--'");
                return Err(msg);
            }
            let body: &str = arg.as_str().substring_char(2, n);
            proof {
                assert(body@ =~= av[i as int].skip(2));
            }
            if str_eq(body, "ignore-case") {
                c_ic = true;
                proof {
                    assert(is_known_flag(body@)) by {
                        assert(known_flags()[0] == "ignore-case"@);
                    }
                }
            } else if str_eq(body, "no-color") {
                c_nc = true;
                proof {
                    assert(is_known_flag(body@)) by {
                        assert(known_flags()[1] == "no-color"@);
                    }
                }
            } else if str_eq(body, "line-number") {
                c_ln = true;
                proof {
                    assert(is_known_flag(body@)) by {
                        assert(known_flags()[2] == "line-number"@);
                    }
                }
            } else if str_eq(body, "stats") {
                c_st = true;
                proof {
                    assert(is_known_flag(body@)) by {
                        assert(known_flags()[3] == "stats"@);
                    }
                }
            } else {
                proof {
                    assert(!is_known_flag(body@)) by {
                        if known_flags().contains(body@) {
                            let k = choose|k: int|
                                0 <= k < known_flags().len() && known_flags()[k] == body@;
                            assert(known_flags()[0] == "ignore-case"@);
                            assert(known_flags()[1] == "no-color"@);
                            assert(known_flags()[2] == "line-number"@);
                            assert(known_flags()[3] == "stats"@);
                        }
                    }
                    assert(!valid_flag_token(av[i as int]));
                    assert(first_bad_from(av, i as int) == i as int);
                }
                let sugg = suggest_flag(body);
                let mut msg = String::from_str("Unrecognized flag '--");
                msg.append(body);
                msg.append("'. Did you mean '--");
                msg.append(sugg.as_str());
                msg.append("'?");
                return Err(msg);
            }
            proof {
                assert(valid_flag_token(av[i as int]));
                assert(first_bad_from(av, i as int) == first_bad_from(av, i + 1));
            }
            i = i + 1;
        }
        proof {
            assert(first_bad_from(av, av.len() as int) == av.len() as int);
            assert(query@ == av[1]);
            assert(file_path@ == av[2]);
        }
        Ok(
            Config {
                query,
                file_path,
                ignore_case: env.ignore_case || c_ic,
                no_color: env.no_color || c_nc,
                line_number: env.line_number || c_ln,
                stats: env.stats || c_st,
            },
        )
    }
}

} // verus!
