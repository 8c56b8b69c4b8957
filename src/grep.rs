//! Searching the lines of a text for a phrase, and the settings that a
//! command line gives for it.

use vstd::prelude::*;
use crate::text::{
    chars_of, contains_text, has_substring, lines_of, lower_of, lowercase, split_lines,
};

verus! {

broadcast use {Seq::lemma_filter_push, Seq::lemma_push_map_commute};

/// The settings of a search.
pub struct Config {
    /// The phrase to search for.
    pub query: String,
    /// The file to search in.
    pub file_path: String,
    /// Use case-insensitive search.
    pub ignore_case: bool,
}

/// What the word `true` or `false` reads as; `None` for any other text.
pub open spec fn flag_of(s: Seq<char>) -> Option<bool> {
    if s == seq!['t', 'r', 'u', 'e'] {
        Some(true)
    } else if s == seq!['f', 'a', 'l', 's', 'e'] {
        Some(false)
    } else {
        None
    }
}

/// Reads `true` or `false`, as `str::parse::<bool>` does.
fn parse_flag(s: &str) -> (r: Option<bool>)
    ensures
        r == flag_of(s@),
{
    let cs = chars_of(s);
    if cs.len() == 4 && cs[0] == 't' && cs[1] == 'r' && cs[2] == 'u' && cs[3] == 'e' {
        assert(s@ =~= seq!['t', 'r', 'u', 'e']);
        Some(true)
    } else if cs.len() == 5 && cs[0] == 'f' && cs[1] == 'a' && cs[2] == 'l' && cs[3] == 's'
        && cs[4] == 'e' {
        assert(s@ =~= seq!['f', 'a', 'l', 's', 'e']);
        Some(false)
    } else {
        proof {
            if s@ == seq!['t', 'r', 'u', 'e'] {
                assert(cs@.len() == 4 && cs@[0] == 't');
            }
            if s@ == seq!['f', 'a', 'l', 's', 'e'] {
                assert(cs@.len() == 5 && cs@[0] == 'f');
            }
        }
        None
    }
}

impl Config {
    /// Builds the settings from the words of a command line: the program's
    /// name, the phrase, the file, and optionally `true` or `false` for a
    /// case-insensitive search (`false` when it is left out). Words after
    /// the fourth are ignored.
    pub fn build(args: Vec<String>) -> (r: Result<Config, &'static str>)
        ensures
            args@.len() < 2 ==> r == Err::<Config, &'static str>("Didn't get a query string"),
            args@.len() == 2 ==> r == Err::<Config, &'static str>("Didn't get a file path"),
            args@.len() >= 4 && flag_of(args@[3]@) is None ==> r == Err::<Config, &'static str>(
                "Could not interpret `ignore_case` argument. Argument should be `true` or `false`.",
            ),
            r is Ok <==> (args@.len() == 3 || (args@.len() >= 4 && flag_of(args@[3]@) is Some)),
            r matches Ok(c) ==> {
                &&& c.query@ == args@[1]@
                &&& c.file_path@ == args@[2]@
                &&& c.ignore_case == (args@.len() >= 4 && flag_of(args@[3]@) == Some(true))
            },
    {
        if args.len() < 2 {
            return Err("Didn't get a query string");
        }
        let query = args[1].clone();
        if args.len() < 3 {
            return Err("Didn't get a file path");
        }
        let file_path = args[2].clone();
        let ignore_case = if args.len() < 4 {
            false
        } else {
            match parse_flag(args[3].as_str()) {
                Some(flag) => flag,
                None => {
                    return Err(
                        "Could not interpret `ignore_case` argument. Argument should be `true` or `false`.",
                    );
                },
            }
        };
        Ok(Config { query, file_path, ignore_case })
    }
}

/// The text of each slice, in order.
pub open spec fn texts(v: Seq<&str>) -> Seq<Seq<char>> {
    v.map_values(|l: &str| l@)
}

/// The lines of `contents` that contain `query`.
pub open spec fn lines_with(query: Seq<char>, contents: Seq<char>) -> Seq<Seq<char>> {
    lines_of(contents).filter(|l: Seq<char>| has_substring(l, query))
}

/// The lines of `contents` that contain `query` when both are put in lower
/// case.
pub open spec fn lines_with_any_case(query: Seq<char>, contents: Seq<char>) -> Seq<Seq<char>> {
    lines_of(contents).filter(|l: Seq<char>| has_substring(lower_of(l), lower_of(query)))
}

/// Search for lines in `contents` that contain `query`. Case sensitive.
pub fn search<'a>(query: &str, contents: &'a str) -> (r: Vec<&'a str>)
    ensures
        texts(r@) == lines_with(query@, contents@),
{
    let lines = split_lines(contents);
    let ghost all = lines_of(contents@);
    let ghost keep = |l: Seq<char>| has_substring(l, query@);
    let mut out: Vec<&'a str> = Vec::new();
    let mut i: usize = 0;
    while i < lines.len()
        invariant
            lines@.len() == all.len(),
            all == lines_of(contents@),
            keep == (|l: Seq<char>| has_substring(l, query@)),
            forall|k: int| 0 <= k < lines@.len() ==> (#[trigger] lines@[k])@ == all[k],
            i <= lines.len(),
            texts(out@) == all.subrange(0, i as int).filter(keep),
        decreases lines.len() - i,
    {
        let line = lines[i];
        proof {
            assert(all.subrange(0, i + 1) =~= all.subrange(0, i as int).push(all[i as int]));
        }
        if contains_text(line, query) {
            out.push(line);
        }
        i = i + 1;
    }
    assert(all.subrange(0, lines.len() as int) =~= all);
    out
}

/// Search for lines in `contents` that contain `query`. Case insensitive.
pub fn search_case_insensitive<'a>(query: &str, contents: &'a str) -> (r: Vec<&'a str>)
    ensures
        texts(r@) == lines_with_any_case(query@, contents@),
{
    let query = lowercase(query);
    let lines = split_lines(contents);
    let ghost all = lines_of(contents@);
    let ghost keep = |l: Seq<char>| has_substring(lower_of(l), query@);
    let mut out: Vec<&'a str> = Vec::new();
    let mut i: usize = 0;
    while i < lines.len()
        invariant
            lines@.len() == all.len(),
            all == lines_of(contents@),
            keep == (|l: Seq<char>| has_substring(lower_of(l), query@)),
            forall|k: int| 0 <= k < lines@.len() ==> (#[trigger] lines@[k])@ == all[k],
            i <= lines.len(),
            texts(out@) == all.subrange(0, i as int).filter(keep),
        decreases lines.len() - i,
    {
        let line = lines[i];
        proof {
            assert(all.subrange(0, i + 1) =~= all.subrange(0, i as int).push(all[i as int]));
        }
        if contains_text(lowercase(line).as_str(), query.as_str()) {
            out.push(line);
        }
        i = i + 1;
    }
    assert(all.subrange(0, lines.len() as int) =~= all);
    out
}

} // verus!
