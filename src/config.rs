use vstd::prelude::*;
use crate::text::{lines_of, lower_of, search, search_case_insensitive, select, string_views};

verus! {

/// What to look for, where, and whether letter case counts.
#[derive(Debug)]
pub struct Config {
    pub query: String,
    pub file_path: String,
    pub ignore_case: bool,
}

impl Config {
    /// Reads the query and the file path from `args`, whose first entry (the
    /// program's name) is skipped; `ignore_case` is passed through.
    pub fn build(args: Vec<String>, ignore_case: bool) -> (r: Result<Config, &'static str>)
        ensures
            args@.len() < 3 <==> r is Err,
            args@.len() < 2 ==> r->Err_0@ == "did not get a query string"@,
            args@.len() == 2 ==> r->Err_0@ == "did not get a file_path string"@,
            args@.len() > 2 ==> r->Ok_0.query@ == args@[1]@ && r->Ok_0.file_path@ == args@[2]@
                && r->Ok_0.ignore_case == ignore_case,
    {
        if args.len() < 2 {
            return Err("did not get a query string");
        }
        if args.len() < 3 {
            return Err("did not get a file_path string");
        }
        let query = args[1].clone();
        let file_path = args[2].clone();
        Ok(Config { query, file_path, ignore_case })
    }
}

/// The lines of `contents` that match the query of `config`, ignoring letter
/// case where `config` says so.
pub fn matching_lines(config: &Config, contents: &str) -> (r: Vec<String>)
    ensures
        !config.ignore_case ==> string_views(r@) == select(
            config.query@,
            lines_of(contents@),
            lines_of(contents@),
        ),
        config.ignore_case ==> string_views(r@) == select(
            lower_of(config.query@),
            lines_of(contents@).map_values(|l: Seq<char>| lower_of(l)),
            lines_of(contents@),
        ),
{
    if config.ignore_case {
        search_case_insensitive(config.query.as_str(), contents)
    } else {
        search(config.query.as_str(), contents)
    }
}

} // verus!
