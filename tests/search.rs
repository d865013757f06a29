use minigrep::config::{matching_lines, Config};
use minigrep::text::{occurs, search, search_case_insensitive, select_lines, split_lines};

const CONTENTS: &str = "\
Rust:
safe, fast, productive.
Pick three.
Trust me.";

fn chars(s: &str) -> Vec<char> {
    s.chars().collect()
}

#[test]
fn one_result() {
    let query = "duct";

    assert_eq!(vec!["safe, fast, productive."], search(&query, &CONTENTS))
}

#[test]
fn case_insensitive_on() {
    let query = "rUsT";

    assert_eq!(
        vec!["Rust:", "Trust me."],
        search_case_insensitive(&query, &CONTENTS)
    )
}

#[test]
fn case_sensitive_search_skips_other_case() {
    assert_eq!(vec!["Trust me."], search("rust", CONTENTS));
}

#[test]
fn empty_query_matches_every_line() {
    assert_eq!(
        vec!["Rust:", "safe, fast, productive.", "Pick three.", "Trust me."],
        search("", CONTENTS)
    );
}

#[test]
fn empty_contents_have_no_lines() {
    assert!(search("a", "").is_empty());
    assert!(split_lines("").is_empty());
}

#[test]
fn lines_split_on_newline_and_crlf() {
    let lines = split_lines("a\r\nb\n\nc\n");
    assert_eq!(lines, vec![chars("a"), chars("b"), chars(""), chars("c")]);
    let last = split_lines("x\ny\r");
    assert_eq!(last, vec![chars("x"), chars("y\r")]);
}

#[test]
fn occurs_finds_runs() {
    assert!(occurs(&chars("uct"), &chars("productive")));
    assert!(occurs(&chars(""), &chars("")));
    assert!(!occurs(&chars("ductive!"), &chars("productive")));
    assert!(!occurs(&chars("longer"), &chars("long")));
    assert!(occurs(&chars("ab"), &chars("aab")));
}

#[test]
fn select_lines_goes_by_keys() {
    let keys = vec![chars("abc"), chars("xyz"), chars("zab")];
    let lines = vec![chars("ABC"), chars("XYZ"), chars("ZAB")];
    assert_eq!(vec!["ABC", "ZAB"], select_lines(&chars("ab"), &keys, &lines));
    assert!(select_lines(&chars("q"), &keys, &lines).is_empty());
}

#[test]
fn case_insensitive_folds_both_sides() {
    assert_eq!(vec!["PICK three."], search_case_insensitive("pIcK", "PICK three.\nnone"));
}

#[test]
fn config_build_reads_query_and_path() {
    let args = vec!["prog".to_string(), "needle".to_string(), "poem.txt".to_string()];
    let c = Config::build(args, true).unwrap();
    assert_eq!(c.query, "needle");
    assert_eq!(c.file_path, "poem.txt");
    assert!(c.ignore_case);
}

#[test]
fn config_build_missing_query() {
    let r = Config::build(vec!["prog".to_string()], false);
    assert_eq!(r.unwrap_err(), "did not get a query string");
    assert_eq!(Config::build(vec![], false).unwrap_err(), "did not get a query string");
}

#[test]
fn config_build_missing_path() {
    let r = Config::build(vec!["prog".to_string(), "q".to_string()], false);
    assert_eq!(r.unwrap_err(), "did not get a file_path string");
}

#[test]
fn matching_lines_follows_ignore_case() {
    let args = vec!["prog".to_string(), "rUsT".to_string(), "f".to_string()];
    let loose = Config::build(args.clone(), true).unwrap();
    assert_eq!(vec!["Rust:", "Trust me."], matching_lines(&loose, CONTENTS));
    let strict = Config::build(args, false).unwrap();
    assert!(matching_lines(&strict, CONTENTS).is_empty());
}
