use minigrep::{run, search, search_case_insensitive, split_lines, Params};

#[test]
fn one_result() {
    let query = "duct";
    let contents = "\
Rust:
safe, fast, productive.
Pick three.";
    assert_eq!(vec!["safe, fast, productive."], search(query, contents));
}

#[test]
fn two_result() {
    let query = "rUsT";
    let contents = "\
Rust:
safe, fast, productive.
Pick three.
Trust me.";
    assert_eq!(
        vec!["Rust:", "Trust me."],
        search_case_insensitive(query, contents)
    );
}

#[test]
fn exact_search_is_case_sensitive() {
    let contents = "\
Rust:
safe, fast, productive.
Pick three.
Trust me.";
    assert_eq!(search("rUsT", contents), Vec::<&str>::new());
}

#[test]
fn empty_query_matches_every_line() {
    let contents = "\
Rust:
safe, fast, productive.
Pick three.";
    assert_eq!(
        vec!["Rust:", "safe, fast, productive.", "Pick three."],
        search("", contents)
    );
}

#[test]
fn no_match_is_empty_not_an_error() {
    let contents = "\
Rust:
safe, fast, productive.
Pick three.";
    assert_eq!(search("zzz", contents), Vec::<&str>::new());
    assert_eq!(search_case_insensitive("zzz", contents), Vec::<&str>::new());
}

#[test]
fn empty_contents_has_no_lines() {
    assert_eq!(search("x", ""), Vec::<&str>::new());
    assert_eq!(search("", ""), Vec::<&str>::new());
}

#[test]
fn case_insensitive_keeps_original_casing() {
    let contents = "HELLO there\nhello again";
    assert_eq!(
        vec!["HELLO there", "hello again"],
        search_case_insensitive("Hello", contents)
    );
}

#[test]
fn folding_is_simple_not_unicode_aware() {
    let contents = "\u{c4}hnlich\n\u{e4}hnlich";
    assert_eq!(
        vec!["\u{e4}hnlich"],
        search_case_insensitive("\u{e4}hnlich", contents)
    );
}

#[test]
fn split_lines_handles_terminators() {
    assert_eq!(vec!["a", "b"], split_lines("a\r\nb\n"));
    assert_eq!(vec!["a", "", "b"], split_lines("a\n\nb"));
    assert_eq!(vec!["x\r"], split_lines("x\r"));
    assert_eq!(split_lines(""), Vec::<&str>::new());
}

#[test]
fn run_dispatches_on_ignore_case() {
    let contents = "\
Rust:
safe, fast, productive.
Pick three.
Trust me.";
    let folded = Params {
        query: String::from("rUsT"),
        file_path: String::from("poem.txt"),
        ignore_case: true,
    };
    assert_eq!(vec!["Rust:", "Trust me."], run(&folded, contents));
    let exact = Params {
        query: String::from("rUsT"),
        file_path: String::from("poem.txt"),
        ignore_case: false,
    };
    assert_eq!(run(&exact, contents), Vec::<&str>::new());
}
