use minigrep::{Params, ParseError};

fn args_of(parts: &[&str]) -> Vec<String> {
    parts.iter().map(|s| String::from(*s)).collect()
}

#[test]
fn build_resolves_query_and_file_path() {
    let args = args_of(&["prog", "body", "poem.txt"]);
    let params = Params::build(&args, false).unwrap();
    assert_eq!(params.query, "body");
    assert_eq!(params.file_path, "poem.txt");
    assert!(!params.ignore_case);
}

#[test]
fn build_passes_the_toggle_through() {
    let args = args_of(&["prog", "body", "poem.txt"]);
    let params = Params::build(&args, true).unwrap();
    assert!(params.ignore_case);
}

#[test]
fn build_ignores_extra_trailing_arguments() {
    let args = args_of(&["prog", "body", "poem.txt", "spare", "more"]);
    let params = Params::build(&args, false).unwrap();
    assert_eq!(params.query, "body");
    assert_eq!(params.file_path, "poem.txt");
}

#[test]
fn build_reports_a_missing_query() {
    let args = args_of(&["prog"]);
    assert!(matches!(
        Params::build(&args, false),
        Err(ParseError::MissingQuery)
    ));
    let none = args_of(&[]);
    assert!(matches!(
        Params::build(&none, false),
        Err(ParseError::MissingQuery)
    ));
}

#[test]
fn build_reports_a_missing_file_path() {
    let args = args_of(&["prog", "body"]);
    assert!(matches!(
        Params::build(&args, false),
        Err(ParseError::MissingFilePath)
    ));
}
