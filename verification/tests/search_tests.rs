use minigrep::{search, search_case_insensitive, split_lines};

#[test]
fn one_result() {
    let query = "duct";
    let contents = "\
Rust:
safe, fast, productive.
Pick three.
Duct tape.";
    assert_eq!(vec!["safe, fast, productive."], search(query, contents));
}

#[test]
fn case_insensitive() {
    let query = "rUsT";
    let contents = "\
Rust:
safe, fast, productive.
Pick three.
Trust me.";

    assert_eq!(
        vec!["Rust:", "Trust me."],
        search_case_insensitive(query, contents)
    );
}

#[test]
fn empty_query_returns_every_line_case_sensitive() {
    let contents = "alpha\nbeta\ngamma";
    assert_eq!(vec!["alpha", "beta", "gamma"], search("", contents));
}

#[test]
fn empty_query_returns_every_line_case_insensitive() {
    let contents = "alpha\nbeta\ngamma";
    assert_eq!(
        vec!["alpha", "beta", "gamma"],
        search_case_insensitive("", contents)
    );
}

#[test]
fn results_keep_file_order() {
    let contents = "one match\nnothing here\nanother match\nmatch at the end";
    assert_eq!(
        vec!["one match", "another match", "match at the end"],
        search("match", contents)
    );
}

#[test]
fn case_sensitive_mode_is_exact() {
    let contents = "Rust:\nsafe, fast, productive.\nPick three.\nTrust me.";
    let empty: Vec<&str> = Vec::new();
    assert_eq!(empty, search("rUsT", contents));
}

#[test]
fn insensitive_finds_at_least_the_sensitive_matches() {
    let contents = "Rust:\nsafe, fast, productive.\nPick three.\nTrust me.\nrust again";
    let query = "rust";
    let sensitive = search(query, contents);
    let insensitive = search_case_insensitive(query, contents);
    assert!(insensitive.len() >= sensitive.len());
    assert_eq!(vec!["Trust me.", "rust again"], sensitive);
    assert_eq!(vec!["Rust:", "Trust me.", "rust again"], insensitive);
}

#[test]
fn no_match_gives_empty_result() {
    let contents = "alpha\nbeta";
    let empty: Vec<&str> = Vec::new();
    assert_eq!(empty, search("gamma", contents));
    assert_eq!(empty, search_case_insensitive("gamma", contents));
}

#[test]
fn split_lines_strips_terminators() {
    assert_eq!(
        vec!["foo", "bar", "", "baz"],
        split_lines("foo\r\nbar\n\nbaz\n")
    );
}

#[test]
fn split_lines_trailing_newline_opens_no_line() {
    assert_eq!(vec!["a", "b"], split_lines("a\nb\n"));
    assert_eq!(vec!["a", "b"], split_lines("a\nb"));
}

#[test]
fn split_lines_of_empty_text_is_empty() {
    let empty: Vec<&str> = Vec::new();
    assert_eq!(empty, split_lines(""));
}

#[test]
fn split_lines_keeps_bare_final_carriage_return() {
    assert_eq!(vec!["a", "b\r"], split_lines("a\nb\r"));
}

#[test]
fn query_spanning_lines_never_matches() {
    let contents = "ab\ncd";
    let empty: Vec<&str> = Vec::new();
    assert_eq!(empty, search("b\nc", contents));
}

// Lowercasing is not blind to context: a Greek capital sigma lowers to a
// final sigma at the end of a word but to a medial sigma on its own, so a
// line can match a query exactly and yet lose the match once both sides are
// lowered.
#[test]
fn final_sigma_can_defeat_insensitive_matching() {
    let contents = "ΑΣ";
    assert_eq!(vec!["ΑΣ"], search("Σ", contents));
    let empty: Vec<&str> = Vec::new();
    assert_eq!(empty, search_case_insensitive("Σ", contents));
}

#[test]
fn unicode_query_matches_insensitively() {
    let contents = "GRÜSSE\ngruesse";
    assert_eq!(
        vec!["GRÜSSE"],
        search_case_insensitive("grüsse", contents)
    );
}
