use minigrep::{run_on_contents, run_on_read, Config, RunError};

fn config(query: &str, case_sensitive: bool) -> Config {
    let args = vec![query.to_string(), "contents.txt".to_string()];
    Config::new(args, !case_sensitive).unwrap()
}

#[test]
fn failed_read_becomes_file_read_error() {
    let outcome = run_on_read(
        &config("duct", true),
        Err("No such file or directory".to_string()),
    );
    match outcome {
        Err(RunError::FileReadError(cause)) => {
            assert_eq!(cause, "No such file or directory");
        }
        Ok(_) => panic!("a failed read must not become a successful run"),
    }
}

#[test]
fn successful_read_yields_the_matches() {
    let contents = "Rust:\nsafe, fast, productive.\nPick three.\nDuct tape.";
    let outcome = run_on_read(&config("duct", true), Ok(contents.to_string()));
    assert_eq!(outcome.unwrap(), vec!["safe, fast, productive.".to_string()]);
}

#[test]
fn sensitive_config_selects_exact_matching() {
    let contents = "Rust:\nsafe, fast, productive.\nPick three.\nTrust me.";
    let matches = run_on_contents(&config("rUsT", true), contents);
    let empty: Vec<&str> = Vec::new();
    assert_eq!(empty, matches);
}

#[test]
fn insensitive_config_selects_lowered_matching() {
    let contents = "Rust:\nsafe, fast, productive.\nPick three.\nTrust me.";
    let matches = run_on_contents(&config("rUsT", false), contents);
    assert_eq!(vec!["Rust:", "Trust me."], matches);
}
