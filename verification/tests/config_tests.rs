use minigrep::{Config, ConfigError};

fn strings(items: &[&str]) -> Vec<String> {
    let mut out: Vec<String> = Vec::new();
    for item in items {
        out.push(item.to_string());
    }
    out
}

#[test]
fn zero_arguments_is_missing_query() {
    let result = Config::new(Vec::new(), false);
    assert_eq!(result.unwrap_err(), ConfigError::MissingQuery);
}

#[test]
fn one_argument_is_missing_filename() {
    let result = Config::new(strings(&["needle"]), false);
    assert_eq!(result.unwrap_err(), ConfigError::MissingFilename);
}

#[test]
fn two_arguments_build_a_config() {
    let config = Config::new(strings(&["needle", "haystack.txt"]), false).unwrap();
    assert_eq!(config.query, "needle");
    assert_eq!(config.filename, "haystack.txt");
    assert!(config.case_sensitive);
}

#[test]
fn arguments_beyond_the_second_are_ignored() {
    let config = Config::new(
        strings(&["needle", "haystack.txt", "extra", "more"]),
        false,
    )
    .unwrap();
    assert_eq!(config.query, "needle");
    assert_eq!(config.filename, "haystack.txt");
}

#[test]
fn environment_flag_disables_case_sensitivity() {
    let config = Config::new(strings(&["q", "f"]), true).unwrap();
    assert!(!config.case_sensitive);
}

#[test]
fn absent_environment_flag_keeps_case_sensitivity() {
    let config = Config::new(strings(&["q", "f"]), false).unwrap();
    assert!(config.case_sensitive);
}

#[test]
fn empty_query_argument_is_accepted() {
    let config = Config::new(strings(&["", "f"]), false).unwrap();
    assert_eq!(config.query, "");
}
