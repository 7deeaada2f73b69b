//! The run orchestrator's decision logic: which comparison mode to use for a
//! configuration, and what one run returns for each outcome of the file read.
//! Reading the file itself and emitting the matches are the callers' work.

use vstd::prelude::*;
use crate::config::Config;
use crate::matcher::{insensitive_matches, search, search_case_insensitive, sensitive_matches};

verus! {

/// Why a run failed.
#[derive(Debug)]
pub enum RunError {
    /// The target file could not be read; carries the underlying cause,
    /// rendered as text.
    FileReadError(String),
}

/// The lines that a run with this configuration returns out of `contents`:
/// the matches of the mode that `case_sensitive` selects.
pub open spec fn selected_matches(query: Seq<char>, case_sensitive: bool, contents: Seq<char>) -> Seq<
    Seq<char>,
> {
    if case_sensitive {
        sensitive_matches(query, contents)
    } else {
        insensitive_matches(query, contents)
    }
}

/// The matching lines of `contents` under `config`, as slices of the original
/// text, in the order the lines appear.
pub fn run_on_contents<'a>(config: &Config, contents: &'a str) -> (matches: Vec<&'a str>)
    ensures
        matches.deep_view() == selected_matches(
            config.query@,
            config.case_sensitive,
            contents@,
        ),
{
    if config.case_sensitive {
        search(config.query.as_str(), contents)
    } else {
        search_case_insensitive(config.query.as_str(), contents)
    }
}

/// One run's outcome, given what came back from reading the target file: a
/// failed read is wrapped in `FileReadError` and propagated unchanged, never
/// downgraded to an empty success; a successful read yields exactly the
/// matching lines, fully computed before anything is emitted.
pub fn run_on_read(config: &Config, read_result: Result<String, String>) -> (outcome: Result<
    Vec<String>,
    RunError,
>)
    ensures
        read_result matches Ok(contents) ==> (outcome matches Ok(lines) && lines.deep_view()
            == selected_matches(config.query@, config.case_sensitive, contents@)),
        read_result matches Err(cause) ==> outcome matches Err(e) && e
            == RunError::FileReadError(cause),
{
    match read_result {
        Ok(contents) => {
            let found = run_on_contents(config, contents.as_str());
            let mut lines: Vec<String> = Vec::new();
            let mut i: usize = 0;
            proof {
                assert(lines.deep_view() =~= found.deep_view().subrange(0, 0));
            }
            while i < found.len()
                invariant
                    0 <= i <= found@.len(),
                    lines.deep_view() == found.deep_view().subrange(0, i as int),
                    found.deep_view().len() == found@.len(),
                decreases found@.len() - i,
            {
                let ghost prev = lines.deep_view();
                lines.push(found[i].to_owned());
                proof {
                    assert(lines.deep_view() =~= prev.push(found@[i as int]@));
                    assert(lines.deep_view() =~= found.deep_view().subrange(0, i + 1));
                }
                i = i + 1;
            }
            proof {
                assert(found.deep_view().subrange(0, found@.len() as int) =~= found.deep_view());
            }
            Ok(lines)
        },
        Err(cause) => Err(RunError::FileReadError(cause)),
    }
}

} // verus!
