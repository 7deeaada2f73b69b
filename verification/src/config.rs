//! The configuration resolver: raw process arguments and one environment
//! flag, turned into a validated configuration value.

use vstd::prelude::*;

verus! {

/// Why a configuration could not be built from the arguments.
#[derive(Debug, PartialEq, Eq, Structural)]
pub enum ConfigError {
    /// No query argument was supplied.
    MissingQuery,
    /// A query was supplied but no filename followed it.
    MissingFilename,
}

/// One run's validated configuration: what to search for, where, and in
/// which comparison mode.  Built once from the process arguments and never
/// mutated afterwards.
#[derive(Debug)]
pub struct Config {
    /// The text to search for.  An empty query is legal and matches every
    /// line.
    pub query: String,
    /// The path of the file whose lines are searched.
    pub filename: String,
    /// True unless the environment asked for case-insensitive matching.
    pub case_sensitive: bool,
}

impl Config {
    /// Build a configuration from the argument list (without the program's
    /// own invocation name) and from whether the `CASE_INSENSITIVE` variable
    /// is present in the environment.  The first argument becomes the query,
    /// the second the filename; anything beyond the second is ignored.
    pub fn new(args: Vec<String>, case_insensitive_env: bool) -> (result: Result<
        Config,
        ConfigError,
    >)
        ensures
            args@.len() == 0 ==> result == Err::<Config, ConfigError>(ConfigError::MissingQuery),
            args@.len() == 1 ==> result == Err::<Config, ConfigError>(
                ConfigError::MissingFilename,
            ),
            args@.len() >= 2 ==> (result matches Ok(c) && c.query@ == args@[0]@ && c.filename@
                == args@[1]@ && c.case_sensitive == !case_insensitive_env),
    {
        if args.len() == 0 {
            return Err(ConfigError::MissingQuery);
        }
        if args.len() == 1 {
            return Err(ConfigError::MissingFilename);
        }
        let query = args[0].clone();
        let filename = args[1].clone();
        Ok(Config { query, filename, case_sensitive: !case_insensitive_env })
    }
}

} // verus!
