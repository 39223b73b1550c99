use vstd::prelude::*;

verus! {

/// Why a configuration could not be built.
#[derive(Clone, Copy, Debug, PartialEq, Eq, Structural)]
pub enum ConfigError {
    /// No first parameter: there is nothing to search for.
    MissingQuery,
    /// No second parameter: there is nothing to search in.
    MissingPath,
}

/// What one invocation searches for, where, and whether case matters.
pub struct Config {
    pub query: String,
    pub path: String,
    pub case_insensitive: bool,
}

impl Config {
    /// Builds a configuration from the invocation parameters that follow the
    /// program's own name. The first is the query, the second the path; any
    /// further ones are ignored. `case_toggle` tells whether the signal for
    /// case-insensitive matching was present.
    pub fn build(params: Vec<String>, case_toggle: bool) -> (r: Result<Config, ConfigError>)
        ensures
            r matches Err(ConfigError::MissingQuery) <==> params@.len() == 0,
            r matches Err(ConfigError::MissingPath) <==> params@.len() == 1,
            r is Ok <==> params@.len() >= 2,
            r matches Ok(c) ==> {
                &&& c.query@ == params@[0]@
                &&& c.path@ == params@[1]@
                &&& c.case_insensitive == case_toggle
            },
    {
        if params.len() == 0 {
            return Err(ConfigError::MissingQuery);
        }
        if params.len() == 1 {
            return Err(ConfigError::MissingPath);
        }
        let query = params[0].clone();
        let path = params[1].clone();
        Ok(Config { query, path, case_insensitive: case_toggle })
    }
}

} // verus!
