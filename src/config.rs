//! The settings of one run, and the checks made on them before anything is touched.

use vstd::prelude::*;

verus! {

/// The settings of one run, as read from the command line or the environment.
pub struct Config {
    /// Path to the tree of repositories.
    pub path: String,
    /// Pattern for the branches to check out.
    pub branch_pattern: String,
    /// Pattern for the base names of the files to search.
    pub file_pattern: Option<String>,
    /// Pattern for the lines to select.
    pub line_pattern: Option<String>,
    /// Pattern for the part of a selected line to replace.
    pub line_select_pattern: Option<String>,
    /// Template that replaces what `line_select_pattern` selects.
    pub line_replace_pattern: Option<String>,
    /// Commit message; nothing is committed without one.
    pub commit: Option<String>,
    /// Whether to push after committing.
    pub push: bool,
    pub username: Option<String>,
    pub password: Option<String>,
    /// Report writes to files and repositories instead of making them.
    pub dry_run: bool,
    /// Print a report of what was found at the end.
    pub assess: bool,
}

/// Settings that cannot go together; found before any repository is touched.
#[derive(Clone, Copy, Debug, PartialEq, Eq, Structural)]
pub enum ConfigError {
    /// A select pattern was given without a replace template.
    SelectWithoutReplace,
    /// A replace template was given without a select pattern.
    ReplaceWithoutSelect,
    /// A push was asked for without a username.
    PushWithoutUsername,
}

impl Config {
    /// Checks that the select pattern and the replace template come together,
    /// and that a push comes with a username.
    pub fn validate(&self) -> (r: Result<(), ConfigError>)
        ensures
            r == Err::<(), ConfigError>(ConfigError::SelectWithoutReplace) <==> (
            self.line_select_pattern is Some && self.line_replace_pattern is None),
            r == Err::<(), ConfigError>(ConfigError::ReplaceWithoutSelect) <==> (
            self.line_select_pattern is None && self.line_replace_pattern is Some),
            r == Err::<(), ConfigError>(ConfigError::PushWithoutUsername) <==> (
            (self.line_select_pattern is Some) == (self.line_replace_pattern is Some) && self.push
                && self.username is None),
            r is Ok <==> ((self.line_select_pattern is Some) == (self.line_replace_pattern is Some) && (
            !self.push || self.username is Some)),
    {
        match (&self.line_select_pattern, &self.line_replace_pattern) {
            (Some(_), None) => return Err(ConfigError::SelectWithoutReplace),
            (None, Some(_)) => return Err(ConfigError::ReplaceWithoutSelect),
            _ => {},
        }
        if self.push && self.username.is_none() {
            return Err(ConfigError::PushWithoutUsername);
        }
        Ok(())
    }
}

} // verus!
