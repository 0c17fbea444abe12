//! The error kinds a run can end with, and the user-facing message of each.

use vstd::prelude::*;

verus! {

/// Everything that can go wrong while loading templates, resolving one, or
/// validating the branch name.
#[derive(Clone, Copy, Debug, PartialEq, Eq, Structural)]
pub enum CliError {
    /// No configuration file was found anywhere up the directory tree.
    ConfigNotFound,
    /// A configuration file was found but could not be deserialized.
    ConfigParseError,
    /// The requested template identifier or label is not in the store.
    TemplateNotFound,
    /// A supplied variable pair has no `=` or an empty key.
    MalformedAssignment,
    /// The resolved branch pattern is not a valid regular expression.
    InvalidPattern,
    /// The external commit command could not be spawned or run.
    CommitInvocationFailed,
    /// The current branch name could not be read.
    BranchQueryFailed,
}

impl CliError {
    /// The diagnostic text shown to the user for this error.
    pub fn message(&self) -> (r: String)
        ensures
            *self == CliError::ConfigNotFound ==> r@ == "failed to find commit-templates.toml"@,
            *self == CliError::ConfigParseError ==> r@ == "failed to deserialize templates file"@,
            *self == CliError::TemplateNotFound ==> r@ == "template does not exist"@,
            *self == CliError::MalformedAssignment ==> r@ == "var must have the format `var=value`"@,
            *self == CliError::InvalidPattern ==> r@
                == "branch pattern is not a valid regular expression"@,
            *self == CliError::CommitInvocationFailed ==> r@ == "failed to commit"@,
            *self == CliError::BranchQueryFailed ==> r@ == "failed to read current branch"@,
    {
        match self {
            CliError::ConfigNotFound => String::from_str("failed to find commit-templates.toml"),
            CliError::ConfigParseError => String::from_str("failed to deserialize templates file"),
            CliError::TemplateNotFound => String::from_str("template does not exist"),
            CliError::MalformedAssignment => String::from_str(
                "var must have the format `var=value`",
            ),
            CliError::InvalidPattern => String::from_str(
                "branch pattern is not a valid regular expression",
            ),
            CliError::CommitInvocationFailed => String::from_str("failed to commit"),
            CliError::BranchQueryFailed => String::from_str("failed to read current branch"),
        }
    }
}

} // verus!
