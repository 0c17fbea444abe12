//! The decision logic of the configuration-file search: the surrounding
//! application walks the directory tree upwards, tries to read the
//! configuration file at each step, and asks this module what to do next.

use vstd::prelude::*;
use crate::errors::CliError;

verus! {

/// What the search does after one attempt to read the configuration file.
#[derive(Debug)]
pub enum SearchStep {
    /// The file was read here; its text is the configuration source.
    Found(String),
    /// Nothing here; continue with the parent directory.
    Ascend,
}

/// One step of the upward search: the first file found wins; with nothing
/// found and no parent left the search fails with `ConfigNotFound`.
pub fn config_search_step(file_content: Option<String>, has_parent: bool) -> (r: Result<
    SearchStep,
    CliError,
>)
    ensures
        file_content matches Some(text) ==> (r matches Ok(s) && s matches SearchStep::Found(found)
            && found == text),
        file_content is None && has_parent ==> (r matches Ok(s) && s is Ascend),
        file_content is None && !has_parent ==> (r matches Err(e) && e
            == CliError::ConfigNotFound),
{
    match file_content {
        Some(text) => Ok(SearchStep::Found(text)),
        None => {
            if has_parent {
                Ok(SearchStep::Ascend)
            } else {
                Err(CliError::ConfigNotFound)
            }
        },
    }
}

} // verus!
