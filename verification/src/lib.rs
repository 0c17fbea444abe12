//! Commit-message templates: a verified core for picking a named template,
//! substituting `{{name}}` placeholders into its title, body and branch
//! pattern, and checking the current branch name against the resolved
//! pattern.

pub mod assign;
pub mod errors;
pub mod laws;
pub mod loader;
pub mod resolve;
pub mod template;
pub mod text;
pub mod validate;
