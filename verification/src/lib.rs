//! Commit statistics, repository discovery and clean-up decisions for Git
//! working trees, with their contracts proved by Verus.

pub mod find;
pub mod output;
pub mod repo_name;
pub mod stats;
pub mod status;
pub mod time;
