//! Where results go: the output format chosen on the command line and the
//! names of the JSON files written for each kind of result.

use vstd::prelude::*;
use vstd::string::StringExecFns;

verus! {

/// How a result is handed to the user.
#[derive(Clone, Copy, Debug, PartialEq, Eq, Structural)]
pub enum OutputFormat {
    /// Printed on standard output (format 1, the default).
    Print,
    /// Written as pretty JSON into the results directory (format 2).
    JsonFile,
    /// Any other format number: only an error message is printed.
    Unsupported,
}

/// The output format selected by the optional format number.
pub open spec fn format_for(format: Option<u8>) -> OutputFormat {
    match format {
        None => OutputFormat::Print,
        Some(1) => OutputFormat::Print,
        Some(2) => OutputFormat::JsonFile,
        Some(_) => OutputFormat::Unsupported,
    }
}

/// The output format selected by `format`, which defaults to printing.
pub fn output_format(format: Option<u8>) -> (r: OutputFormat)
    ensures
        r == format_for(format),
{
    match format.unwrap_or(1) {
        1 => OutputFormat::Print,
        2 => OutputFormat::JsonFile,
        _ => OutputFormat::Unsupported,
    }
}

/// The file that receives the repositories found in directory `dir`.
pub fn find_repos_file_name(dir: &str) -> (r: String)
    ensures
        r@ == "gitchecker_"@ + dir@ + "_find_repos.json"@,
{
    let mut name = String::from_str("gitchecker_");
    name.append(dir);
    name.append("_find_repos.json");
    name
}

/// The file that receives the commit statistics of `repo_name`.
pub fn commit_stats_file_name(repo_name: &str) -> (r: String)
    ensures
        r@ == "gitchecker_"@ + repo_name@ + "_commit_stats.json"@,
{
    let mut name = String::from_str("gitchecker_");
    name.append(repo_name);
    name.append("_commit_stats.json");
    name
}

/// The file that receives the count of commits of `repo_name` since the
/// date written `since_date`.
pub fn since_stats_file_name(repo_name: &str, since_date: &str) -> (r: String)
    ensures
        r@ == "gitchecker_"@ + repo_name@ + "_since_"@ + since_date@ + "_commit_stats.json"@,
{
    let mut name = String::from_str("gitchecker_");
    name.append(repo_name);
    name.append("_since_");
    name.append(since_date);
    name.append("_commit_stats.json");
    name
}

} // verus!
