//! Verified core of a small data-transformation tool: CSV records converted
//! to JSON or YAML, and a Base64 codec over two alphabets, with the
//! file-or-stdin path convention shared by every subcommand.

use vstd::prelude::*;

pub mod b64;
pub mod cli;
pub mod convert;
pub mod error;
pub mod records;
pub mod render;

verus! {

/// Returns true exactly when a path token selects the standard input stream
/// rather than a file: the sentinel is the exact string `-`.
pub fn is_stdin_path(path: &str) -> (r: bool)
    ensures
        r == (path@ == "-"@),
{
    let s: String = path.to_owned();
    let dash: String = "-".to_owned();
    s == dash
}

} // verus!
