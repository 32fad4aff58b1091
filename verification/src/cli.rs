//! The two operations of the command line and what each of them takes.

use std::path::PathBuf;
use vstd::prelude::*;

verus! {

/// `std::path::PathBuf`, carried through as it is.
#[verifier::external_type_specification]
#[verifier::external_body]
pub struct ExPathBuf(PathBuf);

/// What the command line asks for.
#[derive(Debug)]
pub struct Cli {
    pub subcommand: Commands,
}

/// The two operations.
#[derive(Debug)]
pub enum Commands {
    /// Resolve the changes listed in `commits_json` against the history of
    /// the tree in `repo_dir`, and write the contexts to `out`.
    FindCommit { repo_dir: PathBuf, commits_json: PathBuf, out: PathBuf },
    /// Reproduce both states of the tree in `repo_dir` for every context
    /// listed in `commit_context_json`, below `out_dir`.
    RollBack { repo_dir: PathBuf, commit_context_json: PathBuf, out_dir: PathBuf },
}

} // verus!
