//! Git state as plain values: what the worker reports and what it is asked
//! to do.

use vstd::prelude::*;

verus! {

/// Where a file stands between the last commit, the index and the worktree.
#[derive(Clone, Copy, Debug, PartialEq, Eq, Structural)]
pub enum FileState {
    Staged,
    Unstaged,
    Untracked,
    Conflicted,
    BothStagedAndUnstaged,
    Clean,
}

/// A file of the working tree.
#[derive(Debug)]
pub struct StatusEntry {
    pub path: String,
    pub state: FileState,
}

/// The working tree: branch, changed files, and every tracked file.
#[derive(Debug)]
pub struct RepoStatus {
    pub branch: String,
    pub head_summary: String,
    pub files: Vec<StatusEntry>,
    pub tracked_files: Vec<String>,
}

/// What a line of a diff is.
#[derive(Clone, Copy, Debug, PartialEq, Eq, Structural)]
pub enum LineKind {
    Context,
    Add,
    Del,
    HunkHeader,
}

/// A line of a diff.
#[derive(Debug)]
pub struct DiffLine {
    pub kind: LineKind,
    pub text: String,
}

/// A run of changes with its context.
#[derive(Debug)]
pub struct Hunk {
    pub header: String,
    pub old_start: u32,
    pub new_start: u32,
    pub lines: Vec<DiffLine>,
}

/// The diff of one file, or its whole text as one run of context.
#[derive(Debug)]
pub struct FileDiff {
    pub path: String,
    pub binary: bool,
    pub hunks: Vec<Hunk>,
}

/// A local branch.
#[derive(Debug)]
pub struct BranchInfo {
    pub name: String,
    pub is_head: bool,
    pub tip_summary: String,
}

/// A commit of the history.
#[derive(Debug)]
pub struct CommitInfo {
    pub id: String,
    pub summary: String,
    pub author: String,
}

/// An entry of the stash.
#[derive(Debug)]
pub struct StashEntry {
    pub index: usize,
    pub message: String,
}

/// How the branch stands to the one it tracks.
#[derive(Debug)]
pub struct SyncStatus {
    pub upstream: Option<String>,
    pub ahead: usize,
    pub behind: usize,
    pub remotes: Vec<String>,
}

} // verus!
