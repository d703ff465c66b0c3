//! One project, driven by keys, against a repository in memory that does its
//! jobs.

use git_tui::app::App;
use git_tui::app_model::{Focus, Mode};
use git_tui::clipboard::base64_encode;
use git_tui::config::{Config, KeyBindings, KeyCode};
use git_tui::diff_rows::{diff_rows, rows_hunk_start, rows_unified_len};
use git_tui::jobs::{GitError, Job, JobResult};
use git_tui::model::{
    BranchInfo, CommitInfo, DiffLine, FileDiff, FileState, Hunk, LineKind, RepoStatus, StashEntry,
    StatusEntry, SyncStatus,
};
use git_tui::viewer::cursor_line_text;
use similar::{DiffTag, TextDiff};

/// A file as the last commit, the index and the working directory have it.
struct File {
    path: String,
    head: Option<String>,
    index: Option<String>,
    work: Option<String>,
}

fn committed(path: &str, head: &str, work: &str) -> File {
    File {
        path: path.into(),
        head: Some(head.into()),
        index: Some(head.into()),
        work: Some(work.into()),
    }
}

/// A repository in memory.
struct Repo {
    files: Vec<File>,
    /// Files of which only the mode is changed.
    mode_only: Vec<String>,
    branches: Vec<String>,
    current: String,
    commits: Vec<String>,
    stash: Vec<(String, Vec<(String, String)>)>,
    remotes: Vec<String>,
    upstream: Option<String>,
    published: Option<String>,
}

fn repo() -> Repo {
    Repo {
        files: Vec::new(),
        mode_only: Vec::new(),
        branches: vec!["main".into()],
        current: "main".into(),
        commits: vec!["init".into()],
        stash: Vec::new(),
        remotes: Vec::new(),
        upstream: None,
        published: None,
    }
}

fn text_lines(text: &str) -> Vec<String> {
    text.lines().map(|l| l.to_string()).collect()
}

fn hunks_of(old: &str, new: &str) -> Vec<Hunk> {
    let diff = TextDiff::from_lines(old, new);
    let mut hunks = Vec::new();
    for group in diff.grouped_ops(3) {
        let (a, b) = (group[0].old_range().start, group[0].new_range().start);
        let mut lines = Vec::new();
        for op in &group {
            for change in diff.iter_changes(op) {
                let kind = match change.tag() {
                    similar::ChangeTag::Equal => LineKind::Context,
                    similar::ChangeTag::Delete => LineKind::Del,
                    similar::ChangeTag::Insert => LineKind::Add,
                };
                lines.push(DiffLine {
                    kind,
                    text: change.value().trim_end_matches('\n').to_string(),
                });
            }
        }
        hunks.push(Hunk {
            header: format!("@@ -{} +{} @@", a + 1, b + 1),
            old_start: a as u32 + 1,
            new_start: b as u32 + 1,
            lines,
        });
    }
    hunks
}

impl File {
    fn state(&self, mode_only: bool) -> FileState {
        let staged = self.head != self.index;
        let dirty = self.index != self.work || mode_only;
        if self.head.is_none() && self.index.is_none() {
            FileState::Untracked
        } else if staged && dirty {
            FileState::BothStagedAndUnstaged
        } else if staged {
            FileState::Staged
        } else if dirty {
            FileState::Unstaged
        } else {
            FileState::Clean
        }
    }
}

impl Repo {
    fn file(&mut self, path: &str) -> &mut File {
        self.files.iter_mut().find(|f| f.path == path).unwrap()
    }

    fn status(&self) -> RepoStatus {
        let files = self
            .files
            .iter()
            .filter(|f| f.head.is_some() || f.index.is_some() || f.work.is_some())
            .map(|f| StatusEntry {
                path: f.path.clone(),
                state: f.state(self.mode_only.contains(&f.path)),
            })
            .filter(|e| e.state != FileState::Clean)
            .collect();
        RepoStatus {
            branch: self.current.clone(),
            head_summary: self.commits[0].clone(),
            files,
            tracked_files: self
                .files
                .iter()
                .filter(|f| f.index.is_some())
                .map(|f| f.path.clone())
                .collect(),
        }
    }

    fn diff(&mut self, path: &str, staged: bool) -> FileDiff {
        let f = self.file(path);
        let (old, new) = if staged { (&f.head, &f.index) } else { (&f.index, &f.work) };
        let (old, new) = (old.clone().unwrap_or_default(), new.clone().unwrap_or_default());
        let binary = new.contains('\0');
        FileDiff {
            path: path.to_string(),
            binary,
            hunks: if binary { Vec::new() } else { hunks_of(&old, &new) },
        }
    }

    fn whole_file(&mut self, path: &str) -> FileDiff {
        let text = self.file(path).work.clone().unwrap_or_default();
        FileDiff {
            path: path.to_string(),
            binary: false,
            hunks: vec![Hunk {
                header: "whole file".into(),
                old_start: 1,
                new_start: 1,
                lines: text_lines(&text)
                    .into_iter()
                    .map(|text| DiffLine { kind: LineKind::Context, text })
                    .collect(),
            }],
        }
    }

    fn stage_hunk(&mut self, path: &str, index: usize) {
        let f = self.file(path);
        let old = f.index.clone().unwrap_or_default();
        let new = f.work.clone().unwrap_or_default();
        let diff = TextDiff::from_lines(old.as_str(), new.as_str());
        let chosen: Vec<_> = diff.grouped_ops(3)[index]
            .iter()
            .filter(|op| op.tag() != DiffTag::Equal)
            .cloned()
            .collect();
        let mut text = String::new();
        for op in diff.ops() {
            let take_new = chosen.contains(op);
            for change in diff.iter_changes(op) {
                let keep = match change.tag() {
                    similar::ChangeTag::Equal => true,
                    similar::ChangeTag::Delete => !take_new,
                    similar::ChangeTag::Insert => take_new,
                };
                if keep {
                    text.push_str(change.value());
                }
            }
        }
        f.index = Some(text);
    }

    fn run(&mut self, job: Job) -> JobResult {
        match job {
            Job::RefreshStatus => return JobResult::Status(self.status()),
            Job::ListBranches => {
                return JobResult::Branches(
                    self.branches
                        .iter()
                        .map(|b| BranchInfo {
                            name: b.clone(),
                            is_head: *b == self.current,
                            tip_summary: self.commits[0].clone(),
                        })
                        .collect(),
                )
            }
            Job::ListLog { limit } => {
                return JobResult::Log(
                    self.commits
                        .iter()
                        .take(limit)
                        .map(|c| CommitInfo {
                            id: "0123456".into(),
                            summary: c.clone(),
                            author: "Test User".into(),
                        })
                        .collect(),
                )
            }
            Job::ListStash => {
                return JobResult::Stash(
                    self.stash
                        .iter()
                        .enumerate()
                        .map(|(index, s)| StashEntry { index, message: s.0.clone() })
                        .collect(),
                )
            }
            Job::LoadSync => {
                return JobResult::SyncStatus(SyncStatus {
                    upstream: self.upstream.clone(),
                    ahead: 0,
                    behind: 0,
                    remotes: self.remotes.clone(),
                })
            }
            Job::LoadDiff { path, staged } => return JobResult::Diff(self.diff(&path, staged)),
            Job::LoadFile { path } => return JobResult::Diff(self.whole_file(&path)),
            Job::LoadMarkdown { path, staged } => {
                let text = self.file(&path).work.clone().unwrap_or_default();
                return JobResult::Markdown { path, staged, text };
            }
            Job::StageFile { path } => {
                let f = self.file(&path);
                f.index = f.work.clone();
            }
            Job::UnstageFile { path } => {
                let f = self.file(&path);
                f.index = f.head.clone();
            }
            Job::DiscardFile { path } => {
                let f = self.file(&path);
                f.index = f.head.clone();
                f.work = f.head.clone();
            }
            Job::StageHunk { path, hunk_index } => self.stage_hunk(&path, hunk_index),
            Job::Commit { message } => {
                if self.files.iter().all(|f| f.head == f.index) {
                    return JobResult::Error(GitError::EmptyCommit);
                }
                for f in &mut self.files {
                    f.head = f.index.clone();
                }
                self.commits.insert(0, message);
            }
            Job::CreateBranch { name } => {
                self.branches.push(name);
                self.branches.sort();
            }
            Job::CheckoutBranch { name } => self.current = name,
            Job::DeleteBranch { name } => {
                if name == self.current {
                    return JobResult::Error(GitError::Other(format!(
                        "cannot delete branch {name}: it is checked out"
                    )));
                }
                self.branches.retain(|b| *b != name);
            }
            Job::StashPush { message } => {
                let mut kept = Vec::new();
                for f in &mut self.files {
                    if f.work != f.head {
                        kept.push((f.path.clone(), f.work.clone().unwrap()));
                        f.index = f.head.clone();
                        f.work = f.head.clone();
                    }
                }
                self.stash.insert(0, (format!("On main: {message}"), kept));
            }
            Job::StashPop { index } => {
                let (_, kept) = self.stash.remove(index);
                for (path, text) in kept {
                    self.file(&path).work = Some(text);
                }
            }
            Job::StashDrop { index } => {
                self.stash.remove(index);
            }
            Job::Pull => {
                return JobResult::Error(GitError::Other("no tracking information".into()))
            }
            Job::Push { remote, branch, set_upstream } => {
                if set_upstream {
                    self.upstream = Some(format!("{remote}/{branch}"));
                }
            }
            Job::Publish { remote, url, branch } => {
                self.upstream = Some(format!("{remote}/{branch}"));
                self.remotes.push(remote);
                self.published = Some(url);
            }
            Job::GenerateCommitMessage { .. } => {
                return JobResult::Error(GitError::Other("nothing staged to describe".into()))
            }
        }
        JobResult::MutationDone
    }
}

struct Fixture {
    repo: Repo,
    app: App,
}

impl Fixture {
    /// The waiting jobs are done, and their results come in.
    fn round(&mut self) -> bool {
        let jobs = self.app.queue.take();
        let any = !jobs.is_empty();
        let results: Vec<JobResult> = jobs.into_iter().map(|j| self.repo.run(j)).collect();
        self.app.poll(results);
        any
    }

    /// Rounds until nothing waits.
    fn settle(&mut self) {
        let mut n = 0;
        while self.round() {
            n += 1;
            assert!(n < 50, "jobs never settle: {:?}", self.app.queue);
        }
    }
}

fn fixture(repo: Repo) -> Fixture {
    Fixture { repo, app: App::new() }
}

fn copy_status(st: &RepoStatus) -> RepoStatus {
    RepoStatus {
        branch: st.branch.clone(),
        head_summary: st.head_summary.clone(),
        files: st
            .files
            .iter()
            .map(|e| StatusEntry { path: e.path.clone(), state: e.state })
            .collect(),
        tracked_files: st.tracked_files.clone(),
    }
}

fn copy_diff(d: &FileDiff) -> FileDiff {
    FileDiff {
        path: d.path.clone(),
        binary: d.binary,
        hunks: d
            .hunks
            .iter()
            .map(|h| Hunk {
                header: h.header.clone(),
                old_start: h.old_start,
                new_start: h.new_start,
                lines: h
                    .lines
                    .iter()
                    .map(|l| DiffLine { kind: l.kind, text: l.text.clone() })
                    .collect(),
            })
            .collect(),
    }
}

/// Settle until `pred` holds on the latest status.
fn wait_for(fx: &mut Fixture, mut pred: impl FnMut(&RepoStatus) -> bool) -> RepoStatus {
    for _ in 0..50 {
        if let Some(st) = fx.app.status() {
            if pred(st) {
                let st = copy_status(st);
                return st;
            }
        }
        fx.round();
    }
    panic!("never settled; last: {:?}", fx.app.status());
}

fn wait_for_error(fx: &mut Fixture) -> String {
    for _ in 0..50 {
        if let Some(e) = fx.app.error() {
            return e.to_string();
        }
        fx.round();
    }
    panic!("no error came");
}

/// Repo with each named file committed then dirtied (all Unstaged).
fn harness(names: &[&str]) -> Fixture {
    let mut fx = fixture(Repo {
        files: names.iter().map(|n| committed(n, "base\n", "base\ndirty\n")).collect(),
        ..repo()
    });
    let n = names.len();
    wait_for(&mut fx, |st| st.files.len() == n);
    fx
}

/// Repo with `a.txt` dirtied and `b.txt` left clean.
fn clean_fixture() -> Fixture {
    fixture(Repo {
        files: vec![committed("a.txt", "a\n", "a\ndirty\n"), committed("b.txt", "b\n", "b\n")],
        ..repo()
    })
}

/// Settle until the browsable tree holds `n` entries.
fn wait_for_files(fx: &mut Fixture, n: usize) -> Vec<StatusEntry> {
    fx.settle();
    let list = fx.app.file_list();
    assert_eq!(list.len(), n, "last: {list:?}");
    list.iter().map(|e| StatusEntry { path: e.path.clone(), state: e.state }).collect()
}

/// Move selection to the clean `b.txt` (index 1 in the clean fixture).
fn fx_select(fx: &mut Fixture) {
    fx.app.on_key(KeyCode::Char('j'));
    assert_eq!(fx.app.selected_file().unwrap().path, "b.txt");
}

/// Repo with an `origin` remote that nothing has been pushed to yet.
fn sync_harness() -> Fixture {
    fixture(Repo {
        files: vec![committed("a.txt", "a\n", "a\n")],
        remotes: vec!["origin".into()],
        ..repo()
    })
}

/// Settle until upstream tracking state arrives (preloaded at startup).
fn wait_for_sync(fx: &mut Fixture) {
    fx.settle();
    assert!(fx.app.sync().is_some());
}

/// Two-hunk fixture: 40 lines, changes at line 5 and line 35.
fn two_hunk_fixture() -> Fixture {
    let base = (1..=40).map(|i| format!("line {i}\n")).collect::<String>();
    let dirty = base.replacen("line 5\n", "line 5 CHANGED\n", 1).replacen(
        "line 35\n",
        "line 35 CHANGED\n",
        1,
    );
    let mut fx = fixture(Repo { files: vec![committed("a.txt", &base, &dirty)], ..repo() });
    wait_for(&mut fx, |st| st.files.iter().any(|e| e.path == "a.txt"));
    wait_for_diff(&mut fx, "a.txt");
    fx
}

fn wait_for_diff(fx: &mut Fixture, path: &str) -> FileDiff {
    for _ in 0..50 {
        fx.round();
        if let Some(d) = fx.app.diff() {
            if d.path == path && !d.hunks.is_empty() && fx.app.queue.pending.is_empty() {
                return copy_diff(d);
            }
        }
    }
    panic!("no diff of {path} came");
}

/// A diff as if it had just arrived for its file.
fn set_diff(app: &mut App, diff: FileDiff, staged: bool) {
    app.diff_for = Some((diff.path.clone(), staged));
    app.diff_whole_file = false;
    app.viewer.load(Some(diff));
    app.viewer.rewind();
}

/// One-hunk diff with known text for visual tests: header, a `same`
/// context line, and an old/new pair.
fn visual_diff() -> FileDiff {
    FileDiff {
        path: "a.txt".into(),
        binary: false,
        hunks: vec![Hunk {
            header: "@@ -1,2 +1,2 @@".into(),
            old_start: 1,
            new_start: 1,
            lines: vec![
                DiffLine { kind: LineKind::Context, text: "same".into() },
                DiffLine { kind: LineKind::Del, text: "old".into() },
                DiffLine { kind: LineKind::Add, text: "new".into() },
            ],
        }],
    }
}

fn visual_fixture() -> Fixture {
    let mut fx = harness(&["a.txt"]);
    set_diff(&mut fx.app, visual_diff(), false);
    fx
}

fn wait_for_branches(fx: &mut Fixture, min_count: usize) -> Vec<BranchInfo> {
    fx.settle();
    let b = fx.app.branches().expect("no branches");
    assert!(b.len() >= min_count, "got {b:?}");
    b.iter()
        .map(|b| BranchInfo {
            name: b.name.clone(),
            is_head: b.is_head,
            tip_summary: b.tip_summary.clone(),
        })
        .collect()
}

fn focus_branches(fx: &mut Fixture) {
    fx.app.on_key(KeyCode::Char('2'));
    assert_eq!(fx.app.focus(), Focus::Branches);
}

/// Move branch selection to the named branch (sort-order independent).
fn select_branch(fx: &mut Fixture, name: &str) {
    let branches = wait_for_branches(fx, 1);
    let pos = branches
        .iter()
        .position(|b| b.name == name)
        .unwrap_or_else(|| panic!("branch {name} missing in {branches:?}"));
    while fx.app.branch_selected() < pos {
        fx.app.on_key(KeyCode::Char('j'));
    }
    while fx.app.branch_selected() > pos {
        fx.app.on_key(KeyCode::Char('k'));
    }
}

fn wait_for_log(fx: &mut Fixture, min_count: usize) -> Vec<CommitInfo> {
    fx.settle();
    let entries = fx.app.log().expect("no log");
    assert!(entries.len() >= min_count, "got {entries:?}");
    entries
        .iter()
        .map(|e| CommitInfo {
            id: e.id.clone(),
            summary: e.summary.clone(),
            author: e.author.clone(),
        })
        .collect()
}

fn wait_for_stash(fx: &mut Fixture, count: usize) -> Vec<StashEntry> {
    fx.settle();
    let entries = fx.app.stash().expect("no stash");
    assert_eq!(entries.len(), count, "got {entries:?}");
    entries
        .iter()
        .map(|e| StashEntry { index: e.index, message: e.message.clone() })
        .collect()
}

fn focus_stash(fx: &mut Fixture) {
    fx.app.on_key(KeyCode::Char('4'));
    assert_eq!(fx.app.focus(), Focus::Stash);
}

#[test]
fn left_collapses_only_deepest_parent() {
    let mut fx = harness(&["src/a.rs", "src/nested/b.rs", "z.txt"]);
    fx.app.on_key(KeyCode::Char('j'));
    assert_eq!(fx.app.selected_file().unwrap().path, "src/nested/b.rs");
    fx.app.on_key(KeyCode::Left);
    assert!(
        fx.app.tree.collapsed.contains("src/nested"),
        "deepest parent should collapse"
    );
    assert!(
        !fx.app.tree.collapsed.contains("src"),
        "sibling subtree must stay expanded"
    );
}

#[test]
fn folders_collapse_expand_and_skip_hidden_files() {
    let mut fx = harness(&["src/a.rs", "src/nested/b.rs", "z.txt"]);
    // Left collapses src/; the cursor stays as a hidden anchor so the
    // `▶ src/` header takes the highlight (cursor is on the folder).
    fx.app.on_key(KeyCode::Left);
    assert!(fx.app.tree.collapsed.contains("src"));
    // Down escapes the anchor to the next visible file.
    fx.app.on_key(KeyCode::Down);
    assert_eq!(
        fx.app.selected_file().unwrap().path,
        "z.txt",
        "collapsed src/ must be skipped when moving down"
    );
    // Up from below steps onto the folded header (cursor back on the
    // folder), never showing its hidden files as rows.
    fx.app.on_key(KeyCode::Up);
    assert_eq!(
        fx.app.selected_file().unwrap().path,
        "src/nested/b.rs",
        "moving up must stop on the collapsed header's anchor"
    );
    assert!(
        fx.app.tree.is_hidden_index(fx.app.selected()),
        "anchor must be hidden so the header takes the highlight"
    );
    // Right on the header expands it back.
    fx.app.on_key(KeyCode::Right);
    assert!(
        !fx.app.tree.collapsed.contains("src"),
        "Right on the header must expand it"
    );
    assert_eq!(
        fx.app.selected_file().unwrap().path,
        "src/nested/b.rs",
        "expand restores the anchored file"
    );
    fx.app.on_key(KeyCode::Left);
    assert!(
        fx.app.tree.collapsed.contains("src/nested"),
        "Left collapses the deepest parent"
    );
    fx.app.on_key(KeyCode::Right);
    assert!(
        !fx.app.tree.collapsed.contains("src/nested"),
        "Right on the hidden anchor expands it back"
    );
    assert_eq!(
        fx.app.selected_file().unwrap().path,
        "src/nested/b.rs",
        "expand + collapse + expand restores visibility"
    );
    fx.app.on_key(KeyCode::Enter);
    assert_eq!(fx.app.mode(), Mode::FullDiff);
    fx.app.on_key(KeyCode::Esc);
    fx.app.on_key(KeyCode::Char('j'));
    assert_eq!(fx.app.selected_file().unwrap().path, "z.txt");
}

#[test]
fn finder_reveals_a_file_inside_collapsed_ancestors() {
    let mut fx = harness(&["src/a.rs", "src/nested/b.rs"]);
    // Collapse src/ (both files fold away; the cursor stays anchored).
    fx.app.on_key(KeyCode::Left);
    assert!(fx.app.tree.collapsed.contains("src"));
    fx.app.on_key(KeyCode::Char('/'));
    for c in "b.rs".chars() {
        fx.app.on_key(KeyCode::Char(c));
    }
    fx.app.on_key(KeyCode::Enter);
    assert_eq!(fx.app.selected_file().unwrap().path, "src/nested/b.rs");
    assert!(
        !fx.app.tree.collapsed.contains("src"),
        "jumping to a match must expand its ancestors"
    );
    fx.app.on_key(KeyCode::Down);
    assert_eq!(
        fx.app.selected_file().unwrap().path,
        "src/nested/b.rs",
        "at the end of the list Down clamps"
    );
}

#[test]
fn up_escapes_hidden_anchor_to_nearest_visible() {
    let mut fx = harness(&["src/a.rs", "src/nested/b.rs", "z.txt"]);
    // Move onto b.rs, then collapse its deepest parent: the cursor is
    // now a hidden anchor on the `▶ nested/` header.
    fx.app.on_key(KeyCode::Char('j'));
    assert_eq!(fx.app.selected_file().unwrap().path, "src/nested/b.rs");
    fx.app.on_key(KeyCode::Left);
    assert!(fx.app.tree.collapsed.contains("src/nested"));
    // Up escapes to the nearest visible file above, not into hiding.
    fx.app.on_key(KeyCode::Up);
    assert_eq!(fx.app.selected_file().unwrap().path, "src/a.rs");
    // Down jumps back over the folded region to z.txt.
    fx.app.on_key(KeyCode::Down);
    fx.app.on_key(KeyCode::Down);
    assert_eq!(fx.app.selected_file().unwrap().path, "z.txt");
}

#[test]
fn selection_moves_with_jk_and_clamps() {
    let mut fx = harness(&["a.txt", "b.txt", "c.txt"]);
    assert_eq!(fx.app.selected(), 0);
    fx.app.on_key(KeyCode::Char('j'));
    fx.app.on_key(KeyCode::Char('j'));
    assert_eq!(fx.app.selected(), 2);
    fx.app.on_key(KeyCode::Char('j'));
    assert_eq!(fx.app.selected(), 2, "clamps at end");
    fx.app.on_key(KeyCode::Char('k'));
    assert_eq!(fx.app.selected(), 1);
    fx.app.on_key(KeyCode::Char('k'));
    fx.app.on_key(KeyCode::Char('k'));
    assert_eq!(fx.app.selected(), 0, "clamps at start");
}

#[test]
fn space_on_unstaged_stages_the_file() {
    let mut fx = harness(&["a.txt"]);
    fx.app.on_key(KeyCode::Char(' '));
    let st = wait_for(&mut fx, |st| {
        st.files
            .iter()
            .any(|e| e.path == "a.txt" && e.state == FileState::Staged)
    });
    let entry = st.files.iter().find(|e| e.path == "a.txt").unwrap();
    assert_eq!(entry.state, FileState::Staged);
}

#[test]
fn space_on_staged_unstages_the_file() {
    let mut fx = harness(&["a.txt"]);
    fx.app.on_key(KeyCode::Char(' '));
    wait_for(&mut fx, |st| {
        st.files
            .iter()
            .any(|e| e.path == "a.txt" && e.state == FileState::Staged)
    });
    fx.app.on_key(KeyCode::Char(' '));
    let st = wait_for(&mut fx, |st| {
        st.files
            .iter()
            .any(|e| e.path == "a.txt" && e.state == FileState::Unstaged)
    });
    let entry = st.files.iter().find(|e| e.path == "a.txt").unwrap();
    assert_eq!(entry.state, FileState::Unstaged);
}

#[test]
fn space_on_collapsed_dir_stages_everything_under_it() {
    let mut fx = harness(&["src/a.rs", "src/nested/b.rs", "z.txt"]);
    // Collapse src/; the cursor stays on hidden src/a.rs, so the
    // header takes the highlight and Space acts on the whole dir.
    fx.app.on_key(KeyCode::Left);
    assert_eq!(fx.app.selected_file().unwrap().path, "src/a.rs");
    fx.app.on_key(KeyCode::Char(' '));
    let st = wait_for(&mut fx, |st| {
        let under: Vec<_> = st
            .files
            .iter()
            .filter(|e| e.path.starts_with("src/"))
            .collect();
        under.len() == 2 && under.iter().all(|e| e.state == FileState::Staged)
    });
    let outside = st.files.iter().find(|e| e.path == "z.txt").unwrap();
    assert_eq!(
        outside.state,
        FileState::Unstaged,
        "files outside the dir must be left alone"
    );
}

#[test]
fn cursor_stops_on_open_folder_headers_both_ways() {
    // Rows: ▼ src/, a.rs, ▼ nested/, b.rs, c.rs, z.txt
    let mut fx = harness(&["src/a.rs", "src/nested/b.rs", "src/nested/c.rs", "z.txt"]);
    assert_eq!(fx.app.selected_file().unwrap().path, "src/a.rs");
    assert_eq!(fx.app.tree.open_dir().as_deref(), None);
    // Down from a.rs stops on the open `nested/` header, previewing
    // its first file.
    fx.app.on_key(KeyCode::Down);
    assert_eq!(fx.app.tree.open_dir().as_deref(), Some("src/nested"));
    assert_eq!(fx.app.selected_file().unwrap().path, "src/nested/b.rs");
    // Down again enters the folder.
    fx.app.on_key(KeyCode::Down);
    assert_eq!(fx.app.tree.open_dir().as_deref(), None);
    assert_eq!(fx.app.selected_file().unwrap().path, "src/nested/b.rs");
    // Up goes back onto the header, then a.rs, then the top `src/`.
    fx.app.on_key(KeyCode::Up);
    assert_eq!(fx.app.tree.open_dir().as_deref(), Some("src/nested"));
    fx.app.on_key(KeyCode::Up);
    assert_eq!(fx.app.tree.open_dir().as_deref(), None);
    assert_eq!(fx.app.selected_file().unwrap().path, "src/a.rs");
    fx.app.on_key(KeyCode::Up);
    assert_eq!(fx.app.tree.open_dir().as_deref(), Some("src"));
    assert_eq!(fx.app.selected_file().unwrap().path, "src/a.rs");
    // Clamps at the top.
    fx.app.on_key(KeyCode::Up);
    assert_eq!(fx.app.tree.open_dir().as_deref(), Some("src"));
}

#[test]
fn space_on_open_folder_header_stages_only_that_folder() {
    let mut fx = harness(&["src/a.rs", "src/nested/b.rs", "src/nested/c.rs", "z.txt"]);
    fx.app.on_key(KeyCode::Down);
    assert_eq!(fx.app.tree.open_dir().as_deref(), Some("src/nested"));
    fx.app.on_key(KeyCode::Char(' '));
    let st = wait_for(&mut fx, |st| {
        st.files
            .iter()
            .filter(|e| e.path.starts_with("src/nested/"))
            .all(|e| e.state == FileState::Staged)
    });
    for outside in ["src/a.rs", "z.txt"] {
        let e = st.files.iter().find(|e| e.path == outside).unwrap();
        assert_eq!(e.state, FileState::Unstaged, "{outside} must be left alone");
    }
    // The folder stays open and the cursor stays on its header, so a
    // second Space unstages it again.
    assert!(!fx.app.tree.collapsed.contains("src/nested"));
    assert_eq!(fx.app.tree.open_dir().as_deref(), Some("src/nested"));
    fx.app.on_key(KeyCode::Char(' '));
    wait_for(&mut fx, |st| {
        st.files
            .iter()
            .filter(|e| e.path.starts_with("src/nested/"))
            .all(|e| e.state == FileState::Unstaged)
    });
}

#[test]
fn left_on_open_header_folds_it_and_right_leaves_it_open() {
    let mut fx = harness(&["src/a.rs", "src/nested/b.rs", "z.txt"]);
    fx.app.on_key(KeyCode::Up);
    assert_eq!(fx.app.tree.open_dir().as_deref(), Some("src"));
    // Right on an already-open header changes nothing.
    fx.app.on_key(KeyCode::Right);
    assert!(!fx.app.tree.collapsed.contains("src") && !fx.app.tree.collapsed.contains("src/nested"));
    assert_eq!(fx.app.tree.open_dir().as_deref(), Some("src"));
    // Left folds exactly that folder (not the file's deepest parent);
    // the cursor stays on the now-collapsed header.
    fx.app.on_key(KeyCode::Left);
    assert!(fx.app.tree.collapsed.contains("src"));
    assert!(!fx.app.tree.collapsed.contains("src/nested"));
    assert!(fx.app.tree.is_hidden_index(fx.app.selected()));
    // Right re-opens it.
    fx.app.on_key(KeyCode::Right);
    assert!(!fx.app.tree.collapsed.contains("src"));
}

#[test]
fn space_on_collapsed_dir_unstages_when_everything_staged() {
    let mut fx = harness(&["src/a.rs", "src/nested/b.rs"]);
    fx.app.on_key(KeyCode::Left);
    fx.app.on_key(KeyCode::Char(' '));
    wait_for(&mut fx, |st| {
        st.files.len() == 2 && st.files.iter().all(|e| e.state == FileState::Staged)
    });
    // Everything under src/ is staged, so Space unstages the whole dir.
    fx.app.on_key(KeyCode::Char(' '));
    let st = wait_for(&mut fx, |st| {
        st.files.len() == 2 && st.files.iter().all(|e| e.state == FileState::Unstaged)
    });
    assert!(
        st.files.iter().all(|e| e.state == FileState::Unstaged),
        "got: {:?}",
        st.files
    );
}

#[test]
fn space_on_collapsed_dir_with_conflict_reports_error() {
    let mut fx = harness(&[]);
    fx.app.status = Some(RepoStatus {
        branch: "main".into(),
        head_summary: "x".into(),
        files: vec![
            StatusEntry {
                path: "src/a.rs".into(),
                state: FileState::Unstaged,
            },
            StatusEntry {
                path: "src/b.rs".into(),
                state: FileState::Conflicted,
            },
        ],
        tracked_files: vec!["src/a.rs".into(), "src/b.rs".into()],
    });
    fx.app.tree.rebuild(&fx.app.status);
    fx.app.tree.set_collapsed("src", true);
    fx.app.on_key(KeyCode::Char(' '));
    let err = fx.app.error().expect("expected conflict error");
    assert!(err.contains("conflicted"), "got: {err}");
    assert!(err.contains("src/b.rs"), "got: {err}");
}

#[test]
fn space_on_collapsed_dir_with_nothing_to_stage_reports_error() {
    let mut fx = harness(&[]);
    fx.app.status = Some(RepoStatus {
        branch: "main".into(),
        head_summary: "x".into(),
        files: vec![],
        tracked_files: vec!["src/a.rs".into()],
    });
    fx.app.tree.rebuild(&fx.app.status);
    fx.app.tree.set_collapsed("src", true);
    fx.app.on_key(KeyCode::Char(' '));
    let err = fx.app.error().expect("expected nothing-to-stage error");
    assert!(err.contains("under src/"), "got: {err}");
}

#[test]
fn space_with_no_files_does_nothing() {
    let mut fx = harness(&[]);
    fx.app.on_key(KeyCode::Char(' '));
    assert!(fx.app.error().is_none());
    assert_eq!(fx.app.selected(), 0);
}

#[test]
fn d_on_unstaged_discards_the_file() {
    let mut fx = harness(&["a.txt"]);
    fx.app.on_key(KeyCode::Char('d'));
    let st = wait_for(&mut fx, |st| st.files.iter().all(|e| e.path != "a.txt"));
    assert!(
        st.files.iter().all(|e| e.path != "a.txt"),
        "got: {:?}",
        st.files
    );
}

#[test]
fn d_on_staged_discards_index_and_workdir_changes() {
    let mut fx = harness(&["a.txt"]);
    fx.app.on_key(KeyCode::Char(' '));
    wait_for(&mut fx, |st| {
        st.files
            .iter()
            .any(|e| e.path == "a.txt" && e.state == FileState::Staged)
    });
    fx.app.on_key(KeyCode::Char('d'));
    let st = wait_for(&mut fx, |st| st.files.iter().all(|e| e.path != "a.txt"));
    assert!(
        st.files.iter().all(|e| e.path != "a.txt"),
        "got: {:?}",
        st.files
    );
}

#[test]
fn d_on_clean_file_reports_error() {
    let mut fx = harness(&[]);
    fx.app.status = Some(RepoStatus {
        branch: "main".into(),
        head_summary: "x".into(),
        files: vec![],
        tracked_files: vec!["a.txt".into()],
    });
    fx.app.tree.rebuild(&fx.app.status);
    assert_eq!(fx.app.selected_file().unwrap().path, "a.txt");
    fx.app.on_key(KeyCode::Char('d'));
    let err = fx.app.error().expect("expected nothing-to-discard error");
    assert!(err.contains("nothing to discard"), "got: {err}");
}

#[test]
fn d_on_collapsed_dir_discards_everything_under_it() {
    let mut fx = harness(&["src/a.rs", "src/nested/b.rs", "z.txt"]);
    // Collapse src/; the cursor stays on hidden src/a.rs, so the
    // header takes the highlight and `d` acts on the whole dir.
    fx.app.on_key(KeyCode::Left);
    assert_eq!(fx.app.selected_file().unwrap().path, "src/a.rs");
    fx.app.on_key(KeyCode::Char('d'));
    let st = wait_for(&mut fx, |st| {
        st.files.iter().all(|e| !e.path.starts_with("src/"))
    });
    let outside = st.files.iter().find(|e| e.path == "z.txt").unwrap();
    assert_eq!(
        outside.state,
        FileState::Unstaged,
        "files outside the dir must be left alone"
    );
}

#[test]
fn d_in_fullscreen_discards_the_loaded_file() {
    let mut fx = harness(&["a.txt"]);
    fx.app.on_key(KeyCode::Enter);
    assert_eq!(fx.app.mode(), Mode::FullDiff);
    fx.app.on_key(KeyCode::Char('d'));
    wait_for(&mut fx, |st| st.files.iter().all(|e| e.path != "a.txt"));
}

#[test]
fn enter_with_no_files_does_not_open_fullscreen() {
    let mut fx = harness(&[]);
    fx.app.on_key(KeyCode::Enter);
    assert_eq!(fx.app.mode(), Mode::Normal);
}

#[test]
fn space_on_conflicted_reports_error() {
    let mut fx = harness(&[]);
    fx.app.status = Some(RepoStatus {
        branch: "main".into(),
        head_summary: "x".into(),
        files: vec![StatusEntry {
            path: "a.txt".into(),
            state: FileState::Conflicted,
        }],
        tracked_files: vec!["a.txt".into()],
    });
    fx.app.tree.rebuild(&fx.app.status);
    fx.app.on_key(KeyCode::Char(' '));
    assert!(fx.app.error().is_some(), "expected conflict error");
}

#[test]
fn c_opens_modal_esc_cancels() {
    let mut fx = harness(&["a.txt"]);
    assert_eq!(fx.app.mode(), Mode::Normal);
    fx.app.on_key(KeyCode::Char('c'));
    assert_eq!(fx.app.mode(), Mode::Committing);
    fx.app.on_key(KeyCode::Char('x'));
    assert_eq!(fx.app.draft(), "x");
    fx.app.on_key(KeyCode::Esc);
    assert_eq!(fx.app.mode(), Mode::Normal);
    assert_eq!(fx.app.draft(), "");
}

#[test]
fn enter_in_modal_commits_and_returns_to_normal() {
    let mut fx = harness(&["a.txt"]);
    fx.app.on_key(KeyCode::Char(' '));
    wait_for(&mut fx, |st| {
        st.files
            .iter()
            .any(|e| e.path == "a.txt" && e.state == FileState::Staged)
    });
    fx.app.on_key(KeyCode::Char('c'));
    for c in "my commit".chars() {
        fx.app.on_key(KeyCode::Char(c));
    }
    fx.app.on_key(KeyCode::Enter);
    assert_eq!(fx.app.mode(), Mode::Normal);
    let st = wait_for(&mut fx, |st| st.files.is_empty());
    assert_eq!(st.head_summary, "my commit");
}

#[test]
fn enter_with_empty_message_does_not_submit() {
    let mut fx = harness(&["a.txt"]);
    fx.app.on_key(KeyCode::Char('c'));
    fx.app.on_key(KeyCode::Enter);
    assert_eq!(fx.app.mode(), Mode::Committing, "stays in modal");
}

#[test]
fn commit_message_edits_mid_text_with_cursor() {
    let mut fx = harness(&["a.txt"]);
    fx.app.on_key(KeyCode::Char('c'));
    for c in "hello".chars() {
        fx.app.on_key(KeyCode::Char(c));
    }
    assert_eq!(fx.app.draft_cursor(), 5);
    fx.app.on_key(KeyCode::Left);
    fx.app.on_key(KeyCode::Left);
    assert_eq!(fx.app.draft_cursor(), 3);
    // Backspace deletes before the cursor: "hello" -> "helo".
    fx.app.on_key(KeyCode::Backspace);
    assert_eq!(fx.app.draft(), "helo");
    assert_eq!(fx.app.draft_cursor(), 2);
    // Typing inserts at the cursor: "helo" -> "heXlo".
    fx.app.on_key(KeyCode::Char('X'));
    assert_eq!(fx.app.draft(), "heXlo");
    assert_eq!(fx.app.draft_cursor(), 3);
    // Delete removes under the cursor: "heXlo" -> "heXo".
    fx.app.on_key(KeyCode::Delete);
    assert_eq!(fx.app.draft(), "heXo");
    // Home/End jump; typing at the front and back works.
    fx.app.on_key(KeyCode::Home);
    fx.app.on_key(KeyCode::Char('!'));
    assert_eq!(fx.app.draft(), "!heXo");
    fx.app.on_key(KeyCode::End);
    fx.app.on_key(KeyCode::Char('?'));
    assert_eq!(fx.app.draft(), "!heXo?");
    assert_eq!(fx.app.draft_cursor(), 6);
}

#[test]
fn commit_cursor_clamps_at_both_ends() {
    let mut fx = harness(&["a.txt"]);
    fx.app.on_key(KeyCode::Char('c'));
    fx.app.on_key(KeyCode::Char('a'));
    fx.app.on_key(KeyCode::Left);
    fx.app.on_key(KeyCode::Left);
    assert_eq!(fx.app.draft_cursor(), 0, "clamps at start");
    fx.app.on_key(KeyCode::Backspace);
    assert_eq!(fx.app.draft(), "a", "nothing to delete at start");
    fx.app.on_key(KeyCode::Right);
    fx.app.on_key(KeyCode::Right);
    assert_eq!(fx.app.draft_cursor(), 1, "clamps at end");
    fx.app.on_key(KeyCode::Delete);
    assert_eq!(fx.app.draft(), "a", "nothing to delete at end");
}

#[test]
fn commit_box_up_down_moves_between_visual_rows() {
    let mut fx = harness(&["a.txt"]);
    fx.app.on_key(KeyCode::Char('c'));
    for c in "subject".chars() {
        fx.app.on_key(KeyCode::Char(c));
    }
    fx.app.push_draft_char('\n');
    for c in "body".chars() {
        fx.app.on_key(KeyCode::Char(c));
    }
    assert_eq!(fx.app.draft(), "subject\nbody");
    assert_eq!(fx.app.draft_cursor(), 12);
    // Up keeps the display column (end of "body" → col 4 in "subject").
    fx.app.on_key(KeyCode::Up);
    assert_eq!(fx.app.draft_cursor(), 4);
    // Up past the first row clamps to the document start.
    fx.app.on_key(KeyCode::Up);
    assert_eq!(fx.app.draft_cursor(), 0);
    // Down preserves the column into the next row.
    fx.app.on_key(KeyCode::Down);
    assert_eq!(fx.app.draft_cursor(), 8);
    // Down past the last row jumps to the very end.
    fx.app.on_key(KeyCode::Down);
    assert_eq!(fx.app.draft_cursor(), 12);
    // Enter still commits a multi-line message.
    fx.app.on_key(KeyCode::Enter);
    assert_eq!(fx.app.mode(), Mode::Normal);
}

#[test]
fn commit_box_up_down_follows_soft_wrapped_rows() {
    let mut fx = harness(&["a.txt"]);
    // Narrow wrap so a single hard line becomes several visual rows.
    fx.app.draft.wrap_width = 5;
    fx.app.on_key(KeyCode::Char('c'));
    for c in "hello world".chars() {
        fx.app.on_key(KeyCode::Char(c));
    }
    assert_eq!(fx.app.draft_cursor(), 11);
    // Rows are "hello" / " worl" / "d": end-of-doc col is 1 ("d"), so
    // up lands at col 1 of the previous row (index 6, after the space).
    fx.app.on_key(KeyCode::Up);
    assert_eq!(
        fx.app.draft_cursor(),
        6,
        "same display col on prev visual row"
    );
    fx.app.on_key(KeyCode::Down);
    assert_eq!(fx.app.draft_cursor(), 11, "back to end on the last row");
    fx.app.on_key(KeyCode::Down);
    assert_eq!(fx.app.draft_cursor(), 11, "clamps at document end");
    // From the document start, down walks visual rows without jumping
    // to the end of the hard line.
    fx.app.on_key(KeyCode::Home);
    assert_eq!(fx.app.draft_cursor(), 0);
    fx.app.on_key(KeyCode::Down);
    assert_eq!(fx.app.draft_cursor(), 5, "start of second visual row");
}

#[test]
fn empty_commit_shows_notice_and_stays_open() {
    let mut fx = harness(&["a.txt"]);
    fx.app.on_key(KeyCode::Char('c'));
    fx.app.on_key(KeyCode::Enter);
    assert_eq!(fx.app.mode(), Mode::Committing, "box stays open");
    let notice = fx.app.notice().unwrap_or("");
    assert!(
        notice.contains("type a commit message"),
        "expected empty-draft notice, got: {notice:?}"
    );
    assert!(fx.app.error().is_none());
}

#[test]
fn enter_while_generating_is_ignored_with_notice() {
    let mut fx = harness(&["a.txt"]);
    fx.app.on_key(KeyCode::Char('c'));
    fx.app.generating = true;
    for c in "wip".chars() {
        fx.app.on_key(KeyCode::Char(c));
    }
    fx.app.on_key(KeyCode::Enter);
    assert_eq!(
        fx.app.mode(),
        Mode::Committing,
        "must not commit mid-generation"
    );
    assert_eq!(fx.app.draft(), "wip");
    let notice = fx.app.notice().unwrap_or("");
    assert!(notice.contains("generating"), "got: {notice:?}");
}

#[test]
fn failing_job_surfaces_error_display() {
    let mut fx = harness(&["a.txt"]);
    // Commit with nothing staged -> EmptyCommit error via worker.
    fx.app.on_key(KeyCode::Char('c'));
    for c in "nothing".chars() {
        fx.app.on_key(KeyCode::Char(c));
    }
    fx.app.on_key(KeyCode::Enter);
    let err = wait_for_error(&mut fx);
    assert!(err.contains("nothing to commit"), "got: {err}");
}

#[test]
fn empty_commit_error_tells_user_to_stage_first_and_clears_on_next_action() {
    let mut fx = harness(&["a.txt"]);
    fx.app.on_key(KeyCode::Char('c'));
    for c in "oops".chars() {
        fx.app.on_key(KeyCode::Char(c));
    }
    fx.app.on_key(KeyCode::Enter);
    let err = wait_for_error(&mut fx);
    assert!(err.contains("nothing to commit"), "got: {err}");
    assert!(err.contains("space"), "should hint at staging, got: {err}");
    // A new action dismisses the stale error.
    fx.app.on_key(KeyCode::Char('j'));
    assert!(fx.app.error().is_none());
}

#[test]
fn right_arrow_no_longer_leaves_the_file_list_enter_opens_fullscreen() {
    let mut fx = harness(&["a.txt"]);
    assert_eq!(fx.app.focus(), Focus::Status);
    // Vertical-only navigation: Right does nothing now.
    fx.app.on_key(KeyCode::Right);
    assert_eq!(fx.app.focus(), Focus::Status);
    assert_eq!(fx.app.mode(), Mode::Normal);
    // Enter opens the file fullscreen; Esc closes back.
    fx.app.on_key(KeyCode::Enter);
    assert_eq!(fx.app.mode(), Mode::FullDiff);
    fx.app.on_key(KeyCode::Esc);
    assert_eq!(fx.app.mode(), Mode::Normal);
    // Left still jumps back to the file list.
    fx.app.on_key(KeyCode::Char('2'));
    assert_eq!(fx.app.focus(), Focus::Branches);
    fx.app.on_key(KeyCode::Left);
    assert_eq!(fx.app.focus(), Focus::Status);
}

#[test]
fn up_down_arrows_scroll_diff_line_by_line_without_moving_hunk() {
    let mut fx = two_hunk_fixture();
    fx.app.on_key(KeyCode::Enter);
    assert_eq!(fx.app.mode(), Mode::FullDiff);
    assert_eq!(fx.app.diff_scroll(), 0);
    fx.app.on_key(KeyCode::Down);
    assert_eq!(fx.app.diff_scroll(), 1);
    assert_eq!(
        fx.app.hunk(),
        0,
        "arrow scroll must not move hunk selection"
    );
    fx.app.on_key(KeyCode::Down);
    assert_eq!(fx.app.diff_scroll(), 2);
    fx.app.on_key(KeyCode::Up);
    assert_eq!(fx.app.diff_scroll(), 1);
    // J/K jump by hunk (and snap scroll to the hunk top).
    fx.app.on_key(KeyCode::Char('J'));
    assert_eq!(fx.app.hunk(), 1);
    assert!(fx.app.diff_scroll() > 1);
}

#[test]
fn clean_tracked_files_join_the_tree_after_changed_ones() {
    let mut fx = clean_fixture();
    let list = wait_for_files(&mut fx, 2);
    assert_eq!(list[0].path, "a.txt");
    assert_eq!(list[0].state, FileState::Unstaged);
    assert_eq!(list[1].path, "b.txt");
    assert_eq!(list[1].state, FileState::Clean);
}

#[test]
fn enter_on_clean_file_loads_whole_file() {
    let mut fx = clean_fixture();
    wait_for_files(&mut fx, 2);
    fx_select(&mut fx);
    let d = wait_for_diff(&mut fx, "b.txt");
    assert!(fx.app.diff_whole_file());
    let texts: Vec<&str> = d
        .hunks
        .iter()
        .flat_map(|h| h.lines.iter())
        .map(|l| l.text.as_str())
        .collect();
    assert_eq!(texts, vec!["b"]);
    assert!(d
        .hunks
        .iter()
        .flat_map(|h| h.lines.iter())
        .all(|l| l.kind == LineKind::Context));
}

#[test]
fn space_on_clean_file_reports_error() {
    let mut fx = clean_fixture();
    wait_for_files(&mut fx, 2);
    fx_select(&mut fx);
    fx.app.on_key(KeyCode::Char(' '));
    let err = fx.app.error().unwrap_or("").to_string();
    assert!(err.contains("unchanged"), "got: {err}");
}

#[test]
fn space_on_whole_file_hunk_errors_instead_of_staging() {
    let mut fx = clean_fixture();
    wait_for_files(&mut fx, 2);
    fx_select(&mut fx);
    fx.app.on_key(KeyCode::Enter);
    assert_eq!(fx.app.mode(), Mode::FullDiff);
    wait_for_diff(&mut fx, "b.txt");
    fx.app.on_key(KeyCode::Char(' '));
    let err = fx.app.error().unwrap_or("").to_string();
    assert!(err.contains("nothing to stage"), "got: {err}");
}

#[test]
fn enter_on_changed_file_shows_diff_automatically() {
    let mut fx = harness(&["a.txt"]);
    // Changed file: the loaded view is the diff, not the whole file.
    let d = wait_for_diff(&mut fx, "a.txt");
    assert!(!fx.app.diff_whole_file());
    assert!(!d.hunks.is_empty());
    // Fullscreen shows that same diff.
    fx.app.on_key(KeyCode::Enter);
    assert_eq!(fx.app.mode(), Mode::FullDiff);
    assert!(!fx.app.diff_whole_file());
    assert_eq!(fx.app.diff().unwrap().path, "a.txt");
}

#[test]
fn enter_on_clean_file_shows_whole_file_automatically() {
    let mut fx = clean_fixture();
    wait_for_files(&mut fx, 2);
    fx_select(&mut fx);
    // No changes: whole workdir file loads on its own.
    let d = wait_for_diff(&mut fx, "b.txt");
    assert!(fx.app.diff_whole_file());
    assert!(d
        .hunks
        .iter()
        .flat_map(|h| h.lines.iter())
        .all(|l| { l.kind == LineKind::Context }));
    // Fullscreen shows that same whole-file view.
    fx.app.on_key(KeyCode::Enter);
    assert_eq!(fx.app.mode(), Mode::FullDiff);
    assert!(fx.app.diff_whole_file());
    assert_eq!(fx.app.diff().unwrap().path, "b.txt");
}

#[test]
fn q_in_modal_types_literal_and_quits_after_esc() {
    let mut fx = harness(&["a.txt"]);
    fx.app.on_key(KeyCode::Char('c'));
    fx.app.on_key(KeyCode::Char('q'));
    assert!(!fx.app.should_quit());
    assert_eq!(fx.app.draft(), "q");
    fx.app.on_key(KeyCode::Char('Q'));
    assert!(!fx.app.should_quit(), "Q in modal must type, not quit");
    assert_eq!(fx.app.draft(), "qQ");
    fx.app.on_key(KeyCode::Esc);
    // Lowercase `q` no longer quits the app (workspace closes the
    // project instead); uppercase `Q` quits everything.
    fx.app.on_key(KeyCode::Char('q'));
    assert!(!fx.app.should_quit());
    fx.app.on_key(KeyCode::Char('Q'));
    assert!(fx.app.should_quit());
}

#[test]
fn p_pull_failure_surfaces_error_and_clears_syncing() {
    // Harness repos have no remote (and dirty files, so `git pull`
    // fails one way or another depending on the user's pull config).
    // What matters: the failure lands in the error line and the
    // "pulling…" indicator clears instead of sticking forever.
    let mut fx = harness(&["a.txt"]);
    fx.app.on_key(KeyCode::Char('p'));
    assert_eq!(fx.app.syncing(), Some("pulling…"));
    let err = wait_for_error(&mut fx);
    assert!(!err.is_empty(), "expected a pull failure message");
    assert!(fx.app.syncing().is_none());
}

#[test]
fn esc_in_sync_modal_returns_without_syncing() {
    let mut fx = sync_harness();
    wait_for_sync(&mut fx);
    fx.app.on_key(KeyCode::Char('P'));
    assert_eq!(fx.app.mode(), Mode::SetUpstream);
    fx.app.on_key(KeyCode::Esc);
    assert_eq!(fx.app.mode(), Mode::Normal);
    assert!(fx.app.syncing().is_none());
    assert!(fx.app.sync().unwrap().upstream.is_none());
}

#[test]
fn sync_modal_from_fullscreen_returns_to_fullscreen() {
    let mut fx = harness(&["a.txt"]);
    fx.app.on_key(KeyCode::Enter);
    assert_eq!(fx.app.mode(), Mode::FullDiff);
    // Harness repos have no remotes: `P` opens the publish modal.
    fx.app.on_key(KeyCode::Char('P'));
    assert_eq!(fx.app.mode(), Mode::SetRemote);
    fx.app.on_key(KeyCode::Esc);
    assert_eq!(fx.app.mode(), Mode::FullDiff);
}

#[test]
fn enter_esc_then_walk_files_in_both_directions() {
    let mut fx = harness(&["a.txt", "b.txt", "c.txt"]);
    fx.app.on_key(KeyCode::Enter);
    assert_eq!(fx.app.mode(), Mode::FullDiff);
    fx.app.on_key(KeyCode::Esc);
    assert_eq!(fx.app.mode(), Mode::Normal);
    for expected in ["b.txt", "c.txt"] {
        fx.app.on_key(KeyCode::Char('j'));
        assert_eq!(
            fx.app.selected_file().unwrap().path,
            expected,
            "down-walk broke after Esc"
        );
    }
    for expected in ["b.txt", "a.txt"] {
        fx.app.on_key(KeyCode::Char('k'));
        assert_eq!(
            fx.app.selected_file().unwrap().path,
            expected,
            "up-walk broke after Esc"
        );
    }
    // The preview must follow the cursor again too.
    let d = wait_for_diff(&mut fx, "a.txt");
    assert_eq!(d.path, "a.txt");
}

#[test]
fn slash_opens_finder_and_esc_cancels() {
    let mut fx = harness(&["a.txt"]);
    fx.app.on_key(KeyCode::Char('/'));
    assert_eq!(fx.app.mode(), Mode::FindFile);
    assert_eq!(fx.app.draft(), "");
    fx.app.on_key(KeyCode::Esc);
    assert_eq!(fx.app.mode(), Mode::Normal);
}

#[test]
fn finder_typing_filters_and_enter_jumps_to_match() {
    let mut fx = harness(&["a.txt", "b.txt"]);
    fx.app.on_key(KeyCode::Char('/'));
    for c in "b".chars() {
        fx.app.on_key(KeyCode::Char(c));
    }
    assert_eq!(fx.app.finder_matches(), vec![1]);
    fx.app.on_key(KeyCode::Enter);
    assert_eq!(fx.app.mode(), Mode::Normal);
    assert_eq!(fx.app.focus(), Focus::Status);
    assert_eq!(fx.app.selected(), 1);
    assert_eq!(fx.app.selected_file().unwrap().path, "b.txt");
}

#[test]
fn finder_arrows_move_and_clamp() {
    let mut fx = harness(&["a.txt", "b.txt", "c.txt"]);
    fx.app.on_key(KeyCode::Char('/'));
    assert_eq!(fx.app.finder_matches().len(), 3);
    fx.app.on_key(KeyCode::Down);
    fx.app.on_key(KeyCode::Down);
    assert_eq!(fx.app.finder_cursor(), 2);
    fx.app.on_key(KeyCode::Down);
    assert_eq!(fx.app.finder_cursor(), 2, "clamps at end");
    fx.app.on_key(KeyCode::Up);
    assert_eq!(fx.app.finder_cursor(), 1);
}

#[test]
fn finder_enter_with_no_matches_stays_open() {
    let mut fx = harness(&["a.txt"]);
    fx.app.on_key(KeyCode::Char('/'));
    for c in "zzz".chars() {
        fx.app.on_key(KeyCode::Char(c));
    }
    assert!(fx.app.finder_matches().is_empty());
    fx.app.on_key(KeyCode::Enter);
    assert_eq!(fx.app.mode(), Mode::FindFile);
}

#[test]
fn slash_in_fullscreen_opens_finder_and_esc_returns_to_fullscreen() {
    let mut fx = harness(&["a.txt", "b.txt"]);
    fx.app.on_key(KeyCode::Enter);
    assert_eq!(fx.app.mode(), Mode::FullDiff);
    fx.app.on_key(KeyCode::Char('/'));
    assert_eq!(fx.app.mode(), Mode::FindFile);
    fx.app.on_key(KeyCode::Esc);
    assert_eq!(fx.app.mode(), Mode::FullDiff);
}

#[test]
fn finder_enter_in_fullscreen_jumps_to_match_and_stays_fullscreen() {
    let mut fx = harness(&["a.txt", "b.txt"]);
    fx.app.on_key(KeyCode::Enter);
    assert_eq!(fx.app.mode(), Mode::FullDiff);
    fx.app.on_key(KeyCode::Char('/'));
    for c in "b".chars() {
        fx.app.on_key(KeyCode::Char(c));
    }
    assert_eq!(fx.app.finder_matches(), vec![1]);
    fx.app.on_key(KeyCode::Enter);
    assert_eq!(fx.app.mode(), Mode::FullDiff);
    assert_eq!(fx.app.selected_file().unwrap().path, "b.txt");
    let d = wait_for_diff(&mut fx, "b.txt");
    assert_eq!(d.path, "b.txt");
}

#[test]
fn tab_cycles_focus_through_all_panels() {
    let mut fx = harness(&["a.txt"]);
    assert_eq!(fx.app.focus(), Focus::Status);
    fx.app.on_key(KeyCode::Tab);
    assert_eq!(fx.app.focus(), Focus::Branches);
    fx.app.on_key(KeyCode::Tab);
    assert_eq!(fx.app.focus(), Focus::Log);
    fx.app.on_key(KeyCode::Tab);
    assert_eq!(fx.app.focus(), Focus::Stash);
    // Tab skips the right-side Diff preview: Stash wraps to Status.
    fx.app.on_key(KeyCode::Tab);
    assert_eq!(fx.app.focus(), Focus::Status);
    // Diff is reached via `5` / Shift+Right, not via Tab.
    fx.app.on_key(KeyCode::Char('4'));
    assert_eq!(fx.app.focus(), Focus::Stash);
    fx.app.on_key(KeyCode::Char('3'));
    assert_eq!(fx.app.focus(), Focus::Log);
    fx.app.on_key(KeyCode::Char('2'));
    assert_eq!(fx.app.focus(), Focus::Branches);
    fx.app.on_key(KeyCode::Char('1'));
    assert_eq!(fx.app.focus(), Focus::Status);
    fx.app.on_key(KeyCode::Char('5'));
    assert_eq!(fx.app.focus(), Focus::Diff);
    // Tab from Diff drops back to the file list.
    fx.app.on_key(KeyCode::Tab);
    assert_eq!(fx.app.focus(), Focus::Status);
}

#[test]
fn shift_right_from_files_focuses_diff_preview() {
    let mut fx = harness(&["a.txt"]);
    assert_eq!(fx.app.focus(), Focus::Status);
    // Plain Right expands folders and must stay in the file list.
    fx.app.on_key(KeyCode::Right);
    assert_eq!(fx.app.focus(), Focus::Status);
    // Shift+Right jumps to the right-side diff tab.
    fx.app.on_key_with_modifiers(KeyCode::Right, true);
    assert_eq!(fx.app.focus(), Focus::Diff);
    // Shift+Left (Left already owns focus_status) jumps back.
    fx.app.on_key_with_modifiers(KeyCode::Left, true);
    assert_eq!(fx.app.focus(), Focus::Status);
}

#[test]
fn diff_focus_scrolls_preview_without_moving_selection() {
    let mut fx = two_hunk_fixture();
    assert_eq!(fx.app.focus(), Focus::Status);
    fx.app.on_key(KeyCode::Char('5'));
    assert_eq!(fx.app.focus(), Focus::Diff);
    let sel = fx.app.selected();
    assert_eq!(fx.app.diff_scroll(), 0);
    fx.app.on_key(KeyCode::Char('j'));
    assert_eq!(fx.app.diff_scroll(), 1);
    assert_eq!(fx.app.selected(), sel, "file cursor must not move");
    fx.app.on_key(KeyCode::Down);
    assert_eq!(fx.app.diff_scroll(), 2);
    fx.app.on_key(KeyCode::Char('k'));
    assert_eq!(fx.app.diff_scroll(), 1);
    // Left jumps back to the file list (focus_status owns Left).
    fx.app.on_key(KeyCode::Left);
    assert_eq!(fx.app.focus(), Focus::Status);
    // Enter from the preview opens fullscreen too.
    fx.app.on_key(KeyCode::Char('5'));
    fx.app.on_key(KeyCode::Enter);
    assert_eq!(fx.app.mode(), Mode::FullDiff);
}

#[test]
fn diff_preview_scroll_clamps_at_content_end() {
    let mut fx = two_hunk_fixture();
    fx.app.on_key(KeyCode::Char('5'));
    assert_eq!(fx.app.focus(), Focus::Diff);
    let max = rows_unified_len(fx.app.diff_rows())
        .saturating_sub(1)
        .min(u16::MAX.into()) as u16;
    assert!(max > 2, "fixture must have scrollable content");
    for _ in 0..500 {
        fx.app.on_key(KeyCode::Char('j'));
    }
    assert_eq!(fx.app.diff_scroll(), max);
    for _ in 0..10 {
        fx.app.on_key(KeyCode::PageDown);
    }
    assert_eq!(fx.app.diff_scroll(), max, "PageDown must clamp too");
    for _ in 0..500 {
        fx.app.on_key(KeyCode::Char('k'));
    }
    assert_eq!(fx.app.diff_scroll(), 0);
    for _ in 0..10 {
        fx.app.on_key(KeyCode::PageUp);
    }
    assert_eq!(fx.app.diff_scroll(), 0, "PageUp must not underflow");
}

#[test]
fn fullscreen_scroll_clamps_at_content_end() {
    let mut fx = two_hunk_fixture();
    fx.app.on_key(KeyCode::Enter);
    assert_eq!(fx.app.mode(), Mode::FullDiff);
    let max = fx
        .app
        .diff_rows()
        .len()
        .saturating_sub(1)
        .min(u16::MAX.into()) as u16;
    assert!(max > 2, "fixture must have scrollable content");
    for _ in 0..500 {
        fx.app.on_key(KeyCode::Down);
    }
    assert_eq!(fx.app.diff_scroll(), max);
    for _ in 0..500 {
        fx.app.on_key(KeyCode::Up);
    }
    assert_eq!(fx.app.diff_scroll(), 0);
}

#[test]
fn diff_rows_are_paired_once_on_arrival() {
    let mut fx = harness(&["a.txt"]);
    assert!(fx.app.diff_rows().is_empty(), "no diff, no rows");
    set_diff(&mut fx.app, 
        FileDiff {
            path: "a.txt".into(),
            binary: false,
            hunks: vec![Hunk {
                header: "@@ -1,1 +1,1 @@".into(),
                old_start: 1,
                new_start: 1,
                lines: vec![
                    DiffLine {
                        kind: LineKind::Del,
                        text: "old".into(),
                    },
                    DiffLine {
                        kind: LineKind::Add,
                        text: "new".into(),
                    },
                ],
            }],
        },
        false,
    );
    // Header + one paired del/add row, matching a fresh pairing.
    assert_eq!(fx.app.diff_rows().len(), 2);
    let fresh = diff_rows(fx.app.diff().unwrap());
    assert_eq!(format!("{:?}", fx.app.diff_rows()), format!("{fresh:?}"));
}

#[test]
fn moving_file_selection_loads_its_diff() {
    let mut fx = harness(&["a.txt", "b.txt"]);
    // Select b.txt; its diff should load automatically.
    fx.app.on_key(KeyCode::Char('j'));
    let d = wait_for_diff(&mut fx, "b.txt");
    assert_eq!(d.path, "b.txt");
}

#[test]
fn hunk_nav_clamps_and_snaps_scroll() {
    let mut fx = two_hunk_fixture();
    assert!(fx.app.diff().unwrap().hunks.len() >= 2);
    assert_eq!(fx.app.hunk(), 0);
    fx.app.on_key(KeyCode::Enter);
    assert_eq!(fx.app.mode(), Mode::FullDiff);
    fx.app.on_key(KeyCode::Char('J'));
    assert_eq!(fx.app.hunk(), 1);
    // Snaps the selected hunk to the top of the view.
    assert!(fx.app.diff_scroll() > 0);
    fx.app.on_key(KeyCode::Char('J'));
    assert_eq!(fx.app.hunk(), 1, "clamps at last hunk");
    fx.app.on_key(KeyCode::Char('K'));
    assert_eq!(fx.app.hunk(), 0);
}

#[test]
fn jk_moves_line_cursor_and_syncs_hunk() {
    let mut fx = two_hunk_fixture();
    fx.app.on_key(KeyCode::Enter);
    assert_eq!(fx.app.mode(), Mode::FullDiff);
    assert_eq!(fx.app.cursor_row(), 0);
    fx.app.on_key(KeyCode::Char('j'));
    assert_eq!(fx.app.cursor_row(), 1);
    assert_eq!(fx.app.diff_scroll(), 1, "view follows the cursor");
    assert_eq!(fx.app.hunk(), 0, "still inside the first hunk");
    fx.app.on_key(KeyCode::Char('k'));
    assert_eq!(fx.app.cursor_row(), 0);
    assert_eq!(fx.app.diff_scroll(), 0);
}

#[test]
fn shift_jk_jumps_between_hunks() {
    let mut fx = two_hunk_fixture();
    fx.app.on_key(KeyCode::Enter);
    fx.app.on_key(KeyCode::Char('J'));
    assert_eq!(fx.app.hunk(), 1);
    let start = rows_hunk_start(fx.app.diff_rows(), 1) as usize;
    assert_eq!(fx.app.cursor_row(), start);
    assert_eq!(fx.app.diff_scroll(), start as u16);
    // Clamps at the last hunk.
    fx.app.on_key(KeyCode::Char('J'));
    assert_eq!(fx.app.hunk(), 1);
    fx.app.on_key(KeyCode::Char('K'));
    assert_eq!(fx.app.hunk(), 0);
    assert_eq!(fx.app.cursor_row(), 0);
}

#[test]
fn line_cursor_clamps_at_ends() {
    let mut fx = two_hunk_fixture();
    fx.app.on_key(KeyCode::Enter);
    let last = fx.app.diff_rows().len() - 1;
    assert!(last > 2, "fixture must have several rows");
    for _ in 0..500 {
        fx.app.on_key(KeyCode::Char('j'));
    }
    assert_eq!(fx.app.cursor_row(), last);
    assert_eq!(fx.app.diff_scroll(), last as u16);
    for _ in 0..500 {
        fx.app.on_key(KeyCode::Char('k'));
    }
    assert_eq!(fx.app.cursor_row(), 0);
    assert_eq!(fx.app.diff_scroll(), 0);
}

#[test]
fn cursor_moves_within_view_before_scrolling_down() {
    let mut fx = two_hunk_fixture();
    fx.app.on_key(KeyCode::Enter);
    fx.app.viewer.set_full_height(4);
    fx.app.viewer.set_preview_height(4);
    fx.app.on_key(KeyCode::Char('j'));
    fx.app.on_key(KeyCode::Char('j'));
    fx.app.on_key(KeyCode::Char('j'));
    assert_eq!(fx.app.cursor_row(), 3);
    assert_eq!(fx.app.diff_scroll(), 0, "view must not scroll yet");
    fx.app.on_key(KeyCode::Char('j'));
    assert_eq!(fx.app.cursor_row(), 4);
    assert_eq!(fx.app.diff_scroll(), 1, "scrolls only at the edge");
    fx.app.on_key(KeyCode::Char('j'));
    assert_eq!(fx.app.cursor_row(), 5);
    assert_eq!(fx.app.diff_scroll(), 2);
}

#[test]
fn scrolling_up_follows_the_top_edge() {
    let mut fx = two_hunk_fixture();
    fx.app.on_key(KeyCode::Enter);
    fx.app.viewer.set_full_height(4);
    fx.app.viewer.set_preview_height(4);
    for _ in 0..5 {
        fx.app.on_key(KeyCode::Char('j'));
    }
    assert_eq!((fx.app.cursor_row(), fx.app.diff_scroll()), (5, 2));
    fx.app.on_key(KeyCode::Char('k'));
    assert_eq!(fx.app.diff_scroll(), 2, "still visible, no scroll");
    fx.app.on_key(KeyCode::Char('k'));
    fx.app.on_key(KeyCode::Char('k'));
    assert_eq!(fx.app.diff_scroll(), 2);
    fx.app.on_key(KeyCode::Char('k'));
    assert_eq!((fx.app.cursor_row(), fx.app.diff_scroll()), (1, 1));
}

#[test]
fn preview_follows_unified_lines_at_edges() {
    let mut fx = two_hunk_fixture();
    fx.app.on_key(KeyCode::Char('5'));
    assert_eq!(fx.app.focus(), Focus::Diff);
    fx.app.viewer.set_full_height(4);
    fx.app.viewer.set_preview_height(4);
    fx.app.on_key(KeyCode::Char('j'));
    fx.app.on_key(KeyCode::Char('j'));
    fx.app.on_key(KeyCode::Char('j'));
    assert_eq!(fx.app.cursor_row(), 3);
    assert_eq!(fx.app.diff_scroll(), 0, "three context lines fit");
    // Row 4 is a del/add pair (two unified lines): the whole row
    // must become visible.
    fx.app.on_key(KeyCode::Char('j'));
    assert_eq!(fx.app.cursor_row(), 4);
    assert_eq!(fx.app.diff_scroll(), 2);
    fx.app.on_key(KeyCode::Char('k'));
    fx.app.on_key(KeyCode::Char('k'));
    assert_eq!(fx.app.diff_scroll(), 2, "still visible, no scroll");
    fx.app.on_key(KeyCode::Char('k'));
    assert_eq!((fx.app.cursor_row(), fx.app.diff_scroll()), (1, 1));
}

#[test]
fn page_keys_move_cursor_with_follow() {
    let mut fx = two_hunk_fixture();
    fx.app.on_key(KeyCode::Enter);
    fx.app.viewer.set_full_height(5);
    fx.app.viewer.set_preview_height(5);
    fx.app.on_key(KeyCode::PageDown);
    assert_eq!(fx.app.cursor_row(), 10);
    assert_eq!(fx.app.hunk(), 1, "crossed into the second hunk");
    assert_eq!(fx.app.diff_scroll(), 6);
    fx.app.on_key(KeyCode::PageUp);
    assert_eq!((fx.app.cursor_row(), fx.app.diff_scroll()), (0, 0));
}

#[test]
fn arrows_move_line_cursor_in_fullscreen() {
    let mut fx = two_hunk_fixture();
    fx.app.on_key(KeyCode::Enter);
    fx.app.on_key(KeyCode::Down);
    assert_eq!(fx.app.cursor_row(), 1);
    assert_eq!(fx.app.diff_scroll(), 1);
    assert_eq!(fx.app.hunk(), 0, "arrow move must not jump hunks");
    fx.app.on_key(KeyCode::Up);
    assert_eq!(fx.app.cursor_row(), 0);
}

#[test]
fn preview_jk_moves_line_cursor() {
    let mut fx = two_hunk_fixture();
    fx.app.on_key(KeyCode::Char('5'));
    assert_eq!(fx.app.focus(), Focus::Diff);
    assert_eq!(fx.app.cursor_row(), 0);
    fx.app.on_key(KeyCode::Char('j'));
    assert_eq!(fx.app.cursor_row(), 1);
    assert_eq!(fx.app.diff_scroll(), 1);
    assert_eq!(fx.app.hunk(), 0);
    fx.app.on_key(KeyCode::Char('k'));
    assert_eq!(fx.app.cursor_row(), 0);
    assert_eq!(fx.app.diff_scroll(), 0);
}

#[test]
fn hl_moves_column_and_clamps_to_line_end() {
    let mut fx = two_hunk_fixture();
    fx.app.on_key(KeyCode::Enter);
    // Row 1 is a short context line; walk right past its end.
    fx.app.on_key(KeyCode::Char('j'));
    assert_eq!(fx.app.cursor_row(), 1);
    assert_eq!(fx.app.cursor_col(), 0);
    fx.app.on_key(KeyCode::Char('l'));
    assert_eq!(fx.app.cursor_col(), 1);
    let len = cursor_line_text(fx.app.diff().unwrap(), &fx.app.diff_rows()[1])
        .chars()
        .count();
    assert!(len > 2, "fixture line must have some width");
    for _ in 0..500 {
        fx.app.on_key(KeyCode::Char('l'));
    }
    assert_eq!(fx.app.cursor_col(), len - 1, "clamps on last char like $");
    fx.app.on_key(KeyCode::Char('h'));
    assert_eq!(fx.app.cursor_col(), len - 2);
    for _ in 0..500 {
        fx.app.on_key(KeyCode::Char('h'));
    }
    assert_eq!(fx.app.cursor_col(), 0);
}

#[test]
fn column_is_sticky_across_rows_with_home_end() {
    let mut fx = two_hunk_fixture();
    fx.app.on_key(KeyCode::Enter);
    fx.app.on_key(KeyCode::Char('j'));
    fx.app.on_key(KeyCode::Char('l'));
    fx.app.on_key(KeyCode::Char('l'));
    fx.app.on_key(KeyCode::Char('l'));
    assert_eq!(fx.app.cursor_col(), 3);
    // Moving rows keeps the desired column (nvim sticky column).
    fx.app.on_key(KeyCode::Char('j'));
    assert_eq!(fx.app.cursor_row(), 2);
    assert_eq!(fx.app.cursor_col(), 3);
    fx.app.on_key(KeyCode::Char('k'));
    assert_eq!(fx.app.cursor_row(), 1);
    assert_eq!(fx.app.cursor_col(), 3);
    fx.app.on_key(KeyCode::End);
    let len = cursor_line_text(fx.app.diff().unwrap(), &fx.app.diff_rows()[1])
        .chars()
        .count();
    assert_eq!(fx.app.cursor_col(), len - 1);
    fx.app.on_key(KeyCode::Home);
    assert_eq!(fx.app.cursor_col(), 0);
    fx.app.on_key(KeyCode::Char('0'));
    assert_eq!(fx.app.cursor_col(), 0);
}

#[test]
fn arrows_move_column_in_fullscreen() {
    let mut fx = two_hunk_fixture();
    fx.app.on_key(KeyCode::Enter);
    fx.app.on_key(KeyCode::Char('j'));
    fx.app.on_key(KeyCode::Right);
    assert_eq!(fx.app.cursor_col(), 1);
    fx.app.on_key(KeyCode::Left);
    assert_eq!(fx.app.cursor_col(), 0);
    fx.app.on_key(KeyCode::Left);
    assert_eq!(fx.app.cursor_col(), 0, "clamps at line start");
}

#[test]
fn preview_hl_moves_column_and_left_still_leaves() {
    let mut fx = two_hunk_fixture();
    fx.app.on_key(KeyCode::Char('5'));
    assert_eq!(fx.app.focus(), Focus::Diff);
    fx.app.on_key(KeyCode::Char('l'));
    assert_eq!(fx.app.cursor_col(), 1);
    fx.app.on_key(KeyCode::Char('h'));
    assert_eq!(fx.app.cursor_col(), 0);
    // Plain Left keeps its back-to-files job in the preview.
    fx.app.on_key(KeyCode::Left);
    assert_eq!(fx.app.focus(), Focus::Status);
}

#[test]
fn visual_linewise_yank_joins_whole_rows() {
    let mut fx = visual_fixture();
    fx.app.on_key(KeyCode::Enter);
    // Anchor on the header, extend one row down, yank whole lines.
    fx.app.on_key(KeyCode::Char('V'));
    fx.app.on_key(KeyCode::Char('j'));
    assert_eq!(
        fx.app.yank_text().as_deref(),
        Some("@@ -1,2 +1,2 @@\nsame\n")
    );
}

#[test]
fn visual_charwise_yank_slices_endpoints() {
    let mut fx = visual_fixture();
    fx.app.on_key(KeyCode::Enter);
    fx.app.on_key(KeyCode::Char('j'));
    fx.app.on_key(KeyCode::Char('l'));
    fx.app.on_key(KeyCode::Char('v'));
    fx.app.on_key(KeyCode::Char('j'));
    // Anchor (1,1) on `same`, cursor (2,1) on the `new` side.
    assert_eq!(fx.app.yank_text().as_deref(), Some("ame\nne"));
}

#[test]
fn visual_charwise_normalizes_reversed_selection() {
    let mut fx = visual_fixture();
    fx.app.on_key(KeyCode::Enter);
    fx.app.on_key(KeyCode::Char('j'));
    fx.app.on_key(KeyCode::Char('j'));
    fx.app.on_key(KeyCode::Char('l'));
    // Anchor below, move up: same text as extending downward.
    fx.app.on_key(KeyCode::Char('v'));
    fx.app.on_key(KeyCode::Char('k'));
    assert_eq!(fx.app.yank_text().as_deref(), Some("ame\nne"));
}

#[test]
fn yank_without_visual_takes_cursor_line() {
    let mut fx = visual_fixture();
    fx.app.on_key(KeyCode::Enter);
    fx.app.on_key(KeyCode::Char('j'));
    assert_eq!(fx.app.yank_text().as_deref(), Some("same\n"));
    fx.app.on_key(KeyCode::Char('y'));
    assert!(fx.app.visual_selection().is_none());
    let notice = fx.app.notice().unwrap_or("").to_string();
    assert!(notice.contains("yanked"), "got: {notice:?}");
}

#[test]
fn esc_leaves_visual_before_closing_fullscreen() {
    let mut fx = visual_fixture();
    fx.app.on_key(KeyCode::Enter);
    fx.app.on_key(KeyCode::Char('v'));
    assert!(fx.app.visual_selection().is_some());
    fx.app.on_key(KeyCode::Esc);
    assert!(fx.app.visual_selection().is_none());
    assert_eq!(fx.app.mode(), Mode::FullDiff, "still fullscreen");
    fx.app.on_key(KeyCode::Esc);
    assert_eq!(fx.app.mode(), Mode::Normal);
}

#[test]
fn visual_toggle_and_mode_switch() {
    let mut fx = visual_fixture();
    fx.app.on_key(KeyCode::Enter);
    fx.app.on_key(KeyCode::Char('v'));
    assert!(fx.app.visual_selection().is_some());
    // Same key again leaves visual.
    fx.app.on_key(KeyCode::Char('v'));
    assert!(fx.app.visual_selection().is_none());
    // V enters linewise; v switches it back to charwise.
    fx.app.on_key(KeyCode::Char('V'));
    assert_eq!(fx.app.visual_selection().map(|s| s.linewise), Some(true));
    fx.app.on_key(KeyCode::Char('v'));
    assert_eq!(fx.app.visual_selection().map(|s| s.linewise), Some(false));
}

#[test]
fn base64_vectors() {
    assert_eq!(base64_encode(b""), "");
    assert_eq!(base64_encode(b"f"), "Zg==");
    assert_eq!(base64_encode(b"fo"), "Zm8=");
    assert_eq!(base64_encode(b"foo"), "Zm9v");
    assert_eq!(base64_encode(b"hello"), "aGVsbG8=");
}

#[test]
fn cursor_resets_when_diff_reloads() {
    let mut fx = harness(&["a.txt"]);
    set_diff(&mut fx.app, visual_diff(), false);
    fx.app.on_key(KeyCode::Enter);
    fx.app.on_key(KeyCode::Char('j'));
    assert_eq!(fx.app.cursor_row(), 1);
    set_diff(&mut fx.app, visual_diff(), false);
    assert_eq!(fx.app.cursor_row(), 0, "fresh diff resets the cursor");
    assert_eq!(fx.app.hunk(), 0);
    assert_eq!(fx.app.diff_scroll(), 0);
}

#[test]
fn space_in_diff_stages_selected_hunk() {
    let mut fx = two_hunk_fixture();
    let before = fx.app.diff().unwrap().hunks.len();
    fx.app.on_key(KeyCode::Enter);
    fx.app.on_key(KeyCode::Char(' '));
    // Partial staging: status shows Both, diff reloads with one less hunk.
    let st = wait_for(&mut fx, |st| {
        st.files
            .iter()
            .any(|e| e.path == "a.txt" && e.state == FileState::BothStagedAndUnstaged)
    });
    let _ = st;
    let d = wait_for_diff(&mut fx, "a.txt");
    assert_eq!(d.hunks.len(), before - 1);
}

#[test]
fn panels_load_eagerly_at_startup_without_focusing() {
    let mut fx = harness(&["a.txt"]);
    // No focus keys pressed: branches, log, and stash must arrive on
    // their own so every pane shows data on launch.
    let branches = wait_for_branches(&mut fx, 1);
    assert!(branches.iter().any(|b| b.name == "main" && b.is_head));
    let entries = wait_for_log(&mut fx, 1);
    assert_eq!(entries[0].summary, "init");
    let stash = wait_for_stash(&mut fx, 0);
    assert!(stash.is_empty());
}

#[test]
fn branches_load_when_panel_focused() {
    let mut fx = harness(&["a.txt"]);
    // Eager at startup; focusing must keep working.
    focus_branches(&mut fx);
    let branches = wait_for_branches(&mut fx, 1);
    assert!(branches.iter().any(|b| b.name == "main" && b.is_head));
}

#[test]
fn create_branch_via_modal() {
    let mut fx = harness(&["a.txt"]);
    focus_branches(&mut fx);
    wait_for_branches(&mut fx, 1);
    fx.app.on_key(KeyCode::Char('a'));
    assert_eq!(fx.app.mode(), Mode::NewBranch);
    for c in "feat".chars() {
        fx.app.on_key(KeyCode::Char(c));
    }
    fx.app.on_key(KeyCode::Enter);
    assert_eq!(fx.app.mode(), Mode::Normal);
    let branches = wait_for_branches(&mut fx, 2);
    assert!(branches.iter().any(|b| b.name == "feat"));
}

#[test]
fn checkout_branch_via_enter() {
    let mut fx = harness(&["a.txt"]);
    focus_branches(&mut fx);
    wait_for_branches(&mut fx, 1);
    // Create feat, then move selection to it and check out.
    fx.app.on_key(KeyCode::Char('a'));
    for c in "feat".chars() {
        fx.app.on_key(KeyCode::Char(c));
    }
    fx.app.on_key(KeyCode::Enter);
    wait_for_branches(&mut fx, 2);
    select_branch(&mut fx, "feat");
    fx.app.on_key(KeyCode::Enter);
    let st = wait_for(&mut fx, |st| st.branch == "feat");
    assert_eq!(st.branch, "feat");
}

#[test]
fn delete_checked_out_branch_surfaces_error() {
    let mut fx = harness(&["a.txt"]);
    focus_branches(&mut fx);
    wait_for_branches(&mut fx, 1);
    // "main" is checked out; deleting it must fail loudly.
    fx.app.on_key(KeyCode::Char('D'));
    let err = wait_for_error(&mut fx);
    assert!(err.contains("checked out"), "got: {err}");
}

#[test]
fn log_loads_newest_first_when_focused() {
    let mut fx = harness(&["a.txt"]);
    // Eager at startup; focusing must keep working.
    fx.app.on_key(KeyCode::Char('3'));
    let entries = wait_for_log(&mut fx, 1);
    assert_eq!(entries[0].summary, "init");
}

#[test]
fn new_commit_appears_at_top_of_log() {
    let mut fx = harness(&["a.txt"]);
    // Stage + commit, then open the log.
    fx.app.on_key(KeyCode::Char(' '));
    wait_for(&mut fx, |st| {
        st.files
            .iter()
            .any(|e| e.path == "a.txt" && e.state == FileState::Staged)
    });
    fx.app.on_key(KeyCode::Char('c'));
    for c in "second".chars() {
        fx.app.on_key(KeyCode::Char(c));
    }
    fx.app.on_key(KeyCode::Enter);
    fx.app.on_key(KeyCode::Char('3'));
    let entries = wait_for_log(&mut fx, 2);
    assert_eq!(entries[0].summary, "second");
    assert_eq!(entries[1].summary, "init");
}

#[test]
fn stash_push_cleans_status_and_lists_entry() {
    let mut fx = harness(&["a.txt"]);
    focus_stash(&mut fx);
    wait_for_stash(&mut fx, 0);
    fx.app.on_key(KeyCode::Char('a'));
    assert_eq!(fx.app.mode(), Mode::StashPush);
    for c in "wip".chars() {
        fx.app.on_key(KeyCode::Char(c));
    }
    fx.app.on_key(KeyCode::Enter);
    assert_eq!(fx.app.mode(), Mode::Normal);
    let entries = wait_for_stash(&mut fx, 1);
    assert!(
        entries[0].message.contains("wip"),
        "got {:?}",
        entries[0].message
    );
    // Status is clean after the push.
    let st = wait_for(&mut fx, |st| st.files.is_empty());
    assert!(st.files.is_empty());
}

#[test]
fn stash_pop_restores_changes() {
    let mut fx = harness(&["a.txt"]);
    focus_stash(&mut fx);
    wait_for_stash(&mut fx, 0);
    fx.app.on_key(KeyCode::Char('a'));
    for c in "wip".chars() {
        fx.app.on_key(KeyCode::Char(c));
    }
    fx.app.on_key(KeyCode::Enter);
    wait_for_stash(&mut fx, 1);
    // Pop it back.
    fx.app.on_key(KeyCode::Enter);
    wait_for_stash(&mut fx, 0);
    let st = wait_for(&mut fx, |st| st.files.iter().any(|e| e.path == "a.txt"));
    assert_eq!(st.files[0].state, FileState::Unstaged);
}

#[test]
fn stash_drop_removes_entry() {
    let mut fx = harness(&["a.txt"]);
    focus_stash(&mut fx);
    wait_for_stash(&mut fx, 0);
    fx.app.on_key(KeyCode::Char('a'));
    for c in "wip".chars() {
        fx.app.on_key(KeyCode::Char(c));
    }
    fx.app.on_key(KeyCode::Enter);
    wait_for_stash(&mut fx, 1);
    fx.app.on_key(KeyCode::Char('D'));
    wait_for_stash(&mut fx, 0);
}

#[test]
fn shift_a_in_commit_box_starts_generation_and_no_staged_errors() {
    let mut fx = harness(&["a.txt"]);
    fx.app.on_key(KeyCode::Char('c'));
    assert_eq!(fx.app.mode(), Mode::Committing);
    // Legacy single-KeyCode path: `A` means Shift+A.
    fx.app.on_key(KeyCode::Char('A'));
    assert!(fx.app.is_generating());
    let err = wait_for_error(&mut fx);
    assert!(
        err.contains("nothing staged") || err.contains("API key"),
        "got: {err}"
    );
    assert!(!fx.app.is_generating());
    assert_eq!(fx.app.mode(), Mode::Committing, "stay in the box to edit");
}

#[test]
fn shift_a_without_shift_types_literal_a() {
    let mut fx = harness(&["a.txt"]);
    fx.app.on_key(KeyCode::Char('c'));
    // Real modifier path: no Shift means a literal `A` (caps lock).
    fx.app.on_key_with_modifiers(KeyCode::Char('A'), false);
    assert!(!fx.app.is_generating());
    assert_eq!(fx.app.draft(), "A");
    // Lowercase always types.
    fx.app.on_key_with_modifiers(KeyCode::Char('a'), false);
    assert_eq!(fx.app.draft(), "Aa");
    // Shift+A generates instead of typing.
    fx.app.on_key_with_modifiers(KeyCode::Char('a'), true);
    assert!(fx.app.is_generating());
    assert_eq!(
        fx.app.draft(),
        "Aa",
        "generation must not type into the draft"
    );
}

#[test]
fn generated_message_fills_draft_and_moves_cursor_to_end() {
    let mut fx = harness(&["a.txt"]);
    fx.app.on_key(KeyCode::Char('c'));
    assert_eq!(fx.app.mode(), Mode::Committing);
    fx.app.generating = true;
    fx.app.apply(JobResult::GeneratedMessage("feat: add thing".into()));
    assert_eq!(fx.app.draft(), "feat: add thing");
    assert_eq!(fx.app.draft_cursor(), fx.app.draft().chars().count());
    assert!(!fx.app.is_generating());
    assert!(fx.app.error().is_none());
}

#[test]
fn generated_message_arriving_after_esc_is_ignored() {
    let mut fx = harness(&["a.txt"]);
    fx.app.on_key(KeyCode::Char('c'));
    fx.app.generating = true;
    fx.app.on_key(KeyCode::Esc);
    assert_eq!(fx.app.mode(), Mode::Normal);
    fx.app.generating = true;
    fx.app.apply(JobResult::GeneratedMessage("feat: late".into()));
    assert!(!fx.app.is_generating());
    assert_eq!(fx.app.draft(), "", "closed box must not be filled");
}

#[test]
fn shift_a_in_file_list_opens_llm_settings_prefilled() {
    let mut fx = harness(&["a.txt"]);
    assert_eq!(fx.app.mode(), Mode::Normal);
    fx.app.on_key(KeyCode::Char('A'));
    assert_eq!(fx.app.mode(), Mode::LlmSettings);
    assert_eq!(fx.app.llm_selected(), 0);
    // Prefilled from the session config (defaults here).
    assert_eq!(fx.app.llm_field_value(0), "openai");
    assert_eq!(fx.app.llm_field_value(1), "gpt-4o-mini");
}

#[test]
fn llm_settings_tab_switches_fields_and_typing_edits() {
    let mut fx = harness(&["a.txt"]);
    fx.app.on_key(KeyCode::Char('A'));
    fx.app.on_key(KeyCode::Tab);
    assert_eq!(fx.app.llm_selected(), 1);
    for c in "x-model".chars() {
        fx.app.on_key(KeyCode::Char(c));
    }
    assert!(fx.app.llm_field_value(1).contains("x-model"));
    fx.app.on_key(KeyCode::Up);
    assert_eq!(fx.app.llm_selected(), 0);
    // Row 0 kept its prefilled value (stash/unstash round-trip).
    assert_eq!(fx.app.llm_field_value(0), "openai");
}

#[test]
fn llm_settings_esc_cancels_without_applying() {
    let mut fx = harness(&["a.txt"]);
    fx.app.on_key(KeyCode::Char('A'));
    fx.app.on_key(KeyCode::Tab);
    fx.app.on_key(KeyCode::Tab);
    for c in "junk".chars() {
        fx.app.on_key(KeyCode::Char(c));
    }
    fx.app.on_key(KeyCode::Esc);
    assert_eq!(fx.app.mode(), Mode::Normal);
    assert_eq!(fx.app.llm.provider, "openai", "cancel must not apply");
    assert!(fx.app.notice().is_none());
}

#[test]
fn llm_settings_enter_with_bad_provider_stays_open() {
    let mut fx = harness(&["a.txt"]);
    fx.app.on_key(KeyCode::Char('A'));
    fx.app.clear_draft();
    for c in "skynet".chars() {
        fx.app.on_key(KeyCode::Char(c));
    }
    fx.app.on_key(KeyCode::Enter);
    assert_eq!(fx.app.mode(), Mode::LlmSettings, "bad input stays open");
    assert!(fx.app.error().unwrap_or("").contains("unknown provider"));
    assert_eq!(fx.app.llm.provider, "openai", "bad input not applied");
}

#[test]
fn d_on_untracked_deletes_the_file() {
    let mut fx = fixture(Repo {
        files: vec![
            committed("a.txt", "base\n", "base\n"),
            File { path: "new.txt".into(), head: None, index: None, work: Some("new\n".into()) },
        ],
        ..repo()
    });
    wait_for(&mut fx, |st| {
        st.files
            .iter()
            .any(|e| e.path == "new.txt" && e.state == FileState::Untracked)
    });
    // Changed files sort before clean ones, so the untracked file is
    // already selected.
    assert_eq!(fx.app.selected_file().unwrap().path, "new.txt");
    fx.app.on_key(KeyCode::Char('d'));
    wait_for(&mut fx, |st| st.files.iter().all(|e| e.path != "new.txt"));
    assert!(fx.repo.files.iter().all(|f| f.path != "new.txt" || f.work.is_none()));
}

#[test]
fn binary_file_gets_notice_instead_of_whole_file_bytes() {
    let mut fx = fixture(Repo {
        files: vec![File {
            path: "img.png".into(),
            head: None,
            index: None,
            work: Some("\u{89}PNG\r\n\u{1a}\n\0\0\u{1b}[2J".into()),
        }],
        ..repo()
    });
    wait_for(&mut fx, |st| st.files.iter().any(|e| e.path == "img.png"));
    // Let any (wrong) whole-file fallback job run and land.
    fx.settle();
    let d = fx.app.diff().expect("diff stays loaded");
    assert_eq!(d.path, "img.png");
    assert!(d.binary, "binary flag lost: {d:?}");
    assert!(d.hunks.is_empty(), "binary bytes leaked into hunks");
    assert!(
        !fx.app.diff_whole_file(),
        "binary must not fall back to whole-file view"
    );
}

#[test]
fn empty_diff_falls_back_to_whole_file_automatically() {
    // Mode-only change: status lists the file, but the content diff
    // has zero hunks: the viewer must show the whole file, not
    // "(no changes)".
    let mut fx = fixture(Repo {
        files: vec![committed("a.txt", "hello\nworld\n", "hello\nworld\n")],
        mode_only: vec!["a.txt".into()],
        ..repo()
    });
    wait_for(&mut fx, |st| st.files.iter().any(|e| e.path == "a.txt"));
    fx.settle();
    assert!(fx.app.diff_whole_file());
    let texts: Vec<&str> = fx
        .app
        .diff()
        .unwrap()
        .hunks
        .iter()
        .flat_map(|h| h.lines.iter())
        .map(|l| l.text.as_str())
        .collect();
    assert_eq!(texts, vec!["hello", "world"]);
}

#[test]
fn push_without_remotes_opens_publish_modal_and_enter_publishes() {
    let bare = "/tmp/origin/origin.git";
    let mut fx = fixture(Repo { files: vec![committed("a.txt", "a\n", "a\n")], ..repo() });
    wait_for_sync(&mut fx);
    assert!(fx.app.sync().unwrap().remotes.is_empty());
    fx.app.on_key(KeyCode::Char('P'));
    assert_eq!(fx.app.mode(), Mode::SetRemote);
    for c in bare.chars() {
        fx.app.on_key(KeyCode::Char(c));
    }
    fx.app.on_key(KeyCode::Enter);
    assert_eq!(fx.app.mode(), Mode::Normal);
    fx.settle();
    assert_eq!(fx.app.sync().unwrap().upstream.as_deref(), Some("origin/main"));
    assert_eq!(fx.repo.published.as_deref(), Some(bare));
}

#[test]
fn push_without_upstream_opens_set_upstream_modal() {
    let mut fx = sync_harness();
    wait_for_sync(&mut fx);
    fx.app.on_key(KeyCode::Char('P'));
    assert_eq!(fx.app.mode(), Mode::SetUpstream);
    assert_eq!(fx.app.draft(), "origin");
    fx.app.on_key(KeyCode::Enter);
    assert_eq!(fx.app.mode(), Mode::Normal);
    fx.settle();
    assert_eq!(fx.app.sync().unwrap().upstream.as_deref(), Some("origin/main"));
}

#[test]
fn push_with_upstream_pushes_directly_without_modal() {
    let mut fx = sync_harness();
    wait_for_sync(&mut fx);
    // Establish the upstream first.
    fx.app.on_key(KeyCode::Char('P'));
    assert_eq!(fx.app.mode(), Mode::SetUpstream);
    fx.app.on_key(KeyCode::Enter);
    fx.settle();
    assert!(fx.app.sync().unwrap().upstream.is_some());
    assert!(fx.app.syncing().is_none());
    // A fresh `P` now pushes straight away, no modal.
    fx.app.on_key(KeyCode::Char('P'));
    assert_eq!(fx.app.mode(), Mode::Normal);
    assert_eq!(fx.app.syncing(), Some("pushing…"));
}

#[test]
fn fully_staged_file_loads_staged_diff() {
    let mut fx = harness(&["a.txt"]);
    fx.app.on_key(KeyCode::Char(' '));
    fx.settle();
    assert_eq!(fx.app.diff_viewing_staged(), Some(true));
    assert!(!fx.app.diff().unwrap().hunks.is_empty());
}

#[test]
fn space_in_staged_diff_view_errors() {
    let mut fx = harness(&["a.txt"]);
    fx.app.on_key(KeyCode::Char(' '));
    fx.settle();
    assert_eq!(fx.app.diff_viewing_staged(), Some(true));
    fx.app.on_key(KeyCode::Enter);
    fx.app.on_key(KeyCode::Char(' '));
    assert!(fx.app.error().is_some(), "expected staged-hunk error");
}

#[test]
fn delete_branch_via_key() {
    let mut fx = harness(&["a.txt"]);
    focus_branches(&mut fx);
    wait_for_branches(&mut fx, 1);
    fx.app.on_key(KeyCode::Char('a'));
    for c in "gone".chars() {
        fx.app.on_key(KeyCode::Char(c));
    }
    fx.app.on_key(KeyCode::Enter);
    wait_for_branches(&mut fx, 2);
    // Select "gone" and delete it.
    select_branch(&mut fx, "gone");
    fx.app.on_key(KeyCode::Char('D'));
    let branches = wait_for_branches(&mut fx, 1);
    assert!(!branches.iter().any(|x| x.name == "gone"), "gone never deleted: {branches:?}");
}

#[test]
fn overridden_bindings_take_effect() {
    let keys = KeyBindings {
        stage: vec![KeyCode::Char('s')],
        ..Default::default()
    };
    let config = Config {
        keys,
        ..Default::default()
    };
    let mut fx = Fixture {
        repo: Repo { files: vec![committed("a.txt", "base\n", "base\ndirty\n")], ..repo() },
        app: App::new_with_config(config),
    };
    wait_for(&mut fx, |st| st.files.iter().any(|e| e.path == "a.txt"));
    // Space is no longer bound: nothing happens.
    fx.app.on_key(KeyCode::Char(' '));
    fx.settle();
    assert!(fx.app.error().is_none());
    let st = fx.app.status().unwrap();
    assert_eq!(st.files[0].state, FileState::Unstaged);
    // "s" stages.
    fx.app.on_key(KeyCode::Char('s'));
    let st = wait_for(&mut fx, |st| {
        st.files
            .iter()
            .any(|e| e.path == "a.txt" && e.state == FileState::Staged)
    });
    assert_eq!(st.files[0].state, FileState::Staged);
}

#[test]
fn llm_settings_enter_saves_and_persists_to_file() {
    let mut fx = harness(&["a.txt"]);
    fx.app.set_config_path(Some("/tmp/config.toml".into()));
    fx.app.on_key(KeyCode::Char('A'));
    // Provider row: replace "openai" with "ollama".
    fx.app.clear_draft();
    for c in "ollama".chars() {
        fx.app.on_key(KeyCode::Char(c));
    }
    fx.app.on_key(KeyCode::Enter);
    // The settings are on their way to the file.
    assert!(fx.app.saving);
    let file = Config::save_llm("", &fx.app.llm).unwrap();
    fx.app.finish_llm_save(Ok(()));
    assert_eq!(fx.app.mode(), Mode::Normal);
    assert_eq!(fx.app.llm.provider, "ollama");
    assert!(fx.app.notice().unwrap_or("").contains("saved"));
    // Round-trips through the text of a real config file.
    let cfg: toml::Table = file.parse().unwrap();
    assert_eq!(cfg["llm"]["provider"].as_str(), Some("ollama"));
}
