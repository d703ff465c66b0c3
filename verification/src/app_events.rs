//! What keys and answers of the worker mean, as contracts speak of it.

use crate::app_model::{AppView, Focus, Mode};
use crate::browser::{BrowserView, DirEntry};
use crate::config::KeyCode;
use crate::draft::DraftView;
use crate::jobs::{GitError, JobResult, JobView};
use crate::model::{BranchInfo, CommitInfo, FileDiff, RepoStatus, StashEntry, SyncStatus};
use crate::tree::{clamped, last_of};
use crate::viewer::{capped, ViewerView, VisualMode};
use vstd::prelude::*;
use vstd::string::*;

verus! {

/// What an editing key does to a draft; nothing for any other key.
#[verifier::opaque]
pub open spec fn edited(draft: DraftView, key: KeyCode) -> Option<DraftView> {
    match key {
        KeyCode::Char(c) => Some(draft.inserted(c)),
        KeyCode::Backspace => Some(draft.deleted_before()),
        KeyCode::Delete => Some(draft.deleted_after()),
        KeyCode::Left => Some(draft.left()),
        KeyCode::Right => Some(draft.right()),
        KeyCode::Home => Some(draft.home()),
        KeyCode::End => Some(draft.end()),
        _ => None,
    }
}

/// Whether an editing key changes the text of a draft.
pub open spec fn changes_text(key: KeyCode) -> bool {
    key is Char || key is Backspace || key is Delete
}

/// The offset of the last of that many entries, as far as an offset goes.
pub open spec fn end_offset(n: nat) -> nat {
    capped(last_of(n))
}

impl AppView {
    /// A key in the form for the LLM settings.
    #[verifier::opaque]
    pub open spec fn form_key(self, key: KeyCode) -> AppView {
        match edited(self.draft, key) {
            Some(draft) => AppView { draft, ..self },
            None => match key {
                KeyCode::Up | KeyCode::BackTab => self.form_moved(false),
                KeyCode::Down | KeyCode::Tab => self.form_moved(true),
                KeyCode::Enter => self.form_saved(),
                KeyCode::Esc => self.form_cancelled(),
                _ => self,
            },
        }
    }

    /// A key in the file finder.
    #[verifier::opaque]
    pub open spec fn finder_key(self, key: KeyCode) -> AppView {
        match edited(self.draft, key) {
            Some(draft) => AppView {
                draft,
                finder_selected: if changes_text(key) {
                    0
                } else {
                    self.finder_selected
                },
                ..self
            },
            None => match key {
                KeyCode::Up => self.finder_moved(false),
                KeyCode::Down => self.finder_moved(true),
                KeyCode::Enter => AppView {
                    tree: self.tree.expanded(),
                    ..self
                }.finder_submitted(),
                KeyCode::Esc => self.in_modal(self.finder_return),
                _ => self,
            },
        }
    }

    /// Enter in a modal with one line to type. Opening and initialising a
    /// project are not up to one project.
    #[verifier::opaque]
    pub open spec fn modal_entered(self) -> AppView {
        match self.mode {
            Mode::Committing => self.commit_submitted(),
            Mode::NewBranch => self.branch_submitted(),
            Mode::StashPush => self.stash_submitted(),
            Mode::SetUpstream => self.upstream_submitted(),
            Mode::SetRemote => self.publish_submitted(),
            _ => self,
        }
    }

    /// A key in a modal with one line to type.
    #[verifier::opaque]
    pub open spec fn modal_key(self, key: KeyCode) -> AppView {
        match edited(self.draft, key) {
            Some(draft) => AppView { draft, ..self },
            None => match key {
                KeyCode::Up => if self.mode == Mode::Committing {
                    AppView { draft: self.draft.moved_row(false), ..self }
                } else {
                    self
                },
                KeyCode::Down => if self.mode == Mode::Committing {
                    AppView { draft: self.draft.moved_row(true), ..self }
                } else {
                    self
                },
                KeyCode::Enter => self.modal_entered(),
                KeyCode::Esc => self.in_modal(
                    if self.mode == Mode::SetUpstream || self.mode == Mode::SetRemote {
                        self.sync_return
                    } else {
                        Mode::Normal
                    },
                ),
                _ => self,
            },
        }
    }

    /// A page of the diff: the cursor moves where the diff is in focus, else
    /// the preview scrolls.
    #[verifier::opaque]
    pub open spec fn paged(self, delta: int) -> AppView {
        if self.focus == Focus::Diff && !self.shows_markdown() {
            self.cursor_moved(delta)
        } else {
            self.diff_scrolled(delta)
        }
    }

    /// A key while the diff is over the whole screen: the first of these that
    /// it is bound to.
    #[verifier::opaque]
    pub open spec fn full_key(self, key: KeyCode) -> AppView {
        let k = self.keys;
        let at = self.showing();
        if key == KeyCode::Esc {
            if self.viewer.visual is Some {
                AppView { viewer: self.viewer.unselected(), ..self }
            } else {
                self.diff_closed()
            }
        } else if k.toggle_markdown_preview.contains(key) {
            self.markdown_toggled()
        } else if k.find_files.contains(key) {
            self.finder_opened()
        } else if key == KeyCode::Up {
            self.cursor_moved(-1)
        } else if key == KeyCode::Down || k.nav_down.contains(key) {
            self.cursor_moved(1)
        } else if k.nav_up.contains(key) {
            self.cursor_moved(-1)
        } else if key == KeyCode::Char('h') || key == KeyCode::Left {
            self.column_moved(-1)
        } else if key == KeyCode::Char('l') || key == KeyCode::Right {
            self.column_moved(1)
        } else if key == KeyCode::Char('0') || key == KeyCode::Home {
            AppView { viewer: self.viewer.col_home(at), ..self }
        } else if key == KeyCode::End {
            AppView { viewer: self.viewer.col_end(at), ..self }
        } else if key == KeyCode::Char('v') {
            AppView { viewer: self.viewer.selecting(VisualMode::Charwise, at), ..self }
        } else if key == KeyCode::Char('V') {
            AppView { viewer: self.viewer.selecting(VisualMode::Linewise, at), ..self }
        } else if key == KeyCode::Char('y') {
            self.yanked()
        } else if k.stage.contains(key) {
            self.hunk_staged()
        } else if k.discard.contains(key) {
            self.loaded_discarded()
        } else if k.scroll_up.contains(key) {
            self.cursor_moved(-10)
        } else if k.scroll_down.contains(key) {
            self.cursor_moved(10)
        } else if key == KeyCode::Char('J') && !self.shows_markdown() {
            AppView { viewer: self.viewer.at_hunk(self.viewer.hunk + 1), ..self }
        } else if key == KeyCode::Char('K') && !self.shows_markdown() {
            AppView { viewer: self.viewer.at_hunk(last_of(self.viewer.hunk)), ..self }
        } else if k.sync_pull.contains(key) {
            self.pulled()
        } else if k.sync_push.contains(key) {
            self.pushed()
        } else if k.quit.contains(key) {
            AppView { quit: true, ..self }
        } else {
            self
        }
    }

    /// A key that brings a panel into focus or moves within one; nothing for
    /// any other key.
    #[verifier::opaque]
    pub open spec fn move_key(self, key: KeyCode) -> Option<AppView> {
        let k = self.keys;
        let at = self.showing();
        let in_diff = self.focus == Focus::Diff;
        if k.focus_next.contains(key) {
            Some(self.focus_cycled())
        } else if self.focus == Focus::Status && key == KeyCode::Left {
            Some(self.folder_toggled())
        } else if self.focus == Focus::Status && key == KeyCode::Right {
            Some(AppView { tree: self.tree.expanded_near(), ..self })
        } else if k.focus_status.contains(key) {
            Some(self.focused(Focus::Status))
        } else if k.focus_branches.contains(key) {
            Some(self.focused(Focus::Branches).branches_loaded())
        } else if k.focus_log.contains(key) {
            Some(self.focused(Focus::Log).log_loaded())
        } else if k.focus_stash.contains(key) {
            Some(self.focused(Focus::Stash).stash_loaded())
        } else if k.focus_diff.contains(key) {
            Some(self.focused(Focus::Diff))
        } else if k.nav_down.contains(key) {
            Some(self.moved(true))
        } else if k.nav_up.contains(key) {
            Some(self.moved(false))
        } else if key == KeyCode::Char('h') && in_diff {
            Some(AppView { viewer: self.viewer.col_moved(-1, at), ..self })
        } else if key == KeyCode::Char('l') && in_diff {
            Some(AppView { viewer: self.viewer.col_moved(1, at), ..self })
        } else if (key == KeyCode::Char('0') || key == KeyCode::Home) && in_diff {
            Some(AppView { viewer: self.viewer.col_home(at), ..self })
        } else if key == KeyCode::End && in_diff {
            Some(AppView { viewer: self.viewer.col_end(at), ..self })
        } else if key == KeyCode::Char('v') && in_diff {
            Some(AppView { viewer: self.viewer.selecting(VisualMode::Charwise, at), ..self })
        } else if key == KeyCode::Char('V') && in_diff {
            Some(AppView { viewer: self.viewer.selecting(VisualMode::Linewise, at), ..self })
        } else if key == KeyCode::Char('y') && in_diff {
            Some(self.yanked())
        } else {
            None
        }
    }

    /// A key that does something with what is selected.
    #[verifier::opaque]
    pub open spec fn action_key(self, key: KeyCode) -> AppView {
        let k = self.keys;
        if k.checkout.contains(key) && self.focus == Focus::Branches {
            self.checked_out()
        } else if k.stash_pop.contains(key) && self.focus == Focus::Stash {
            self.stash_popped()
        } else if key == KeyCode::Enter && (self.focus == Focus::Status || self.focus
            == Focus::Diff) {
            self.diff_opened()
        } else if k.stage.contains(key) {
            if self.focus == Focus::Status {
                self.stage_toggled()
            } else {
                self
            }
        } else if k.discard.contains(key) {
            if self.focus == Focus::Status {
                self.discarded()
            } else {
                self
            }
        } else if k.branch_new.contains(key) && self.focus == Focus::Branches {
            self.in_modal(Mode::NewBranch)
        } else if k.stash_push.contains(key) && self.focus == Focus::Stash {
            self.in_modal(Mode::StashPush)
        } else if k.branch_delete.contains(key) && self.focus == Focus::Branches {
            self.branch_deleted()
        } else if k.stash_drop.contains(key) && self.focus == Focus::Stash {
            self.stash_dropped()
        } else if k.scroll_up.contains(key) {
            self.paged(-10)
        } else if k.scroll_down.contains(key) {
            self.paged(10)
        } else if k.commit.contains(key) {
            self.in_modal(Mode::Committing)
        } else if k.toggle_markdown_preview.contains(key) {
            self.markdown_toggled()
        } else if k.llm_settings.contains(key) {
            self.form_opened()
        } else if k.find_files.contains(key) {
            self.finder_opened()
        } else if k.refresh.contains(key) {
            self.submitted(JobView::RefreshStatus)
        } else if k.sync_pull.contains(key) {
            self.pulled()
        } else if k.sync_push.contains(key) {
            self.pushed()
        } else if k.quit.contains(key) {
            AppView { quit: true, ..self }
        } else {
            self
        }
    }

    /// A key in the panels: the first thing that it is bound to.
    #[verifier::opaque]
    pub open spec fn normal_key(self, key: KeyCode) -> AppView {
        if key == KeyCode::Esc && self.viewer.visual is Some {
            AppView { viewer: self.viewer.unselected(), ..self }
        } else {
            match self.move_key(key) {
                Some(s) => s,
                None => self.action_key(key),
            }
        }
    }

    /// A key, by what the keyboard is for.
    #[verifier::opaque]
    pub open spec fn key(self, key: KeyCode) -> AppView {
        match self.mode {
            Mode::LlmSettings => self.form_key(key),
            Mode::FullDiff => self.full_key(key),
            Mode::FindFile => self.finder_key(key),
            Mode::Normal => self.normal_key(key),
            _ => self.modal_key(key),
        }
    }

    /// A key pressed, with or without Shift. It dismisses the last error and
    /// the last notice.
    #[verifier::opaque]
    pub open spec fn pressed(self, key: KeyCode, shift: bool) -> AppView {
        let s = AppView { error: None, notice: None, ..self };
        if s.mode == Mode::Committing && (key == KeyCode::Char('a') || key == KeyCode::Char('A'))
            && shift {
            s.generation_begun()
        } else if s.mode == Mode::Normal && s.focus == Focus::Status && key == KeyCode::Right
            && shift {
            s.focused(Focus::Diff)
        } else {
            s.key(key)
        }
    }

    /// A diff arrived. One that is no longer wanted is dropped; an empty one
    /// is replaced by the whole file.
    #[verifier::opaque]
    pub open spec fn diff_arrived(self, d: FileDiff) -> AppView {
        if !(self.diff_for matches Some((p, _)) && p == d.path@) {
            self
        } else if d.hunks@.len() == 0 && !d.binary && !self.diff_whole_file {
            AppView {
                fallback_whole_file: true,
                viewer: ViewerView { hunk: 0, scroll: 0, ..self.viewer.loaded(None) },
                diff_whole_file: true,
                ..self
            }.submitted(JobView::LoadFile { path: d.path@ })
        } else {
            let viewer = self.viewer.loaded(Some(d)).synced();
            if self.shows_markdown() {
                AppView {
                    viewer: ViewerView {
                        scroll: if viewer.scroll <= viewer.preview_max() {
                            viewer.scroll
                        } else {
                            viewer.preview_max()
                        },
                        ..viewer
                    },
                    ..self
                }
            } else {
                AppView { viewer: viewer.snapped(self.showing()), ..self }
            }
        }
    }

    /// The worker changed the repository: everything is asked for again.
    #[verifier::opaque]
    pub open spec fn mutation_done(self) -> AppView {
        AppView { syncing: None, ..self }.submitted(JobView::RefreshStatus).diff_reloaded()
            .branches_reloaded().log_reloaded().stash_reloaded().submitted(JobView::LoadSync)
    }

    /// What the user reads of a failure of the worker.
    pub open spec fn failure_text(e: GitError) -> Seq<char> {
        match e {
            GitError::EmptyCommit =>
                "nothing to commit: press space on a file to stage it, then c to commit"@,
            GitError::NotARepo(text) => text@,
            GitError::Other(text) => text@,
        }
    }

    /// A fresh status arrived.
    #[verifier::opaque]
    pub open spec fn status_arrived(self, st: RepoStatus) -> AppView {
        AppView { status: Some(st), tree: self.tree.rebuilt(Some(st)), error: None, ..self }
    }

    /// The text of a Markdown file arrived. One that is no longer wanted is
    /// dropped.
    #[verifier::opaque]
    pub open spec fn markdown_arrived(
        self,
        path: Seq<char>,
        staged: bool,
        text: Seq<char>,
    ) -> AppView {
        if self.md_for == Some((path, staged)) {
            AppView {
                md_text: Some(text),
                viewer: ViewerView { scroll: 0, ..self.viewer },
                ..self
            }
        } else {
            self
        }
    }

    /// The branches arrived.
    #[verifier::opaque]
    pub open spec fn branches_arrived(self, list: Seq<BranchInfo>) -> AppView {
        AppView {
            branch_selected: clamped(self.branch_selected, list.len()),
            branches: Some(list),
            ..self
        }
    }

    /// The log arrived.
    #[verifier::opaque]
    pub open spec fn log_arrived(self, list: Seq<CommitInfo>) -> AppView {
        AppView {
            log_scroll: if self.log_scroll <= end_offset(list.len()) {
                self.log_scroll
            } else {
                end_offset(list.len())
            },
            log: Some(list),
            ..self
        }
    }

    /// The stash arrived.
    #[verifier::opaque]
    pub open spec fn stash_arrived(self, list: Seq<StashEntry>) -> AppView {
        AppView {
            stash_selected: clamped(self.stash_selected, list.len()),
            stash: Some(list),
            ..self
        }
    }

    /// How the branch stands to its upstream arrived.
    #[verifier::opaque]
    pub open spec fn sync_arrived(self, st: SyncStatus) -> AppView {
        AppView { sync: Some(st), ..self }
    }

    /// A commit message arrived. It goes into the commit box only while that
    /// is still open.
    #[verifier::opaque]
    pub open spec fn message_arrived(self, text: Seq<char>) -> AppView {
        let s = AppView { generating: false, ..self };
        if self.mode == Mode::Committing {
            AppView { draft: s.draft.holding(text).end(), error: None, ..s }
        } else {
            s
        }
    }

    /// The worker failed.
    #[verifier::opaque]
    pub open spec fn error_arrived(self, e: GitError) -> AppView {
        AppView { syncing: None, generating: false, ..self }.failing(AppView::failure_text(e))
    }

    /// An answer of the worker taken in.
    #[verifier::opaque]
    pub open spec fn applied(self, result: JobResult) -> AppView {
        match result {
            JobResult::Status(st) => self.status_arrived(st),
            JobResult::Diff(d) => self.diff_arrived(d),
            JobResult::Markdown { path, staged, text } => self.markdown_arrived(
                path@,
                staged,
                text@,
            ),
            JobResult::Branches(list) => self.branches_arrived(list@),
            JobResult::Log(list) => self.log_arrived(list@),
            JobResult::Stash(list) => self.stash_arrived(list@),
            JobResult::SyncStatus(st) => self.sync_arrived(st),
            JobResult::GeneratedMessage(text) => self.message_arrived(text@),
            JobResult::MutationDone => self.mutation_done(),
            JobResult::Error(e) => self.error_arrived(e),
        }
    }

    /// The first `k` answers taken in, in order.
    pub open spec fn applied_all(self, results: Seq<JobResult>, k: nat) -> AppView
        decreases k,
    {
        if k == 0 {
            self
        } else {
            self.applied_all(results, (k - 1) as nat).applied(results[k - 1])
        }
    }

    /// The answers that are there taken in, and what the selected file needs
    /// asked for.
    #[verifier::opaque]
    pub open spec fn polled(self, results: Seq<JobResult>) -> AppView {
        self.applied_all(results, results.len()).diff_loaded().markdown_loaded()
    }

    /// The picker for a project open at a folder.
    #[verifier::opaque]
    pub open spec fn picker_opened(
        self,
        start: Seq<char>,
        listing: Result<Seq<DirEntry>, Seq<char>>,
    ) -> AppView {
        let browser = BrowserView {
            cwd: start,
            entries: Seq::empty(),
            view: Seq::empty(),
            selected: 0,
            error: None,
            editing_path: false,
            filter: Seq::empty(),
        };
        AppView {
            open_browser: Some(browser.rescanned(listing)),
            error: None,
            ..self.in_modal(Mode::OpenProject)
        }
    }

    /// The picker closed.
    #[verifier::opaque]
    pub open spec fn picker_closed(self) -> AppView {
        AppView { open_browser: None, ..self.in_modal(Mode::Normal) }
    }

    /// What is said in the picker, or in the footer where there is none.
    pub open spec fn browser_failing(self, message: Seq<char>) -> AppView {
        match self.open_browser {
            Some(b) => AppView {
                open_browser: Some(BrowserView { error: Some(message), ..b }),
                ..self
            },
            None => self.failing(message),
        }
    }
}

} // verus!
