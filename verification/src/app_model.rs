//! The state of one project, as contracts speak of it, and how keys and
//! answers of the worker change it.

use crate::browser::BrowserView;
use crate::config::{
    known_provider, provider_name, quoted_text, ConfigView, KeysView, LlmView, PROVIDER_LIST,
};
use crate::draft::DraftView;
use crate::fuzzy::is_ranking;
use crate::jobs::{JobView, QueueView};
use crate::llm_form::FormView;
use crate::markdown::markdown_path;
use crate::model::{
    BranchInfo, CommitInfo, DiffLine, FileState, LineKind, RepoStatus, StashEntry, StatusEntry,
    SyncStatus,
};
use crate::text::{decimal, index_of_char, is_blank, lines_from, trimmed};
use crate::theme::Theme;
use crate::tree::{clamped, last_of, lies_under, TreeView};
use crate::viewer::{between, Showing, ViewerView};
use vstd::prelude::*;
use vstd::string::*;

verus! {

/// What the keyboard is for: the panels, the diff over the whole screen, or a
/// modal.
#[derive(Clone, Copy, Debug, PartialEq, Eq, Structural)]
pub enum Mode {
    Normal,
    FullDiff,
    Committing,
    NewBranch,
    StashPush,
    FindFile,
    OpenProject,
    ConfirmInit,
    /// The draft names the remote to push to for the first time.
    SetUpstream,
    /// The draft is the URL of the new `origin`.
    SetRemote,
    LlmSettings,
}

/// Which panel the navigation keys are for.
#[derive(Clone, Copy, Debug, PartialEq, Eq, Structural)]
pub enum Focus {
    Status,
    Branches,
    Log,
    Stash,
    Diff,
}

/// How many commits the log panel loads.
pub const LOG_LIMIT: usize = 100;

/// A file and whether its staged changes are meant.
pub type TargetView = Option<(Seq<char>, bool)>;

/// What an app holds.
#[verifier::ext_equal]
pub struct AppView {
    pub queue: QueueView,
    pub keys: KeysView,
    pub theme: Theme,
    pub llm: LlmView,
    pub generating: bool,
    pub notice: Option<Seq<char>>,
    pub config_path: Option<Seq<char>>,
    pub form: FormView,
    pub repo_name: Seq<char>,
    pub status: Option<RepoStatus>,
    pub tree: TreeView,
    pub mode: Mode,
    pub focus: Focus,
    pub draft: DraftView,
    pub finder_selected: nat,
    pub finder_return: Mode,
    pub sync_return: Mode,
    pub error: Option<Seq<char>>,
    pub quit: bool,
    pub viewer: ViewerView,
    pub diff_for: TargetView,
    pub diff_whole_file: bool,
    pub fallback_whole_file: bool,
    pub branches: Option<Seq<BranchInfo>>,
    pub branch_selected: nat,
    pub log: Option<Seq<CommitInfo>>,
    pub log_scroll: nat,
    pub stash: Option<Seq<StashEntry>>,
    pub stash_selected: nat,
    pub sync: Option<SyncStatus>,
    pub syncing: Option<Seq<char>>,
    pub files_scroll: nat,
    pub branch_scroll: nat,
    pub stash_scroll: nat,
    pub open_browser: Option<BrowserView>,
    pub markdown_preview: bool,
    pub md_for: TargetView,
    pub md_text: Option<Seq<char>>,
    pub clipboard: Option<Seq<char>>,
    pub saving: bool,
}

/// Which files of a directory are meant.
pub enum Pick {
    /// Those with something to stage.
    Stageable,
    /// Those that are fully staged.
    Staged,
    /// Those with any change.
    Changed,
}

/// Whether a file in that state is meant.
pub open spec fn is_picked(state: FileState, pick: Pick) -> bool {
    match pick {
        Pick::Stageable => state != FileState::Clean && state != FileState::Staged,
        Pick::Staged => state == FileState::Staged,
        Pick::Changed => state != FileState::Clean,
    }
}

/// The paths of those of the first `k` files that lie under a directory and
/// are meant.
pub open spec fn picked(
    list: Seq<StatusEntry>,
    dir: Seq<char>,
    pick: Pick,
    k: nat,
) -> Seq<Seq<char>>
    decreases k,
{
    if k == 0 {
        Seq::empty()
    } else {
        let before = picked(list, dir, pick, (k - 1) as nat);
        if lies_under(list[k - 1].path@, dir) && is_picked(list[k - 1].state, pick) {
            before.push(list[k - 1].path@)
        } else {
            before
        }
    }
}

/// The first conflicted file under a directory, from the `i`-th on.
pub open spec fn conflict_under(list: Seq<StatusEntry>, dir: Seq<char>, i: int) -> Option<Seq<char>>
    decreases list.len() - i,
{
    if i < 0 || i >= list.len() {
        None
    } else if lies_under(list[i].path@, dir) && list[i].state == FileState::Conflicted {
        Some(list[i].path@)
    } else {
        conflict_under(list, dir, i + 1)
    }
}

/// The file of a path, from the `i`-th on.
pub open spec fn entry_of(list: Seq<StatusEntry>, path: Seq<char>, i: int) -> Option<StatusEntry>
    decreases list.len() - i,
{
    if i < 0 || i >= list.len() {
        None
    } else if list[i].path@ == path {
        Some(list[i])
    } else {
        entry_of(list, path, i + 1)
    }
}

/// The paths of files.
pub open spec fn paths_of(list: Seq<StatusEntry>) -> Seq<Seq<char>> {
    list.map_values(|e: StatusEntry| e.path@)
}

/// The files that a query finds, best first; all of them for an empty query.
pub open spec fn found_files(query: Seq<char>, list: Seq<StatusEntry>) -> Seq<nat> {
    if query.len() == 0 {
        Seq::new(list.len(), |i: int| i as nat)
    } else {
        let ranking = choose|r: Seq<(usize, u32)>|
            is_ranking(query, paths_of(list), list.len(), r);
        ranking.map_values(|x: (usize, u32)| x.0 as nat)
    }
}

/// The remote of an upstream: what stands before the first slash, or `origin`.
pub open spec fn remote_of(upstream: Seq<char>) -> Seq<char> {
    let at = index_of_char(upstream, 0, '/');
    if at < upstream.len() {
        upstream.take(at)
    } else {
        "origin"@
    }
}

/// The branch of an upstream: what stands behind the first slash, or all of it.
pub open spec fn branch_of(upstream: Seq<char>) -> Seq<char> {
    let at = index_of_char(upstream, 0, '/');
    if at < upstream.len() {
        upstream.skip(at + 1)
    } else {
        upstream
    }
}

/// What was yanked, for the user.
pub open spec fn yank_notice(text: Seq<char>) -> Seq<char> {
    if text.len() > 0 && text.last() == '\n' {
        let n = lines_from(text, 0).len();
        "yanked "@ + decimal(n) + (if n == 1 {
            " line"@
        } else {
            " lines"@
        })
    } else {
        "yanked "@ + decimal(text.len()) + " chars"@
    }
}

/// The settings that a form stands for.
pub open spec fn settings_of(form: FormView) -> LlmView {
    let model = trimmed(form.rows[1].0);
    let url = trimmed(form.rows[3].0);
    LlmView {
        provider: provider_name(form.rows[0].0),
        model: if model.len() == 0 {
            LlmView::defaults().model
        } else {
            model
        },
        api_key: trimmed(form.rows[2].0),
        base_url: if url.len() == 0 {
            None
        } else {
            Some(url)
        },
    }
}

/// The path of a target.
pub open spec fn path_of(target: TargetView) -> Option<Seq<char>> {
    match target {
        Some((path, _)) => Some(path),
        None => None,
    }
}

/// How many there are in a list that may not be loaded.
pub open spec fn count_of<A>(list: Option<Seq<A>>) -> nat {
    match list {
        Some(l) => l.len(),
        None => 0,
    }
}

impl AppView {
    /// A fresh app before it has asked for anything.
    pub open spec fn initial(config: ConfigView) -> AppView {
        AppView {
            queue: QueueView { pending: Seq::empty(), closed: None },
            keys: config.keys,
            theme: config.theme,
            llm: config.llm,
            generating: false,
            notice: None,
            config_path: None,
            form: FormView::empty(),
            repo_name: "repo"@,
            status: None,
            tree: TreeView::empty(),
            mode: Mode::Normal,
            focus: Focus::Status,
            draft: DraftView::empty(),
            finder_selected: 0,
            finder_return: Mode::Normal,
            sync_return: Mode::Normal,
            error: None,
            quit: false,
            viewer: ViewerView::empty(),
            diff_for: None,
            diff_whole_file: false,
            fallback_whole_file: false,
            branches: None,
            branch_selected: 0,
            log: None,
            log_scroll: 0,
            stash: None,
            stash_selected: 0,
            sync: None,
            syncing: None,
            files_scroll: 0,
            branch_scroll: 0,
            stash_scroll: 0,
            open_browser: None,
            markdown_preview: false,
            md_for: None,
            md_text: None,
            clipboard: None,
            saving: false,
        }
    }

    /// The app with an error shown.
    pub open spec fn failing(self, message: Seq<char>) -> AppView {
        AppView { error: Some(message), ..self }
    }

    /// The app with a notice shown.
    pub open spec fn noting(self, message: Seq<char>) -> AppView {
        AppView { notice: Some(message), ..self }
    }

    /// The app with a job on its way, or with the reason why none is taken.
    #[verifier::opaque]
    pub open spec fn submitted(self, job: JobView) -> AppView {
        match self.queue.closed {
            Some(why) => self.failing(why),
            None => AppView { queue: self.queue.with(job), ..self },
        }
    }

    /// The app with jobs on their way.
    #[verifier::opaque]
    pub open spec fn submitted_all(self, jobs: Seq<JobView>) -> AppView {
        if jobs.len() == 0 {
            self
        } else {
            match self.queue.closed {
                Some(why) => self.failing(why),
                None => AppView {
                    queue: QueueView { pending: self.queue.pending + jobs, ..self.queue },
                    ..self
                },
            }
        }
    }

    /// Every panel asked for.
    #[verifier::opaque]
    pub open spec fn preloaded(self) -> AppView {
        self.submitted_all(
            seq![
                JobView::ListBranches,
                JobView::ListLog { limit: LOG_LIMIT as nat },
                JobView::ListStash,
                JobView::LoadSync,
            ],
        )
    }

    /// Whether the selected file shows as a rendered document.
    pub open spec fn shows_markdown(self) -> bool {
        self.markdown_preview && (self.tree.file() matches Some(f) && markdown_path(f.path@))
    }

    /// How the diff shows.
    pub open spec fn showing(self) -> Showing {
        Showing { markdown: self.shows_markdown(), full: self.mode == Mode::FullDiff }
    }

    /// The diff that belongs to the selected file: the staged one for a fully
    /// staged file.
    pub open spec fn diff_target(self) -> TargetView {
        match self.tree.file() {
            Some(f) => Some((f.path@, f.state == FileState::Staged)),
            None => None,
        }
    }

    /// Whether the selected file has no change.
    pub open spec fn selected_is_clean(self) -> bool {
        self.tree.file() matches Some(f) && f.state == FileState::Clean
    }

    /// The job that loads a diff, or a whole file.
    pub open spec fn load_job(path: Seq<char>, staged: bool, whole: bool) -> JobView {
        if whole {
            JobView::LoadFile { path }
        } else {
            JobView::LoadDiff { path, staged }
        }
    }

    /// The diff of the selected file asked for, unless it is there or on its
    /// way.
    #[verifier::opaque]
    pub open spec fn diff_loaded(self) -> AppView {
        let target = self.diff_target();
        let fallback = self.fallback_whole_file && path_of(target) == path_of(self.diff_for);
        let whole = self.selected_is_clean() || fallback;
        let base = AppView { fallback_whole_file: fallback, ..self };
        if target == self.diff_for && whole == self.diff_whole_file {
            base
        } else {
            let next = AppView {
                diff_for: target,
                viewer: self.viewer.loaded(None).rewound(),
                diff_whole_file: whole,
                ..base
            };
            match target {
                Some((path, staged)) => next.submitted(AppView::load_job(path, staged, whole)),
                None => next,
            }
        }
    }

    /// The text of the selected Markdown file asked for, unless it is there or
    /// on its way.
    #[verifier::opaque]
    pub open spec fn markdown_loaded(self) -> AppView {
        let target = self.diff_target();
        if !self.shows_markdown() || target == self.md_for {
            self
        } else {
            let next = AppView { md_for: target, md_text: None, ..self };
            match target {
                Some((path, staged)) => next.submitted(JobView::LoadMarkdown { path, staged }),
                None => next,
            }
        }
    }

    /// The Markdown text asked for again.
    #[verifier::opaque]
    pub open spec fn markdown_reloaded(self) -> AppView {
        if !self.shows_markdown() {
            self
        } else {
            AppView { md_for: None, md_text: None, ..self }.markdown_loaded()
        }
    }

    /// The loaded diff asked for again.
    #[verifier::opaque]
    pub open spec fn diff_reloaded(self) -> AppView {
        (match self.diff_for {
            Some((path, staged)) => self.submitted(
                AppView::load_job(path, staged, self.diff_whole_file),
            ),
            None => self,
        }).markdown_reloaded()
    }

    /// The rendered document shown, or hidden again.
    #[verifier::opaque]
    pub open spec fn markdown_toggled(self) -> AppView {
        match self.tree.file() {
            None => self,
            Some(f) => if !markdown_path(f.path@) {
                self.failing("markdown preview is only for .md files (press enter for diff)"@)
            } else {
                let next = AppView {
                    markdown_preview: !self.markdown_preview,
                    viewer: ViewerView { scroll: 0, ..self.viewer }.unselected(),
                    ..self
                };
                if next.markdown_preview {
                    next.markdown_loaded()
                } else {
                    AppView { viewer: next.viewer.snapped(next.showing()), ..next }
                }
            },
        }
    }

    /// The branches asked for, if they are looked at and not there.
    #[verifier::opaque]
    pub open spec fn branches_loaded(self) -> AppView {
        if self.focus == Focus::Branches && self.branches is None {
            self.submitted(JobView::ListBranches)
        } else {
            self
        }
    }

    /// The log asked for, if it is looked at and not there.
    #[verifier::opaque]
    pub open spec fn log_loaded(self) -> AppView {
        if self.focus == Focus::Log && self.log is None {
            self.submitted(JobView::ListLog { limit: LOG_LIMIT as nat })
        } else {
            self
        }
    }

    /// The stash asked for, if it is looked at and not there.
    #[verifier::opaque]
    pub open spec fn stash_loaded(self) -> AppView {
        if self.focus == Focus::Stash && self.stash is None {
            self.submitted(JobView::ListStash)
        } else {
            self
        }
    }

    /// The branches asked for again, if they were there.
    #[verifier::opaque]
    pub open spec fn branches_reloaded(self) -> AppView {
        if self.branches is Some {
            AppView { branches: None, ..self }.submitted(JobView::ListBranches)
        } else {
            self
        }
    }

    /// The log asked for again, if it was there.
    #[verifier::opaque]
    pub open spec fn log_reloaded(self) -> AppView {
        if self.log is Some {
            AppView { log: None, ..self }.submitted(
                JobView::ListLog { limit: LOG_LIMIT as nat },
            )
        } else {
            self
        }
    }

    /// The stash asked for again, if it was there.
    #[verifier::opaque]
    pub open spec fn stash_reloaded(self) -> AppView {
        if self.stash is Some {
            AppView { stash: None, ..self }.submitted(JobView::ListStash)
        } else {
            self
        }
    }

    /// The panel in focus, and what it shows asked for.
    pub open spec fn focused(self, focus: Focus) -> AppView {
        AppView { focus, ..self }
    }

    /// The next panel of the left rail in focus.
    #[verifier::opaque]
    pub open spec fn focus_cycled(self) -> AppView {
        let focus = match self.focus {
            Focus::Status => Focus::Branches,
            Focus::Branches => Focus::Log,
            Focus::Log => Focus::Stash,
            Focus::Stash => Focus::Status,
            Focus::Diff => Focus::Status,
        };
        self.focused(focus).branches_loaded().log_loaded().stash_loaded()
    }

    /// The files cursor one row on.
    #[verifier::opaque]
    pub open spec fn tree_stepped(self, down: bool) -> AppView {
        match self.tree.step(down) {
            Some(tree) => AppView { tree, ..self }.diff_loaded(),
            None => self,
        }
    }

    /// The log scrolled.
    #[verifier::opaque]
    pub open spec fn log_scrolled(self, delta: int) -> AppView {
        let n = last_of(count_of(self.log));
        let max = if n <= u16::MAX {
            n as int
        } else {
            u16::MAX as int
        };
        AppView { log_scroll: between(self.log_scroll + delta, 0, max) as nat, ..self }
    }

    /// The diff scrolled.
    #[verifier::opaque]
    pub open spec fn diff_scrolled(self, delta: int) -> AppView {
        AppView {
            viewer: self.viewer.scrolled(delta, self.showing(), self.md_text),
            ..self
        }
    }

    /// The line cursor moved, or a rendered document scrolled.
    #[verifier::opaque]
    pub open spec fn cursor_moved(self, delta: int) -> AppView {
        if self.shows_markdown() {
            self.diff_scrolled(delta)
        } else {
            AppView { viewer: self.viewer.moved(delta, self.showing()), ..self }
        }
    }

    /// The block column moved, or a rendered document scrolled.
    #[verifier::opaque]
    pub open spec fn column_moved(self, delta: int) -> AppView {
        if self.shows_markdown() {
            self.diff_scrolled(delta)
        } else {
            AppView { viewer: self.viewer.col_moved(delta, self.showing()), ..self }
        }
    }

    /// The next or the previous entry of the panel in focus.
    #[verifier::opaque]
    pub open spec fn moved(self, down: bool) -> AppView {
        match self.focus {
            Focus::Status => self.tree_stepped(down),
            Focus::Branches => AppView {
                branch_selected: if down {
                    clamped(self.branch_selected + 1, count_of(self.branches))
                } else if self.branch_selected == 0 {
                    0
                } else {
                    (self.branch_selected - 1) as nat
                },
                ..self
            },
            Focus::Log => self.log_scrolled(
                if down {
                    1
                } else {
                    -1
                },
            ),
            Focus::Stash => AppView {
                stash_selected: if down {
                    clamped(self.stash_selected + 1, count_of(self.stash))
                } else if self.stash_selected == 0 {
                    0
                } else {
                    (self.stash_selected - 1) as nat
                },
                ..self
            },
            Focus::Diff => self.cursor_moved(
                if down {
                    1
                } else {
                    -1
                },
            ),
        }
    }

    /// The folder at the cursor folded or opened.
    #[verifier::opaque]
    pub open spec fn folder_toggled(self) -> AppView {
        let next = AppView { tree: self.tree.toggled(), ..self };
        if self.tree.can_toggle() {
            next
        } else {
            next.failing("nothing to collapse: file has no parent folder"@)
        }
    }

    /// The selected file over the whole screen.
    #[verifier::opaque]
    pub open spec fn diff_opened(self) -> AppView {
        if self.tree.file() is Some {
            let next = AppView { mode: Mode::FullDiff, ..self };
            AppView { viewer: next.viewer.snapped(next.showing()), ..next }
        } else {
            self
        }
    }

    /// Back from the whole screen.
    #[verifier::opaque]
    pub open spec fn diff_closed(self) -> AppView {
        let next = AppView { mode: Mode::Normal, ..self };
        AppView { viewer: next.viewer.snapped(next.showing()), ..next }
    }

    /// The selected text handed to the clipboard.
    #[verifier::opaque]
    pub open spec fn yanked(self) -> AppView {
        match self.viewer.yank_text() {
            None => self.failing("nothing to yank"@),
            Some(text) => AppView {
                viewer: self.viewer.unselected(),
                notice: Some(yank_notice(text)),
                clipboard: Some(text),
                ..self
            },
        }
    }

    /// The terminal would not take what was yanked.
    pub open spec fn clipboard_refused(self) -> AppView {
        self.failing("yanked, but the terminal refused the clipboard (OSC 52)"@)
    }

    /// What is said of a conflicted file.
    #[verifier::opaque]
    pub open spec fn conflicted(self, path: Seq<char>) -> AppView {
        self.failing("conflicted: resolve markers in "@ + path + " first"@)
    }

    /// A file staged, or unstaged where it is fully staged.
    #[verifier::opaque]
    pub open spec fn file_staged(self, file: StatusEntry) -> AppView {
        if file.state == FileState::Conflicted {
            self.conflicted(file.path@)
        } else if file.state == FileState::Clean {
            self.failing(file.path@ + " is unchanged — nothing to stage"@)
        } else if file.state == FileState::Staged {
            self.submitted(JobView::UnstageFile { path: file.path@ })
        } else {
            self.submitted(JobView::StageFile { path: file.path@ })
        }
    }

    /// The files under a directory that are meant.
    pub open spec fn under(self, dir: Seq<char>, pick: Pick) -> Seq<Seq<char>> {
        picked(self.tree.list, dir, pick, self.tree.list.len())
    }

    /// Every file under a directory staged, or unstaged where all are staged.
    #[verifier::opaque]
    pub open spec fn dir_staged(self, dir: Seq<char>) -> AppView {
        match conflict_under(self.tree.list, dir, 0) {
            Some(path) => self.conflicted(path),
            None => {
                let to_stage = self.under(dir, Pick::Stageable);
                let staged = self.under(dir, Pick::Staged);
                if to_stage.len() > 0 {
                    self.submitted_all(
                        to_stage.map_values(|path: Seq<char>| JobView::StageFile { path }),
                    )
                } else if staged.len() > 0 {
                    self.submitted_all(
                        staged.map_values(|path: Seq<char>| JobView::UnstageFile { path }),
                    )
                } else {
                    self.failing("nothing to stage under "@ + dir + "/"@)
                }
            },
        }
    }

    /// What is at the files cursor staged or unstaged.
    #[verifier::opaque]
    pub open spec fn stage_toggled(self) -> AppView {
        match self.tree.header() {
            Some(dir) => self.dir_staged(dir),
            None => match self.tree.file() {
                Some(file) => self.file_staged(file),
                None => self,
            },
        }
    }

    /// The changes of a file thrown away.
    #[verifier::opaque]
    pub open spec fn file_discarded(self, file: StatusEntry) -> AppView {
        if file.state == FileState::Conflicted {
            self.conflicted(file.path@)
        } else if file.state == FileState::Clean {
            self.failing(file.path@ + " is unchanged — nothing to discard"@)
        } else {
            self.submitted(JobView::DiscardFile { path: file.path@ })
        }
    }

    /// The changes of every file under a directory thrown away.
    #[verifier::opaque]
    pub open spec fn dir_discarded(self, dir: Seq<char>) -> AppView {
        match conflict_under(self.tree.list, dir, 0) {
            Some(path) => self.conflicted(path),
            None => {
                let dirty = self.under(dir, Pick::Changed);
                if dirty.len() == 0 {
                    self.failing("nothing to discard under "@ + dir + "/"@)
                } else {
                    self.submitted_all(
                        dirty.map_values(|path: Seq<char>| JobView::DiscardFile { path }),
                    )
                }
            },
        }
    }

    /// The changes of what is at the files cursor thrown away.
    #[verifier::opaque]
    pub open spec fn discarded(self) -> AppView {
        match self.tree.header() {
            Some(dir) => self.dir_discarded(dir),
            None => match self.tree.file() {
                Some(file) => self.file_discarded(file),
                None => self,
            },
        }
    }

    /// The changes of the file over the whole screen thrown away.
    #[verifier::opaque]
    pub open spec fn loaded_discarded(self) -> AppView {
        match self.diff_for {
            None => self.failing("no diff loaded"@),
            Some((path, _)) => match entry_of(self.tree.list, path, 0) {
                Some(file) => self.file_discarded(file),
                None => self.submitted(JobView::DiscardFile { path }),
            },
        }
    }

    /// Whether the selected hunk holds an added or deleted line.
    pub open spec fn hunk_has_changes(self) -> bool {
        self.viewer.diff matches Some(d) && self.viewer.hunk < d.hunks@.len() && any_change(
            d.hunks@[self.viewer.hunk as int].lines@,
        )
    }

    /// The selected hunk staged.
    #[verifier::opaque]
    pub open spec fn hunk_staged(self) -> AppView {
        match self.diff_for {
            None => self.failing("no diff loaded"@),
            Some((path, staged)) => if staged {
                self.failing(
                    "hunk is already staged — switch to status (1) and space toggles the file"@,
                )
            } else if self.viewer.diff is None {
                self.failing("no diff loaded"@)
            } else if !self.hunk_has_changes() {
                self.failing("nothing to stage in this hunk"@)
            } else {
                self.submitted(JobView::StageHunk { path, hunk_index: self.viewer.hunk })
            },
        }
    }

    /// A modal open, with an empty draft.
    pub open spec fn in_modal(self, mode: Mode) -> AppView {
        AppView { mode, draft: self.draft.erased(), ..self }
    }

    /// A job of a modal submitted and the modal closed, or kept with the reason
    /// why no job is taken.
    #[verifier::opaque]
    pub open spec fn modal_submitted(self, job: JobView) -> AppView {
        match self.queue.closed {
            Some(why) => self.failing(why),
            None => self.submitted(job).in_modal(Mode::Normal),
        }
    }

    /// The commit made, unless there is no message yet.
    #[verifier::opaque]
    pub open spec fn commit_submitted(self) -> AppView {
        if self.generating {
            self.noting("still generating a message…"@)
        } else if is_blank(self.draft.text) {
            self.noting("type a commit message first"@)
        } else {
            self.modal_submitted(JobView::Commit { message: self.draft.text })
        }
    }

    /// The branch made, unless it has no name.
    #[verifier::opaque]
    pub open spec fn branch_submitted(self) -> AppView {
        if is_blank(self.draft.text) {
            self
        } else {
            self.modal_submitted(JobView::CreateBranch { name: self.draft.text })
        }
    }

    /// The changes stashed, unless there is no message.
    #[verifier::opaque]
    pub open spec fn stash_submitted(self) -> AppView {
        if is_blank(self.draft.text) {
            self
        } else {
            self.modal_submitted(JobView::StashPush { message: self.draft.text })
        }
    }

    /// The selected branch.
    pub open spec fn branch(self) -> Option<BranchInfo> {
        match self.branches {
            Some(list) => if list.len() == 0 {
                None
            } else {
                Some(list[clamped(self.branch_selected, list.len()) as int])
            },
            None => None,
        }
    }

    /// The selected stash entry.
    pub open spec fn stash_entry(self) -> Option<StashEntry> {
        match self.stash {
            Some(list) => if list.len() == 0 {
                None
            } else {
                Some(list[clamped(self.stash_selected, list.len()) as int])
            },
            None => None,
        }
    }

    /// The selected branch checked out.
    #[verifier::opaque]
    pub open spec fn checked_out(self) -> AppView {
        match self.branch() {
            Some(b) => self.submitted(JobView::CheckoutBranch { name: b.name@ }),
            None => self,
        }
    }

    /// The selected branch deleted.
    #[verifier::opaque]
    pub open spec fn branch_deleted(self) -> AppView {
        match self.branch() {
            Some(b) => self.submitted(JobView::DeleteBranch { name: b.name@ }),
            None => self,
        }
    }

    /// The selected stash entry applied and dropped.
    #[verifier::opaque]
    pub open spec fn stash_popped(self) -> AppView {
        match self.stash_entry() {
            Some(e) => self.submitted(JobView::StashPop { index: e.index as nat }),
            None => self,
        }
    }

    /// The selected stash entry dropped.
    #[verifier::opaque]
    pub open spec fn stash_dropped(self) -> AppView {
        match self.stash_entry() {
            Some(e) => self.submitted(JobView::StashDrop { index: e.index as nat }),
            None => self,
        }
    }

    /// The files that the finder's query finds.
    pub open spec fn found(self) -> Seq<nat> {
        found_files(self.draft.text, self.tree.list)
    }

    /// The file finder open.
    #[verifier::opaque]
    pub open spec fn finder_opened(self) -> AppView {
        AppView {
            finder_return: self.mode,
            finder_selected: clamped(self.tree.selected, self.tree.list.len()),
            ..self.in_modal(Mode::FindFile)
        }
    }

    /// The next or the previous match highlighted.
    #[verifier::opaque]
    pub open spec fn finder_moved(self, down: bool) -> AppView {
        let n = self.found().len();
        let at = clamped(self.finder_selected, n);
        AppView {
            finder_selected: if n == 0 {
                0
            } else if down {
                clamped(at + 1, n)
            } else if at == 0 {
                0
            } else {
                (at - 1) as nat
            },
            ..self
        }
    }

    /// The highlighted match selected in the tree and the finder closed.
    #[verifier::opaque]
    pub open spec fn finder_submitted(self) -> AppView {
        let found = self.found();
        if found.len() == 0 {
            self
        } else {
            let index = found[clamped(self.finder_selected, found.len()) as int];
            AppView {
                tree: self.tree.jumped(index),
                focus: Focus::Status,
                finder_selected: 0,
                ..self.in_modal(self.finder_return)
            }.diff_loaded()
        }
    }

    /// A pull begun.
    #[verifier::opaque]
    pub open spec fn pulled(self) -> AppView {
        match self.queue.closed {
            Some(why) => AppView { syncing: None, ..self }.failing(why),
            None => AppView { syncing: Some("pulling…"@), ..self }.submitted(JobView::Pull),
        }
    }

    /// A push begun, or what is missing for it asked for.
    #[verifier::opaque]
    pub open spec fn pushed(self) -> AppView {
        match (self.status, self.sync) {
            (None, _) => self.failing("still loading — try again in a moment"@),
            (Some(_), None) => self.submitted(JobView::LoadSync).failing(
                "loading remotes — press P again in a moment"@,
            ),
            (Some(st), Some(sync)) => {
                let s = AppView { sync_return: self.mode, ..self };
                if sync.remotes@.len() == 0 {
                    AppView { mode: Mode::SetRemote, draft: s.draft.cleared(), ..s }
                } else {
                    match sync.upstream {
                        Some(upstream) => match s.queue.closed {
                            Some(why) => AppView { syncing: None, ..s }.failing(why),
                            None => AppView { syncing: Some("pushing…"@), ..s }.submitted(
                                JobView::Push {
                                    remote: remote_of(upstream@),
                                    branch: st.branch@,
                                    set_upstream: false,
                                },
                            ),
                        },
                        None => AppView {
                            mode: Mode::SetUpstream,
                            draft: s.draft.holding("origin"@).end(),
                            ..s
                        },
                    }
                }
            },
        }
    }

    /// A sync job of a modal submitted and the modal closed.
    #[verifier::opaque]
    pub open spec fn sync_submitted(self, job: JobView, label: Seq<char>) -> AppView {
        match self.queue.closed {
            Some(why) => self.failing(why),
            None => AppView {
                mode: self.sync_return,
                draft: self.draft.cleared(),
                syncing: Some(label),
                ..self
            }.submitted(job),
        }
    }

    /// The first push to the remote that was typed.
    #[verifier::opaque]
    pub open spec fn upstream_submitted(self) -> AppView {
        let remote = trimmed(self.draft.text);
        if remote.len() == 0 {
            self
        } else {
            match self.status {
                None => self.failing("still loading — try again in a moment"@),
                Some(st) => self.sync_submitted(
                    JobView::Push { remote, branch: st.branch@, set_upstream: true },
                    "pushing…"@,
                ),
            }
        }
    }

    /// The repository published at the URL that was typed.
    #[verifier::opaque]
    pub open spec fn publish_submitted(self) -> AppView {
        let url = trimmed(self.draft.text);
        if url.len() == 0 {
            self
        } else {
            match self.status {
                None => self.failing("still loading — try again in a moment"@),
                Some(st) => self.sync_submitted(
                    JobView::Publish { remote: "origin"@, url, branch: st.branch@ },
                    "publishing…"@,
                ),
            }
        }
    }

    /// A commit message asked for, unless one is on its way.
    #[verifier::opaque]
    pub open spec fn generation_begun(self) -> AppView {
        if self.mode != Mode::Committing || self.generating {
            self
        } else {
            match self.queue.closed {
                Some(why) => self.failing(why),
                None => AppView { generating: true, error: None, ..self }.submitted(
                    JobView::GenerateCommitMessage { llm: self.llm },
                ),
            }
        }
    }

    /// The form for the LLM settings open.
    #[verifier::opaque]
    pub open spec fn form_opened(self) -> AppView {
        AppView {
            mode: Mode::LlmSettings,
            error: None,
            notice: None,
            form: FormView::filled(self.llm),
            draft: self.draft.holding(self.llm.provider).end(),
            ..self
        }
    }

    /// The form closed without saving.
    #[verifier::opaque]
    pub open spec fn form_cancelled(self) -> AppView {
        AppView { mode: Mode::Normal, draft: self.draft.cleared(), ..self }
    }

    /// Another row of the form edited.
    #[verifier::opaque]
    pub open spec fn form_moved(self, down: bool) -> AppView {
        let form = self.form.moved(self.draft, down);
        AppView { form, draft: form.draft_of(form.selected, self.draft), ..self }
    }

    /// The form closed after saving.
    #[verifier::opaque]
    pub open spec fn form_done(self, notice: Seq<char>) -> AppView {
        AppView { notice: Some(notice), error: None, ..self.form_cancelled() }
    }

    /// The form checked and its settings taken; then they are to be written to
    /// the configuration file, if there is one.
    #[verifier::opaque]
    pub open spec fn form_saved(self) -> AppView {
        let s = AppView { form: self.form.kept(self.draft), ..self };
        let llm = settings_of(s.form);
        if !known_provider(llm.provider) {
            s.failing(
                "unknown provider "@ + quoted_text(llm.provider) + " (expected one of: "@
                    + PROVIDER_LIST@ + ")"@,
            )
        } else {
            let s = AppView { llm, ..s };
            match s.config_path {
                Some(_) => AppView { saving: true, ..s },
                None => s.form_done("LLM settings updated for this session"@),
            }
        }
    }

    /// The settings written, or the reason why not.
    #[verifier::opaque]
    pub open spec fn save_finished(self, done: Result<(), Seq<char>>) -> AppView {
        let s = AppView { saving: false, ..self };
        match (done, self.config_path) {
            (Err(e), _) => s.failing(e),
            (Ok(_), Some(path)) => s.form_done("LLM settings saved to "@ + path),
            (Ok(_), None) => s.form_done("LLM settings updated for this session"@),
        }
    }
}

/// Whether one of some lines is added or deleted.
pub open spec fn any_change(lines: Seq<DiffLine>) -> bool {
    exists|i: int| 0 <= i < lines.len() && is_change((#[trigger] lines[i]).kind)
}

/// Whether a line is added or deleted.
pub open spec fn is_change(kind: LineKind) -> bool {
    kind == LineKind::Add || kind == LineKind::Del
}

} // verus!
