//! The state machine of one project: what is selected, staged, typed and
//! shown.

use crate::app_model::{path_of, yank_notice, AppView, Focus, Mode, TargetView, LOG_LIMIT};
use crate::browser::{BrowserView, OpenBrowser};
use crate::config::{Config, KeyBindings, LlmConfig};
use crate::draft::Draft;
use crate::jobs::{jobs_view, Job, JobQueue, JobView};
use crate::llm_form::LlmForm;
use crate::markdown::is_markdown_path;
use crate::model::{BranchInfo, CommitInfo, FileState, RepoStatus, StashEntry, SyncStatus};
use crate::text::{all_white, chars_of, number_text, opt_text, same_text, split_lines, texts};
use crate::theme::Theme;
use crate::tree::{clamp_to, Tree};
use crate::viewer::{Showing, Viewer};
use vstd::prelude::*;
use vstd::string::*;

verus! {

/// What a target holds.
pub open spec fn target_view(target: Option<(String, bool)>) -> TargetView {
    match target {
        Some((path, staged)) => Some((path@, staged)),
        None => None,
    }
}

/// What a list that may not be loaded holds.
pub open spec fn list_view<A>(list: Option<Vec<A>>) -> Option<Seq<A>> {
    match list {
        Some(l) => Some(l@),
        None => None,
    }
}

/// What the picker for a project holds.
pub open spec fn browser_view(browser: Option<OpenBrowser>) -> Option<BrowserView> {
    match browser {
        Some(b) => Some(b@),
        None => None,
    }
}

/// The state of one project. What git does happens on a worker; here are the
/// snapshots that it sent, and the jobs that wait for it.
#[derive(Debug)]
pub struct App {
    pub queue: JobQueue,
    pub keys: KeyBindings,
    pub theme: Theme,
    pub llm: LlmConfig,
    /// A commit message is being written by the model.
    pub generating: bool,
    /// A line of good news, until the next key.
    pub notice: Option<String>,
    /// Where the configuration file is.
    pub config_path: Option<String>,
    pub form: LlmForm,
    pub repo_name: String,
    pub status: Option<RepoStatus>,
    pub tree: Tree,
    pub mode: Mode,
    pub focus: Focus,
    pub draft: Draft,
    pub finder_selected: usize,
    /// Where the finder goes back to.
    pub finder_return: Mode,
    /// Where the push and publish modals go back to.
    pub sync_return: Mode,
    pub error: Option<String>,
    pub quit: bool,
    pub viewer: Viewer,
    /// The file that the diff belongs to, and whether it is the staged one.
    pub diff_for: Option<(String, bool)>,
    /// The diff is the whole file.
    pub diff_whole_file: bool,
    /// It is the whole file because the diff came empty.
    pub fallback_whole_file: bool,
    pub branches: Option<Vec<BranchInfo>>,
    pub branch_selected: usize,
    pub log: Option<Vec<CommitInfo>>,
    pub log_scroll: u16,
    pub stash: Option<Vec<StashEntry>>,
    pub stash_selected: usize,
    pub sync: Option<SyncStatus>,
    /// A push, pull or publish is under way.
    pub syncing: Option<String>,
    pub files_scroll: usize,
    pub branch_scroll: usize,
    pub stash_scroll: usize,
    pub open_browser: Option<OpenBrowser>,
    pub markdown_preview: bool,
    pub md_for: Option<(String, bool)>,
    pub md_text: Option<String>,
    /// A text on its way to the clipboard.
    pub clipboard: Option<String>,
    /// The LLM settings are to be written to the configuration file.
    pub saving: bool,
}

impl View for App {
    type V = AppView;

    open spec fn view(&self) -> AppView {
        AppView {
            queue: self.queue@,
            keys: self.keys@,
            theme: self.theme,
            llm: self.llm@,
            generating: self.generating,
            notice: opt_text(self.notice),
            config_path: opt_text(self.config_path),
            form: self.form@,
            repo_name: self.repo_name@,
            status: self.status,
            tree: self.tree@,
            mode: self.mode,
            focus: self.focus,
            draft: self.draft@,
            finder_selected: self.finder_selected as nat,
            finder_return: self.finder_return,
            sync_return: self.sync_return,
            error: opt_text(self.error),
            quit: self.quit,
            viewer: self.viewer@,
            diff_for: target_view(self.diff_for),
            diff_whole_file: self.diff_whole_file,
            fallback_whole_file: self.fallback_whole_file,
            branches: list_view(self.branches),
            branch_selected: self.branch_selected as nat,
            log: list_view(self.log),
            log_scroll: self.log_scroll as nat,
            stash: list_view(self.stash),
            stash_selected: self.stash_selected as nat,
            sync: self.sync,
            syncing: opt_text(self.syncing),
            files_scroll: self.files_scroll as nat,
            branch_scroll: self.branch_scroll as nat,
            stash_scroll: self.stash_scroll as nat,
            open_browser: browser_view(self.open_browser),
            markdown_preview: self.markdown_preview,
            md_for: target_view(self.md_for),
            md_text: opt_text(self.md_text),
            clipboard: opt_text(self.clipboard),
            saving: self.saving,
        }
    }
}

pub(crate) fn same_target(a: &Option<(String, bool)>, b: &Option<(String, bool)>) -> (same: bool)
    ensures
        same == (target_view(*a) == target_view(*b)),
{
    match (a, b) {
        (Some((p, s)), Some((q, t))) => same_text(p.as_str(), q.as_str()) && *s == *t,
        (None, None) => true,
        _ => false,
    }
}

pub(crate) fn same_path(a: &Option<(String, bool)>, b: &Option<(String, bool)>) -> (same: bool)
    ensures
        same == (path_of(target_view(*a)) == path_of(target_view(*b))),
{
    match (a, b) {
        (Some((p, _)), Some((q, _))) => same_text(p.as_str(), q.as_str()),
        (None, None) => true,
        _ => false,
    }
}

pub(crate) fn is_blank_text(s: &str) -> (blank: bool)
    ensures
        blank == crate::text::is_blank(s@),
{
    all_white(&chars_of(s))
}

impl App {
    pub(crate) fn fail(&mut self, message: &str)
        ensures
            final(self)@ == old(self)@.failing(message@),
    {
        self.error = Some(message.to_owned());
    }

    pub(crate) fn note(&mut self, message: &str)
        ensures
            final(self)@ == old(self)@.noting(message@),
    {
        self.notice = Some(message.to_owned());
    }

    pub(crate) fn submit(&mut self, job: Job)
        ensures
            final(self)@ == old(self)@.submitted(job@),
    {
        proof {
            reveal(AppView::submitted);
        }
        match self.queue.submit(job) {
            Ok(()) => {},
            Err(why) => {
                self.error = Some(why);
            },
        }
    }

    pub(crate) fn submit_all(&mut self, jobs: Vec<Job>)
        ensures
            final(self)@ == old(self)@.submitted_all(jobs_view(jobs@)),
    {
        proof {
            reveal(AppView::submitted_all);
        }
        assert(jobs_view(jobs@).len() == jobs@.len());
        if jobs.len() == 0 {
            return;
        }
        match &self.queue.closed {
            Some(why) => {
                self.error = Some(why.clone());
            },
            None => {
                let mut jobs = jobs;
                let ghost more = jobs@;
                let ghost before = self.queue.pending@;
                self.queue.pending.append(&mut jobs);
                assert(jobs_view(self.queue.pending@) =~= jobs_view(before) + jobs_view(more));
            },
        }
    }

    /// A fresh app that has asked for the status and for every panel.
    pub fn new_with_config(config: Config) -> (app: App)
        ensures
            app@ == AppView::initial(config@).submitted(JobView::RefreshStatus).preloaded(),
    {
        let mut app = App {
            queue: JobQueue::new(),
            keys: config.keys,
            theme: config.theme,
            llm: config.llm,
            generating: false,
            notice: None,
            config_path: None,
            form: LlmForm::new(),
            repo_name: "repo".to_owned(),
            status: None,
            tree: Tree::new(),
            mode: Mode::Normal,
            focus: Focus::Status,
            draft: Draft::new(),
            finder_selected: 0,
            finder_return: Mode::Normal,
            sync_return: Mode::Normal,
            error: None,
            quit: false,
            viewer: Viewer::new(),
            diff_for: None,
            diff_whole_file: false,
            fallback_whole_file: false,
            branches: None,
            branch_selected: 0,
            log: None,
            log_scroll: 0,
            stash: None,
            stash_selected: 0,
            sync: None,
            syncing: None,
            files_scroll: 0,
            branch_scroll: 0,
            stash_scroll: 0,
            open_browser: None,
            markdown_preview: false,
            md_for: None,
            md_text: None,
            clipboard: None,
            saving: false,
        };
        assert(app@ =~= AppView::initial(config@));
        app.refresh();
        app.preload_panels();
        app
    }

    /// A fresh app with the settings out of the box.
    pub fn new() -> (app: App)
        ensures
            app@ == AppView::initial(crate::config::ConfigView::defaults()).submitted(
                JobView::RefreshStatus,
            ).preloaded(),
    {
        App::new_with_config(Config::default())
    }

    pub(crate) fn refresh(&mut self)
        ensures
            final(self)@ == old(self)@.submitted(JobView::RefreshStatus),
    {
        proof {
            reveal(AppView::submitted);
        }
        self.submit(Job::RefreshStatus);
    }

    pub(crate) fn preload_panels(&mut self)
        ensures
            final(self)@ == old(self)@.preloaded(),
    {
        proof {
            reveal(AppView::preloaded);
        }
        let mut jobs: Vec<Job> = Vec::new();
        jobs.push(Job::ListBranches);
        jobs.push(Job::ListLog { limit: LOG_LIMIT });
        jobs.push(Job::ListStash);
        jobs.push(Job::LoadSync);
        assert(jobs_view(jobs@) =~= seq![
            JobView::ListBranches,
            JobView::ListLog { limit: LOG_LIMIT as nat },
            JobView::ListStash,
            JobView::LoadSync,
        ]);
        self.submit_all(jobs);
    }
}

impl App {
    /// Whether the selected file shows as a rendered document.
    pub fn show_markdown_preview(&self) -> (yes: bool)
        ensures
            yes == self@.shows_markdown(),
    {
        self.markdown_preview && match self.tree.file() {
            Some(f) => is_markdown_path(f.path.as_str()),
            None => false,
        }
    }

    pub(crate) fn showing(&self) -> (at: Showing)
        ensures
            at == self@.showing(),
    {
        Showing { markdown: self.show_markdown_preview(), full: self.mode == Mode::FullDiff }
    }

    pub(crate) fn diff_target(&self) -> (target: Option<(String, bool)>)
        ensures
            target_view(target) == self@.diff_target(),
    {
        match self.tree.file() {
            Some(f) => Some((f.path.clone(), f.state == FileState::Staged)),
            None => None,
        }
    }

    pub(crate) fn selected_is_clean(&self) -> (yes: bool)
        ensures
            yes == self@.selected_is_clean(),
    {
        match self.tree.file() {
            Some(f) => f.state == FileState::Clean,
            None => false,
        }
    }

    /// Asks for the diff of the selected file, unless it is there or on its
    /// way.
    pub(crate) fn maybe_load_diff(&mut self)
        ensures
            final(self)@ == old(self)@.diff_loaded(),
    {
        proof {
            reveal(AppView::diff_loaded);
        }
        let target = self.diff_target();
        self.fallback_whole_file = self.fallback_whole_file && same_path(&target, &self.diff_for);
        let whole = self.selected_is_clean() || self.fallback_whole_file;
        if same_target(&target, &self.diff_for) && whole == self.diff_whole_file {
            return;
        }
        self.viewer.load(None);
        self.viewer.rewind();
        self.diff_whole_file = whole;
        let job = match &target {
            Some((path, staged)) => if whole {
                Some(Job::LoadFile { path: path.clone() })
            } else {
                Some(Job::LoadDiff { path: path.clone(), staged: *staged })
            },
            None => None,
        };
        self.diff_for = target;
        if let Some(job) = job {
            self.submit(job);
        }
    }

    /// Asks for the text of the selected Markdown file, unless it is there or
    /// on its way.
    pub(crate) fn maybe_load_markdown(&mut self)
        ensures
            final(self)@ == old(self)@.markdown_loaded(),
    {
        proof {
            reveal(AppView::markdown_loaded);
        }
        if !self.show_markdown_preview() {
            return;
        }
        let target = self.diff_target();
        if same_target(&target, &self.md_for) {
            return;
        }
        self.md_text = None;
        let job = match &target {
            Some((path, staged)) => Some(
                Job::LoadMarkdown { path: path.clone(), staged: *staged },
            ),
            None => None,
        };
        self.md_for = target;
        if let Some(job) = job {
            self.submit(job);
        }
    }

    pub(crate) fn reload_markdown(&mut self)
        ensures
            final(self)@ == old(self)@.markdown_reloaded(),
    {
        proof {
            reveal(AppView::markdown_reloaded);
        }
        if !self.show_markdown_preview() {
            return;
        }
        self.md_for = None;
        self.md_text = None;
        self.maybe_load_markdown();
    }

    pub(crate) fn reload_diff(&mut self)
        ensures
            final(self)@ == old(self)@.diff_reloaded(),
    {
        proof {
            reveal(AppView::diff_reloaded);
        }
        let job = match &self.diff_for {
            Some((path, staged)) => if self.diff_whole_file {
                Some(Job::LoadFile { path: path.clone() })
            } else {
                Some(Job::LoadDiff { path: path.clone(), staged: *staged })
            },
            None => None,
        };
        if let Some(job) = job {
            self.submit(job);
        }
        self.reload_markdown();
    }

    /// Shows the rendered document of a Markdown file, or hides it again.
    pub fn toggle_markdown_preview(&mut self)
        ensures
            final(self)@ == old(self)@.markdown_toggled(),
    {
        proof {
            reveal(AppView::markdown_toggled);
        }
        let is_markdown = match self.tree.file() {
            None => {
                return;
            },
            Some(f) => is_markdown_path(f.path.as_str()),
        };
        if !is_markdown {
            self.fail("markdown preview is only for .md files (press enter for diff)");
            return;
        }
        self.markdown_preview = !self.markdown_preview;
        self.viewer.set_scroll(0);
        self.viewer.leave_visual();
        if self.markdown_preview {
            self.maybe_load_markdown();
        } else {
            let at = self.showing();
            self.viewer.snap_scroll(at);
        }
    }

    pub(crate) fn maybe_load_branches(&mut self)
        ensures
            final(self)@ == old(self)@.branches_loaded(),
    {
        proof {
            reveal(AppView::branches_loaded);
        }
        if self.focus == Focus::Branches && self.branches.is_none() {
            self.submit(Job::ListBranches);
        }
    }

    pub(crate) fn maybe_load_log(&mut self)
        ensures
            final(self)@ == old(self)@.log_loaded(),
    {
        proof {
            reveal(AppView::log_loaded);
        }
        if self.focus == Focus::Log && self.log.is_none() {
            self.submit(Job::ListLog { limit: LOG_LIMIT });
        }
    }

    pub(crate) fn maybe_load_stash(&mut self)
        ensures
            final(self)@ == old(self)@.stash_loaded(),
    {
        proof {
            reveal(AppView::stash_loaded);
        }
        if self.focus == Focus::Stash && self.stash.is_none() {
            self.submit(Job::ListStash);
        }
    }

    pub(crate) fn reload_branches(&mut self)
        ensures
            final(self)@ == old(self)@.branches_reloaded(),
    {
        proof {
            reveal(AppView::branches_reloaded);
        }
        if self.branches.is_some() {
            self.branches = None;
            self.submit(Job::ListBranches);
        }
    }

    pub(crate) fn reload_log(&mut self)
        ensures
            final(self)@ == old(self)@.log_reloaded(),
    {
        proof {
            reveal(AppView::log_reloaded);
        }
        if self.log.is_some() {
            self.log = None;
            self.submit(Job::ListLog { limit: LOG_LIMIT });
        }
    }

    pub(crate) fn reload_stash(&mut self)
        ensures
            final(self)@ == old(self)@.stash_reloaded(),
    {
        proof {
            reveal(AppView::stash_reloaded);
        }
        if self.stash.is_some() {
            self.stash = None;
            self.submit(Job::ListStash);
        }
    }

    pub(crate) fn focus_on(&mut self, focus: Focus)
        ensures
            final(self)@ == old(self)@.focused(focus),
    {
        self.focus = focus;
    }

    /// Brings the next panel of the left rail into focus.
    pub(crate) fn cycle_focus(&mut self)
        ensures
            final(self)@ == old(self)@.focus_cycled(),
    {
        proof {
            reveal(AppView::focus_cycled);
        }
        let focus = match self.focus {
            Focus::Status => Focus::Branches,
            Focus::Branches => Focus::Log,
            Focus::Log => Focus::Stash,
            Focus::Stash => Focus::Status,
            Focus::Diff => Focus::Status,
        };
        self.focus_on(focus);
        self.maybe_load_branches();
        self.maybe_load_log();
        self.maybe_load_stash();
    }

    /// Moves the files cursor by one of the rows that show.
    pub(crate) fn step_tree(&mut self, down: bool)
        ensures
            final(self)@ == old(self)@.tree_stepped(down),
    {
        proof {
            reveal(AppView::tree_stepped);
        }
        if self.tree.step(down) {
            self.maybe_load_diff();
        }
    }

    pub(crate) fn scroll_log_by(&mut self, delta: i32)
        requires
            -1 <= delta <= 1,
        ensures
            final(self)@ == old(self)@.log_scrolled(delta as int),
    {
        proof {
            reveal(AppView::log_scrolled);
        }
        let n = match &self.log {
            Some(l) => l.len(),
            None => 0,
        };
        let last = if n == 0 {
            0
        } else {
            n - 1
        };
        let max: i64 = if last <= u16::MAX as usize {
            last as i64
        } else {
            u16::MAX as i64
        };
        let to: i64 = self.log_scroll as i64 + delta as i64;
        self.log_scroll = if to < 0 {
            0
        } else if to > max {
            max as u16
        } else {
            to as u16
        };
    }

    pub(crate) fn scroll_diff_by(&mut self, delta: i32)
        ensures
            final(self)@ == old(self)@.diff_scrolled(delta as int),
    {
        proof {
            reveal(AppView::diff_scrolled);
        }
        let at = self.showing();
        self.viewer.scroll_by(delta, at, &self.md_text);
    }

    /// Moves the line cursor, or scrolls a rendered document.
    pub(crate) fn move_cursor_or_scroll(&mut self, delta: i32)
        ensures
            final(self)@ == old(self)@.cursor_moved(delta as int),
    {
        proof {
            reveal(AppView::cursor_moved);
        }
        if self.show_markdown_preview() {
            self.scroll_diff_by(delta);
        } else {
            let at = self.showing();
            self.viewer.move_cursor(delta, at);
        }
    }

    /// Moves the block column, or scrolls a rendered document.
    pub(crate) fn move_column_or_scroll(&mut self, delta: i32)
        ensures
            final(self)@ == old(self)@.column_moved(delta as int),
    {
        proof {
            reveal(AppView::column_moved);
        }
        if self.show_markdown_preview() {
            self.scroll_diff_by(delta);
        } else {
            let at = self.showing();
            self.viewer.move_column(delta, at);
        }
    }

    pub(crate) fn move_down(&mut self)
        ensures
            final(self)@ == old(self)@.moved(true),
    {
        proof {
            reveal(AppView::moved);
        }
        match self.focus {
            Focus::Status => self.step_tree(true),
            Focus::Branches => {
                let n = match &self.branches {
                    Some(b) => b.len(),
                    None => 0,
                };
                if self.branch_selected < usize::MAX {
                    self.branch_selected = clamp_to(self.branch_selected + 1, n);
                } else {
                    self.branch_selected = clamp_to(self.branch_selected, n);
                }
            },
            Focus::Log => self.scroll_log_by(1),
            Focus::Stash => {
                let n = match &self.stash {
                    Some(s) => s.len(),
                    None => 0,
                };
                if self.stash_selected < usize::MAX {
                    self.stash_selected = clamp_to(self.stash_selected + 1, n);
                } else {
                    self.stash_selected = clamp_to(self.stash_selected, n);
                }
            },
            Focus::Diff => self.move_cursor_or_scroll(1),
        }
    }

    pub(crate) fn move_up(&mut self)
        ensures
            final(self)@ == old(self)@.moved(false),
    {
        proof {
            reveal(AppView::moved);
        }
        match self.focus {
            Focus::Status => self.step_tree(false),
            Focus::Branches => {
                if self.branch_selected > 0 {
                    self.branch_selected = self.branch_selected - 1;
                }
            },
            Focus::Log => self.scroll_log_by(-1),
            Focus::Stash => {
                if self.stash_selected > 0 {
                    self.stash_selected = self.stash_selected - 1;
                }
            },
            Focus::Diff => self.move_cursor_or_scroll(-1),
        }
    }

    pub(crate) fn toggle_folder(&mut self)
        ensures
            final(self)@ == old(self)@.folder_toggled(),
    {
        proof {
            reveal(AppView::folder_toggled);
        }
        if !self.tree.toggle_folder() {
            self.fail("nothing to collapse: file has no parent folder");
        }
    }

    pub(crate) fn open_full_diff(&mut self)
        ensures
            final(self)@ == old(self)@.diff_opened(),
    {
        proof {
            reveal(AppView::diff_opened);
        }
        if self.tree.file().is_some() {
            self.mode = Mode::FullDiff;
            let at = self.showing();
            self.viewer.snap_scroll(at);
        }
    }

    pub(crate) fn close_full_diff(&mut self)
        ensures
            final(self)@ == old(self)@.diff_closed(),
    {
        proof {
            reveal(AppView::diff_closed);
        }
        self.mode = Mode::Normal;
        let at = self.showing();
        self.viewer.snap_scroll(at);
    }

    /// Hands the selected text to the clipboard.
    pub(crate) fn begin_yank(&mut self)
        ensures
            final(self)@ == old(self)@.yanked(),
    {
        proof {
            reveal(AppView::yanked);
        }
        let text = match self.viewer.yank_text() {
            Some(text) => text,
            None => {
                self.fail("nothing to yank");
                return;
            },
        };
        self.viewer.leave_visual();
        self.notice = Some(yank_message(text.as_str()));
        self.clipboard = Some(text);
    }

    /// The text that is to go to the clipboard, if there is one.
    pub fn take_clipboard(&mut self) -> (text: Option<String>)
        ensures
            opt_text(text) == old(self)@.clipboard,
            final(self)@ == (AppView { clipboard: None, ..old(self)@ }),
    {
        let mut text: Option<String> = None;
        std::mem::swap(&mut text, &mut self.clipboard);
        text
    }

    /// The terminal would not take what was yanked.
    pub fn clipboard_refused(&mut self)
        ensures
            final(self)@ == old(self)@.clipboard_refused(),
    {
        self.fail("yanked, but the terminal refused the clipboard (OSC 52)");
    }
}

/// What was yanked, for the user.
pub(crate) fn yank_message(text: &str) -> (out: String)
    ensures
        out@ == yank_notice(text@),
{
    let cs = chars_of(text);
    let n = cs.len();
    if n > 0 && cs[n - 1] == '\n' {
        let lines = split_lines(text);
        assert(texts(lines@).len() == lines@.len());
        let count = number_text(lines.len() as u128);
        if lines.len() == 1 {
            "yanked ".to_owned().concat(count.as_str()).concat(" line")
        } else {
            "yanked ".to_owned().concat(count.as_str()).concat(" lines")
        }
    } else {
        "yanked ".to_owned().concat(number_text(n as u128).as_str()).concat(" chars")
    }
}

} // verus!
