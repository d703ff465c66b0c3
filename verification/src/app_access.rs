//! The picker for a project, the draft, and what there is to read of an app.

use crate::app_model::{AppView, Focus, Mode};
use crate::browser::{listing_fits, listing_view, DirEntry, OpenBrowser};
use crate::config::LlmConfig;
use crate::diff_rows::{rows_view, DiffRow};
use crate::model::{
    BranchInfo, CommitInfo, FileDiff, RepoStatus, StashEntry, StatusEntry, SyncStatus,
};
use crate::text::opt_text;
use crate::theme::Theme;
use crate::viewer::{Visual, VisualSel};
use vstd::prelude::*;
use vstd::string::*;

use crate::app::App;

verus! {

impl App {
    /// Opens the picker for a project at a folder, whose subfolders were read.
    pub fn begin_open_project(&mut self, start: String, listing: Result<Vec<DirEntry>, String>)
        requires
            listing_fits(listing),
        ensures
            final(self)@ == old(self)@.picker_opened(start@, listing_view(listing)),
            final(self)@.open_browser matches Some(b) && b.wf(),
    {
        proof {
            reveal(AppView::picker_opened);
        }
        self.open_modal(Mode::OpenProject);
        self.error = None;
        self.open_browser = Some(OpenBrowser::at(start, listing));
    }

    pub(crate) fn close_picker(&mut self)
        ensures
            final(self)@ == old(self)@.picker_closed(),
    {
        proof {
            reveal(AppView::picker_closed);
        }
        self.open_modal(Mode::Normal);
        self.open_browser = None;
    }

    /// Leaves the picker without opening anything.
    pub fn cancel_open_project(&mut self)
        ensures
            final(self)@ == old(self)@.picker_closed(),
    {
        proof {
            reveal(AppView::picker_closed);
        }
        self.close_picker();
    }

    /// Leaves the picker after a project was opened.
    pub fn finish_open_project(&mut self)
        ensures
            final(self)@ == old(self)@.picker_closed(),
    {
        proof {
            reveal(AppView::picker_closed);
        }
        self.close_picker();
    }

    /// Asks whether a directory is to be made a repository.
    pub fn confirm_init_prompt(&mut self, dir: String)
        ensures
            final(self)@ == (AppView {
                mode: Mode::ConfirmInit,
                draft: old(self)@.draft.holding(dir@),
                ..old(self)@
            }),
    {
        self.mode = Mode::ConfirmInit;
        self.draft.hold(dir);
    }

    /// Goes back from that question to the picker.
    pub fn back_to_open_project(&mut self)
        ensures
            final(self)@ == (AppView { mode: Mode::OpenProject, ..old(self)@ }),
    {
        self.mode = Mode::OpenProject;
    }

    /// Shows an error.
    pub fn set_error(&mut self, message: String)
        ensures
            final(self)@ == old(self)@.failing(message@),
    {
        self.error = Some(message);
    }

    /// Shows an error in the picker, or in the footer where there is none.
    pub fn set_browser_error(&mut self, message: String)
        ensures
            final(self)@ == old(self)@.browser_failing(message@),
    {
        match &mut self.open_browser {
            Some(b) => {
                b.error = Some(message);
            },
            None => {
                self.error = Some(message);
            },
        }
    }

    pub fn push_draft_char(&mut self, c: char)
        ensures
            final(self)@ == (AppView { draft: old(self)@.draft.inserted(c), ..old(self)@ }),
    {
        self.draft.insert(c);
    }

    pub fn pop_draft_char(&mut self)
        ensures
            final(self)@ == (AppView { draft: old(self)@.draft.deleted_before(), ..old(self)@ }),
    {
        self.draft.delete_before();
    }

    pub fn clear_draft(&mut self)
        ensures
            final(self)@ == (AppView { draft: old(self)@.draft.cleared(), ..old(self)@ }),
    {
        self.draft.clear();
    }

    /// Where the cursor is in the draft.
    pub fn draft_cursor(&self) -> (at: usize)
        ensures
            at == self@.draft.at(),
    {
        self.draft.at()
    }

    pub fn insert_draft_char(&mut self, c: char)
        ensures
            final(self)@ == (AppView { draft: old(self)@.draft.inserted(c), ..old(self)@ }),
    {
        self.draft.insert(c);
    }

    pub fn delete_draft_before(&mut self)
        ensures
            final(self)@ == (AppView { draft: old(self)@.draft.deleted_before(), ..old(self)@ }),
    {
        self.draft.delete_before();
    }

    pub fn delete_draft_after(&mut self)
        ensures
            final(self)@ == (AppView { draft: old(self)@.draft.deleted_after(), ..old(self)@ }),
    {
        self.draft.delete_after();
    }

    pub fn move_draft_left(&mut self)
        ensures
            final(self)@ == (AppView { draft: old(self)@.draft.left(), ..old(self)@ }),
    {
        self.draft.move_left();
    }

    pub fn move_draft_right(&mut self)
        ensures
            final(self)@ == (AppView { draft: old(self)@.draft.right(), ..old(self)@ }),
    {
        self.draft.move_right();
    }

    pub fn move_draft_home(&mut self)
        ensures
            final(self)@ == (AppView { draft: old(self)@.draft.home(), ..old(self)@ }),
    {
        self.draft.move_home();
    }

    pub fn move_draft_end(&mut self)
        ensures
            final(self)@ == (AppView { draft: old(self)@.draft.end(), ..old(self)@ }),
    {
        self.draft.move_end();
    }

    pub fn move_draft_up_line(&mut self)
        ensures
            final(self)@ == (AppView { draft: old(self)@.draft.moved_row(false), ..old(self)@ }),
    {
        self.draft.move_visual_row(false);
    }

    pub fn move_draft_down_line(&mut self)
        ensures
            final(self)@ == (AppView { draft: old(self)@.draft.moved_row(true), ..old(self)@ }),
    {
        self.draft.move_visual_row(true);
    }

    pub fn request_quit(&mut self)
        ensures
            final(self)@ == (AppView { quit: true, ..old(self)@ }),
    {
        self.quit = true;
    }

    pub fn set_repo_name(&mut self, name: String)
        ensures
            final(self)@ == (AppView { repo_name: name@, ..old(self)@ }),
    {
        self.repo_name = name;
    }

    pub fn set_config_path(&mut self, path: Option<String>)
        ensures
            final(self)@ == (AppView { config_path: opt_text(path), ..old(self)@ }),
    {
        self.config_path = path;
    }

    pub fn repo_name(&self) -> (name: &str)
        ensures
            name@ == self@.repo_name,
    {
        self.repo_name.as_str()
    }

    pub fn open_browser(&self) -> (browser: Option<&OpenBrowser>)
        ensures
            browser is Some <==> self@.open_browser is Some,
            browser matches Some(b) ==> self@.open_browser == Some(b@),
    {
        match &self.open_browser {
            Some(b) => Some(b),
            None => None,
        }
    }

    /// The picker for a project, to be changed.
    pub fn open_browser_mut(&mut self) -> (browser: Option<&mut OpenBrowser>)
        ensures
            browser is Some <==> old(self)@.open_browser is Some,
            browser matches Some(b) ==> old(self).open_browser == Some(*b) && final(self)@ == (
            AppView { open_browser: Some(final(b)@), ..old(self)@ }),
            browser is None ==> final(self)@ == old(self)@,
    {
        match &mut self.open_browser {
            Some(b) => Some(b),
            None => None,
        }
    }

    pub fn status(&self) -> (status: Option<&RepoStatus>)
        ensures
            status is Some <==> self@.status is Some,
            status matches Some(st) ==> self@.status == Some(*st),
    {
        match &self.status {
            Some(st) => Some(st),
            None => None,
        }
    }

    pub fn selected(&self) -> (at: usize)
        ensures
            at == self@.tree.selected,
    {
        self.tree.selected
    }

    pub fn selected_file(&self) -> (file: Option<&StatusEntry>)
        ensures
            file is Some <==> self@.tree.file() is Some,
            file matches Some(f) ==> self@.tree.file() == Some(*f),
    {
        self.tree.file()
    }

    pub fn file_entry(&self, index: usize) -> (file: Option<&StatusEntry>)
        ensures
            file is Some <==> index < self@.tree.list.len(),
            file matches Some(f) ==> *f == self@.tree.list[index as int],
    {
        if index < self.tree.list.len() {
            Some(&self.tree.list[index])
        } else {
            None
        }
    }

    pub fn file_list(&self) -> (list: &Vec<StatusEntry>)
        ensures
            list@ == self@.tree.list,
    {
        &self.tree.list
    }

    pub fn has_files(&self) -> (yes: bool)
        ensures
            yes == (self@.tree.list.len() > 0),
    {
        self.tree.list.len() > 0
    }

    pub fn mode(&self) -> (mode: Mode)
        ensures
            mode == self@.mode,
    {
        self.mode
    }

    pub fn focus(&self) -> (focus: Focus)
        ensures
            focus == self@.focus,
    {
        self.focus
    }

    pub fn theme(&self) -> (theme: Theme)
        ensures
            theme == self@.theme,
    {
        self.theme
    }

    pub fn diff(&self) -> (diff: Option<&FileDiff>)
        ensures
            diff is Some <==> self@.viewer.diff is Some,
            diff matches Some(d) ==> self@.viewer.diff == Some(*d),
    {
        self.viewer.diff()
    }

    pub fn diff_rows(&self) -> (rows: &Vec<DiffRow>)
        ensures
            rows_view(rows@) == self@.viewer.rows(),
    {
        self.viewer.rows()
    }

    /// Whether the diff is the staged one; nothing where none is loaded.
    pub fn diff_viewing_staged(&self) -> (staged: Option<bool>)
        ensures
            staged == (match self@.diff_for {
                Some((_, s)) => Some(s),
                None => None,
            }),
    {
        match &self.diff_for {
            Some((_, staged)) => Some(*staged),
            None => None,
        }
    }

    pub fn diff_whole_file(&self) -> (whole: bool)
        ensures
            whole == self@.diff_whole_file,
    {
        self.diff_whole_file
    }

    pub fn markdown_text(&self) -> (text: Option<&str>)
        ensures
            text is Some <==> self@.md_text is Some,
            text matches Some(t) ==> self@.md_text == Some(t@),
    {
        match &self.md_text {
            Some(t) => Some(t.as_str()),
            None => None,
        }
    }

    pub fn hunk(&self) -> (hunk: usize)
        ensures
            hunk == self@.viewer.hunk,
    {
        self.viewer.hunk()
    }

    pub fn cursor_row(&self) -> (row: usize)
        ensures
            row == self@.viewer.row(),
    {
        self.viewer.cursor_row()
    }

    pub fn cursor_col(&self) -> (col: usize)
        ensures
            col == self@.viewer.col,
    {
        self.viewer.cursor_col()
    }

    pub fn visual(&self) -> (visual: Option<Visual>)
        ensures
            crate::viewer::visual_view(visual) == self@.viewer.visual,
    {
        self.viewer.visual()
    }

    pub fn visual_selection(&self) -> (sel: Option<VisualSel>)
        ensures
            sel is Some <==> self@.viewer.selection() is Some,
            sel matches Some(s) ==> self@.viewer.selection() == Some(s@),
    {
        self.viewer.selection()
    }

    pub fn yank_text(&self) -> (text: Option<String>)
        ensures
            text is Some <==> self@.viewer.yank_text() is Some,
            text matches Some(t) ==> self@.viewer.yank_text() == Some(t@),
    {
        self.viewer.yank_text()
    }

    pub fn diff_scroll(&self) -> (scroll: u16)
        ensures
            scroll == self@.viewer.scroll,
    {
        self.viewer.scroll()
    }

    pub fn branches(&self) -> (list: Option<&Vec<BranchInfo>>)
        ensures
            list is Some <==> self@.branches is Some,
            list matches Some(l) ==> self@.branches == Some(l@),
    {
        match &self.branches {
            Some(l) => Some(l),
            None => None,
        }
    }

    pub fn branch_selected(&self) -> (at: usize)
        ensures
            at == self@.branch_selected,
    {
        self.branch_selected
    }

    pub fn log(&self) -> (list: Option<&Vec<CommitInfo>>)
        ensures
            list is Some <==> self@.log is Some,
            list matches Some(l) ==> self@.log == Some(l@),
    {
        match &self.log {
            Some(l) => Some(l),
            None => None,
        }
    }

    pub fn log_scroll(&self) -> (scroll: u16)
        ensures
            scroll == self@.log_scroll,
    {
        self.log_scroll
    }

    pub fn stash(&self) -> (list: Option<&Vec<StashEntry>>)
        ensures
            list is Some <==> self@.stash is Some,
            list matches Some(l) ==> self@.stash == Some(l@),
    {
        match &self.stash {
            Some(l) => Some(l),
            None => None,
        }
    }

    pub fn stash_selected(&self) -> (at: usize)
        ensures
            at == self@.stash_selected,
    {
        self.stash_selected
    }

    pub fn draft(&self) -> (text: &str)
        ensures
            text@ == self@.draft.text,
    {
        self.draft.text.as_str()
    }

    pub fn finder_return(&self) -> (mode: Mode)
        ensures
            mode == self@.finder_return,
    {
        self.finder_return
    }

    pub fn sync(&self) -> (sync: Option<&SyncStatus>)
        ensures
            sync is Some <==> self@.sync is Some,
            sync matches Some(st) ==> self@.sync == Some(*st),
    {
        match &self.sync {
            Some(st) => Some(st),
            None => None,
        }
    }

    pub fn syncing(&self) -> (label: Option<&str>)
        ensures
            label is Some <==> self@.syncing is Some,
            label matches Some(t) ==> self@.syncing == Some(t@),
    {
        match &self.syncing {
            Some(t) => Some(t.as_str()),
            None => None,
        }
    }

    pub fn error(&self) -> (message: Option<&str>)
        ensures
            message is Some <==> self@.error is Some,
            message matches Some(t) ==> self@.error == Some(t@),
    {
        match &self.error {
            Some(t) => Some(t.as_str()),
            None => None,
        }
    }

    pub fn notice(&self) -> (message: Option<&str>)
        ensures
            message is Some <==> self@.notice is Some,
            message matches Some(t) ==> self@.notice == Some(t@),
    {
        match &self.notice {
            Some(t) => Some(t.as_str()),
            None => None,
        }
    }

    pub fn should_quit(&self) -> (yes: bool)
        ensures
            yes == self@.quit,
    {
        self.quit
    }

    pub fn is_generating(&self) -> (yes: bool)
        ensures
            yes == self@.generating,
    {
        self.generating
    }

    pub fn llm_config(&self) -> (llm: &LlmConfig)
        ensures
            llm@ == self@.llm,
    {
        &self.llm
    }

    pub fn llm_selected(&self) -> (row: usize)
        ensures
            row == self@.form.row(),
    {
        self.form.row()
    }

    /// What a row of the form for the LLM settings shows.
    pub fn llm_field_value(&self, i: usize) -> (text: String)
        ensures
            text@ == self@.form.value(i as nat, self@.draft),
    {
        self.form.value(i, &self.draft)
    }
}

} // verus!
