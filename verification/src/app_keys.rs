//! Which key does what.

use crate::app_events::edited;
use crate::app_model::{AppView, Focus, Mode};
use crate::config::{has_key, KeyCode};
use crate::draft::Draft;
use crate::viewer::VisualMode;
use vstd::prelude::*;
use vstd::string::*;

use crate::app::App;

verus! {

/// Does to a draft what an editing key does. Returns whether it was one.
pub(crate) fn edit(draft: &mut Draft, key: KeyCode) -> (done: bool)
    ensures
        done == edited(old(draft)@, key) is Some,
        final(draft)@ == (match edited(old(draft)@, key) {
            Some(d) => d,
            None => old(draft)@,
        }),
{
    proof {
        reveal(edited);
    }
    match key {
        KeyCode::Char(c) => {
            draft.insert(c);
            true
        },
        KeyCode::Backspace => {
            draft.delete_before();
            true
        },
        KeyCode::Delete => {
            draft.delete_after();
            true
        },
        KeyCode::Left => {
            draft.move_left();
            true
        },
        KeyCode::Right => {
            draft.move_right();
            true
        },
        KeyCode::Home => {
            draft.move_home();
            true
        },
        KeyCode::End => {
            draft.move_end();
            true
        },
        _ => false,
    }
}

impl App {
    /// A key in the form for the LLM settings.
    pub(crate) fn on_key_llm_settings(&mut self, key: KeyCode)
        ensures
            final(self)@ == old(self)@.form_key(key),
    {
        proof {
            reveal(AppView::form_key);
        }
        if edit(&mut self.draft, key) {
            return;
        }
        match key {
            KeyCode::Up | KeyCode::BackTab => self.move_llm_selection(false),
            KeyCode::Down | KeyCode::Tab => self.move_llm_selection(true),
            KeyCode::Enter => self.save_llm_settings(),
            KeyCode::Esc => self.cancel_llm_settings(),
            _ => {},
        }
    }

    /// A key in the file finder.
    pub(crate) fn on_key_finder(&mut self, key: KeyCode)
        ensures
            final(self)@ == old(self)@.finder_key(key),
    {
        proof {
            reveal(AppView::finder_key);
        }
        if edit(&mut self.draft, key) {
            match key {
                KeyCode::Char(_) | KeyCode::Backspace | KeyCode::Delete => {
                    self.finder_selected = 0;
                },
                _ => {},
            }
            return;
        }
        match key {
            KeyCode::Up => self.finder_move(false),
            KeyCode::Down => self.finder_move(true),
            KeyCode::Enter => {
                self.tree.expand_selected();
                self.submit_finder();
            },
            KeyCode::Esc => {
                let back = self.finder_return;
                self.open_modal(back);
            },
            _ => {},
        }
    }

    pub(crate) fn enter_modal(&mut self)
        ensures
            final(self)@ == old(self)@.modal_entered(),
    {
        proof {
            reveal(AppView::modal_entered);
        }
        match self.mode {
            Mode::Committing => self.submit_commit(),
            Mode::NewBranch => self.submit_new_branch(),
            Mode::StashPush => self.submit_stash_push(),
            Mode::SetUpstream => self.submit_push_upstream(),
            Mode::SetRemote => self.submit_publish(),
            _ => {},
        }
    }

    /// A key in a modal with one line to type.
    pub(crate) fn on_key_modal(&mut self, key: KeyCode)
        ensures
            final(self)@ == old(self)@.modal_key(key),
    {
        proof {
            reveal(AppView::modal_key);
        }
        if edit(&mut self.draft, key) {
            return;
        }
        match key {
            KeyCode::Up => if self.mode == Mode::Committing {
                self.draft.move_visual_row(false);
            },
            KeyCode::Down => if self.mode == Mode::Committing {
                self.draft.move_visual_row(true);
            },
            KeyCode::Enter => self.enter_modal(),
            KeyCode::Esc => {
                let back = if self.mode == Mode::SetUpstream || self.mode == Mode::SetRemote {
                    self.sync_return
                } else {
                    Mode::Normal
                };
                self.open_modal(back);
            },
            _ => {},
        }
    }

    pub(crate) fn page(&mut self, delta: i32)
        ensures
            final(self)@ == old(self)@.paged(delta as int),
    {
        proof {
            reveal(AppView::paged);
        }
        if self.focus == Focus::Diff && !self.show_markdown_preview() {
            self.move_cursor_or_scroll(delta);
        } else {
            self.scroll_diff_by(delta);
        }
    }

    /// A key while the diff is over the whole screen.
    pub(crate) fn on_key_full_diff(&mut self, key: KeyCode)
        ensures
            final(self)@ == old(self)@.full_key(key),
    {
        proof {
            reveal(AppView::full_key);
        }
        let at = self.showing();
        if key == KeyCode::Esc {
            if self.viewer.visual().is_some() {
                self.viewer.leave_visual();
            } else {
                self.close_full_diff();
            }
        } else if has_key(&self.keys.toggle_markdown_preview, key) {
            self.toggle_markdown_preview();
        } else if has_key(&self.keys.find_files, key) {
            self.open_finder();
        } else if key == KeyCode::Up {
            self.move_cursor_or_scroll(-1);
        } else if key == KeyCode::Down || has_key(&self.keys.nav_down, key) {
            self.move_cursor_or_scroll(1);
        } else if has_key(&self.keys.nav_up, key) {
            self.move_cursor_or_scroll(-1);
        } else if key == KeyCode::Char('h') || key == KeyCode::Left {
            self.move_column_or_scroll(-1);
        } else if key == KeyCode::Char('l') || key == KeyCode::Right {
            self.move_column_or_scroll(1);
        } else if key == KeyCode::Char('0') || key == KeyCode::Home {
            self.viewer.column_home(at);
        } else if key == KeyCode::End {
            self.viewer.column_end(at);
        } else if key == KeyCode::Char('v') {
            self.viewer.begin_visual(VisualMode::Charwise, at);
        } else if key == KeyCode::Char('V') {
            self.viewer.begin_visual(VisualMode::Linewise, at);
        } else if key == KeyCode::Char('y') {
            self.begin_yank();
        } else if has_key(&self.keys.stage, key) {
            self.stage_selected_hunk();
        } else if has_key(&self.keys.discard, key) {
            self.discard_loaded_file();
        } else if has_key(&self.keys.scroll_up, key) {
            self.move_cursor_or_scroll(-10);
        } else if has_key(&self.keys.scroll_down, key) {
            self.move_cursor_or_scroll(10);
        } else if key == KeyCode::Char('J') && !at.markdown {
            self.viewer.next_hunk();
        } else if key == KeyCode::Char('K') && !at.markdown {
            self.viewer.previous_hunk();
        } else if has_key(&self.keys.sync_pull, key) {
            self.start_pull();
        } else if has_key(&self.keys.sync_push, key) {
            self.start_push();
        } else if has_key(&self.keys.quit, key) {
            self.quit = true;
        }
    }

    /// A key that brings a panel into focus or moves within one. Returns
    /// whether it was one.
    pub(crate) fn on_key_move(&mut self, key: KeyCode) -> (done: bool)
        ensures
            done == old(self)@.move_key(key) is Some,
            final(self)@ == (match old(self)@.move_key(key) {
                Some(s) => s,
                None => old(self)@,
            }),
    {
        proof {
            reveal(AppView::move_key);
        }
        let at = self.showing();
        let in_diff = self.focus == Focus::Diff;
        if has_key(&self.keys.focus_next, key) {
            self.cycle_focus();
        } else if self.focus == Focus::Status && key == KeyCode::Left {
            self.toggle_folder();
        } else if self.focus == Focus::Status && key == KeyCode::Right {
            self.tree.expand_at_cursor();
        } else if has_key(&self.keys.focus_status, key) {
            self.focus_on(Focus::Status);
        } else if has_key(&self.keys.focus_branches, key) {
            self.focus_on(Focus::Branches);
            self.maybe_load_branches();
        } else if has_key(&self.keys.focus_log, key) {
            self.focus_on(Focus::Log);
            self.maybe_load_log();
        } else if has_key(&self.keys.focus_stash, key) {
            self.focus_on(Focus::Stash);
            self.maybe_load_stash();
        } else if has_key(&self.keys.focus_diff, key) {
            self.focus_on(Focus::Diff);
        } else if has_key(&self.keys.nav_down, key) {
            self.move_down();
        } else if has_key(&self.keys.nav_up, key) {
            self.move_up();
        } else if key == KeyCode::Char('h') && in_diff {
            self.viewer.move_column(-1, at);
        } else if key == KeyCode::Char('l') && in_diff {
            self.viewer.move_column(1, at);
        } else if (key == KeyCode::Char('0') || key == KeyCode::Home) && in_diff {
            self.viewer.column_home(at);
        } else if key == KeyCode::End && in_diff {
            self.viewer.column_end(at);
        } else if key == KeyCode::Char('v') && in_diff {
            self.viewer.begin_visual(VisualMode::Charwise, at);
        } else if key == KeyCode::Char('V') && in_diff {
            self.viewer.begin_visual(VisualMode::Linewise, at);
        } else if key == KeyCode::Char('y') && in_diff {
            self.begin_yank();
        } else {
            return false;
        }
        true
    }

    /// A key that does something with what is selected.
    pub(crate) fn on_key_action(&mut self, key: KeyCode)
        ensures
            final(self)@ == old(self)@.action_key(key),
    {
        proof {
            reveal(AppView::action_key);
        }
        if has_key(&self.keys.checkout, key) && self.focus == Focus::Branches {
            self.checkout_selected_branch();
        } else if has_key(&self.keys.stash_pop, key) && self.focus == Focus::Stash {
            self.pop_selected_stash();
        } else if key == KeyCode::Enter && (self.focus == Focus::Status || self.focus
            == Focus::Diff) {
            self.open_full_diff();
        } else if has_key(&self.keys.stage, key) {
            if self.focus == Focus::Status {
                self.toggle_stage();
            }
        } else if has_key(&self.keys.discard, key) {
            if self.focus == Focus::Status {
                self.discard_selected();
            }
        } else if has_key(&self.keys.branch_new, key) && self.focus == Focus::Branches {
            self.open_modal(Mode::NewBranch);
        } else if has_key(&self.keys.stash_push, key) && self.focus == Focus::Stash {
            self.open_modal(Mode::StashPush);
        } else if has_key(&self.keys.branch_delete, key) && self.focus == Focus::Branches {
            self.delete_selected_branch();
        } else if has_key(&self.keys.stash_drop, key) && self.focus == Focus::Stash {
            self.drop_selected_stash();
        } else if has_key(&self.keys.scroll_up, key) {
            self.page(-10);
        } else if has_key(&self.keys.scroll_down, key) {
            self.page(10);
        } else if has_key(&self.keys.commit, key) {
            self.open_modal(Mode::Committing);
        } else if has_key(&self.keys.toggle_markdown_preview, key) {
            self.toggle_markdown_preview();
        } else if has_key(&self.keys.llm_settings, key) {
            self.begin_llm_settings();
        } else if has_key(&self.keys.find_files, key) {
            self.open_finder();
        } else if has_key(&self.keys.refresh, key) {
            self.refresh();
        } else if has_key(&self.keys.sync_pull, key) {
            self.start_pull();
        } else if has_key(&self.keys.sync_push, key) {
            self.start_push();
        } else if has_key(&self.keys.quit, key) {
            self.quit = true;
        }
    }

    /// A key in the panels.
    pub(crate) fn on_key_normal(&mut self, key: KeyCode)
        ensures
            final(self)@ == old(self)@.normal_key(key),
    {
        proof {
            reveal(AppView::normal_key);
        }
        if key == KeyCode::Esc && self.viewer.visual().is_some() {
            self.viewer.leave_visual();
        } else if !self.on_key_move(key) {
            self.on_key_action(key);
        }
    }

    pub(crate) fn on_key_inner(&mut self, key: KeyCode)
        ensures
            final(self)@ == old(self)@.key(key),
    {
        proof {
            reveal(AppView::key);
        }
        match self.mode {
            Mode::LlmSettings => self.on_key_llm_settings(key),
            Mode::FullDiff => self.on_key_full_diff(key),
            Mode::FindFile => self.on_key_finder(key),
            Mode::Normal => self.on_key_normal(key),
            _ => self.on_key_modal(key),
        }
    }

    /// A key pressed, with or without Shift. It dismisses the last error and
    /// the last notice.
    pub fn on_key_with_modifiers(&mut self, key: KeyCode, shift_held: bool)
        ensures
            final(self)@ == old(self)@.pressed(key, shift_held),
    {
        proof {
            reveal(AppView::pressed);
        }
        self.error = None;
        self.notice = None;
        if self.mode == Mode::Committing && (key == KeyCode::Char('a') || key == KeyCode::Char(
            'A',
        )) && shift_held {
            self.begin_generate_commit_message();
        } else if self.mode == Mode::Normal && self.focus == Focus::Status && key == KeyCode::Right
            && shift_held {
            self.focus_on(Focus::Diff);
        } else {
            self.on_key_inner(key);
        }
    }

    /// A key pressed where nothing is known of Shift: `A` counts as typed with
    /// it.
    pub fn on_key(&mut self, key: KeyCode)
        ensures
            final(self)@ == old(self)@.pressed(key, key == KeyCode::Char('A')),
    {
        proof {
            reveal(AppView::pressed);
        }
        self.on_key_with_modifiers(key, key == KeyCode::Char('A'));
    }
}

} // verus!
