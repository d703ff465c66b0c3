//! What the keys do to a text that is typed, to the diff that is looked at and
//! to the form for the settings.

use crate::app_events::edited;
use crate::app_model::{AppView, Focus, Mode};
use crate::config::KeyCode;
use crate::draft::{
    cells_to, draft_place, draft_rows, lemma_wrap_bounds, place_at_column, DraftView,
};
use crate::jobs::JobView;
use crate::key_laws::{
    asking, calm, is_bound, lemma_action, lemma_full, lemma_no_other, means, means_in_full, Action,
};
use crate::markdown::markdown_path;
use crate::model::FileState;
use crate::text::{decimal, lines_from, trimmed};
use crate::tree::{ancestors_of, ancestors_to, folded_above, is_hidden, TreeView};
use crate::tree_laws::law_expanded_shows;
use crate::viewer::{ViewerView, VisualMode, VisualView};
use crate::width::cells;
use vstd::prelude::*;
use vstd::string::*;

verus! {

/// Whether a box with one text to type is open.
pub open spec fn is_typing(mode: Mode) -> bool {
    mode == Mode::Committing || mode == Mode::NewBranch || mode == Mode::StashPush || mode
        == Mode::SetUpstream || mode == Mode::SetRemote || mode == Mode::LlmSettings
}

/// What an editing key makes of a text and of the place of its cursor: a
/// character goes in at the cursor, Backspace takes away the one before it and
/// Delete the one behind it; the arrows move by one, Home and End to either end.
pub open spec fn after_key(text: Seq<char>, at: int, key: KeyCode) -> (Seq<char>, int) {
    match key {
        KeyCode::Char(c) => (text.take(at) + seq![c] + text.skip(at), at + 1),
        KeyCode::Backspace => if at > 0 {
            (text.take(at - 1) + text.skip(at), at - 1)
        } else {
            (text, at)
        },
        KeyCode::Delete => if at < text.len() {
            (text.take(at) + text.skip(at + 1), at)
        } else {
            (text, at)
        },
        KeyCode::Left => (
            text,
            if at > 0 {
                at - 1
            } else {
                0
            },
        ),
        KeyCode::Right => (
            text,
            if at < text.len() {
                at + 1
            } else {
                at
            },
        ),
        KeyCode::Home => (text, 0),
        KeyCode::End => (text, text.len() as int),
        _ => (text, at),
    }
}

/// Whether a key edits a text.
pub open spec fn is_editing(key: KeyCode) -> bool {
    match key {
        KeyCode::Char(_) | KeyCode::Backspace | KeyCode::Delete | KeyCode::Left | KeyCode::Right
        | KeyCode::Home | KeyCode::End => true,
        _ => false,
    }
}

/// Editing keys change the text and the cursor as they should, and nothing else.
pub proof fn law_editing_keys(s: AppView, key: KeyCode)
    requires
        is_typing(s.mode),
        is_editing(key),
        s.draft.cursor <= s.draft.text.len(),
    ensures
        ({
            let (text, at) = after_key(s.draft.text, s.draft.cursor as int, key);
            s.pressed(key, false) == (AppView {
                draft: DraftView { text, cursor: at as nat, ..s.draft },
                ..calm(s)
            })
        }),
{
    reveal(AppView::pressed);
    reveal(AppView::key);
    reveal(AppView::modal_key);
    reveal(AppView::form_key);
    reveal(edited);
    let text = s.draft.text;
    let at = s.draft.cursor as int;
    if let KeyCode::Char(c) = key {
        assert(text.insert(at, c) =~= text.take(at) + seq![c] + text.skip(at));
    }
    if at > 0 {
        assert(text.remove(at - 1) =~= text.take(at - 1) + text.skip(at));
    }
    if at < text.len() {
        assert(text.remove(at) =~= text.take(at) + text.skip(at + 1));
    }
}

/// Typing in the finder edits the query in the same way; a changed query has its
/// best match highlighted.
pub proof fn law_finder_is_typed_into(s: AppView, key: KeyCode)
    requires
        s.mode == Mode::FindFile,
        is_editing(key),
        s.draft.cursor <= s.draft.text.len(),
    ensures
        ({
            let (text, at) = after_key(s.draft.text, s.draft.cursor as int, key);
            let after = s.pressed(key, false);
            &&& after == (AppView {
                draft: DraftView { text, cursor: at as nat, ..s.draft },
                finder_selected: after.finder_selected,
                ..calm(s)
            })
            &&& text != s.draft.text ==> after.finder_selected == 0
            &&& key is Left || key is Right || key is Home || key is End
                ==> after.finder_selected == s.finder_selected
        }),
{
    reveal(AppView::pressed);
    reveal(AppView::key);
    reveal(AppView::finder_key);
    reveal(edited);
    let text = s.draft.text;
    let at = s.draft.cursor as int;
    if let KeyCode::Char(c) = key {
        assert(text.insert(at, c) =~= text.take(at) + seq![c] + text.skip(at));
    }
    if at > 0 {
        assert(text.remove(at - 1) =~= text.take(at - 1) + text.skip(at));
    }
    if at < text.len() {
        assert(text.remove(at) =~= text.take(at) + text.skip(at + 1));
    }
}

/// Up and Down in the finder go to the match before and behind the highlighted
/// one, and not past the first and the last.
pub proof fn law_finder_moves_by_one(s: AppView, down: bool)
    requires
        s.mode == Mode::FindFile,
        s.finder_selected < s.found().len(),
    ensures
        s.pressed(
            if down {
                KeyCode::Down
            } else {
                KeyCode::Up
            },
            false,
        ) == (AppView {
            finder_selected: if down {
                if s.finder_selected + 1 < s.found().len() {
                    s.finder_selected + 1
                } else {
                    s.finder_selected
                }
            } else {
                if s.finder_selected > 0 {
                    (s.finder_selected - 1) as nat
                } else {
                    0
                }
            },
            ..calm(s)
        }),
{
    reveal(AppView::pressed);
    reveal(AppView::key);
    reveal(AppView::finder_key);
    reveal(AppView::finder_moved);
    reveal(edited);
}

proof fn lemma_place_at_column(text: Seq<char>, idx: int, end: int, col: nat, want: nat)
    requires
        0 <= idx <= end <= text.len(),
        col <= want,
    ensures
        ({
            let at = place_at_column(text, idx, end, col, want);
            let there = col + cells_to(text, at as nat) - cells_to(text, idx as nat);
            &&& idx <= at <= end
            &&& there <= want
            &&& at < end ==> there + cells(text[at]) > want
        }),
    decreases end - idx,
{
    if idx < end && col + cells(text[idx]) <= want {
        lemma_place_at_column(text, idx + 1, end, col + cells(text[idx]), want);
    }
}

/// Up and Down in the commit box go to the row above or below, to the last place
/// in it that is no further right than the cursor was; from the first row up to
/// the start of the text, from the last row down to its end.
pub proof fn law_rows_are_walked(s: AppView, down: bool)
    requires
        s.mode == Mode::Committing,
        s.draft.cursor <= s.draft.text.len(),
        s.draft.wrap_width > 0,
    ensures
        ({
            let key = if down {
                KeyCode::Down
            } else {
                KeyCode::Up
            };
            let after = s.pressed(key, false);
            let text = s.draft.text;
            let rows = draft_rows(text, s.draft.wrap_width);
            let (row, col) = draft_place(text, s.draft.wrap_width, s.draft.cursor);
            let next = if down {
                row as int + 1
            } else {
                row - 1
            };
            &&& after == (AppView {
                draft: DraftView { cursor: after.draft.cursor, ..s.draft },
                ..calm(s)
            })
            &&& next < 0 ==> after.draft.cursor == 0
            &&& down && next >= rows.len() ==> after.draft.cursor == text.len()
            &&& 0 <= next < rows.len() ==> {
                let (start, end) = rows[next];
                let at = after.draft.cursor;
                let there = cells_to(text, at) - cells_to(text, start as nat);
                &&& start <= at <= end
                &&& there <= col
                &&& at < end ==> there + cells(text[at as int]) > col
            }
        }),
{
    reveal(AppView::pressed);
    reveal(AppView::key);
    reveal(AppView::modal_key);
    reveal(edited);
    let text = s.draft.text;
    let width = s.draft.wrap_width;
    let rows = draft_rows(text, width);
    let (row, col) = draft_place(text, width, s.draft.cursor);
    let next = if down {
        row as int + 1
    } else {
        row - 1
    };
    if 0 <= next < rows.len() {
        lemma_wrap_bounds(text, width, text.len());
        let (start, end) = rows[next];
        lemma_place_at_column(text, start, end, 0, col);
    }
}

/// The form opens with the settings as they are, its first row being edited.
pub proof fn law_form_shows_settings(s: AppView, key: KeyCode)
    requires
        means(s, key, Action::LlmSettings),
    ensures
        ({
            let open = s.pressed(key, false);
            &&& open.mode == Mode::LlmSettings
            &&& open.form.selected == 0
            &&& open.form.value(0, open.draft) == s.llm.provider
            &&& open.form.value(1, open.draft) == s.llm.model
            &&& open.form.value(2, open.draft) == s.llm.api_key
            &&& open.form.value(3, open.draft) == (match s.llm.base_url {
                Some(url) => url,
                None => Seq::empty(),
            })
            &&& open.llm == s.llm
            &&& open.queue == s.queue
        }),
{
    lemma_action(s, key, Action::LlmSettings);
    lemma_no_other(s, key, Action::LlmSettings);
    reveal(AppView::action_key);
    reveal(AppView::form_opened);
}

/// Another row of the form is edited without losing what was typed into any of
/// them: every row shows what it showed.
pub proof fn law_form_rows_are_walked(s: AppView, down: bool, i: nat)
    requires
        s.mode == Mode::LlmSettings,
        s.form.selected < 4,
        s.form.rows.len() == 4,
        i < 4,
    ensures
        ({
            let key = if down {
                KeyCode::Down
            } else {
                KeyCode::Up
            };
            let after = s.pressed(key, false);
            &&& after.form.value(i, after.draft) == s.form.value(i, s.draft)
            &&& after.form.selected == (if down {
                if s.form.selected < 3 {
                    s.form.selected + 1
                } else {
                    3
                }
            } else {
                if s.form.selected > 0 {
                    (s.form.selected - 1) as nat
                } else {
                    0
                }
            })
            &&& after.llm == s.llm
            &&& after.queue == s.queue
            &&& after.mode == s.mode
        }),
{
    reveal(AppView::pressed);
    reveal(AppView::key);
    reveal(AppView::form_key);
    reveal(AppView::form_moved);
    reveal(edited);
}

/// Enter takes the settings as they were typed, but for white space around them:
/// each row into its own setting. They hold from then on, and are to be written
/// where there is a file for them.
pub proof fn law_form_is_saved(s: AppView)
    requires
        s.mode == Mode::LlmSettings,
        s.form.selected < 4,
        s.form.rows.len() == 4,
        crate::config::known_provider(
            crate::app_model::settings_of(s.form.kept(s.draft)).provider,
        ),
        trimmed(s.form.value(1, s.draft)).len() > 0,
    ensures
        ({
            let after = s.pressed(KeyCode::Enter, false);
            let url = trimmed(s.form.value(3, s.draft));
            &&& after.llm.provider == crate::config::provider_name(s.form.value(0, s.draft))
            &&& after.llm.model == trimmed(s.form.value(1, s.draft))
            &&& after.llm.api_key == trimmed(s.form.value(2, s.draft))
            &&& after.llm.base_url == if url.len() == 0 {
                None
            } else {
                Some(url)
            }
            &&& s.config_path is Some ==> after.saving && after.mode == Mode::LlmSettings
            &&& s.config_path is None ==> after.mode == Mode::Normal && after.notice is Some
            &&& after.queue == s.queue
        }),
{
    reveal(AppView::pressed);
    reveal(AppView::key);
    reveal(AppView::form_key);
    reveal(AppView::form_saved);
    reveal(AppView::form_done);
    reveal(AppView::form_cancelled);
    reveal(edited);
}

/// Whether the diff is looked at, and not as a document.
pub open spec fn in_diff(s: AppView) -> bool {
    &&& s.mode == Mode::FullDiff || (s.mode == Mode::Normal && s.focus == Focus::Diff)
    &&& !s.shows_markdown()
}

/// Whether a key is bound to nothing.
pub open spec fn is_free(s: AppView, key: KeyCode) -> bool {
    forall|action: Action| !#[trigger] is_bound(s.keys, key, action)
}

/// The keys to go down and up, and those to page, move the cursor of the diff by
/// one row and by ten.
pub proof fn law_diff_is_walked(s: AppView, key: KeyCode, action: Action)
    requires
        in_diff(s),
        means(s, key, action) || means_in_full(s, key, action),
        action == Action::NavDown || action == Action::NavUp || action == Action::ScrollDown
            || action == Action::ScrollUp,
    ensures
        s.pressed(key, false) == (AppView {
            viewer: s.viewer.moved(
                match action {
                    Action::NavDown => 1,
                    Action::NavUp => -1,
                    Action::ScrollDown => 10,
                    _ => -10,
                },
                s.showing(),
            ),
            ..calm(s)
        }),
{
    reveal(AppView::pressed);
    reveal(AppView::key);
    reveal(AppView::normal_key);
    reveal(AppView::move_key);
    reveal(AppView::action_key);
    reveal(AppView::full_key);
    reveal(AppView::moved);
    reveal(AppView::paged);
    reveal(AppView::cursor_moved);
    if s.mode == Mode::Normal {
        lemma_no_other(s, key, action);
    } else {
        lemma_full(s, key, action);
    }
}

/// The keys within a line of the diff move the block column, those for a
/// selection begin or end one, and `y` hands the selected text to the clipboard.
pub proof fn law_diff_keys(s: AppView, key: KeyCode)
    requires
        in_diff(s),
        is_free(s, key),
    ensures
        ({
            let at = s.showing();
            let after = s.pressed(key, false);
            &&& key == KeyCode::Char('h') ==> after == (AppView {
                viewer: s.viewer.col_moved(-1, at),
                ..calm(s)
            })
            &&& key == KeyCode::Char('l') ==> after == (AppView {
                viewer: s.viewer.col_moved(1, at),
                ..calm(s)
            })
            &&& key == KeyCode::Char('0') || key == KeyCode::Home ==> after == (AppView {
                viewer: s.viewer.col_home(at),
                ..calm(s)
            })
            &&& key == KeyCode::End ==> after == (AppView {
                viewer: s.viewer.col_end(at),
                ..calm(s)
            })
            &&& key == KeyCode::Char('v') && s.viewer.rows().len() > 0 && s.viewer.visual is None
                ==> after.viewer.visual == Some(
                VisualView {
                    row: s.viewer.row(),
                    col: s.viewer.col,
                    mode: VisualMode::Charwise,
                },
            )
            &&& key == KeyCode::Char('V') && s.viewer.rows().len() > 0 && s.viewer.visual is None
                ==> after.viewer.visual == Some(
                VisualView {
                    row: s.viewer.row(),
                    col: s.viewer.col,
                    mode: VisualMode::Linewise,
                },
            )
            &&& key == KeyCode::Char('y') && s.viewer.yank_text() is Some ==> {
                &&& after.clipboard == s.viewer.yank_text()
                &&& after.viewer == (ViewerView { visual: None, ..s.viewer })
                &&& after.error is None
                &&& after.notice is Some
                &&& after.queue == s.queue
            }
            &&& key == KeyCode::Char('y') && s.viewer.yank_text() is None ==> {
                &&& after.clipboard == s.clipboard
                &&& after.error is Some
            }
        }),
{
    lemma_free(s, key);
    reveal(AppView::pressed);
    reveal(AppView::key);
    reveal(AppView::normal_key);
    reveal(AppView::move_key);
    reveal(AppView::full_key);
    reveal(AppView::column_moved);
    reveal(AppView::yanked);
}

/// Over the whole screen, `J` and `K` go to the header of the next hunk and of
/// the one before.
pub proof fn law_hunks_are_walked(s: AppView, down: bool)
    requires
        s.mode == Mode::FullDiff,
        !s.shows_markdown(),
        is_free(s, KeyCode::Char('J')),
        is_free(s, KeyCode::Char('K')),
        s.viewer.diff is Some,
        s.viewer.hunk < s.viewer.hunks(),
        s.viewer.rows().len() <= u16::MAX,
    ensures
        ({
            let after = s.pressed(
                if down {
                    KeyCode::Char('J')
                } else {
                    KeyCode::Char('K')
                },
                false,
            );
            let to = if down {
                if s.viewer.hunk + 1 < s.viewer.hunks() {
                    s.viewer.hunk + 1
                } else {
                    s.viewer.hunk
                }
            } else {
                if s.viewer.hunk > 0 {
                    (s.viewer.hunk - 1) as nat
                } else {
                    0
                }
            };
            &&& after.viewer.hunk == to
            &&& after.viewer.rows()[after.viewer.cursor as int] == (
            crate::diff_rows::RowView::Header { index: to })
            &&& after == (AppView { viewer: after.viewer, ..calm(s) })
            &&& after.viewer.diff == s.viewer.diff
        }),
{
    lemma_free(s, KeyCode::Char('J'));
    lemma_free(s, KeyCode::Char('K'));
    reveal(AppView::pressed);
    reveal(AppView::key);
    reveal(AppView::full_key);
    let v = s.viewer;
    let to = if down {
        if v.hunk + 1 < v.hunks() {
            v.hunk + 1
        } else {
            v.hunk
        }
    } else {
        if v.hunk > 0 {
            (v.hunk - 1) as nat
        } else {
            0
        }
    };
    crate::viewer_laws::lemma_header_at(v.rows(), to, 0);
    crate::viewer_laws::law_hunk_jump(v, to);
}

/// A key that is bound to nothing.
proof fn lemma_free(s: AppView, key: KeyCode)
    requires
        is_free(s, key),
    ensures
        !s.keys.focus_next.contains(key),
        !s.keys.focus_status.contains(key),
        !s.keys.focus_branches.contains(key),
        !s.keys.focus_log.contains(key),
        !s.keys.focus_stash.contains(key),
        !s.keys.focus_diff.contains(key),
        !s.keys.nav_down.contains(key),
        !s.keys.nav_up.contains(key),
        !s.keys.stage.contains(key),
        !s.keys.discard.contains(key),
        !s.keys.scroll_up.contains(key),
        !s.keys.scroll_down.contains(key),
        !s.keys.toggle_markdown_preview.contains(key),
        !s.keys.find_files.contains(key),
{
    assert(is_bound(s.keys, key, Action::FocusNext) == s.keys.focus_next.contains(key));
    assert(is_bound(s.keys, key, Action::FocusStatus) == s.keys.focus_status.contains(key));
    assert(is_bound(s.keys, key, Action::FocusBranches) == s.keys.focus_branches.contains(key));
    assert(is_bound(s.keys, key, Action::FocusLog) == s.keys.focus_log.contains(key));
    assert(is_bound(s.keys, key, Action::FocusStash) == s.keys.focus_stash.contains(key));
    assert(is_bound(s.keys, key, Action::FocusDiff) == s.keys.focus_diff.contains(key));
    assert(is_bound(s.keys, key, Action::NavDown) == s.keys.nav_down.contains(key));
    assert(is_bound(s.keys, key, Action::NavUp) == s.keys.nav_up.contains(key));
    assert(is_bound(s.keys, key, Action::Stage) == s.keys.stage.contains(key));
    assert(is_bound(s.keys, key, Action::Discard) == s.keys.discard.contains(key));
    assert(is_bound(s.keys, key, Action::ScrollUp) == s.keys.scroll_up.contains(key));
    assert(is_bound(s.keys, key, Action::ScrollDown) == s.keys.scroll_down.contains(key));
    assert(is_bound(s.keys, key, Action::ToggleMarkdown)
        == s.keys.toggle_markdown_preview.contains(key));
    assert(is_bound(s.keys, key, Action::FindFiles) == s.keys.find_files.contains(key));
}

/// The keys to go down and up in the files move the cursor of the tree one row,
/// and the file that is then selected is asked for; at either end nothing moves.
pub proof fn law_files_are_walked(s: AppView, key: KeyCode, down: bool)
    requires
        s.focus == Focus::Status,
        means(
            s,
            key,
            if down {
                Action::NavDown
            } else {
                Action::NavUp
            },
        ),
    ensures
        ({
            let after = s.pressed(key, false);
            match s.tree.step(down) {
                Some(tree) => {
                    &&& after.tree == tree
                    &&& after.diff_for == (match tree.file() {
                        Some(f) => Some((f.path@, f.state == FileState::Staged)),
                        None => None,
                    })
                    &&& after.mode == s.mode
                    &&& after.focus == s.focus
                },
                None => after == calm(s),
            }
        }),
{
    lemma_no_other(
        s,
        key,
        if down {
            Action::NavDown
        } else {
            Action::NavUp
        },
    );
    reveal(AppView::pressed);
    reveal(AppView::key);
    reveal(AppView::normal_key);
    reveal(AppView::move_key);
    reveal(AppView::moved);
    reveal(AppView::tree_stepped);
    reveal(AppView::diff_loaded);
    reveal(AppView::submitted);
}

/// The key for documents shows a Markdown file rendered, and shows its diff
/// again; of any other file it says that it is none.
pub proof fn law_document_key(s: AppView, key: KeyCode)
    requires
        means(s, key, Action::ToggleMarkdown) || means_in_full(s, key, Action::ToggleMarkdown),
        s.tree.file() is Some,
    ensures
        ({
            let after = s.pressed(key, false);
            let file = s.tree.file()->0;
            let staged = file.state == FileState::Staged;
            if markdown_path(file.path@) {
                &&& after.markdown_preview == !s.markdown_preview
                &&& after.viewer.visual is None
                &&& after.viewer.diff == s.viewer.diff
                &&& after.tree == s.tree
                &&& s.markdown_preview ==> after.queue == s.queue
                &&& !s.markdown_preview && s.queue.closed is None && s.md_for != Some(
                    (file.path@, staged),
                ) ==> {
                    &&& after.queue.pending == s.queue.pending + seq![
                        JobView::LoadMarkdown { path: file.path@, staged },
                    ]
                    &&& after.md_for == Some((file.path@, staged))
                    &&& after.md_text is None
                }
            } else {
                &&& after.markdown_preview == s.markdown_preview
                &&& after.queue == s.queue
                &&& after.error is Some
            }
        }),
{
    if s.mode == Mode::Normal {
        lemma_action(s, key, Action::ToggleMarkdown);
        lemma_no_other(s, key, Action::ToggleMarkdown);
        reveal(AppView::action_key);
    } else {
        lemma_full(s, key, Action::ToggleMarkdown);
        reveal(AppView::pressed);
        reveal(AppView::key);
        reveal(AppView::full_key);
    }
    reveal(AppView::markdown_toggled);
    reveal(AppView::markdown_loaded);
    reveal(AppView::submitted);
    let file = s.tree.file()->0;
    let job = JobView::LoadMarkdown {
        path: file.path@,
        staged: file.state == FileState::Staged,
    };
    assert(s.queue.pending.push(job) =~= s.queue.pending + seq![job]);
}

/// A yank says how much it took: the lines of it where it ends with a line break,
/// else its characters.
pub proof fn law_yank_is_counted(text: Seq<char>)
    requires
        text.len() > 0,
    ensures
        text.last() != '\n' ==> crate::app_model::yank_notice(text) == "yanked "@ + decimal(
            text.len(),
        ) + " chars"@,
        text.last() == '\n' && lines_from(text, 0).len() == 1 ==> crate::app_model::yank_notice(
            text,
        ) == "yanked "@ + decimal(1) + " line"@,
        text.last() == '\n' && lines_from(text, 0).len() != 1 ==> crate::app_model::yank_notice(
            text,
        ) == "yanked "@ + decimal(lines_from(text, 0).len()) + " lines"@,
{
}

/// The folder that a file is in: what stands before the last slash of its path.
pub open spec fn is_folder_of(dir: Seq<char>, path: Seq<char>) -> bool {
    &&& dir.len() < path.len()
    &&& path.take(dir.len() as int) == dir
    &&& path[dir.len() as int] == '/'
    &&& forall|i: int| dir.len() < i < path.len() ==> #[trigger] path[i] != '/'
}

proof fn lemma_last_ancestor(path: Seq<char>, n: nat, k: nat)
    requires
        n < k <= path.len(),
        path[n as int] == '/',
        forall|i: int| n < i < k ==> #[trigger] path[i] != '/',
    ensures
        ancestors_to(path, k).len() > 0,
        ancestors_to(path, k).last() == path.take(n as int),
    decreases k,
{
    if n < k - 1 {
        assert(path[k - 1] != '/');
        lemma_last_ancestor(path, n, (k - 1) as nat);
    }
}

/// Left on a file folds the folder that it is in, or opens it where it is folded;
/// no other fold changes, nothing is asked for, and the same file stays selected.
pub proof fn law_left_folds_the_folder(s: AppView, dir: Seq<char>)
    requires
        s.mode == Mode::Normal,
        s.focus == Focus::Status,
        !s.keys.focus_next.contains(KeyCode::Left),
        s.tree.dir_cursor is None,
        s.tree.file() is Some,
        is_folder_of(dir, s.tree.file()->0.path@),
    ensures
        ({
            let after = s.pressed(KeyCode::Left, false);
            &&& after == (AppView { tree: after.tree, ..calm(s) })
            &&& after.tree == (TreeView {
                collapsed: if s.tree.collapsed.contains(dir) {
                    s.tree.collapsed.remove(dir)
                } else {
                    s.tree.collapsed.insert(dir)
                },
                ..s.tree
            })
        }),
{
    reveal(AppView::pressed);
    reveal(AppView::key);
    reveal(AppView::normal_key);
    reveal(AppView::move_key);
    reveal(AppView::folder_toggled);
    let path = s.tree.file()->0.path@;
    lemma_last_ancestor(path, dir.len(), path.len());
}

/// Right on a file that a fold hides opens every folder around it, and closes
/// none.
pub proof fn law_right_opens_the_folders(s: AppView)
    requires
        s.mode == Mode::Normal,
        s.focus == Focus::Status,
        !s.keys.focus_next.contains(KeyCode::Right),
        s.tree.dir_cursor is None,
        s.tree.file() is Some,
        is_hidden(s.tree.file()->0.path@, s.tree.collapsed),
    ensures
        ({
            let after = s.pressed(KeyCode::Right, false);
            &&& after == (AppView { tree: after.tree, ..calm(s) })
            &&& after.tree.file() == s.tree.file()
            &&& !is_hidden(s.tree.file()->0.path@, after.tree.collapsed)
            &&& after.tree.collapsed.subset_of(s.tree.collapsed)
        }),
{
    reveal(AppView::pressed);
    reveal(AppView::key);
    reveal(AppView::normal_key);
    reveal(AppView::move_key);
    law_expanded_shows(s.tree);
}

/// Shift and Right in the files brings the diff into focus, and changes nothing
/// else.
pub proof fn law_shift_right_goes_to_the_diff(s: AppView)
    requires
        s.mode == Mode::Normal,
        s.focus == Focus::Status,
    ensures
        s.pressed(KeyCode::Right, true) == (AppView { focus: Focus::Diff, ..calm(s) }),
{
    reveal(AppView::pressed);
}

/// Paging while the panels are in focus scrolls the preview by ten lines, and
/// leaves its cursor where it is.
pub proof fn law_paging_scrolls_the_preview(s: AppView, key: KeyCode, down: bool)
    requires
        s.focus != Focus::Diff,
        !s.shows_markdown(),
        means(
            s,
            key,
            if down {
                Action::ScrollDown
            } else {
                Action::ScrollUp
            },
        ),
    ensures
        ({
            let after = s.pressed(key, false);
            let max = s.viewer.preview_max();
            &&& after == (AppView {
                viewer: ViewerView { scroll: after.viewer.scroll, ..s.viewer },
                ..calm(s)
            })
            &&& down && s.viewer.scroll + 10 <= max ==> after.viewer.scroll == s.viewer.scroll + 10
            &&& down && s.viewer.scroll + 10 > max ==> after.viewer.scroll == max
            &&& !down && 10 <= s.viewer.scroll <= max + 10 ==> after.viewer.scroll
                == s.viewer.scroll - 10
            &&& !down && s.viewer.scroll < 10 ==> after.viewer.scroll == 0
        }),
{
    let action = if down {
        Action::ScrollDown
    } else {
        Action::ScrollUp
    };
    lemma_action(s, key, action);
    lemma_no_other(s, key, action);
    reveal(AppView::action_key);
    reveal(AppView::paged);
    reveal(AppView::diff_scrolled);
}

/// The keys to go down and up in the log scroll it by one commit, and not past
/// its ends.
pub proof fn law_log_is_scrolled(s: AppView, key: KeyCode, down: bool)
    requires
        s.focus == Focus::Log,
        means(
            s,
            key,
            if down {
                Action::NavDown
            } else {
                Action::NavUp
            },
        ),
        s.log is Some,
        s.log_scroll < s.log->0.len() <= u16::MAX,
    ensures
        s.pressed(key, false) == (AppView {
            log_scroll: if down {
                if s.log_scroll + 1 < s.log->0.len() {
                    s.log_scroll + 1
                } else {
                    s.log_scroll
                }
            } else {
                if s.log_scroll > 0 {
                    (s.log_scroll - 1) as nat
                } else {
                    0
                }
            },
            ..calm(s)
        }),
{
    lemma_no_other(
        s,
        key,
        if down {
            Action::NavDown
        } else {
            Action::NavUp
        },
    );
    reveal(AppView::pressed);
    reveal(AppView::key);
    reveal(AppView::normal_key);
    reveal(AppView::move_key);
    reveal(AppView::moved);
    reveal(AppView::log_scrolled);
}

/// The key for the next panel goes round through the files, the branches, the
/// commits and the stash, and asks for what is not loaded yet.
pub proof fn law_next_panel_key(s: AppView, key: KeyCode)
    requires
        means(s, key, Action::FocusNext),
        s.queue.closed is None,
    ensures
        ({
            let after = s.pressed(key, false);
            let jobs = match after.focus {
                Focus::Branches => if s.branches is None {
                    seq![JobView::ListBranches]
                } else {
                    Seq::empty()
                },
                Focus::Log => if s.log is None {
                    seq![JobView::ListLog { limit: 100 }]
                } else {
                    Seq::empty()
                },
                Focus::Stash => if s.stash is None {
                    seq![JobView::ListStash]
                } else {
                    Seq::empty()
                },
                _ => Seq::empty(),
            };
            &&& after.focus == (match s.focus {
                Focus::Status => Focus::Branches,
                Focus::Branches => Focus::Log,
                Focus::Log => Focus::Stash,
                _ => Focus::Status,
            })
            &&& after == (AppView { focus: after.focus, ..asking(s, jobs) })
        }),
{
    lemma_no_other(s, key, Action::FocusNext);
    reveal(AppView::pressed);
    reveal(AppView::key);
    reveal(AppView::normal_key);
    reveal(AppView::move_key);
    reveal(AppView::focus_cycled);
    reveal(AppView::branches_loaded);
    reveal(AppView::log_loaded);
    reveal(AppView::stash_loaded);
    reveal(AppView::submitted);
    assert(s.queue.pending + Seq::<JobView>::empty() =~= s.queue.pending);
    assert(s.queue.pending.push(JobView::ListBranches) =~= s.queue.pending + seq![
        JobView::ListBranches,
    ]);
    assert(s.queue.pending.push(JobView::ListLog { limit: 100 }) =~= s.queue.pending + seq![
        JobView::ListLog { limit: 100 },
    ]);
    assert(s.queue.pending.push(JobView::ListStash) =~= s.queue.pending + seq![
        JobView::ListStash,
    ]);
}

/// Settings that were written close the form and say where; where that failed the
/// form stays open and says why.
pub proof fn law_saving_is_reported(s: AppView, why: Seq<char>)
    requires
        s.mode == Mode::LlmSettings,
        s.config_path is Some,
    ensures
        ({
            let done = s.save_finished(Ok(()));
            let failed = s.save_finished(Err(why));
            &&& done.mode == Mode::Normal
            &&& done.notice == Some("LLM settings saved to "@ + s.config_path->0)
            &&& done.error is None
            &&& !done.saving
            &&& done.llm == s.llm
            &&& failed.mode == Mode::LlmSettings
            &&& failed.error == Some(why)
            &&& !failed.saving
        }),
{
    reveal(AppView::save_finished);
    reveal(AppView::form_done);
    reveal(AppView::form_cancelled);
}

/// A clipboard that the terminal refuses is reported, and changes nothing else.
pub proof fn law_refused_clipboard_is_reported(s: AppView)
    ensures
        s.clipboard_refused().error is Some,
        s.clipboard_refused() == (AppView { error: s.clipboard_refused().error, ..s }),
{
}

/// Right on a file in sight opens the fold right below it, or else the one right
/// above it: one folder that hides the neighbour, and no other.
pub proof fn law_right_opens_a_neighbour(s: AppView)
    requires
        s.mode == Mode::Normal,
        s.focus == Focus::Status,
        !s.keys.focus_next.contains(KeyCode::Right),
        s.tree.dir_cursor is None,
        s.tree.selected < s.tree.list.len(),
        !is_hidden(s.tree.file()->0.path@, s.tree.collapsed),
    ensures
        ({
            let after = s.pressed(KeyCode::Right, false);
            let list = s.tree.list;
            let folds = s.tree.collapsed;
            let n = s.tree.selected as int;
            let below = n + 1 < list.len() && is_hidden(list[n + 1].path@, folds);
            let above = 0 < n && is_hidden(list[n - 1].path@, folds);
            &&& after == (AppView {
                tree: TreeView { collapsed: after.tree.collapsed, ..s.tree },
                ..calm(s)
            })
            &&& below ==> opens_one_above(list[n + 1].path@, folds, after.tree.collapsed)
            &&& !below && above ==> opens_one_above(
                list[n - 1].path@,
                folds,
                after.tree.collapsed,
            )
            &&& !below && !above ==> after.tree.collapsed == folds
        }),
{
    reveal(AppView::pressed);
    reveal(AppView::key);
    reveal(AppView::normal_key);
    reveal(AppView::move_key);
    let list = s.tree.list;
    let folds = s.tree.collapsed;
    let n = s.tree.selected as int;
    if n + 1 < list.len() && is_hidden(list[n + 1].path@, folds) {
        lemma_opens_one(list[n + 1].path@, folds);
    } else if 0 < n && is_hidden(list[n - 1].path@, folds) {
        lemma_opens_one(list[n - 1].path@, folds);
    }
}

/// Whether one folder around a path was opened, and the folders around that one
/// were open already.
pub open spec fn opens_one_above(
    path: Seq<char>,
    before: Set<Seq<char>>,
    after: Set<Seq<char>>,
) -> bool {
    exists|i: int|
        {
            &&& 0 <= i < ancestors_of(path).len()
            &&& before.contains(#[trigger] ancestors_of(path)[i])
            &&& after == before.remove(ancestors_of(path)[i])
            &&& forall|k: int| 0 <= k < i ==> !before.contains(#[trigger] ancestors_of(path)[k])
        }
}

proof fn lemma_first_fold(path: Seq<char>, folds: Set<Seq<char>>, from: int) -> (at: int)
    requires
        0 <= from <= ancestors_of(path).len(),
        exists|i: int|
            from <= i < ancestors_of(path).len() && folds.contains(
                #[trigger] ancestors_of(path)[i],
            ),
    ensures
        from <= at < ancestors_of(path).len(),
        folded_above(path, folds, from) == Some(ancestors_of(path)[at]),
        folds.contains(ancestors_of(path)[at]),
        forall|k: int| from <= k < at ==> !folds.contains(#[trigger] ancestors_of(path)[k]),
    decreases ancestors_of(path).len() - from,
{
    if folds.contains(ancestors_of(path)[from]) {
        from
    } else {
        lemma_first_fold(path, folds, from + 1)
    }
}

proof fn lemma_opens_one(path: Seq<char>, folds: Set<Seq<char>>)
    requires
        is_hidden(path, folds),
    ensures
        opens_one_above(path, folds, folds.remove(folded_above(path, folds, 0)->0)),
{
    let at = lemma_first_fold(path, folds, 0);
    assert(folds.contains(ancestors_of(path)[at]));
}

} // verus!
