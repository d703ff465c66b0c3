//! What the panels show: which of their lines are on the screen, which one is
//! highlighted, and how each of them reads.

use crate::app_model::{AppView, Focus, Mode};
use crate::config::named_theme;
use crate::layout::{followed, law_selection_shows, Rect};
use crate::markdown_wrap::row_text;
use crate::model::{
    BranchInfo, CommitInfo, FileState, RepoStatus, StashEntry, StatusEntry, SyncStatus,
};
use crate::panel_lists::{
    branch_line, branches_panel, commit_line, commits_panel, footer_lines, footer_rows, hints,
    list_panel, stash_line, stash_panel,
};
use crate::panels::{
    files_panel, highlighted_row, inner_height, row_line, settled, status_line, sync_text,
    PanelFrame,
};
use crate::screen::{branches_drawn, files_drawn, stash_drawn};
use crate::style::SpanView;
use crate::text::{
    after_last, contains_text, decimal, lemma_past_last, past_last, repeated, stands_at,
};
use crate::theme::Theme;
use crate::tree::FileRowView;
use vstd::prelude::*;
use vstd::string::*;

verus! {

/// Whether lines are a part of other lines, from one of them on.
pub open spec fn is_window(
    shown: Seq<Seq<SpanView>>,
    all: Seq<Seq<SpanView>>,
    from: int,
) -> bool {
    &&& 0 <= from
    &&& from + shown.len() <= all.len()
    &&& forall|i: int| 0 <= i < shown.len() ==> #[trigger] shown[i] == all[from + i]
}

/// A list panel shows a part of its list with the selected line in it, highlights
/// that line and no other, and says in its title which of how many it is.
pub proof fn law_list_panel_shows_selection(
    area: Rect,
    focused: bool,
    head: Seq<char>,
    lines: Seq<Seq<SpanView>>,
    selected: nat,
    scroll: nat,
) -> (from: int)
    requires
        selected < lines.len(),
        area.height > 2,
    ensures
        ({
            let panel = list_panel(area, focused, head, lines, selected, scroll);
            &&& is_window(panel.lines, lines, from)
            &&& panel.lines.len() <= area.height - 2
            &&& from <= selected < from + panel.lines.len()
            &&& panel.highlight == Some((selected - from) as nat)
            &&& panel.lines[selected - from] == lines[selected as int]
            &&& panel.title == head + (seq![' ', '('] + decimal(selected + 1) + seq![
                ' ',
                'o',
                'f',
                ' ',
            ] + decimal(lines.len()) + seq![')'])
            &&& panel.frame == (PanelFrame::Panel { focused })
            &&& panel.area == area
            &&& panel.scroll == 0
        }),
{
    reveal_strlit(" (");
    reveal_strlit(" of ");
    reveal_strlit(")");
    assert(" ("@ =~= seq![' ', '(']);
    assert(" of "@ =~= seq![' ', 'o', 'f', ' ']);
    assert(")"@ =~= seq![')']);
    let visible = inner_height(area);
    law_selection_shows(selected, visible, scroll);
    followed(selected, visible, scroll) as int
}

/// The spans of a line read one after the other.
proof fn lemma_text_of_spans(line: Seq<SpanView>)
    ensures
        line.len() == 1 ==> row_text(line) == line[0].text,
        line.len() == 2 ==> row_text(line) == line[0].text + line[1].text,
        line.len() == 3 ==> row_text(line) == line[0].text + line[1].text + line[2].text,
        line.len() == 4 ==> row_text(line) == line[0].text + line[1].text + line[2].text
            + line[3].text,
{
    reveal_with_fuel(row_text, 5);
    if line.len() > 0 && line.len() <= 4 {
        let none = Seq::<char>::empty();
        assert(none + line[0].text =~= line[0].text);
    }
}

/// A branch shows with its name and the summary of its last commit; a star and
/// bold letters are for the one that is checked out, and for no other.
pub proof fn law_branches_read(b: BranchInfo, theme: Theme)
    ensures
        ({
            let line = branch_line(b, theme);
            &&& row_text(line) == (if b.is_head {
                seq!['*', ' ']
            } else {
                seq![' ', ' ']
            }) + b.name@ + (seq![' ', ' '] + b.tip_summary@)
            &&& line[1].text == b.name@
            &&& line[1].style.modifier.bold == b.is_head
        }),
{
    reveal_strlit("* ");
    reveal_strlit("  ");
    assert("* "@ =~= seq!['*', ' ']);
    assert("  "@ =~= seq![' ', ' ']);
    lemma_text_of_spans(branch_line(b, theme));
}

/// The branches panel highlights the branch that Enter checks out, and is aglow
/// exactly while it is in focus.
pub proof fn law_branches_panel(app: AppView, area: Rect, list: Seq<BranchInfo>) -> (from: int)
    requires
        app.branches == Some(list),
        app.branch_selected < list.len(),
        area.height > 2,
    ensures
        ({
            let panel = branches_panel(app, area);
            let lines = list.map_values(|b: BranchInfo| branch_line(b, app.theme));
            &&& is_window(panel.lines, lines, from)
            &&& panel.highlight == Some((app.branch_selected - from) as nat)
            &&& from <= app.branch_selected < from + panel.lines.len()
            &&& panel.lines[app.branch_selected - from] == branch_line(app.branch()->0, app.theme)
            &&& panel.frame == (PanelFrame::Panel { focused: app.focus == Focus::Branches })
        }),
{
    reveal(branches_panel);
    let lines = list.map_values(|b: BranchInfo| branch_line(b, app.theme));
    law_list_panel_shows_selection(
        area,
        app.focus == Focus::Branches,
        "[2]-Local branches"@,
        lines,
        app.branch_selected,
        app.branch_scroll,
    )
}

/// A stash entry shows with its number and its message.
pub proof fn law_stash_entries_read(e: StashEntry, theme: Theme)
    ensures
        row_text(stash_line(e, theme)) == seq!['s', 't', 'a', 's', 'h', '@'] + decimal(
            e.index as nat,
        ) + seq![' '] + e.message@,
{
    reveal_strlit("stash@");
    reveal_strlit(" ");
    assert("stash@"@ =~= seq!['s', 't', 'a', 's', 'h', '@']);
    assert(" "@ =~= seq![' ']);
    lemma_text_of_spans(stash_line(e, theme));
}

/// The stash panel highlights the entry that the keys apply and drop.
pub proof fn law_stash_panel(app: AppView, area: Rect, list: Seq<StashEntry>) -> (from: int)
    requires
        app.stash == Some(list),
        app.stash_selected < list.len(),
        area.height > 2,
    ensures
        ({
            let panel = stash_panel(app, area);
            let lines = list.map_values(|e: StashEntry| stash_line(e, app.theme));
            &&& is_window(panel.lines, lines, from)
            &&& panel.highlight == Some((app.stash_selected - from) as nat)
            &&& from <= app.stash_selected < from + panel.lines.len()
            &&& panel.lines[app.stash_selected - from] == stash_line(
                app.stash_entry()->0,
                app.theme,
            )
            &&& panel.frame == (PanelFrame::Panel { focused: app.focus == Focus::Stash })
        }),
{
    reveal(stash_panel);
    let lines = list.map_values(|e: StashEntry| stash_line(e, app.theme));
    law_list_panel_shows_selection(
        area,
        app.focus == Focus::Stash,
        "[4]-Stash"@,
        lines,
        app.stash_selected,
        app.stash_scroll,
    )
}

/// A commit shows with its id, its summary and its author; the panel has all of
/// them in order, scrolled as far as the log is.
pub proof fn law_commits_panel(app: AppView, area: Rect, list: Seq<CommitInfo>, i: int)
    requires
        app.log == Some(list),
        0 <= i < list.len(),
    ensures
        ({
            let panel = commits_panel(app, area);
            &&& panel.lines.len() == list.len()
            &&& row_text(panel.lines[i]) == list[i].id@ + seq![' '] + list[i].summary@ + (seq![
                ' ',
                ' ',
                '—',
                ' ',
            ] + list[i].author@)
            &&& panel.scroll == app.log_scroll
            &&& panel.frame == (PanelFrame::Panel { focused: app.focus == Focus::Log })
        }),
{
    reveal_strlit(" ");
    reveal_strlit("  — ");
    assert(" "@ =~= seq![' ']);
    assert("  — "@ =~= seq![' ', ' ', '—', ' ']);
    reveal(commits_panel);
    lemma_text_of_spans(commit_line(list[i], app.theme));
    assert(commits_panel(app, area).lines[i] == commit_line(list[i], app.theme));
}

/// The letter that stands for the state of a file.
pub open spec fn letter_of(state: FileState) -> char {
    match state {
        FileState::Staged => 'S',
        FileState::Unstaged => 'M',
        FileState::Untracked => '?',
        FileState::Conflicted => 'C',
        FileState::BothStagedAndUnstaged => 'B',
        FileState::Clean => ' ',
    }
}

/// A file shows with the letter of its state in front of its own name, behind the
/// last slash of its path; a folder with an arrow that points right while it is
/// folded and down while it is open, and a slash behind its name. Both are
/// indented by two for each folder around them.
pub proof fn law_tree_rows_read(
    list: Seq<StatusEntry>,
    folded: Set<Seq<char>>,
    theme: Theme,
    index: nat,
    dir: Seq<char>,
    depth: nat,
)
    requires
        index < list.len(),
    ensures
        ({
            let file = list[index as int];
            let line = row_line(FileRowView::File { index, depth }, list, folded, theme);
            let header = row_line(FileRowView::Dir { path: dir, depth }, list, folded, theme);
            let indent = repeated(' ', 2 * depth);
            &&& row_text(line) == indent + seq![letter_of(file.state), ' '] + after_last(
                file.path@,
                '/',
            )
            &&& row_text(header) == indent + (if folded.contains(dir) {
                seq!['▶', ' ']
            } else {
                seq!['▼', ' ']
            }) + after_last(dir, '/') + seq!['/']
        }),
{
    reveal_strlit("S");
    reveal_strlit("M");
    reveal_strlit("?");
    reveal_strlit("C");
    reveal_strlit("B");
    reveal_strlit(" ");
    reveal_strlit("/");
    reveal_strlit("▶ ");
    reveal_strlit("▼ ");
    assert("▶ "@ =~= seq!['▶', ' ']);
    assert("▼ "@ =~= seq!['▼', ' ']);
    assert("/"@ =~= seq!['/']);
    let file = list[index as int];
    let line = row_line(FileRowView::File { index, depth }, list, folded, theme);
    let header = row_line(FileRowView::Dir { path: dir, depth }, list, folded, theme);
    lemma_text_of_spans(line);
    lemma_text_of_spans(header);
    let indent = repeated(' ', 2 * depth);
    assert(row_text(line) =~= indent + seq![letter_of(file.state), ' '] + after_last(
        file.path@,
        '/',
    ));
}

/// The own name of a path is its end behind the last slash.
pub proof fn law_name_is_the_last_part(path: Seq<char>)
    ensures
        ({
            let name = after_last(path, '/');
            let rest = path.len() - name.len();
            &&& rest >= 0
            &&& path.skip(rest) == name
            &&& !name.contains('/')
            &&& rest > 0 ==> path[rest - 1] == '/'
        }),
{
    let at = past_last(path, path.len() as int, '/');
    lemma_past_last(path, path.len() as int, '/');
    let name = after_last(path, '/');
    if name.contains('/') {
        let i = choose|i: int| 0 <= i < name.len() && name[i] == '/';
        assert(path[at + i] == '/');
    }
}

/// The files panel shows a part of the tree's rows with the cursor's row in it,
/// and highlights that row.
pub proof fn law_files_panel(app: AppView, area: Rect) -> (from: int)
    requires
        app.status is Some,
        app.tree.selected < app.tree.list.len(),
        area.height > 2,
        app.tree.cursor_row() is Some,
        app.tree.cursor_row()->0 < app.tree.rows().len(),
    ensures
        ({
            let panel = files_panel(app, area);
            let rows = app.tree.rows();
            let at = app.tree.cursor_row()->0;
            &&& 0 <= from <= at < from + panel.lines.len()
            &&& from + panel.lines.len() <= rows.len()
            &&& panel.lines.len() <= area.height - 2
            &&& panel.highlight == Some((at - from) as nat)
            &&& panel.title == "[2]-Files"@ + (" ("@ + decimal(app.tree.selected + 1) + " of "@
                + decimal(app.tree.list.len()) + ")"@)
            &&& forall|i: int|
                0 <= i < panel.lines.len() ==> #[trigger] panel.lines[i] == row_line(
                    rows[from + i],
                    app.tree.list,
                    app.tree.collapsed,
                    app.theme,
                )
            &&& panel.frame == (PanelFrame::Panel { focused: app.focus == Focus::Status })
        }),
{
    let at = app.tree.cursor_row()->0;
    reveal(files_panel);
    assert(settled(app.tree) == app.tree);
    assert(highlighted_row(app.tree) == at);
    law_selection_shows(at, inner_height(area), app.files_scroll);
    followed(at, inner_height(area), app.files_scroll) as int
}

/// The status line names the repository and the branch, and counts the changed
/// files; a check mark stands for none.
pub proof fn law_status_line_reads(app: AppView, st: RepoStatus)
    requires
        app.status == Some(st),
    ensures
        ({
            let text = row_text(status_line(app));
            let sync = sync_text(app.syncing, app.sync);
            let name = app.repo_name + seq![' ', '→', ' '] + st.branch@;
            &&& st.files@.len() == 0 ==> text == seq!['✓', ' '] + (name + sync)
            &&& st.files@.len() > 0 ==> text == seq!['●', ' '] + (name + seq![' ', '('] + decimal(
                st.files@.len(),
            ) + seq![')'] + sync)
        }),
{
    reveal_strlit("✓ ");
    reveal_strlit("● ");
    reveal_strlit(" → ");
    reveal_strlit(" (");
    reveal_strlit(")");
    assert("✓ "@ =~= seq!['✓', ' ']);
    assert("● "@ =~= seq!['●', ' ']);
    assert(" → "@ =~= seq![' ', '→', ' ']);
    assert(" ("@ =~= seq![' ', '(']);
    assert(")"@ =~= seq![')']);
    lemma_text_of_spans(status_line(app));
}

/// How the branch stands to its upstream: its name, and how many commits the
/// branch is ahead and behind, where it is. What is being done goes first.
pub proof fn law_sync_text_reads(sync: SyncStatus, label: Seq<char>)
    ensures
        ({
            let text = sync_text(None, Some(sync));
            let ahead = if sync.ahead > 0 {
                seq![' ', '↑'] + decimal(sync.ahead as nat)
            } else {
                Seq::empty()
            };
            let behind = if sync.behind > 0 {
                seq![' ', '↓'] + decimal(sync.behind as nat)
            } else {
                Seq::empty()
            };
            &&& (sync.upstream matches Some(up) ==> text == seq![' ', '→', ' '] + up@ + ahead
                + behind)
            &&& sync_text(Some(label), Some(sync)) == seq![' ', '·', ' '] + label
            &&& sync_text(None, None).len() == 0
        }),
{
    reveal_strlit(" → ");
    reveal_strlit(" ↑");
    reveal_strlit(" ↓");
    reveal_strlit(" · ");
    assert(" → "@ =~= seq![' ', '→', ' ']);
    assert(" ↑"@ =~= seq![' ', '↑']);
    assert(" ↓"@ =~= seq![' ', '↓']);
    assert(" · "@ =~= seq![' ', '·', ' ']);
}

/// The footer shows an error if there is one, else a notice if there is one, and
/// below that what the keys do; it takes a row for each.
pub proof fn law_footer_reads(app: AppView, multi: bool)
    ensures
        ({
            let lines = footer_lines(app, multi);
            &&& lines.len() == footer_rows(app)
            &&& (app.error matches Some(why) ==> lines.len() == 2 && row_text(lines[0]) == seq![
                'E',
                'r',
                'r',
                'o',
                'r',
                ':',
                ' ',
            ] + why)
            &&& app.error is None && app.notice is Some ==> lines.len() == 2 && row_text(lines[0])
                == app.notice->0
            &&& app.error is None && app.notice is None ==> lines.len() == 1
            &&& lines.last() == footer_lines(
                AppView { error: None, notice: None, ..app },
                multi,
            )[0]
        }),
{
    reveal_strlit("Error: ");
    assert("Error: "@ =~= seq!['E', 'r', 'r', 'o', 'r', ':', ' ']);
    lemma_text_of_spans(footer_lines(app, multi)[0]);
}

/// What the keys of a mode or of a panel are there for, in the words of the
/// footer.
pub open spec fn main_hint(app: AppView) -> Seq<char> {
    match app.mode {
        Mode::Committing => if app.generating {
            "generating"@
        } else {
            "Enter commit"@
        },
        Mode::NewBranch => "Enter create branch"@,
        Mode::StashPush => "Enter stash"@,
        Mode::SetUpstream => "Enter push -u"@,
        Mode::SetRemote => "Enter add origin + push"@,
        Mode::FullDiff => "space stage hunk"@,
        Mode::FindFile => "enter open"@,
        Mode::LlmSettings => "enter save"@,
        Mode::OpenProject => "enter open/descend"@,
        Mode::ConfirmInit => "enter git init here"@,
        Mode::Normal => match app.focus {
            Focus::Branches => "enter checkout"@,
            Focus::Log => "j/k scroll"@,
            Focus::Stash => "enter pop"@,
            Focus::Diff => "enter full screen"@,
            Focus::Status => "space stage"@,
        },
    }
}

/// The footer tells what the keys do where they are pressed: the hints of every
/// mode and of every panel name what they are there for.
pub proof fn law_hints_name_the_keys(app: AppView)
    ensures
        contains_text(hints(app), main_hint(app)),
{
    let at: int = match app.mode {
        Mode::Committing => if app.generating {
            reveal_strlit("generating from staged diff… · Esc cancel");
            reveal_strlit("generating");
            0
        } else {
            reveal_strlit("←/→/↑/↓ move · Home/End jump · Del deletes · Shift+A generate · Enter commit · Esc cancel");
            reveal_strlit("Enter commit");
            64
        },
        Mode::NewBranch => {
            reveal_strlit("←/→ move · Home/End jump · Del deletes · Enter create branch · Esc cancel");
            reveal_strlit("Enter create branch");
            41
        },
        Mode::StashPush => {
            reveal_strlit("←/→ move · Home/End jump · Del deletes · Enter stash · Esc cancel");
            reveal_strlit("Enter stash");
            41
        },
        Mode::SetUpstream => {
            reveal_strlit("←/→ move · Home/End jump · Del deletes · Enter push -u · Esc cancel");
            reveal_strlit("Enter push -u");
            41
        },
        Mode::SetRemote => {
            reveal_strlit("←/→ move · Home/End jump · Del deletes · Enter add origin + push · Esc cancel");
            reveal_strlit("Enter add origin + push");
            41
        },
        Mode::FullDiff => {
            reveal_strlit("j/k hunk · ↑/↓ scroll · space stage hunk · PgUp/PgDn page · / find · p pull · P push · esc close · q close · Q quit");
            reveal_strlit("space stage hunk");
            24
        },
        Mode::FindFile => {
            reveal_strlit("type to filter · ↑/↓ move · ←/→ edit · enter open · esc cancel");
            reveal_strlit("enter open");
            39
        },
        Mode::LlmSettings => {
            reveal_strlit("tab/↑↓ switch field · ←/→ edit · enter save · esc cancel");
            reveal_strlit("enter save");
            33
        },
        Mode::OpenProject => {
            reveal_strlit("type to filter · ↑/↓ move · enter open/descend · → descend · ← up · tab jump to path · esc clear/close");
            reveal_strlit("enter open/descend");
            28
        },
        Mode::ConfirmInit => {
            reveal_strlit("enter git init here · esc back · any other key picks another folder");
            reveal_strlit("enter git init here");
            0
        },
        Mode::Normal => match app.focus {
            Focus::Branches => {
                reveal_strlit("enter checkout · a new branch · D delete · tab commits · q close · Q quit");
                reveal_strlit("enter checkout");
                0
            },
            Focus::Log => {
                reveal_strlit("j/k scroll · tab stash · r refresh · q close · Q quit");
                reveal_strlit("j/k scroll");
                0
            },
            Focus::Stash => {
                reveal_strlit("enter pop · a stash · D drop · tab files · q close · Q quit");
                reveal_strlit("enter pop");
                0
            },
            Focus::Diff => {
                reveal_strlit("j/k/↑/↓ scroll file · PgUp/PgDn page · enter full screen · ←/1 files · tab files · q close · Q quit");
                reveal_strlit("enter full screen");
                39
            },
            Focus::Status => {
                reveal_strlit("space stage · ▶ dir all · c commit · A llm · p pull · P push · / find · enter diff · Shift+→/5 file · o open · r refresh · q close · Q quit");
                reveal_strlit("space stage");
                0
            },
        },
    };
    let text = hints(app);
    let part = main_hint(app);
    assert(text.subrange(at, at + part.len()) =~= part);
    assert(stands_at(text, part, at));
}

/// Before anything has arrived the panels say that it is on its way, and an empty
/// list says that it is empty.
pub proof fn law_waiting_is_said(app: AppView, area: Rect)
    ensures
        app.status is None ==> files_panel(app, area).lines[0][0].text == "loading…"@,
        app.branches is None ==> branches_panel(app, area).lines[0][0].text == "loading…"@,
        app.log is None ==> commits_panel(app, area).lines[0][0].text == "loading…"@,
        app.stash is None ==> stash_panel(app, area).lines[0][0].text == "loading…"@,
        app.status is None ==> status_line(app)[0].text == "loading…"@,
        app.status is Some && app.tree.list.len() == 0 ==> files_panel(
            app,
            area,
        ).lines[0][0].text == "(clean working tree)"@,
        app.log is Some && app.log->0.len() == 0 ==> commits_panel(app, area).lines[0][0].text
            == "(no commits yet)"@,
        app.stash is Some && app.stash->0.len() == 0 ==> stash_panel(app, area).lines[0][0].text
            == "(no stashes)"@,
{
    reveal(files_panel);
    reveal(branches_panel);
    reveal(commits_panel);
    reveal(stash_panel);
}

/// The letter of a file has the color of its state.
pub proof fn law_states_have_their_colors(
    list: Seq<StatusEntry>,
    folded: Set<Seq<char>>,
    theme: Theme,
    index: nat,
    depth: nat,
)
    ensures
        row_line(FileRowView::File { index, depth }, list, folded, theme)[0].style.fg == Some(
            match list[index as int].state {
                FileState::Staged => theme.staged,
                FileState::Unstaged => theme.unstaged,
                FileState::Untracked => theme.untracked,
                FileState::Conflicted => theme.conflicted,
                FileState::BothStagedAndUnstaged => theme.both_staged,
                FileState::Clean => theme.hint,
            },
        ),
{
}

/// Drawing the files, the branches and the stash settles them: they are scrolled
/// so that the selection shows, and drawn again they stay.
pub proof fn law_drawing_settles(app: AppView, area: Rect)
    ensures
        files_drawn(files_drawn(app, area), area) == files_drawn(app, area),
        branches_drawn(branches_drawn(app, area), area) == branches_drawn(app, area),
        stash_drawn(stash_drawn(app, area), area) == stash_drawn(app, area),
        files_panel(files_drawn(app, area), area) == files_panel(app, area),
{
    reveal(files_drawn);
    reveal(branches_drawn);
    reveal(stash_drawn);
    reveal(files_panel);
}

/// In every palette what is added can be told from what is deleted, what changed
/// within a line from the rest of it, and the states of files from one another.
pub proof fn law_palettes_tell_apart(name: Seq<char>)
    requires
        named_theme(name) is Some,
    ensures
        ({
            let t = named_theme(name)->0;
            &&& t.diff_add_bg != t.diff_del_bg
            &&& t.diff_add_bg != t.bg
            &&& t.diff_del_bg != t.bg
            &&& t.diff_del_word_bg != t.diff_del_bg
            &&& t.staged != t.unstaged
            &&& t.staged != t.conflicted
            &&& t.unstaged != t.conflicted
            &&& t.fg != t.bg
            &&& t.selection_bg != t.bg
            &&& t.border_focused != t.border_unfocused
        }),
{
}

} // verus!
