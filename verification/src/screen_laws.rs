//! What is on the screen: which box goes with which mode, how the tabs read, and
//! what the views of a diff show of it.

use crate::app_model::{AppView, Mode};
use crate::code_cells::CodeView;
use crate::diff_pane::{pane_row, pane_rows};
use crate::diff_rows::RowView;
use crate::layout::{layout_of, Rect};
use crate::markdown_wrap::preview_lines;
use crate::modal_browser::browser_modal;
use crate::modal_pickers::{confirm_modal, finder_modal, llm_modal};
use crate::modals::{commit_modal, commit_width, input_modal};
use crate::model::{FileDiff, Hunk};
use crate::panel_diff::{code_of, full_panel, preview_panel};
use crate::panel_lists::{branches_panel, commits_panel, footer_panel, footer_rows, stash_panel};
use crate::panels::{files_panel, inner_height, Ground};
use crate::screen::{
    app_drawn, bar_area, bar_panel, body_area, body_panels, branches_drawn, files_drawn, if_room,
    overlay, panels_drawn, screen_panels, stash_drawn, workspace_panels,
};
use crate::text::decimal;
use crate::viewer::ViewerView;
use crate::workspace::WorkspaceView;
use syntect::parsing::SyntaxSet;
use vstd::prelude::*;
use vstd::string::*;

verus! {

/// Each mode has its own box over the panels, named for what is typed into it or
/// picked from it; the panels alone have none.
pub proof fn law_modes_have_their_boxes(
    app: AppView,
    area: Rect,
    body: Rect,
    open: Seq<bool>,
    by_file: Option<Seq<char>>,
    set: SyntaxSet,
)
    ensures
        ({
            let boxes = overlay(app, area, body, open, by_file, set);
            match app.mode {
                Mode::Normal => boxes.len() == 0,
                Mode::Committing => boxes == seq![commit_modal(app, area)],
                Mode::NewBranch => boxes.len() == 1 && boxes[0].title == " New branch name "@,
                Mode::StashPush => boxes.len() == 1 && boxes[0].title == " Stash message "@,
                Mode::SetUpstream => boxes.len() == 1 && boxes[0].title
                    == " Push - set upstream (remote) "@,
                Mode::SetRemote => boxes.len() == 1 && boxes[0].title
                    == " Remote URL for origin (publish) "@,
                Mode::OpenProject => app.open_browser is Some ==> boxes.len() == 1
                    && boxes[0].title == " Open project "@,
                Mode::ConfirmInit => boxes.len() == 1 && boxes[0].title
                    == " Init new repository? "@,
                Mode::LlmSettings => boxes == seq![llm_modal(app, area)],
                Mode::FindFile => boxes.len() > 0 && boxes.last() == finder_modal(app, area),
                Mode::FullDiff => boxes == seq![full_panel(app, body, by_file, set)],
            }
        }),
{
    reveal(input_modal);
    reveal(browser_modal);
    reveal(confirm_modal);
}

/// The tab of a project reads as its number, its name and how many of its files
/// are changed; only the current one stands out.
pub proof fn law_tabs_read(ws: WorkspaceView, area: Rect, i: int)
    requires
        ws.wf(),
        0 <= i < ws.apps.len(),
    ensures
        ({
            let bar = bar_panel(ws, area);
            let tab = bar.lines[0][i];
            let count = match ws.apps[i].status {
                Some(st) => decimal(st.files@.len()),
                None => seq!['…'],
            };
            &&& bar.lines.len() == 1
            &&& bar.lines[0].len() == ws.apps.len()
            &&& tab.text == seq![' '] + decimal((i + 1) as nat) + seq![':'] + ws.apps[i].repo_name
                + seq![' ', '('] + count + seq![')', ' ']
            &&& (i == ws.current) == (tab.style.bg is Some)
        }),
{
    reveal_strlit(" ");
    reveal_strlit(":");
    reveal_strlit(" (");
    reveal_strlit("…");
    reveal_strlit(") ");
    assert(" "@ =~= seq![' ']);
    assert(":"@ =~= seq![':']);
    assert(" ("@ =~= seq![' ', '(']);
    assert("…"@ =~= seq!['…']);
    assert(") "@ =~= seq![')', ' ']);
}

/// The title over a diff names its file, and says whether it is the whole file,
/// what is staged of it or what is not.
pub proof fn law_diff_titles_read(
    app: AppView,
    area: Rect,
    d: FileDiff,
    by_file: Option<Seq<char>>,
    set: SyntaxSet,
)
    requires
        app.viewer.diff == Some(d),
    ensures
        ({
            let small = preview_panel(app, area, by_file, set).title;
            let large = full_panel(app, area, by_file, set).title;
            &&& app.diff_whole_file ==> small == " [5]-File: "@ + d.path@ + " "@ && large
                == " Full file: "@ + d.path@ + " "@
            &&& !app.diff_whole_file ==> match app.diff_for {
                Some((_, true)) => small == " [5]-Diff: "@ + d.path@ + " (staged) "@ && large
                    == " Full diff: "@ + d.path@ + " (staged) "@,
                _ => small == " [5]-Diff: "@ + d.path@ + " (unstaged) "@ && large
                    == " Full diff: "@ + d.path@ + " (unstaged) "@,
            }
        }),
{
    reveal(preview_panel);
    reveal(full_panel);
}

proof fn lemma_pane_rows(
    hunks: Seq<Hunk>,
    rows: Seq<RowView>,
    from: nat,
    k: nat,
    hunk: nat,
    whole_file: bool,
    inner: nat,
    code: CodeView,
)
    requires
        from < k <= rows.len(),
    ensures
        pane_rows(hunks, rows, from, k, hunk, whole_file, inner, code) == pane_row(
            hunks,
            rows[from as int],
            hunk,
            whole_file,
            inner,
            code,
        ) + pane_rows(hunks, rows, from + 1, k, hunk, whole_file, inner, code),
    decreases k,
{
    let first = pane_row(hunks, rows[from as int], hunk, whole_file, inner, code);
    if from == k - 1 {
        reveal_with_fuel(pane_rows, 2);
        assert(pane_rows(hunks, rows, from, k, hunk, whole_file, inner, code) =~= first
            + pane_rows(hunks, rows, from + 1, k, hunk, whole_file, inner, code));
    } else {
        lemma_pane_rows(hunks, rows, from, (k - 1) as nat, hunk, whole_file, inner, code);
        assert(pane_rows(hunks, rows, from, k, hunk, whole_file, inner, code) =~= first
            + pane_rows(hunks, rows, from + 1, k, hunk, whole_file, inner, code));
    }
}

/// The diff over the whole screen shows its rows one after the other from the one
/// that it is scrolled to, as many lines as there is room for: with room for all,
/// scrolling on by one takes exactly the first row away.
pub proof fn law_full_diff_scrolls(
    app: AppView,
    area: Rect,
    d: FileDiff,
    by_file: Option<Seq<char>>,
    set: SyntaxSet,
)
    requires
        app.viewer.diff == Some(d),
        d.hunks@.len() > 0,
        !app.shows_markdown(),
        app.viewer.scroll < app.viewer.rows().len(),
    ensures
        ({
            let rows = app.viewer.rows();
            let here = full_panel(app, area, by_file, set);
            let next = full_panel(
                AppView {
                    viewer: ViewerView { scroll: app.viewer.scroll + 1, ..app.viewer },
                    ..app
                },
                area,
                by_file,
                set,
            );
            let w = if area.width >= 2 {
                (area.width - 2) as nat
            } else {
                0
            };
            let first = pane_row(
                d.hunks@,
                rows[app.viewer.scroll as int],
                app.viewer.hunk,
                app.diff_whole_file,
                w,
                code_of(app, d, by_file, set),
            );
            &&& here.lines.len() <= inner_height(area)
            &&& next.lines.len() + first.len() <= inner_height(area) && next.lines.len()
                < inner_height(area) ==> here.lines == first + next.lines
            &&& here.area == area
        }),
{
    reveal(full_panel);
    let rows = app.viewer.rows();
    let w = if area.width >= 2 {
        (area.width - 2) as nat
    } else {
        0
    };
    lemma_pane_rows(
        d.hunks@,
        rows,
        app.viewer.scroll,
        rows.len(),
        app.viewer.hunk,
        app.diff_whole_file,
        w,
        code_of(app, d, by_file, set),
    );
}

/// Every panel is drawn in its own place, unless there is no room for it: the
/// status, the files, the diff, the branches, the commits, the stash and the
/// footer.
pub proof fn law_panels_are_drawn(
    app: AppView,
    body: Rect,
    multi: bool,
    by_file: Option<Seq<char>>,
    set: SyntaxSet,
)
    requires
        !layout_of(body, footer_rows(app)).status.is_empty(),
        !layout_of(body, footer_rows(app)).files.is_empty(),
        !layout_of(body, footer_rows(app)).diff.is_empty(),
        !layout_of(body, footer_rows(app)).branches.is_empty(),
        !layout_of(body, footer_rows(app)).commits.is_empty(),
        !layout_of(body, footer_rows(app)).stash.is_empty(),
    ensures
        ({
            let l = layout_of(body, footer_rows(app));
            let panels = body_panels(app, body, multi, by_file, set);
            &&& panels.len() == 7
            &&& panels[0].area == l.status
            &&& panels[0].title == "[1]-Status"@
            &&& panels[1] == files_panel(app, l.files)
            &&& panels[2] == preview_panel(app, l.diff, by_file, set)
            &&& panels[3] == branches_panel(app, l.branches)
            &&& panels[4] == commits_panel(app, l.commits)
            &&& panels[5] == stash_panel(app, l.stash)
            &&& panels[6] == footer_panel(app, l.footer, multi)
        }),
{
}

/// A document is shown from the line that it is scrolled to, line by line, and
/// its last line can be the only one.
pub proof fn law_document_scrolls(
    app: AppView,
    area: Rect,
    d: FileDiff,
    by_file: Option<Seq<char>>,
    set: SyntaxSet,
    i: int,
)
    requires
        app.viewer.diff == Some(d),
        app.shows_markdown(),
        app.md_text is Some,
        area.width >= 2,
        0 <= i < full_panel(app, area, by_file, set).lines.len(),
    ensures
        ({
            let all = preview_lines(
                app.md_text->0,
                app.theme,
                (area.width - 2) as nat,
                set,
            );
            let from = if app.viewer.scroll < all.len() {
                app.viewer.scroll as int
            } else {
                all.len() - 1
            };
            &&& full_panel(app, area, by_file, set).lines.len() <= inner_height(area)
            &&& from + i < all.len()
            &&& full_panel(app, area, by_file, set).lines[i] == all[from + i]
            &&& preview_panel(app, area, by_file, set).lines == full_panel(
                app,
                area,
                by_file,
                set,
            ).lines
        }),
{
    reveal(full_panel);
    reveal(preview_panel);
}

/// The ground of the screen is painted first and all over. A bar of tabs comes
/// next if there are several projects, at the top and three rows high, and the
/// panels have what it leaves; one project has the screen for itself, and no bar.
pub proof fn law_screen_is_shared(
    ws: WorkspaceView,
    area: Rect,
    open: Seq<bool>,
    by_file: Option<Seq<char>>,
    set: SyntaxSet,
)
    requires
        area.fits(),
        area.height > 3,
        area.width > 0,
    ensures
        ({
            let panels = workspace_panels(ws, area, open, by_file, set);
            let below = Rect { y: (area.y + 3) as u16, height: (area.height - 3) as u16, ..area };
            let several = ws.apps.len() > 1;
            let (body, from) = if several {
                (below, 2int)
            } else {
                (area, 1int)
            };
            let main = body_panels(ws.app(), body, several, by_file, set);
            &&& panels.len() >= from + main.len()
            &&& panels[0].area == area
            &&& panels[0].ground == Ground::Painted
            &&& several ==> panels[1].area == (Rect { height: 3, ..area })
            &&& several ==> panels[1].title == " Projects "@
            &&& panels.subrange(from, from + main.len()) == main
            &&& ws.app().mode == Mode::Normal ==> panels.len() == from + main.len()
            &&& ws.app().mode != Mode::Normal && ws.app().mode != Mode::OpenProject ==> panels.len()
                > from + main.len()
        }),
{
    let panels = workspace_panels(ws, area, open, by_file, set);
    let several = ws.apps.len() > 1;
    let (body, from, shown) = if several {
        (body_area(area), 2int, open)
    } else {
        (area, 1int, Seq::empty())
    };
    let main = body_panels(ws.app(), body, several, by_file, set);
    let boxes = overlay(panels_drawn(ws.app(), body), area, body, shown, by_file, set);
    reveal(files_drawn);
    reveal(branches_drawn);
    reveal(stash_drawn);
    assert(panels_drawn(ws.app(), body).mode == ws.app().mode);
    let bar = if_room(bar_area(area), bar_panel(ws, bar_area(area)));
    assert(!bar_area(area).is_empty());
    assert(bar.len() == 1);
    assert(panels.len() == from + main.len() + boxes.len());
    assert(panels.subrange(from, from + main.len()) =~= main);
}

/// The boxes are drawn over the panels: what a mode has comes last.
pub proof fn law_boxes_come_last(
    app: AppView,
    area: Rect,
    body: Rect,
    multi: bool,
    open: Seq<bool>,
    by_file: Option<Seq<char>>,
    set: SyntaxSet,
)
    ensures
        ({
            let panels = screen_panels(app, area, body, multi, open, by_file, set);
            match app.mode {
                Mode::Committing => panels.last() == commit_modal(panels_drawn(app, body), area),
                Mode::NewBranch => panels.last().title == " New branch name "@,
                Mode::StashPush => panels.last().title == " Stash message "@,
                Mode::SetUpstream => panels.last().title == " Push - set upstream (remote) "@,
                Mode::SetRemote => panels.last().title == " Remote URL for origin (publish) "@,
                Mode::OpenProject => app.open_browser is Some ==> panels.last().title
                    == " Open project "@,
                Mode::ConfirmInit => panels.last().title == " Init new repository? "@,
                Mode::LlmSettings => panels.last() == llm_modal(panels_drawn(app, body), area),
                Mode::FindFile => panels.last() == finder_modal(panels_drawn(app, body), area),
                Mode::FullDiff => panels.last() == full_panel(
                    panels_drawn(app, body),
                    body,
                    by_file,
                    set,
                ),
                Mode::Normal => panels.last() == footer_panel(
                    app,
                    layout_of(body, footer_rows(app)).footer,
                    multi,
                ),
            }
        }),
{
    reveal(files_drawn);
    reveal(branches_drawn);
    reveal(stash_drawn);
    law_modes_have_their_boxes(panels_drawn(app, body), area, body, open, by_file, set);
}

/// Drawing leaves what a project is asked and told as it is. It settles how wide
/// the rows of a message are, and how high a diff that covers the screen is.
pub proof fn law_drawing_keeps_the_state(app: AppView, area: Rect, body: Rect)
    ensures
        ({
            let after = app_drawn(app, area, body);
            &&& after.queue == app.queue
            &&& after.mode == app.mode
            &&& after.focus == app.focus
            &&& after.error == app.error
            &&& after.notice == app.notice
            &&& after.status == app.status
            &&& after.draft.text == app.draft.text
            &&& after.draft.cursor == app.draft.cursor
            &&& after.viewer.scroll == app.viewer.scroll
            &&& app.mode == Mode::Committing ==> after.draft.wrap_width == commit_width(area)
            &&& app.mode != Mode::Committing ==> after.draft == app.draft
            &&& app.mode == Mode::FullDiff ==> after.viewer.full_h == inner_height(body)
            &&& app.mode == Mode::Normal ==> after.viewer.full_h == app.viewer.full_h
            &&& after.viewer.prev_h == inner_height(layout_of(body, footer_rows(app)).diff)
        }),
{
    reveal(files_drawn);
    reveal(branches_drawn);
    reveal(stash_drawn);
}

} // verus!
