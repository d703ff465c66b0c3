//! What the boxes over the panels show: what is typed into them, the lists to
//! pick from, and which line of a list is the one that Enter takes.

use crate::app_model::AppView;
use crate::browser::BrowserView;
use crate::draft::{cells_to, draft_place, row_texts, window_from, wrap_after};
use crate::layout::{centered, Rect};
use crate::llm_form::LLM_FIELD_LABELS;
use crate::markdown_wrap::row_text;
use crate::modal_browser::{
    browser_head, browser_modal, cut_right, folder_line, folder_spans, is_open_at,
};
use crate::modal_pickers::{
    confirm_modal, cut_left, finder_line, finder_modal, first_shown, label_len, less, llm_modal,
};
use crate::modals::{
    commit_modal, commit_start, commit_width, inner_width, input_modal, shown_column, shown_text,
};
use crate::panel_laws::letter_of;
use crate::panels::inner_height;
use crate::style::SpanView;
use crate::text::{byte_len, decimal, place_of_byte};
use crate::theme::Theme;
use crate::width::cells;
use vstd::prelude::*;
use vstd::string::*;

verus! {

/// A text of which every character takes up a column and all of them fit is
/// shown as a whole.
pub proof fn law_short_text_is_shown_whole(text: Seq<char>, cursor: nat, width: nat)
    requires
        forall|i: int| 0 <= i < text.len() ==> cells(#[trigger] text[i]) > 0,
        cells_to(text, text.len()) < width,
        cursor <= text.len(),
    ensures
        shown_text(text, cursor, width) == text,
        shown_column(text, cursor, width) == cells_to(text, cursor),
{
    lemma_cells_to_grows(text, cursor, text.len());
    lemma_window_is_whole(text, 0, width);
    assert(text.skip(0) =~= text);
}

proof fn lemma_cells_to_grows(text: Seq<char>, a: nat, b: nat)
    requires
        a <= b <= text.len(),
    ensures
        cells_to(text, a) <= cells_to(text, b),
    decreases b - a,
{
    if a < b {
        lemma_cells_to_grows(text, a, (b - 1) as nat);
    }
}

proof fn lemma_window_is_whole(text: Seq<char>, k: nat, width: nat)
    requires
        k <= text.len(),
        forall|i: int| 0 <= i < text.len() ==> cells(#[trigger] text[i]) > 0,
        cells_to(text, text.len()) < width,
    ensures
        window_from(text, k, 0, width) == text.skip(k as int),
    decreases text.len() - k,
{
    if k < text.len() {
        lemma_window_is_whole(text, k + 1, width);
        lemma_cells_to_grows(text, k, text.len());
        assert(cells(text[k as int]) > 0);
        assert(seq![text[k as int]] + text.skip(k as int + 1) =~= text.skip(k as int));
    } else {
        assert(text.skip(k as int) =~= Seq::empty());
    }
}

/// However long a text is, its cursor shows: it is in one of the columns of the
/// box.
pub proof fn law_cursor_of_text_shows(text: Seq<char>, cursor: nat, width: nat)
    requires
        width > 0,
    ensures
        shown_column(text, cursor, width) < width,
{
}

/// A box with one line shows what is typed into it.
pub proof fn law_input_box_shows_the_text(app: AppView, area: Rect, title: Seq<char>)
    requires
        app.draft.text.len() > 0,
    ensures
        ({
            let panel = input_modal(app, area, title);
            &&& panel.title == title
            &&& panel.lines.len() == 1
            &&& row_text(panel.lines[0]) == shown_text(
                app.draft.text,
                app.draft.at(),
                inner_width(panel.area),
            )
        }),
{
    reveal(input_modal);
    let panel = input_modal(app, area, title);
    reveal_with_fuel(row_text, 2);
    assert(panel.lines[0].drop_last() =~= Seq::empty());
    assert(row_text(panel.lines[0]) =~= panel.lines[0][0].text);
}

proof fn lemma_rows_grow(text: Seq<char>, width: nat, a: nat, b: nat)
    requires
        a <= b <= text.len(),
    ensures
        wrap_after(text, width, a).rows.len() <= wrap_after(text, width, b).rows.len(),
    decreases b - a,
{
    if a < b {
        lemma_rows_grow(text, width, a, (b - 1) as nat);
    }
}

/// The commit box shows the rows of the message from one on, in order and with
/// nothing between them, and the row of the cursor is among them.
pub proof fn law_commit_box_shows_the_message(app: AppView, area: Rect) -> (from: int)
    requires
        app.draft.text.len() > 0,
        inner_height(commit_modal(app, area).area) > 0,
    ensures
        ({
            let w = commit_width(area) as nat;
            let panel = commit_modal(app, area);
            let rows = row_texts(app.draft.text, w);
            let (row, _) = draft_place(app.draft.text, w, app.draft.at());
            &&& 0 <= from <= row < from + panel.lines.len()
            &&& from + panel.lines.len() <= rows.len()
            &&& panel.lines.len() <= inner_height(panel.area)
            &&& forall|i: int|
                0 <= i < panel.lines.len() ==> row_text(#[trigger] panel.lines[i]) == rows[from + i]
        }),
{
    reveal(commit_modal);
    let w = commit_width(area) as nat;
    let text = app.draft.text;
    let rows = row_texts(text, w);
    let (row, _) = draft_place(text, w, app.draft.at());
    let panel = commit_modal(app, area);
    let h = inner_height(panel.area);
    lemma_rows_grow(text, w, app.draft.at(), text.len());
    let from = commit_start(rows.len(), row, h) as int;
    assert forall|i: int| 0 <= i < panel.lines.len() implies row_text(#[trigger] panel.lines[i])
        == rows[from + i] by {
        reveal_with_fuel(row_text, 2);
        assert(panel.lines[i].drop_last() =~= Seq::empty());
        assert(row_text(panel.lines[i]) =~= rows[from + i]);
    }
    from
}

/// Whether a line starts with the mark of the one that Enter takes, or with
/// blanks in its place.
pub open spec fn is_picked(line: Seq<SpanView>, picked: bool) -> bool {
    line.len() > 0 && line[0].text == if picked {
        seq!['>', ' ']
    } else {
        seq![' ', ' ']
    }
}

/// The finder shows the query and below it the matches in their order, each with
/// the letter of its state and its whole path. The highlighted one is among them,
/// and it alone is marked. The title says how many matches there are.
pub proof fn law_finder_shows_matches(app: AppView, area: Rect) -> (from: int)
    requires
        app.finder_selected < app.found().len(),
        inner_height(centered(area, 72, 14)) >= 2,
    ensures
        ({
            let panel = finder_modal(app, area);
            let found = app.found();
            let shown = panel.lines.len() - 1;
            &&& panel.area == centered(area, 72, 14)
            &&& panel.title == " Find files ("@ + decimal(found.len()) + (if found.len() == 1 {
                " match) "@
            } else {
                " matches) "@
            })
            &&& 0 <= from <= app.finder_selected < from + shown
            &&& from + shown <= found.len()
            &&& forall|i: int|
                0 <= i < shown ==> is_picked(
                    #[trigger] panel.lines[1 + i],
                    from + i == app.finder_selected,
                ) && panel.lines[1 + i].len() == 3 && panel.lines[1 + i][1].text == (seq![
                    letter_of(app.tree.list[found[from + i] as int].state),
                    ' ',
                ] + app.tree.list[found[from + i] as int].path@)
        }),
{
    reveal_strlit("> ");
    reveal_strlit("  ");
    reveal_strlit("S");
    reveal_strlit("M");
    reveal_strlit("?");
    reveal_strlit("C");
    reveal_strlit("B");
    reveal_strlit(" ");
    assert("> "@ =~= seq!['>', ' ']);
    assert("  "@ =~= seq![' ', ' ']);
    reveal(finder_modal);
    let panel = finder_modal(app, area);
    let found = app.found();
    let rows = less(inner_height(panel.area), 1);
    let from = first_shown(app.finder_selected, rows, found.len()) as int;
    let shown = panel.lines.len() - 1;
    assert forall|i: int| 0 <= i < shown implies is_picked(
        #[trigger] panel.lines[1 + i],
        from + i == app.finder_selected,
    ) && panel.lines[1 + i].len() == 3 && panel.lines[1 + i][1].text == (seq![
        letter_of(app.tree.list[found[from + i] as int].state),
        ' ',
    ] + app.tree.list[found[from + i] as int].path@) by {
        let file = app.tree.list[found[from + i] as int];
        let line = finder_line(
            file,
            from + i == app.finder_selected,
            inner_width(panel.area),
            app.theme,
        );
        assert(panel.lines[1 + i] == line);
        assert(line[1].text =~= seq![letter_of(file.state), ' '] + file.path@);
    }
    from
}

/// A row of the picker reads as what Enter on it opens: a dot for the folder
/// itself, two dots for its parent, and else the name of a folder with a slash.
/// Repositories and open projects are tagged, and nothing else is.
pub proof fn law_picker_rows_read(
    b: BrowserView,
    row: nat,
    selected: bool,
    open: Seq<bool>,
    theme: Theme,
)
    requires
        row < b.view.len() + 2,
    ensures
        ({
            let line = folder_spans(b, row, selected, open, theme);
            &&& is_picked(line, selected)
            &&& row == 0 ==> line[1].text == seq!['.']
            &&& row == 1 ==> line[1].text == seq!['.', '.', '/'] && line.len() == 2
            &&& row >= 2 ==> {
                let e = b.view[row - 2];
                let repo = if e.is_repo_root {
                    seq![" [repo]"@]
                } else {
                    Seq::empty()
                };
                let tab = if is_open_at(open, row - 2) {
                    seq![" [open]"@]
                } else {
                    Seq::empty()
                };
                &&& line[1].text == e.name@ + seq!['/']
                &&& line.skip(2).map_values(|s: SpanView| s.text) == repo + tab
            }
        }),
{
    reveal_strlit("> ");
    reveal_strlit("  ");
    reveal_strlit(".");
    reveal_strlit("../");
    reveal_strlit("/");
    assert("> "@ =~= seq!['>', ' ']);
    assert("  "@ =~= seq![' ', ' ']);
    assert("."@ =~= seq!['.']);
    assert("../"@ =~= seq!['.', '.', '/']);
    assert("/"@ =~= seq!['/']);
    let line = folder_spans(b, row, selected, open, theme);
    if row >= 2 {
        let e = b.view[row - 2];
        let repo = if e.is_repo_root {
            seq![" [repo]"@]
        } else {
            Seq::empty()
        };
        let tab = if is_open_at(open, row - 2) {
            seq![" [open]"@]
        } else {
            Seq::empty()
        };
        assert(line.skip(2).map_values(|s: SpanView| s.text) =~= repo + tab);
    }
}

/// The picker shows its rows in order, with the highlighted one among them and
/// marked, below the folder that is browsed and what is typed.
pub proof fn law_picker_shows_rows(app: AppView, b: BrowserView, area: Rect, open: Seq<bool>) -> (
    from: int)
    requires
        b.selected < b.view.len() + 2,
        inner_height(centered(area, 76, 18)) > browser_head(
            app,
            b,
            inner_width(centered(area, 76, 18)),
        ).len(),
    ensures
        ({
            let panel = browser_modal(app, b, area, open);
            let w = inner_width(panel.area);
            let head = browser_head(app, b, w);
            let n = head.len() as int;
            &&& panel.area == centered(area, 76, 18)
            &&& panel.lines.take(n) == head
            &&& 0 <= from <= b.selected < from + (panel.lines.len() - n)
            &&& from + (panel.lines.len() - n) <= b.view.len() + 2
            &&& forall|i: int|
                n <= i < panel.lines.len() ==> #[trigger] panel.lines[i] == folder_line(
                    b,
                    (from + (i - n)) as nat,
                    from + (i - n) == b.selected,
                    open,
                    w,
                    app.theme,
                )
        }),
{
    reveal(browser_modal);
    let panel = browser_modal(app, b, area, open);
    let w = inner_width(panel.area);
    let head = browser_head(app, b, w);
    let rows = less(inner_height(panel.area), head.len());
    assert(panel.lines.take(head.len() as int) =~= head);
    first_shown(b.selected, rows, b.view.len() + 2) as int
}

/// Above the rows the picker names the folder that is browsed, and below that the
/// filter as it was typed and the last error, where there are any.
pub proof fn law_picker_head_reads(app: AppView, b: BrowserView, w: nat)
    requires
        byte_len(b.cwd, b.cwd.len()) + 2 <= w,
        !b.editing_path,
    ensures
        ({
            let head = browser_head(app, b, w);
            let typed = if b.filter.len() > 0 {
                1nat
            } else {
                0nat
            };
            &&& head[0].len() == 2
            &&& head[0][1].text == b.cwd
            &&& b.filter.len() > 0 ==> head[1].len() == 2 && head[1][1].text == b.filter
            &&& b.error is None ==> head.len() == 1 + typed
            &&& b.error is Some ==> head.len() == 2 + typed && (byte_len(
                b.error->0,
                b.error->0.len(),
            ) <= w ==> head.last()[0].text == b.error->0)
        }),
{
}

/// The form shows its four settings, one to a row, each behind its label; the
/// one being edited is marked.
pub proof fn law_form_shows_rows(app: AppView, area: Rect, i: int)
    requires
        0 <= i < 4,
        app.form.selected < 4,
    ensures
        ({
            let panel = llm_modal(app, area);
            let line = panel.lines[i];
            &&& panel.lines.len() == 4
            &&& is_picked(line, i == app.form.selected)
            &&& line[1].text == LLM_FIELD_LABELS@[i]@
            &&& line[3].text == shown_text(
                app.form.value(i as nat, app.draft),
                app.draft.at(),
                less(inner_width(panel.area), label_len(i) + 4),
            )
        }),
{
    reveal(llm_modal);
    reveal_strlit("> ");
    reveal_strlit("  ");
    assert("> "@ =~= seq!['>', ' ']);
    assert("  "@ =~= seq![' ', ' ']);
}

/// The cursor of the terminal is in the box behind what is typed before it.
pub proof fn law_cursor_of_input_box(app: AppView, area: Rect, title: Seq<char>)
    requires
        app.draft.text.len() > 0,
        forall|i: int| 0 <= i < app.draft.text.len() ==> cells(#[trigger] app.draft.text[i]) > 0,
        app.draft.cursor <= app.draft.text.len(),
        cells_to(app.draft.text, app.draft.text.len()) < inner_width(
            input_modal(app, area, title).area,
        ),
    ensures
        ({
            let panel = input_modal(app, area, title);
            &&& panel.cursor == Some(
                (
                    (panel.area.x + 1 + cells_to(app.draft.text, app.draft.cursor)) as nat,
                    (panel.area.y + 1) as nat,
                ),
            )
            &&& panel.lines[0][0].text == app.draft.text
        }),
{
    reveal(input_modal);
    let panel = input_modal(app, area, title);
    law_short_text_is_shown_whole(
        app.draft.text,
        app.draft.cursor,
        inner_width(panel.area),
    );
    lemma_cells_to_grows(app.draft.text, app.draft.cursor, app.draft.text.len());
}

proof fn lemma_place_of_byte(s: Seq<char>, n: nat, i: nat)
    requires
        i <= s.len(),
    ensures
        i <= place_of_byte(s, n, i) <= s.len(),
    decreases s.len() - i,
{
    if i < s.len() {
        lemma_place_of_byte(s, n, i + 1);
    }
}

/// A text that is too long for its place is cut, on the left behind an ellipsis
/// or on the right; what shows of it is its end or its start.
pub proof fn law_long_texts_are_cut(text: Seq<char>, limit: nat, keep: nat)
    ensures
        ({
            let left = cut_left(text, limit, keep);
            let right = cut_right(text, limit);
            let fits = byte_len(text, text.len()) <= limit;
            &&& fits ==> left == text && right == text
            &&& !fits ==> {
                &&& left.len() > 0
                &&& left[0] == '…'
                &&& left.len() - 1 <= text.len()
                &&& left.skip(1) == text.skip(text.len() - (left.len() - 1))
                &&& right.len() <= text.len()
                &&& right == text.take(right.len() as int)
            }
        }),
{
    reveal_strlit("…");
    let n = byte_len(text, text.len());
    if n > limit {
        lemma_place_of_byte(text, less(n, keep), 0);
        lemma_place_of_byte(text, less(limit, 1), 0);
        let k = place_of_byte(text, less(n, keep), 0) as int;
        let left = cut_left(text, limit, keep);
        assert(left.skip(1) =~= text.skip(k));
        assert(text.len() - (left.len() - 1) == k);
    }
}

/// The question whether to make a repository names the folder that it is about.
pub proof fn law_question_names_the_folder(app: AppView, area: Rect)
    requires
        byte_len(app.draft.text, app.draft.text.len()) <= inner_width(
            confirm_modal(app, area).area,
        ),
    ensures
        confirm_modal(app, area).lines[1][0].text == app.draft.text,
        confirm_modal(app, area).title == " Init new repository? "@,
{
    reveal(confirm_modal);
}

/// The title of the commit box says whether a message is being written for it.
pub proof fn law_commit_box_says_generating(app: AppView, area: Rect)
    ensures
        commit_modal(app, area).title == if app.generating {
            " Commit message (generating…) "@
        } else {
            " Commit message (Shift+A generates) "@
        },
{
    reveal(commit_modal);
}

/// The cursor of the terminal is in the picker only while something is typed, and
/// then in the row where it shows.
pub proof fn law_cursor_of_picker(app: AppView, b: BrowserView, area: Rect, open: Seq<bool>)
    ensures
        ({
            let panel = browser_modal(app, b, area, open);
            &&& !b.editing_path && b.filter.len() == 0 ==> panel.cursor is None
            &&& panel.cursor is Some ==> (panel.cursor->0).1 == panel.area.y + 2
                && panel.area.x < (panel.cursor->0).0 < panel.area.x + panel.area.width
        }),
{
    reveal(browser_modal);
}

} // verus!
