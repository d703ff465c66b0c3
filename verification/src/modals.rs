//! The modals: boxes in the middle of the screen with something to type or to
//! pick.

use crate::app::App;
use crate::app_model::AppView;
use crate::diff_pane::{drop_n, keep_n};
use crate::draft::{
    at_least_one, cells_to, draft_place, input_window, row_texts, window_from, window_start,
    wrap_draft_lines, DraftView,
};
use crate::layout::{centered, centered_rect, less16, max16, min16, Rect};
use crate::markdown_table::span;
use crate::panel_lists::window;
use crate::panels::{
    cursor_view, inner_height, one_line, panel_of, Ground, Panel, PanelFrame, PanelView,
};
use crate::style::{lemma_lines_push, lines_view, Line, Span, SpanView, Style};
use crate::text::texts;
use vstd::prelude::*;
use vstd::string::*;

verus! {

/// The cursor of the terminal at a column of a box, unless that is on or past
/// the right border.
pub open spec fn cursor_in(area: Rect, column: nat, row: nat) -> Option<(nat, nat)> {
    let x = area.x + 1 + column;
    let y = area.y + 1 + row;
    if x < area.x + less16(area.width, 1) {
        Some((x as nat, y as nat))
    } else {
        None
    }
}

pub fn place_cursor(area: Rect, column: u128, row: u16) -> (cursor: Option<(u32, u32)>)
    ensures
        cursor_view(cursor) == cursor_in(area, column as nat, row as nat),
{
    let right = less16(area.width, 1) as u128;
    if right > 0 && column < right - 1 {
        Some((area.x as u32 + 1 + column as u32, area.y as u32 + 1 + row as u32))
    } else {
        None
    }
}

/// What shows of a draft in that many columns, and the column of its cursor.
pub open spec fn shown_text(text: Seq<char>, cursor: nat, width: nat) -> Seq<char> {
    let w = at_least_one(width);
    window_from(text, 0, window_start(text, cursor, w), w)
}

/// The column of the cursor in what shows of a draft.
pub open spec fn shown_column(text: Seq<char>, cursor: nat, width: nat) -> nat {
    let w = at_least_one(width);
    let at = if cursor <= text.len() {
        cursor
    } else {
        text.len()
    };
    (cells_to(text, at) - window_start(text, cursor, w)) as nat
}

pub fn show_text(text: &str, cursor: usize, width: usize) -> (out: (String, usize))
    ensures
        out.0@ == shown_text(text@, cursor as nat, width as nat),
        out.1 == shown_column(text@, cursor as nat, width as nat),
        out.1 < at_least_one(width as nat),
{
    input_window(text, cursor, width)
}

/// The columns inside the frame of a box.
pub open spec fn inner_width(area: Rect) -> nat {
    less16(area.width, 2) as nat
}

/// A box of lines in the colors of the palette.
pub open spec fn box_of(
    area: Rect,
    title: Seq<char>,
    lines: Seq<Seq<SpanView>>,
    cursor: Option<(nat, nat)>,
) -> PanelView {
    PanelView { ground: Ground::Painted, cursor, ..panel_of(area, true, title, lines) }
}

pub fn painted_box(area: Rect, title: String, lines: Vec<Line>, cursor: Option<(u32, u32)>) -> (panel:
    Panel)
    ensures
        panel@ == box_of(
            area,
            title@,
            lines_view(lines@),
            cursor_view(cursor),
        ),
{
    let mut panel = Panel::of(area, true, title, lines);
    panel.ground = Ground::Painted;
    panel.cursor = cursor;
    panel
}

/// What is typed in a modal with one line: the draft, or a remark while a
/// message is on its way.
pub open spec fn typed(app: AppView) -> Seq<char> {
    if app.generating && app.draft.text.len() == 0 {
        "generating…"@
    } else {
        app.draft.text
    }
}

fn typed_text(app: &App) -> (out: String)
    ensures
        out@ == typed(app@),
{
    if app.generating && app.draft.text.as_str().unicode_len() == 0 {
        "generating…".to_owned()
    } else {
        app.draft.text.clone()
    }
}

/// A modal with one line to type.
#[verifier::opaque]
pub open spec fn input_modal(app: AppView, area: Rect, title: Seq<char>) -> PanelView {
    let popup = centered(area, 60, 3);
    let w = inner_width(popup);
    PanelView {
        frame: PanelFrame::Plain,
        ground: Ground::Cleared,
        cursor: cursor_in(popup, shown_column(typed(app), app.draft.at(), w), 0),
        ..panel_of(
            popup,
            true,
            title,
            seq![seq![span(shown_text(typed(app), app.draft.at(), w), Style::plain())]],
        )
    }
}

/// Draws a modal with one line to type.
pub fn render_input_modal(area: Rect, app: &App, title: &str) -> (panel: Panel)
    requires
        area.fits(),
    ensures
        panel@ == input_modal(app@, area, title@),
{
    proof {
        reveal(input_modal);
    }
    let popup = centered_rect(area, 60, 3);
    let w = less16(popup.width, 2) as usize;
    let text = typed_text(app);
    let (visible, column) = show_text(text.as_str(), app.draft.at(), w);
    let mut panel = Panel::of(
        popup,
        true,
        title.to_owned(),
        one_line(Line::of(Span::raw(visible))),
    );
    panel.frame = PanelFrame::Plain;
    panel.ground = Ground::Cleared;
    panel.cursor = place_cursor(popup, column as u128, 0);
    panel
}

/// The columns inside the commit box.
pub open spec fn commit_width(area: Rect) -> u16 {
    max16(less16(max16(min16(60, less16(area.width, 2)), 1), 2), 1)
}

/// The rows of the commit box: as many as the message has, as far as the
/// screen goes.
pub open spec fn commit_box(area: Rect, rows: nat) -> Rect {
    centered(
        area,
        60,
        if rows + 2 <= u16::MAX {
            (rows + 2) as u16
        } else {
            u16::MAX
        },
    )
}

/// The first row that shows in the commit box, so that the cursor does.
pub open spec fn commit_start(rows: nat, cursor_row: nat, height: nat) -> nat {
    let last: nat = if cursor_row + 1 >= height {
        (cursor_row + 1 - height) as nat
    } else {
        0
    };
    let max: nat = if rows >= height {
        (rows - height) as nat
    } else {
        0
    };
    if height == 0 {
        0
    } else if last <= max {
        last
    } else {
        max
    }
}

/// The title of the commit box.
pub open spec fn commit_title(app: AppView) -> Seq<char> {
    if app.generating {
        " Commit message (generating…) "@
    } else {
        " Commit message (Shift+A generates) "@
    }
}

/// Lines of plain text.
pub open spec fn plain_lines(rows: Seq<Seq<char>>) -> Seq<Seq<SpanView>> {
    rows.map_values(|r: Seq<char>| seq![span(r, Style::plain())])
}

fn raw_lines(rows: Vec<String>) -> (out: Vec<Line>)
    ensures
        lines_view(out@) == plain_lines(texts(rows@)),
{
    let ghost all = rows@;
    let mut out: Vec<Line> = Vec::new();
    assert(lines_view(out@) =~= plain_lines(texts(all.take(0))));
    for row in it: rows
        invariant
            it.seq() == all,
            lines_view(out@) == plain_lines(texts(all.take(it.index() as int))),
    {
        let line = Line::of(Span::raw(row));
        proof {
            lemma_lines_push(out@, line);
            let k = it.index() as int;
            assert(all.take(k + 1) =~= all.take(k).push(row));
            assert(texts(all.take(k + 1)) =~= texts(all.take(k)).push(row@));
            assert(plain_lines(texts(all.take(k)).push(row@)) =~= plain_lines(
                texts(all.take(k)),
            ).push(line@));
        }
        out.push(line);
    }
    assert(all.take(all.len() as int) =~= all);
    out
}

/// The commit box: the message in rows, and the cursor in it.
#[verifier::opaque]
pub open spec fn commit_modal(app: AppView, area: Rect) -> PanelView {
    let w = commit_width(area) as nat;
    let rows = row_texts(typed(app), w);
    let (row, column) = draft_place(typed(app), w, app.draft.at());
    let popup = commit_box(area, rows.len());
    let h = inner_height(popup);
    let start = commit_start(rows.len(), row, h);
    let below = if row >= start {
        (row - start) as nat
    } else {
        0
    };
    PanelView {
        frame: PanelFrame::Plain,
        ground: Ground::Cleared,
        cursor: if popup.y + 1 + below < popup.y + less16(popup.height, 1) {
            cursor_in(popup, column, below)
        } else {
            None
        },
        ..panel_of(
            popup,
            true,
            commit_title(app),
            plain_lines(
                keep_n(drop_n(rows, start), at_least_one(h)),
            ),
        )
    }
}

/// The first row that shows in the commit box.
fn first_row(rows: usize, cursor_row: usize, height: usize) -> (start: usize)
    requires
        cursor_row < rows,
    ensures
        start == commit_start(rows as nat, cursor_row as nat, height as nat),
{
    if height == 0 {
        return 0;
    }
    let last = if cursor_row >= height - 1 {
        cursor_row - (height - 1)
    } else {
        0
    };
    let max = if rows >= height {
        rows - height
    } else {
        0
    };
    if last <= max {
        last
    } else {
        max
    }
}

/// The part of the rows of a message that shows.
fn shown_rows(rows: Vec<String>, start: usize, height: usize) -> (out: Vec<Line>)
    ensures
        lines_view(out@) == plain_lines(
            keep_n(drop_n(texts(rows@), start as nat), at_least_one(height as nat)),
        ),
{
    let ghost all = texts(rows@);
    let height = if height == 0 {
        1
    } else {
        height
    };
    let out = window(raw_lines(rows), start, height);
    assert(keep_n(drop_n(plain_lines(all), start as nat), height as nat) =~= plain_lines(
        keep_n(drop_n(all, start as nat), height as nat),
    ));
    out
}

fn commit_rect(area: Rect, rows: usize) -> (popup: Rect)
    requires
        area.fits(),
    ensures
        popup == commit_box(area, rows as nat),
{
    let height: u16 = if rows <= (u16::MAX - 2) as usize {
        rows as u16 + 2
    } else {
        u16::MAX
    };
    centered_rect(area, 60, height)
}

fn commit_columns(area: Rect) -> (w: u16)
    ensures
        w == commit_width(area),
        w >= 1,
{
    max16(less16(max16(min16(60, less16(area.width, 2)), 1), 2), 1)
}

fn commit_cursor(popup: Rect, column: usize, below: usize) -> (cursor: Option<(u32, u32)>)
    ensures
        cursor_view(cursor) == (if popup.y + 1 + below < popup.y + less16(popup.height, 1) {
            cursor_in(popup, column as nat, below as nat)
        } else {
            None
        }),
{
    let room = less16(popup.height, 1) as usize;
    if room > 0 && below < room - 1 {
        place_cursor(popup, column as u128, below as u16)
    } else {
        None
    }
}

fn draw_commit(area: Rect, app: &App) -> (panel: Panel)
    requires
        area.fits(),
    ensures
        panel@ == commit_modal(app@, area),
{
    proof {
        reveal(commit_modal);
    }
    let w = commit_columns(area);
    let text = typed_text(app);
    let (rows, row, column) = wrap_draft_lines(text.as_str(), app.draft.at(), w as usize);
    let n = rows.len();
    assert(texts(rows@).len() == n);
    let popup = commit_rect(area, n);
    let h = less16(popup.height, 2) as usize;
    let start = first_row(n, row, h);
    let below = if row >= start {
        row - start
    } else {
        0
    };
    let title = if app.generating {
        " Commit message (generating…) "
    } else {
        " Commit message (Shift+A generates) "
    };
    let mut panel = Panel::of(popup, true, title.to_owned(), shown_rows(rows, start, h));
    panel.frame = PanelFrame::Plain;
    panel.ground = Ground::Cleared;
    panel.cursor = commit_cursor(popup, column, below);
    panel
}

/// Draws the commit box and records the columns in it.
pub fn render_commit_modal(area: Rect, app: &mut App) -> (panel: Panel)
    requires
        area.fits(),
    ensures
        panel@ == commit_modal(old(app)@, area),
        final(app)@ == (AppView {
            draft: (DraftView { wrap_width: commit_width(area) as nat, ..old(app)@.draft }),
            ..old(app)@
        }),
{
    proof {
        reveal(commit_modal);
    }
    let panel = draw_commit(area, app);
    app.draft.wrap_width = commit_columns(area) as usize;
    panel
}

} // verus!
