//! The picker for a project: the folder, what is typed, and the folders in it.

use crate::app::App;
use crate::app_model::AppView;
use crate::browser::{BrowserView, OpenBrowser};
use crate::layout::{centered, centered_rect, less16, Rect};
use crate::markdown_table::span;
use crate::modal_pickers::{
    cut_left, cut_on_left, fill, filling, find_first, first_shown, less, less_by, mark_of,
    pick_mark, pick_style,
};
use crate::modals::{
    box_of, cursor_in, inner_width, painted_box, place_cursor, show_text, shown_column, shown_text,
};
use crate::panels::{bold, cursor_view, inner_height, line_of_two, Panel, PanelView};
use crate::style::{
    lemma_lines_push, lemma_spans_push, lines_view, spans_view, Color, Line, Modifier, Span,
    SpanView, Style,
};
use crate::text::{byte_len, chars_of, count_bytes, find_byte, place_of_byte, text_of};
use crate::theme::Theme;
use crate::width::{line_width, width_of_line};
use vstd::prelude::*;
use vstd::string::*;
use vstd::utf8::encode_utf8;

verus! {

/// The background of a row that can be picked.
#[verifier::allow_in_spec]
pub fn pick_ground(selected: bool, theme: Theme) -> Color
    returns
        (if selected {
            theme.selection_bg
        } else {
            theme.bg
        }),
{
    if selected {
        theme.selection_bg
    } else {
        theme.bg
    }
}

/// Whether the folder at a place of the list is open as a project.
pub open spec fn is_open_at(open: Seq<bool>, i: int) -> bool {
    0 <= i < open.len() && open[i]
}

/// What a row says, without the blanks that fill it.
pub open spec fn folder_spans(
    b: BrowserView,
    row: nat,
    selected: bool,
    open: Seq<bool>,
    theme: Theme,
) -> Seq<SpanView> {
    let style = pick_style(selected, theme);
    let ground = pick_ground(selected, theme);
    let mark = span(pick_mark(selected), style);
    if row == 0 {
        seq![
            mark,
            span("."@, style),
            span("  (open this folder)"@, Style::plain().fg(theme.hint).bg(ground)),
        ]
    } else if row == 1 {
        seq![mark, span("../"@, style)]
    } else {
        let i = row - 2;
        let name = seq![mark, span(b.view[i].name@ + "/"@, style)];
        let repo = if b.view[i].is_repo_root {
            name.push(
                span(
                    " [repo]"@,
                    Style::plain().fg(theme.branch_current).bg(ground).add_modifier(
                        Modifier::bold(),
                    ),
                ),
            )
        } else {
            name
        };
        if is_open_at(open, i) {
            repo.push(
                span(
                    " [open]"@,
                    Style::plain().fg(theme.commit_id).bg(ground).add_modifier(Modifier::bold()),
                ),
            )
        } else {
            repo
        }
    }
}

/// A row of the picker.
pub open spec fn folder_line(
    b: BrowserView,
    row: nat,
    selected: bool,
    open: Seq<bool>,
    width: nat,
    theme: Theme,
) -> Seq<SpanView> {
    let spans = folder_spans(b, row, selected, open, theme);
    spans.push(span(fill(width, line_width(spans)), pick_style(selected, theme)))
}

fn draw_folder_spans(
    b: &OpenBrowser,
    row: usize,
    selected: bool,
    open: &Vec<bool>,
    theme: Theme,
) -> (out: Vec<Span>)
    requires
        row < b.view@.len() + 2,
    ensures
        spans_view(out@) == folder_spans(b@, row as nat, selected, open@, theme),
{
    let style = pick_style(selected, theme);
    let ground = pick_ground(selected, theme);
    let mut out: Vec<Span> = Vec::new();
    out.push(Span::styled(mark_of(selected).to_owned(), style));
    if row == 0 {
        out.push(Span::styled(".".to_owned(), style));
        out.push(
            Span::styled(
                "  (open this folder)".to_owned(),
                Style::plain().fg(theme.hint).bg(ground),
            ),
        );
    } else if row == 1 {
        out.push(Span::styled("../".to_owned(), style));
    } else {
        let i = row - 2;
        out.push(Span::styled(b.view[i].name.clone().concat("/"), style));
        if b.view[i].is_repo_root {
            out.push(
                Span::styled(
                    " [repo]".to_owned(),
                    Style::plain().fg(theme.branch_current).bg(ground).add_modifier(
                        Modifier::bold(),
                    ),
                ),
            );
        }
        if i < open.len() && open[i] {
            out.push(
                Span::styled(
                    " [open]".to_owned(),
                    Style::plain().fg(theme.commit_id).bg(ground).add_modifier(Modifier::bold()),
                ),
            );
        }
    }
    assert(spans_view(out@) =~= folder_spans(b@, row as nat, selected, open@, theme));
    out
}

fn draw_folder_line(
    b: &OpenBrowser,
    row: usize,
    selected: bool,
    open: &Vec<bool>,
    width: usize,
    theme: Theme,
) -> (line: Line)
    requires
        row < b.view@.len() + 2,
    ensures
        line@ == folder_line(b@, row as nat, selected, open@, width as nat, theme),
{
    let spans = draw_folder_spans(b, row, selected, open, theme);
    let mut line = Line::from_spans(spans);
    let used = width_of_line(&line);
    let pad = Span::styled(filling(width, used), pick_style(selected, theme));
    proof {
        lemma_spans_push(line.spans@, pad);
    }
    line.spans.push(pad);
    line
}

/// A text that is cut on the right where it is longer than `width` bytes. A
/// character is not cut in two.
pub open spec fn cut_right(text: Seq<char>, width: nat) -> Seq<char> {
    if byte_len(text, text.len()) > width {
        text.take(place_of_byte(text, less(width, 1), 0) as int)
    } else {
        text
    }
}

fn cut_on_right(text: &str, width: usize) -> (out: String)
    ensures
        out@ == cut_right(text@, width as nat),
{
    let cs = chars_of(text);
    if count_bytes(&cs) > width as u128 {
        let out = text_of(&cs, 0, find_byte(&cs, less_by(width, 1) as u128));
        assert(out@ =~= cut_right(text@, width as nat));
        out
    } else {
        text.to_owned()
    }
}

/// What stands above the folders: the folder that is browsed, the path or the
/// filter that is typed, and an error.
pub open spec fn browser_head(app: AppView, b: BrowserView, w: nat) -> Seq<Seq<SpanView>> {
    let theme = app.theme;
    let hint = Style::plain().fg(theme.hint);
    let plain = Style::plain().fg(theme.fg);
    let cwd = seq![
        seq![
            span("> "@, bold(theme.border_focused)),
            span(cut_left(b.cwd, less(w, 2), less(w, 3)), bold(theme.fg)),
        ],
    ];
    let path = if b.editing_path {
        cwd.push(
            seq![
                span("path: "@, hint),
                span(shown_text(app.draft.text, app.draft.at(), less(w, 6)), plain),
            ],
        )
    } else {
        cwd
    };
    let filter = if b.filter.len() > 0 {
        path.push(seq![span("filter: "@, hint), span(b.filter, plain)])
    } else {
        path
    };
    match b.error {
        Some(e) => filter.push(seq![span(cut_right(e, w), bold(theme.error))]),
        None => filter,
    }
}

fn draw_browser_head(app: &App, b: &OpenBrowser, w: usize) -> (out: Vec<Line>)
    ensures
        lines_view(out@) == browser_head(app@, b@, w as nat),
        1 <= out@.len() <= 4,
{
    let theme = app.theme;
    let hint = Style::plain().fg(theme.hint);
    let plain = Style::plain().fg(theme.fg);
    let mut out: Vec<Line> = Vec::new();
    out.push(
        line_of_two(
            Span::styled("> ".to_owned(), bold(theme.border_focused)),
            Span::styled(
                cut_on_left(b.cwd.as_str(), less_by(w, 2), less_by(w, 3)),
                bold(theme.fg),
            ),
        ),
    );
    if b.editing_path {
        let (shown, _column) = show_text(app.draft.text.as_str(), app.draft.at(), less_by(w, 6));
        out.push(
            line_of_two(
                Span::styled("path: ".to_owned(), hint),
                Span::styled(shown, plain),
            ),
        );
    }
    if b.filter.as_str().unicode_len() > 0 {
        out.push(
            line_of_two(
                Span::styled("filter: ".to_owned(), hint),
                Span::styled(b.filter.clone(), plain),
            ),
        );
    }
    if let Some(e) = &b.error {
        out.push(Line::of(Span::styled(cut_on_right(e.as_str(), w), bold(theme.error))));
    }
    assert(lines_view(out@) =~= browser_head(app@, b@, w as nat));
    out
}

/// The rows from the `start`-th to before the `end`-th.
pub open spec fn folder_lines(
    b: BrowserView,
    start: nat,
    end: nat,
    open: Seq<bool>,
    width: nat,
    theme: Theme,
) -> Seq<Seq<SpanView>> {
    Seq::new(
        less(end, start),
        |k: int|
            folder_line(
                b,
                (start + k) as nat,
                start + k == b.highlighted(),
                open,
                width,
                theme,
            ),
    )
}

/// The cursor of the terminal in the picker: in the path or in the filter that
/// is typed.
pub open spec fn browser_cursor(app: AppView, b: BrowserView, popup: Rect) -> Option<(nat, nat)> {
    let w = inner_width(popup);
    if b.editing_path {
        cursor_in(popup, 6 + shown_column(app.draft.text, app.draft.at(), less(w, 6)), 1)
    } else if b.filter.len() > 0 {
        cursor_in(popup, 8 + encode_utf8(b.filter).len(), 1)
    } else {
        None
    }
}

/// The picker for a project.
#[verifier::opaque]
pub open spec fn browser_modal(
    app: AppView,
    b: BrowserView,
    area: Rect,
    open: Seq<bool>,
) -> PanelView {
    let popup = centered(area, 76, 18);
    let w = inner_width(popup);
    let head = browser_head(app, b, w);
    let total = b.view.len() + 2;
    let rows = less(inner_height(popup), head.len());
    let start = first_shown(b.highlighted(), rows, total);
    let end = if start + rows <= total {
        start + rows
    } else {
        total
    };
    box_of(
        popup,
        " Open project "@,
        head + folder_lines(b, start, end, open, w, app.theme),
        browser_cursor(app, b, popup),
    )
}

fn draw_folders(
    b: &OpenBrowser,
    start: usize,
    end: usize,
    open: &Vec<bool>,
    width: usize,
    theme: Theme,
    head: Vec<Line>,
) -> (out: Vec<Line>)
    requires
        b@.wf(),
        start <= end <= b.view@.len() + 2,
    ensures
        lines_view(out@) == lines_view(head@) + folder_lines(
            b@,
            start as nat,
            end as nat,
            open@,
            width as nat,
            theme,
        ),
{
    let mut out = head;
    let ghost first = lines_view(head@);
    let ghost want = folder_lines(b@, start as nat, end as nat, open@, width as nat, theme);
    let at = b.highlighted();
    let mut i: usize = start;
    assert(first + want.take(0) =~= first);
    while i < end
        invariant
            start <= i <= end <= b.view@.len() + 2,
            at == b@.highlighted(),
            want == folder_lines(b@, start as nat, end as nat, open@, width as nat, theme),
            lines_view(out@) == first + want.take(i - start),
        decreases end - i,
    {
        let line = draw_folder_line(b, i, i == at, open, width, theme);
        assert(want[i - start] == line@);
        proof {
            lemma_lines_push(out@, line);
        }
        out.push(line);
        i += 1;
        assert(want.take(i - start) =~= want.take(i - 1 - start).push(line@));
        assert(lines_view(out@) =~= first + want.take(i - start));
    }
    assert(want.take(end - start) =~= want);
    out
}

fn draw_browser_cursor(app: &App, b: &OpenBrowser, popup: Rect) -> (cursor: Option<(u32, u32)>)
    ensures
        cursor_view(cursor) == browser_cursor(app@, b@, popup),
{
    let w = less16(popup.width, 2) as usize;
    if b.editing_path {
        let (_shown, column) = show_text(app.draft.text.as_str(), app.draft.at(), less_by(w, 6));
        place_cursor(popup, 6 + column as u128, 1)
    } else if b.filter.as_str().unicode_len() > 0 {
        place_cursor(popup, 8 + b.filter.as_str().as_bytes().len() as u128, 1)
    } else {
        None
    }
}

/// Draws the picker for a project. `open` says of each folder in the list
/// whether it is open as a project.
pub fn render_open_browser_modal(
    area: Rect,
    app: &App,
    b: &OpenBrowser,
    open: &Vec<bool>,
) -> (panel: Panel)
    requires
        area.fits(),
        b@.wf(),
    ensures
        panel@ == browser_modal(app@, b@, area, open@),
{
    proof {
        reveal(browser_modal);
    }
    let popup = centered_rect(area, 76, 18);
    let w = less16(popup.width, 2) as usize;
    let head = draw_browser_head(app, b, w);
    assert(lines_view(head@).len() == head@.len());
    let total = b.row_count();
    let rows = less_by(less16(popup.height, 2) as usize, head.len());
    let start = find_first(b.highlighted(), rows, total);
    let end = if total - start >= rows {
        start + rows
    } else {
        total
    };
    let lines = draw_folders(b, start, end, open, w, app.theme, head);
    let cursor = draw_browser_cursor(app, b, popup);
    painted_box(popup, " Open project ".to_owned(), lines, cursor)
}

} // verus!
