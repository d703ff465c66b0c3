//! The modals to pick from: the file finder, the form for the LLM settings,
//! the picker for a project and the question about a new repository.

use crate::app::App;
use crate::app_modals::places;
use crate::app_model::AppView;
use crate::layout::{centered, centered_rect, less16, Rect};
use crate::llm_form::LLM_FIELD_LABELS;
use crate::markdown_table::span;
use crate::modals::{
    box_of, cursor_in, inner_width, painted_box, place_cursor, show_text, shown_column, shown_text,
};
use crate::model::StatusEntry;
use crate::panels::{
    bold, glyph_of, inner_height, line_of_three, line_of_two, selection_style, state_glyph, Panel,
    PanelView,
};
use crate::style::{lemma_lines_push, lines_view, Line, Span, SpanView, Style};
use crate::text::{
    byte_len, chars_of, count_bytes, decimal, find_byte, number_text, place_of_byte, repeat_char,
    repeated, text_of,
};
use crate::theme::Theme;
use crate::tree::clamped;
use crate::width::{str_width, text_width};
use vstd::prelude::*;
use vstd::string::*;
use vstd::utf8::encode_utf8;

verus! {

/// A number less another one, but not below zero.
pub open spec fn less(a: nat, b: nat) -> nat {
    if a >= b {
        (a - b) as nat
    } else {
        0
    }
}

pub fn less_by(a: usize, b: usize) -> (out: usize)
    ensures
        out == less(a as nat, b as nat),
{
    if a >= b {
        a - b
    } else {
        0
    }
}

/// The blanks that fill a row of `width` columns of which `used` are taken.
pub open spec fn fill(width: nat, used: nat) -> Seq<char> {
    repeated(' ', less(width, used))
}

pub fn filling(width: usize, used: u128) -> (out: String)
    ensures
        out@ == fill(width as nat, used as nat),
{
    if width as u128 >= used {
        repeat_char(' ', width as u128 - used)
    } else {
        repeat_char(' ', 0)
    }
}

/// The style of a row that can be picked.
#[verifier::allow_in_spec]
pub fn pick_style(selected: bool, theme: Theme) -> Style
    returns
        (if selected {
            selection_style(theme)
        } else {
            Style::plain().fg(theme.fg).bg(theme.bg)
        }),
{
    if selected {
        selection_style(theme)
    } else {
        Style::plain().fg(theme.fg).bg(theme.bg)
    }
}

/// The mark of a row that can be picked.
pub open spec fn pick_mark(selected: bool) -> Seq<char> {
    if selected {
        "> "@
    } else {
        "  "@
    }
}

pub fn mark_of(selected: bool) -> (out: &'static str)
    ensures
        out@ == pick_mark(selected),
{
    if selected {
        "> "
    } else {
        "  "
    }
}

/// The first one that shows of `total` things in `rows` rows, so that the one
/// at the cursor shows.
pub open spec fn first_shown(cursor: nat, rows: nat, total: nat) -> nat {
    let start = less(cursor, less(rows, 1));
    if start <= total {
        start
    } else {
        total
    }
}

pub fn find_first(cursor: usize, rows: usize, total: usize) -> (start: usize)
    ensures
        start == first_shown(cursor as nat, rows as nat, total as nat),
        start <= total,
{
    let start = less_by(cursor, less_by(rows, 1));
    if start <= total {
        start
    } else {
        total
    }
}

/// The line of a file in the finder.
pub open spec fn finder_line(
    file: StatusEntry,
    selected: bool,
    width: nat,
    theme: Theme,
) -> Seq<SpanView> {
    let text = glyph_of(file.state) + " "@ + file.path@;
    let style = pick_style(selected, theme);
    seq![
        span(pick_mark(selected), style),
        span(text, style),
        span(
            fill(width, text_width(pick_mark(selected)) as nat + text_width(text) as nat),
            style,
        ),
    ]
}

fn draw_finder_line(file: &StatusEntry, selected: bool, width: usize, theme: Theme) -> (line: Line)
    ensures
        line@ == finder_line(*file, selected, width as nat, theme),
{
    let (glyph, _color) = state_glyph(file.state, theme);
    let text = glyph.to_owned().concat(" ").concat(file.path.as_str());
    let style = pick_style(selected, theme);
    let mark = mark_of(selected);
    let used = str_width(mark) as u128 + str_width(text.as_str()) as u128;
    line_of_three(
        Span::styled(mark.to_owned(), style),
        Span::styled(text, style),
        Span::styled(filling(width, used), style),
    )
}

/// The lines of the matches from the `start`-th to before the `end`-th.
pub open spec fn finder_lines(
    app: AppView,
    start: nat,
    end: nat,
    cursor: nat,
    width: nat,
) -> Seq<Seq<SpanView>> {
    Seq::new(
        less(end, start),
        |k: int|
            finder_line(
                app.tree.list[app.found()[start + k] as int],
                start + k == cursor,
                width,
                app.theme,
            ),
    )
}

/// The file finder: the query, and the matches around the highlighted one.
#[verifier::opaque]
pub open spec fn finder_modal(app: AppView, area: Rect) -> PanelView {
    let popup = centered(area, 72, 14);
    let w = inner_width(popup);
    let n = app.found().len();
    let cursor = clamped(app.finder_selected, n);
    let rows = less(inner_height(popup), 1);
    let start = first_shown(cursor, rows, n);
    let end = if start + rows <= n {
        start + rows
    } else {
        n
    };
    let query = seq![
        span("> "@, bold(app.theme.border_focused)),
        span(
            shown_text(app.draft.text, app.draft.at(), less(w, 2)),
            Style::plain().fg(app.theme.fg),
        ),
    ];
    let none = seq![span("(no matches)"@, Style::plain().fg(app.theme.hint))];
    box_of(
        popup,
        " Find files ("@ + decimal(n) + (if n == 1 {
            " match) "@
        } else {
            " matches) "@
        }),
        (if n == 0 {
            seq![query, none]
        } else {
            seq![query]
        }) + finder_lines(app, start, end, cursor, w),
        cursor_in(popup, 2 + shown_column(app.draft.text, app.draft.at(), less(w, 2)), 0),
    )
}

fn draw_matches(
    app: &App,
    found: &Vec<usize>,
    start: usize,
    end: usize,
    cursor: usize,
    width: usize,
    head: Vec<Line>,
) -> (out: Vec<Line>)
    requires
        places(found@) == app@.found(),
        forall|i: int| 0 <= i < found@.len() ==> (#[trigger] found@[i]) < app.tree.list@.len(),
        start <= end <= found@.len(),
    ensures
        lines_view(out@) == lines_view(head@) + finder_lines(
            app@,
            start as nat,
            end as nat,
            cursor as nat,
            width as nat,
        ),
{
    let mut out = head;
    let ghost want = finder_lines(app@, start as nat, end as nat, cursor as nat, width as nat);
    let ghost first = lines_view(head@);
    let mut i: usize = start;
    assert(first + want.take(0) =~= first);
    while i < end
        invariant
            start <= i <= end <= found@.len(),
            places(found@) == app@.found(),
            forall|k: int| 0 <= k < found@.len() ==> (#[trigger] found@[k]) < app.tree.list@.len(),
            want == finder_lines(
                app@,
                start as nat,
                end as nat,
                cursor as nat,
                width as nat,
            ),
            lines_view(out@) == first + want.take(i - start),
        decreases end - i,
    {
        assert(places(found@)[i as int] == found@[i as int]);
        let line = draw_finder_line(&app.tree.list[found[i]], i == cursor, width, app.theme);
        assert(want[i - start] == line@);
        proof {
            lemma_lines_push(out@, line);
        }
        out.push(line);
        i += 1;
        assert(want.take(i - start) =~= want.take(i - 1 - start).push(line@));
        assert(lines_view(out@) =~= first + want.take(i - start));
    }
    assert(want.take(end - start) =~= want);
    out
}

/// Draws the file finder.
pub fn render_finder_modal(area: Rect, app: &App) -> (panel: Panel)
    requires
        area.fits(),
    ensures
        panel@ == finder_modal(app@, area),
{
    proof {
        reveal(finder_modal);
    }
    let popup = centered_rect(area, 72, 14);
    let w = less16(popup.width, 2) as usize;
    let rows = less_by(less16(popup.height, 2) as usize, 1);
    let found = app.finder_matches();
    assert(places(found@).len() == found@.len());
    let n = found.len();
    let cursor = app.finder_cursor();
    let start = find_first(cursor, rows, n);
    let end = if n - start >= rows {
        start + rows
    } else {
        n
    };
    let (query, column) = show_text(app.draft.text.as_str(), app.draft.at(), less_by(w, 2));
    let mut head: Vec<Line> = Vec::new();
    head.push(
        line_of_two(
            Span::styled("> ".to_owned(), bold(app.theme.border_focused)),
            Span::styled(query, Style::plain().fg(app.theme.fg)),
        ),
    );
    if n == 0 {
        head.push(
            Line::of(
                Span::styled("(no matches)".to_owned(), Style::plain().fg(app.theme.hint)),
            ),
        );
    }
    let title = " Find files (".to_owned().concat(number_text(n as u128).as_str()).concat(
        if n == 1 {
            " match) "
        } else {
            " matches) "
        },
    );
    let ghost first = lines_view(head@);
    assert(first.len() == head@.len());
    let lines = draw_matches(app, &found, start, end, cursor, w, head);
    let panel = painted_box(popup, title, lines, place_cursor(popup, 2 + column as u128, 0));
    assert(panel@.lines =~= finder_modal(app@, area).lines);
    panel
}

/// The bytes of the label of a row of the form.
pub open spec fn label_len(i: int) -> nat {
    encode_utf8(LLM_FIELD_LABELS@[i]@).len()
}

/// A row of the form for the LLM settings.
pub open spec fn form_line(app: AppView, i: int, width: nat) -> Seq<SpanView> {
    let selected = i == app.form.row();
    let style = pick_style(selected, app.theme);
    let label = LLM_FIELD_LABELS@[i]@;
    let shown = shown_text(
        app.form.value(i as nat, app.draft),
        app.draft.at(),
        less(width, label_len(i) + 4),
    );
    seq![
        span(pick_mark(selected), style),
        span(label, style),
        span(": "@, style),
        span(shown, style),
        span(
            fill(
                width,
                text_width(pick_mark(selected) + label + ": "@) as nat + text_width(shown) as nat,
            ),
            style,
        ),
    ]
}

fn draw_form_line(app: &App, i: usize, width: usize) -> (line: Line)
    requires
        i < 4,
    ensures
        line@ == form_line(app@, i as int, width as nat),
{
    let selected = i == app.form.row();
    let style = pick_style(selected, app.theme);
    let label = LLM_FIELD_LABELS[i];
    let mark = mark_of(selected);
    let value = app.form.value(i, &app.draft);
    let taken = label.as_bytes().len();
    let room = if width >= 4 && width - 4 >= taken {
        width - 4 - taken
    } else {
        0
    };
    let (shown, _column) = show_text(value.as_str(), app.draft.at(), room);
    let prefix = mark.to_owned().concat(label).concat(": ");
    let used = str_width(prefix.as_str()) as u128 + str_width(shown.as_str()) as u128;
    let mut spans: Vec<Span> = Vec::new();
    spans.push(Span::styled(mark.to_owned(), style));
    spans.push(Span::styled(label.to_owned(), style));
    spans.push(Span::styled(": ".to_owned(), style));
    spans.push(Span::styled(shown, style));
    spans.push(Span::styled(filling(width, used), style));
    let line = Line::from_spans(spans);
    assert(line@ =~= form_line(app@, i as int, width as nat));
    line
}

/// The form for the LLM settings.
#[verifier::opaque]
pub open spec fn llm_modal(app: AppView, area: Rect) -> PanelView {
    let popup = centered(area, 76, 8);
    let w = inner_width(popup);
    let i = app.form.row() as int;
    box_of(
        popup,
        " LLM setup — Shift+A uses this in the commit box "@,
        Seq::new(4, |k: int| form_line(app, k, w)),
        cursor_in(
            popup,
            4 + label_len(i) + shown_column(
                app.form.value(i as nat, app.draft),
                app.draft.at(),
                less(w, label_len(i) + 4),
            ),
            i as nat,
        ),
    )
}

/// Draws the form for the LLM settings.
pub fn render_llm_modal(area: Rect, app: &App) -> (panel: Panel)
    requires
        area.fits(),
    ensures
        panel@ == llm_modal(app@, area),
{
    proof {
        reveal(llm_modal);
    }
    let popup = centered_rect(area, 76, 8);
    let w = less16(popup.width, 2) as usize;
    let mut lines: Vec<Line> = Vec::new();
    lines.push(draw_form_line(app, 0, w));
    lines.push(draw_form_line(app, 1, w));
    lines.push(draw_form_line(app, 2, w));
    lines.push(draw_form_line(app, 3, w));
    assert(lines_view(lines@) =~= Seq::new(4, |k: int| form_line(app@, k, w as nat)));
    let i = app.form.row();
    let taken = LLM_FIELD_LABELS[i].as_bytes().len();
    let room = if w >= 4 && w - 4 >= taken {
        w - 4 - taken
    } else {
        0
    };
    let value = app.form.value(i, &app.draft);
    let (_shown, column) = show_text(value.as_str(), app.draft.at(), room);
    let cursor = place_cursor(popup, 4 + taken as u128 + column as u128, i as u16);
    painted_box(
        popup,
        " LLM setup — Shift+A uses this in the commit box ".to_owned(),
        lines,
        cursor,
    )
}

/// A text that is cut on the left where it is longer than `limit` bytes: an
/// ellipsis and its last `keep` bytes. A character is not cut in two.
pub open spec fn cut_left(text: Seq<char>, limit: nat, keep: nat) -> Seq<char> {
    let n = byte_len(text, text.len());
    if n > limit {
        "…"@ + text.skip(place_of_byte(text, less(n, keep), 0) as int)
    } else {
        text
    }
}

pub fn cut_on_left(text: &str, limit: usize, keep: usize) -> (out: String)
    ensures
        out@ == cut_left(text@, limit as nat, keep as nat),
{
    let cs = chars_of(text);
    let n = count_bytes(&cs);
    if n > limit as u128 {
        let from = find_byte(&cs, if n > keep as u128 { n - keep as u128 } else { 0 });
        let rest = text_of(&cs, from, cs.len());
        assert(rest@ =~= text@.skip(from as int));
        "…".to_owned().concat(rest.as_str())
    } else {
        text.to_owned()
    }
}

/// The question whether a directory is to be made a repository.
#[verifier::opaque]
pub open spec fn confirm_modal(app: AppView, area: Rect) -> PanelView {
    let popup = centered(area, 64, 6);
    let w = inner_width(popup);
    box_of(
        popup,
        " Init new repository? "@,
        seq![
            seq![span("Not a git repository:"@, Style::plain())],
            seq![span(cut_left(app.draft.text, w, less(w, 1)), bold(app.theme.fg))],
            seq![span(Seq::empty(), Style::plain())],
            seq![
                span(
                    "Enter: git init here · Esc: back · any other key: edit path"@,
                    Style::plain().fg(app.theme.hint),
                ),
            ],
        ],
        None,
    )
}

/// Draws the question whether a directory is to be made a repository.
pub fn render_confirm_init_modal(area: Rect, app: &App) -> (panel: Panel)
    requires
        area.fits(),
    ensures
        panel@ == confirm_modal(app@, area),
{
    proof {
        reveal(confirm_modal);
    }
    let popup = centered_rect(area, 64, 6);
    let w = less16(popup.width, 2) as usize;
    let path = cut_on_left(app.draft.text.as_str(), w, less_by(w, 1));
    let mut lines: Vec<Line> = Vec::new();
    lines.push(Line::of(Span::raw("Not a git repository:".to_owned())));
    lines.push(Line::of(Span::styled(path, bold(app.theme.fg))));
    lines.push(Line::of(Span::raw(String::new())));
    lines.push(
        Line::of(
            Span::styled(
                "Enter: git init here · Esc: back · any other key: edit path".to_owned(),
                Style::plain().fg(app.theme.hint),
            ),
        ),
    );
    let panel = painted_box(popup, " Init new repository? ".to_owned(), lines, None);
    assert(panel@.lines =~= confirm_modal(app@, area).lines);
    panel
}

} // verus!
