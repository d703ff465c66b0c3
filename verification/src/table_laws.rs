//! What a rendered table looks like: its box, its cells and their places.

use crate::markdown_events::Alignment;
use crate::markdown_table::{
    available, border_text, cell_border, cut, cut_at, fitted, most_cells, padding, row_cells, row_spans, shrunk,
    span, TableView,
};
use crate::markdown_wrap::{lemma_solid_blanks, lemma_solid_concat, row_text, solid};
use crate::style::{Modifier, SpanView, Style};
use crate::text::repeated;
use crate::theme::Theme;
use crate::width::{cells, text_width};
use vstd::prelude::*;
use vstd::string::*;

verus! {

/// A cell of a row, blank where the row has none there.
pub open spec fn cell_at(row: Seq<Seq<char>>, i: int) -> Seq<char> {
    if 0 <= i < row.len() {
        row[i]
    } else {
        Seq::empty()
    }
}

/// The first `k` cells of a row between bars, but for the blanks.
pub open spec fn between_bars(row: Seq<Seq<char>>, k: nat) -> Seq<char>
    decreases k,
{
    if k == 0 {
        seq!['│']
    } else {
        between_bars(row, (k - 1) as nat) + solid(cell_at(row, k - 1)) + seq!['│']
    }
}

proof fn lemma_row_text_push(line: Seq<SpanView>, text: Seq<char>, style: Style)
    ensures
        row_text(line.push(span(text, style))) == row_text(line) + text,
{
    assert(line.push(span(text, style)).drop_last() =~= line);
}

proof fn lemma_solid_bar(text: Seq<char>)
    requires
        text == " │ "@ || text == " │"@ || text == "│ "@,
    ensures
        solid(text) == seq!['│'],
{
    reveal_strlit(" │ ");
    reveal_strlit(" │");
    reveal_strlit("│ ");
    reveal_with_fuel(solid, 4);
    assert(solid(text) =~= seq!['│']);
}

proof fn lemma_row_spans(
    row: Seq<Seq<char>>,
    widths: Seq<nat>,
    aligns: Seq<Alignment>,
    style: Style,
    border: Style,
    k: nat,
)
    requires
        k <= row.len(),
    ensures
        solid(row_text(row_spans(row, widths, aligns, style, border, k))) == between_bars(row, k),
    decreases k,
{
    let none = Seq::<SpanView>::empty();
    if k == 0 {
        assert(row_text(none) =~= Seq::<char>::empty());
        lemma_row_text_push(none, "│ "@, border);
        assert(none.push(span("│ "@, border)) =~= seq![span("│ "@, border)]);
        assert(Seq::<char>::empty() + "│ "@ =~= "│ "@);
        lemma_solid_bar("│ "@);
    } else {
        lemma_row_spans(row, widths, aligns, style, border, (k - 1) as nat);
        let before = row_spans(row, widths, aligns, style, border, (k - 1) as nat);
        let (left, right) = padding(row[k - 1], widths[k - 1], aligns[k - 1]);
        let bar = cell_border(k, widths.len());
        let a = before.push(span(repeated(' ', left), Style::plain()));
        let b = a.push(span(row[k - 1], style));
        let c = b.push(span(repeated(' ', right), Style::plain()));
        lemma_row_text_push(before, repeated(' ', left), Style::plain());
        lemma_row_text_push(a, row[k - 1], style);
        lemma_row_text_push(b, repeated(' ', right), Style::plain());
        lemma_row_text_push(c, bar, border);
        lemma_solid_blanks(left);
        lemma_solid_blanks(right);
        lemma_solid_bar(bar);
        lemma_solid_concat(row_text(before), repeated(' ', left));
        lemma_solid_concat(row_text(a), row[k - 1]);
        lemma_solid_concat(row_text(b), repeated(' ', right));
        lemma_solid_concat(row_text(c), bar);
        assert(solid(row_text(c.push(span(bar, border)))) =~= between_bars(row, k));
    }
}

proof fn lemma_same_bars(a: Seq<Seq<char>>, b: Seq<Seq<char>>, k: nat)
    requires
        forall|i: int| 0 <= i < k ==> cell_at(a, i) == #[trigger] cell_at(b, i),
    ensures
        between_bars(a, k) == between_bars(b, k),
    decreases k,
{
    if k > 0 {
        assert(cell_at(a, k - 1) == cell_at(b, k - 1));
        lemma_same_bars(a, b, (k - 1) as nat);
    }
}

/// Whether the cells of a row are shown as a whole: none takes up more than
/// forty columns.
pub open spec fn is_short(row: Seq<Seq<char>>) -> bool {
    forall|i: int| 0 <= i < row.len() ==> text_width(#[trigger] row[i]) <= 40
}

proof fn lemma_row_line(t: TableView, row: Seq<Seq<char>>, style: Style, width: nat, theme: Theme)
    requires
        is_short(row),
        !t.too_wide(width),
    ensures
        solid(row_text(t.row_line(row_cells(row, t.columns()), style, width, theme)))
            == between_bars(row, t.columns()),
{
    let cells = row_cells(row, t.columns());
    lemma_row_spans(
        cells,
        t.widths(width),
        t.column_aligns(),
        style,
        Style::plain().fg(theme.line_nr),
        t.columns(),
    );
    lemma_same_bars(cells, row, t.columns());
}

/// A table that fits shows every cell between bars, the header first and each
/// row on a line of its own, in order; missing cells are blank.
pub proof fn law_table_shows_its_cells(t: TableView, width: nat, theme: Theme, i: int)
    requires
        t.columns() > 0,
        !t.too_wide(width),
        is_short(t.headers),
        0 <= i < t.rows.len(),
        is_short(t.rows[i]),
    ensures
        ({
            let lines = t.lines(width, theme);
            &&& lines.len() == t.rows.len() + 5
            &&& solid(row_text(lines[1])) == between_bars(t.headers, t.columns())
            &&& solid(row_text(lines[3 + i])) == between_bars(t.rows[i], t.columns())
            &&& lines.last().len() == 0
        }),
{
    let bold = Style::plain().fg(theme.fg).add_modifier(Modifier::bold());
    let lines = t.lines(width, theme);
    lemma_row_line(t, t.headers, bold, width, theme);
    lemma_row_line(t, t.rows[i], Style::plain().fg(theme.fg), width, theme);
    assert(t.body_cells()[i] == row_cells(t.rows[i], t.columns()));
    assert(lines[1] == t.row_line(t.header_cells(), bold, width, theme));
    assert(lines[3 + i] == t.row_line(t.body_cells()[i], Style::plain().fg(theme.fg), width, theme));
}

/// A table has as many columns as its longest row has cells.
pub proof fn law_columns_are_those_of_the_longest_row(t: TableView)
    ensures
        t.columns() >= t.headers.len(),
        forall|i: int| 0 <= i < t.rows.len() ==> t.columns() >= (#[trigger] t.rows[i]).len(),
        t.columns() == t.headers.len() || exists|i: int|
            0 <= i < t.rows.len() && t.columns() == (#[trigger] t.rows[i]).len(),
{
    lemma_most_cells(t.rows, t.headers.len(), t.rows.len());
}

proof fn lemma_most_cells(rows: Seq<Seq<Seq<char>>>, least: nat, k: nat)
    requires
        k <= rows.len(),
    ensures
        ({
            let most = most_cells(rows, least, k);
            &&& most >= least
            &&& forall|i: int| 0 <= i < k ==> most >= (#[trigger] rows[i]).len()
            &&& most == least || exists|i: int| 0 <= i < k && most == (#[trigger] rows[i]).len()
        }),
    decreases k,
{
    if k > 0 {
        lemma_most_cells(rows, least, (k - 1) as nat);
        let most = most_cells(rows, least, k);
        if most == rows[k - 1].len() {
            assert(most == rows[k - 1].len());
        }
    }
}

/// The box of a table is closed: its top, the line under the header and its
/// bottom start and end with the corners of that place.
pub proof fn law_table_is_boxed(t: TableView, width: nat, theme: Theme)
    requires
        t.columns() > 0,
    ensures
        ({
            let lines = t.lines(width, theme);
            let top = lines[0][0].text;
            let under = lines[2][0].text;
            let bottom = lines[lines.len() - 2][0].text;
            &&& top[0] == '┌' && top.last() == '┐'
            &&& under[0] == '├' && under.last() == '┤'
            &&& bottom[0] == '└' && bottom.last() == '┘'
        }),
{
    let widths = t.widths(width);
    let n = t.columns();
    lemma_fitted_len(t.wants(), available(width, n), n);
    lemma_first_and_last(widths, '┌', '┬', '┐', n);
    lemma_first_and_last(widths, '├', '┼', '┤', n);
    lemma_first_and_last(widths, '└', '┴', '┘', n);
    let lines = t.lines(width, theme);
    assert(lines[lines.len() - 2] == t.border_line('└', '┴', '┘', width, theme));
}

proof fn lemma_first_and_last(widths: Seq<nat>, left: char, mid: char, right: char, k: nat)
    ensures
        ({
            let text = border_text(widths, left, mid, right, k);
            &&& text.len() > 0
            &&& text[0] == left
            &&& k > 0 ==> text.last() == if k < widths.len() {
                mid
            } else {
                right
            }
        }),
    decreases k,
{
    if k > 0 {
        lemma_first_and_last(widths, left, mid, right, (k - 1) as nat);
    }
}

/// The blanks around a cell fill up its column: to the right of a text that goes
/// left, to the left of one that goes right, and on both sides of one in the
/// middle, the odd one behind it.
pub proof fn law_cells_are_aligned(text: Seq<char>, w: nat, align: Alignment)
    requires
        text_width(text) <= w,
    ensures
        ({
            let (left, right) = padding(text, w, align);
            &&& left + text_width(text) + right == w
            &&& align == Alignment::Left || align == Alignment::Unset ==> left == 0
            &&& align == Alignment::Right ==> right == 0
            &&& align == Alignment::Center ==> left == right || left + 1 == right
        }),
{
}

/// A text that fits is shown as it is; one that does not is cut, and the cut is
/// marked: what shows is the start of it and an ellipsis.
pub proof fn law_long_cells_are_cut(text: Seq<char>, limit: nat)
    ensures
        ({
            let shown = cut(text, limit);
            &&& text_width(text) <= limit ==> shown == text
            &&& text_width(text) > limit ==> {
                &&& shown.len() > 0
                &&& shown.last() == '…'
                &&& shown.len() - 1 <= text.len()
                &&& shown.drop_last() == text.take(shown.len() - 1)
                &&& shown.len() > 1 ==> text_width(shown) <= limit
            }
        }),
{
    if text_width(text) > limit {
        let end = cut_at(text, 0, 0, limit);
        lemma_cut_at(text, 0, 0, limit);
        lemma_shrunk(text, end as nat, limit);
        let k = shrunk(text, end as nat, limit) as int;
        assert(text.take(k).push('…').drop_last() =~= text.take(k));
    }
}

proof fn lemma_cut_at(s: Seq<char>, i: int, used: nat, limit: nat)
    requires
        0 <= i <= s.len(),
    ensures
        i <= cut_at(s, i, used, limit) <= s.len(),
    decreases s.len() - i,
{
    if i < s.len() {
        lemma_cut_at(s, i + 1, used + cells(s[i]), limit);
    }
}

proof fn lemma_shrunk(s: Seq<char>, k: nat, limit: nat)
    ensures
        shrunk(s, k, limit) <= k,
        shrunk(s, k, limit) > 0 ==> text_width(
            s.take(shrunk(s, k, limit) as int).push('…'),
        ) <= limit,
    decreases k,
{
    if k > 0 && text_width(s.take(k as int).push('…')) > limit {
        lemma_shrunk(s, (k - 1) as nat, limit);
    }
}

/// Each column of a table that has to be narrowed gets three columns at least,
/// and no more than it asks for beyond that.
pub proof fn law_narrowed_columns(wants: Seq<nat>, avail: nat, k: nat, i: int)
    requires
        0 <= i < k,
    ensures
        fitted(wants, avail, k).0.len() == k,
        fitted(wants, avail, k).0[i] >= 3,
        fitted(wants, avail, k).0[i] > 3 ==> fitted(wants, avail, k).0[i] <= wants[i],
    decreases k,
{
    lemma_fitted_len(wants, avail, (k - 1) as nat);
    if i < k - 1 {
        law_narrowed_columns(wants, avail, (k - 1) as nat, i);
    }
}

proof fn lemma_fitted_len(wants: Seq<nat>, avail: nat, k: nat)
    ensures
        fitted(wants, avail, k).0.len() == k,
    decreases k,
{
    if k > 0 {
        lemma_fitted_len(wants, avail, (k - 1) as nat);
    }
}

} // verus!
