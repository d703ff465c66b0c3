//! Table layout for the Markdown preview: full box borders, a bold header,
//! per-column alignment, fitted to the render width.

use crate::markdown_events::Alignment;
use crate::style::{
    lemma_lines_push, lemma_spans_push, lines_view, spans_view, Line, Modifier, Span, SpanView,
    Style,
};
use crate::text::{chars_of, repeat_char, repeated, text_of, texts};
use crate::theme::Theme;
use crate::width::{
    cells, char_cells, is_plain, is_plain_char, lemma_line_width_push, line_width, str_width,
    text_width,
};
use vstd::prelude::*;
use vstd::string::*;

verus! {

/// Cells are cut to this many columns before anything else.
pub const MAX_CELL: usize = 40;

/// The larger of two numbers.
pub open spec fn max(a: int, b: int) -> int {
    if a >= b {
        a
    } else {
        b
    }
}

/// The smaller of two numbers.
pub open spec fn min(a: int, b: int) -> int {
    if a <= b {
        a
    } else {
        b
    }
}

/// How far a text can be taken, from `i` on with `used` columns taken, so that
/// an ellipsis still fits into `limit` columns.
pub open spec fn cut_at(s: Seq<char>, i: int, used: nat, limit: nat) -> int
    decreases s.len() - i,
{
    if i < 0 || i >= s.len() {
        s.len() as int
    } else if used + cells(s[i]) + 1 > limit {
        i
    } else {
        cut_at(s, i + 1, used + cells(s[i]), limit)
    }
}

/// How many of the first `k` characters fit into `limit` columns as a whole,
/// with an ellipsis behind them.
pub open spec fn shrunk(s: Seq<char>, k: nat, limit: nat) -> nat
    decreases k,
{
    if k == 0 || text_width(s.take(k as int).push('…')) <= limit {
        k
    } else {
        shrunk(s, (k - 1) as nat, limit)
    }
}

/// The text if it fits into `limit` columns, else its start and an ellipsis.
/// Characters may be wider together than one by one, so the start is shrunk
/// until it fits as a whole.
pub open spec fn cut(s: Seq<char>, limit: nat) -> Seq<char> {
    if text_width(s) <= limit {
        s
    } else {
        s.take(shrunk(s, cut_at(s, 0, 0, limit) as nat, limit) as int).push('…')
    }
}

/// The text if it fits into `limit` columns, else its start and an ellipsis.
pub fn cut_text(s: &str, limit: usize) -> (out: String)
    ensures
        out@ == cut(s@, limit as nat),
        limit > 0 ==> text_width(out@) <= limit,
{
    if str_width(s) <= limit {
        return s.to_owned();
    }
    let cs = chars_of(s);
    let mut used: u128 = 0;
    let mut i: usize = 0;
    let mut open = true;
    while i < cs.len() && open
        invariant
            i <= cs@.len(),
            used <= 3 * i,
            open ==> cut_at(cs@, 0, 0, limit as nat) == cut_at(
                cs@,
                i as int,
                used as nat,
                limit as nat,
            ),
            !open ==> cut_at(cs@, 0, 0, limit as nat) == i,
        decreases cs@.len() - i + (if open { 1int } else { 0int }),
    {
        let w = char_cells(cs[i]) as u128;
        if used + w + 1 > limit as u128 {
            open = false;
        } else {
            used = used + w;
            i += 1;
        }
    }
    let ghost most = i as nat;
    assert(most == cut_at(s@, 0, 0, limit as nat));
    let mut out = text_of(&cs, 0, i);
    out.push('…');
    assert(out@ =~= cs@.take(i as int).push('…'));
    let mut w = str_width(out.as_str());
    while i > 0 && w > limit
        invariant
            i <= most <= cs@.len(),
            cs@ == s@,
            out@ == s@.take(i as int).push('…'),
            w == text_width(out@),
            i == 0 ==> w == 1,
            shrunk(s@, most, limit as nat) == shrunk(s@, i as nat, limit as nat),
        decreases i,
    {
        i -= 1;
        out = text_of(&cs, 0, i);
        out.push('…');
        assert(out@ =~= s@.take(i as int).push('…'));
        w = str_width(out.as_str());
    }
    out
}

/// A row cut to the cell limit and filled up to `n` cells.
pub open spec fn row_cells(row: Seq<Seq<char>>, n: nat) -> Seq<Seq<char>> {
    Seq::new(
        n,
        |i: int|
            if i < row.len() {
                cut(row[i], MAX_CELL as nat)
            } else {
                Seq::<char>::empty()
            },
    )
}

fn normal_row(row: &Vec<String>, n: usize) -> (out: Vec<String>)
    ensures
        texts(out@) == row_cells(texts(row@), n as nat),
{
    let mut out: Vec<String> = Vec::new();
    let mut i: usize = 0;
    while i < n
        invariant
            i <= n,
            out@.len() == i,
            forall|k: int| 0 <= k < i ==> (#[trigger] out@[k])@ == row_cells(texts(row@), n as nat)[k],
        decreases n - i,
    {
        if i < row.len() {
            assert(texts(row@)[i as int] == row@[i as int]@);
            out.push(cut_text(row[i].as_str(), MAX_CELL));
        } else {
            out.push(String::new());
        }
        assert(out@[i as int]@ =~= row_cells(texts(row@), n as nat)[i as int]);
        i += 1;
    }
    assert(texts(out@) =~= row_cells(texts(row@), n as nat));
    out
}

/// The columns that column `i` asks for, going by the header and the first
/// `k` rows: the widest cell, and three at least.
pub open spec fn wanted(
    headers: Seq<Seq<char>>,
    rows: Seq<Seq<Seq<char>>>,
    i: int,
    k: nat,
) -> nat
    decreases k,
{
    if k == 0 {
        max(3, text_width(headers[i]) as int) as nat
    } else {
        max(
            wanted(headers, rows, i, (k - 1) as nat) as int,
            text_width(rows[k - 1][i]) as int,
        ) as nat
    }
}

/// The columns that each column asks for.
pub open spec fn wanted_all(
    headers: Seq<Seq<char>>,
    rows: Seq<Seq<Seq<char>>>,
    n: nat,
) -> Seq<nat> {
    Seq::new(n, |i: int| wanted(headers, rows, i, rows.len()))
}

/// The numbers as they are counted.
pub open spec fn counts(list: Seq<usize>) -> Seq<nat> {
    list.map_values(|x: usize| x as nat)
}

/// What a list of rows holds.
pub open spec fn rows_view(rows: Seq<Vec<String>>) -> Seq<Seq<Seq<char>>> {
    rows.map_values(|r: Vec<String>| texts(r@))
}

fn measure(headers: &Vec<String>, rows: &Vec<Vec<String>>, n: usize) -> (out: Vec<usize>)
    requires
        headers@.len() == n,
        forall|k: int| 0 <= k < rows@.len() ==> (#[trigger] rows@[k])@.len() == n,
    ensures
        counts(out@) == wanted_all(texts(headers@), rows_view(rows@), n as nat),
        forall|i: int| 0 <= i < out@.len() ==> out@[i] >= 3,
{
    let ghost hs = texts(headers@);
    let ghost rs = rows_view(rows@);
    let mut out: Vec<usize> = Vec::new();
    let mut i: usize = 0;
    while i < n
        invariant
            i <= n == headers@.len(),
            hs == texts(headers@),
            rs == rows_view(rows@),
            forall|k: int| 0 <= k < rows@.len() ==> (#[trigger] rows@[k])@.len() == n,
            out@.len() == i,
            forall|k: int|
                0 <= k < i ==> #[trigger] out@[k] >= 3 && out@[k] == wanted(hs, rs, k, rs.len()),
        decreases n - i,
    {
        let mut w: usize = 3;
        let h = str_width(headers[i].as_str());
        if h > w {
            w = h;
        }
        assert(hs[i as int] == headers@[i as int]@);
        let mut k: usize = 0;
        while k < rows.len()
            invariant
                i < n,
                k <= rows@.len(),
                rs == rows_view(rows@),
                w >= 3,
                w == wanted(hs, rs, i as int, k as nat),
                forall|k: int| 0 <= k < rows@.len() ==> (#[trigger] rows@[k])@.len() == n,
            decreases rows@.len() - k,
        {
            assert(rs[k as int] == texts(rows@[k as int]@));
            assert(rs[k as int][i as int] == rows@[k as int]@[i as int]@);
            let c = str_width(rows[k][i].as_str());
            if c > w {
                w = c;
            }
            k += 1;
        }
        out.push(w);
        i += 1;
    }
    assert(counts(out@) =~= wanted_all(hs, rs, n as nat));
    out
}

/// The sum of the first `k` numbers.
pub open spec fn sum(list: Seq<nat>, k: nat) -> nat
    decreases k,
{
    if k == 0 {
        0
    } else {
        sum(list, (k - 1) as nat) + list[k - 1]
    }
}

fn total(list: &Vec<usize>) -> (t: u128)
    ensures
        t == sum(counts(list@), list@.len()),
{
    let mut t: u128 = 0;
    let mut i: usize = 0;
    while i < list.len()
        invariant
            i <= list@.len(),
            t == sum(counts(list@), i as nat),
            t <= i * 0xffff_ffff_ffff_ffff,
        decreases list@.len() - i,
    {
        assert(counts(list@)[i as int] == list@[i as int]);
        t = t + list[i] as u128;
        i += 1;
    }
    t
}

/// The columns left for the cells of `n` columns: the borders cost three per
/// column and one; each column keeps at least three.
pub open spec fn available(width: nat, n: nat) -> nat {
    max(width - (3 * n + 1), 3 * n as int) as nat
}

/// The first `k` columns fitted into `avail`, and what is left of it. Each
/// gets what it asks for, but no more than its fair share and no more than
/// leaves three for each column behind it.
pub open spec fn fitted(wants: Seq<nat>, avail: nat, k: nat) -> (Seq<nat>, nat)
    decreases k,
{
    if k == 0 {
        (Seq::empty(), avail)
    } else {
        let n = wants.len();
        let (done, budget) = fitted(wants, avail, (k - 1) as nat);
        let fair = max((avail / n) as int, 3);
        let rest = max(budget - 3 * (n - k), 0);
        let w = max(min(min(wants[k - 1] as int, fair), rest), 3);
        (done.push(w as nat), max(budget - w, 0) as nat)
    }
}

/// Fitting leaves three for each column behind, spends what it gives, and
/// gives each column three at least.
proof fn lemma_fitted(wants: Seq<nat>, avail: nat, k: nat)
    requires
        k <= wants.len(),
        3 * wants.len() <= avail,
    ensures
        fitted(wants, avail, k).0.len() == k,
        fitted(wants, avail, k).1 >= 3 * (wants.len() - k),
        sum(fitted(wants, avail, k).0, k) + fitted(wants, avail, k).1 == avail,
        forall|i: int| 0 <= i < k ==> 3 <= #[trigger] fitted(wants, avail, k).0[i] <= max(
            wants[i] as int,
            3,
        ),
    decreases k,
{
    if k > 0 {
        let before = fitted(wants, avail, (k - 1) as nat);
        let after = fitted(wants, avail, k);
        lemma_fitted(wants, avail, (k - 1) as nat);
        lemma_sum_prefix(after.0, before.0, (k - 1) as nat);
    }
}

proof fn lemma_sum_prefix(a: Seq<nat>, b: Seq<nat>, k: nat)
    requires
        k <= a.len(),
        k <= b.len(),
        forall|i: int| 0 <= i < k ==> a[i] == b[i],
    ensures
        sum(a, k) == sum(b, k),
    decreases k,
{
    if k > 0 {
        lemma_sum_prefix(a, b, (k - 1) as nat);
    }
}

fn fit_columns(wants: &Vec<usize>, avail: u128) -> (out: Vec<usize>)
    requires
        wants@.len() > 0,
        3 * wants@.len() <= avail,
    ensures
        counts(out@) == fitted(counts(wants@), avail as nat, wants@.len()).0,
        out@.len() == wants@.len(),
{
    let ghost ws = counts(wants@);
    let n = wants.len();
    let mut out: Vec<usize> = Vec::new();
    let mut budget: u128 = avail;
    let share = avail / (n as u128);
    let fair = if share >= 3 { share } else { 3 };
    let mut i: usize = 0;
    assert(counts(out@) =~= fitted(ws, avail as nat, 0).0);
    while i < n
        invariant
            i <= n == wants@.len(),
            ws == counts(wants@),
            3 * n <= avail,
            fair == max((avail as nat / n as nat) as int, 3),
            counts(out@) == fitted(ws, avail as nat, i as nat).0,
            budget == fitted(ws, avail as nat, i as nat).1,
            out@.len() == i,
        decreases n - i,
    {
        proof {
            lemma_fitted(ws, avail as nat, i as nat);
            lemma_fitted(ws, avail as nat, (i + 1) as nat);
            assert(ws[i as int] == wants@[i as int]);
        }
        let mut give: u128 = wants[i] as u128;
        if fair < give {
            give = fair;
        }
        let keep: u128 = 3 * ((n - i - 1) as u128);
        let rest = budget - keep;
        if rest < give {
            give = rest;
        }
        let w: usize = if give < 3 { 3 } else { give as usize };
        let ghost before = out@;
        out.push(w);
        budget = budget - w as u128;
        i += 1;
        assert(counts(out@) =~= fitted(ws, avail as nat, i as nat).0);
    }
    out
}

/// The white space left and right of a cell text in `w` columns.
pub open spec fn padding(text: Seq<char>, w: nat, align: Alignment) -> (nat, nat) {
    let pad = (w - min(text_width(text) as int, w as int)) as nat;
    match align {
        Alignment::Right => (pad, 0),
        Alignment::Center => (pad / 2, (pad - pad / 2) as nat),
        _ => (0, pad),
    }
}

fn pad_cell(text: &str, w: usize, align: Alignment) -> (pads: (usize, usize))
    ensures
        (pads.0 as nat, pads.1 as nat) == padding(text@, w as nat, align),
{
    let cw = str_width(text);
    let pad = if cw < w { w - cw } else { 0 };
    match align {
        Alignment::Right => (pad, 0),
        Alignment::Center => (pad / 2, pad - pad / 2),
        _ => (0, pad),
    }
}

pub open spec fn span(text: Seq<char>, style: Style) -> SpanView {
    SpanView { text, style }
}

/// The border behind cell `k` of `n`: there is no blank behind the last.
pub open spec fn cell_border(k: nat, n: nat) -> Seq<char> {
    if k < n {
        " │ "@
    } else {
        " │"@
    }
}

/// The spans of a table row up to cell `k`: a border, and for each cell its
/// padding, its text and a border.
pub open spec fn row_spans(
    row: Seq<Seq<char>>,
    widths: Seq<nat>,
    aligns: Seq<Alignment>,
    style: Style,
    border: Style,
    k: nat,
) -> Seq<SpanView>
    decreases k,
{
    if k == 0 {
        seq![span("│ "@, border)]
    } else {
        let (left, right) = padding(row[k - 1], widths[k - 1], aligns[k - 1]);
        row_spans(row, widths, aligns, style, border, (k - 1) as nat).push(
            span(repeated(' ', left), Style::plain()),
        ).push(span(row[k - 1], style)).push(span(repeated(' ', right), Style::plain())).push(
            span(cell_border(k, widths.len()), border),
        )
    }
}

/// Whether each cell fits into its column.
pub open spec fn cells_fit(row: Seq<Seq<char>>, widths: Seq<nat>) -> bool {
    forall|i: int| 0 <= i < row.len() ==> text_width(#[trigger] row[i]) <= widths[i]
}

/// A text of plain characters: as wide as it is long.
fn plain_text(s: &str) -> (out: String)
    ensures
        out@ == s@,
        is_plain(s@) ==> text_width(out@) == out@.len(),
{
    let _ = str_width(s);
    s.to_owned()
}

fn blanks(n: usize) -> (out: String)
    ensures
        out@ == repeated(' ', n as nat),
        text_width(out@) == n,
{
    let out = repeat_char(' ', n as u128);
    let _ = str_width(out.as_str());
    out
}

fn emit_row(
    row: &Vec<String>,
    widths: &Vec<usize>,
    aligns: &Vec<Alignment>,
    style: Style,
    border: Style,
) -> (line: Line)
    requires
        row@.len() == widths@.len() == aligns@.len(),
    ensures
        line@ == row_spans(
            texts(row@),
            counts(widths@),
            aligns@,
            style,
            border,
            row@.len(),
        ),
        row@.len() > 0 && cells_fit(texts(row@), counts(widths@)) ==> line_width(line@) == sum(
            counts(widths@),
            row@.len(),
        ) + 3 * row@.len() + 1,
{
    broadcast use lemma_spans_push;

    let ghost ts = texts(row@);
    let ghost ws = counts(widths@);
    let ghost fits = cells_fit(ts, ws);
    let mut spans: Vec<Span> = Vec::new();
    assert(spans_view(spans@) =~= Seq::<SpanView>::empty());
    let first = plain_text("│ ");
    proof {
        reveal_strlit("│ ");
        lemma_line_width_push(Seq::empty(), span(first@, border));
        assert(line_width(Seq::<SpanView>::empty()) == 0);
    }
    spans.push(Span::styled(first, border));
    let mut i: usize = 0;
    assert(spans_view(spans@) =~= Seq::<SpanView>::empty().push(span("│ "@, border)));
    assert(spans_view(spans@) =~= row_spans(ts, ws, aligns@, style, border, 0));
    while i < row.len()
        invariant
            i <= row@.len() == widths@.len() == aligns@.len(),
            ts == texts(row@),
            ws == counts(widths@),
            spans_view(spans@) == row_spans(ts, ws, aligns@, style, border, i as nat),
            fits == cells_fit(ts, ws),
            fits ==> line_width(spans_view(spans@)) == sum(ws, i as nat) + 3 * i + (if 0 < i
                == row@.len() {
                1int
            } else {
                2int
            }),
        decreases row@.len() - i,
    {
        assert(ts[i as int] == row@[i as int]@);
        assert(ws[i as int] == widths@[i as int]);
        let (left, right) = pad_cell(row[i].as_str(), widths[i], aligns[i]);
        let lead = blanks(left);
        let tail = blanks(right);
        let edge = if row.len() - i > 1 { plain_text(" │ ") } else { plain_text(" │") };
        let ghost v0 = spans_view(spans@);
        proof {
            reveal_strlit(" │ ");
            reveal_strlit(" │");
            assert(is_plain(" │ "@));
            assert(is_plain(" │"@));
            assert(text_width(edge@) == edge@.len());
            let v1 = v0.push(span(lead@, Style::plain()));
            let v2 = v1.push(span(ts[i as int], style));
            let v3 = v2.push(span(tail@, Style::plain()));
            lemma_line_width_push(v0, span(lead@, Style::plain()));
            lemma_line_width_push(v1, span(ts[i as int], style));
            lemma_line_width_push(v2, span(tail@, Style::plain()));
            lemma_line_width_push(v3, span(edge@, border));
            assert(fits ==> text_width(ts[i as int]) <= ws[i as int]);
            assert(fits ==> left + text_width(ts[i as int]) + right == ws[i as int]);
        }
        spans.push(Span::raw(lead));
        spans.push(Span::styled(row[i].clone(), style));
        spans.push(Span::raw(tail));
        spans.push(Span::styled(edge, border));
        i += 1;
        assert(spans_view(spans@) =~= v0.push(span(lead@, Style::plain())).push(
            span(ts[i - 1], style),
        ).push(span(tail@, Style::plain())).push(span(edge@, border)));
    }
    Line::from_spans(spans)
}

/// A horizontal border up to column `k`, with its three corners.
pub open spec fn border_text(
    widths: Seq<nat>,
    left: char,
    mid: char,
    right: char,
    k: nat,
) -> Seq<char>
    decreases k,
{
    if k == 0 {
        seq![left]
    } else {
        (border_text(widths, left, mid, right, (k - 1) as nat) + repeated(
            '─',
            widths[k - 1] + 2,
        )).push(
            if k < widths.len() {
                mid
            } else {
                right
            },
        )
    }
}

/// A border over all columns.
pub open spec fn full_border(widths: Seq<nat>, left: char, mid: char, right: char) -> Seq<char> {
    border_text(widths, left, mid, right, widths.len())
}

fn rule(widths: &Vec<usize>, left: char, mid: char, right: char) -> (out: String)
    ensures
        out@ == full_border(counts(widths@), left, mid, right),
        is_plain_char(left) && is_plain_char(mid) && is_plain_char(right) ==> text_width(out@)
            == sum(counts(widths@), widths@.len()) + 3 * widths@.len() + 1,
{
    let ghost ws = counts(widths@);
    let mut out = String::new();
    out.push(left);
    assert(out@ =~= border_text(ws, left, mid, right, 0));
    let mut i: usize = 0;
    while i < widths.len()
        invariant
            i <= widths@.len(),
            ws == counts(widths@),
            out@ == border_text(ws, left, mid, right, i as nat),
        decreases widths@.len() - i,
    {
        assert(ws[i as int] == widths@[i as int]);
        out.append(repeat_char('─', widths[i] as u128 + 2).as_str());
        if widths.len() - i > 1 {
            out.push(mid);
        } else {
            out.push(right);
        }
        i += 1;
    }
    let _ = str_width(out.as_str());
    proof {
        lemma_border_len(ws, left, mid, right, ws.len());
        if is_plain_char(left) && is_plain_char(mid) && is_plain_char(right) {
            lemma_border_plain(ws, left, mid, right, ws.len());
        }
    }
    out
}

/// A parsed table: header cells, rows of cells and column alignments.
pub struct Table {
    pub headers: Vec<String>,
    pub rows: Vec<Vec<String>>,
    pub aligns: Vec<Alignment>,
}

/// What a [`Table`] holds.
#[verifier::ext_equal]
pub struct TableView {
    pub headers: Seq<Seq<char>>,
    pub rows: Seq<Seq<Seq<char>>>,
    pub aligns: Seq<Alignment>,
}

impl View for Table {
    type V = TableView;

    open spec fn view(&self) -> TableView {
        TableView {
            headers: texts(self.headers@),
            rows: rows_view(self.rows@),
            aligns: self.aligns@,
        }
    }
}

/// The most cells among `least` and the first `k` rows.
pub open spec fn most_cells(rows: Seq<Seq<Seq<char>>>, least: nat, k: nat) -> nat
    decreases k,
{
    if k == 0 {
        least
    } else {
        max(most_cells(rows, least, (k - 1) as nat) as int, rows[k - 1].len() as int) as nat
    }
}

impl TableView {
    /// The number of columns: that of the longest row.
    pub open spec fn columns(self) -> nat {
        most_cells(self.rows, self.headers.len(), self.rows.len())
    }

    /// The cells of the header, before they are fitted.
    pub open spec fn header_cells(self) -> Seq<Seq<char>> {
        row_cells(self.headers, self.columns())
    }

    /// The cells of the rows, before they are fitted.
    pub open spec fn body_cells(self) -> Seq<Seq<Seq<char>>> {
        self.rows.map_values(|r: Seq<Seq<char>>| row_cells(r, self.columns()))
    }

    /// The columns that each column asks for.
    pub open spec fn wants(self) -> Seq<nat> {
        wanted_all(self.header_cells(), self.body_cells(), self.columns())
    }

    /// Whether the columns ask for more than there is.
    pub open spec fn too_wide(self, width: nat) -> bool {
        sum(self.wants(), self.columns()) > available(width, self.columns())
    }

    /// The columns that each column gets.
    pub open spec fn widths(self, width: nat) -> Seq<nat> {
        if self.too_wide(width) {
            fitted(self.wants(), available(width, self.columns()), self.columns()).0
        } else {
            self.wants()
        }
    }

    /// A row of cells cut to the columns they get.
    pub open spec fn fit_row(self, row: Seq<Seq<char>>, width: nat) -> Seq<Seq<char>> {
        if self.too_wide(width) {
            Seq::new(row.len(), |i: int| cut(row[i], self.widths(width)[i]))
        } else {
            row
        }
    }

    pub open spec fn column_aligns(self) -> Seq<Alignment> {
        Seq::new(
            self.columns(),
            |i: int|
                if i < self.aligns.len() {
                    self.aligns[i]
                } else {
                    Alignment::Unset
                },
        )
    }

    pub open spec fn row_line(
        self,
        row: Seq<Seq<char>>,
        style: Style,
        width: nat,
        theme: Theme,
    ) -> Seq<SpanView> {
        row_spans(
            self.fit_row(row, width),
            self.widths(width),
            self.column_aligns(),
            style,
            Style::plain().fg(theme.line_nr),
            self.columns(),
        )
    }

    pub open spec fn border_line(
        self,
        left: char,
        mid: char,
        right: char,
        width: nat,
        theme: Theme,
    ) -> Seq<SpanView> {
        seq![span(
            full_border(self.widths(width), left, mid, right),
            Style::plain().fg(theme.line_nr),
        )]
    }

    /// The lines of the table in a container of `width` columns: a box with a
    /// bold header, and a blank line behind it; nothing where there is no cell.
    pub open spec fn lines(self, width: nat, theme: Theme) -> Seq<Seq<SpanView>> {
        if self.columns() == 0 {
            Seq::empty()
        } else {
            seq![
                self.border_line('┌', '┬', '┐', width, theme),
                self.row_line(
                    self.header_cells(),
                    Style::plain().fg(theme.fg).add_modifier(Modifier::bold()),
                    width,
                    theme,
                ),
                self.border_line('├', '┼', '┤', width, theme),
            ] + self.body_cells().map_values(
                |r: Seq<Seq<char>>| self.row_line(r, Style::plain().fg(theme.fg), width, theme),
            ) + seq![self.border_line('└', '┴', '┘', width, theme), Seq::<SpanView>::empty()]
        }
    }
}

fn count_columns(t: &Table) -> (n: usize)
    ensures
        n == t@.columns(),
        t.headers@.len() <= n,
        forall|k: int| 0 <= k < t.rows@.len() ==> (#[trigger] t.rows@[k])@.len() <= n,
{
    let ghost rs = rows_view(t.rows@);
    let mut n: usize = t.headers.len();
    let mut k: usize = 0;
    while k < t.rows.len()
        invariant
            k <= t.rows@.len(),
            rs == rows_view(t.rows@),
            n == most_cells(rs, t.headers@.len(), k as nat),
            t.headers@.len() <= n,
            forall|j: int| 0 <= j < k ==> (#[trigger] t.rows@[j])@.len() <= n,
        decreases t.rows@.len() - k,
    {
        assert(rs[k as int] == texts(t.rows@[k as int]@));
        let m = t.rows[k].len();
        if m > n {
            n = m;
        }
        k += 1;
    }
    assert(texts(t.headers@).len() == t.headers@.len());
    n
}

fn cut_row(row: &Vec<String>, widths: &Vec<usize>) -> (out: Vec<String>)
    requires
        row@.len() == widths@.len(),
    ensures
        texts(out@) == Seq::new(
            row@.len(),
            |i: int| cut(texts(row@)[i], counts(widths@)[i]),
        ),
        (forall|i: int| 0 <= i < widths@.len() ==> #[trigger] widths@[i] > 0) ==> cells_fit(
            texts(out@),
            counts(widths@),
        ),
{
    let mut out: Vec<String> = Vec::new();
    let mut i: usize = 0;
    while i < row.len()
        invariant
            i <= row@.len() == widths@.len(),
            out@.len() == i,
            forall|k: int|
                0 <= k < i ==> (#[trigger] out@[k])@ == cut(
                    texts(row@)[k],
                    counts(widths@)[k],
                ),
            forall|k: int|
                0 <= k < i && widths@[k] > 0 ==> text_width((#[trigger] out@[k])@) <= widths@[k],
        decreases row@.len() - i,
    {
        assert(texts(row@)[i as int] == row@[i as int]@);
        assert(counts(widths@)[i as int] == widths@[i as int]);
        out.push(cut_text(row[i].as_str(), widths[i]));
        i += 1;
    }
    assert(texts(out@) =~= Seq::new(
        row@.len(),
        |i: int| cut(texts(row@)[i], counts(widths@)[i]),
    ));
    out
}

/// A table as it was laid out: cells, columns and alignments.
struct Layout {
    headers: Vec<String>,
    rows: Vec<Vec<String>>,
    widths: Vec<usize>,
    aligns: Vec<Alignment>,
}

impl Layout {
    spec fn right(self, t: TableView, width: nat) -> bool {
        &&& texts(self.headers@) == t.fit_row(t.header_cells(), width)
        &&& self.rows@.len() == t.rows.len()
        &&& forall|k: int|
            0 <= k < self.rows@.len() ==> texts((#[trigger] self.rows@[k])@) == t.fit_row(
                t.body_cells()[k],
                width,
            )
        &&& counts(self.widths@) == t.widths(width)
        &&& self.aligns@ == t.column_aligns()
        &&& self.headers@.len() == t.columns()
        &&& forall|k: int| 0 <= k < self.rows@.len() ==> (#[trigger] self.rows@[k])@.len() == t.columns()
        &&& self.widths@.len() == t.columns()
        &&& cells_fit(texts(self.headers@), counts(self.widths@))
        &&& forall|k: int|
            0 <= k < self.rows@.len() ==> cells_fit(
                texts((#[trigger] self.rows@[k])@),
                counts(self.widths@),
            )
    }
}

fn normal_rows(rows: &Vec<Vec<String>>, n: usize) -> (out: Vec<Vec<String>>)
    ensures
        rows_view(out@) == rows_view(rows@).map_values(|r: Seq<Seq<char>>| row_cells(r, n as nat)),
        forall|k: int| 0 <= k < out@.len() ==> (#[trigger] out@[k])@.len() == n,
{
    let mut out: Vec<Vec<String>> = Vec::new();
    let mut k: usize = 0;
    while k < rows.len()
        invariant
            k <= rows@.len(),
            out@.len() == k,
            forall|j: int|
                0 <= j < k ==> texts((#[trigger] out@[j])@) == row_cells(
                    texts(rows@[j]@),
                    n as nat,
                ),
        decreases rows@.len() - k,
    {
        let row = normal_row(&rows[k], n);
        out.push(row);
        k += 1;
    }
    assert forall|j: int| 0 <= j < out@.len() implies (#[trigger] out@[j])@.len() == n by {
        assert(texts(out@[j]@).len() == n);
    }
    assert(rows_view(out@) =~= rows_view(rows@).map_values(
        |r: Seq<Seq<char>>| row_cells(r, n as nat),
    ));
    out
}

fn column_alignment(t: &Table, n: usize) -> (out: Vec<Alignment>)
    requires
        n == t@.columns(),
    ensures
        out@ == t@.column_aligns(),
{
    let mut out: Vec<Alignment> = Vec::new();
    let mut i: usize = 0;
    while i < n
        invariant
            i <= n == t@.columns(),
            out@.len() == i,
            forall|k: int| 0 <= k < i ==> #[trigger] out@[k] == t@.column_aligns()[k],
        decreases n - i,
    {
        if i < t.aligns.len() {
            out.push(t.aligns[i]);
        } else {
            out.push(Alignment::Unset);
        }
        i += 1;
    }
    assert(out@ =~= t@.column_aligns());
    out
}

fn lay_out(t: &Table, n: usize, width: usize) -> (l: Layout)
    requires
        n == t@.columns(),
        n > 0,
    ensures
        l.right(t@, width as nat),
{
    let ghost v = t@;
    let headers = normal_row(&t.headers, n);
    let rows = normal_rows(&t.rows, n);
    assert(texts(headers@).len() == n);
    assert(texts(headers@) == v.header_cells());
    assert(rows_view(rows@) == v.body_cells());
    assert(rows_view(rows@).len() == rows@.len());
    let wants = measure(&headers, &rows, n);
    assert(counts(wants@) == v.wants());
    assert(counts(wants@).len() == wants@.len());
    let aligns = column_alignment(t, n);
    let cost: u128 = 3 * (n as u128) + 1;
    let mut avail: u128 = 3 * (n as u128);
    if width as u128 > cost && width as u128 - cost > avail {
        avail = width as u128 - cost;
    }
    assert(avail == available(width as nat, n as nat));
    if total(&wants) > avail {
        let widths = fit_columns(&wants, avail);
        proof {
            lemma_fitted(counts(wants@), avail as nat, n as nat);
            assert forall|i: int| 0 <= i < widths@.len() implies #[trigger] widths@[i] > 0 by {
                assert(counts(widths@)[i] == widths@[i]);
            }
        }
        let fit_headers = cut_row(&headers, &widths);
        assert(texts(fit_headers@) =~= v.fit_row(v.header_cells(), width as nat));
        assert(texts(fit_headers@).len() == fit_headers@.len());
        let mut fit_rows: Vec<Vec<String>> = Vec::new();
        let mut k: usize = 0;
        while k < rows.len()
            invariant
                k <= rows@.len(),
                fit_rows@.len() == k,
                v == t@,
                n == v.columns(),
                v.too_wide(width as nat),
                rows_view(rows@) == v.body_cells(),
                counts(widths@) == v.widths(width as nat),
                widths@.len() == n,
                forall|j: int| 0 <= j < rows@.len() ==> (#[trigger] rows@[j])@.len() == n,
                forall|j: int|
                    0 <= j < k ==> texts((#[trigger] fit_rows@[j])@) == v.fit_row(
                        v.body_cells()[j],
                        width as nat,
                    ) && fit_rows@[j]@.len() == n,
                forall|i: int| 0 <= i < widths@.len() ==> #[trigger] widths@[i] > 0,
                forall|j: int|
                    0 <= j < k ==> cells_fit(
                        texts((#[trigger] fit_rows@[j])@),
                        counts(widths@),
                    ),
            decreases rows@.len() - k,
        {
            let row = cut_row(&rows[k], &widths);
            assert(v.body_cells()[k as int] == texts(rows@[k as int]@));
            assert(texts(row@) =~= v.fit_row(v.body_cells()[k as int], width as nat));
            assert(texts(row@).len() == row@.len());
            fit_rows.push(row);
            k += 1;
        }
        Layout { headers: fit_headers, rows: fit_rows, widths, aligns }
    } else {
        assert forall|k: int| 0 <= k < rows@.len() implies texts((#[trigger] rows@[k])@)
            == v.fit_row(v.body_cells()[k], width as nat) by {
            assert(rows_view(rows@)[k] == texts(rows@[k]@));
        }
        proof {
            let (hs, rs) = (v.header_cells(), v.body_cells());
            assert forall|i: int| 0 <= i < n implies text_width(#[trigger] hs[i]) <= v.wants()[i] by {
                lemma_wanted(hs, rs, i, rs.len());
            }
            assert forall|k: int| 0 <= k < rows@.len() implies cells_fit(
                texts((#[trigger] rows@[k])@),
                counts(wants@),
            ) by {
                assert(rows_view(rows@)[k] == texts(rows@[k]@));
                assert forall|i: int| 0 <= i < n implies text_width(#[trigger] rs[k][i])
                    <= v.wants()[i] by {
                    lemma_wanted(hs, rs, i, rs.len());
                }
                assert(texts(rows@[k]@).len() == n);
            }
        }
        Layout { headers, rows, widths: wants, aligns }
    }
}

/// The columns that a column asks for are enough for each of its cells.
proof fn lemma_wanted(headers: Seq<Seq<char>>, rows: Seq<Seq<Seq<char>>>, i: int, k: nat)
    ensures
        text_width(headers[i]) <= wanted(headers, rows, i, k),
        forall|j: int|
            0 <= j < k ==> text_width((#[trigger] rows[j])[i]) <= wanted(headers, rows, i, k),
    decreases k,
{
    if k > 0 {
        lemma_wanted(headers, rows, i, (k - 1) as nat);
    }
}

/// The lines of a table in a container of `width` columns. The table is fitted
/// to the container: no line is wider, unless the container cannot even hold
/// three columns and their borders per column of the table.
pub fn table_lines(t: &Table, width: usize, theme: Theme) -> (lines: Vec<Line>)
    ensures
        lines_view(lines@) == t@.lines(width as nat, theme),
        6 * t@.columns() + 1 <= width ==> forall|i: int|
            0 <= i < lines@.len() ==> line_width((#[trigger] lines@[i])@) <= width,
{
    broadcast use lemma_lines_push;

    let ghost v = t@;
    let mut lines: Vec<Line> = Vec::new();
    assert(lines_view(lines@) =~= Seq::<Seq<SpanView>>::empty());
    let n = count_columns(t);
    if n == 0 {
        return lines;
    }
    let l = lay_out(t, n, width);
    let ghost roomy = 6 * v.columns() + 1 <= width;
    let ghost wide = sum(counts(l.widths@), n as nat) + 3 * n + 1;
    proof {
        lemma_fitted(v.wants(), available(width as nat, n as nat), n as nat);
        assert(roomy ==> wide <= width);
    }
    let border = Style::plain().fg(theme.line_nr);
    let header_style = Style::plain().fg(theme.fg).add_modifier(Modifier::bold());
    let cell_style = Style::plain().fg(theme.fg);
    let top = rule(&l.widths, '┌', '┬', '┐');
    proof {
        lemma_one_span(top@, border);
    }
    lines.push(Line::of(Span::styled(top, border)));
    lines.push(emit_row(&l.headers, &l.widths, &l.aligns, header_style, border));
    let middle = rule(&l.widths, '├', '┼', '┤');
    proof {
        lemma_one_span(middle@, border);
    }
    lines.push(Line::of(Span::styled(middle, border)));
    let ghost head = seq![
        v.border_line('┌', '┬', '┐', width as nat, theme),
        v.row_line(v.header_cells(), header_style, width as nat, theme),
        v.border_line('├', '┼', '┤', width as nat, theme),
    ];
    let ghost body = v.body_cells().map_values(
        |r: Seq<Seq<char>>| v.row_line(r, cell_style, width as nat, theme),
    );
    assert(lines_view(lines@) =~= head);
    let mut k: usize = 0;
    assert(head + body.take(0) =~= head);
    while k < l.rows.len()
        invariant
            k <= l.rows@.len(),
            l.right(v, width as nat),
            body == v.body_cells().map_values(
                |r: Seq<Seq<char>>| v.row_line(r, cell_style, width as nat, theme),
            ),
            border == Style::plain().fg(theme.line_nr),
            lines_view(lines@) == head + body.take(k as int),
            n == v.columns(),
            n > 0,
            wide == sum(counts(l.widths@), n as nat) + 3 * n + 1,
            roomy ==> wide <= width,
            roomy ==> forall|i: int|
                0 <= i < lines@.len() ==> line_width((#[trigger] lines@[i])@) <= width,
        decreases l.rows@.len() - k,
    {
        let line = emit_row(&l.rows[k], &l.widths, &l.aligns, cell_style, border);
        let ghost cells_k = v.body_cells()[k as int];
        assert(texts(l.rows@[k as int]@) == v.fit_row(cells_k, width as nat));
        assert(l.rows@[k as int]@.len() == v.columns());
        assert(line@ == v.row_line(cells_k, cell_style, width as nat, theme));
        let ghost before = lines@;
        lines.push(line);
        assert(lines_view(lines@) == lines_view(before).push(line@)) by {
            lemma_lines_push(before, line);
        }
        assert(body[k as int] == line@);
        assert(body.take(k + 1) =~= body.take(k as int).push(body[k as int]));
        assert(lines_view(lines@) =~= head + body.take(k + 1));
        k += 1;
    }
    assert(body.take(body.len() as int) =~= body);
    let bottom = rule(&l.widths, '└', '┴', '┘');
    proof {
        lemma_one_span(bottom@, border);
        assert(line_width(Seq::<SpanView>::empty()) == 0);
    }
    lines.push(Line::of(Span::styled(bottom, border)));
    lines.push(Line::blank());
    assert(lines_view(lines@) =~= v.lines(width as nat, theme));
    lines
}

proof fn lemma_one_span(text: Seq<char>, style: Style)
    ensures
        line_width(seq![span(text, style)]) == text_width(text),
{
    lemma_line_width_push(Seq::empty(), span(text, style));
    assert(Seq::empty().push(span(text, style)) =~= seq![span(text, style)]);
    assert(line_width(Seq::<SpanView>::empty()) == 0);
}

proof fn lemma_border_plain(widths: Seq<nat>, left: char, mid: char, right: char, k: nat)
    requires
        k <= widths.len(),
        is_plain_char(left),
        is_plain_char(mid),
        is_plain_char(right),
    ensures
        is_plain(border_text(widths, left, mid, right, k)),
    decreases k,
{
    if k > 0 {
        lemma_border_plain(widths, left, mid, right, (k - 1) as nat);
    }
}

proof fn lemma_border_len(widths: Seq<nat>, left: char, mid: char, right: char, k: nat)
    requires
        k <= widths.len(),
    ensures
        border_text(widths, left, mid, right, k).len() == sum(widths, k) + 3 * k + 1,
    decreases k,
{
    if k > 0 {
        lemma_border_len(widths, left, mid, right, (k - 1) as nat);
    }
}

} // verus!
