//! Soft wrapping of styled lines.

use crate::markdown::{document_lines, parse_markdown};
use crate::markdown_events::{cmark_events, preview_options};
use crate::markdown_table::span;
use crate::style::{
    lemma_lines_push, lemma_spans_push, lines_view, spans_view, Line, Span, SpanView, Style,
};
use crate::syntax::Highlighter;
use crate::text::{chars_of, repeat_char, repeated};
use crate::theme::Theme;
use crate::width::{cells, char_cells, line_width, width_of_line};
use syntect::parsing::SyntaxSet;
use vstd::prelude::*;
use vstd::string::*;

verus! {

/// The characters of a text, each with the same style.
pub open spec fn styled_chars(text: Seq<char>, style: Style) -> Seq<(char, Style)> {
    text.map_values(|c: char| (c, style))
}

/// The characters of a line, each with its style.
pub open spec fn line_cells(line: Seq<SpanView>) -> Seq<(char, Style)>
    decreases line.len(),
{
    if line.len() == 0 {
        Seq::empty()
    } else {
        line_cells(line.drop_last()) + styled_chars(line.last().text, line.last().style)
    }
}

/// How many of the characters from `i` on are blanks, before the first other.
pub open spec fn blanks_from(row: Seq<(char, Style)>, i: int) -> nat
    decreases row.len() - i,
{
    if 0 <= i < row.len() && row[i].0 == ' ' {
        1 + blanks_from(row, i + 1)
    } else {
        0
    }
}

/// Where the wrapping of a line stands: the finished rows, the spans of the
/// current row, and the run that is being filled with its style.
#[verifier::ext_equal]
pub struct WrapState {
    pub rows: Seq<Seq<SpanView>>,
    pub cur: Seq<SpanView>,
    pub run: Seq<char>,
    pub style: Option<Style>,
    pub used: nat,
    pub first: bool,
}

impl WrapState {
    pub open spec fn initial() -> WrapState {
        WrapState {
            rows: Seq::empty(),
            cur: Seq::empty(),
            run: Seq::empty(),
            style: None,
            used: 0,
            first: true,
        }
    }

    /// The run becomes a span of the current row.
    pub open spec fn flush_run(self) -> WrapState {
        if self.run.len() == 0 {
            self
        } else {
            WrapState {
                cur: self.cur.push(
                    span(
                        self.run,
                        match self.style {
                            Some(s) => s,
                            None => Style::plain(),
                        },
                    ),
                ),
                run: Seq::empty(),
                ..self
            }
        }
    }

    /// The next row starts, with the indent of the first.
    pub open spec fn next_row(self, indent: nat) -> WrapState {
        let f = self.flush_run();
        let again = !self.first || indent > 0;
        WrapState {
            rows: f.rows.push(f.cur),
            cur: if again {
                seq![span(repeated(' ', indent), Style::plain())]
            } else {
                Seq::empty()
            },
            run: Seq::empty(),
            style: None,
            used: if again {
                indent
            } else {
                0
            },
            first: false,
        }
    }

    /// One more character; a row that has no room for it ends.
    pub open spec fn step(self, cell: (char, Style), width: nat, indent: nat) -> WrapState {
        let placed = if self.used + cells(cell.0) > width {
            self.next_row(indent)
        } else {
            self
        };
        let restyled = if placed.style != Some(cell.1) {
            WrapState { style: Some(cell.1), ..placed.flush_run() }
        } else {
            placed
        };
        WrapState {
            run: restyled.run.push(cell.0),
            used: restyled.used + cells(cell.0),
            ..restyled
        }
    }

    /// The first `k` characters.
    pub open spec fn after(
        self,
        row: Seq<(char, Style)>,
        k: nat,
        width: nat,
        indent: nat,
    ) -> WrapState
        decreases k,
    {
        if k == 0 {
            self
        } else {
            self.after(row, (k - 1) as nat, width, indent).step(row[k - 1], width, indent)
        }
    }

    /// All rows, the current one too if there is anything on it.
    pub open spec fn finish(self) -> Seq<Seq<SpanView>> {
        let f = self.flush_run();
        if f.cur.len() > 0 {
            f.rows.push(f.cur)
        } else {
            f.rows
        }
    }
}

/// The rows of a line that is too wide.
pub open spec fn wrapped_rows(line: Seq<SpanView>, width: nat) -> Seq<Seq<SpanView>> {
    let row = line_cells(line);
    WrapState::initial().after(row, row.len(), width, blanks_from(row, 0)).finish()
}

/// The rows of a line: itself where it fits.
pub open spec fn line_rows(line: Seq<SpanView>, width: nat) -> Seq<Seq<SpanView>> {
    if line_width(line) <= width {
        seq![line]
    } else {
        wrapped_rows(line, width)
    }
}

/// The rows of the first `k` lines.
pub open spec fn rows_of(lines: Seq<Seq<SpanView>>, k: nat, width: nat) -> Seq<Seq<SpanView>>
    decreases k,
{
    if k == 0 {
        Seq::empty()
    } else {
        rows_of(lines, (k - 1) as nat, width) + line_rows(lines[k - 1], width)
    }
}

/// The lines wrapped to `width` columns; unwrapped where that is 0.
pub open spec fn wrapped(lines: Seq<Seq<SpanView>>, width: nat) -> Seq<Seq<SpanView>> {
    if width == 0 {
        lines
    } else {
        rows_of(lines, lines.len(), width)
    }
}

/// The columns of the characters of a text.
pub open spec fn columns(text: Seq<char>) -> nat
    decreases text.len(),
{
    if text.len() == 0 {
        0
    } else {
        columns(text.drop_last()) + cells(text.last())
    }
}

/// The columns of the characters of a row.
pub open spec fn row_columns(row: Seq<SpanView>) -> nat
    decreases row.len(),
{
    if row.len() == 0 {
        0
    } else {
        row_columns(row.drop_last()) + columns(row.last().text)
    }
}

pub proof fn lemma_columns_push(text: Seq<char>, c: char)
    ensures
        columns(text.push(c)) == columns(text) + cells(c),
{
    assert(text.push(c).drop_last() =~= text);
}

pub proof fn lemma_row_columns_push(row: Seq<SpanView>, s: SpanView)
    ensures
        row_columns(row.push(s)) == row_columns(row) + columns(s.text),
{
    assert(row.push(s).drop_last() =~= row);
}

pub proof fn lemma_blank_columns(n: nat)
    requires
        cells(' ') == 1,
    ensures
        columns(repeated(' ', n)) == n,
    decreases n,
{
    if n > 0 {
        lemma_blank_columns((n - 1) as nat);
        assert(repeated(' ', n).drop_last() =~= repeated(' ', (n - 1) as nat));
    }
}

impl WrapState {
    /// Every row so far fits, and `used` counts the current one.
    pub open spec fn fits(self, width: nat) -> bool {
        &&& self.used == row_columns(self.cur) + columns(self.run)
        &&& self.used <= width
        &&& forall|k: int| 0 <= k < self.rows.len() ==> row_columns(#[trigger] self.rows[k]) <= width
    }
}

proof fn lemma_flush_fits(st: WrapState, width: nat)
    requires
        st.fits(width),
    ensures
        st.flush_run().fits(width),
        row_columns(st.flush_run().cur) <= width,
        st.flush_run().run.len() == 0,
{
    let s = match st.style {
        Some(s) => s,
        None => Style::plain(),
    };
    lemma_row_columns_push(st.cur, span(st.run, s));
    assert(columns(Seq::<char>::empty()) == 0);
}

proof fn lemma_step_fits(st: WrapState, cell: (char, Style), width: nat, indent: nat)
    requires
        st.fits(width),
        cells(' ') == 1,
        indent + cells(cell.0) <= width,
    ensures
        st.step(cell, width, indent).fits(width),
{
    let placed = if st.used + cells(cell.0) > width {
        lemma_flush_fits(st, width);
        lemma_blank_columns(indent);
        let next = st.next_row(indent);
        let blanks = span(repeated(' ', indent), Style::plain());
        lemma_row_columns_push(Seq::<SpanView>::empty(), blanks);
        assert(Seq::<SpanView>::empty().push(blanks) =~= seq![blanks]);
        assert(next.fits(width));
        next
    } else {
        st
    };
    lemma_flush_fits(placed, width);
    let restyled = if placed.style != Some(cell.1) {
        WrapState { style: Some(cell.1), ..placed.flush_run() }
    } else {
        placed
    };
    assert(restyled.fits(width));
    lemma_columns_push(restyled.run, cell.0);
}

/// The characters of a line as a list, each with its style.
fn flatten(line: &Line) -> (out: Vec<(char, Style)>)
    ensures
        out@ == line_cells(line@),
{
    let ghost all = line@;
    let mut out: Vec<(char, Style)> = Vec::new();
    let mut i: usize = 0;
    assert(all.take(0) =~= Seq::<SpanView>::empty());
    while i < line.spans.len()
        invariant
            i <= line.spans@.len(),
            all == line@,
            out@ == line_cells(all.take(i as int)),
        decreases line.spans@.len() - i,
    {
        let s = &line.spans[i];
        let style = s.style;
        let cs = chars_of(s.text.as_str());
        let ghost before = out@;
        assert(all.take(i + 1).drop_last() =~= all.take(i as int));
        assert(all.take(i + 1).last() == s@);
        let mut k: usize = 0;
        assert(before + styled_chars(cs@.take(0), style) =~= before);
        while k < cs.len()
            invariant
                k <= cs@.len(),
                out@ == before + styled_chars(cs@.take(k as int), style),
            decreases cs@.len() - k,
        {
            out.push((cs[k], style));
            assert(out@ =~= before + styled_chars(cs@.take(k + 1), style));
            k += 1;
        }
        assert(cs@.take(cs@.len() as int) =~= cs@);
        i += 1;
    }
    assert(all.take(all.len() as int) =~= all);
    out
}

fn count_blanks(row: &Vec<(char, Style)>) -> (n: usize)
    ensures
        n == blanks_from(row@, 0),
{
    let mut n: usize = 0;
    while n < row.len() && row[n].0 == ' '
        invariant
            n <= row@.len(),
            blanks_from(row@, 0) == n + blanks_from(row@, n as int),
        decreases row@.len() - n,
    {
        n += 1;
    }
    n
}

/// A line that is being wrapped.
struct Wrapper {
    rows: Vec<Line>,
    cur: Vec<Span>,
    run: String,
    style: Option<Style>,
    used: u128,
    first: bool,
}

impl View for Wrapper {
    type V = WrapState;

    closed spec fn view(&self) -> WrapState {
        WrapState {
            rows: lines_view(self.rows@),
            cur: spans_view(self.cur@),
            run: self.run@,
            style: self.style,
            used: self.used as nat,
            first: self.first,
        }
    }
}

impl Wrapper {
    fn new() -> (w: Wrapper)
        ensures
            w@ == WrapState::initial(),
    {
        let w = Wrapper {
            rows: Vec::new(),
            cur: Vec::new(),
            run: String::new(),
            style: None,
            used: 0,
            first: true,
        };
        assert(w@ =~= WrapState::initial());
        w
    }

    fn flush_run(&mut self)
        ensures
            final(self)@ == old(self)@.flush_run(),
    {
        broadcast use lemma_spans_push;

        if self.run.as_str().is_empty() {
            return;
        }
        let mut run = String::new();
        std::mem::swap(&mut run, &mut self.run);
        let style = match self.style {
            Some(s) => s,
            None => Style::plain(),
        };
        self.cur.push(Span::styled(run, style));
        assert(self@ =~= old(self)@.flush_run());
    }

    fn next_row(&mut self, indent: usize)
        ensures
            final(self)@ == old(self)@.next_row(indent as nat),
    {
        broadcast use {lemma_spans_push, lemma_lines_push};

        let again = !self.first || indent > 0;
        self.flush_run();
        let mut cur: Vec<Span> = Vec::new();
        std::mem::swap(&mut cur, &mut self.cur);
        self.rows.push(Line::from_spans(cur));
        assert(spans_view(self.cur@) =~= Seq::<SpanView>::empty());
        if again {
            self.cur.push(Span::raw(repeat_char(' ', indent as u128)));
            self.used = indent as u128;
        } else {
            self.used = 0;
        }
        self.run = String::new();
        self.style = None;
        self.first = false;
        assert(self@ =~= old(self)@.next_row(indent as nat));
    }

    fn step(&mut self, c: char, style: Style, width: usize, indent: usize)
        requires
            old(self)@.used <= u128::MAX - 3,
        ensures
            final(self)@ == old(self)@.step((c, style), width as nat, indent as nat),
    {
        let w = char_cells(c) as u128;
        if self.used + w > width as u128 {
            self.next_row(indent);
        }
        if self.style != Some(style) {
            self.flush_run();
            self.style = Some(style);
        }
        self.run.push(c);
        self.used = self.used + w;
        assert(self@ =~= old(self)@.step((c, style), width as nat, indent as nat));
    }
}

/// Whether each character of a line fits behind the indent of the line.
pub open spec fn has_room(line: Seq<SpanView>, width: nat) -> bool {
    forall|i: int|
        0 <= i < line_cells(line).len() ==> blanks_from(line_cells(line), 0) + cells(
            (#[trigger] line_cells(line)[i]).0,
        ) <= width
}

/// The rows of a line that is too wide for `width` columns. The rows fit,
/// where there is room for the indent and any one character of the line.
pub fn wrap_line(line: &Line, width: usize) -> (rows: Vec<Line>)
    ensures
        lines_view(rows@) == wrapped_rows(line@, width as nat),
        has_room(line@, width as nat) ==> forall|k: int|
            0 <= k < rows@.len() ==> row_columns((#[trigger] rows@[k])@) <= width,
{
    broadcast use lemma_lines_push;

    let row = flatten(line);
    let indent = count_blanks(&row);
    let _ = char_cells(' ');
    let mut st = Wrapper::new();
    let mut i: usize = 0;
    let ghost init = WrapState::initial();
    let ghost roomy = has_room(line@, width as nat);
    assert(init.fits(width as nat)) by {
        assert(row_columns(init.cur) == 0);
        assert(columns(init.run) == 0);
    }
    while i < row.len()
        invariant
            i <= row@.len(),
            cells(' ') == 1,
            init == WrapState::initial(),
            st@ == init.after(row@, i as nat, width as nat, indent as nat),
            st@.used <= 0xffff_ffff_ffff_ffff + 3 * i,
            row@ == line_cells(line@),
            indent == blanks_from(row@, 0),
            roomy == has_room(line@, width as nat),
            roomy ==> st@.fits(width as nat),
        decreases row@.len() - i,
    {
        let (c, style) = row[i];
        let w = char_cells(c);
        proof {
            if roomy {
                assert(row@[i as int] == line_cells(line@)[i as int]);
                lemma_step_fits(st@, (c, style), width as nat, indent as nat);
            }
        }
        st.step(c, style, width, indent);
        i += 1;
    }
    proof {
        if roomy {
            lemma_flush_fits(st@, width as nat);
        }
    }
    st.flush_run();
    let ghost ended = st@;
    assert(spans_view(st.cur@).len() == st.cur@.len());
    let mut rows = st.rows;
    if st.cur.len() > 0 {
        rows.push(Line::from_spans(st.cur));
    }
    assert(lines_view(rows@) == wrapped_rows(line@, width as nat));
    assert forall|k: int| roomy && 0 <= k < rows@.len() implies row_columns(
        (#[trigger] rows@[k])@,
    ) <= width by {
        assert(lines_view(rows@)[k] == rows@[k]@);
        if k < ended.rows.len() {
            assert(ended.rows[k] == rows@[k]@);
        }
    }
    rows
}

/// Wraps lines to `width` columns; wide characters are never split, and the
/// rows of a line keep its indent.
pub fn wrap_lines(lines: Vec<Line>, width: usize) -> (out: Vec<Line>)
    ensures
        lines_view(out@) == wrapped(lines_view(lines@), width as nat),
{
    if width == 0 {
        return lines;
    }
    let ghost all = lines_view(lines@);
    let mut out: Vec<Line> = Vec::new();
    assert(lines_view(out@) =~= rows_of(all, 0, width as nat));
    for line in it: lines
        invariant
            width > 0,
            all == lines_view(it.seq()),
            lines_view(out@) == rows_of(all, it.index() as nat, width as nat),
    {
        assert(all[it.index() as int] == line@);
        let ghost before = out@;
        if width_of_line(&line) <= width as u128 {
            out.push(line);
            assert(lines_view(out@) =~= lines_view(before) + seq![line@]);
        } else {
            let mut rows = wrap_line(&line, width);
            let ghost added = rows@;
            out.append(&mut rows);
            assert(lines_view(out@) =~= lines_view(before) + lines_view(added));
        }
    }
    out
}

/// The rendered preview of a Markdown text: wrapped to `width` columns, or
/// unwrapped where that is too narrow.
pub open spec fn preview_lines(
    text: Seq<char>,
    theme: Theme,
    width: nat,
    set: SyntaxSet,
) -> Seq<Seq<SpanView>> {
    let events = cmark_events(text, preview_options());
    if width < 20 {
        document_lines(events, theme, 20, set)
    } else {
        wrapped(document_lines(events, theme, width, set), width)
    }
}

/// Rendered Markdown preview lines, wrapped to `width`. Falls back to unwrapped
/// lines when the width is degenerate.
pub fn render_markdown(hl: &mut Highlighter, text: &str, theme: Theme, width: usize) -> (lines: Vec<
    Line,
>)
    requires
        old(hl).wf(),
    ensures
        final(hl).wf(),
        final(hl).grammars() == old(hl).grammars(),
        lines_view(lines@) == preview_lines(text@, theme, width as nat, old(hl).grammars()),
{
    if width < 20 {
        return parse_markdown(hl, text, theme, 20);
    }
    let lines = parse_markdown(hl, text, theme, width);
    wrap_lines(lines, width)
}

/// The characters of a text that are not blanks.
pub open spec fn solid(text: Seq<char>) -> Seq<char>
    decreases text.len(),
{
    if text.len() == 0 {
        Seq::empty()
    } else if text.last() == ' ' {
        solid(text.drop_last())
    } else {
        solid(text.drop_last()).push(text.last())
    }
}

/// The text of a row, span after span.
pub open spec fn row_text(row: Seq<SpanView>) -> Seq<char>
    decreases row.len(),
{
    if row.len() == 0 {
        Seq::empty()
    } else {
        row_text(row.drop_last()) + row.last().text
    }
}

/// The text of rows, row after row.
pub open spec fn rows_text(rows: Seq<Seq<SpanView>>) -> Seq<char>
    decreases rows.len(),
{
    if rows.len() == 0 {
        Seq::empty()
    } else {
        rows_text(rows.drop_last()) + row_text(rows.last())
    }
}

pub proof fn lemma_solid_concat(a: Seq<char>, b: Seq<char>)
    ensures
        solid(a + b) == solid(a) + solid(b),
    decreases b.len(),
{
    if b.len() == 0 {
        assert(a + b =~= a);
        assert(solid(a) + solid(b) =~= solid(a));
    } else {
        assert((a + b).drop_last() =~= a + b.drop_last());
        lemma_solid_concat(a, b.drop_last());
        assert(solid(a + b) =~= solid(a) + solid(b));
    }
}

pub proof fn lemma_solid_blanks(n: nat)
    ensures
        solid(repeated(' ', n)) == Seq::<char>::empty(),
    decreases n,
{
    if n > 0 {
        lemma_solid_blanks((n - 1) as nat);
        assert(repeated(' ', n).drop_last() =~= repeated(' ', (n - 1) as nat));
    }
}

proof fn lemma_line_cells_text(line: Seq<SpanView>)
    ensures
        line_cells(line).map_values(|c: (char, Style)| c.0) == row_text(line),
    decreases line.len(),
{
    if line.len() == 0 {
        assert(line_cells(line).map_values(|c: (char, Style)| c.0) =~= row_text(line));
    } else {
        lemma_line_cells_text(line.drop_last());
        assert(line_cells(line).map_values(|c: (char, Style)| c.0) =~= line_cells(
            line.drop_last(),
        ).map_values(|c: (char, Style)| c.0) + line.last().text);
    }
}

impl WrapState {
    /// The characters that are not blanks so far.
    spec fn solid_so_far(self) -> Seq<char> {
        solid(rows_text(self.rows)) + solid(row_text(self.cur)) + solid(self.run)
    }
}

proof fn lemma_flush_solid(st: WrapState)
    ensures
        st.flush_run().solid_so_far() == st.solid_so_far(),
        st.flush_run().run.len() == 0,
{
    if st.run.len() > 0 {
        let f = st.flush_run();
        assert(f.cur.drop_last() =~= st.cur);
        lemma_solid_concat(row_text(st.cur), st.run);
        assert(f.solid_so_far() =~= st.solid_so_far());
    }
}

proof fn lemma_step_solid(st: WrapState, cell: (char, Style), width: nat, indent: nat)
    ensures
        st.step(cell, width, indent).solid_so_far() == st.solid_so_far() + solid(seq![cell.0]),
{
    let placed = if st.used + cells(cell.0) > width {
        lemma_flush_solid(st);
        let f = st.flush_run();
        let next = st.next_row(indent);
        assert(next.rows.drop_last() =~= f.rows);
        lemma_solid_concat(rows_text(f.rows), row_text(f.cur));
        lemma_solid_blanks(indent);
        let blanks = span(repeated(' ', indent), Style::plain());
        assert(seq![blanks].drop_last() =~= Seq::<SpanView>::empty());
        assert(row_text(Seq::<SpanView>::empty()) =~= Seq::<char>::empty());
        assert(seq![blanks].last() == blanks);
        assert(row_text(seq![blanks]) =~= repeated(' ', indent));
        assert(solid(row_text(next.cur)) =~= Seq::<char>::empty());
        assert(next.solid_so_far() =~= st.solid_so_far());
        next
    } else {
        st
    };
    lemma_flush_solid(placed);
    let restyled = if placed.style != Some(cell.1) {
        WrapState { style: Some(cell.1), ..placed.flush_run() }
    } else {
        placed
    };
    assert(restyled.solid_so_far() =~= st.solid_so_far());
    lemma_solid_concat(restyled.run, seq![cell.0]);
    assert(restyled.run.push(cell.0) =~= restyled.run + seq![cell.0]);
    assert(st.step(cell, width, indent).solid_so_far() =~= st.solid_so_far() + solid(
        seq![cell.0],
    ));
}

proof fn lemma_after_solid(row: Seq<(char, Style)>, k: nat, width: nat, indent: nat)
    requires
        k <= row.len(),
    ensures
        WrapState::initial().after(row, k, width, indent).solid_so_far() == solid(
            row.take(k as int).map_values(|c: (char, Style)| c.0),
        ),
    decreases k,
{
    let chars = row.take(k as int).map_values(|c: (char, Style)| c.0);
    if k == 0 {
        let init = WrapState::initial();
        assert(init.solid_so_far() =~= Seq::<char>::empty());
        assert(chars =~= Seq::<char>::empty());
    } else {
        let prev = (k - 1) as nat;
        lemma_after_solid(row, prev, width, indent);
        let st = WrapState::initial().after(row, prev, width, indent);
        lemma_step_solid(st, row[k - 1], width, indent);
        let before = row.take(prev as int).map_values(|c: (char, Style)| c.0);
        assert(chars =~= before + seq![row[k - 1].0]);
        lemma_solid_concat(before, seq![row[k - 1].0]);
    }
}

/// Wrapping loses no words: but for blanks, the rows of a line read as the
/// line does.
pub proof fn law_wrap_keeps_words(line: Seq<SpanView>, width: nat)
    ensures
        solid(rows_text(wrapped_rows(line, width))) == solid(row_text(line)),
{
    let row = line_cells(line);
    let indent = blanks_from(row, 0);
    let st = WrapState::initial().after(row, row.len(), width, indent);
    lemma_after_solid(row, row.len(), width, indent);
    lemma_line_cells_text(line);
    assert(row.take(row.len() as int) =~= row);
    lemma_flush_solid(st);
    let f = st.flush_run();
    assert(solid(f.run) =~= Seq::<char>::empty());
    if f.cur.len() > 0 {
        assert(st.finish().drop_last() =~= f.rows);
        lemma_solid_concat(rows_text(f.rows), row_text(f.cur));
        assert(f.solid_so_far() =~= solid(rows_text(st.finish())));
    } else {
        assert(f.solid_so_far() =~= solid(rows_text(st.finish())));
    }
}

/// Whether a row starts with that many blanks.
pub open spec fn is_indented(row: Seq<SpanView>, indent: nat) -> bool {
    row.len() > 0 && row[0].text == repeated(' ', indent)
}

proof fn lemma_after_indented(row: Seq<(char, Style)>, k: nat, width: nat, indent: nat)
    requires
        k <= row.len(),
        indent > 0,
    ensures
        ({
            let st = WrapState::initial().after(row, k, width, indent);
            &&& forall|i: int| 0 < i < st.rows.len() ==> is_indented(#[trigger] st.rows[i], indent)
            &&& st.rows.len() > 0 ==> is_indented(st.cur, indent)
        }),
    decreases k,
{
    if k > 0 {
        lemma_after_indented(row, (k - 1) as nat, width, indent);
        let st = WrapState::initial().after(row, (k - 1) as nat, width, indent);
        let after = WrapState::initial().after(row, k, width, indent);
        assert(after == st.step(row[k - 1], width, indent));
        assert forall|i: int| 0 < i < after.rows.len() implies is_indented(
            #[trigger] after.rows[i],
            indent,
        ) by {
            if i < st.rows.len() {
                assert(after.rows[i] == st.rows[i]);
            }
        }
    }
}

/// A line that is wrapped keeps its indent: every row of it but the first starts
/// with as many blanks as the line does.
pub proof fn law_wrapped_rows_keep_the_indent(line: Seq<SpanView>, width: nat, i: int)
    requires
        blanks_from(line_cells(line), 0) > 0,
        0 < i < wrapped_rows(line, width).len(),
    ensures
        is_indented(wrapped_rows(line, width)[i], blanks_from(line_cells(line), 0)),
{
    let row = line_cells(line);
    let indent = blanks_from(row, 0);
    lemma_after_indented(row, row.len(), width, indent);
    let st = WrapState::initial().after(row, row.len(), width, indent);
    if i < st.rows.len() {
        assert(wrapped_rows(line, width)[i] == st.rows[i]);
        assert(is_indented(st.rows[i], indent));
    }
}

/// A row is left only when it is full: the character that starts the next one
/// has no room in it. A line that fits is not wrapped at all.
pub proof fn law_rows_are_left_when_full(
    st: WrapState,
    cell: (char, Style),
    width: nat,
    indent: nat,
    line: Seq<SpanView>,
)
    requires
        st.fits(width),
    ensures
        st.step(cell, width, indent).rows.len() > st.rows.len() <==> row_columns(st.cur) + columns(
            st.run,
        ) + cells(cell.0) > width,
        line_width(line) <= width ==> line_rows(line, width) == seq![line],
{
}

} // verus!
