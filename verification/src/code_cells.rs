//! Code lines as styled cells: syntax colors on the diff wash, tabs expanded,
//! overlong lines wrapped onto one continuation row.

use crate::diff_rows::{digits, Side, SideKind, SideView};
use crate::markdown_table::span;
use crate::markdown_wrap::{
    columns, lemma_blank_columns, lemma_columns_push, lemma_row_columns_push, row_columns,
};
use crate::style::{lemma_spans_push, spans_view, Color, Modifier, Span, SpanView, Style};
use crate::syntax::{line_tokens, Highlighter};
use crate::text::{chars_of, decimal, number_text, opt_text, repeat_char, repeated, text_of};
use crate::theme::Theme;
use crate::toml_highlight::{tokens_view, HiToken, TokenView};
use crate::width::{cells, char_cells};
use crate::words::{segs_text, segs_view, SegView, WordSeg};
use syntect::parsing::SyntaxSet;
use vstd::prelude::*;
use vstd::string::*;

verus! {

/// What the code of a file is shown with: its path, the grammar found for the
/// file, the gutter width and the palette.
pub struct CodeStyle {
    pub path: String,
    pub by_file: Option<String>,
    pub gutter_w: usize,
    pub theme: Theme,
}

/// What a [`CodeStyle`] holds, with the grammars in use.
#[verifier::ext_equal]
pub struct CodeView {
    pub path: Seq<char>,
    pub by_file: Option<Seq<char>>,
    pub gutter_w: nat,
    pub theme: Theme,
    pub set: SyntaxSet,
}

impl CodeStyle {
    pub open spec fn with(&self, set: SyntaxSet) -> CodeView {
        CodeView {
            path: self.path@,
            by_file: opt_text(self.by_file),
            gutter_w: self.gutter_w as nat,
            theme: self.theme,
            set,
        }
    }
}

/// Tabs go to the next multiple of this many columns.
pub const TAB_STOP: usize = 8;

/// The color and attributes of each char of highlighted tokens.
pub open spec fn token_styles(tokens: Seq<TokenView>) -> Seq<(Color, Modifier)>
    decreases tokens.len(),
{
    if tokens.len() == 0 {
        Seq::empty()
    } else {
        let t = tokens.last();
        token_styles(tokens.drop_last()) + Seq::new(t.text.len(), |i: int| (t.fg, t.modifier))
    }
}

/// For each char of word segments whether it changed.
pub open spec fn changed_flags(segs: Seq<SegView>) -> Seq<bool>
    decreases segs.len(),
{
    if segs.len() == 0 {
        Seq::empty()
    } else {
        let s = segs.last();
        changed_flags(segs.drop_last()) + Seq::new(s.text.len(), |i: int| s.changed)
    }
}

/// Flattens highlighted tokens to the color and attributes of each char.
pub fn expand_tokens(tokens: &Vec<HiToken>) -> (out: Vec<(Color, Modifier)>)
    ensures
        out@ == token_styles(tokens_view(tokens@)),
{
    let ghost ts = tokens_view(tokens@);
    let mut out: Vec<(Color, Modifier)> = Vec::new();
    let mut i: usize = 0;
    assert(ts.take(0) =~= Seq::<TokenView>::empty());
    while i < tokens.len()
        invariant
            i <= tokens@.len(),
            ts == tokens_view(tokens@),
            out@ == token_styles(ts.take(i as int)),
        decreases tokens@.len() - i,
    {
        let t = &tokens[i];
        let n = t.text.as_str().unicode_len();
        let ghost before = out@;
        assert(ts.take(i + 1).drop_last() =~= ts.take(i as int));
        assert(ts.take(i + 1).last() == t@);
        let mut k: usize = 0;
        while k < n
            invariant
                k <= n,
                out@ == before + Seq::new(k as nat, |i: int| (t.fg, t.modifier)),
            decreases n - k,
        {
            out.push((t.fg, t.modifier));
            k += 1;
            assert(out@ =~= before + Seq::new(k as nat, |i: int| (t.fg, t.modifier)));
        }
        i += 1;
    }
    assert(ts.take(ts.len() as int) =~= ts);
    out
}

/// For each char of word segments whether it changed.
pub fn expand_changed(segs: &Vec<WordSeg>) -> (out: Vec<bool>)
    ensures
        out@ == changed_flags(segs_view(segs@)),
{
    let ghost ss = segs_view(segs@);
    let mut out: Vec<bool> = Vec::new();
    let mut i: usize = 0;
    assert(ss.take(0) =~= Seq::<SegView>::empty());
    while i < segs.len()
        invariant
            i <= segs@.len(),
            ss == segs_view(segs@),
            out@ == changed_flags(ss.take(i as int)),
        decreases segs@.len() - i,
    {
        let s = &segs[i];
        let n = s.text.as_str().unicode_len();
        let ghost before = out@;
        assert(ss.take(i + 1).drop_last() =~= ss.take(i as int));
        assert(ss.take(i + 1).last() == s@);
        let mut k: usize = 0;
        while k < n
            invariant
                k <= n,
                out@ == before + Seq::new(k as nat, |i: int| s.changed),
            decreases n - k,
        {
            out.push(s.changed);
            k += 1;
            assert(out@ =~= before + Seq::new(k as nat, |i: int| s.changed));
        }
        i += 1;
    }
    assert(ss.take(ss.len() as int) =~= ss);
    out
}

fn join_segs(segs: &Vec<WordSeg>) -> (out: String)
    ensures
        out@ == segs_text(segs_view(segs@)),
{
    let ghost ss = segs_view(segs@);
    let mut out = String::new();
    let mut i: usize = 0;
    assert(ss.take(0) =~= Seq::<SegView>::empty());
    while i < segs.len()
        invariant
            i <= segs@.len(),
            ss == segs_view(segs@),
            out@ == segs_text(ss.take(i as int)),
        decreases segs@.len() - i,
    {
        assert(ss.take(i + 1).drop_last() =~= ss.take(i as int));
        assert(ss.take(i + 1).last() == segs@[i as int]@);
        out.append(segs[i].text.as_str());
        i += 1;
    }
    assert(ss.take(ss.len() as int) =~= ss);
    out
}

/// The background of a side.
#[verifier::allow_in_spec]
pub fn wash(kind: SideKind, theme: Theme) -> Color
    returns
        (match kind {
            SideKind::Del => theme.diff_del_bg,
            SideKind::Add => theme.diff_add_bg,
            _ => theme.bg,
        }),
{
    match kind {
        SideKind::Del => theme.diff_del_bg,
        SideKind::Add => theme.diff_add_bg,
        _ => theme.bg,
    }
}

/// The style of a char: its syntax color on the wash. Changed chars of a
/// deleted line get the stronger wash; washed code is bold.
#[verifier::allow_in_spec]
pub fn cell_style(
    fg: Color,
    modifier: Modifier,
    changed: bool,
    kind: SideKind,
    theme: Theme,
) -> Style
    returns
        Style::plain().fg(fg).add_modifier(modifier).bg(
            if changed && kind == SideKind::Del {
                theme.diff_del_word_bg
            } else {
                wash(kind, theme)
            },
        ).add_modifier(
            if kind == SideKind::Del || kind == SideKind::Add {
                Modifier::bold()
            } else {
                Modifier::empty()
            },
        ),
{
    let bg = if changed && kind == SideKind::Del {
        theme.diff_del_word_bg
    } else {
        wash(kind, theme)
    };
    let bold = if kind == SideKind::Del || kind == SideKind::Add {
        Modifier::bold()
    } else {
        Modifier::empty()
    };
    Style::plain().fg(fg).add_modifier(modifier).bg(bg).add_modifier(bold)
}

/// The cells of chars `k..n` of a line, the first of them at column `col`:
/// carriage returns dropped, tabs turned into blanks up to the next stop.
pub open spec fn expanded(
    text: Seq<char>,
    styles: Seq<(Color, Modifier)>,
    flags: Seq<bool>,
    k: int,
    n: int,
    col: nat,
    kind: SideKind,
    theme: Theme,
) -> Seq<(char, Style)>
    decreases n - k,
{
    if k >= n {
        Seq::empty()
    } else {
        let style = cell_style(styles[k].0, styles[k].1, flags[k], kind, theme);
        if text[k] == '\r' {
            expanded(text, styles, flags, k + 1, n, col, kind, theme)
        } else if text[k] == '\t' {
            let blanks = (TAB_STOP - col % TAB_STOP as nat) as nat;
            Seq::new(blanks, |i: int| (' ', style)) + expanded(
                text,
                styles,
                flags,
                k + 1,
                n,
                col + blanks,
                kind,
                theme,
            )
        } else {
            seq![(text[k], style)] + expanded(
                text,
                styles,
                flags,
                k + 1,
                n,
                col + cells(text[k]),
                kind,
                theme,
            )
        }
    }
}

/// The smaller of two lengths.
pub open spec fn shorter(a: nat, b: nat) -> int {
    if a <= b {
        a as int
    } else {
        b as int
    }
}

/// The styled chars of a side: none for a blank one.
pub open spec fn side_cells(side: SideView, code: CodeView) -> Seq<(char, Style)> {
    if side.kind == SideKind::Blank || side.segs.len() == 0 {
        Seq::empty()
    } else {
        let text = segs_text(side.segs);
        let styles = token_styles(
            line_tokens(code.set, code.path, code.by_file, text, code.theme),
        );
        let flags = changed_flags(side.segs);
        expanded(
            text,
            styles,
            flags,
            0,
            shorter(shorter(styles.len(), flags.len()) as nat, text.len()),
            code.gutter_w + 1,
            side.kind,
            code.theme,
        )
    }
}

/// Styled content cells of a side: tabs expanded, carriage returns dropped,
/// syntax foreground merged with the diff wash per char.
pub fn side_content_cells(hl: &mut Highlighter, side: &Side, code: &CodeStyle) -> (out: Vec<
    (char, Style),
>)
    requires
        old(hl).wf(),
    ensures
        final(hl).wf(),
        final(hl).grammars() == old(hl).grammars(),
        out@ == side_cells(side@, code.with(old(hl).grammars())),
{
    let mut out: Vec<(char, Style)> = Vec::new();
    assert(segs_view(side.segs@).len() == side.segs@.len());
    if side.kind == SideKind::Blank || side.segs.len() == 0 {
        return out;
    }
    let kind = side.kind;
    let theme = code.theme;
    let text = join_segs(&side.segs);
    let tokens = hl.highlight_line(code.path.as_str(), &code.by_file, text.as_str(), theme);
    let styles = expand_tokens(&tokens);
    let flags = expand_changed(&side.segs);
    let cs = chars_of(text.as_str());
    let mut n: usize = if styles.len() <= flags.len() { styles.len() } else { flags.len() };
    if cs.len() < n {
        n = cs.len();
    }
    let ghost all = expanded(
        cs@,
        styles@,
        flags@,
        0,
        n as int,
        (code.gutter_w + 1) as nat,
        kind,
        theme,
    );
    let mut col: u128 = code.gutter_w as u128 + 1;
    let mut k: usize = 0;
    assert(out@ + all =~= all);
    while k < n
        invariant
            k <= n,
            n <= cs@.len(),
            n <= styles@.len(),
            n <= flags@.len(),
            col <= 0xffff_ffff_ffff_ffff + 1 + 8 * k,
            out@ + expanded(cs@, styles@, flags@, k as int, n as int, col as nat, kind, theme)
                == all,
        decreases n - k,
    {
        let c = cs[k];
        let style = cell_style(styles[k].0, styles[k].1, flags[k], kind, theme);
        let ghost before = out@;
        if c == '\r' {
            k += 1;
        } else if c == '\t' {
            let blanks: u128 = 8 - col % 8;
            let ghost rest = expanded(
                cs@,
                styles@,
                flags@,
                k + 1,
                n as int,
                (col + blanks) as nat,
                kind,
                theme,
            );
            let mut j: u128 = 0;
            while j < blanks
                invariant
                    j <= blanks,
                    out@ == before + Seq::new(j as nat, |i: int| (' ', style)),
                decreases blanks - j,
            {
                out.push((' ', style));
                j += 1;
                assert(out@ =~= before + Seq::new(j as nat, |i: int| (' ', style)));
            }
            assert(out@ + rest =~= before + (Seq::new(blanks as nat, |i: int| (' ', style))
                + rest));
            col = col + blanks;
            k += 1;
        } else {
            let w = char_cells(c) as u128;
            let ghost rest = expanded(
                cs@,
                styles@,
                flags@,
                k + 1,
                n as int,
                (col + w) as nat,
                kind,
                theme,
            );
            out.push((c, style));
            assert(out@ + rest =~= before + (seq![(c, style)] + rest));
            col = col + w;
            k += 1;
        }
    }
    assert(out@ =~= all);
    out
}

/// How far cells can be taken from `i` on, with `used` columns taken, until
/// the next does not fit into `w` columns.
pub open spec fn fill(row: Seq<(char, Style)>, i: int, used: nat, w: nat) -> int
    decreases row.len() - i,
{
    if i < 0 || i >= row.len() {
        row.len() as int
    } else if used + cells(row[i].0) > w {
        i
    } else {
        fill(row, i + 1, used + cells(row[i].0), w)
    }
}

pub proof fn lemma_fill(row: Seq<(char, Style)>, i: int, used: nat, w: nat)
    requires
        0 <= i <= row.len(),
    ensures
        i <= fill(row, i, used, w) <= row.len(),
    decreases row.len() - i,
{
    if i < row.len() && used + cells(row[i].0) <= w {
        lemma_fill(row, i + 1, used + cells(row[i].0), w);
    }
}

/// The cells of a line as one or two rows of at most `w` columns, and whether
/// there was more. A char that is wider than a row has no place.
pub open spec fn wrapped_cells(
    row: Seq<(char, Style)>,
    w: nat,
) -> (Seq<Seq<(char, Style)>>, bool) {
    let e1 = fill(row, 0, 0, w);
    if e1 >= row.len() {
        (seq![row], false)
    } else if cells(row[e1].0) > w {
        (seq![row.take(e1)], true)
    } else {
        let e2 = fill(row, e1, 0, w);
        (seq![row.take(e1), row.subrange(e1, e2)], e2 < row.len())
    }
}

fn find_fill(row: &Vec<(char, Style)>, from: usize, w: usize) -> (end: usize)
    requires
        from <= row@.len(),
    ensures
        end == fill(row@, from as int, 0, w as nat),
        from <= end <= row@.len(),
{
    let mut used: u128 = 0;
    let mut i: usize = from;
    let mut open = true;
    while i < row.len() && open
        invariant
            from <= i <= row@.len(),
            used <= 3 * (i - from),
            open ==> fill(row@, from as int, 0, w as nat) == fill(
                row@,
                i as int,
                used as nat,
                w as nat,
            ),
            !open ==> fill(row@, from as int, 0, w as nat) == i,
        decreases row@.len() - i + (if open { 1int } else { 0int }),
    {
        let c = char_cells(row[i].0) as u128;
        if used + c > w as u128 {
            open = false;
        } else {
            used = used + c;
            i += 1;
        }
    }
    i
}

fn slice_cells(row: &Vec<(char, Style)>, from: usize, to: usize) -> (out: Vec<(char, Style)>)
    requires
        from <= to <= row@.len(),
    ensures
        out@ == row@.subrange(from as int, to as int),
{
    let mut out: Vec<(char, Style)> = Vec::new();
    let mut i: usize = from;
    while i < to
        invariant
            from <= i <= to <= row@.len(),
            out@ == row@.subrange(from as int, i as int),
        decreases to - i,
    {
        out.push(row[i]);
        assert(out@ =~= row@.subrange(from as int, i + 1));
        i += 1;
    }
    out
}

/// What a list of rows of cells holds.
pub open spec fn chunks_view(chunks: Seq<Vec<(char, Style)>>) -> Seq<Seq<(char, Style)>> {
    chunks.map_values(|c: Vec<(char, Style)>| c@)
}

/// Splits cells into at most two rows of at most `w` columns (wide chars are
/// never split). Says whether there was more.
pub fn wrap_cells(row: &Vec<(char, Style)>, w: usize) -> (out: (Vec<Vec<(char, Style)>>, bool))
    ensures
        (chunks_view(out.0@), out.1) == wrapped_cells(row@, w as nat),
        1 <= out.0@.len() <= 2,
{
    let n = row.len();
    let mut chunks: Vec<Vec<(char, Style)>> = Vec::new();
    let e1 = find_fill(row, 0, w);
    if e1 >= n {
        chunks.push(slice_cells(row, 0, n));
        assert(row@.subrange(0, n as int) =~= row@);
        assert(chunks_view(chunks@) =~= seq![row@]);
        return (chunks, false);
    }
    chunks.push(slice_cells(row, 0, e1));
    assert(row@.subrange(0, e1 as int) =~= row@.take(e1 as int));
    if char_cells(row[e1].0) > w {
        assert(chunks_view(chunks@) =~= seq![row@.take(e1 as int)]);
        return (chunks, true);
    }
    let e2 = find_fill(row, e1, w);
    chunks.push(slice_cells(row, e1, e2));
    assert(chunks_view(chunks@) =~= seq![
        row@.take(e1 as int),
        row@.subrange(e1 as int, e2 as int),
    ]);
    (chunks, e2 < n)
}

/// The columns of cells.
pub open spec fn cell_columns(row: Seq<(char, Style)>) -> nat
    decreases row.len(),
{
    if row.len() == 0 {
        0
    } else {
        cell_columns(row.drop_last()) + cells(row.last().0)
    }
}

fn count_columns(row: &Vec<(char, Style)>) -> (n: u128)
    ensures
        n == cell_columns(row@),
        n <= 3 * row@.len(),
{
    let mut n: u128 = 0;
    let mut i: usize = 0;
    assert(row@.take(0) =~= Seq::<(char, Style)>::empty());
    while i < row.len()
        invariant
            i <= row@.len(),
            n == cell_columns(row@.take(i as int)),
            n <= 3 * i,
        decreases row@.len() - i,
    {
        assert(row@.take(i + 1).drop_last() =~= row@.take(i as int));
        n = n + char_cells(row[i].0) as u128;
        i += 1;
    }
    assert(row@.take(row@.len() as int) =~= row@);
    n
}

/// The longest start of a row that leaves room for one more column.
pub open spec fn with_room(row: Seq<(char, Style)>, w: nat) -> Seq<(char, Style)>
    decreases row.len(),
{
    if row.len() > 0 && cell_columns(row) + 1 > w {
        with_room(row.drop_last(), w)
    } else {
        row
    }
}

fn make_room(row: Vec<(char, Style)>, w: usize) -> (out: Vec<(char, Style)>)
    ensures
        out@ == with_room(row@, w as nat),
{
    let mut out = row;
    let ghost all = out@;
    let mut used = count_columns(&out);
    assert(out.len() == all.len());
    while out.len() > 0 && used + 1 > w as u128
        invariant
            with_room(all, w as nat) == with_room(out@, w as nat),
            used == cell_columns(out@),
            used <= 3 * all.len(),
            all.len() <= usize::MAX,
        decreases out@.len(),
    {
        let ghost before = out@;
        let last = out.pop();
        if let Some(cell) = last {
            assert(before.drop_last() =~= out@);
            used = used - char_cells(cell.0) as u128;
        }
    }
    out
}

/// Spans with one more char: a char in the style of the last span extends it.
pub open spec fn with_char(spans: Seq<SpanView>, c: char, style: Style) -> Seq<SpanView> {
    if spans.len() > 0 && spans.last().style == style {
        spans.drop_last().push(span(spans.last().text.push(c), style))
    } else {
        spans.push(span(seq![c], style))
    }
}

/// The cells of a row as spans: neighbours of one style together.
pub open spec fn grouped(row: Seq<(char, Style)>) -> Seq<SpanView>
    decreases row.len(),
{
    if row.len() == 0 {
        Seq::empty()
    } else {
        with_char(grouped(row.drop_last()), row.last().0, row.last().1)
    }
}

/// Groups consecutive chars of the same style into spans.
pub fn spans_for_chunk(row: &Vec<(char, Style)>) -> (out: Vec<Span>)
    ensures
        spans_view(out@) == grouped(row@),
{
    let mut out: Vec<Span> = Vec::new();
    let mut i: usize = 0;
    assert(row@.take(0) =~= Seq::<(char, Style)>::empty());
    assert(spans_view(out@) =~= Seq::<SpanView>::empty());
    while i < row.len()
        invariant
            i <= row@.len(),
            spans_view(out@) == grouped(row@.take(i as int)),
        decreases row@.len() - i,
    {
        let (c, style) = row[i];
        let ghost before = spans_view(out@);
        assert(row@.take(i + 1).drop_last() =~= row@.take(i as int));
        assert(row@.take(i + 1).last() == row@[i as int]);
        let n = out.len();
        assert(before.len() == n);
        if n > 0 && out[n - 1].style == style {
            assert(before.last() == out@[n - 1]@);
            let last = out.pop();
            if let Some(mut s) = last {
                s.text.push(c);
                out.push(s);
            }
        } else {
            assert(n > 0 ==> before.last() == out@[n - 1]@);
            let mut text = String::new();
            text.push(c);
            assert(text@ =~= seq![c]);
            out.push(Span::styled(text, style));
        }
        assert(spans_view(out@) =~= with_char(before, c, style));
        i += 1;
    }
    assert(row@.take(row@.len() as int) =~= row@);
    out
}

/// The gutter of a row: the right-aligned number, or blanks, and one blank.
pub open spec fn gutter_text(no: Option<nat>, w: nat) -> Seq<char> {
    match no {
        Some(n) => {
            let number = decimal(n);
            let pad = if number.len() < w {
                (w - number.len()) as nat
            } else {
                0
            };
            (repeated(' ', pad) + number).push(' ')
        },
        None => repeated(' ', w + 1),
    }
}

fn make_gutter(no: Option<u128>, w: usize) -> (out: String)
    ensures
        out@ == gutter_text(
            match no {
                Some(n) => Some(n as nat),
                None => None,
            },
            w as nat,
        ),
{
    match no {
        Some(n) => {
            let number = number_text(n);
            let len = number.as_str().unicode_len();
            let pad = if len < w { w - len } else { 0 };
            let mut out = repeat_char(' ', pad as u128);
            out.append(number.as_str());
            out.push(' ');
            out
        },
        None => repeat_char(' ', w as u128 + 1),
    }
}

/// How far a text can be taken from `i` on until a char does not fit into `w`
/// columns.
pub open spec fn fit_at(s: Seq<char>, i: int, used: nat, w: nat) -> int
    decreases s.len() - i,
{
    if i < 0 || i >= s.len() {
        s.len() as int
    } else if used + cells(s[i]) > w {
        i
    } else {
        fit_at(s, i + 1, used + cells(s[i]), w)
    }
}

/// The columns of the first `k` chars of a text.
pub open spec fn text_columns(s: Seq<char>, k: nat) -> nat
    decreases k,
{
    if k == 0 {
        0
    } else {
        text_columns(s, (k - 1) as nat) + cells(s[k - 1])
    }
}

/// The gutter alone, cut or filled up to exactly `w` columns.
pub open spec fn clipped_gutter(text: Seq<char>, w: nat) -> Seq<char> {
    let end = fit_at(text, 0, 0, w);
    let used = text_columns(text, end as nat);
    text.take(end) + repeated(
        ' ',
        if used < w {
            (w - used) as nat
        } else {
            0
        },
    )
}

proof fn lemma_fit_at(s: Seq<char>, i: int, w: nat)
    requires
        0 <= i <= s.len(),
        text_columns(s, i as nat) <= w,
    ensures
        i <= fit_at(s, i, text_columns(s, i as nat), w) <= s.len(),
        text_columns(s, fit_at(s, i, text_columns(s, i as nat), w) as nat) <= w,
    decreases s.len() - i,
{
    if i < s.len() && text_columns(s, i as nat) + cells(s[i]) <= w {
        lemma_fit_at(s, i + 1, w);
    }
}

proof fn lemma_text_columns(s: Seq<char>, k: nat)
    requires
        k <= s.len(),
    ensures
        text_columns(s, k) == columns(s.take(k as int)),
    decreases k,
{
    if k > 0 {
        lemma_text_columns(s, (k - 1) as nat);
        assert(s.take(k as int) =~= s.take(k - 1).push(s[k - 1]));
        lemma_columns_push(s.take(k - 1), s[k - 1]);
    }
}

proof fn lemma_text_concat(a: Seq<char>, b: Seq<char>)
    ensures
        columns(a + b) == columns(a) + columns(b),
    decreases b.len(),
{
    if b.len() == 0 {
        assert(a + b =~= a);
    } else {
        assert((a + b).drop_last() =~= a + b.drop_last());
        lemma_text_concat(a, b.drop_last());
    }
}

/// A gutter that is cut or filled up takes exactly its columns.
proof fn lemma_clipped_columns(text: Seq<char>, w: nat)
    requires
        cells(' ') == 1,
    ensures
        columns(clipped_gutter(text, w)) == w,
{
    lemma_fit_at(text, 0, w);
    let end = fit_at(text, 0, 0, w);
    let used = text_columns(text, end as nat);
    lemma_text_columns(text, end as nat);
    lemma_blank_columns((w - used) as nat);
    lemma_text_concat(text.take(end), repeated(' ', (w - used) as nat));
}

fn clip_gutter(text: &str, w: usize) -> (out: String)
    ensures
        out@ == clipped_gutter(text@, w as nat),
{
    let cs = chars_of(text);
    let mut used: u128 = 0;
    let mut i: usize = 0;
    let mut open = true;
    while i < cs.len() && open
        invariant
            i <= cs@.len(),
            used <= 3 * i,
            used == text_columns(cs@, i as nat),
            open ==> fit_at(cs@, 0, 0, w as nat) == fit_at(cs@, i as int, used as nat, w as nat),
            !open ==> fit_at(cs@, 0, 0, w as nat) == i,
        decreases cs@.len() - i + (if open { 1int } else { 0int }),
    {
        let c = char_cells(cs[i]) as u128;
        if used + c > w as u128 {
            open = false;
        } else {
            used = used + c;
            i += 1;
        }
    }
    let mut out = text_of(&cs, 0, i);
    assert(cs@.subrange(0, i as int) =~= cs@.take(i as int));
    let pad: u128 = if used < w as u128 { w as u128 - used } else { 0 };
    out.append(repeat_char(' ', pad).as_str());
    out
}

/// The style of the gutter.
#[verifier::allow_in_spec]
pub fn gutter_style(theme: Theme) -> Style
    returns
        Style::plain().fg(theme.line_nr).bg(theme.bg),
{
    Style::plain().fg(theme.line_nr).bg(theme.bg)
}

/// The mark of a line that was cut.
pub open spec fn ellipsis(kind: SideKind, theme: Theme) -> (char, Style) {
    ('…', Style::plain().fg(theme.hint).bg(wash(kind, theme)))
}

/// One row of a side: the gutter, the spans, and the wash up to the edge.
pub open spec fn side_row(
    gutter: Seq<char>,
    row: Seq<(char, Style)>,
    w: nat,
    kind: SideKind,
    theme: Theme,
) -> Seq<SpanView> {
    let body = seq![span(gutter, gutter_style(theme))] + grouped(row);
    if cell_columns(row) < w {
        body.push(
            span(
                repeated(' ', (w - cell_columns(row)) as nat),
                Style::plain().bg(wash(kind, theme)),
            ),
        )
    } else {
        body
    }
}

/// The rows of cells of a side in `w` columns; a line that was cut ends in an
/// ellipsis.
pub open spec fn side_chunks(
    side: SideView,
    w: nat,
    code: CodeView,
) -> Seq<Seq<(char, Style)>> {
    let (chunks, cut) = wrapped_cells(side_cells(side, code), w);
    if cut {
        chunks.drop_last().push(
            with_room(chunks.last(), w).push(ellipsis(side.kind, code.theme)),
        )
    } else {
        chunks
    }
}

/// The rows of one side in exactly `width` columns: one, or two where the line
/// wraps. The number shows on the first only.
pub open spec fn side_rows(side: SideView, width: nat, code: CodeView) -> Seq<Seq<SpanView>> {
    let gutter = gutter_text(side.no, code.gutter_w);
    if width <= code.gutter_w + 1 {
        seq![seq![span(clipped_gutter(gutter, width), gutter_style(code.theme))]]
    } else {
        let w = (width - (code.gutter_w + 1)) as nat;
        let chunks = side_chunks(side, w, code);
        Seq::new(
            chunks.len(),
            |i: int|
                side_row(
                    if i == 0 {
                        gutter
                    } else {
                        repeated(' ', code.gutter_w + 1)
                    },
                    chunks[i],
                    w,
                    side.kind,
                    code.theme,
                ),
        )
    }
}

/// What a list of lists of spans holds.
pub open spec fn span_rows_view(rows: Seq<Vec<Span>>) -> Seq<Seq<SpanView>> {
    rows.map_values(|r: Vec<Span>| spans_view(r@))
}

fn make_row(
    gutter: String,
    row: &Vec<(char, Style)>,
    w: usize,
    kind: SideKind,
    theme: Theme,
) -> (out: Vec<Span>)
    ensures
        spans_view(out@) == side_row(gutter@, row@, w as nat, kind, theme),
{
    broadcast use lemma_spans_push;

    let mut out: Vec<Span> = Vec::new();
    assert(spans_view(out@) =~= Seq::<SpanView>::empty());
    out.push(Span::styled(gutter, gutter_style(theme)));
    let ghost head = spans_view(out@);
    assert(head =~= seq![span(gutter@, gutter_style(theme))]);
    let mut body = spans_for_chunk(row);
    let ghost added = body@;
    out.append(&mut body);
    assert(spans_view(out@) =~= head + spans_view(added));
    let used = count_columns(row);
    if used < w as u128 {
        let pad = repeat_char(' ', w as u128 - used);
        out.push(Span::styled(pad, Style::plain().bg(wash(kind, theme))));
    }
    out
}

fn chunk_side(hl: &mut Highlighter, side: &Side, w: usize, code: &CodeStyle) -> (out: Vec<
    Vec<(char, Style)>,
>)
    requires
        old(hl).wf(),
    ensures
        final(hl).wf(),
        final(hl).grammars() == old(hl).grammars(),
        chunks_view(out@) == side_chunks(side@, w as nat, code.with(old(hl).grammars())),
        1 <= out@.len() <= 2,
{
    let row = side_content_cells(hl, side, code);
    let (mut chunks, cut) = wrap_cells(&row, w);
    if cut {
        let ghost before = chunks@;
        let last = chunks.pop();
        if let Some(chunk) = last {
            let mut room = make_room(chunk, w);
            let mark = Style::plain().fg(code.theme.hint).bg(wash(side.kind, code.theme));
            room.push(('…', mark));
            chunks.push(room);
            assert(chunks_view(before).last() == chunk@);
            assert(chunks_view(chunks@) =~= chunks_view(before).drop_last().push(room@));
        }
    }
    chunks
}

proof fn lemma_columns_concat(a: Seq<(char, Style)>, b: Seq<(char, Style)>)
    ensures
        cell_columns(a + b) == cell_columns(a) + cell_columns(b),
    decreases b.len(),
{
    if b.len() == 0 {
        assert(a + b =~= a);
    } else {
        assert((a + b).drop_last() =~= a + b.drop_last());
        lemma_columns_concat(a, b.drop_last());
    }
}

proof fn lemma_fill_fits(row: Seq<(char, Style)>, i: int, used: nat, w: nat)
    requires
        0 <= i <= row.len(),
        used <= w,
    ensures
        used + cell_columns(row.subrange(i, fill(row, i, used, w))) <= w,
    decreases row.len() - i,
{
    lemma_fill(row, i, used, w);
    let end = fill(row, i, used, w);
    if i < row.len() && used + cells(row[i].0) <= w {
        lemma_fill_fits(row, i + 1, used + cells(row[i].0), w);
        lemma_fill(row, i + 1, used + cells(row[i].0), w);
        let rest = row.subrange(i + 1, end);
        assert(row.subrange(i, end) =~= seq![row[i]] + rest);
        lemma_columns_concat(seq![row[i]], rest);
        assert(seq![row[i]].drop_last() =~= Seq::empty());
        assert(cell_columns(seq![row[i]].drop_last()) == 0);
    } else {
        assert(row.subrange(i, end) =~= Seq::empty());
    }
}

/// Wrapping keeps the start of a line, char by char, in rows that fit; where
/// there was no more, it keeps the whole line.
pub proof fn law_cells_wrap(row: Seq<(char, Style)>, w: nat)
    ensures
        1 <= wrapped_cells(row, w).0.len() <= 2,
        forall|i: int|
            0 <= i < wrapped_cells(row, w).0.len() ==> cell_columns(
                #[trigger] wrapped_cells(row, w).0[i],
            ) <= w,
        wrapped_cells(row, w).0.flatten().is_prefix_of(row),
        !wrapped_cells(row, w).1 ==> wrapped_cells(row, w).0.flatten() == row,
        wrapped_cells(row, w).1 ==> wrapped_cells(row, w).0.flatten().len() < row.len(),
{
    let (rows, more) = wrapped_cells(row, w);
    let e1 = fill(row, 0, 0, w);
    lemma_fill(row, 0, 0, w);
    lemma_fill_fits(row, 0, 0, w);
    assert(row.subrange(0, e1) =~= row.take(e1));
    if e1 >= row.len() {
        assert(row.take(e1) =~= row);
        lemma_flat_one(row);
    } else if cells(row[e1].0) > w {
        lemma_flat_one(row.take(e1));
    } else {
        let e2 = fill(row, e1, 0, w);
        lemma_fill(row, e1, 0, w);
        lemma_fill_fits(row, e1, 0, w);
        lemma_flat_two(row.take(e1), row.subrange(e1, e2));
        assert(row.take(e1) + row.subrange(e1, e2) =~= row.take(e2));
        assert(row.take(row.len() as int) =~= row);
    }
}

proof fn lemma_flat_one(a: Seq<(char, Style)>)
    ensures
        seq![a].flatten() == a,
{
    let rest = seq![a].drop_first();
    assert(rest =~= Seq::empty());
    assert(rest.flatten() =~= Seq::empty());
    assert(a + rest.flatten() =~= a);
}

proof fn lemma_flat_two(a: Seq<(char, Style)>, b: Seq<(char, Style)>)
    ensures
        seq![a, b].flatten() == a + b,
{
    assert(seq![a, b].drop_first() =~= seq![b]);
    lemma_flat_one(b);
}

proof fn lemma_room(row: Seq<(char, Style)>, w: nat)
    requires
        w > 0,
    ensures
        cell_columns(with_room(row, w)) < w,
    decreases row.len(),
{
    if row.len() > 0 && cell_columns(row) + 1 > w {
        lemma_room(row.drop_last(), w);
    }
}

proof fn lemma_grouped_columns(row: Seq<(char, Style)>)
    ensures
        row_columns(grouped(row)) == cell_columns(row),
    decreases row.len(),
{
    if row.len() > 0 {
        lemma_grouped_columns(row.drop_last());
        let spans = grouped(row.drop_last());
        let (c, style) = row.last();
        if spans.len() > 0 && spans.last().style == style {
            lemma_columns_push(spans.last().text, c);
            lemma_row_columns_push(spans.drop_last(), span(spans.last().text.push(c), style));
        } else {
            lemma_columns_push(Seq::empty(), c);
            assert(Seq::empty().push(c) =~= seq![c]);
            lemma_row_columns_push(spans, span(seq![c], style));
        }
    }
}

proof fn lemma_side_row_fills(
    gutter: Seq<char>,
    row: Seq<(char, Style)>,
    w: nat,
    kind: SideKind,
    theme: Theme,
)
    requires
        cells(' ') == 1,
        cell_columns(row) <= w,
    ensures
        side_row(gutter, row, w, kind, theme).len() > 0,
        side_row(gutter, row, w, kind, theme)[0].text == gutter,
        row_columns(side_row(gutter, row, w, kind, theme).skip(1)) == w,
{
    let all = side_row(gutter, row, w, kind, theme);
    let lead = seq![span(gutter, gutter_style(theme))];
    let body = grouped(row);
    lemma_grouped_columns(row);
    assert((lead + body).skip(1) =~= body);
    if cell_columns(row) < w {
        let n = (w - cell_columns(row)) as nat;
        let pad = span(repeated(' ', n), Style::plain().bg(wash(kind, theme)));
        lemma_blank_columns(n);
        assert(all.skip(1) =~= body.push(pad));
        lemma_row_columns_push(body, pad);
    }
}

proof fn lemma_gutter_len(no: Option<nat>, w: nat)
    requires
        digits(no) <= w,
    ensures
        gutter_text(no, w).len() == w + 1,
{
}

proof fn lemma_side_rows_fill(side: SideView, width: nat, code: CodeView)
    requires
        cells(' ') == 1,
        cells('…') == 1,
        digits(side.no) <= code.gutter_w,
        code.gutter_w + 1 < width,
    ensures
        forall|i: int|
            0 <= i < side_rows(side, width, code).len() ==> fills(
                #[trigger] side_rows(side, width, code)[i],
                code.gutter_w,
                width,
            ),
{
    let w = (width - (code.gutter_w + 1)) as nat;
    let (wrapped, cut) = wrapped_cells(side_cells(side, code), w);
    let chunks = side_chunks(side, w, code);
    law_cells_wrap(side_cells(side, code), w);
    lemma_gutter_len(side.no, code.gutter_w);
    assert forall|i: int| 0 <= i < side_rows(side, width, code).len() implies fills(
        #[trigger] side_rows(side, width, code)[i],
        code.gutter_w,
        width,
    ) by {
        if cut && i == chunks.len() - 1 {
            let room = with_room(wrapped.last(), w);
            let mark = ellipsis(side.kind, code.theme);
            lemma_room(wrapped.last(), w);
            assert(chunks[i] == room.push(mark));
            assert(room.push(mark).drop_last() =~= room);
        } else {
            assert(chunks[i] == wrapped[i]);
        }
        let gutter = if i == 0 {
            gutter_text(side.no, code.gutter_w)
        } else {
            repeated(' ', code.gutter_w + 1)
        };
        lemma_side_row_fills(gutter, chunks[i], w, side.kind, code.theme);
    }
}

/// Whether a row is a gutter for numbers of `gutter_w` digits and a blank, and
/// then exactly the columns that are left of `width`.
pub open spec fn fills(row: Seq<SpanView>, gutter_w: nat, width: nat) -> bool {
    &&& row.len() > 0
    &&& row[0].text.len() == gutter_w + 1
    &&& row_columns(row.skip(1)) + gutter_w + 1 == width
}

/// Renders one side (gutter + text) as one or two rows of exactly `width`
/// columns each, where the number fits into the gutter. Where there is no room
/// behind the gutter, it is one row of exactly `width` columns.
pub fn render_side(hl: &mut Highlighter, side: &Side, width: usize, code: &CodeStyle) -> (out: Vec<
    Vec<Span>,
>)
    requires
        old(hl).wf(),
    ensures
        final(hl).wf(),
        final(hl).grammars() == old(hl).grammars(),
        span_rows_view(out@) == side_rows(
            side@,
            width as nat,
            code.with(old(hl).grammars()),
        ),
        1 <= out@.len() <= 2,
        width <= code.gutter_w + 1 ==> out@.len() == 1 && row_columns(spans_view(out@[0]@))
            == width,
        digits(side@.no) <= code.gutter_w && code.gutter_w + 1 < width ==> forall|i: int|
            0 <= i < out@.len() ==> fills(
                spans_view((#[trigger] out@[i])@),
                code.gutter_w as nat,
                width as nat,
            ),
{
    let _ = char_cells(' ');
    let _ = char_cells('…');
    let ghost view = code.with(hl.grammars());
    proof {
        if digits(side@.no) <= code.gutter_w && code.gutter_w + 1 < width {
            lemma_side_rows_fill(side@, width as nat, view);
        }
    }
    let gutter = make_gutter(side.no, code.gutter_w);
    let mut out: Vec<Vec<Span>> = Vec::new();
    if code.gutter_w >= width || width - code.gutter_w <= 1 {
        let mut only: Vec<Span> = Vec::new();
        let clipped = clip_gutter(gutter.as_str(), width);
        proof {
            let only_span = span(clipped@, gutter_style(code.theme));
            lemma_clipped_columns(gutter@, width as nat);
            lemma_row_columns_push(Seq::empty(), only_span);
            assert(Seq::empty().push(only_span) =~= seq![only_span]);
            assert(row_columns(Seq::<SpanView>::empty()) == 0);
        }
        only.push(Span::styled(clipped, gutter_style(code.theme)));
        assert(spans_view(only@) =~= seq![
            span(clipped_gutter(gutter@, width as nat), gutter_style(code.theme)),
        ]);
        out.push(only);
        assert(span_rows_view(out@) =~= seq![spans_view(only@)]);
        return out;
    }
    let w = width - code.gutter_w - 1;
    let chunks = chunk_side(hl, side, w, code);
    let ghost all = side_rows(side@, width as nat, view);
    let mut i: usize = 0;
    while i < chunks.len()
        invariant
            i <= chunks@.len() <= 2,
            out@.len() == i,
            w + code.gutter_w + 1 == width,
            w > 0,
            gutter@ == gutter_text(side@.no, code.gutter_w as nat),
            view.gutter_w == code.gutter_w,
            view.theme == code.theme,
            chunks_view(chunks@) == side_chunks(side@, w as nat, view),
            all == side_rows(side@, width as nat, view),
            forall|k: int| 0 <= k < i ==> spans_view((#[trigger] out@[k])@) == all[k],
        decreases chunks@.len() - i,
    {
        let lead = if i == 0 {
            gutter.clone()
        } else {
            repeat_char(' ', code.gutter_w as u128 + 1)
        };
        assert(chunks_view(chunks@)[i as int] == chunks@[i as int]@);
        let row = make_row(lead, &chunks[i], w, side.kind, code.theme);
        proof {
            let cs = side_chunks(side@, w as nat, view);
            assert(cs[i as int] == chunks@[i as int]@);
            assert(all[i as int] == side_row(lead@, cs[i as int], w as nat, side.kind, code.theme));
        }
        let ghost before = out@;
        out.push(row);
        assert forall|k: int| 0 <= k < i + 1 implies spans_view((#[trigger] out@[k])@) == all[k] by {
            if k < i {
                assert(out@[k] == before[k]);
            }
        }
        i += 1;
    }
    assert(chunks_view(chunks@).len() == chunks@.len());
    assert(span_rows_view(out@) =~= all);
    out
}

proof fn lemma_fill_is_full(row: Seq<(char, Style)>, i: int, used: nat, w: nat)
    requires
        0 <= i <= row.len(),
    ensures
        ({
            let end = fill(row, i, used, w);
            end < row.len() ==> used + cell_columns(row.subrange(i, end)) + cells(row[end].0) > w
        }),
    decreases row.len() - i,
{
    if i < row.len() && used + cells(row[i].0) <= w {
        lemma_fill_is_full(row, i + 1, used + cells(row[i].0), w);
        let end = fill(row, i + 1, used + cells(row[i].0), w);
        lemma_fill(row, i + 1, used + cells(row[i].0), w);
        lemma_columns_first(row.subrange(i, end));
        assert(row.subrange(i, end).skip(1) =~= row.subrange(i + 1, end));
    } else {
        assert(row.subrange(i, i) =~= Seq::empty());
    }
}

proof fn lemma_columns_first(row: Seq<(char, Style)>)
    requires
        row.len() > 0,
    ensures
        cell_columns(row) == cells(row[0].0) + cell_columns(row.skip(1)),
    decreases row.len(),
{
    if row.len() == 1 {
        assert(row.drop_last() =~= Seq::empty());
        assert(row.skip(1) =~= Seq::empty());
    } else {
        lemma_columns_first(row.drop_last());
        assert(row.drop_last().skip(1) =~= row.skip(1).drop_last());
        assert(row.drop_last()[0] == row[0]);
    }
}

/// A line is wrapped only where it has to be: what starts its second row has no
/// room in the first.
pub proof fn law_first_row_is_filled(row: Seq<(char, Style)>, w: nat)
    ensures
        ({
            let rows = wrapped_cells(row, w).0;
            let first = rows[0];
            &&& rows.len() == 2 ==> first.len() < row.len() && cell_columns(first) + cells(
                row[first.len() as int].0,
            ) > w
            &&& cell_columns(row) <= w ==> rows == seq![row]
        }),
{
    let e1 = fill(row, 0, 0, w);
    lemma_fill(row, 0, 0, w);
    lemma_fill_is_full(row, 0, 0, w);
    assert(row.subrange(0, e1) =~= row.take(e1));
    if e1 < row.len() {
        lemma_columns_grow(row, e1 + 1);
        assert(row.take(e1 + 1).drop_last() =~= row.take(e1));
    }
}

proof fn lemma_columns_grow(row: Seq<(char, Style)>, k: int)
    requires
        0 <= k <= row.len(),
    ensures
        cell_columns(row.take(k)) <= cell_columns(row),
    decreases row.len() - k,
{
    if k < row.len() {
        lemma_columns_grow(row, k + 1);
        assert(row.take(k + 1).drop_last() =~= row.take(k));
    } else {
        assert(row.take(k) =~= row);
    }
}

} // verus!
