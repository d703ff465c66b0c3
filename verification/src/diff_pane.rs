//! Lines of the diff views: the unified preview and the side-by-side pane.

use crate::code_cells::{render_side, side_rows, span_rows_view, CodeStyle, CodeView};
use crate::diff_rows::{blank_of, blank_side, rows_view, DiffRow, RowView, Side, SideKind, SideView};
use crate::markdown_table::span;
use crate::model::{FileDiff, Hunk};
use crate::style::{lemma_spans_push, lines_view, spans_view, Line, Modifier, Span, SpanView, Style};
use crate::syntax::Highlighter;
use crate::theme::Theme;
use vstd::prelude::*;
use vstd::string::*;

verus! {

/// A list without its first `n` items, or without any where there are fewer.
pub open spec fn drop_n<A>(s: Seq<A>, n: nat) -> Seq<A> {
    if n <= s.len() {
        s.skip(n as int)
    } else {
        Seq::empty()
    }
}

/// The first `n` items of a list, or all of them where there are fewer.
pub open spec fn keep_n<A>(s: Seq<A>, n: nat) -> Seq<A> {
    if n <= s.len() {
        s.take(n as int)
    } else {
        s
    }
}

/// Groups of lines, one after the other.
pub open spec fn flat(groups: Seq<Seq<Seq<SpanView>>>) -> Seq<Seq<SpanView>>
    decreases groups.len(),
{
    if groups.len() == 0 {
        Seq::empty()
    } else {
        flat(groups.drop_last()) + groups.last()
    }
}

pub proof fn lemma_flat_concat(a: Seq<Seq<Seq<SpanView>>>, b: Seq<Seq<Seq<SpanView>>>)
    ensures
        flat(a + b) == flat(a) + flat(b),
    decreases b.len(),
{
    if b.len() == 0 {
        assert(a + b =~= a);
        assert(flat(a) + flat(b) =~= flat(a));
    } else {
        assert((a + b).drop_last() =~= a + b.drop_last());
        lemma_flat_concat(a, b.drop_last());
        assert(flat(a + b) =~= flat(a) + flat(b));
    }
}

pub proof fn lemma_flat_push(a: Seq<Seq<Seq<SpanView>>>, g: Seq<Seq<SpanView>>)
    ensures
        flat(a.push(g)) == flat(a) + g,
{
    assert(a.push(g).drop_last() =~= a);
}

/// What a list of lists of lines holds.
pub open spec fn groups_view(groups: Seq<Vec<Line>>) -> Seq<Seq<Seq<SpanView>>> {
    groups.map_values(|g: Vec<Line>| lines_view(g@))
}

/// Whether every header among rows is one of `n` hunks.
pub open spec fn headers_in(rows: Seq<RowView>, n: nat) -> bool {
    forall|i: int|
        0 <= i < rows.len() ==> ((#[trigger] rows[i]) matches RowView::Header { index } ==> index < n)
}

/// The lines of one side in the unified view: a marker and the row; rows that
/// continue a line have a blank marker.
pub open spec fn unified_side(
    marker: Seq<char>,
    style: Style,
    side: SideView,
    width: nat,
    code: CodeView,
) -> Seq<Seq<SpanView>> {
    let w = if width >= 2 {
        (width - 2) as nat
    } else {
        0
    };
    let rows = side_rows(side, w, code);
    Seq::new(
        rows.len(),
        |i: int|
            seq![span(
                if i == 0 {
                    marker
                } else {
                    "  "@
                },
                style,
            )] + rows[i],
    )
}

#[verifier::allow_in_spec]
pub fn del_style(theme: Theme) -> Style
    returns
        Style::plain().fg(theme.conflicted).add_modifier(Modifier::bold()),
{
    Style::plain().fg(theme.conflicted).add_modifier(Modifier::bold())
}

#[verifier::allow_in_spec]
pub fn add_style(theme: Theme) -> Style
    returns
        Style::plain().fg(theme.staged).add_modifier(Modifier::bold()),
{
    Style::plain().fg(theme.staged).add_modifier(Modifier::bold())
}

/// The unified lines of a row, each with its visual rows: context is one line,
/// a deleted and an added line are two.
pub open spec fn unified_row(
    hunks: Seq<Hunk>,
    row: RowView,
    width: nat,
    code: CodeView,
) -> Seq<Seq<Seq<SpanView>>> {
    match row {
        RowView::Header { index } => seq![
            seq![
                seq![span("  "@ + hunks[index as int].header@, Style::plain().fg(code.theme.hint))],
            ],
        ],
        RowView::Split { left, right } => {
            let del = unified_side("- "@, del_style(code.theme), left, width, code);
            let add = unified_side("+ "@, add_style(code.theme), right, width, code);
            if left.kind == SideKind::Context {
                seq![unified_side("  "@, Style::plain(), left, width, code)]
            } else if left.kind == SideKind::Del && right.kind == SideKind::Add {
                seq![del, add]
            } else if left.kind == SideKind::Del {
                seq![del]
            } else if right.kind == SideKind::Add {
                seq![add]
            } else {
                Seq::empty()
            }
        },
    }
}

/// The unified lines of the first `k` rows.
pub open spec fn unified_rows(
    hunks: Seq<Hunk>,
    rows: Seq<RowView>,
    k: nat,
    width: nat,
    code: CodeView,
) -> Seq<Seq<Seq<SpanView>>>
    decreases k,
{
    if k == 0 {
        Seq::empty()
    } else {
        unified_rows(hunks, rows, (k - 1) as nat, width, code) + unified_row(
            hunks,
            rows[k - 1],
            width,
            code,
        )
    }
}

/// What the unified view shows: `take` visual rows, from the line `skip` on.
pub open spec fn unified_window(
    hunks: Seq<Hunk>,
    rows: Seq<RowView>,
    width: nat,
    skip: nat,
    take: nat,
    code: CodeView,
) -> Seq<Seq<SpanView>> {
    keep_n(flat(drop_n(unified_rows(hunks, rows, rows.len(), width, code), skip)), take)
}

fn unified_lines(
    hl: &mut Highlighter,
    marker: &str,
    style: Style,
    side: &Side,
    width: usize,
    code: &CodeStyle,
) -> (out: Vec<Line>)
    requires
        old(hl).wf(),
    ensures
        final(hl).wf(),
        final(hl).grammars() == old(hl).grammars(),
        lines_view(out@) == unified_side(
            marker@,
            style,
            side@,
            width as nat,
            code.with(old(hl).grammars()),
        ),
{
    let ghost view = code.with(hl.grammars());
    let w = if width >= 2 { width - 2 } else { 0 };
    let rows = render_side(hl, side, w, code);
    let ghost all = unified_side(marker@, style, side@, width as nat, view);
    let ghost srows = side_rows(side@, w as nat, view);
    let mut out: Vec<Line> = Vec::new();
    let mut first = true;
    assert(span_rows_view(rows@).len() == rows@.len());
    for row in it: rows
        invariant
            span_rows_view(it.seq()) == srows,
            all == unified_side(marker@, style, side@, width as nat, view),
            srows == side_rows(side@, w as nat, view),
            w == (if width >= 2 { width - 2 } else { 0 }),
            first == (it.index() == 0),
            out@.len() == it.index(),
            forall|k: int| 0 <= k < it.index() ==> (#[trigger] out@[k])@ == all[k],
    {
        let ghost i = it.index() as int;
        assert(srows[i] == spans_view(row@));
        let lead = if first { marker.to_owned() } else { "  ".to_owned() };
        let mut spans: Vec<Span> = Vec::new();
        spans.push(Span::styled(lead, style));
        assert(spans_view(spans@) =~= seq![span(lead@, style)]);
        let ghost head = spans_view(spans@);
        let mut row = row;
        let ghost added = row@;
        spans.append(&mut row);
        assert(spans_view(spans@) =~= head + spans_view(added));
        let line = Line::from_spans(spans);
        assert(all[i] == line@);
        let ghost before = out@;
        out.push(line);
        assert forall|k: int| 0 <= k < i + 1 implies (#[trigger] out@[k])@ == all[k] by {
            if k < i {
                assert(out@[k] == before[k]);
            }
        }
        first = false;
    }
    assert(lines_view(out@) =~= all);
    out
}

/// Renders a row into its unified lines, each with its visual rows.
pub fn render_unified_row(
    hl: &mut Highlighter,
    diff: &FileDiff,
    row: &DiffRow,
    width: usize,
    code: &CodeStyle,
) -> (out: Vec<Vec<Line>>)
    requires
        old(hl).wf(),
        row@ matches RowView::Header { index } ==> index < diff.hunks@.len(),
    ensures
        final(hl).wf(),
        final(hl).grammars() == old(hl).grammars(),
        groups_view(out@) == unified_row(
            diff.hunks@,
            row@,
            width as nat,
            code.with(old(hl).grammars()),
        ),
{
    let ghost view = code.with(hl.grammars());
    let theme = code.theme;
    let mut out: Vec<Vec<Line>> = Vec::new();
    match row {
        DiffRow::Header { index } => {
            let text = "  ".to_owned().concat(diff.hunks[*index].header.as_str());
            let mut lines: Vec<Line> = Vec::new();
            lines.push(Line::of(Span::styled(text, Style::plain().fg(theme.hint))));
            assert(lines_view(lines@) =~= seq![
                seq![span(text@, Style::plain().fg(theme.hint))],
            ]);
            out.push(lines);
        },
        DiffRow::Split { left, right } => {
            if left.kind == SideKind::Context {
                out.push(unified_lines(hl, "  ", Style::plain(), left, width, code));
            } else {
                if left.kind == SideKind::Del {
                    out.push(unified_lines(hl, "- ", del_style(theme), left, width, code));
                }
                if right.kind == SideKind::Add {
                    out.push(unified_lines(hl, "+ ", add_style(theme), right, width, code));
                }
            }
        },
    }
    assert(groups_view(out@) =~= unified_row(diff.hunks@, row@, width as nat, view));
    out
}

proof fn lemma_unified_rows_prefix(
    hunks: Seq<Hunk>,
    rows: Seq<RowView>,
    k: nat,
    n: nat,
    width: nat,
    code: CodeView,
)
    requires
        k <= n,
    ensures
        exists|rest: Seq<Seq<Seq<SpanView>>>| #[trigger]
            (unified_rows(hunks, rows, k, width, code) + rest) == unified_rows(
                hunks,
                rows,
                n,
                width,
                code,
            ),
    decreases n,
{
    let a = unified_rows(hunks, rows, k, width, code);
    if k == n {
        let none = Seq::<Seq<Seq<SpanView>>>::empty();
        assert(a + none =~= a);
    } else {
        lemma_unified_rows_prefix(hunks, rows, k, (n - 1) as nat, width, code);
        let mid = unified_rows(hunks, rows, (n - 1) as nat, width, code);
        let rest = choose|rest: Seq<Seq<Seq<SpanView>>>| #[trigger] (a + rest) == mid;
        let more = unified_row(hunks, rows[n - 1], width, code);
        assert(a + (rest + more) =~= mid + more);
    }
}

proof fn lemma_window_stable(
    a: Seq<Seq<Seq<SpanView>>>,
    rest: Seq<Seq<Seq<SpanView>>>,
    skip: nat,
    take: nat,
)
    requires
        flat(drop_n(a, skip)).len() >= take,
    ensures
        keep_n(flat(drop_n(a + rest, skip)), take) == keep_n(flat(drop_n(a, skip)), take),
{
    if skip <= a.len() {
        assert(drop_n(a + rest, skip) =~= drop_n(a, skip) + rest);
        lemma_flat_concat(drop_n(a, skip), rest);
        assert(keep_n(flat(drop_n(a + rest, skip)), take) =~= keep_n(
            flat(drop_n(a, skip)),
            take,
        ));
    } else {
        assert(flat(drop_n(a, skip)) =~= Seq::<Seq<SpanView>>::empty());
        assert(keep_n(flat(drop_n(a + rest, skip)), take) =~= keep_n(
            flat(drop_n(a, skip)),
            take,
        ));
    }
}

/// Appends the groups from the `skip`-th on, where `seen` groups came before
/// these.
fn append_from(
    out: &mut Vec<Line>,
    groups: Vec<Vec<Line>>,
    seen: u128,
    skip: usize,
    Ghost(before): Ghost<Seq<Seq<Seq<SpanView>>>>,
) -> (now: u128)
    requires
        seen == before.len(),
        seen + groups@.len() <= u128::MAX,
        lines_view(old(out)@) == flat(drop_n(before, skip as nat)),
    ensures
        now == seen + groups@.len(),
        lines_view(final(out)@) == flat(drop_n(before + groups_view(groups@), skip as nat)),
{
    let ghost gs = groups_view(groups@);
    let mut now: u128 = seen;
    assert(before + gs.take(0) =~= before);
    for group in it: groups
        invariant
            gs == groups_view(it.seq()),
            now == before.len() + it.index(),
            before.len() + gs.len() <= u128::MAX,
            lines_view(out@) == flat(drop_n(before + gs.take(it.index() as int), skip as nat)),
    {
        let ghost i = it.index() as int;
        let ghost so_far = before + gs.take(i);
        assert(gs[i] == lines_view(group@));
        assert(before + gs.take(i + 1) =~= so_far.push(gs[i]));
        if now >= skip as u128 {
            assert(drop_n(so_far.push(gs[i]), skip as nat) =~= drop_n(so_far, skip as nat).push(
                gs[i],
            ));
            proof {
                lemma_flat_push(drop_n(so_far, skip as nat), gs[i]);
            }
            let ghost lines = out@;
            let mut group = group;
            let ghost added = group@;
            out.append(&mut group);
            assert(lines_view(out@) =~= lines_view(lines) + lines_view(added));
        } else {
            assert(drop_n(so_far.push(gs[i]), skip as nat) =~= drop_n(so_far, skip as nat));
        }
        now = now + 1;
    }
    assert(gs.take(gs.len() as int) =~= gs);
    now
}

/// The visible part of the unified view: `take` visual rows, from the line
/// `skip` on.
pub fn render_unified_lines(
    hl: &mut Highlighter,
    diff: &FileDiff,
    rows: &Vec<DiffRow>,
    width: usize,
    skip: usize,
    take: usize,
    code: &CodeStyle,
) -> (out: Vec<Line>)
    requires
        old(hl).wf(),
        headers_in(rows_view(rows@), diff.hunks@.len()),
    ensures
        final(hl).wf(),
        final(hl).grammars() == old(hl).grammars(),
        lines_view(out@) == unified_window(
            diff.hunks@,
            rows_view(rows@),
            width as nat,
            skip as nat,
            take as nat,
            code.with(old(hl).grammars()),
        ),
{
    let ghost set = hl.grammars();
    let ghost view = code.with(set);
    let ghost rv = rows_view(rows@);
    let mut out: Vec<Line> = Vec::new();
    let mut seen: u128 = 0;
    let mut i: usize = 0;
    assert(lines_view(out@) =~= flat(
        drop_n(unified_rows(diff.hunks@, rv, 0, width as nat, view), skip as nat),
    ));
    while i < rows.len() && out.len() < take
        invariant
            i <= rows@.len(),
            hl.wf(),
            hl.grammars() == set,
            view == code.with(set),
            rv == rows_view(rows@),
            headers_in(rv, diff.hunks@.len()),
            seen == unified_rows(diff.hunks@, rv, i as nat, width as nat, view).len(),
            seen <= 2 * i,
            lines_view(out@) == flat(
                drop_n(unified_rows(diff.hunks@, rv, i as nat, width as nat, view), skip as nat),
            ),
        decreases rows@.len() - i,
    {
        assert(rv[i as int] == rows@[i as int]@);
        let groups = render_unified_row(hl, diff, &rows[i], width, code);
        assert(groups_view(groups@).len() == groups@.len());
        let ghost before = unified_rows(diff.hunks@, rv, i as nat, width as nat, view);
        seen = append_from(&mut out, groups, seen, skip, Ghost(before));
        i += 1;
    }
    assert(lines_view(out@).len() == out@.len());
    proof {
        let a = unified_rows(diff.hunks@, rv, i as nat, width as nat, view);
        lemma_unified_rows_prefix(diff.hunks@, rv, i as nat, rv.len(), width as nat, view);
        let rest = choose|rest: Seq<Seq<Seq<SpanView>>>| #[trigger]
            (a + rest) == unified_rows(diff.hunks@, rv, rv.len(), width as nat, view);
        if i < rows@.len() {
            lemma_window_stable(a, rest, skip as nat, take as nat);
        }
    }
    let ghost full = out@;
    if out.len() > take {
        out.truncate(take);
    }
    assert(lines_view(out@) =~= keep_n(lines_view(full), take as nat));
    out
}

/// The divider between the two halves.
pub open spec fn divider(theme: Theme) -> SpanView {
    span("│"@, Style::plain().fg(theme.line_nr).bg(theme.bg))
}

/// One of the rows of a half, or its blank row where it has no such row.
pub open spec fn row_or_blank(
    side: SideView,
    width: nat,
    code: CodeView,
    i: int,
) -> Seq<SpanView> {
    let rows = side_rows(side, width, code);
    if i < rows.len() {
        rows[i]
    } else {
        side_rows(blank_of(side), width, code)[0]
    }
}

/// The two halves of a row, side by side: as many rows as the higher half has.
pub open spec fn split_lines(
    left: SideView,
    right: SideView,
    half: nat,
    right_w: nat,
    code: CodeView,
) -> Seq<Seq<SpanView>> {
    let l = side_rows(left, half, code).len();
    let r = side_rows(right, right_w, code).len();
    Seq::new(
        if l >= r {
            l
        } else {
            r
        },
        |i: int|
            row_or_blank(left, half, code, i).push(divider(code.theme)) + row_or_blank(
                right,
                right_w,
                code,
                i,
            ),
    )
}

/// The lines of a row in the fullscreen view. A whole file is shown full width
/// once; a diff side by side.
pub open spec fn pane_row(
    hunks: Seq<Hunk>,
    row: RowView,
    hunk: nat,
    whole_file: bool,
    inner: nat,
    code: CodeView,
) -> Seq<Seq<SpanView>> {
    match row {
        RowView::Header { index } => seq![
            seq![
                if index == hunk {
                    span(
                        "> "@ + hunks[index as int].header@,
                        Style::plain().fg(code.theme.hunk_header).add_modifier(Modifier::bold()),
                    )
                } else {
                    span(
                        "  "@ + hunks[index as int].header@,
                        Style::plain().fg(code.theme.hint),
                    )
                },
            ],
        ],
        RowView::Split { left, right } => {
            let half = if inner >= 1 {
                (inner - 1) as nat / 2
            } else {
                0
            };
            let right_w = if inner >= half + 1 {
                (inner - (half + 1)) as nat
            } else {
                0
            };
            if !whole_file {
                split_lines(left, right, half, right_w, code)
            } else if left.kind == SideKind::Context {
                side_rows(left, inner, code)
            } else {
                side_rows(left, inner, code) + side_rows(right, inner, code)
            }
        },
    }
}

/// The lines of rows `from..k` in the fullscreen view.
pub open spec fn pane_rows(
    hunks: Seq<Hunk>,
    rows: Seq<RowView>,
    from: nat,
    k: nat,
    hunk: nat,
    whole_file: bool,
    inner: nat,
    code: CodeView,
) -> Seq<Seq<SpanView>>
    decreases k,
{
    if k <= from {
        Seq::empty()
    } else {
        pane_rows(hunks, rows, from, (k - 1) as nat, hunk, whole_file, inner, code) + pane_row(
            hunks,
            rows[k - 1],
            hunk,
            whole_file,
            inner,
            code,
        )
    }
}

fn copy_spans(spans: &Vec<Span>) -> (out: Vec<Span>)
    ensures
        spans_view(out@) == spans_view(spans@),
{
    let mut out: Vec<Span> = Vec::new();
    let mut i: usize = 0;
    while i < spans.len()
        invariant
            i <= spans@.len(),
            out@.len() == i,
            forall|k: int| 0 <= k < i ==> (#[trigger] out@[k])@ == spans@[k]@,
        decreases spans@.len() - i,
    {
        out.push(Span { text: spans[i].text.clone(), style: spans[i].style });
        i += 1;
    }
    assert(spans_view(out@) =~= spans_view(spans@));
    out
}

fn rows_as_lines(rows: Vec<Vec<Span>>) -> (out: Vec<Line>)
    ensures
        lines_view(out@) == span_rows_view(rows@),
{
    let ghost all = span_rows_view(rows@);
    let mut out: Vec<Line> = Vec::new();
    for row in it: rows
        invariant
            all == span_rows_view(it.seq()),
            out@.len() == it.index(),
            forall|k: int| 0 <= k < it.index() ==> (#[trigger] out@[k])@ == all[k],
    {
        assert(all[it.index() as int] == spans_view(row@));
        out.push(Line::from_spans(row));
    }
    assert(lines_view(out@) =~= all);
    out
}

fn render_split(
    hl: &mut Highlighter,
    left: &Side,
    right: &Side,
    half: usize,
    right_w: usize,
    code: &CodeStyle,
) -> (out: Vec<Line>)
    requires
        old(hl).wf(),
    ensures
        final(hl).wf(),
        final(hl).grammars() == old(hl).grammars(),
        lines_view(out@) == split_lines(
            left@,
            right@,
            half as nat,
            right_w as nat,
            code.with(old(hl).grammars()),
        ),
{
    let ghost view = code.with(hl.grammars());
    let lrows = render_side(hl, left, half, code);
    let rrows = render_side(hl, right, right_w, code);
    let lblank = render_side(hl, &blank_side(left), half, code);
    let rblank = render_side(hl, &blank_side(right), right_w, code);
    let ghost ls = side_rows(left@, half as nat, view);
    let ghost rs = side_rows(right@, right_w as nat, view);
    let ghost all = split_lines(left@, right@, half as nat, right_w as nat, view);
    assert(span_rows_view(lrows@).len() == lrows@.len());
    assert(span_rows_view(rrows@).len() == rrows@.len());
    assert(span_rows_view(lblank@)[0] == spans_view(lblank@[0]@));
    assert(span_rows_view(rblank@)[0] == spans_view(rblank@[0]@));
    let height = if lrows.len() >= rrows.len() { lrows.len() } else { rrows.len() };
    let mark = Style::plain().fg(code.theme.line_nr).bg(code.theme.bg);
    let mut out: Vec<Line> = Vec::new();
    let mut i: usize = 0;
    while i < height
        invariant
            i <= height,
            height == (if lrows@.len() >= rrows@.len() { lrows@.len() } else { rrows@.len() }),
            span_rows_view(lrows@) == ls,
            span_rows_view(rrows@) == rs,
            ls == side_rows(left@, half as nat, view),
            rs == side_rows(right@, right_w as nat, view),
            ls.len() == lrows@.len(),
            rs.len() == rrows@.len(),
            lblank@.len() > 0,
            rblank@.len() > 0,
            spans_view(lblank@[0]@) == side_rows(blank_of(left@), half as nat, view)[0],
            spans_view(rblank@[0]@) == side_rows(blank_of(right@), right_w as nat, view)[0],
            view.theme == code.theme,
            mark == Style::plain().fg(code.theme.line_nr).bg(code.theme.bg),
            all == split_lines(left@, right@, half as nat, right_w as nat, view),
            out@.len() == i,
            forall|k: int| 0 <= k < i ==> (#[trigger] out@[k])@ == all[k],
        decreases height - i,
    {
        let mut spans = if i < lrows.len() {
            assert(ls[i as int] == spans_view(lrows@[i as int]@));
            copy_spans(&lrows[i])
        } else {
            copy_spans(&lblank[0])
        };
        let ghost lview = spans_view(spans@);
        let bar = Span::styled("│".to_owned(), mark);
        proof {
            lemma_spans_push(spans@, bar);
        }
        spans.push(bar);
        let mut tail = if i < rrows.len() {
            assert(rs[i as int] == spans_view(rrows@[i as int]@));
            copy_spans(&rrows[i])
        } else {
            copy_spans(&rblank[0])
        };
        let ghost rview = spans_view(tail@);
        let ghost head = spans@;
        let ghost tail_spans = tail@;
        spans.append(&mut tail);
        assert(spans_view(spans@) =~= spans_view(head) + spans_view(tail_spans));
        let line = Line::from_spans(spans);
        assert(line@ == lview.push(divider(code.theme)) + rview);
        assert(all[i as int] == line@);
        let ghost before = out@;
        out.push(line);
        assert forall|k: int| 0 <= k < i + 1 implies (#[trigger] out@[k])@ == all[k] by {
            if k < i {
                assert(out@[k] == before[k]);
            }
        }
        i += 1;
    }
    assert(lines_view(out@) =~= all);
    out
}

fn render_pane_row(
    hl: &mut Highlighter,
    diff: &FileDiff,
    row: &DiffRow,
    hunk: usize,
    whole_file: bool,
    inner: usize,
    code: &CodeStyle,
) -> (out: Vec<Line>)
    requires
        old(hl).wf(),
        row@ matches RowView::Header { index } ==> index < diff.hunks@.len(),
    ensures
        final(hl).wf(),
        final(hl).grammars() == old(hl).grammars(),
        lines_view(out@) == pane_row(
            diff.hunks@,
            row@,
            hunk as nat,
            whole_file,
            inner as nat,
            code.with(old(hl).grammars()),
        ),
{
    let ghost view = code.with(hl.grammars());
    let theme = code.theme;
    match row {
        DiffRow::Header { index } => {
            let header = diff.hunks[*index].header.as_str();
            let one = if *index == hunk {
                Span::styled(
                    "> ".to_owned().concat(header),
                    Style::plain().fg(theme.hunk_header).add_modifier(Modifier::bold()),
                )
            } else {
                Span::styled("  ".to_owned().concat(header), Style::plain().fg(theme.hint))
            };
            let mut out: Vec<Line> = Vec::new();
            out.push(Line::of(one));
            assert(lines_view(out@) =~= seq![seq![one@]]);
            out
        },
        DiffRow::Split { left, right } => {
            if !whole_file {
                let half = if inner >= 1 { (inner - 1) / 2 } else { 0 };
                let right_w = if inner > half { inner - half - 1 } else { 0 };
                render_split(hl, left, right, half, right_w, code)
            } else {
                let mut out = rows_as_lines(render_side(hl, left, inner, code));
                if left.kind != SideKind::Context {
                    let ghost before = out@;
                    let mut more = rows_as_lines(render_side(hl, right, inner, code));
                    let ghost added = more@;
                    out.append(&mut more);
                    assert(lines_view(out@) =~= lines_view(before) + lines_view(added));
                }
                out
            }
        },
    }
}

/// The lines of the fullscreen view: rows from `off` on, `height` lines.
pub fn render_pane_lines(
    hl: &mut Highlighter,
    diff: &FileDiff,
    rows: &Vec<DiffRow>,
    off: usize,
    hunk: usize,
    whole_file: bool,
    inner: usize,
    height: usize,
    code: &CodeStyle,
) -> (out: Vec<Line>)
    requires
        old(hl).wf(),
        headers_in(rows_view(rows@), diff.hunks@.len()),
    ensures
        final(hl).wf(),
        final(hl).grammars() == old(hl).grammars(),
        lines_view(out@) == keep_n(
            pane_rows(
                diff.hunks@,
                rows_view(rows@),
                off as nat,
                rows@.len(),
                hunk as nat,
                whole_file,
                inner as nat,
                code.with(old(hl).grammars()),
            ),
            height as nat,
        ),
{
    let ghost set = hl.grammars();
    let ghost view = code.with(set);
    let ghost rv = rows_view(rows@);
    let ghost all = pane_rows(
        diff.hunks@,
        rv,
        off as nat,
        rows@.len(),
        hunk as nat,
        whole_file,
        inner as nat,
        view,
    );
    let mut out: Vec<Line> = Vec::new();
    assert(lines_view(out@) =~= Seq::<Seq<SpanView>>::empty());
    let n = rows.len();
    let mut i: usize = if off < n { off } else { n };
    while i < n && out.len() < height
        invariant
            n == rows@.len(),
            i <= n,
            off < n ==> off <= i,
            off >= n ==> i == n,
            hl.wf(),
            hl.grammars() == set,
            view == code.with(set),
            rv == rows_view(rows@),
            headers_in(rv, diff.hunks@.len()),
            lines_view(out@) == pane_rows(
                diff.hunks@,
                rv,
                off as nat,
                i as nat,
                hunk as nat,
                whole_file,
                inner as nat,
                view,
            ),
        decreases n - i,
    {
        assert(rv[i as int] == rows@[i as int]@);
        let mut lines = render_pane_row(hl, diff, &rows[i], hunk, whole_file, inner, code);
        let ghost before = out@;
        let ghost added = lines@;
        out.append(&mut lines);
        assert(lines_view(out@) =~= lines_view(before) + lines_view(added));
        i += 1;
    }
    proof {
        lemma_pane_prefix(
            diff.hunks@,
            rv,
            off as nat,
            i as nat,
            n as nat,
            hunk as nat,
            whole_file,
            inner as nat,
            view,
        );
    }
    let ghost full = out@;
    assert(lines_view(full).len() == full.len());
    if out.len() > height {
        out.truncate(height);
    }
    assert(lines_view(out@) =~= keep_n(lines_view(full), height as nat));
    assert(keep_n(lines_view(full), height as nat) =~= keep_n(all, height as nat));
    out
}

proof fn lemma_pane_prefix(
    hunks: Seq<Hunk>,
    rows: Seq<RowView>,
    from: nat,
    k: nat,
    n: nat,
    hunk: nat,
    whole_file: bool,
    inner: nat,
    code: CodeView,
)
    requires
        k <= n,
    ensures
        pane_rows(hunks, rows, from, k, hunk, whole_file, inner, code).len() <= pane_rows(
            hunks,
            rows,
            from,
            n,
            hunk,
            whole_file,
            inner,
            code,
        ).len(),
        pane_rows(hunks, rows, from, n, hunk, whole_file, inner, code).take(
            pane_rows(hunks, rows, from, k, hunk, whole_file, inner, code).len() as int,
        ) == pane_rows(hunks, rows, from, k, hunk, whole_file, inner, code),
    decreases n,
{
    let a = pane_rows(hunks, rows, from, k, hunk, whole_file, inner, code);
    if k == n || n <= from {
        assert(a.take(a.len() as int) =~= a);
    } else {
        lemma_pane_prefix(hunks, rows, from, k, (n - 1) as nat, hunk, whole_file, inner, code);
        let mid = pane_rows(hunks, rows, from, (n - 1) as nat, hunk, whole_file, inner, code);
        let all = pane_rows(hunks, rows, from, n, hunk, whole_file, inner, code);
        assert(all.take(a.len() as int) =~= mid.take(a.len() as int));
    }
}

} // verus!
