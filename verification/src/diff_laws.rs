//! What a diff looks like: which line is marked as what, what stands beside
//! what, and how a view of it scrolls.

use crate::app_model::AppView;
use crate::code_cells::{
    cell_columns, cell_style, changed_flags, expanded, grouped, gutter_text, law_cells_wrap,
    side_cells, side_chunks, side_row, side_rows, wash, with_char, with_room, wrapped_cells,
    CodeView,
};
use crate::diff_pane::{
    drop_n, flat, keep_n, pane_row, row_or_blank, split_lines, unified_row, unified_rows, unified_side,
    unified_window,
};
use crate::diff_rows::{
    hunk_rows, law_gutter_counts_up, new_lines, new_numbers, old_lines, old_numbers, paired_row,
    paired_rows, rows_of_hunks, run_end, unified_len, RowView, SideKind, SideView,
};
use crate::layout::Rect;
use crate::markdown_table::span;
use crate::markdown_wrap::row_text;
use crate::model::{DiffLine, FileDiff, Hunk, LineKind};
use crate::panel_diff::{code_of, preview_window};
use crate::panels::inner_height;
use crate::style::{Color, Modifier, SpanView, Style};
use crate::text::{decimal, repeated};
use crate::theme::Theme;
use crate::width::cells;
use crate::words::{
    char_diff, new_segs, old_segs, side_segs, with_seg, ChangeKind, ChangeView, SegView,
};
use syntect::parsing::SyntaxSet;
use vstd::prelude::*;
use vstd::string::*;
use vstd::utf8::encode_utf8;

verus! {

/// What stands in front of a line in the unified view: a minus for a deleted
/// line, a plus for an added one, and two blanks for any other.
pub open spec fn mark_of(kind: SideKind) -> Seq<char> {
    match kind {
        SideKind::Del => seq!['-', ' '],
        SideKind::Add => seq!['+', ' '],
        _ => seq![' ', ' '],
    }
}

/// The color of that mark, if it has one.
pub open spec fn mark_color(kind: SideKind, theme: Theme) -> Option<Color> {
    match kind {
        SideKind::Del => Some(theme.conflicted),
        SideKind::Add => Some(theme.staged),
        _ => None,
    }
}

/// The lines of the file that a row stands for, in the order of the unified
/// view: a context line once, a deleted line before the added one beside it.
pub open spec fn unified_sides(left: SideView, right: SideView) -> Seq<SideView> {
    if left.kind == SideKind::Context {
        seq![left]
    } else {
        (if left.kind == SideKind::Del {
            seq![left]
        } else {
            Seq::empty()
        }) + (if right.kind == SideKind::Add {
            seq![right]
        } else {
            Seq::empty()
        })
    }
}

/// Whether visual rows show a line: its mark in front of the first of them, two
/// blanks in front of the others, and the line's own rows behind that.
pub open spec fn shows(
    rows: Seq<Seq<SpanView>>,
    side: SideView,
    width: nat,
    code: CodeView,
) -> bool {
    let own = side_rows(
        side,
        if width >= 2 {
            (width - 2) as nat
        } else {
            0
        },
        code,
    );
    &&& rows.len() == own.len()
    &&& rows.len() > 0
    &&& forall|i: int|
        0 <= i < rows.len() ==> {
            let row = #[trigger] rows[i];
            &&& row.len() > 0
            &&& row[0].text == (if i == 0 {
                mark_of(side.kind)
            } else {
                seq![' ', ' ']
            })
            &&& row[0].style.fg == mark_color(side.kind, code.theme)
            &&& row.skip(1) == own[i]
        }
}

proof fn lemma_unified_side(marker: Seq<char>, style: Style, side: SideView, width: nat, code: CodeView)
    requires
        marker == mark_of(side.kind),
        style.fg == mark_color(side.kind, code.theme),
    ensures
        shows(unified_side(marker, style, side, width, code), side, width, code),
{
    reveal_strlit("  ");
    let rows = unified_side(marker, style, side, width, code);
    assert("  "@ =~= seq![' ', ' ']);
    let w = if width >= 2 {
        (width - 2) as nat
    } else {
        0
    };
    let own = side_rows(side, w, code);
    assert forall|i: int| 0 <= i < rows.len() implies {
        let row = #[trigger] rows[i];
        &&& row.len() > 0
        &&& row[0].text == (if i == 0 {
            mark_of(side.kind)
        } else {
            seq![' ', ' ']
        })
        &&& row[0].style.fg == mark_color(side.kind, code.theme)
        &&& row.skip(1) == own[i]
    } by {
        assert(rows[i].skip(1) =~= own[i]);
    }
}

/// In the unified view, the first visual row of a deleted line starts with a
/// minus, that of an added line with a plus and that of a context line with two
/// blanks; rows that continue a line start with blanks, whatever it is.
pub proof fn law_unified_row_is_marked(
    hunks: Seq<Hunk>,
    left: SideView,
    right: SideView,
    width: nat,
    code: CodeView,
)
    ensures
        ({
            let groups = unified_row(hunks, RowView::Split { left, right }, width, code);
            let sides = unified_sides(left, right);
            &&& groups.len() == sides.len()
            &&& forall|g: int|
                0 <= g < groups.len() ==> shows(#[trigger] groups[g], sides[g], width, code)
        }),
{
    reveal_strlit("- ");
    reveal_strlit("+ ");
    reveal_strlit("  ");
    assert("- "@ =~= seq!['-', ' ']);
    assert("+ "@ =~= seq!['+', ' ']);
    assert("  "@ =~= seq![' ', ' ']);
    if left.kind == SideKind::Context {
        lemma_unified_side("  "@, Style::plain(), left, width, code);
    }
    if left.kind == SideKind::Del {
        let style = Style::plain().fg(code.theme.conflicted).add_modifier(Modifier::bold());
        lemma_unified_side("- "@, style, left, width, code);
    }
    if right.kind == SideKind::Add {
        let style = Style::plain().fg(code.theme.staged).add_modifier(Modifier::bold());
        lemma_unified_side("+ "@, style, right, width, code);
    }
}

/// The lines that the first `k` rows of a diff stand for, in the order of the
/// unified view; a hunk's header is none.
pub open spec fn unified_list(rows: Seq<RowView>, k: nat) -> Seq<Option<SideView>>
    decreases k,
{
    if k == 0 {
        Seq::empty()
    } else {
        unified_list(rows, (k - 1) as nat) + match rows[k - 1] {
            RowView::Header { .. } => seq![None],
            RowView::Split { left, right } => unified_sides(left, right).map_values(
                |s: SideView| Some(s),
            ),
        }
    }
}

/// Every line of a whole diff is shown in the unified view, in order and with
/// its own mark.
pub proof fn law_unified_diff_is_marked(
    hunks: Seq<Hunk>,
    rows: Seq<RowView>,
    k: nat,
    width: nat,
    code: CodeView,
)
    requires
        k <= rows.len(),
    ensures
        ({
            let groups = unified_rows(hunks, rows, k, width, code);
            let list = unified_list(rows, k);
            &&& groups.len() == list.len()
            &&& forall|g: int|
                0 <= g < groups.len() && (#[trigger] list[g]) is Some ==> shows(
                    groups[g],
                    list[g]->0,
                    width,
                    code,
                )
        }),
    decreases k,
{
    if k > 0 {
        law_unified_diff_is_marked(hunks, rows, (k - 1) as nat, width, code);
        let groups = unified_rows(hunks, rows, k, width, code);
        let list = unified_list(rows, k);
        let n = unified_list(rows, (k - 1) as nat).len();
        match rows[k - 1] {
            RowView::Header { index } => {
                assert(unified_row(hunks, rows[k - 1], width, code).len() == 1);
            },
            RowView::Split { left, right } => {
                law_unified_row_is_marked(hunks, left, right, width, code);
                let sides = unified_sides(left, right);
                let last = unified_row(hunks, rows[k - 1], width, code);
                assert forall|g: int| 0 <= g < groups.len() && (#[trigger] list[g]) is Some implies shows(
                    groups[g],
                    list[g]->0,
                    width,
                    code,
                ) by {
                    if g >= n {
                        assert(shows(last[g - n], sides[g - n], width, code));
                    } else {
                        assert(list[g] == unified_list(rows, (k - 1) as nat)[g]);
                    }
                }
            },
        }
    }
}

/// The kinds of the old lines among rows: context or deleted.
pub open spec fn left_kinds(rows: Seq<RowView>) -> Seq<SideKind>
    decreases rows.len(),
{
    if rows.len() == 0 {
        Seq::empty()
    } else {
        left_kinds(rows.drop_last()) + match rows.last() {
            RowView::Split { left, .. } => if left.kind == SideKind::Blank {
                Seq::empty()
            } else {
                seq![left.kind]
            },
            RowView::Header { .. } => Seq::empty(),
        }
    }
}

/// The kinds of the new lines among rows: context or added.
pub open spec fn right_kinds(rows: Seq<RowView>) -> Seq<SideKind>
    decreases rows.len(),
{
    if rows.len() == 0 {
        Seq::empty()
    } else {
        right_kinds(rows.drop_last()) + match rows.last() {
            RowView::Split { right, .. } => if right.kind == SideKind::Blank {
                Seq::empty()
            } else {
                seq![right.kind]
            },
            RowView::Header { .. } => Seq::empty(),
        }
    }
}

/// The kinds of a hunk's lines from `i` on that are in the old file.
pub open spec fn old_kinds(lines: Seq<DiffLine>, i: int) -> Seq<SideKind>
    decreases lines.len() - i,
{
    if i < 0 || i >= lines.len() {
        Seq::empty()
    } else {
        (match lines[i].kind {
            LineKind::Context => seq![SideKind::Context],
            LineKind::Del => seq![SideKind::Del],
            _ => Seq::empty(),
        }) + old_kinds(lines, i + 1)
    }
}

/// The kinds of a hunk's lines from `i` on that are in the new file.
pub open spec fn new_kinds(lines: Seq<DiffLine>, i: int) -> Seq<SideKind>
    decreases lines.len() - i,
{
    if i < 0 || i >= lines.len() {
        Seq::empty()
    } else {
        (match lines[i].kind {
            LineKind::Context => seq![SideKind::Context],
            LineKind::Add => seq![SideKind::Add],
            _ => Seq::empty(),
        }) + new_kinds(lines, i + 1)
    }
}

proof fn lemma_kinds_concat(a: Seq<RowView>, b: Seq<RowView>)
    ensures
        left_kinds(a + b) == left_kinds(a) + left_kinds(b),
        right_kinds(a + b) == right_kinds(a) + right_kinds(b),
    decreases b.len(),
{
    if b.len() == 0 {
        assert(a + b =~= a);
        assert(left_kinds(a + b) =~= left_kinds(a) + left_kinds(b));
        assert(right_kinds(a + b) =~= right_kinds(a) + right_kinds(b));
    } else {
        lemma_kinds_concat(a, b.drop_last());
        assert((a + b).drop_last() =~= a + b.drop_last());
        assert(left_kinds(a + b) =~= left_kinds(a) + left_kinds(b));
        assert(right_kinds(a + b) =~= right_kinds(a) + right_kinds(b));
    }
}

proof fn lemma_del_run(lines: Seq<DiffLine>, i: int, d: int)
    requires
        0 <= i <= d <= lines.len(),
        forall|k: int| i <= k < d ==> (#[trigger] lines[k]).kind == LineKind::Del,
    ensures
        old_kinds(lines, i) == Seq::new((d - i) as nat, |k: int| SideKind::Del) + old_kinds(
            lines,
            d,
        ),
        new_kinds(lines, i) == new_kinds(lines, d),
    decreases d - i,
{
    if i < d {
        lemma_del_run(lines, i + 1, d);
        assert(lines[i].kind == LineKind::Del);
    }
    assert(old_kinds(lines, i) =~= Seq::new((d - i) as nat, |k: int| SideKind::Del) + old_kinds(
        lines,
        d,
    ));
    assert(new_kinds(lines, i) =~= new_kinds(lines, d));
}

proof fn lemma_add_run(lines: Seq<DiffLine>, i: int, a: int)
    requires
        0 <= i <= a <= lines.len(),
        forall|k: int| i <= k < a ==> (#[trigger] lines[k]).kind == LineKind::Add,
    ensures
        new_kinds(lines, i) == Seq::new((a - i) as nat, |k: int| SideKind::Add) + new_kinds(
            lines,
            a,
        ),
        old_kinds(lines, i) == old_kinds(lines, a),
    decreases a - i,
{
    if i < a {
        lemma_add_run(lines, i + 1, a);
        assert(lines[i].kind == LineKind::Add);
    }
    assert(new_kinds(lines, i) =~= Seq::new((a - i) as nat, |k: int| SideKind::Add) + new_kinds(
        lines,
        a,
    ));
    assert(old_kinds(lines, i) =~= old_kinds(lines, a));
}

proof fn lemma_paired_kinds(
    lines: Seq<DiffLine>,
    i: int,
    d: int,
    a: int,
    old_no: nat,
    new_no: nat,
    n: nat,
)
    requires
        i <= d <= a,
    ensures
        ({
            let rows = Seq::new(n, |k: int| paired_row(lines, i, d, a, old_no, new_no, k));
            let dels = if n <= d - i {
                n
            } else {
                (d - i) as nat
            };
            let adds = if n <= a - d {
                n
            } else {
                (a - d) as nat
            };
            &&& left_kinds(rows) == Seq::new(dels, |k: int| SideKind::Del)
            &&& right_kinds(rows) == Seq::new(adds, |k: int| SideKind::Add)
        }),
    decreases n,
{
    let rows = Seq::new(n, |k: int| paired_row(lines, i, d, a, old_no, new_no, k));
    if n > 0 {
        lemma_paired_kinds(lines, i, d, a, old_no, new_no, (n - 1) as nat);
        assert(rows.drop_last() =~= Seq::new(
            (n - 1) as nat,
            |k: int| paired_row(lines, i, d, a, old_no, new_no, k),
        ));
    }
    let dels = if n <= d - i {
        n
    } else {
        (d - i) as nat
    };
    let adds = if n <= a - d {
        n
    } else {
        (a - d) as nat
    };
    assert(left_kinds(rows) =~= Seq::new(dels, |k: int| SideKind::Del));
    assert(right_kinds(rows) =~= Seq::new(adds, |k: int| SideKind::Add));
}

proof fn lemma_run(lines: Seq<DiffLine>, i: int, kind: LineKind)
    requires
        0 <= i <= lines.len(),
    ensures
        i <= run_end(lines, i, kind) <= lines.len(),
        forall|k: int| i <= k < run_end(lines, i, kind) ==> (#[trigger] lines[k]).kind == kind,
        run_end(lines, i, kind) < lines.len() ==> lines[run_end(lines, i, kind)].kind != kind,
    decreases lines.len() - i,
{
    if i < lines.len() && lines[i].kind == kind {
        lemma_run(lines, i + 1, kind);
    }
}

/// The rows of a hunk show each of its lines for what it is: on the left the
/// lines of the old file in order, deleted or context, and on the right those of
/// the new file, added or context. No line is left out or shown as another kind.
pub proof fn law_rows_show_every_line(
    lines: Seq<DiffLine>,
    i: int,
    old_no: nat,
    new_no: nat,
)
    requires
        0 <= i <= lines.len(),
    ensures
        left_kinds(hunk_rows(lines, i, old_no, new_no)) == old_kinds(lines, i),
        right_kinds(hunk_rows(lines, i, old_no, new_no)) == new_kinds(lines, i),
    decreases lines.len() - i,
{
    if i < lines.len() {
        let d = run_end(lines, i, LineKind::Del);
        lemma_run(lines, i, LineKind::Del);
        let a = run_end(lines, d, LineKind::Add);
        lemma_run(lines, d, LineKind::Add);
        if a > i {
            let block = paired_rows(lines, i, d, a, old_no, new_no);
            let rest = hunk_rows(lines, a, (old_no + (d - i)) as nat, (new_no + (a - d)) as nat);
            law_rows_show_every_line(lines, a, (old_no + (d - i)) as nat, (new_no + (a - d)) as nat);
            lemma_del_run(lines, i, d);
            lemma_add_run(lines, d, a);
            lemma_paired_kinds(lines, i, d, a, old_no, new_no, block.len());
            assert(block =~= Seq::new(
                block.len(),
                |k: int| paired_row(lines, i, d, a, old_no, new_no, k),
            ));
            lemma_kinds_concat(block, rest);
        } else if lines[i].kind == LineKind::HunkHeader {
            law_rows_show_every_line(lines, i + 1, old_no, new_no);
            assert(old_kinds(lines, i) =~= old_kinds(lines, i + 1));
            assert(new_kinds(lines, i) =~= new_kinds(lines, i + 1));
        } else {
            law_rows_show_every_line(lines, i + 1, old_no + 1, new_no + 1);
            let rest = hunk_rows(lines, i + 1, old_no + 1, new_no + 1);
            let row = hunk_rows(lines, i, old_no, new_no)[0];
            assert(lines[i].kind == LineKind::Context);
            lemma_kinds_concat(seq![row], rest);
            reveal_with_fuel(left_kinds, 2);
            reveal_with_fuel(right_kinds, 2);
            assert(seq![row].drop_last() =~= Seq::empty());
            assert(left_kinds(seq![row]) =~= seq![SideKind::Context]);
            assert(right_kinds(seq![row]) =~= seq![SideKind::Context]);
        }
    }
}

/// Beside a deleted line stands an added one or nothing, beside an added line a
/// deleted one or nothing, and beside a context line the same line.
pub proof fn law_rows_are_paired(
    lines: Seq<DiffLine>,
    i: int,
    old_no: nat,
    new_no: nat,
    k: int,
)
    requires
        0 <= i <= lines.len(),
        0 <= k < hunk_rows(lines, i, old_no, new_no).len(),
    ensures
        ({
            let row = hunk_rows(lines, i, old_no, new_no)[k];
            &&& row is Split
            &&& row->left.kind != SideKind::Add
            &&& row->right.kind != SideKind::Del
            &&& row->left.kind == SideKind::Context <==> row->right.kind == SideKind::Context
            &&& row->left.kind == SideKind::Context ==> row->left.segs == row->right.segs
            &&& !(row->left.kind == SideKind::Blank && row->right.kind == SideKind::Blank)
        }),
    decreases lines.len() - i,
{
    let d = run_end(lines, i, LineKind::Del);
    lemma_run(lines, i, LineKind::Del);
    let a = run_end(lines, d, LineKind::Add);
    lemma_run(lines, d, LineKind::Add);
    if a > i {
        let block = paired_rows(lines, i, d, a, old_no, new_no);
        if k >= block.len() {
            law_rows_are_paired(
                lines,
                a,
                (old_no + (d - i)) as nat,
                (new_no + (a - d)) as nat,
                k - block.len(),
            );
        }
    } else if lines[i].kind == LineKind::HunkHeader {
        law_rows_are_paired(lines, i + 1, old_no, new_no, k);
    } else if k > 0 {
        law_rows_are_paired(lines, i + 1, old_no + 1, new_no + 1, k - 1);
    }
}

/// The text of the runs that did not change.
pub open spec fn kept_text(segs: Seq<SegView>) -> Seq<char>
    decreases segs.len(),
{
    if segs.len() == 0 {
        Seq::empty()
    } else if segs.last().changed {
        kept_text(segs.drop_last())
    } else {
        kept_text(segs.drop_last()) + segs.last().text
    }
}

proof fn lemma_kept_with(segs: Seq<SegView>, text: Seq<char>, changed: bool)
    ensures
        kept_text(with_seg(segs, text, changed)) == (if changed {
            kept_text(segs)
        } else {
            kept_text(segs) + text
        }),
{
    let after = with_seg(segs, text, changed);
    if segs.len() > 0 && segs.last().changed == changed {
        assert(after.drop_last() =~= segs.drop_last());
        if !changed {
            assert(kept_text(after) =~= kept_text(segs) + text);
        }
    } else {
        assert(after.drop_last() =~= segs);
    }
}

proof fn lemma_kept_sides(changes: Seq<ChangeView>, k: nat)
    requires
        k <= changes.len(),
    ensures
        kept_text(side_segs(changes, ChangeKind::Delete, k)) == kept_text(
            side_segs(changes, ChangeKind::Insert, k),
        ),
    decreases k,
{
    if k > 0 {
        lemma_kept_sides(changes, (k - 1) as nat);
        let c = changes[k - 1];
        let old = side_segs(changes, ChangeKind::Delete, (k - 1) as nat);
        let new = side_segs(changes, ChangeKind::Insert, (k - 1) as nat);
        lemma_kept_with(old, c.text, false);
        lemma_kept_with(new, c.text, false);
        lemma_kept_with(old, c.text, true);
        lemma_kept_with(new, c.text, true);
    }
}

/// What is not marked as changed is the same in the old and the new line.
pub proof fn law_unchanged_text_agrees(old: Seq<char>, new: Seq<char>)
    ensures
        kept_text(old_segs(old, new)) == kept_text(new_segs(old, new)),
{
    reveal_with_fuel(kept_text, 2);
    let changes = char_diff(old, new);
    lemma_kept_sides(changes, changes.len());
}

/// A character of a line is washed by what the line is: deleted and added lines
/// are bold on their own backgrounds, what changed within a deleted line stands
/// on a stronger one, and the color of the syntax stays.
pub proof fn law_changes_are_washed(
    fg: Color,
    modifier: Modifier,
    changed: bool,
    kind: SideKind,
    theme: Theme,
)
    ensures
        ({
            let style = cell_style(fg, modifier, changed, kind, theme);
            let bold = modifier.union(Modifier::bold());
            &&& style.fg == Some(fg)
            &&& kind == SideKind::Del ==> style.modifier == bold && style.bg == Some(
                if changed {
                    theme.diff_del_word_bg
                } else {
                    theme.diff_del_bg
                },
            )
            &&& kind == SideKind::Add ==> style.modifier == bold && style.bg == Some(
                theme.diff_add_bg,
            )
            &&& kind == SideKind::Context ==> style.bg == Some(theme.bg)
            &&& wash(kind, theme) == (match kind {
                SideKind::Del => theme.diff_del_bg,
                SideKind::Add => theme.diff_add_bg,
                _ => theme.bg,
            })
        }),
{
}

/// A tab goes to the next place that is a multiple of eight columns, a carriage
/// return is dropped, and any other character is shown as it is.
pub proof fn law_cells_expand(
    text: Seq<char>,
    styles: Seq<(Color, Modifier)>,
    flags: Seq<bool>,
    k: int,
    n: int,
    col: nat,
    kind: SideKind,
    theme: Theme,
) -> (blanks: nat)
    requires
        0 <= k < n,
    ensures
        text[k] == '\t' ==> {
            &&& 1 <= blanks <= 8
            &&& (col + blanks) % 8 == 0
            &&& expanded(text, styles, flags, k, n, col, kind, theme).map_values(
                |c: (char, Style)| c.0,
            ) == repeated(' ', blanks) + expanded(
                text,
                styles,
                flags,
                k + 1,
                n,
                col + blanks,
                kind,
                theme,
            ).map_values(|c: (char, Style)| c.0)
        },
        text[k] == '\r' ==> expanded(text, styles, flags, k, n, col, kind, theme) == expanded(
            text,
            styles,
            flags,
            k + 1,
            n,
            col,
            kind,
            theme,
        ),
        text[k] != '\t' && text[k] != '\r' ==> {
            &&& expanded(text, styles, flags, k, n, col, kind, theme).len() > 0
            &&& expanded(text, styles, flags, k, n, col, kind, theme)[0].0 == text[k]
        },
{
    let blanks = (8 - col % 8) as nat;
    let rest = expanded(text, styles, flags, k + 1, n, col + blanks, kind, theme);
    if text[k] == '\t' {
        assert(expanded(text, styles, flags, k, n, col, kind, theme).map_values(
            |c: (char, Style)| c.0,
        ) =~= repeated(' ', blanks) + rest.map_values(|c: (char, Style)| c.0));
    }
    blanks
}

/// A character is marked as changed exactly when its run is: there is one flag
/// for each character of the line.
pub proof fn law_flags_cover_the_line(segs: Seq<SegView>)
    ensures
        changed_flags(segs).len() == crate::words::segs_text(segs).len(),
    decreases segs.len(),
{
    if segs.len() > 0 {
        law_flags_cover_the_line(segs.drop_last());
    }
}

/// The spans of a row read as its characters do, and no two neighbouring spans
/// have the same style.
pub proof fn law_spans_keep_characters(row: Seq<(char, Style)>)
    ensures
        row_text(grouped(row)) == row.map_values(|c: (char, Style)| c.0),
        forall|i: int|
            0 <= i < grouped(row).len() - 1 ==> (#[trigger] grouped(row)[i]).style != grouped(
                row,
            )[i + 1].style,
        row.len() > 0 ==> grouped(row).len() > 0 && grouped(row).last().style == row.last().1,
    decreases row.len(),
{
    let spans = grouped(row);
    if row.len() > 0 {
        let before = grouped(row.drop_last());
        law_spans_keep_characters(row.drop_last());
        let (c, style) = row.last();
        assert(spans == with_char(before, c, style));
        if before.len() > 0 && before.last().style == style {
            assert(spans.drop_last() =~= before.drop_last());
        } else {
            assert(spans.drop_last() =~= before);
        }
        assert(row_text(spans) =~= row_text(before).push(c));
        assert(row_text(spans) =~= row.map_values(|c: (char, Style)| c.0));
        assert forall|i: int| 0 <= i < spans.len() - 1 implies (#[trigger] spans[i]).style
            != spans[i + 1].style by {
            if i + 1 < before.len() {
                assert(before[i].style != before[i + 1].style);
            }
        }
    } else {
        assert(row_text(spans) =~= row.map_values(|c: (char, Style)| c.0));
    }
}

/// The gutter holds the line's number at its right edge, and one blank behind
/// it; a line without a number has blanks there.
pub proof fn law_gutter_is_right_aligned(no: Option<nat>, w: nat)
    ensures
        ({
            let text = gutter_text(no, w);
            let shown = match no {
                Some(n) => decimal(n),
                None => Seq::empty(),
            };
            let pad = text.len() - 1 - shown.len();
            &&& text.len() >= w + 1
            &&& shown.len() <= w ==> text.len() == w + 1
            &&& text.last() == ' '
            &&& pad >= 0
            &&& text.subrange(pad, text.len() - 1) == shown
            &&& forall|i: int| 0 <= i < pad ==> #[trigger] text[i] == ' '
        }),
{
    let text = gutter_text(no, w);
    let shown = match no {
        Some(n) => decimal(n),
        None => Seq::empty(),
    };
    let pad = text.len() - 1 - shown.len();
    assert(text.subrange(pad, text.len() - 1) =~= shown);
}

/// The header of a hunk is pointed at exactly when the hunk is the selected one.
pub proof fn law_selected_hunk_is_pointed_at(
    hunks: Seq<Hunk>,
    index: nat,
    hunk: nat,
    whole_file: bool,
    inner: nat,
    code: CodeView,
)
    ensures
        ({
            let lines = pane_row(
                hunks,
                RowView::Header { index },
                hunk,
                whole_file,
                inner,
                code,
            );
            let mark = if index == hunk {
                seq!['>', ' ']
            } else {
                seq![' ', ' ']
            };
            &&& lines.len() == 1
            &&& row_text(lines[0]) == mark + hunks[index as int].header@
            &&& index == hunk <==> lines[0][0].style.modifier == Modifier::bold()
        }),
{
    reveal_strlit("> ");
    reveal_strlit("  ");
    assert("> "@ =~= seq!['>', ' ']);
    assert("  "@ =~= seq![' ', ' ']);
    reveal_with_fuel(row_text, 2);
    let lines = pane_row(hunks, RowView::Header { index }, hunk, whole_file, inner, code);
    assert(lines[0].drop_last() =~= Seq::empty());
    let text = lines[0][0].text;
    assert(row_text(lines[0]) =~= text);
}

/// Side by side, the old line is left of the bar and the new line right of it,
/// in as many rows as the longer one takes, and both together take up exactly
/// the width of the pane.
pub proof fn law_old_is_left_of_new(
    hunks: Seq<Hunk>,
    left: SideView,
    right: SideView,
    hunk: nat,
    inner: nat,
    code: CodeView,
) -> (widths: (nat, nat))
    requires
        inner >= 1,
    ensures
        ({
            let (l, r) = widths;
            let lines = pane_row(
                hunks,
                RowView::Split { left, right },
                hunk,
                false,
                inner,
                code,
            );
            let old = side_rows(left, l, code);
            let new = side_rows(right, r, code);
            &&& l + 1 + r == inner
            &&& l == r || l + 1 == r
            &&& lines.len() == if old.len() >= new.len() {
                old.len()
            } else {
                new.len()
            }
            &&& forall|i: int|
                0 <= i < old.len() && i < new.len() ==> (#[trigger] lines[i]) == old[i].push(
                    span(seq!['│'], Style::plain().fg(code.theme.line_nr).bg(code.theme.bg)),
                ) + new[i]
        }),
{
    reveal_strlit("│");
    assert("│"@ =~= seq!['│']);
    let l = ((inner - 1) as nat / 2) as nat;
    let r = (inner - (l + 1)) as nat;
    let lines = pane_row(hunks, RowView::Split { left, right }, hunk, false, inner, code);
    assert(lines == split_lines(left, right, l, r, code));
    (l, r)
}

proof fn lemma_flat_first(first: Seq<Seq<SpanView>>, rest: Seq<Seq<Seq<SpanView>>>)
    ensures
        flat(seq![first] + rest) == first + flat(rest),
    decreases rest.len(),
{
    let all = seq![first] + rest;
    if rest.len() == 0 {
        reveal_with_fuel(flat, 2);
        assert(all.drop_last() =~= Seq::empty());
        assert(flat(all) =~= first + flat(rest));
    } else {
        lemma_flat_first(first, rest.drop_last());
        assert(all.drop_last() =~= seq![first] + rest.drop_last());
        assert(flat(all) =~= first + flat(rest));
    }
}

/// The unified view scrolls line by line: with room for all, scrolling on by one
/// takes exactly the rows of the first line away; and a lower pane shows the
/// start of what a higher one shows.
pub proof fn law_unified_view_scrolls(
    hunks: Seq<Hunk>,
    rows: Seq<RowView>,
    width: nat,
    skip: nat,
    take: nat,
    code: CodeView,
)
    requires
        skip < unified_rows(hunks, rows, rows.len(), width, code).len(),
    ensures
        ({
            let groups = unified_rows(hunks, rows, rows.len(), width, code);
            let here = unified_window(hunks, rows, width, skip, take, code);
            let wider = unified_window(hunks, rows, width, skip, take + 1, code);
            let next = unified_window(hunks, rows, width, skip + 1, take, code);
            &&& here.len() <= take
            &&& here.len() <= wider.len()
            &&& here == wider.take(here.len() as int)
            &&& take >= flat(drop_n(groups, skip)).len() ==> here == groups[skip as int] + next
        }),
{
    let groups = unified_rows(hunks, rows, rows.len(), width, code);
    let rest = drop_n(groups, skip);
    assert(rest =~= seq![groups[skip as int]] + drop_n(groups, skip + 1));
    lemma_flat_first(groups[skip as int], drop_n(groups, skip + 1));
    let here = keep_n(flat(rest), take);
    assert(here =~= keep_n(flat(rest), take + 1).take(here.len() as int));
}

/// The rows of a line show its number once: the first row has it in its gutter,
/// and the gutters of the others are blank.
pub proof fn law_numbers_show_once(side: SideView, width: nat, code: CodeView, i: int)
    requires
        width > code.gutter_w + 1,
        0 <= i < side_rows(side, width, code).len(),
    ensures
        ({
            let gutter = side_rows(side, width, code)[i][0];
            &&& i == 0 ==> gutter.text == gutter_text(side.no, code.gutter_w)
            &&& i > 0 ==> gutter.text == repeated(' ', code.gutter_w + 1)
            &&& gutter.style.fg == Some(code.theme.line_nr)
        }),
{
}

/// A side without a line shows none: there is nothing behind its gutter but the
/// background.
pub proof fn law_blank_sides_are_blank(side: SideView, width: nat, code: CodeView)
    requires
        side.kind == SideKind::Blank,
        width > code.gutter_w + 1,
    ensures
        ({
            let rows = side_rows(side, width, code);
            &&& rows.len() == 1
            &&& rows[0].len() == 2
            &&& rows[0][1].text == repeated(' ', (width - (code.gutter_w + 1)) as nat)
            &&& rows[0][1].style.bg == Some(code.theme.bg)
        }),
{
    let rows = side_rows(side, width, code);
    let none = Seq::<(char, Style)>::empty();
    assert(grouped(none) =~= Seq::<SpanView>::empty());
    assert(rows[0] =~= seq![rows[0][0], rows[0][1]]);
}

/// In a whole file a context line takes up the full width once, and an old and a
/// new line stand one above the other.
pub proof fn law_whole_files_are_full_width(
    hunks: Seq<Hunk>,
    left: SideView,
    right: SideView,
    hunk: nat,
    inner: nat,
    code: CodeView,
)
    ensures
        ({
            let lines = pane_row(hunks, RowView::Split { left, right }, hunk, true, inner, code);
            &&& left.kind == SideKind::Context ==> lines == side_rows(left, inner, code)
            &&& left.kind != SideKind::Context ==> lines == side_rows(left, inner, code)
                + side_rows(right, inner, code)
        }),
{
}

/// Where one half of a row is higher than the other, the lower one goes on with
/// blanks on its own background, and the bar goes on between them.
pub proof fn law_lower_half_goes_on(
    left: SideView,
    right: SideView,
    half: nat,
    right_w: nat,
    code: CodeView,
    i: int,
)
    requires
        0 <= i < split_lines(left, right, half, right_w, code).len(),
    ensures
        ({
            let line = split_lines(left, right, half, right_w, code)[i];
            let old = side_rows(left, half, code);
            let new = side_rows(right, right_w, code);
            let none = Seq::<SegView>::empty();
            let below_old = side_rows(
                SideView { no: None, segs: none, kind: left.kind },
                half,
                code,
            )[0];
            let below_new = side_rows(
                SideView { no: None, segs: none, kind: right.kind },
                right_w,
                code,
            )[0];
            let l = if i < old.len() {
                old[i]
            } else {
                below_old
            };
            let r = if i < new.len() {
                new[i]
            } else {
                below_new
            };
            &&& line.take(l.len() as int) == l
            &&& line[l.len() as int].text == seq!['│']
            &&& line.skip(l.len() as int + 1) == r
        }),
{
    reveal_strlit("│");
    assert("│"@ =~= seq!['│']);
    let line = split_lines(left, right, half, right_w, code)[i];
    let l = row_or_blank(left, half, code, i);
    let r = row_or_blank(right, right_w, code, i);
    assert(line.take(l.len() as int) =~= l);
    assert(line.skip(l.len() as int + 1) =~= r);
}

/// The header of a hunk reads as it is in the unified view, behind two blanks.
pub proof fn law_unified_headers_read(hunks: Seq<Hunk>, index: nat, width: nat, code: CodeView)
    ensures
        ({
            let groups = unified_row(hunks, RowView::Header { index }, width, code);
            &&& groups.len() == 1
            &&& groups[0].len() == 1
            &&& groups[0][0].len() == 1
            &&& groups[0][0][0].text == seq![' ', ' '] + hunks[index as int].header@
        }),
{
    reveal_strlit("  ");
    assert("  "@ =~= seq![' ', ' ']);
}

/// The rows of a diff are those of its hunks in order: a header for each, and
/// below it its lines, the old ones numbered from where the hunk starts in the
/// old file, the new ones from where it starts in the new file.
pub proof fn law_hunks_are_numbered(hunks: Seq<Hunk>, k: nat)
    requires
        0 < k <= hunks.len(),
    ensures
        ({
            let h = hunks[k - 1];
            let before = rows_of_hunks(hunks, (k - 1) as nat);
            let rows = rows_of_hunks(hunks, k);
            let own = rows.skip(before.len() as int + 1);
            &&& rows.len() > before.len()
            &&& rows.take(before.len() as int) == before
            &&& rows[before.len() as int] == (RowView::Header { index: (k - 1) as nat })
            &&& old_numbers(own) == Seq::new(
                old_lines(h.lines@, 0),
                |i: int| (h.old_start + i) as nat,
            )
            &&& new_numbers(own) == Seq::new(
                new_lines(h.lines@, 0),
                |i: int| (h.new_start + i) as nat,
            )
            &&& left_kinds(own) == old_kinds(h.lines@, 0)
            &&& right_kinds(own) == new_kinds(h.lines@, 0)
        }),
{
    let h = hunks[k - 1];
    let before = rows_of_hunks(hunks, (k - 1) as nat);
    let rows = rows_of_hunks(hunks, k);
    let own = hunk_rows(h.lines@, 0, h.old_start as nat, h.new_start as nat);
    assert(rows.take(before.len() as int) =~= before);
    assert(rows.skip(before.len() as int + 1) =~= own);
    law_gutter_counts_up(h.lines@, 0, h.old_start as nat, h.new_start as nat);
    law_rows_show_every_line(h.lines@, 0, h.old_start as nat, h.new_start as nat);
    assert(old_numbers(own) =~= Seq::new(
        old_lines(h.lines@, 0),
        |i: int| (h.old_start + i) as nat,
    ));
    assert(new_numbers(own) =~= Seq::new(
        new_lines(h.lines@, 0),
        |i: int| (h.new_start + i) as nat,
    ));
}

/// A line that has nothing beside it changed as a whole.
pub proof fn law_lone_lines_changed(text: Seq<char>)
    requires
        text.len() > 0,
    ensures
        old_segs(text, Seq::empty()) == seq![SegView { text, changed: true }],
        new_segs(Seq::empty(), text) == seq![SegView { text, changed: true }],
        old_segs(Seq::empty(), text).len() == 0,
        new_segs(text, Seq::empty()).len() == 0,
{
}

/// A line without tabs and carriage returns is shown character by character.
pub proof fn law_plain_text_is_kept(
    text: Seq<char>,
    styles: Seq<(Color, Modifier)>,
    flags: Seq<bool>,
    k: int,
    n: int,
    col: nat,
    kind: SideKind,
    theme: Theme,
)
    requires
        0 <= k <= n <= text.len(),
        forall|i: int| k <= i < n ==> #[trigger] text[i] != '\t' && text[i] != '\r',
    ensures
        expanded(text, styles, flags, k, n, col, kind, theme).map_values(|c: (char, Style)| c.0)
            == text.subrange(k, n),
    decreases n - k,
{
    let all = expanded(text, styles, flags, k, n, col, kind, theme);
    if k < n {
        assert(text[k] != '\t' && text[k] != '\r');
        let next = col + cells(text[k]);
        let rest = expanded(text, styles, flags, k + 1, n, next, kind, theme);
        law_plain_text_is_kept(text, styles, flags, k + 1, n, next, kind, theme);
        let chars = rest.map_values(|c: (char, Style)| c.0);
        assert(all =~= seq![all[0]] + rest);
        assert(all[0].0 == text[k]);
        assert(seq![text[k]] + chars =~= text.subrange(k, n)) by {
            assert(chars == text.subrange(k + 1, n));
        }
        assert(all.map_values(|c: (char, Style)| c.0) =~= seq![text[k]] + chars);
    } else {
        assert(all.map_values(|c: (char, Style)| c.0) =~= text.subrange(k, n));
    }
}

/// A row reads as its gutter, its characters and blanks up to the edge.
pub proof fn law_rows_read(
    gutter: Seq<char>,
    row: Seq<(char, Style)>,
    w: nat,
    kind: SideKind,
    theme: Theme,
)
    requires
        cell_columns(row) <= w,
    ensures
        row_text(side_row(gutter, row, w, kind, theme)) == gutter + row.map_values(
            |c: (char, Style)| c.0,
        ) + repeated(' ', (w - cell_columns(row)) as nat),
{
    law_spans_keep_characters(row);
    let head = seq![span(gutter, Style::plain().fg(theme.line_nr).bg(theme.bg))];
    let body = head + grouped(row);
    lemma_row_text_concat(head, grouped(row));
    reveal_with_fuel(row_text, 2);
    assert(head.drop_last() =~= Seq::empty());
    assert(row_text(head) =~= gutter);
    let line = side_row(gutter, row, w, kind, theme);
    let blanks = repeated(' ', (w - cell_columns(row)) as nat);
    if cell_columns(row) < w {
        assert(line.drop_last() =~= body);
    } else {
        assert(blanks =~= Seq::empty());
    }
    assert(row_text(line) =~= gutter + row.map_values(|c: (char, Style)| c.0) + blanks);
}

proof fn lemma_row_text_concat(a: Seq<SpanView>, b: Seq<SpanView>)
    ensures
        row_text(a + b) == row_text(a) + row_text(b),
    decreases b.len(),
{
    if b.len() == 0 {
        assert(a + b =~= a);
        assert(row_text(a + b) =~= row_text(a) + row_text(b));
    } else {
        lemma_row_text_concat(a, b.drop_last());
        assert((a + b).drop_last() =~= a + b.drop_last());
        assert(row_text(a + b) =~= row_text(a) + row_text(b));
    }
}

/// A line that is too long for two rows ends with an ellipsis, which has room in
/// the last of them; one that is not is shown as a whole.
pub proof fn law_long_lines_are_cut(side: SideView, w: nat, code: CodeView)
    ensures
        ({
            let all = side_cells(side, code);
            let (rows, more) = wrapped_cells(all, w);
            let shown = side_chunks(side, w, code);
            &&& shown.len() == rows.len()
            &&& !more ==> shown == rows && shown.flatten() == all
            &&& more ==> {
                &&& shown.last().last().0 == '…'
                &&& shown.last().drop_last().is_prefix_of(rows.last())
                &&& shown.last().len() > 1 ==> cell_columns(shown.last().drop_last()) + 1 <= w
            }
        }),
{
    let all = side_cells(side, code);
    let (rows, more) = wrapped_cells(all, w);
    law_cells_wrap(all, w);
    lemma_with_room(rows.last(), w);
    let shown = side_chunks(side, w, code);
    if more {
        assert(shown.last().drop_last() =~= with_room(rows.last(), w));
    }
}

proof fn lemma_with_room(row: Seq<(char, Style)>, w: nat)
    ensures
        with_room(row, w).is_prefix_of(row),
        with_room(row, w).len() > 0 ==> cell_columns(with_room(row, w)) + 1 <= w,
    decreases row.len(),
{
    if row.len() > 0 && cell_columns(row) + 1 > w {
        lemma_with_room(row.drop_last(), w);
        let kept = with_room(row.drop_last(), w);
        assert(kept =~= row.take(kept.len() as int)) by {
            assert(kept == row.drop_last().take(kept.len() as int));
        }
    } else {
        assert(row =~= row.take(row.len() as int));
    }
}

proof fn lemma_unified_groups(
    hunks: Seq<Hunk>,
    rows: Seq<RowView>,
    k: nat,
    width: nat,
    code: CodeView,
)
    requires
        k <= rows.len(),
    ensures
        unified_rows(hunks, rows, k, width, code).len() == unified_len(rows, k),
        forall|g: int|
            0 <= g < unified_rows(hunks, rows, k, width, code).len() ==> (#[trigger] unified_rows(
                hunks,
                rows,
                k,
                width,
                code,
            )[g]).len() > 0,
    decreases k,
{
    if k > 0 {
        lemma_unified_groups(hunks, rows, (k - 1) as nat, width, code);
        let before = unified_rows(hunks, rows, (k - 1) as nat, width, code);
        let own = unified_row(hunks, rows[k - 1], width, code);
        let all = unified_rows(hunks, rows, k, width, code);
        if let RowView::Split { left, right } = rows[k - 1] {
            law_unified_row_is_marked(hunks, left, right, width, code);
            let sides = unified_sides(left, right);
            assert forall|g: int| 0 <= g < own.len() implies (#[trigger] own[g]).len() > 0 by {
                assert(shows(own[g], sides[g], width, code));
            }
        }
        assert forall|g: int| 0 <= g < all.len() implies (#[trigger] all[g]).len() > 0 by {
            if g < before.len() {
                assert(all[g] == before[g]);
            } else {
                assert(all[g] == own[g - before.len()]);
            }
        }
    }
}

/// Where a diff has more lines than the preview has rows, the last row says how
/// many more there are.
pub proof fn law_preview_counts_the_rest(
    app: AppView,
    d: FileDiff,
    by_file: Option<Seq<char>>,
    area: Rect,
    set: SyntaxSet,
)
    requires
        inner_height(area) >= 2,
        app.viewer.scroll + inner_height(area) < unified_len(
            app.viewer.rows(),
            app.viewer.rows().len(),
        ),
    ensures
        ({
            let rows = app.viewer.rows();
            let lines = preview_window(app, d, by_file, area, set);
            let rest = unified_len(rows, rows.len()) - app.viewer.scroll - (lines.len() - 1);
            &&& 2 <= lines.len() <= inner_height(area)
            &&& lines.last().len() == 1
            &&& lines.last()[0].text == "… "@ + decimal(rest as nat)
                + " more lines — enter for full screen"@
        }),
{
    let rows = app.viewer.rows();
    let code = code_of(app, d, by_file, set);
    let w = if area.width >= 2 {
        (area.width - 2) as nat
    } else {
        0
    };
    let off = app.viewer.scroll;
    let take = (inner_height(area) - 1) as nat;
    let groups = unified_rows(d.hunks@, rows, rows.len(), w, code);
    lemma_unified_groups(d.hunks@, rows, rows.len(), w, code);
    let rest = drop_n(groups, off);
    assert(rest =~= seq![groups[off as int]] + drop_n(groups, off + 1));
    lemma_flat_first(groups[off as int], drop_n(groups, off + 1));
    let shown = unified_window(d.hunks@, rows, w, off, take, code);
    assert(0 < shown.len() <= take);
}

/// The text of the changes that keep what they hold.
pub open spec fn equal_text(changes: Seq<ChangeView>, k: nat) -> Seq<char>
    decreases k,
{
    if k == 0 {
        Seq::empty()
    } else if changes[k - 1].kind == ChangeKind::Equal {
        equal_text(changes, (k - 1) as nat) + changes[k - 1].text
    } else {
        equal_text(changes, (k - 1) as nat)
    }
}

proof fn lemma_kept_is_equal(changes: Seq<ChangeView>, k: nat)
    requires
        k <= changes.len(),
    ensures
        kept_text(side_segs(changes, ChangeKind::Delete, k)) == equal_text(changes, k),
    decreases k,
{
    if k > 0 {
        lemma_kept_is_equal(changes, (k - 1) as nat);
        let c = changes[k - 1];
        let old = side_segs(changes, ChangeKind::Delete, (k - 1) as nat);
        lemma_kept_with(old, c.text, false);
        lemma_kept_with(old, c.text, true);
        if c.text.len() == 0 {
            assert(equal_text(changes, (k - 1) as nat) + c.text =~= equal_text(
                changes,
                (k - 1) as nat,
            ));
        }
    }
}

/// Two lines that are short together are compared: what the comparison found
/// equal is what is not marked as changed. Lines that are too long for it changed
/// as a whole.
pub proof fn law_short_lines_are_compared(old: Seq<char>, new: Seq<char>)
    requires
        old.len() > 0,
        new.len() > 0,
    ensures
        encode_utf8(old).len() + encode_utf8(new).len() <= 400 ==> kept_text(old_segs(old, new))
            == equal_text(char_diff(old, new), char_diff(old, new).len()) && kept_text(
            new_segs(old, new),
        ) == equal_text(char_diff(old, new), char_diff(old, new).len()),
        encode_utf8(old).len() + encode_utf8(new).len() > 400 ==> old_segs(old, new) == seq![
            SegView { text: old, changed: true },
        ] && new_segs(old, new) == seq![SegView { text: new, changed: true }],
{
    let changes = char_diff(old, new);
    lemma_kept_is_equal(changes, changes.len());
    lemma_kept_sides(changes, changes.len());
}

} // verus!
