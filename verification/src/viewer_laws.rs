//! What holds of the diff view whatever is loaded in it.

use crate::diff_rows::{header_at, rows_of_hunks, unified_len, RowView, SideKind, SideView};
use crate::model::{FileDiff, Hunk};
use crate::viewer::{
    chars_between, hunk_above, inner_lines, line_text, rows_of, selected_text, whole_lines,
    SelView, Showing, ViewerView, VisualMode, VisualView,
};
use crate::words::segs_text;
use vstd::prelude::*;

verus! {

/// After the view has followed the cursor the cursor's row is in it from its
/// first line, and to its last wherever the view is high enough for the row.
pub proof fn law_cursor_shows(v: ViewerView, at: Showing)
    requires
        !at.markdown,
        v.rows().len() > 0,
        v.lines_through(at.full) <= u16::MAX,
    ensures
        v.lines_through(at.full) - v.lines_before(at.full) <= v.height(at.full) ==> v.followed(
            at,
        ).scroll <= v.lines_before(at.full) && v.lines_through(at.full) <= v.followed(at).scroll
            + v.height(at.full),
        at.full ==> v.followed(at).scroll <= v.cursor < v.followed(at).scroll + v.height(true),
{
}

/// The view does not scroll as long as the cursor's row is in it.
pub proof fn law_view_stays(v: ViewerView, at: Showing)
    requires
        v.scroll <= v.lines_before(at.full),
        v.lines_through(at.full) <= v.scroll + v.height(at.full),
    ensures
        v.followed(at) == v,
{
}

/// The cursor stays on a row of the diff, and moving it keeps the block column.
pub proof fn law_cursor_in_diff(v: ViewerView, delta: int, at: Showing)
    requires
        v.rows().len() > 0,
        !at.markdown,
    ensures
        v.moved(delta, at).cursor < v.rows().len(),
        v.moved(delta, at).col == v.col,
        v.moved(delta, at).diff == v.diff,
        v.moved(delta, at).visual == v.visual,
{
}

/// The same key twice leaves the selection again; the other key keeps its
/// anchor.
pub proof fn law_visual_keys(v: ViewerView, at: Showing, mode: VisualMode, other: VisualMode)
    requires
        v.rows().len() > 0,
        !at.markdown,
        v.visual is None,
        other != mode,
    ensures
        v.selecting(mode, at).visual is Some,
        v.selecting(mode, at).selecting(mode, at) == v,
        v.selecting(mode, at).selecting(other, at).visual matches Some(w) && w.row == v.row()
            && w.col == v.col && w.mode == other,
{
}

/// A view with the cursor at one place and the anchor of a selection at another.
pub open spec fn spanning(
    v: ViewerView,
    cursor: (nat, nat),
    anchor: (nat, nat),
    mode: VisualMode,
) -> ViewerView {
    ViewerView {
        cursor: cursor.0,
        col: cursor.1,
        visual: Some(VisualView { row: anchor.0, col: anchor.1, mode }),
        ..v
    }
}

/// A selection is the same whichever of its ends is the anchor.
pub proof fn law_selection_is_symmetric(
    v: ViewerView,
    a: (nat, nat),
    b: (nat, nat),
    mode: VisualMode,
)
    requires
        a.0 < v.rows().len(),
        b.0 < v.rows().len(),
    ensures
        spanning(v, a, b, mode).selection() == spanning(v, b, a, mode).selection(),
        spanning(v, a, b, mode).yank_text() == spanning(v, b, a, mode).yank_text(),
{
}

/// Loading a diff drops the selection and keeps the cursor in the diff.
pub proof fn law_loading(v: ViewerView, diff: Option<FileDiff>)
    ensures
        v.loaded(diff).visual is None,
        v.loaded(diff).cursor < rows_of(diff).len() || v.loaded(diff).cursor == 0,
{
}

pub proof fn lemma_header_at(rows: Seq<RowView>, index: nat, i: int)
    requires
        0 <= i,
    ensures
        header_at(rows, index, i) matches Some(p) ==> i <= p < rows.len() && rows[p]
            == (RowView::Header { index }),
    decreases rows.len() - i,
{
    if i < rows.len() && rows[i] != (RowView::Header { index }) {
        lemma_header_at(rows, index, i + 1);
    }
}

proof fn lemma_header_found(rows: Seq<RowView>, index: nat, i: int, at: int)
    requires
        0 <= i <= at < rows.len(),
        rows[at] == (RowView::Header { index }),
    ensures
        header_at(rows, index, i) is Some,
    decreases at - i,
{
    if i < at && rows[i] != (RowView::Header { index }) {
        lemma_header_found(rows, index, i + 1, at);
    }
}

proof fn lemma_has_header(hunks: Seq<Hunk>, k: nat, index: nat) -> (at: int)
    requires
        index < k <= hunks.len(),
    ensures
        0 <= at < rows_of_hunks(hunks, k).len(),
        rows_of_hunks(hunks, k)[at] == (RowView::Header { index }),
    decreases k,
{
    let before = rows_of_hunks(hunks, (k - 1) as nat);
    if index == k - 1 {
        before.len() as int
    } else {
        let at = lemma_has_header(hunks, (k - 1) as nat, index);
        assert(rows_of_hunks(hunks, k)[at] == before[at]);
        at
    }
}

/// Jumping to a hunk puts the cursor in that hunk and its header on top of the
/// view, as long as a scroll offset can say where the header is.
pub proof fn law_hunk_jump(v: ViewerView, index: nat)
    requires
        index < v.hunks(),
        header_at(v.rows(), index, 0) matches Some(p) ==> p <= u16::MAX,
    ensures
        v.at_hunk(index).hunk == index,
        v.rows()[v.at_hunk(index).cursor as int] == (RowView::Header { index }),
        v.at_hunk(index).scroll == v.at_hunk(index).cursor,
        v.at_hunk(index).synced().hunk == index,
{
    let d = v.diff->0;
    let at = lemma_has_header(d.hunks@, d.hunks@.len(), index);
    lemma_header_found(v.rows(), index, 0, at);
    lemma_header_at(v.rows(), index, 0);
}

/// Lines one after the other, with a line break between any two of them.
pub open spec fn joined(lines: Seq<Seq<char>>) -> Seq<char>
    decreases lines.len(),
{
    if lines.len() == 0 {
        Seq::empty()
    } else if lines.len() == 1 {
        lines[0]
    } else {
        joined(lines.drop_last()).push('\n') + lines.last()
    }
}

/// The lines of the rows from one to another.
pub open spec fn lines_between(
    diff: FileDiff,
    rows: Seq<RowView>,
    first: nat,
    last: nat,
) -> Seq<Seq<char>> {
    Seq::new((last - first + 1) as nat, |i: int| line_text(diff, rows[first + i]))
}

proof fn lemma_joined(diff: FileDiff, rows: Seq<RowView>, first: nat, last: nat)
    requires
        first <= last,
    ensures
        joined(lines_between(diff, rows, first, last)) == line_text(diff, rows[first as int])
            + inner_lines(diff, rows, first + 1, last + 1),
    decreases last - first,
{
    let lines = lines_between(diff, rows, first, last);
    let head = line_text(diff, rows[first as int]);
    if first == last {
        assert(head + inner_lines(diff, rows, first + 1, last + 1) =~= head);
    } else {
        lemma_joined(diff, rows, first, (last - 1) as nat);
        assert(lines.drop_last() =~= lines_between(diff, rows, first, (last - 1) as nat));
        assert(joined(lines) =~= head + inner_lines(diff, rows, first + 1, last + 1));
    }
}

/// A selection of characters over several rows is their lines with line breaks
/// between them, from the first selected character to the last one.
pub proof fn law_yank_takes_what_is_between(
    diff: FileDiff,
    rows: Seq<RowView>,
    start: (nat, nat),
    end: (nat, nat),
)
    requires
        start.0 < end.0,
        start.1 <= line_text(diff, rows[start.0 as int]).len(),
        end.1 < line_text(diff, rows[end.0 as int]).len(),
    ensures
        ({
            let sel = SelView { start, end, linewise: false };
            let all = joined(lines_between(diff, rows, start.0, end.0));
            let behind = line_text(diff, rows[end.0 as int]).len() - (end.1 + 1);
            selected_text(diff, rows, sel) == all.subrange(start.1 as int, all.len() - behind)
        }),
{
    let sel = SelView { start, end, linewise: false };
    let all = joined(lines_between(diff, rows, start.0, end.0));
    let last = line_text(diff, rows[end.0 as int]);
    let behind = last.len() - (end.1 + 1);
    lemma_joined(diff, rows, start.0, end.0);
    assert(selected_text(diff, rows, sel) =~= all.subrange(start.1 as int, all.len() - behind));
}

/// A selection of characters in one row is what stands between its two ends,
/// both of them with it.
pub proof fn law_yank_takes_both_ends(
    diff: FileDiff,
    rows: Seq<RowView>,
    row: nat,
    from: nat,
    to: nat,
)
    requires
        from <= to < line_text(diff, rows[row as int]).len(),
    ensures
        selected_text(
            diff,
            rows,
            (SelView { start: (row, from), end: (row, to), linewise: false }),
        ) == line_text(diff, rows[row as int]).subrange(from as int, to as int + 1),
{
    let line = line_text(diff, rows[row as int]);
    assert(chars_between(line, from, to) =~= line.subrange(from as int, to as int + 1));
}

/// A selection of lines is those lines as a whole, each with a line break behind
/// it.
pub proof fn law_yank_takes_whole_lines(
    diff: FileDiff,
    rows: Seq<RowView>,
    start: (nat, nat),
    end: (nat, nat),
)
    requires
        start.0 <= end.0,
    ensures
        selected_text(diff, rows, (SelView { start, end, linewise: true })) == joined(
            lines_between(diff, rows, start.0, end.0),
        ).push('\n'),
    decreases end.0 - start.0,
{
    let sel = SelView { start, end, linewise: true };
    let lines = lines_between(diff, rows, start.0, end.0);
    if start.0 == end.0 {
        reveal_with_fuel(whole_lines, 2);
        assert(selected_text(diff, rows, sel) =~= joined(lines).push('\n'));
    } else {
        let before = ((end.0 - 1) as nat, end.1);
        law_yank_takes_whole_lines(diff, rows, start, before);
        assert(lines.drop_last() =~= lines_between(diff, rows, start.0, (end.0 - 1) as nat));
        assert(selected_text(diff, rows, sel) =~= joined(lines).push('\n'));
    }
}

/// Without a selection a yank takes the line of the cursor with a line break
/// behind it: the new line of the row, or the old one where there is no new one.
/// It takes nothing where there is nothing.
pub proof fn law_yank_takes_the_line(v: ViewerView, left: SideView, right: SideView)
    requires
        v.diff is Some,
        v.visual is None,
        v.cursor < v.rows().len(),
        v.rows()[v.cursor as int] == (RowView::Split { left, right }),
    ensures
        ({
            let line = if right.kind == SideKind::Blank {
                segs_text(left.segs)
            } else {
                segs_text(right.segs)
            };
            v.yank_text() == if line.len() == 0 {
                None
            } else {
                Some(line.push('\n'))
            }
        }),
{
}

proof fn lemma_hunk_above(rows: Seq<RowView>, k: nat, at: int)
    requires
        0 <= at < k <= rows.len(),
        rows[at] is Header,
        forall|i: int| at < i < k ==> (#[trigger] rows[i]) is Split,
    ensures
        rows[at] == (RowView::Header { index: hunk_above(rows, k) }),
    decreases k,
{
    if at < k - 1 {
        assert(rows[k - 1] is Split);
        lemma_hunk_above(rows, (k - 1) as nat, at);
    }
}

/// Moving the cursor selects the hunk that it is in: the one whose header is the
/// last one at or above the cursor.
pub proof fn law_hunk_follows_cursor(v: ViewerView, delta: int, at: Showing, header: int, index: nat)
    requires
        !at.markdown,
        0 <= header <= v.moved(delta, at).cursor < v.rows().len(),
        v.rows()[header] == (RowView::Header { index }),
        index < v.hunks(),
        forall|i: int|
            header < i <= v.moved(delta, at).cursor ==> (#[trigger] v.rows()[i]) is Split,
    ensures
        v.moved(delta, at).hunk == index,
{
    lemma_hunk_above(v.rows(), v.moved(delta, at).cursor + 1, header);
}

/// The cursor goes as far as it is told and the diff reaches: up to the first
/// row and down to the last.
pub proof fn law_cursor_goes_as_told(v: ViewerView, delta: int, at: Showing)
    requires
        v.cursor < v.rows().len(),
        !at.markdown,
    ensures
        ({
            let to = v.cursor + delta;
            let after = v.moved(delta, at);
            &&& 0 <= to < v.rows().len() ==> after.cursor == to
            &&& to < 0 ==> after.cursor == 0
            &&& to >= v.rows().len() ==> after.cursor == v.rows().len() - 1
            &&& after == (ViewerView {
                cursor: after.cursor,
                hunk: after.hunk,
                scroll: after.scroll,
                ..v
            })
        }),
{
}

/// The block column goes as far as it is told and the line reaches; its two ends
/// are the first and the last character.
pub proof fn law_column_goes_as_told(v: ViewerView, delta: int, at: Showing)
    requires
        v.col < v.line_len(),
        !at.markdown,
    ensures
        ({
            let to = v.col + delta;
            let after = v.col_moved(delta, at);
            &&& 0 <= to < v.line_len() ==> after.col == to
            &&& to < 0 ==> after.col == 0
            &&& to >= v.line_len() ==> after.col == v.line_len() - 1
            &&& after == (ViewerView { col: after.col, ..v })
            &&& v.col_home(at) == (ViewerView { col: 0, ..v })
            &&& v.col_end(at) == (ViewerView { col: (v.line_len() - 1) as nat, ..v })
        }),
{
}

/// When a view is opened the row of the cursor is on top of it: side by side by
/// its own number, and in the unified view by the lines before it.
pub proof fn law_cursor_is_put_on_top(v: ViewerView, full: bool)
    requires
        v.cursor < v.rows().len(),
        v.rows().len() <= u16::MAX,
        unified_len(v.rows(), v.cursor) < unified_len(v.rows(), v.rows().len()) <= u16::MAX,
    ensures
        v.snapped(Showing { markdown: false, full }) == (ViewerView {
            scroll: if full {
                v.cursor
            } else {
                unified_len(v.rows(), v.cursor)
            },
            ..v
        }),
{
}

/// A view can be scrolled down until its last line is on top, and no further.
pub proof fn law_scrolling_ends_with_the_diff(v: ViewerView, delta: int, full: bool)
    requires
        v.rows().len() > 0,
    ensures
        ({
            let after = v.scrolled(delta, Showing { markdown: false, full }, None);
            let lines = if full {
                v.rows().len()
            } else {
                unified_len(v.rows(), v.rows().len())
            };
            &&& after == (ViewerView { scroll: after.scroll, ..v })
            &&& after.scroll < lines || after.scroll == 0
            &&& 0 <= v.scroll + delta < lines <= u16::MAX ==> after.scroll == v.scroll + delta
            &&& v.scroll + delta < 0 ==> after.scroll == 0
        }),
{
}

} // verus!
