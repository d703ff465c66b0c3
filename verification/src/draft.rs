//! The line editor of the modals: text with a cursor, wrapped into rows or
//! shown through a window.

use crate::text::{chars_of, text_of, texts};
use crate::width::{cells, char_cells};
use vstd::prelude::*;
use vstd::string::*;

verus! {

/// How far a text has been laid out in rows.
#[verifier::ext_equal]
pub struct WrapView {
    /// The full rows, each as a range of characters.
    pub rows: Seq<(int, int)>,
    /// Where the row that is being filled starts.
    pub start: int,
    /// The columns that are taken in it.
    pub col: nat,
}

/// The first `k` characters laid out in rows of `width` columns. A line break
/// ends a row and belongs to none; a character that has no room starts a row.
pub open spec fn wrap_after(text: Seq<char>, width: nat, k: nat) -> WrapView
    decreases k,
{
    if k == 0 {
        WrapView { rows: Seq::empty(), start: 0, col: 0 }
    } else {
        let s = wrap_after(text, width, (k - 1) as nat);
        let c = text[k - 1];
        let w = cells(c);
        if c == '\n' {
            WrapView { rows: s.rows.push((s.start, k - 1)), start: k as int, col: 0 }
        } else if w > 0 && s.col + w > width {
            WrapView { rows: s.rows.push((s.start, k - 1)), start: k - 1, col: w }
        } else {
            WrapView { col: s.col + w, ..s }
        }
    }
}

/// The rows of a text, each as a range of characters.
pub open spec fn draft_rows(text: Seq<char>, width: nat) -> Seq<(int, int)> {
    let s = wrap_after(text, width, text.len());
    s.rows.push((s.start, text.len() as int))
}

/// The row and the column that a cursor is in. At the end of a full row it
/// stays in that row.
pub open spec fn draft_place(text: Seq<char>, width: nat, cursor: nat) -> (nat, nat) {
    let s = wrap_after(
        text,
        width,
        if cursor <= text.len() {
            cursor
        } else {
            text.len()
        },
    );
    (s.rows.len(), s.col)
}

/// A width of at least one column.
pub open spec fn at_least_one(width: nat) -> nat {
    if width == 0 {
        1
    } else {
        width
    }
}

/// A text laid out in rows, and the place of a cursor in it.
#[derive(Debug)]
pub struct DraftWrap {
    pub bounds: Vec<(usize, usize)>,
    pub cursor_row: usize,
    pub cursor_col: usize,
}

/// Whether ranges are those of a sequence of ranges of integers.
pub open spec fn same_bounds(bounds: Seq<(usize, usize)>, rows: Seq<(int, int)>) -> bool {
    &&& bounds.len() == rows.len()
    &&& forall|i: int|
        0 <= i < rows.len() ==> (#[trigger] bounds[i]).0 == rows[i].0 && bounds[i].1 == rows[i].1
}

pub proof fn lemma_wrap_bounds(text: Seq<char>, width: nat, k: nat)
    requires
        k <= text.len(),
    ensures
        wrap_after(text, width, k).rows.len() <= k,
        0 <= wrap_after(text, width, k).start <= k,
        forall|i: int|
            0 <= i < wrap_after(text, width, k).rows.len() ==> 0 <= (#[trigger] wrap_after(
                text,
                width,
                k,
            ).rows[i]).0 <= wrap_after(text, width, k).rows[i].1 <= k,
    decreases k,
{
    if k > 0 {
        lemma_wrap_bounds(text, width, (k - 1) as nat);
    }
}

/// Lays a text out in rows of `width` columns, at least one.
pub fn wrap_draft(text: &str, cursor: usize, width: usize) -> (out: DraftWrap)
    ensures
        same_bounds(out.bounds@, draft_rows(text@, at_least_one(width as nat))),
        (out.cursor_row as nat, out.cursor_col as nat) == draft_place(
            text@,
            at_least_one(width as nat),
            cursor as nat,
        ),
        out.cursor_row < out.bounds@.len(),
        forall|i: int|
            0 <= i < out.bounds@.len() ==> (#[trigger] out.bounds@[i]).0 <= out.bounds@[i].1
                <= text@.len(),
{
    let width = if width == 0 {
        1
    } else {
        width
    };
    let cs = chars_of(text);
    let cursor = if cursor <= cs.len() {
        cursor
    } else {
        cs.len()
    };
    let mut bounds: Vec<(usize, usize)> = Vec::new();
    let mut start: usize = 0;
    let mut col: usize = 0;
    let mut cursor_row: usize = 0;
    let mut cursor_col: usize = 0;
    let mut i: usize = 0;
    while i < cs.len()
        invariant
            cs@ == text@,
            i <= cs@.len(),
            cursor <= cs@.len(),
            width >= 1,
            col <= width || col <= 3,
            start <= i,
            same_bounds(bounds@, wrap_after(text@, width as nat, i as nat).rows),
            start == wrap_after(text@, width as nat, i as nat).start,
            col == wrap_after(text@, width as nat, i as nat).col,
            cursor < i ==> (cursor_row as nat, cursor_col as nat) == (
                wrap_after(text@, width as nat, cursor as nat).rows.len(),
                wrap_after(text@, width as nat, cursor as nat).col,
            ),
            cursor < i ==> cursor_row <= bounds@.len(),
        decreases cs@.len() - i,
    {
        if i == cursor {
            cursor_row = bounds.len();
            cursor_col = col;
        }
        let c = cs[i];
        let w = char_cells(c);
        if c == '\n' {
            bounds.push((start, i));
            start = i + 1;
            col = 0;
        } else if w > 0 && (col > width || w > width - col) {
            bounds.push((start, i));
            start = i;
            col = w;
        } else {
            col = col + w;
        }
        i += 1;
    }
    if cursor == cs.len() {
        cursor_row = bounds.len();
        cursor_col = col;
    }
    bounds.push((start, cs.len()));
    proof {
        lemma_wrap_bounds(text@, width as nat, text@.len());
        let rows = draft_rows(text@, width as nat);
        assert forall|k: int| 0 <= k < bounds@.len() implies (#[trigger] bounds@[k]).0
            <= bounds@[k].1 <= text@.len() by {
            if k < bounds@.len() - 1 {
                assert(bounds@[k].0 == rows[k].0 && bounds@[k].1 == rows[k].1);
            }
        }
    }
    DraftWrap { bounds, cursor_row, cursor_col }
}

/// The texts of the rows of a draft.
pub open spec fn row_texts(text: Seq<char>, width: nat) -> Seq<Seq<char>> {
    draft_rows(text, width).map_values(|r: (int, int)| text.subrange(r.0, r.1))
}

/// Lays a text out in rows, and returns the rows with the row and the column
/// of the cursor.
pub fn wrap_draft_lines(text: &str, cursor: usize, width: usize) -> (out: (
    Vec<String>,
    usize,
    usize,
))
    ensures
        texts(out.0@) == row_texts(text@, at_least_one(width as nat)),
        (out.1 as nat, out.2 as nat) == draft_place(
            text@,
            at_least_one(width as nat),
            cursor as nat,
        ),
        out.1 < out.0@.len(),
{
    let wrap = wrap_draft(text, cursor, width);
    let cs = chars_of(text);
    let ghost want = row_texts(text@, at_least_one(width as nat));
    let mut rows: Vec<String> = Vec::new();
    let mut i: usize = 0;
    while i < wrap.bounds.len()
        invariant
            i <= wrap.bounds@.len(),
            cs@ == text@,
            want == row_texts(text@, at_least_one(width as nat)),
            same_bounds(wrap.bounds@, draft_rows(text@, at_least_one(width as nat))),
            forall|k: int|
                0 <= k < wrap.bounds@.len() ==> (#[trigger] wrap.bounds@[k]).0
                    <= wrap.bounds@[k].1 <= text@.len(),
            texts(rows@) == want.take(i as int),
        decreases wrap.bounds@.len() - i,
    {
        let (from, to) = wrap.bounds[i];
        let ghost before = rows@;
        assert(wrap.bounds@[i as int].0 == draft_rows(
            text@,
            at_least_one(width as nat),
        )[i as int].0);
        let row = text_of(&cs, from, to);
        rows.push(row);
        assert(texts(rows@) =~= texts(before).push(row@));
        i += 1;
        assert(want.take(i as int) =~= want.take(i - 1).push(row@));
    }
    assert(want.take(i as int) =~= want);
    (rows, wrap.cursor_row, wrap.cursor_col)
}

/// The place in a row that a column stands for: past the characters of
/// `idx..end` that end before it.
pub open spec fn place_at_column(
    text: Seq<char>,
    idx: int,
    end: int,
    col: nat,
    want: nat,
) -> int
    decreases end - idx,
{
    if idx >= end || idx >= text.len() || idx < 0 {
        idx
    } else if col + cells(text[idx]) > want {
        idx
    } else {
        place_at_column(text, idx + 1, end, col + cells(text[idx]), want)
    }
}

/// A text being edited: the cursor is a place between its characters.
#[derive(Debug)]
pub struct Draft {
    pub text: String,
    pub cursor: usize,
    pub wrap_width: usize,
}

/// What a [`Draft`] holds.
#[verifier::ext_equal]
pub struct DraftView {
    pub text: Seq<char>,
    pub cursor: nat,
    pub wrap_width: nat,
}

impl View for Draft {
    type V = DraftView;

    open spec fn view(&self) -> DraftView {
        DraftView {
            text: self.text@,
            cursor: self.cursor as nat,
            wrap_width: self.wrap_width as nat,
        }
    }
}

impl DraftView {
    /// An empty draft; the width is that of the commit box until it is drawn.
    pub open spec fn empty() -> DraftView {
        DraftView { text: Seq::empty(), cursor: 0, wrap_width: 58 }
    }

    /// Where the cursor is: a place that is past the end reads as the end.
    pub open spec fn at(self) -> nat {
        if self.cursor <= self.text.len() {
            self.cursor
        } else {
            self.text.len()
        }
    }

    pub open spec fn inserted(self, c: char) -> DraftView {
        DraftView { text: self.text.insert(self.at() as int, c), cursor: self.at() + 1, ..self }
    }

    pub open spec fn deleted_before(self) -> DraftView {
        if self.at() == 0 {
            self
        } else {
            DraftView {
                text: self.text.remove(self.at() - 1),
                cursor: (self.at() - 1) as nat,
                ..self
            }
        }
    }

    pub open spec fn deleted_after(self) -> DraftView {
        if self.at() >= self.text.len() {
            self
        } else {
            DraftView { text: self.text.remove(self.at() as int), cursor: self.at(), ..self }
        }
    }

    pub open spec fn left(self) -> DraftView {
        DraftView {
            cursor: if self.at() == 0 {
                0
            } else {
                (self.at() - 1) as nat
            },
            ..self
        }
    }

    pub open spec fn right(self) -> DraftView {
        DraftView {
            cursor: if self.at() < self.text.len() {
                self.at() + 1
            } else {
                self.text.len()
            },
            ..self
        }
    }

    pub open spec fn home(self) -> DraftView {
        DraftView { cursor: 0, ..self }
    }

    pub open spec fn end(self) -> DraftView {
        DraftView { cursor: self.text.len(), ..self }
    }

    /// The text gone; the cursor left where it was.
    pub open spec fn erased(self) -> DraftView {
        DraftView { text: Seq::empty(), ..self }
    }

    /// The text gone and the cursor at the start.
    pub open spec fn cleared(self) -> DraftView {
        DraftView { text: Seq::empty(), cursor: 0, ..self }
    }

    /// Another text; the cursor left where it was.
    pub open spec fn holding(self, text: Seq<char>) -> DraftView {
        DraftView { text, ..self }
    }

    /// The cursor one row up or down, in the same column where the row is long
    /// enough; past the first row at the start, past the last at the end.
    pub open spec fn moved_row(self, down: bool) -> DraftView {
        let width = at_least_one(self.wrap_width);
        let rows = draft_rows(self.text, width);
        let (row, col) = draft_place(self.text, width, self.at());
        if !down && row == 0 {
            self.home()
        } else if down && row + 1 >= rows.len() {
            self.end()
        } else {
            let to = rows[if down {
                row as int + 1
            } else {
                row - 1
            }];
            DraftView {
                cursor: place_at_column(self.text, to.0, to.1, 0, col) as nat,
                ..self
            }
        }
    }
}

impl Draft {
    /// An empty draft.
    pub fn new() -> (draft: Draft)
        ensures
            draft@ == DraftView::empty(),
    {
        Draft { text: String::new(), cursor: 0, wrap_width: 58 }
    }

    /// Where the cursor is.
    pub fn at(&self) -> (at: usize)
        ensures
            at == self@.at(),
    {
        let n = self.text.as_str().unicode_len();
        if self.cursor <= n {
            self.cursor
        } else {
            n
        }
    }

    /// Inserts a character at the cursor.
    pub fn insert(&mut self, c: char)
        ensures
            final(self)@ == old(self)@.inserted(c),
    {
        let at = self.at();
        let mut cs = chars_of(self.text.as_str());
        cs.insert(at, c);
        self.text = text_of(&cs, 0, cs.len());
        assert(self.text@ =~= cs@);
        self.cursor = at + 1;
    }

    /// Deletes the character before the cursor.
    pub fn delete_before(&mut self)
        ensures
            final(self)@ == old(self)@.deleted_before(),
    {
        let at = self.at();
        if at == 0 {
            return;
        }
        let mut cs = chars_of(self.text.as_str());
        cs.remove(at - 1);
        self.text = text_of(&cs, 0, cs.len());
        assert(self.text@ =~= cs@);
        self.cursor = at - 1;
    }

    /// Deletes the character under the cursor.
    pub fn delete_after(&mut self)
        ensures
            final(self)@ == old(self)@.deleted_after(),
    {
        let at = self.at();
        let mut cs = chars_of(self.text.as_str());
        if at >= cs.len() {
            return;
        }
        cs.remove(at);
        self.text = text_of(&cs, 0, cs.len());
        assert(self.text@ =~= cs@);
        self.cursor = at;
    }

    pub fn move_left(&mut self)
        ensures
            final(self)@ == old(self)@.left(),
    {
        let at = self.at();
        self.cursor = if at == 0 {
            0
        } else {
            at - 1
        };
    }

    pub fn move_right(&mut self)
        ensures
            final(self)@ == old(self)@.right(),
    {
        let at = self.at();
        let n = self.text.as_str().unicode_len();
        self.cursor = if at < n {
            at + 1
        } else {
            n
        };
    }

    pub fn move_home(&mut self)
        ensures
            final(self)@ == old(self)@.home(),
    {
        self.cursor = 0;
    }

    pub fn move_end(&mut self)
        ensures
            final(self)@ == old(self)@.end(),
    {
        self.cursor = self.text.as_str().unicode_len();
    }

    /// Erases the text and leaves the cursor where it was.
    pub fn erase(&mut self)
        ensures
            final(self)@ == old(self)@.erased(),
    {
        self.text = String::new();
        assert(self@ =~= old(self)@.erased());
    }

    /// Erases the text and puts the cursor at the start.
    pub fn clear(&mut self)
        ensures
            final(self)@ == old(self)@.cleared(),
    {
        self.text = String::new();
        self.cursor = 0;
        assert(self@ =~= old(self)@.cleared());
    }

    /// Replaces the text and leaves the cursor where it was.
    pub fn hold(&mut self, text: String)
        ensures
            final(self)@ == old(self)@.holding(text@),
    {
        self.text = text;
    }

    /// Moves the cursor one row up or down.
    pub fn move_visual_row(&mut self, down: bool)
        ensures
            final(self)@ == old(self)@.moved_row(down),
    {
        let wrap = wrap_draft(self.text.as_str(), self.at(), self.wrap_width);
        let ghost width = at_least_one(self@.wrap_width);
        let ghost rows = draft_rows(self@.text, width);
        if !down && wrap.cursor_row == 0 {
            self.cursor = 0;
            return;
        }
        if down && wrap.bounds.len() - wrap.cursor_row <= 1 {
            self.cursor = self.text.as_str().unicode_len();
            return;
        }
        let target: usize = if down {
            wrap.cursor_row + 1
        } else {
            wrap.cursor_row - 1
        };
        let (from, end) = wrap.bounds[target];
        assert(from == rows[target as int].0 && end == rows[target as int].1);
        let cs = chars_of(self.text.as_str());
        let mut col: u128 = 0;
        let mut idx: usize = from;
        let ghost want = wrap.cursor_col as nat;
        while idx < end && idx < cs.len() && col + char_cells(cs[idx]) as u128
            <= wrap.cursor_col as u128
            invariant
                from <= idx <= end <= cs@.len(),
                cs@ == self@.text,
                want == wrap.cursor_col,
                col <= want,
                place_at_column(self@.text, from as int, end as int, 0, want) == place_at_column(
                    self@.text,
                    idx as int,
                    end as int,
                    col as nat,
                    want,
                ),
            decreases end - idx,
        {
            col = col + char_cells(cs[idx]) as u128;
            idx += 1;
        }
        self.cursor = idx;
    }
}

/// The columns of the first `k` characters.
pub open spec fn cells_to(text: Seq<char>, k: nat) -> nat
    decreases k,
{
    if k == 0 {
        0
    } else {
        cells_to(text, (k - 1) as nat) + cells(text[k - 1])
    }
}

/// The column that the window onto a text starts at, so that the cursor shows.
pub open spec fn window_start(text: Seq<char>, cursor: nat, width: nat) -> nat {
    let col = cells_to(
        text,
        if cursor <= text.len() {
            cursor
        } else {
            text.len()
        },
    );
    if col >= width {
        (col - width + 1) as nat
    } else {
        0
    }
}

/// What shows of a text from the `k`-th character on, in the columns
/// `start..start + width`. A character that is cut by the left edge shows as a
/// space.
pub open spec fn window_from(text: Seq<char>, k: nat, start: nat, width: nat) -> Seq<char>
    decreases text.len() - k,
{
    if k >= text.len() {
        Seq::empty()
    } else {
        let col = cells_to(text, k);
        let w = cells(text[k as int]);
        if col + w <= start {
            window_from(text, k + 1, start, width)
        } else if col >= start + width {
            Seq::empty()
        } else {
            seq![
                if col < start {
                    ' '
                } else {
                    text[k as int]
                },
            ] + window_from(text, k + 1, start, width)
        }
    }
}

/// The part of a line that shows in `width` columns, at least one, and the
/// column of the cursor in it.
pub fn input_window(text: &str, cursor: usize, width: usize) -> (out: (String, usize))
    ensures
        ({
            let w = at_least_one(width as nat);
            let start = window_start(text@, cursor as nat, w);
            &&& out.0@ == window_from(text@, 0, start, w)
            &&& out.1 + start == cells_to(
                text@,
                if cursor <= text@.len() {
                    cursor as nat
                } else {
                    text@.len()
                },
            )
            &&& out.1 < w
        }),
{
    let width = if width == 0 {
        1
    } else {
        width
    };
    let cs = chars_of(text);
    let cursor = if cursor <= cs.len() {
        cursor
    } else {
        cs.len()
    };
    let mut cursor_col: u128 = 0;
    let mut i: usize = 0;
    while i < cursor
        invariant
            cs@ == text@,
            i <= cursor <= cs@.len(),
            cursor_col == cells_to(text@, i as nat),
            cursor_col <= 3 * i,
        decreases cursor - i,
    {
        cursor_col = cursor_col + char_cells(cs[i]) as u128;
        i += 1;
    }
    let start: u128 = if cursor_col >= width as u128 {
        cursor_col - width as u128 + 1
    } else {
        0
    };
    let ghost want = window_from(text@, 0, start as nat, width as nat);
    let mut out = String::new();
    let mut col: u128 = 0;
    let mut k: usize = 0;
    let mut open = true;
    assert(out@ + want =~= want);
    while open && k < cs.len()
        invariant
            cs@ == text@,
            k <= cs@.len(),
            start <= 3 * cs@.len() + 1,
            open ==> col == cells_to(text@, k as nat),
            col <= 3 * k,
            open ==> want == out@ + window_from(text@, k as nat, start as nat, width as nat),
            !open ==> want == out@,
        decreases cs@.len() - k,
    {
        let w = char_cells(cs[k]) as u128;
        let ghost rest = window_from(text@, k as nat + 1, start as nat, width as nat);
        if col + w <= start {
            col = col + w;
        } else if col >= start + width as u128 {
            open = false;
            assert(out@ + Seq::<char>::empty() =~= out@);
        } else {
            let shown = if col < start {
                ' '
            } else {
                cs[k]
            };
            let ghost before = out@;
            out.push(shown);
            col = col + w;
            assert(before + (seq![shown] + rest) =~= out@ + rest);
        }
        k += 1;
    }
    assert(out@ + Seq::<char>::empty() =~= out@);
    (out, (cursor_col - start) as usize)
}

/// What was typed can be taken back: a character inserted and deleted again
/// leaves the text and the cursor as they were.
pub proof fn law_insert_delete(draft: DraftView, c: char)
    ensures
        draft.inserted(c).deleted_before().text == draft.text,
        draft.inserted(c).deleted_before().at() == draft.at(),
{
    let at = draft.at() as int;
    assert(draft.text.insert(at, c).remove(at) =~= draft.text);
}

/// The cursor never leaves the text, whatever is done.
pub proof fn law_cursor_in_text(draft: DraftView, c: char, down: bool)
    requires
        draft.cursor <= draft.text.len(),
    ensures
        draft.inserted(c).cursor <= draft.inserted(c).text.len(),
        draft.deleted_before().cursor <= draft.deleted_before().text.len(),
        draft.deleted_after().cursor <= draft.deleted_after().text.len(),
        draft.left().cursor <= draft.text.len(),
        draft.right().cursor <= draft.text.len(),
        draft.home().cursor <= draft.text.len(),
        draft.end().cursor <= draft.text.len(),
        draft.moved_row(down).cursor <= draft.text.len(),
{
    let width = at_least_one(draft.wrap_width);
    let rows = draft_rows(draft.text, width);
    let (row, col) = draft_place(draft.text, width, draft.at());
    lemma_wrap_bounds(draft.text, width, draft.text.len());
    lemma_rows_grow(draft.text, width, draft.at(), draft.text.len());
    if (down && row + 1 < rows.len()) || (!down && row > 0) {
        let to = rows[if down {
            row as int + 1
        } else {
            row - 1
        }];
        lemma_place_in_row(draft.text, to.0, to.1, 0, col);
    }
}

proof fn lemma_place_in_row(text: Seq<char>, idx: int, end: int, col: nat, want: nat)
    requires
        0 <= idx <= end <= text.len(),
    ensures
        idx <= place_at_column(text, idx, end, col, want) <= end,
    decreases end - idx,
{
    if idx < end && col + cells(text[idx]) <= want {
        lemma_place_in_row(text, idx + 1, end, col + cells(text[idx]), want);
    }
}

proof fn lemma_rows_grow(text: Seq<char>, width: nat, k: nat, n: nat)
    requires
        k <= n,
    ensures
        wrap_after(text, width, k).rows.len() <= wrap_after(text, width, n).rows.len(),
    decreases n - k,
{
    if k < n {
        lemma_rows_grow(text, width, k, (n - 1) as nat);
    }
}

proof fn lemma_rows_adjoin(text: Seq<char>, width: nat, k: nat)
    requires
        k <= text.len(),
    ensures
        ({
            let s = wrap_after(text, width, k);
            let all = s.rows.push((s.start, k as int));
            &&& all[0].0 == 0
            &&& forall|i: int| 0 <= i < s.rows.len() ==> adjoin(text, #[trigger] all[i], all[i + 1])
            &&& forall|i: int| 0 <= i < all.len() ==> is_unbroken(text, #[trigger] all[i])
        }),
    decreases k,
{
    if k > 0 {
        lemma_rows_adjoin(text, width, (k - 1) as nat);
        lemma_wrap_bounds(text, width, (k - 1) as nat);
        let p = wrap_after(text, width, (k - 1) as nat);
        let s = wrap_after(text, width, k);
        let before = p.rows.push((p.start, k - 1));
        let all = s.rows.push((s.start, k as int));
        assert(is_unbroken(text, before[p.rows.len() as int]));
        assert forall|i: int| 0 <= i < s.rows.len() implies adjoin(
            text,
            #[trigger] all[i],
            all[i + 1],
        ) by {
            if i < p.rows.len() {
                assert(adjoin(text, before[i], before[i + 1]));
            }
        }
        assert forall|i: int| 0 <= i < all.len() implies is_unbroken(text, #[trigger] all[i]) by {
            if i < p.rows.len() {
                assert(is_unbroken(text, before[i]));
            }
        }
    }
}

/// Whether one row goes on where another ends, but for a line break.
pub open spec fn adjoin(text: Seq<char>, a: (int, int), b: (int, int)) -> bool {
    b.0 == a.1 || (b.0 == a.1 + 1 && 0 <= a.1 < text.len() && text[a.1] == '\n')
}

/// Whether a row holds no line break.
pub open spec fn is_unbroken(text: Seq<char>, row: (int, int)) -> bool {
    forall|j: int| row.0 <= j < row.1 ==> #[trigger] text[j] != '\n'
}

/// Wrapping loses nothing: the rows follow one another from the start of the
/// text to its end, and only line breaks stand between them.
pub proof fn law_rows_cover_text(text: Seq<char>, width: nat)
    ensures
        draft_rows(text, width)[0].0 == 0,
        draft_rows(text, width).last().1 == text.len(),
        forall|i: int|
            0 <= i < draft_rows(text, width).len() - 1 ==> adjoin(
                text,
                #[trigger] draft_rows(text, width)[i],
                draft_rows(text, width)[i + 1],
            ),
        forall|i: int|
            0 <= i < draft_rows(text, width).len() ==> is_unbroken(
                text,
                #[trigger] draft_rows(text, width)[i],
            ),
{
    lemma_rows_adjoin(text, width, text.len());
}

proof fn lemma_row_cells(text: Seq<char>, width: nat, k: nat)
    requires
        k <= text.len(),
        forall|i: int| 0 <= i < text.len() ==> cells(#[trigger] text[i]) <= width,
    ensures
        ({
            let s = wrap_after(text, width, k);
            &&& s.col <= width
            &&& 0 <= s.start <= k
            &&& cells_to(text, k) == cells_to(text, s.start as nat) + s.col
            &&& forall|i: int|
                0 <= i < s.rows.len() ==> row_fits(text, #[trigger] s.rows[i], width)
        }),
    decreases k,
{
    if k > 0 {
        lemma_row_cells(text, width, (k - 1) as nat);
        let p = wrap_after(text, width, (k - 1) as nat);
        let s = wrap_after(text, width, k);
        assert(row_fits(text, (p.start, k - 1), width));
        assert forall|i: int| 0 <= i < s.rows.len() implies row_fits(
            text,
            #[trigger] s.rows[i],
            width,
        ) by {
            if i < p.rows.len() {
                assert(row_fits(text, p.rows[i], width));
            }
        }
    }
}

/// Whether a row takes up no more than that many columns.
pub open spec fn row_fits(text: Seq<char>, row: (int, int), width: nat) -> bool {
    cells_to(text, row.1 as nat) - cells_to(text, row.0 as nat) <= width
}

/// No row is wider than the box, as long as no single character is.
pub proof fn law_rows_fit(text: Seq<char>, width: nat)
    requires
        forall|i: int| 0 <= i < text.len() ==> cells(#[trigger] text[i]) <= width,
    ensures
        forall|i: int|
            0 <= i < draft_rows(text, width).len() ==> row_fits(
                text,
                #[trigger] draft_rows(text, width)[i],
                width,
            ),
{
    lemma_row_cells(text, width, text.len());
    let s = wrap_after(text, width, text.len());
    assert forall|i: int| 0 <= i < draft_rows(text, width).len() implies row_fits(
        text,
        #[trigger] draft_rows(text, width)[i],
        width,
    ) by {
        if i < s.rows.len() {
            assert(row_fits(text, s.rows[i], width));
        }
    }
}

/// Whether a row ends for a reason: at a line break, or because the character
/// behind it has no room.
pub open spec fn ends_for_a_reason(text: Seq<char>, row: (int, int), width: nat) -> bool {
    ||| 0 <= row.1 < text.len() && text[row.1] == '\n'
    ||| cells_to(text, (row.1 + 1) as nat) - cells_to(text, row.0 as nat) > width
}

proof fn lemma_rows_filled(text: Seq<char>, width: nat, k: nat)
    requires
        k <= text.len(),
    ensures
        ({
            let s = wrap_after(text, width, k);
            &&& 0 <= s.start <= k
            &&& cells_to(text, k) == cells_to(text, s.start as nat) + s.col
            &&& forall|i: int|
                0 <= i < s.rows.len() ==> ends_for_a_reason(text, #[trigger] s.rows[i], width)
        }),
    decreases k,
{
    if k > 0 {
        lemma_rows_filled(text, width, (k - 1) as nat);
        let p = wrap_after(text, width, (k - 1) as nat);
        let s = wrap_after(text, width, k);
        assert forall|i: int| 0 <= i < s.rows.len() implies ends_for_a_reason(
            text,
            #[trigger] s.rows[i],
            width,
        ) by {
            if i < p.rows.len() {
                assert(s.rows[i] == p.rows[i]);
            }
        }
    }
}

/// A row is as long as it can be: it ends at a line break, or where the next
/// character has no room in it.
pub proof fn law_rows_are_filled(text: Seq<char>, width: nat, i: int)
    requires
        0 <= i < draft_rows(text, width).len() - 1,
    ensures
        ends_for_a_reason(text, draft_rows(text, width)[i], width),
{
    lemma_rows_filled(text, width, text.len());
    assert(ends_for_a_reason(text, wrap_after(text, width, text.len()).rows[i], width));
}

} // verus!
