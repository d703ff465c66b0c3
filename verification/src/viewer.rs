//! The loaded diff with its line cursor, block column, visual selection and
//! scroll offset.

use crate::diff_rows::{
    diff_row_views, diff_rows, hunk_start, rows_hunk_start, rows_unified_len, rows_view,
    unified_count, unified_len, unified_row_count, DiffRow, RowView, Side, SideKind,
};
use crate::model::FileDiff;
use crate::text::{chars_of, lines_from, split_lines, text_of};
use crate::tree::{clamp_to, clamped, last_of};
use crate::words::{segs_text, segs_view, SegView};
use vstd::prelude::*;
use vstd::string::*;

verus! {

/// A number brought between two bounds.
pub open spec fn between(n: int, low: int, high: int) -> int {
    if n < low {
        low
    } else if n > high {
        high
    } else {
        n
    }
}

/// A step by `delta` from a place, kept between 0 and `max`.
pub fn stepped(place: u128, delta: i32, max: u128) -> (out: u128)
    requires
        place <= max <= 0x1_0000_0000_0000_0000_0000,
    ensures
        out == between(place + delta, 0, max as int),
{
    let to: i128 = place as i128 + delta as i128;
    if to < 0 {
        0
    } else if to > max as i128 {
        max
    } else {
        to as u128
    }
}

/// The largest scroll offset.
pub open spec fn capped(n: nat) -> nat {
    if n <= u16::MAX {
        n
    } else {
        u16::MAX as nat
    }
}

fn cap(n: u128) -> (out: u16)
    ensures
        out == capped(n as nat),
{
    if n <= u16::MAX as u128 {
        n as u16
    } else {
        u16::MAX
    }
}

/// What is selected with the keyboard: whole lines, or characters.
#[derive(Clone, Copy, Debug, PartialEq, Eq, Structural)]
pub enum VisualMode {
    Charwise,
    Linewise,
}

/// The fixed end of a visual selection. The other end is the cursor.
#[derive(Clone, Copy, Debug, PartialEq, Eq, Structural)]
pub struct Visual {
    pub anchor_row: usize,
    pub anchor_col: usize,
    pub mode: VisualMode,
}

/// What a [`Visual`] holds.
pub struct VisualView {
    pub row: nat,
    pub col: nat,
    pub mode: VisualMode,
}

impl View for Visual {
    type V = VisualView;

    open spec fn view(&self) -> VisualView {
        VisualView {
            row: self.anchor_row as nat,
            col: self.anchor_col as nat,
            mode: self.mode,
        }
    }
}

/// What a selection is, if there is one.
pub open spec fn visual_view(v: Option<Visual>) -> Option<VisualView> {
    match v {
        Some(v) => Some(v@),
        None => None,
    }
}

/// A selection from its first to its last place, each a row and a column, and
/// whether it is one of whole lines.
#[derive(Clone, Copy, Debug, PartialEq, Eq)]
pub struct VisualSel {
    pub start: (usize, usize),
    pub end: (usize, usize),
    pub linewise: bool,
}

/// What a [`VisualSel`] holds.
#[verifier::ext_equal]
pub struct SelView {
    pub start: (nat, nat),
    pub end: (nat, nat),
    pub linewise: bool,
}

impl View for VisualSel {
    type V = SelView;

    open spec fn view(&self) -> SelView {
        SelView {
            start: (self.start.0 as nat, self.start.1 as nat),
            end: (self.end.0 as nat, self.end.1 as nat),
            linewise: self.linewise,
        }
    }
}

/// The rows of the loaded diff; none where no diff is loaded.
pub open spec fn rows_of(diff: Option<FileDiff>) -> Seq<RowView> {
    match diff {
        Some(d) => diff_row_views(d),
        None => Seq::empty(),
    }
}

/// The text of a row: the header of its hunk, or the new side of the line, or
/// the old side where there is no new one.
pub open spec fn line_text(diff: FileDiff, row: RowView) -> Seq<char> {
    match row {
        RowView::Header { index } => if index < diff.hunks@.len() {
            diff.hunks@[index as int].header@
        } else {
            Seq::empty()
        },
        RowView::Split { left, right } => if right.kind == SideKind::Blank {
            segs_text(left.segs)
        } else {
            segs_text(right.segs)
        },
    }
}

fn side_text(side: &Side) -> (out: String)
    ensures
        out@ == segs_text(side@.segs),
{
    let ghost segs = segs_view(side.segs@);
    let mut out = String::new();
    let mut i: usize = 0;
    assert(segs.take(0) =~= Seq::<SegView>::empty());
    while i < side.segs.len()
        invariant
            i <= side.segs@.len(),
            segs == segs_view(side.segs@),
            out@ == segs_text(segs.take(i as int)),
        decreases side.segs@.len() - i,
    {
        assert(segs.take(i + 1).drop_last() =~= segs.take(i as int));
        assert(segs.take(i + 1).last() == side.segs@[i as int]@);
        out.append(side.segs[i].text.as_str());
        i += 1;
    }
    assert(segs.take(segs.len() as int) =~= segs);
    out
}

/// The text of a row.
pub fn cursor_line_text(diff: &FileDiff, row: &DiffRow) -> (out: String)
    ensures
        out@ == line_text(*diff, row@),
{
    match row {
        DiffRow::Header { index } => if *index < diff.hunks.len() {
            diff.hunks[*index].header.clone()
        } else {
            String::new()
        },
        DiffRow::Split { left, right } => if right.kind == SideKind::Blank {
            side_text(left)
        } else {
            side_text(right)
        },
    }
}

/// The number of the hunk whose header is the last one in the first `k` rows.
pub open spec fn hunk_above(rows: Seq<RowView>, k: nat) -> nat
    decreases k,
{
    if k == 0 {
        0
    } else {
        match rows[k - 1] {
            RowView::Header { index } => index,
            RowView::Split { .. } => hunk_above(rows, (k - 1) as nat),
        }
    }
}

/// The characters `from..=to` of a text, as far as it goes.
pub open spec fn chars_between(text: Seq<char>, from: nat, to: nat) -> Seq<char> {
    if from > to {
        Seq::empty()
    } else {
        chars_from(text, from).take(
            if to - from + 1 <= chars_from(text, from).len() {
                to - from + 1
            } else {
                chars_from(text, from).len() as int
            },
        )
    }
}

/// The characters of a text from `from` on.
pub open spec fn chars_from(text: Seq<char>, from: nat) -> Seq<char> {
    if from <= text.len() {
        text.skip(from as int)
    } else {
        Seq::empty()
    }
}

/// The characters `from..=to` of a text, as far as it goes.
pub fn slice_chars(text: &str, from: usize, to: usize) -> (out: String)
    ensures
        out@ == chars_between(text@, from as nat, to as nat),
{
    let cs = chars_of(text);
    if from > to || from >= cs.len() {
        let none = String::new();
        assert(none@ =~= chars_between(text@, from as nat, to as nat));
        return none;
    }
    let end = if to < cs.len() {
        to + 1
    } else {
        cs.len()
    };
    let out = text_of(&cs, from, end);
    assert(out@ =~= chars_between(text@, from as nat, to as nat));
    out
}

fn slice_from(text: &str, from: usize) -> (out: String)
    ensures
        out@ == chars_from(text@, from as nat),
{
    let cs = chars_of(text);
    if from >= cs.len() {
        let none = String::new();
        assert(none@ =~= chars_from(text@, from as nat));
        return none;
    }
    let out = text_of(&cs, from, cs.len());
    assert(out@ =~= chars_from(text@, from as nat));
    out
}

/// The lines of the rows `from..to`, each with a line break behind it.
pub open spec fn whole_lines(diff: FileDiff, rows: Seq<RowView>, from: nat, to: nat) -> Seq<char>
    decreases to - from,
{
    if from >= to {
        Seq::empty()
    } else {
        whole_lines(diff, rows, from, (to - 1) as nat) + line_text(diff, rows[to - 1]).push('\n')
    }
}

/// The lines of the rows `from..to`, each with a line break before it.
pub open spec fn inner_lines(diff: FileDiff, rows: Seq<RowView>, from: nat, to: nat) -> Seq<char>
    decreases to - from,
{
    if from >= to {
        Seq::empty()
    } else {
        inner_lines(diff, rows, from, (to - 1) as nat).push('\n') + line_text(diff, rows[to - 1])
    }
}

/// The text of a selection.
pub open spec fn selected_text(diff: FileDiff, rows: Seq<RowView>, sel: SelView) -> Seq<char> {
    let (r1, c1) = sel.start;
    let (r2, c2) = sel.end;
    if sel.linewise {
        whole_lines(diff, rows, r1, r2 + 1)
    } else if r1 == r2 {
        chars_between(line_text(diff, rows[r1 as int]), c1, c2)
    } else {
        (chars_from(line_text(diff, rows[r1 as int]), c1) + inner_lines(diff, rows, r1 + 1, r2))
            .push('\n') + chars_between(line_text(diff, rows[r2 as int]), 0, c2)
    }
}

/// What a [`Viewer`] holds.
#[verifier::ext_equal]
pub struct ViewerView {
    pub diff: Option<FileDiff>,
    pub hunk: nat,
    pub cursor: nat,
    pub col: nat,
    pub scroll: nat,
    pub full_h: nat,
    pub prev_h: nat,
    pub visual: Option<VisualView>,
}

/// Where a view is shown: as a rendered document, and over the whole screen.
#[derive(Clone, Copy, Debug, PartialEq, Eq, Structural)]
pub struct Showing {
    pub markdown: bool,
    pub full: bool,
}

/// How far a rendered document can be scrolled.
pub open spec fn markdown_max(text: Option<Seq<char>>) -> nat {
    match text {
        Some(t) => capped(lines_from(t, 0).len() * 4 + 16),
        None => u16::MAX as nat,
    }
}

impl ViewerView {
    /// Nothing loaded.
    pub open spec fn empty() -> ViewerView {
        ViewerView {
            diff: None,
            hunk: 0,
            cursor: 0,
            col: 0,
            scroll: 0,
            full_h: 0,
            prev_h: 0,
            visual: None,
        }
    }

    /// The side-by-side rows of the loaded diff.
    pub open spec fn rows(self) -> Seq<RowView> {
        rows_of(self.diff)
    }

    /// The row of the cursor.
    pub open spec fn row(self) -> nat {
        clamped(self.cursor, self.rows().len())
    }

    /// How many hunks are loaded.
    pub open spec fn hunks(self) -> nat {
        match self.diff {
            Some(d) => d.hunks@.len(),
            None => 0,
        }
    }

    /// Another diff loaded: the cursor stays in it, the selection goes.
    pub open spec fn loaded(self, diff: Option<FileDiff>) -> ViewerView {
        ViewerView {
            diff,
            cursor: clamped(self.cursor, rows_of(diff).len()),
            visual: None,
            ..self
        }
    }

    /// Back at the start of the diff.
    pub open spec fn rewound(self) -> ViewerView {
        ViewerView { hunk: 0, cursor: 0, col: 0, scroll: 0, ..self }
    }

    /// A hunk selected, with its header on top of the view.
    pub open spec fn at_hunk(self, index: nat) -> ViewerView {
        let hunk = clamped(index, self.hunks());
        ViewerView {
            hunk,
            cursor: clamped(hunk_start(self.rows(), hunk), self.rows().len()),
            scroll: hunk_start(self.rows(), hunk),
            ..self
        }
    }

    /// The hunk that the cursor is in selected.
    pub open spec fn synced(self) -> ViewerView {
        let k = if self.cursor < self.rows().len() {
            self.cursor + 1
        } else {
            self.rows().len()
        };
        ViewerView { hunk: clamped(hunk_above(self.rows(), k), self.hunks()), ..self }
    }

    /// The lines before the cursor in the view: rows side by side over the
    /// whole screen, unified lines in the preview.
    pub open spec fn lines_before(self, full: bool) -> nat {
        if full {
            self.cursor
        } else {
            unified_len(self.rows(), self.row())
        }
    }

    /// The lines up to the end of the cursor's row.
    pub open spec fn lines_through(self, full: bool) -> nat {
        if full {
            self.cursor + 1
        } else {
            unified_len(self.rows(), self.row()) + unified_count(self.rows()[self.row() as int])
        }
    }

    /// The height of the view; one line as long as it was not drawn.
    pub open spec fn height(self, full: bool) -> nat {
        let h = if full {
            self.full_h
        } else {
            self.prev_h
        };
        if h == 0 {
            1
        } else {
            h
        }
    }

    /// Scrolled no more than it takes for the cursor to show.
    pub open spec fn followed(self, at: Showing) -> ViewerView {
        let start = self.lines_before(at.full);
        let end = self.lines_through(at.full);
        let h = self.height(at.full);
        if at.markdown || self.rows().len() == 0 {
            self
        } else if start < self.scroll {
            ViewerView { scroll: capped(start), ..self }
        } else if end > self.scroll + h {
            ViewerView { scroll: capped((end - h) as nat), ..self }
        } else {
            self
        }
    }

    /// The cursor `delta` rows on, within the diff.
    pub open spec fn moved(self, delta: int, at: Showing) -> ViewerView {
        let max = last_of(self.rows().len()) as int;
        if self.rows().len() == 0 || at.markdown {
            self
        } else {
            ViewerView { cursor: between(self.row() + delta, 0, max) as nat, ..self }.synced()
                .followed(at)
        }
    }

    /// How far the preview can be scrolled.
    pub open spec fn preview_max(self) -> nat {
        capped(last_of(unified_len(self.rows(), self.rows().len())))
    }

    /// How far the view over the whole screen can be scrolled.
    pub open spec fn full_max(self) -> nat {
        capped(last_of(self.rows().len()))
    }

    /// The cursor's row on top of the view.
    pub open spec fn snapped(self, at: Showing) -> ViewerView {
        let max = if at.full {
            self.full_max()
        } else {
            self.preview_max()
        };
        let off = if at.full {
            self.cursor
        } else {
            unified_len(
                self.rows(),
                if self.cursor <= self.rows().len() {
                    self.cursor
                } else {
                    self.rows().len()
                },
            )
        };
        if at.markdown {
            self
        } else {
            ViewerView {
                scroll: if off <= max {
                    off
                } else {
                    max
                },
                ..self
            }
        }
    }

    /// The view scrolled, within what there is to see.
    pub open spec fn scrolled(self, delta: int, at: Showing, text: Option<Seq<char>>) -> ViewerView {
        let max = if at.markdown {
            markdown_max(text)
        } else if at.full {
            self.full_max()
        } else {
            self.preview_max()
        };
        ViewerView { scroll: between(self.scroll + delta, 0, max as int) as nat, ..self }
    }

    /// The length of the line that the cursor is on.
    pub open spec fn line_len(self) -> nat {
        match self.diff {
            Some(d) => if self.rows().len() == 0 {
                0
            } else {
                line_text(d, self.rows()[self.row() as int]).len()
            },
            None => 0,
        }
    }

    /// The block column `delta` characters on, within the line.
    pub open spec fn col_moved(self, delta: int, at: Showing) -> ViewerView {
        let max = last_of(self.line_len()) as int;
        if at.markdown || self.line_len() == 0 {
            self
        } else {
            ViewerView {
                col: between(between(self.col as int, 0, max) + delta, 0, max) as nat,
                ..self
            }
        }
    }

    /// The block column at the start of the line.
    pub open spec fn col_home(self, at: Showing) -> ViewerView {
        if at.markdown || self.rows().len() == 0 {
            self
        } else {
            ViewerView { col: 0, ..self }
        }
    }

    /// The block column at the last character of the line.
    pub open spec fn col_end(self, at: Showing) -> ViewerView {
        if at.markdown {
            self
        } else {
            ViewerView { col: last_of(self.line_len()), ..self }
        }
    }

    /// A selection begun at the cursor, left again, or turned into one of the
    /// other kind.
    pub open spec fn selecting(self, mode: VisualMode, at: Showing) -> ViewerView {
        if self.rows().len() == 0 || at.markdown {
            self
        } else {
            ViewerView {
                visual: match self.visual {
                    Some(v) => if v.mode == mode {
                        None
                    } else {
                        Some(VisualView { mode, ..v })
                    },
                    None => Some(VisualView { row: self.row(), col: self.col, mode }),
                },
                ..self
            }
        }
    }

    /// The selection left.
    pub open spec fn unselected(self) -> ViewerView {
        ViewerView { visual: None, ..self }
    }

    /// The selection, from its first to its last place.
    pub open spec fn selection(self) -> Option<SelView> {
        match self.visual {
            Some(v) => if self.rows().len() == 0 {
                None
            } else {
                let a = (clamped(v.row, self.rows().len()), v.col);
                let c = (self.row(), self.col);
                let linewise = v.mode == VisualMode::Linewise;
                if a.0 < c.0 || (a.0 == c.0 && a.1 <= c.1) {
                    Some(SelView { start: a, end: c, linewise })
                } else {
                    Some(SelView { start: c, end: a, linewise })
                }
            },
            None => None,
        }
    }

    /// The text that a yank takes: the selection, or the line of the cursor.
    pub open spec fn yank_text(self) -> Option<Seq<char>> {
        match self.diff {
            Some(d) => if self.rows().len() == 0 {
                None
            } else {
                let text = match self.selection() {
                    None => {
                        let line = line_text(d, self.rows()[self.row() as int]);
                        if line.len() == 0 {
                            line
                        } else {
                            line.push('\n')
                        }
                    },
                    Some(sel) => selected_text(d, self.rows(), sel),
                };
                if text.len() == 0 {
                    None
                } else {
                    Some(text)
                }
            },
            None => None,
        }
    }
}

/// The loaded diff and how it is looked at. The rows are paired once, when a
/// diff is loaded.
#[derive(Debug)]
pub struct Viewer {
    diff: Option<FileDiff>,
    rows: Vec<DiffRow>,
    hunk: usize,
    cursor: usize,
    col: usize,
    scroll: u16,
    full_h: usize,
    prev_h: usize,
    visual: Option<Visual>,
}

impl View for Viewer {
    type V = ViewerView;

    closed spec fn view(&self) -> ViewerView {
        ViewerView {
            diff: self.diff,
            hunk: self.hunk as nat,
            cursor: self.cursor as nat,
            col: self.col as nat,
            scroll: self.scroll as nat,
            full_h: self.full_h as nat,
            prev_h: self.prev_h as nat,
            visual: visual_view(self.visual),
        }
    }
}

/// The unified lines of the first `k` rows.
fn count_unified(rows: &Vec<DiffRow>, k: usize) -> (n: u128)
    requires
        k <= rows@.len(),
    ensures
        n == unified_len(rows_view(rows@), k as nat),
        n <= 2 * k,
{
    let mut n: u128 = 0;
    let mut i: usize = 0;
    while i < k
        invariant
            i <= k <= rows@.len(),
            n == unified_len(rows_view(rows@), i as nat),
            n <= 2 * i,
        decreases k - i,
    {
        assert(rows_view(rows@)[i as int] == rows@[i as int]@);
        n = n + unified_row_count(&rows[i]) as u128;
        i += 1;
    }
    n
}

/// The hunk of the last header in the first `k` rows.
fn find_hunk_above(rows: &Vec<DiffRow>, k: usize) -> (hunk: usize)
    requires
        k <= rows@.len(),
    ensures
        hunk == hunk_above(rows_view(rows@), k as nat),
{
    let mut hunk: usize = 0;
    let mut i: usize = 0;
    while i < k
        invariant
            i <= k <= rows@.len(),
            hunk == hunk_above(rows_view(rows@), i as nat),
        decreases k - i,
    {
        assert(rows_view(rows@)[i as int] == rows@[i as int]@);
        if let DiffRow::Header { index } = &rows[i] {
            hunk = *index;
        }
        i += 1;
    }
    hunk
}

impl Viewer {
    #[verifier::type_invariant]
    spec fn rows_are_paired(self) -> bool {
        rows_view(self.rows@) == rows_of(self.diff)
    }

    /// Nothing loaded.
    pub fn new() -> (viewer: Viewer)
        ensures
            viewer@ == ViewerView::empty(),
    {
        let rows: Vec<DiffRow> = Vec::new();
        assert(rows_view(rows@) =~= Seq::<RowView>::empty());
        Viewer {
            diff: None,
            rows,
            hunk: 0,
            cursor: 0,
            col: 0,
            scroll: 0,
            full_h: 0,
            prev_h: 0,
            visual: None,
        }
    }

    /// The loaded diff.
    pub fn diff(&self) -> (diff: Option<&FileDiff>)
        ensures
            diff is Some <==> self@.diff is Some,
            diff matches Some(d) ==> self@.diff == Some(*d),
    {
        match &self.diff {
            Some(d) => Some(d),
            None => None,
        }
    }

    /// The side-by-side rows of the loaded diff.
    pub fn rows(&self) -> (rows: &Vec<DiffRow>)
        ensures
            rows_view(rows@) == self@.rows(),
    {
        proof {
            use_type_invariant(self);
        }
        &self.rows
    }

    pub fn hunk(&self) -> (hunk: usize)
        ensures
            hunk == self@.hunk,
    {
        self.hunk
    }

    /// The row of the cursor.
    pub fn cursor_row(&self) -> (row: usize)
        ensures
            row == self@.row(),
            self@.rows().len() > 0 ==> row < self@.rows().len(),
    {
        proof {
            use_type_invariant(self);
            assert(rows_view(self.rows@).len() == self.rows@.len());
        }
        clamp_to(self.cursor, self.rows.len())
    }

    pub fn cursor_col(&self) -> (col: usize)
        ensures
            col == self@.col,
    {
        self.col
    }

    pub fn scroll(&self) -> (scroll: u16)
        ensures
            scroll == self@.scroll,
    {
        self.scroll
    }

    pub fn visual(&self) -> (visual: Option<Visual>)
        ensures
            visual_view(visual) == self@.visual,
    {
        self.visual
    }

    /// Records the height of the view over the whole screen.
    pub fn set_full_height(&mut self, h: usize)
        ensures
            final(self)@ == (ViewerView { full_h: h as nat, ..old(self)@ }),
    {
        proof {
            use_type_invariant(&*self);
        }
        self.full_h = h;
    }

    /// Records the height of the preview.
    pub fn set_preview_height(&mut self, h: usize)
        ensures
            final(self)@ == (ViewerView { prev_h: h as nat, ..old(self)@ }),
    {
        proof {
            use_type_invariant(&*self);
        }
        self.prev_h = h;
    }

    /// Puts the view at an offset.
    pub fn set_scroll(&mut self, scroll: u16)
        ensures
            final(self)@ == (ViewerView { scroll: scroll as nat, ..old(self)@ }),
    {
        proof {
            use_type_invariant(&*self);
        }
        self.scroll = scroll;
    }

    /// Selects a hunk and leaves the cursor.
    pub fn set_hunk(&mut self, hunk: usize)
        ensures
            final(self)@ == (ViewerView { hunk: hunk as nat, ..old(self)@ }),
    {
        proof {
            use_type_invariant(&*self);
        }
        self.hunk = hunk;
    }

    /// Loads another diff, or none.
    pub fn load(&mut self, diff: Option<FileDiff>)
        ensures
            final(self)@ == old(self)@.loaded(diff),
    {
        let rows = match &diff {
            Some(d) => diff_rows(d),
            None => Vec::new(),
        };
        assert(rows_view(rows@) =~= rows_of(diff));
        assert(rows_view(rows@).len() == rows@.len());
        let cursor = clamp_to(self.cursor, rows.len());
        *self = Viewer {
            diff,
            rows,
            hunk: self.hunk,
            cursor,
            col: self.col,
            scroll: self.scroll,
            full_h: self.full_h,
            prev_h: self.prev_h,
            visual: None,
        };
    }

    /// Goes back to the start of the diff.
    pub fn rewind(&mut self)
        ensures
            final(self)@ == old(self)@.rewound(),
    {
        proof {
            use_type_invariant(&*self);
        }
        self.hunk = 0;
        self.cursor = 0;
        self.col = 0;
        self.scroll = 0;
    }

    fn hunk_count(&self) -> (n: usize)
        ensures
            n == self@.hunks(),
    {
        match &self.diff {
            Some(d) => d.hunks.len(),
            None => 0,
        }
    }

    /// Selects a hunk and brings its header to the top of the view.
    pub fn select_hunk(&mut self, index: usize)
        ensures
            final(self)@ == old(self)@.at_hunk(index as nat),
    {
        proof {
            use_type_invariant(&*self);
            assert(rows_view(self.rows@).len() == self.rows@.len());
        }
        let hunk = clamp_to(index, self.hunk_count());
        let start = rows_hunk_start(&self.rows, hunk);
        self.hunk = hunk;
        self.cursor = clamp_to(start as usize, self.rows.len());
        self.scroll = start;
    }

    /// Selects the next hunk.
    pub fn next_hunk(&mut self)
        ensures
            final(self)@ == old(self)@.at_hunk(old(self)@.hunk + 1),
    {
        let n = self.hunk_count();
        let next = if self.hunk < n {
            self.hunk + 1
        } else {
            n
        };
        self.select_hunk(next);
    }

    /// Selects the previous hunk.
    pub fn previous_hunk(&mut self)
        ensures
            final(self)@ == old(self)@.at_hunk(last_of(old(self)@.hunk)),
    {
        let previous = if self.hunk == 0 {
            0
        } else {
            self.hunk - 1
        };
        self.select_hunk(previous);
    }

    /// Selects the hunk that the cursor is in.
    pub fn sync_hunk(&mut self)
        ensures
            final(self)@ == old(self)@.synced(),
    {
        proof {
            use_type_invariant(&*self);
            assert(rows_view(self.rows@).len() == self.rows@.len());
        }
        let k = if self.cursor < self.rows.len() {
            self.cursor + 1
        } else {
            self.rows.len()
        };
        let above = find_hunk_above(&self.rows, k);
        self.hunk = clamp_to(above, self.hunk_count());
    }

    /// Scrolls no more than it takes for the cursor to show.
    pub fn follow_cursor(&mut self, at: Showing)
        ensures
            final(self)@ == old(self)@.followed(at),
    {
        proof {
            use_type_invariant(&*self);
            assert(rows_view(self.rows@).len() == self.rows@.len());
        }
        if at.markdown || self.rows.len() == 0 {
            return;
        }
        let scroll = self.scroll as u128;
        let h = if at.full {
            self.full_h
        } else {
            self.prev_h
        };
        let h = if h == 0 {
            1
        } else {
            h as u128
        };
        let start: u128;
        let end: u128;
        if at.full {
            start = self.cursor as u128;
            end = start + 1;
        } else {
            let c = self.cursor_row();
            start = count_unified(&self.rows, c);
            assert(rows_view(self.rows@)[c as int] == self.rows@[c as int]@);
            end = start + unified_row_count(&self.rows[c]) as u128;
        }
        if start < scroll {
            self.scroll = cap(start);
        } else if end > scroll + h {
            self.scroll = cap(end - h);
        }
    }

    /// Moves the cursor by rows, within the diff.
    pub fn move_cursor(&mut self, delta: i32, at: Showing)
        ensures
            final(self)@ == old(self)@.moved(delta as int, at),
    {
        proof {
            use_type_invariant(&*self);
            assert(rows_view(self.rows@).len() == self.rows@.len());
        }
        let n = self.rows.len();
        if n == 0 || at.markdown {
            return;
        }
        let row = self.cursor_row();
        self.cursor = stepped(row as u128, delta, (n - 1) as u128) as usize;
        self.sync_hunk();
        self.follow_cursor(at);
    }

    /// How far the preview can be scrolled.
    pub fn preview_max(&self) -> (max: u16)
        ensures
            max == self@.preview_max(),
    {
        proof {
            use_type_invariant(self);
            assert(rows_view(self.rows@).len() == self.rows@.len());
        }
        let n = rows_unified_len(&self.rows);
        if n == 0 {
            0
        } else {
            cap(n - 1)
        }
    }

    fn full_max(&self) -> (max: u16)
        ensures
            max == self@.full_max(),
    {
        proof {
            use_type_invariant(self);
            assert(rows_view(self.rows@).len() == self.rows@.len());
        }
        let n = self.rows.len();
        if n == 0 {
            0
        } else {
            cap((n - 1) as u128)
        }
    }

    /// Brings the cursor's row to the top of the view.
    pub fn snap_scroll(&mut self, at: Showing)
        ensures
            final(self)@ == old(self)@.snapped(at),
    {
        proof {
            use_type_invariant(&*self);
            assert(rows_view(self.rows@).len() == self.rows@.len());
        }
        if at.markdown {
            return;
        }
        let off: u128;
        let max: u16;
        if at.full {
            off = self.cursor as u128;
            max = self.full_max();
        } else {
            let k = if self.cursor <= self.rows.len() {
                self.cursor
            } else {
                self.rows.len()
            };
            off = count_unified(&self.rows, k);
            max = self.preview_max();
        }
        self.scroll = if off <= max as u128 {
            off as u16
        } else {
            max
        };
    }

    /// Scrolls the view, within what there is to see.
    pub fn scroll_by(&mut self, delta: i32, at: Showing, text: &Option<String>)
        ensures
            final(self)@ == old(self)@.scrolled(
                delta as int,
                at,
                match *text {
                    Some(t) => Some(t@),
                    None => None,
                },
            ),
    {
        proof {
            use_type_invariant(&*self);
        }
        let max: u16 = if at.markdown {
            match text {
                Some(t) => {
                    let lines = split_lines(t.as_str());
                    assert(crate::text::texts(lines@).len() == lines@.len());
                    cap(lines.len() as u128 * 4 + 16)
                },
                None => u16::MAX,
            }
        } else if at.full {
            self.full_max()
        } else {
            self.preview_max()
        };
        let to: i64 = self.scroll as i64 + delta as i64;
        self.scroll = if to < 0 {
            0
        } else if to > max as i64 {
            max
        } else {
            to as u16
        };
    }

    fn line_len(&self) -> (n: usize)
        ensures
            n == self@.line_len(),
    {
        proof {
            use_type_invariant(self);
            assert(rows_view(self.rows@).len() == self.rows@.len());
        }
        match &self.diff {
            Some(d) => if self.rows.len() == 0 {
                0
            } else {
                let row = self.cursor_row();
                assert(rows_view(self.rows@)[row as int] == self.rows@[row as int]@);
                cursor_line_text(d, &self.rows[row]).as_str().unicode_len()
            },
            None => 0,
        }
    }

    /// Moves the block column, within the line.
    pub fn move_column(&mut self, delta: i32, at: Showing)
        ensures
            final(self)@ == old(self)@.col_moved(delta as int, at),
    {
        proof {
            use_type_invariant(&*self);
        }
        let n = self.line_len();
        if at.markdown || n == 0 {
            return;
        }
        let max = (n - 1) as u128;
        let col = if self.col as u128 <= max {
            self.col as u128
        } else {
            max
        };
        self.col = stepped(col, delta, max) as usize;
    }

    /// Puts the block column at the start of the line.
    pub fn column_home(&mut self, at: Showing)
        ensures
            final(self)@ == old(self)@.col_home(at),
    {
        proof {
            use_type_invariant(&*self);
            assert(rows_view(self.rows@).len() == self.rows@.len());
        }
        if at.markdown || self.rows.len() == 0 {
            return;
        }
        self.col = 0;
    }

    /// Puts the block column at the last character of the line.
    pub fn column_end(&mut self, at: Showing)
        ensures
            final(self)@ == old(self)@.col_end(at),
    {
        proof {
            use_type_invariant(&*self);
        }
        if at.markdown {
            return;
        }
        let n = self.line_len();
        self.col = if n == 0 {
            0
        } else {
            n - 1
        };
    }

    /// Begins a selection, leaves it, or turns it into one of the other kind.
    pub fn begin_visual(&mut self, mode: VisualMode, at: Showing)
        ensures
            final(self)@ == old(self)@.selecting(mode, at),
    {
        proof {
            use_type_invariant(&*self);
            assert(rows_view(self.rows@).len() == self.rows@.len());
        }
        if self.rows.len() == 0 || at.markdown {
            return;
        }
        self.visual = match self.visual {
            Some(v) => if v.mode == mode {
                None
            } else {
                Some(Visual { anchor_row: v.anchor_row, anchor_col: v.anchor_col, mode })
            },
            None => Some(
                Visual { anchor_row: self.cursor_row(), anchor_col: self.col, mode },
            ),
        };
    }

    /// Leaves the selection.
    pub fn leave_visual(&mut self)
        ensures
            final(self)@ == old(self)@.unselected(),
    {
        proof {
            use_type_invariant(&*self);
        }
        self.visual = None;
    }

    /// The selection, from its first to its last place.
    pub fn selection(&self) -> (sel: Option<VisualSel>)
        ensures
            sel is Some <==> self@.selection() is Some,
            sel matches Some(s) ==> self@.selection() == Some(s@) && s.start.0 <= s.end.0
                < self@.rows().len(),
    {
        proof {
            use_type_invariant(self);
            assert(rows_view(self.rows@).len() == self.rows@.len());
        }
        let n = self.rows.len();
        match self.visual {
            Some(v) => {
                if n == 0 {
                    return None;
                }
                let ar = clamp_to(v.anchor_row, n);
                let ac = v.anchor_col;
                let cr = self.cursor_row();
                let cc = self.col;
                let linewise = v.mode == VisualMode::Linewise;
                if ar < cr || (ar == cr && ac <= cc) {
                    Some(VisualSel { start: (ar, ac), end: (cr, cc), linewise })
                } else {
                    Some(VisualSel { start: (cr, cc), end: (ar, ac), linewise })
                }
            },
            None => None,
        }
    }

    fn text_of_row(&self, diff: &FileDiff, row: usize) -> (out: String)
        requires
            row < self@.rows().len(),
        ensures
            out@ == line_text(*diff, self@.rows()[row as int]),
    {
        proof {
            use_type_invariant(self);
            assert(rows_view(self.rows@).len() == self.rows@.len());
            assert(rows_view(self.rows@)[row as int] == self.rows@[row as int]@);
        }
        cursor_line_text(diff, &self.rows[row])
    }

    fn join_whole(&self, diff: &FileDiff, from: usize, to: usize) -> (out: String)
        requires
            from <= to <= self@.rows().len(),
        ensures
            out@ == whole_lines(*diff, self@.rows(), from as nat, to as nat),
    {
        let mut out = String::new();
        let mut r: usize = from;
        while r < to
            invariant
                from <= r <= to <= self@.rows().len(),
                out@ == whole_lines(*diff, self@.rows(), from as nat, r as nat),
            decreases to - r,
        {
            let line = self.text_of_row(diff, r);
            let ghost before = out@;
            out.append(line.as_str());
            out.push('\n');
            assert(out@ =~= before + line@.push('\n'));
            r += 1;
        }
        out
    }

    fn join_inner(&self, diff: &FileDiff, from: usize, to: usize, head: String) -> (out: String)
        requires
            from <= to <= self@.rows().len(),
        ensures
            out@ == head@ + inner_lines(*diff, self@.rows(), from as nat, to as nat),
    {
        let mut out = head;
        let mut r: usize = from;
        assert(out@ =~= head@ + inner_lines(*diff, self@.rows(), from as nat, r as nat));
        while r < to
            invariant
                from <= r <= to <= self@.rows().len(),
                out@ == head@ + inner_lines(*diff, self@.rows(), from as nat, r as nat),
            decreases to - r,
        {
            let line = self.text_of_row(diff, r);
            out.push('\n');
            out.append(line.as_str());
            r += 1;
            assert(out@ =~= head@ + inner_lines(*diff, self@.rows(), from as nat, r as nat));
        }
        out
    }

    fn join_selection(&self, diff: &FileDiff, sel: VisualSel) -> (out: String)
        requires
            sel.start.0 <= sel.end.0 < self@.rows().len(),
        ensures
            out@ == selected_text(*diff, self@.rows(), sel@),
    {
        let (r1, c1) = sel.start;
        let (r2, c2) = sel.end;
        if sel.linewise {
            let n = self.rows().len();
            assert(rows_view(self.rows@).len() == self.rows@.len());
            self.join_whole(diff, r1, r2 + 1)
        } else if r1 == r2 {
            slice_chars(self.text_of_row(diff, r1).as_str(), c1, c2)
        } else {
            let head = slice_from(self.text_of_row(diff, r1).as_str(), c1);
            let mut out = self.join_inner(diff, r1 + 1, r2, head);
            out.push('\n');
            let tail = slice_chars(self.text_of_row(diff, r2).as_str(), 0, c2);
            out.append(tail.as_str());
            out
        }
    }

    /// The text that a yank takes.
    pub fn yank_text(&self) -> (out: Option<String>)
        ensures
            out is Some <==> self@.yank_text() is Some,
            out matches Some(t) ==> self@.yank_text() == Some(t@),
    {
        proof {
            use_type_invariant(self);
            assert(rows_view(self.rows@).len() == self.rows@.len());
        }
        match &self.diff {
            Some(d) => {
                if self.rows.len() == 0 {
                    return None;
                }
                let text = match self.selection() {
                    None => {
                        let mut line = self.text_of_row(d, self.cursor_row());
                        if line.as_str().unicode_len() > 0 {
                            line.push('\n');
                        }
                        line
                    },
                    Some(sel) => self.join_selection(d, sel),
                };
                if text.as_str().unicode_len() == 0 {
                    None
                } else {
                    Some(text)
                }
            },
            None => None,
        }
    }
}

} // verus!
