//! Side-by-side rows of a diff.

use crate::model::{DiffLine, FileDiff, Hunk, LineKind};
use crate::text::{decimal, number_text};
use crate::words::{new_segs, old_segs, segs_text, segs_view, word_diff, SegView, WordSeg};
use vstd::prelude::*;
use vstd::string::*;

verus! {

/// What one side of a row is. `Blank` is the empty counterpart of a one-sided
/// (add- or del-only) row.
#[derive(Clone, Copy, Debug, PartialEq, Eq, Structural)]
pub enum SideKind {
    Context,
    Del,
    Add,
    Blank,
}

/// One side of a side-by-side row: a gutter number plus word segments.
#[derive(Debug)]
pub struct Side {
    pub no: Option<u128>,
    pub segs: Vec<WordSeg>,
    pub kind: SideKind,
}

/// A row of a diff: a hunk separator or a paired old/new line.
#[derive(Debug)]
pub enum DiffRow {
    Header { index: usize },
    Split { left: Side, right: Side },
}

/// What a [`Side`] holds.
#[verifier::ext_equal]
pub struct SideView {
    pub no: Option<nat>,
    pub segs: Seq<SegView>,
    pub kind: SideKind,
}

/// What a [`DiffRow`] holds.
#[verifier::ext_equal]
pub enum RowView {
    Header { index: nat },
    Split { left: SideView, right: SideView },
}

impl View for Side {
    type V = SideView;

    open spec fn view(&self) -> SideView {
        SideView {
            no: match self.no {
                Some(n) => Some(n as nat),
                None => None,
            },
            segs: segs_view(self.segs@),
            kind: self.kind,
        }
    }
}

impl View for DiffRow {
    type V = RowView;

    open spec fn view(&self) -> RowView {
        match *self {
            DiffRow::Header { index } => RowView::Header { index: index as nat },
            DiffRow::Split { left, right } => RowView::Split { left: left@, right: right@ },
        }
    }
}

/// What a list of rows holds.
pub open spec fn rows_view(rows: Seq<DiffRow>) -> Seq<RowView> {
    rows.map_values(|r: DiffRow| r@)
}

pub proof fn lemma_rows_push(rows: Seq<DiffRow>, row: DiffRow)
    ensures
        rows_view(rows.push(row)) == rows_view(rows).push(row@),
{
    assert(rows_view(rows.push(row)) =~= rows_view(rows).push(row@));
}

/// The end of the run of lines of one kind that starts at `i`.
pub open spec fn run_end(lines: Seq<DiffLine>, i: int, kind: LineKind) -> int
    decreases lines.len() - i,
{
    if 0 <= i < lines.len() && lines[i].kind == kind {
        run_end(lines, i + 1, kind)
    } else {
        i
    }
}

pub proof fn lemma_run_end(lines: Seq<DiffLine>, i: int, kind: LineKind)
    requires
        0 <= i <= lines.len(),
    ensures
        i <= run_end(lines, i, kind) <= lines.len(),
        forall|k: int| i <= k < run_end(lines, i, kind) ==> (#[trigger] lines[k]).kind == kind,
        run_end(lines, i, kind) < lines.len() ==> lines[run_end(lines, i, kind)].kind != kind,
    decreases lines.len() - i,
{
    if i < lines.len() && lines[i].kind == kind {
        lemma_run_end(lines, i + 1, kind);
    }
}

/// A context line on both sides.
pub open spec fn context_row(text: Seq<char>, old_no: nat, new_no: nat) -> RowView {
    let segs = seq![SegView { text, changed: false }];
    RowView::Split {
        left: SideView { no: Some(old_no), segs, kind: SideKind::Context },
        right: SideView { no: Some(new_no), segs, kind: SideKind::Context },
    }
}

/// The text of a line of a run, empty behind its end.
pub open spec fn run_text(lines: Seq<DiffLine>, from: int, to: int, k: int) -> Seq<char> {
    if from + k < to {
        lines[from + k].text@
    } else {
        Seq::empty()
    }
}

/// The `k`-th row of a block of deleted lines `i..d` and added lines `d..a`:
/// the two are paired by place, and the shorter run gets blanks.
pub open spec fn paired_row(
    lines: Seq<DiffLine>,
    i: int,
    d: int,
    a: int,
    old_no: nat,
    new_no: nat,
    k: int,
) -> RowView {
    let old_text = run_text(lines, i, d, k);
    let new_text = run_text(lines, d, a, k);
    RowView::Split {
        left: if i + k < d {
            SideView {
                no: Some((old_no + k) as nat),
                segs: old_segs(old_text, new_text),
                kind: SideKind::Del,
            }
        } else {
            SideView { no: None, segs: old_segs(old_text, new_text), kind: SideKind::Blank }
        },
        right: if d + k < a {
            SideView {
                no: Some((new_no + k) as nat),
                segs: new_segs(old_text, new_text),
                kind: SideKind::Add,
            }
        } else {
            SideView { no: None, segs: new_segs(old_text, new_text), kind: SideKind::Blank }
        },
    }
}

/// The rows of such a block: as many as the longer run has lines.
pub open spec fn paired_rows(
    lines: Seq<DiffLine>,
    i: int,
    d: int,
    a: int,
    old_no: nat,
    new_no: nat,
) -> Seq<RowView> {
    let n = if d - i >= a - d {
        d - i
    } else {
        a - d
    };
    Seq::new(n as nat, |k: int| paired_row(lines, i, d, a, old_no, new_no, k))
}

/// The rows of a hunk from line `i` on, where the next old and new lines have
/// those numbers.
pub open spec fn hunk_rows(
    lines: Seq<DiffLine>,
    i: int,
    old_no: nat,
    new_no: nat,
) -> Seq<RowView>
    decreases lines.len() - i,
{
    if i < 0 || i >= lines.len() {
        Seq::empty()
    } else {
        proof {
            lemma_run_end(lines, i, LineKind::Del);
            lemma_run_end(lines, run_end(lines, i, LineKind::Del), LineKind::Add);
        }
        let d = run_end(lines, i, LineKind::Del);
        let a = run_end(lines, d, LineKind::Add);
        if a > i {
            paired_rows(lines, i, d, a, old_no, new_no) + hunk_rows(
                lines,
                a,
                (old_no + (d - i)) as nat,
                (new_no + (a - d)) as nat,
            )
        } else if lines[i].kind == LineKind::HunkHeader {
            hunk_rows(lines, i + 1, old_no, new_no)
        } else {
            seq![context_row(lines[i].text@, old_no, new_no)] + hunk_rows(
                lines,
                i + 1,
                old_no + 1,
                new_no + 1,
            )
        }
    }
}

/// The rows of the first `k` hunks: each a header, then its lines.
pub open spec fn rows_of_hunks(hunks: Seq<Hunk>, k: nat) -> Seq<RowView>
    decreases k,
{
    if k == 0 {
        Seq::empty()
    } else {
        let h = hunks[k - 1];
        rows_of_hunks(hunks, (k - 1) as nat) + (seq![RowView::Header { index: (k - 1) as nat }]
            + hunk_rows(h.lines@, 0, h.old_start as nat, h.new_start as nat))
    }
}

/// The rows of a diff.
pub open spec fn diff_row_views(diff: FileDiff) -> Seq<RowView> {
    rows_of_hunks(diff.hunks@, diff.hunks@.len())
}

/// The texts of the old lines among rows, in order.
pub open spec fn old_texts(rows: Seq<RowView>) -> Seq<Seq<char>>
    decreases rows.len(),
{
    if rows.len() == 0 {
        Seq::empty()
    } else {
        let before = old_texts(rows.drop_last());
        match rows.last() {
            RowView::Split { left, .. } => if left.no is Some {
                before.push(segs_text(left.segs))
            } else {
                before
            },
            RowView::Header { .. } => before,
        }
    }
}

/// The texts of the new lines among rows, in order.
pub open spec fn new_texts(rows: Seq<RowView>) -> Seq<Seq<char>>
    decreases rows.len(),
{
    if rows.len() == 0 {
        Seq::empty()
    } else {
        let before = new_texts(rows.drop_last());
        match rows.last() {
            RowView::Split { right, .. } => if right.no is Some {
                before.push(segs_text(right.segs))
            } else {
                before
            },
            RowView::Header { .. } => before,
        }
    }
}

/// The texts of the first `k` lines that are on one side: context, and the
/// lines of that side's own kind.
pub open spec fn side_lines(lines: Seq<DiffLine>, own: LineKind, k: nat) -> Seq<Seq<char>>
    decreases k,
{
    if k == 0 {
        Seq::empty()
    } else {
        let before = side_lines(lines, own, (k - 1) as nat);
        let line = lines[k - 1];
        if line.kind == LineKind::Context || line.kind == own {
            before.push(line.text@)
        } else {
            before
        }
    }
}

/// The texts of the first `k` hunks that are on one side.
pub open spec fn side_of_hunks(hunks: Seq<Hunk>, own: LineKind, k: nat) -> Seq<Seq<char>>
    decreases k,
{
    if k == 0 {
        Seq::empty()
    } else {
        side_of_hunks(hunks, own, (k - 1) as nat) + side_lines(
            hunks[k - 1].lines@,
            own,
            hunks[k - 1].lines@.len(),
        )
    }
}

proof fn lemma_texts_push(rows: Seq<RowView>, row: RowView)
    ensures
        row is Header ==> old_texts(rows.push(row)) == old_texts(rows) && new_texts(rows.push(row))
            == new_texts(rows),
        row matches RowView::Split { left, .. } ==> old_texts(rows.push(row)) == if left.no is Some {
            old_texts(rows).push(segs_text(left.segs))
        } else {
            old_texts(rows)
        },
        row matches RowView::Split { right, .. } ==> new_texts(rows.push(row)) == if right.no is Some {
            new_texts(rows).push(segs_text(right.segs))
        } else {
            new_texts(rows)
        },
{
    assert(rows.push(row).drop_last() =~= rows);
}

/// The texts of the lines from `i` up to `end`.
pub open spec fn run_texts(lines: Seq<DiffLine>, i: int, end: int) -> Seq<Seq<char>> {
    Seq::new((end - i) as nat, |k: int| lines[i + k].text@)
}

/// A run of lines of one kind adds its texts to its own side and nothing to the
/// other.
proof fn lemma_run_lines(lines: Seq<DiffLine>, i: int, end: int, kind: LineKind, own: LineKind)
    requires
        0 <= i <= end <= lines.len(),
        forall|k: int| i <= k < end ==> (#[trigger] lines[k]).kind == kind,
        kind == LineKind::Del || kind == LineKind::Add,
    ensures
        kind == own ==> side_lines(lines, own, end as nat) == side_lines(lines, own, i as nat)
            + run_texts(lines, i, end),
        kind != own ==> side_lines(lines, own, end as nat) == side_lines(lines, own, i as nat),
    decreases end - i,
{
    if i < end {
        lemma_run_lines(lines, i, end - 1, kind, own);
        assert(lines[end - 1].kind == kind);
        assert(run_texts(lines, i, end) =~= run_texts(lines, i, end - 1).push(
            lines[end - 1].text@,
        ));
        assert(side_lines(lines, own, i as nat) + run_texts(lines, i, end - 1).push(
            lines[end - 1].text@,
        ) =~= (side_lines(lines, own, i as nat) + run_texts(lines, i, end - 1)).push(
            lines[end - 1].text@,
        ));
    } else {
        assert(side_lines(lines, own, i as nat) + run_texts(lines, i, end) =~= side_lines(
            lines,
            own,
            i as nat,
        ));
    }
}

fn find_run_end(lines: &Vec<DiffLine>, from: usize, kind: LineKind) -> (end: usize)
    requires
        from <= lines@.len(),
    ensures
        end == run_end(lines@, from as int, kind),
        from <= end <= lines@.len(),
{
    let mut i: usize = from;
    while i < lines.len() && lines[i].kind == kind
        invariant
            from <= i <= lines@.len(),
            run_end(lines@, from as int, kind) == run_end(lines@, i as int, kind),
        decreases lines@.len() - i,
    {
        i += 1;
    }
    i
}

fn push_context(rows: &mut Vec<DiffRow>, text: &String, old_no: u128, new_no: u128)
    ensures
        rows_view(final(rows)@) == rows_view(old(rows)@).push(
            context_row(text@, old_no as nat, new_no as nat),
        ),
        old_texts(rows_view(final(rows)@)) == old_texts(rows_view(old(rows)@)).push(text@),
        new_texts(rows_view(final(rows)@)) == new_texts(rows_view(old(rows)@)).push(text@),
{
    let mut left: Vec<WordSeg> = Vec::new();
    left.push(WordSeg { text: text.clone(), changed: false });
    let mut right: Vec<WordSeg> = Vec::new();
    right.push(WordSeg { text: text.clone(), changed: false });
    assert(segs_view(left@) =~= seq![SegView { text: text@, changed: false }]);
    assert(segs_view(right@) =~= seq![SegView { text: text@, changed: false }]);
    let row = DiffRow::Split {
        left: Side { no: Some(old_no), segs: left, kind: SideKind::Context },
        right: Side { no: Some(new_no), segs: right, kind: SideKind::Context },
    };
    proof {
        let one = seq![SegView { text: text@, changed: false }];
        assert(one.drop_last() =~= Seq::empty());
        assert(segs_text(one.drop_last()) =~= Seq::empty());
        assert(segs_text(one) =~= text@);
        lemma_texts_push(rows_view(rows@), row@);
        lemma_rows_push(rows@, row);
    }
    rows.push(row);
}

fn paired(
    lines: &Vec<DiffLine>,
    i: usize,
    d: usize,
    a: usize,
    old_no: u128,
    new_no: u128,
    k: usize,
) -> (row: DiffRow)
    requires
        i <= d <= a <= lines@.len(),
        old_no + k <= u128::MAX,
        new_no + k <= u128::MAX,
    ensures
        row@ == paired_row(
            lines@,
            i as int,
            d as int,
            a as int,
            old_no as nat,
            new_no as nat,
            k as int,
        ),
        row@ matches RowView::Split { left, right } && segs_text(left.segs) == run_text(
            lines@,
            i as int,
            d as int,
            k as int,
        ) && segs_text(right.segs) == run_text(lines@, d as int, a as int, k as int),
{
    let has_old = k < d - i;
    let has_new = k < a - d;
    let none = String::new();
    let old_text = if has_old { lines[i + k].text.as_str() } else { none.as_str() };
    let new_text = if has_new { lines[d + k].text.as_str() } else { none.as_str() };
    assert(old_text@ =~= run_text(lines@, i as int, d as int, k as int));
    assert(new_text@ =~= run_text(lines@, d as int, a as int, k as int));
    let (left, right) = word_diff(old_text, new_text);
    DiffRow::Split {
        left: Side {
            no: if has_old { Some(old_no + k as u128) } else { None },
            segs: left,
            kind: if has_old { SideKind::Del } else { SideKind::Blank },
        },
        right: Side {
            no: if has_new { Some(new_no + k as u128) } else { None },
            segs: right,
            kind: if has_new { SideKind::Add } else { SideKind::Blank },
        },
    }
}

fn push_paired(
    rows: &mut Vec<DiffRow>,
    lines: &Vec<DiffLine>,
    i: usize,
    d: usize,
    a: usize,
    old_no: u128,
    new_no: u128,
)
    requires
        i <= d <= a <= lines@.len(),
        old_no <= 0x1_0000_0000_0000_0000_0000,
        new_no <= 0x1_0000_0000_0000_0000_0000,
    ensures
        rows_view(final(rows)@) == rows_view(old(rows)@) + paired_rows(
            lines@,
            i as int,
            d as int,
            a as int,
            old_no as nat,
            new_no as nat,
        ),
        old_texts(rows_view(final(rows)@)) == old_texts(rows_view(old(rows)@)) + run_texts(
            lines@,
            i as int,
            d as int,
        ),
        new_texts(rows_view(final(rows)@)) == new_texts(rows_view(old(rows)@)) + run_texts(
            lines@,
            d as int,
            a as int,
        ),
{
    let total = lines.len();
    let n = if d - i >= a - d { d - i } else { a - d };
    let ghost block = paired_rows(
        lines@,
        i as int,
        d as int,
        a as int,
        old_no as nat,
        new_no as nat,
    );
    let ghost before = rows_view(rows@);
    let ghost olds = run_texts(lines@, i as int, d as int);
    let ghost news = run_texts(lines@, d as int, a as int);
    let mut k: usize = 0;
    assert(before + block.take(0) =~= before);
    assert(old_texts(before) + olds.take(0) =~= old_texts(before));
    assert(new_texts(before) + news.take(0) =~= new_texts(before));
    while k < n
        invariant
            i <= d <= a <= total == lines@.len(),
            n == (if d - i >= a - d { d - i } else { a - d }),
            k <= n,
            old_no <= 0x1_0000_0000_0000_0000_0000,
            new_no <= 0x1_0000_0000_0000_0000_0000,
            block == paired_rows(
                lines@,
                i as int,
                d as int,
                a as int,
                old_no as nat,
                new_no as nat,
            ),
            rows_view(rows@) == before + block.take(k as int),
            olds == run_texts(lines@, i as int, d as int),
            news == run_texts(lines@, d as int, a as int),
            old_texts(rows_view(rows@)) == old_texts(before) + olds.take(
                if k < d - i {
                    k as int
                } else {
                    d - i
                },
            ),
            new_texts(rows_view(rows@)) == new_texts(before) + news.take(
                if k < a - d {
                    k as int
                } else {
                    a - d
                },
            ),
        decreases n - k,
    {
        let row = paired(lines, i, d, a, old_no, new_no, k);
        proof {
            lemma_texts_push(rows_view(rows@), row@);
            if k < d - i {
                assert(old_texts(before) + olds.take(k + 1) =~= (old_texts(before) + olds.take(
                    k as int,
                )).push(olds[k as int]));
            }
            if k < a - d {
                assert(new_texts(before) + news.take(k + 1) =~= (new_texts(before) + news.take(
                    k as int,
                )).push(news[k as int]));
            }
            lemma_rows_push(rows@, row);
            assert(block.take(k + 1) =~= block.take(k as int).push(row@));
        }
        rows.push(row);
        assert(rows_view(rows@) =~= before + block.take(k + 1));
        k += 1;
    }
    assert(block.take(n as int) =~= block);
    assert(olds.take(d - i) =~= olds);
    assert(news.take(a - d) =~= news);
}

fn push_hunk(rows: &mut Vec<DiffRow>, hunk: &Hunk)
    ensures
        rows_view(final(rows)@) == rows_view(old(rows)@) + hunk_rows(
            hunk.lines@,
            0,
            hunk.old_start as nat,
            hunk.new_start as nat,
        ),
        old_texts(rows_view(final(rows)@)) == old_texts(rows_view(old(rows)@)) + side_lines(
            hunk.lines@,
            LineKind::Del,
            hunk.lines@.len(),
        ),
        new_texts(rows_view(final(rows)@)) == new_texts(rows_view(old(rows)@)) + side_lines(
            hunk.lines@,
            LineKind::Add,
            hunk.lines@.len(),
        ),
{
    let lines = &hunk.lines;
    let ghost before = rows_view(rows@);
    let ghost all = hunk_rows(lines@, 0, hunk.old_start as nat, hunk.new_start as nat);
    let mut old_no: u128 = hunk.old_start as u128;
    let mut new_no: u128 = hunk.new_start as u128;
    let mut i: usize = 0;
    assert(old_texts(before) + side_lines(lines@, LineKind::Del, 0) =~= old_texts(before));
    assert(new_texts(before) + side_lines(lines@, LineKind::Add, 0) =~= new_texts(before));
    while i < lines.len()
        invariant
            i <= lines@.len(),
            old_texts(rows_view(rows@)) == old_texts(before) + side_lines(
                lines@,
                LineKind::Del,
                i as nat,
            ),
            new_texts(rows_view(rows@)) == new_texts(before) + side_lines(
                lines@,
                LineKind::Add,
                i as nat,
            ),
            old_no <= 0xffff_ffff + i,
            new_no <= 0xffff_ffff + i,
            rows_view(rows@) + hunk_rows(lines@, i as int, old_no as nat, new_no as nat) == before
                + all,
        decreases lines@.len() - i,
    {
        let ghost so_far = rows_view(rows@);
        let d = find_run_end(lines, i, LineKind::Del);
        let a = find_run_end(lines, d, LineKind::Add);
        if a > i {
            push_paired(rows, lines, i, d, a, old_no, new_no);
            proof {
                let (olds, news) = (run_texts(lines@, i as int, d as int), run_texts(
                    lines@,
                    d as int,
                    a as int,
                ));
                lemma_run_end(lines@, i as int, LineKind::Del);
                lemma_run_end(lines@, d as int, LineKind::Add);
                lemma_run_lines(lines@, i as int, d as int, LineKind::Del, LineKind::Del);
                lemma_run_lines(lines@, i as int, d as int, LineKind::Del, LineKind::Add);
                lemma_run_lines(lines@, d as int, a as int, LineKind::Add, LineKind::Del);
                lemma_run_lines(lines@, d as int, a as int, LineKind::Add, LineKind::Add);
                let old_side = side_lines(lines@, LineKind::Del, i as nat);
                let new_side = side_lines(lines@, LineKind::Add, i as nat);
                assert(old_texts(before) + old_side + olds =~= old_texts(before) + (old_side
                    + olds));
                assert(new_texts(before) + new_side + news =~= new_texts(before) + (new_side
                    + news));
            }
            let ghost block = paired_rows(
                lines@,
                i as int,
                d as int,
                a as int,
                old_no as nat,
                new_no as nat,
            );
            let ghost rest = hunk_rows(
                lines@,
                a as int,
                (old_no + (d - i)) as nat,
                (new_no + (a - d)) as nat,
            );
            assert((so_far + block) + rest =~= so_far + (block + rest));
            old_no = old_no + (d - i) as u128;
            new_no = new_no + (a - d) as u128;
            i = a;
        } else if lines[i].kind == LineKind::HunkHeader {
            i += 1;
        } else {
            proof {
                lemma_run_end(lines@, i as int, LineKind::Del);
                lemma_run_end(lines@, d as int, LineKind::Add);
                assert(lines@[i as int].kind == LineKind::Context);
                let text = lines@[i as int].text@;
                let old_side = side_lines(lines@, LineKind::Del, i as nat);
                let new_side = side_lines(lines@, LineKind::Add, i as nat);
                assert((old_texts(before) + old_side).push(text) =~= old_texts(before)
                    + old_side.push(text));
                assert((new_texts(before) + new_side).push(text) =~= new_texts(before)
                    + new_side.push(text));
            }
            push_context(rows, &lines[i].text, old_no, new_no);
            let ghost row = context_row(lines@[i as int].text@, old_no as nat, new_no as nat);
            let ghost rest = hunk_rows(
                lines@,
                i + 1,
                (old_no + 1) as nat,
                (new_no + 1) as nat,
            );
            assert(so_far.push(row) + rest =~= so_far + (seq![row] + rest));
            old_no = old_no + 1;
            new_no = new_no + 1;
            i += 1;
        }
    }
    assert(rows_view(rows@) =~= before + all);
}

/// Pairs the lines of a diff into rows, tracking old and new line numbers from
/// the hunk starts. Runs of deleted and added lines pair up by place; leftover
/// lines get a blank counterpart; context fills both sides. No line is lost: the
/// left sides show the context and deleted lines, in order and letter for letter,
/// and the right sides the context and added lines.
pub fn diff_rows(diff: &FileDiff) -> (rows: Vec<DiffRow>)
    ensures
        rows_view(rows@) == diff_row_views(*diff),
        old_texts(rows_view(rows@)) == side_of_hunks(
            diff.hunks@,
            LineKind::Del,
            diff.hunks@.len(),
        ),
        new_texts(rows_view(rows@)) == side_of_hunks(
            diff.hunks@,
            LineKind::Add,
            diff.hunks@.len(),
        ),
{
    let mut rows: Vec<DiffRow> = Vec::new();
    let mut k: usize = 0;
    assert(rows_view(rows@) =~= rows_of_hunks(diff.hunks@, 0));
    assert(old_texts(rows_view(rows@)) =~= Seq::empty());
    assert(new_texts(rows_view(rows@)) =~= Seq::empty());
    while k < diff.hunks.len()
        invariant
            k <= diff.hunks@.len(),
            rows_view(rows@) == rows_of_hunks(diff.hunks@, k as nat),
            old_texts(rows_view(rows@)) == side_of_hunks(diff.hunks@, LineKind::Del, k as nat),
            new_texts(rows_view(rows@)) == side_of_hunks(diff.hunks@, LineKind::Add, k as nat),
        decreases diff.hunks@.len() - k,
    {
        let ghost before = rows_view(rows@);
        let header = DiffRow::Header { index: k };
        proof {
            lemma_texts_push(rows_view(rows@), header@);
            lemma_rows_push(rows@, header);
        }
        rows.push(header);
        let ghost h = diff.hunks@[k as int];
        push_hunk(&mut rows, &diff.hunks[k]);
        let ghost body = hunk_rows(h.lines@, 0, h.old_start as nat, h.new_start as nat);
        assert(before.push(header@) + body =~= before + (seq![header@] + body));
        k += 1;
    }
    rows
}

/// How many unified lines a row expands to (headers count as one).
pub open spec fn unified_count(row: RowView) -> nat {
    match row {
        RowView::Header { .. } => 1,
        RowView::Split { left, right } => if left.kind == SideKind::Context {
            1
        } else if left.kind == SideKind::Del && right.kind == SideKind::Add {
            2
        } else if left.kind == SideKind::Del || right.kind == SideKind::Add {
            1
        } else {
            0
        },
    }
}

/// How many unified lines a row expands to.
pub fn unified_row_count(row: &DiffRow) -> (n: usize)
    ensures
        n == unified_count(row@),
        n <= 2,
{
    match row {
        DiffRow::Header { .. } => 1,
        DiffRow::Split { left, right } => {
            if left.kind == SideKind::Context {
                1
            } else if left.kind == SideKind::Del && right.kind == SideKind::Add {
                2
            } else if left.kind == SideKind::Del || right.kind == SideKind::Add {
                1
            } else {
                0
            }
        },
    }
}

/// The unified lines of the first `k` rows.
pub open spec fn unified_len(rows: Seq<RowView>, k: nat) -> nat
    decreases k,
{
    if k == 0 {
        0
    } else {
        unified_len(rows, (k - 1) as nat) + unified_count(rows[k - 1])
    }
}

/// The number of unified lines of all rows.
pub fn rows_unified_len(rows: &Vec<DiffRow>) -> (n: u128)
    ensures
        n == unified_len(rows_view(rows@), rows@.len()),
        n <= 2 * rows@.len(),
{
    let mut n: u128 = 0;
    let mut i: usize = 0;
    while i < rows.len()
        invariant
            i <= rows@.len(),
            n == unified_len(rows_view(rows@), i as nat),
            n <= 2 * i,
        decreases rows@.len() - i,
    {
        assert(rows_view(rows@)[i as int] == rows@[i as int]@);
        n = n + unified_row_count(&rows[i]) as u128;
        i += 1;
    }
    n
}

/// The place of the header of a hunk among the rows from `i` on; none where
/// there is no such header.
pub open spec fn header_at(rows: Seq<RowView>, index: nat, i: int) -> Option<int>
    decreases rows.len() - i,
{
    if i < 0 || i >= rows.len() {
        None
    } else if rows[i] == (RowView::Header { index }) {
        Some(i)
    } else {
        header_at(rows, index, i + 1)
    }
}

/// The row of a hunk's header, as a scroll offset: 0 where there is none.
pub open spec fn hunk_start(rows: Seq<RowView>, index: nat) -> nat {
    match header_at(rows, index, 0) {
        Some(i) => if i > u16::MAX {
            u16::MAX as nat
        } else {
            i as nat
        },
        None => 0,
    }
}

/// The row of a hunk's header, so that hunk navigation can move to it.
pub fn rows_hunk_start(rows: &Vec<DiffRow>, index: usize) -> (at: u16)
    ensures
        at == hunk_start(rows_view(rows@), index as nat),
{
    let mut i: usize = 0;
    while i < rows.len()
        invariant
            i <= rows@.len(),
            header_at(rows_view(rows@), index as nat, 0) == header_at(
                rows_view(rows@),
                index as nat,
                i as int,
            ),
        decreases rows@.len() - i,
    {
        assert(rows_view(rows@)[i as int] == rows@[i as int]@);
        if let DiffRow::Header { index: k } = &rows[i] {
            if *k == index {
                return if i > u16::MAX as usize { u16::MAX } else { i as u16 };
            }
        }
        i += 1;
    }
    assert(rows_view(rows@).len() == rows@.len());
    0
}

/// The digits of a gutter number; none for a line without one.
pub open spec fn digits(no: Option<nat>) -> nat {
    match no {
        Some(n) => decimal(n).len(),
        None => 0,
    }
}

pub open spec fn larger(a: nat, b: nat) -> nat {
    if a >= b {
        a
    } else {
        b
    }
}

/// The width of the gutter for the first `k` rows: the longest number, four
/// digits at least.
pub open spec fn gutter(rows: Seq<RowView>, k: nat) -> nat
    decreases k,
{
    if k == 0 {
        4
    } else {
        let before = gutter(rows, (k - 1) as nat);
        match rows[k - 1] {
            RowView::Header { .. } => before,
            RowView::Split { left, right } => larger(
                larger(before, digits(left.no)),
                digits(right.no),
            ),
        }
    }
}

fn count_digits(no: Option<u128>) -> (n: usize)
    ensures
        n == digits(
            match no {
                Some(k) => Some(k as nat),
                None => None,
            },
        ),
{
    match no {
        Some(k) => number_text(k).as_str().unicode_len(),
        None => 0,
    }
}

/// The gutter has room for every number of its rows.
pub proof fn law_numbers_fit(rows: Seq<RowView>, k: nat, i: int)
    requires
        0 <= i < k <= rows.len(),
    ensures
        gutter(rows, k) >= 4,
        rows[i] matches RowView::Split { left, right } ==> digits(left.no) <= gutter(rows, k)
            && digits(right.no) <= gutter(rows, k),
    decreases k,
{
    if i < k - 1 {
        law_numbers_fit(rows, (k - 1) as nat, i);
    } else {
        lemma_gutter_least(rows, (k - 1) as nat);
    }
}

proof fn lemma_gutter_least(rows: Seq<RowView>, k: nat)
    ensures
        gutter(rows, k) >= 4,
    decreases k,
{
    if k > 0 {
        lemma_gutter_least(rows, (k - 1) as nat);
    }
}

/// Gutter width: right-aligned numbers, at least 4 digits wide.
pub fn gutter_width(rows: &Vec<DiffRow>) -> (w: usize)
    ensures
        w == gutter(rows_view(rows@), rows@.len()),
{
    let mut w: usize = 4;
    let mut i: usize = 0;
    while i < rows.len()
        invariant
            i <= rows@.len(),
            w == gutter(rows_view(rows@), i as nat),
        decreases rows@.len() - i,
    {
        assert(rows_view(rows@)[i as int] == rows@[i as int]@);
        if let DiffRow::Split { left, right } = &rows[i] {
            let l = count_digits(left.no);
            if l > w {
                w = l;
            }
            let r = count_digits(right.no);
            if r > w {
                w = r;
            }
        }
        i += 1;
    }
    w
}

/// The empty counterpart of a side: same wash, no number, no text.
pub open spec fn blank_of(side: SideView) -> SideView {
    SideView { no: None, segs: Seq::empty(), kind: side.kind }
}

/// The empty counterpart of a side, for padding short halves.
pub fn blank_side(side: &Side) -> (out: Side)
    ensures
        out@ == blank_of(side@),
{
    let out = Side { no: None, segs: Vec::new(), kind: side.kind };
    assert(out@ =~= blank_of(side@));
    out
}

/// The numbers of the old lines among rows.
pub open spec fn old_numbers(rows: Seq<RowView>) -> Seq<nat>
    decreases rows.len(),
{
    if rows.len() == 0 {
        Seq::empty()
    } else {
        let before = old_numbers(rows.drop_last());
        match rows.last() {
            RowView::Split { left, .. } => match left.no {
                Some(n) => before.push(n),
                None => before,
            },
            RowView::Header { .. } => before,
        }
    }
}

/// The numbers of the new lines among rows.
pub open spec fn new_numbers(rows: Seq<RowView>) -> Seq<nat>
    decreases rows.len(),
{
    if rows.len() == 0 {
        Seq::empty()
    } else {
        let before = new_numbers(rows.drop_last());
        match rows.last() {
            RowView::Split { right, .. } => match right.no {
                Some(n) => before.push(n),
                None => before,
            },
            RowView::Header { .. } => before,
        }
    }
}

/// `n` numbers from `start` on.
pub open spec fn counting(start: nat, n: nat) -> Seq<nat> {
    Seq::new(n, |i: int| (start + i) as nat)
}

/// How many of the lines from `i` on are on the old side (not added).
pub open spec fn old_lines(lines: Seq<DiffLine>, i: int) -> nat
    decreases lines.len() - i,
{
    if i < 0 || i >= lines.len() {
        0
    } else {
        old_lines(lines, i + 1) + if lines[i].kind == LineKind::Context || lines[i].kind
            == LineKind::Del {
            1nat
        } else {
            0nat
        }
    }
}

/// How many of the lines from `i` on are on the new side (not deleted).
pub open spec fn new_lines(lines: Seq<DiffLine>, i: int) -> nat
    decreases lines.len() - i,
{
    if i < 0 || i >= lines.len() {
        0
    } else {
        new_lines(lines, i + 1) + if lines[i].kind == LineKind::Context || lines[i].kind
            == LineKind::Add {
            1nat
        } else {
            0nat
        }
    }
}

proof fn lemma_numbers_concat(a: Seq<RowView>, b: Seq<RowView>)
    ensures
        old_numbers(a + b) == old_numbers(a) + old_numbers(b),
        new_numbers(a + b) == new_numbers(a) + new_numbers(b),
    decreases b.len(),
{
    if b.len() == 0 {
        assert(a + b =~= a);
        assert(old_numbers(a) + old_numbers(b) =~= old_numbers(a));
        assert(new_numbers(a) + new_numbers(b) =~= new_numbers(a));
    } else {
        assert((a + b).drop_last() =~= a + b.drop_last());
        lemma_numbers_concat(a, b.drop_last());
        assert(old_numbers(a + b) =~= old_numbers(a) + old_numbers(b));
        assert(new_numbers(a + b) =~= new_numbers(a) + new_numbers(b));
    }
}

proof fn lemma_block_numbers(
    lines: Seq<DiffLine>,
    i: int,
    d: int,
    a: int,
    old_no: nat,
    new_no: nat,
    n: nat,
)
    requires
        0 <= i <= d <= a <= lines.len(),
        n <= paired_rows(lines, i, d, a, old_no, new_no).len(),
    ensures
        old_numbers(paired_rows(lines, i, d, a, old_no, new_no).take(n as int)) == counting(
            old_no,
            if n < d - i {
                n
            } else {
                (d - i) as nat
            },
        ),
        new_numbers(paired_rows(lines, i, d, a, old_no, new_no).take(n as int)) == counting(
            new_no,
            if n < a - d {
                n
            } else {
                (a - d) as nat
            },
        ),
    decreases n,
{
    let block = paired_rows(lines, i, d, a, old_no, new_no);
    let rows = block.take(n as int);
    if n == 0 {
        assert(old_numbers(rows) =~= counting(old_no, 0));
        assert(new_numbers(rows) =~= counting(new_no, 0));
    } else {
        lemma_block_numbers(lines, i, d, a, old_no, new_no, (n - 1) as nat);
        assert(rows.drop_last() =~= block.take(n - 1));
        assert(rows.last() == paired_row(lines, i, d, a, old_no, new_no, n - 1));
        assert(old_numbers(rows) =~= counting(
            old_no,
            if n < d - i {
                n
            } else {
                (d - i) as nat
            },
        ));
        assert(new_numbers(rows) =~= counting(
            new_no,
            if n < a - d {
                n
            } else {
                (a - d) as nat
            },
        ));
    }
}

proof fn lemma_run_counts(lines: Seq<DiffLine>, i: int, end: int, kind: LineKind)
    requires
        0 <= i <= end <= lines.len(),
        forall|k: int| i <= k < end ==> (#[trigger] lines[k]).kind == kind,
        kind == LineKind::Del || kind == LineKind::Add,
    ensures
        kind == LineKind::Del ==> old_lines(lines, i) == old_lines(lines, end) + (end - i),
        kind == LineKind::Del ==> new_lines(lines, i) == new_lines(lines, end),
        kind == LineKind::Add ==> old_lines(lines, i) == old_lines(lines, end),
        kind == LineKind::Add ==> new_lines(lines, i) == new_lines(lines, end) + (end - i),
    decreases end - i,
{
    if i < end {
        lemma_run_counts(lines, i + 1, end, kind);
    }
}

/// Gutter numbers count up: in the rows of a hunk the old lines are numbered
/// one after the other from the hunk's old start, and the new lines from its
/// new start.
pub proof fn law_gutter_counts_up(lines: Seq<DiffLine>, i: int, old_no: nat, new_no: nat)
    requires
        0 <= i <= lines.len(),
    ensures
        old_numbers(hunk_rows(lines, i, old_no, new_no)) == counting(
            old_no,
            old_lines(lines, i),
        ),
        new_numbers(hunk_rows(lines, i, old_no, new_no)) == counting(
            new_no,
            new_lines(lines, i),
        ),
    decreases lines.len() - i,
{
    let rows = hunk_rows(lines, i, old_no, new_no);
    if i >= lines.len() {
        assert(old_numbers(rows) =~= counting(old_no, 0));
        assert(new_numbers(rows) =~= counting(new_no, 0));
    } else {
        lemma_run_end(lines, i, LineKind::Del);
        let d = run_end(lines, i, LineKind::Del);
        lemma_run_end(lines, d, LineKind::Add);
        let a = run_end(lines, d, LineKind::Add);
        if a > i {
            let block = paired_rows(lines, i, d, a, old_no, new_no);
            let o = (old_no + (d - i)) as nat;
            let n = (new_no + (a - d)) as nat;
            law_gutter_counts_up(lines, a, o, n);
            lemma_numbers_concat(block, hunk_rows(lines, a, o, n));
            lemma_block_numbers(lines, i, d, a, old_no, new_no, block.len());
            assert(block.take(block.len() as int) =~= block);
            lemma_run_counts(lines, i, d, LineKind::Del);
            lemma_run_counts(lines, d, a, LineKind::Add);
            assert(counting(old_no, (d - i) as nat) + counting(o, old_lines(lines, a)) =~= counting(
                old_no,
                old_lines(lines, i),
            ));
            assert(counting(new_no, (a - d) as nat) + counting(n, new_lines(lines, a)) =~= counting(
                new_no,
                new_lines(lines, i),
            ));
        } else if lines[i].kind == LineKind::HunkHeader {
            law_gutter_counts_up(lines, i + 1, old_no, new_no);
        } else {
            let one = seq![context_row(lines[i].text@, old_no, new_no)];
            law_gutter_counts_up(lines, i + 1, old_no + 1, new_no + 1);
            lemma_numbers_concat(one, hunk_rows(lines, i + 1, old_no + 1, new_no + 1));
            assert(one.drop_last() =~= Seq::<RowView>::empty());
            assert(one.last() == context_row(lines[i].text@, old_no, new_no));
            assert(old_numbers(Seq::<RowView>::empty()) =~= Seq::<nat>::empty());
            assert(new_numbers(Seq::<RowView>::empty()) =~= Seq::<nat>::empty());
            assert(old_numbers(one) =~= seq![old_no]);
            assert(new_numbers(one) =~= seq![new_no]);
            assert(seq![old_no] + counting(old_no + 1, old_lines(lines, i + 1)) =~= counting(
                old_no,
                old_lines(lines, i),
            ));
            assert(seq![new_no] + counting(new_no + 1, new_lines(lines, i + 1)) =~= counting(
                new_no,
                new_lines(lines, i),
            ));
        }
    }
}

proof fn lemma_unified_concat(a: Seq<RowView>, b: Seq<RowView>, k: nat)
    requires
        k <= b.len(),
    ensures
        unified_len(a + b, a.len() + k) == unified_len(a, a.len()) + unified_len(b, k),
    decreases k,
{
    if k > 0 {
        lemma_unified_concat(a, b, (k - 1) as nat);
        assert((a + b)[a.len() + k - 1] == b[k - 1]);
    } else {
        lemma_unified_prefix(a, b, a.len());
    }
}

proof fn lemma_unified_prefix(a: Seq<RowView>, b: Seq<RowView>, k: nat)
    requires
        k <= a.len(),
    ensures
        unified_len(a + b, k) == unified_len(a, k),
    decreases k,
{
    if k > 0 {
        lemma_unified_prefix(a, b, (k - 1) as nat);
        assert((a + b)[k - 1] == a[k - 1]);
    }
}

proof fn lemma_unified_block(
    lines: Seq<DiffLine>,
    i: int,
    d: int,
    a: int,
    old_no: nat,
    new_no: nat,
    k: nat,
)
    requires
        0 <= i <= d <= a <= lines.len(),
        k <= paired_rows(lines, i, d, a, old_no, new_no).len(),
    ensures
        unified_len(paired_rows(lines, i, d, a, old_no, new_no), k) == (if k < d - i {
            k as int
        } else {
            d - i
        }) + (if k < a - d {
            k as int
        } else {
            a - d
        }),
    decreases k,
{
    if k > 0 {
        lemma_unified_block(lines, i, d, a, old_no, new_no, (k - 1) as nat);
        assert(paired_rows(lines, i, d, a, old_no, new_no)[k - 1] == paired_row(
            lines,
            i,
            d,
            a,
            old_no,
            new_no,
            k - 1,
        ));
    }
}

/// How many of the lines from `i` on are lines of the file, on either side.
pub open spec fn file_lines(lines: Seq<DiffLine>, i: int) -> nat
    decreases lines.len() - i,
{
    if i < 0 || i >= lines.len() {
        0
    } else {
        file_lines(lines, i + 1) + if lines[i].kind == LineKind::HunkHeader {
            0nat
        } else {
            1nat
        }
    }
}

proof fn lemma_run_file_lines(lines: Seq<DiffLine>, i: int, end: int, kind: LineKind)
    requires
        0 <= i <= end <= lines.len(),
        forall|k: int| i <= k < end ==> (#[trigger] lines[k]).kind == kind,
        kind != LineKind::HunkHeader,
    ensures
        file_lines(lines, i) == file_lines(lines, end) + (end - i),
    decreases end - i,
{
    if i < end {
        lemma_run_file_lines(lines, i + 1, end, kind);
    }
}

/// The rows of a hunk unfold to one unified line per line of the hunk: pairing
/// lines neither drops nor repeats one.
pub proof fn law_unified_counts_lines(lines: Seq<DiffLine>, i: int, old_no: nat, new_no: nat)
    requires
        0 <= i <= lines.len(),
    ensures
        unified_len(
            hunk_rows(lines, i, old_no, new_no),
            hunk_rows(lines, i, old_no, new_no).len(),
        ) == file_lines(lines, i),
    decreases lines.len() - i,
{
    if i < lines.len() {
        lemma_run_end(lines, i, LineKind::Del);
        let d = run_end(lines, i, LineKind::Del);
        lemma_run_end(lines, d, LineKind::Add);
        let a = run_end(lines, d, LineKind::Add);
        if a > i {
            let block = paired_rows(lines, i, d, a, old_no, new_no);
            let (o, n) = ((old_no + (d - i)) as nat, (new_no + (a - d)) as nat);
            let rest = hunk_rows(lines, a, o, n);
            law_unified_counts_lines(lines, a, o, n);
            lemma_unified_concat(block, rest, rest.len());
            lemma_unified_block(lines, i, d, a, old_no, new_no, block.len());
            lemma_run_file_lines(lines, i, d, LineKind::Del);
            lemma_run_file_lines(lines, d, a, LineKind::Add);
        } else if lines[i].kind == LineKind::HunkHeader {
            law_unified_counts_lines(lines, i + 1, old_no, new_no);
        } else {
            let row = seq![context_row(lines[i].text@, old_no, new_no)];
            let rest = hunk_rows(lines, i + 1, old_no + 1, new_no + 1);
            law_unified_counts_lines(lines, i + 1, old_no + 1, new_no + 1);
            lemma_unified_concat(row, rest, rest.len());
            assert(unified_len(row, 0) == 0);
            assert(unified_len(row, 1) == 1);
        }
    }
}

} // verus!
