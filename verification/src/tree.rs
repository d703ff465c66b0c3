//! The files tree: folder headers, folding, and the cursor in it.

use crate::model::{FileState, RepoStatus, StatusEntry};
use crate::text::{chars_of, opt_text, same_text, starts_with, text_of, text_starts_with, texts};
use vstd::prelude::*;
use vstd::string::*;

verus! {

/// The directories above a path, outermost first, as far as they end before
/// `k`: `a/b/c/f` is in `a`, `a/b` and `a/b/c`.
pub open spec fn ancestors_to(path: Seq<char>, k: nat) -> Seq<Seq<char>>
    decreases k,
{
    if k == 0 {
        Seq::empty()
    } else if path[k - 1] == '/' {
        ancestors_to(path, (k - 1) as nat).push(path.take(k - 1))
    } else {
        ancestors_to(path, (k - 1) as nat)
    }
}

/// The directories above a path, outermost first.
pub open spec fn ancestors_of(path: Seq<char>) -> Seq<Seq<char>> {
    ancestors_to(path, path.len())
}

/// The directories above a path, outermost first.
pub fn ancestors(path: &str) -> (out: Vec<String>)
    ensures
        texts(out@) == ancestors_of(path@),
{
    let cs = chars_of(path);
    let mut out: Vec<String> = Vec::new();
    let mut i: usize = 0;
    assert(texts(out@) =~= ancestors_to(path@, 0));
    while i < cs.len()
        invariant
            cs@ == path@,
            i <= cs@.len(),
            texts(out@) == ancestors_to(path@, i as nat),
        decreases cs@.len() - i,
    {
        if cs[i] == '/' {
            let ghost before = out@;
            let dir = text_of(&cs, 0, i);
            assert(path@.subrange(0, i as int) =~= path@.take(i as int));
            out.push(dir);
            assert(texts(out@) =~= texts(before).push(dir@));
        }
        i += 1;
    }
    out
}

/// A row of the files tree: a directory header or a file, by its place in the
/// list.
#[derive(Debug)]
pub enum FileRow {
    Dir { path: String, depth: usize },
    File { index: usize, depth: usize },
}

/// What a [`FileRow`] holds.
#[verifier::ext_equal]
pub enum FileRowView {
    Dir { path: Seq<char>, depth: nat },
    File { index: nat, depth: nat },
}

impl View for FileRow {
    type V = FileRowView;

    open spec fn view(&self) -> FileRowView {
        match *self {
            FileRow::Dir { path, depth } => FileRowView::Dir { path: path@, depth: depth as nat },
            FileRow::File { index, depth } => FileRowView::File {
                index: index as nat,
                depth: depth as nat,
            },
        }
    }
}

/// What a list of rows holds.
pub open spec fn tree_view(rows: Seq<FileRow>) -> Seq<FileRowView> {
    rows.map_values(|r: FileRow| r@)
}

/// Whether a row is the header of that directory.
pub open spec fn is_header(row: FileRowView, dir: Seq<char>) -> bool {
    row matches FileRowView::Dir { path, .. } && path == dir
}

/// Whether a row is the file at that place.
pub open spec fn is_file(row: FileRowView, index: nat) -> bool {
    row matches FileRowView::File { index: i, .. } && i == index
}

/// Whether there is a header of that directory.
pub open spec fn has_header(rows: Seq<FileRowView>, dir: Seq<char>) -> bool {
    exists|i: int| 0 <= i < rows.len() && is_header(#[trigger] rows[i], dir)
}

/// Rows with a header for each of the first `k` directories that has none yet.
pub open spec fn with_headers(
    rows: Seq<FileRowView>,
    dirs: Seq<Seq<char>>,
    k: nat,
) -> Seq<FileRowView>
    decreases k,
{
    if k == 0 {
        rows
    } else {
        let before = with_headers(rows, dirs, (k - 1) as nat);
        if has_header(before, dirs[k - 1]) {
            before
        } else {
            before.push(FileRowView::Dir { path: dirs[k - 1], depth: (k - 1) as nat })
        }
    }
}

/// The rows of the first `k` files: each file behind the headers of its
/// directories, every header once.
pub open spec fn rows_of_files(files: Seq<StatusEntry>, k: nat) -> Seq<FileRowView>
    decreases k,
{
    if k == 0 {
        Seq::empty()
    } else {
        let dirs = ancestors_of(files[k - 1].path@);
        with_headers(rows_of_files(files, (k - 1) as nat), dirs, dirs.len()).push(
            FileRowView::File { index: (k - 1) as nat, depth: dirs.len() },
        )
    }
}

fn find_header(rows: &Vec<FileRow>, dir: &str) -> (found: bool)
    ensures
        found == has_header(tree_view(rows@), dir@),
{
    let mut i: usize = 0;
    while i < rows.len()
        invariant
            i <= rows@.len(),
            forall|k: int| 0 <= k < i ==> !is_header((#[trigger] tree_view(rows@)[k]), dir@),
        decreases rows@.len() - i,
    {
        assert(tree_view(rows@)[i as int] == rows@[i as int]@);
        if let FileRow::Dir { path, .. } = &rows[i] {
            if same_text(path.as_str(), dir) {
                return true;
            }
        }
        i += 1;
    }
    assert(tree_view(rows@).len() == rows@.len());
    false
}

proof fn lemma_tree_push(rows: Seq<FileRow>, row: FileRow)
    ensures
        tree_view(rows.push(row)) == tree_view(rows).push(row@),
{
    assert(tree_view(rows.push(row)) =~= tree_view(rows).push(row@));
}

/// The rows of the files tree, nothing folded.
pub fn file_rows(files: &Vec<StatusEntry>) -> (rows: Vec<FileRow>)
    ensures
        tree_view(rows@) == rows_of_files(files@, files@.len()),
{
    let mut rows: Vec<FileRow> = Vec::new();
    let mut k: usize = 0;
    assert(tree_view(rows@) =~= rows_of_files(files@, 0));
    while k < files.len()
        invariant
            k <= files@.len(),
            tree_view(rows@) == rows_of_files(files@, k as nat),
        decreases files@.len() - k,
    {
        let dirs = ancestors(files[k].path.as_str());
        let ghost ds = ancestors_of(files@[k as int].path@);
        let ghost before = tree_view(rows@);
        assert(texts(dirs@).len() == dirs@.len());
        let mut j: usize = 0;
        while j < dirs.len()
            invariant
                j <= dirs@.len(),
                texts(dirs@) == ds,
                tree_view(rows@) == with_headers(before, ds, j as nat),
            decreases dirs@.len() - j,
        {
            assert(ds[j as int] == dirs@[j as int]@);
            if !find_header(&rows, dirs[j].as_str()) {
                let row = FileRow::Dir { path: dirs[j].clone(), depth: j };
                proof {
                    lemma_tree_push(rows@, row);
                }
                rows.push(row);
            }
            j += 1;
        }
        let row = FileRow::File { index: k, depth: dirs.len() };
        proof {
            lemma_tree_push(rows@, row);
        }
        rows.push(row);
        k += 1;
    }
    rows
}

/// Whether a path lies under a folded directory.
pub open spec fn is_hidden(path: Seq<char>, folded: Set<Seq<char>>) -> bool {
    exists|i: int|
        0 <= i < ancestors_of(path).len() && folded.contains(#[trigger] ancestors_of(path)[i])
}

/// The path of a row.
pub open spec fn row_path(row: FileRowView, files: Seq<StatusEntry>) -> Seq<char> {
    match row {
        FileRowView::Dir { path, .. } => path,
        FileRowView::File { index, .. } => files[index as int].path@,
    }
}

/// Those of the first `k` rows that do not lie under a folded directory. A
/// folded header itself stays.
pub open spec fn shown_rows(
    rows: Seq<FileRowView>,
    files: Seq<StatusEntry>,
    folded: Set<Seq<char>>,
    k: nat,
) -> Seq<FileRowView>
    decreases k,
{
    if k == 0 {
        Seq::empty()
    } else {
        let before = shown_rows(rows, files, folded, (k - 1) as nat);
        if is_hidden(row_path(rows[k - 1], files), folded) {
            before
        } else {
            before.push(rows[k - 1])
        }
    }
}

/// The rows that the files panel shows.
pub open spec fn visible_rows(files: Seq<StatusEntry>, folded: Set<Seq<char>>) -> Seq<FileRowView> {
    let rows = rows_of_files(files, files.len());
    shown_rows(rows, files, folded, rows.len())
}

/// A set of folded directories.
#[derive(Debug)]
pub struct Folded {
    dirs: Vec<String>,
}

impl View for Folded {
    type V = Set<Seq<char>>;

    closed spec fn view(&self) -> Set<Seq<char>> {
        texts(self.dirs@).to_set()
    }
}

impl Folded {
    /// Nothing is folded.
    pub fn new() -> (f: Folded)
        ensures
            f@ == Set::<Seq<char>>::empty(),
    {
        let f = Folded { dirs: Vec::new() };
        assert(f@ =~= Set::<Seq<char>>::empty());
        f
    }

    pub fn contains(&self, dir: &str) -> (yes: bool)
        ensures
            yes == self@.contains(dir@),
    {
        let ghost ts = texts(self.dirs@);
        let mut i: usize = 0;
        while i < self.dirs.len()
            invariant
                i <= self.dirs@.len(),
                ts == texts(self.dirs@),
                forall|k: int| 0 <= k < i ==> #[trigger] ts[k] != dir@,
            decreases self.dirs@.len() - i,
        {
            assert(ts[i as int] == self.dirs@[i as int]@);
            if same_text(self.dirs[i].as_str(), dir) {
                assert(ts.contains(dir@));
                return true;
            }
            i += 1;
        }
        false
    }

    pub fn insert(&mut self, dir: &str)
        ensures
            final(self)@ == old(self)@.insert(dir@),
    {
        if self.contains(dir) {
            assert(self@ =~= old(self)@.insert(dir@));
            return;
        }
        let ghost before = self.dirs@;
        self.dirs.push(dir.to_owned());
        let ghost ts = texts(self.dirs@);
        assert(ts =~= texts(before).push(dir@));
        assert forall|d: Seq<char>| #[trigger] self@.contains(d) == old(self)@.insert(
            dir@,
        ).contains(d) by {
            if texts(before).contains(d) {
                let i = choose|i: int| 0 <= i < texts(before).len() && texts(before)[i] == d;
                assert(ts[i] == d);
            }
            if d == dir@ {
                assert(ts[ts.len() - 1] == d);
            }
            if ts.contains(d) {
                let i = choose|i: int| 0 <= i < ts.len() && ts[i] == d;
                if i < before.len() {
                    assert(texts(before)[i] == d);
                }
            }
        }
        assert(self@ =~= old(self)@.insert(dir@));
    }

    pub fn remove(&mut self, dir: &str)
        ensures
            final(self)@ == old(self)@.remove(dir@),
    {
        let ghost all = texts(self.dirs@);
        let mut kept: Vec<String> = Vec::new();
        let mut i: usize = 0;
        while i < self.dirs.len()
            invariant
                *self == *old(self),
                i <= self.dirs@.len(),
                all == texts(self.dirs@),
                forall|k: int| 0 <= k < kept@.len() ==> (#[trigger] kept@[k])@ != dir@,
                forall|k: int|
                    0 <= k < kept@.len() ==> all.contains((#[trigger] kept@[k])@),
                forall|j: int|
                    0 <= j < i && (#[trigger] all[j]) != dir@ ==> texts(kept@).contains(all[j]),
            decreases self.dirs@.len() - i,
        {
            assert(all[i as int] == self.dirs@[i as int]@);
            if !same_text(self.dirs[i].as_str(), dir) {
                let ghost before = kept@;
                kept.push(self.dirs[i].clone());
                assert(texts(kept@) =~= texts(before).push(all[i as int]));
                assert(texts(kept@)[before.len() as int] == all[i as int]);
                assert forall|j: int|
                    0 <= j < i + 1 && (#[trigger] all[j]) != dir@ implies texts(kept@).contains(
                    all[j],
                ) by {
                    if j < i {
                        let k = choose|k: int|
                            0 <= k < texts(before).len() && texts(before)[k] == all[j];
                        assert(texts(kept@)[k] == all[j]);
                    }
                }
                assert(all.contains(all[i as int]));
            }
            i += 1;
        }
        self.dirs = kept;
        assert forall|d: Seq<char>| #[trigger] self@.contains(d) == old(self)@.remove(
            dir@,
        ).contains(d) by {
            let ks = texts(kept@);
            if ks.contains(d) {
                let k = choose|k: int| 0 <= k < ks.len() && ks[k] == d;
                assert(kept@[k]@ == d);
            }
            if all.contains(d) && d != dir@ {
                let j = choose|j: int| 0 <= j < all.len() && all[j] == d;
                assert(all[j] == d);
            }
        }
        assert(self@ =~= old(self)@.remove(dir@));
    }

    /// The outermost folded directory above a path, by its place among the
    /// directories above it.
    fn first_above(&self, dirs: &Vec<String>) -> (at: Option<usize>)
        ensures
            (match at {
                Some(i) => i < dirs@.len() && self@.contains(dirs@[i as int]@) && forall|k: int|
                    0 <= k < i ==> !self@.contains(#[trigger] texts(dirs@)[k]),
                None => forall|k: int|
                    0 <= k < dirs@.len() ==> !self@.contains(#[trigger] texts(dirs@)[k]),
            }),
    {
        let mut i: usize = 0;
        while i < dirs.len()
            invariant
                i <= dirs@.len(),
                forall|k: int| 0 <= k < i ==> !self@.contains(#[trigger] texts(dirs@)[k]),
            decreases dirs@.len() - i,
        {
            if self.contains(dirs[i].as_str()) {
                return Some(i);
            }
            i += 1;
        }
        None
    }

    /// Whether a path lies under a folded directory.
    pub fn hides(&self, path: &str) -> (yes: bool)
        ensures
            yes == is_hidden(path@, self@),
    {
        let dirs = ancestors(path);
        assert(texts(dirs@).len() == dirs@.len());
        match self.first_above(&dirs) {
            Some(i) => {
                assert(texts(dirs@)[i as int] == dirs@[i as int]@);
                true
            },
            None => false,
        }
    }

    /// The outermost folded directory above a path.
    pub fn header_for(&self, path: &str) -> (dir: Option<String>)
        ensures
            opt_text(dir) == folded_above(path@, self@, 0),
    {
        let dirs = ancestors(path);
        let ghost ds = ancestors_of(path@);
        assert(texts(dirs@).len() == dirs@.len());
        match self.first_above(&dirs) {
            Some(i) => {
                assert(ds[i as int] == dirs@[i as int]@);
                proof {
                    lemma_folded_above(path@, self@, 0, i as int);
                }
                Some(dirs[i].clone())
            },
            None => {
                proof {
                    lemma_folded_above_none(path@, self@, 0);
                }
                None
            },
        }
    }
}

/// The first folded one of the directories above a path, from the `i`-th on.
pub open spec fn folded_above(path: Seq<char>, folded: Set<Seq<char>>, i: int) -> Option<Seq<char>>
    decreases ancestors_of(path).len() - i,
{
    let dirs = ancestors_of(path);
    if i < 0 || i >= dirs.len() {
        None
    } else if folded.contains(dirs[i]) {
        Some(dirs[i])
    } else {
        folded_above(path, folded, i + 1)
    }
}

proof fn lemma_folded_above(path: Seq<char>, folded: Set<Seq<char>>, i: int, at: int)
    requires
        0 <= i <= at < ancestors_of(path).len(),
        folded.contains(ancestors_of(path)[at]),
        forall|k: int| 0 <= k < at ==> !folded.contains(#[trigger] ancestors_of(path)[k]),
    ensures
        folded_above(path, folded, i) == Some(ancestors_of(path)[at]),
    decreases at - i,
{
    if i < at {
        assert(!folded.contains(ancestors_of(path)[i]));
        lemma_folded_above(path, folded, i + 1, at);
    }
}

proof fn lemma_folded_above_none(path: Seq<char>, folded: Set<Seq<char>>, i: int)
    requires
        0 <= i <= ancestors_of(path).len(),
        forall|k: int|
            0 <= k < ancestors_of(path).len() ==> !folded.contains(
                #[trigger] ancestors_of(path)[k],
            ),
    ensures
        folded_above(path, folded, i) is None,
    decreases ancestors_of(path).len() - i,
{
    if i < ancestors_of(path).len() {
        assert(!folded.contains(ancestors_of(path)[i]));
        lemma_folded_above_none(path, folded, i + 1);
    }
}

/// The files named by rows are in the list.
proof fn lemma_rows_in_list(files: Seq<StatusEntry>, k: nat)
    requires
        k <= files.len(),
    ensures
        forall|i: int|
            0 <= i < rows_of_files(files, k).len() ==> (#[trigger] rows_of_files(
                files,
                k,
            )[i] matches FileRowView::File { index, .. } ==> index < k),
    decreases k,
{
    if k > 0 {
        lemma_rows_in_list(files, (k - 1) as nat);
        let dirs = ancestors_of(files[k - 1].path@);
        lemma_headers_keep(rows_of_files(files, (k - 1) as nat), dirs, dirs.len(), (k - 1) as nat);
    }
}

proof fn lemma_headers_keep(rows: Seq<FileRowView>, dirs: Seq<Seq<char>>, j: nat, n: nat)
    requires
        forall|i: int|
            0 <= i < rows.len() ==> (#[trigger] rows[i] matches FileRowView::File { index, .. }
                ==> index < n),
    ensures
        forall|i: int|
            0 <= i < with_headers(rows, dirs, j).len() ==> (#[trigger] with_headers(
                rows,
                dirs,
                j,
            )[i] matches FileRowView::File { index, .. } ==> index < n),
    decreases j,
{
    if j > 0 {
        lemma_headers_keep(rows, dirs, (j - 1) as nat, n);
    }
}

/// The rows that the files panel shows: folded subtrees hidden, their headers
/// kept.
pub fn visible_file_rows(files: &Vec<StatusEntry>, folded: &Folded) -> (out: Vec<FileRow>)
    ensures
        tree_view(out@) == visible_rows(files@, folded@),
        forall|i: int|
            0 <= i < out@.len() ==> ((#[trigger] out@[i]) matches FileRow::File { index, .. }
                ==> index < files@.len()),
{
    let rows = file_rows(files);
    let ghost all = tree_view(rows@);
    proof {
        lemma_rows_in_list(files@, files@.len());
    }
    let mut out: Vec<FileRow> = Vec::new();
    assert(tree_view(out@) =~= shown_rows(all, files@, folded@, 0));
    assert(all.len() == rows@.len());
    for row in it: rows
        invariant
            all == tree_view(it.seq()),
            all == rows_of_files(files@, files@.len()),
            forall|i: int|
                0 <= i < all.len() ==> (#[trigger] all[i] matches FileRowView::File { index, .. }
                    ==> index < files@.len()),
            tree_view(out@) == shown_rows(all, files@, folded@, it.index() as nat),
            forall|i: int|
                0 <= i < out@.len() ==> ((#[trigger] out@[i]) matches FileRow::File {
                    index,
                    ..
                } ==> index < files@.len()),
    {
        assert(all[it.index() as int] == row@);
        let hidden = match &row {
            FileRow::Dir { path, .. } => folded.hides(path.as_str()),
            FileRow::File { index, .. } => folded.hides(files[*index].path.as_str()),
        };
        if !hidden {
            proof {
                lemma_tree_push(out@, row);
            }
            out.push(row);
        }
    }
    out
}

/// Whether a path lies under a directory.
pub open spec fn lies_under(path: Seq<char>, dir: Seq<char>) -> bool {
    starts_with(path, dir.push('/'))
}

/// Whether a path lies under a directory.
pub fn path_lies_under(path: &str, dir: &str) -> (yes: bool)
    ensures
        yes == lies_under(path@, dir@),
{
    let mut head = dir.to_owned();
    head.push('/');
    text_starts_with(path, head.as_str())
}

/// The first file under a directory, from the `i`-th on.
pub open spec fn next_under(list: Seq<StatusEntry>, dir: Seq<char>, i: int) -> Option<nat>
    decreases list.len() - i,
{
    if i < 0 || i >= list.len() {
        None
    } else if lies_under(list[i].path@, dir) {
        Some(i as nat)
    } else {
        next_under(list, dir, i + 1)
    }
}

/// The last one of the first `n` files that is under a directory.
pub open spec fn prev_under(list: Seq<StatusEntry>, dir: Seq<char>, n: int) -> Option<nat>
    decreases n,
{
    if n <= 0 || n > list.len() {
        None
    } else if lies_under(list[n - 1].path@, dir) {
        Some((n - 1) as nat)
    } else {
        prev_under(list, dir, n - 1)
    }
}

fn find_next_under(list: &Vec<StatusEntry>, dir: &str, from: usize) -> (at: Option<usize>)
    ensures
        at is Some <==> next_under(list@, dir@, from as int) is Some,
        at matches Some(i) ==> next_under(list@, dir@, from as int) == Some(i as nat) && i
            < list@.len(),
{
    let mut i: usize = from;
    while i < list.len()
        invariant
            next_under(list@, dir@, from as int) == next_under(list@, dir@, i as int),
        decreases list@.len() - i,
    {
        if path_lies_under(list[i].path.as_str(), dir) {
            return Some(i);
        }
        i += 1;
    }
    None
}

fn find_prev_under(list: &Vec<StatusEntry>, dir: &str, to: usize) -> (at: Option<usize>)
    requires
        to <= list@.len(),
    ensures
        at is Some <==> prev_under(list@, dir@, to as int) is Some,
        at matches Some(i) ==> prev_under(list@, dir@, to as int) == Some(i as nat) && i
            < list@.len(),
{
    let mut n: usize = to;
    while n > 0
        invariant
            n <= to <= list@.len(),
            prev_under(list@, dir@, to as int) == prev_under(list@, dir@, n as int),
        decreases n,
    {
        if path_lies_under(list[n - 1].path.as_str(), dir) {
            return Some(n - 1);
        }
        n -= 1;
    }
    None
}

/// The place of the header of a directory, from the `i`-th row on.
pub open spec fn header_row(rows: Seq<FileRowView>, dir: Seq<char>, i: int) -> Option<nat>
    decreases rows.len() - i,
{
    if i < 0 || i >= rows.len() {
        None
    } else if is_header(rows[i], dir) {
        Some(i as nat)
    } else {
        header_row(rows, dir, i + 1)
    }
}

/// The place of the row of a file, from the `i`-th row on.
pub open spec fn file_row(rows: Seq<FileRowView>, index: nat, i: int) -> Option<nat>
    decreases rows.len() - i,
{
    if i < 0 || i >= rows.len() {
        None
    } else if is_file(rows[i], index) {
        Some(i as nat)
    } else {
        file_row(rows, index, i + 1)
    }
}

fn find_header_row(rows: &Vec<FileRow>, dir: &str) -> (at: Option<usize>)
    ensures
        at is Some <==> header_row(tree_view(rows@), dir@, 0) is Some,
        at matches Some(i) ==> header_row(tree_view(rows@), dir@, 0) == Some(i as nat) && i
            < rows@.len(),
{
    let ghost vs = tree_view(rows@);
    let mut i: usize = 0;
    while i < rows.len()
        invariant
            vs == tree_view(rows@),
            header_row(vs, dir@, 0) == header_row(vs, dir@, i as int),
        decreases rows@.len() - i,
    {
        assert(vs[i as int] == rows@[i as int]@);
        if let FileRow::Dir { path, .. } = &rows[i] {
            if same_text(path.as_str(), dir) {
                return Some(i);
            }
        }
        i += 1;
    }
    None
}

fn find_file_row(rows: &Vec<FileRow>, file: usize) -> (at: Option<usize>)
    ensures
        at is Some <==> file_row(tree_view(rows@), file as nat, 0) is Some,
        at matches Some(i) ==> file_row(tree_view(rows@), file as nat, 0) == Some(i as nat) && i
            < rows@.len(),
{
    let ghost vs = tree_view(rows@);
    let mut i: usize = 0;
    while i < rows.len()
        invariant
            vs == tree_view(rows@),
            file_row(vs, file as nat, 0) == file_row(vs, file as nat, i as int),
        decreases rows@.len() - i,
    {
        assert(vs[i as int] == rows@[i as int]@);
        if let FileRow::File { index, .. } = &rows[i] {
            if *index == file {
                return Some(i);
            }
        }
        i += 1;
    }
    None
}

/// The files of a repository as a tree with a cursor.
///
/// The cursor is on the file `selected`, on the open folder header
/// `dir_cursor`, or on the folded header that hides the selected file.
#[derive(Debug)]
pub struct Tree {
    pub list: Vec<StatusEntry>,
    pub selected: usize,
    pub collapsed: Folded,
    pub dir_cursor: Option<String>,
}

/// What a [`Tree`] holds.
#[verifier::ext_equal]
pub struct TreeView {
    pub list: Seq<StatusEntry>,
    pub selected: nat,
    pub collapsed: Set<Seq<char>>,
    pub dir_cursor: Option<Seq<char>>,
}

impl View for Tree {
    type V = TreeView;

    open spec fn view(&self) -> TreeView {
        TreeView {
            list: self.list@,
            selected: self.selected as nat,
            collapsed: self.collapsed@,
            dir_cursor: opt_text(self.dir_cursor),
        }
    }
}

/// The largest place in a list of that many, or zero for none.
pub open spec fn last_of(count: nat) -> nat {
    if count == 0 {
        0
    } else {
        (count - 1) as nat
    }
}

/// A place in a list of that many that is not past its end.
pub open spec fn clamped(place: nat, count: nat) -> nat {
    if place <= last_of(count) {
        place
    } else {
        last_of(count)
    }
}

/// A place in a list of that many that is not past its end.
pub fn clamp_to(place: usize, count: usize) -> (out: usize)
    ensures
        out == clamped(place as nat, count as nat),
{
    let last = if count == 0 {
        0
    } else {
        count - 1
    };
    if place <= last {
        place
    } else {
        last
    }
}

/// Whether the first `k` changed files hold a path.
pub open spec fn lists_path(files: Seq<StatusEntry>, path: Seq<char>) -> bool {
    exists|i: int| 0 <= i < files.len() && (#[trigger] files[i]).path@ == path
}

/// The unchanged ones of the first `k` tracked files.
pub open spec fn clean_entries(status: RepoStatus, k: nat) -> Seq<StatusEntry>
    decreases k,
{
    if k == 0 {
        Seq::empty()
    } else {
        let before = clean_entries(status, (k - 1) as nat);
        if lists_path(status.files@, status.tracked_files@[k - 1]@) {
            before
        } else {
            before.push(
                StatusEntry { path: status.tracked_files@[k - 1], state: FileState::Clean },
            )
        }
    }
}

/// Every file there is to browse: the changed ones, then the others.
pub open spec fn browsable(status: RepoStatus) -> Seq<StatusEntry> {
    status.files@ + clean_entries(status, status.tracked_files@.len())
}

impl TreeView {
    /// An empty tree.
    pub open spec fn empty() -> TreeView {
        TreeView {
            list: Seq::empty(),
            selected: 0,
            collapsed: Set::empty(),
            dir_cursor: None,
        }
    }

    /// The selected file.
    pub open spec fn file(self) -> Option<StatusEntry> {
        if self.list.len() == 0 {
            None
        } else {
            Some(self.list[clamped(self.selected, self.list.len()) as int])
        }
    }

    /// Whether the header of a directory shows as open.
    pub open spec fn is_open(self, dir: Seq<char>) -> bool {
        &&& !self.collapsed.contains(dir)
        &&& !is_hidden(dir, self.collapsed)
        &&& next_under(self.list, dir, 0) is Some
    }

    /// The open header that the cursor is on.
    pub open spec fn open_dir(self) -> Option<Seq<char>> {
        match self.dir_cursor {
            Some(dir) => if self.is_open(dir) {
                Some(dir)
            } else {
                None
            },
            None => None,
        }
    }

    /// The rows that show.
    pub open spec fn rows(self) -> Seq<FileRowView> {
        visible_rows(self.list, self.collapsed)
    }

    /// The row that the cursor is on.
    pub open spec fn cursor_row(self) -> Option<nat> {
        match self.open_dir() {
            Some(dir) => header_row(self.rows(), dir, 0),
            None => if self.selected >= self.list.len() {
                None
            } else {
                match folded_above(self.list[self.selected as int].path@, self.collapsed, 0) {
                    Some(dir) => header_row(self.rows(), dir, 0),
                    None => file_row(self.rows(), self.selected, 0),
                }
            },
        }
    }

    /// The file to select for a folded directory: going down the next file
    /// under it, or its first; going up the one before, or its last.
    pub open spec fn anchor(self, dir: Seq<char>, down: bool) -> Option<nat> {
        let n = self.list.len() as int;
        if down {
            match next_under(self.list, dir, self.selected as int + 1) {
                Some(i) => Some(i),
                None => next_under(self.list, dir, 0),
            }
        } else {
            match prev_under(
                self.list,
                dir,
                if self.selected <= n {
                    self.selected as int
                } else {
                    n
                },
            ) {
                Some(i) => Some(i),
                None => prev_under(self.list, dir, n),
            }
        }
    }

    /// The tree with the cursor on the row `i`, reached going down or up.
    pub open spec fn at_row(self, i: nat, down: bool) -> TreeView {
        match self.rows()[i as int] {
            FileRowView::File { index, .. } => TreeView {
                selected: index,
                dir_cursor: None,
                ..self
            },
            FileRowView::Dir { path, .. } => if self.collapsed.contains(path) {
                TreeView {
                    selected: match self.anchor(path, down) {
                        Some(k) => k,
                        None => self.selected,
                    },
                    dir_cursor: None,
                    ..self
                }
            } else {
                TreeView {
                    selected: match next_under(self.list, path, 0) {
                        Some(k) => k,
                        None => self.selected,
                    },
                    dir_cursor: Some(path),
                    ..self
                }
            },
        }
    }

    /// The tree with the cursor one row on, if there is such a row.
    pub open spec fn step(self, down: bool) -> Option<TreeView> {
        match self.cursor_row() {
            None => None,
            Some(pos) => if down {
                if pos + 1 < self.rows().len() {
                    Some(self.at_row(pos + 1, true))
                } else {
                    None
                }
            } else {
                if pos > 0 {
                    Some(self.at_row((pos - 1) as nat, false))
                } else {
                    None
                }
            },
        }
    }

    /// The tree with a directory folded or open.
    pub open spec fn fold(self, dir: Seq<char>, value: bool) -> TreeView {
        TreeView {
            collapsed: if value {
                self.collapsed.insert(dir)
            } else {
                self.collapsed.remove(dir)
            },
            ..self
        }
    }

    /// Whether there is a folder at the cursor to fold or to open.
    pub open spec fn can_toggle(self) -> bool {
        ||| self.open_dir() is Some
        ||| self.file() is None
        ||| ancestors_of(self.file()->0.path@).len() > 0
    }

    /// The open header at the cursor folded, or else the deepest folder of the
    /// selected file turned over.
    pub open spec fn toggled(self) -> TreeView {
        let base = TreeView { dir_cursor: None, ..self };
        match self.open_dir() {
            Some(dir) => base.fold(dir, true),
            None => match self.file() {
                None => base,
                Some(file) => {
                    let dirs = ancestors_of(file.path@);
                    if dirs.len() == 0 {
                        base
                    } else {
                        base.fold(dirs.last(), !self.collapsed.contains(dirs.last()))
                    }
                },
            },
        }
    }

    /// The first `k` folders of a path open.
    pub open spec fn opened(self, dirs: Seq<Seq<char>>, k: nat) -> TreeView
        decreases k,
    {
        if k == 0 {
            self
        } else {
            self.opened(dirs, (k - 1) as nat).fold(dirs[k - 1], false)
        }
    }

    /// Every folder of the selected file open.
    pub open spec fn expanded(self) -> TreeView {
        match self.file() {
            None => self,
            Some(file) => {
                let dirs = ancestors_of(file.path@);
                self.opened(dirs, dirs.len())
            },
        }
    }

    /// The fold at the cursor open: the one that hides the selected file, or
    /// else the one right below it, or else the one right above it.
    pub open spec fn expanded_near(self) -> TreeView {
        match (self.open_dir(), self.file()) {
            (None, Some(file)) => {
                let n = self.selected as int;
                if is_hidden(file.path@, self.collapsed) {
                    self.expanded()
                } else if n + 1 < self.list.len() && is_hidden(
                    self.list[n + 1].path@,
                    self.collapsed,
                ) {
                    self.fold(folded_above(self.list[n + 1].path@, self.collapsed, 0)->0, false)
                } else if n > 0 && n - 1 < self.list.len() && is_hidden(
                    self.list[n - 1].path@,
                    self.collapsed,
                ) {
                    self.fold(folded_above(self.list[n - 1].path@, self.collapsed, 0)->0, false)
                } else {
                    self
                }
            },
            _ => self,
        }
    }

    /// The tree of a fresh status.
    pub open spec fn rebuilt(self, status: Option<RepoStatus>) -> TreeView {
        match status {
            None => TreeView { list: Seq::empty(), selected: 0, ..self },
            Some(st) => TreeView {
                list: browsable(st),
                selected: clamped(self.selected, browsable(st).len()),
                ..self
            },
        }
    }

    /// The tree with the file at a place selected and in sight.
    pub open spec fn jumped(self, index: nat) -> TreeView {
        TreeView { selected: index, dir_cursor: None, ..self }.expanded()
    }

    /// The directory that the cursor stands for, if it is on a header.
    pub open spec fn header(self) -> Option<Seq<char>> {
        match self.open_dir() {
            Some(dir) => Some(dir),
            None => match self.file() {
                None => None,
                Some(file) => folded_above(file.path@, self.collapsed, 0),
            },
        }
    }
}

proof fn lemma_hidden_has_header(path: Seq<char>, folded: Set<Seq<char>>)
    ensures
        is_hidden(path, folded) <==> folded_above(path, folded, 0) is Some,
{
    if is_hidden(path, folded) {
        let i = choose|i: int|
            0 <= i < ancestors_of(path).len() && folded.contains(#[trigger] ancestors_of(path)[i]);
        lemma_found_above(path, folded, 0, i);
    } else {
        lemma_folded_above_none(path, folded, 0);
    }
}

proof fn lemma_found_above(path: Seq<char>, folded: Set<Seq<char>>, i: int, at: int)
    requires
        0 <= i <= at < ancestors_of(path).len(),
        folded.contains(ancestors_of(path)[at]),
    ensures
        folded_above(path, folded, i) is Some,
    decreases at - i,
{
    if i < at && !folded.contains(ancestors_of(path)[i]) {
        lemma_found_above(path, folded, i + 1, at);
    }
}

impl StatusEntry {
    pub fn copy(&self) -> (out: StatusEntry)
        ensures
            out == *self,
    {
        StatusEntry { path: self.path.clone(), state: self.state }
    }
}

fn has_path(files: &Vec<StatusEntry>, path: &str) -> (yes: bool)
    ensures
        yes == lists_path(files@, path@),
{
    let mut i: usize = 0;
    while i < files.len()
        invariant
            i <= files@.len(),
            forall|k: int| 0 <= k < i ==> (#[trigger] files@[k]).path@ != path@,
        decreases files@.len() - i,
    {
        if same_text(files[i].path.as_str(), path) {
            return true;
        }
        i += 1;
    }
    false
}

/// Every file there is to browse.
fn browsable_files(status: &RepoStatus) -> (list: Vec<StatusEntry>)
    ensures
        list@ == browsable(*status),
{
    let mut list: Vec<StatusEntry> = Vec::new();
    let mut i: usize = 0;
    while i < status.files.len()
        invariant
            i <= status.files@.len(),
            list@ == status.files@.take(i as int),
        decreases status.files@.len() - i,
    {
        list.push(status.files[i].copy());
        i += 1;
        assert(list@ =~= status.files@.take(i as int));
    }
    assert(status.files@.take(i as int) =~= status.files@);
    let mut k: usize = 0;
    assert(list@ =~= status.files@ + clean_entries(*status, 0));
    while k < status.tracked_files.len()
        invariant
            k <= status.tracked_files@.len(),
            list@ == status.files@ + clean_entries(*status, k as nat),
        decreases status.tracked_files@.len() - k,
    {
        if !has_path(&status.files, status.tracked_files[k].as_str()) {
            let ghost before = list@;
            let entry = StatusEntry {
                path: status.tracked_files[k].clone(),
                state: FileState::Clean,
            };
            list.push(entry);
            assert(list@ =~= status.files@ + clean_entries(*status, k as nat).push(entry));
        }
        k += 1;
    }
    list
}

impl Tree {
    /// An empty tree.
    pub fn new() -> (tree: Tree)
        ensures
            tree@ == TreeView::empty(),
    {
        Tree { list: Vec::new(), selected: 0, collapsed: Folded::new(), dir_cursor: None }
    }

    /// The selected file.
    pub fn file(&self) -> (file: Option<&StatusEntry>)
        ensures
            file is Some <==> self@.file() is Some,
            file matches Some(f) ==> self@.file() == Some(*f),
    {
        if self.list.len() == 0 {
            None
        } else {
            Some(&self.list[clamp_to(self.selected, self.list.len())])
        }
    }

    /// Whether the header of a directory shows as open.
    pub fn is_open(&self, dir: &str) -> (yes: bool)
        ensures
            yes == self@.is_open(dir@),
    {
        !self.collapsed.contains(dir) && !self.collapsed.hides(dir) && find_next_under(
            &self.list,
            dir,
            0,
        ).is_some()
    }

    /// The open header that the cursor is on.
    pub fn open_dir(&self) -> (dir: Option<String>)
        ensures
            opt_text(dir) == self@.open_dir(),
    {
        match &self.dir_cursor {
            Some(dir) => if self.is_open(dir.as_str()) {
                Some(dir.clone())
            } else {
                None
            },
            None => None,
        }
    }

    /// The rows that show.
    pub fn rows(&self) -> (rows: Vec<FileRow>)
        ensures
            tree_view(rows@) == self@.rows(),
            forall|i: int|
                0 <= i < rows@.len() ==> ((#[trigger] rows@[i]) matches FileRow::File {
                    index,
                    ..
                } ==> index < self.list@.len()),
    {
        visible_file_rows(&self.list, &self.collapsed)
    }

    /// The place among those rows of the one that the cursor is on.
    pub fn cursor_row(&self, rows: &Vec<FileRow>) -> (at: Option<usize>)
        requires
            tree_view(rows@) == self@.rows(),
        ensures
            at is Some <==> self@.cursor_row() is Some,
            at matches Some(i) ==> self@.cursor_row() == Some(i as nat) && i < rows@.len(),
    {
        match self.open_dir() {
            Some(dir) => find_header_row(rows, dir.as_str()),
            None => if self.selected >= self.list.len() {
                None
            } else {
                match self.collapsed.header_for(self.list[self.selected].path.as_str()) {
                    Some(dir) => find_header_row(rows, dir.as_str()),
                    None => find_file_row(rows, self.selected),
                }
            },
        }
    }

    /// The file to select for a folded directory.
    pub fn folder_anchor(&self, dir: &str, down: bool) -> (at: Option<usize>)
        ensures
            at is Some <==> self@.anchor(dir@, down) is Some,
            at matches Some(i) ==> self@.anchor(dir@, down) == Some(i as nat),
    {
        let n = self.list.len();
        if down {
            if self.selected < n {
                let found = find_next_under(&self.list, dir, self.selected + 1);
                if found.is_some() {
                    return found;
                }
            }
            find_next_under(&self.list, dir, 0)
        } else {
            let to = if self.selected <= n {
                self.selected
            } else {
                n
            };
            let found = find_prev_under(&self.list, dir, to);
            if found.is_some() {
                return found;
            }
            find_prev_under(&self.list, dir, n)
        }
    }

    /// Moves the cursor one row on. Returns whether there was such a row.
    pub fn step(&mut self, down: bool) -> (moved: bool)
        ensures
            moved == old(self)@.step(down) is Some,
            final(self)@ == (match old(self)@.step(down) {
                Some(t) => t,
                None => old(self)@,
            }),
    {
        let rows = self.rows();
        let ghost vs = tree_view(rows@);
        assert(vs.len() == rows@.len());
        let pos = match self.cursor_row(&rows) {
            Some(pos) => pos,
            None => {
                return false;
            },
        };
        let next: usize = if down {
            if rows.len() - pos <= 1 {
                return false;
            }
            pos + 1
        } else {
            if pos == 0 {
                return false;
            }
            pos - 1
        };
        assert(vs[next as int] == rows@[next as int]@);
        match &rows[next] {
            FileRow::File { index, .. } => {
                self.selected = *index;
                self.dir_cursor = None;
            },
            FileRow::Dir { path, .. } => {
                if self.collapsed.contains(path.as_str()) {
                    if let Some(anchor) = self.folder_anchor(path.as_str(), down) {
                        self.selected = anchor;
                    }
                    self.dir_cursor = None;
                } else {
                    if let Some(first) = find_next_under(&self.list, path.as_str(), 0) {
                        self.selected = first;
                    }
                    self.dir_cursor = Some(path.clone());
                }
            },
        }
        true
    }

    /// Folds or opens a directory.
    pub fn set_collapsed(&mut self, dir: &str, value: bool)
        ensures
            final(self)@ == old(self)@.fold(dir@, value),
    {
        if value {
            self.collapsed.insert(dir);
        } else {
            self.collapsed.remove(dir);
        }
    }

    /// Folds the open header at the cursor, or else turns over the deepest
    /// folder of the selected file. Returns whether there was one.
    pub fn toggle_folder(&mut self) -> (done: bool)
        ensures
            done == old(self)@.can_toggle(),
            final(self)@ == old(self)@.toggled(),
    {
        let open = self.open_dir();
        self.dir_cursor = None;
        if let Some(dir) = open {
            self.set_collapsed(dir.as_str(), true);
            return true;
        }
        let dirs = match self.file() {
            Some(file) => ancestors(file.path.as_str()),
            None => {
                return true;
            },
        };
        assert(texts(dirs@).len() == dirs@.len());
        if dirs.len() == 0 {
            return false;
        }
        assert(texts(dirs@).last() == dirs@[dirs@.len() - 1]@);
        let fold = !self.collapsed.contains(dirs[dirs.len() - 1].as_str());
        self.set_collapsed(dirs[dirs.len() - 1].as_str(), fold);
        true
    }

    /// Opens every folder of the selected file.
    pub fn expand_selected(&mut self)
        ensures
            final(self)@ == old(self)@.expanded(),
    {
        let dirs = match self.file() {
            Some(file) => ancestors(file.path.as_str()),
            None => {
                return;
            },
        };
        let ghost ds = texts(dirs@);
        assert(ds.len() == dirs@.len());
        let mut k: usize = 0;
        while k < dirs.len()
            invariant
                k <= dirs@.len(),
                ds == texts(dirs@),
                self@ == old(self)@.opened(ds, k as nat),
            decreases dirs@.len() - k,
        {
            assert(ds[k as int] == dirs@[k as int]@);
            self.set_collapsed(dirs[k].as_str(), false);
            k += 1;
        }
    }

    /// Opens the fold at the cursor.
    pub fn expand_at_cursor(&mut self)
        ensures
            final(self)@ == old(self)@.expanded_near(),
    {
        if self.open_dir().is_some() {
            return;
        }
        let hidden = match self.file() {
            Some(file) => self.collapsed.hides(file.path.as_str()),
            None => {
                return;
            },
        };
        if hidden {
            self.expand_selected();
            return;
        }
        let n = self.list.len();
        if self.selected < n && self.selected + 1 < n {
            proof {
                lemma_hidden_has_header(
                    self.list@[self.selected + 1].path@,
                    self.collapsed@,
                );
            }
            if let Some(dir) = self.collapsed.header_for(
                self.list[self.selected + 1].path.as_str(),
            ) {
                self.set_collapsed(dir.as_str(), false);
                return;
            }
        }
        if self.selected > 0 && self.selected - 1 < n {
            proof {
                lemma_hidden_has_header(
                    self.list@[self.selected - 1].path@,
                    self.collapsed@,
                );
            }
            if let Some(dir) = self.collapsed.header_for(
                self.list[self.selected - 1].path.as_str(),
            ) {
                self.set_collapsed(dir.as_str(), false);
            }
        }
    }

    /// Takes the files of a fresh status.
    pub fn rebuild(&mut self, status: &Option<RepoStatus>)
        ensures
            final(self)@ == old(self)@.rebuilt(*status),
    {
        match status {
            None => {
                self.list = Vec::new();
                self.selected = 0;
            },
            Some(st) => {
                self.list = browsable_files(st);
                self.selected = clamp_to(self.selected, self.list.len());
            },
        }
    }

    /// Selects the file at a place and brings it in sight.
    pub fn jump(&mut self, index: usize)
        ensures
            final(self)@ == old(self)@.jumped(index as nat),
    {
        self.selected = index;
        self.dir_cursor = None;
        self.expand_selected();
    }

    /// The directory that the cursor stands for, if it is on a header.
    pub fn header(&self) -> (dir: Option<String>)
        ensures
            opt_text(dir) == self@.header(),
    {
        let open = self.open_dir();
        if open.is_some() {
            return open;
        }
        match self.file() {
            None => None,
            Some(file) => self.collapsed.header_for(file.path.as_str()),
        }
    }

    /// Whether the file at a place lies under a folded directory.
    pub fn is_hidden_index(&self, index: usize) -> (yes: bool)
        ensures
            yes == (index < self.list@.len() && is_hidden(
                self.list@[index as int].path@,
                self.collapsed@,
            )),
    {
        index < self.list.len() && self.collapsed.hides(self.list[index].path.as_str())
    }
}

} // verus!
