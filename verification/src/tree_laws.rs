//! What holds of the files tree whatever is in it and however it is folded.

use crate::model::{RepoStatus, StatusEntry};
use crate::tree::{
    ancestors_of, ancestors_to, file_row, folded_above, has_header, header_row, is_file, is_header,
    is_hidden, lies_under, next_under, prev_under, row_path, rows_of_files, shown_rows,
    visible_rows, with_headers, FileRowView, TreeView,
};
use vstd::prelude::*;

verus! {

proof fn lemma_ancestor_is_prefix(path: Seq<char>, k: nat, i: int)
    requires
        k <= path.len(),
        0 <= i < ancestors_to(path, k).len(),
    ensures
        ancestors_to(path, k)[i].len() < k,
        path[ancestors_to(path, k)[i].len() as int] == '/',
        ancestors_to(path, k)[i] == path.take(ancestors_to(path, k)[i].len() as int),
        ancestors_to(path, k).take(i) == ancestors_to(path, ancestors_to(path, k)[i].len()),
    decreases k,
{
    let all = ancestors_to(path, k);
    let before = ancestors_to(path, (k - 1) as nat);
    if path[k - 1] == '/' && i == before.len() {
        assert(all[i] == path.take(k - 1));
        assert(all.take(i) =~= before);
    } else {
        lemma_ancestor_is_prefix(path, (k - 1) as nat, i);
        assert(all[i] == before[i]);
        assert(all.take(i) =~= before.take(i));
    }
}

proof fn lemma_prefix_is_ancestor(path: Seq<char>, k: nat, n: nat) -> (i: int)
    requires
        n < k <= path.len(),
        path[n as int] == '/',
    ensures
        0 <= i < ancestors_to(path, k).len(),
        ancestors_to(path, k)[i] == path.take(n as int),
    decreases k,
{
    let before = ancestors_to(path, (k - 1) as nat);
    if n == k - 1 {
        before.len() as int
    } else {
        lemma_prefix_is_ancestor(path, (k - 1) as nat, n)
    }
}

proof fn lemma_ancestors_of_prefix(path: Seq<char>, dir: Seq<char>, k: nat)
    requires
        k <= dir.len() <= path.len(),
        dir == path.take(dir.len() as int),
    ensures
        ancestors_to(dir, k) == ancestors_to(path, k),
    decreases k,
{
    if k > 0 {
        lemma_ancestors_of_prefix(path, dir, (k - 1) as nat);
        assert(dir[k - 1] == path[k - 1]);
        assert(dir.take(k - 1) =~= path.take(k - 1));
    }
}

/// A path lies under a directory exactly when that is one of the directories
/// above it.
pub proof fn law_under_is_ancestor(path: Seq<char>, dir: Seq<char>)
    ensures
        lies_under(path, dir) <==> ancestors_of(path).contains(dir),
{
    let n = dir.len();
    if lies_under(path, dir) {
        assert(path.take(n as int + 1)[n as int] == dir.push('/')[n as int]);
        assert(path.take(n as int) =~= dir) by {
            assert forall|j: int| 0 <= j < n implies path[j] == dir[j] by {
                assert(path.take(n as int + 1)[j] == dir.push('/')[j]);
            }
        }
        let i = lemma_prefix_is_ancestor(path, path.len(), n);
        assert(ancestors_of(path)[i] == dir);
    }
    if ancestors_of(path).contains(dir) {
        let i = choose|i: int| 0 <= i < ancestors_of(path).len() && ancestors_of(path)[i] == dir;
        lemma_ancestor_is_prefix(path, path.len(), i);
        assert(path.take(n as int + 1) =~= dir.push('/'));
    }
}

/// The directories above a directory are above all that lies under it.
proof fn lemma_ancestors_nest(path: Seq<char>, i: int)
    requires
        0 <= i < ancestors_of(path).len(),
    ensures
        ancestors_of(path).take(i) == ancestors_of(ancestors_of(path)[i]),
{
    let dir = ancestors_of(path)[i];
    lemma_ancestor_is_prefix(path, path.len(), i);
    lemma_ancestors_of_prefix(path, dir, dir.len());
}

/// What lies under a folded directory that shows is hidden by it, and by none
/// above it.
proof fn lemma_header_of_file(path: Seq<char>, dir: Seq<char>, folded: Set<Seq<char>>)
    requires
        lies_under(path, dir),
        folded.contains(dir),
        !is_hidden(dir, folded),
    ensures
        folded_above(path, folded, 0) == Some(dir),
{
    law_under_is_ancestor(path, dir);
    let all = ancestors_of(path);
    let i = choose|i: int| 0 <= i < all.len() && all[i] == dir;
    lemma_ancestors_nest(path, i);
    assert forall|k: int| 0 <= k < i implies !folded.contains(#[trigger] all[k]) by {
        assert(all.take(i)[k] == all[k]);
        assert(ancestors_of(dir)[k] == all[k]);
    }
    lemma_first_above(path, folded, 0, i);
}

proof fn lemma_first_above(path: Seq<char>, folded: Set<Seq<char>>, i: int, at: int)
    requires
        0 <= i <= at < ancestors_of(path).len(),
        folded.contains(ancestors_of(path)[at]),
        forall|k: int| i <= k < at ==> !folded.contains(#[trigger] ancestors_of(path)[k]),
    ensures
        folded_above(path, folded, i) == Some(ancestors_of(path)[at]),
    decreases at - i,
{
    if i < at {
        assert(!folded.contains(ancestors_of(path)[i]));
        lemma_first_above(path, folded, i + 1, at);
    }
}

proof fn lemma_none_above(path: Seq<char>, folded: Set<Seq<char>>, i: int)
    requires
        0 <= i <= ancestors_of(path).len(),
        !is_hidden(path, folded),
    ensures
        folded_above(path, folded, i) is None,
    decreases ancestors_of(path).len() - i,
{
    if i < ancestors_of(path).len() {
        assert(!folded.contains(ancestors_of(path)[i]));
        lemma_none_above(path, folded, i + 1);
    }
}

/// Whether no header and no file stands twice, every file is one of the first
/// `k`, and every header is that of a directory of one of them.
pub open spec fn rows_are_sound(
    rows: Seq<FileRowView>,
    files: Seq<StatusEntry>,
    k: nat,
) -> bool {
    &&& forall|a: int, b: int, dir: Seq<char>|
        0 <= a < rows.len() && 0 <= b < rows.len() && #[trigger] is_header(rows[a], dir)
            && #[trigger] is_header(rows[b], dir) ==> a == b
    &&& forall|a: int, b: int, n: nat|
        0 <= a < rows.len() && 0 <= b < rows.len() && #[trigger] is_file(rows[a], n)
            && #[trigger] is_file(rows[b], n) ==> a == b
    &&& forall|a: int, n: nat| 0 <= a < rows.len() && #[trigger] is_file(rows[a], n) ==> n < k
    &&& forall|a: int, dir: Seq<char>|
        0 <= a < rows.len() && #[trigger] is_header(rows[a], dir) ==> has_file_in(files, dir, k)
}

/// Whether one of the first `k` files lies under a directory.
pub open spec fn has_file_in(files: Seq<StatusEntry>, dir: Seq<char>, k: nat) -> bool {
    exists|i: int|
        0 <= i < k && i < files.len() && lies_under((#[trigger] files[i]).path@, dir)
}

proof fn lemma_headers_sound(
    rows: Seq<FileRowView>,
    files: Seq<StatusEntry>,
    k: nat,
    j: nat,
)
    requires
        0 < k <= files.len(),
        rows_are_sound(rows, files, (k - 1) as nat),
        j <= ancestors_of(files[k - 1].path@).len(),
    ensures
        ({
            let dirs = ancestors_of(files[k - 1].path@);
            let out = with_headers(rows, dirs, j);
            &&& forall|a: int, b: int, dir: Seq<char>|
                0 <= a < out.len() && 0 <= b < out.len() && #[trigger] is_header(out[a], dir)
                    && #[trigger] is_header(out[b], dir) ==> a == b
            &&& forall|a: int, b: int, n: nat|
                0 <= a < out.len() && 0 <= b < out.len() && #[trigger] is_file(out[a], n)
                    && #[trigger] is_file(out[b], n) ==> a == b
            &&& forall|a: int, n: nat|
                0 <= a < out.len() && #[trigger] is_file(out[a], n) ==> n < k - 1
            &&& forall|a: int, dir: Seq<char>|
                0 <= a < out.len() && #[trigger] is_header(out[a], dir) ==> has_file_in(
                    files,
                    dir,
                    k,
                )
        }),
    decreases j,
{
    let path = files[k - 1].path@;
    let dirs = ancestors_of(path);
    let out = with_headers(rows, dirs, j);
    if j == 0 {
        assert forall|a: int, dir: Seq<char>|
            0 <= a < out.len() && #[trigger] is_header(out[a], dir) implies has_file_in(
            files,
            dir,
            k,
        ) by {
            assert(has_file_in(files, dir, (k - 1) as nat));
        }
    } else {
        lemma_headers_sound(rows, files, k, (j - 1) as nat);
        let before = with_headers(rows, dirs, (j - 1) as nat);
        let d = dirs[j - 1];
        if !has_header(before, d) {
            assert forall|a: int, b: int, dir: Seq<char>|
                0 <= a < out.len() && 0 <= b < out.len() && #[trigger] is_header(out[a], dir)
                    && #[trigger] is_header(out[b], dir) implies a == b by {
                if a < before.len() {
                    assert(is_header(before[a], dir));
                }
                if b < before.len() {
                    assert(is_header(before[b], dir));
                }
            }
            assert forall|a: int, b: int, n: nat|
                0 <= a < out.len() && 0 <= b < out.len() && #[trigger] is_file(out[a], n)
                    && #[trigger] is_file(out[b], n) implies a == b by {
                assert(is_file(before[a], n));
                assert(is_file(before[b], n));
            }
            assert forall|a: int, n: nat|
                0 <= a < out.len() && #[trigger] is_file(out[a], n) implies n < k - 1 by {
                assert(is_file(before[a], n));
            }
            assert forall|a: int, dir: Seq<char>|
                0 <= a < out.len() && #[trigger] is_header(out[a], dir) implies has_file_in(
                files,
                dir,
                k,
            ) by {
                if a < before.len() {
                    assert(is_header(before[a], dir));
                } else {
                    law_under_is_ancestor(path, dir);
                    assert(dirs[j - 1] == dir);
                    assert(lies_under(files[k - 1].path@, dir));
                }
            }
        }
    }
}

/// Every directory has its header once, every file its row once, and there is
/// no header of a directory without a file.
pub proof fn law_rows_are_sound(files: Seq<StatusEntry>, k: nat)
    requires
        k <= files.len(),
    ensures
        rows_are_sound(rows_of_files(files, k), files, k),
    decreases k,
{
    let out = rows_of_files(files, k);
    if k > 0 {
        law_rows_are_sound(files, (k - 1) as nat);
        let dirs = ancestors_of(files[k - 1].path@);
        let rows = rows_of_files(files, (k - 1) as nat);
        let before = with_headers(rows, dirs, dirs.len());
        lemma_headers_sound(rows, files, k, dirs.len());
        assert forall|a: int, b: int, dir: Seq<char>|
            0 <= a < out.len() && 0 <= b < out.len() && #[trigger] is_header(out[a], dir)
                && #[trigger] is_header(out[b], dir) implies a == b by {
            assert(is_header(before[a], dir));
            assert(is_header(before[b], dir));
        }
        assert forall|a: int, b: int, n: nat|
            0 <= a < out.len() && 0 <= b < out.len() && #[trigger] is_file(out[a], n)
                && #[trigger] is_file(out[b], n) implies a == b by {
            if a < before.len() {
                assert(is_file(before[a], n));
            }
            if b < before.len() {
                assert(is_file(before[b], n));
            }
        }
        assert forall|a: int, n: nat|
            0 <= a < out.len() && #[trigger] is_file(out[a], n) implies n < k by {
            if a < before.len() {
                assert(is_file(before[a], n));
            }
        }
        assert forall|a: int, dir: Seq<char>|
            0 <= a < out.len() && #[trigger] is_header(out[a], dir) implies has_file_in(
            files,
            dir,
            k,
        ) by {
            assert(is_header(before[a], dir));
        }
    }
}

proof fn lemma_shown_from(
    rows: Seq<FileRowView>,
    files: Seq<StatusEntry>,
    folded: Set<Seq<char>>,
    k: nat,
)
    requires
        k <= rows.len(),
        rows_are_sound(rows, files, files.len()),
    ensures
        ({
            let out = shown_rows(rows, files, folded, k);
            &&& rows_are_sound(out, files, files.len())
            &&& forall|a: int|
                0 <= a < out.len() ==> !is_hidden(row_path(#[trigger] out[a], files), folded)
            &&& forall|a: int|
                0 <= a < out.len() ==> exists|i: int| 0 <= i < k && rows[i] == #[trigger] out[a]
        }),
    decreases k,
{
    let out = shown_rows(rows, files, folded, k);
    if k > 0 {
        lemma_shown_from(rows, files, folded, (k - 1) as nat);
        let before = shown_rows(rows, files, folded, (k - 1) as nat);
        let last = rows[k - 1];
        if is_hidden(row_path(last, files), folded) {
            assert forall|a: int| 0 <= a < out.len() implies exists|i: int|
                0 <= i < k && rows[i] == #[trigger] out[a] by {
                let i = choose|i: int| 0 <= i < k - 1 && rows[i] == before[a];
                assert(rows[i] == out[a]);
            }
        } else {
            assert forall|a: int| 0 <= a < out.len() implies exists|i: int|
                0 <= i < k && rows[i] == #[trigger] out[a] by {
                if a < before.len() {
                    let i = choose|i: int| 0 <= i < k - 1 && rows[i] == before[a];
                    assert(rows[i] == out[a]);
                } else {
                    assert(rows[k - 1] == out[a]);
                }
            }
            assert forall|a: int, b: int, dir: Seq<char>|
                0 <= a < out.len() && 0 <= b < out.len() && #[trigger] is_header(out[a], dir)
                    && #[trigger] is_header(out[b], dir) implies a == b by {
                if a < before.len() {
                    assert(is_header(before[a], dir));
                    let i = choose|i: int| 0 <= i < k - 1 && rows[i] == before[a];
                    assert(is_header(rows[i], dir));
                }
                if b < before.len() {
                    assert(is_header(before[b], dir));
                    let i = choose|i: int| 0 <= i < k - 1 && rows[i] == before[b];
                    assert(is_header(rows[i], dir));
                }
                if a == before.len() || b == before.len() {
                    assert(is_header(rows[k - 1], dir));
                }
            }
            assert forall|a: int, b: int, n: nat|
                0 <= a < out.len() && 0 <= b < out.len() && #[trigger] is_file(out[a], n)
                    && #[trigger] is_file(out[b], n) implies a == b by {
                if a < before.len() {
                    assert(is_file(before[a], n));
                    let i = choose|i: int| 0 <= i < k - 1 && rows[i] == before[a];
                    assert(is_file(rows[i], n));
                }
                if b < before.len() {
                    assert(is_file(before[b], n));
                    let i = choose|i: int| 0 <= i < k - 1 && rows[i] == before[b];
                    assert(is_file(rows[i], n));
                }
                if a == before.len() || b == before.len() {
                    assert(is_file(rows[k - 1], n));
                }
            }
            assert forall|a: int, n: nat|
                0 <= a < out.len() && #[trigger] is_file(out[a], n) implies n < files.len() by {
                let i = choose|i: int| 0 <= i < k && rows[i] == out[a];
                assert(is_file(rows[i], n));
            }
            assert forall|a: int, dir: Seq<char>|
                0 <= a < out.len() && #[trigger] is_header(out[a], dir) implies has_file_in(
                files,
                dir,
                files.len(),
            ) by {
                let i = choose|i: int| 0 <= i < k && rows[i] == out[a];
                assert(is_header(rows[i], dir));
            }
        }
    }
}

/// No row that shows lies under a folded directory, and no header and no file
/// shows twice.
pub proof fn law_shown_rows(files: Seq<StatusEntry>, folded: Set<Seq<char>>)
    ensures
        rows_are_sound(visible_rows(files, folded), files, files.len()),
        forall|a: int|
            0 <= a < visible_rows(files, folded).len() ==> !is_hidden(
                row_path(#[trigger] visible_rows(files, folded)[a], files),
                folded,
            ),
{
    law_rows_are_sound(files, files.len());
    let rows = rows_of_files(files, files.len());
    lemma_shown_from(rows, files, folded, rows.len());
}

proof fn lemma_header_row_found(rows: Seq<FileRowView>, dir: Seq<char>, i: int, at: int)
    requires
        0 <= i <= at < rows.len(),
        is_header(rows[at], dir),
        forall|k: int| i <= k < at ==> !is_header(#[trigger] rows[k], dir),
    ensures
        header_row(rows, dir, i) == Some(at as nat),
    decreases at - i,
{
    if i < at {
        assert(!is_header(rows[i], dir));
        lemma_header_row_found(rows, dir, i + 1, at);
    }
}

proof fn lemma_file_row_found(rows: Seq<FileRowView>, index: nat, i: int, at: int)
    requires
        0 <= i <= at < rows.len(),
        is_file(rows[at], index),
        forall|k: int| i <= k < at ==> !is_file(#[trigger] rows[k], index),
    ensures
        file_row(rows, index, i) == Some(at as nat),
    decreases at - i,
{
    if i < at {
        assert(!is_file(rows[i], index));
        lemma_file_row_found(rows, index, i + 1, at);
    }
}

proof fn lemma_next_under(list: Seq<StatusEntry>, dir: Seq<char>, i: int, at: int)
    requires
        0 <= i <= at < list.len(),
        lies_under(list[at].path@, dir),
    ensures
        next_under(list, dir, i) is Some,
    decreases at - i,
{
    if i < at && !lies_under(list[i].path@, dir) {
        lemma_next_under(list, dir, i + 1, at);
    }
}

proof fn lemma_next_under_is(list: Seq<StatusEntry>, dir: Seq<char>, i: int)
    ensures
        next_under(list, dir, i) matches Some(k) ==> k < list.len() && lies_under(
            list[k as int].path@,
            dir,
        ),
    decreases list.len() - i,
{
    if 0 <= i < list.len() && !lies_under(list[i].path@, dir) {
        lemma_next_under_is(list, dir, i + 1);
    }
}

proof fn lemma_prev_under(list: Seq<StatusEntry>, dir: Seq<char>, n: int, at: int)
    requires
        0 <= at < n <= list.len(),
        lies_under(list[at].path@, dir),
    ensures
        prev_under(list, dir, n) is Some,
    decreases n,
{
    if !lies_under(list[n - 1].path@, dir) {
        lemma_prev_under(list, dir, n - 1, at);
    }
}

proof fn lemma_prev_under_is(list: Seq<StatusEntry>, dir: Seq<char>, n: int)
    ensures
        prev_under(list, dir, n) matches Some(k) ==> k < list.len() && lies_under(
            list[k as int].path@,
            dir,
        ),
    decreases n,
{
    if 0 < n <= list.len() && !lies_under(list[n - 1].path@, dir) {
        lemma_prev_under_is(list, dir, n - 1);
    }
}

/// Putting the cursor on a row puts it on that row, be it a file, an open
/// header or a folded one.
pub proof fn law_at_row(tree: TreeView, i: nat, down: bool)
    requires
        i < tree.rows().len(),
    ensures
        tree.at_row(i, down).cursor_row() == Some(i),
        tree.at_row(i, down).rows() == tree.rows(),
{
    let t = tree.at_row(i, down);
    let rows = tree.rows();
    law_shown_rows(tree.list, tree.collapsed);
    match rows[i as int] {
        FileRowView::File { index, .. } => {
            assert(is_file(rows[i as int], index));
            assert(!is_hidden(row_path(rows[i as int], tree.list), tree.collapsed));
            lemma_none_above(tree.list[index as int].path@, tree.collapsed, 0);
            assert forall|k: int| 0 <= k < i implies !is_file(#[trigger] rows[k], index) by {}
            lemma_file_row_found(rows, index, 0, i as int);
        },
        FileRowView::Dir { path, .. } => {
            assert(is_header(rows[i as int], path));
            assert(!is_hidden(row_path(rows[i as int], tree.list), tree.collapsed));
            assert(has_file_in(tree.list, path, tree.list.len()));
            let at = choose|at: int|
                0 <= at < tree.list.len() && lies_under((#[trigger] tree.list[at]).path@, path);
            lemma_next_under(tree.list, path, 0, at);
            lemma_next_under_is(tree.list, path, 0);
            assert forall|k: int| 0 <= k < i implies !is_header(#[trigger] rows[k], path) by {}
            lemma_header_row_found(rows, path, 0, i as int);
            if tree.collapsed.contains(path) {
                let n = tree.list.len() as int;
                lemma_next_under_is(tree.list, path, tree.selected as int + 1);
                lemma_prev_under(tree.list, path, n, at);
                lemma_prev_under_is(tree.list, path, n);
                lemma_prev_under_is(
                    tree.list,
                    path,
                    if tree.selected <= n {
                        tree.selected as int
                    } else {
                        n
                    },
                );
                lemma_header_of_file(
                    tree.list[t.selected as int].path@,
                    path,
                    tree.collapsed,
                );
            }
        },
    }
}

/// A step moves the cursor by exactly one of the rows that show, and not at
/// all where there is no further row.
pub proof fn law_step_moves_one_row(tree: TreeView, down: bool)
    ensures
        tree.step(down) matches Some(t) ==> {
            &&& t.rows() == tree.rows()
            &&& tree.cursor_row() matches Some(pos) && t.cursor_row() == Some(
                if down {
                    pos + 1
                } else {
                    (pos - 1) as nat
                },
            )
        },
        tree.step(down) is None ==> (tree.cursor_row() is None || (tree.cursor_row()
            == Some(0nat) && !down) || (down && tree.cursor_row()->0 + 1 >= tree.rows().len())),
{
    if let Some(pos) = tree.cursor_row() {
        if down && pos + 1 < tree.rows().len() {
            law_at_row(tree, pos + 1, true);
        }
        if !down && pos > 0 {
            if pos - 1 < tree.rows().len() {
                law_at_row(tree, (pos - 1) as nat, false);
            } else {
                lemma_cursor_row_is_a_row(tree);
            }
        }
    }
}

proof fn lemma_cursor_row_is_a_row(tree: TreeView)
    ensures
        tree.cursor_row() matches Some(pos) ==> pos < tree.rows().len(),
{
    let rows = tree.rows();
    if let Some(dir) = tree.open_dir() {
        lemma_header_row_in(rows, dir, 0);
    } else if tree.selected < tree.list.len() {
        match folded_above(tree.list[tree.selected as int].path@, tree.collapsed, 0) {
            Some(dir) => lemma_header_row_in(rows, dir, 0),
            None => lemma_file_row_in(rows, tree.selected, 0),
        }
    }
}

proof fn lemma_header_row_in(rows: Seq<FileRowView>, dir: Seq<char>, i: int)
    ensures
        header_row(rows, dir, i) matches Some(k) ==> k < rows.len(),
    decreases rows.len() - i,
{
    if 0 <= i < rows.len() && !is_header(rows[i], dir) {
        lemma_header_row_in(rows, dir, i + 1);
    }
}

proof fn lemma_file_row_in(rows: Seq<FileRowView>, index: nat, i: int)
    ensures
        file_row(rows, index, i) matches Some(k) ==> k < rows.len(),
    decreases rows.len() - i,
{
    if 0 <= i < rows.len() && !is_file(rows[i], index) {
        lemma_file_row_in(rows, index, i + 1);
    }
}

/// A step down and a step up again, or the other way round, come back to the
/// row that the cursor was on.
pub proof fn law_step_back(tree: TreeView, down: bool)
    requires
        tree.step(down) is Some,
    ensures
        tree.step(down)->0.step(!down) matches Some(t) && t.cursor_row() == tree.cursor_row(),
{
    law_step_moves_one_row(tree, down);
    lemma_cursor_row_is_a_row(tree);
    let next = tree.step(down)->0;
    law_step_moves_one_row(next, !down);
}

/// Folding keeps the cursor on the folder: what was an open header with its
/// file selected becomes the folded header of that file.
pub proof fn law_fold_keeps_cursor(tree: TreeView)
    requires
        tree.open_dir() is Some,
        tree.file() matches Some(f) && lies_under(f.path@, tree.open_dir()->0),
    ensures
        tree.toggled().header() == tree.open_dir(),
{
    let dir = tree.open_dir()->0;
    let t = tree.toggled();
    assert(!is_hidden(dir, t.collapsed)) by {
        assert forall|i: int| 0 <= i < ancestors_of(dir).len() implies !t.collapsed.contains(
            #[trigger] ancestors_of(dir)[i],
        ) by {
            lemma_ancestor_is_prefix(dir, dir.len(), i);
            assert(!tree.collapsed.contains(ancestors_of(dir)[i]));
        }
    }
    lemma_header_of_file(tree.file()->0.path@, dir, t.collapsed);
}

/// Turning the folder of a file over twice leaves the folds as they were.
pub proof fn law_toggle_twice(tree: TreeView)
    requires
        tree.dir_cursor is None,
    ensures
        tree.toggled().toggled().collapsed == tree.collapsed,
{
    if let Some(file) = tree.file() {
        let dirs = ancestors_of(file.path@);
        if dirs.len() > 0 {
            assert(tree.toggled().toggled().collapsed =~= tree.collapsed);
        }
    }
}

proof fn lemma_opened(tree: TreeView, dirs: Seq<Seq<char>>, k: nat)
    requires
        k <= dirs.len(),
    ensures
        forall|i: int| 0 <= i < k ==> !tree.opened(dirs, k).collapsed.contains(#[trigger] dirs[i]),
        tree.opened(dirs, k).list == tree.list,
        tree.opened(dirs, k).selected == tree.selected,
        tree.opened(dirs, k).dir_cursor == tree.dir_cursor,
        tree.opened(dirs, k).collapsed.subset_of(tree.collapsed),
    decreases k,
{
    if k > 0 {
        lemma_opened(tree, dirs, (k - 1) as nat);
    }
}

/// Once its folders are open the selected file is in sight, and no other
/// folder was folded for it.
pub proof fn law_expanded_shows(tree: TreeView)
    requires
        tree.file() is Some,
    ensures
        !is_hidden(tree.file()->0.path@, tree.expanded().collapsed),
        tree.expanded().file() == tree.file(),
        tree.expanded().collapsed.subset_of(tree.collapsed),
{
    let dirs = ancestors_of(tree.file()->0.path@);
    lemma_opened(tree, dirs, dirs.len());
}

/// After a jump the chosen file is selected and in sight.
pub proof fn law_jump_shows(tree: TreeView, index: nat)
    requires
        index < tree.list.len(),
    ensures
        tree.jumped(index).file() == Some(tree.list[index as int]),
        tree.jumped(index).header() is None,
{
    let t = TreeView { selected: index, dir_cursor: None, ..tree };
    law_expanded_shows(t);
    let dirs = ancestors_of(t.file()->0.path@);
    lemma_opened(t, dirs, dirs.len());
    lemma_none_above(t.file()->0.path@, t.expanded().collapsed, 0);
}

/// A fresh status leaves the selection on a file, if there is any.
pub proof fn law_rebuilt_selects(tree: TreeView, status: Option<RepoStatus>)
    ensures
        tree.rebuilt(status).selected < tree.rebuilt(status).list.len() || tree.rebuilt(
            status,
        ).selected == 0,
{
}

/// The number of slashes among the first `k` characters of a path.
pub open spec fn slashes(path: Seq<char>, k: nat) -> nat
    decreases k,
{
    if k == 0 {
        0
    } else {
        slashes(path, (k - 1) as nat) + if path[k - 1] == '/' {
            1nat
        } else {
            0nat
        }
    }
}

proof fn lemma_ancestors_count(path: Seq<char>, k: nat)
    requires
        k <= path.len(),
    ensures
        ancestors_to(path, k).len() == slashes(path, k),
    decreases k,
{
    if k > 0 {
        lemma_ancestors_count(path, (k - 1) as nat);
    }
}

proof fn lemma_headers_keep(rows: Seq<FileRowView>, dirs: Seq<Seq<char>>, k: nat)
    requires
        k <= dirs.len(),
    ensures
        rows.len() <= with_headers(rows, dirs, k).len(),
        with_headers(rows, dirs, k).take(rows.len() as int) == rows,
        forall|i: int|
            rows.len() <= i < with_headers(rows, dirs, k).len() ==> (#[trigger] with_headers(
                rows,
                dirs,
                k,
            )[i]) is Dir,
    decreases k,
{
    if k > 0 {
        lemma_headers_keep(rows, dirs, (k - 1) as nat);
        let before = with_headers(rows, dirs, (k - 1) as nat);
        let after = with_headers(rows, dirs, k);
        assert(after.take(rows.len() as int) =~= before.take(rows.len() as int));
        assert forall|i: int| rows.len() <= i < after.len() implies (#[trigger] after[i]) is Dir by {
            if i < before.len() {
                assert(after[i] == before[i]);
            }
        }
    } else {
        assert(rows.take(rows.len() as int) =~= rows);
    }
}

proof fn lemma_file_has_row(files: Seq<StatusEntry>, k: nat, index: nat) -> (at: int)
    requires
        k <= files.len(),
        index < k,
    ensures
        0 <= at < rows_of_files(files, k).len(),
        rows_of_files(files, k)[at] == (FileRowView::File {
            index,
            depth: slashes(files[index as int].path@, files[index as int].path@.len()),
        }),
    decreases k,
{
    let dirs = ancestors_of(files[k - 1].path@);
    let before = rows_of_files(files, (k - 1) as nat);
    let headed = with_headers(before, dirs, dirs.len());
    let rows = rows_of_files(files, k);
    lemma_headers_keep(before, dirs, dirs.len());
    if index == k - 1 {
        lemma_ancestors_count(files[k - 1].path@, files[k - 1].path@.len());
        rows.len() - 1
    } else {
        let at = lemma_file_has_row(files, (k - 1) as nat, index);
        assert(headed.take(before.len() as int)[at] == before[at]);
        assert(rows[at] == headed[at]);
        at
    }
}

proof fn lemma_row_is_shown(
    rows: Seq<FileRowView>,
    files: Seq<StatusEntry>,
    folded: Set<Seq<char>>,
    k: nat,
    at: int,
) -> (place: int)
    requires
        k <= rows.len(),
        0 <= at < k,
        !is_hidden(row_path(rows[at], files), folded),
    ensures
        0 <= place < shown_rows(rows, files, folded, k).len(),
        shown_rows(rows, files, folded, k)[place] == rows[at],
    decreases k,
{
    if at == k - 1 {
        shown_rows(rows, files, folded, k).len() - 1
    } else {
        let place = lemma_row_is_shown(rows, files, folded, (k - 1) as nat, at);
        assert(shown_rows(rows, files, folded, k)[place] == shown_rows(
            rows,
            files,
            folded,
            (k - 1) as nat,
        )[place]);
        place
    }
}

/// Every file that no fold hides has a row, indented once for each folder around
/// it.
pub proof fn law_every_file_has_a_row(
    files: Seq<StatusEntry>,
    folded: Set<Seq<char>>,
    index: nat,
) -> (at: int)
    requires
        index < files.len(),
        !is_hidden(files[index as int].path@, folded),
    ensures
        0 <= at < visible_rows(files, folded).len(),
        visible_rows(files, folded)[at] == (FileRowView::File {
            index,
            depth: slashes(files[index as int].path@, files[index as int].path@.len()),
        }),
{
    let rows = rows_of_files(files, files.len());
    let at = lemma_file_has_row(files, files.len(), index);
    lemma_row_is_shown(rows, files, folded, rows.len(), at)
}

/// The cursor stands for what its row shows: on the row of a file for that file,
/// and on the row of a folder for that folder.
pub proof fn law_cursor_stands_for_its_row(tree: TreeView, i: nat, down: bool)
    requires
        i < tree.rows().len(),
    ensures
        tree.rows()[i as int] matches FileRowView::File { index, .. } ==> tree.at_row(
            i,
            down,
        ).file() == Some(tree.list[index as int]) && tree.at_row(i, down).header() is None,
        tree.rows()[i as int] matches FileRowView::Dir { path, .. } ==> tree.at_row(
            i,
            down,
        ).header() == Some(path),
{
    law_shown_rows(tree.list, tree.collapsed);
    let rows = tree.rows();
    match rows[i as int] {
        FileRowView::File { index, .. } => {
            assert(is_file(rows[i as int], index));
            assert(!is_hidden(row_path(rows[i as int], tree.list), tree.collapsed));
            lemma_none_above(tree.list[index as int].path@, tree.collapsed, 0);
        },
        FileRowView::Dir { path, .. } => {
            let t = tree.at_row(i, down);
            assert(is_header(rows[i as int], path));
            assert(!is_hidden(row_path(rows[i as int], tree.list), tree.collapsed));
            assert(has_file_in(tree.list, path, tree.list.len()));
            let at = choose|at: int|
                0 <= at < tree.list.len() && lies_under((#[trigger] tree.list[at]).path@, path);
            lemma_next_under(tree.list, path, 0, at);
            lemma_next_under_is(tree.list, path, 0);
            if tree.collapsed.contains(path) {
                let n = tree.list.len() as int;
                let m = if tree.selected <= n {
                    tree.selected as int
                } else {
                    n
                };
                lemma_next_under_is(tree.list, path, tree.selected as int + 1);
                lemma_prev_under(tree.list, path, n, at);
                lemma_prev_under_is(tree.list, path, n);
                lemma_prev_under_is(tree.list, path, m);
                lemma_header_of_file(tree.list[t.selected as int].path@, path, tree.collapsed);
            }
        },
    }
}

proof fn lemma_next_under_first(list: Seq<StatusEntry>, dir: Seq<char>, i: int, at: int)
    requires
        0 <= i <= at < list.len(),
        lies_under(list[at].path@, dir),
    ensures
        next_under(list, dir, i) matches Some(k) && i <= k <= at,
    decreases at - i,
{
    if i < at && !lies_under(list[i].path@, dir) {
        lemma_next_under_first(list, dir, i + 1, at);
    }
}

proof fn lemma_prev_under_last(list: Seq<StatusEntry>, dir: Seq<char>, n: int, at: int)
    requires
        0 <= at < n <= list.len(),
        lies_under(list[at].path@, dir),
    ensures
        prev_under(list, dir, n) matches Some(k) && at <= k < n,
    decreases n,
{
    if !lies_under(list[n - 1].path@, dir) {
        lemma_prev_under_last(list, dir, n - 1, at);
    }
}

/// A folded folder that the cursor comes to stands for one of its files: on the
/// way down for the next one behind the selected file, or else for its first; on
/// the way up for the last one before the selected file, or else for its last.
pub proof fn law_folder_stands_for_a_file(t: TreeView, dir: Seq<char>, at: int)
    requires
        t.selected < t.list.len(),
        0 <= at < t.list.len(),
        lies_under(t.list[at].path@, dir),
    ensures
        ({
            let n = t.selected as int;
            let down = t.anchor(dir, true)->0 as int;
            let up = t.anchor(dir, false)->0 as int;
            &&& t.anchor(dir, true) is Some
            &&& t.anchor(dir, false) is Some
            &&& down < t.list.len() && lies_under(t.list[down].path@, dir)
            &&& up < t.list.len() && lies_under(t.list[up].path@, dir)
            &&& at > n ==> n < down <= at
            &&& down <= n ==> down <= at
            &&& at < n ==> at <= up < n
            &&& up >= n ==> at <= up
        }),
{
    let n = t.selected as int;
    let len = t.list.len() as int;
    lemma_next_under_is(t.list, dir, n + 1);
    lemma_next_under_is(t.list, dir, 0);
    lemma_prev_under_is(t.list, dir, n);
    lemma_prev_under_is(t.list, dir, len);
    lemma_next_under_first(t.list, dir, 0, at);
    lemma_prev_under_last(t.list, dir, len, at);
    if at > n {
        lemma_next_under_first(t.list, dir, n + 1, at);
    }
    if at < n {
        lemma_prev_under_last(t.list, dir, n, at);
    }
    if n + 1 < len {
        lemma_next_under_from(t.list, dir, n + 1);
    }
    lemma_prev_under_below(t.list, dir, n);
}

proof fn lemma_next_under_from(list: Seq<StatusEntry>, dir: Seq<char>, i: int)
    requires
        0 <= i,
    ensures
        next_under(list, dir, i) matches Some(k) ==> i <= k,
    decreases list.len() - i,
{
    if i < list.len() && !lies_under(list[i].path@, dir) {
        lemma_next_under_from(list, dir, i + 1);
    }
}

proof fn lemma_prev_under_below(list: Seq<StatusEntry>, dir: Seq<char>, n: int)
    ensures
        prev_under(list, dir, n) matches Some(k) ==> k < n,
    decreases n,
{
    if 0 < n <= list.len() && !lies_under(list[n - 1].path@, dir) {
        lemma_prev_under_below(list, dir, n - 1);
    }
}

} // verus!
