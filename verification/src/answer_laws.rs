//! What becomes of the worker's answers: what is shown of each of them, what is
//! asked for because of it, and what stays as it was.

use crate::app_model::AppView;
use crate::jobs::{GitError, JobResult, JobView};
use crate::markdown::markdown_path;
use crate::model::{
    BranchInfo, CommitInfo, FileDiff, FileState, RepoStatus, StashEntry, StatusEntry, SyncStatus,
};
use crate::tree::{browsable, clean_entries, lists_path};
use crate::viewer::ViewerView;
use vstd::prelude::*;
use vstd::string::*;

verus! {

/// A place in a list that is not past its end.
pub open spec fn held(place: nat, len: nat) -> nat {
    if place < len {
        place
    } else if len == 0 {
        0
    } else {
        (len - 1) as nat
    }
}

/// Each list that arrives is shown as it is, in its own panel; the selection
/// stays where it was, or goes to the last entry. Nothing else changes.
pub proof fn law_lists_are_shown(
    s: AppView,
    branches: Vec<BranchInfo>,
    log: Vec<CommitInfo>,
    stash: Vec<StashEntry>,
)
    ensures
        s.applied(JobResult::Branches(branches)) == (AppView {
            branches: Some(branches@),
            branch_selected: held(s.branch_selected, branches@.len()),
            ..s
        }),
        s.applied(JobResult::Stash(stash)) == (AppView {
            stash: Some(stash@),
            stash_selected: held(s.stash_selected, stash@.len()),
            ..s
        }),
        ({
            let after = s.applied(JobResult::Log(log));
            &&& after == (AppView { log: Some(log@), log_scroll: after.log_scroll, ..s })
            &&& s.log_scroll < log@.len() && s.log_scroll <= 0xffff ==> after.log_scroll
                == s.log_scroll
            &&& after.log_scroll < log@.len() || after.log_scroll == 0
        }),
{
    reveal(AppView::applied);
    reveal(AppView::branches_arrived);
    reveal(AppView::log_arrived);
    reveal(AppView::stash_arrived);
}

/// How the branch stands to its upstream is shown as it arrives.
pub proof fn law_sync_is_shown(s: AppView, sync: SyncStatus)
    ensures
        s.applied(JobResult::SyncStatus(sync)) == (AppView { sync: Some(sync), ..s }),
{
    reveal(AppView::applied);
    reveal(AppView::sync_arrived);
}

proof fn lemma_clean_entries(status: RepoStatus, k: nat, i: int)
    requires
        k <= status.tracked_files@.len(),
    ensures
        0 <= i < clean_entries(status, k).len() ==> {
            let e = clean_entries(status, k)[i];
            &&& e.state == FileState::Clean
            &&& !lists_path(status.files@, e.path@)
            &&& exists|j: int|
                0 <= j < k && #[trigger] status.tracked_files@[j] == e.path
        },
    decreases k,
{
    if k > 0 {
        lemma_clean_entries(status, (k - 1) as nat, i);
        let before = clean_entries(status, (k - 1) as nat);
        let now = clean_entries(status, k);
        if 0 <= i < now.len() {
            if i < before.len() {
                assert(now[i] == before[i]);
            } else {
                assert(status.tracked_files@[k - 1] == now[i].path);
            }
        }
    }
}

proof fn lemma_clean_is_listed(status: RepoStatus, k: nat, j: int) -> (i: int)
    requires
        k <= status.tracked_files@.len(),
        0 <= j < k,
        !lists_path(status.files@, status.tracked_files@[j]@),
    ensures
        0 <= i < clean_entries(status, k).len(),
        clean_entries(status, k)[i].path == status.tracked_files@[j],
    decreases k,
{
    if j == k - 1 {
        clean_entries(status, k).len() - 1
    } else {
        let i = lemma_clean_is_listed(status, (k - 1) as nat, j);
        assert(clean_entries(status, k)[i] == clean_entries(status, (k - 1) as nat)[i]);
        i
    }
}

/// A fresh status is shown: the changed files first, as they are listed, and
/// behind them every tracked file that is not among them, as unchanged; nothing
/// else. The last error goes, and the folds and all other panels stay.
pub proof fn law_status_is_shown(s: AppView, status: RepoStatus)
    ensures
        ({
            let after = s.applied(JobResult::Status(status));
            let list = after.tree.list;
            let changed = status.files@.len();
            &&& after == (AppView {
                status: Some(status),
                tree: after.tree,
                error: None,
                ..s
            })
            &&& after.tree.collapsed == s.tree.collapsed
            &&& after.tree.dir_cursor == s.tree.dir_cursor
            &&& after.tree.selected == held(s.tree.selected, list.len())
            &&& changed <= list.len()
            &&& list.take(changed as int) == status.files@
            &&& forall|i: int|
                changed <= i < list.len() ==> (#[trigger] list[i]).state == FileState::Clean
                    && !lists_path(status.files@, list[i].path@) && (exists|j: int|
                    0 <= j < status.tracked_files@.len() && #[trigger] status.tracked_files@[j]
                        == list[i].path)
            &&& forall|j: int|
                0 <= j < status.tracked_files@.len() ==> lists_path(
                    list,
                    (#[trigger] status.tracked_files@[j])@,
                )
        }),
{
    reveal(AppView::applied);
    reveal(AppView::status_arrived);
    let list = browsable(status);
    let n = status.tracked_files@.len();
    let changed = status.files@.len() as int;
    assert(list.take(changed) =~= status.files@);
    assert forall|i: int| changed <= i < list.len() implies (#[trigger] list[i]).state
        == FileState::Clean && !lists_path(status.files@, list[i].path@) && (exists|j: int|
        0 <= j < status.tracked_files@.len() && #[trigger] status.tracked_files@[j]
            == list[i].path) by {
        lemma_clean_entries(status, n, i - changed);
    }
    assert forall|j: int| 0 <= j < n implies lists_path(
        list,
        (#[trigger] status.tracked_files@[j])@,
    ) by {
        let path = status.tracked_files@[j]@;
        if lists_path(status.files@, path) {
            let i = choose|i: int|
                0 <= i < status.files@.len() && (#[trigger] status.files@[i]).path@ == path;
            assert(list[i].path@ == path);
        } else {
            let i = lemma_clean_is_listed(status, n, j);
            assert(list[changed + i].path@ == path);
        }
    }
}

/// The diff of the file that is looked at is shown when it arrives: the diff
/// itself, no selection in it, the cursor where it was if there is such a row.
/// An empty diff has the whole file asked for instead.
pub proof fn law_wanted_diff_is_shown(s: AppView, diff: FileDiff, staged: bool)
    requires
        s.diff_for == Some((diff.path@, staged)),
        s.queue.closed is None,
    ensures
        ({
            let after = s.applied(JobResult::Diff(diff));
            if diff.hunks@.len() == 0 && !diff.binary && !s.diff_whole_file {
                &&& after.viewer.diff is None
                &&& after.diff_whole_file
                &&& after.queue.pending == s.queue.pending + seq![
                    JobView::LoadFile { path: diff.path@ },
                ]
            } else {
                &&& after == (AppView { viewer: after.viewer, ..s })
                &&& after.viewer.diff == Some(diff)
                &&& after.viewer.visual is None
                &&& after.viewer.col == s.viewer.col
                &&& after.viewer.cursor == held(s.viewer.cursor, after.viewer.rows().len())
            }
        }),
{
    reveal(AppView::applied);
    reveal(AppView::diff_arrived);
    reveal(AppView::submitted);
    let job = JobView::LoadFile { path: diff.path@ };
    assert(s.queue.pending.push(job) =~= s.queue.pending + seq![job]);
}

/// The text of the document that is looked at is shown from its start; one that
/// is no longer looked at is dropped.
pub proof fn law_wanted_markdown_is_shown(s: AppView, path: String, staged: bool, text: String)
    ensures
        s.md_for == Some((path@, staged)) ==> s.applied(
            JobResult::Markdown { path, staged, text },
        ) == (AppView {
            md_text: Some(text@),
            viewer: ViewerView { scroll: 0, ..s.viewer },
            ..s
        }),
        s.md_for != Some((path@, staged)) ==> s.applied(
            JobResult::Markdown { path, staged, text },
        ) == s,
{
    reveal(AppView::applied);
    reveal(AppView::markdown_arrived);
}

/// A failure is shown in its own words; nothing is being synced or written any
/// more, and nothing else changes.
pub proof fn law_failure_is_shown(s: AppView, e: GitError)
    ensures
        ({
            let after = s.applied(JobResult::Error(e));
            &&& after == (AppView {
                error: after.error,
                syncing: None,
                generating: false,
                ..s
            })
            &&& after.error is Some
            &&& (e matches GitError::Other(text) ==> after.error == Some(text@))
            &&& (e matches GitError::NotARepo(text) ==> after.error == Some(text@))
            &&& e is EmptyCommit ==> after.error == Some(
                "nothing to commit: press space on a file to stage it, then c to commit"@,
            )
        }),
{
    reveal(AppView::applied);
    reveal(AppView::error_arrived);
}

/// What is asked for again after a change to the repository: the status, the
/// diff or file that is shown, the document that is shown, each list that was
/// loaded, and how the branch stands to its upstream.
pub open spec fn asked_again(s: AppView) -> Seq<JobView> {
    let diff = match s.diff_for {
        Some((path, staged)) => if s.diff_whole_file {
            seq![JobView::LoadFile { path }]
        } else {
            seq![JobView::LoadDiff { path, staged }]
        },
        None => Seq::empty(),
    };
    let markdown = if s.shows_markdown() {
        let file = s.tree.file()->0;
        seq![
            JobView::LoadMarkdown { path: file.path@, staged: file.state == FileState::Staged },
        ]
    } else {
        Seq::empty()
    };
    let branches = if s.branches is Some {
        seq![JobView::ListBranches]
    } else {
        Seq::empty()
    };
    let log = if s.log is Some {
        seq![JobView::ListLog { limit: 100 }]
    } else {
        Seq::empty()
    };
    let stash = if s.stash is Some {
        seq![JobView::ListStash]
    } else {
        Seq::empty()
    };
    seq![JobView::RefreshStatus] + diff + markdown + branches + log + stash + seq![
        JobView::LoadSync,
    ]
}

/// After a change to the repository everything that is shown is asked for again,
/// each once and nothing else.
#[verifier::rlimit(40)]
pub proof fn law_change_asks_again(s: AppView)
    requires
        s.queue.closed is None,
    ensures
        ({
            let after = s.applied(JobResult::MutationDone);
            &&& after.queue.pending == s.queue.pending + asked_again(s)
            &&& after.syncing is None
            &&& after.status == s.status
            &&& after.tree == s.tree
            &&& after.viewer == s.viewer
            &&& after.draft == s.draft
            &&& after.mode == s.mode
        }),
{
    reveal(AppView::applied);
    reveal(AppView::mutation_done);
    reveal(AppView::diff_reloaded);
    reveal(AppView::markdown_reloaded);
    reveal(AppView::markdown_loaded);
    reveal(AppView::branches_reloaded);
    reveal(AppView::log_reloaded);
    reveal(AppView::stash_reloaded);
    reveal(AppView::submitted);
    assert(s.applied(JobResult::MutationDone).queue.pending =~= s.queue.pending + asked_again(s));
}

/// Answers are taken in one after the other, the last one last.
pub proof fn law_answers_are_taken_in_order(s: AppView, results: Seq<JobResult>, last: JobResult)
    ensures
        s.applied_all(results.push(last), results.len() + 1) == s.applied_all(
            results,
            results.len(),
        ).applied(last),
{
    lemma_applied_prefix(s, results, last, results.len());
}

proof fn lemma_applied_prefix(s: AppView, results: Seq<JobResult>, last: JobResult, k: nat)
    requires
        k <= results.len(),
    ensures
        s.applied_all(results.push(last), k) == s.applied_all(results, k),
    decreases k,
{
    if k > 0 {
        lemma_applied_prefix(s, results, last, (k - 1) as nat);
        assert(results.push(last)[k - 1] == results[k - 1]);
    }
}

/// A file that was not looked at before is asked for when it is selected: an
/// unchanged one as a whole, a fully staged one by its staged diff, any other by
/// what is not staged. The view of it starts at the top.
pub proof fn law_selected_file_is_asked_for(s: AppView, file: StatusEntry)
    requires
        s.tree.file() == Some(file),
        s.diff_for matches Some((path, _)) ==> path != file.path@,
        !s.markdown_preview,
        s.queue.closed is None,
    ensures
        ({
            let after = s.polled(Seq::empty());
            let job = if file.state == FileState::Clean {
                JobView::LoadFile { path: file.path@ }
            } else {
                JobView::LoadDiff { path: file.path@, staged: file.state == FileState::Staged }
            };
            &&& after.queue.pending == s.queue.pending + seq![job]
            &&& after.diff_for == Some((file.path@, file.state == FileState::Staged))
            &&& after.viewer.diff is None
            &&& after.viewer.cursor == 0
            &&& after.viewer.col == 0
            &&& after.viewer.scroll == 0
            &&& after.viewer.hunk == 0
            &&& after.viewer.visual is None
            &&& after.tree == s.tree
            &&& after.mode == s.mode
        }),
{
    reveal(AppView::polled);
    reveal(AppView::diff_loaded);
    reveal(AppView::markdown_loaded);
    reveal(AppView::submitted);
    let job = if file.state == FileState::Clean {
        JobView::LoadFile { path: file.path@ }
    } else {
        JobView::LoadDiff { path: file.path@, staged: file.state == FileState::Staged }
    };
    assert(s.queue.pending.push(job) =~= s.queue.pending + seq![job]);
}

/// What is looked at is asked for once: looking again without an answer asks for
/// nothing and changes nothing.
pub proof fn law_nothing_is_asked_twice(s: AppView)
    ensures
        s.polled(Seq::empty()).polled(Seq::empty()) == s.polled(Seq::empty()),
{
    reveal(AppView::polled);
    reveal(AppView::diff_loaded);
    reveal(AppView::markdown_loaded);
    reveal(AppView::submitted);
}

/// A file whose diff came out empty stays shown as a whole: its diff is not asked
/// for again while it is looked at.
pub proof fn law_empty_diff_stays_whole(s: AppView, diff: FileDiff, file: StatusEntry)
    requires
        s.tree.file() == Some(file),
        diff.path@ == file.path@,
        s.diff_for == Some((file.path@, file.state == FileState::Staged)),
        diff.hunks@.len() == 0,
        !diff.binary,
        !s.diff_whole_file,
        !s.markdown_preview,
    ensures
        s.applied(JobResult::Diff(diff)).polled(Seq::empty()) == s.applied(JobResult::Diff(diff)),
{
    reveal(AppView::applied);
    reveal(AppView::diff_arrived);
    reveal(AppView::polled);
    reveal(AppView::diff_loaded);
    reveal(AppView::markdown_loaded);
    reveal(AppView::submitted);
}

/// While documents are shown rendered, the text of a document is asked for when
/// it is selected, and that of any other file is not.
pub proof fn law_selected_document_is_asked_for(s: AppView, file: StatusEntry)
    requires
        s.tree.file() == Some(file),
        s.markdown_preview,
        s.queue.closed is None,
        file.state != FileState::Clean,
        s.diff_for == Some((file.path@, file.state == FileState::Staged)),
        !s.diff_whole_file,
        !s.fallback_whole_file,
        s.md_for matches Some((path, _)) ==> path != file.path@,
    ensures
        ({
            let after = s.polled(Seq::empty());
            let staged = file.state == FileState::Staged;
            if markdown_path(file.path@) {
                &&& after.queue.pending == s.queue.pending + seq![
                    JobView::LoadMarkdown { path: file.path@, staged },
                ]
                &&& after.md_for == Some((file.path@, staged))
                &&& after.md_text is None
                &&& after.viewer == s.viewer
            } else {
                after == s
            }
        }),
{
    reveal(AppView::polled);
    reveal(AppView::diff_loaded);
    reveal(AppView::markdown_loaded);
    reveal(AppView::submitted);
    let job = JobView::LoadMarkdown {
        path: file.path@,
        staged: file.state == FileState::Staged,
    };
    assert(s.queue.pending.push(job) =~= s.queue.pending + seq![job]);
}

} // verus!
