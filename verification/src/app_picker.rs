//! What a project does with its keys and with the answers of its worker never
//! touches the picker for another project.

use crate::app_model::{AppView, Focus};
use crate::config::KeyCode;
use crate::jobs::{JobResult, JobView};
use crate::model::StatusEntry;
use vstd::prelude::*;

verus! {

/// Whether the picker of two apps is the same.
pub open spec fn same_picker(a: AppView, b: AppView) -> bool {
    a.open_browser == b.open_browser
}

proof fn lemma_submit(s: AppView, job: JobView, jobs: Seq<JobView>)
    ensures
        same_picker(s.submitted(job), s),
        same_picker(s.submitted_all(jobs), s),
        same_picker(s.modal_submitted(job), s),
{
    reveal(AppView::submitted);
    reveal(AppView::submitted_all);
    reveal(AppView::modal_submitted);
}

proof fn lemma_loads(s: AppView)
    ensures
        same_picker(s.diff_loaded(), s),
        same_picker(s.markdown_loaded(), s),
        same_picker(s.markdown_reloaded(), s),
        same_picker(s.branches_loaded(), s),
        same_picker(s.log_loaded(), s),
        same_picker(s.stash_loaded(), s),
        same_picker(s.branches_reloaded(), s),
        same_picker(s.log_reloaded(), s),
        same_picker(s.stash_reloaded(), s),
{
    reveal(AppView::submitted);
    reveal(AppView::diff_loaded);
    reveal(AppView::markdown_loaded);
    reveal(AppView::markdown_reloaded);
    reveal(AppView::branches_loaded);
    reveal(AppView::log_loaded);
    reveal(AppView::stash_loaded);
    reveal(AppView::branches_reloaded);
    reveal(AppView::log_reloaded);
    reveal(AppView::stash_reloaded);
}

proof fn lemma_diff_reload(s: AppView)
    ensures
        same_picker(s.diff_reloaded(), s),
{
    reveal(AppView::submitted);
    reveal(AppView::diff_reloaded);
    let t = match s.diff_for {
        Some((path, staged)) => s.submitted(
            AppView::load_job(path, staged, s.diff_whole_file),
        ),
        None => s,
    };
    lemma_loads(t);
}

proof fn lemma_moves(s: AppView, delta: int, down: bool)
    ensures
        same_picker(s.tree_stepped(down), s),
        same_picker(s.log_scrolled(delta), s),
        same_picker(s.diff_scrolled(delta), s),
        same_picker(s.cursor_moved(delta), s),
        same_picker(s.column_moved(delta), s),
        same_picker(s.paged(delta), s),
        same_picker(s.folder_toggled(), s),
        same_picker(s.diff_opened(), s),
        same_picker(s.diff_closed(), s),
        same_picker(s.yanked(), s),
{
    reveal(AppView::tree_stepped);
    reveal(AppView::log_scrolled);
    reveal(AppView::diff_scrolled);
    reveal(AppView::cursor_moved);
    reveal(AppView::column_moved);
    reveal(AppView::paged);
    reveal(AppView::folder_toggled);
    reveal(AppView::diff_opened);
    reveal(AppView::diff_closed);
    reveal(AppView::yanked);
    if let Some(tree) = s.tree.step(down) {
        lemma_loads(AppView { tree, ..s });
    }
}

proof fn lemma_moved(s: AppView, down: bool)
    ensures
        same_picker(s.moved(down), s),
{
    reveal(AppView::moved);
    lemma_moves(s, 1, down);
    lemma_moves(s, -1, down);
}

proof fn lemma_markdown_toggled(s: AppView)
    ensures
        same_picker(s.markdown_toggled(), s),
{
    reveal(AppView::markdown_toggled);
    reveal(AppView::markdown_loaded);
    reveal(AppView::submitted);
}

proof fn lemma_focus_cycled(s: AppView)
    ensures
        same_picker(s.focus_cycled(), s),
{
    reveal(AppView::focus_cycled);
    reveal(AppView::branches_loaded);
    reveal(AppView::log_loaded);
    reveal(AppView::stash_loaded);
    reveal(AppView::submitted);
}

proof fn lemma_file_actions(s: AppView, file: StatusEntry, dir: Seq<char>)
    ensures
        same_picker(s.file_staged(file), s),
        same_picker(s.file_discarded(file), s),
        same_picker(s.dir_staged(dir), s),
        same_picker(s.dir_discarded(dir), s),
{
    reveal(AppView::file_staged);
    reveal(AppView::file_discarded);
    reveal(AppView::dir_staged);
    reveal(AppView::dir_discarded);
    reveal(AppView::conflicted);
    reveal(AppView::submitted);
    reveal(AppView::submitted_all);
}

proof fn lemma_actions(s: AppView)
    ensures
        same_picker(s.stage_toggled(), s),
        same_picker(s.discarded(), s),
        same_picker(s.loaded_discarded(), s),
        same_picker(s.hunk_staged(), s),
        same_picker(s.checked_out(), s),
        same_picker(s.branch_deleted(), s),
        same_picker(s.stash_popped(), s),
        same_picker(s.stash_dropped(), s),
{
    reveal(AppView::stage_toggled);
    reveal(AppView::discarded);
    reveal(AppView::loaded_discarded);
    reveal(AppView::hunk_staged);
    reveal(AppView::checked_out);
    reveal(AppView::branch_deleted);
    reveal(AppView::stash_popped);
    reveal(AppView::stash_dropped);
    reveal(AppView::submitted);
    assert forall|file: StatusEntry, dir: Seq<char>|
        same_picker(#[trigger] s.file_staged(file), s) && same_picker(
            #[trigger] s.dir_staged(dir),
            s,
        ) by {
        lemma_file_actions(s, file, dir);
    }
    assert forall|file: StatusEntry, dir: Seq<char>|
        same_picker(#[trigger] s.file_discarded(file), s) && same_picker(
            #[trigger] s.dir_discarded(dir),
            s,
        ) by {
        lemma_file_actions(s, file, dir);
    }
}

proof fn lemma_modals(s: AppView, down: bool)
    ensures
        same_picker(s.finder_opened(), s),
        same_picker(s.finder_moved(down), s),
        same_picker(s.finder_submitted(), s),
        same_picker(s.generation_begun(), s),
        same_picker(s.form_opened(), s),
        same_picker(s.form_cancelled(), s),
        same_picker(s.form_moved(down), s),
        same_picker(s.form_saved(), s),
{
    reveal(AppView::finder_opened);
    reveal(AppView::finder_moved);
    reveal(AppView::finder_submitted);
    reveal(AppView::diff_loaded);
    reveal(AppView::generation_begun);
    reveal(AppView::form_opened);
    reveal(AppView::form_cancelled);
    reveal(AppView::form_moved);
    reveal(AppView::form_saved);
    reveal(AppView::form_done);
    reveal(AppView::submitted);
}

proof fn lemma_syncs(s: AppView)
    ensures
        same_picker(s.pulled(), s),
        same_picker(s.pushed(), s),
        same_picker(s.upstream_submitted(), s),
        same_picker(s.publish_submitted(), s),
        same_picker(s.commit_submitted(), s),
        same_picker(s.branch_submitted(), s),
        same_picker(s.stash_submitted(), s),
{
    reveal(AppView::pulled);
    reveal(AppView::pushed);
    reveal(AppView::upstream_submitted);
    reveal(AppView::publish_submitted);
    reveal(AppView::sync_submitted);
    reveal(AppView::commit_submitted);
    reveal(AppView::branch_submitted);
    reveal(AppView::stash_submitted);
    reveal(AppView::modal_submitted);
    reveal(AppView::submitted);
}

proof fn lemma_modal_keys(s: AppView, key: KeyCode)
    ensures
        same_picker(s.form_key(key), s),
        same_picker(s.finder_key(key), s),
        same_picker(s.modal_key(key), s),
{
    reveal(AppView::form_key);
    reveal(AppView::finder_key);
    reveal(AppView::modal_key);
    reveal(AppView::modal_entered);
    lemma_modals(s, true);
    lemma_modals(s, false);
    lemma_modals(AppView { tree: s.tree.expanded(), ..s }, true);
    lemma_syncs(s);
}

proof fn lemma_full_key(s: AppView, key: KeyCode)
    ensures
        same_picker(s.full_key(key), s),
{
    reveal(AppView::full_key);
    lemma_moves(s, -1, true);
    lemma_moves(s, 1, true);
    lemma_moves(s, -10, true);
    lemma_moves(s, 10, true);
    lemma_markdown_toggled(s);
    lemma_modals(s, true);
    lemma_actions(s);
    lemma_syncs(s);
}

proof fn lemma_move_key(s: AppView, key: KeyCode)
    ensures
        s.move_key(key) matches Some(t) ==> same_picker(t, s),
{
    reveal(AppView::move_key);
    lemma_focus_cycled(s);
    lemma_moves(s, 1, true);
    lemma_moved(s, true);
    lemma_moved(s, false);
    lemma_loads(s.focused(Focus::Branches));
    lemma_loads(s.focused(Focus::Log));
    lemma_loads(s.focused(Focus::Stash));
}

proof fn lemma_action_key(s: AppView, key: KeyCode)
    ensures
        same_picker(s.action_key(key), s),
{
    reveal(AppView::action_key);
    lemma_actions(s);
    lemma_moves(s, -10, true);
    lemma_moves(s, 10, true);
    lemma_markdown_toggled(s);
    lemma_modals(s, true);
    lemma_submit(s, JobView::RefreshStatus, Seq::empty());
    lemma_syncs(s);
}

/// No key of a project touches the picker.
pub proof fn law_keys_leave_picker(s: AppView, key: KeyCode, shift: bool)
    ensures
        same_picker(s.pressed(key, shift), s),
{
    reveal(AppView::pressed);
    reveal(AppView::key);
    reveal(AppView::normal_key);
    let t = AppView { error: None, notice: None, ..s };
    lemma_modal_keys(t, key);
    lemma_full_key(t, key);
    lemma_move_key(t, key);
    lemma_action_key(t, key);
    lemma_modals(t, true);
}

proof fn lemma_mutation(s: AppView)
    ensures
        same_picker(s.mutation_done(), s),
{
    reveal(AppView::mutation_done);
    let a = AppView { syncing: None, ..s };
    lemma_submit(a, JobView::RefreshStatus, Seq::empty());
    let b = a.submitted(JobView::RefreshStatus);
    lemma_diff_reload(b);
    let c = b.diff_reloaded();
    lemma_loads(c);
    let d = c.branches_reloaded();
    lemma_loads(d);
    let e = d.log_reloaded();
    lemma_loads(e);
    lemma_submit(e.stash_reloaded(), JobView::LoadSync, Seq::empty());
}

proof fn lemma_applied(s: AppView, result: JobResult)
    ensures
        same_picker(s.applied(result), s),
{
    reveal(AppView::applied);
    reveal(AppView::status_arrived);
    reveal(AppView::diff_arrived);
    reveal(AppView::markdown_arrived);
    reveal(AppView::branches_arrived);
    reveal(AppView::log_arrived);
    reveal(AppView::stash_arrived);
    reveal(AppView::sync_arrived);
    reveal(AppView::message_arrived);
    reveal(AppView::error_arrived);
    reveal(AppView::submitted);
    lemma_mutation(s);
}

proof fn lemma_applied_all(s: AppView, results: Seq<JobResult>, k: nat)
    ensures
        same_picker(s.applied_all(results, k), s),
    decreases k,
{
    if k > 0 {
        lemma_applied_all(s, results, (k - 1) as nat);
        lemma_applied(s.applied_all(results, (k - 1) as nat), results[k - 1]);
    }
}

/// No answer of the worker touches the picker.
pub proof fn law_answers_leave_picker(s: AppView, results: Seq<JobResult>)
    ensures
        same_picker(s.polled(results), s),
{
    reveal(AppView::polled);
    lemma_applied_all(s, results, results.len());
    let a = s.applied_all(results, results.len());
    lemma_loads(a);
    lemma_loads(a.diff_loaded());
}

} // verus!
