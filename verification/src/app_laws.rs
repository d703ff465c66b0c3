//! What holds of an app whatever state it is in.

use crate::app_events::edited;
use crate::app_model::{
    branch_of, conflict_under, is_picked, path_of, picked, remote_of, settings_of, AppView, Focus,
    Mode, Pick,
};
use crate::config::{known_provider, provider_name, KeyCode};
use crate::jobs::JobView;
use crate::model::{FileDiff, StatusEntry};
use crate::text::{index_of_char, is_blank, lemma_index_of_char, trimmed};
use crate::tree::lies_under;
use crate::tree_laws::law_jump_shows;
use vstd::prelude::*;
use vstd::string::*;

verus! {

/// A key dismisses what the last one said: neither an old error nor an old
/// notice shows in what it leads to.
pub proof fn law_key_dismisses(s: AppView, key: KeyCode, shift: bool)
    ensures
        s.pressed(key, shift) == (AppView { error: None, notice: None, ..s }).pressed(key, shift),
{
    reveal(AppView::pressed);
}

/// A conflicted file under a directory keeps all of it from being staged and
/// from being discarded.
pub proof fn law_conflict_blocks_dir(s: AppView, dir: Seq<char>)
    requires
        conflict_under(s.tree.list, dir, 0) is Some,
    ensures
        s.dir_staged(dir).queue == s.queue,
        s.dir_staged(dir).error is Some,
        s.dir_discarded(dir).queue == s.queue,
        s.dir_discarded(dir).error is Some,
{
    reveal(AppView::dir_staged);
    reveal(AppView::dir_discarded);
    reveal(AppView::conflicted);
}

/// Whether a path is that of one of the first `k` files, which lies under a
/// directory and is meant.
pub open spec fn names_picked(
    list: Seq<StatusEntry>,
    dir: Seq<char>,
    pick: Pick,
    k: nat,
    path: Seq<char>,
) -> bool {
    exists|i: int|
        0 <= i < k && (#[trigger] list[i]).path@ == path && lies_under(path, dir) && is_picked(
            list[i].state,
            pick,
        )
}

proof fn lemma_picked(list: Seq<StatusEntry>, dir: Seq<char>, pick: Pick, k: nat)
    requires
        k <= list.len(),
    ensures
        forall|j: int|
            0 <= j < picked(list, dir, pick, k).len() ==> names_picked(
                list,
                dir,
                pick,
                k,
                #[trigger] picked(list, dir, pick, k)[j],
            ),
    decreases k,
{
    if k > 0 {
        lemma_picked(list, dir, pick, (k - 1) as nat);
        let before = picked(list, dir, pick, (k - 1) as nat);
        let all = picked(list, dir, pick, k);
        assert forall|j: int| 0 <= j < all.len() implies names_picked(
            list,
            dir,
            pick,
            k,
            #[trigger] all[j],
        ) by {
            if j < before.len() {
                assert(names_picked(list, dir, pick, (k - 1) as nat, before[j]));
                let i = choose|i: int|
                    0 <= i < k - 1 && (#[trigger] list[i]).path@ == before[j] && lies_under(
                        before[j],
                        dir,
                    ) && is_picked(list[i].state, pick);
                assert(list[i].path@ == all[j]);
            } else {
                assert(list[k - 1].path@ == all[j]);
            }
        }
    }
}

/// Discarding a directory asks for nothing but to discard files that lie
/// under it and are changed.
pub proof fn law_discard_stays_in_dir(s: AppView, dir: Seq<char>, j: int)
    requires
        s.queue.pending.len() <= j < s.dir_discarded(dir).queue.pending.len(),
    ensures
        s.dir_discarded(dir).queue.pending[j] matches JobView::DiscardFile { path }
            && names_picked(s.tree.list, dir, Pick::Changed, s.tree.list.len(), path),
{
    reveal(AppView::dir_discarded);
    reveal(AppView::submitted_all);
    reveal(AppView::conflicted);
    lemma_picked(s.tree.list, dir, Pick::Changed, s.tree.list.len());
    let dirty = s.under(dir, Pick::Changed);
    assert(names_picked(
        s.tree.list,
        dir,
        Pick::Changed,
        s.tree.list.len(),
        dirty[j - s.queue.pending.len()],
    ));
}

/// Staging a directory asks for nothing but to stage files that lie under it
/// and have something to stage, or else to unstage staged ones.
pub proof fn law_stage_stays_in_dir(s: AppView, dir: Seq<char>, j: int)
    requires
        s.queue.pending.len() <= j < s.dir_staged(dir).queue.pending.len(),
    ensures
        (s.dir_staged(dir).queue.pending[j] matches JobView::StageFile { path } && names_picked(
            s.tree.list,
            dir,
            Pick::Stageable,
            s.tree.list.len(),
            path,
        )) || (s.dir_staged(dir).queue.pending[j] matches JobView::UnstageFile { path }
            && names_picked(s.tree.list, dir, Pick::Staged, s.tree.list.len(), path)),
{
    reveal(AppView::dir_staged);
    reveal(AppView::submitted_all);
    reveal(AppView::conflicted);
    lemma_picked(s.tree.list, dir, Pick::Stageable, s.tree.list.len());
    lemma_picked(s.tree.list, dir, Pick::Staged, s.tree.list.len());
    let to_stage = s.under(dir, Pick::Stageable);
    let staged = s.under(dir, Pick::Staged);
    let at = j - s.queue.pending.len();
    if to_stage.len() > 0 {
        assert(names_picked(s.tree.list, dir, Pick::Stageable, s.tree.list.len(), to_stage[at]));
    } else {
        assert(names_picked(s.tree.list, dir, Pick::Staged, s.tree.list.len(), staged[at]));
    }
}

/// A commit message that comes after the commit box was left is not typed
/// anywhere.
pub proof fn law_late_message_is_dropped(s: AppView, text: Seq<char>)
    requires
        s.mode != Mode::Committing,
    ensures
        s.message_arrived(text) == (AppView { generating: false, ..s }),
{
    reveal(AppView::message_arrived);
}

/// Without Shift every character is typed into the commit box.
pub proof fn law_plain_keys_type(s: AppView, c: char)
    requires
        s.mode == Mode::Committing,
    ensures
        s.pressed(KeyCode::Char(c), false).draft == s.draft.inserted(c),
        s.pressed(KeyCode::Char(c), false).queue == s.queue,
        s.pressed(KeyCode::Char(c), false).mode == Mode::Committing,
{
    reveal(AppView::pressed);
    reveal(AppView::key);
    reveal(AppView::modal_key);
    reveal(edited);
}

/// Esc leaves a modal without asking the worker for anything.
pub proof fn law_esc_leaves_modal(s: AppView)
    requires
        s.mode != Mode::Normal,
        s.mode != Mode::FullDiff,
    ensures
        s.pressed(KeyCode::Esc, false).queue == s.queue,
        s.pressed(KeyCode::Esc, false).draft.text.len() == 0,
        s.pressed(KeyCode::Esc, false).mode == (match s.mode {
            Mode::FindFile => s.finder_return,
            Mode::SetUpstream | Mode::SetRemote => s.sync_return,
            _ => Mode::Normal,
        }),
{
    reveal(AppView::pressed);
    reveal(AppView::key);
    reveal(AppView::modal_key);
    reveal(AppView::finder_key);
    reveal(AppView::form_key);
    reveal(AppView::form_cancelled);
    reveal(edited);
}

/// Esc in the diff over the whole screen leaves the selection first, and the
/// diff only then.
pub proof fn law_esc_leaves_visual_first(s: AppView)
    requires
        s.mode == Mode::FullDiff,
    ensures
        s.pressed(KeyCode::Esc, false).viewer.visual is None,
        s.viewer.visual is Some ==> s.pressed(KeyCode::Esc, false).mode == Mode::FullDiff,
        s.viewer.visual is None ==> s.pressed(KeyCode::Esc, false).mode == Mode::Normal,
{
    reveal(AppView::pressed);
    reveal(AppView::key);
    reveal(AppView::full_key);
    reveal(AppView::diff_closed);
}

/// Going round the panels stays in the left rail, and comes back to where it
/// began.
pub proof fn law_focus_cycles(s: AppView)
    ensures
        s.focus_cycled().focus != Focus::Diff,
        s.focus != Focus::Diff ==> s.focus_cycled().focus_cycled().focus_cycled().focus_cycled().focus
            == s.focus,
{
    reveal(AppView::focus_cycled);
    reveal(AppView::branches_loaded);
    reveal(AppView::log_loaded);
    reveal(AppView::stash_loaded);
    reveal(AppView::submitted);
}

/// A push goes to the worker only where the branch has an upstream; without
/// one, or without any remote, a modal asks first.
pub proof fn law_push_asks_first(s: AppView)
    requires
        s.status is Some,
        s.queue.closed is None,
    ensures
        s.sync matches Some(sync) ==> {
            &&& sync.remotes@.len() == 0 ==> s.pushed().mode == Mode::SetRemote
                && s.pushed().queue == s.queue
            &&& sync.remotes@.len() > 0 && sync.upstream is None ==> s.pushed().mode
                == Mode::SetUpstream && s.pushed().queue == s.queue
            &&& sync.remotes@.len() > 0 && sync.upstream is Some ==> s.pushed().mode == s.mode
                && s.pushed().queue.pending == s.queue.pending.push(
                (JobView::Push {
                    remote: remote_of(sync.upstream->0@),
                    branch: s.status->0.branch@,
                    set_upstream: false,
                }),
            )
        },
{
    reveal(AppView::pushed);
    reveal(AppView::submitted);
}

/// An upstream is its remote and its branch with a slash between them, and a
/// remote holds no slash.
pub proof fn law_upstream_splits(upstream: Seq<char>)
    requires
        upstream.contains('/'),
    ensures
        upstream == remote_of(upstream).push('/') + branch_of(upstream),
        !remote_of(upstream).contains('/'),
{
    lemma_index_of_char(upstream, 0, '/');
    let at = index_of_char(upstream, 0, '/');
    let i = choose|i: int| 0 <= i < upstream.len() && upstream[i] == '/';
    assert(upstream[i] == '/');
    assert(at < upstream.len());
    assert(upstream =~= remote_of(upstream).push('/') + branch_of(upstream));
}

/// A diff of a file that is no longer looked at changes nothing.
pub proof fn law_stale_diff_is_dropped(s: AppView, d: FileDiff)
    requires
        path_of(s.diff_for) != Some(d.path@),
    ensures
        s.diff_arrived(d) == s,
{
    reveal(AppView::diff_arrived);
}

/// The diff of the selected file is asked for once: asking again adds nothing.
pub proof fn law_diff_is_asked_for_once(s: AppView)
    ensures
        s.diff_loaded().diff_loaded() == s.diff_loaded(),
{
    reveal(AppView::diff_loaded);
    reveal(AppView::submitted);
}

/// The text of a Markdown file is asked for once.
pub proof fn law_markdown_is_asked_for_once(s: AppView)
    ensures
        s.markdown_loaded().markdown_loaded() == s.markdown_loaded(),
{
    reveal(AppView::markdown_loaded);
    reveal(AppView::submitted);
}

/// No commit is made, no branch created and nothing stashed under a blank
/// name.
pub proof fn law_blank_draft_submits_nothing(s: AppView)
    requires
        is_blank(s.draft.text),
    ensures
        s.commit_submitted().queue == s.queue,
        s.branch_submitted() == s,
        s.stash_submitted() == s,
{
    reveal(AppView::commit_submitted);
    reveal(AppView::branch_submitted);
    reveal(AppView::stash_submitted);
}

/// While a message is being written nothing is committed, and none is asked
/// for again.
pub proof fn law_generating_blocks_commit(s: AppView)
    requires
        s.generating,
    ensures
        s.commit_submitted().queue == s.queue,
        s.generation_begun() == s,
{
    reveal(AppView::commit_submitted);
    reveal(AppView::generation_begun);
}

/// A job of a modal reaches the worker exactly when the modal closes.
pub proof fn law_modal_closes_with_its_job(s: AppView, job: JobView)
    ensures
        s.queue.closed is None ==> s.modal_submitted(job).queue.pending == s.queue.pending.push(job)
            && s.modal_submitted(job).mode == Mode::Normal,
        s.queue.closed is Some ==> s.modal_submitted(job).queue == s.queue && s.modal_submitted(
            job,
        ).mode == s.mode && s.modal_submitted(job).error == s.queue.closed,
{
    reveal(AppView::modal_submitted);
    reveal(AppView::submitted);
}

/// The finder selects the match that was highlighted, in sight and with its
/// diff asked for, and goes back to where it was opened from.
pub proof fn law_finder_selects(s: AppView, index: nat)
    requires
        s.found().len() > 0,
        index == s.found()[crate::tree::clamped(s.finder_selected, s.found().len()) as int],
        index < s.tree.list.len(),
    ensures
        s.finder_submitted().tree.file() == Some(s.tree.list[index as int]),
        s.finder_submitted().tree.header() is None,
        s.finder_submitted().mode == s.finder_return,
        path_of(s.finder_submitted().diff_for) == Some(s.tree.list[index as int].path@),
{
    reveal(AppView::finder_submitted);
    reveal(AppView::diff_loaded);
    reveal(AppView::submitted);
    law_jump_shows(s.tree, index);
}

/// Opening the form and saving it at once keeps the settings, if they are such
/// as the form can hold: a known provider in lower case, a model, and nothing
/// with white space around it.
pub proof fn law_form_keeps_settings(s: AppView)
    ensures
        ({
            let llm = s.llm;
            &&& known_provider(llm.provider)
            &&& provider_name(llm.provider) == llm.provider
            &&& trimmed(llm.model) == llm.model
            &&& llm.model.len() > 0
            &&& trimmed(llm.api_key) == llm.api_key
            &&& (llm.base_url matches Some(url) ==> trimmed(url) == url && url.len() > 0)
        }) ==> s.form_opened().form_saved().llm == s.llm,
{
    reveal(AppView::form_opened);
    reveal(AppView::form_saved);
    reveal(AppView::form_done);
    reveal(AppView::form_cancelled);
    assert(trimmed(Seq::<char>::empty()) =~= Seq::<char>::empty());
    let opened = s.form_opened();
    let kept = opened.form.kept(opened.draft);
    assert(kept.rows[0].0 == s.llm.provider);
    assert(kept.rows[1].0 == s.llm.model);
    assert(kept.rows[2].0 == s.llm.api_key);
}

/// Settings that the form does not take are not saved, and the form stays
/// open.
pub proof fn law_bad_provider_is_refused(s: AppView)
    ensures
        !known_provider(settings_of(s.form.kept(s.draft)).provider) ==> s.form_saved().llm == s.llm
            && s.form_saved().mode == s.mode && s.form_saved().error is Some,
{
    reveal(AppView::form_saved);
}

/// After a change of the repository its status is asked for first and its
/// upstream last.
pub proof fn law_mutation_refreshes(s: AppView)
    requires
        s.queue.closed is None,
    ensures
        s.mutation_done().queue.pending.len() >= s.queue.pending.len() + 2,
        s.mutation_done().queue.pending[s.queue.pending.len() as int] == JobView::RefreshStatus,
        s.mutation_done().queue.pending.last() == JobView::LoadSync,
        s.mutation_done().syncing is None,
{
    reveal(AppView::mutation_done);
    let a = AppView { syncing: None, ..s }.submitted(JobView::RefreshStatus);
    assert(a.queue.pending == s.queue.pending.push(JobView::RefreshStatus) && a.queue.closed is None
        && a.syncing is None) by {
        reveal(AppView::submitted);
    }
    lemma_diff_reload_extends(a);
    let b = a.diff_reloaded();
    lemma_reloads_extend(b);
    let c = b.branches_reloaded().log_reloaded().stash_reloaded();
    assert(c.queue.pending[s.queue.pending.len() as int] == a.queue.pending[
        s.queue.pending.len() as int]);
    reveal(AppView::submitted);
}

/// Whether the jobs of one app go on with more jobs than another's.
spec fn extends(a: AppView, b: AppView) -> bool {
    &&& b.queue.closed == a.queue.closed
    &&& b.syncing == a.syncing
    &&& a.queue.pending.len() <= b.queue.pending.len()
    &&& b.queue.pending.take(a.queue.pending.len() as int) == a.queue.pending
}

proof fn lemma_diff_reload_extends(s: AppView)
    ensures
        extends(s, s.diff_reloaded()),
        forall|i: int|
            0 <= i < s.queue.pending.len() ==> s.diff_reloaded().queue.pending[i]
                == s.queue.pending[i],
{
    reveal(AppView::diff_reloaded);
    reveal(AppView::markdown_reloaded);
    reveal(AppView::markdown_loaded);
    reveal(AppView::submitted);
    assert(s.diff_reloaded().queue.pending.take(s.queue.pending.len() as int)
        =~= s.queue.pending);
}

proof fn lemma_reloads_extend(s: AppView)
    ensures
        ({
            let r = s.branches_reloaded().log_reloaded().stash_reloaded();
            &&& extends(s, r)
            &&& forall|i: int|
                0 <= i < s.queue.pending.len() ==> r.queue.pending[i] == s.queue.pending[i]
        }),
{
    reveal(AppView::branches_reloaded);
    reveal(AppView::log_reloaded);
    reveal(AppView::stash_reloaded);
    reveal(AppView::submitted);
    let r = s.branches_reloaded().log_reloaded().stash_reloaded();
    assert(r.queue.pending.take(s.queue.pending.len() as int) =~= s.queue.pending);
}

} // verus!
