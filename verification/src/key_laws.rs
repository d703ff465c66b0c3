//! What the keys are for: what each of them asks the worker to do, and what it
//! leaves as it is.

use crate::app_events::edited;
use crate::app_model::{any_change, found_files, AppView, Focus, Mode, Pick};
use crate::config::{KeyCode, KeysView};
use crate::draft::DraftView;
use crate::jobs::{JobView, QueueView};
use crate::model::{FileState, StatusEntry};
use crate::text::{is_blank, trimmed};
use crate::tree::lies_under;
use crate::viewer::ViewerView;
use vstd::prelude::*;
use vstd::string::*;

verus! {

/// What a key can be bound to.
pub enum Action {
    NavDown,
    NavUp,
    Stage,
    Discard,
    Commit,
    Refresh,
    Quit,
    FocusNext,
    FocusStatus,
    FocusBranches,
    FocusLog,
    FocusStash,
    FocusDiff,
    ScrollUp,
    ScrollDown,
    BranchNew,
    BranchDelete,
    Checkout,
    StashPop,
    StashPush,
    StashDrop,
    FindFiles,
    ProjectNext,
    ProjectPrev,
    ProjectOpen,
    ProjectClose,
    SyncPull,
    SyncPush,
    LlmSettings,
    ToggleMarkdown,
}

/// Whether a key is bound to an action.
pub open spec fn is_bound(keys: KeysView, key: KeyCode, action: Action) -> bool {
    match action {
        Action::NavDown => keys.nav_down.contains(key),
        Action::NavUp => keys.nav_up.contains(key),
        Action::Stage => keys.stage.contains(key),
        Action::Discard => keys.discard.contains(key),
        Action::Commit => keys.commit.contains(key),
        Action::Refresh => keys.refresh.contains(key),
        Action::Quit => keys.quit.contains(key),
        Action::FocusNext => keys.focus_next.contains(key),
        Action::FocusStatus => keys.focus_status.contains(key),
        Action::FocusBranches => keys.focus_branches.contains(key),
        Action::FocusLog => keys.focus_log.contains(key),
        Action::FocusStash => keys.focus_stash.contains(key),
        Action::FocusDiff => keys.focus_diff.contains(key),
        Action::ScrollUp => keys.scroll_up.contains(key),
        Action::ScrollDown => keys.scroll_down.contains(key),
        Action::BranchNew => keys.branch_new.contains(key),
        Action::BranchDelete => keys.branch_delete.contains(key),
        Action::Checkout => keys.checkout.contains(key),
        Action::StashPop => keys.stash_pop.contains(key),
        Action::StashPush => keys.stash_push.contains(key),
        Action::StashDrop => keys.stash_drop.contains(key),
        Action::FindFiles => keys.find_files.contains(key),
        Action::ProjectNext => keys.project_next.contains(key),
        Action::ProjectPrev => keys.project_prev.contains(key),
        Action::ProjectOpen => keys.project_open.contains(key),
        Action::ProjectClose => keys.project_close.contains(key),
        Action::SyncPull => keys.sync_pull.contains(key),
        Action::SyncPush => keys.sync_push.contains(key),
        Action::LlmSettings => keys.llm_settings.contains(key),
        Action::ToggleMarkdown => keys.toggle_markdown_preview.contains(key),
    }
}

/// Whether an action belongs to the panel in focus: branches and stash entries
/// have keys of their own.
pub open spec fn is_live(action: Action, focus: Focus) -> bool {
    match action {
        Action::BranchNew | Action::BranchDelete | Action::Checkout => focus == Focus::Branches,
        Action::StashPush | Action::StashPop | Action::StashDrop => focus == Focus::Stash,
        _ => true,
    }
}

/// Whether a key has a meaning of its own while a panel is in focus, whatever it
/// is bound to.
pub open spec fn is_fixed(key: KeyCode, focus: Focus) -> bool {
    match key {
        KeyCode::Esc => true,
        KeyCode::Left | KeyCode::Right => focus == Focus::Status,
        KeyCode::Enter => focus == Focus::Status || focus == Focus::Diff,
        KeyCode::Home | KeyCode::End => focus == Focus::Diff,
        KeyCode::Char(c) => focus == Focus::Diff && (c == 'h' || c == 'l' || c == '0' || c == 'v'
            || c == 'V' || c == 'y'),
        _ => false,
    }
}

/// Whether the panels are shown and a key is there for one action alone.
pub open spec fn means(s: AppView, key: KeyCode, action: Action) -> bool {
    &&& s.mode == Mode::Normal
    &&& is_bound(s.keys, key, action)
    &&& is_live(action, s.focus)
    &&& !is_fixed(key, s.focus)
    &&& forall|other: Action|
        #[trigger] is_bound(s.keys, key, other) && is_live(other, s.focus) ==> other == action
}

/// Whether a key has a meaning of its own while the diff is over the whole
/// screen.
pub open spec fn is_fixed_in_full(key: KeyCode) -> bool {
    match key {
        KeyCode::Esc | KeyCode::Up | KeyCode::Down | KeyCode::Left | KeyCode::Right
        | KeyCode::Home | KeyCode::End => true,
        KeyCode::Char(c) => c == 'h' || c == 'l' || c == '0' || c == 'v' || c == 'V' || c == 'y'
            || c == 'J' || c == 'K',
        _ => false,
    }
}

/// Whether the diff is over the whole screen and a key is there for one action
/// alone.
pub open spec fn means_in_full(s: AppView, key: KeyCode, action: Action) -> bool {
    &&& s.mode == Mode::FullDiff
    &&& is_bound(s.keys, key, action)
    &&& !is_fixed_in_full(key)
    &&& forall|other: Action| #[trigger] is_bound(s.keys, key, other) ==> other == action
}

/// The app with no message of an earlier key.
pub open spec fn calm(s: AppView) -> AppView {
    AppView { error: None, notice: None, ..s }
}

/// The app with no earlier message and jobs more for the worker, and else as it
/// was.
pub open spec fn asking(s: AppView, jobs: Seq<JobView>) -> AppView {
    AppView {
        queue: QueueView { pending: s.queue.pending + jobs, closed: s.queue.closed },
        ..calm(s)
    }
}

/// The app with an error, and else as it was.
pub open spec fn erring(s: AppView, message: Seq<char>) -> AppView {
    AppView { error: Some(message), ..calm(s) }
}

/// The app with a job more for the worker, or with the reason why it takes none.
pub open spec fn asking_one(s: AppView, job: JobView) -> AppView {
    match s.queue.closed {
        None => asking(s, seq![job]),
        Some(why) => erring(s, why),
    }
}

proof fn lemma_submitted(s: AppView, job: JobView)
    ensures
        calm(s).submitted(job) == asking_one(s, job),
{
    reveal(AppView::submitted);
    assert(s.queue.pending.push(job) =~= s.queue.pending + seq![job]);
}

proof fn lemma_submitted_all(s: AppView, jobs: Seq<JobView>)
    ensures
        calm(s).submitted_all(jobs) == (if jobs.len() == 0 {
            calm(s)
        } else {
            match s.queue.closed {
                None => asking(s, jobs),
                Some(why) => erring(s, why),
            }
        }),
{
    reveal(AppView::submitted_all);
}

/// A key that is there for one action alone is bound to no other.
pub proof fn lemma_no_other(s: AppView, key: KeyCode, action: Action)
    requires
        forall|other: Action|
            #[trigger] is_bound(s.keys, key, other) && is_live(other, s.focus) ==> other == action,
    ensures
        s.keys.nav_down.contains(key) ==> action == Action::NavDown,
        s.keys.nav_up.contains(key) ==> action == Action::NavUp,
        s.keys.stage.contains(key) ==> action == Action::Stage,
        s.keys.discard.contains(key) ==> action == Action::Discard,
        s.keys.commit.contains(key) ==> action == Action::Commit,
        s.keys.refresh.contains(key) ==> action == Action::Refresh,
        s.keys.quit.contains(key) ==> action == Action::Quit,
        s.keys.focus_next.contains(key) ==> action == Action::FocusNext,
        s.keys.focus_status.contains(key) ==> action == Action::FocusStatus,
        s.keys.focus_branches.contains(key) ==> action == Action::FocusBranches,
        s.keys.focus_log.contains(key) ==> action == Action::FocusLog,
        s.keys.focus_stash.contains(key) ==> action == Action::FocusStash,
        s.keys.focus_diff.contains(key) ==> action == Action::FocusDiff,
        s.keys.scroll_up.contains(key) ==> action == Action::ScrollUp,
        s.keys.scroll_down.contains(key) ==> action == Action::ScrollDown,
        s.focus == Focus::Branches && s.keys.branch_new.contains(key) ==> action == Action::BranchNew,
        s.focus == Focus::Branches && s.keys.branch_delete.contains(key) ==> action == Action::BranchDelete,
        s.focus == Focus::Branches && s.keys.checkout.contains(key) ==> action == Action::Checkout,
        s.focus == Focus::Stash && s.keys.stash_pop.contains(key) ==> action == Action::StashPop,
        s.focus == Focus::Stash && s.keys.stash_push.contains(key) ==> action == Action::StashPush,
        s.focus == Focus::Stash && s.keys.stash_drop.contains(key) ==> action == Action::StashDrop,
        s.keys.find_files.contains(key) ==> action == Action::FindFiles,
        s.keys.project_next.contains(key) ==> action == Action::ProjectNext,
        s.keys.project_prev.contains(key) ==> action == Action::ProjectPrev,
        s.keys.project_open.contains(key) ==> action == Action::ProjectOpen,
        s.keys.project_close.contains(key) ==> action == Action::ProjectClose,
        s.keys.sync_pull.contains(key) ==> action == Action::SyncPull,
        s.keys.sync_push.contains(key) ==> action == Action::SyncPush,
        s.keys.llm_settings.contains(key) ==> action == Action::LlmSettings,
        s.keys.toggle_markdown_preview.contains(key) ==> action == Action::ToggleMarkdown,
{
    assert(is_bound(s.keys, key, Action::NavDown) == s.keys.nav_down.contains(key));
    assert(is_bound(s.keys, key, Action::NavUp) == s.keys.nav_up.contains(key));
    assert(is_bound(s.keys, key, Action::Stage) == s.keys.stage.contains(key));
    assert(is_bound(s.keys, key, Action::Discard) == s.keys.discard.contains(key));
    assert(is_bound(s.keys, key, Action::Commit) == s.keys.commit.contains(key));
    assert(is_bound(s.keys, key, Action::Refresh) == s.keys.refresh.contains(key));
    assert(is_bound(s.keys, key, Action::Quit) == s.keys.quit.contains(key));
    assert(is_bound(s.keys, key, Action::FocusNext) == s.keys.focus_next.contains(key));
    assert(is_bound(s.keys, key, Action::FocusStatus) == s.keys.focus_status.contains(key));
    assert(is_bound(s.keys, key, Action::FocusBranches) == s.keys.focus_branches.contains(key));
    assert(is_bound(s.keys, key, Action::FocusLog) == s.keys.focus_log.contains(key));
    assert(is_bound(s.keys, key, Action::FocusStash) == s.keys.focus_stash.contains(key));
    assert(is_bound(s.keys, key, Action::FocusDiff) == s.keys.focus_diff.contains(key));
    assert(is_bound(s.keys, key, Action::ScrollUp) == s.keys.scroll_up.contains(key));
    assert(is_bound(s.keys, key, Action::ScrollDown) == s.keys.scroll_down.contains(key));
    assert(is_bound(s.keys, key, Action::BranchNew) == s.keys.branch_new.contains(key));
    assert(is_bound(s.keys, key, Action::BranchDelete) == s.keys.branch_delete.contains(key));
    assert(is_bound(s.keys, key, Action::Checkout) == s.keys.checkout.contains(key));
    assert(is_bound(s.keys, key, Action::StashPop) == s.keys.stash_pop.contains(key));
    assert(is_bound(s.keys, key, Action::StashPush) == s.keys.stash_push.contains(key));
    assert(is_bound(s.keys, key, Action::StashDrop) == s.keys.stash_drop.contains(key));
    assert(is_bound(s.keys, key, Action::FindFiles) == s.keys.find_files.contains(key));
    assert(is_bound(s.keys, key, Action::ProjectNext) == s.keys.project_next.contains(key));
    assert(is_bound(s.keys, key, Action::ProjectPrev) == s.keys.project_prev.contains(key));
    assert(is_bound(s.keys, key, Action::ProjectOpen) == s.keys.project_open.contains(key));
    assert(is_bound(s.keys, key, Action::ProjectClose) == s.keys.project_close.contains(key));
    assert(is_bound(s.keys, key, Action::SyncPull) == s.keys.sync_pull.contains(key));
    assert(is_bound(s.keys, key, Action::SyncPush) == s.keys.sync_push.contains(key));
    assert(is_bound(s.keys, key, Action::LlmSettings) == s.keys.llm_settings.contains(key));
    assert(is_bound(s.keys, key, Action::ToggleMarkdown) == s.keys.toggle_markdown_preview.contains(key));
}

/// A key of the panels for one action is up to what does something with the
/// selection, unless it moves within or between the panels.
pub proof fn lemma_action(s: AppView, key: KeyCode, action: Action)
    requires
        means(s, key, action),
        action != Action::FocusNext,
        action != Action::FocusStatus,
        action != Action::FocusBranches,
        action != Action::FocusLog,
        action != Action::FocusStash,
        action != Action::FocusDiff,
        action != Action::NavDown,
        action != Action::NavUp,
    ensures
        s.pressed(key, false) == calm(s).action_key(key),
{
    lemma_no_other(s, key, action);
    reveal(AppView::pressed);
    reveal(AppView::key);
    reveal(AppView::normal_key);
    reveal(AppView::move_key);
}

/// Whether a file lies in a directory or below it.
pub open spec fn is_below(path: Seq<char>, dir: Seq<char>) -> bool {
    &&& dir.len() < path.len()
    &&& path.take(dir.len() as int) == dir
    &&& path[dir.len() as int] == '/'
}

proof fn lemma_below(path: Seq<char>, dir: Seq<char>)
    ensures
        lies_under(path, dir) == is_below(path, dir),
{
    let n = dir.len() as int;
    if lies_under(path, dir) {
        assert(path.take(n + 1) == dir.push('/'));
        assert(path.take(n + 1)[n] == '/');
        assert(path.take(n) =~= path.take(n + 1).take(n));
        assert(dir.push('/').take(n) =~= dir);
    }
    if is_below(path, dir) {
        assert(path.take(n + 1) =~= dir.push('/'));
    }
}

/// Whether there is something to stage in a file: it is new, or changed since it
/// was last staged.
pub open spec fn has_unstaged(state: FileState) -> bool {
    state == FileState::Unstaged || state == FileState::Untracked || state
        == FileState::BothStagedAndUnstaged
}

/// Space on a file stages it, whatever is not staged of it; it unstages the file
/// exactly when all of it is staged. Nothing else changes.
pub proof fn law_space_stages_file(s: AppView, key: KeyCode, file: StatusEntry)
    requires
        means(s, key, Action::Stage),
        s.focus == Focus::Status,
        s.tree.header() is None,
        s.tree.file() == Some(file),
    ensures
        has_unstaged(file.state) ==> s.pressed(key, false) == asking_one(
            s,
            JobView::StageFile { path: file.path@ },
        ),
        file.state == FileState::Staged ==> s.pressed(key, false) == asking_one(
            s,
            JobView::UnstageFile { path: file.path@ },
        ),
        file.state == FileState::Conflicted || file.state == FileState::Clean ==> {
            &&& s.pressed(key, false).queue == s.queue
            &&& s.pressed(key, false).error is Some
        },
{
    lemma_action(s, key, Action::Stage);
    lemma_no_other(s, key, Action::Stage);
    reveal(AppView::action_key);
    reveal(AppView::stage_toggled);
    reveal(AppView::file_staged);
    reveal(AppView::conflicted);
    lemma_submitted(s, JobView::StageFile { path: file.path@ });
    lemma_submitted(s, JobView::UnstageFile { path: file.path@ });
}

/// The files of a list below a directory that are in one of some states.
pub open spec fn files_below(
    list: Seq<StatusEntry>,
    dir: Seq<char>,
    states: Set<FileState>,
) -> Seq<StatusEntry> {
    list.filter(|f: StatusEntry| is_below(f.path@, dir) && states.contains(f.state))
}

/// The states in which a file has something to stage.
pub open spec fn unstaged_states() -> Set<FileState> {
    Set::empty().insert(FileState::Unstaged).insert(FileState::Untracked).insert(
        FileState::BothStagedAndUnstaged,
    )
}

/// The states in which a file differs from the last commit and can be given up.
pub open spec fn dirty_states() -> Set<FileState> {
    unstaged_states().insert(FileState::Staged)
}

/// Whether a file below a directory is conflicted.
pub open spec fn has_conflict(list: Seq<StatusEntry>, dir: Seq<char>) -> bool {
    exists|i: int|
        0 <= i < list.len() && is_below((#[trigger] list[i]).path@, dir) && list[i].state
            == FileState::Conflicted
}

proof fn lemma_no_conflict(list: Seq<StatusEntry>, dir: Seq<char>, i: int)
    requires
        0 <= i <= list.len(),
    ensures
        crate::app_model::conflict_under(list, dir, i) is Some <==> exists|k: int|
            i <= k < list.len() && is_below((#[trigger] list[k]).path@, dir) && list[k].state
                == FileState::Conflicted,
    decreases list.len() - i,
{
    if i < list.len() {
        lemma_below(list[i].path@, dir);
        lemma_no_conflict(list, dir, i + 1);
        if crate::app_model::conflict_under(list, dir, i + 1) is Some {
            let k = choose|k: int|
                i + 1 <= k < list.len() && is_below((#[trigger] list[k]).path@, dir)
                    && list[k].state == FileState::Conflicted;
            assert(is_below(list[k].path@, dir));
        }
    }
}

/// Which states each choice of files of a directory is for, where none of them
/// is conflicted.
proof fn lemma_picked_are_below(
    list: Seq<StatusEntry>,
    dir: Seq<char>,
    pick: Pick,
    states: Set<FileState>,
    k: nat,
)
    requires
        k <= list.len(),
        !has_conflict(list, dir),
        forall|state: FileState|
            state != FileState::Conflicted ==> (#[trigger] crate::app_model::is_picked(
                state,
                pick,
            ) == states.contains(state)),
        !states.contains(FileState::Conflicted),
    ensures
        crate::app_model::picked(list, dir, pick, k) == files_below(
            list.take(k as int),
            dir,
            states,
        ).map_values(|f: StatusEntry| f.path@),
    decreases k,
{
    let meant = |f: StatusEntry| is_below(f.path@, dir) && states.contains(f.state);
    reveal(Seq::filter);
    if k == 0 {
        assert(list.take(0) =~= Seq::empty());
        assert(files_below(list.take(0), dir, states) =~= Seq::empty());
        assert(crate::app_model::picked(list, dir, pick, k) =~= files_below(
            list.take(0),
            dir,
            states,
        ).map_values(|f: StatusEntry| f.path@));
    } else {
        lemma_picked_are_below(list, dir, pick, states, (k - 1) as nat);
        let f = list[k - 1];
        lemma_below(f.path@, dir);
        assert(list.take(k as int).drop_last() =~= list.take(k - 1));
        assert(list.take(k as int).last() == f);
        let before = files_below(list.take(k - 1), dir, states);
        let after = files_below(list.take(k as int), dir, states);
        assert(after == if meant(f) {
            before.push(f)
        } else {
            before
        });
        if is_below(f.path@, dir) {
            assert(f.state != FileState::Conflicted);
            assert(crate::app_model::is_picked(f.state, pick) == states.contains(f.state));
        }
        assert(crate::app_model::picked(list, dir, pick, k) =~= after.map_values(
            |f: StatusEntry| f.path@,
        ));
    }
}

/// Space on a directory stages every file below it that has something to stage,
/// in their order and no other file. Only where there is none it unstages the
/// staged ones. A conflict below it keeps it from all that.
pub proof fn law_space_stages_directory(s: AppView, key: KeyCode, dir: Seq<char>)
    requires
        means(s, key, Action::Stage),
        s.focus == Focus::Status,
        s.tree.header() == Some(dir),
        s.queue.closed is None,
    ensures
        ({
            let todo = files_below(s.tree.list, dir, unstaged_states());
            let done = files_below(s.tree.list, dir, Set::empty().insert(FileState::Staged));
            let after = s.pressed(key, false);
            if has_conflict(s.tree.list, dir) {
                after.queue == s.queue && after.error is Some
            } else if todo.len() > 0 {
                after == asking(
                    s,
                    todo.map_values(|f: StatusEntry| JobView::StageFile { path: f.path@ }),
                )
            } else if done.len() > 0 {
                after == asking(
                    s,
                    done.map_values(|f: StatusEntry| JobView::UnstageFile { path: f.path@ }),
                )
            } else {
                after.queue == s.queue && after.error is Some
            }
        }),
{
    let list = s.tree.list;
    lemma_action(s, key, Action::Stage);
    lemma_no_other(s, key, Action::Stage);
    lemma_no_conflict(list, dir, 0);
    reveal(AppView::action_key);
    reveal(AppView::stage_toggled);
    reveal(AppView::dir_staged);
    reveal(AppView::conflicted);
    if !has_conflict(list, dir) {
        let staged = Set::empty().insert(FileState::Staged);
        assert(list.take(list.len() as int) =~= list);
        lemma_picked_are_below(list, dir, Pick::Stageable, unstaged_states(), list.len());
        lemma_picked_are_below(list, dir, Pick::Staged, staged, list.len());
        let todo = files_below(list, dir, unstaged_states());
        let done = files_below(list, dir, staged);
        let stage = todo.map_values(|f: StatusEntry| JobView::StageFile { path: f.path@ });
        let unstage = done.map_values(|f: StatusEntry| JobView::UnstageFile { path: f.path@ });
        assert(s.under(dir, Pick::Stageable).map_values(
            |path: Seq<char>| JobView::StageFile { path },
        ) =~= stage);
        assert(s.under(dir, Pick::Staged).map_values(
            |path: Seq<char>| JobView::UnstageFile { path },
        ) =~= unstage);
        lemma_submitted_all(s, stage);
        lemma_submitted_all(s, unstage);
    }
}

/// Discarding a file gives up its changes, staged or not; an unchanged file and
/// a conflicted one stay as they are.
pub proof fn law_discard_key_on_file(s: AppView, key: KeyCode, file: StatusEntry)
    requires
        means(s, key, Action::Discard),
        s.focus == Focus::Status,
        s.tree.header() is None,
        s.tree.file() == Some(file),
    ensures
        dirty_states().contains(file.state) ==> s.pressed(key, false) == asking_one(
            s,
            JobView::DiscardFile { path: file.path@ },
        ),
        !dirty_states().contains(file.state) ==> s.pressed(key, false).queue == s.queue
            && s.pressed(key, false).error is Some,
{
    lemma_action(s, key, Action::Discard);
    lemma_no_other(s, key, Action::Discard);
    reveal(AppView::action_key);
    reveal(AppView::discarded);
    reveal(AppView::file_discarded);
    reveal(AppView::conflicted);
    lemma_submitted(s, JobView::DiscardFile { path: file.path@ });
}

/// Discarding a directory gives up the changes of every changed file below it
/// and of no other.
pub proof fn law_discard_key_on_directory(s: AppView, key: KeyCode, dir: Seq<char>)
    requires
        means(s, key, Action::Discard),
        s.focus == Focus::Status,
        s.tree.header() == Some(dir),
        s.queue.closed is None,
    ensures
        ({
            let dirty = files_below(s.tree.list, dir, dirty_states());
            let after = s.pressed(key, false);
            if has_conflict(s.tree.list, dir) || dirty.len() == 0 {
                after.queue == s.queue && after.error is Some
            } else {
                after == asking(
                    s,
                    dirty.map_values(|f: StatusEntry| JobView::DiscardFile { path: f.path@ }),
                )
            }
        }),
{
    let list = s.tree.list;
    lemma_action(s, key, Action::Discard);
    lemma_no_other(s, key, Action::Discard);
    lemma_no_conflict(list, dir, 0);
    reveal(AppView::action_key);
    reveal(AppView::discarded);
    reveal(AppView::dir_discarded);
    reveal(AppView::conflicted);
    if !has_conflict(list, dir) {
        assert(list.take(list.len() as int) =~= list);
        lemma_picked_are_below(list, dir, Pick::Changed, dirty_states(), list.len());
        let dirty = files_below(list, dir, dirty_states());
        let jobs = dirty.map_values(|f: StatusEntry| JobView::DiscardFile { path: f.path@ });
        assert(s.under(dir, Pick::Changed).map_values(
            |path: Seq<char>| JobView::DiscardFile { path },
        ) =~= jobs);
        lemma_submitted_all(s, jobs);
    }
}

/// The keys for files do nothing while another panel is in focus.
pub proof fn law_file_keys_need_the_files(s: AppView, key: KeyCode, action: Action)
    requires
        action == Action::Stage || action == Action::Discard,
        means(s, key, action),
        s.focus != Focus::Status,
    ensures
        s.pressed(key, false) == calm(s),
{
    lemma_action(s, key, action);
    lemma_no_other(s, key, action);
    reveal(AppView::action_key);
}

/// The key to stage, over the whole screen, stages the hunk that is selected in
/// the file that is shown, if it holds a change that is not staged yet.
pub proof fn law_space_stages_hunk(s: AppView, key: KeyCode)
    requires
        means_in_full(s, key, Action::Stage),
    ensures
        ({
            let after = s.pressed(key, false);
            if s.diff_for matches Some((_, false)) && s.viewer.diff is Some && s.viewer.hunk
                < s.viewer.diff->0.hunks@.len() && any_change(
                s.viewer.diff->0.hunks@[s.viewer.hunk as int].lines@,
            ) {
                after == asking_one(
                    s,
                    JobView::StageHunk { path: (s.diff_for->0).0, hunk_index: s.viewer.hunk },
                )
            } else {
                after.queue == s.queue && after.error is Some
            }
        }),
{
    lemma_full(s, key, Action::Stage);
    reveal(AppView::pressed);
    reveal(AppView::key);
    reveal(AppView::full_key);
    reveal(AppView::hunk_staged);
    if let Some((path, _)) = s.diff_for {
        lemma_submitted(s, JobView::StageHunk { path, hunk_index: s.viewer.hunk });
    }
}

/// A hunk holds a change exactly when one of its lines is added or deleted.
pub proof fn law_hunk_changes(lines: Seq<crate::model::DiffLine>)
    ensures
        any_change(lines) <==> !(forall|i: int|
            0 <= i < lines.len() ==> (#[trigger] lines[i]).kind == crate::model::LineKind::Context
                || lines[i].kind == crate::model::LineKind::HunkHeader),
{
    if any_change(lines) {
        let i = choose|i: int|
            0 <= i < lines.len() && crate::app_model::is_change((#[trigger] lines[i]).kind);
        assert(lines[i].kind != crate::model::LineKind::Context);
    }
}

/// The key to discard, over the whole screen, gives up the changes of the file
/// that is shown, not of the one that is selected.
pub proof fn law_discard_in_full(s: AppView, key: KeyCode, i: int)
    requires
        means_in_full(s, key, Action::Discard),
        0 <= i < s.tree.list.len(),
        s.diff_for matches Some((path, _)) && s.tree.list[i].path@ == path,
        forall|k: int|
            0 <= k < i ==> (#[trigger] s.tree.list[k]).path@ != s.tree.list[i].path@,
    ensures
        dirty_states().contains(s.tree.list[i].state) ==> s.pressed(key, false) == asking_one(
            s,
            JobView::DiscardFile { path: s.tree.list[i].path@ },
        ),
        !dirty_states().contains(s.tree.list[i].state) ==> s.pressed(key, false).queue == s.queue
            && s.pressed(key, false).error is Some,
{
    lemma_full(s, key, Action::Discard);
    lemma_entry(s.tree.list, s.tree.list[i].path@, 0, i);
    reveal(AppView::pressed);
    reveal(AppView::key);
    reveal(AppView::full_key);
    reveal(AppView::loaded_discarded);
    reveal(AppView::file_discarded);
    reveal(AppView::conflicted);
    lemma_submitted(s, JobView::DiscardFile { path: s.tree.list[i].path@ });
}

proof fn lemma_entry(list: Seq<StatusEntry>, path: Seq<char>, from: int, i: int)
    requires
        0 <= from <= i < list.len(),
        list[i].path@ == path,
        forall|k: int| 0 <= k < i ==> (#[trigger] list[k]).path@ != path,
    ensures
        crate::app_model::entry_of(list, path, from) == Some(list[i]),
    decreases i - from,
{
    if from < i {
        lemma_entry(list, path, from + 1, i);
    }
}

/// A key that is there for one action alone, over the whole screen.
pub proof fn lemma_full(s: AppView, key: KeyCode, action: Action)
    requires
        means_in_full(s, key, action),
    ensures
        s.keys.stage.contains(key) ==> action == Action::Stage,
        s.keys.discard.contains(key) ==> action == Action::Discard,
        s.keys.nav_down.contains(key) ==> action == Action::NavDown,
        s.keys.nav_up.contains(key) ==> action == Action::NavUp,
        s.keys.scroll_up.contains(key) ==> action == Action::ScrollUp,
        s.keys.scroll_down.contains(key) ==> action == Action::ScrollDown,
        s.keys.find_files.contains(key) ==> action == Action::FindFiles,
        s.keys.sync_pull.contains(key) ==> action == Action::SyncPull,
        s.keys.sync_push.contains(key) ==> action == Action::SyncPush,
        s.keys.quit.contains(key) ==> action == Action::Quit,
        s.keys.toggle_markdown_preview.contains(key) ==> action == Action::ToggleMarkdown,
{
    assert(is_bound(s.keys, key, Action::Stage) == s.keys.stage.contains(key));
    assert(is_bound(s.keys, key, Action::Discard) == s.keys.discard.contains(key));
    assert(is_bound(s.keys, key, Action::NavDown) == s.keys.nav_down.contains(key));
    assert(is_bound(s.keys, key, Action::NavUp) == s.keys.nav_up.contains(key));
    assert(is_bound(s.keys, key, Action::ScrollUp) == s.keys.scroll_up.contains(key));
    assert(is_bound(s.keys, key, Action::ScrollDown) == s.keys.scroll_down.contains(key));
    assert(is_bound(s.keys, key, Action::FindFiles) == s.keys.find_files.contains(key));
    assert(is_bound(s.keys, key, Action::SyncPull) == s.keys.sync_pull.contains(key));
    assert(is_bound(s.keys, key, Action::SyncPush) == s.keys.sync_push.contains(key));
    assert(is_bound(s.keys, key, Action::Quit) == s.keys.quit.contains(key));
    assert(is_bound(s.keys, key, Action::ToggleMarkdown)
        == s.keys.toggle_markdown_preview.contains(key));
}

/// The app back in the panels with the draft empty and one job more, and else as
/// it was.
pub open spec fn sent(s: AppView, job: JobView) -> AppView {
    AppView {
        mode: Mode::Normal,
        draft: DraftView { text: Seq::empty(), ..s.draft },
        ..asking(s, seq![job])
    }
}

/// Enter in the commit box commits with the whole message as it stands there,
/// and with nothing else; the box closes. It waits for a message that is being
/// written and for one that says something, and stays open where the worker
/// takes no jobs.
pub proof fn law_enter_commits_the_message(s: AppView)
    requires
        s.mode == Mode::Committing,
    ensures
        ({
            let after = s.pressed(KeyCode::Enter, false);
            &&& !s.generating && !is_blank(s.draft.text) && s.queue.closed is None ==> after
                == sent(s, JobView::Commit { message: s.draft.text })
            &&& s.generating || is_blank(s.draft.text) ==> after.queue == s.queue && after.draft
                == s.draft && after.mode == Mode::Committing && after.notice is Some
            &&& !s.generating && !is_blank(s.draft.text) && s.queue.closed is Some ==> after
                == erring(s, s.queue.closed->0)
        }),
{
    reveal(AppView::pressed);
    reveal(AppView::key);
    reveal(AppView::modal_key);
    reveal(AppView::modal_entered);
    reveal(AppView::commit_submitted);
    reveal(AppView::modal_submitted);
    reveal(edited);
    lemma_submitted(s, JobView::Commit { message: s.draft.text });
}

/// Enter in the boxes for a new branch and for a stash sends the whole name or
/// message that was typed.
pub proof fn law_enter_names_branch_and_stash(s: AppView)
    requires
        s.mode == Mode::NewBranch || s.mode == Mode::StashPush,
    ensures
        ({
            let after = s.pressed(KeyCode::Enter, false);
            let job = if s.mode == Mode::NewBranch {
                JobView::CreateBranch { name: s.draft.text }
            } else {
                JobView::StashPush { message: s.draft.text }
            };
            &&& !is_blank(s.draft.text) && s.queue.closed is None ==> after == sent(s, job)
            &&& is_blank(s.draft.text) ==> after == calm(s)
            &&& !is_blank(s.draft.text) && s.queue.closed is Some ==> after == erring(
                s,
                s.queue.closed->0,
            )
        }),
{
    reveal(AppView::pressed);
    reveal(AppView::key);
    reveal(AppView::modal_key);
    reveal(AppView::modal_entered);
    reveal(AppView::branch_submitted);
    reveal(AppView::stash_submitted);
    reveal(AppView::modal_submitted);
    reveal(edited);
    lemma_submitted(s, JobView::CreateBranch { name: s.draft.text });
    lemma_submitted(s, JobView::StashPush { message: s.draft.text });
}

/// What is typed is what is sent: a text typed into an empty box, character by
/// character, is the message of the commit.
pub open spec fn typed(s: AppView, text: Seq<char>, k: nat) -> AppView
    decreases k,
{
    if k == 0 {
        s
    } else {
        typed(s, text, (k - 1) as nat).pressed(KeyCode::Char(text[k - 1]), false)
    }
}

proof fn lemma_typed(s: AppView, text: Seq<char>, k: nat)
    requires
        k <= text.len(),
        s.mode == Mode::Committing || s.mode == Mode::NewBranch || s.mode == Mode::StashPush
            || s.mode == Mode::SetUpstream || s.mode == Mode::SetRemote,
        s.draft.text.len() == 0,
    ensures
        typed(s, text, k).draft.text == text.take(k as int),
        k > 0 ==> typed(s, text, k).draft.cursor == k,
        typed(s, text, k).draft.at() == k,
        typed(s, text, k).mode == s.mode,
        typed(s, text, k).queue == s.queue,
        typed(s, text, k).generating == s.generating,
        typed(s, text, k).tree == s.tree,
        typed(s, text, k).status == s.status,
    decreases k,
{
    reveal(AppView::pressed);
    reveal(AppView::key);
    reveal(AppView::modal_key);
    reveal(edited);
    if k > 0 {
        lemma_typed(s, text, (k - 1) as nat);
        let before = text.take(k - 1);
        assert(before.insert(k - 1, text[k - 1]) =~= text.take(k as int));
    } else {
        assert(text.take(0) =~= s.draft.text);
    }
}

/// A text that is typed into an empty box and sent with Enter is the message of
/// the commit, the name of the branch or the message of the stash.
pub proof fn law_typed_is_sent(s: AppView, text: Seq<char>)
    requires
        s.mode == Mode::Committing || s.mode == Mode::NewBranch || s.mode == Mode::StashPush,
        s.draft.text.len() == 0,
        !is_blank(text),
        !s.generating,
        s.queue.closed is None,
    ensures
        ({
            let after = typed(s, text, text.len()).pressed(KeyCode::Enter, false);
            &&& after.mode == Mode::Normal
            &&& after.queue.pending == s.queue.pending + seq![
                match s.mode {
                    Mode::Committing => JobView::Commit { message: text },
                    Mode::NewBranch => JobView::CreateBranch { name: text },
                    _ => JobView::StashPush { message: text },
                },
            ]
        }),
{
    let t = typed(s, text, text.len());
    lemma_typed(s, text, text.len());
    assert(text.take(text.len() as int) =~= text);
    if s.mode == Mode::Committing {
        law_enter_commits_the_message(t);
    } else {
        law_enter_names_branch_and_stash(t);
    }
}

/// The key to commit opens an empty commit box, and asks for nothing yet.
pub proof fn law_boxes_open_empty(s: AppView, key: KeyCode, action: Action)
    requires
        action == Action::Commit || action == Action::BranchNew || action == Action::StashPush,
        means(s, key, action),
    ensures
        s.pressed(key, false) == (AppView {
            mode: match action {
                Action::Commit => Mode::Committing,
                Action::BranchNew => Mode::NewBranch,
                _ => Mode::StashPush,
            },
            draft: DraftView { text: Seq::empty(), ..s.draft },
            ..calm(s)
        }),
{
    lemma_action(s, key, action);
    lemma_no_other(s, key, action);
    reveal(AppView::action_key);
}

/// The place of the selection in a list, which is never past its end.
pub open spec fn selected_in(selected: nat, len: nat) -> int {
    if selected < len {
        selected as int
    } else {
        len - 1
    }
}

/// In the branches, the selected one is checked out or deleted, by its name.
pub proof fn law_branch_keys(s: AppView, key: KeyCode, action: Action)
    requires
        action == Action::Checkout || action == Action::BranchDelete,
        means(s, key, action),
    ensures
        ({
            let after = s.pressed(key, false);
            match s.branches {
                Some(list) => if list.len() == 0 {
                    after == calm(s)
                } else {
                    let name = list[selected_in(s.branch_selected, list.len())].name@;
                    after == asking_one(
                        s,
                        if action == Action::Checkout {
                            JobView::CheckoutBranch { name }
                        } else {
                            JobView::DeleteBranch { name }
                        },
                    )
                },
                None => after == calm(s),
            }
        }),
{
    lemma_action(s, key, action);
    lemma_no_other(s, key, action);
    reveal(AppView::action_key);
    reveal(AppView::checked_out);
    reveal(AppView::branch_deleted);
    if let Some(b) = s.branch() {
        lemma_submitted(s, JobView::CheckoutBranch { name: b.name@ });
        lemma_submitted(s, JobView::DeleteBranch { name: b.name@ });
    }
}

/// In the stash, the selected entry is applied or dropped, by its own number.
pub proof fn law_stash_keys(s: AppView, key: KeyCode, action: Action)
    requires
        action == Action::StashPop || action == Action::StashDrop,
        means(s, key, action),
    ensures
        ({
            let after = s.pressed(key, false);
            match s.stash {
                Some(list) => if list.len() == 0 {
                    after == calm(s)
                } else {
                    let index = list[selected_in(s.stash_selected, list.len())].index as nat;
                    after == asking_one(
                        s,
                        if action == Action::StashPop {
                            JobView::StashPop { index }
                        } else {
                            JobView::StashDrop { index }
                        },
                    )
                },
                None => after == calm(s),
            }
        }),
{
    lemma_action(s, key, action);
    lemma_no_other(s, key, action);
    reveal(AppView::action_key);
    reveal(AppView::stash_popped);
    reveal(AppView::stash_dropped);
    if let Some(e) = s.stash_entry() {
        lemma_submitted(s, JobView::StashPop { index: e.index as nat });
        lemma_submitted(s, JobView::StashDrop { index: e.index as nat });
    }
}

/// The selection of branches and of stash entries moves by one, and not past
/// either end of the list.
pub proof fn law_lists_move_by_one(s: AppView, key: KeyCode, down: bool)
    requires
        means(
            s,
            key,
            if down {
                Action::NavDown
            } else {
                Action::NavUp
            },
        ),
        s.focus == Focus::Branches || s.focus == Focus::Stash,
    ensures
        ({
            let after = s.pressed(key, false);
            let (was, is, len) = if s.focus == Focus::Branches {
                (
                    s.branch_selected,
                    after.branch_selected,
                    if s.branches is Some {
                        s.branches->0.len()
                    } else {
                        0
                    },
                )
            } else {
                (
                    s.stash_selected,
                    after.stash_selected,
                    if s.stash is Some {
                        s.stash->0.len()
                    } else {
                        0
                    },
                )
            };
            &&& after == (if s.focus == Focus::Branches {
                AppView { branch_selected: is, ..calm(s) }
            } else {
                AppView { stash_selected: is, ..calm(s) }
            })
            &&& down && was + 1 < len ==> is == was + 1
            &&& down && 0 < len <= was + 1 ==> is == len - 1
            &&& !down && was > 0 ==> is == was - 1
            &&& !down && was == 0 ==> is == 0
        }),
{
    let action = if down {
        Action::NavDown
    } else {
        Action::NavUp
    };
    lemma_no_other(s, key, action);
    reveal(AppView::pressed);
    reveal(AppView::key);
    reveal(AppView::normal_key);
    reveal(AppView::move_key);
    reveal(AppView::moved);
}

/// The keys of the panels bring their panel into focus, and change nothing else
/// but what the panel still has to load.
pub proof fn law_focus_keys(s: AppView, key: KeyCode, action: Action, focus: Focus)
    requires
        means(s, key, action),
        (action == Action::FocusStatus && focus == Focus::Status) || (action
            == Action::FocusBranches && focus == Focus::Branches) || (action == Action::FocusLog
            && focus == Focus::Log) || (action == Action::FocusStash && focus == Focus::Stash) || (
        action == Action::FocusDiff && focus == Focus::Diff),
        s.queue.closed is None,
    ensures
        ({
            let jobs = match focus {
                Focus::Branches => if s.branches is None {
                    seq![JobView::ListBranches]
                } else {
                    Seq::empty()
                },
                Focus::Log => if s.log is None {
                    seq![JobView::ListLog { limit: 100 }]
                } else {
                    Seq::empty()
                },
                Focus::Stash => if s.stash is None {
                    seq![JobView::ListStash]
                } else {
                    Seq::empty()
                },
                _ => Seq::empty(),
            };
            s.pressed(key, false) == (AppView { focus, ..asking(s, jobs) })
        }),
{
    lemma_no_other(s, key, action);
    reveal(AppView::pressed);
    reveal(AppView::key);
    reveal(AppView::normal_key);
    reveal(AppView::move_key);
    reveal(AppView::branches_loaded);
    reveal(AppView::log_loaded);
    reveal(AppView::stash_loaded);
    reveal(AppView::submitted);
    assert(s.queue.pending + Seq::<JobView>::empty() =~= s.queue.pending);
    assert(s.queue.pending.push(JobView::ListBranches) =~= s.queue.pending + seq![
        JobView::ListBranches,
    ]);
    assert(s.queue.pending.push(JobView::ListLog { limit: 100 }) =~= s.queue.pending + seq![
        JobView::ListLog { limit: 100 },
    ]);
    assert(s.queue.pending.push(JobView::ListStash) =~= s.queue.pending + seq![
        JobView::ListStash,
    ]);
}

/// The key to refresh asks for the status, the key to quit ends the program, in
/// the panels and over the whole screen, and neither does anything else.
pub proof fn law_refresh_and_quit(s: AppView, key: KeyCode)
    ensures
        means(s, key, Action::Refresh) ==> s.pressed(key, false) == asking_one(
            s,
            JobView::RefreshStatus,
        ),
        means(s, key, Action::Quit) ==> s.pressed(key, false) == (AppView {
            quit: true,
            ..calm(s)
        }),
        means_in_full(s, key, Action::Quit) ==> s.pressed(key, false) == (AppView {
            quit: true,
            ..calm(s)
        }),
{
    if means(s, key, Action::Refresh) {
        lemma_action(s, key, Action::Refresh);
        lemma_no_other(s, key, Action::Refresh);
        reveal(AppView::action_key);
        lemma_submitted(s, JobView::RefreshStatus);
    }
    if means(s, key, Action::Quit) {
        lemma_action(s, key, Action::Quit);
        lemma_no_other(s, key, Action::Quit);
        reveal(AppView::action_key);
    }
    if means_in_full(s, key, Action::Quit) {
        lemma_full(s, key, Action::Quit);
        reveal(AppView::pressed);
        reveal(AppView::key);
        reveal(AppView::full_key);
    }
}

/// The key to pull asks for a pull and says so, in the panels and over the whole
/// screen.
pub proof fn law_pull_key(s: AppView, key: KeyCode)
    requires
        means(s, key, Action::SyncPull) || means_in_full(s, key, Action::SyncPull),
        s.queue.closed is None,
    ensures
        s.pressed(key, false) == (AppView {
            syncing: Some("pulling…"@),
            ..asking(s, seq![JobView::Pull])
        }),
{
    if s.mode == Mode::Normal {
        lemma_action(s, key, Action::SyncPull);
        lemma_no_other(s, key, Action::SyncPull);
        reveal(AppView::action_key);
    } else {
        lemma_full(s, key, Action::SyncPull);
        reveal(AppView::pressed);
        reveal(AppView::key);
        reveal(AppView::full_key);
    }
    reveal(AppView::pulled);
    reveal(AppView::submitted);
    assert(s.queue.pending.push(JobView::Pull) =~= s.queue.pending + seq![JobView::Pull]);
}

/// The key to push pushes the current branch to the remote of its upstream; where
/// there is no upstream it asks for the remote, where there is no remote for its
/// address, and comes back to where it was pressed.
pub proof fn law_push_key(s: AppView, key: KeyCode, remote: Seq<char>, branch: Seq<char>)
    requires
        means(s, key, Action::SyncPush) || means_in_full(s, key, Action::SyncPush),
        s.queue.closed is None,
        s.status is Some,
        s.sync is Some,
    ensures
        ({
            let after = s.pressed(key, false);
            let sync = s.sync->0;
            &&& sync.remotes@.len() == 0 ==> after == (AppView {
                mode: Mode::SetRemote,
                sync_return: s.mode,
                draft: DraftView { text: Seq::empty(), cursor: 0, ..s.draft },
                ..calm(s)
            })
            &&& sync.remotes@.len() > 0 && sync.upstream is None ==> after == (AppView {
                mode: Mode::SetUpstream,
                sync_return: s.mode,
                draft: DraftView { text: "origin"@, cursor: "origin"@.len(), ..s.draft },
                ..calm(s)
            })
            &&& sync.remotes@.len() > 0 && (sync.upstream matches Some(u) && u@ == remote.push('/')
                + branch) && !remote.contains('/') ==> after == (AppView {
                sync_return: s.mode,
                syncing: Some("pushing…"@),
                ..asking(
                    s,
                    seq![
                        JobView::Push { remote, branch: s.status->0.branch@, set_upstream: false },
                    ],
                )
            })
        }),
{
    if s.mode == Mode::Normal {
        lemma_action(s, key, Action::SyncPush);
        lemma_no_other(s, key, Action::SyncPush);
        reveal(AppView::action_key);
    } else {
        lemma_full(s, key, Action::SyncPush);
        reveal(AppView::pressed);
        reveal(AppView::key);
        reveal(AppView::full_key);
    }
    reveal(AppView::pushed);
    reveal(AppView::submitted);
    let sync = s.sync->0;
    if let Some(u) = sync.upstream {
        if u@ == remote.push('/') + branch && !remote.contains('/') {
            crate::text::lemma_index_of_char(u@, 0, '/');
            let at = crate::text::index_of_char(u@, 0, '/');
            assert(u@[remote.len() as int] == '/');
            assert forall|i: int| 0 <= i < remote.len() implies u@[i] != '/' by {
                assert(u@[i] == remote[i]);
            }
            assert(at == remote.len());
            assert(u@.take(at) =~= remote);
            let job = JobView::Push { remote, branch: s.status->0.branch@, set_upstream: false };
            assert(s.queue.pending.push(job) =~= s.queue.pending + seq![job]);
        }
    }
}

/// Enter in the box for a remote pushes the current branch there and makes it the
/// upstream; Enter in the box for an address publishes the branch at it. Blanks
/// around what was typed do not count.
pub proof fn law_enter_pushes_and_publishes(s: AppView)
    requires
        s.mode == Mode::SetUpstream || s.mode == Mode::SetRemote,
        s.status is Some,
        s.queue.closed is None,
        trimmed(s.draft.text).len() > 0,
    ensures
        ({
            let typed = trimmed(s.draft.text);
            let branch = s.status->0.branch@;
            let job = if s.mode == Mode::SetUpstream {
                JobView::Push { remote: typed, branch, set_upstream: true }
            } else {
                JobView::Publish { remote: "origin"@, url: typed, branch }
            };
            let after = s.pressed(KeyCode::Enter, false);
            &&& after.queue.pending == s.queue.pending + seq![job]
            &&& after.mode == s.sync_return
            &&& after.draft.text.len() == 0
            &&& after.syncing is Some
        }),
{
    reveal(AppView::pressed);
    reveal(AppView::key);
    reveal(AppView::modal_key);
    reveal(AppView::modal_entered);
    reveal(AppView::upstream_submitted);
    reveal(AppView::publish_submitted);
    reveal(AppView::sync_submitted);
    reveal(AppView::submitted);
    reveal(edited);
    let typed = trimmed(s.draft.text);
    let branch = s.status->0.branch@;
    let push = JobView::Push { remote: typed, branch, set_upstream: true };
    let publish = JobView::Publish { remote: "origin"@, url: typed, branch };
    assert(s.queue.pending.push(push) =~= s.queue.pending + seq![push]);
    assert(s.queue.pending.push(publish) =~= s.queue.pending + seq![publish]);
}

/// Shift and `a` in the commit box asks for a message written with the current
/// settings, once; the message that comes replaces the draft, with the cursor
/// behind it.
pub proof fn law_message_is_generated(s: AppView, text: Seq<char>)
    requires
        s.mode == Mode::Committing,
        !s.generating,
        s.queue.closed is None,
    ensures
        ({
            let asked = s.pressed(KeyCode::Char('A'), true);
            let again = asked.pressed(KeyCode::Char('A'), true);
            let written = asked.message_arrived(text);
            &&& asked == (AppView {
                generating: true,
                ..asking(s, seq![JobView::GenerateCommitMessage { llm: s.llm }])
            })
            &&& again.queue == asked.queue
            &&& written.draft.text == text
            &&& written.draft.cursor == text.len()
            &&& !written.generating
            &&& written.mode == Mode::Committing
            &&& written.queue == asked.queue
        }),
{
    reveal(AppView::pressed);
    reveal(AppView::generation_begun);
    reveal(AppView::submitted);
    reveal(AppView::message_arrived);
    let job = JobView::GenerateCommitMessage { llm: s.llm };
    assert(s.queue.pending.push(job) =~= s.queue.pending + seq![job]);
}

/// Enter on a file shows it over the whole screen, and Esc brings the panels
/// back: the same file, nothing asked for.
pub proof fn law_enter_opens_and_esc_closes(s: AppView)
    requires
        s.mode == Mode::Normal,
        s.focus == Focus::Status,
        s.tree.file() is Some,
        s.viewer.visual is None,
        forall|action: Action|
            #[trigger] is_bound(s.keys, KeyCode::Enter, action) ==> action == Action::Checkout
                || action == Action::StashPop,
    ensures
        ({
            let open = s.pressed(KeyCode::Enter, false);
            let back = open.pressed(KeyCode::Esc, false);
            &&& open.mode == Mode::FullDiff
            &&& open.queue == s.queue
            &&& open.tree == s.tree
            &&& open.viewer.diff == s.viewer.diff
            &&& open.viewer.cursor == s.viewer.cursor
            &&& back.mode == Mode::Normal
            &&& back.queue == s.queue
            &&& back.tree == s.tree
            &&& back.viewer == (ViewerView { scroll: back.viewer.scroll, ..s.viewer })
        }),
{
    let key = KeyCode::Enter;
    assert(is_bound(s.keys, key, Action::FocusNext) == s.keys.focus_next.contains(key));
    assert(is_bound(s.keys, key, Action::FocusStatus) == s.keys.focus_status.contains(key));
    assert(is_bound(s.keys, key, Action::FocusBranches) == s.keys.focus_branches.contains(key));
    assert(is_bound(s.keys, key, Action::FocusLog) == s.keys.focus_log.contains(key));
    assert(is_bound(s.keys, key, Action::FocusStash) == s.keys.focus_stash.contains(key));
    assert(is_bound(s.keys, key, Action::FocusDiff) == s.keys.focus_diff.contains(key));
    assert(is_bound(s.keys, key, Action::NavDown) == s.keys.nav_down.contains(key));
    assert(is_bound(s.keys, key, Action::NavUp) == s.keys.nav_up.contains(key));
    reveal(AppView::pressed);
    reveal(AppView::key);
    reveal(AppView::normal_key);
    reveal(AppView::move_key);
    reveal(AppView::action_key);
    reveal(AppView::full_key);
    reveal(AppView::diff_opened);
    reveal(AppView::diff_closed);
}

/// The key to find files opens an empty finder with every file in it, from the
/// panels and over the whole screen, and Esc goes back to where it was opened.
pub proof fn law_finder_opens(s: AppView, key: KeyCode)
    requires
        means(s, key, Action::FindFiles) || means_in_full(s, key, Action::FindFiles),
    ensures
        ({
            let open = s.pressed(key, false);
            let back = open.pressed(KeyCode::Esc, false);
            &&& open.mode == Mode::FindFile
            &&& open.draft.text.len() == 0
            &&& open.queue == s.queue
            &&& open.tree == s.tree
            &&& open.found() == Seq::new(s.tree.list.len(), |i: int| i as nat)
            &&& s.tree.selected < s.tree.list.len() ==> open.finder_selected == s.tree.selected
            &&& back.mode == s.mode
            &&& back.tree == s.tree
            &&& back.queue == s.queue
        }),
{
    if s.mode == Mode::Normal {
        lemma_action(s, key, Action::FindFiles);
        lemma_no_other(s, key, Action::FindFiles);
        reveal(AppView::action_key);
    } else {
        lemma_full(s, key, Action::FindFiles);
        reveal(AppView::full_key);
    }
    reveal(AppView::pressed);
    reveal(AppView::key);
    reveal(AppView::finder_opened);
    reveal(AppView::finder_key);
    reveal(edited);
}

/// What the finder finds is named once, best match first: each file that it
/// names matches, each file that matches is named, and of two that it names the
/// first costs no more.
pub proof fn law_finder_lists_matches(
    query: Seq<char>,
    list: Seq<StatusEntry>,
    ranking: Seq<(usize, u32)>,
)
    requires
        query.len() > 0,
        crate::fuzzy::is_ranking(query, crate::app_model::paths_of(list), list.len(), ranking),
    ensures
        ({
            let found = found_files(query, list);
            &&& forall|i: int|
                0 <= i < found.len() ==> (#[trigger] found[i]) < list.len() && crate::fuzzy::score(
                    query,
                    list[found[i] as int].path@,
                ) is Some
            &&& forall|c: int|
                0 <= c < list.len() && crate::fuzzy::score(query, (#[trigger] list[c]).path@) is Some
                    ==> found.contains(c as nat)
            &&& forall|i: int, j: int|
                0 <= i < j < found.len() ==> #[trigger] found[i] != #[trigger] found[j]
                    && crate::fuzzy::score(query, list[found[i] as int].path@)->0
                    <= crate::fuzzy::score(query, list[found[j] as int].path@)->0
        }),
{
    let paths = crate::app_model::paths_of(list);
    let r = choose|r: Seq<(usize, u32)>| crate::fuzzy::is_ranking(query, paths, list.len(), r);
    assert(crate::fuzzy::is_ranking(query, paths, list.len(), r));
    let found = found_files(query, list);
    assert(found == r.map_values(|x: (usize, u32)| x.0 as nat));
    assert forall|i: int| 0 <= i < found.len() implies (#[trigger] found[i]) < list.len()
        && crate::fuzzy::score(query, list[found[i] as int].path@) is Some by {
        assert(r[i].0 < list.len());
        assert(paths[r[i].0 as int] == list[found[i] as int].path@);
    }
    assert forall|c: int|
        0 <= c < list.len() && crate::fuzzy::score(query, (#[trigger] list[c]).path@)
            is Some implies found.contains(c as nat) by {
        assert(paths[c] == list[c].path@);
        let i = choose|i: int| 0 <= i < r.len() && (#[trigger] r[i]).0 == c;
        assert(found[i] == c as nat);
    }
    assert forall|i: int, j: int| 0 <= i < j < found.len() implies #[trigger] found[i]
        != #[trigger] found[j] && crate::fuzzy::score(query, list[found[i] as int].path@)->0
        <= crate::fuzzy::score(query, list[found[j] as int].path@)->0 by {
        assert(crate::fuzzy::ranks_before(paths, r[i], r[j]));
        assert(paths[r[i].0 as int] == list[found[i] as int].path@);
        assert(paths[r[j].0 as int] == list[found[j] as int].path@);
    }
}

/// A push waits for what it needs to know: without a status nothing is asked for,
/// and without word of the remotes they are asked for first.
pub proof fn law_push_waits(s: AppView, key: KeyCode)
    requires
        means(s, key, Action::SyncPush) || means_in_full(s, key, Action::SyncPush),
        s.queue.closed is None,
    ensures
        ({
            let after = s.pressed(key, false);
            &&& s.status is None ==> after.queue == s.queue && after.error is Some && after.mode
                == s.mode
            &&& s.status is Some && s.sync is None ==> after.queue.pending == s.queue.pending
                + seq![JobView::LoadSync] && after.error is Some && after.mode == s.mode
        }),
{
    if s.mode == Mode::Normal {
        lemma_action(s, key, Action::SyncPush);
        lemma_no_other(s, key, Action::SyncPush);
        reveal(AppView::action_key);
    } else {
        lemma_full(s, key, Action::SyncPush);
        reveal(AppView::pressed);
        reveal(AppView::key);
        reveal(AppView::full_key);
    }
    reveal(AppView::pushed);
    reveal(AppView::submitted);
    assert(s.queue.pending.push(JobView::LoadSync) =~= s.queue.pending + seq![JobView::LoadSync]);
}

} // verus!
