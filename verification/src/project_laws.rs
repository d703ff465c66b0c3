//! What the keys for projects are for: the tabs, the picker for a folder, and
//! what comes of a folder that was picked.

use crate::app_model::{AppView, Focus, Mode};
use crate::browser::{entry_matches, matching, BrowserView, DirEntry};
use crate::config::{unicode_lower, KeyCode};
use crate::jobs::{JobResult, JobView};
use crate::key_laws::{is_bound, Action};
use crate::paths::{joined_path, parent_path};
use crate::text::{contains_text, stands_at};
use crate::workspace::{
    lemma_root_at, root_at, Found, Init, Jump, ProjectView, RequestView, WorkspaceView,
};
use vstd::prelude::*;
use vstd::string::*;

verus! {

/// Whether the panels are shown and a key is bound to one action alone.
pub open spec fn tab_means(ws: WorkspaceView, key: KeyCode, action: Action) -> bool {
    &&& ws.wf()
    &&& ws.app().mode == Mode::Normal
    &&& is_bound(ws.config.keys, key, action)
    &&& forall|other: Action| #[trigger] is_bound(ws.config.keys, key, other) ==> other == action
}

/// Whether a key is bound to nothing that tabs are for.
pub open spec fn is_for_project(ws: WorkspaceView, key: KeyCode) -> bool {
    &&& !is_bound(ws.config.keys, key, Action::ProjectNext)
    &&& !is_bound(ws.config.keys, key, Action::ProjectPrev)
    &&& !is_bound(ws.config.keys, key, Action::ProjectOpen)
    &&& !is_bound(ws.config.keys, key, Action::ProjectClose)
}

/// The keys for tabs go to the next tab and to the one before, round at either
/// end, and change no project; one opens the picker at the current project, and
/// one closes the current tab and no other.
pub proof fn law_tab_keys(ws: WorkspaceView, key: KeyCode, action: Action, shift: bool)
    requires
        tab_means(ws, key, action),
    ensures
        ({
            let n = ws.apps.len();
            let (after, request) = ws.pressed(key, shift);
            &&& action == Action::ProjectNext && n > 1 ==> request is Nothing && after == (
            WorkspaceView {
                current: if ws.current == n - 1 {
                    0
                } else {
                    ws.current + 1
                },
                ..ws
            })
            &&& action == Action::ProjectPrev && n > 1 ==> request is Nothing && after == (
            WorkspaceView {
                current: if ws.current == 0 {
                    (n - 1) as nat
                } else {
                    (ws.current - 1) as nat
                },
                ..ws
            })
            &&& action == Action::ProjectOpen ==> after == ws && request == RequestView::Browse(
                ws.roots[ws.current as int],
            )
            &&& action == Action::ProjectClose && n > 1 ==> {
                &&& request is Nothing
                &&& after.apps == ws.apps.take(ws.current as int) + ws.apps.skip(
                    ws.current as int + 1,
                )
                &&& after.roots == ws.roots.take(ws.current as int) + ws.roots.skip(
                    ws.current as int + 1,
                )
                &&& after.current < after.apps.len()
                &&& after.quit == ws.quit
            }
            &&& action == Action::ProjectClose && n == 1 ==> after.is_done()
        }),
{
    let keys = ws.config.keys;
    assert(is_bound(keys, key, Action::ProjectNext) == keys.project_next.contains(key));
    assert(is_bound(keys, key, Action::ProjectPrev) == keys.project_prev.contains(key));
    assert(is_bound(keys, key, Action::ProjectOpen) == keys.project_open.contains(key));
    assert(is_bound(keys, key, Action::ProjectClose) == keys.project_close.contains(key));
    assert(is_bound(keys, key, Action::Quit) == keys.quit.contains(key));
    let at = ws.current as int;
    assert(ws.apps.remove(at) =~= ws.apps.take(at) + ws.apps.skip(at + 1));
    assert(ws.roots.remove(at) =~= ws.roots.take(at) + ws.roots.skip(at + 1));
}

/// Any other key is up to the current project, and to no other one.
pub proof fn law_keys_reach_the_project(ws: WorkspaceView, key: KeyCode, shift: bool)
    requires
        ws.wf(),
        ws.app().mode != Mode::OpenProject,
        ws.app().mode != Mode::ConfirmInit,
        is_for_project(ws, key),
    ensures
        ({
            let (after, request) = ws.pressed(key, shift);
            &&& request is Nothing
            &&& after == (WorkspaceView { apps: after.apps, ..ws })
            &&& after.apps.len() == ws.apps.len()
            &&& after.apps[ws.current as int] == ws.app().pressed(key, shift)
            &&& forall|i: int|
                0 <= i < ws.apps.len() && i != ws.current ==> #[trigger] after.apps[i] == ws.apps[i]
        }),
{
}

/// Whether the picker shows its list.
pub open spec fn is_picking(ws: WorkspaceView, b: BrowserView) -> bool {
    &&& ws.wf()
    &&& ws.app().mode == Mode::OpenProject
    &&& ws.app().open_browser == Some(b)
    &&& !b.editing_path
}

/// The projects with another state of the picker, and else as they were.
pub open spec fn picking(ws: WorkspaceView, b: BrowserView) -> WorkspaceView {
    WorkspaceView {
        apps: ws.apps.update(
            ws.current as int,
            AppView { open_browser: Some(b), ..ws.apps[ws.current as int] },
        ),
        ..ws
    }
}

/// The entries whose names hold a text, whatever the case.
pub open spec fn entries_with(entries: Seq<DirEntry>, text: Seq<char>) -> Seq<DirEntry> {
    entries.filter(|e: DirEntry| holds(unicode_lower(e.name@), unicode_lower(text)))
}

/// Whether a text stands somewhere in another one.
pub open spec fn holds(text: Seq<char>, part: Seq<char>) -> bool {
    exists|i: int|
        0 <= i <= text.len() - part.len() && #[trigger] text.subrange(i, i + part.len()) == part
}

proof fn lemma_holds(text: Seq<char>, part: Seq<char>)
    ensures
        contains_text(text, part) == holds(text, part),
{
    if contains_text(text, part) {
        let i = choose|i: int| stands_at(text, part, i);
        assert(text.subrange(i, i + part.len()) =~= part);
    }
    if holds(text, part) {
        let i = choose|i: int|
            0 <= i <= text.len() - part.len() && #[trigger] text.subrange(i, i + part.len())
                == part;
        assert(stands_at(text, part, i));
    }
}

proof fn lemma_matching(entries: Seq<DirEntry>, text: Seq<char>, k: nat)
    requires
        k <= entries.len(),
    ensures
        matching(entries, text, k) == entries_with(entries.take(k as int), text),
    decreases k,
{
    reveal(Seq::filter);
    let some = entries.take(k as int);
    if k > 0 {
        lemma_matching(entries, text, (k - 1) as nat);
        let e = entries[k - 1];
        lemma_holds(unicode_lower(e.name@), unicode_lower(text));
        assert(some.drop_last() =~= entries.take(k - 1));
        assert(some.last() == e);
        assert(entry_matches(e, text) == holds(unicode_lower(e.name@), unicode_lower(text)));
        assert(entries_with(some, text) == if holds(
            unicode_lower(e.name@),
            unicode_lower(text),
        ) {
            entries_with(entries.take(k - 1), text).push(e)
        } else {
            entries_with(entries.take(k - 1), text)
        });
    } else {
        assert(some =~= Seq::empty());
    }
}

/// What is typed in the picker narrows its list to the folders whose names hold
/// it, whatever the case, in their order; Backspace takes the last character
/// back, and Esc all of them. The folder and its entries stay.
pub proof fn law_picker_filters(ws: WorkspaceView, b: BrowserView, c: char, shift: bool)
    requires
        is_picking(ws, b),
    ensures
        ({
            let (more, asked) = ws.pressed(KeyCode::Char(c), shift);
            let seen = more.app().open_browser->0;
            &&& asked is Nothing
            &&& more == picking(ws, seen)
            &&& seen.filter == b.filter.push(c)
            &&& seen.view == entries_with(b.entries, b.filter.push(c))
            &&& seen == (BrowserView {
                filter: seen.filter,
                view: seen.view,
                selected: seen.selected,
                ..b
            })
            &&& seen.view.len() > 0 ==> seen.selected == 2
            &&& seen.selected <= seen.view.len() + 1
        }),
        b.filter.len() > 1 ==> {
            let (less, asked) = ws.pressed(KeyCode::Backspace, shift);
            let seen = less.app().open_browser->0;
            &&& asked is Nothing
            &&& less == picking(ws, seen)
            &&& seen.filter == b.filter.take(b.filter.len() - 1)
            &&& seen.view == entries_with(b.entries, seen.filter)
            &&& seen.entries == b.entries && seen.cwd == b.cwd
        },
        b.filter.len() > 0 ==> {
            let (all, asked) = ws.pressed(KeyCode::Esc, shift);
            let seen = all.app().open_browser->0;
            &&& asked is Nothing
            &&& all == picking(ws, seen)
            &&& seen == (BrowserView { filter: Seq::empty(), view: b.entries, ..b })
        },
{
    let longer = b.filter.push(c);
    lemma_matching(b.entries, longer, b.entries.len());
    assert(b.entries.take(b.entries.len() as int) =~= b.entries);
    if b.filter.len() > 1 {
        let shorter = b.filter.drop_last();
        assert(shorter =~= b.filter.take(b.filter.len() - 1));
        lemma_matching(b.entries, shorter, b.entries.len());
    }
}

/// The highlight of the picker moves by one row, from the folder itself in the
/// first row over its parent in the second down to the last folder.
pub proof fn law_picker_moves_by_one(ws: WorkspaceView, b: BrowserView, down: bool, shift: bool)
    requires
        is_picking(ws, b),
        b.selected <= b.view.len() + 1,
    ensures
        ws.pressed(
            if down {
                KeyCode::Down
            } else {
                KeyCode::Up
            },
            shift,
        ) == (
            picking(
                ws,
                BrowserView {
                    selected: if down {
                        if b.selected < b.view.len() + 1 {
                            b.selected + 1
                        } else {
                            b.selected
                        }
                    } else {
                        if b.selected > 0 {
                            (b.selected - 1) as nat
                        } else {
                            0
                        }
                    },
                    ..b
                },
            ),
            RequestView::Nothing,
        ),
{
}

/// Enter in the picker opens what is highlighted: the folder itself in the first
/// row, the parent to browse in the second, and else the folder of that row.
/// Right browses the highlighted folder, Left and Backspace its parent. A filter
/// without a match opens nothing.
pub proof fn law_picker_opens(ws: WorkspaceView, b: BrowserView, shift: bool)
    requires
        is_picking(ws, b),
        b.selected <= b.view.len() + 1,
    ensures
        ({
            let up = match parent_path(b.cwd) {
                Some(parent) => RequestView::List(parent),
                None => RequestView::Nothing,
            };
            let entry = joined_path(b.cwd, b.view[b.selected - 2].name@);
            let enter = ws.pressed(KeyCode::Enter, shift);
            let right = ws.pressed(KeyCode::Right, shift);
            &&& ws.pressed(KeyCode::Left, shift) == (ws, up)
            &&& b.filter.len() == 0 ==> ws.pressed(KeyCode::Backspace, shift) == (ws, up)
            &&& b.filter.len() > 0 && b.view.len() == 0 ==> {
                &&& enter.1 is Nothing
                &&& enter.0.app().open_browser matches Some(seen) && seen.error is Some
            }
            &&& b.filter.len() == 0 || b.view.len() > 0 ==> {
                &&& b.selected == 0 ==> enter == (ws, RequestView::Discover(b.cwd))
                &&& b.selected == 1 ==> enter == (ws, up)
                &&& b.selected >= 2 ==> enter == (ws, RequestView::Discover(entry))
            }
            &&& b.selected >= 2 ==> right == (ws, RequestView::List(entry))
            &&& b.selected < 2 ==> right == (ws, RequestView::Nothing)
        }),
{
}

/// Esc closes the picker where nothing is typed, and Tab has a path typed, from
/// an empty line; Enter then asks for the path as it was typed, and Esc goes back
/// to the list.
pub proof fn law_picker_takes_paths(ws: WorkspaceView, b: BrowserView, shift: bool)
    requires
        is_picking(ws, b),
    ensures
        ({
            let (typing, asked) = ws.pressed(KeyCode::Tab, shift);
            let back = typing.pressed(KeyCode::Esc, shift).0;
            &&& asked is Nothing
            &&& typing.app().draft.text.len() == 0
            &&& typing.app().draft.cursor == 0
            &&& typing.app().open_browser == Some(BrowserView { editing_path: true, ..b })
            &&& typing.app().mode == Mode::OpenProject
            &&& back.app().open_browser == Some(b)
            &&& back.app().mode == Mode::OpenProject
        }),
        b.filter.len() == 0 ==> {
            let closed = ws.pressed(KeyCode::Esc, shift);
            &&& closed.1 is Nothing
            &&& closed.0.app().open_browser is None
            &&& closed.0.app().mode == Mode::Normal
            &&& closed.0.app().queue == ws.app().queue
        },
{
    reveal(AppView::picker_closed);
    reveal(crate::app_events::edited);
}

/// A path that is typed in the picker is asked for as it stands.
pub proof fn law_typed_path_is_asked_for(ws: WorkspaceView, b: BrowserView, shift: bool)
    requires
        ws.wf(),
        ws.app().mode == Mode::OpenProject,
        ws.app().open_browser == Some(b),
        b.editing_path,
    ensures
        ws.pressed(KeyCode::Enter, shift) == (ws, RequestView::Resolve(ws.app().draft.text)),
{
    reveal(crate::app_events::edited);
}

/// A folder that could be read is shown as it is, from its first row and without
/// a filter; one that could not leaves the list and says why.
pub proof fn law_folder_is_entered(
    ws: WorkspaceView,
    b: BrowserView,
    dir: Seq<char>,
    listing: Result<Seq<DirEntry>, Seq<char>>,
)
    requires
        is_picking(ws, b),
    ensures
        ({
            let seen = ws.entered(dir, listing).app().open_browser->0;
            &&& ws.entered(dir, listing) == picking(ws, seen)
            &&& (listing matches Ok(list) ==> seen == (BrowserView {
                cwd: dir,
                entries: list,
                view: list,
                selected: 0,
                error: None,
                editing_path: false,
                filter: Seq::empty(),
            }))
            &&& (listing matches Err(why) ==> seen == (BrowserView { error: Some(why), ..b }))
        }),
{
}

/// The picker opens at a folder with everything in it, and nothing typed.
pub proof fn law_picker_shows_all(
    s: AppView,
    start: Seq<char>,
    listing: Result<Seq<DirEntry>, Seq<char>>,
)
    ensures
        ({
            let open = s.picker_opened(start, listing);
            let b = open.open_browser->0;
            &&& open.open_browser is Some
            &&& open.mode == Mode::OpenProject
            &&& open.draft.text.len() == 0
            &&& open.queue == s.queue
            &&& b.cwd == start
            &&& b.selected == 0
            &&& b.filter.len() == 0
            &&& !b.editing_path
            &&& (listing matches Ok(list) ==> b.entries == list && b.view == list && b.error is None)
            &&& (listing matches Err(why) ==> b.view.len() == 0 && b.error == Some(why))
        }),
{
    reveal(AppView::picker_opened);
}

/// What a picked path leads to: a repository that is not open yet is opened, one
/// that is has its tab shown; a folder without one is asked about, by its path;
/// and anything else is an error in the picker.
pub proof fn law_picked_path(ws: WorkspaceView, b: BrowserView, path: Seq<char>, found: Found)
    requires
        is_picking(ws, b),
    ensures
        ({
            let (after, request) = ws.path_found(path, found);
            match found {
                Found::Repo(project) => if ws.roots.contains(project@.canon) {
                    &&& request is Nothing
                    &&& ws.roots[after.current as int] == project@.canon
                    &&& after.roots == ws.roots
                } else {
                    &&& after == ws
                    &&& request == (RequestView::Spawn { project: project@, made: None })
                },
                Found::NotARepo { is_dir } => {
                    &&& request is Nothing
                    &&& is_dir ==> after.app().mode == Mode::ConfirmInit
                        && after.app().draft.text == path
                    &&& !is_dir ==> after.app().mode == Mode::OpenProject && (
                    after.app().open_browser matches Some(seen) && seen.error is Some)
                },
                Found::Failed(why) => {
                    &&& request is Nothing
                    &&& after == picking(ws, BrowserView { error: Some(why@), ..b })
                },
            }
        }),
{
    reveal(AppView::picker_closed);
    reveal(AppView::browser_failing);
    if let Found::Repo(project) = found {
        lemma_root_at(ws.roots, project@.canon, 0);
        if ws.roots.contains(project@.canon) {
            let i = choose|i: int| 0 <= i < ws.roots.len() && ws.roots[i] == project@.canon;
            assert(root_at(ws.roots, project@.canon, 0) is Some);
        }
    }
}

/// Whether to make a repository is up to Enter alone: it asks for it at the path
/// that is shown. Esc, Backspace and any character go back to the picker, and
/// nothing is made.
pub proof fn law_init_needs_enter(ws: WorkspaceView, c: char, shift: bool)
    requires
        ws.wf(),
        ws.app().mode == Mode::ConfirmInit,
    ensures
        ({
            let back = WorkspaceView {
                apps: ws.apps.update(
                    ws.current as int,
                    AppView { mode: Mode::OpenProject, ..ws.app() },
                ),
                ..ws
            };
            &&& ws.pressed(KeyCode::Enter, shift) == (ws, RequestView::Init(ws.app().draft.text))
            &&& ws.pressed(KeyCode::Esc, shift) == (back, RequestView::Nothing)
            &&& ws.pressed(KeyCode::Backspace, shift) == (back, RequestView::Nothing)
            &&& ws.pressed(KeyCode::Char(c), shift) == (back, RequestView::Nothing)
        }),
{
}

/// A repository that was made is opened, and remembered as just made; where none
/// could be made nothing is opened and the reason is shown.
pub proof fn law_init_opens(ws: WorkspaceView, init: Init)
    requires
        ws.wf(),
    ensures
        ({
            let (after, request) = ws.init_done(init);
            match init {
                Init::Repo { dir, project } => !ws.roots.contains(project@.canon) ==> after == ws
                    && request == (RequestView::Spawn { project: project@, made: Some(dir@) }),
                _ => {
                    &&& request is Nothing
                    &&& after.apps.len() == ws.apps.len()
                    &&& after.roots == ws.roots
                    &&& after.current == ws.current
                    &&& after.app() == (AppView { error: after.app().error, ..ws.app() })
                    &&& after.app().error is Some
                },
            }
        }),
{
    if let Init::Repo { dir, project } = init {
        lemma_root_at(ws.roots, project@.canon, 0);
    }
}

/// A project that is opened gets a tab behind the others, which is shown. It
/// asks for its status, branches, log, stash and upstream, has the configuration
/// of the others, and its own name. The picker is closed and no other project
/// changes.
pub proof fn law_opened_project_is_fresh(
    ws: WorkspaceView,
    project: ProjectView,
    made: Option<Seq<char>>,
)
    requires
        ws.wf(),
    ensures
        ({
            let after = ws.spawned(project, made, Ok(()));
            let app = after.app();
            let n = ws.apps.len();
            &&& after.current == n
            &&& after.apps.len() == n + 1
            &&& after.roots == ws.roots.push(project.canon)
            &&& forall|i: int|
                0 <= i < n && i != ws.current ==> #[trigger] after.apps[i] == ws.apps[i]
            &&& after.apps[ws.current as int].open_browser is None
            &&& after.apps[ws.current as int].mode == Mode::Normal
            &&& app.repo_name == project.name
            &&& app.keys == ws.config.keys
            &&& app.theme == ws.config.theme
            &&& app.llm == ws.config.llm
            &&& app.config_path == ws.config_path
            &&& app.mode == Mode::Normal
            &&& app.focus == Focus::Status
            &&& app.status is None
            &&& app.error is None
            &&& !app.quit
            &&& app.queue.pending == seq![
                JobView::RefreshStatus,
                JobView::ListBranches,
                JobView::ListLog { limit: 100 },
                JobView::ListStash,
                JobView::LoadSync,
            ]
        }),
{
    reveal(AppView::picker_closed);
    reveal(AppView::submitted);
    reveal(AppView::submitted_all);
    reveal(AppView::preloaded);
    reveal(AppView::initial);
    assert(ws.spawned(project, made, Ok(())).app().queue.pending =~= seq![
        JobView::RefreshStatus,
        JobView::ListBranches,
        JobView::ListLog { limit: 100 },
        JobView::ListStash,
        JobView::LoadSync,
    ]);
}

/// Each project takes in the answers of its own worker.
pub proof fn law_answers_reach_their_project(
    ws: WorkspaceView,
    results: Seq<Vec<JobResult>>,
    i: int,
)
    requires
        0 <= i < ws.apps.len(),
        results.len() == ws.apps.len(),
    ensures
        ws.polled(results).apps.len() == ws.apps.len(),
        ws.polled(results).apps[i] == ws.apps[i].polled(results[i]@),
        ws.polled(results).current == ws.current,
        ws.polled(results).roots == ws.roots,
{
}

/// It is time to end exactly when that was asked for, of all projects or of one.
pub proof fn law_end_is_asked_for(ws: WorkspaceView)
    ensures
        ws.is_done() <==> !(!ws.quit && forall|i: int|
            0 <= i < ws.apps.len() ==> !(#[trigger] ws.apps[i]).quit),
{
    if ws.is_done() && !ws.quit {
        let i = choose|i: int| 0 <= i < ws.apps.len() && (#[trigger] ws.apps[i]).quit;
        assert(ws.apps[i].quit);
    }
}

/// A directory that was typed is gone to: its folders are listed from the first
/// row, and the typed path is gone.
pub proof fn law_jump_goes_there(
    ws: WorkspaceView,
    b: BrowserView,
    dir: String,
    list: Vec<DirEntry>,
)
    requires
        ws.wf(),
        ws.app().open_browser == Some(b),
    ensures
        ({
            let after = ws.jumped(Jump::Dir { dir, listing: Ok(list) });
            &&& after.app().open_browser == Some(
                BrowserView {
                    cwd: dir@,
                    entries: list@,
                    view: list@,
                    selected: 0,
                    error: None,
                    editing_path: false,
                    filter: Seq::empty(),
                },
            )
            &&& after.app().draft.text.len() == 0
            &&& after.app().mode == ws.app().mode
            &&& after.current == ws.current
            &&& after.roots == ws.roots
        }),
{
}

/// A path that cannot be gone to leaves the picker where it is, and the picker
/// says why.
pub proof fn law_failed_jump_stays(ws: WorkspaceView, b: BrowserView, path: String, why: String)
    requires
        ws.wf(),
        ws.app().open_browser == Some(b),
    ensures
        ws.jumped(Jump::NotADir { path }) == picking(
            ws,
            BrowserView { error: Some("not a directory: "@ + path@), ..b },
        ),
        ws.jumped(Jump::Failed(why)) == picking(ws, BrowserView { error: Some(why@), ..b }),
{
    reveal(AppView::browser_failing);
}

/// A folder that is read again shows all of its entries; where that fails the old
/// ones stay, with the reason.
pub proof fn law_folder_is_read_again(
    b: BrowserView,
    listing: Result<Seq<DirEntry>, Seq<char>>,
)
    ensures
        ({
            let after = b.rescanned(listing);
            &&& after.cwd == b.cwd
            &&& after.filter.len() == 0
            &&& (listing matches Ok(list) ==> after.entries == list && after.view == list
                && after.error is None)
            &&& (listing matches Err(why) ==> after.entries == b.entries && after.view == b.entries
                && after.error == Some(why))
        }),
{
}

} // verus!
