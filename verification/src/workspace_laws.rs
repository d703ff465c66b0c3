//! What holds of the tabs whatever is open in them.

use crate::app_model::{AppView, Mode};
use crate::config::KeyCode;
use crate::workspace::{launched, lemma_root_at, root_at, Project, ProjectView, WorkspaceView};
use vstd::prelude::*;

verus! {

/// Going on to the next tab and back, or the other way round, changes nothing.
pub proof fn law_tabs_cycle(ws: WorkspaceView)
    requires
        ws.wf(),
    ensures
        ws.next_tab().previous_tab() == ws,
        ws.previous_tab().next_tab() == ws,
{
}

/// Whether no project is open twice.
pub open spec fn roots_differ(roots: Seq<Seq<char>>) -> bool {
    forall|i: int, j: int| 0 <= i < j < roots.len() ==> #[trigger] roots[i] != #[trigger] roots[j]
}

/// However projects are opened, none is open twice.
pub proof fn law_no_project_twice(ws: WorkspaceView, project: ProjectView, made: Option<Seq<char>>)
    requires
        roots_differ(ws.roots),
    ensures
        roots_differ(ws.pushed(project).roots),
        roots_differ(ws.picked(project, made).0.roots),
        ws.picked(project, made).1 is Spawn ==> roots_differ(ws.opened(project).roots),
{
    lemma_root_at(ws.roots, project.canon, 0);
}

/// A project that is open already gets no second tab, and its tab becomes the
/// current one.
pub proof fn law_open_project_is_switched_to(
    ws: WorkspaceView,
    project: ProjectView,
    made: Option<Seq<char>>,
    i: int,
)
    requires
        ws.wf(),
        0 <= i < ws.roots.len(),
        ws.roots[i] == project.canon,
    ensures
        ws.picked(project, made).1 is Nothing,
        ws.picked(project, made).0.apps.len() == ws.apps.len(),
        ws.picked(project, made).0.roots[ws.picked(project, made).0.current as int]
            == project.canon,
        ws.picked(project, made).0.app().mode == Mode::Normal,
        ws.picked(project, made).0.app().open_browser is None,
{
    lemma_root_at(ws.roots, project.canon, 0);
    reveal(AppView::picker_closed);
}

proof fn lemma_launched(ws: WorkspaceView, projects: Seq<Project>, k: nat)
    requires
        k <= projects.len(),
        roots_differ(ws.roots),
    ensures
        roots_differ(launched(ws, projects, k).roots),
        forall|i: int|
            0 <= i < k ==> launched(ws, projects, k).roots.contains(
                (#[trigger] projects[i]).canon@,
            ),
    decreases k,
{
    if k > 0 {
        lemma_launched(ws, projects, (k - 1) as nat);
        let before = launched(ws, projects, (k - 1) as nat);
        let after = launched(ws, projects, k);
        let project = projects[k - 1]@;
        law_no_project_twice(before, project, None);
        lemma_root_at(before.roots, project.canon, 0);
        assert forall|i: int| 0 <= i < k implies after.roots.contains(
            (#[trigger] projects[i]).canon@,
        ) by {
            if i < k - 1 {
                let j = choose|j: int|
                    0 <= j < before.roots.len() && before.roots[j] == projects[i].canon@;
                assert(after.roots[j] == projects[i].canon@);
            } else {
                match root_at(before.roots, project.canon, 0) {
                    Some(j) => {
                        assert(after.roots[j as int] == project.canon);
                    },
                    None => {
                        assert(after.roots[before.roots.len() as int] == project.canon);
                    },
                }
            }
        }
    }
}

/// Every project of a launch is open, each of them once.
pub proof fn law_launch_opens_each_once(ws: WorkspaceView, projects: Seq<Project>)
    requires
        ws.roots.len() == 0,
    ensures
        roots_differ(launched(ws, projects, projects.len()).roots),
        forall|i: int|
            0 <= i < projects.len() ==> launched(ws, projects, projects.len()).roots.contains(
                (#[trigger] projects[i]).canon@,
            ),
{
    lemma_launched(ws, projects, projects.len());
}

/// Closing a tab closes no other one: the others keep their order, and the one
/// behind it becomes current, or the last.
pub proof fn law_close_keeps_others(ws: WorkspaceView)
    requires
        ws.wf(),
        ws.apps.len() > 1,
    ensures
        ws.tab_closed().apps == ws.apps.remove(ws.current as int),
        ws.tab_closed().roots == ws.roots.remove(ws.current as int),
        ws.current + 1 < ws.apps.len() ==> ws.tab_closed().app() == ws.apps[ws.current as int + 1],
        ws.current + 1 == ws.apps.len() ==> ws.tab_closed().app() == ws.apps[ws.current as int - 1],
        !ws.tab_closed().quit || ws.quit,
{
}

/// Closing the last tab is the end, and so is the request to quit.
pub proof fn law_last_tab_quits(ws: WorkspaceView)
    requires
        ws.wf(),
        ws.apps.len() == 1,
    ensures
        ws.tab_closed().is_done(),
        ws.quitting().is_done(),
{
}

/// Nothing that is typed in the picker leaks out of it: no tab is opened,
/// closed or changed, and nothing ends.
pub proof fn law_picker_keeps_keys(ws: WorkspaceView, key: KeyCode, shift: bool)
    requires
        ws.wf(),
        ws.app().mode == Mode::OpenProject,
    ensures
        ws.pressed(key, shift).0.apps.len() == ws.apps.len(),
        ws.pressed(key, shift).0.roots == ws.roots,
        ws.pressed(key, shift).0.current == ws.current,
        ws.pressed(key, shift).0.quit == ws.quit,
{
}

/// A project that cannot be opened leaves the tabs as they are.
pub proof fn law_failed_open_keeps_tabs(
    ws: WorkspaceView,
    project: ProjectView,
    made: Option<Seq<char>>,
    why: Seq<char>,
)
    requires
        ws.wf(),
    ensures
        ws.spawned(project, made, Err(why)).apps.len() == ws.apps.len(),
        ws.spawned(project, made, Err(why)).roots == ws.roots,
        ws.spawned(project, made, Err(why)).current == ws.current,
{
}

/// A key of the current project changes no other one.
pub proof fn law_projects_are_isolated(ws: WorkspaceView, app: AppView, i: int)
    requires
        ws.wf(),
        0 <= i < ws.apps.len(),
        i != ws.current,
    ensures
        ws.with_app(app).apps[i] == ws.apps[i],
{
}

} // verus!
