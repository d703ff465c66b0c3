//! Several projects in tabs, and the picker that opens more of them.
//!
//! What the disk and git are asked is a [`Request`]; the answer comes back
//! through the function that the request names.

use crate::app::App;
use crate::app_events::edited;
use crate::app_keys::edit;
use crate::app_model::{AppView, Mode};
use crate::app_picker::{law_answers_leave_picker, law_keys_leave_picker};
use crate::browser::{listing_fits, listing_view, BrowserView, DirEntry};
use crate::config::{copy_opt, has_key, quote, quoted_text, Config, ConfigView, KeyCode};
use crate::jobs::{JobResult, JobView};
use crate::paths::{parent_path, path_parent};
use crate::text::{opt_text, same_text, texts};
use crate::theme::Theme;
use vstd::prelude::*;
use vstd::string::*;

verus! {

/// A repository that was found: its working directory, that directory with
/// every link resolved, and a name for its tab.
#[derive(Debug)]
pub struct Project {
    pub root: String,
    pub canon: String,
    pub name: String,
}

/// What a [`Project`] holds.
#[verifier::ext_equal]
pub struct ProjectView {
    pub root: Seq<char>,
    pub canon: Seq<char>,
    pub name: Seq<char>,
}

impl View for Project {
    type V = ProjectView;

    open spec fn view(&self) -> ProjectView {
        ProjectView { root: self.root@, canon: self.canon@, name: self.name@ }
    }
}

/// What a path leads to.
#[derive(Debug)]
pub enum Found {
    /// A repository, at the path or above it.
    Repo(Project),
    /// None; the path is a directory or not.
    NotARepo { is_dir: bool },
    /// It could not be found out.
    Failed(String),
}

/// What a typed path leads to.
#[derive(Debug)]
pub enum Jump {
    /// A directory, with its folders or why they cannot be read.
    Dir { dir: String, listing: Result<Vec<DirEntry>, String> },
    /// Not a directory.
    NotADir { path: String },
    /// It is no path.
    Failed(String),
}

/// What came of making a directory a repository.
#[derive(Debug)]
pub enum Init {
    /// A repository.
    Repo { dir: String, project: Project },
    /// A repository, but it cannot be found.
    Lost { dir: String, why: String },
    /// It could not be made.
    Refused { dir: String, why: String },
    /// The path is not a directory.
    NotADir { path: String },
    /// It is no path.
    Failed(String),
}

/// What the disk and git are asked.
#[derive(Debug)]
pub enum Request {
    Nothing,
    /// Read the folders of a directory, for `begin_open_project`.
    Browse(String),
    /// Read the folders of a directory, for `enter_folder`.
    List(String),
    /// Find the repository of a path, for `open_path`.
    Discover(String),
    /// Find the directory of a typed path, for `submit_jump_path`.
    Resolve(String),
    /// Make the directory of a typed path a repository, for
    /// `confirm_init_project`.
    Init(String),
    /// Start a worker on a project, for `finish_open`. Where the project was
    /// just made a repository, that is its directory.
    Spawn { project: Project, made: Option<String> },
}

/// What a [`Request`] holds.
#[verifier::ext_equal]
pub enum RequestView {
    Nothing,
    Browse(Seq<char>),
    List(Seq<char>),
    Discover(Seq<char>),
    Resolve(Seq<char>),
    Init(Seq<char>),
    Spawn { project: ProjectView, made: Option<Seq<char>> },
}

impl View for Request {
    type V = RequestView;

    open spec fn view(&self) -> RequestView {
        match *self {
            Request::Nothing => RequestView::Nothing,
            Request::Browse(dir) => RequestView::Browse(dir@),
            Request::List(dir) => RequestView::List(dir@),
            Request::Discover(path) => RequestView::Discover(path@),
            Request::Resolve(text) => RequestView::Resolve(text@),
            Request::Init(text) => RequestView::Init(text@),
            Request::Spawn { project, made } => RequestView::Spawn {
                project: project@,
                made: opt_text(made),
            },
        }
    }
}

/// The place of a root among the open ones, from the `i`-th on.
pub open spec fn root_at(roots: Seq<Seq<char>>, canon: Seq<char>, i: int) -> Option<nat>
    decreases roots.len() - i,
{
    if i < 0 || i >= roots.len() {
        None
    } else if roots[i] == canon {
        Some(i as nat)
    } else {
        root_at(roots, canon, i + 1)
    }
}

/// An app that is told to quit.
#[verifier::opaque]
pub open spec fn told_to_quit(app: AppView) -> AppView {
    AppView { quit: true, ..app }
}

/// The answers for a project; none where there are none for it.
pub open spec fn answers_of(results: Seq<Vec<JobResult>>, i: int) -> Seq<JobResult> {
    if 0 <= i < results.len() {
        results[i]@
    } else {
        Seq::empty()
    }
}

/// What a workspace holds.
#[verifier::ext_equal]
pub struct WorkspaceView {
    pub apps: Seq<AppView>,
    pub roots: Seq<Seq<char>>,
    pub config: ConfigView,
    pub config_path: Option<Seq<char>>,
    pub current: nat,
    pub quit: bool,
}

/// Whether the picker of an app has room for its fixed rows.
pub open spec fn picker_fits(app: AppView) -> bool {
    app.open_browser matches Some(b) ==> b.wf()
}

/// What a list of apps holds.
pub open spec fn apps_view(apps: Seq<App>) -> Seq<AppView> {
    apps.map_values(|a: App| a@)
}

impl WorkspaceView {
    /// Whether there is a project, every project has a root, and one of them
    /// is current.
    pub open spec fn wf(self) -> bool {
        &&& self.current < self.apps.len()
        &&& self.apps.len() == self.roots.len()
        &&& forall|i: int| 0 <= i < self.apps.len() ==> picker_fits(#[trigger] self.apps[i])
    }

    /// The current project.
    pub open spec fn app(self) -> AppView {
        self.apps[self.current as int]
    }

    /// Another state of the current project.
    pub open spec fn with_app(self, app: AppView) -> WorkspaceView {
        WorkspaceView { apps: self.apps.update(self.current as int, app), ..self }
    }

    /// Another state of the picker.
    pub open spec fn with_browser(self, b: BrowserView) -> WorkspaceView {
        self.with_app(AppView { open_browser: Some(b), ..self.app() })
    }

    /// A fresh project.
    pub open spec fn fresh(self, name: Seq<char>) -> AppView {
        AppView {
            config_path: self.config_path,
            repo_name: name,
            ..AppView::initial(self.config).submitted(JobView::RefreshStatus).preloaded()
        }
    }

    /// A tab more, which is current; unless the project is open already.
    pub open spec fn pushed(self, project: ProjectView) -> WorkspaceView {
        match root_at(self.roots, project.canon, 0) {
            Some(i) => WorkspaceView { current: i, ..self },
            None => WorkspaceView {
                apps: self.apps.push(self.fresh(project.name)),
                roots: self.roots.push(project.canon),
                current: self.apps.len(),
                ..self
            },
        }
    }

    /// The picker closed, and the tab of an open project current.
    pub open spec fn switched(self, i: nat) -> WorkspaceView {
        let closed = self.with_app(self.app().picker_closed());
        let there = WorkspaceView { current: i, ..closed };
        there.with_app(there.app().picker_closed())
    }

    /// The picker closed, and a tab more, which is current.
    pub open spec fn opened(self, project: ProjectView) -> WorkspaceView {
        WorkspaceView {
            apps: self.apps.update(self.current as int, self.app().picker_closed()).push(
                self.fresh(project.name),
            ),
            roots: self.roots.push(project.canon),
            current: self.apps.len(),
            ..self
        }
    }

    /// A project that was picked: its tab current if it is open, or else a
    /// worker asked for.
    pub open spec fn picked(self, project: ProjectView, made: Option<Seq<char>>) -> (
        WorkspaceView,
        RequestView,
    ) {
        match root_at(self.roots, project.canon, 0) {
            Some(i) => (self.switched(i), RequestView::Nothing),
            None => (self, RequestView::Spawn { project, made }),
        }
    }

    /// An error in the picker.
    pub open spec fn browser_failing(self, message: Seq<char>) -> WorkspaceView {
        self.with_app(self.app().browser_failing(message))
    }

    /// An error in the footer.
    pub open spec fn failing(self, message: Seq<char>) -> WorkspaceView {
        self.with_app(self.app().failing(message))
    }

    /// What a path that was picked leads to.
    pub open spec fn path_found(self, path: Seq<char>, found: Found) -> (WorkspaceView, RequestView) {
        match found {
            Found::Repo(project) => self.picked(project@, None),
            Found::NotARepo { is_dir } => (
                if is_dir {
                    self.with_app(
                        AppView {
                            mode: Mode::ConfirmInit,
                            draft: self.app().draft.holding(path),
                            ..self.app()
                        },
                    )
                } else {
                    self.browser_failing(
                        "not inside a git repository (searched upward from "@ + path + ")"@,
                    )
                },
                RequestView::Nothing,
            ),
            Found::Failed(why) => (self.browser_failing(why@), RequestView::Nothing),
        }
    }

    /// A worker started on a project, or not.
    pub open spec fn spawned(
        self,
        project: ProjectView,
        made: Option<Seq<char>>,
        done: Result<(), Seq<char>>,
    ) -> WorkspaceView {
        match (done, made) {
            (Ok(_), _) => self.opened(project),
            (Err(e), None) => self.browser_failing(
                "cannot open "@ + project.root + ": "@ + e,
            ),
            (Err(e), Some(dir)) => self.failing(
                "initialized "@ + dir + ", but cannot open it: "@ + e,
            ),
        }
    }

    /// Enter on a row of the picker: the parent is browsed, a folder opened. A
    /// filter without a match is an error.
    pub open spec fn selected_opened(self) -> (WorkspaceView, RequestView) {
        match self.app().open_browser {
            None => (self, RequestView::Nothing),
            Some(b) => if b.filter.len() > 0 && b.view.len() == 0 {
                (
                    self.browser_failing(
                        "no folders matching "@ + quoted_text(b.filter) + " here"@,
                    ),
                    RequestView::Nothing,
                )
            } else if b.highlighted() == 1 {
                (self, self.parent_request())
            } else {
                (self, RequestView::Discover(b.target()))
            },
        }
    }

    /// What is asked to go up a level.
    pub open spec fn parent_request(self) -> RequestView {
        match self.app().open_browser {
            Some(b) => match parent_path(b.cwd) {
                Some(p) => RequestView::List(p),
                None => RequestView::Nothing,
            },
            None => RequestView::Nothing,
        }
    }

    /// What is asked to go down into the highlighted folder.
    pub open spec fn descend_request(self) -> RequestView {
        match self.app().open_browser {
            Some(b) => if b.highlighted() >= 2 {
                RequestView::List(b.target())
            } else {
                RequestView::Nothing
            },
            None => RequestView::Nothing,
        }
    }

    /// The picker in another folder, if that could be read.
    pub open spec fn entered(
        self,
        dir: Seq<char>,
        listing: Result<Seq<DirEntry>, Seq<char>>,
    ) -> WorkspaceView {
        match self.app().open_browser {
            Some(b) => self.with_browser(b.moved_to(dir, listing)),
            None => self,
        }
    }

    /// The picker in the directory that was typed.
    pub open spec fn jumped(self, jump: Jump) -> WorkspaceView {
        match jump {
            Jump::Failed(why) => self.browser_failing(why@),
            Jump::NotADir { path } => self.browser_failing("not a directory: "@ + path@),
            Jump::Dir { dir, listing } => match self.app().open_browser {
                None => self,
                Some(b) => {
                    let moved = BrowserView { editing_path: false, ..b }.moved_to(
                        dir@,
                        listing_view(listing),
                    );
                    let s = AppView { open_browser: Some(moved), ..self.app() };
                    self.with_app(
                        if listing is Ok {
                            AppView { draft: s.draft.cleared(), ..s }
                        } else {
                            s
                        },
                    )
                },
            },
        }
    }

    /// What came of making a directory a repository.
    pub open spec fn init_done(self, init: Init) -> (WorkspaceView, RequestView) {
        match init {
            Init::Repo { dir, project } => self.picked(project@, Some(dir@)),
            Init::Lost { dir, why } => (
                self.failing("initialized "@ + dir@ + ", but cannot open it: "@ + why@),
                RequestView::Nothing,
            ),
            Init::Refused { dir, why } => (
                self.failing("cannot init "@ + dir@ + ": "@ + why@),
                RequestView::Nothing,
            ),
            Init::NotADir { path } => (
                self.failing("cannot init here: "@ + path@),
                RequestView::Nothing,
            ),
            Init::Failed(why) => (self.failing(why@), RequestView::Nothing),
        }
    }

    /// The next tab, the first behind the last.
    pub open spec fn next_tab(self) -> WorkspaceView {
        WorkspaceView {
            current: if self.current + 1 < self.apps.len() {
                self.current + 1
            } else {
                0
            },
            ..self
        }
    }

    /// The previous tab, the last before the first.
    pub open spec fn previous_tab(self) -> WorkspaceView {
        WorkspaceView {
            current: if self.current > 0 {
                (self.current - 1) as nat
            } else {
                (self.apps.len() - 1) as nat
            },
            ..self
        }
    }

    /// Every project told to quit.
    pub open spec fn quitting(self) -> WorkspaceView {
        WorkspaceView {
            quit: true,
            apps: self.apps.map_values(|a: AppView| told_to_quit(a)),
            ..self
        }
    }

    /// The current tab closed: the next one is current, or the last. With one
    /// tab left that is the end.
    pub open spec fn tab_closed(self) -> WorkspaceView {
        if self.apps.len() <= 1 {
            self.quitting()
        } else {
            let apps = self.apps.remove(self.current as int);
            WorkspaceView {
                apps,
                roots: self.roots.remove(self.current as int),
                current: if self.current >= apps.len() {
                    (apps.len() - 1) as nat
                } else {
                    self.current
                },
                ..self
            }
        }
    }

    /// A key while a path is typed in the picker.
    pub open spec fn path_key(self, b: BrowserView, key: KeyCode) -> (WorkspaceView, RequestView) {
        let s = self.app();
        match edited(s.draft, key) {
            Some(draft) => (self.with_app(AppView { draft, ..s }), RequestView::Nothing),
            None => match key {
                KeyCode::Enter => (self, RequestView::Resolve(s.draft.text)),
                KeyCode::Esc => (self.path_left(b), RequestView::Nothing),
                _ => (self, RequestView::Nothing),
            },
        }
    }

    /// The typed path left for the list of the picker.
    pub open spec fn path_left(self, b: BrowserView) -> WorkspaceView {
        self.with_app(
            AppView {
                open_browser: Some(BrowserView { editing_path: false, ..b }),
                draft: self.app().draft.cleared(),
                ..self.app()
            },
        )
    }

    /// A path begun to be typed in the picker.
    pub open spec fn path_begun(self, b: BrowserView) -> WorkspaceView {
        self.with_app(
            AppView {
                open_browser: Some(BrowserView { editing_path: true, ..b }),
                draft: self.app().draft.cleared(),
                ..self.app()
            },
        )
    }

    /// A key in the list of the picker: what is typed filters it.
    pub open spec fn list_key(self, b: BrowserView, key: KeyCode) -> (WorkspaceView, RequestView) {
        let s = self.app();
        match key {
            KeyCode::Char(c) => (
                self.with_browser(b.with_filter(b.filter.push(c))),
                RequestView::Nothing,
            ),
            KeyCode::Backspace => if b.filter.len() == 0 {
                (self, self.parent_request())
            } else {
                (
                    self.with_browser(b.with_filter(b.filter.drop_last())),
                    RequestView::Nothing,
                )
            },
            KeyCode::Up => (self.with_browser(b.moved(-1)), RequestView::Nothing),
            KeyCode::Down => (self.with_browser(b.moved(1)), RequestView::Nothing),
            KeyCode::Enter => self.selected_opened(),
            KeyCode::Right => (self, self.descend_request()),
            KeyCode::Left => (self, self.parent_request()),
            KeyCode::Tab => (self.path_begun(b), RequestView::Nothing),
            KeyCode::Esc => if b.filter.len() > 0 {
                (self.with_browser(b.with_filter(Seq::empty())), RequestView::Nothing)
            } else {
                (self.with_app(s.picker_closed()), RequestView::Nothing)
            },
            _ => (self, RequestView::Nothing),
        }
    }

    /// A key in the picker.
    pub open spec fn browser_key(self, key: KeyCode) -> (WorkspaceView, RequestView) {
        match self.app().open_browser {
            Some(b) => if b.editing_path {
                self.path_key(b, key)
            } else {
                self.list_key(b, key)
            },
            None => match key {
                KeyCode::Tab => (
                    self.with_app(
                        AppView { draft: self.app().draft.cleared(), ..self.app() },
                    ),
                    RequestView::Nothing,
                ),
                KeyCode::Esc => (
                    self.with_app(self.app().picker_closed()),
                    RequestView::Nothing,
                ),
                _ => (self, RequestView::Nothing),
            },
        }
    }

    /// A key while it is asked whether to make a repository: anything but
    /// Enter that could be typed goes back to the picker.
    pub open spec fn confirm_key(self, key: KeyCode) -> (WorkspaceView, RequestView) {
        let back = self.with_app(AppView { mode: Mode::OpenProject, ..self.app() });
        match key {
            KeyCode::Char(_) | KeyCode::Backspace | KeyCode::Esc => (back, RequestView::Nothing),
            KeyCode::Enter => (self, RequestView::Init(self.app().draft.text)),
            _ => (self, RequestView::Nothing),
        }
    }

    /// A key that opens, closes or changes tabs; any other one is up to the
    /// current project.
    pub open spec fn tab_key(self, key: KeyCode, shift: bool) -> (WorkspaceView, RequestView) {
        let k = self.config.keys;
        let mode = self.app().mode;
        if (mode == Mode::Normal || mode == Mode::FullDiff) && !k.quit.contains(key)
            && k.project_close.contains(key) {
            (self.tab_closed(), RequestView::Nothing)
        } else if mode == Mode::Normal && k.project_open.contains(key) {
            (self, RequestView::Browse(self.roots[self.current as int]))
        } else if mode == Mode::Normal && self.apps.len() > 1 && k.project_next.contains(key) {
            (self.next_tab(), RequestView::Nothing)
        } else if mode == Mode::Normal && self.apps.len() > 1 && k.project_prev.contains(key) {
            (self.previous_tab(), RequestView::Nothing)
        } else {
            (self.with_app(self.app().pressed(key, shift)), RequestView::Nothing)
        }
    }

    /// A key pressed, and what is asked because of it.
    pub open spec fn pressed(self, key: KeyCode, shift: bool) -> (WorkspaceView, RequestView) {
        match self.app().mode {
            Mode::OpenProject => self.browser_key(key),
            Mode::ConfirmInit => self.confirm_key(key),
            _ => self.tab_key(key, shift),
        }
    }

    /// Every project with the answers of its worker taken in.
    pub open spec fn polled(self, results: Seq<Vec<JobResult>>) -> WorkspaceView {
        WorkspaceView {
            apps: Seq::new(
                self.apps.len(),
                |i: int| self.apps[i].polled(answers_of(results, i)),
            ),
            ..self
        }
    }

    /// Whether it is time to end.
    pub open spec fn is_done(self) -> bool {
        self.quit || exists|i: int| 0 <= i < self.apps.len() && (#[trigger] self.apps[i]).quit
    }
}

/// Projects in tabs. One of them is current.
#[derive(Debug)]
pub struct Workspace {
    pub apps: Vec<App>,
    /// The root of each project.
    pub roots: Vec<String>,
    pub config: Config,
    pub config_path: Option<String>,
    pub current: usize,
    pub quit: bool,
}

impl View for Workspace {
    type V = WorkspaceView;

    open spec fn view(&self) -> WorkspaceView {
        WorkspaceView {
            apps: apps_view(self.apps@),
            roots: texts(self.roots@),
            config: self.config@,
            config_path: opt_text(self.config_path),
            current: self.current as nat,
            quit: self.quit,
        }
    }
}

fn find_root(roots: &Vec<String>, canon: &str) -> (at: Option<usize>)
    ensures
        at is Some <==> root_at(texts(roots@), canon@, 0) is Some,
        at matches Some(i) ==> root_at(texts(roots@), canon@, 0) == Some(i as nat) && i
            < roots@.len(),
{
    let ghost all = texts(roots@);
    let mut i: usize = 0;
    while i < roots.len()
        invariant
            all == texts(roots@),
            root_at(all, canon@, 0) == root_at(all, canon@, i as int),
        decreases roots@.len() - i,
    {
        assert(all[i as int] == roots@[i as int]@);
        if same_text(roots[i].as_str(), canon) {
            return Some(i);
        }
        i += 1;
    }
    None
}

/// The projects of a launch opened, the first `k` of them.
pub open spec fn launched(ws: WorkspaceView, projects: Seq<Project>, k: nat) -> WorkspaceView
    decreases k,
{
    if k == 0 {
        ws
    } else {
        launched(ws, projects, (k - 1) as nat).pushed(projects[k - 1]@)
    }
}

impl Workspace {
    /// The current project.
    pub fn current(&self) -> (app: &App)
        requires
            self@.wf(),
        ensures
            app@ == self@.app(),
    {
        &self.apps[self.current]
    }

    /// The current project, to be changed.
    pub fn current_mut(&mut self) -> (app: &mut App)
        requires
            old(self)@.wf(),
        ensures
            *app == old(self).apps@[old(self).current as int],
            final(self).apps@ == old(self).apps@.update(
                old(self).current as int,
                *final(app),
            ),
            final(self).roots == old(self).roots,
            final(self).config == old(self).config,
            final(self).config_path == old(self).config_path,
            final(self).current == old(self).current,
            final(self).quit == old(self).quit,
    {
        &mut self.apps[self.current]
    }

    fn fresh(&self, name: String) -> (app: App)
        ensures
            app@ == self@.fresh(name@),
    {
        let mut app = App::new_with_config(self.config.copy());
        app.set_config_path(copy_opt(&self.config_path));
        app.set_repo_name(name);
        app
    }

    /// Opens a tab more, unless the project is open already.
    fn push_project(&mut self, project: Project)
        ensures
            final(self)@ == old(self)@.pushed(project@),
    {
        if let Some(i) = find_root(&self.roots, project.canon.as_str()) {
            self.current = i;
            return;
        }
        let app = self.fresh(project.name);
        let ghost before = self.apps@;
        let ghost roots = self.roots@;
        self.current = self.apps.len();
        self.apps.push(app);
        self.roots.push(project.canon);
        assert(apps_view(self.apps@) =~= apps_view(before).push(app@));
        assert(texts(self.roots@) =~= texts(roots).push(project.canon@));
    }
}

pub proof fn lemma_update(apps: Seq<App>, c: int, app: App)
    requires
        0 <= c < apps.len(),
    ensures
        apps_view(apps.update(c, app)) == apps_view(apps).update(c, app@),
{
    assert(apps_view(apps.update(c, app)) =~= apps_view(apps).update(c, app@));
}

impl Workspace {
    /// The projects of a launch in tabs, the first one current. A project that
    /// is named twice is opened once.
    pub fn open(projects: Vec<Project>, config: Config, config_path: Option<String>) -> (out:
        Result<Workspace, String>)
        ensures
            projects@.len() == 0 ==> (out matches Err(e) && e@ == "no repositories to open"@),
            projects@.len() > 0 ==> (out matches Ok(ws) && ws@ == (WorkspaceView {
                current: 0,
                ..launched(
                    (WorkspaceView {
                        apps: Seq::empty(),
                        roots: Seq::empty(),
                        config: config@,
                        config_path: opt_text(config_path),
                        current: 0,
                        quit: false,
                    }),
                    projects@,
                    projects@.len(),
                )
            }) && ws@.wf()),
    {
        let mut ws = Workspace {
            apps: Vec::new(),
            roots: Vec::new(),
            config,
            config_path,
            current: 0,
            quit: false,
        };
        let ghost start = ws@;
        assert(start =~= (WorkspaceView {
            apps: Seq::empty(),
            roots: Seq::empty(),
            config: config@,
            config_path: opt_text(config_path),
            current: 0,
            quit: false,
        }));
        let ghost all = projects@;
        for project in it: projects
            invariant
                it.seq() == all,
                ws@ == launched(start, all, it.index() as nat),
                ws@.apps.len() == ws@.roots.len(),
                it.index() > 0 ==> ws@.apps.len() > 0,
                forall|i: int| 0 <= i < ws@.apps.len() ==> picker_fits(#[trigger] ws@.apps[i]),
        {
            let ghost before = ws@;
            ws.push_project(project);
            proof {
                lemma_pushed_fits(before, project@);
            }
        }
        if ws.apps.len() == 0 {
            assert(all.len() == 0);
            return Err("no repositories to open".to_owned());
        }
        ws.current = 0;
        Ok(ws)
    }

    /// Makes the tab of an open project current and closes the picker.
    fn switch_to(&mut self, i: usize)
        requires
            old(self)@.wf(),
            i < old(self)@.apps.len(),
        ensures
            final(self)@ == old(self)@.switched(i as nat),
            final(self)@.wf(),
    {
        let c = self.current;
        let ghost before = self.apps@;
        self.apps[c].finish_open_project();
        proof {
            lemma_update(before, c as int, self.apps@[c as int]);
            reveal(AppView::picker_closed);
        }
        self.current = i;
        let ghost between = self.apps@;
        self.apps[i].finish_open_project();
        proof {
            lemma_update(between, i as int, self.apps@[i as int]);
        }
    }

    /// Opens the tab of a project that a worker was started on.
    fn open_tab(&mut self, project: Project)
        requires
            old(self)@.wf(),
        ensures
            final(self)@ == old(self)@.opened(project@),
            final(self)@.wf(),
    {
        let app = self.fresh(project.name);
        let c = self.current;
        let ghost before = self.apps@;
        let ghost roots = self.roots@;
        self.apps[c].finish_open_project();
        let ghost closed = self.apps@;
        self.current = self.apps.len();
        self.apps.push(app);
        self.roots.push(project.canon);
        proof {
            lemma_update(before, c as int, closed[c as int]);
            assert(apps_view(self.apps@) =~= apps_view(closed).push(app@));
            assert(texts(self.roots@) =~= texts(roots).push(project.canon@));
            reveal(AppView::picker_closed);
            lemma_fresh_fits(old(self)@, project.name@);
        }
    }

    /// Switches to a project that was picked, or asks for a worker on it.
    fn pick(&mut self, project: Project, made: Option<String>) -> (request: Request)
        requires
            old(self)@.wf(),
        ensures
            (final(self)@, request@) == old(self)@.picked(project@, opt_text(made)),
            final(self)@.wf(),
    {
        assert(texts(self.roots@).len() == self.roots@.len());
        match find_root(&self.roots, project.canon.as_str()) {
            Some(i) => {
                self.switch_to(i);
                Request::Nothing
            },
            None => Request::Spawn { project, made },
        }
    }

    fn fail_in_browser(&mut self, message: String)
        requires
            old(self)@.wf(),
        ensures
            final(self)@ == old(self)@.browser_failing(message@),
            final(self)@.wf(),
    {
        let c = self.current;
        let ghost before = self.apps@;
        self.apps[c].set_browser_error(message);
        proof {
            lemma_update(before, c as int, self.apps@[c as int]);
        }
    }

    fn fail(&mut self, message: String)
        requires
            old(self)@.wf(),
        ensures
            final(self)@ == old(self)@.failing(message@),
            final(self)@.wf(),
    {
        let c = self.current;
        let ghost before = self.apps@;
        self.apps[c].set_error(message);
        proof {
            lemma_update(before, c as int, self.apps@[c as int]);
        }
    }

    /// Opens what a path leads to: a repository in a tab. For a plain
    /// directory it is asked whether to make it one; all else is an error in
    /// the picker.
    pub fn open_path(&mut self, path: String, found: Found) -> (request: Request)
        requires
            old(self)@.wf(),
        ensures
            (final(self)@, request@) == old(self)@.path_found(path@, found),
            final(self)@.wf(),
    {
        match found {
            Found::Repo(project) => self.pick(project, None),
            Found::NotARepo { is_dir } => {
                if is_dir {
                    let c = self.current;
                    let ghost before = self.apps@;
                    self.apps[c].confirm_init_prompt(path);
                    proof {
                        lemma_update(before, c as int, self.apps@[c as int]);
                    }
                } else {
                    self.fail_in_browser(
                        "not inside a git repository (searched upward from ".to_owned().concat(
                            path.as_str(),
                        ).concat(")"),
                    );
                }
                Request::Nothing
            },
            Found::Failed(why) => {
                self.fail_in_browser(why);
                Request::Nothing
            },
        }
    }

    /// Opens the tab of a project, now that a worker was started on it or not.
    pub fn finish_open(
        &mut self,
        project: Project,
        made: Option<String>,
        done: Result<(), String>,
    )
        requires
            old(self)@.wf(),
        ensures
            final(self)@ == old(self)@.spawned(
                project@,
                opt_text(made),
                match done {
                    Ok(()) => Ok(()),
                    Err(e) => Err(e@),
                },
            ),
            final(self)@.wf(),
    {
        match done {
            Ok(()) => self.open_tab(project),
            Err(e) => match made {
                None => self.fail_in_browser(
                    "cannot open ".to_owned().concat(project.root.as_str()).concat(": ").concat(
                        e.as_str(),
                    ),
                ),
                Some(dir) => self.fail(
                    "initialized ".to_owned().concat(dir.as_str()).concat(
                        ", but cannot open it: ",
                    ).concat(e.as_str()),
                ),
            },
        }
    }
}

proof fn lemma_fresh_fits(ws: WorkspaceView, name: Seq<char>)
    ensures
        picker_fits(ws.fresh(name)),
{
    reveal(AppView::submitted);
    reveal(AppView::preloaded);
    reveal(AppView::submitted_all);
}

proof fn lemma_pushed_fits(ws: WorkspaceView, project: ProjectView)
    requires
        ws.apps.len() == ws.roots.len(),
        forall|i: int| 0 <= i < ws.apps.len() ==> picker_fits(#[trigger] ws.apps[i]),
    ensures
        ws.pushed(project).apps.len() == ws.pushed(project).roots.len(),
        ws.pushed(project).apps.len() > 0,
        forall|i: int|
            0 <= i < ws.pushed(project).apps.len() ==> picker_fits(
                #[trigger] ws.pushed(project).apps[i],
            ),
{
    lemma_fresh_fits(ws, project.name);
    lemma_root_at(ws.roots, project.canon, 0);
}

pub proof fn lemma_root_at(roots: Seq<Seq<char>>, canon: Seq<char>, i: int)
    ensures
        root_at(roots, canon, i) matches Some(k) ==> k < roots.len() && roots[k as int] == canon,
        0 <= i && root_at(roots, canon, i) is None ==> forall|k: int|
            i <= k < roots.len() ==> #[trigger] roots[k] != canon,
    decreases roots.len() - i,
{
    if 0 <= i < roots.len() && roots[i] != canon {
        lemma_root_at(roots, canon, i + 1);
    }
}

impl Workspace {
    /// Opens the picker at a folder, whose folders were read.
    pub fn begin_open_project(&mut self, start: String, listing: Result<Vec<DirEntry>, String>)
        requires
            old(self)@.wf(),
            listing_fits(listing),
        ensures
            final(self)@ == old(self)@.with_app(
                old(self)@.app().picker_opened(start@, listing_view(listing)),
            ),
            final(self)@.wf(),
    {
        let c = self.current;
        let ghost before = self.apps@;
        self.apps[c].begin_open_project(start, listing);
        proof {
            lemma_update(before, c as int, self.apps@[c as int]);
        }
    }

    /// Enter on a row of the picker.
    pub fn open_selected(&mut self) -> (request: Request)
        requires
            old(self)@.wf(),
        ensures
            (final(self)@, request@) == old(self)@.selected_opened(),
            final(self)@.wf(),
    {
        let c = self.current;
        let message = match &self.apps[c].open_browser {
            None => {
                return Request::Nothing;
            },
            Some(b) => {
                if b.filter.as_str().unicode_len() > 0 && b.view.len() == 0 {
                    "no folders matching ".to_owned().concat(
                        quote(b.filter.as_str()).as_str(),
                    ).concat(" here")
                } else if b.highlighted() == 1 {
                    return self.goto_parent();
                } else {
                    return Request::Discover(b.selected_path());
                }
            },
        };
        self.fail_in_browser(message);
        Request::Nothing
    }

    /// Asks for the highlighted folder, to browse it.
    pub fn descend_selected(&self) -> (request: Request)
        requires
            self@.wf(),
        ensures
            request@ == self@.descend_request(),
    {
        match &self.apps[self.current].open_browser {
            Some(b) => if b.highlighted() >= 2 {
                Request::List(b.selected_path())
            } else {
                Request::Nothing
            },
            None => Request::Nothing,
        }
    }

    /// Asks for the folder above, to browse it.
    pub fn goto_parent(&self) -> (request: Request)
        requires
            self@.wf(),
        ensures
            request@ == self@.parent_request(),
    {
        match &self.apps[self.current].open_browser {
            Some(b) => match path_parent(b.cwd.as_str()) {
                Some(p) => Request::List(p),
                None => Request::Nothing,
            },
            None => Request::Nothing,
        }
    }

    /// Asks for the folder above, whatever row is highlighted.
    pub fn browser_up(&self) -> (request: Request)
        requires
            self@.wf(),
        ensures
            request@ == self@.parent_request(),
    {
        self.goto_parent()
    }

    /// Browses a folder, if it could be read.
    pub fn enter_folder(&mut self, dir: String, listing: Result<Vec<DirEntry>, String>)
        requires
            old(self)@.wf(),
            listing_fits(listing),
        ensures
            final(self)@ == old(self)@.entered(dir@, listing_view(listing)),
            final(self)@.wf(),
    {
        let c = self.current;
        let ghost before = self.apps@;
        assert(picker_fits(self@.apps[c as int]));
        if let Some(b) = self.apps[c].open_browser_mut() {
            b.goto(dir, listing);
        }
        proof {
            lemma_update(before, c as int, self.apps@[c as int]);
            assert(self@ =~= old(self)@.entered(dir@, listing_view(listing)));
        }
    }

    /// Browses the directory that was typed.
    pub fn submit_jump_path(&mut self, jump: Jump)
        requires
            old(self)@.wf(),
            jump matches Jump::Dir { listing, .. } ==> listing_fits(listing),
        ensures
            final(self)@ == old(self)@.jumped(jump),
            final(self)@.wf(),
    {
        match jump {
            Jump::Failed(why) => self.fail_in_browser(why),
            Jump::NotADir { path } => self.fail_in_browser(
                "not a directory: ".to_owned().concat(path.as_str()),
            ),
            Jump::Dir { dir, listing } => self.jump_to(dir, listing),
        }
    }

    fn jump_to(&mut self, dir: String, listing: Result<Vec<DirEntry>, String>)
        requires
            old(self)@.wf(),
            listing_fits(listing),
        ensures
            final(self)@ == old(self)@.jumped(Jump::Dir { dir, listing }),
            final(self)@.wf(),
    {
        let c = self.current;
        let ghost before = self.apps@;
        assert(picker_fits(self@.apps[c as int]));
        let mut moved = false;
        if let Some(b) = self.apps[c].open_browser_mut() {
            b.editing_path = false;
            moved = b.goto(dir, listing);
        }
        let ghost between = self.apps@;
        proof {
            lemma_update(before, c as int, between[c as int]);
        }
        if moved {
            self.apps[c].clear_draft();
            proof {
                lemma_update(between, c as int, self.apps@[c as int]);
            }
        }
        assert(self@ =~= old(self)@.jumped(Jump::Dir { dir, listing }));
    }

    /// Opens the directory that was made a repository, or says why it was not.
    pub fn confirm_init_project(&mut self, init: Init) -> (request: Request)
        requires
            old(self)@.wf(),
        ensures
            (final(self)@, request@) == old(self)@.init_done(init),
            final(self)@.wf(),
    {
        let message = match init {
            Init::Repo { dir, project } => {
                return self.pick(project, Some(dir));
            },
            Init::Lost { dir, why } => "initialized ".to_owned().concat(dir.as_str()).concat(
                ", but cannot open it: ",
            ).concat(why.as_str()),
            Init::Refused { dir, why } => "cannot init ".to_owned().concat(dir.as_str()).concat(
                ": ",
            ).concat(why.as_str()),
            Init::NotADir { path } => "cannot init here: ".to_owned().concat(path.as_str()),
            Init::Failed(why) => why,
        };
        self.fail(message);
        Request::Nothing
    }

    /// How many projects are open.
    pub fn len(&self) -> (n: usize)
        ensures
            n == self@.apps.len(),
    {
        self.apps.len()
    }

    /// The place of the current project.
    pub fn index(&self) -> (i: usize)
        ensures
            i == self@.current,
    {
        self.current
    }

    pub fn project_name(&self, i: usize) -> (name: &str)
        requires
            i < self@.apps.len(),
        ensures
            name@ == self@.apps[i as int].repo_name,
    {
        self.apps[i].repo_name()
    }

    /// How many files of a project are changed, if that is known.
    pub fn project_dirty_count(&self, i: usize) -> (n: Option<usize>)
        requires
            i < self@.apps.len(),
        ensures
            n is Some <==> self@.apps[i as int].status is Some,
            n matches Some(k) ==> k == self@.apps[i as int].status->0.files@.len(),
    {
        match &self.apps[i].status {
            Some(st) => Some(st.files.len()),
            None => None,
        }
    }

    pub fn project_roots(&self) -> (roots: &Vec<String>)
        ensures
            texts(roots@) == self@.roots,
    {
        &self.roots
    }

    pub fn theme(&self) -> (theme: Theme)
        requires
            self@.wf(),
        ensures
            theme == self@.app().theme,
    {
        self.apps[self.current].theme
    }

    /// Makes the next tab current.
    pub fn next(&mut self)
        requires
            old(self)@.wf(),
        ensures
            final(self)@ == old(self)@.next_tab(),
            final(self)@.wf(),
    {
        let n = self.apps.len();
        self.current = if self.current + 1 < n {
            self.current + 1
        } else {
            0
        };
    }

    /// Makes the previous tab current.
    pub fn prev(&mut self)
        requires
            old(self)@.wf(),
        ensures
            final(self)@ == old(self)@.previous_tab(),
            final(self)@.wf(),
    {
        self.current = if self.current > 0 {
            self.current - 1
        } else {
            self.apps.len() - 1
        };
    }

    /// Tells every project to quit.
    pub fn request_quit(&mut self)
        requires
            old(self)@.wf(),
        ensures
            final(self)@ == old(self)@.quitting(),
            final(self)@.wf(),
    {
        self.quit = true;
        let n = self.apps.len();
        let ghost before = self.apps@;
        let mut i: usize = 0;
        while i < n
            invariant
                i <= n,
                n == before.len(),
                self.apps@.len() == n,
                self.roots == old(self).roots,
                self.config == old(self).config,
                self.config_path == old(self).config_path,
                self.current == old(self).current,
                self.quit,
                forall|k: int|
                    0 <= k < i ==> (#[trigger] self.apps@[k])@ == told_to_quit(before[k]@),
                forall|k: int| i <= k < n ==> #[trigger] self.apps@[k] == before[k],
            decreases n - i,
        {
            self.apps[i].request_quit();
            assert(self.apps@[i as int]@ == told_to_quit(before[i as int]@)) by {
                reveal(told_to_quit);
            }
            i += 1;
        }
        assert(self@.apps =~= old(self)@.quitting().apps);
        assert forall|k: int| 0 <= k < self@.apps.len() implies picker_fits(
            #[trigger] self@.apps[k],
        ) by {
            assert(picker_fits(old(self)@.apps[k]));
            reveal(told_to_quit);
        }
    }

    /// Closes the current tab; with one tab left that is the end.
    pub fn close_current_project(&mut self)
        requires
            old(self)@.wf(),
        ensures
            final(self)@ == old(self)@.tab_closed(),
            final(self)@.wf(),
    {
        if self.apps.len() <= 1 {
            self.request_quit();
            return;
        }
        let c = self.current;
        let ghost before = self.apps@;
        let ghost roots = self.roots@;
        assert(texts(roots).len() == roots.len());
        self.apps.remove(c);
        self.roots.remove(c);
        if self.current >= self.apps.len() {
            self.current = self.apps.len() - 1;
        }
        assert(apps_view(self.apps@) =~= apps_view(before).remove(c as int));
        assert(texts(self.roots@) =~= texts(roots).remove(c as int));
        assert forall|k: int| 0 <= k < self@.apps.len() implies picker_fits(
            #[trigger] self@.apps[k],
        ) by {
            if k < c {
                assert(picker_fits(old(self)@.apps[k]));
            } else {
                assert(picker_fits(old(self)@.apps[k + 1]));
            }
        }
    }

    /// Whether it is time to end.
    pub fn should_quit(&self) -> (yes: bool)
        ensures
            yes == self@.is_done(),
    {
        if self.quit {
            return true;
        }
        let mut i: usize = 0;
        while i < self.apps.len()
            invariant
                i <= self.apps@.len(),
                !self.quit,
                forall|k: int| 0 <= k < i ==> !(#[trigger] self@.apps[k]).quit,
            decreases self.apps@.len() - i,
        {
            assert(self@.apps[i as int] == self.apps@[i as int]@);
            if self.apps[i].quit {
                return true;
            }
            i += 1;
        }
        false
    }
}

impl Workspace {
    /// Edits the path that is typed, if the key is one for that.
    fn edit_path(&mut self, key: KeyCode) -> (done: bool)
        requires
            old(self)@.wf(),
        ensures
            done == (edited(old(self)@.app().draft, key) is Some),
            done ==> final(self)@ == old(self)@.with_app(
                (AppView {
                    draft: edited(old(self)@.app().draft, key)->0,
                    ..old(self)@.app()
                }),
            ),
            !done ==> final(self)@ == old(self)@,
            final(self)@.wf(),
    {
        let c = self.current;
        let ghost before = self.apps@;
        assert(picker_fits(self@.apps[c as int]));
        let done = edit(&mut self.apps[c].draft, key);
        proof {
            assert(self.apps@ =~= before.update(c as int, self.apps@[c as int]));
            lemma_update(before, c as int, self.apps@[c as int]);
            if !done {
                assert(self@.apps =~= old(self)@.apps);
            }
        }
        done
    }

    /// Goes back from the typed path to the list.
    fn leave_path(&mut self)
        requires
            old(self)@.wf(),
            old(self)@.app().open_browser is Some,
        ensures
            final(self)@ == old(self)@.path_left(old(self)@.app().open_browser->0),
            final(self)@.wf(),
    {
        let at = self.current;
        let ghost before = self.apps@;
        assert(picker_fits(self@.apps[at as int]));
        if let Some(b) = self.apps[at].open_browser_mut() {
            b.editing_path = false;
        }
        let ghost between = self.apps@;
        self.apps[at].draft.clear();
        proof {
            assert(self.apps@ =~= before.update(at as int, self.apps@[at as int]));
            lemma_update(before, at as int, self.apps@[at as int]);
            assert(self.apps@[at as int]@ =~= (AppView {
                draft: between[at as int]@.draft.cleared(),
                ..between[at as int]@
            }));
        }
    }

    /// A key while a path is typed in the picker.
    fn on_key_path(&mut self, key: KeyCode) -> (request: Request)
        requires
            old(self)@.wf(),
            old(self)@.app().open_browser is Some,
        ensures
            (final(self)@, request@) == old(self)@.path_key(
                old(self)@.app().open_browser->0,
                key,
            ),
            final(self)@.wf(),
    {
        if self.edit_path(key) {
            return Request::Nothing;
        }
        match key {
            KeyCode::Enter => Request::Resolve(self.apps[self.current].draft.text.clone()),
            KeyCode::Esc => {
                self.leave_path();
                Request::Nothing
            },
            _ => Request::Nothing,
        }
    }

    fn filter_folders(&mut self, c: char)
        requires
            old(self)@.wf(),
            old(self)@.app().open_browser is Some,
        ensures
            final(self)@ == old(self)@.with_browser(
                old(self)@.app().open_browser->0.with_filter(
                    old(self)@.app().open_browser->0.filter.push(c),
                ),
            ),
            final(self)@.wf(),
    {
        let at = self.current;
        let ghost before = self.apps@;
        assert(picker_fits(self@.apps[at as int]));
        if let Some(b) = self.apps[at].open_browser_mut() {
            b.push_filter_char(c);
        }
        proof {
            lemma_update(before, at as int, self.apps@[at as int]);
        }
    }

    fn unfilter_folders(&mut self)
        requires
            old(self)@.wf(),
            old(self)@.app().open_browser matches Some(b) && b.filter.len() > 0,
        ensures
            final(self)@ == old(self)@.with_browser(
                old(self)@.app().open_browser->0.with_filter(
                    old(self)@.app().open_browser->0.filter.drop_last(),
                ),
            ),
            final(self)@.wf(),
    {
        let at = self.current;
        let ghost before = self.apps@;
        assert(picker_fits(self@.apps[at as int]));
        if let Some(b) = self.apps[at].open_browser_mut() {
            b.pop_filter_char();
        }
        proof {
            lemma_update(before, at as int, self.apps@[at as int]);
        }
    }

    fn clear_folder_filter(&mut self)
        requires
            old(self)@.wf(),
            old(self)@.app().open_browser is Some,
        ensures
            final(self)@ == old(self)@.with_browser(
                old(self)@.app().open_browser->0.with_filter(Seq::empty()),
            ),
            final(self)@.wf(),
    {
        let at = self.current;
        let ghost before = self.apps@;
        assert(picker_fits(self@.apps[at as int]));
        if let Some(b) = self.apps[at].open_browser_mut() {
            b.clear_filter();
        }
        proof {
            lemma_update(before, at as int, self.apps@[at as int]);
        }
    }

    fn move_in_folders(&mut self, delta: isize)
        requires
            old(self)@.wf(),
            old(self)@.app().open_browser is Some,
        ensures
            final(self)@ == old(self)@.with_browser(
                old(self)@.app().open_browser->0.moved(delta as int),
            ),
            final(self)@.wf(),
    {
        let at = self.current;
        let ghost before = self.apps@;
        assert(picker_fits(self@.apps[at as int]));
        if let Some(b) = self.apps[at].open_browser_mut() {
            b.move_cursor(delta);
        }
        proof {
            lemma_update(before, at as int, self.apps@[at as int]);
        }
    }

    /// Begins to type a path.
    fn begin_path(&mut self)
        requires
            old(self)@.wf(),
            old(self)@.app().open_browser is Some,
        ensures
            final(self)@ == old(self)@.path_begun(old(self)@.app().open_browser->0),
            final(self)@.wf(),
    {
        let at = self.current;
        let ghost before = self.apps@;
        assert(picker_fits(self@.apps[at as int]));
        if let Some(b) = self.apps[at].open_browser_mut() {
            b.editing_path = true;
        }
        let ghost between = self.apps@;
        self.apps[at].draft.clear();
        proof {
            assert(self.apps@ =~= before.update(at as int, self.apps@[at as int]));
            lemma_update(before, at as int, self.apps@[at as int]);
            assert(self.apps@[at as int]@ =~= (AppView {
                draft: between[at as int]@.draft.cleared(),
                ..between[at as int]@
            }));
        }
    }

    fn clear_path(&mut self)
        requires
            old(self)@.wf(),
        ensures
            final(self)@ == old(self)@.with_app(
                (AppView { draft: old(self)@.app().draft.cleared(), ..old(self)@.app() }),
            ),
            final(self)@.wf(),
    {
        let at = self.current;
        let ghost before = self.apps@;
        assert(picker_fits(self@.apps[at as int]));
        self.apps[at].clear_draft();
        proof {
            lemma_update(before, at as int, self.apps@[at as int]);
        }
    }

    fn close_picker(&mut self)
        requires
            old(self)@.wf(),
        ensures
            final(self)@ == old(self)@.with_app(old(self)@.app().picker_closed()),
            final(self)@.wf(),
    {
        let at = self.current;
        let ghost before = self.apps@;
        self.apps[at].cancel_open_project();
        proof {
            lemma_update(before, at as int, self.apps@[at as int]);
            reveal(AppView::picker_closed);
        }
    }

    /// A key in the list of the picker.
    fn on_key_list(&mut self, key: KeyCode) -> (request: Request)
        requires
            old(self)@.wf(),
            old(self)@.app().open_browser matches Some(b) && !b.editing_path,
        ensures
            (final(self)@, request@) == old(self)@.list_key(
                old(self)@.app().open_browser->0,
                key,
            ),
            final(self)@.wf(),
    {
        let filtered = match &self.apps[self.current].open_browser {
            Some(b) => b.filter.as_str().unicode_len() > 0,
            None => false,
        };
        match key {
            KeyCode::Char(c) => self.filter_folders(c),
            KeyCode::Backspace => {
                if !filtered {
                    return self.browser_up();
                }
                self.unfilter_folders();
            },
            KeyCode::Up => self.move_in_folders(-1),
            KeyCode::Down => self.move_in_folders(1),
            KeyCode::Enter => {
                return self.open_selected();
            },
            KeyCode::Right => {
                return self.descend_selected();
            },
            KeyCode::Left => {
                return self.browser_up();
            },
            KeyCode::Tab => self.begin_path(),
            KeyCode::Esc => {
                if filtered {
                    self.clear_folder_filter();
                } else {
                    self.close_picker();
                }
            },
            _ => {},
        }
        Request::Nothing
    }

    /// A key in the picker.
    fn on_key_browser(&mut self, key: KeyCode) -> (request: Request)
        requires
            old(self)@.wf(),
        ensures
            (final(self)@, request@) == old(self)@.browser_key(key),
            final(self)@.wf(),
    {
        match &self.apps[self.current].open_browser {
            Some(b) => if b.editing_path {
                self.on_key_path(key)
            } else {
                self.on_key_list(key)
            },
            None => {
                match key {
                    KeyCode::Tab => self.clear_path(),
                    KeyCode::Esc => self.close_picker(),
                    _ => {},
                }
                Request::Nothing
            },
        }
    }

    /// A key while it is asked whether to make a repository.
    fn on_key_confirm(&mut self, key: KeyCode) -> (request: Request)
        requires
            old(self)@.wf(),
        ensures
            (final(self)@, request@) == old(self)@.confirm_key(key),
            final(self)@.wf(),
    {
        let c = self.current;
        match key {
            KeyCode::Char(_) | KeyCode::Backspace | KeyCode::Esc => {
                let ghost before = self.apps@;
                assert(picker_fits(self@.apps[c as int]));
                self.apps[c].back_to_open_project();
                proof {
                    lemma_update(before, c as int, self.apps@[c as int]);
                }
                Request::Nothing
            },
            KeyCode::Enter => Request::Init(self.apps[c].draft.text.clone()),
            _ => Request::Nothing,
        }
    }

    fn press_in_app(&mut self, key: KeyCode, shift_held: bool)
        requires
            old(self)@.wf(),
        ensures
            final(self)@ == old(self)@.with_app(old(self)@.app().pressed(key, shift_held)),
            final(self)@.wf(),
    {
        let c = self.current;
        let ghost before = self.apps@;
        assert(picker_fits(self@.apps[c as int]));
        self.apps[c].on_key_with_modifiers(key, shift_held);
        proof {
            lemma_update(before, c as int, self.apps@[c as int]);
            law_keys_leave_picker(before[c as int]@, key, shift_held);
        }
    }

    fn on_key_tabs(&mut self, key: KeyCode, shift_held: bool) -> (request: Request)
        requires
            old(self)@.wf(),
        ensures
            (final(self)@, request@) == old(self)@.tab_key(key, shift_held),
            final(self)@.wf(),
    {
        let mode = self.apps[self.current].mode;
        assert(texts(self.roots@).len() == self.roots@.len());
        assert(texts(self.roots@)[self.current as int] == self.roots@[self.current as int]@);
        if (mode == Mode::Normal || mode == Mode::FullDiff) && !has_key(&self.config.keys.quit, key)
            && has_key(&self.config.keys.project_close, key) {
            self.close_current_project();
        } else if mode == Mode::Normal && has_key(&self.config.keys.project_open, key) {
            return Request::Browse(self.roots[self.current].clone());
        } else if mode == Mode::Normal && self.apps.len() > 1 && has_key(
            &self.config.keys.project_next,
            key,
        ) {
            self.next();
        } else if mode == Mode::Normal && self.apps.len() > 1 && has_key(
            &self.config.keys.project_prev,
            key,
        ) {
            self.prev();
        } else {
            self.press_in_app(key, shift_held);
        }
        Request::Nothing
    }

    /// A key pressed, with or without Shift. Returns what is asked because of
    /// it.
    pub fn on_key_with_modifiers(&mut self, key: KeyCode, shift_held: bool) -> (request: Request)
        requires
            old(self)@.wf(),
        ensures
            (final(self)@, request@) == old(self)@.pressed(key, shift_held),
            final(self)@.wf(),
    {
        match self.apps[self.current].mode {
            Mode::OpenProject => self.on_key_browser(key),
            Mode::ConfirmInit => self.on_key_confirm(key),
            _ => self.on_key_tabs(key, shift_held),
        }
    }

    /// A key pressed where nothing is known of Shift: `A` counts as typed with
    /// it.
    pub fn on_key(&mut self, key: KeyCode) -> (request: Request)
        requires
            old(self)@.wf(),
        ensures
            (final(self)@, request@) == old(self)@.pressed(key, key == KeyCode::Char('A')),
            final(self)@.wf(),
    {
        self.on_key_with_modifiers(key, key == KeyCode::Char('A'))
    }

    /// Takes in the answers of the workers: `results` holds those of each
    /// project, in the order of the tabs.
    pub fn poll(&mut self, results: Vec<Vec<JobResult>>)
        requires
            old(self)@.wf(),
        ensures
            final(self)@ == old(self)@.polled(results@),
            final(self)@.wf(),
    {
        let n = self.apps.len();
        let ghost before = self.apps@;
        let ghost all = results@;
        let mut results = results;
        let mut i: usize = n;
        while results.len() > n
            invariant
                results@ == all.take(results@.len() as int),
                results@.len() <= all.len(),
                results@.len() >= n || results@.len() == all.len(),
            decreases results@.len(),
        {
            results.pop();
            assert(results@ =~= all.take(results@.len() as int));
        }
        while i > 0
            invariant
                i <= n,
                n == before.len(),
                self.apps@.len() == n,
                self.roots == old(self).roots,
                self.config == old(self).config,
                self.config_path == old(self).config_path,
                self.current == old(self).current,
                self.quit == old(self).quit,
                results@.len() <= i,
                results@.len() <= all.len(),
                all.len() >= i ==> results@.len() == i,
                all.len() < i ==> results@.len() == all.len(),
                results@ == all.take(results@.len() as int),
                forall|k: int|
                    i <= k < n ==> (#[trigger] self.apps@[k])@ == before[k]@.polled(
                        answers_of(all, k),
                    ),
                forall|k: int| 0 <= k < i ==> #[trigger] self.apps@[k] == before[k],
            decreases i,
        {
            i -= 1;
            let own = if results.len() > i {
                match results.pop() {
                    Some(r) => r,
                    None => Vec::new(),
                }
            } else {
                Vec::new()
            };
            assert(own@ =~= answers_of(all, i as int));
            assert(results@ =~= all.take(results@.len() as int));
            self.apps[i].poll(own);
        }
        assert(self@.apps =~= old(self)@.polled(all).apps);
        assert forall|k: int| 0 <= k < self@.apps.len() implies picker_fits(
            #[trigger] self@.apps[k],
        ) by {
            assert(picker_fits(old(self)@.apps[k]));
            law_answers_leave_picker(before[k]@, answers_of(all, k));
        }
    }
}

} // verus!
