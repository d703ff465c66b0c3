//! Tabs and the picker, on a disk in memory.

use git_tui::app_model::Mode;
use git_tui::browser::DirEntry;
use git_tui::config::{Config, KeyCode};
use git_tui::jobs::{Job, JobResult};
use git_tui::model::{RepoStatus, StatusEntry};
use git_tui::workspace::{Found, Init, Jump, Project, Request, Workspace};
use std::collections::BTreeSet;

/// Directories, repositories and files by their absolute paths.
#[derive(Default)]
struct Disk {
    dirs: BTreeSet<String>,
    repos: BTreeSet<String>,
    bare: BTreeSet<String>,
    files: BTreeSet<String>,
    home: String,
}

fn parent(path: &str) -> Option<String> {
    let cut = path.rfind('/')?;
    if path == "/" {
        None
    } else if cut == 0 {
        Some("/".into())
    } else {
        Some(path[..cut].into())
    }
}

impl Disk {
    fn dir(&mut self, path: &str) {
        let mut at = Some(path.to_string());
        while let Some(p) = at {
            at = parent(&p);
            self.dirs.insert(p);
        }
    }

    fn repo(&mut self, path: &str) {
        self.dir(path);
        self.repos.insert(path.into());
    }

    fn list(&self, dir: &str) -> Result<Vec<DirEntry>, String> {
        if !self.dirs.contains(dir) {
            return Err(format!("cannot read {dir}"));
        }
        Ok(self
            .dirs
            .iter()
            .filter(|d| parent(d).as_deref() == Some(dir))
            .map(|d| DirEntry {
                name: d.rsplit('/').next().unwrap().to_string(),
                is_repo_root: self.repos.contains(d),
            })
            .collect())
    }

    fn project(&self, root: &str) -> Project {
        Project {
            root: root.into(),
            canon: root.into(),
            name: root.rsplit('/').next().unwrap().into(),
        }
    }

    fn discover(&self, path: &str) -> Found {
        let mut at = Some(path.to_string());
        while let Some(p) = at {
            if self.bare.contains(&p) {
                return Found::Failed(format!("{p} is a bare repository"));
            }
            if self.repos.contains(&p) {
                return Found::Repo(self.project(&p));
            }
            at = parent(&p);
        }
        Found::NotARepo { is_dir: self.dirs.contains(path) }
    }

    fn resolve(&self, input: &str) -> Result<String, String> {
        if input.trim().is_empty() {
            return Err("enter a path".into());
        }
        let path = if input == "~" { self.home.clone() } else { input.to_string() };
        if self.dirs.contains(&path) || self.files.contains(&path) {
            Ok(path)
        } else {
            Err(format!("no such path: {path}"))
        }
    }

    fn jump(&self, input: &str) -> Jump {
        match self.resolve(input) {
            Err(e) => Jump::Failed(e),
            Ok(path) if self.files.contains(&path) => Jump::NotADir { path },
            Ok(dir) => Jump::Dir { listing: self.list(&dir), dir },
        }
    }
}

struct Fixture {
    disk: Disk,
    ws: Workspace,
}

impl Fixture {
    fn on_key(&mut self, key: KeyCode) {
        let mut request = self.ws.on_key(key);
        loop {
            request = match request {
                Request::Nothing => return,
                Request::Browse(dir) => {
                    let listing = self.disk.list(&dir);
                    self.ws.begin_open_project(dir, listing);
                    Request::Nothing
                }
                Request::List(dir) => {
                    let listing = self.disk.list(&dir);
                    self.ws.enter_folder(dir, listing);
                    Request::Nothing
                }
                Request::Discover(path) => {
                    let found = self.disk.discover(&path);
                    self.ws.open_path(path, found)
                }
                Request::Resolve(input) => {
                    self.ws.submit_jump_path(self.disk.jump(&input));
                    Request::Nothing
                }
                Request::Init(input) => {
                    let init = match self.disk.resolve(&input) {
                        Err(e) => Init::Failed(e),
                        Ok(path) if self.disk.files.contains(&path) => Init::NotADir { path },
                        Ok(dir) => {
                            self.disk.repo(&dir);
                            Init::Repo { project: self.disk.project(&dir), dir }
                        }
                    };
                    self.ws.confirm_init_project(init)
                }
                Request::Spawn { project, made } => {
                    self.ws.finish_open(project, made, Ok(()));
                    Request::Nothing
                }
            };
        }
    }

    fn type_text(&mut self, text: &str) {
        for c in text.chars() {
            self.on_key(KeyCode::Char(c));
        }
    }

    /// Drive the UI the way a user would: `o`, `tab`, type the path,
    /// Enter (jump there), Enter (open the folder via `.`).
    fn ui_open_path(&mut self, path: &str) {
        self.ui_jump_to(path);
        self.on_key(KeyCode::Enter);
    }

    /// Jump the browser via the `tab` editor (mirrors `ui_open_path`
    /// without opening anything afterwards).
    fn ui_jump_to(&mut self, path: &str) {
        self.on_key(KeyCode::Char('o'));
        self.on_key(KeyCode::Tab);
        self.type_text(path);
        self.on_key(KeyCode::Enter);
    }

    fn browser_error(&self) -> String {
        self.ws
            .current()
            .open_browser()
            .and_then(|b| b.error.clone())
            .unwrap_or_default()
    }

    /// The workers answer: every repository holds one clean file.
    fn poll(&mut self) {
        let results = self
            .ws
            .apps
            .iter_mut()
            .map(|app| {
                app.queue
                    .take()
                    .into_iter()
                    .filter(|j| matches!(j, Job::RefreshStatus))
                    .map(|_| {
                        JobResult::Status(RepoStatus {
                            branch: "main".into(),
                            head_summary: "init".into(),
                            files: Vec::<StatusEntry>::new(),
                            tracked_files: vec!["a.txt".into()],
                        })
                    })
                    .collect()
            })
            .collect();
        self.ws.poll(results);
    }
}

const A: &str = "/tmp/repo-a";
const B: &str = "/tmp/repo-b";

fn open(paths: &[&str]) -> Fixture {
    let mut disk = Disk { home: "/home/me".into(), ..Default::default() };
    disk.repo(A);
    disk.repo(B);
    disk.dir("/home/me");
    disk.files.insert(format!("{A}/a.txt"));
    let projects = paths.iter().map(|p| disk.project(p)).collect();
    let ws = Workspace::open(projects, Config::default(), None).unwrap();
    Fixture { disk, ws }
}

#[test]
fn opens_each_repo_with_isolated_state() {
    let fx = open(&[A, B]);
    assert_eq!(fx.ws.len(), 2);
    assert_eq!(fx.ws.current().repo_name(), "repo-a");
    assert_eq!(fx.ws.project_name(1), "repo-b");
}

#[test]
fn switching_wraps_around() {
    let mut fx = open(&[A, B]);
    fx.ws.next();
    assert_eq!(fx.ws.index(), 1);
    fx.ws.next();
    assert_eq!(fx.ws.index(), 0);
    fx.ws.prev();
    assert_eq!(fx.ws.index(), 1);
}

#[test]
fn duplicate_paths_open_only_once() {
    let fx = open(&[A, A]);
    assert_eq!(fx.ws.len(), 1);
}

#[test]
fn opening_nothing_is_an_error() {
    let e = Workspace::open(Vec::new(), Config::default(), None).err().unwrap();
    assert_eq!(e, "no repositories to open");
}

#[test]
fn project_keys_cycle_only_from_normal_mode() {
    let mut fx = open(&[A, B]);
    fx.on_key(KeyCode::Char(']'));
    assert_eq!(fx.ws.index(), 1);
    fx.ws.current_mut().on_key(KeyCode::Char('c'));
    fx.on_key(KeyCode::Char(']'));
    assert_eq!(fx.ws.index(), 1, "commit draft must win over project switch");
}

#[test]
fn open_key_shows_browser_at_current_root() {
    let mut fx = open(&[A]);
    fx.on_key(KeyCode::Char('o'));
    assert_eq!(fx.ws.current().mode(), Mode::OpenProject);
    let browser = fx.ws.current().open_browser().expect("browser is open");
    assert_eq!(
        browser.cwd, A,
        "browser starts at the current project so siblings are nearby"
    );
    assert!(!browser.editing_path);
}

#[test]
fn open_project_from_app_adds_and_selects_tab() {
    let mut fx = open(&[A]);
    fx.ui_open_path(B);
    assert_eq!(fx.ws.len(), 2);
    assert_eq!(fx.ws.index(), 1);
    assert_eq!(fx.ws.current().mode(), Mode::Normal);
    // The picker closed on the tab it was opened from too: switching
    // back must land on a clean Normal mode, not the open browser.
    fx.ws.prev();
    assert_eq!(fx.ws.index(), 0);
    assert_eq!(fx.ws.current().mode(), Mode::Normal);
    assert!(fx.ws.current().open_browser().is_none());
}

#[test]
fn open_duplicate_switches_without_new_tab() {
    let mut fx = open(&[A, B]);
    assert_eq!(fx.ws.index(), 0);
    fx.ws.next();
    assert_eq!(fx.ws.index(), 1);
    fx.ui_open_path(A);
    assert_eq!(fx.ws.len(), 2, "duplicate must not add a tab");
    assert_eq!(fx.ws.index(), 0);
}

#[test]
fn enter_on_dot_opens_current_folder() {
    let mut fx = open(&[A]);
    fx.on_key(KeyCode::Char('o'));
    // `.` is pre-selected: Enter opens the browsed folder itself,
    // which here is already open, so it just closes the browser.
    fx.on_key(KeyCode::Enter);
    assert_eq!(fx.ws.current().mode(), Mode::Normal);
    assert_eq!(fx.ws.len(), 1);
}

#[test]
fn browser_navigates_down_up_and_marks_repo_roots() {
    let mut fx = open(&[A]);
    fx.disk.repo("/tmp/parent/aaa-repo");
    fx.disk.dir("/tmp/parent/zzz-plain");
    fx.ui_jump_to("/tmp/parent");
    {
        let b = fx.ws.current().open_browser().unwrap();
        let names: Vec<&str> = b.entries.iter().map(|e| e.name.as_str()).collect();
        assert_eq!(names, vec!["aaa-repo", "zzz-plain"]);
        assert!(b.entries[0].is_repo_root);
        assert!(!b.entries[1].is_repo_root);
    }
    // Down past `.`/`..` onto the repo dir, then descend into it.
    fx.on_key(KeyCode::Down);
    fx.on_key(KeyCode::Down);
    assert!(fx
        .ws
        .current()
        .open_browser()
        .unwrap()
        .selected_path()
        .ends_with("aaa-repo"));
    fx.on_key(KeyCode::Right);
    assert_eq!(fx.ws.current().open_browser().unwrap().cwd, "/tmp/parent/aaa-repo");
    // Back up to the parent.
    fx.on_key(KeyCode::Left);
    assert_eq!(fx.ws.current().open_browser().unwrap().cwd, "/tmp/parent");
}

#[test]
fn jump_to_tilde_via_tab_editor() {
    let mut fx = open(&[A]);
    fx.on_key(KeyCode::Char('o'));
    fx.on_key(KeyCode::Tab);
    assert!(fx.ws.current().open_browser().unwrap().editing_path);
    fx.type_text("~");
    fx.on_key(KeyCode::Enter);
    assert_eq!(fx.ws.current().open_browser().unwrap().cwd, "/home/me");
}

#[test]
fn typing_filters_this_folder_and_enter_opens_match() {
    let mut fx = open(&[A]);
    for name in ["alpha-proj", "beta-proj", "gamma-other"] {
        fx.disk.repo(&format!("/tmp/parent/{name}"));
    }
    fx.ui_jump_to("/tmp/parent");
    // No prefix key: typing narrows the listing to this folder's matches.
    fx.type_text("proj");
    {
        let b = fx.ws.current().open_browser().unwrap();
        assert_eq!(b.filter, "proj");
        let names: Vec<&str> = b.view.iter().map(|e| e.name.as_str()).collect();
        assert_eq!(names, vec!["alpha-proj", "beta-proj"]);
        // Fresh filter jumps the highlight to the first match.
        assert!(b.selected_path().ends_with("alpha-proj"));
    }
    fx.on_key(KeyCode::Enter);
    assert_eq!(fx.ws.len(), 2);
    assert_eq!(fx.ws.current().mode(), Mode::Normal);
}

#[test]
fn filter_no_match_stays_with_error_and_esc_clears() {
    let mut fx = open(&[A]);
    fx.disk.dir("/tmp/parent/alpha");
    fx.ui_jump_to("/tmp/parent");
    fx.type_text("zzz-nope");
    assert!(fx.ws.current().open_browser().unwrap().view.is_empty());
    fx.on_key(KeyCode::Enter);
    assert_eq!(fx.ws.current().mode(), Mode::OpenProject);
    assert!(
        fx.browser_error().contains("no folders matching"),
        "got: {}",
        fx.browser_error()
    );
    // Esc clears the filter and restores the full listing.
    fx.on_key(KeyCode::Esc);
    let b = fx.ws.current().open_browser().unwrap();
    assert!(b.filter.is_empty());
    assert_eq!(b.view.len(), b.entries.len());
    assert_eq!(fx.ws.current().mode(), Mode::OpenProject);
    // Second Esc closes the browser.
    fx.on_key(KeyCode::Esc);
    assert_eq!(fx.ws.current().mode(), Mode::Normal);
}

#[test]
fn filter_backspace_edits_then_goes_up_when_empty() {
    let mut fx = open(&[A]);
    fx.disk.dir("/tmp/parent/alpha");
    fx.ui_jump_to("/tmp/parent");
    fx.type_text("ab");
    assert_eq!(fx.ws.current().open_browser().unwrap().filter, "ab");
    fx.on_key(KeyCode::Backspace);
    assert_eq!(fx.ws.current().open_browser().unwrap().filter, "a");
    fx.on_key(KeyCode::Backspace);
    {
        let b = fx.ws.current().open_browser().unwrap();
        assert!(b.filter.is_empty());
        assert_eq!(b.view.len(), b.entries.len());
    }
    // Empty filter + Backspace goes up a level (old Backspace behavior).
    fx.on_key(KeyCode::Backspace);
    assert_eq!(fx.ws.current().open_browser().unwrap().cwd, "/tmp");
}

#[test]
fn jump_editor_edits_mid_text_with_cursor() {
    let mut fx = open(&[A]);
    fx.on_key(KeyCode::Char('o'));
    fx.on_key(KeyCode::Tab);
    fx.type_text("ab");
    fx.on_key(KeyCode::Left);
    fx.on_key(KeyCode::Backspace);
    assert_eq!(fx.ws.current().draft(), "b");
    fx.on_key(KeyCode::Home);
    fx.type_text("x");
    assert_eq!(fx.ws.current().draft(), "xb");
    fx.on_key(KeyCode::Esc);
    assert!(!fx.ws.current().open_browser().unwrap().editing_path);
}

#[test]
fn jump_to_file_is_an_error() {
    let mut fx = open(&[A]);
    fx.on_key(KeyCode::Char('o'));
    fx.on_key(KeyCode::Tab);
    fx.type_text(&format!("{A}/a.txt"));
    fx.on_key(KeyCode::Enter);
    assert_eq!(fx.ws.current().mode(), Mode::OpenProject);
    assert!(
        fx.browser_error().contains("not a directory"),
        "got: {}",
        fx.browser_error()
    );
}

#[test]
fn open_empty_input_stays_in_modal_with_error() {
    let mut fx = open(&[A]);
    fx.on_key(KeyCode::Char('o'));
    fx.on_key(KeyCode::Tab);
    fx.on_key(KeyCode::Enter);
    assert_eq!(fx.ws.current().mode(), Mode::OpenProject);
    assert!(!fx.browser_error().is_empty());
    assert_eq!(fx.ws.len(), 1);
}

#[test]
fn open_missing_path_stays_in_modal_with_error() {
    let mut fx = open(&[A]);
    fx.on_key(KeyCode::Char('o'));
    fx.on_key(KeyCode::Tab);
    fx.type_text("/definitely/not/here-git-tui-xyz");
    fx.on_key(KeyCode::Enter);
    assert_eq!(fx.ws.current().mode(), Mode::OpenProject);
    assert!(
        fx.browser_error().contains("no such path"),
        "got: {}",
        fx.browser_error()
    );
}

#[test]
fn open_bare_repo_stays_in_modal_with_error() {
    let mut fx = open(&[A]);
    fx.disk.dir("/tmp/parent/bare.git");
    fx.disk.bare.insert("/tmp/parent/bare.git".into());
    fx.ui_open_path("/tmp/parent/bare.git");
    assert_eq!(fx.ws.current().mode(), Mode::OpenProject);
    assert!(
        fx.browser_error().contains("bare"),
        "got: {}",
        fx.browser_error()
    );
}

#[test]
fn open_non_repo_dir_offers_init_then_opens() {
    let mut fx = open(&[A]);
    fx.disk.dir("/tmp/plain");
    fx.ui_open_path("/tmp/plain");
    assert_eq!(fx.ws.current().mode(), Mode::ConfirmInit);
    fx.on_key(KeyCode::Enter);
    assert_eq!(fx.ws.len(), 2);
    assert_eq!(fx.ws.current().mode(), Mode::Normal);
    assert!(fx.disk.repos.contains("/tmp/plain"));
    // Same as a plain open: the originating tab's picker is closed.
    fx.ws.prev();
    assert_eq!(fx.ws.current().mode(), Mode::Normal);
    assert!(fx.ws.current().open_browser().is_none());
}

#[test]
fn open_empty_repo_works_with_no_files() {
    let mut fx = open(&[A]);
    // Fresh `git init`, no commits, no files: the empty project.
    fx.disk.repo("/tmp/empty");
    fx.ui_open_path("/tmp/empty");
    assert_eq!(fx.ws.len(), 2);
    assert_eq!(fx.ws.current().mode(), Mode::Normal);
}

#[test]
fn esc_clears_filter_then_closes_and_keys_do_not_leak() {
    let mut fx = open(&[A, B]);
    fx.on_key(KeyCode::Char('o'));
    // `[`, `]` and `q` are filter text now, not actions.
    fx.on_key(KeyCode::Char('['));
    assert_eq!(fx.ws.index(), 0, "project_prev must not fire inside the browser");
    fx.on_key(KeyCode::Char('q'));
    assert!(!fx.ws.should_quit(), "quit must not fire inside the browser");
    assert_eq!(fx.ws.current().open_browser().unwrap().filter, "[q");
    assert_eq!(fx.ws.current().mode(), Mode::OpenProject);
    // First Esc clears the query, second closes the browser.
    fx.on_key(KeyCode::Esc);
    assert!(fx.ws.current().open_browser().unwrap().filter.is_empty());
    assert_eq!(fx.ws.current().mode(), Mode::OpenProject);
    fx.on_key(KeyCode::Esc);
    assert_eq!(fx.ws.current().mode(), Mode::Normal);
    assert_eq!(fx.ws.len(), 2);
}

#[test]
fn q_closes_current_project_and_keeps_selection() {
    let mut fx = open(&[A, B]);
    assert_eq!(fx.ws.len(), 2);
    assert_eq!(fx.ws.index(), 0);
    fx.on_key(KeyCode::Char('q'));
    assert!(!fx.ws.should_quit(), "closing one of two tabs must not quit");
    assert_eq!(fx.ws.len(), 1);
    assert_eq!(fx.ws.index(), 0);
}

#[test]
fn q_on_last_tab_quits_and_shift_q_quits_everything() {
    let mut fx = open(&[A, B]);
    fx.on_key(KeyCode::Char('Q'));
    assert!(fx.ws.should_quit(), "Shift+Q must quit the whole app");

    let mut fx = open(&[A]);
    fx.on_key(KeyCode::Char('q'));
    assert!(
        fx.ws.should_quit(),
        "closing the last tab must quit the application"
    );
}

#[test]
#[allow(non_snake_case)]
fn q_in_fullscreen_closes_project_and_Q_quits() {
    let mut fx = open(&[A, B]);
    // Wait for the file tree so Enter can open fullscreen.
    fx.poll();
    assert!(fx.ws.current().has_files());
    fx.on_key(KeyCode::Enter);
    assert_eq!(fx.ws.current().mode(), Mode::FullDiff);
    fx.on_key(KeyCode::Char('q'));
    assert_eq!(fx.ws.len(), 1, "q fullscreen must close the project");
    assert!(!fx.ws.should_quit());

    // Reopen to two tabs and verify Q quits from fullscreen.
    let mut fx = open(&[A, B]);
    fx.poll();
    assert!(fx.ws.current().has_files());
    fx.on_key(KeyCode::Enter);
    assert_eq!(fx.ws.current().mode(), Mode::FullDiff);
    fx.on_key(KeyCode::Char('Q'));
    assert!(fx.ws.should_quit(), "Q fullscreen must quit the app");
}

/// What is wrong with a directory is said in the picker or in the footer.
#[test]
fn refused_projects_leave_the_tabs() {
    let mut fx = open(&[A]);
    fx.on_key(KeyCode::Char('o'));
    let request = fx.ws.open_path("/x".into(), Found::NotARepo { is_dir: false });
    assert!(matches!(request, Request::Nothing));
    assert_eq!(
        fx.browser_error(),
        "not inside a git repository (searched upward from /x)"
    );
    let project = fx.disk.project(B);
    fx.ws.finish_open(project, None, Err("no threads".into()));
    assert_eq!(fx.browser_error(), format!("cannot open {B}: no threads"));
    assert_eq!(fx.ws.len(), 1);
    let project = fx.disk.project(B);
    fx.ws.finish_open(project, Some(B.into()), Err("no threads".into()));
    assert_eq!(
        fx.ws.current().error(),
        Some(format!("initialized {B}, but cannot open it: no threads").as_str())
    );
    fx.ws.confirm_init_project(Init::Refused { dir: "/x".into(), why: "read-only".into() });
    assert_eq!(fx.ws.current().error(), Some("cannot init /x: read-only"));
    fx.ws.confirm_init_project(Init::Lost { dir: "/x".into(), why: "gone".into() });
    assert_eq!(
        fx.ws.current().error(),
        Some("initialized /x, but cannot open it: gone")
    );
    fx.ws.confirm_init_project(Init::NotADir { path: "/f".into() });
    assert_eq!(fx.ws.current().error(), Some("cannot init here: /f"));
    fx.ws.confirm_init_project(Init::Failed("enter a path".into()));
    assert_eq!(fx.ws.current().error(), Some("enter a path"));
    assert_eq!(fx.ws.len(), 1);
}

/// Esc in the question goes back to the picker, where it was.
#[test]
fn a_declined_init_goes_back_to_the_picker() {
    let mut fx = open(&[A]);
    fx.disk.dir("/tmp/plain");
    fx.ui_open_path("/tmp/plain");
    assert_eq!(fx.ws.current().mode(), Mode::ConfirmInit);
    fx.on_key(KeyCode::Esc);
    assert_eq!(fx.ws.current().mode(), Mode::OpenProject);
    assert_eq!(fx.ws.current().open_browser().unwrap().cwd, "/tmp/plain");
    assert_eq!(fx.ws.len(), 1);
}

/// Closing the last of the tabs in the row selects the one before it.
#[test]
fn closing_the_rightmost_tab_moves_left() {
    let mut fx = open(&[A, B]);
    fx.ws.next();
    fx.ws.close_current_project();
    assert_eq!(fx.ws.len(), 1);
    assert_eq!(fx.ws.index(), 0);
    assert_eq!(fx.ws.project_name(0), "repo-a");
    assert_eq!(fx.ws.project_roots(), &vec![A.to_string()]);
}
