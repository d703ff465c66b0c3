//! What holds of the library as a whole, on values.

use git_tui::app::App;
use git_tui::app_actions::split_upstream;
use git_tui::app_model::{Focus, Mode};
use git_tui::browser::{DirEntry, OpenBrowser};
use git_tui::cli::{capital, parse_args, read_key, Press, Stop, USAGE};
use git_tui::clipboard::{base64_encode, osc52};
use git_tui::code_cells::{render_side, CodeStyle};
use git_tui::config::KeyCode;
use git_tui::diff_rows::{diff_rows, gutter_width, rows_unified_len, DiffRow, Side};
use git_tui::draft::{wrap_draft, Draft};
use git_tui::fuzzy::{fuzzy_score, rank};
use git_tui::jobs::{GitError, Job, JobResult};
use git_tui::layout::{centered_rect, compute_layout, follow_selection, Rect};
use git_tui::llm_form::LlmForm;
use git_tui::markdown_events::markdown_events;
use git_tui::markdown_wrap::render_markdown;
use git_tui::modal_pickers::cut_on_left;
use git_tui::model::{
    DiffLine, FileDiff, FileState, Hunk, LineKind, RepoStatus, StatusEntry, SyncStatus,
};
use git_tui::panel_lists::footer_height;
use git_tui::paths::{config_file, find_config_base};
use git_tui::screen::{render, render_workspace};
use git_tui::session::Session;
use git_tui::syntax::{find_syntax, Highlighter};
use git_tui::theme::Theme;
use git_tui::toml_highlight::highlight_toml_line;
use git_tui::tree::{Folded, Tree};
use git_tui::viewer::{Showing, Viewer, VisualMode};
use git_tui::width::{char_cells, width_of_line};
use git_tui::words::word_diff;
use git_tui::workspace::{Project, Workspace};

fn entry(path: &str, state: FileState) -> StatusEntry {
    StatusEntry { path: path.into(), state }
}

fn status(files: &[(&str, FileState)], known: &[&str]) -> RepoStatus {
    RepoStatus {
        branch: "main".into(),
        head_summary: "init".into(),
        files: files.iter().map(|(p, s)| entry(p, *s)).collect(),
        tracked_files: known.iter().map(|p| p.to_string()).collect(),
    }
}

fn app_with(files: &[(&str, FileState)]) -> App {
    let mut app = App::new();
    app.queue.take();
    app.poll(vec![JobResult::Status(status(files, &[]))]);
    app
}

fn line(kind: LineKind, text: &str) -> DiffLine {
    DiffLine { kind, text: text.into() }
}

fn hunk(old_start: u32, new_start: u32, lines: Vec<DiffLine>) -> Hunk {
    Hunk { header: format!("@@ -{old_start} +{new_start} @@"), old_start, new_start, lines }
}

fn diff(path: &str, hunks: Vec<Hunk>) -> FileDiff {
    FileDiff { path: path.into(), binary: false, hunks }
}

fn context(n: usize) -> Vec<DiffLine> {
    (0..n).map(|i| line(LineKind::Context, &format!("line {i}"))).collect()
}

fn press(app: &mut App, keys: &str) {
    for c in keys.chars() {
        app.on_key(KeyCode::Char(c));
    }
}

const FULL: Showing = Showing { markdown: false, full: true };

#[test]
fn scores_are_exact() {
    // Start at 4, next to it, 2 back for the boundary.
    assert_eq!(fuzzy_score("ap", "src/app.rs"), Some(2));
    assert_eq!(fuzzy_score("main", "a/very/deep/dir/tree/main.rs"), Some(19));
    // A gap of 4 costs 12; both hits stand at a boundary.
    assert_eq!(fuzzy_score("mr", "main.rs"), Some(8));
    assert_eq!(fuzzy_score("MR", "MAIN.rs"), Some(8));
    assert_eq!(rank("", &["bb", "a"]), vec![(1, 0), (0, 0)]);
}

#[test]
fn base64_can_be_decoded() {
    assert_eq!(base64_encode(&[0, 16, 131, 255, 254]), "ABCD//4=");
    assert_eq!(osc52("hello"), "\x1b]52;c;aGVsbG8=\x07");
    assert_eq!(osc52("é"), "\x1b]52;c;w6k=\x07");
}

#[test]
fn folding_a_folder_twice_changes_nothing() {
    let mut tree = Tree::new();
    tree.rebuild(&Some(status(
        &[("src/a.rs", FileState::Unstaged), ("src/b.rs", FileState::Unstaged)],
        &[],
    )));
    assert!(tree.toggle_folder());
    assert!(tree.collapsed.contains("src"));
    assert_eq!(tree.rows().len(), 1);
    assert_eq!(tree.header().as_deref(), Some("src"));
    tree.expand_at_cursor();
    assert!(!tree.collapsed.contains("src"));
    assert_eq!(tree.rows().len(), 3);
    assert_eq!(tree.file().unwrap().path, "src/a.rs");
}

#[test]
fn a_step_down_and_up_again_is_none() {
    let mut tree = Tree::new();
    let files = [
        ("a.txt", FileState::Unstaged),
        ("src/b.rs", FileState::Unstaged),
        ("z.txt", FileState::Unstaged),
    ];
    tree.rebuild(&Some(status(&files, &[])));
    for _ in 0..3 {
        let rows = tree.rows();
        let before = tree.cursor_row(&rows);
        assert!(tree.step(true));
        let rows = tree.rows();
        assert_eq!(tree.cursor_row(&rows), before.map(|i| i + 1));
        assert!(tree.step(false));
        let rows = tree.rows();
        assert_eq!(tree.cursor_row(&rows), before);
        assert!(tree.step(true));
    }
    assert!(!tree.step(true), "there is no row below the last");
}

#[test]
fn a_jump_shows_its_file() {
    let mut tree = Tree::new();
    tree.rebuild(&Some(status(
        &[("a.txt", FileState::Unstaged), ("src/deep/b.rs", FileState::Unstaged)],
        &[],
    )));
    tree.set_collapsed("src", true);
    tree.set_collapsed("src/deep", true);
    assert!(tree.is_hidden_index(1));
    tree.jump(1);
    assert!(!tree.is_hidden_index(1));
    assert_eq!(tree.file().unwrap().path, "src/deep/b.rs");
    // A shorter list keeps the selection on a file.
    tree.rebuild(&Some(status(&[("a.txt", FileState::Unstaged)], &[])));
    assert_eq!(tree.file().unwrap().path, "a.txt");
}

#[test]
fn folders_hide_what_is_below_them() {
    let mut folded = Folded::new();
    folded.insert("src");
    assert!(folded.hides("src/a.rs"));
    assert!(!folded.hides("src2/a.rs"));
    assert!(!folded.hides("src"));
    assert_eq!(folded.header_for("src/deep/b.rs").as_deref(), Some("src"));
    folded.remove("src");
    assert!(!folded.hides("src/a.rs"));
}

#[test]
fn what_is_typed_can_be_deleted() {
    let mut draft = Draft::new();
    draft.hold("héllo".into());
    assert_eq!(draft.at(), 0);
    draft.move_end();
    assert_eq!(draft.at(), 5);
    draft.move_left();
    draft.insert('x');
    assert_eq!(draft.text, "héllxo");
    draft.delete_before();
    assert_eq!(draft.text, "héllo");
    assert_eq!(draft.at(), 4);
    draft.delete_after();
    assert_eq!(draft.text, "héll");
    draft.delete_after();
    assert_eq!(draft.text, "héll");
}

#[test]
fn wrapped_rows_cover_the_draft() {
    let wrap = wrap_draft("hello world\nx", 7, 5);
    assert_eq!(wrap.bounds, vec![(0, 5), (5, 10), (10, 11), (12, 13)]);
    assert_eq!((wrap.cursor_row, wrap.cursor_col), (1, 2));
    // A wide character takes two cells.
    let wrap = wrap_draft("界界界", 0, 4);
    assert_eq!(wrap.bounds, vec![(0, 2), (2, 3)]);
}

#[test]
fn the_cursor_of_a_diff_stays_in_sight() {
    let mut v = Viewer::new();
    v.load(Some(diff("a.txt", vec![hunk(1, 1, context(20))])));
    v.set_full_height(4);
    v.move_cursor(10, FULL);
    assert_eq!((v.cursor_row(), v.scroll()), (10, 7));
    v.move_cursor(-2, FULL);
    assert_eq!((v.cursor_row(), v.scroll()), (8, 7), "a view that shows the cursor stays");
    v.move_cursor(-100, FULL);
    assert_eq!((v.cursor_row(), v.scroll()), (0, 0));
    v.move_cursor(100, FULL);
    assert_eq!(v.cursor_row(), 20);
    // A new diff is looked at from its top.
    v.load(Some(diff("a.txt", vec![hunk(1, 1, context(3))])));
    v.rewind();
    assert_eq!((v.cursor_row(), v.cursor_col(), v.scroll(), v.hunk()), (0, 0, 0, 0));
}

#[test]
fn a_selection_is_the_same_from_both_ends() {
    let mut v = Viewer::new();
    v.load(Some(diff("a.txt", vec![hunk(1, 1, context(5))])));
    v.move_cursor(1, FULL);
    v.begin_visual(VisualMode::Charwise, FULL);
    v.move_cursor(2, FULL);
    let down = v.selection().unwrap();
    v.begin_visual(VisualMode::Charwise, FULL);
    assert!(v.selection().is_none());
    v.begin_visual(VisualMode::Charwise, FULL);
    v.move_cursor(-2, FULL);
    let up = v.selection().unwrap();
    assert_eq!((down.start, down.end), ((1, 0), (3, 0)));
    assert_eq!((up.start, up.end), (down.start, down.end));
    v.begin_visual(VisualMode::Linewise, FULL);
    assert!(v.selection().unwrap().linewise);
    v.leave_visual();
    assert!(v.selection().is_none());
}

#[test]
fn hunks_are_jumped_to() {
    let mut v = Viewer::new();
    v.load(Some(diff("a.txt", vec![hunk(1, 1, context(3)), hunk(30, 30, context(2))])));
    v.next_hunk();
    v.snap_scroll(FULL);
    assert_eq!((v.hunk(), v.cursor_row()), (1, 4));
    v.next_hunk();
    assert_eq!(v.hunk(), 1);
    v.previous_hunk();
    assert_eq!(v.hunk(), 0);
}

#[test]
fn gutters_count_up_on_their_own_sides() {
    let lines = vec![
        line(LineKind::Del, "a"),
        line(LineKind::Del, "b"),
        line(LineKind::Add, "c"),
        line(LineKind::Context, "d"),
    ];
    let rows = diff_rows(&diff("a.txt", vec![hunk(7, 9, lines)]));
    let numbers: Vec<(Option<u128>, Option<u128>)> = rows
        .iter()
        .filter_map(|r| match r {
            DiffRow::Split { left, right } => Some((left.no, right.no)),
            DiffRow::Header { .. } => None,
        })
        .collect();
    assert_eq!(
        numbers,
        vec![(Some(7), Some(9)), (Some(8), None), (Some(9), Some(10))]
    );
}

#[test]
fn no_line_of_a_diff_is_lost() {
    let lines = vec![
        line(LineKind::Context, "one"),
        line(LineKind::Del, "let a = 1;"),
        line(LineKind::Del, "gone"),
        line(LineKind::Add, "let b = 1;"),
        line(LineKind::Context, "two"),
        line(LineKind::Add, "fresh"),
    ];
    let rows = diff_rows(&diff("a.txt", vec![hunk(1, 1, lines)]));
    let mut old: Vec<String> = Vec::new();
    let mut new: Vec<String> = Vec::new();
    for row in &rows {
        if let DiffRow::Split { left, right } = row {
            let text = |side: &Side| side.segs.iter().map(|s| s.text.as_str()).collect::<String>();
            if left.no.is_some() {
                old.push(text(left));
            }
            if right.no.is_some() {
                new.push(text(right));
            }
        }
    }
    assert_eq!(old, vec!["one", "let a = 1;", "gone", "two"]);
    assert_eq!(new, vec!["one", "let b = 1;", "two", "fresh"]);
    // One unified line per line, and one for the header.
    assert_eq!(rows_unified_len(&rows), 7);
}

#[test]
fn the_rows_of_a_side_fill_their_width() {
    let long = "a宽b".repeat(30);
    let lines = vec![line(LineKind::Context, "short"), line(LineKind::Del, long.as_str())];
    let rows = diff_rows(&diff("a.txt", vec![hunk(99_999, 1, lines)]));
    assert_eq!(gutter_width(&rows), 6);
    let code = CodeStyle {
        path: "a.txt".to_string(),
        by_file: None,
        gutter_w: gutter_width(&rows),
        theme: Theme::catppuccin(),
    };
    let mut hl = Highlighter::new();
    let mut seen: Vec<usize> = Vec::new();
    for row in &rows {
        if let DiffRow::Split { left, .. } = row {
            let shown = render_side(&mut hl, left, 20, &code);
            for spans in &shown {
                let text: String = spans.iter().map(|s| s.text.as_str()).collect();
                assert_eq!(unicode_width::UnicodeWidthStr::width(text.as_str()), 20, "{text:?}");
            }
            seen.push(shown.len());
        }
    }
    // The long line takes its two rows and ends in an ellipsis.
    assert_eq!(seen, vec![1, 2]);
}

#[test]
fn an_unreadable_folder_keeps_its_old_listing() {
    let entries = vec![DirEntry { name: "src".into(), is_repo_root: false }];
    let mut b = OpenBrowser::at("/tmp".into(), Ok(entries));
    b.push_filter_char('z');
    assert!(b.view.is_empty());
    b.rescan(Err("denied".into()));
    assert_eq!(b.error.as_deref(), Some("denied"));
    assert_eq!(b.entries.len(), 1);
    assert_eq!(b.view.len(), 1);
    assert!(b.filter.is_empty());
    b.rescan(Ok(Vec::new()));
    assert!(b.error.is_none() && b.entries.is_empty());
}

#[test]
fn long_paths_are_cut_between_characters() {
    assert_eq!(cut_on_left("/home/me", 8, 7), "/home/me");
    assert_eq!(cut_on_left("/home/mee", 8, 7), "…ome/mee");
    // Two bytes are kept; the second byte of `é` is no place to cut.
    assert_eq!(cut_on_left("aéb", 3, 2), "…b");
    assert_eq!(cut_on_left("aéb", 3, 3), "…éb");
}

#[test]
fn a_narrow_side_is_one_clipped_gutter() {
    let rows = diff_rows(&diff("a.txt", vec![hunk(1, 1, vec![line(LineKind::Context, "x")])]));
    let code = CodeStyle {
        path: "a.txt".to_string(),
        by_file: None,
        gutter_w: gutter_width(&rows),
        theme: Theme::catppuccin(),
    };
    let mut hl = Highlighter::new();
    if let DiffRow::Split { left, .. } = &rows[1] {
        for width in 0..=5 {
            let shown = render_side(&mut hl, left, width, &code);
            assert_eq!(shown.len(), 1);
            let text: String = shown[0].iter().map(|s| s.text.as_str()).collect();
            assert_eq!(text.chars().count(), width);
        }
    } else {
        panic!("a context row");
    }
}

#[test]
fn the_form_keeps_its_rows() {
    let mut draft = Draft::new();
    let mut form = LlmForm::new();
    draft.hold("openai".into());
    form.move_selection(&mut draft, true);
    assert_eq!(form.row(), 1);
    draft.hold("gpt".into());
    form.move_selection(&mut draft, false);
    assert_eq!(form.row(), 0);
    assert_eq!(draft.text, "openai");
    assert_eq!(form.value(1, &draft), "gpt");
}

#[test]
fn a_key_dismisses_the_last_message() {
    let mut app = app_with(&[("a.txt", FileState::Conflicted)]);
    press(&mut app, " ");
    assert!(app.error().is_some());
    press(&mut app, "j");
    assert!(app.error().is_none());
    app.notice = Some("done".into());
    press(&mut app, "j");
    assert!(app.notice().is_none());
}

#[test]
fn a_conflict_blocks_its_folder_and_no_other() {
    let mut app = app_with(&[
        ("a/x.rs", FileState::Unstaged),
        ("a/y.rs", FileState::Conflicted),
        ("b/z.rs", FileState::Unstaged),
    ]);
    app.queue.take();
    app.tree.set_collapsed("a", true);
    press(&mut app, " ");
    assert!(app.error().unwrap().contains("a/y.rs"));
    assert!(app.queue.take().is_empty(), "nothing of the folder is staged");
    app.tree.set_collapsed("b", true);
    app.tree.selected = 2;
    press(&mut app, " ");
    let staged: Vec<String> = app
        .queue
        .take()
        .into_iter()
        .filter_map(|j| match j {
            Job::StageFile { path } => Some(path),
            _ => None,
        })
        .collect();
    assert_eq!(staged, vec!["b/z.rs".to_string()]);
}

#[test]
fn discarding_a_folder_stays_in_it() {
    let mut app = app_with(&[
        ("a/x.rs", FileState::Unstaged),
        ("ab/y.rs", FileState::Unstaged),
    ]);
    app.queue.take();
    app.tree.set_collapsed("a", true);
    press(&mut app, "d");
    let gone: Vec<String> = app
        .queue
        .take()
        .into_iter()
        .filter_map(|j| match j {
            Job::DiscardFile { path } => Some(path),
            _ => None,
        })
        .collect();
    assert_eq!(gone, vec!["a/x.rs".to_string()]);
}

#[test]
fn a_diff_is_asked_for_once_and_a_stale_one_is_dropped() {
    let mut app = app_with(&[("a.txt", FileState::Unstaged), ("b.txt", FileState::Unstaged)]);
    let diffs = |jobs: Vec<Job>| {
        jobs.into_iter()
            .filter_map(|j| match j {
                Job::LoadDiff { path, staged } => Some((path, staged)),
                _ => None,
            })
            .collect::<Vec<(String, bool)>>()
    };
    assert_eq!(diffs(app.queue.take()), vec![("a.txt".to_string(), false)]);
    app.poll(vec![JobResult::Status(status(
        &[("a.txt", FileState::Unstaged), ("b.txt", FileState::Unstaged)],
        &[],
    ))]);
    assert!(diffs(app.queue.take()).is_empty());
    press(&mut app, "j");
    app.poll(Vec::new());
    assert_eq!(diffs(app.queue.take()), vec![("b.txt".to_string(), false)]);
    app.apply(JobResult::Diff(diff("a.txt", vec![hunk(1, 1, context(1))])));
    assert!(app.diff().is_none(), "the diff of another file is not shown");
    app.apply(JobResult::Diff(diff("b.txt", vec![hunk(1, 1, context(1))])));
    assert_eq!(app.diff().unwrap().path, "b.txt");
}

#[test]
fn markdown_is_asked_for_once() {
    let mut app = App::new();
    app.apply(JobResult::Status(status(&[("a.md", FileState::Unstaged)], &[])));
    app.queue.take();
    app.apply(JobResult::Diff(diff("a.md", vec![hunk(1, 1, context(1))])));
    if !app.show_markdown_preview() {
        app.toggle_markdown_preview();
    }
    app.poll(Vec::new());
    app.poll(Vec::new());
    let asked = app
        .queue
        .take()
        .iter()
        .filter(|j| matches!(j, Job::LoadMarkdown { path, .. } if path == "a.md"))
        .count();
    assert_eq!(asked, 1);
    app.poll(vec![JobResult::Markdown {
        path: "a.md".into(),
        staged: false,
        text: "# x".into(),
    }]);
    assert_eq!(app.markdown_text(), Some("# x"));
    assert!(!app.queue.take().iter().any(|j| matches!(j, Job::LoadMarkdown { .. })));
}

#[test]
fn a_change_is_followed_by_a_refresh() {
    let mut app = app_with(&[("a.txt", FileState::Unstaged)]);
    app.queue.take();
    app.apply(JobResult::MutationDone);
    assert!(app.queue.take().iter().any(|j| matches!(j, Job::RefreshStatus)));
    app.apply(JobResult::Error(GitError::NotARepo("/tmp".into())));
    assert!(app.error().is_some());
}

#[test]
fn a_blank_draft_does_nothing() {
    for (keys, mode) in [("c", Mode::Committing), ("2a", Mode::NewBranch), ("4a", Mode::StashPush)] {
        let mut app = app_with(&[("a.txt", FileState::Staged)]);
        press(&mut app, keys);
        assert_eq!(app.mode(), mode);
        press(&mut app, "  ");
        app.queue.take();
        app.on_key(KeyCode::Enter);
        assert!(app.queue.take().iter().all(|j| !matches!(
            j,
            Job::Commit { .. } | Job::CreateBranch { .. }
        )));
    }
}

#[test]
fn focus_goes_round() {
    let mut app = app_with(&[]);
    for _ in 0..4 {
        app.on_key(KeyCode::Tab);
    }
    assert_eq!(app.focus(), Focus::Status);
}

#[test]
fn a_push_asks_where_to() {
    let mut app = app_with(&[]);
    app.apply(JobResult::SyncStatus(SyncStatus {
        upstream: None,
        ahead: 0,
        behind: 0,
        remotes: vec!["fork".into()],
    }));
    press(&mut app, "P");
    assert_eq!(app.mode(), Mode::SetUpstream);
    assert_eq!(app.draft(), "origin");
    assert_eq!(
        split_upstream("origin/feat/x"),
        ("origin".to_string(), "feat/x".to_string())
    );
    assert_eq!(split_upstream("origin"), ("origin".to_string(), "origin".to_string()));
}

#[test]
fn a_closed_worker_is_reported() {
    let mut app = app_with(&[("a.txt", FileState::Unstaged)]);
    app.queue.close("worker is gone".into());
    press(&mut app, " ");
    assert!(app.error().unwrap().contains("worker is gone"));
}

#[test]
fn the_picker_shows_all_again() {
    let entries = vec![
        DirEntry { name: "Beta".into(), is_repo_root: false },
        DirEntry { name: "alpha".into(), is_repo_root: true },
    ];
    let mut b = OpenBrowser::at("/tmp".into(), Ok(entries));
    assert_eq!(b.row_count(), 4);
    b.push_filter_char('B');
    assert_eq!(b.view.len(), 1);
    assert_eq!(b.selected_path(), "/tmp/Beta");
    b.pop_filter_char();
    assert_eq!(b.view.len(), 2);
    b.move_cursor(100);
    assert!(b.highlighted() < b.row_count());
    b.push_filter_char('x');
    b.clear_filter();
    assert_eq!(b.view.len(), b.entries.len());
    let failed = OpenBrowser::at("/x".into(), Err("denied".into()));
    assert!(failed.error.unwrap().contains("denied"));
}

#[test]
fn a_selection_is_shown_by_its_window() {
    assert_eq!(follow_selection(5, 4, 0), 2);
    assert_eq!(follow_selection(1, 4, 2), 1);
    assert_eq!(follow_selection(3, 4, 2), 2);
    assert_eq!(follow_selection(3, 0, 7), 7);
}

#[test]
fn the_panels_tile_the_screen() {
    let area = Rect { x: 2, y: 1, width: 120, height: 40 };
    let l = compute_layout(area, 2);
    assert_eq!(l.status.width + l.diff.width, 120);
    assert_eq!(l.stash.y + l.stash.height, l.footer.y);
    assert_eq!(l.footer.y + l.footer.height, 41);
    let popup = centered_rect(area, 60, 3);
    assert_eq!(popup, Rect { x: 32, y: 19, width: 60, height: 3 });
    let small = centered_rect(Rect { x: 0, y: 0, width: 10, height: 2 }, 60, 3);
    assert!(small.width <= 10 && small.height <= 2);
}

#[test]
fn the_footer_has_room_for_what_it_says() {
    let mut app = app_with(&[("a.txt", FileState::Conflicted)]);
    assert_eq!(footer_height(&app), 1);
    press(&mut app, " ");
    assert_eq!(footer_height(&app), 2);
}

fn project(name: &str) -> Project {
    Project { root: format!("/{name}"), canon: format!("/{name}"), name: name.into() }
}

#[test]
fn the_bar_stays_over_a_full_diff() {
    let mut ws =
        Workspace::open(vec![project("a"), project("b")], Default::default(), None).unwrap();
    ws.current_mut().apply(JobResult::Status(status(&[("x", FileState::Unstaged)], &[])));
    ws.on_key(KeyCode::Enter);
    assert_eq!(ws.current().mode(), Mode::FullDiff);
    let area = Rect { x: 0, y: 0, width: 100, height: 30 };
    let mut hl = Highlighter::new();
    let panels = render_workspace(&mut hl, area, &mut ws, &Vec::new(), &None);
    let bar = &panels[1];
    assert_eq!(bar.area, Rect { x: 0, y: 0, width: 100, height: 3 });
    let tabs: String = bar.lines[0].spans.iter().map(|s| s.text.as_str()).collect();
    assert_eq!(tabs, " 1:a (1)  2:b (…) ");
    let full = panels.last().unwrap();
    assert_eq!(full.area, Rect { x: 0, y: 3, width: 100, height: 27 });
    assert_eq!(full.title, " Full diff (loading…) ");
}

#[test]
fn tabs_go_round_both_ways() {
    let mut ws = Workspace::open(
        vec![project("a"), project("b"), project("c"), project("b")],
        Default::default(),
        None,
    )
    .unwrap();
    assert_eq!(ws.len(), 3);
    for _ in 0..3 {
        let at = ws.index();
        ws.next();
        ws.prev();
        assert_eq!(ws.index(), at);
        ws.next();
    }
    assert_eq!(ws.index(), 0);
    // A key of one project changes no other.
    ws.on_key(KeyCode::Char('c'));
    assert_eq!(ws.current().mode(), Mode::Committing);
    assert_eq!(ws.apps[1].mode(), Mode::Normal);
}

#[test]
fn drawing_records_what_the_keys_go_by() {
    let files: Vec<(String, FileState)> =
        (0..60).map(|i| (format!("f{i:02}.txt"), FileState::Unstaged)).collect();
    let refs: Vec<(&str, FileState)> = files.iter().map(|(p, s)| (p.as_str(), *s)).collect();
    let mut app = app_with(&refs);
    app.tree.selected = 59;
    let area = Rect { x: 0, y: 0, width: 100, height: 32 };
    let mut hl = Highlighter::new();
    let panels = render(&mut hl, area, &mut app, &None);
    let shown = compute_layout(area, 1).files.height as usize - 2;
    assert_eq!(app.files_scroll, 60 - shown);
    assert!(panels.iter().any(|p| p.title.contains("60 of 60")));
}

#[test]
fn each_bad_argument_is_named() {
    let args = |v: &[&str]| v.iter().map(|s| s.to_string()).collect::<Vec<String>>();
    let e = parse_args(&args(&["--theme"])).unwrap_err();
    assert!(matches!(e, Stop::ThemeNeedsValue));
    assert_eq!(e.message(), "--theme needs a value");
    let e = parse_args(&args(&["--repo", "-x"])).unwrap_err();
    assert!(matches!(e, Stop::RepoNeedsValue));
    assert_eq!(e.message(), "--repo needs a value");
    let e = parse_args(&args(&["a", "--help"])).unwrap_err();
    assert!(matches!(e, Stop::Help));
    assert_eq!(e.message(), USAGE);
    let e = parse_args(&args(&["--bo\"gus"])).unwrap_err();
    assert_eq!(e.message(), format!("{USAGE} (unexpected argument \"--bo\\\"gus\")"));
    let cli = parse_args(&args(&["a", "--repo=b", "--repo", "c", "--", "--theme", "-d"])).unwrap();
    assert_eq!(cli.paths, args(&["a", "b", "c", "--theme", "-d"]));
    assert_eq!(cli.theme, None);
    let cli = parse_args(&args(&["--theme", "x", "--theme=y"])).unwrap();
    assert_eq!(cli.theme.as_deref(), Some("y"));
}

#[test]
fn control_c_always_quits() {
    assert_eq!(capital('q'), 'Q');
    assert_eq!(read_key(KeyCode::Char('c'), false, true), Press::Quit);
    assert_eq!(read_key(KeyCode::Char('C'), true, true), Press::Quit);
    assert_eq!(
        read_key(KeyCode::Char('c'), false, false),
        Press::Key(KeyCode::Char('c'), false)
    );
    assert_eq!(
        read_key(KeyCode::Char('A'), false, false),
        Press::Key(KeyCode::Char('A'), true)
    );
    assert_eq!(
        read_key(KeyCode::Char('a'), true, false),
        Press::Key(KeyCode::Char('A'), true)
    );
    assert_eq!(read_key(KeyCode::Up, true, false), Press::Key(KeyCode::Up, true));
}

#[test]
fn config_paths_are_joined() {
    let home = Some("/home/me".to_string());
    assert_eq!(find_config_base(&None, &home).as_deref(), Some("/home/me/.config"));
    assert_eq!(
        find_config_base(&Some("/xdg".into()), &home).as_deref(),
        Some("/xdg")
    );
    assert_eq!(
        find_config_base(&Some(String::new()), &home).as_deref(),
        Some("/home/me/.config")
    );
    assert_eq!(find_config_base(&None, &None), None);
    assert_eq!(
        config_file(&Some("/xdg/agentgit".into())).as_deref(),
        Some("/xdg/agentgit/config.toml")
    );
}

#[test]
fn cells_are_counted() {
    assert_eq!(char_cells('a'), 1);
    assert_eq!(char_cells('界'), 2);
    let mut hl = Highlighter::new();
    let lines = render_markdown(&mut hl, "界 x\n", Theme::tokyo_night(), 80);
    assert!(lines.iter().any(|l| width_of_line(l) == 4));
}

#[test]
fn wrapping_loses_no_text() {
    let mut hl = Highlighter::new();
    let text = "alpha beta gamma delta epsilon zeta eta theta";
    let lines = render_markdown(&mut hl, text, Theme::tokyo_night(), 20);
    let shown: String = lines
        .iter()
        .flat_map(|l| l.spans.iter())
        .map(|s| format!("{} ", s.text))
        .collect();
    let solid = |s: &str| s.chars().filter(|c| !c.is_whitespace()).collect::<String>();
    assert!(lines.len() > 2);
    assert_eq!(solid(&shown), solid(text));
    assert!(!markdown_events("# x\n").is_empty());
}

#[test]
fn toml_lines_keep_their_text() {
    let theme = Theme::tokyo_night();
    for text in ["[a.b]", "k = \"v\" # c", "x = [1, 2]", "  ", "'q k' = true"] {
        let joined: String =
            highlight_toml_line(text, theme).iter().map(|t| t.text.as_str()).collect();
        assert_eq!(joined, text);
    }
}

#[test]
fn grammars_are_found_by_extension() {
    let set = syntect::parsing::SyntaxSet::load_defaults_newlines();
    assert_eq!(find_syntax(&set, "src/main.rs", &None), "Rust");
    assert_eq!(find_syntax(&set, "a.tsx", &None), "JavaScript");
    assert_eq!(find_syntax(&set, "Makefile", &Some("Makefile".into())), "Makefile");
    assert_eq!(find_syntax(&set, "x.unknownext123", &None), "Plain Text");
}

#[test]
fn a_changed_word_is_one_run() {
    let (old, new) = word_diff("let a = 1;", "let b = 1;");
    let runs = |segs: &[git_tui::words::WordSeg]| {
        segs.iter().map(|s| (s.text.clone(), s.changed)).collect::<Vec<(String, bool)>>()
    };
    assert_eq!(
        runs(&old),
        vec![("let ".into(), false), ("a".into(), true), (" = 1;".into(), false)]
    );
    assert_eq!(
        runs(&new),
        vec![("let ".into(), false), ("b".into(), true), (" = 1;".into(), false)]
    );
}

#[test]
fn a_saved_selection_is_one_of_the_tabs() {
    let s = Session::new(vec!["/a".into(), "/b".into()], 7);
    let back = Session::of_text(&s.save().ok()).unwrap();
    assert_eq!(back.current, s.current_clamped());
    assert_eq!(back.current_clamped(), s.current_clamped());
}
