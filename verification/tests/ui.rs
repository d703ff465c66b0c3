//! What is on the screen, cell by cell.

use git_tui::app::App;
use git_tui::app_model::Mode;
use git_tui::code_cells::{render_side, CodeStyle};
use git_tui::config::{Config, KeyBindings, KeyCode};
use git_tui::diff_rows::{diff_rows, rows_hunk_start, DiffRow, Side, SideKind};
use git_tui::draft::{input_window, wrap_draft_lines};
use git_tui::layout::{compute_layout, Rect};
use git_tui::model::{
    BranchInfo, CommitInfo, DiffLine, FileDiff, FileState, Hunk, LineKind, RepoStatus, StashEntry,
    StatusEntry,
};
use git_tui::panels::{focused_border, selection_style, title_style, Ground, Panel, PanelFrame};
use git_tui::screen::{render, render_workspace};
use git_tui::style::{Color, Line, Span, Style};
use git_tui::syntax::Highlighter;
use git_tui::theme::Theme;
use git_tui::tree::{file_rows, FileRow};
use git_tui::words::WordSeg;
use git_tui::workspace::{Project, Workspace};
use ratatui::backend::TestBackend;
use ratatui::buffer::Buffer;
use ratatui::widgets::{Block, BorderType, Borders, Clear, List, ListState, Paragraph};
use ratatui::{Frame, Terminal};
use unicode_width::UnicodeWidthStr;

fn to_color(c: Color) -> ratatui::style::Color {
    match c {
        Color::Black => ratatui::style::Color::Black,
        Color::Red => ratatui::style::Color::Red,
        Color::Green => ratatui::style::Color::Green,
        Color::Yellow => ratatui::style::Color::Yellow,
        Color::Blue => ratatui::style::Color::Blue,
        Color::Magenta => ratatui::style::Color::Magenta,
        Color::Cyan => ratatui::style::Color::Cyan,
        Color::Gray => ratatui::style::Color::Gray,
        Color::DarkGray => ratatui::style::Color::DarkGray,
        Color::White => ratatui::style::Color::White,
        Color::Rgb(r, g, b) => ratatui::style::Color::Rgb(r, g, b),
        _ => ratatui::style::Color::Reset,
    }
}

/// A color of a cell, as the library has it.
fn plain(c: ratatui::style::Color) -> Color {
    match c {
        ratatui::style::Color::Black => Color::Black,
        ratatui::style::Color::White => Color::White,
        ratatui::style::Color::DarkGray => Color::DarkGray,
        ratatui::style::Color::Rgb(r, g, b) => Color::Rgb(r, g, b),
        _ => Color::Reset,
    }
}

fn to_style(s: Style) -> ratatui::style::Style {
    let mut out = ratatui::style::Style::default();
    if let Some(c) = s.fg {
        out = out.fg(to_color(c));
    }
    if let Some(c) = s.bg {
        out = out.bg(to_color(c));
    }
    if s.modifier.bold {
        out = out.add_modifier(ratatui::style::Modifier::BOLD);
    }
    out
}

fn to_line(line: &Line) -> ratatui::text::Line<'static> {
    let spans: Vec<ratatui::text::Span<'static>> = line
        .spans
        .iter()
        .map(|s| ratatui::text::Span::styled(s.text.clone(), to_style(s.style)))
        .collect();
    ratatui::text::Line::from(spans)
}

fn to_rect(r: Rect) -> ratatui::layout::Rect {
    ratatui::layout::Rect::new(r.x, r.y, r.width, r.height)
}

fn paint(frame: &mut Frame, panel: &Panel, theme: Theme) {
    let area = to_rect(panel.area).intersection(frame.area());
    if panel.ground != Ground::Kept {
        frame.render_widget(Clear, area);
    }
    if panel.ground == Ground::Painted {
        let ground = ratatui::style::Style::default().bg(to_color(theme.bg));
        frame.render_widget(Block::default().style(ground), area);
    }
    let block = match panel.frame {
        PanelFrame::Panel { focused } => Block::default()
            .borders(Borders::ALL)
            .border_type(BorderType::Rounded)
            .border_style(to_style(focused_border(focused, theme)))
            .style(to_style(Style::plain().bg(theme.bg).fg(theme.fg)))
            .title(panel.title.clone())
            .title_style(to_style(title_style(focused, theme))),
        PanelFrame::Plain => Block::default()
            .borders(Borders::ALL)
            .border_type(BorderType::Rounded)
            .title(panel.title.clone()),
        PanelFrame::Bare => Block::default(),
    };
    let lines: Vec<ratatui::text::Line<'static>> = panel.lines.iter().map(to_line).collect();
    match panel.highlight {
        Some(i) => {
            let list = List::new(lines)
                .block(block)
                .highlight_style(to_style(selection_style(theme)))
                .highlight_symbol("> ");
            let mut state = ListState::default();
            state.select(Some(i));
            frame.render_stateful_widget(list, area, &mut state);
        }
        None => {
            let text = Paragraph::new(lines).scroll((panel.scroll, 0)).block(block);
            frame.render_widget(text, area);
        }
    }
}

fn painted(panels: &[Panel], theme: Theme, width: u16, height: u16) -> Buffer {
    let mut terminal = Terminal::new(TestBackend::new(width, height)).unwrap();
    terminal
        .draw(|f| {
            for panel in panels {
                paint(f, panel, theme);
            }
        })
        .unwrap();
    terminal.backend().buffer().clone()
}

fn text_of(buf: &Buffer) -> String {
    let mut out = String::new();
    for y in 0..buf.area.height {
        for x in 0..buf.area.width {
            out.push_str(buf[(x, y)].symbol());
        }
        out.push('\n');
    }
    out
}

fn rect(x: u16, y: u16, width: u16, height: u16) -> Rect {
    Rect { x, y, width, height }
}

fn render_buf(app: &mut App, width: u16, height: u16) -> Buffer {
    let theme = app.theme();
    let mut hl = Highlighter::new();
    let panels = render(&mut hl, rect(0, 0, width, height), app, &None);
    painted(&panels, theme, width, height)
}

fn screen(app: &mut App, width: u16, height: u16) -> String {
    text_of(&render_buf(app, width, height))
}

fn test_app() -> App {
    App::new()
}

fn set_status(app: &mut App, status: RepoStatus) {
    app.status = Some(status);
    app.tree.rebuild(&app.status);
}

fn with_files(names: &[(&str, FileState)]) -> App {
    let mut app = test_app();
    set_status(
        &mut app,
        RepoStatus {
            branch: "main".into(),
            head_summary: "init".into(),
            files: names
                .iter()
                .map(|(p, s)| StatusEntry { path: p.to_string(), state: *s })
                .collect(),
            tracked_files: vec![],
        },
    );
    app
}

/// A diff as if it had just arrived for its file.
fn set_diff(app: &mut App, diff: FileDiff) {
    app.diff_for = Some((diff.path.clone(), false));
    app.diff_whole_file = false;
    app.viewer.load(Some(diff));
    app.viewer.rewind();
}

fn code(path: &str, theme: Theme) -> CodeStyle {
    CodeStyle { path: path.into(), by_file: None, gutter_w: 4, theme }
}

fn span_width(span: &Span) -> usize {
    span.text.as_str().width()
}

#[test]
fn renders_file_list_with_branch_and_selection() {
    let mut app = with_files(&[("a.txt", FileState::Unstaged), ("b.txt", FileState::Staged)]);
    let s = screen(&mut app, 80, 28);
    assert!(s.contains("main"), "branch missing:\n{s}");
    assert!(s.contains("a.txt"), "file missing:\n{s}");
    assert!(s.contains("b.txt"), "file missing:\n{s}");
    assert!(s.contains("[2]-Files"), "panel number missing:\n{s}");
}

#[test]
fn renders_empty_tree_message() {
    let mut app = with_files(&[]);
    let s = screen(&mut app, 80, 28);
    assert!(s.contains("clean"), "empty message missing:\n{s}");
    assert!(s.contains("✓"), "clean marker missing:\n{s}");
}

#[test]
fn llm_setup_modal_shows_all_fields_and_save_hint() {
    let mut app = test_app();
    app.on_key(KeyCode::Char('A'));
    let s = screen(&mut app, 100, 32);
    assert!(s.contains("LLM setup"), "modal title missing:\n{s}");
    for label in ["Provider", "Model", "API key", "Base URL"] {
        assert!(s.contains(label), "field {label} missing:\n{s}");
    }
    assert!(s.contains("openai"), "prefilled provider missing:\n{s}");
    assert!(s.contains("enter save"), "save hint missing:\n{s}");
}

#[test]
fn highlight_follows_selection_into_clean_tracked_files() {
    // a.txt changed, b.txt clean-but-tracked: both are browsable, so
    // moving down must move the `>` highlight onto b.txt.
    let mut app = test_app();
    set_status(&mut app, RepoStatus {
        branch: "main".into(),
        head_summary: "init".into(),
        files: vec![StatusEntry {
            path: "a.txt".into(),
            state: FileState::Unstaged,
        }],
        tracked_files: vec!["a.txt".into(), "b.txt".into()],
    });
    app.on_key(KeyCode::Char('j'));
    assert_eq!(app.selected_file().unwrap().path, "b.txt");
    let s = screen(&mut app, 80, 28);
    let row_with = |name: &str| {
        s.lines()
            .find(|l| l.contains(name))
            .unwrap_or_else(|| panic!("{name} row missing:\n{s}"))
            .to_string()
    };
    assert!(
        row_with("b.txt").contains('>'),
        "highlight never reached b.txt:\n{s}"
    );
    assert!(
        !row_with("a.txt").contains('>'),
        "highlight stuck on a.txt:\n{s}"
    );
}

#[test]
fn file_rows_builds_nested_tree_in_first_seen_order() {
    let files = ["b.txt", "packages/agent-worker/src/worker.ts", "docs/x.md"]
        .iter()
        .map(|p| StatusEntry {
            path: p.to_string(),
            state: FileState::Unstaged,
        })
        .collect::<Vec<_>>();
    let rows = file_rows(&files);
    let dir_paths: Vec<(&str, usize)> = rows
        .iter()
        .filter_map(|r| match r {
            FileRow::Dir { path, depth } => Some((path.as_str(), *depth)),
            _ => None,
        })
        .collect();
    assert_eq!(
        dir_paths,
        vec![
            ("packages", 0),
            ("packages/agent-worker", 1),
            ("packages/agent-worker/src", 2),
            ("docs", 0),
        ]
    );
    // Root file first with no header, then headers, then files at depth.
    assert!(matches!(rows[0], FileRow::File { index: 0, depth: 0 }));
    assert!(matches!(rows[4], FileRow::File { index: 1, depth: 3 }));
    assert!(matches!(rows[6], FileRow::File { index: 2, depth: 1 }));
    assert_eq!(rows.len(), 7);
}

#[test]
fn collapsed_dir_hides_its_children_and_shows_folded_marker() {
    let mut app = with_files(&[
        ("src/a.rs", FileState::Unstaged),
        ("src/nested/b.rs", FileState::Unstaged),
        ("z.txt", FileState::Unstaged),
    ]);
    app.tree.set_collapsed("src", true);
    let s = screen(&mut app, 100, 32);
    assert!(s.contains("▶ src/"), "collapsed header missing:\n{s}");
    assert!(!s.contains("a.rs"), "hidden child leaked:\n{s}");
    assert!(!s.contains("b.rs"), "hidden nested child leaked:\n{s}");
    assert!(s.contains("z.txt"), "visible file missing:\n{s}");
}

#[test]
fn collapsing_nested_dir_keeps_sibling_visible() {
    let mut app = with_files(&[
        ("src/a.rs", FileState::Unstaged),
        ("src/nested/b.rs", FileState::Unstaged),
        ("z.txt", FileState::Unstaged),
    ]);
    app.tree.set_collapsed("src/nested", true);
    let s = screen(&mut app, 100, 32);
    assert!(s.contains("▼ src/"), "expanded parent missing:\n{s}");
    assert!(s.contains("▶ nested/"), "collapsed header missing:\n{s}");
    assert!(s.contains("a.rs"), "visible sibling missing:\n{s}");
    assert!(!s.contains("b.rs"), "hidden nested child leaked:\n{s}");
    assert!(s.contains("z.txt"), "visible file missing:\n{s}");
}

#[test]
fn files_panel_shows_tree_with_basename_and_counter() {
    let mut app = with_files(&[
        ("src/main.rs", FileState::Unstaged),
        ("src/app.rs", FileState::Staged),
        ("README.md", FileState::Untracked),
    ]);
    let s = screen(&mut app, 100, 32);
    assert!(s.contains("[2]-Files"), "panel number missing:\n{s}");
    assert!(s.contains("src/"), "dir header missing:\n{s}");
    assert!(s.contains("main.rs"), "basename missing:\n{s}");
    assert!(s.contains("1 of 3"), "counter missing:\n{s}");
    assert!(
        !s.contains("src/main.rs"),
        "full path should collapse to basename:\n{s}"
    );
}

#[test]
fn status_panel_shows_repo_branch_and_dirty_count() {
    let mut app = with_files(&[("a.txt", FileState::Unstaged)]);
    let s = screen(&mut app, 80, 28);
    assert!(s.contains("[1]-Status"), "panel number missing:\n{s}");
    assert!(s.contains("repo → main"), "repo/branch missing:\n{s}");
    assert!(s.contains("(1)"), "dirty count missing:\n{s}");
}

#[test]
fn workspace_bar_lists_every_project() {
    let project = |name: &str| Project {
        root: format!("/tmp/{name}"),
        canon: format!("/tmp/{name}"),
        name: name.into(),
    };
    let mut ws = Workspace::open(
        vec![project("first"), project("second")],
        Config::default(),
        None,
    )
    .unwrap();
    let area = rect(0, 0, 170, 32);
    let theme = ws.theme();
    let mut hl = Highlighter::new();
    let panels = render_workspace(&mut hl, area, &mut ws, &Vec::new(), &None);
    let out = text_of(&painted(&panels, theme, 170, 32));
    assert!(out.contains("Projects"), "project bar missing:\n{out}");
    assert!(
        out.contains(ws.project_name(0)),
        "first project missing:\n{out}"
    );
    assert!(
        out.contains(ws.project_name(1)),
        "second project missing:\n{out}"
    );
    assert!(out.contains("1:first (…)"), "first tab missing:\n{out}");
    assert!(out.contains("[ ] project"), "switch hint missing:\n{out}");
}

#[test]
fn single_project_has_no_project_bar() {
    let mut app = with_files(&[("a.txt", FileState::Unstaged)]);
    let s = screen(&mut app, 80, 28);
    assert!(!s.contains("Projects"), "bar should be hidden:\n{s}");
}

#[test]
fn compute_layout_gives_right_preview_most_space() {
    let l = compute_layout(rect(0, 0, 100, 32), 1);
    assert_eq!(l.status, rect(0, 0, 30, 3));
    assert_eq!(l.diff, rect(30, 0, 70, 31));
    assert_eq!(l.files.x, 0);
    assert_eq!(l.files.width, 30);
    assert!(l.files.height >= 12);
    assert_eq!(l.footer, rect(0, 31, 100, 1));
}

#[test]
fn tab_indented_lines_expand_to_tab_stops() {
    let mut hl = Highlighter::new();
    let side = Side {
        no: Some(1),
        segs: vec![WordSeg {
            text: "\tfn main() {}".into(),
            changed: false,
        }],
        kind: SideKind::Context,
    };
    let rows = render_side(&mut hl, &side, 40, &code("main.rs", Theme::tokyo_night()));
    assert_eq!(rows.len(), 1, "short line must stay on one row");
    let text: String = rows[0].iter().map(|s| s.text.as_str()).collect();
    assert!(!text.contains('\t'), "raw tab leaks into rendering: {text:?}");
    // Gutter is "   1 " (5 cells); the tab jumps to stop 8: 3 spaces.
    assert!(
        text.starts_with("   1    fn main() {}"),
        "tab must expand to the next stop, got: {text:?}"
    );
    assert_eq!(rows[0].iter().map(span_width).sum::<usize>(), 40);
}

#[test]
fn long_tabbed_lines_wrap_to_two_exact_width_rows() {
    let mut hl = Highlighter::new();
    let side = Side {
        no: Some(1),
        segs: vec![WordSeg {
            text: format!("\t{}", "x".repeat(100)),
            changed: false,
        }],
        kind: SideKind::Context,
    };
    for width in [10, 20, 40] {
        let rows = render_side(&mut hl, &side, width, &code("main.rs", Theme::tokyo_night()));
        assert_eq!(rows.len(), 2, "overlong line must wrap, width {width}");
        for (i, spans) in rows.iter().enumerate() {
            let text: String = spans.iter().map(|s| s.text.as_str()).collect();
            assert!(!text.contains('\t'), "raw tab leaks into rendering: {text:?}");
            assert_eq!(
                spans.iter().map(span_width).sum::<usize>(),
                width,
                "row {i} must fill the pane, width {width}"
            );
        }
        // Still more content past two rows: the tail is cut with `…`.
        let tail: String = rows[1].iter().map(|s| s.text.as_str()).collect();
        assert!(tail.ends_with('…'), "overflow must be marked, got: {tail:?}");
    }
}

#[test]
fn split_sides_wrap_long_unicode_lines_to_their_width() {
    let mut hl = Highlighter::new();
    let side = Side {
        no: Some(1),
        segs: vec![WordSeg {
            text: "界".repeat(60),
            changed: true,
        }],
        kind: SideKind::Del,
    };
    for width in [0, 2, 6, 20, 31] {
        let rows = render_side(&mut hl, &side, width, &code("a.rs", Theme::tokyo_night()));
        assert!(rows.len() <= 2, "at most two visual rows, width {width}");
        for (i, spans) in rows.iter().enumerate() {
            assert_eq!(
                spans.iter().map(span_width).sum::<usize>(),
                width,
                "row {i} must fill the pane, width {width}"
            );
        }
    }
}

#[test]
fn wrapped_continuation_row_keeps_blank_gutter() {
    let mut hl = Highlighter::new();
    let side = Side {
        no: Some(42),
        segs: vec![WordSeg {
            text: "x".repeat(100),
            changed: false,
        }],
        kind: SideKind::Context,
    };
    let rows = render_side(&mut hl, &side, 40, &code("a.txt", Theme::tokyo_night()));
    assert_eq!(rows.len(), 2);
    let first: String = rows[0].iter().map(|s| s.text.as_str()).collect();
    let second: String = rows[1].iter().map(|s| s.text.as_str()).collect();
    // Line number only on the first row: gutter is 4 + 1 cells.
    assert!(first.starts_with("  42 "), "number missing: {first:?}");
    assert!(
        second.starts_with("     "),
        "continuation gutter must be blank: {second:?}"
    );
    assert!(!second.contains("42"), "number must not repeat: {second:?}");
}

#[test]
fn short_lines_stay_on_a_single_row_without_ellipsis() {
    let mut hl = Highlighter::new();
    let side = Side {
        no: Some(7),
        segs: vec![WordSeg {
            text: "hello".into(),
            changed: false,
        }],
        kind: SideKind::Context,
    };
    let rows = render_side(&mut hl, &side, 40, &code("a.txt", Theme::tokyo_night()));
    assert_eq!(rows.len(), 1);
    let text: String = rows[0].iter().map(|s| s.text.as_str()).collect();
    assert!(!text.contains('…'), "short line must not be marked: {text:?}");
}

#[test]
fn diff_washes_preserve_readable_syntax_colors() {
    let mut hl = Highlighter::new();
    for theme in [Theme::default_theme(), Theme::tokyo_night()] {
        for kind in [SideKind::Del, SideKind::Add] {
            let side = Side {
                no: Some(1),
                segs: vec![WordSeg {
                    text: "fn main() {}".into(),
                    changed: true,
                }],
                kind,
            };
            let rows = render_side(&mut hl, &side, 40, &code("main.rs", theme));
            assert_eq!(rows.len(), 1, "short line must stay on one row");
            let keyword = rows[0].iter().find(|s| s.text == "fn").unwrap();
            let Color::Rgb(r, g, b) = keyword.style.bg.unwrap() else {
                panic!("RGB wash required")
            };
            assert!(
                r.max(g).max(b) < 100,
                "wash must be dark enough for syntax colors"
            );
            assert_ne!(keyword.style.fg, keyword.style.bg);
        }
    }
}

#[test]
fn renders_commit_modal_with_draft() {
    let mut app = with_files(&[("a.txt", FileState::Unstaged)]);
    app.on_key(KeyCode::Char('c'));
    app.on_key(KeyCode::Char('h'));
    app.on_key(KeyCode::Char('i'));
    let s = screen(&mut app, 40, 10);
    assert!(s.contains("Commit"), "modal title missing:\n{s}");
    assert!(s.contains("hi"), "draft missing:\n{s}");
}

#[test]
fn input_window_keeps_short_text_whole() {
    let (visible, col) = input_window("hi", 2, 20);
    assert_eq!(visible, "hi");
    assert_eq!(col, 2);
}

#[test]
fn input_window_scrolls_long_text_to_cursor() {
    let text: String = "x".repeat(100);
    // Cursor at the end: the tail is visible, cursor in the last cell
    // (9 chars + the cursor itself fill the 10-cell window).
    let (visible, col) = input_window(&text, 100, 10);
    assert_eq!(visible, "x".repeat(9));
    assert_eq!(col, 9);
    // Cursor at the start: the head is visible.
    let (visible, col) = input_window(&text, 0, 10);
    assert_eq!(visible, "x".repeat(10));
    assert_eq!(col, 0);
    // Cursor in the middle stays on screen.
    let (visible, col) = input_window(&text, 50, 10);
    assert_eq!(visible, "x".repeat(10));
    assert_eq!(col, 9);
    assert!(visible.len() <= 10);
}

#[test]
fn wrap_draft_lines_wraps_and_tracks_cursor() {
    // Soft wrap at the width; cursor at the boundary sits at the row end.
    let (rows, crow, ccol) = wrap_draft_lines("hello world", 5, 5);
    assert_eq!(rows, vec!["hello", " worl", "d"]);
    assert_eq!((crow, ccol), (0, 5));
    // Cursor inside the second row.
    let (_, crow, ccol) = wrap_draft_lines("hello world", 7, 5);
    assert_eq!((crow, ccol), (1, 2));
    // Hard breaks split rows; trailing newline opens an empty row.
    let (rows, crow, ccol) = wrap_draft_lines("ab\nc\n", 5, 10);
    assert_eq!(rows, vec!["ab", "c", ""]);
    assert_eq!((crow, ccol), (2, 0));
    // Cursor clamps past the end.
    let (_, crow, ccol) = wrap_draft_lines("hi", 99, 10);
    assert_eq!((crow, ccol), (0, 2));
    // Empty draft is one empty row.
    let (rows, crow, ccol) = wrap_draft_lines("", 0, 10);
    assert_eq!(rows, vec![""]);
    assert_eq!((crow, ccol), (0, 0));
}

#[test]
fn commit_modal_grows_vertically_with_long_message() {
    let mut app = with_files(&[("a.txt", FileState::Unstaged)]);
    app.on_key(KeyCode::Char('c'));
    // Far wider than the 60-cell modal: it wraps onto extra rows so
    // head and tail are visible at the same time (no horizontal scroll).
    for c in "commit-message-".chars().cycle().take(120) {
        app.on_key(KeyCode::Char(c));
    }
    let s = screen(&mut app, 80, 24);
    assert!(s.contains("Commit"), "modal title missing:\n{s}");
    assert!(s.contains("message-"), "tail of long draft missing:\n{s}");
    assert!(s.contains("commit-m"), "head and tail show together:\n{s}");
    assert!(
        s.matches("commit-message-").count() >= 3,
        "long message must wrap over several rows:\n{s}"
    );
}

#[test]
fn commit_modal_renders_hard_breaks_on_separate_rows() {
    let mut app = with_files(&[("a.txt", FileState::Unstaged)]);
    app.on_key(KeyCode::Char('c'));
    for c in "subject".chars() {
        app.on_key(KeyCode::Char(c));
    }
    app.push_draft_char('\n');
    for c in "body line".chars() {
        app.on_key(KeyCode::Char(c));
    }
    let s = screen(&mut app, 80, 24);
    let subject_row = s.lines().position(|l| l.contains("subject")).expect("subject row");
    let body_row = s.lines().position(|l| l.contains("body line")).expect("body row");
    assert_eq!(body_row, subject_row + 1, "hard break must start a new row:\n{s}");
}

#[test]
fn renders_error_line() {
    let mut app = with_files(&[("a.txt", FileState::Conflicted)]);
    app.on_key(KeyCode::Char(' '));
    let s = screen(&mut app, 40, 10);
    assert!(s.contains("conflicted"), "error missing:\n{s}");
}

fn sample_diff() -> FileDiff {
    FileDiff {
        path: "a.txt".into(),
        binary: false,
        hunks: vec![
            Hunk {
                header: "@@ -1,3 +1,3 @@".into(),
                old_start: 1,
                new_start: 1,
                lines: vec![
                    DiffLine {
                        kind: LineKind::Context,
                        text: "same".into(),
                    },
                    DiffLine {
                        kind: LineKind::Del,
                        text: "hello world".into(),
                    },
                    DiffLine {
                        kind: LineKind::Add,
                        text: "hello WORLD".into(),
                    },
                ],
            },
            Hunk {
                header: "@@ -30,2 +30,2 @@".into(),
                old_start: 30,
                new_start: 30,
                lines: vec![DiffLine {
                    kind: LineKind::Add,
                    text: "brand new".into(),
                }],
            },
        ],
    }
}

fn mini_diff() -> FileDiff {
    FileDiff {
        path: "a.txt".into(),
        binary: false,
        hunks: vec![Hunk {
            header: "@@ -1,2 +1,2 @@".into(),
            old_start: 1,
            new_start: 1,
            lines: vec![
                DiffLine {
                    kind: LineKind::Context,
                    text: "same".into(),
                },
                DiffLine {
                    kind: LineKind::Del,
                    text: "hello world".into(),
                },
                DiffLine {
                    kind: LineKind::Add,
                    text: "hello WORLD".into(),
                },
            ],
        }],
    }
}

#[test]
fn renders_diff_pane_with_hunks_and_changed_words() {
    let mut app = with_files(&[("a.txt", FileState::Unstaged)]);
    set_diff(&mut app, mini_diff());
    let s = screen(&mut app, 70, 14);
    assert!(s.contains("a.txt"), "diff title missing:\n{s}");
    assert!(s.contains("@@ -1,2 +1,2 @@"), "hunk header missing:\n{s}");
    assert!(s.contains("WORLD"), "added line missing:\n{s}");
    assert!(s.contains("unstaged"), "staged label missing:\n{s}");
}

fn long_line_diff(pad: usize) -> FileDiff {
    FileDiff {
        path: "a.txt".into(),
        binary: false,
        hunks: vec![Hunk {
            header: "@@ -1,1 +1,1 @@".into(),
            old_start: 1,
            new_start: 1,
            lines: vec![
                DiffLine {
                    kind: LineKind::Del,
                    text: format!("{}VISIBLE{}", "x".repeat(pad), "y".repeat(100)),
                },
                DiffLine {
                    kind: LineKind::Add,
                    text: format!("{}VISIBLE{}", "x".repeat(pad), "z".repeat(100)),
                },
            ],
        }],
    }
}

#[test]
fn fullscreen_long_line_wraps_instead_of_clipping() {
    let mut app = with_files(&[("a.txt", FileState::Unstaged)]);
    set_diff(&mut app, long_line_diff(30));
    app.on_key(KeyCode::Enter);
    assert_eq!(app.mode(), Mode::FullDiff);
    let s = screen(&mut app, 70, 14);
    // Each half-pane fits ~28 content cells; "VISIBLE" starts at cell
    // 30, so clipping would hide it while wrapping shows it.
    assert!(s.contains("VISIBLE"), "wrapped tail missing:\n{s}");
    assert!(s.contains("│"), "divider missing:\n{s}");
}

#[test]
fn preview_long_line_wraps_instead_of_clipping() {
    let mut app = with_files(&[("a.txt", FileState::Unstaged)]);
    set_diff(&mut app, long_line_diff(65));
    let s = screen(&mut app, 100, 32);
    // The inline preview fits ~61 content cells per row; "VISIBLE"
    // starts at cell 65, so clipping would hide it while the wrapped
    // continuation row shows it.
    assert!(s.contains("VISIBLE"), "wrapped tail missing:\n{s}");
}

#[test]
fn diff_rows_pair_old_and_new_numbers() {
    let diff = FileDiff {
        path: "a.txt".into(),
        binary: false,
        hunks: vec![Hunk {
            header: "@@ -10,3 +20,3 @@".into(),
            old_start: 10,
            new_start: 20,
            lines: vec![
                DiffLine {
                    kind: LineKind::Context,
                    text: "same".into(),
                },
                DiffLine {
                    kind: LineKind::Del,
                    text: "old".into(),
                },
                DiffLine {
                    kind: LineKind::Add,
                    text: "new".into(),
                },
                DiffLine {
                    kind: LineKind::Add,
                    text: "extra".into(),
                },
            ],
        }],
    };
    let rows = diff_rows(&diff);
    assert!(matches!(rows[0], DiffRow::Header { index: 0 }));
    // Context fills both sides with their own numbers.
    let DiffRow::Split { left, right } = &rows[1] else {
        panic!("expected split, got {:?}", rows[1]);
    };
    assert_eq!((left.no, right.no), (Some(10), Some(20)));
    assert_eq!(left.kind, SideKind::Context);
    // Del/add pair shares one row, old on the left, new on the right.
    let DiffRow::Split { left, right } = &rows[2] else {
        panic!("expected split, got {:?}", rows[2]);
    };
    assert_eq!((left.no, right.no), (Some(11), Some(21)));
    assert_eq!(left.kind, SideKind::Del);
    assert_eq!(right.kind, SideKind::Add);
    assert_eq!(
        left.segs
            .iter()
            .map(|s| s.text.as_str())
            .collect::<String>(),
        "old"
    );
    assert_eq!(
        right
            .segs
            .iter()
            .map(|s| s.text.as_str())
            .collect::<String>(),
        "new"
    );
    // Leftover add gets a blank left counterpart; numbering continues.
    let DiffRow::Split { left, right } = &rows[3] else {
        panic!("expected split, got {:?}", rows[3]);
    };
    assert_eq!((left.no, right.no), (None, Some(22)));
    assert_eq!(left.kind, SideKind::Blank);
    assert_eq!(right.kind, SideKind::Add);
}

#[test]
fn hunk_start_row_counts_header_and_paired_rows() {
    let diff = sample_diff();
    let rows = diff_rows(&diff);
    assert_eq!(rows_hunk_start(&rows, 0), 0);
    // Hunk 0 = header + context row + one paired del/add row.
    assert_eq!(rows_hunk_start(&rows, 1), 3);
    // Unknown hunk falls back to the top.
    assert_eq!(rows_hunk_start(&rows, 9), 0);
}

#[test]
fn side_by_side_renders_gutters_divider_and_single_add_wash() {
    let mut app = with_files(&[("a.txt", FileState::Unstaged)]);
    set_diff(&mut app, sample_diff());
    // Fullscreen overlay: the side-by-side view.
    app.on_key(KeyCode::Enter);
    let s = screen(&mut app, 70, 14);
    // Old|new divider and both gutter numbers on the context row.
    assert!(s.contains("│"), "divider missing:\n{s}");
    assert!(s.contains("   1 "), "line numbers missing:\n{s}");
    assert!(s.contains("brand new"), "added line missing:\n{s}");
    // Additions carry one uniform light-green wash: even the changed
    // "WORLD" run keeps the line wash so syntax colors stay readable
    // (green is never painted twice). The shared "hello " prefix carries
    // each side's own wash (del red left, light green right).
    let buf = render_buf(&mut app, 70, 14);
    let theme = Theme::default_theme();
    let mut found_word = false;
    let mut hello_washes = std::collections::HashSet::new();
    for y in 0..buf.area.height {
        let cells: Vec<String> = (0..buf.area.width)
            .map(|x| buf[(x, y)].symbol().to_string())
            .collect();
        for x in 0..cells.len().saturating_sub(5) {
            if cells[x..x + 5] == ["W", "O", "R", "L", "D"] {
                found_word = true;
                for i in 0..5 {
                    let cell = &buf[(x as u16 + i as u16, y)];
                    assert_eq!(
                        plain(cell.bg),
                        theme.diff_add_bg,
                        "added run must carry the single add wash at ({}, {y})",
                        x + i as usize
                    );
                }
            }
            if cells[x..x + 5] == ["h", "e", "l", "l", "o"] {
                hello_washes.insert(plain(buf[(x as u16, y)].bg));
            }
        }
    }
    assert!(found_word, "WORLD not rendered");
    assert!(
        hello_washes.contains(&theme.diff_del_bg),
        "old side missing del wash: {hello_washes:?}"
    );
    assert!(
        hello_washes.contains(&theme.diff_add_bg),
        "new side missing add wash: {hello_washes:?}"
    );
}

#[test]
fn addition_lines_carry_single_light_wash() {
    let mut app = with_files(&[("a.txt", FileState::Unstaged)]);
    set_diff(&mut app, mini_diff());
    let buf = render_buf(&mut app, 70, 14);
    let theme = Theme::default_theme();
    // "WORLD" is a changed run on an added line, but additions are
    // painted once: every cell carries the light line wash (background
    // only, syntax foreground stays readable).
    // NOTE: compare per-cell (box-drawing borders are multi-byte, so
    // byte indices from String::find do not equal cell columns).
    let mut found = false;
    for y in 0..buf.area.height {
        let cells: Vec<String> = (0..buf.area.width)
            .map(|x| buf[(x, y)].symbol().to_string())
            .collect();
        for x in 0..cells.len().saturating_sub(5) {
            if cells[x..x + 5] == ["W", "O", "R", "L", "D"] {
                found = true;
                for i in 0..5 {
                    let cell = &buf[(x as u16 + i as u16, y)];
                    assert_eq!(
                        plain(cell.bg),
                        theme.diff_add_bg,
                        "added run must carry the single add wash at ({}, {y})",
                        x + i as usize
                    );
                }
            }
        }
    }
    assert!(found, "WORLD not rendered");
}

#[test]
fn selected_hunk_is_marked() {
    let mut app = with_files(&[("a.txt", FileState::Unstaged)]);
    set_diff(&mut app, sample_diff());
    app.on_key(KeyCode::Enter);
    app.on_key(KeyCode::Char('J'));
    let s = screen(&mut app, 70, 16);
    assert!(
        s.contains("> @@ -30,2 +30,2 @@"),
        "selected hunk not marked:\n{s}"
    );
}

#[test]
fn esc_closes_fullscreen_back_to_files() {
    let mut app = with_files(&[("a.txt", FileState::Unstaged)]);
    set_diff(&mut app, sample_diff());
    app.on_key(KeyCode::Enter);
    assert_eq!(app.mode(), Mode::FullDiff);
    let s = screen(&mut app, 100, 32);
    assert!(s.contains("Full diff"), "fullscreen title missing:\n{s}");
    assert!(s.contains("│"), "fullscreen divider missing:\n{s}");
    app.on_key(KeyCode::Esc);
    assert_eq!(app.mode(), Mode::Normal);
    let s = screen(&mut app, 100, 32);
    assert!(!s.contains("Full diff"), "overlay should be gone:\n{s}");
    assert!(s.contains("[2]-Files"), "rail should be back:\n{s}");
}

#[test]
fn fullscreen_whole_file_view_has_file_title() {
    let mut app = with_files(&[("a.txt", FileState::Unstaged)]);
    set_diff(&mut app, mini_diff());
    app.diff_whole_file = true;
    app.on_key(KeyCode::Enter);
    assert_eq!(app.mode(), Mode::FullDiff);
    let s = screen(&mut app, 100, 32);
    assert!(s.contains("Full file"), "whole-file title missing:\n{s}");
    assert!(s.contains("a.txt"), "filename missing:\n{s}");
}

#[test]
fn focus_ring_highlights_active_pane() {
    let mut app = with_files(&[("a.txt", FileState::Unstaged)]);
    app.theme = Theme::legacy();
    let layout = compute_layout(rect(0, 0, 100, 32), 1);
    // Status focus drives the files list, so the files panel glows
    // while the status strip and diff preview stay dim.
    let buf = render_buf(&mut app, 100, 32);
    assert_eq!(plain(buf[(layout.files.x, layout.files.y)].fg), Color::White);
    assert_eq!(plain(buf[(layout.status.x, layout.status.y)].fg), Color::DarkGray);
    assert_eq!(plain(buf[(layout.diff.x, layout.diff.y)].fg), Color::DarkGray);
    // Focus branches: branches corner goes bright, files goes dim.
    app.on_key(KeyCode::Tab);
    let buf = render_buf(&mut app, 100, 32);
    assert_eq!(plain(buf[(layout.branches.x, layout.branches.y)].fg), Color::White);
    assert_eq!(plain(buf[(layout.files.x, layout.files.y)].fg), Color::DarkGray);
}

#[test]
fn loaded_theme_reaches_the_screen() {
    let config = Config {
        keys: KeyBindings::default(),
        theme: Theme::by_name("tokyo-night").unwrap(),
        ..Default::default()
    };
    let mut app = App::new_with_config(config);
    set_status(&mut app, RepoStatus {
        branch: "main".into(),
        head_summary: "init".into(),
        files: vec![StatusEntry {
            path: "a.txt".into(),
            state: FileState::Unstaged,
        }],
        tracked_files: vec!["a.txt".into()],
    });
    // Tokyo-night focused border is blue #7aa2f7, unfocused #3b4261 —
    // neither equals the legacy White/DarkGray. Status focus drives
    // the files list, so the files panel glows first.
    let layout = compute_layout(rect(0, 0, 100, 32), 1);
    let buf = render_buf(&mut app, 100, 32);
    assert_eq!(
        plain(buf[(layout.files.x, layout.files.y)].fg),
        Color::Rgb(122, 162, 247)
    );
    assert_eq!(
        plain(buf[(layout.diff.x, layout.diff.y)].fg),
        Color::Rgb(59, 66, 97)
    );
    // Focusing branches flips that panel's border to the focused color.
    app.on_key(KeyCode::Tab);
    let buf = render_buf(&mut app, 100, 32);
    assert_eq!(
        plain(buf[(layout.branches.x, layout.branches.y)].fg),
        Color::Rgb(122, 162, 247)
    );
}

fn with_branches() -> App {
    let mut app = with_files(&[("a.txt", FileState::Unstaged)]);
    app.branches = Some(vec![
        BranchInfo {
            name: "feat".into(),
            is_head: false,
            tip_summary: "wip".into(),
        },
        BranchInfo {
            name: "main".into(),
            is_head: true,
            tip_summary: "init".into(),
        },
    ]);
    app
}

#[test]
fn renders_branches_pane_with_current_marked() {
    let mut app = with_branches();
    app.on_key(KeyCode::Char('2'));
    let s = screen(&mut app, 100, 32);
    assert!(s.contains("Local branches"), "pane title missing:\n{s}");
    assert!(s.contains("feat"), "branch missing:\n{s}");
    assert!(s.contains("main"), "branch missing:\n{s}");
    assert!(s.contains("wip"), "tip summary missing:\n{s}");
    assert!(s.contains('*'), "current marker missing:\n{s}");
}

#[test]
fn renders_new_branch_modal() {
    let mut app = with_branches();
    app.on_key(KeyCode::Char('2'));
    app.on_key(KeyCode::Char('a'));
    app.on_key(KeyCode::Char('x'));
    let s = screen(&mut app, 70, 12);
    assert!(s.contains("New branch"), "modal title missing:\n{s}");
}

fn with_log() -> App {
    let mut app = with_files(&[("a.txt", FileState::Unstaged)]);
    app.log = Some(vec![
        CommitInfo {
            id: "abc1234".into(),
            summary: "second".into(),
            author: "Test User".into(),
        },
        CommitInfo {
            id: "def5678".into(),
            summary: "init".into(),
            author: "Test User".into(),
        },
    ]);
    app
}

#[test]
fn renders_log_pane_newest_first() {
    let mut app = with_log();
    app.on_key(KeyCode::Char('3'));
    let s = screen(&mut app, 100, 32);
    assert!(s.contains("Commits"), "pane title missing:\n{s}");
    assert!(s.contains("second"), "entry missing:\n{s}");
    assert!(s.contains("abc1234"), "short id missing:\n{s}");
    let newest = s.find("abc1234").unwrap();
    let older = s.find("def5678").unwrap();
    assert!(newest < older, "newest must come first:\n{s}");
}

fn with_stash() -> App {
    let mut app = with_files(&[("a.txt", FileState::Unstaged)]);
    app.stash = Some(vec![StashEntry {
        index: 0,
        message: "On main: wip".into(),
    }]);
    app
}

#[test]
fn renders_stash_pane_with_entries() {
    let mut app = with_stash();
    app.on_key(KeyCode::Char('4'));
    let s = screen(&mut app, 100, 32);
    assert!(s.contains("Stash"), "pane title missing:\n{s}");
    assert!(s.contains("stash@0"), "entry missing:\n{s}");
    assert!(s.contains("wip"), "message missing:\n{s}");
}

fn whole_file_sample() -> FileDiff {
    FileDiff {
        path: "main.rs".into(),
        binary: false,
        hunks: vec![Hunk {
            header: "@@ -1,3 +1,3 @@".into(),
            old_start: 1,
            new_start: 1,
            lines: vec![
                DiffLine {
                    kind: LineKind::Context,
                    text: "fn main() {".into(),
                },
                DiffLine {
                    kind: LineKind::Context,
                    text: "println!(\"hi\");".into(),
                },
                DiffLine {
                    kind: LineKind::Context,
                    text: "}".into(),
                },
            ],
        }],
    }
}

#[test]
fn whole_file_fullscreen_paints_each_line_once() {
    let mut app = with_files(&[("main.rs", FileState::Clean)]);
    set_diff(&mut app, whole_file_sample());
    app.diff_whole_file = true;
    app.on_key(KeyCode::Enter);
    assert_eq!(app.mode(), Mode::FullDiff);
    let s = screen(&mut app, 100, 32);
    // Single LazyVim buffer: the code line appears exactly once (never
    // mirrored into a second half-pane) and there is no side-by-side
    // divider.
    assert_eq!(
        s.matches("println!").count(),
        1,
        "whole-file line painted more than once:\n{s}"
    );
    // No side-by-side divider: interior cells (outside the rounded
    // panel borders) never contain the column separator.
    for line in s.lines() {
        let chars: Vec<char> = line.chars().collect();
        if chars.len() > 2 {
            let interior: String = chars[1..chars.len() - 1].iter().collect();
            assert!(
                !interior.contains("\u{2502}"),
                "single-pane file view must not have a divider:\n{s}"
            );
        }
    }
}

#[test]
fn whole_file_fullscreen_has_opaque_background() {
    let mut app = with_files(&[("main.rs", FileState::Clean)]);
    set_diff(&mut app, whole_file_sample());
    app.diff_whole_file = true;
    app.on_key(KeyCode::Enter);
    let buf = render_buf(&mut app, 100, 32);
    let theme = Theme::default_theme();
    // Code row is fully opaque: every cell of the `println!` line sits
    // on the editor background (no wallpaper bleed-through).
    let mut found = false;
    for y in 0..buf.area.height {
        let row: String = (0..buf.area.width)
            .map(|x| buf[(x, y)].symbol().to_string())
            .collect();
        if row.contains("println!") {
            found = true;
            for x in 0..buf.area.width {
                assert_eq!(
                    plain(buf[(x, y)].bg),
                    theme.bg,
                    "transparent cell at ({x}, {y}): {row:?}"
                );
            }
        }
    }
    assert!(found, "println! line not rendered");
}

#[test]
fn renders_finder_popup_with_filtered_matches() {
    let mut app = with_files(&[
        ("src/main.rs", FileState::Unstaged),
        ("src/app.rs", FileState::Staged),
    ]);
    app.on_key(KeyCode::Char('/'));
    for c in "main".chars() {
        app.on_key(KeyCode::Char(c));
    }
    let s = screen(&mut app, 100, 32);
    assert!(s.contains("Find files"), "finder title missing:\n{s}");
    assert!(s.contains("main.rs"), "match missing:\n{s}");
    assert!(s.contains("1 match"), "match count missing:\n{s}");
}

#[test]
fn renders_finder_modal_over_fullscreen_diff() {
    let mut app = with_files(&[
        ("a.txt", FileState::Unstaged),
        ("b.txt", FileState::Unstaged),
    ]);
    app.on_key(KeyCode::Enter);
    assert_eq!(app.mode(), Mode::FullDiff);
    app.on_key(KeyCode::Char('/'));
    assert_eq!(app.mode(), Mode::FindFile);
    let s = screen(&mut app, 100, 32);
    assert!(s.contains("Find files"), "finder title missing:\n{s}");
    assert!(
        s.contains("Full diff"),
        "fullscreen backdrop missing behind finder:\n{s}"
    );
}

#[test]
fn renders_stash_push_modal() {
    let mut app = with_stash();
    app.on_key(KeyCode::Char('4'));
    app.on_key(KeyCode::Char('a'));
    app.on_key(KeyCode::Char('w'));
    let s = screen(&mut app, 70, 12);
    assert!(s.contains("Stash message"), "modal title missing:\n{s}");
}
