//! Ranking, word diffs, sessions and the command line.

use git_tui::cli::{normalize_key, parse_args};
use git_tui::config::KeyCode;
use git_tui::fuzzy::{fuzzy_score, rank};
use git_tui::session::{launch_paths, Session, SessionError};
use git_tui::style::Color;
use git_tui::theme::Theme;
use git_tui::toml_doc::TomlValue;
use git_tui::words::{split_changes, word_diff, ChangeKind, CharChange, WordSeg};

fn texts(segs: &[WordSeg]) -> String {
    segs.iter().map(|s| s.text.as_str()).collect()
}

fn args(v: &[&str]) -> Vec<String> {
    v.iter().map(|s| s.to_string()).collect()
}

/// A session from the text of its file, which may not be there.
fn of_text(text: Option<&str>) -> Result<Session, SessionError> {
    Session::of_text(&text.map(|t| t.to_string()))
}

#[test]
fn empty_query_matches_all_at_zero() {
    assert_eq!(fuzzy_score("", "src/main.rs"), Some(0));
}

#[test]
fn non_subsequence_is_none() {
    assert_eq!(fuzzy_score("zzz", "src/main.rs"), None);
    assert_eq!(fuzzy_score("mnx", "main.rs"), None);
}

#[test]
fn matching_is_case_insensitive_and_ordered() {
    assert!(fuzzy_score("mr", "main.rs").is_some());
    assert!(fuzzy_score("MR", "main.rs").is_some());
    // Wrong order fails either way.
    assert_eq!(fuzzy_score("rm", "main.rs"), None);
    assert_eq!(fuzzy_score("RM", "main.rs"), None);
}

#[test]
fn consecutive_boundary_hits_rank_first() {
    let cands = ["src/app.rs", "docs/appendix.md"];
    let ranked = rank("ap", &cands);
    // Both match, but "src/app.rs" hits at an earlier '/' boundary.
    assert_eq!(ranked.len(), 2);
    assert_eq!(ranked[0].0, 0);
}

#[test]
fn exact_basename_beats_deep_path() {
    let cands = ["a/very/deep/dir/tree/main.rs", "main.rs"];
    let ranked = rank("main", &cands);
    assert_eq!(ranked[0].0, 1);
}

#[test]
fn identical_lines_have_no_changed_runs() {
    let (old, new) = word_diff("hello world", "hello world");
    assert_eq!(texts(&old), "hello world");
    assert_eq!(texts(&new), "hello world");
    assert!(old.iter().all(|s| !s.changed));
    assert!(new.iter().all(|s| !s.changed));
}

#[test]
fn single_changed_word_is_isolated() {
    let (old, new) = word_diff("hello world", "hello WORLD");
    assert_eq!(texts(&old), "hello world");
    assert_eq!(texts(&new), "hello WORLD");
    assert!(old.iter().any(|s| s.changed && s.text == "world"));
    assert!(new.iter().any(|s| s.changed && s.text == "WORLD"));
    assert!(old.iter().any(|s| !s.changed && s.text.contains("hello")));
}

#[test]
fn fully_replaced_line_is_all_changed() {
    let (old, new) = word_diff("aaa", "bbb");
    assert!(old.iter().all(|s| s.changed));
    assert!(new.iter().all(|s| s.changed));
}

#[test]
fn empty_sides_are_all_changed() {
    let (old, new) = word_diff("", "new");
    assert!(old.is_empty());
    assert_eq!(texts(&new), "new");
    assert!(new.iter().all(|s| s.changed));
    let (old, new) = word_diff("gone", "");
    assert!(new.is_empty());
    assert_eq!(texts(&old), "gone");
    assert!(old.iter().all(|s| s.changed));
}

#[test]
fn overlong_lines_skip_char_diff_and_stay_whole() {
    // The char diff is O(ND): long lines render as wholly changed so a
    // single minified line can't freeze a frame. No text may be lost.
    let old = "a".repeat(1000);
    let new = "b".repeat(1000);
    let (old_segs, new_segs) = word_diff(&old, &new);
    assert_eq!(texts(&old_segs), old);
    assert_eq!(texts(&new_segs), new);
    assert!(old_segs.iter().all(|s| s.changed));
    assert!(new_segs.iter().all(|s| s.changed));
}

#[test]
fn short_lines_still_get_char_diff() {
    let (old, new) = word_diff("hello world", "hello WORLD");
    assert!(old.iter().any(|s| s.changed && s.text == "world"));
    assert!(new.iter().any(|s| s.changed && s.text == "WORLD"));
}

#[test]
fn no_args_means_no_override() {
    assert!(parse_args(&args(&[])).unwrap().theme.is_none());
}

#[test]
fn theme_flag_space_and_equals_forms() {
    assert_eq!(
        parse_args(&args(&["--theme", "tokyo-night"])).unwrap().theme,
        Some("tokyo-night".into())
    );
    assert_eq!(
        parse_args(&args(&["--theme=default"])).unwrap().theme,
        Some("default".into())
    );
}

#[test]
fn theme_flag_needs_a_value() {
    assert!(parse_args(&args(&["--theme"])).is_err());
    assert!(parse_args(&args(&["--theme="])).is_err());
}

#[test]
fn positional_repo_paths_are_accepted() {
    assert!(parse_args(&args(&["some-repo", "other-repo"])).is_ok());
}

#[test]
fn multiple_repo_flags_and_positionals_are_accepted() {
    assert!(parse_args(&args(&[
        "first",
        "--repo",
        "second",
        "--theme=tokyo-night",
        "--repo=third",
        "--repo",
        "fourth",
        "fifth",
    ]))
    .is_ok());
}

#[test]
fn repo_flag_needs_a_value() {
    for input in [
        vec!["--repo"],
        vec!["--repo="],
        vec!["--repo", ""],
        vec!["--repo", "--theme=default"],
        vec!["--repo", "--"],
    ] {
        assert!(parse_args(&args(&input)).is_err(), "{input:?}");
    }
}

#[test]
fn unknown_flags_are_rejected() {
    for input in [vec!["--bogus"], vec!["-x"], vec!["repo", "--bogus=value"]] {
        assert!(parse_args(&args(&input)).is_err(), "{input:?}");
    }
}

#[test]
fn separator_treats_remaining_arguments_as_paths() {
    assert!(parse_args(&args(&[
        "first",
        "--",
        "--repo",
        "--theme=default",
        "--help",
        "--",
        "-last",
    ]))
    .is_ok());
}

#[test]
fn cli_theme_overrides_file_theme() {
    // Precedence CLI > file: file says default, CLI says tokyo-night.
    let mut theme = Theme::by_name("default").unwrap();
    let cli = parse_args(&args(&["--theme", "tokyo-night"])).unwrap();
    if let Some(name) = cli.theme {
        theme = Theme::by_name(&name).unwrap();
    }
    assert_eq!(theme.border_focused, Color::Rgb(122, 162, 247));
}

#[test]
fn shift_lowercase_normalizes_to_uppercase() {
    assert_eq!(
        normalize_key(KeyCode::Char('q'), true),
        KeyCode::Char('Q')
    );
    assert_eq!(
        normalize_key(KeyCode::Char('q'), false),
        KeyCode::Char('q')
    );
    assert_eq!(
        normalize_key(KeyCode::Char('Q'), true),
        KeyCode::Char('Q')
    );
}

#[test]
fn missing_file_means_empty_session() {
    let s = of_text(None).unwrap();
    assert!(s.projects.is_empty());
    assert_eq!(s.current_clamped(), 0);
}

#[test]
fn roundtrip_preserves_projects_and_selection() {
    let s = Session::new(vec!["/tmp/api".to_string(), "/tmp/web".to_string()], 1);
    let back = of_text(Some(&s.save().unwrap())).unwrap();
    assert_eq!(back.projects, s.projects);
    assert_eq!(back.current, 1);
    assert_eq!(back.current_clamped(), 1);
}

#[test]
fn out_of_range_selection_clamps() {
    let s = Session::new(vec!["/tmp/a".to_string()], 99);
    assert_eq!(s.current_clamped(), 0);
    let empty = Session::empty();
    assert_eq!(empty.current_clamped(), 0);
}

#[test]
fn corrupt_file_errors_on_explicit_load() {
    assert!(of_text(Some("projects = [unclosed\n")).is_err());
}

#[test]
fn existing_projects_drops_missing_paths() {
    let here = "/tmp/here".to_string();
    let s = Session::new(
        vec![here.clone(), "/definitely/not/here-git-tui-xyz".to_string()],
        1,
    );
    assert_eq!(s.existing_projects(&vec![true, false]), vec![here]);
}

#[test]
fn a_session_that_cannot_be_read_is_empty() {
    let s = Session::load(Some(Err("no such table".to_string())));
    assert!(s.projects.is_empty());
    let s = Session::load(None);
    assert!(s.projects.is_empty());
    let s = Session::load(Some(Ok(Session::new(vec!["/a".to_string()], 0))));
    assert_eq!(s.projects, vec!["/a".to_string()]);
    assert!(!Session::has_content(&Some(" \n\t".to_string())));
    assert_eq!(
        Session::default_path(&Some("/cfg".to_string())).as_deref(),
        Some("/cfg/session.toml")
    );
    assert_eq!(Session::default_path(&None), None);
}

#[test]
fn each_bad_session_is_told_apart() {
    let e = of_text(Some("projects = [unclosed\n")).unwrap_err();
    assert!(matches!(&e, SessionError::BadToml(why) if !why.is_empty()));
    for text in ["projects = 1\n", "projects = [\"/a\", 2]\n"] {
        let e = of_text(Some(text)).unwrap_err();
        assert!(matches!(e, SessionError::BadProjects));
        assert_eq!(e.message(), "invalid type for `projects`");
    }
    for text in ["current = -1\n", "current = \"0\"\n", "current = 1.0\n"] {
        let e = of_text(Some(text)).unwrap_err();
        assert!(matches!(e, SessionError::BadCurrent));
        assert_eq!(e.message(), "invalid value for `current`");
    }
    let s = of_text(Some("other = 1\n")).unwrap();
    assert!(s.projects.is_empty());
    assert_eq!(s.current, 0);
}

#[test]
fn a_saved_session_reads_back_with_odd_paths() {
    let paths = vec!["/a \"b\"".to_string(), "/c\\d\n' ' '".to_string(), "/é".to_string()];
    let s = Session::new(paths.clone(), 9);
    assert!(s.can_save());
    let text = s.save().unwrap();
    assert!(text.starts_with("projects = ["));
    let back = of_text(Some(&text)).unwrap();
    assert_eq!(back.projects, paths);
    assert_eq!(back.current, 2);
    assert!(!Session::new(vec!["\"".repeat(256)], 0).can_save());
}

#[test]
fn given_paths_come_before_the_session() {
    let (given, restored) = (vec!["/g".to_string()], vec!["/r".to_string()]);
    let none: Vec<String> = Vec::new();
    assert_eq!(launch_paths(&given, &restored, "/cwd".into()), given);
    assert_eq!(launch_paths(&none, &restored, "/cwd".into()), restored);
    assert_eq!(launch_paths(&none, &none, "/cwd".into()), vec!["/cwd".to_string()]);
}

#[test]
fn changes_split_into_the_runs_of_each_side() {
    let change = |kind: ChangeKind, text: &str| CharChange { kind, text: text.to_string() };
    let (old, new) = split_changes(&vec![
        change(ChangeKind::Equal, "le"),
        change(ChangeKind::Equal, "t "),
        change(ChangeKind::Delete, "a"),
        change(ChangeKind::Insert, "b"),
        change(ChangeKind::Insert, ""),
        change(ChangeKind::Insert, "c"),
        change(ChangeKind::Equal, ";"),
    ]);
    let shown = |segs: &[WordSeg]| -> Vec<(String, bool)> {
        segs.iter().map(|s| (s.text.clone(), s.changed)).collect()
    };
    let run = |text: &str, changed: bool| (text.to_string(), changed);
    assert_eq!(shown(&old), vec![run("let ", false), run("a", true), run(";", false)]);
    assert_eq!(shown(&new), vec![run("let ", false), run("bc", true), run(";", false)]);
}

#[test]
fn a_document_gives_its_session() {
    let list = |v: &[&str]| TomlValue::List(v.iter().map(|t| Some(t.to_string())).collect());
    let entry = |name: &str, value: TomlValue| (name.to_string(), value);
    let s = Session::of_document(&vec![
        entry("current", TomlValue::Number(1)),
        entry("projects", list(&["/a", "/b"])),
    ])
    .unwrap();
    assert_eq!((s.projects, s.current), (vec!["/a".to_string(), "/b".to_string()], 1));
    let s = Session::of_document(&Vec::new()).unwrap();
    assert!(s.projects.is_empty() && s.current == 0);
    let bad = Session::of_document(&vec![entry("current", TomlValue::Number(-1))]);
    assert!(matches!(bad, Err(SessionError::BadCurrent)));
    let bad = Session::of_document(&vec![entry("projects", TomlValue::Number(1))]);
    assert!(matches!(bad, Err(SessionError::BadProjects)));
}
