//! The configuration: key bindings, palettes and the model settings.

use git_tui::config::{can_save_llm, parse_key, Config, ConfigError, KeyBindings, KeyCode, LlmConfig};
use git_tui::paths::pick_app_dir;
use git_tui::style::Color;
use git_tui::theme::Theme;

fn load(text: &str) -> Result<Config, String> {
    Config::from_toml(text).map_err(|e| e.message())
}

#[test]
fn defaults_preserve_legacy_behavior() {
    let keys = KeyBindings::default();
    assert!(keys.nav_down.contains(&KeyCode::Char('j')));
    assert!(keys.nav_down.contains(&KeyCode::Down));
    assert!(keys.stage.contains(&KeyCode::Char(' ')));
    assert!(keys.stage.contains(&KeyCode::Char('s')));
    assert!(keys.discard.contains(&KeyCode::Char('d')));
    // `q` closes the current project, `Q` (Shift+q) quits the app.
    assert!(keys.project_close.contains(&KeyCode::Char('q')));
    assert!(keys.quit.contains(&KeyCode::Char('Q')));
    assert!(keys.focus_next.contains(&KeyCode::Tab));
    assert!(keys.checkout.contains(&KeyCode::Enter));
    assert!(keys.branch_delete.contains(&KeyCode::Char('D')));
    assert!(keys.find_files.contains(&KeyCode::Char('/')));
}

#[test]
fn sync_keys_default_to_lazygit_pull_push() {
    let keys = KeyBindings::default();
    assert!(keys.sync_pull.contains(&KeyCode::Char('p')));
    assert!(keys.sync_push.contains(&KeyCode::Char('P')));
}

#[test]
fn left_arrow_focuses_status_by_default() {
    let keys = KeyBindings::default();
    assert!(keys.focus_status.contains(&KeyCode::Left));
    // Vertical-only navigation: nothing is bound to Right by default.
    for action in [
        &keys.nav_down,
        &keys.nav_up,
        &keys.stage,
        &keys.focus_branches,
        &keys.focus_log,
        &keys.focus_stash,
    ] {
        assert!(!action.contains(&KeyCode::Right));
    }
}

#[test]
fn key_names_parse() {
    assert_eq!(parse_key("space").unwrap(), KeyCode::Char(' '));
    assert_eq!(parse_key("tab").unwrap(), KeyCode::Tab);
    assert_eq!(parse_key("enter").unwrap(), KeyCode::Enter);
    assert_eq!(parse_key("esc").unwrap(), KeyCode::Esc);
    assert_eq!(parse_key("pageup").unwrap(), KeyCode::PageUp);
    assert_eq!(parse_key("D").unwrap(), KeyCode::Char('D'));
}

#[test]
fn unknown_key_name_errors() {
    assert!(parse_key("ctrl-x").is_none());
    assert!(parse_key("").is_none());
}

#[test]
fn themes_resolve() {
    assert!(Theme::by_name("default").is_ok());
    let tn = Theme::by_name("tokyo-night").unwrap();
    assert_eq!(tn.error, Color::Rgb(247, 118, 142));
    assert_eq!(tn.hunk_header, Color::Rgb(125, 207, 255));
    // Default ships the Catppuccin Mocha palette; legacy keeps bare ANSI.
    assert_eq!(Theme::default_theme().bg, Color::Rgb(30, 30, 46));
    assert_eq!(Theme::default_theme().error, Color::Rgb(243, 139, 168));
    assert_eq!(Theme::by_name("legacy").unwrap().staged, Color::Green);
    let mocha = Theme::by_name("catppuccin").unwrap();
    assert_eq!(mocha, Theme::default_theme());
    assert!(Theme::by_name("dracula").is_err());
}

#[test]
fn editor_background_is_opaque() {
    // LazyVim Normal bg: solid so the wallpaper never bleeds through.
    assert_eq!(
        Theme::by_name("tokyo-night").unwrap().bg,
        Color::Rgb(36, 40, 59)
    );
    assert_eq!(Theme::default_theme().bg, Color::Rgb(30, 30, 46));
    assert_eq!(Theme::by_name("legacy").unwrap().bg, Color::Black);
}

#[test]
fn diff_washes_are_dark_enough_for_syntax_colors() {
    // Diffs must stay readable with syntax highlighting: deep red/green
    // washes keep the colored foreground readable (contrast ratio >= 3).
    // Green/teal washes stay dark; red washes stay deep crimson so any
    // syntax fg remains readable on top.
    for theme in [
        Theme::by_name("tokyo-night").unwrap(),
        Theme::by_name("catppuccin").unwrap(),
        Theme::default_theme(),
        Theme::legacy(),
    ] {
        let Color::Rgb(ar, ag, ab) = theme.diff_add_bg else {
            panic!("expected RGB add wash, got {:?}", theme.diff_add_bg);
        };
        assert!(ag > ar, "add wash must stay green-tinted: {ar},{ag},{ab}");
        for wash in [theme.diff_del_bg, theme.diff_del_word_bg] {
            let Color::Rgb(r, g, b) = wash else {
                panic!("expected RGB wash, got {wash:?}");
            };
            assert!(r > g, "del wash must stay red-tinted: {wash:?}");
            assert!((r as u32 + g as u32 + b as u32) / 3 < 90, "wash too light: {wash:?}");
        }
    }
}

#[test]
fn legacy_theme_matches_old_ansi_colors() {
    let t = Theme::legacy();
    assert_eq!(t.staged, Color::Green);
    assert_eq!(t.unstaged, Color::Yellow);
    assert_eq!(t.conflicted, Color::Red);
    assert_eq!(t.hunk_header, Color::Cyan);
}

#[test]
fn missing_file_means_defaults() {
    let cfg = load("").unwrap();
    assert!(cfg.keys.quit.contains(&KeyCode::Char('Q')));
    assert!(cfg.keys.project_close.contains(&KeyCode::Char('q')));
}

#[test]
fn file_overrides_keys_and_theme() {
    let path = "[keys]\nstage = \"s\"\nquit = [\"q\", \"Q\"]\n\n[theme]\nname = \"tokyo-night\"\n";
    let cfg = load(path).unwrap();
    assert_eq!(cfg.keys.stage, vec![KeyCode::Char('s')]);
    assert!(cfg.keys.quit.contains(&KeyCode::Char('Q')));
    assert_eq!(cfg.theme.error, Color::Rgb(247, 118, 142));
    // Untouched actions keep defaults.
    assert!(cfg.keys.commit.contains(&KeyCode::Char('c')));
}

#[test]
fn unknown_action_or_key_in_file_errors() {
    let bad_action = "[keys]\nfly = \"f\"\n";
    assert!(load(bad_action).is_err());
    let bad_key = "[keys]\nquit = \"ctrl-q\"\n";
    assert!(load(bad_key).is_err());
}

#[test]
fn misspelled_section_or_theme_field_errors_instead_of_silently_ignored() {
    // `[themes]` (plural) must not silently fall back to defaults.
    let plural = "[themes]\nname = \"tokyo-night\"\n";
    assert!(load(plural).is_err());
    // `[theme] style = ...` (wrong field) must not be ignored either.
    let field = "[theme]\nstyle = \"tokyo-night\"\n";
    assert!(load(field).is_err());
}

#[test]
fn llm_defaults_to_openai_without_key() {
    let cfg = Config::default();
    assert_eq!(cfg.llm.provider, "openai");
    assert_eq!(cfg.llm.model, "gpt-4o-mini");
    assert!(cfg.llm.api_key.is_empty());
}

#[test]
fn llm_section_overrides_provider_model_and_key() {
    let path = "[llm]\nprovider = \"anthropic\"\nmodel = \"haiku-latest\"\napi_key = \"sk-test\"\n";
    let cfg = load(path).unwrap();
    assert_eq!(cfg.llm.provider, "anthropic");
    assert_eq!(cfg.llm.model, "haiku-latest");
    assert_eq!(cfg.llm.api_key, "sk-test");
    // Keys/theme untouched.
    assert!(cfg.keys.commit.contains(&KeyCode::Char('c')));
}

#[test]
fn llm_settings_key_defaults_to_shift_a() {
    assert!(KeyBindings::default()
        .llm_settings
        .contains(&KeyCode::Char('A')));
}

#[test]
fn llm_custom_base_url_and_unknown_provider() {
    let ok = "[llm]\nprovider = \"custom\"\nbase_url = \"http://localhost:8080/v1\"\n";
    let cfg = load(ok).unwrap();
    assert_eq!(cfg.llm.provider, "custom");
    assert_eq!(
        cfg.llm.base_url.as_deref(),
        Some("http://localhost:8080/v1")
    );
    let bad = "[llm]\nprovider = \"skynet\"\n";
    assert!(load(bad).is_err());
    let bad_field = "[llm]\napi_keys = \"x\"\n";
    assert!(load(bad_field).is_err());
}

#[test]
fn app_dir_is_agentgit_unless_only_legacy_exists() {
    // Fresh install: new name.
    assert_eq!(pick_app_dir("/base", false, false), "/base/agentgit");
    // Only the pre-rename dir: keep using it (config + session intact).
    assert_eq!(pick_app_dir("/base", false, true), "/base/git-tui");
    // Both present: the new dir wins.
    assert_eq!(pick_app_dir("/base", true, true), "/base/agentgit");
}

#[test]
fn save_llm_preserves_other_sections_and_roundtrips() {
    let before = "[keys]\nquit = \"Q\"\n\n[theme]\nname = \"tokyo-night\"\n";
    let llm = LlmConfig {
        provider: "ollama".into(),
        model: "llama3.1".into(),
        api_key: String::new(),
        base_url: None,
    };
    let text = Config::save_llm(before, &llm).unwrap();
    let cfg = load(&text).unwrap();
    assert_eq!(cfg.llm.provider, "ollama");
    assert_eq!(cfg.llm.model, "llama3.1");
    // Untouched sections survive the merge.
    assert!(cfg.keys.quit.contains(&KeyCode::Char('Q')));
    assert_eq!(cfg.theme.border_focused, Color::Rgb(122, 162, 247));
}

/// Each error, with the value that gave it.
#[test]
fn every_config_error_names_its_value() {
    let err = |text: &str| Config::from_toml(text).err().unwrap();
    let e = err("[keys]\nquit = \"ctrl-q\"\n");
    assert!(matches!(&e, ConfigError::UnknownKey { action, name } if action == "quit" && name == "ctrl-q"));
    assert!(e.message().contains("ctrl-q"), "{}", e.message());
    let e = err("[keys]\nquit = []\n");
    assert!(matches!(&e, ConfigError::NoKeys { action } if action == "quit"));
    let e = err("[keys]\nfly = \"f\"\n");
    assert!(matches!(&e, ConfigError::UnknownAction { action } if action == "fly"));
    assert!(e.message().contains("fly"), "{}", e.message());
    let e = err("[theme]\nname = \"dracula\"\n");
    assert!(matches!(&e, ConfigError::UnknownTheme { name } if name == "dracula"));
    let e = err("[llm]\nprovider = \"skynet\"\n");
    assert!(matches!(&e, ConfigError::UnknownProvider { provider } if provider == "skynet"));
    assert!(e.message().contains("skynet"), "{}", e.message());
    let e = err("[llm]\nmodel = \" \"\n");
    assert!(matches!(e, ConfigError::EmptyModel));
    assert_eq!(e.message(), "llm model must not be empty");
    let e = err("[llm]\nbase_url = \"\"\n");
    assert!(matches!(e, ConfigError::EmptyBaseUrl));
    assert_eq!(e.message(), "llm base_url must not be empty");
    let e = err("[keys\n");
    assert!(matches!(&e, ConfigError::BadToml { why } if !why.is_empty()));
    let e = err("[themes]\nname = \"tokyo-night\"\n");
    assert!(matches!(&e, ConfigError::UnknownSection { name } if name == "themes"));
    assert!(e.message().contains("`themes`"), "{}", e.message());
    let e = err("[theme]\nstyle = \"tokyo-night\"\n");
    assert!(
        matches!(&e, ConfigError::UnknownField { section, name } if section == "theme" && name == "style")
    );
    assert!(e.message().contains("`style`"), "{}", e.message());
    for text in ["keys = 1\n", "[keys]\nquit = 1\n", "[keys]\nquit = [\"q\", 1]\n"] {
        assert!(matches!(err(text), ConfigError::WrongType { .. }), "{text}");
    }
    let e = err("[llm]\nmodel = 4\n");
    assert!(matches!(&e, ConfigError::WrongType { name } if name == "model"));
    assert!(e.message().contains("`model`"), "{}", e.message());
}

/// A section may also be written as a list of its fields.
#[test]
fn sections_can_be_lists() {
    let cfg = load("theme = [\"tokyo-night\"]\nllm = [\"ollama\", \"llama3.1\"]\n").unwrap();
    assert_eq!(cfg.theme, Theme::tokyo_night());
    assert_eq!(cfg.llm.provider, "ollama");
    assert_eq!(cfg.llm.model, "llama3.1");
    assert!(load("theme = [1]\n").is_err());
}

/// A text with too many quotation marks in a row is not written.
#[test]
fn long_runs_of_quotes_are_seen() {
    let mut llm = Config::default().llm;
    assert!(can_save_llm("[keys]\nquit = \"Q\"\n", &llm));
    llm.model = "\"".repeat(255);
    assert!(can_save_llm("", &llm));
    let text = Config::save_llm("", &llm).unwrap();
    assert_eq!(load(&text).unwrap().llm.model, llm.model);
    llm.model = "\"".repeat(256);
    assert!(!can_save_llm("", &llm));
}

/// A provider is known in any case.
#[test]
fn provider_names_ignore_case() {
    let cfg = load("[llm]\nprovider = \"OllaMA\"\n").unwrap();
    assert_eq!(cfg.llm.provider, "ollama");
}

/// What was saved is what is read back.
#[test]
fn saved_settings_read_back() {
    let llm = LlmConfig {
        provider: "custom".into(),
        model: "m \"1\"".into(),
        api_key: "k\\ey".into(),
        base_url: Some("http://localhost:8080/v1".into()),
    };
    let text = Config::save_llm("[llm]\nprovider = \"openai\"\n", &llm).unwrap();
    let cfg = load(&text).unwrap();
    assert_eq!(cfg.llm.provider, "custom");
    assert_eq!(cfg.llm.model, "m \"1\"");
    assert_eq!(cfg.llm.api_key, "k\\ey");
    assert_eq!(cfg.llm.base_url.as_deref(), Some("http://localhost:8080/v1"));
    assert!(Config::save_llm("not toml at all [", &llm).is_err());
}

/// Saving settings leaves every other value as it was, whatever its type.
#[test]
fn saving_keeps_values_of_every_type() {
    let before = "flag = true\nratio = 0.1\nwhen = 1979-05-27T07:32:00Z\nmixed = [1, \"a\", { b = 2 }]\n\n\
                  [other]\ncount = 3\n\n[other.deep.er]\nlist = [1.5, 2.5]\n\n[llm]\nmodel = \"old\"\n";
    let llm = LlmConfig {
        provider: "ollama".into(),
        model: "new".into(),
        api_key: String::new(),
        base_url: Some("  ".into()),
    };
    let text = Config::save_llm(before, &llm).unwrap();
    let mut was: toml::Table = before.parse().unwrap();
    let mut is: toml::Table = text.parse().unwrap();
    was.remove("llm");
    let section = is.remove("llm").unwrap();
    assert_eq!(was, is);
    let names: Vec<&String> = section.as_table().unwrap().keys().collect();
    assert_eq!(names, vec!["api_key", "model", "provider"]);
}

/// A section with the name by which a date is known is written all the same.
#[test]
fn a_date_name_is_no_obstacle_to_saving() {
    let llm = Config::default().llm;
    let before = "[x]\na = \"t\"\n\"$__toml_private_datetime\" = \"u\"\n";
    let text = Config::save_llm(before, &llm).unwrap();
    assert!(text.contains("[llm]"), "{text}");
    assert!(text.contains("a = \"t\""), "{text}");
}

/// Only quotation marks count in a text; letters do not.
#[test]
fn long_runs_of_letters_are_written() {
    let mut llm = Config::default().llm;
    llm.model = "u".repeat(300);
    assert!(can_save_llm("", &llm));
    let text = Config::save_llm("", &llm).unwrap();
    assert_eq!(load(&text).unwrap().llm.model, llm.model);
}

/// A number that is none stays one; its sign is not kept.
#[test]
fn saving_keeps_what_is_no_number() {
    let llm = Config::default().llm;
    let text = Config::save_llm("x = -nan\ny = nan\nz = -inf\nzero = -0.0\n", &llm).unwrap();
    let is: toml::Table = text.parse().unwrap();
    assert!(is["x"].as_float().unwrap().is_nan());
    assert!(is["y"].as_float().unwrap().is_nan());
    assert_eq!(is["z"].as_float(), Some(f64::NEG_INFINITY));
    assert_eq!(is["zero"].as_float().map(f64::to_bits), Some((-0.0f64).to_bits()));
    assert!(text.contains("x = nan\n"), "{text}");
}
