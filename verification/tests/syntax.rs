//! Highlighting of code, Markdown source and TOML.

use git_tui::style::Color;
use git_tui::syntax::Highlighter;
use git_tui::theme::Theme;

fn lines(list: &[&str]) -> Vec<String> {
    list.iter().map(|s| s.to_string()).collect()
}

#[test]
fn markdown_headings_are_bold_function_color() {
    let mut hl = Highlighter::new();
    let theme = Theme::tokyo_night();
    for (line, word) in [("# Hello world", "Hello"), ("## Sub head", "Sub")] {
        let toks = hl.highlight_line("README.md", &None, line, theme);
        let joined: String = toks.iter().map(|t| t.text.as_str()).collect();
        assert_eq!(joined, line);
        let head = toks
            .iter()
            .find(|t| t.text.contains(word))
            .expect("heading text token");
        assert_eq!(head.fg, theme.syntax_function, "{toks:?}");
        assert!(
            head.modifier.bold,
            "heading should be bold: {toks:?}"
        );
    }
}

#[test]
fn markdown_emphasis_code_and_links_are_styled() {
    let mut hl = Highlighter::new();
    let theme = Theme::tokyo_night();
    let line = "**bold** *em* `code` [link](https://x.y)";
    let toks = hl.highlight_line("notes.md", &None, line, theme);
    let joined: String = toks.iter().map(|t| t.text.as_str()).collect();
    assert_eq!(joined, line);
    let bold = toks.iter().find(|t| t.text == "bold").expect("bold token");
    assert!(
        bold.modifier.bold,
        "bold should be bold: {toks:?}"
    );
    let em = toks.iter().find(|t| t.text == "em").expect("italic token");
    assert!(
        em.modifier.italic,
        "italic should be italic: {toks:?}"
    );
    let code = toks.iter().find(|t| t.text == "code").expect("code token");
    assert_eq!(code.fg, theme.syntax_string, "{toks:?}");
    assert!(
        toks.iter()
            .any(|t| t.fg == theme.syntax_type && t.modifier.underlined),
        "link should be underlined cyan: {toks:?}"
    );
}

#[test]
fn markdown_punctuation_is_dimmed() {
    let mut hl = Highlighter::new();
    let theme = Theme::tokyo_night();
    let toks = hl.highlight_line("README.md", &None, "# Title", theme);
    let hash = toks.iter().find(|t| t.text == "#").expect("hash token");
    assert_eq!(hash.fg, theme.hint, "{toks:?}");
}

#[test]
fn markdown_extension_variants_use_markdown_grammar() {
    let mut hl = Highlighter::new();
    let theme = Theme::tokyo_night();
    for path in ["notes.markdown", "page.mdx", "doc.mkd"] {
        let toks = hl.highlight_line(path, &None, "# Title", theme);
        assert!(
            toks.iter().any(|t| t.fg == theme.syntax_function),
            "{path} should highlight as Markdown: {toks:?}"
        );
    }
}

#[test]
fn typescript_files_get_keyword_and_comment_colors() {
    let mut hl = Highlighter::new();
    // syntect's default set ships no TypeScript/TSX grammar; .ts files
    // must still highlight (via the JavaScript grammar), not render flat.
    let theme = Theme::tokyo_night();
    for path in ["a.ts", "a.tsx", "a.mts", "a.jsx", "a.mjs"] {
        let toks = hl.highlight_line(path, &None, "const x = 1; // hi", theme);
        assert!(
            toks.iter()
                .any(|t| t.text.contains("const") && t.fg == theme.syntax_keyword),
            "{path}: `const` should carry the keyword color: {toks:?}"
        );
        assert!(
            toks.iter().any(|t| t.fg == theme.syntax_comment),
            "{path}: comment should carry the comment color: {toks:?}"
        );
    }
}

#[test]
fn rust_keywords_get_keyword_color() {
    let mut hl = Highlighter::new();
    let theme = Theme::tokyo_night();
    let toks = hl.highlight_line("src/main.rs", &None, "fn main() { let x = 1; }", theme);
    let joined: String = toks.iter().map(|t| t.text.as_str()).collect();
    assert_eq!(joined, "fn main() { let x = 1; }");
    // `fn` should carry the keyword (magenta) color.
    let fn_tok = toks.iter().find(|t| t.text == "fn").expect("fn token");
    assert_eq!(fn_tok.fg, theme.syntax_keyword);
}

#[test]
fn line_comment_gets_comment_color() {
    let mut hl = Highlighter::new();
    let theme = Theme::tokyo_night();
    let toks = hl.highlight_line("a.py", &None, "# hello world", theme);
    assert!(!toks.is_empty());
    assert!(
        toks.iter().all(|t| t.fg == theme.syntax_comment),
        "comment should be uniform: {toks:?}"
    );
}

#[test]
fn unknown_extension_falls_back_to_fg() {
    let mut hl = Highlighter::new();
    let theme = Theme::tokyo_night();
    let toks = hl.highlight_line("file.unknownext123", &None, "hello", theme);
    let joined: String = toks.iter().map(|t| t.text.as_str()).collect();
    assert_eq!(joined, "hello");
}

#[test]
fn file_lines_preserve_every_line() {
    let mut hl = Highlighter::new();
    let theme = Theme::default_theme();
    let out = hl.highlight_file_lines("a.rs", &None, &lines(&["fn a() {}", "// c", ""]), theme);
    assert_eq!(out.len(), 3);
    let joined: String = out[0].iter().map(|t| t.text.as_str()).collect();
    assert_eq!(joined, "fn a() {}");
}

#[test]
fn very_long_lines_use_plain_foreground() {
    let mut hl = Highlighter::new();
    // Multi-KB lines (minified files) must not run regex highlighting:
    // tens of ms per frame while scrolling.
    let theme = Theme::tokyo_night();
    let long = "x".repeat(5000);
    let toks = hl.highlight_line("src/main.rs", &None, &long, theme);
    let joined: String = toks.iter().map(|t| t.text.as_str()).collect();
    assert_eq!(joined, long);
    assert!(toks.iter().all(|t| t.fg == theme.fg));
}

#[test]
fn highlight_cache_keys_on_theme() {
    let mut hl = Highlighter::new();
    // Same line under two themes must not share cached tokens: a custom
    // keyword color must show up only under its own theme.
    let line = "fn main() {}";
    let base = Theme::tokyo_night();
    let custom = Theme {
        syntax_keyword: Color::Red,
        ..base
    };
    let base_fn = hl.highlight_line("a.rs", &None, line, base);
    let custom_fn = hl.highlight_line("a.rs", &None, line, custom);
    let fg_base = base_fn.iter().find(|t| t.text == "fn").unwrap().fg;
    let fg_custom = custom_fn.iter().find(|t| t.text == "fn").unwrap().fg;
    assert_eq!(fg_base, base.syntax_keyword);
    assert_ne!(
        fg_custom, fg_base,
        "custom theme must not get cached tokens"
    );
    // And the base theme still resolves correctly afterwards.
    let again = hl.highlight_line("a.rs", &None, line, base);
    assert_eq!(again.iter().find(|t| t.text == "fn").unwrap().fg, fg_base);
}

#[test]
fn toml_table_header_is_bold_type_color() {
    let mut hl = Highlighter::new();
    let theme = Theme::tokyo_night();
    for (line, name) in [
        ("[workspace]", "workspace"),
        ("[profile.release]", "profile"),
        ("[[bin]]", "bin"),
    ] {
        let toks = hl.highlight_line("Cargo.toml", &None, line, theme);
        let joined: String = toks.iter().map(|t| t.text.as_str()).collect();
        assert_eq!(joined, line, "{toks:?}");
        let head = toks
            .iter()
            .find(|t| t.text == name)
            .expect("table name token");
        assert_eq!(head.fg, theme.syntax_type, "{line}: {toks:?}");
        assert!(
            head.modifier.bold,
            "{line}: table should be bold: {toks:?}"
        );
        assert!(
            toks.iter()
                .any(|t| t.fg == theme.hint && t.text.contains('[')),
            "{line}: brackets should be dimmed: {toks:?}"
        );
    }
}

#[test]
fn toml_key_is_function_and_equals_is_dimmed() {
    let mut hl = Highlighter::new();
    let theme = Theme::tokyo_night();
    let line = "members = [\"a\", \"b\"]";
    let toks = hl.highlight_line("Cargo.toml", &None, line, theme);
    let joined: String = toks.iter().map(|t| t.text.as_str()).collect();
    assert_eq!(joined, line, "{toks:?}");
    let key = toks
        .iter()
        .find(|t| t.text == "members")
        .expect("key token");
    assert_eq!(key.fg, theme.syntax_function, "{toks:?}");
    let eq = toks.iter().find(|t| t.text == "=").expect("equals token");
    assert_eq!(eq.fg, theme.hint, "{toks:?}");
    assert!(
        toks.iter()
            .any(|t| t.text == "\"a\"" && t.fg == theme.syntax_string),
        "array strings should be green: {toks:?}"
    );
}

#[test]
fn toml_strings_numbers_and_bools_are_styled() {
    let mut hl = Highlighter::new();
    let theme = Theme::tokyo_night();
    let cases = [
        (
            "name = \"tokyo-night\"",
            "\"tokyo-night\"",
            theme.syntax_string,
        ),
        ("path = 'literal'", "'literal'", theme.syntax_string),
        ("count = 42", "42", theme.syntax_number),
        ("ratio = 3.14", "3.14", theme.syntax_number),
        ("hex = 0xDEAD_beef", "0xDEAD_beef", theme.syntax_number),
        (
            "when = 1979-05-27T07:32:00Z",
            "1979-05-27T07:32:00Z",
            theme.syntax_number,
        ),
    ];
    for (line, word, fg) in cases {
        let toks = hl.highlight_line("config.toml", &None, line, theme);
        let joined: String = toks.iter().map(|t| t.text.as_str()).collect();
        assert_eq!(joined, line, "{toks:?}");
        assert!(
            toks.iter().any(|t| t.text == word && t.fg == fg),
            "{line}: {word:?} should be {fg:?}: {toks:?}"
        );
    }
    for word in ["true", "false"] {
        let line = format!("enabled = {word}");
        let toks = hl.highlight_line("config.toml", &None, &line, theme);
        let tok = toks.iter().find(|t| t.text == word).expect("bool token");
        assert_eq!(tok.fg, theme.syntax_keyword, "{toks:?}");
        assert!(
            tok.modifier.italic,
            "bool should be italic: {toks:?}"
        );
    }
}

#[test]
fn toml_comments_are_italic_and_hash_in_string_survives() {
    let mut hl = Highlighter::new();
    let theme = Theme::tokyo_night();
    let toks = hl.highlight_line("Cargo.toml", &None, "# hello world", theme);
    assert!(
        toks.iter().all(|t| t.fg == theme.syntax_comment),
        "full-line comment should be uniform: {toks:?}"
    );
    assert!(
        toks.iter().any(|t| t.modifier.italic),
        "comment should be italic: {toks:?}"
    );
    let line = "name = \"a#b\"  # trailing";
    let toks = hl.highlight_line("Cargo.toml", &None, line, theme);
    let joined: String = toks.iter().map(|t| t.text.as_str()).collect();
    assert_eq!(joined, line, "{toks:?}");
    let value = toks
        .iter()
        .find(|t| t.text == "\"a#b\"")
        .expect("string token");
    assert_eq!(value.fg, theme.syntax_string, "{toks:?}");
    let comment = toks
        .iter()
        .find(|t| t.text.starts_with('#'))
        .expect("comment token");
    assert_eq!(comment.fg, theme.syntax_comment, "{toks:?}");
}

#[test]
fn toml_dotted_keys_and_cargo_lock_name_highlight() {
    let mut hl = Highlighter::new();
    let theme = Theme::tokyo_night();
    let toks = hl.highlight_line("config.toml", &None, "a.b = 1", theme);
    for seg in ["a", "b"] {
        assert!(
            toks.iter()
                .any(|t| t.text == seg && t.fg == theme.syntax_function),
            "dotted key segment {seg:?} should be blue: {toks:?}"
        );
    }
    assert!(
        toks.iter().any(|t| t.text == "." && t.fg == theme.hint),
        "dotted key separator should be dimmed: {toks:?}"
    );
    // Cargo.lock is TOML content without the extension.
    let toks = hl.highlight_line("Cargo.lock", &None, "version = \"3\"", theme);
    assert!(
        toks.iter()
            .any(|t| t.text == "\"3\"" && t.fg == theme.syntax_string),
        "Cargo.lock should highlight as TOML: {toks:?}"
    );
    let out = hl.highlight_file_lines("Cargo.toml", &None, &lines(&["[workspace]", "members = []"]), theme);
    assert_eq!(out.len(), 2);
    let joined: String = out[0].iter().map(|t| t.text.as_str()).collect();
    assert_eq!(joined, "[workspace]");
}
