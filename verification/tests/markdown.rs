//! Markdown as it is shown.

use git_tui::markdown::is_markdown_path;
use git_tui::markdown_events::Alignment;
use git_tui::markdown_table::{cut_text, table_lines, Table};
use git_tui::markdown_wrap::render_markdown;
use git_tui::syntax::Highlighter;
use git_tui::theme::Theme;
use git_tui::width::width_of_line;

fn tn() -> Theme {
    Theme::tokyo_night()
}

#[test]
fn detects_markdown_paths() {
    for p in ["a.md", "A.MD", "notes.markdown", "doc.mkd", "page.mdx"] {
        assert!(is_markdown_path(p), "{p}");
    }
    assert!(!is_markdown_path("main.rs"));
    assert!(!is_markdown_path("README"));
}

#[test]
fn heading_renders_bold_function_color() {
    let mut hl = Highlighter::new();
    let lines = render_markdown(&mut hl, "# Hello\n", tn(), 80);
    let text: String = lines
        .iter()
        .flat_map(|l| l.spans.iter().map(|s| s.text.as_str()))
        .collect();
    assert!(text.contains("Hello"), "{text:?}");
    assert!(lines
        .iter()
        .flat_map(|l| l.spans.iter())
        .any(|s| s.style.fg == Some(tn().syntax_function)));
}

#[test]
fn emphasis_bold_italic_strike() {
    let mut hl = Highlighter::new();
    let lines = render_markdown(&mut hl, "**b** *i* ~~s~~ `c`\n", tn(), 80);
    let all: Vec<_> = lines.iter().flat_map(|l| l.spans.iter()).collect();
    assert!(all
        .iter()
        .any(|s| s.style.modifier.bold));
    assert!(all
        .iter()
        .any(|s| s.style.modifier.italic));
    assert!(all
        .iter()
        .any(|s| s.text == "c" && s.style.fg == Some(tn().syntax_string)));
}

#[test]
fn lists_and_task_markers() {
    let mut hl = Highlighter::new();
    let lines = render_markdown(&mut hl, "- a\n- [ ] todo\n- [x] done\n1. first\n", tn(), 80);
    let text: String = lines
        .iter()
        .flat_map(|l| l.spans.iter().map(|s| s.text.as_str()))
        .collect();
    assert!(text.contains('•'), "{text:?}");
    assert!(text.contains('☐'), "{text:?}");
    assert!(text.contains('☑'), "{text:?}");
    assert!(text.contains("1."), "{text:?}");
}

#[test]
fn code_block_is_shaded_without_fences() {
    let mut hl = Highlighter::new();
    // Browser-like: shaded <pre> block, no ``` markers.
    let lines = render_markdown(&mut hl, "```rust\nfn main() {}\n```\n", tn(), 80);
    let text: String = lines
        .iter()
        .flat_map(|l| l.spans.iter().map(|s| s.text.as_str()))
        .collect();
    assert!(text.contains("fn main"), "{text:?}");
    assert!(
        !text.contains("```"),
        "browser block shows no fences: {text:?}"
    );
    assert!(
        lines
            .iter()
            .flat_map(|l| l.spans.iter())
            .any(|s| s.style.bg == Some(tn().selection_bg)),
        "code block should carry the shaded wash"
    );
}

#[test]
fn table_renders_borders() {
    let mut hl = Highlighter::new();
    let lines = render_markdown(&mut hl, "| a | b |\n|---|---|\n| 1 | 2 |\n", tn(), 80);
    let text: String = lines
        .iter()
        .flat_map(|l| l.spans.iter().map(|s| s.text.as_str()))
        .collect();
    assert!(text.contains('│'), "{text:?}");
    assert!(text.contains('a'), "{text:?}");
}

#[test]
fn link_hides_url_like_browser() {
    let mut hl = Highlighter::new();
    // Browser shows blue underlined text, not the raw URL.
    let lines = render_markdown(&mut hl, "[hi](https://x.y)\n", tn(), 80);
    let text: String = lines
        .iter()
        .flat_map(|l| l.spans.iter().map(|s| s.text.as_str()))
        .collect();
    assert!(text.contains("hi"), "{text:?}");
    assert!(
        !text.contains("https://x.y"),
        "browser hides the URL: {text:?}"
    );
    assert!(
        lines
            .iter()
            .flat_map(|l| l.spans.iter())
            .any(|s| s.text == "hi" && s.style.fg == Some(tn().syntax_type)),
        "link text should be blue"
    );
}

#[test]
fn image_is_placeholder() {
    let mut hl = Highlighter::new();
    let lines = render_markdown(&mut hl, "![alt](pic.png)\n", tn(), 80);
    let text: String = lines
        .iter()
        .flat_map(|l| l.spans.iter().map(|s| s.text.as_str()))
        .collect();
    assert!(text.contains("alt"), "{text:?}");
}

#[test]
fn blockquote_and_rule() {
    let mut hl = Highlighter::new();
    let lines = render_markdown(&mut hl, "> quote\n\n---\n", tn(), 80);
    let text: String = lines
        .iter()
        .flat_map(|l| l.spans.iter().map(|s| s.text.as_str()))
        .collect();
    assert!(text.contains('▎'), "{text:?}");
    assert!(text.contains('─'), "{text:?}");
}

#[test]
fn h1_has_browser_bottom_border_and_no_hashes() {
    let mut hl = Highlighter::new();
    let lines = render_markdown(&mut hl, "# Hello\n", tn(), 80);
    let text: String = lines
        .iter()
        .flat_map(|l| l.spans.iter().map(|s| s.text.as_str()))
        .collect();
    assert!(text.contains("Hello"), "{text:?}");
    assert!(
        !text.contains('#'),
        "browser headings show no # markers: {text:?}"
    );
    assert!(
        text.contains('─'),
        "H1 should carry a bottom border: {text:?}"
    );
}

#[test]
fn hr_spans_full_width() {
    let mut hl = Highlighter::new();
    let lines = render_markdown(&mut hl, "---\n", tn(), 60);
    let rule = lines
        .iter()
        .find(|l| width_of_line(l) > 24)
        .expect("full-width rule");
    assert!(width_of_line(rule) <= 60, "rule must fit: {}", width_of_line(rule));
    assert!(
        width_of_line(rule) >= 50,
        "rule should span the container: {}",
        width_of_line(rule)
    );
}

#[test]
fn table_has_browser_box_and_alignment() {
    let mut hl = Highlighter::new();
    let lines = render_markdown(&mut hl, "| a | b |\n|:--|--:|\n| 1 | 2 |\n", tn(), 80);
    let text: String = lines
        .iter()
        .flat_map(|l| l.spans.iter().map(|s| s.text.as_str()))
        .collect();
    assert!(text.contains('┌'), "{text:?}");
    assert!(text.contains('└'), "{text:?}");
    assert!(text.contains('a'), "{text:?}");
}

#[test]
fn long_lines_wrap_to_width() {
    let mut hl = Highlighter::new();
    let long = format!("{}\n", "word ".repeat(40));
    let lines = render_markdown(&mut hl, &long, tn(), 40);
    assert!(lines.len() > 1, "should wrap");
    for l in &lines {
        assert!(width_of_line(l) <= 40, "line too wide: {}", width_of_line(l));
    }
}

#[test]
fn empty_file_has_placeholder() {
    let mut hl = Highlighter::new();
    let lines = render_markdown(&mut hl, "", tn(), 80);
    assert!(!lines.is_empty());
}

/// Rows of a table are as wide as its borders, and fit into the width.
#[test]
fn table_rows_never_wrap() {
    let table = |cell: &str| Table {
        headers: vec!["abc".to_string()],
        rows: vec![vec![cell.to_string()]],
        aligns: vec![Alignment::Unset],
    };
    for cell in ["x", "a long cell", "宽宽宽宽", "a\tb\tc\td", "❤\u{FE0F}❤\u{FE0F}❤\u{FE0F}❤\u{FE0F}"] {
        for width in [7, 8, 9, 20] {
            for line in &table_lines(&table(cell), width, tn()) {
                assert!(width_of_line(line) <= width as u128, "{cell:?} in {width}: {line:?}");
            }
        }
    }
    let lines = table_lines(&table("x"), 7, tn());
    let row: String = lines[1].spans.iter().map(|s| s.text.as_str()).collect();
    assert_eq!(row, "│ abc │");
    assert_eq!(width_of_line(&lines[0]), 7);
    assert_eq!(width_of_line(&lines[1]), 7);
    assert_eq!(cut_text("abcdef", 4), "abc…");
}
