//! The panels of the diff: the preview beside the rail, and the view over the
//! whole screen.

use crate::app::App;
use crate::app_model::{AppView, Focus};
use crate::code_cells::{CodeStyle, CodeView};
use crate::config::copy_opt;
use crate::diff_pane::{
    drop_n, headers_in, keep_n, pane_rows, render_pane_lines, render_unified_lines, unified_window,
};
use crate::diff_rows::{
    gutter, gutter_width, hunk_rows, rows_of_hunks, rows_unified_len, rows_view, run_end,
    lemma_run_end, unified_len, RowView,
};
use crate::layout::{less16, Rect};
use crate::markdown_table::span;
use crate::markdown_wrap::{preview_lines, render_markdown};
use crate::model::{DiffLine, FileDiff, Hunk, LineKind};
use crate::panel_lists::window;
use crate::panels::{inner_height, panel_of, remark_panel, Ground, Panel, PanelView};
use crate::style::{lemma_lines_push, lines_view, Line, Span, SpanView, Style};
use crate::syntax::Highlighter;
use crate::text::{decimal, number_text, opt_text};
use crate::tree::last_of;
use syntect::parsing::SyntaxSet;
use vstd::prelude::*;
use vstd::string::*;

verus! {

proof fn lemma_hunk_rows_split(lines: Seq<DiffLine>, i: int, old_no: nat, new_no: nat)
    ensures
        forall|k: int|
            0 <= k < hunk_rows(lines, i, old_no, new_no).len() ==> (#[trigger] hunk_rows(
                lines,
                i,
                old_no,
                new_no,
            )[k]) is Split,
    decreases lines.len() - i,
{
    if 0 <= i < lines.len() {
        lemma_run_end(lines, i, LineKind::Del);
        lemma_run_end(lines, run_end(lines, i, LineKind::Del), LineKind::Add);
        let d = run_end(lines, i, LineKind::Del);
        let a = run_end(lines, d, LineKind::Add);
        if a > i {
            lemma_hunk_rows_split(
                lines,
                a,
                (old_no + (d - i)) as nat,
                (new_no + (a - d)) as nat,
            );
        } else if lines[i].kind == LineKind::HunkHeader {
            lemma_hunk_rows_split(lines, i + 1, old_no, new_no);
        } else {
            lemma_hunk_rows_split(lines, i + 1, old_no + 1, new_no + 1);
        }
    }
}

proof fn lemma_headers_in(hunks: Seq<Hunk>, k: nat)
    requires
        k <= hunks.len(),
    ensures
        headers_in(rows_of_hunks(hunks, k), hunks.len()),
    decreases k,
{
    if k > 0 {
        lemma_headers_in(hunks, (k - 1) as nat);
        let h = hunks[k - 1];
        lemma_hunk_rows_split(h.lines@, 0, h.old_start as nat, h.new_start as nat);
        let before = rows_of_hunks(hunks, (k - 1) as nat);
        let mid = hunk_rows(h.lines@, 0, h.old_start as nat, h.new_start as nat);
        let all = rows_of_hunks(hunks, k);
        assert forall|i: int| 0 <= i < all.len() implies ((#[trigger] all[i]) matches RowView::Header {
            index,
        } ==> index < hunks.len()) by {
            if i < before.len() {
                assert(all[i] == before[i]);
            } else if i > before.len() {
                assert(all[i] == mid[i - before.len() - 1]);
            }
        }
    }
}

/// What the diff is of: a whole file, staged or unstaged changes.
pub open spec fn diff_title(
    app: AppView,
    file: Seq<char>,
    diff: Seq<char>,
    path: Seq<char>,
) -> Seq<char> {
    if app.diff_whole_file {
        file + path + " "@
    } else if app.diff_for matches Some((_, staged)) && staged {
        diff + path + " (staged) "@
    } else {
        diff + path + " (unstaged) "@
    }
}

fn title_of_diff(app: &App, file: &str, diff: &str, path: &str) -> (out: String)
    ensures
        out@ == diff_title(app@, file@, diff@, path@),
{
    let staged = match &app.diff_for {
        Some((_, staged)) => *staged,
        None => false,
    };
    if app.diff_whole_file {
        file.to_owned().concat(path).concat(" ")
    } else if staged {
        diff.to_owned().concat(path).concat(" (staged) ")
    } else {
        diff.to_owned().concat(path).concat(" (unstaged) ")
    }
}

/// What the code of the loaded diff is shown with.
pub open spec fn code_of(
    app: AppView,
    d: FileDiff,
    by_file: Option<Seq<char>>,
    set: SyntaxSet,
) -> CodeView {
    let rows = app.viewer.rows();
    CodeView { path: d.path@, by_file, gutter_w: gutter(rows, rows.len()), theme: app.theme, set }
}

/// The rendered document from the scroll offset on; an offset past its end
/// shows the last line.
pub open spec fn document_window(
    app: AppView,
    text: Seq<char>,
    width: nat,
    height: nat,
    set: SyntaxSet,
) -> Seq<Seq<SpanView>> {
    let lines = preview_lines(text, app.theme, width, set);
    let off = if app.viewer.scroll <= last_of(lines.len()) {
        app.viewer.scroll
    } else {
        last_of(lines.len())
    };
    keep_n(drop_n(lines, off), height)
}

/// The unified lines in the preview, with a remark on how many more there are.
pub open spec fn preview_window(
    app: AppView,
    d: FileDiff,
    by_file: Option<Seq<char>>,
    area: Rect,
    set: SyntaxSet,
) -> Seq<Seq<SpanView>> {
    let rows = app.viewer.rows();
    let w = less16(area.width, 2) as nat;
    let h = inner_height(area);
    let total = unified_len(rows, rows.len());
    let off = if app.viewer.scroll <= total {
        app.viewer.scroll
    } else {
        total
    };
    let take: nat = if total - off > h && h > 0 {
        (h - 1) as nat
    } else {
        h
    };
    let shown = unified_window(
        d.hunks@,
        rows,
        w,
        off,
        if take == 0 {
            1
        } else {
            take
        },
        code_of(app, d, by_file, set),
    );
    let remaining = total - off - shown.len();
    if remaining > 0 && shown.len() > 0 {
        let more = shown.push(
            seq![
                span(
                    "… "@ + decimal(remaining as nat) + " more lines — enter for full screen"@,
                    Style::plain().fg(app.theme.hint),
                ),
            ],
        );
        if more.len() > h {
            more.skip(1)
        } else {
            more
        }
    } else {
        shown
    }
}

/// The preview panel.
#[verifier::opaque]
pub open spec fn preview_panel(
    app: AppView,
    area: Rect,
    by_file: Option<Seq<char>>,
    set: SyntaxSet,
) -> PanelView {
    let focused = app.focus == Focus::Diff;
    match app.viewer.diff {
        None => remark_panel(
            area,
            focused,
            if app.tree.list.len() > 0 {
                " [5]-Diff (loading…) "@
            } else {
                " [5]-Diff "@
            },
            Seq::empty(),
        ),
        Some(d) => {
            let title = diff_title(app, " [5]-File: "@, " [5]-Diff: "@, d.path@);
            if app.shows_markdown() && app.md_text is Some {
                panel_of(
                    area,
                    focused,
                    title,
                    document_window(
                        app,
                        app.md_text->0,
                        less16(area.width, 2) as nat,
                        inner_height(area),
                        set,
                    ),
                )
            } else if d.hunks@.len() == 0 {
                remark_panel(area, focused, title, "(no changes)"@)
            } else {
                panel_of(area, focused, title, preview_window(app, d, by_file, area, set))
            }
        },
    }
}

fn draw_document(hl: &mut Highlighter, app: &App, text: &str, width: usize, height: usize) -> (out:
    Vec<Line>)
    requires
        old(hl).wf(),
    ensures
        final(hl).wf(),
        final(hl).grammars() == old(hl).grammars(),
        lines_view(out@) == document_window(
            app@,
            text@,
            width as nat,
            height as nat,
            old(hl).grammars(),
        ),
{
    let lines = render_markdown(hl, text, app.theme, width);
    assert(lines_view(lines@).len() == lines@.len());
    let last = if lines.len() == 0 {
        0
    } else {
        lines.len() - 1
    };
    let scroll = app.viewer.scroll() as usize;
    let off = if scroll <= last {
        scroll
    } else {
        last
    };
    window(lines, off, height)
}

fn code_style(app: &App, d: &FileDiff, by_file: &Option<String>) -> (code: CodeStyle)
    ensures
        forall|set: SyntaxSet|
            #![trigger code.with(set)]
            code.with(set) == code_of(app@, *d, opt_text(*by_file), set),
{
    let rows = app.viewer.rows();
    assert(rows_view(rows@).len() == rows@.len());
    CodeStyle {
        path: d.path.clone(),
        by_file: copy_opt(by_file),
        gutter_w: gutter_width(rows),
        theme: app.theme,
    }
}

fn draw_preview(
    hl: &mut Highlighter,
    app: &App,
    d: &FileDiff,
    by_file: &Option<String>,
    area: Rect,
) -> (out: Vec<Line>)
    requires
        old(hl).wf(),
        app@.viewer.diff == Some(*d),
    ensures
        final(hl).wf(),
        final(hl).grammars() == old(hl).grammars(),
        lines_view(out@) == preview_window(
            app@,
            *d,
            opt_text(*by_file),
            area,
            old(hl).grammars(),
        ),
{
    let rows = app.viewer.rows();
    assert(rows_view(rows@).len() == rows@.len());
    proof {
        lemma_headers_in(d.hunks@, d.hunks@.len());
    }
    let w = less16(area.width, 2) as usize;
    let h = less16(area.height, 2) as usize;
    let total = rows_unified_len(rows);
    let scroll = app.viewer.scroll() as u128;
    let off = if scroll <= total {
        scroll
    } else {
        total
    };
    let take: usize = if total - off > h as u128 && h > 0 {
        h - 1
    } else {
        h
    };
    let take = if take == 0 {
        1
    } else {
        take
    };
    let code = code_style(app, d, by_file);
    let ghost set = hl.grammars();
    assert(code.with(set) == code_of(app@, *d, opt_text(*by_file), set));
    let mut shown = render_unified_lines(hl, d, rows, w, off as usize, take, &code);
    assert(lines_view(shown@).len() == shown@.len());
    let seen = off + shown.len() as u128;
    if total > seen && shown.len() > 0 {
        let text = "… ".to_owned().concat(number_text(total - seen).as_str()).concat(
            " more lines — enter for full screen",
        );
        let line = Line::of(Span::styled(text, Style::plain().fg(app.theme.hint)));
        proof {
            lemma_lines_push(shown@, line);
        }
        shown.push(line);
        if shown.len() > h {
            let ghost before = lines_view(shown@);
            shown.remove(0);
            assert(lines_view(shown@) =~= before.skip(1));
        }
    }
    shown
}

/// Draws the preview panel.
pub fn render_diff_preview_panel(
    hl: &mut Highlighter,
    area: Rect,
    app: &App,
    by_file: &Option<String>,
) -> (panel: Panel)
    requires
        old(hl).wf(),
    ensures
        final(hl).wf(),
        final(hl).grammars() == old(hl).grammars(),
        panel@ == preview_panel(app@, area, opt_text(*by_file), old(hl).grammars()),
{
    proof {
        reveal(preview_panel);
    }
    let focused = app.focus == Focus::Diff;
    let d = match app.viewer.diff() {
        None => {
            let title = if app.tree.list.len() > 0 {
                " [5]-Diff (loading…) "
            } else {
                " [5]-Diff "
            };
            proof {
                reveal_strlit("");
            }
            assert(""@ =~= Seq::<char>::empty());
            return Panel::remark(area, focused, title.to_owned(), "");
        },
        Some(d) => d,
    };
    let title = title_of_diff(app, " [5]-File: ", " [5]-Diff: ", d.path.as_str());
    if app.show_markdown_preview() {
        if let Some(text) = &app.md_text {
            let w = less16(area.width, 2) as usize;
            let h = less16(area.height, 2) as usize;
            let lines = draw_document(hl, app, text.as_str(), w, h);
            return Panel::of(area, focused, title, lines);
        }
    }
    if d.hunks.len() == 0 {
        return Panel::remark(area, focused, title, "(no changes)");
    }
    let lines = draw_preview(hl, app, d, by_file, area);
    Panel::of(area, focused, title, lines)
}

/// The diff over the whole screen.
#[verifier::opaque]
pub open spec fn full_panel(
    app: AppView,
    area: Rect,
    by_file: Option<Seq<char>>,
    set: SyntaxSet,
) -> PanelView {
    let panel = match app.viewer.diff {
        None => remark_panel(
            area,
            true,
            if app.tree.list.len() > 0 {
                " Full diff (loading…) "@
            } else {
                " Full diff "@
            },
            Seq::empty(),
        ),
        Some(d) => {
            let title = diff_title(app, " Full file: "@, " Full diff: "@, d.path@);
            let rows = app.viewer.rows();
            let w = less16(area.width, 2) as nat;
            if app.shows_markdown() && app.md_text is Some {
                panel_of(
                    area,
                    true,
                    title,
                    document_window(app, app.md_text->0, w, inner_height(area), set),
                )
            } else if d.hunks@.len() == 0 {
                remark_panel(area, true, title, "(no changes)"@)
            } else {
                panel_of(
                    area,
                    true,
                    title,
                    keep_n(
                        pane_rows(
                            d.hunks@,
                            rows,
                            if app.viewer.scroll <= rows.len() {
                                app.viewer.scroll
                            } else {
                                rows.len()
                            },
                            rows.len(),
                            app.viewer.hunk,
                            app.diff_whole_file,
                            w,
                            code_of(app, d, by_file, set),
                        ),
                        inner_height(area),
                    ),
                )
            }
        },
    };
    PanelView { ground: Ground::Cleared, ..panel }
}

fn draw_pane(
    hl: &mut Highlighter,
    area: Rect,
    app: &App,
    by_file: &Option<String>,
) -> (panel: Panel)
    requires
        old(hl).wf(),
    ensures
        final(hl).wf(),
        final(hl).grammars() == old(hl).grammars(),
        (PanelView { ground: Ground::Cleared, ..panel@ }) == full_panel(
            app@,
            area,
            opt_text(*by_file),
            old(hl).grammars(),
        ),
{
    proof {
        reveal(full_panel);
    }
    let d = match app.viewer.diff() {
        None => {
            let title = if app.tree.list.len() > 0 {
                " Full diff (loading…) "
            } else {
                " Full diff "
            };
            proof {
                reveal_strlit("");
            }
            assert(""@ =~= Seq::<char>::empty());
            return Panel::remark(area, true, title.to_owned(), "");
        },
        Some(d) => d,
    };
    let title = title_of_diff(app, " Full file: ", " Full diff: ", d.path.as_str());
    let w = less16(area.width, 2) as usize;
    let h = less16(area.height, 2) as usize;
    if app.show_markdown_preview() {
        if let Some(text) = &app.md_text {
            let lines = draw_document(hl, app, text.as_str(), w, h);
            return Panel::of(area, true, title, lines);
        }
    }
    if d.hunks.len() == 0 {
        return Panel::remark(area, true, title, "(no changes)");
    }
    let rows = app.viewer.rows();
    assert(rows_view(rows@).len() == rows@.len());
    proof {
        lemma_headers_in(d.hunks@, d.hunks@.len());
    }
    let scroll = app.viewer.scroll() as usize;
    let off = if scroll <= rows.len() {
        scroll
    } else {
        rows.len()
    };
    let code = code_style(app, d, by_file);
    let ghost set = hl.grammars();
    assert(code.with(set) == code_of(app@, *d, opt_text(*by_file), set));
    let lines = render_pane_lines(
        hl,
        d,
        rows,
        off,
        app.viewer.hunk(),
        app.diff_whole_file,
        w,
        h,
        &code,
    );
    Panel::of(area, true, title, lines)
}

/// Draws the diff over the whole screen.
pub fn render_fullscreen_diff(
    hl: &mut Highlighter,
    area: Rect,
    app: &App,
    by_file: &Option<String>,
) -> (panel: Panel)
    requires
        old(hl).wf(),
    ensures
        final(hl).wf(),
        final(hl).grammars() == old(hl).grammars(),
        panel@ == full_panel(app@, area, opt_text(*by_file), old(hl).grammars()),
{
    proof {
        reveal(full_panel);
    }
    let mut panel = draw_pane(hl, area, app, by_file);
    panel.ground = Ground::Cleared;
    panel
}

} // verus!
