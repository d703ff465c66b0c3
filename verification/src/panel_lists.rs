//! The panels of branches, commits and stash entries, and the footer.

use crate::app::App;
use crate::app_model::{AppView, Focus, Mode};
use crate::diff_pane::{drop_n, keep_n};
use crate::layout::{follow_selection, followed, less16, Rect};
use crate::markdown_table::span;
use crate::model::{BranchInfo, CommitInfo, StashEntry};
use crate::panels::{
    bold, inner_height, line_of_three, line_of_two, panel_of, place_text, place_title, remark_panel,
    Panel, PanelFrame, PanelView,
};
use crate::style::{lemma_lines_push, lines_view, Line, Modifier, Span, SpanView, Style};
use crate::text::{decimal, number_text};
use crate::theme::Theme;
use crate::tree::{clamp_to, clamped};
use vstd::prelude::*;
use vstd::string::*;

verus! {

/// A panel of a list with a selection: the part of the list that shows, and
/// the selected line in it.
pub open spec fn list_panel(
    area: Rect,
    focused: bool,
    head: Seq<char>,
    lines: Seq<Seq<SpanView>>,
    selected: nat,
    scroll: nat,
) -> PanelView {
    let at = clamped(selected, lines.len());
    let visible = inner_height(area);
    let off = followed(at, visible, scroll);
    PanelView {
        highlight: if visible > 0 {
            Some(
                if at >= off {
                    (at - off) as nat
                } else {
                    0
                },
            )
        } else {
            None
        },
        ..panel_of(
            area,
            focused,
            head + place_text(at, lines.len()),
            keep_n(drop_n(lines, off), visible),
        )
    }
}

/// How far such a panel is scrolled once it is drawn.
pub open spec fn list_offset(area: Rect, count: nat, selected: nat, scroll: nat) -> nat {
    followed(clamped(selected, count), inner_height(area), scroll)
}

/// The lines from `off` on, at most `visible` of them.
pub fn window(lines: Vec<Line>, off: usize, visible: usize) -> (out: Vec<Line>)
    ensures
        lines_view(out@) == keep_n(drop_n(lines_view(lines@), off as nat), visible as nat),
{
    let ghost all = lines_view(lines@);
    let ghost kept = keep_n(drop_n(all, off as nat), visible as nat);
    let n = lines.len();
    assert(all.len() == n);
    let mut out: Vec<Line> = Vec::new();
    let mut i: usize = 0;
    assert(lines_view(out@) =~= kept.take(0));
    for line in it: lines
        invariant
            all == lines_view(it.seq()),
            all.len() == n,
            it.seq().len() == n,
            i == it.index(),
            i <= n,
            kept == keep_n(drop_n(all, off as nat), visible as nat),
            lines_view(out@) == (if i <= off {
                kept.take(0)
            } else if i - off <= kept.len() {
                kept.take(i - off)
            } else {
                kept
            }),
    {
        assert(all[i as int] == line@);
        if i >= off && i - off < visible {
            assert(kept[i - off] == all[i as int]);
            proof {
                lemma_lines_push(out@, line);
            }
            out.push(line);
            assert(lines_view(out@) =~= kept.take(i + 1 - off));
        } else if i >= off {
            assert(kept.take(kept.len() as int) =~= kept);
        }
        i = i + 1;
    }
    assert(kept.take(kept.len() as int) =~= kept);
    assert(kept.len() == 0 ==> kept.take(0) =~= kept);
    out
}

/// A panel of a list with a selection.
fn draw_list(
    area: Rect,
    focused: bool,
    head: &str,
    lines: Vec<Line>,
    selected: usize,
    scroll: usize,
) -> (out: (Panel, usize))
    ensures
        out.0@ == list_panel(
            area,
            focused,
            head@,
            lines_view(lines@),
            selected as nat,
            scroll as nat,
        ),
        out.1 == list_offset(area, lines@.len(), selected as nat, scroll as nat),
{
    assert(lines_view(lines@).len() == lines@.len());
    let n = lines.len();
    let at = clamp_to(selected, n);
    let visible = less16(area.height, 2) as usize;
    let off = follow_selection(at, visible, scroll);
    let title = place_title(head, at, n);
    let mut panel = Panel::of(area, focused, title, window(lines, off, visible));
    if visible > 0 {
        panel.highlight = Some(
            if at >= off {
                at - off
            } else {
                0
            },
        );
    }
    (panel, off)
}

/// The line of a branch: the one that is checked out is marked.
pub open spec fn branch_line(b: BranchInfo, theme: Theme) -> Seq<SpanView> {
    seq![
        if b.is_head {
            span("* "@, bold(theme.branch_current))
        } else {
            span("  "@, Style::plain().fg(theme.hint))
        },
        span(
            b.name@,
            if b.is_head {
                Style::plain().add_modifier(Modifier::bold())
            } else {
                Style::plain()
            },
        ),
        span("  "@ + b.tip_summary@, Style::plain().fg(theme.hint)),
    ]
}

/// The lines of branches.
pub open spec fn branch_lines(list: Seq<BranchInfo>, theme: Theme) -> Seq<Seq<SpanView>> {
    list.map_values(|b: BranchInfo| branch_line(b, theme))
}

/// The lines of branches.
pub fn branch_list_items(branches: &Vec<BranchInfo>, theme: Theme) -> (out: Vec<Line>)
    ensures
        lines_view(out@) == branch_lines(branches@, theme),
{
    let mut out: Vec<Line> = Vec::new();
    let mut i: usize = 0;
    assert(lines_view(out@) =~= branch_lines(branches@.take(0), theme));
    while i < branches.len()
        invariant
            i <= branches@.len(),
            lines_view(out@) == branch_lines(branches@.take(i as int), theme),
        decreases branches@.len() - i,
    {
        let b = &branches[i];
        let (mark, name_style) = if b.is_head {
            (
                Span::styled("* ".to_owned(), bold(theme.branch_current)),
                Style::plain().add_modifier(Modifier::bold()),
            )
        } else {
            (Span::styled("  ".to_owned(), Style::plain().fg(theme.hint)), Style::plain())
        };
        let tip = "  ".to_owned().concat(b.tip_summary.as_str());
        let line = line_of_three(
            mark,
            Span::styled(b.name.clone(), name_style),
            Span::styled(tip, Style::plain().fg(theme.hint)),
        );
        assert(line@ =~= branch_line(*b, theme));
        proof {
            lemma_lines_push(out@, line);
        }
        out.push(line);
        i += 1;
        assert(branches@.take(i as int) =~= branches@.take(i - 1).push(branches@[i - 1]));
        assert(lines_view(out@) =~= branch_lines(branches@.take(i as int), theme));
    }
    assert(branches@.take(i as int) =~= branches@);
    out
}

/// The branches panel.
#[verifier::opaque]
pub open spec fn branches_panel(app: AppView, area: Rect) -> PanelView {
    let focused = app.focus == Focus::Branches;
    match app.branches {
        None => remark_panel(area, focused, "[2]-Local branches"@, "loading…"@),
        Some(list) => if list.len() == 0 {
            remark_panel(area, focused, "[2]-Local branches (0)"@, "(none)"@)
        } else {
            list_panel(
                area,
                focused,
                "[2]-Local branches"@,
                branch_lines(list, app.theme),
                app.branch_selected,
                app.branch_scroll,
            )
        },
    }
}

/// How far a list panel is scrolled once it is drawn; one without a list stays
/// as it is.
pub open spec fn drawn_offset<A>(
    list: Option<Seq<A>>,
    area: Rect,
    selected: nat,
    scroll: nat,
) -> nat {
    match list {
        Some(l) => if l.len() == 0 {
            scroll
        } else {
            list_offset(area, l.len(), selected, scroll)
        },
        None => scroll,
    }
}

/// Draws the branches panel and records how far it is scrolled.
pub fn render_branches_panel(area: Rect, app: &mut App) -> (panel: Panel)
    ensures
        panel@ == branches_panel(old(app)@, area),
        final(app)@ == (AppView {
            branch_scroll: drawn_offset(
                old(app)@.branches,
                area,
                old(app)@.branch_selected,
                old(app)@.branch_scroll,
            ),
            ..old(app)@
        }),
{
    proof {
        reveal(branches_panel);
    }
    let focused = app.focus == Focus::Branches;
    let lines = match &app.branches {
        None => {
            return Panel::remark(area, focused, "[2]-Local branches".to_owned(), "loading…");
        },
        Some(list) => {
            if list.len() == 0 {
                return Panel::remark(area, focused, "[2]-Local branches (0)".to_owned(), "(none)");
            }
            let lines = branch_list_items(list, app.theme);
            assert(lines_view(lines@).len() == list@.len());
            lines
        },
    };
    let (panel, off) = draw_list(
        area,
        focused,
        "[2]-Local branches",
        lines,
        app.branch_selected,
        app.branch_scroll,
    );
    app.branch_scroll = off;
    panel
}

/// The line of a stash entry.
pub open spec fn stash_line(e: StashEntry, theme: Theme) -> Seq<SpanView> {
    seq![
        span("stash@"@ + decimal(e.index as nat) + " "@, bold(theme.commit_id)),
        span(e.message@, Style::plain()),
    ]
}

/// The lines of stash entries.
pub open spec fn stash_lines(list: Seq<StashEntry>, theme: Theme) -> Seq<Seq<SpanView>> {
    list.map_values(|e: StashEntry| stash_line(e, theme))
}

/// The lines of stash entries.
pub fn stash_list_items(entries: &Vec<StashEntry>, theme: Theme) -> (out: Vec<Line>)
    ensures
        lines_view(out@) == stash_lines(entries@, theme),
{
    let mut out: Vec<Line> = Vec::new();
    let mut i: usize = 0;
    assert(lines_view(out@) =~= stash_lines(entries@.take(0), theme));
    while i < entries.len()
        invariant
            i <= entries@.len(),
            lines_view(out@) == stash_lines(entries@.take(i as int), theme),
        decreases entries@.len() - i,
    {
        let e = &entries[i];
        let head = "stash@".to_owned().concat(number_text(e.index as u128).as_str()).concat(" ");
        let line = line_of_two(
            Span::styled(head, bold(theme.commit_id)),
            Span::raw(e.message.clone()),
        );
        assert(line@ =~= stash_line(*e, theme));
        proof {
            lemma_lines_push(out@, line);
        }
        out.push(line);
        i += 1;
        assert(entries@.take(i as int) =~= entries@.take(i - 1).push(entries@[i - 1]));
        assert(lines_view(out@) =~= stash_lines(entries@.take(i as int), theme));
    }
    assert(entries@.take(i as int) =~= entries@);
    out
}

/// The stash panel.
#[verifier::opaque]
pub open spec fn stash_panel(app: AppView, area: Rect) -> PanelView {
    let focused = app.focus == Focus::Stash;
    match app.stash {
        None => remark_panel(area, focused, "[4]-Stash"@, "loading…"@),
        Some(list) => if list.len() == 0 {
            remark_panel(area, focused, "[4]-Stash (0)"@, "(no stashes)"@)
        } else {
            list_panel(
                area,
                focused,
                "[4]-Stash"@,
                stash_lines(list, app.theme),
                app.stash_selected,
                app.stash_scroll,
            )
        },
    }
}

/// Draws the stash panel and records how far it is scrolled.
pub fn render_stash_panel(area: Rect, app: &mut App) -> (panel: Panel)
    ensures
        panel@ == stash_panel(old(app)@, area),
        final(app)@ == (AppView {
            stash_scroll: drawn_offset(
                old(app)@.stash,
                area,
                old(app)@.stash_selected,
                old(app)@.stash_scroll,
            ),
            ..old(app)@
        }),
{
    proof {
        reveal(stash_panel);
    }
    let focused = app.focus == Focus::Stash;
    let lines = match &app.stash {
        None => {
            return Panel::remark(area, focused, "[4]-Stash".to_owned(), "loading…");
        },
        Some(list) => {
            if list.len() == 0 {
                return Panel::remark(area, focused, "[4]-Stash (0)".to_owned(), "(no stashes)");
            }
            let lines = stash_list_items(list, app.theme);
            assert(lines_view(lines@).len() == list@.len());
            lines
        },
    };
    let (panel, off) = draw_list(
        area,
        focused,
        "[4]-Stash",
        lines,
        app.stash_selected,
        app.stash_scroll,
    );
    app.stash_scroll = off;
    panel
}

/// The line of a commit.
pub open spec fn commit_line(e: CommitInfo, theme: Theme) -> Seq<SpanView> {
    seq![
        span(e.id@, bold(theme.commit_id)),
        span(" "@, Style::plain()),
        span(e.summary@, Style::plain()),
        span("  — "@ + e.author@, Style::plain().fg(theme.hint)),
    ]
}

/// The lines of commits.
pub open spec fn commit_lines(list: Seq<CommitInfo>, theme: Theme) -> Seq<Seq<SpanView>> {
    list.map_values(|e: CommitInfo| commit_line(e, theme))
}

/// The lines of commits.
pub fn log_lines(entries: &Vec<CommitInfo>, theme: Theme) -> (out: Vec<Line>)
    ensures
        lines_view(out@) == commit_lines(entries@, theme),
{
    let mut out: Vec<Line> = Vec::new();
    let mut i: usize = 0;
    assert(lines_view(out@) =~= commit_lines(entries@.take(0), theme));
    while i < entries.len()
        invariant
            i <= entries@.len(),
            lines_view(out@) == commit_lines(entries@.take(i as int), theme),
        decreases entries@.len() - i,
    {
        let e = &entries[i];
        let author = "  — ".to_owned().concat(e.author.as_str());
        let mut spans: Vec<Span> = Vec::new();
        spans.push(Span::styled(e.id.clone(), bold(theme.commit_id)));
        spans.push(Span::raw(" ".to_owned()));
        spans.push(Span::raw(e.summary.clone()));
        spans.push(Span::styled(author, Style::plain().fg(theme.hint)));
        let line = Line::from_spans(spans);
        assert(line@ =~= commit_line(*e, theme));
        proof {
            lemma_lines_push(out@, line);
        }
        out.push(line);
        i += 1;
        assert(entries@.take(i as int) =~= entries@.take(i - 1).push(entries@[i - 1]));
        assert(lines_view(out@) =~= commit_lines(entries@.take(i as int), theme));
    }
    assert(entries@.take(i as int) =~= entries@);
    out
}

/// The commits panel.
#[verifier::opaque]
pub open spec fn commits_panel(app: AppView, area: Rect) -> PanelView {
    let focused = app.focus == Focus::Log;
    match app.log {
        None => remark_panel(area, focused, "[3]-Commits"@, "loading…"@),
        Some(list) => if list.len() == 0 {
            remark_panel(area, focused, "[3]-Commits (0)"@, "(no commits yet)"@)
        } else {
            PanelView {
                scroll: app.log_scroll,
                ..panel_of(
                    area,
                    focused,
                    "[3]-Commits ("@ + decimal(list.len()) + ")"@,
                    commit_lines(list, app.theme),
                )
            }
        },
    }
}

/// Draws the commits panel.
pub fn render_commits_panel(area: Rect, app: &App) -> (panel: Panel)
    ensures
        panel@ == commits_panel(app@, area),
{
    proof {
        reveal(commits_panel);
    }
    let focused = app.focus == Focus::Log;
    match &app.log {
        None => Panel::remark(area, focused, "[3]-Commits".to_owned(), "loading…"),
        Some(list) => {
            if list.len() == 0 {
                return Panel::remark(
                    area,
                    focused,
                    "[3]-Commits (0)".to_owned(),
                    "(no commits yet)",
                );
            }
            let title = "[3]-Commits (".to_owned().concat(
                number_text(list.len() as u128).as_str(),
            ).concat(")");
            let mut panel = Panel::of(area, focused, title, log_lines(list, app.theme));
            panel.scroll = app.log_scroll;
            panel
        },
    }
}

/// What the keys do, for the user.
pub open spec fn hints(app: AppView) -> Seq<char> {
    match app.mode {
        Mode::Committing => if app.generating {
            "generating from staged diff… · Esc cancel"@
        } else {
            "←/→/↑/↓ move · Home/End jump · Del deletes · Shift+A generate · Enter commit · Esc cancel"@
        },
        Mode::NewBranch =>
            "←/→ move · Home/End jump · Del deletes · Enter create branch · Esc cancel"@,
        Mode::StashPush =>
            "←/→ move · Home/End jump · Del deletes · Enter stash · Esc cancel"@,
        Mode::SetUpstream =>
            "←/→ move · Home/End jump · Del deletes · Enter push -u · Esc cancel"@,
        Mode::SetRemote =>
            "←/→ move · Home/End jump · Del deletes · Enter add origin + push · Esc cancel"@,
        Mode::FullDiff =>
            "j/k hunk · ↑/↓ scroll · space stage hunk · PgUp/PgDn page · / find · p pull · P push · esc close · q close · Q quit"@,
        Mode::FindFile => "type to filter · ↑/↓ move · ←/→ edit · enter open · esc cancel"@,
        Mode::LlmSettings => "tab/↑↓ switch field · ←/→ edit · enter save · esc cancel"@,
        Mode::OpenProject =>
            "type to filter · ↑/↓ move · enter open/descend · → descend · ← up · tab jump to path · esc clear/close"@,
        Mode::ConfirmInit =>
            "enter git init here · esc back · any other key picks another folder"@,
        Mode::Normal => match app.focus {
            Focus::Branches =>
                "enter checkout · a new branch · D delete · tab commits · q close · Q quit"@,
            Focus::Log => "j/k scroll · tab stash · r refresh · q close · Q quit"@,
            Focus::Stash => "enter pop · a stash · D drop · tab files · q close · Q quit"@,
            Focus::Diff =>
                "j/k/↑/↓ scroll file · PgUp/PgDn page · enter full screen · ←/1 files · tab files · q close · Q quit"@,
            Focus::Status =>
                "space stage · ▶ dir all · c commit · A llm · p pull · P push · / find · enter diff · Shift+→/5 file · o open · r refresh · q close · Q quit"@,
        },
    }
}

/// The line of hints; with several projects it says how to change between
/// them.
pub open spec fn hint_line(app: AppView, multi: bool) -> Seq<SpanView> {
    seq![
        span(
            hints(app) + (if multi && app.mode == Mode::Normal {
                " · [ ] project"@
            } else {
                Seq::empty()
            }),
            Style::plain().fg(app.theme.hint),
        ),
    ]
}

fn hint_text(app: &App) -> (out: &'static str)
    ensures
        out@ == hints(app@),
{
    match app.mode {
        Mode::Committing => if app.generating {
            "generating from staged diff… · Esc cancel"
        } else {
            "←/→/↑/↓ move · Home/End jump · Del deletes · Shift+A generate · Enter commit · Esc cancel"
        },
        Mode::NewBranch =>
            "←/→ move · Home/End jump · Del deletes · Enter create branch · Esc cancel",
        Mode::StashPush => "←/→ move · Home/End jump · Del deletes · Enter stash · Esc cancel",
        Mode::SetUpstream =>
            "←/→ move · Home/End jump · Del deletes · Enter push -u · Esc cancel",
        Mode::SetRemote =>
            "←/→ move · Home/End jump · Del deletes · Enter add origin + push · Esc cancel",
        Mode::FullDiff =>
            "j/k hunk · ↑/↓ scroll · space stage hunk · PgUp/PgDn page · / find · p pull · P push · esc close · q close · Q quit",
        Mode::FindFile => "type to filter · ↑/↓ move · ←/→ edit · enter open · esc cancel",
        Mode::LlmSettings => "tab/↑↓ switch field · ←/→ edit · enter save · esc cancel",
        Mode::OpenProject =>
            "type to filter · ↑/↓ move · enter open/descend · → descend · ← up · tab jump to path · esc clear/close",
        Mode::ConfirmInit =>
            "enter git init here · esc back · any other key picks another folder",
        Mode::Normal => match app.focus {
            Focus::Branches =>
                "enter checkout · a new branch · D delete · tab commits · q close · Q quit",
            Focus::Log => "j/k scroll · tab stash · r refresh · q close · Q quit",
            Focus::Stash => "enter pop · a stash · D drop · tab files · q close · Q quit",
            Focus::Diff =>
                "j/k/↑/↓ scroll file · PgUp/PgDn page · enter full screen · ←/1 files · tab files · q close · Q quit",
            Focus::Status =>
                "space stage · ▶ dir all · c commit · A llm · p pull · P push · / find · enter diff · Shift+→/5 file · o open · r refresh · q close · Q quit",
        },
    }
}

/// What the keys do, for the user.
pub fn footer_hints(app: &App, multi: bool) -> (line: Line)
    ensures
        line@ == hint_line(app@, multi),
{
    let switch = if multi && app.mode == Mode::Normal {
        " · [ ] project"
    } else {
        ""
    };
    proof {
        reveal_strlit("");
    }
    let text = hint_text(app).to_owned().concat(switch);
    assert(text@ =~= hint_line(app@, multi)[0].text);
    Line::of(Span::styled(text, Style::plain().fg(app.theme.hint)))
}

/// The lines of the footer: an error or a notice, and the hints.
pub open spec fn footer_lines(app: AppView, multi: bool) -> Seq<Seq<SpanView>> {
    match (app.error, app.notice) {
        (Some(err), _) => seq![
            seq![
                span("Error: "@, bold(app.theme.error)),
                span(err, Style::plain().fg(app.theme.error)),
            ],
            hint_line(app, multi),
        ],
        (None, Some(note)) => seq![
            seq![span(note, bold(app.theme.branch_current))],
            hint_line(app, multi),
        ],
        (None, None) => seq![hint_line(app, multi)],
    }
}

/// The footer.
#[verifier::opaque]
pub open spec fn footer_panel(app: AppView, area: Rect, multi: bool) -> PanelView {
    PanelView {
        frame: PanelFrame::Bare,
        ..panel_of(area, false, Seq::empty(), footer_lines(app, multi))
    }
}

/// Draws the footer.
pub fn render_footer(area: Rect, app: &App, multi: bool) -> (panel: Panel)
    ensures
        panel@ == footer_panel(app@, area, multi),
{
    proof {
        reveal(footer_panel);
    }
    let mut lines: Vec<Line> = Vec::new();
    if let Some(err) = &app.error {
        lines.push(
            line_of_two(
                Span::styled("Error: ".to_owned(), bold(app.theme.error)),
                Span::styled(err.clone(), Style::plain().fg(app.theme.error)),
            ),
        );
    } else if let Some(note) = &app.notice {
        lines.push(Line::of(Span::styled(note.clone(), bold(app.theme.branch_current))));
    }
    lines.push(footer_hints(app, multi));
    assert(lines_view(lines@) =~= footer_lines(app@, multi));
    let mut panel = Panel::of(area, false, String::new(), lines);
    panel.frame = PanelFrame::Bare;
    assert(panel@ =~= footer_panel(app@, area, multi));
    panel
}

/// How many rows the footer takes.
pub open spec fn footer_rows(app: AppView) -> u16 {
    if app.error is Some || app.notice is Some {
        2
    } else {
        1
    }
}

/// How many rows the footer takes.
pub fn footer_height(app: &App) -> (rows: u16)
    ensures
        rows == footer_rows(app@),
{
    if app.error.is_some() || app.notice.is_some() {
        2
    } else {
        1
    }
}

/// Everything that the footer says has a row in it.
pub proof fn law_footer_has_room(app: AppView, multi: bool)
    ensures
        footer_lines(app, multi).len() == footer_rows(app),
{
}

} // verus!
