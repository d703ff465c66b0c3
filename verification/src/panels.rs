//! The panels: what each of them shows, as titles and lines of styled text.

use crate::app::App;
use crate::app_model::{AppView, Focus};
use crate::diff_pane::{drop_n, keep_n};
use crate::layout::{follow_selection, followed, less16, Rect};
use crate::markdown_table::span;
use crate::model::{FileState, StatusEntry, SyncStatus};
use crate::style::{lemma_lines_push, lines_view, Color, Line, Modifier, Span, SpanView, Style};
use crate::text::{after_last, decimal, number_text, repeat_char, repeated, text_after_last};
use crate::theme::Theme;
use crate::tree::{clamp_to, clamped, tree_view, FileRow, FileRowView, Tree, TreeView};
use vstd::prelude::*;
use vstd::string::*;

verus! {

/// How a panel is framed.
#[derive(Clone, Copy, Debug, PartialEq, Eq, Structural)]
pub enum PanelFrame {
    /// Rounded corners and a title, both aglow while the panel is in focus.
    Panel { focused: bool },
    /// Rounded corners in the colors of the terminal.
    Plain,
    /// No frame.
    Bare,
}

/// What is done to the cells under a panel before it is drawn.
#[derive(Clone, Copy, Debug, PartialEq, Eq, Structural)]
pub enum Ground {
    /// They stay as they are.
    Kept,
    /// They are cleared.
    Cleared,
    /// They are cleared and painted in the background of the palette.
    Painted,
}

/// Something to draw.
#[derive(Debug)]
pub struct Panel {
    pub area: Rect,
    pub frame: PanelFrame,
    pub ground: Ground,
    pub title: String,
    pub lines: Vec<Line>,
    /// The line that is selected.
    pub highlight: Option<usize>,
    /// How many lines are scrolled out at the top.
    pub scroll: u16,
    /// Where the text cursor of the terminal is.
    pub cursor: Option<(u32, u32)>,
}

/// What a [`Panel`] holds.
#[verifier::ext_equal]
pub struct PanelView {
    pub area: Rect,
    pub frame: PanelFrame,
    pub ground: Ground,
    pub title: Seq<char>,
    pub lines: Seq<Seq<SpanView>>,
    pub highlight: Option<nat>,
    pub scroll: nat,
    pub cursor: Option<(nat, nat)>,
}

/// A place that there may be none of, as a number.
pub open spec fn opt_place(place: Option<usize>) -> Option<nat> {
    match place {
        Some(i) => Some(i as nat),
        None => None,
    }
}

/// The place of a cursor, as numbers.
pub open spec fn cursor_view(cursor: Option<(u32, u32)>) -> Option<(nat, nat)> {
    match cursor {
        Some((x, y)) => Some((x as nat, y as nat)),
        None => None,
    }
}

impl View for Panel {
    type V = PanelView;

    open spec fn view(&self) -> PanelView {
        PanelView {
            area: self.area,
            frame: self.frame,
            ground: self.ground,
            title: self.title@,
            lines: lines_view(self.lines@),
            highlight: opt_place(self.highlight),
            scroll: self.scroll as nat,
            cursor: cursor_view(self.cursor),
        }
    }
}

/// A panel of lines.
pub open spec fn panel_of(
    area: Rect,
    focused: bool,
    title: Seq<char>,
    lines: Seq<Seq<SpanView>>,
) -> PanelView {
    PanelView {
        area,
        frame: PanelFrame::Panel { focused },
        ground: Ground::Kept,
        title,
        lines,
        highlight: None,
        scroll: 0,
        cursor: None,
    }
}

/// A panel with nothing to show but a remark.
pub open spec fn remark_panel(
    area: Rect,
    focused: bool,
    title: Seq<char>,
    text: Seq<char>,
) -> PanelView {
    panel_of(area, focused, title, seq![seq![span(text, Style::plain())]])
}

impl Panel {
    /// A panel of lines.
    pub fn of(area: Rect, focused: bool, title: String, lines: Vec<Line>) -> (panel: Panel)
        ensures
            panel@ == panel_of(area, focused, title@, lines_view(lines@)),
    {
        Panel {
            area,
            frame: PanelFrame::Panel { focused },
            ground: Ground::Kept,
            title,
            lines,
            highlight: None,
            scroll: 0,
            cursor: None,
        }
    }

    /// A panel with nothing to show but a remark.
    pub fn remark(area: Rect, focused: bool, title: String, text: &str) -> (panel: Panel)
        ensures
            panel@ == remark_panel(area, focused, title@, text@),
    {
        let lines = one_line(Line::of(Span::raw(text.to_owned())));
        Panel::of(area, focused, title, lines)
    }
}

/// A list of one line.
pub fn one_line(line: Line) -> (lines: Vec<Line>)
    ensures
        lines_view(lines@) == seq![line@],
{
    let mut lines: Vec<Line> = Vec::new();
    lines.push(line);
    assert(lines_view(lines@) =~= seq![line@]);
    lines
}

/// A line of two spans.
pub fn line_of_two(a: Span, b: Span) -> (line: Line)
    ensures
        line@ == seq![a@, b@],
{
    let mut spans: Vec<Span> = Vec::new();
    spans.push(a);
    spans.push(b);
    let line = Line::from_spans(spans);
    assert(line@ =~= seq![a@, b@]);
    line
}

/// A line of three spans.
pub fn line_of_three(a: Span, b: Span, c: Span) -> (line: Line)
    ensures
        line@ == seq![a@, b@, c@],
{
    let mut spans: Vec<Span> = Vec::new();
    spans.push(a);
    spans.push(b);
    spans.push(c);
    let line = Line::from_spans(spans);
    assert(line@ =~= seq![a@, b@, c@]);
    line
}

/// A foreground color and bold letters.
#[verifier::allow_in_spec]
pub fn bold(color: Color) -> Style
    returns
        Style::plain().fg(color).add_modifier(Modifier::bold()),
{
    Style::plain().fg(color).add_modifier(Modifier::bold())
}

/// The style of what is selected.
#[verifier::allow_in_spec]
pub fn selection_style(theme: Theme) -> Style
    returns
        Style::plain().fg(theme.fg).bg(theme.selection_bg).add_modifier(Modifier::bold()),
{
    Style::plain().fg(theme.fg).bg(theme.selection_bg).add_modifier(Modifier::bold())
}

/// The style of a panel's border.
#[verifier::allow_in_spec]
pub fn focused_border(focused: bool, theme: Theme) -> Style
    returns
        (if focused {
            bold(theme.border_focused)
        } else {
            Style::plain().fg(theme.border_unfocused)
        }),
{
    if focused {
        bold(theme.border_focused)
    } else {
        Style::plain().fg(theme.border_unfocused)
    }
}

/// The style of a panel's title.
#[verifier::allow_in_spec]
pub fn title_style(focused: bool, theme: Theme) -> Style
    returns
        (if focused {
            bold(theme.border_focused)
        } else {
            Style::plain().fg(theme.hint)
        }),
{
    if focused {
        bold(theme.border_focused)
    } else {
        Style::plain().fg(theme.hint)
    }
}

/// The mark of a file's state.
pub open spec fn glyph_of(state: FileState) -> Seq<char> {
    match state {
        FileState::Staged => "S"@,
        FileState::Unstaged => "M"@,
        FileState::Untracked => "?"@,
        FileState::Conflicted => "C"@,
        FileState::BothStagedAndUnstaged => "B"@,
        FileState::Clean => " "@,
    }
}

/// The color of a file's state.
pub open spec fn glyph_color(state: FileState, theme: Theme) -> Color {
    match state {
        FileState::Staged => theme.staged,
        FileState::Unstaged => theme.unstaged,
        FileState::Untracked => theme.untracked,
        FileState::Conflicted => theme.conflicted,
        FileState::BothStagedAndUnstaged => theme.both_staged,
        FileState::Clean => theme.hint,
    }
}

/// The mark of a file's state and its color.
pub fn state_glyph(state: FileState, theme: Theme) -> (out: (&'static str, Color))
    ensures
        out.0@ == glyph_of(state),
        out.1 == glyph_color(state, theme),
{
    match state {
        FileState::Staged => ("S", theme.staged),
        FileState::Unstaged => ("M", theme.unstaged),
        FileState::Untracked => ("?", theme.untracked),
        FileState::Conflicted => ("C", theme.conflicted),
        FileState::BothStagedAndUnstaged => ("B", theme.both_staged),
        FileState::Clean => (" ", theme.hint),
    }
}

/// How the branch stands to its upstream, in words; nothing while that is not
/// known.
pub open spec fn sync_text(syncing: Option<Seq<char>>, sync: Option<SyncStatus>) -> Seq<char> {
    match (syncing, sync) {
        (Some(label), _) => " · "@ + label,
        (None, None) => Seq::empty(),
        (None, Some(st)) => match st.upstream {
            Some(up) => " → "@ + up@ + (if st.ahead > 0 {
                " ↑"@ + decimal(st.ahead as nat)
            } else {
                Seq::empty()
            }) + (if st.behind > 0 {
                " ↓"@ + decimal(st.behind as nat)
            } else {
                Seq::empty()
            }),
            None => if st.remotes@.len() == 0 {
                " · no remote (P publishes)"@
            } else {
                " · no upstream (P pushes)"@
            },
        },
    }
}

/// How the branch stands to its upstream, in words.
pub fn sync_suffix(app: &App) -> (out: String)
    ensures
        out@ == sync_text(app@.syncing, app@.sync),
{
    if let Some(label) = &app.syncing {
        return " · ".to_owned().concat(label.as_str());
    }
    match &app.sync {
        None => String::new(),
        Some(st) => match &st.upstream {
            Some(up) => {
                let ahead = if st.ahead > 0 {
                    " ↑".to_owned().concat(number_text(st.ahead as u128).as_str())
                } else {
                    String::new()
                };
                let behind = if st.behind > 0 {
                    " ↓".to_owned().concat(number_text(st.behind as u128).as_str())
                } else {
                    String::new()
                };
                " → ".to_owned().concat(up.as_str()).concat(ahead.as_str()).concat(behind.as_str())
            },
            None => if st.remotes.len() == 0 {
                " · no remote (P publishes)".to_owned()
            } else {
                " · no upstream (P pushes)".to_owned()
            },
        },
    }
}

/// The line of the status panel: repository, branch and number of changes.
pub open spec fn status_line(app: AppView) -> Seq<SpanView> {
    let sync = sync_text(app.syncing, app.sync);
    match app.status {
        None => seq![span("loading…"@, Style::plain())],
        Some(st) => if st.files@.len() == 0 {
            seq![
                span("✓ "@, bold(app.theme.branch_current)),
                span(app.repo_name + " → "@ + st.branch@ + sync, Style::plain()),
            ]
        } else {
            seq![
                span("● "@, bold(app.theme.unstaged)),
                span(
                    app.repo_name + " → "@ + st.branch@ + " ("@ + decimal(st.files@.len()) + ")"@
                        + sync,
                    Style::plain(),
                ),
            ]
        },
    }
}

/// The status panel. Its border never glows: the cursor is in the files panel.
pub fn render_status_panel(area: Rect, app: &App) -> (panel: Panel)
    ensures
        panel@ == panel_of(area, false, "[1]-Status"@, seq![status_line(app@)]),
{
    let sync = sync_suffix(app);
    let line = match &app.status {
        None => Line::of(Span::raw("loading…".to_owned())),
        Some(st) => {
            let head = app.repo_name.clone().concat(" → ").concat(st.branch.as_str());
            if st.files.len() == 0 {
                line_of_two(
                    Span::styled("✓ ".to_owned(), bold(app.theme.branch_current)),
                    Span::raw(head.concat(sync.as_str())),
                )
            } else {
                let count = number_text(st.files.len() as u128);
                line_of_two(
                    Span::styled("● ".to_owned(), bold(app.theme.unstaged)),
                    Span::raw(
                        head.concat(" (").concat(count.as_str()).concat(")").concat(sync.as_str()),
                    ),
                )
            }
        },
    };
    assert(line@ =~= status_line(app@));
    Panel::of(area, false, "[1]-Status".to_owned(), one_line(line))
}

/// The line of a row of the files tree.
pub open spec fn row_line(
    row: FileRowView,
    list: Seq<StatusEntry>,
    folded: Set<Seq<char>>,
    theme: Theme,
) -> Seq<SpanView> {
    match row {
        FileRowView::Dir { path, depth } => seq![
            span(
                repeated(' ', 2 * depth) + (if folded.contains(path) {
                    "▶ "@
                } else {
                    "▼ "@
                }) + after_last(path, '/') + "/"@,
                bold(theme.hint),
            ),
        ],
        FileRowView::File { index, depth } => seq![
            span(
                repeated(' ', 2 * depth) + glyph_of(list[index as int].state) + " "@,
                bold(glyph_color(list[index as int].state, theme)),
            ),
            span(after_last(list[index as int].path@, '/'), Style::plain().fg(theme.fg)),
        ],
    }
}

fn file_row_line(row: &FileRow, tree: &Tree, theme: Theme) -> (line: Line)
    requires
        row matches FileRow::File { index, .. } ==> index < tree.list@.len(),
    ensures
        line@ == row_line(row@, tree.list@, tree.collapsed@, theme),
{
    match row {
        FileRow::Dir { path, depth } => {
            let glyph = if tree.collapsed.contains(path.as_str()) {
                "▶ "
            } else {
                "▼ "
            };
            let name = text_after_last(path.as_str(), '/');
            let text = repeat_char(' ', 2 * (*depth as u128)).concat(glyph).concat(
                name.as_str(),
            ).concat("/");
            Line::of(Span::styled(text, bold(theme.hint)))
        },
        FileRow::File { index, depth } => {
            let file = &tree.list[*index];
            let (glyph, color) = state_glyph(file.state, theme);
            let text = repeat_char(' ', 2 * (*depth as u128)).concat(glyph).concat(" ");
            let name = text_after_last(file.path.as_str(), '/');
            line_of_two(
                Span::styled(text, bold(color)),
                Span::styled(name, Style::plain().fg(theme.fg)),
            )
        },
    }
}

/// The lines of rows.
pub open spec fn row_lines(
    rows: Seq<FileRowView>,
    list: Seq<StatusEntry>,
    folded: Set<Seq<char>>,
    theme: Theme,
) -> Seq<Seq<SpanView>> {
    rows.map_values(|r: FileRowView| row_line(r, list, folded, theme))
}

/// The tree with its selection on a file.
pub open spec fn settled(tree: TreeView) -> TreeView {
    TreeView { selected: clamped(tree.selected, tree.list.len()), ..tree }
}

/// The row of the files panel that is highlighted.
pub open spec fn highlighted_row(tree: TreeView) -> nat {
    match settled(tree).cursor_row() {
        Some(i) => i,
        None => 0,
    }
}

/// A place out of a number of places, for a title.
pub open spec fn place_text(place: nat, count: nat) -> Seq<char> {
    " ("@ + decimal(place + 1) + " of "@ + decimal(count) + ")"@
}

pub fn place_title(head: &str, place: usize, count: usize) -> (out: String)
    ensures
        out@ == head@ + place_text(place as nat, count as nat),
{
    let out = head.to_owned().concat(" (").concat(number_text(place as u128 + 1).as_str()).concat(
        " of ",
    ).concat(number_text(count as u128).as_str()).concat(")");
    assert(out@ =~= head@ + place_text(place as nat, count as nat));
    out
}

/// How far the files panel is scrolled once it is drawn in that many rows.
pub open spec fn files_offset(app: AppView, visible: nat) -> nat {
    if app.status is None || app.tree.list.len() == 0 {
        app.files_scroll
    } else {
        followed(highlighted_row(app.tree), visible, app.files_scroll)
    }
}

/// The rows of a panel of that height inside its frame.
pub open spec fn inner_height(area: Rect) -> nat {
    less16(area.height, 2) as nat
}

/// The files panel.
#[verifier::opaque]
pub open spec fn files_panel(app: AppView, area: Rect) -> PanelView {
    let focused = app.focus == Focus::Status;
    let n = app.tree.list.len();
    if app.status is None {
        remark_panel(area, focused, "[2]-Files"@, "loading…"@)
    } else if n == 0 {
        remark_panel(area, focused, "[2]-Files (0)"@, "(clean working tree)"@)
    } else {
        let rows = app.tree.rows();
        let at = highlighted_row(app.tree);
        let visible = inner_height(area);
        let off = files_offset(app, visible);
        PanelView {
            highlight: if rows.len() > 0 && visible > 0 {
                Some(
                    if at >= off {
                        (at - off) as nat
                    } else {
                        0
                    },
                )
            } else {
                None
            },
            ..panel_of(
                area,
                focused,
                "[2]-Files"@ + place_text(clamped(app.tree.selected, n), n),
                row_lines(
                    keep_n(drop_n(rows, off), visible),
                    app.tree.list,
                    app.tree.collapsed,
                    app.theme,
                ),
            )
        }
    }
}

fn find_highlighted(tree: &mut Tree, rows: &Vec<FileRow>) -> (at: usize)
    requires
        tree_view(rows@) == old(tree)@.rows(),
    ensures
        at == highlighted_row(old(tree)@),
        final(tree)@ == old(tree)@,
        final(tree).list == old(tree).list,
        final(tree).collapsed == old(tree).collapsed,
{
    let selected = tree.selected;
    tree.selected = clamp_to(selected, tree.list.len());
    let at = match tree.cursor_row(rows) {
        Some(i) => i,
        None => 0,
    };
    tree.selected = selected;
    at
}

/// Draws the files panel and records how far it is scrolled.
pub fn render_files_panel(area: Rect, app: &mut App) -> (panel: Panel)
    ensures
        panel@ == files_panel(old(app)@, area),
        final(app)@ == (AppView {
            files_scroll: files_offset(old(app)@, inner_height(area)),
            ..old(app)@
        }),
{
    proof {
        reveal(files_panel);
    }
    let focused = app.focus == Focus::Status;
    if app.status.is_none() {
        return Panel::remark(area, focused, "[2]-Files".to_owned(), "loading…");
    }
    let n = app.tree.list.len();
    if n == 0 {
        return Panel::remark(area, focused, "[2]-Files (0)".to_owned(), "(clean working tree)");
    }
    let rows = app.tree.rows();
    let at = find_highlighted(&mut app.tree, &rows);
    let visible = less16(area.height, 2) as usize;
    let off = follow_selection(at, visible, app.files_scroll);
    app.files_scroll = off;
    let ghost all = tree_view(rows@);
    let ghost kept = keep_n(drop_n(all, off as nat), visible as nat);
    assert(all.len() == rows@.len());
    let mut lines: Vec<Line> = Vec::new();
    let mut i: usize = off;
    assert(lines_view(lines@) =~= row_lines(
        kept.take(0),
        app.tree.list@,
        app.tree.collapsed@,
        app.theme,
    ));
    while i < rows.len() && i - off < visible
        invariant
            off <= i,
            i - off <= visible,
            i <= rows@.len() || i == off,
            all == tree_view(rows@),
            all.len() == rows@.len(),
            kept == keep_n(drop_n(all, off as nat), visible as nat),
            forall|k: int|
                0 <= k < rows@.len() ==> ((#[trigger] rows@[k]) matches FileRow::File {
                    index,
                    ..
                } ==> index < app.tree.list@.len()),
            i - off <= kept.len(),
            lines_view(lines@) == row_lines(
                kept.take(i - off),
                app.tree.list@,
                app.tree.collapsed@,
                app.theme,
            ),
        decreases rows@.len() - i,
    {
        let line = file_row_line(&rows[i], &app.tree, app.theme);
        assert(kept[i - off] == all[i as int]);
        assert(all[i as int] == rows@[i as int]@);
        proof {
            lemma_lines_push(lines@, line);
        }
        lines.push(line);
        i += 1;
        assert(kept.take(i - off) =~= kept.take(i - 1 - off).push(all[i - 1]));
        assert(lines_view(lines@) =~= row_lines(
            kept.take(i - off),
            app.tree.list@,
            app.tree.collapsed@,
            app.theme,
        ));
    }
    assert(kept.take(i - off) =~= kept);
    let title = place_title("[2]-Files", clamp_to(app.tree.selected, n), n);
    let mut panel = Panel::of(area, focused, title, lines);
    if rows.len() > 0 && visible > 0 {
        panel.highlight = Some(
            if at >= off {
                at - off
            } else {
                0
            },
        );
    }
    panel
}

} // verus!
