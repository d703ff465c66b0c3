//! The whole screen: which panels are drawn, where, and in which order.

use crate::app::App;
use crate::app_model::{AppView, Mode};
use crate::draft::DraftView;
use crate::layout::{compute_layout, layout_of, less16, min16, Rect};
use crate::modal_browser::{browser_modal, render_open_browser_modal};
use crate::modal_pickers::{
    confirm_modal, finder_modal, llm_modal, render_confirm_init_modal, render_finder_modal,
    render_llm_modal,
};
use crate::modals::{
    commit_modal, commit_width, input_modal, render_commit_modal, render_input_modal,
};
use crate::model::RepoStatus;
use crate::panel_diff::{
    full_panel, preview_panel, render_diff_preview_panel, render_fullscreen_diff,
};
use crate::panel_lists::{
    branches_panel, commits_panel, drawn_offset, footer_height, footer_panel, footer_rows,
    render_branches_panel, render_commits_panel, render_footer, render_stash_panel, stash_panel,
};
use crate::panels::{
    files_offset, files_panel, inner_height, one_line, panel_of, render_files_panel,
    render_status_panel, selection_style, status_line, Ground, Panel, PanelFrame, PanelView,
};
use crate::style::{lemma_spans_push, spans_view, Line, Span, SpanView, Style};
use crate::syntax::Highlighter;
use crate::text::{decimal, number_text, opt_text};
use crate::viewer::ViewerView;
use crate::workspace::{apps_view, lemma_update, picker_fits, Workspace, WorkspaceView};
use syntect::parsing::SyntaxSet;
use vstd::prelude::*;
use vstd::string::*;

verus! {

/// What a list of panels holds.
pub open spec fn panels_view(panels: Seq<Panel>) -> Seq<PanelView> {
    panels.map_values(|p: Panel| p@)
}

proof fn lemma_panels_push(panels: Seq<Panel>, panel: Panel)
    ensures
        panels_view(panels.push(panel)) == panels_view(panels).push(panel@),
{
    assert(panels_view(panels.push(panel)) =~= panels_view(panels).push(panel@));
}

/// A panel, unless there is no cell in its area.
pub open spec fn if_room(area: Rect, panel: PanelView) -> Seq<PanelView> {
    if area.is_empty() {
        Seq::empty()
    } else {
        seq![panel]
    }
}

/// An app after its files were drawn: the offset of the list is recorded.
#[verifier::opaque]
pub open spec fn files_drawn(app: AppView, area: Rect) -> AppView {
    if area.is_empty() {
        app
    } else {
        AppView { files_scroll: files_offset(app, inner_height(area)), ..app }
    }
}

/// An app after its branches were drawn.
#[verifier::opaque]
pub open spec fn branches_drawn(app: AppView, area: Rect) -> AppView {
    if area.is_empty() {
        app
    } else {
        AppView {
            branch_scroll: drawn_offset(
                app.branches,
                area,
                app.branch_selected,
                app.branch_scroll,
            ),
            ..app
        }
    }
}

/// An app after its stash was drawn.
#[verifier::opaque]
pub open spec fn stash_drawn(app: AppView, area: Rect) -> AppView {
    if area.is_empty() {
        app
    } else {
        AppView {
            stash_scroll: drawn_offset(app.stash, area, app.stash_selected, app.stash_scroll),
            ..app
        }
    }
}

/// An app after its panels were drawn: what they recorded for the next keys.
pub open spec fn panels_drawn(app: AppView, body: Rect) -> AppView {
    let l = layout_of(body, footer_rows(app));
    let lists = stash_drawn(branches_drawn(files_drawn(app, l.files), l.branches), l.stash);
    AppView { viewer: ViewerView { prev_h: inner_height(l.diff), ..lists.viewer }, ..lists }
}

/// The panels of the body of the screen.
pub open spec fn body_panels(
    app: AppView,
    body: Rect,
    multi: bool,
    by_file: Option<Seq<char>>,
    set: SyntaxSet,
) -> Seq<PanelView> {
    let l = layout_of(body, footer_rows(app));
    if_room(l.status, panel_of(l.status, false, "[1]-Status"@, seq![status_line(app)]))
        + if_room(l.files, files_panel(app, l.files)) + if_room(l.diff, preview_panel(app, l.diff, by_file, set))
        + if_room(l.branches, branches_panel(app, l.branches)) + if_room(l.commits, commits_panel(app, l.commits))
        + if_room(l.stash, stash_panel(app, l.stash)) + seq![footer_panel(app, l.footer, multi)]
}

/// Adds a panel, unless there is no cell in its area.
fn push_room(panels: &mut Vec<Panel>, area: Rect, panel: Panel)
    ensures
        panels_view(final(panels)@) == panels_view(old(panels)@) + if_room(area, panel@),
{
    let ghost before = panels@;
    if !area.is_empty() {
        panels.push(panel);
    }
    assert(panels_view(panels@) =~= panels_view(before) + if_room(area, panel@));
}

fn push_files(panels: &mut Vec<Panel>, area: Rect, app: &mut App)
    ensures
        panels_view(final(panels)@) == panels_view(old(panels)@) + if_room(
            area,
            files_panel(old(app)@, area),
        ),
        final(app)@ == files_drawn(old(app)@, area),
{
    proof {
        reveal(files_drawn);
        assert(panels_view(panels@) + Seq::<PanelView>::empty() =~= panels_view(panels@));
    }
    if !area.is_empty() {
        let panel = render_files_panel(area, app);
        push_room(panels, area, panel);
    }
}

proof fn lemma_files_drawn(app: AppView, files: Rect, area: Rect)
    ensures
        branches_panel(files_drawn(app, files), area) == branches_panel(app, area),
        stash_panel(files_drawn(app, files), area) == stash_panel(app, area),
{
    reveal(files_drawn);
    reveal(branches_panel);
    reveal(stash_panel);
}

proof fn lemma_branches_drawn(app: AppView, branches: Rect, area: Rect)
    ensures
        stash_panel(branches_drawn(app, branches), area) == stash_panel(app, area),
{
    reveal(branches_drawn);
    reveal(stash_panel);
}

fn push_branches(panels: &mut Vec<Panel>, area: Rect, app: &mut App)
    ensures
        panels_view(final(panels)@) == panels_view(old(panels)@) + if_room(
            area,
            branches_panel(old(app)@, area),
        ),
        final(app)@ == branches_drawn(old(app)@, area),
{
    proof {
        reveal(branches_drawn);
        assert(panels_view(panels@) + Seq::<PanelView>::empty() =~= panels_view(panels@));
    }
    if !area.is_empty() {
        let panel = render_branches_panel(area, app);
        push_room(panels, area, panel);
    }
}

fn push_stash(panels: &mut Vec<Panel>, area: Rect, app: &mut App)
    ensures
        panels_view(final(panels)@) == panels_view(old(panels)@) + if_room(
            area,
            stash_panel(old(app)@, area),
        ),
        final(app)@ == stash_drawn(old(app)@, area),
{
    proof {
        reveal(stash_drawn);
        assert(panels_view(panels@) + Seq::<PanelView>::empty() =~= panels_view(panels@));
    }
    if !area.is_empty() {
        let panel = render_stash_panel(area, app);
        push_room(panels, area, panel);
    }
}

proof fn lemma_seven<A>(
    p: Seq<A>,
    a: Seq<A>,
    b: Seq<A>,
    c: Seq<A>,
    d: Seq<A>,
    e: Seq<A>,
    f: Seq<A>,
    g: Seq<A>,
)
    ensures
        p + a + b + c + d + e + f + g == p + (a + b + c + d + e + f + g),
{
    assert(p + a + b + c + d + e + f + g =~= p + (a + b + c + d + e + f + g));
}

/// Draws the panels of the body of the screen and records what the next keys go
/// by.
fn body_drawn(
    hl: &mut Highlighter,
    body: Rect,
    app: &mut App,
    multi: bool,
    by_file: &Option<String>,
    panels: Vec<Panel>,
) -> (out: Vec<Panel>)
    requires
        old(hl).wf(),
        body.fits(),
    ensures
        final(hl).wf(),
        final(hl).grammars() == old(hl).grammars(),
        panels_view(out@) == panels_view(panels@) + body_panels(
            old(app)@,
            body,
            multi,
            opt_text(*by_file),
            old(hl).grammars(),
        ),
        final(app)@ == panels_drawn(old(app)@, body),
{
    let ghost first = app@;
    let ghost set = hl.grammars();
    let l = compute_layout(body, footer_height(app));
    let status = render_status_panel(l.status, app);
    let diff = render_diff_preview_panel(hl, l.diff, app, by_file);
    let commits = render_commits_panel(l.commits, app);
    let footer = render_footer(l.footer, app, multi);
    let mut out = panels;
    push_room(&mut out, l.status, status);
    push_files(&mut out, l.files, app);
    push_room(&mut out, l.diff, diff);
    proof {
        lemma_files_drawn(first, l.files, l.branches);
        lemma_files_drawn(first, l.files, l.stash);
        lemma_branches_drawn(app@, l.branches, l.stash);
    }
    push_branches(&mut out, l.branches, app);
    push_room(&mut out, l.commits, commits);
    push_stash(&mut out, l.stash, app);
    proof {
        lemma_panels_push(out@, footer);
        assert(panels_view(out@).push(footer@) =~= panels_view(out@) + seq![footer@]);
        lemma_seven(
            panels_view(panels@),
            if_room(l.status, status@),
            if_room(l.files, files_panel(first, l.files)),
            if_room(l.diff, diff@),
            if_room(l.branches, branches_panel(first, l.branches)),
            if_room(l.commits, commits@),
            if_room(l.stash, stash_panel(first, l.stash)),
            seq![footer@],
        );
    }
    out.push(footer);
    app.viewer.set_preview_height(less16(l.diff.height, 2) as usize);
    out
}

/// Whether the diff covers the screen.
pub open spec fn shows_full(app: AppView) -> bool {
    app.mode == Mode::FullDiff || (app.mode == Mode::FindFile && app.finder_return
        == Mode::FullDiff)
}

/// The boxes over the panels.
pub open spec fn overlay(
    app: AppView,
    area: Rect,
    body: Rect,
    open: Seq<bool>,
    by_file: Option<Seq<char>>,
    set: SyntaxSet,
) -> Seq<PanelView> {
    match app.mode {
        Mode::Committing => seq![commit_modal(app, area)],
        Mode::NewBranch => seq![input_modal(app, area, " New branch name "@)],
        Mode::StashPush => seq![input_modal(app, area, " Stash message "@)],
        Mode::SetUpstream => seq![input_modal(app, area, " Push - set upstream (remote) "@)],
        Mode::SetRemote => seq![input_modal(app, area, " Remote URL for origin (publish) "@)],
        Mode::OpenProject => match app.open_browser {
            Some(b) => seq![browser_modal(app, b, area, open)],
            None => Seq::empty(),
        },
        Mode::ConfirmInit => seq![confirm_modal(app, area)],
        Mode::LlmSettings => seq![llm_modal(app, area)],
        Mode::FindFile => if app.finder_return == Mode::FullDiff {
            seq![full_panel(app, body, by_file, set), finder_modal(app, area)]
        } else {
            seq![finder_modal(app, area)]
        },
        Mode::FullDiff => seq![full_panel(app, body, by_file, set)],
        Mode::Normal => Seq::empty(),
    }
}

/// An app after the boxes over its panels were drawn.
pub open spec fn overlay_drawn(app: AppView, area: Rect, body: Rect) -> AppView {
    AppView {
        draft: if app.mode == Mode::Committing {
            DraftView { wrap_width: commit_width(area) as nat, ..app.draft }
        } else {
            app.draft
        },
        viewer: if shows_full(app) {
            ViewerView { full_h: inner_height(body), ..app.viewer }
        } else {
            app.viewer
        },
        ..app
    }
}

fn overlay_panels(
    hl: &mut Highlighter,
    area: Rect,
    body: Rect,
    app: &mut App,
    open: &Vec<bool>,
    by_file: &Option<String>,
) -> (out: Vec<Panel>)
    requires
        old(hl).wf(),
        area.fits(),
        picker_fits(old(app)@),
    ensures
        final(hl).wf(),
        final(hl).grammars() == old(hl).grammars(),
        panels_view(out@) == overlay(
            old(app)@,
            area,
            body,
            open@,
            opt_text(*by_file),
            old(hl).grammars(),
        ),
        final(app)@ == overlay_drawn(old(app)@, area, body),
{
    let ghost first = app@;
    let ghost set = hl.grammars();
    let mode = app.mode;
    let mut out: Vec<Panel> = Vec::new();
    if mode == Mode::FullDiff || (mode == Mode::FindFile && app.finder_return == Mode::FullDiff) {
        out.push(render_fullscreen_diff(hl, body, app, by_file));
    }
    let over: Option<Panel> = match mode {
        Mode::Committing => Some(render_commit_modal(area, app)),
        Mode::NewBranch => Some(render_input_modal(area, app, " New branch name ")),
        Mode::StashPush => Some(render_input_modal(area, app, " Stash message ")),
        Mode::SetUpstream => Some(
            render_input_modal(area, app, " Push - set upstream (remote) "),
        ),
        Mode::SetRemote => Some(
            render_input_modal(area, app, " Remote URL for origin (publish) "),
        ),
        Mode::OpenProject => match &app.open_browser {
            Some(b) => Some(render_open_browser_modal(area, app, b, open)),
            None => None,
        },
        Mode::ConfirmInit => Some(render_confirm_init_modal(area, app)),
        Mode::LlmSettings => Some(render_llm_modal(area, app)),
        Mode::FindFile => Some(render_finder_modal(area, app)),
        Mode::FullDiff => None,
        Mode::Normal => None,
    };
    if let Some(panel) = over {
        out.push(panel);
    }
    if mode == Mode::FullDiff || (mode == Mode::FindFile && app.finder_return == Mode::FullDiff) {
        app.viewer.set_full_height(less16(body.height, 2) as usize);
    }
    assert(panels_view(out@) =~= overlay(first, area, body, open@, opt_text(*by_file), set));
    out
}

/// The ground of the screen: every cell in the background of the palette.
pub open spec fn base_panel(area: Rect) -> PanelView {
    PanelView {
        area,
        frame: PanelFrame::Bare,
        ground: Ground::Painted,
        title: Seq::empty(),
        lines: Seq::empty(),
        highlight: None,
        scroll: 0,
        cursor: None,
    }
}

fn paint_base(area: Rect) -> (panel: Panel)
    ensures
        panel@ == base_panel(area),
{
    let panel = Panel {
        area,
        frame: PanelFrame::Bare,
        ground: Ground::Painted,
        title: String::new(),
        lines: Vec::new(),
        highlight: None,
        scroll: 0,
        cursor: None,
    };
    assert(panel@ =~= base_panel(area));
    panel
}

/// What a screen shows of one project, in the order in which it is drawn.
pub open spec fn screen_panels(
    app: AppView,
    area: Rect,
    body: Rect,
    multi: bool,
    open: Seq<bool>,
    by_file: Option<Seq<char>>,
    set: SyntaxSet,
) -> Seq<PanelView> {
    body_panels(app, body, multi, by_file, set) + overlay(
        panels_drawn(app, body),
        area,
        body,
        open,
        by_file,
        set,
    )
}

/// An app after it was drawn.
pub open spec fn app_drawn(app: AppView, area: Rect, body: Rect) -> AppView {
    overlay_drawn(panels_drawn(app, body), area, body)
}

fn draw(
    hl: &mut Highlighter,
    area: Rect,
    body: Rect,
    app: &mut App,
    multi: bool,
    open: &Vec<bool>,
    by_file: &Option<String>,
    panels: Vec<Panel>,
) -> (out: Vec<Panel>)
    requires
        old(hl).wf(),
        area.fits(),
        body.fits(),
        picker_fits(old(app)@),
    ensures
        final(hl).wf(),
        final(hl).grammars() == old(hl).grammars(),
        panels_view(out@) == panels_view(panels@) + screen_panels(
            old(app)@,
            area,
            body,
            multi,
            open@,
            opt_text(*by_file),
            old(hl).grammars(),
        ),
        final(app)@ == app_drawn(old(app)@, area, body),
{
    let ghost first = app@;
    let ghost set = hl.grammars();
    let mut out = body_drawn(hl, body, app, multi, by_file, panels);
    let ghost below = out@;
    proof {
        lemma_browser_stays(first, body);
    }
    let mut over = overlay_panels(hl, area, body, app, open, by_file);
    let ghost above = over@;
    out.append(&mut over);
    proof {
        assert(panels_view(below + above) =~= panels_view(below) + panels_view(above));
        assert(panels_view(out@) =~= panels_view(panels@) + screen_panels(
            first,
            area,
            body,
            multi,
            open@,
            opt_text(*by_file),
            set,
        ));
    }
    out
}

/// The screen of one project: its panels, and what is open over them.
pub fn render(hl: &mut Highlighter, area: Rect, app: &mut App, by_file: &Option<String>) -> (out:
    Vec<Panel>)
    requires
        old(hl).wf(),
        area.fits(),
        picker_fits(old(app)@),
    ensures
        final(hl).wf(),
        final(hl).grammars() == old(hl).grammars(),
        panels_view(out@) == seq![base_panel(area)] + screen_panels(
            old(app)@,
            area,
            area,
            false,
            Seq::empty(),
            opt_text(*by_file),
            old(hl).grammars(),
        ),
        final(app)@ == app_drawn(old(app)@, area, area),
{
    let mut panels: Vec<Panel> = Vec::new();
    panels.push(paint_base(area));
    assert(panels_view(panels@) =~= seq![base_panel(area)]);
    let none: Vec<bool> = Vec::new();
    draw(hl, area, area, app, false, &none, by_file, panels)
}

/// The label of a tab: its number, the project and how many files are changed.
pub open spec fn tab_text(i: nat, name: Seq<char>, status: Option<RepoStatus>) -> Seq<char> {
    " "@ + decimal(i + 1) + ":"@ + name + " ("@ + (match status {
        Some(st) => decimal(st.files@.len()),
        None => "…"@,
    }) + ") "@
}

/// The label of a tab as it is drawn.
pub open spec fn tab_span(ws: WorkspaceView, i: int) -> SpanView {
    let text = tab_text(i as nat, ws.apps[i].repo_name, ws.apps[i].status);
    if i == ws.current {
        SpanView { text, style: selection_style(ws.app().theme) }
    } else {
        SpanView { text, style: Style::plain().fg(ws.app().theme.hint) }
    }
}

/// The bar of the projects: a tab for each.
pub open spec fn bar_panel(ws: WorkspaceView, area: Rect) -> PanelView {
    panel_of(
        area,
        false,
        " Projects "@,
        seq![Seq::new(ws.apps.len(), |i: int| tab_span(ws, i))],
    )
}

fn tab_label(i: usize, name: &str, dirty: Option<usize>) -> (out: String)
    ensures
        out@ == " "@ + decimal(i as nat + 1) + ":"@ + name@ + " ("@ + (match dirty {
            Some(n) => decimal(n as nat),
            None => "…"@,
        }) + ") "@,
{
    let count = match dirty {
        Some(n) => number_text(n as u128),
        None => "…".to_owned(),
    };
    " ".to_owned().concat(number_text(i as u128 + 1).as_str()).concat(":").concat(name).concat(
        " (",
    ).concat(count.as_str()).concat(") ")
}

/// The bar over several projects.
pub fn render_project_bar(area: Rect, ws: &Workspace) -> (panel: Panel)
    requires
        ws@.wf(),
    ensures
        panel@ == bar_panel(ws@, area),
{
    let theme = ws.theme();
    let mut spans: Vec<Span> = Vec::new();
    let mut i: usize = 0;
    while i < ws.len()
        invariant
            i <= ws@.apps.len(),
            ws@.wf(),
            theme == ws@.app().theme,
            spans_view(spans@) == Seq::new(i as nat, |k: int| tab_span(ws@, k)),
        decreases ws@.apps.len() - i,
    {
        let label = tab_label(i, ws.project_name(i), ws.project_dirty_count(i));
        let span = if i == ws.index() {
            Span::styled(label, selection_style(theme))
        } else {
            Span::styled(label, Style::plain().fg(theme.hint))
        };
        proof {
            lemma_spans_push(spans@, span);
            assert(span@ == tab_span(ws@, i as int));
            assert(Seq::new(i as nat + 1, |k: int| tab_span(ws@, k)) =~= Seq::new(
                i as nat,
                |k: int| tab_span(ws@, k),
            ).push(span@));
        }
        spans.push(span);
        i += 1;
    }
    let lines = one_line(Line::from_spans(spans));
    let panel = Panel::of(area, false, " Projects ".to_owned(), lines);
    assert(panel@ =~= bar_panel(ws@, area));
    panel
}

/// The place of the bar.
pub open spec fn bar_area(area: Rect) -> Rect {
    Rect { height: min16(3, area.height), ..area }
}

/// What the bar leaves of the screen.
pub open spec fn body_area(area: Rect) -> Rect {
    let h = min16(3, area.height);
    Rect { y: (area.y + h) as u16, height: (area.height - h) as u16, ..area }
}

/// The screen of a workspace, in the order in which it is drawn. One project
/// has the screen for itself; over several there is a bar, which stays when a
/// diff covers the rest.
pub open spec fn workspace_panels(
    ws: WorkspaceView,
    area: Rect,
    open: Seq<bool>,
    by_file: Option<Seq<char>>,
    set: SyntaxSet,
) -> Seq<PanelView> {
    if ws.apps.len() <= 1 {
        seq![base_panel(area)] + screen_panels(
            ws.app(),
            area,
            area,
            false,
            Seq::empty(),
            by_file,
            set,
        )
    } else {
        seq![base_panel(area)] + if_room(
            bar_area(area),
            bar_panel(ws, bar_area(area)),
        ) + screen_panels(
            ws.app(),
            area,
            body_area(area),
            true,
            open,
            by_file,
            set,
        )
    }
}

/// The place of the panels below the bar, if there is one.
pub open spec fn panels_area(ws: WorkspaceView, area: Rect) -> Rect {
    if ws.apps.len() <= 1 {
        area
    } else {
        body_area(area)
    }
}

proof fn lemma_browser_stays(app: AppView, body: Rect)
    ensures
        panels_drawn(app, body).open_browser == app.open_browser,
{
    reveal(files_drawn);
    reveal(branches_drawn);
    reveal(stash_drawn);
}

proof fn lemma_drawn(ws: WorkspaceView, area: Rect, body: Rect)
    requires
        ws.wf(),
    ensures
        ws.with_app(app_drawn(ws.app(), area, body)).wf(),
{
    lemma_browser_stays(ws.app(), body);
}

/// The screen of a workspace; `open` says of each folder that its picker lists
/// whether it is an open project.
pub fn render_workspace(
    hl: &mut Highlighter,
    area: Rect,
    ws: &mut Workspace,
    open: &Vec<bool>,
    by_file: &Option<String>,
) -> (out: Vec<Panel>)
    requires
        old(hl).wf(),
        area.fits(),
        old(ws)@.wf(),
    ensures
        final(hl).wf(),
        final(hl).grammars() == old(hl).grammars(),
        panels_view(out@) == workspace_panels(
            old(ws)@,
            area,
            open@,
            opt_text(*by_file),
            old(hl).grammars(),
        ),
        final(ws)@ == old(ws)@.with_app(
            app_drawn(old(ws)@.app(), area, panels_area(old(ws)@, area)),
        ),
        final(ws)@.wf(),
{
    let ghost first = ws@;
    let ghost apps = ws.apps@;
    let ghost c = ws.current as int;
    let ghost body_of = panels_area(first, area);
    proof {
        lemma_drawn(first, area, body_of);
        assert(apps_view(apps)[c] == apps[c]@);
    }
    if ws.len() <= 1 {
        let out = render(hl, area, ws.current_mut(), by_file);
        proof {
            lemma_update(apps, c, ws.apps@[c]);
            assert(ws.apps@ =~= apps.update(c, ws.apps@[c]));
            assert(ws@ =~= first.with_app(app_drawn(first.app(), area, body_of)));
        }
        return out;
    }
    let bar_h = min16(3, area.height);
    let bar = Rect { x: area.x, y: area.y, width: area.width, height: bar_h };
    let body = Rect {
        x: area.x,
        y: area.y + bar_h,
        width: area.width,
        height: area.height - bar_h,
    };
    let mut panels: Vec<Panel> = Vec::new();
    panels.push(paint_base(area));
    assert(panels_view(panels@) =~= seq![base_panel(area)]);
    push_room(&mut panels, bar, render_project_bar(bar, ws));
    let out = draw(hl, area, body, ws.current_mut(), true, open, by_file, panels);
    proof {
        lemma_update(apps, c, ws.apps@[c]);
        assert(ws.apps@ =~= apps.update(c, ws.apps@[c]));
        assert(ws@ =~= first.with_app(app_drawn(first.app(), area, body_of)));
    }
    out
}

/// The bar stays in sight: it and the panels share the screen, and a diff that
/// covers the screen covers the panels only.
pub proof fn law_bar_stays(
    app: AppView,
    area: Rect,
    open: Seq<bool>,
    by_file: Option<Seq<char>>,
    set: SyntaxSet,
)
    requires
        area.fits(),
        app.mode == Mode::FullDiff,
    ensures
        bar_area(area).within(area),
        body_area(area).within(area),
        bar_area(area).y + bar_area(area).height == body_area(area).y,
        bar_area(area).height + body_area(area).height == area.height,
        forall|i: int|
            #![trigger overlay(app, area, body_area(area), open, by_file, set)[i]]
            0 <= i < overlay(app, area, body_area(area), open, by_file, set).len()
                ==> overlay(app, area, body_area(area), open, by_file, set)[i].area
                == body_area(area),
{
    reveal(full_panel);
}

} // verus!
