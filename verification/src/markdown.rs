//! Rendered Markdown preview for the terminal: bold headings, wrapped
//! paragraphs, bullets and numbered lists, task checkboxes, blockquotes,
//! shaded code, tables, links, image placeholders and horizontal rules.

use crate::markdown_events::{
    cmark_events, events_view, markdown_events, preview_options, Alignment, MdEvent, MdEventView,
    MdKind, MdStart, MdStartView,
};
use crate::markdown_table::{max, min, rows_view, span, table_lines, Table, TableView};
use crate::style::{
    lemma_lines_push, lemma_spans_push, lines_view, spans_view, Line, Modifier, Span, SpanView,
    Style,
};
use crate::syntax::{line_tokens, Highlighter};
use crate::text::{
    chars_of, decimal, ends_with, find_char, first_word, first_word_of, index_of_char,
    lemma_index_of_char, lines_from, lower, lower_text, number_text, opt_text, repeat_char,
    repeated, same_text, split_lines, text_ends_with, text_of, texts,
};
use crate::theme::Theme;
use crate::toml_highlight::{tokens_view, TokenView};
use crate::width::{line_width, width_of_line};
use syntect::parsing::SyntaxSet;
use vstd::prelude::*;
use vstd::string::*;

verus! {

/// Whether a file is Markdown source, by its extension.
pub open spec fn markdown_path(path: Seq<char>) -> bool {
    let l = lower(path);
    ends_with(l, ".md"@) || ends_with(l, ".markdown"@) || ends_with(l, ".mkd"@) || ends_with(
        l,
        ".mdx"@,
    )
}

/// Markdown source files.
pub fn is_markdown_path(path: &str) -> (yes: bool)
    ensures
        yes == markdown_path(path@),
{
    let l = lower_text(path);
    let l = l.as_str();
    text_ends_with(l, ".md") || text_ends_with(l, ".markdown") || text_ends_with(l, ".mkd")
        || text_ends_with(l, ".mdx")
}

/// A file name with the extension of the language of a code block, so that the
/// highlighter picks its grammar.
pub open spec fn lang_path(lang: Seq<char>) -> Seq<char> {
    let l = lower(lang);
    if l == "rs"@ || l == "rust"@ {
        "x.rs"@
    } else if l == "py"@ || l == "python"@ {
        "x.py"@
    } else if l == "js"@ || l == "javascript"@ || l == "mjs"@ || l == "cjs"@ || l == "ts"@ || l
        == "typescript"@ || l == "tsx"@ || l == "mts"@ || l == "cts"@ || l == "jsx"@ {
        "x.js"@
    } else if l == "json"@ {
        "x.json"@
    } else if l == "toml"@ {
        "x.toml"@
    } else if l == "yaml"@ || l == "yml"@ {
        "x.yaml"@
    } else if l == "sh"@ || l == "bash"@ || l == "zsh"@ {
        "x.sh"@
    } else if l == "diff"@ || l == "patch"@ {
        "x.diff"@
    } else if l == "go"@ {
        "x.go"@
    } else if l == "c"@ {
        "x.c"@
    } else if l == "cpp"@ || l == "c++"@ || l == "cc"@ {
        "x.cpp"@
    } else if l == "java"@ {
        "x.java"@
    } else if l == "rb"@ || l == "ruby"@ {
        "x.rb"@
    } else if l == "html"@ || l == "xml"@ {
        "x.html"@
    } else if l == "css"@ {
        "x.css"@
    } else if l == "md"@ || l == "markdown"@ {
        "x.md"@
    } else {
        "x.txt"@
    }
}

/// Maps the language of a code block to a file name.
pub fn lang_to_path(lang: &str) -> (path: String)
    ensures
        path@ == lang_path(lang@),
{
    let l = lower_text(lang);
    let l = l.as_str();
    let path = if same_text(l, "rs") || same_text(l, "rust") {
        "x.rs"
    } else if same_text(l, "py") || same_text(l, "python") {
        "x.py"
    } else if same_text(l, "js") || same_text(l, "javascript") || same_text(l, "mjs") || same_text(
        l,
        "cjs",
    ) || same_text(l, "ts") || same_text(l, "typescript") || same_text(l, "tsx") || same_text(
        l,
        "mts",
    ) || same_text(l, "cts") || same_text(l, "jsx") {
        "x.js"
    } else if same_text(l, "json") {
        "x.json"
    } else if same_text(l, "toml") {
        "x.toml"
    } else if same_text(l, "yaml") || same_text(l, "yml") {
        "x.yaml"
    } else if same_text(l, "sh") || same_text(l, "bash") || same_text(l, "zsh") {
        "x.sh"
    } else if same_text(l, "diff") || same_text(l, "patch") {
        "x.diff"
    } else if same_text(l, "go") {
        "x.go"
    } else if same_text(l, "c") {
        "x.c"
    } else if same_text(l, "cpp") || same_text(l, "c++") || same_text(l, "cc") {
        "x.cpp"
    } else if same_text(l, "java") {
        "x.java"
    } else if same_text(l, "rb") || same_text(l, "ruby") {
        "x.rb"
    } else if same_text(l, "html") || same_text(l, "xml") {
        "x.html"
    } else if same_text(l, "css") {
        "x.css"
    } else if same_text(l, "md") || same_text(l, "markdown") {
        "x.md"
    } else {
        "x.txt"
    };
    path.to_owned()
}

/// A list that is being rendered: whether it is ordered, and the number of its
/// next item.
#[derive(Debug, Clone, Copy)]
pub struct ListCtx {
    pub ordered: bool,
    pub next_num: u128,
}

/// A table that is being read.
struct TableBuild {
    table: Table,
    row: Vec<String>,
    cell: String,
}

/// What a table that is being read holds: the table so far, the cells of the
/// current row and the text of the current cell.
#[verifier::ext_equal]
pub struct BuildView {
    pub table: TableView,
    pub row: Seq<Seq<char>>,
    pub cell: Seq<char>,
}

impl View for TableBuild {
    type V = BuildView;

    closed spec fn view(&self) -> BuildView {
        BuildView { table: self.table@, row: texts(self.row@), cell: self.cell@ }
    }
}

/// Where a rendering stands: the finished lines, the line being filled, and
/// what it is inside of.
#[verifier::ext_equal]
pub struct MdState {
    pub theme: Theme,
    pub width: nat,
    pub lines: Seq<Seq<SpanView>>,
    pub cur: Seq<SpanView>,
    pub bold: nat,
    pub italic: nat,
    pub strike: nat,
    pub links: nat,
    pub images: Seq<Seq<char>>,
    pub heading: Option<u32>,
    pub quotes: nat,
    pub lists: Seq<ListCtx>,
    pub prefix: Option<Seq<char>>,
    pub code: Option<Seq<char>>,
    pub code_buf: Seq<char>,
    pub table: Option<BuildView>,
    pub in_cell: bool,
}

/// A number less one, 0 at least.
pub open spec fn pred(n: nat) -> nat {
    if n == 0 {
        0
    } else {
        (n - 1) as nat
    }
}

/// `n` held between `low` and `high`.
pub open spec fn clamped(n: int, low: int, high: int) -> int {
    max(low, min(n, high))
}

/// One token of a code line on the shaded background.
pub open spec fn code_span(token: TokenView, theme: Theme) -> SpanView {
    span(
        token.text,
        Style::plain().fg(token.fg).bg(theme.selection_bg).add_modifier(token.modifier),
    )
}

/// A shaded blank.
pub open spec fn shade(theme: Theme) -> SpanView {
    span(" "@, Style::plain().bg(theme.selection_bg))
}

/// A line of a code block: its highlighted text and a shaded blank.
pub open spec fn code_line(
    set: SyntaxSet,
    path: Seq<char>,
    line: Seq<char>,
    theme: Theme,
) -> Seq<SpanView> {
    if line.len() == 0 {
        seq![shade(theme)]
    } else {
        line_tokens(set, path, None, line, theme).map_values(
            |t: TokenView| code_span(t, theme),
        ).push(shade(theme))
    }
}

/// A code block: shaded lines between two shaded blank ones, then a blank.
pub open spec fn code_block(
    set: SyntaxSet,
    lang: Seq<char>,
    buf: Seq<char>,
    theme: Theme,
) -> Seq<Seq<SpanView>> {
    let path = lang_path(first_word(lang));
    let lines = lines_from(buf, 0);
    let body = if lines.len() == 0 {
        seq![seq![shade(theme)]]
    } else {
        lines.map_values(|l: Seq<char>| code_line(set, path, l, theme))
    };
    seq![seq![shade(theme)]] + body + seq![seq![shade(theme)], Seq::<SpanView>::empty()]
}

impl MdState {
    /// The start of a rendering.
    pub open spec fn initial(theme: Theme, width: nat) -> MdState {
        MdState {
            theme,
            width,
            lines: Seq::empty(),
            cur: Seq::empty(),
            bold: 0,
            italic: 0,
            strike: 0,
            links: 0,
            images: Seq::empty(),
            heading: None,
            quotes: 0,
            lists: Seq::empty(),
            prefix: None,
            code: None,
            code_buf: Seq::empty(),
            table: None,
            in_cell: false,
        }
    }

    /// The style of text at this place.
    pub open spec fn base_style(self) -> Style {
        let bold = if self.bold > 0 {
            Modifier::bold()
        } else {
            Modifier::empty()
        };
        if self.heading is Some {
            Style::plain().fg(self.theme.syntax_function).add_modifier(Modifier::bold())
        } else if self.links > 0 {
            Style::plain().fg(self.theme.syntax_type).add_modifier(
                Modifier::underlined(),
            ).add_modifier(bold).add_modifier(
                if self.italic > 0 {
                    Modifier::italic()
                } else {
                    Modifier::empty()
                },
            )
        } else if self.images.len() > 0 {
            Style::plain().fg(self.theme.hint).add_modifier(Modifier::italic())
        } else {
            Style::plain().fg(self.theme.fg).add_modifier(bold).add_modifier(
                if self.italic > 0 || self.quotes > 0 {
                    Modifier::italic()
                } else {
                    Modifier::empty()
                },
            ).add_modifier(
                if self.strike > 0 {
                    Modifier::crossed_out()
                } else {
                    Modifier::empty()
                },
            )
        }
    }

    pub open spec fn with_line(self, line: Seq<SpanView>) -> MdState {
        MdState { lines: self.lines.push(line), ..self }
    }

    pub open spec fn with_span(self, text: Seq<char>, style: Style) -> MdState {
        MdState { cur: self.cur.push(span(text, style)), ..self }
    }

    /// The line being filled is done; inside quotes it gets their bars.
    pub open spec fn flush(self) -> MdState {
        if self.cur.len() == 0 {
            self
        } else {
            let bars = if self.quotes > 0 {
                seq![span(
                    repeated('▎', self.quotes).push(' '),
                    Style::plain().fg(self.theme.hint),
                )]
            } else {
                Seq::empty()
            };
            MdState { lines: self.lines.push(bars + self.cur), cur: Seq::empty(), ..self }
        }
    }

    /// A blank line, unless there is one already or nothing above it.
    pub open spec fn blank_line(self) -> MdState {
        let f = self.flush();
        if f.lines.len() > 0 && line_width(f.lines.last()) != 0 {
            f.with_line(Seq::empty())
        } else {
            f
        }
    }

    /// A pending list marker goes in front of the text that follows.
    pub open spec fn item_prefix(self) -> MdState {
        match self.prefix {
            None => self,
            Some(p) => {
                let st = MdState { prefix: None, ..self };
                if self.cur.len() > 0 {
                    st.with_span(" "@, Style::plain())
                } else {
                    let indent = 2 * pred(self.lists.len());
                    let indented = if indent > 0 {
                        st.with_span(repeated(' ', indent), Style::plain())
                    } else {
                        st
                    };
                    indented.with_span(
                        p,
                        Style::plain().fg(self.theme.hint).add_modifier(Modifier::bold()),
                    )
                }
            },
        }
    }

    /// Text from `i` on, each newline ending a line.
    pub open spec fn typed(self, text: Seq<char>, i: int) -> MdState
        decreases text.len() - i,
    {
        if i < 0 || i > text.len() {
            self
        } else {
            proof {
                lemma_index_of_char(text, i, '\n');
            }
            let end = index_of_char(text, i, '\n');
            let part = text.subrange(i, end);
            let st = if part.len() > 0 {
                self.with_span(part, self.base_style())
            } else {
                self
            };
            if end < text.len() {
                st.flush().typed(text, end + 1)
            } else {
                st
            }
        }
    }

    /// Whether text goes into a table cell here.
    pub open spec fn cell_open(self) -> bool {
        self.table is Some && self.in_cell
    }

    /// More text of the current table cell.
    pub open spec fn with_cell(self, text: Seq<char>) -> MdState {
        MdState {
            table: Some(BuildView { cell: self.table->0.cell + text, ..self.table->0 }),
            ..self
        }
    }

    pub open spec fn push_text(self, text: Seq<char>) -> MdState {
        if self.code is Some {
            MdState { code_buf: self.code_buf + text, ..self }
        } else if self.cell_open() {
            self.with_cell(text)
        } else {
            self.item_prefix().typed(text, 0)
        }
    }

    pub open spec fn push_code(self, code: Seq<char>) -> MdState {
        if self.code is Some {
            MdState { code_buf: self.code_buf + code, ..self }
        } else if self.cell_open() {
            self.with_cell("`"@ + code + "`"@)
        } else {
            self.item_prefix().with_span(
                code,
                Style::plain().fg(self.theme.syntax_string).bg(self.theme.selection_bg),
            )
        }
    }

    pub open spec fn finish_code(self, set: SyntaxSet) -> MdState {
        let lang = match self.code {
            Some(l) => l,
            None => Seq::empty(),
        };
        let f = MdState { code: None, code_buf: Seq::empty(), ..self }.flush();
        MdState { lines: f.lines + code_block(set, lang, self.code_buf, self.theme), ..f }
    }

    pub open spec fn finish_table(self) -> MdState {
        match self.table {
            None => self,
            Some(t) => {
                let f = self.before_table();
                MdState { lines: f.lines + t.table.lines(self.width, self.theme), ..f }
            },
        }
    }

    /// The state before the lines of the table that is open.
    pub open spec fn before_table(self) -> MdState {
        (MdState { table: None, ..self }).flush()
    }

    /// The marker of the next item of the innermost list.
    pub open spec fn marker(self) -> Seq<char> {
        if self.lists.len() > 0 && self.lists.last().ordered {
            decimal(self.lists.last().next_num as nat) + ". "@
        } else {
            "• "@
        }
    }

    pub open spec fn start(self, s: MdStartView) -> MdState {
        match s.kind {
            MdKind::Paragraph => self.flush(),
            MdKind::Heading(level) => MdState { heading: Some(level), ..self.flush() },
            MdKind::BlockQuote => MdState { quotes: self.quotes + 1, ..self.flush() },
            MdKind::CodeBlock => MdState {
                code: Some(s.text),
                code_buf: Seq::empty(),
                ..self.flush()
            },
            MdKind::List => MdState {
                lists: self.lists.push(
                    ListCtx {
                        ordered: s.number is Some,
                        next_num: match s.number {
                            Some(n) => n as u128,
                            None => 1,
                        },
                    },
                ),
                ..self.flush()
            },
            MdKind::Item => MdState { prefix: Some(self.marker()), ..self.flush() },
            MdKind::Emphasis => MdState { italic: self.italic + 1, ..self },
            MdKind::Strong => MdState { bold: self.bold + 1, ..self },
            MdKind::Strikethrough => MdState { strike: self.strike + 1, ..self },
            MdKind::Link => MdState { links: self.links + 1, ..self },
            MdKind::Image => {
                let st = self.item_prefix().with_span("🖼 "@, Style::plain().fg(self.theme.hint));
                MdState { images: self.images.push(s.text), ..st }
            },
            MdKind::Table => MdState {
                table: Some(
                    BuildView {
                        table: TableView {
                            headers: Seq::empty(),
                            rows: Seq::empty(),
                            aligns: s.aligns,
                        },
                        row: Seq::empty(),
                        cell: Seq::empty(),
                    },
                ),
                ..self.flush()
            },
            MdKind::TableHead | MdKind::TableRow => match self.table {
                Some(t) => MdState { table: Some(BuildView { row: Seq::empty(), ..t }), ..self },
                None => self,
            },
            MdKind::TableCell => match self.table {
                Some(t) => MdState {
                    table: Some(BuildView { cell: Seq::empty(), ..t }),
                    in_cell: true,
                    ..self
                },
                None => self,
            },
            MdKind::FootnoteDefinition => self.flush().with_span(
                "[^"@ + s.text + "] "@,
                Style::plain().fg(self.theme.syntax_type).add_modifier(Modifier::bold()),
            ),
            MdKind::Other => self,
        }
    }

    /// The length of the border under a first or second level heading.
    pub open spec fn heading_border(self) -> nat {
        let last = if self.lines.len() > 0 {
            line_width(self.lines.last()) as int
        } else {
            0
        };
        let w = max(clamped(self.width as int, 24, 120), max(last, 24));
        min(w, max(self.width as int, 24)) as nat
    }

    /// A full-width rule.
    pub open spec fn with_rule(self, w: nat) -> MdState {
        self.with_line(seq![span(repeated('─', w), Style::plain().fg(self.theme.line_nr))])
    }

    pub open spec fn end(self, kind: MdKind, set: SyntaxSet) -> MdState {
        match kind {
            MdKind::Paragraph => self.blank_line(),
            MdKind::Heading(level) => {
                let f = MdState { heading: None, ..self.flush() };
                let bordered = if level <= 2 {
                    f.with_rule(f.heading_border())
                } else {
                    f
                };
                bordered.with_line(Seq::empty())
            },
            MdKind::BlockQuote => MdState { quotes: pred(self.quotes), ..self.flush() }.with_line(
                Seq::empty(),
            ),
            MdKind::CodeBlock => self.finish_code(set),
            MdKind::List => MdState {
                lists: if self.lists.len() > 0 {
                    self.lists.drop_last()
                } else {
                    self.lists
                },
                ..self.flush()
            }.with_line(Seq::empty()),
            MdKind::Item => MdState {
                lists: if self.lists.len() > 0 && self.lists.last().ordered {
                    self.lists.drop_last().push(
                        ListCtx {
                            ordered: true,
                            next_num: (self.lists.last().next_num + 1) as u128,
                        },
                    )
                } else {
                    self.lists
                },
                prefix: None,
                ..self.flush()
            },
            MdKind::Emphasis => MdState { italic: pred(self.italic), ..self },
            MdKind::Strong => MdState { bold: pred(self.bold), ..self },
            MdKind::Strikethrough => MdState { strike: pred(self.strike), ..self },
            MdKind::Link => MdState { links: pred(self.links), ..self },
            MdKind::Image => if self.images.len() == 0 {
                self
            } else {
                let st = MdState { images: self.images.drop_last(), ..self };
                if self.images.last().len() > 0 {
                    st.with_span(
                        " ("@ + self.images.last() + ")"@,
                        Style::plain().fg(self.theme.hint),
                    )
                } else {
                    st
                }
            },
            MdKind::Table => self.finish_table(),
            MdKind::TableHead => match self.table {
                Some(t) => MdState {
                    table: Some(
                        BuildView {
                            table: TableView { headers: t.row, ..t.table },
                            row: Seq::empty(),
                            ..t
                        },
                    ),
                    ..self
                },
                None => self,
            },
            MdKind::TableRow => match self.table {
                Some(t) => MdState {
                    table: Some(
                        BuildView {
                            table: TableView { rows: t.table.rows.push(t.row), ..t.table },
                            row: Seq::empty(),
                            ..t
                        },
                    ),
                    ..self
                },
                None => self,
            },
            MdKind::TableCell => match self.table {
                Some(t) => MdState {
                    table: Some(
                        BuildView { row: t.row.push(t.cell), cell: Seq::empty(), ..t },
                    ),
                    in_cell: false,
                    ..self
                },
                None => self,
            },
            MdKind::FootnoteDefinition | MdKind::Other => self,
        }
    }

    pub open spec fn soft_break(self) -> MdState {
        if self.code is Some {
            MdState { code_buf: self.code_buf.push('\n'), ..self }
        } else if self.cell_open() {
            self.with_cell(seq![' '])
        } else {
            self.with_span(" "@, Style::plain())
        }
    }

    /// What one event does.
    pub open spec fn step(self, event: MdEventView, set: SyntaxSet) -> MdState {
        match event {
            MdEventView::Start(s) => self.start(s),
            MdEventView::End(kind) => self.end(kind, set),
            MdEventView::Text(text) => self.push_text(text),
            MdEventView::Code(code) => self.push_code(code),
            MdEventView::Html(html) => self.item_prefix().with_span(
                html,
                Style::plain().fg(self.theme.hint),
            ),
            MdEventView::SoftBreak => self.soft_break(),
            MdEventView::HardBreak => if self.code is Some {
                MdState { code_buf: self.code_buf.push('\n'), ..self }
            } else {
                self.flush()
            },
            MdEventView::Rule => {
                let f = self.flush();
                f.with_rule(clamped(self.width as int, 24, 160) as nat).with_line(Seq::empty())
            },
            MdEventView::TaskListMarker(checked) => MdState {
                prefix: Some(
                    if checked {
                        "☑ "@
                    } else {
                        "☐ "@
                    },
                ),
                ..self
            },
            MdEventView::FootnoteReference(name) => self.item_prefix().with_span(
                "[^"@ + name + "]"@,
                Style::plain().fg(self.theme.syntax_type).add_modifier(Modifier::underlined()),
            ),
            MdEventView::Other => self,
        }
    }

    /// What the first `k` events do.
    pub open spec fn after(self, events: Seq<MdEventView>, k: nat, set: SyntaxSet) -> MdState
        decreases k,
    {
        if k == 0 {
            self
        } else {
            self.after(events, (k - 1) as nat, set).step(events[k - 1], set)
        }
    }
}

/// The lines without the blank ones at the end.
pub open spec fn without_trailing_blank(lines: Seq<Seq<SpanView>>) -> Seq<Seq<SpanView>>
    decreases lines.len(),
{
    if lines.len() > 0 && line_width(lines.last()) == 0 {
        without_trailing_blank(lines.drop_last())
    } else {
        lines
    }
}

/// The lines of a Markdown document, not yet wrapped.
pub open spec fn document_lines(
    events: Seq<MdEventView>,
    theme: Theme,
    width: nat,
    set: SyntaxSet,
) -> Seq<Seq<SpanView>> {
    let done = MdState::initial(theme, width).after(events, events.len(), set).flush();
    let lines = without_trailing_blank(done.lines);
    if lines.len() == 0 {
        seq![seq![span("(empty markdown file)"@, Style::plain().fg(theme.hint))]]
    } else {
        lines
    }
}

/// Renders Markdown events into lines.
struct Renderer {
    theme: Theme,
    width: usize,
    lines: Vec<Line>,
    cur: Vec<Span>,
    bold: usize,
    italic: usize,
    strike: usize,
    links: usize,
    images: Vec<String>,
    heading: Option<u32>,
    quotes: usize,
    lists: Vec<ListCtx>,
    prefix: Option<String>,
    code: Option<String>,
    code_buf: String,
    table: Option<TableBuild>,
    in_cell: bool,
}

spec fn build_view(t: Option<TableBuild>) -> Option<BuildView> {
    match t {
        Some(b) => Some(b@),
        None => None,
    }
}

impl View for Renderer {
    type V = MdState;

    closed spec fn view(&self) -> MdState {
        MdState {
            theme: self.theme,
            width: self.width as nat,
            lines: lines_view(self.lines@),
            cur: spans_view(self.cur@),
            bold: self.bold as nat,
            italic: self.italic as nat,
            strike: self.strike as nat,
            links: self.links as nat,
            images: texts(self.images@),
            heading: self.heading,
            quotes: self.quotes as nat,
            lists: self.lists@,
            prefix: opt_text(self.prefix),
            code: opt_text(self.code),
            code_buf: self.code_buf@,
            table: build_view(self.table),
            in_cell: self.in_cell,
        }
    }
}

impl MdState {
    /// The counters are no higher than the number of events so far.
    pub open spec fn counted(self, n: nat) -> bool {
        &&& self.bold <= n
        &&& self.italic <= n
        &&& self.strike <= n
        &&& self.links <= n
        &&& self.quotes <= n
        &&& self.lists.len() <= n
        &&& forall|i: int|
            0 <= i < self.lists.len() ==> (#[trigger] self.lists[i]).next_num <= u64::MAX + n
    }
}

proof fn lemma_item_prefix_counted(st: MdState, n: nat)
    requires
        st.counted(n),
    ensures
        st.item_prefix().counted(n),
        st.flush().counted(n),
{
}

proof fn lemma_typed_counted(st: MdState, text: Seq<char>, i: int, n: nat)
    requires
        st.counted(n),
    ensures
        st.typed(text, i).counted(n),
    decreases text.len() - i,
{
    if 0 <= i <= text.len() {
        lemma_index_of_char(text, i, '\n');
        let end = index_of_char(text, i, '\n');
        let part = text.subrange(i, end);
        let next = if part.len() > 0 {
            st.with_span(part, st.base_style())
        } else {
            st
        };
        if end < text.len() {
            lemma_typed_counted(next.flush(), text, end + 1, n);
        }
    }
}

proof fn lemma_start_counted(st: MdState, s: MdStartView, n: nat)
    requires
        st.counted(n),
    ensures
        st.start(s).counted(n + 1),
{
    let f = st.flush();
    let p = st.item_prefix();
    assert(f.counted(n) && f.lists == st.lists);
    assert(p.counted(n) && p.lists == st.lists);
    match s.kind {
        MdKind::List => {
            let next = st.start(s);
            assert forall|i: int| 0 <= i < next.lists.len() implies (
            #[trigger] next.lists[i]).next_num <= u64::MAX + n + 1 by {
                if i < st.lists.len() {
                    assert(next.lists[i] == st.lists[i]);
                }
            }
        },
        _ => {},
    }
}

proof fn lemma_end_counted(st: MdState, kind: MdKind, set: SyntaxSet, n: nat)
    requires
        st.counted(n),
    ensures
        st.end(kind, set).counted(n + 1),
{
    let f = st.flush();
    assert(f.counted(n) && f.lists == st.lists);
    match kind {
        MdKind::Item | MdKind::List => {
            let next = st.end(kind, set);
            assert forall|i: int| 0 <= i < next.lists.len() implies (
            #[trigger] next.lists[i]).next_num <= u64::MAX + n + 1 by {
                assert(st.lists[i].next_num <= u64::MAX + n);
            }
        },
        MdKind::CodeBlock => {
            let g = MdState { code: None, code_buf: Seq::empty(), ..st };
            assert(g.counted(n));
            assert(g.flush().counted(n));
        },
        MdKind::Table => {
            let g = MdState { table: None, ..st };
            assert(g.counted(n));
            assert(g.flush().counted(n));
        },
        _ => {},
    }
}

/// An event raises no counter by more than one.
proof fn lemma_step_counted(st: MdState, event: MdEventView, set: SyntaxSet, n: nat)
    requires
        st.counted(n),
    ensures
        st.step(event, set).counted(n + 1),
{
    match event {
        MdEventView::Start(s) => {
            lemma_start_counted(st, s, n);
        },
        MdEventView::End(kind) => {
            lemma_end_counted(st, kind, set, n);
        },
        MdEventView::Text(text) => {
            lemma_item_prefix_counted(st, n);
            lemma_typed_counted(st.item_prefix(), text, 0, n);
        },
        _ => {
            lemma_item_prefix_counted(st, n);
        },
    }
}

impl Renderer {
    fn new(theme: Theme, width: usize) -> (r: Renderer)
        ensures
            r@ == MdState::initial(theme, width as nat),
    {
        let r = Renderer {
            theme,
            width,
            lines: Vec::new(),
            cur: Vec::new(),
            bold: 0,
            italic: 0,
            strike: 0,
            links: 0,
            images: Vec::new(),
            heading: None,
            quotes: 0,
            lists: Vec::new(),
            prefix: None,
            code: None,
            code_buf: String::new(),
            table: None,
            in_cell: false,
        };
        assert(r@ =~= MdState::initial(theme, width as nat));
        r
    }

    /// The style of text at this place.
    fn base_style(&self) -> (style: Style)
        ensures
            style == self@.base_style(),
    {
        let t = self.theme;
        if self.heading.is_some() {
            return Style::plain().fg(t.syntax_function).add_modifier(Modifier::bold());
        }
        let bold = if self.bold > 0 { Modifier::bold() } else { Modifier::empty() };
        if self.links > 0 {
            let italic = if self.italic > 0 { Modifier::italic() } else { Modifier::empty() };
            return Style::plain().fg(t.syntax_type).add_modifier(
                Modifier::underlined(),
            ).add_modifier(bold).add_modifier(italic);
        }
        assert(texts(self.images@).len() == self.images@.len());
        if self.images.len() > 0 {
            return Style::plain().fg(t.hint).add_modifier(Modifier::italic());
        }
        let italic = if self.italic > 0 || self.quotes > 0 {
            Modifier::italic()
        } else {
            Modifier::empty()
        };
        let strike = if self.strike > 0 { Modifier::crossed_out() } else { Modifier::empty() };
        Style::plain().fg(t.fg).add_modifier(bold).add_modifier(italic).add_modifier(strike)
    }

    fn push_span(&mut self, text: String, style: Style)
        ensures
            final(self)@ == old(self)@.with_span(text@, style),
    {
        broadcast use lemma_spans_push;

        self.cur.push(Span::styled(text, style));
        assert(self@ =~= old(self)@.with_span(text@, style));
    }

    fn push_line(&mut self, line: Line)
        ensures
            final(self)@ == old(self)@.with_line(line@),
    {
        broadcast use lemma_lines_push;

        self.lines.push(line);
        assert(self@ =~= old(self)@.with_line(line@));
    }

    /// Ends the line being filled.
    fn flush_cur(&mut self)
        ensures
            final(self)@ == old(self)@.flush(),
    {
        broadcast use {lemma_spans_push, lemma_lines_push};

        assert(spans_view(self.cur@).len() == self.cur@.len());
        if self.cur.len() == 0 {
            return;
        }
        let ghost cur = spans_view(self.cur@);
        let mut spans: Vec<Span> = Vec::new();
        assert(spans_view(spans@) =~= Seq::<SpanView>::empty());
        if self.quotes > 0 {
            let mut bars = repeat_char('▎', self.quotes as u128);
            bars.push(' ');
            spans.push(Span::styled(bars, Style::plain().fg(self.theme.hint)));
        }
        let ghost bars_view = spans_view(spans@);
        let ghost cur_spans = self.cur@;
        let ghost bar_spans = spans@;
        spans.append(&mut self.cur);
        assert(spans_view(spans@) =~= bars_view + cur);
        assert(spans_view(self.cur@) =~= Seq::<SpanView>::empty());
        self.lines.push(Line::from_spans(spans));
        assert(self@ =~= old(self)@.flush());
    }

    fn blank_line(&mut self)
        ensures
            final(self)@ == old(self)@.blank_line(),
    {
        self.flush_cur();
        let n = self.lines.len();
        assert(lines_view(self.lines@).len() == n);
        if n > 0 {
            assert(self@.lines.last() == self.lines@[n - 1]@);
            if width_of_line(&self.lines[n - 1]) != 0 {
                self.push_line(Line::blank());
            }
        }
    }

    /// Puts a pending list marker in front of the text that follows.
    fn ensure_item_prefix(&mut self)
        ensures
            final(self)@ == old(self)@.item_prefix(),
    {
        let prefix = self.prefix.take();
        if let Some(p) = prefix {
            assert(self@ =~= (MdState { prefix: None, ..old(self)@ }));
            assert(spans_view(self.cur@).len() == self.cur@.len());
            if self.cur.len() > 0 {
                self.push_span(" ".to_owned(), Style::plain());
            } else {
                let depth = self.lists.len();
                if depth > 1 {
                    let indent = repeat_char(' ', 2 * ((depth - 1) as u128));
                    self.push_span(indent, Style::plain());
                }
                let style = Style::plain().fg(self.theme.hint).add_modifier(Modifier::bold());
                self.push_span(p, style);
            }
        } else {
            assert(self@ =~= old(self)@);
        }
    }

    /// Types text, each newline ending a line.
    fn type_text(&mut self, text: &str)
        ensures
            final(self)@ == old(self)@.typed(text@, 0),
    {
        let cs = chars_of(text);
        let n = cs.len();
        let mut i: usize = 0;
        let mut open = true;
        while open
            invariant
                i <= n == cs@.len(),
                cs@ == text@,
                open ==> self@.typed(text@, i as int) == old(self)@.typed(text@, 0),
                !open ==> self@ == old(self)@.typed(text@, 0),
            decreases n - i + (if open { 1int } else { 0int }),
        {
            let end = find_char(&cs, i, '\n');
            if end > i {
                let style = self.base_style();
                self.push_span(text_of(&cs, i, end), style);
            }
            if end < n {
                self.flush_cur();
                i = end + 1;
            } else {
                open = false;
            }
        }
    }

    fn push_cell_text(&mut self, text: &str)
        requires
            old(self)@.cell_open(),
        ensures
            final(self)@ == old(self)@.with_cell(text@),
    {
        let table = self.table.take();
        if let Some(mut t) = table {
            t.cell.append(text);
            self.table = Some(t);
        }
        assert(self@ =~= old(self)@.with_cell(text@));
    }

    fn push_buf(&mut self, text: &str)
        ensures
            final(self)@ == (MdState { code_buf: old(self)@.code_buf + text@, ..old(self)@ }),
    {
        self.code_buf.append(text);
        assert(self@ =~= (MdState { code_buf: old(self)@.code_buf + text@, ..old(self)@ }));
    }

    fn push_text(&mut self, text: &str)
        ensures
            final(self)@ == old(self)@.push_text(text@),
    {
        if self.code.is_some() {
            self.push_buf(text);
        } else if self.table.is_some() && self.in_cell {
            self.push_cell_text(text);
        } else {
            self.ensure_item_prefix();
            self.type_text(text);
        }
    }

    fn push_code_inline(&mut self, code: &str)
        ensures
            final(self)@ == old(self)@.push_code(code@),
    {
        if self.code.is_some() {
            self.push_buf(code);
        } else if self.table.is_some() && self.in_cell {
            let quoted = "`".to_owned().concat(code).concat("`");
            self.push_cell_text(quoted.as_str());
        } else {
            self.ensure_item_prefix();
            let style = Style::plain().fg(self.theme.syntax_string).bg(self.theme.selection_bg);
            self.push_span(code.to_owned(), style);
        }
    }
}

fn shaded_blank(theme: Theme) -> (line: Line)
    ensures
        line@ == seq![shade(theme)],
{
    Line::of(Span::styled(" ".to_owned(), Style::plain().bg(theme.selection_bg)))
}

/// A line of a code block: its highlighted text and a shaded blank.
fn render_code_line(hl: &mut Highlighter, path: &str, text: &str, theme: Theme) -> (line: Line)
    requires
        old(hl).wf(),
    ensures
        final(hl).wf(),
        final(hl).grammars() == old(hl).grammars(),
        line@ == code_line(old(hl).grammars(), path@, text@, theme),
{
    broadcast use lemma_spans_push;

    if text.is_empty() {
        return shaded_blank(theme);
    }
    let tokens = hl.highlight_line(path, &None, text, theme);
    let ghost ts = tokens_view(tokens@);
    let ghost shown = ts.map_values(|t: TokenView| code_span(t, theme));
    let mut spans: Vec<Span> = Vec::new();
    let mut i: usize = 0;
    assert(spans_view(spans@) =~= shown.take(0));
    while i < tokens.len()
        invariant
            i <= tokens@.len(),
            ts == tokens_view(tokens@),
            shown == ts.map_values(|t: TokenView| code_span(t, theme)),
            spans_view(spans@) == shown.take(i as int),
        decreases tokens@.len() - i,
    {
        let t = &tokens[i];
        assert(ts[i as int] == t@);
        let shaded = Span::styled(
            t.text.clone(),
            Style::plain().fg(t.fg).bg(theme.selection_bg).add_modifier(t.modifier),
        );
        let ghost before = spans@;
        spans.push(shaded);
        assert(spans_view(spans@) == spans_view(before).push(shaded@)) by {
            lemma_spans_push(before, shaded);
        }
        assert(shown[i as int] == shaded@);
        assert(spans_view(spans@) =~= shown.take(i + 1));
        i += 1;
    }
    assert(shown.take(shown.len() as int) =~= shown);
    spans.push(Span::styled(" ".to_owned(), Style::plain().bg(theme.selection_bg)));
    Line::from_spans(spans)
}

/// The lines of a code block.
fn code_block_lines(hl: &mut Highlighter, lang: &str, buf: &str, theme: Theme) -> (out: Vec<Line>)
    requires
        old(hl).wf(),
    ensures
        final(hl).wf(),
        final(hl).grammars() == old(hl).grammars(),
        lines_view(out@) == code_block(old(hl).grammars(), lang@, buf@, theme),
{
    broadcast use lemma_lines_push;

    let ghost set = hl.grammars();
    let word = first_word_of(lang);
    let path = lang_to_path(word.as_str());
    let lines = split_lines(buf);
    let mut out: Vec<Line> = Vec::new();
    assert(lines_view(out@) =~= Seq::<Seq<SpanView>>::empty());
    out.push(shaded_blank(theme));
    let ghost head = seq![seq![shade(theme)]];
    let ghost body = texts(lines@).map_values(|l: Seq<char>| code_line(set, path@, l, theme));
    assert(lines_view(out@) =~= head);
    assert(head + body.take(0) =~= head);
    let mut i: usize = 0;
    while i < lines.len()
        invariant
            i <= lines@.len(),
            hl.wf(),
            hl.grammars() == set,
            body == texts(lines@).map_values(|l: Seq<char>| code_line(set, path@, l, theme)),
            lines_view(out@) == head + body.take(i as int),
        decreases lines@.len() - i,
    {
        let line = render_code_line(hl, path.as_str(), lines[i].as_str(), theme);
        assert(texts(lines@)[i as int] == lines@[i as int]@);
        assert(body[i as int] == line@);
        let ghost before = out@;
        out.push(line);
        assert(lines_view(out@) == lines_view(before).push(line@)) by {
            lemma_lines_push(before, line);
        }
        assert(body.take(i + 1) =~= body.take(i as int).push(line@));
        assert(lines_view(out@) =~= head + body.take(i + 1));
        i += 1;
    }
    assert(body.take(body.len() as int) =~= body);
    assert(texts(lines@).len() == lines@.len());
    if lines.len() == 0 {
        out.push(shaded_blank(theme));
        assert(lines_view(out@) =~= head + seq![seq![shade(theme)]]);
    }
    out.push(shaded_blank(theme));
    out.push(Line::blank());
    assert(lines_view(out@) =~= code_block(set, lang@, buf@, theme));
    out
}

impl Renderer {
    fn append_lines(&mut self, more: Vec<Line>)
        ensures
            final(self)@ == (MdState { lines: old(self)@.lines + lines_view(more@), ..old(self)@ }),
    {
        let mut more = more;
        let ghost added = lines_view(more@);
        self.lines.append(&mut more);
        assert(lines_view(self.lines@) =~= old(self)@.lines + added);
        assert(self@ =~= (MdState { lines: old(self)@.lines + added, ..old(self)@ }));
    }

    /// A shaded block with syntax colors.
    fn finish_code_block(&mut self, hl: &mut Highlighter)
        requires
            old(hl).wf(),
        ensures
            final(hl).wf(),
            final(hl).grammars() == old(hl).grammars(),
            final(self)@ == old(self)@.finish_code(old(hl).grammars()),
    {
        let lang = match self.code.take() {
            Some(l) => l,
            None => String::new(),
        };
        let mut buf = String::new();
        std::mem::swap(&mut buf, &mut self.code_buf);
        assert(lang@ =~= match old(self)@.code {
            Some(l) => l,
            None => Seq::empty(),
        });
        assert(self@ =~= (MdState { code: None, code_buf: Seq::empty(), ..old(self)@ }));
        self.flush_cur();
        let lines = code_block_lines(hl, lang.as_str(), buf.as_str(), self.theme);
        self.append_lines(lines);
    }

    /// A boxed table fitted to the width, so that no row of it wraps.
    fn finish_table(&mut self)
        ensures
            final(self)@ == old(self)@.finish_table(),
            table_fits(old(self)@, final(self)@),
    {
        let table = self.table.take();
        match table {
            Some(t) => {
                assert(self@ =~= (MdState { table: None, ..old(self)@ }));
                self.flush_cur();
                let lines = table_lines(&t.table, self.width, self.theme);
                let ghost before = self@.lines;
                let ghost added = lines@;
                self.append_lines(lines);
                assert forall|i: int|
                    6 * t.table@.columns() + 1 <= old(self)@.width && before.len() <= i
                        < self@.lines.len() implies line_width(#[trigger] self@.lines[i])
                    <= old(self)@.width by {
                    assert(self@.lines[i] == lines_view(added)[i - before.len()]);
                    assert(lines_view(added)[i - before.len()] == added[i - before.len()]@);
                }
            },
            None => {
                assert(self@ =~= old(self)@);
            },
        }
    }
}

fn copy_aligns(aligns: &Vec<Alignment>) -> (out: Vec<Alignment>)
    ensures
        out@ == aligns@,
{
    let mut out: Vec<Alignment> = Vec::new();
    let mut i: usize = 0;
    while i < aligns.len()
        invariant
            i <= aligns@.len(),
            out@ == aligns@.take(i as int),
        decreases aligns@.len() - i,
    {
        out.push(aligns[i]);
        assert(aligns@.take(i + 1) =~= aligns@.take(i as int).push(aligns@[i as int]));
        i += 1;
    }
    assert(aligns@.take(aligns@.len() as int) =~= aligns@);
    out
}

/// Whether the lines of a table that was finished fit into the width, if that
/// has room for three columns and their borders per column of the table.
pub open spec fn table_fits(before: MdState, after: MdState) -> bool {
    before.table matches Some(t) ==> (6 * t.table.columns() + 1 <= before.width ==> forall|i: int|
        before.before_table().lines.len() <= i < after.lines.len() ==> line_width(
            #[trigger] after.lines[i],
        ) <= before.width)
}

impl Renderer {
    /// The marker of the next item of the innermost list.
    fn marker(&self) -> (out: String)
        ensures
            out@ == self@.marker(),
    {
        let n = self.lists.len();
        if n > 0 && self.lists[n - 1].ordered {
            number_text(self.lists[n - 1].next_num).concat(". ")
        } else {
            "• ".to_owned()
        }
    }

    /// Starts a table: no header, no rows.
    fn start_table(&mut self, aligns: &Vec<Alignment>)
        ensures
            final(self)@ == (MdState {
                table: Some(
                    BuildView {
                        table: TableView {
                            headers: Seq::empty(),
                            rows: Seq::empty(),
                            aligns: aligns@,
                        },
                        row: Seq::empty(),
                        cell: Seq::empty(),
                    },
                ),
                ..old(self)@
            }),
    {
        let build = TableBuild {
            table: Table { headers: Vec::new(), rows: Vec::new(), aligns: copy_aligns(aligns) },
            row: Vec::new(),
            cell: String::new(),
        };
        assert(build@ =~= BuildView {
            table: TableView { headers: Seq::empty(), rows: Seq::empty(), aligns: aligns@ },
            row: Seq::empty(),
            cell: Seq::empty(),
        });
        self.table = Some(build);
        assert(self@ =~= (MdState { table: Some(build@), ..old(self)@ }));
    }

    /// Starts the header, a row or a cell of the table.
    fn start_table_part(&mut self, kind: MdKind)
        requires
            kind == MdKind::TableHead || kind == MdKind::TableRow || kind == MdKind::TableCell,
        ensures
            final(self)@ == old(self)@.start(
                MdStartView { kind, text: Seq::empty(), number: None, aligns: Seq::empty() },
            ),
    {
        let table = self.table.take();
        match table {
            Some(mut t) => {
                let ghost before = t@;
                if kind == MdKind::TableCell {
                    t.cell = String::new();
                    self.in_cell = true;
                    assert(t@ =~= (BuildView { cell: Seq::empty(), ..before }));
                } else {
                    t.row = Vec::new();
                    assert(t@ =~= (BuildView { row: Seq::empty(), ..before }));
                }
                self.table = Some(t);
            },
            None => {},
        }
        assert(self@ =~= old(self)@.start(
            MdStartView { kind, text: Seq::empty(), number: None, aligns: Seq::empty() },
        ));
    }

    fn push_image(&mut self, target: &str)
        ensures
            final(self)@ == (MdState { images: old(self)@.images.push(target@), ..old(self)@ }),
    {
        self.images.push(target.to_owned());
        assert(self@ =~= (MdState { images: old(self)@.images.push(target@), ..old(self)@ }));
    }

    /// What the start of an element does.
    fn start(&mut self, start: &MdStart, Ghost(n): Ghost<nat>)
        requires
            old(self)@.counted(n),
            n < usize::MAX,
        ensures
            final(self)@ == old(self)@.start(start@),
    {
        let kind = start.kind;
        match kind {
            MdKind::Paragraph => self.flush_cur(),
            MdKind::Heading(level) => {
                self.flush_cur();
                self.heading = Some(level);
            },
            MdKind::BlockQuote => {
                self.flush_cur();
                self.quotes += 1;
            },
            MdKind::CodeBlock => {
                self.flush_cur();
                self.code = Some(start.text.clone());
                self.code_buf = String::new();
            },
            MdKind::List => {
                self.flush_cur();
                let first: u128 = match start.number {
                    Some(k) => k as u128,
                    None => 1,
                };
                self.lists.push(ListCtx { ordered: start.number.is_some(), next_num: first });
            },
            MdKind::Item => {
                let marker = self.marker();
                self.flush_cur();
                self.prefix = Some(marker);
            },
            MdKind::Emphasis => self.italic += 1,
            MdKind::Strong => self.bold += 1,
            MdKind::Strikethrough => self.strike += 1,
            MdKind::Link => self.links += 1,
            MdKind::Image => {
                self.ensure_item_prefix();
                let hint = Style::plain().fg(self.theme.hint);
                self.push_span("🖼 ".to_owned(), hint);
                self.push_image(start.text.as_str());
            },
            MdKind::Table => {
                self.flush_cur();
                self.start_table(&start.aligns);
            },
            MdKind::TableHead | MdKind::TableRow | MdKind::TableCell => {
                self.start_table_part(kind);
            },
            MdKind::FootnoteDefinition => {
                self.flush_cur();
                let style = Style::plain().fg(self.theme.syntax_type).add_modifier(
                    Modifier::bold(),
                );
                let mark = "[^".to_owned().concat(start.text.as_str()).concat("] ");
                self.push_span(mark, style);
            },
            MdKind::Other => {},
        }
        assert(self@ =~= old(self)@.start(start@));
    }

    /// Ends the header, a row or a cell of the table.
    fn end_table_part(&mut self, kind: MdKind, Ghost(set): Ghost<SyntaxSet>)
        requires
            kind == MdKind::TableHead || kind == MdKind::TableRow || kind == MdKind::TableCell,
        ensures
            final(self)@ == old(self)@.end(kind, set),
    {
        let table = self.table.take();
        match table {
            Some(mut t) => {
                let ghost before = t@;
                if kind == MdKind::TableCell {
                    let mut cell = String::new();
                    std::mem::swap(&mut cell, &mut t.cell);
                    t.row.push(cell);
                    self.in_cell = false;
                    assert(t@ =~= (BuildView {
                        row: before.row.push(before.cell),
                        cell: Seq::empty(),
                        ..before
                    }));
                } else {
                    let mut row: Vec<String> = Vec::new();
                    std::mem::swap(&mut row, &mut t.row);
                    if kind == MdKind::TableHead {
                        t.table.headers = row;
                        assert(t@ =~= (BuildView {
                            table: TableView { headers: before.row, ..before.table },
                            row: Seq::empty(),
                            ..before
                        }));
                    } else {
                        t.table.rows.push(row);
                        assert(rows_view(t.table.rows@) =~= before.table.rows.push(before.row));
                        assert(t@ =~= (BuildView {
                            table: TableView {
                                rows: before.table.rows.push(before.row),
                                ..before.table
                            },
                            row: Seq::empty(),
                            ..before
                        }));
                    }
                }
                self.table = Some(t);
            },
            None => {},
        }
        assert(self@ =~= old(self)@.end(kind, set));
    }

    /// The length of the border under a first or second level heading.
    fn heading_border(&self) -> (w: usize)
        ensures
            w == self@.heading_border(),
    {
        let n = self.lines.len();
        let last: u128 = if n > 0 {
            assert(self@.lines.last() == self.lines@[n - 1]@);
            width_of_line(&self.lines[n - 1])
        } else {
            0
        };
        let width = self.width;
        let cap: usize = if width < 24 { 24 } else { width };
        let base: usize = if width < 24 {
            24
        } else if width > 120 {
            120
        } else {
            width
        };
        if last > base as u128 {
            if last < cap as u128 {
                last as usize
            } else {
                cap
            }
        } else {
            base
        }
    }

    fn push_rule(&mut self, w: usize)
        ensures
            final(self)@ == old(self)@.with_rule(w as nat),
    {
        let style = Style::plain().fg(self.theme.line_nr);
        self.push_line(Line::of(Span::styled(repeat_char('─', w as u128), style)));
    }

    fn end_image(&mut self, Ghost(set): Ghost<SyntaxSet>)
        ensures
            final(self)@ == old(self)@.end(MdKind::Image, set),
    {
        let src = self.images.pop();
        match src {
            Some(src) => {
                assert(texts(self.images@) =~= old(self)@.images.drop_last());
                assert(old(self)@.images.last() == src@);
                assert(self@ =~= (MdState {
                    images: old(self)@.images.drop_last(),
                    ..old(self)@
                }));
                if !src.as_str().is_empty() {
                    let caption = " (".to_owned().concat(src.as_str()).concat(")");
                    let hint = Style::plain().fg(self.theme.hint);
                    self.push_span(caption, hint);
                }
            },
            None => {
                assert(self@ =~= old(self)@);
            },
        }
    }

    fn end_item(&mut self, Ghost(n): Ghost<nat>, Ghost(set): Ghost<SyntaxSet>)
        requires
            old(self)@.counted(n),
            n < usize::MAX,
        ensures
            final(self)@ == old(self)@.end(MdKind::Item, set),
    {
        self.flush_cur();
        let k = self.lists.len();
        if k > 0 && self.lists[k - 1].ordered {
            let last = self.lists.pop();
            if let Some(ctx) = last {
                assert(old(self)@.lists[k - 1].next_num <= u64::MAX + n);
                self.lists.push(ListCtx { ordered: true, next_num: ctx.next_num + 1 });
            }
        }
        self.prefix = None;
        assert(self@ =~= old(self)@.end(MdKind::Item, set));
    }

    /// What the end of an element does.
    fn end(&mut self, kind: MdKind, hl: &mut Highlighter, Ghost(n): Ghost<nat>)
        requires
            old(self)@.counted(n),
            n < usize::MAX,
            old(hl).wf(),
        ensures
            final(hl).wf(),
            final(hl).grammars() == old(hl).grammars(),
            final(self)@ == old(self)@.end(kind, old(hl).grammars()),
    {
        let ghost set = hl.grammars();
        match kind {
            MdKind::Paragraph => self.blank_line(),
            MdKind::Heading(level) => {
                self.flush_cur();
                self.heading = None;
                assert(self@ =~= (MdState { heading: None, ..old(self)@.flush() }));
                if level <= 2 {
                    let w = self.heading_border();
                    self.push_rule(w);
                }
                self.push_line(Line::blank());
            },
            MdKind::BlockQuote => {
                self.flush_cur();
                if self.quotes > 0 {
                    self.quotes -= 1;
                }
                assert(self@ =~= (MdState {
                    quotes: pred(old(self)@.quotes),
                    ..old(self)@.flush()
                }));
                self.push_line(Line::blank());
            },
            MdKind::CodeBlock => self.finish_code_block(hl),
            MdKind::List => {
                self.flush_cur();
                let _ = self.lists.pop();
                assert(self@ =~= (MdState {
                    lists: if old(self)@.lists.len() > 0 {
                        old(self)@.lists.drop_last()
                    } else {
                        old(self)@.lists
                    },
                    ..old(self)@.flush()
                }));
                self.push_line(Line::blank());
            },
            MdKind::Item => self.end_item(Ghost(n), Ghost(set)),
            MdKind::Emphasis => {
                if self.italic > 0 {
                    self.italic -= 1;
                }
            },
            MdKind::Strong => {
                if self.bold > 0 {
                    self.bold -= 1;
                }
            },
            MdKind::Strikethrough => {
                if self.strike > 0 {
                    self.strike -= 1;
                }
            },
            MdKind::Link => {
                if self.links > 0 {
                    self.links -= 1;
                }
            },
            MdKind::Image => self.end_image(Ghost(set)),
            MdKind::Table => self.finish_table(),
            MdKind::TableHead | MdKind::TableRow | MdKind::TableCell => {
                self.end_table_part(kind, Ghost(set));
            },
            MdKind::FootnoteDefinition | MdKind::Other => {},
        }
        assert(self@ =~= old(self)@.end(kind, set));
    }

    fn soft_break(&mut self)
        ensures
            final(self)@ == old(self)@.soft_break(),
    {
        if self.code.is_some() {
            self.code_buf.push('\n');
            assert(self@ =~= old(self)@.soft_break());
        } else if self.table.is_some() && self.in_cell {
            let mut blank = String::new();
            blank.push(' ');
            assert(blank@ =~= seq![' ']);
            self.push_cell_text(blank.as_str());
        } else {
            self.push_span(" ".to_owned(), Style::plain());
        }
    }

    /// What one event does.
    fn step(&mut self, event: &MdEvent, hl: &mut Highlighter, Ghost(n): Ghost<nat>)
        requires
            old(self)@.counted(n),
            n < usize::MAX,
            old(hl).wf(),
        ensures
            final(hl).wf(),
            final(hl).grammars() == old(hl).grammars(),
            final(self)@ == old(self)@.step(event@, old(hl).grammars()),
    {
        match event {
            MdEvent::Start(start) => self.start(start, Ghost(n)),
            MdEvent::End(kind) => self.end(*kind, hl, Ghost(n)),
            MdEvent::Text(text) => self.push_text(text.as_str()),
            MdEvent::Code(code) => self.push_code_inline(code.as_str()),
            MdEvent::Html(html) => {
                self.ensure_item_prefix();
                let hint = Style::plain().fg(self.theme.hint);
                self.push_span(html.clone(), hint);
            },
            MdEvent::SoftBreak => self.soft_break(),
            MdEvent::HardBreak => {
                if self.code.is_some() {
                    self.code_buf.push('\n');
                    assert(self@ =~= (MdState {
                        code_buf: old(self)@.code_buf.push('\n'),
                        ..old(self)@
                    }));
                } else {
                    self.flush_cur();
                }
            },
            MdEvent::Rule => {
                self.flush_cur();
                let width = self.width;
                let w: usize = if width < 24 {
                    24
                } else if width > 160 {
                    160
                } else {
                    width
                };
                self.push_rule(w);
                self.push_line(Line::blank());
            },
            MdEvent::TaskListMarker(checked) => {
                self.prefix = Some(if *checked { "☑ ".to_owned() } else { "☐ ".to_owned() });
                assert(self@ =~= old(self)@.step(event@, old(hl).grammars()));
            },
            MdEvent::FootnoteReference(name) => {
                self.ensure_item_prefix();
                let style = Style::plain().fg(self.theme.syntax_type).add_modifier(
                    Modifier::underlined(),
                );
                let mark = "[^".to_owned().concat(name.as_str()).concat("]");
                self.push_span(mark, style);
            },
            MdEvent::Other => {},
        }
    }
}

/// Styles Markdown events into lines, not yet wrapped. `width` sizes rules
/// and fits tables.
pub fn render_events(
    hl: &mut Highlighter,
    events: &Vec<MdEvent>,
    theme: Theme,
    width: usize,
) -> (lines: Vec<Line>)
    requires
        old(hl).wf(),
    ensures
        final(hl).wf(),
        final(hl).grammars() == old(hl).grammars(),
        lines_view(lines@) == document_lines(
            events_view(events@),
            theme,
            width as nat,
            old(hl).grammars(),
        ),
{
    let ghost set = hl.grammars();
    let ghost evs = events_view(events@);
    let ghost init = MdState::initial(theme, width as nat);
    let mut r = Renderer::new(theme, width);
    let mut i: usize = 0;
    while i < events.len()
        invariant
            i <= events@.len(),
            hl.wf(),
            hl.grammars() == set,
            evs == events_view(events@),
            r@ == init.after(evs, i as nat, set),
            r@.counted(i as nat),
        decreases events@.len() - i,
    {
        assert(evs[i as int] == events@[i as int]@);
        proof {
            lemma_step_counted(r@, events@[i as int]@, set, i as nat);
        }
        r.step(&events[i], hl, Ghost(i as nat));
        i += 1;
    }
    r.flush_cur();
    let mut lines = r.lines;
    let ghost done = lines_view(lines@);
    assert(done == init.after(evs, evs.len(), set).flush().lines);
    let mut open = true;
    while open
        invariant
            open ==> without_trailing_blank(lines_view(lines@)) == without_trailing_blank(done),
            !open ==> lines_view(lines@) == without_trailing_blank(done),
        decreases lines@.len() + (if open { 1int } else { 0int }),
    {
        let n = lines.len();
        assert(lines_view(lines@).len() == n);
        if n > 0 {
            assert(lines_view(lines@).last() == lines@[n - 1]@);
        }
        if n > 0 && width_of_line(&lines[n - 1]) == 0 {
            let ghost before = lines@;
            let _ = lines.pop();
            assert(lines_view(lines@) =~= lines_view(before).drop_last());
        } else {
            open = false;
        }
    }
    assert(lines_view(lines@).len() == lines@.len());
    if lines.len() == 0 {
        let hint = Style::plain().fg(theme.hint);
        lines.push(Line::of(Span::styled("(empty markdown file)".to_owned(), hint)));
        assert(lines_view(lines@) =~= seq![seq![span("(empty markdown file)"@, hint)]]);
    }
    lines
}

/// Parses and styles Markdown into lines, not yet wrapped.
pub fn parse_markdown(hl: &mut Highlighter, text: &str, theme: Theme, width: usize) -> (lines: Vec<
    Line,
>)
    requires
        old(hl).wf(),
    ensures
        final(hl).wf(),
        final(hl).grammars() == old(hl).grammars(),
        lines_view(lines@) == document_lines(
            cmark_events(text@, preview_options()),
            theme,
            width as nat,
            old(hl).grammars(),
        ),
{
    let events = markdown_events(text);
    render_events(hl, &events, theme, width)
}

} // verus!
