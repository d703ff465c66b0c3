//! Terminal styling as plain values: colors, modifiers, spans and lines.

use vstd::prelude::*;

verus! {

/// A terminal color.
#[derive(Clone, Copy, Debug, PartialEq, Eq, Hash, Structural)]
pub enum Color {
    Reset,
    Black,
    Red,
    Green,
    Yellow,
    Blue,
    Magenta,
    Cyan,
    Gray,
    DarkGray,
    LightRed,
    LightGreen,
    LightYellow,
    LightBlue,
    LightMagenta,
    LightCyan,
    White,
    Rgb(u8, u8, u8),
    Indexed(u8),
}

/// Text attributes that a style switches on.
#[derive(Clone, Copy, Debug, PartialEq, Eq, Hash, Structural)]
pub struct Modifier {
    pub bold: bool,
    pub dim: bool,
    pub italic: bool,
    pub underlined: bool,
    pub reversed: bool,
    pub crossed_out: bool,
}

impl Modifier {
    #[verifier::allow_in_spec]
    pub fn empty() -> Modifier
        returns
            (Modifier {
                bold: false,
                dim: false,
                italic: false,
                underlined: false,
                reversed: false,
                crossed_out: false,
            }),
    {
        Modifier {
            bold: false,
            dim: false,
            italic: false,
            underlined: false,
            reversed: false,
            crossed_out: false,
        }
    }

    #[verifier::allow_in_spec]
    pub fn bold() -> Modifier
        returns
            (Modifier { bold: true, ..Modifier::empty() }),
    {
        Modifier { bold: true, ..Modifier::empty() }
    }

    #[verifier::allow_in_spec]
    pub fn italic() -> Modifier
        returns
            (Modifier { italic: true, ..Modifier::empty() }),
    {
        Modifier { italic: true, ..Modifier::empty() }
    }

    #[verifier::allow_in_spec]
    pub fn underlined() -> Modifier
        returns
            (Modifier { underlined: true, ..Modifier::empty() }),
    {
        Modifier { underlined: true, ..Modifier::empty() }
    }

    #[verifier::allow_in_spec]
    pub fn crossed_out() -> Modifier
        returns
            (Modifier { crossed_out: true, ..Modifier::empty() }),
    {
        Modifier { crossed_out: true, ..Modifier::empty() }
    }

    /// Every attribute that either side has.
    #[verifier::allow_in_spec]
    pub fn union(self, other: Modifier) -> Modifier
        returns
            (Modifier {
                bold: self.bold || other.bold,
                dim: self.dim || other.dim,
                italic: self.italic || other.italic,
                underlined: self.underlined || other.underlined,
                reversed: self.reversed || other.reversed,
                crossed_out: self.crossed_out || other.crossed_out,
            }),
    {
        Modifier {
            bold: self.bold || other.bold,
            dim: self.dim || other.dim,
            italic: self.italic || other.italic,
            underlined: self.underlined || other.underlined,
            reversed: self.reversed || other.reversed,
            crossed_out: self.crossed_out || other.crossed_out,
        }
    }
}

/// Foreground, background and attributes of a run of text.
#[derive(Clone, Copy, Debug, PartialEq, Eq, Hash, Structural)]
pub struct Style {
    pub fg: Option<Color>,
    pub bg: Option<Color>,
    pub modifier: Modifier,
}

impl Style {
    /// No color and no attribute.
    #[verifier::allow_in_spec]
    pub fn plain() -> Style
        returns
            (Style { fg: None, bg: None, modifier: Modifier::empty() }),
    {
        Style { fg: None, bg: None, modifier: Modifier::empty() }
    }

    #[verifier::allow_in_spec]
    pub fn fg(self, color: Color) -> Style
        returns
            (Style { fg: Some(color), ..self }),
    {
        Style { fg: Some(color), ..self }
    }

    #[verifier::allow_in_spec]
    pub fn bg(self, color: Color) -> Style
        returns
            (Style { bg: Some(color), ..self }),
    {
        Style { bg: Some(color), ..self }
    }

    #[verifier::allow_in_spec]
    pub fn add_modifier(self, modifier: Modifier) -> Style
        returns
            (Style { modifier: self.modifier.union(modifier), ..self }),
    {
        Style { modifier: self.modifier.union(modifier), ..self }
    }
}

/// A run of text in one style.
#[derive(Clone, Debug)]
pub struct Span {
    pub text: String,
    pub style: Style,
}

/// What a [`Span`] holds: its characters and its style.
#[verifier::ext_equal]
pub struct SpanView {
    pub text: Seq<char>,
    pub style: Style,
}

impl View for Span {
    type V = SpanView;

    open spec fn view(&self) -> SpanView {
        SpanView { text: self.text@, style: self.style }
    }
}

/// What a list of spans holds.
pub open spec fn spans_view(spans: Seq<Span>) -> Seq<SpanView> {
    spans.map_values(|s: Span| s@)
}

impl Span {
    pub fn styled(text: String, style: Style) -> (span: Span)
        ensures
            span@ == (SpanView { text: text@, style }),
    {
        Span { text, style }
    }

    pub fn raw(text: String) -> (span: Span)
        ensures
            span@ == (SpanView { text: text@, style: Style::plain() }),
    {
        Span { text, style: Style::plain() }
    }
}

/// One line of styled text.
#[derive(Clone, Debug)]
pub struct Line {
    pub spans: Vec<Span>,
}

impl View for Line {
    type V = Seq<SpanView>;

    open spec fn view(&self) -> Seq<SpanView> {
        spans_view(self.spans@)
    }
}

/// What a list of lines holds.
pub open spec fn lines_view(lines: Seq<Line>) -> Seq<Seq<SpanView>> {
    lines.map_values(|l: Line| l@)
}

impl Line {
    /// A line with nothing on it.
    pub fn blank() -> (line: Line)
        ensures
            line@ == Seq::<SpanView>::empty(),
    {
        let line = Line { spans: Vec::new() };
        assert(line@ =~= Seq::<SpanView>::empty());
        line
    }

    /// A line of one span.
    pub fn of(span: Span) -> (line: Line)
        ensures
            line@ == seq![span@],
    {
        let mut spans: Vec<Span> = Vec::new();
        spans.push(span);
        let line = Line { spans };
        assert(line@ =~= seq![span@]);
        line
    }

    pub fn from_spans(spans: Vec<Span>) -> (line: Line)
        ensures
            line@ == spans_view(spans@),
    {
        Line { spans }
    }
}

/// Appending a span appends what it holds.
pub broadcast proof fn lemma_spans_push(spans: Seq<Span>, span: Span)
    ensures
        #[trigger] spans_view(spans.push(span)) == spans_view(spans).push(span@),
{
    assert(spans_view(spans.push(span)) =~= spans_view(spans).push(span@));
}

/// Appending a line appends what it holds.
pub broadcast proof fn lemma_lines_push(lines: Seq<Line>, line: Line)
    ensures
        #[trigger] lines_view(lines.push(line)) == lines_view(lines).push(line@),
{
    assert(lines_view(lines.push(line)) =~= lines_view(lines).push(line@));
}

} // verus!
