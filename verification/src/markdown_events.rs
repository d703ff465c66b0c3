//! Markdown as a flat list of events, read with `pulldown-cmark`.

use pulldown_cmark::{CodeBlockKind, Event, Options, Parser, Tag, TagEnd};
use vstd::prelude::*;

verus! {

/// `pulldown_cmark::Event`.
#[verifier::external_type_specification]
#[verifier::external_body]
pub struct ExEvent<'a>(pulldown_cmark::Event<'a>);

/// `pulldown_cmark::Tag`.
#[verifier::external_type_specification]
#[verifier::external_body]
pub struct ExTag<'a>(pulldown_cmark::Tag<'a>);

/// `pulldown_cmark::TagEnd`.
#[verifier::external_type_specification]
#[verifier::external_body]
pub struct ExTagEnd(pulldown_cmark::TagEnd);

/// How a table column is aligned.
#[derive(Clone, Copy, Debug, PartialEq, Eq, Structural)]
pub enum Alignment {
    Unset,
    Left,
    Center,
    Right,
}

/// What an element is.
#[derive(Clone, Copy, Debug, PartialEq, Eq, Structural)]
pub enum MdKind {
    Paragraph,
    Heading(u32),
    BlockQuote,
    CodeBlock,
    List,
    Item,
    FootnoteDefinition,
    Table,
    TableHead,
    TableRow,
    TableCell,
    Emphasis,
    Strong,
    Strikethrough,
    Link,
    Image,
    Other,
}

/// The start of an element. `text` is the info string of a fenced code block,
/// the target of an image or the name of a footnote; `number` the first number
/// of an ordered list; `aligns` the columns of a table.
#[derive(Debug)]
pub struct MdStart {
    pub kind: MdKind,
    pub text: String,
    pub number: Option<u64>,
    pub aligns: Vec<Alignment>,
}

/// One step through a Markdown document.
#[derive(Debug)]
pub enum MdEvent {
    Start(MdStart),
    End(MdKind),
    Text(String),
    Code(String),
    Html(String),
    SoftBreak,
    HardBreak,
    Rule,
    TaskListMarker(bool),
    FootnoteReference(String),
    Other,
}

/// What a [`MdStart`] holds.
#[verifier::ext_equal]
pub struct MdStartView {
    pub kind: MdKind,
    pub text: Seq<char>,
    pub number: Option<u64>,
    pub aligns: Seq<Alignment>,
}

/// What a [`MdEvent`] holds.
#[verifier::ext_equal]
pub enum MdEventView {
    Start(MdStartView),
    End(MdKind),
    Text(Seq<char>),
    Code(Seq<char>),
    Html(Seq<char>),
    SoftBreak,
    HardBreak,
    Rule,
    TaskListMarker(bool),
    FootnoteReference(Seq<char>),
    Other,
}

impl View for MdStart {
    type V = MdStartView;

    open spec fn view(&self) -> MdStartView {
        MdStartView {
            kind: self.kind,
            text: self.text@,
            number: self.number,
            aligns: self.aligns@,
        }
    }
}

impl View for MdEvent {
    type V = MdEventView;

    open spec fn view(&self) -> MdEventView {
        match *self {
            MdEvent::Start(start) => MdEventView::Start(start@),
            MdEvent::End(kind) => MdEventView::End(kind),
            MdEvent::Text(text) => MdEventView::Text(text@),
            MdEvent::Code(text) => MdEventView::Code(text@),
            MdEvent::Html(text) => MdEventView::Html(text@),
            MdEvent::SoftBreak => MdEventView::SoftBreak,
            MdEvent::HardBreak => MdEventView::HardBreak,
            MdEvent::Rule => MdEventView::Rule,
            MdEvent::TaskListMarker(checked) => MdEventView::TaskListMarker(checked),
            MdEvent::FootnoteReference(name) => MdEventView::FootnoteReference(name@),
            MdEvent::Other => MdEventView::Other,
        }
    }
}

/// What a list of events holds.
pub open spec fn events_view(events: Seq<MdEvent>) -> Seq<MdEventView> {
    events.map_values(|e: MdEvent| e@)
}

/// The Markdown extensions to read.
#[derive(Clone, Copy, Debug, PartialEq, Eq, Structural)]
pub struct MdOptions {
    pub tables: bool,
    pub footnotes: bool,
    pub strikethrough: bool,
    pub tasklists: bool,
    pub smart_punctuation: bool,
    pub heading_attributes: bool,
}

/// The events of a Markdown text under the given extensions.
pub uninterp spec fn cmark_events(text: Seq<char>, options: MdOptions) -> Seq<MdEventView>;

/// Converts `pulldown_cmark::TagEnd`, which also tells the kind of a start
/// tag (`Tag::to_end`). Nothing is claimed of it on its own.
#[verifier::external_body]
fn md_kind(end: TagEnd) -> (kind: MdKind)
{
    match end {
        TagEnd::Paragraph => MdKind::Paragraph, TagEnd::Heading(l) => MdKind::Heading(l as u32),
        TagEnd::BlockQuote(_) => MdKind::BlockQuote, TagEnd::CodeBlock => MdKind::CodeBlock,
        TagEnd::List(_) => MdKind::List, TagEnd::Item => MdKind::Item,
        TagEnd::FootnoteDefinition => MdKind::FootnoteDefinition, TagEnd::Table => MdKind::Table,
        TagEnd::TableHead => MdKind::TableHead, TagEnd::TableRow => MdKind::TableRow,
        TagEnd::TableCell => MdKind::TableCell, TagEnd::Emphasis => MdKind::Emphasis,
        TagEnd::Strong => MdKind::Strong, TagEnd::Strikethrough => MdKind::Strikethrough,
        TagEnd::Link => MdKind::Link, TagEnd::Image => MdKind::Image,
        _ => MdKind::Other,
    }
}

/// Converts `pulldown_cmark::Tag`. Nothing is claimed of it on its own.
#[verifier::external_body]
fn md_start(tag: Tag<'_>) -> (start: MdStart)
{
    let kind = md_kind(tag.to_end());
    let (mut text, mut number, mut aligns) = (String::new(), None, Vec::new());
    match tag {
        Tag::CodeBlock(CodeBlockKind::Fenced(t)) => text = t.to_string(),
        Tag::FootnoteDefinition(t) | Tag::Image { dest_url: t, .. } => text = t.to_string(),
        Tag::List(n) => number = n,
        Tag::Table(list) => aligns = list.into_iter().map(|a| match a {
            pulldown_cmark::Alignment::None => Alignment::Unset,
            pulldown_cmark::Alignment::Left => Alignment::Left,
            pulldown_cmark::Alignment::Center => Alignment::Center,
            pulldown_cmark::Alignment::Right => Alignment::Right,
        }).collect(),
        _ => {}
    }
    MdStart { kind, text, number, aligns }
}

/// Converts `pulldown_cmark::Event`. Nothing is claimed of it on its own.
#[verifier::external_body]
fn md_event(event: Event<'_>) -> (out: MdEvent)
{
    match event {
        Event::Start(tag) => MdEvent::Start(md_start(tag)),
        Event::End(end) => MdEvent::End(md_kind(end)),
        Event::Text(t) => MdEvent::Text(t.to_string()),
        Event::Code(t) => MdEvent::Code(t.to_string()),
        Event::Html(t) => MdEvent::Html(t.to_string()),
        Event::SoftBreak => MdEvent::SoftBreak,
        Event::HardBreak => MdEvent::HardBreak,
        Event::Rule => MdEvent::Rule,
        Event::TaskListMarker(checked) => MdEvent::TaskListMarker(checked),
        Event::FootnoteReference(t) => MdEvent::FootnoteReference(t.to_string()),
        _ => MdEvent::Other,
    }
}

/// `pulldown_cmark::Parser::new_ext` over the whole text, each event
/// converted: a function of the text and the extensions.
#[verifier::external_body]
fn parse_events(text: &str, options: MdOptions) -> (events: Vec<MdEvent>)
    ensures
        events_view(events@) == cmark_events(text@, options),
{
    let mut o = Options::empty();
    o.set(Options::ENABLE_TABLES, options.tables);
    o.set(Options::ENABLE_FOOTNOTES, options.footnotes);
    o.set(Options::ENABLE_STRIKETHROUGH, options.strikethrough);
    o.set(Options::ENABLE_TASKLISTS, options.tasklists);
    o.set(Options::ENABLE_SMART_PUNCTUATION, options.smart_punctuation);
    o.set(Options::ENABLE_HEADING_ATTRIBUTES, options.heading_attributes);
    Parser::new_ext(text, o).map(md_event).collect()
}

/// The extensions of the preview: all that a browser shows.
#[verifier::allow_in_spec]
pub fn preview_options() -> MdOptions
    returns
        (MdOptions {
            tables: true,
            footnotes: true,
            strikethrough: true,
            tasklists: true,
            smart_punctuation: true,
            heading_attributes: true,
        }),
{
    MdOptions {
        tables: true,
        footnotes: true,
        strikethrough: true,
        tasklists: true,
        smart_punctuation: true,
        heading_attributes: true,
    }
}

/// The events of a Markdown text, for the preview.
pub fn markdown_events(text: &str) -> (events: Vec<MdEvent>)
    ensures
        events_view(events@) == cmark_events(text@, preview_options()),
{
    parse_events(text, preview_options())
}

} // verus!
