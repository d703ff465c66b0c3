//! Syntax highlighting for the file viewer, on top of `syntect`'s grammars
//! and a theme derived from the app's palette. TOML, which has no grammar
//! there, has a highlighter of its own.

use crate::style::{Color, Modifier};
use crate::text::{
    after_last, ends_with, lower, lower_text, opt_text, same_text, text_after_last, text_ends_with,
    texts,
};
use crate::theme::Theme;
use crate::toml_highlight::{
    comment_start, highlight_toml_line, joined, law_toml_keeps_text, repeats_white, toml_tokens,
    tokens_view, HiToken, TokenView,
};
use std::str::FromStr;
use syntect::easy::HighlightLines;
use syntect::highlighting::{
    FontStyle, ScopeSelectors, StyleModifier, Theme as SynTheme, ThemeItem, ThemeSettings,
};
use syntect::parsing::SyntaxSet;
use vstd::prelude::*;
use vstd::string::*;
use vstd::utf8::encode_utf8;

verus! {

/// A set of `syntect` grammars.
#[verifier::external_type_specification]
#[verifier::external_body]
pub struct ExSyntaxSet(syntect::parsing::SyntaxSet);

/// A `syntect` theme.
#[verifier::external_type_specification]
#[verifier::external_body]
pub struct ExSynTheme(SynTheme);

/// An opaque color of a highlighter theme.
#[derive(Clone, Copy, Debug, PartialEq, Eq, Structural)]
pub struct SynColor {
    pub r: u8,
    pub g: u8,
    pub b: u8,
}

/// What a theme rule does to the font of the text it matches.
#[derive(Clone, Copy, Debug, PartialEq, Eq, Structural)]
pub enum RuleFont {
    Inherit,
    Bold,
    Italic,
    Underline,
}

/// One rule of a highlighter theme: which scopes, in which color and font.
#[derive(Debug)]
pub struct HiRule {
    pub selector: String,
    pub fg: SynColor,
    pub font: RuleFont,
}

/// What a [`HiRule`] holds.
#[verifier::ext_equal]
pub struct RuleView {
    pub selector: Seq<char>,
    pub fg: SynColor,
    pub font: RuleFont,
}

impl View for HiRule {
    type V = RuleView;

    open spec fn view(&self) -> RuleView {
        RuleView { selector: self.selector@, fg: self.fg, font: self.font }
    }
}

/// A run of a highlighted line as the highlighter gives it.
#[derive(Debug)]
pub struct HiRange {
    pub text: String,
    pub fg: SynColor,
    pub italic: bool,
    pub bold: bool,
    pub underline: bool,
}

/// What a [`HiRange`] holds.
#[verifier::ext_equal]
pub struct RangeView {
    pub text: Seq<char>,
    pub fg: SynColor,
    pub italic: bool,
    pub bold: bool,
    pub underline: bool,
}

impl View for HiRange {
    type V = RangeView;

    open spec fn view(&self) -> RangeView {
        RangeView {
            text: self.text@,
            fg: self.fg,
            italic: self.italic,
            bold: self.bold,
            underline: self.underline,
        }
    }
}

/// What a list of rules holds.
pub open spec fn rules_view(rules: Seq<HiRule>) -> Seq<RuleView> {
    rules.map_values(|r: HiRule| r@)
}

/// What a list of ranges holds.
pub open spec fn ranges_view(ranges: Seq<HiRange>) -> Seq<RangeView> {
    ranges.map_values(|r: HiRange| r@)
}

/// What the highlighter said of each line: its ranges, or that it failed.
pub open spec fn line_ranges_view(lines: Seq<Option<Vec<HiRange>>>) -> Seq<Option<Seq<RangeView>>> {
    lines.map_values(
        |l: Option<Vec<HiRange>>|
            match l {
                Some(ranges) => Some(ranges_view(ranges@)),
                None => None,
            },
    )
}

/// The text under a list of ranges, end to end.
pub open spec fn range_text(ranges: Seq<RangeView>) -> Seq<char>
    decreases ranges.len(),
{
    if ranges.len() == 0 {
        Seq::empty()
    } else {
        range_text(ranges.drop_last()) + ranges.last().text
    }
}

/// Whether the ranges of a line, where there are any answers, make up the line.
pub open spec fn covers(answer: Option<Seq<RangeView>>, line: Seq<char>) -> bool {
    answer matches Some(ranges) ==> range_text(ranges) == line
}

/// Whether every answer covers its line.
pub open spec fn all_cover(answers: Seq<Option<Seq<RangeView>>>, lines: Seq<Seq<char>>) -> bool {
    forall|i: int| 0 <= i < answers.len() ==> covers(#[trigger] answers[i], lines[i])
}

/// The name of the grammar that a set has for a file extension.
pub uninterp spec fn extension_grammar(set: SyntaxSet, extension: Seq<char>) -> Option<Seq<char>>;

/// The `syntect` theme made of a foreground and rules, all in colors of one
/// opacity.
pub uninterp spec fn theme_of_rules(
    foreground: SynColor,
    rules: Seq<RuleView>,
    opacity: u8,
) -> SynTheme;

/// What `syntect` makes of consecutive lines under the grammar of that name,
/// line by line; `None` where the set has no such grammar.
pub uninterp spec fn highlighted_lines(
    set: SyntaxSet,
    grammar: Seq<char>,
    theme: SynTheme,
    lines: Seq<Seq<char>>,
) -> Option<Seq<Option<Seq<RangeView>>>>;

/// `SyntaxSet::load_defaults_nonewlines`: the grammars that come with the
/// crate. Nothing is claimed of them.
#[verifier::external_body]
fn load_syntaxes() -> (set: SyntaxSet)
{
    SyntaxSet::load_defaults_nonewlines()
}

/// `SyntaxSet::find_syntax_by_extension`, by the name of the grammar found:
/// a function of the set and the extension.
#[verifier::external_body]
fn find_grammar_by_extension(set: &SyntaxSet, extension: &str) -> (name: Option<String>)
    ensures
        opt_text(name) == extension_grammar(*set, extension@),
{
    set.find_syntax_by_extension(extension).map(|s| s.name.clone())
}

/// Builds a `syntect::highlighting::Theme` from a foreground and rules in colors
/// of one opacity, each selector read by `ScopeSelectors::from_str` (one that it
/// cannot read matches nothing): a function of the three.
#[verifier::external_body]
fn build_theme(foreground: SynColor, rules: &Vec<HiRule>, opacity: u8) -> (theme: SynTheme)
    ensures
        theme == theme_of_rules(foreground, rules_view(rules@), opacity),
{
    let a = opacity;
    let color = |c: SynColor| Some(syntect::highlighting::Color { r: c.r, g: c.g, b: c.b, a });
    let item = |r: &HiRule| ThemeItem {
        scope: ScopeSelectors::from_str(&r.selector).unwrap_or_default(),
        style: StyleModifier { foreground: color(r.fg), background: None, font_style: match r.font {
            RuleFont::Inherit => None,
            RuleFont::Bold => Some(FontStyle::BOLD),
            RuleFont::Italic => Some(FontStyle::ITALIC),
            RuleFont::Underline => Some(FontStyle::UNDERLINE),
        } },
    };
    let scopes = rules.iter().map(item).collect();
    let settings = ThemeSettings { foreground: color(foreground), ..Default::default() };
    SynTheme { settings, scopes, ..Default::default() }
}

/// `HighlightLines::highlight_line` on consecutive lines with one parser
/// state, under the grammar that `SyntaxSet::find_syntax_by_name` finds: a
/// function of the set, the name, the theme and the lines, with one answer
/// per line. Its iterator documents that the texts of a line's ranges, end to
/// end, make the line.
#[verifier::external_body]
fn highlight_lines(
    set: &SyntaxSet,
    grammar: &str,
    theme: &SynTheme,
    lines: &Vec<String>,
) -> (out: Option<Vec<Option<Vec<HiRange>>>>)
    ensures
        (match out {
            Some(list) => Some(line_ranges_view(list@)),
            None => None,
        }) == highlighted_lines(*set, grammar@, *theme, texts(lines@)),
        out matches Some(list) ==> list@.len() == lines@.len(),
        out matches Some(list) ==> all_cover(line_ranges_view(list@), texts(lines@)),
{
    let mut hl = HighlightLines::new(set.find_syntax_by_name(grammar)?, theme);
    let convert = |(st, text): (syntect::highlighting::Style, &str)| HiRange {
        text: text.to_string(),
        fg: SynColor { r: st.foreground.r, g: st.foreground.g, b: st.foreground.b },
        italic: st.font_style.contains(FontStyle::ITALIC),
        bold: st.font_style.contains(FontStyle::BOLD),
        underline: st.font_style.contains(FontStyle::UNDERLINE),
    };
    let one = |l: &String| Some(hl.highlight_line(l, set).ok()?.into_iter().map(convert).collect());
    Some(lines.iter().map(one).collect())
}

/// The truecolor form of a terminal color.
#[verifier::allow_in_spec]
pub fn rat_to_syn(c: Color) -> SynColor
    returns
        (match c {
            Color::Rgb(r, g, b) => SynColor { r, g, b },
            Color::White => SynColor { r: 192, g: 202, b: 245 },
            Color::Black => SynColor { r: 0, g: 0, b: 0 },
            Color::Red => SynColor { r: 247, g: 118, b: 142 },
            Color::Green => SynColor { r: 158, g: 206, b: 106 },
            Color::Yellow => SynColor { r: 224, g: 175, b: 104 },
            Color::Blue => SynColor { r: 122, g: 162, b: 247 },
            Color::Magenta => SynColor { r: 187, g: 154, b: 247 },
            Color::Cyan => SynColor { r: 125, g: 207, b: 255 },
            Color::Gray => SynColor { r: 169, g: 177, b: 214 },
            Color::DarkGray => SynColor { r: 86, g: 95, b: 137 },
            Color::LightRed => SynColor { r: 247, g: 118, b: 142 },
            Color::LightGreen => SynColor { r: 158, g: 206, b: 106 },
            Color::LightYellow => SynColor { r: 224, g: 175, b: 104 },
            Color::LightBlue => SynColor { r: 122, g: 162, b: 247 },
            Color::LightMagenta => SynColor { r: 187, g: 154, b: 247 },
            Color::LightCyan => SynColor { r: 125, g: 207, b: 255 },
            Color::Indexed(_) => SynColor { r: 192, g: 202, b: 245 },
            Color::Reset => SynColor { r: 192, g: 202, b: 245 },
        }),
{
    match c {
        Color::Rgb(r, g, b) => SynColor { r, g, b },
        Color::White => SynColor { r: 192, g: 202, b: 245 },
        Color::Black => SynColor { r: 0, g: 0, b: 0 },
        Color::Red => SynColor { r: 247, g: 118, b: 142 },
        Color::Green => SynColor { r: 158, g: 206, b: 106 },
        Color::Yellow => SynColor { r: 224, g: 175, b: 104 },
        Color::Blue => SynColor { r: 122, g: 162, b: 247 },
        Color::Magenta => SynColor { r: 187, g: 154, b: 247 },
        Color::Cyan => SynColor { r: 125, g: 207, b: 255 },
        Color::Gray => SynColor { r: 169, g: 177, b: 214 },
        Color::DarkGray => SynColor { r: 86, g: 95, b: 137 },
        Color::LightRed => SynColor { r: 247, g: 118, b: 142 },
        Color::LightGreen => SynColor { r: 158, g: 206, b: 106 },
        Color::LightYellow => SynColor { r: 224, g: 175, b: 104 },
        Color::LightBlue => SynColor { r: 122, g: 162, b: 247 },
        Color::LightMagenta => SynColor { r: 187, g: 154, b: 247 },
        Color::LightCyan => SynColor { r: 125, g: 207, b: 255 },
        Color::Indexed(_) => SynColor { r: 192, g: 202, b: 245 },
        Color::Reset => SynColor { r: 192, g: 202, b: 245 },
    }
}

#[verifier::allow_in_spec]
pub fn syn_to_rat(c: SynColor) -> Color
    returns
        Color::Rgb(c.r, c.g, c.b),
{
    Color::Rgb(c.r, c.g, c.b)
}

pub open spec fn rule_view(selector: Seq<char>, fg: Color, font: RuleFont) -> RuleView {
    RuleView { selector, fg: rat_to_syn(fg), font }
}

/// A theme rule in a color of the palette.
pub fn rule(selector: &str, fg: Color, font: RuleFont) -> (r: HiRule)
    ensures
        r@ == rule_view(selector@, fg, font),
{
    HiRule { selector: selector.to_owned(), fg: rat_to_syn(fg), font }
}

/// The highlighter rules of a palette. The Markdown rules are prefixed with
/// the root scope, so that they never recolor code: headings bold, emphasis
/// keeps the foreground, inline code and fences green, links underlined, and
/// the punctuation dimmed.
pub open spec fn palette_rules(theme: Theme) -> Seq<RuleView> {
    seq![
        rule_view("comment"@, theme.syntax_comment, RuleFont::Italic),
        rule_view("comment.line"@, theme.syntax_comment, RuleFont::Italic),
        rule_view("comment.block"@, theme.syntax_comment, RuleFont::Italic),
        rule_view("string"@, theme.syntax_string, RuleFont::Inherit),
        rule_view("string.quoted"@, theme.syntax_string, RuleFont::Inherit),
        rule_view("constant.numeric, constant.language, constant.character"@, theme.syntax_number, RuleFont::Inherit),
        rule_view("keyword, keyword.control, keyword.operator, storage, storage.type, storage.modifier"@, theme.syntax_keyword, RuleFont::Italic),
        rule_view("entity.name.function, support.function, variable.function, entity.name.method"@, theme.syntax_function, RuleFont::Inherit),
        rule_view("entity.name.type, entity.name.class, entity.name.struct, entity.name.enum, support.type, support.class"@, theme.syntax_type, RuleFont::Inherit),
        rule_view("text.html.markdown markup.heading"@, theme.syntax_function, RuleFont::Bold),
        rule_view("text.html.markdown markup.bold"@, theme.fg, RuleFont::Bold),
        rule_view("text.html.markdown markup.italic"@, theme.fg, RuleFont::Italic),
        rule_view("text.html.markdown markup.raw"@, theme.syntax_string, RuleFont::Inherit),
        rule_view("text.html.markdown markup.underline.link, text.html.markdown meta.link.inline.description, text.html.markdown constant.other.reference.link"@, theme.syntax_type, RuleFont::Underline),
        rule_view("text.html.markdown punctuation.definition.heading, text.html.markdown punctuation.definition.bold, text.html.markdown punctuation.definition.italic, text.html.markdown punctuation.definition.raw, text.html.markdown punctuation.definition.link, text.html.markdown punctuation.definition.metadata, text.html.markdown punctuation.definition.blockquote, text.html.markdown punctuation.definition.list_item, text.html.markdown constant.other.language-name"@, theme.hint, RuleFont::Inherit),
    ]
}

/// The opacity of a color that nothing shines through.
pub const OPAQUE: u8 = 255;

/// The highlighter theme of a palette.
pub open spec fn palette_theme(theme: Theme) -> SynTheme {
    theme_of_rules(rat_to_syn(theme.fg), palette_rules(theme), OPAQUE)
}

fn theme_rules(theme: Theme) -> (rules: Vec<HiRule>)
    ensures
        rules_view(rules@) == palette_rules(theme),
{
    let mut rules: Vec<HiRule> = Vec::new();
    rules.push(rule("comment", theme.syntax_comment, RuleFont::Italic));
    rules.push(rule("comment.line", theme.syntax_comment, RuleFont::Italic));
    rules.push(rule("comment.block", theme.syntax_comment, RuleFont::Italic));
    rules.push(rule("string", theme.syntax_string, RuleFont::Inherit));
    rules.push(rule("string.quoted", theme.syntax_string, RuleFont::Inherit));
    rules.push(rule("constant.numeric, constant.language, constant.character", theme.syntax_number, RuleFont::Inherit));
    rules.push(rule("keyword, keyword.control, keyword.operator, storage, storage.type, storage.modifier", theme.syntax_keyword, RuleFont::Italic));
    rules.push(rule("entity.name.function, support.function, variable.function, entity.name.method", theme.syntax_function, RuleFont::Inherit));
    rules.push(rule("entity.name.type, entity.name.class, entity.name.struct, entity.name.enum, support.type, support.class", theme.syntax_type, RuleFont::Inherit));
    rules.push(rule("text.html.markdown markup.heading", theme.syntax_function, RuleFont::Bold));
    rules.push(rule("text.html.markdown markup.bold", theme.fg, RuleFont::Bold));
    rules.push(rule("text.html.markdown markup.italic", theme.fg, RuleFont::Italic));
    rules.push(rule("text.html.markdown markup.raw", theme.syntax_string, RuleFont::Inherit));
    rules.push(rule("text.html.markdown markup.underline.link, text.html.markdown meta.link.inline.description, text.html.markdown constant.other.reference.link", theme.syntax_type, RuleFont::Underline));
    rules.push(rule("text.html.markdown punctuation.definition.heading, text.html.markdown punctuation.definition.bold, text.html.markdown punctuation.definition.italic, text.html.markdown punctuation.definition.raw, text.html.markdown punctuation.definition.link, text.html.markdown punctuation.definition.metadata, text.html.markdown punctuation.definition.blockquote, text.html.markdown punctuation.definition.list_item, text.html.markdown constant.other.language-name", theme.hint, RuleFont::Inherit));
    assert(rules_view(rules@) =~= palette_rules(theme));
    rules
}

/// Builds the highlighter theme of a palette.
pub fn syntect_theme(theme: Theme) -> (out: SynTheme)
    ensures
        out == palette_theme(theme),
{
    let rules = theme_rules(theme);
    build_theme(rat_to_syn(theme.fg), &rules, OPAQUE)
}

/// The extension whose grammar serves files of extension `ext`: JavaScript
/// for the TypeScript family, Markdown for its variants.
pub open spec fn mapped_extension(ext: Seq<char>) -> Seq<char> {
    let l = lower(ext);
    if l == "ts"@ || l == "mts"@ || l == "cts"@ || l == "tsx"@ || l == "jsx"@ || l == "mjs"@ || l
        == "cjs"@ {
        "js"@
    } else if l == "mdx"@ || l == "mkd"@ {
        "md"@
    } else {
        ext
    }
}

fn map_extension(ext: String) -> (out: String)
    ensures
        out@ == mapped_extension(ext@),
{
    let l = lower_text(ext.as_str());
    let l = l.as_str();
    if same_text(l, "ts") || same_text(l, "mts") || same_text(l, "cts") || same_text(l, "tsx")
        || same_text(l, "jsx") || same_text(l, "mjs") || same_text(l, "cjs") {
        "js".to_owned()
    } else if same_text(l, "mdx") || same_text(l, "mkd") {
        "md".to_owned()
    } else {
        ext
    }
}

/// The name of the grammar for a file: the one found for the file itself, else
/// the one of its (mapped) extension, else plain text.
pub open spec fn grammar_of(
    set: SyntaxSet,
    path: Seq<char>,
    by_file: Option<Seq<char>>,
) -> Seq<char> {
    match by_file {
        Some(name) => name,
        None => match extension_grammar(set, mapped_extension(after_last(path, '.'))) {
            Some(name) => name,
            None => "Plain Text"@,
        },
    }
}

/// The name of the grammar for a file. `by_file` names the grammar that was
/// found for the file itself, by its name or first line.
pub fn find_syntax(set: &SyntaxSet, path: &str, by_file: &Option<String>) -> (name: String)
    ensures
        name@ == grammar_of(*set, path@, opt_text(*by_file)),
{
    match by_file {
        Some(name) => name.clone(),
        None => {
            let ext = map_extension(text_after_last(path, '.'));
            match find_grammar_by_extension(set, ext.as_str()) {
                Some(name) => name,
                None => "Plain Text".to_owned(),
            }
        },
    }
}

/// Whether a file is TOML: by its extension, or `Cargo.lock`.
pub open spec fn toml_path(path: Seq<char>) -> bool {
    ends_with(lower(path), ".toml"@) || after_last(lower(path), '/') == "cargo.lock"@
}

pub fn is_toml_path(path: &str) -> (yes: bool)
    ensures
        yes == toml_path(path@),
{
    let l = lower_text(path);
    if text_ends_with(l.as_str(), ".toml") {
        return true;
    }
    let base = text_after_last(l.as_str(), '/');
    same_text(base.as_str(), "cargo.lock")
}

/// The whole text as one token in the plain foreground.
pub open spec fn plain_token(text: Seq<char>, theme: Theme) -> TokenView {
    TokenView { text, fg: theme.fg, modifier: Modifier::empty() }
}

fn plain(text: &str, theme: Theme) -> (token: HiToken)
    ensures
        token@ == plain_token(text@, theme),
{
    HiToken { text: text.to_owned(), fg: theme.fg, modifier: Modifier::empty() }
}

pub open spec fn range_token(range: RangeView) -> TokenView {
    TokenView {
        text: range.text,
        fg: syn_to_rat(range.fg),
        modifier: Modifier {
            italic: range.italic,
            bold: range.bold,
            underlined: range.underline,
            ..Modifier::empty()
        },
    }
}

/// The tokens of a highlighted line: one per range that is not empty.
pub open spec fn range_tokens(ranges: Seq<RangeView>) -> Seq<TokenView>
    decreases ranges.len(),
{
    if ranges.len() == 0 {
        Seq::empty()
    } else if ranges.last().text.len() == 0 {
        range_tokens(ranges.drop_last())
    } else {
        range_tokens(ranges.drop_last()).push(range_token(ranges.last()))
    }
}

/// Turns the highlighter's ranges into tokens, leaving out empty ones.
pub fn convert_ranges(ranges: &Vec<HiRange>) -> (out: Vec<HiToken>)
    ensures
        tokens_view(out@) == range_tokens(ranges_view(ranges@)),
{
    let ghost all = ranges_view(ranges@);
    let mut out: Vec<HiToken> = Vec::new();
    let mut i: usize = 0;
    assert(tokens_view(out@) =~= range_tokens(all.take(0)));
    while i < ranges.len()
        invariant
            i <= ranges@.len(),
            all == ranges_view(ranges@),
            tokens_view(out@) == range_tokens(all.take(i as int)),
        decreases ranges@.len() - i,
    {
        let r = &ranges[i];
        assert(all.take(i + 1).drop_last() =~= all.take(i as int));
        assert(all.take(i + 1).last() == r@);
        if !r.text.as_str().is_empty() {
            let ghost before = out@;
            out.push(
                HiToken {
                    text: r.text.clone(),
                    fg: syn_to_rat(r.fg),
                    modifier: Modifier {
                        italic: r.italic,
                        bold: r.bold,
                        underlined: r.underline,
                        ..Modifier::empty()
                    },
                },
            );
            assert(tokens_view(out@) =~= tokens_view(before).push(range_token(r@)));
        }
        i += 1;
    }
    assert(all.take(all.len() as int) =~= all);
    out
}

/// What stands on a line after highlighting; the plain line where the
/// highlighter failed or said nothing.
pub open spec fn settled_tokens(
    answer: Option<Seq<RangeView>>,
    text: Seq<char>,
    theme: Theme,
) -> Seq<TokenView> {
    match answer {
        None => seq![plain_token(text, theme)],
        Some(ranges) => if range_tokens(ranges).len() == 0 && text.len() > 0 {
            seq![plain_token(text, theme)]
        } else {
            range_tokens(ranges)
        },
    }
}

/// Settles the tokens of a line on what the highlighter answered for it.
pub fn settle_tokens(answer: &Option<Vec<HiRange>>, text: &str, theme: Theme) -> (out: Vec<HiToken>)
    ensures
        tokens_view(out@) == settled_tokens(
            match *answer {
                Some(ranges) => Some(ranges_view(ranges@)),
                None => None,
            },
            text@,
            theme,
        ),
{
    match answer {
        Some(ranges) => {
            let out = convert_ranges(ranges);
            if out.len() > 0 || text.is_empty() {
                return out;
            }
        },
        None => {},
    }
    let mut out: Vec<HiToken> = Vec::new();
    out.push(plain(text, theme));
    assert(tokens_view(out@) =~= seq![plain_token(text@, theme)]);
    out
}

proof fn lemma_range_tokens_text(ranges: Seq<RangeView>)
    ensures
        joined(range_tokens(ranges)) == range_text(ranges),
    decreases ranges.len(),
{
    if ranges.len() > 0 {
        let before = ranges.drop_last();
        lemma_range_tokens_text(before);
        if ranges.last().text.len() == 0 {
            assert(range_text(before) + ranges.last().text =~= range_text(before));
        } else {
            let tokens = range_tokens(before);
            assert(tokens.push(range_token(ranges.last())).drop_last() =~= tokens);
        }
    }
}

proof fn lemma_plain_text(text: Seq<char>, theme: Theme)
    ensures
        joined(seq![plain_token(text, theme)]) == text,
{
    let tokens = seq![plain_token(text, theme)];
    assert(tokens.drop_last() =~= Seq::empty());
    assert(joined(tokens.drop_last()) =~= Seq::empty());
    assert(joined(tokens) =~= text);
}

/// What settles a line keeps its text, whatever the highlighter answered.
pub proof fn law_settled_keeps_text(
    answer: Option<Seq<RangeView>>,
    text: Seq<char>,
    theme: Theme,
)
    requires
        covers(answer, text),
    ensures
        joined(settled_tokens(answer, text, theme)) == text,
{
    lemma_plain_text(text, theme);
    if let Some(ranges) = answer {
        lemma_range_tokens_text(ranges);
    }
}

/// Whether the tokens of a line are known to make up the line: always, but for
/// the TOML lines that repeat their white space.
pub open spec fn keeps_text(path: Seq<char>, text: Seq<char>) -> bool {
    toml_path(path) ==> !repeats_white(
        match comment_start(text) {
            Some(k) => text.take(k),
            None => text,
        },
    )
}

/// Lines longer than this many bytes are not highlighted.
pub const HIGHLIGHT_LEN_CAP: usize = 2000;

/// The line cache is emptied once it holds more lines than this.
pub const LINE_CACHE_CAP: usize = 4096;

/// The tokens of one line that is neither empty nor over-long.
pub open spec fn fresh_tokens(
    set: SyntaxSet,
    path: Seq<char>,
    by_file: Option<Seq<char>>,
    text: Seq<char>,
    theme: Theme,
) -> Seq<TokenView> {
    if toml_path(path) {
        toml_tokens(text, theme)
    } else {
        match highlighted_lines(
            set,
            grammar_of(set, path, by_file),
            palette_theme(theme),
            seq![text],
        ) {
            Some(lines) => settled_tokens(lines[0], text, theme),
            None => seq![plain_token(text, theme)],
        }
    }
}

/// The tokens of one line highlighted on its own: none for an empty line, the
/// plain line for one that is too long.
pub open spec fn line_tokens(
    set: SyntaxSet,
    path: Seq<char>,
    by_file: Option<Seq<char>>,
    text: Seq<char>,
    theme: Theme,
) -> Seq<TokenView> {
    if text.len() == 0 {
        Seq::empty()
    } else if encode_utf8(text).len() > HIGHLIGHT_LEN_CAP {
        seq![plain_token(text, theme)]
    } else {
        fresh_tokens(set, path, by_file, text, theme)
    }
}

/// The tokens of each line of a file highlighted as a whole.
pub open spec fn file_tokens(
    set: SyntaxSet,
    path: Seq<char>,
    by_file: Option<Seq<char>>,
    lines: Seq<Seq<char>>,
    theme: Theme,
) -> Seq<Seq<TokenView>> {
    if toml_path(path) {
        Seq::new(
            lines.len(),
            |i: int|
                if lines[i].len() == 0 {
                    Seq::<TokenView>::empty()
                } else {
                    toml_tokens(lines[i], theme)
                },
        )
    } else {
        match highlighted_lines(
            set,
            grammar_of(set, path, by_file),
            palette_theme(theme),
            lines,
        ) {
            Some(answers) => Seq::new(
                lines.len(),
                |i: int| settled_tokens(answers[i], lines[i], theme),
            ),
            None => Seq::new(lines.len(), |i: int| seq![plain_token(lines[i], theme)]),
        }
    }
}

struct CachedLine {
    path: String,
    by_file: Option<String>,
    text: String,
    theme: Theme,
    tokens: Vec<HiToken>,
}

/// The grammars, with the themes and lines that were worked out already. The
/// same lines are shown frame after frame, so repeats come from the cache.
pub struct Highlighter {
    set: SyntaxSet,
    themes: Vec<(Theme, SynTheme)>,
    cache: Vec<CachedLine>,
}

fn copy_tokens(tokens: &Vec<HiToken>) -> (out: Vec<HiToken>)
    ensures
        tokens_view(out@) == tokens_view(tokens@),
{
    let mut out: Vec<HiToken> = Vec::new();
    let mut i: usize = 0;
    while i < tokens.len()
        invariant
            i <= tokens@.len(),
            out@.len() == i,
            forall|k: int| 0 <= k < i ==> (#[trigger] out@[k])@ == tokens@[k]@,
        decreases tokens@.len() - i,
    {
        let t = &tokens[i];
        out.push(HiToken { text: t.text.clone(), fg: t.fg, modifier: t.modifier });
        i += 1;
    }
    assert(tokens_view(out@) =~= tokens_view(tokens@));
    out
}

fn same_option(a: &Option<String>, b: &Option<String>) -> (same: bool)
    ensures
        same == (opt_text(*a) == opt_text(*b)),
{
    match (a, b) {
        (Some(x), Some(y)) => *x == *y,
        (None, None) => true,
        _ => false,
    }
}

fn copy_option(a: &Option<String>) -> (out: Option<String>)
    ensures
        opt_text(out) == opt_text(*a),
{
    match a {
        Some(x) => Some(x.clone()),
        None => None,
    }
}

/// Highlights a line that is neither empty nor over-long.
fn highlight_line_uncached(
    set: &SyntaxSet,
    syn: &SynTheme,
    path: &str,
    by_file: &Option<String>,
    text: &str,
    theme: Theme,
) -> (out: Vec<HiToken>)
    requires
        *syn == palette_theme(theme),
    ensures
        tokens_view(out@) == fresh_tokens(*set, path@, opt_text(*by_file), text@, theme),
        keeps_text(path@, text@) ==> joined(tokens_view(out@)) == text@,
{
    if is_toml_path(path) {
        proof {
            if keeps_text(path@, text@) {
                law_toml_keeps_text(text@, theme);
            }
        }
        return highlight_toml_line(text, theme);
    }
    let grammar = find_syntax(set, path, by_file);
    let mut lines: Vec<String> = Vec::new();
    lines.push(text.to_owned());
    assert(texts(lines@) =~= seq![text@]);
    match highlight_lines(set, grammar.as_str(), syn, &lines) {
        Some(answers) => {
            assert(line_ranges_view(answers@)[0] == match answers@[0] {
                Some(ranges) => Some(ranges_view(ranges@)),
                None => None::<Seq<RangeView>>,
            });
            proof {
                law_settled_keeps_text(line_ranges_view(answers@)[0], text@, theme);
            }
            settle_tokens(&answers[0], text, theme)
        },
        None => {
            proof {
                lemma_plain_text(text@, theme);
            }
            let mut out: Vec<HiToken> = Vec::new();
            out.push(plain(text, theme));
            assert(tokens_view(out@) =~= seq![plain_token(text@, theme)]);
            out
        },
    }
}

impl Highlighter {
    /// The grammars in use.
    pub closed spec fn grammars(&self) -> SyntaxSet {
        self.set
    }

    /// What is kept is what would be worked out again.
    pub closed spec fn wf(&self) -> bool {
        &&& forall|i: int|
            0 <= i < self.themes@.len() ==> (#[trigger] self.themes@[i]).1 == palette_theme(
                self.themes@[i].0,
            )
        &&& forall|i: int|
            0 <= i < self.cache@.len() ==> #[trigger] self.cached_right(self.cache@[i])
        &&& self.cache@.len() <= LINE_CACHE_CAP + 1
    }

    spec fn cached_right(&self, line: CachedLine) -> bool {
        tokens_view(line.tokens@) == fresh_tokens(
            self.set,
            line.path@,
            opt_text(line.by_file),
            line.text@,
            line.theme,
        ) && (keeps_text(line.path@, line.text@) ==> joined(tokens_view(line.tokens@))
            == line.text@)
    }

    pub fn new() -> (h: Highlighter)
        ensures
            h.wf(),
    {
        Highlighter { set: load_syntaxes(), themes: Vec::new(), cache: Vec::new() }
    }

    /// Where the theme of a palette is kept; builds it the first time.
    fn syntect_theme_cached(&mut self, theme: Theme) -> (at: usize)
        requires
            old(self).wf(),
        ensures
            final(self).wf(),
            final(self).set == old(self).set,
            at < final(self).themes@.len(),
            final(self).themes@[at as int].1 == palette_theme(theme),
            final(self).cache@ == old(self).cache@,
    {
        let mut i: usize = 0;
        while i < self.themes.len()
            invariant
                self.wf(),
                *self == *old(self),
                i <= self.themes@.len(),
            decreases self.themes@.len() - i,
        {
            if self.themes[i].0 == theme {
                return i;
            }
            i += 1;
        }
        let built = syntect_theme(theme);
        let ghost before = *self;
        self.themes.push((theme, built));
        assert forall|k: int| 0 <= k < self.cache@.len() implies #[trigger] self.cached_right(
            self.cache@[k],
        ) by {
            assert(before.cached_right(before.cache@[k]));
        }
        self.themes.len() - 1
    }

    /// Highlights a single line on its own. `by_file` names the grammar found
    /// for the file itself, if any.
    pub fn highlight_line(
        &mut self,
        path: &str,
        by_file: &Option<String>,
        text: &str,
        theme: Theme,
    ) -> (out: Vec<HiToken>)
        requires
            old(self).wf(),
        ensures
            final(self).wf(),
            final(self).grammars() == old(self).grammars(),
            tokens_view(out@) == line_tokens(
                old(self).grammars(),
                path@,
                opt_text(*by_file),
                text@,
                theme,
            ),
            keeps_text(path@, text@) ==> joined(tokens_view(out@)) == text@,
    {
        if text.is_empty() {
            let out: Vec<HiToken> = Vec::new();
            assert(tokens_view(out@) =~= Seq::<TokenView>::empty());
            assert(joined(tokens_view(out@)) =~= text@);
            return out;
        }
        if text.as_bytes().len() > HIGHLIGHT_LEN_CAP {
            proof {
                lemma_plain_text(text@, theme);
            }
            let mut out: Vec<HiToken> = Vec::new();
            out.push(plain(text, theme));
            assert(tokens_view(out@) =~= seq![plain_token(text@, theme)]);
            return out;
        }
        let path_key = path.to_owned();
        let text_key = text.to_owned();
        let mut i: usize = 0;
        while i < self.cache.len()
            invariant
                self.wf(),
                *self == *old(self),
                i <= self.cache@.len(),
                path_key@ == path@,
                text_key@ == text@,
                text@.len() > 0,
                encode_utf8(text@).len() <= HIGHLIGHT_LEN_CAP,
            decreases self.cache@.len() - i,
        {
            let line = &self.cache[i];
            if line.theme == theme && line.text == text_key && line.path == path_key && same_option(
                &line.by_file,
                by_file,
            ) {
                assert(self.cached_right(self.cache@[i as int]));
                return copy_tokens(&line.tokens);
            }
            i += 1;
        }
        let at = self.syntect_theme_cached(theme);
        let out = highlight_line_uncached(
            &self.set,
            &self.themes[at].1,
            path,
            by_file,
            text,
            theme,
        );
        let tokens = copy_tokens(&out);
        let ghost before = *self;
        if self.cache.len() > LINE_CACHE_CAP {
            self.cache.clear();
        }
        self.cache.push(
            CachedLine {
                path: path_key,
                by_file: copy_option(by_file),
                text: text_key,
                theme,
                tokens,
            },
        );
        assert forall|k: int| 0 <= k < self.cache@.len() implies #[trigger] self.cached_right(
            self.cache@[k],
        ) by {
            if k < self.cache@.len() - 1 {
                assert(before.cached_right(before.cache@[k]));
            }
        }
        out
    }

    /// Highlights the lines of a file with one parser state, so that comments
    /// and strings may span lines. One list of tokens per line.
    pub fn highlight_file_lines(
        &mut self,
        path: &str,
        by_file: &Option<String>,
        lines: &Vec<String>,
        theme: Theme,
    ) -> (out: Vec<Vec<HiToken>>)
        requires
            old(self).wf(),
        ensures
            final(self).wf(),
            final(self).grammars() == old(self).grammars(),
            out@.map_values(|l: Vec<HiToken>| tokens_view(l@)) == file_tokens(
                old(self).grammars(),
                path@,
                opt_text(*by_file),
                texts(lines@),
                theme,
            ),
            forall|i: int|
                0 <= i < lines@.len() && keeps_text(path@, lines@[i]@) ==> joined(
                    tokens_view((#[trigger] out@[i])@),
                ) == lines@[i]@,
    {
        let ghost all = file_tokens(
            self.set,
            path@,
            opt_text(*by_file),
            texts(lines@),
            theme,
        );
        let mut out: Vec<Vec<HiToken>> = Vec::new();
        let toml = is_toml_path(path);
        let at = self.syntect_theme_cached(theme);
        let grammar = find_syntax(&self.set, path, by_file);
        let answers = if toml {
            None
        } else {
            highlight_lines(&self.set, grammar.as_str(), &self.themes[at].1, lines)
        };
        let mut i: usize = 0;
        while i < lines.len()
            invariant
                i <= lines@.len(),
                out@.len() == i,
                all == file_tokens(
                    old(self).set,
                    path@,
                    opt_text(*by_file),
                    texts(lines@),
                    theme,
                ),
                toml == toml_path(path@),
                toml ==> answers is None,
                !toml ==> (match answers {
                    Some(list) => Some(line_ranges_view(list@)),
                    None => None,
                }) == highlighted_lines(
                    old(self).set,
                    grammar_of(old(self).set, path@, opt_text(*by_file)),
                    palette_theme(theme),
                    texts(lines@),
                ),
                answers matches Some(list) ==> list@.len() == lines@.len(),
                answers matches Some(list) ==> all_cover(line_ranges_view(list@), texts(lines@)),
                forall|k: int| 0 <= k < i ==> tokens_view((#[trigger] out@[k])@) == all[k],
                forall|k: int|
                    0 <= k < i && keeps_text(path@, lines@[k]@) ==> joined(
                        tokens_view((#[trigger] out@[k])@),
                    ) == lines@[k]@,
            decreases lines@.len() - i,
        {
            let text = lines[i].as_str();
            assert(texts(lines@)[i as int] == text@);
            let tokens = if toml {
                if text.is_empty() {
                    let none: Vec<HiToken> = Vec::new();
                    assert(tokens_view(none@) =~= Seq::<TokenView>::empty());
                    assert(joined(tokens_view(none@)) =~= text@);
                    none
                } else {
                    proof {
                        if keeps_text(path@, text@) {
                            law_toml_keeps_text(text@, theme);
                        }
                    }
                    highlight_toml_line(text, theme)
                }
            } else {
                match &answers {
                    Some(list) => {
                        assert(line_ranges_view(list@)[i as int] == match list@[i as int] {
                            Some(ranges) => Some(ranges_view(ranges@)),
                            None => None::<Seq<RangeView>>,
                        });
                        proof {
                            law_settled_keeps_text(
                                line_ranges_view(list@)[i as int],
                                text@,
                                theme,
                            );
                        }
                        settle_tokens(&list[i], text, theme)
                    },
                    None => {
                        proof {
                            lemma_plain_text(text@, theme);
                        }
                        let mut one: Vec<HiToken> = Vec::new();
                        one.push(plain(text, theme));
                        assert(tokens_view(one@) =~= seq![plain_token(text@, theme)]);
                        one
                    },
                }
            };
            out.push(tokens);
            i += 1;
        }
        assert(out@.map_values(|l: Vec<HiToken>| tokens_view(l@)) =~= all);
        out
    }
}

} // verus!
