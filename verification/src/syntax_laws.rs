//! What highlighting keeps and what it shows: colors, ranges and kinds of files.

use crate::markdown::{lang_path, markdown_path};
use crate::style::{Color, Modifier};
use crate::syntax::{
    extension_grammar, grammar_of, line_tokens, mapped_extension, palette_rules, range_tokens,
    rat_to_syn, syn_to_rat, toml_path, RangeView, RuleFont, SynColor,
};
use crate::text::{after_last, lower};
use crate::theme::Theme;
use crate::toml_highlight::TokenView;
use syntect::parsing::SyntaxSet;
use vstd::prelude::*;
use vstd::string::*;
use vstd::utf8::encode_utf8;

verus! {

/// A color that is given by its parts is kept through the highlighter and back.
pub proof fn law_true_colors_are_kept(c: SynColor)
    ensures
        rat_to_syn(syn_to_rat(c)) == c,
        syn_to_rat(rat_to_syn(Color::Rgb(c.r, c.g, c.b))) == Color::Rgb(c.r, c.g, c.b),
{
}

/// A named color keeps its hue: red is most of all red, green green and blue
/// blue, yellow has little blue, magenta little green and cyan little red; the
/// light ones are the same as the others. Gray is lighter than dark gray, and
/// black is nothing at all.
pub proof fn law_named_colors_keep_their_hue()
    ensures
        ({
            let c = rat_to_syn(Color::Red);
            c.r > c.g && c.r > c.b && rat_to_syn(Color::LightRed) == c
        }),
        ({
            let c = rat_to_syn(Color::Green);
            c.g > c.r && c.g > c.b && rat_to_syn(Color::LightGreen) == c
        }),
        ({
            let c = rat_to_syn(Color::Blue);
            c.b > c.r && c.b > c.g && rat_to_syn(Color::LightBlue) == c
        }),
        ({
            let c = rat_to_syn(Color::Yellow);
            c.r > c.b && c.g > c.b && rat_to_syn(Color::LightYellow) == c
        }),
        ({
            let c = rat_to_syn(Color::Magenta);
            c.r > c.g && c.b > c.g && rat_to_syn(Color::LightMagenta) == c
        }),
        ({
            let c = rat_to_syn(Color::Cyan);
            c.g > c.r && c.b > c.r && rat_to_syn(Color::LightCyan) == c
        }),
        ({
            let light = rat_to_syn(Color::Gray);
            let dark = rat_to_syn(Color::DarkGray);
            light.r > dark.r && light.g > dark.g && light.b > dark.b
        }),
        rat_to_syn(Color::Black) == (SynColor { r: 0, g: 0, b: 0 }),
{
}

/// The ranges of a line that are not empty.
pub open spec fn solid_ranges(ranges: Seq<RangeView>) -> Seq<RangeView> {
    ranges.filter(|r: RangeView| r.text.len() > 0)
}

/// What the highlighter says of a line is shown: a token for each range that is
/// not empty, in order, with its text, its color and its attributes.
pub proof fn law_ranges_are_shown(ranges: Seq<RangeView>, i: int)
    ensures
        range_tokens(ranges).len() == solid_ranges(ranges).len(),
        0 <= i < range_tokens(ranges).len() ==> {
            let r = solid_ranges(ranges)[i];
            let t = range_tokens(ranges)[i];
            &&& t.text == r.text
            &&& t.fg == Color::Rgb(r.fg.r, r.fg.g, r.fg.b)
            &&& t.modifier.bold == r.bold
            &&& t.modifier.italic == r.italic
            &&& t.modifier.underlined == r.underline
            &&& !t.modifier.dim && !t.modifier.reversed && !t.modifier.crossed_out
        },
    decreases ranges.len(),
{
    reveal(Seq::filter);
    let solid = |r: RangeView| r.text.len() > 0;
    if ranges.len() > 0 {
        let before = ranges.drop_last();
        law_ranges_are_shown(before, i);
        assert(ranges.filter(solid) == if solid(ranges.last()) {
            before.filter(solid).push(ranges.last())
        } else {
            before.filter(solid)
        });
    }
}

/// A line that is too long is not highlighted, and an empty one has no tokens.
pub proof fn law_long_lines_are_plain(
    set: SyntaxSet,
    path: Seq<char>,
    by_file: Option<Seq<char>>,
    text: Seq<char>,
    theme: Theme,
)
    ensures
        text.len() == 0 ==> line_tokens(set, path, by_file, text, theme).len() == 0,
        text.len() > 0 && encode_utf8(text).len() > 2000 ==> line_tokens(
            set,
            path,
            by_file,
            text,
            theme,
        ) == seq![TokenView { text, fg: theme.fg, modifier: Modifier::empty() }],
{
}

/// The kinds of code have the colors that the palette has for them: comments in
/// italics, and texts, numbers, keywords, functions and types in their own.
pub proof fn law_palette_is_used(theme: Theme)
    ensures
        ({
            let rules = palette_rules(theme);
            &&& rules[0].selector == "comment"@
            &&& rules[0].fg == rat_to_syn(theme.syntax_comment)
            &&& rules[0].font == RuleFont::Italic
            &&& rules[3].selector == "string"@
            &&& rules[3].fg == rat_to_syn(theme.syntax_string)
            &&& rules[5].fg == rat_to_syn(theme.syntax_number)
            &&& rules[6].fg == rat_to_syn(theme.syntax_keyword)
            &&& rules[7].fg == rat_to_syn(theme.syntax_function)
            &&& rules[8].fg == rat_to_syn(theme.syntax_type)
        }),
{
}

/// The case of a path does not matter to what kind of file it is.
pub proof fn law_file_kinds_ignore_case(a: Seq<char>, b: Seq<char>)
    requires
        lower(a) == lower(b),
    ensures
        toml_path(a) == toml_path(b),
        markdown_path(a) == markdown_path(b),
        lang_path(a) == lang_path(b),
{
}

/// JavaScript serves its whole family, and Markdown its variants; any other
/// extension stands for itself.
pub proof fn law_families_share_a_grammar(ext: Seq<char>)
    ensures
        lower(ext) == "ts"@ || lower(ext) == "tsx"@ || lower(ext) == "jsx"@ || lower(ext) == "mjs"@
            || lower(ext) == "cjs"@ || lower(ext) == "mts"@ || lower(ext) == "cts"@
            ==> mapped_extension(ext) == "js"@,
        ext == "mdx"@ || ext == "mkd"@ ==> mapped_extension(ext) == "md"@,
        ext == "rs"@ || ext == "py"@ || ext == "go"@ || ext == "js"@ || ext == "md"@
            ==> mapped_extension(ext) == ext,
{
    reveal_strlit("ts");
    reveal_strlit("mts");
    reveal_strlit("cts");
    reveal_strlit("tsx");
    reveal_strlit("jsx");
    reveal_strlit("mjs");
    reveal_strlit("cjs");
    reveal_strlit("mdx");
    reveal_strlit("mkd");
    reveal_strlit("rs");
    reveal_strlit("py");
    reveal_strlit("go");
    reveal_strlit("js");
    reveal_strlit("md");
    assert("ts"@.len() == 2 && "ts"@[0] == 't');
    assert("mts"@.len() == 3 && "cts"@.len() == 3 && "tsx"@.len() == 3 && "jsx"@.len() == 3);
    assert("mjs"@.len() == 3 && "cjs"@.len() == 3);
    assert("mdx"@.len() == 3 && "mdx"@[0] == 'm' && "mdx"@[1] == 'd' && "mdx"@[2] == 'x');
    assert("mkd"@.len() == 3 && "mkd"@[0] == 'm' && "mkd"@[1] == 'k' && "mkd"@[2] == 'd');
    assert("mts"@[1] == 't' && "cts"@[0] == 'c' && "tsx"@[0] == 't' && "jsx"@[0] == 'j');
    assert("mjs"@[1] == 'j' && "cjs"@[0] == 'c');
    assert("rs"@.len() == 2 && "rs"@[0] == 'r');
    assert("py"@.len() == 2 && "py"@[0] == 'p');
    assert("go"@.len() == 2 && "go"@[0] == 'g');
    assert("js"@.len() == 2 && "js"@[0] == 'j');
    assert("md"@.len() == 2 && "md"@[0] == 'm');
    if ext.len() == 2 || ext.len() == 3 {
        assert(lower(ext).len() == ext.len());
        if ext == "mdx"@ || ext == "mkd"@ {
            assert(lower(ext) =~= ext);
        }
    }
    if ext == "rs"@ || ext == "py"@ || ext == "go"@ || ext == "js"@ || ext == "md"@ {
        assert(lower(ext)[0] == ext[0]);
    }
}

/// A grammar that was found for the file itself is taken. Otherwise files with
/// the same ending have the same grammar, and one whose ending is not known is
/// plain text.
pub proof fn law_grammar_of_a_file(
    set: SyntaxSet,
    path: Seq<char>,
    other: Seq<char>,
    name: Seq<char>,
)
    ensures
        grammar_of(set, path, Some(name)) == name,
        after_last(path, '.') == after_last(other, '.') ==> grammar_of(set, path, None)
            == grammar_of(set, other, None),
        extension_grammar(set, mapped_extension(after_last(path, '.'))) is None ==> grammar_of(
            set,
            path,
            None,
        ) == "Plain Text"@,
        extension_grammar(set, mapped_extension(after_last(path, '.'))) is Some ==> Some(
            grammar_of(set, path, None),
        ) == extension_grammar(set, mapped_extension(after_last(path, '.'))),
{
}

} // verus!
