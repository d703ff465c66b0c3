//! Single-line TOML highlighting: cyan tables, blue keys, green strings,
//! orange numbers and dates, magenta booleans, dimmed punctuation, italic
//! comments.

use crate::style::{Color, Modifier};
use crate::text::{
    all_white, chars_of, is_blank, lemma_trim_bounds, same_text, skip_white, skip_white_back,
    slice_of, text_of, trimmed, white_end, white_start,
};
use crate::theme::Theme;
use vstd::prelude::*;
use vstd::string::*;

verus! {

/// One highlighted token: text, foreground and attributes.
#[derive(Clone, Debug)]
pub struct HiToken {
    pub text: String,
    pub fg: Color,
    pub modifier: Modifier,
}

/// What a [`HiToken`] holds.
#[verifier::ext_equal]
pub struct TokenView {
    pub text: Seq<char>,
    pub fg: Color,
    pub modifier: Modifier,
}

impl View for HiToken {
    type V = TokenView;

    open spec fn view(&self) -> TokenView {
        TokenView { text: self.text@, fg: self.fg, modifier: self.modifier }
    }
}

/// What a list of tokens holds.
pub open spec fn tokens_view(tokens: Seq<HiToken>) -> Seq<TokenView> {
    tokens.map_values(|t: HiToken| t@)
}

/// The text of the tokens, end to end.
pub open spec fn joined(tokens: Seq<TokenView>) -> Seq<char>
    decreases tokens.len(),
{
    if tokens.len() == 0 {
        Seq::empty()
    } else {
        joined(tokens.drop_last()) + tokens.last().text
    }
}

/// The tokens with one more run of text: an empty run adds nothing, a run in
/// the style of the last token extends that token.
pub open spec fn with_run(
    tokens: Seq<TokenView>,
    text: Seq<char>,
    fg: Color,
    modifier: Modifier,
) -> Seq<TokenView> {
    if text.len() == 0 {
        tokens
    } else if tokens.len() > 0 && tokens.last().fg == fg && tokens.last().modifier == modifier {
        tokens.drop_last().push(TokenView { text: tokens.last().text + text, fg, modifier })
    } else {
        tokens.push(TokenView { text, fg, modifier })
    }
}

/// Adding a run adds its text at the end.
pub proof fn lemma_joined_run(
    tokens: Seq<TokenView>,
    text: Seq<char>,
    fg: Color,
    modifier: Modifier,
)
    ensures
        joined(with_run(tokens, text, fg, modifier)) == joined(tokens) + text,
{
    let next = with_run(tokens, text, fg, modifier);
    if text.len() == 0 {
        assert(joined(tokens) + text =~= joined(tokens));
    } else if tokens.len() > 0 && tokens.last().fg == fg && tokens.last().modifier == modifier {
        assert(next.drop_last() =~= tokens.drop_last());
        assert(joined(next) =~= joined(tokens) + text);
    } else {
        assert(next.drop_last() =~= tokens);
    }
}

/// Adds a run of text, merging it with the last token when the style matches.
pub fn push_toml(out: &mut Vec<HiToken>, text: String, fg: Color, modifier: Modifier)
    ensures
        tokens_view(final(out)@) == with_run(tokens_view(old(out)@), text@, fg, modifier),
{
    let ghost before = tokens_view(out@);
    if text.as_str().is_empty() {
        return;
    }
    let n = out.len();
    if n > 0 && out[n - 1].fg == fg && out[n - 1].modifier == modifier {
        let last = out.pop();
        if let Some(mut token) = last {
            token.text.append(text.as_str());
            out.push(token);
        }
        assert(tokens_view(out@) =~= with_run(before, text@, fg, modifier));
        return;
    }
    out.push(HiToken { text, fg, modifier });
    assert(tokens_view(out@) =~= with_run(before, text@, fg, modifier));
}

/// Which kind of string literal a scan is inside of.
#[derive(Clone, Copy, Debug, PartialEq, Eq, Structural)]
pub enum Quote {
    Outside,
    Basic,
    Literal,
    MultiBasic,
    MultiLiteral,
}

/// Whether the same character stands three times at `i`.
pub open spec fn triple_at(s: Seq<char>, i: int, c: char) -> bool {
    0 <= i && i + 3 <= s.len() && s[i] == c && s[i + 1] == c && s[i + 2] == c
}

fn has_triple(cs: &Vec<char>, i: usize, c: char) -> (yes: bool)
    requires
        i <= cs@.len(),
    ensures
        yes == triple_at(cs@, i as int, c),
{
    cs.len() - i >= 3 && cs[i] == c && cs[i + 1] == c && cs[i + 2] == c
}

/// One past an escape at `i`: the backslash and the character it escapes.
pub open spec fn after_escape(s: Seq<char>, i: int) -> int {
    if i + 1 < s.len() {
        i + 2
    } else {
        i + 1
    }
}

/// The next position of a scan at `i`, and the literal it is inside of there.
pub open spec fn quote_step(s: Seq<char>, i: int, quote: Quote) -> (int, Quote) {
    match quote {
        Quote::Outside => if triple_at(s, i, '"') {
            (i + 3, Quote::MultiBasic)
        } else if triple_at(s, i, '\'') {
            (i + 3, Quote::MultiLiteral)
        } else if s[i] == '"' {
            (i + 1, Quote::Basic)
        } else if s[i] == '\'' {
            (i + 1, Quote::Literal)
        } else {
            (i + 1, Quote::Outside)
        },
        Quote::Basic => if s[i] == '\\' {
            (after_escape(s, i), Quote::Basic)
        } else if s[i] == '"' {
            (i + 1, Quote::Outside)
        } else {
            (i + 1, Quote::Basic)
        },
        Quote::Literal => if s[i] == '\'' {
            (i + 1, Quote::Outside)
        } else {
            (i + 1, Quote::Literal)
        },
        Quote::MultiBasic => if triple_at(s, i, '"') {
            (i + 3, Quote::Outside)
        } else if s[i] == '\\' {
            (after_escape(s, i), Quote::MultiBasic)
        } else {
            (i + 1, Quote::MultiBasic)
        },
        Quote::MultiLiteral => if triple_at(s, i, '\'') {
            (i + 3, Quote::Outside)
        } else {
            (i + 1, Quote::MultiLiteral)
        },
    }
}

/// The first place from `i` on where `target` stands outside every string
/// literal, for a scan that is inside `quote` at `i`.
pub open spec fn first_outside(s: Seq<char>, i: int, quote: Quote, target: char) -> Option<int>
    decreases s.len() - i,
{
    if i < 0 || i >= s.len() {
        None
    } else if quote == Quote::Outside && s[i] == target {
        Some(i)
    } else {
        let (j, next) = quote_step(s, i, quote);
        first_outside(s, j, next, target)
    }
}

proof fn lemma_first_outside_bounds(s: Seq<char>, i: int, quote: Quote, target: char)
    requires
        0 <= i,
    ensures
        first_outside(s, i, quote, target) matches Some(k) ==> i <= k < s.len() && s[k] == target,
    decreases s.len() - i,
{
    if i < s.len() && !(quote == Quote::Outside && s[i] == target) {
        let (j, next) = quote_step(s, i, quote);
        lemma_first_outside_bounds(s, j, next, target);
    }
}

fn find_outside(cs: &Vec<char>, target: char) -> (at: Option<usize>)
    requires
        target != '"',
        target != '\'',
    ensures
        (match at {
            Some(k) => first_outside(cs@, 0, Quote::Outside, target) == Some(k as int),
            None => first_outside(cs@, 0, Quote::Outside, target) is None,
        }),
        at matches Some(k) ==> k < cs@.len() && cs@[k as int] == target,
{
    let mut i: usize = 0;
    let mut quote = Quote::Outside;
    proof {
        lemma_first_outside_bounds(cs@, 0, Quote::Outside, target);
    }
    while i < cs.len()
        invariant
            target != '"',
            target != '\'',
            i <= cs@.len(),
            first_outside(cs@, 0, Quote::Outside, target) == first_outside(
                cs@,
                i as int,
                quote,
                target,
            ),
            first_outside(cs@, 0, Quote::Outside, target) matches Some(k) ==> k < cs@.len()
                && cs@[k] == target,
        decreases cs@.len() - i,
    {
        let c = cs[i];
        match quote {
            Quote::Outside => {
                if c == target {
                    return Some(i);
                }
                if has_triple(cs, i, '"') {
                    quote = Quote::MultiBasic;
                    i += 3;
                } else if has_triple(cs, i, '\'') {
                    quote = Quote::MultiLiteral;
                    i += 3;
                } else if c == '"' {
                    quote = Quote::Basic;
                    i += 1;
                } else if c == '\'' {
                    quote = Quote::Literal;
                    i += 1;
                } else {
                    i += 1;
                }
            },
            Quote::Basic => {
                if c == '\\' {
                    i = if cs.len() - i > 1 { i + 2 } else { i + 1 };
                } else {
                    if c == '"' {
                        quote = Quote::Outside;
                    }
                    i += 1;
                }
            },
            Quote::Literal => {
                if c == '\'' {
                    quote = Quote::Outside;
                }
                i += 1;
            },
            Quote::MultiBasic => {
                if has_triple(cs, i, '"') {
                    quote = Quote::Outside;
                    i += 3;
                } else if c == '\\' {
                    i = if cs.len() - i > 1 { i + 2 } else { i + 1 };
                } else {
                    i += 1;
                }
            },
            Quote::MultiLiteral => {
                if has_triple(cs, i, '\'') {
                    quote = Quote::Outside;
                    i += 3;
                } else {
                    i += 1;
                }
            },
        }
    }
    None
}

/// Where the comment of a line starts: the first `#` outside any string.
pub open spec fn comment_start(line: Seq<char>) -> Option<int> {
    first_outside(line, 0, Quote::Outside, '#')
}

/// Where the first `=` outside any string stands.
pub open spec fn equals_at(code: Seq<char>) -> Option<int> {
    first_outside(code, 0, Quote::Outside, '=')
}

/// Offset of the `#` starting a comment (outside any string), if any.
pub fn find_toml_comment_start(line: &Vec<char>) -> (at: Option<usize>)
    ensures
        (match at {
            Some(k) => comment_start(line@) == Some(k as int),
            None => comment_start(line@) is None,
        }),
        at matches Some(k) ==> k < line@.len() && line@[k as int] == '#',
{
    find_outside(line, '#')
}

/// Offset of the first `=` outside any string, if any.
pub fn find_toml_equals(code: &Vec<char>) -> (at: Option<usize>)
    ensures
        (match at {
            Some(k) => equals_at(code@) == Some(k as int),
            None => equals_at(code@) is None,
        }),
        at matches Some(k) ==> k < code@.len() && code@[k as int] == '=',
{
    find_outside(code, '=')
}

/// The tokens of dotted segments from `i` on, where the current segment
/// started at `start` and `quote` is the open quote, if any. Dots inside
/// quotes belong to their segment; separator dots are dimmed.
pub open spec fn dotted_from(
    body: Seq<char>,
    start: int,
    i: int,
    quote: Option<char>,
    tokens: Seq<TokenView>,
    fg: Color,
    modifier: Modifier,
    theme: Theme,
) -> Seq<TokenView>
    decreases body.len() - i,
{
    if i < 0 || i >= body.len() {
        with_run(tokens, body.skip(start), fg, modifier)
    } else {
        match quote {
            None => if body[i] == '"' || body[i] == '\'' {
                dotted_from(body, start, i + 1, Some(body[i]), tokens, fg, modifier, theme)
            } else if body[i] == '.' {
                let with_segment = with_run(tokens, body.subrange(start, i), fg, modifier);
                let with_dot = with_run(with_segment, seq!['.'], theme.hint, Modifier::empty());
                dotted_from(body, i + 1, i + 1, None, with_dot, fg, modifier, theme)
            } else {
                dotted_from(body, start, i + 1, None, tokens, fg, modifier, theme)
            },
            Some(q) => if body[i] == '\\' && q == '"' {
                dotted_from(body, start, after_escape(body, i), quote, tokens, fg, modifier, theme)
            } else if body[i] == q {
                dotted_from(body, start, i + 1, None, tokens, fg, modifier, theme)
            } else {
                dotted_from(body, start, i + 1, quote, tokens, fg, modifier, theme)
            },
        }
    }
}

/// `tokens` followed by the tokens of the dotted segments of `body`.
pub open spec fn with_dotted(
    tokens: Seq<TokenView>,
    body: Seq<char>,
    fg: Color,
    modifier: Modifier,
    theme: Theme,
) -> Seq<TokenView> {
    dotted_from(body, 0, 0, None, tokens, fg, modifier, theme)
}

proof fn lemma_joined_dotted(
    body: Seq<char>,
    start: int,
    i: int,
    quote: Option<char>,
    tokens: Seq<TokenView>,
    fg: Color,
    modifier: Modifier,
    theme: Theme,
)
    requires
        0 <= start <= i <= body.len(),
    ensures
        joined(dotted_from(body, start, i, quote, tokens, fg, modifier, theme)) == joined(tokens)
            + body.skip(start),
    decreases body.len() - i,
{
    if i >= body.len() {
        lemma_joined_run(tokens, body.skip(start), fg, modifier);
    } else {
        match quote {
            None => {
                if body[i] == '"' || body[i] == '\'' {
                    let q = Some(body[i]);
                    lemma_joined_dotted(body, start, i + 1, q, tokens, fg, modifier, theme);
                } else if body[i] == '.' {
                    let segment = body.subrange(start, i);
                    let a = with_run(tokens, segment, fg, modifier);
                    let b = with_run(a, seq!['.'], theme.hint, Modifier::empty());
                    lemma_joined_run(tokens, segment, fg, modifier);
                    lemma_joined_run(a, seq!['.'], theme.hint, Modifier::empty());
                    lemma_joined_dotted(body, i + 1, i + 1, None, b, fg, modifier, theme);
                    assert(joined(tokens) + segment + seq!['.'] + body.skip(i + 1) =~= joined(
                        tokens,
                    ) + body.skip(start));
                } else {
                    lemma_joined_dotted(body, start, i + 1, None, tokens, fg, modifier, theme);
                }
            },
            Some(q) => {
                if body[i] == '\\' && q == '"' {
                    let j = after_escape(body, i);
                    lemma_joined_dotted(body, start, j, quote, tokens, fg, modifier, theme);
                } else if body[i] == q {
                    lemma_joined_dotted(body, start, i + 1, None, tokens, fg, modifier, theme);
                } else {
                    lemma_joined_dotted(body, start, i + 1, quote, tokens, fg, modifier, theme);
                }
            },
        }
    }
}

/// Highlights dotted key or table segments: `a."b.c".d` keeps quoted dots
/// inside the segment; separator dots are dimmed.
pub fn highlight_toml_dotted(
    body: &Vec<char>,
    out: &mut Vec<HiToken>,
    fg: Color,
    modifier: Modifier,
    theme: Theme,
)
    ensures
        tokens_view(final(out)@) == with_dotted(
            tokens_view(old(out)@),
            body@,
            fg,
            modifier,
            theme,
        ),
{
    let ghost before = tokens_view(out@);
    let mut start: usize = 0;
    let mut quote: Option<char> = None;
    let mut i: usize = 0;
    while i < body.len()
        invariant
            start <= i <= body@.len(),
            with_dotted(before, body@, fg, modifier, theme) == dotted_from(
                body@,
                start as int,
                i as int,
                quote,
                tokens_view(out@),
                fg,
                modifier,
                theme,
            ),
        decreases body@.len() - i,
    {
        let c = body[i];
        match quote {
            None => {
                if c == '"' || c == '\'' {
                    quote = Some(c);
                    i += 1;
                } else if c == '.' {
                    push_toml(out, text_of(body, start, i), fg, modifier);
                    let mut dot = String::new();
                    dot.push('.');
                    assert(dot@ =~= seq!['.']);
                    push_toml(out, dot, theme.hint, Modifier::empty());
                    i += 1;
                    start = i;
                } else {
                    i += 1;
                }
            },
            Some(q) => {
                if c == '\\' && q == '"' {
                    i = if body.len() - i > 1 { i + 2 } else { i + 1 };
                } else if c == q {
                    quote = None;
                    i += 1;
                } else {
                    i += 1;
                }
            },
        }
    }
    assert(body@.skip(start as int) =~= body@.subrange(start as int, body@.len() as int));
    push_toml(out, text_of(body, start, body.len()), fg, modifier);
}

/// White space among ASCII characters.
#[verifier::allow_in_spec]
pub fn is_ascii_white(c: char) -> bool
    returns
        ('\t' <= c && c <= '\r') || c == ' ',
{
    ('\t' <= c && c <= '\r') || c == ' '
}

#[verifier::allow_in_spec]
pub fn is_ascii_digit(c: char) -> bool
    returns
        '0' <= c && c <= '9',
{
    '0' <= c && c <= '9'
}

/// A character of a bare word: booleans, numbers, dates.
#[verifier::allow_in_spec]
pub fn is_bare(c: char) -> bool
    returns
        ('0' <= c && c <= '9') || ('a' <= c && c <= 'z') || ('A' <= c && c <= 'Z') || c == '_' || c
            == '+' || c == '-' || c == '.' || c == ':',
{
    ('0' <= c && c <= '9') || ('a' <= c && c <= 'z') || ('A' <= c && c <= 'Z') || c == '_' || c
        == '+' || c == '-' || c == '.' || c == ':'
}

#[verifier::allow_in_spec]
pub fn is_value_punctuation(c: char) -> bool
    returns
        c == ',' || c == '[' || c == ']' || c == '{' || c == '}' || c == '=' || c == '.',
{
    c == ',' || c == '[' || c == ']' || c == '{' || c == '}' || c == '=' || c == '.'
}

/// The end of the run of ASCII white space at `i`.
pub open spec fn ascii_white_end(s: Seq<char>, i: int) -> int
    decreases s.len() - i,
{
    if 0 <= i < s.len() && is_ascii_white(s[i]) {
        ascii_white_end(s, i + 1)
    } else {
        i
    }
}

/// The end of the run of bare-word characters at `i`.
pub open spec fn bare_end(s: Seq<char>, i: int) -> int
    decreases s.len() - i,
{
    if 0 <= i < s.len() && is_bare(s[i]) {
        bare_end(s, i + 1)
    } else {
        i
    }
}

/// One past the closing `"` of a basic string whose body starts at `i`; an
/// unterminated string runs to the end.
pub open spec fn basic_end(s: Seq<char>, i: int) -> int
    decreases s.len() - i,
{
    if i < 0 || i >= s.len() {
        i
    } else if s[i] == '\\' {
        basic_end(s, after_escape(s, i))
    } else if s[i] == '"' {
        i + 1
    } else {
        basic_end(s, i + 1)
    }
}

/// One past the first `c` from `i` on, or the end.
pub open spec fn past_char(s: Seq<char>, i: int, c: char) -> int
    decreases s.len() - i,
{
    if i < 0 || i >= s.len() {
        s.len() as int
    } else if s[i] == c {
        i + 1
    } else {
        past_char(s, i + 1, c)
    }
}

/// One past the first three `c` in a row from `i` on, or the end.
pub open spec fn past_triple(s: Seq<char>, i: int, c: char) -> int
    decreases s.len() - i,
{
    if i < 0 || i >= s.len() {
        s.len() as int
    } else if triple_at(s, i, c) {
        i + 3
    } else {
        past_triple(s, i + 1, c)
    }
}

/// Whether a bare word is a number, a date, `inf` or `nan`.
pub open spec fn is_number_word(word: Seq<char>) -> bool {
    ||| word == "inf"@
    ||| word == "nan"@
    ||| word.len() > 0 && (is_ascii_digit(word[0]) || word[0] == '+' || word[0] == '-' || word[0]
        == '.')
}

/// The token of a value that starts at `i`: its end and its style.
pub open spec fn value_token(s: Seq<char>, i: int, theme: Theme) -> (int, Color, Modifier) {
    let c = s[i];
    if is_ascii_white(c) {
        (ascii_white_end(s, i), theme.fg, Modifier::empty())
    } else if triple_at(s, i, '"') {
        (past_triple(s, i + 3, '"'), theme.syntax_string, Modifier::empty())
    } else if triple_at(s, i, '\'') {
        (past_triple(s, i + 3, '\''), theme.syntax_string, Modifier::empty())
    } else if c == '"' {
        (basic_end(s, i + 1), theme.syntax_string, Modifier::empty())
    } else if c == '\'' {
        (past_char(s, i + 1, '\''), theme.syntax_string, Modifier::empty())
    } else if is_value_punctuation(c) {
        (i + 1, theme.hint, Modifier::empty())
    } else if !is_bare(c) {
        (i + 1, theme.fg, Modifier::empty())
    } else {
        let word = s.subrange(i, bare_end(s, i));
        if word == "true"@ || word == "false"@ {
            (bare_end(s, i), theme.syntax_keyword, Modifier::italic())
        } else if is_number_word(word) {
            (bare_end(s, i), theme.syntax_number, Modifier::empty())
        } else {
            (bare_end(s, i), theme.fg, Modifier::empty())
        }
    }
}

/// Every token of a value takes up at least one character and stays inside.
pub proof fn lemma_value_token(s: Seq<char>, i: int, theme: Theme)
    requires
        0 <= i < s.len(),
    ensures
        i < value_token(s, i, theme).0 <= s.len(),
{
    lemma_run_ends(s, i);
    lemma_run_ends(s, i + 1);
    if i + 3 <= s.len() {
        lemma_run_ends(s, i + 3);
    }
    if is_ascii_white(s[i]) {
        lemma_run_ends(s, i + 1);
    }
}

proof fn lemma_run_ends(s: Seq<char>, i: int)
    requires
        0 <= i <= s.len(),
    ensures
        i <= ascii_white_end(s, i) <= s.len(),
        i <= bare_end(s, i) <= s.len(),
        i <= basic_end(s, i) <= s.len(),
        i <= past_char(s, i, '\'') <= s.len(),
        i <= past_triple(s, i, '\'') <= s.len(),
        i <= past_triple(s, i, '"') <= s.len(),
    decreases s.len() - i,
{
    if i < s.len() {
        lemma_run_ends(s, i + 1);
        if i + 2 <= s.len() {
            lemma_run_ends(s, i + 2);
        }
    }
}

/// `tokens` followed by the tokens of the value from `i` on.
pub open spec fn with_value(
    tokens: Seq<TokenView>,
    s: Seq<char>,
    i: int,
    theme: Theme,
) -> Seq<TokenView>
    decreases s.len() - i,
    via value_decreases
{
    if i < 0 || i >= s.len() {
        tokens
    } else {
        let (j, fg, modifier) = value_token(s, i, theme);
        with_value(with_run(tokens, s.subrange(i, j), fg, modifier), s, j, theme)
    }
}

#[via_fn]
proof fn value_decreases(tokens: Seq<TokenView>, s: Seq<char>, i: int, theme: Theme) {
    if 0 <= i < s.len() {
        lemma_value_token(s, i, theme);
    }
}

proof fn lemma_joined_value(tokens: Seq<TokenView>, s: Seq<char>, i: int, theme: Theme)
    requires
        0 <= i <= s.len(),
    ensures
        joined(with_value(tokens, s, i, theme)) == joined(tokens) + s.skip(i),
    decreases s.len() - i,
{
    if i < s.len() {
        lemma_value_token(s, i, theme);
        let (j, fg, modifier) = value_token(s, i, theme);
        lemma_joined_run(tokens, s.subrange(i, j), fg, modifier);
        lemma_joined_value(with_run(tokens, s.subrange(i, j), fg, modifier), s, j, theme);
        assert(joined(tokens) + s.subrange(i, j) + s.skip(j) =~= joined(tokens) + s.skip(i));
    } else {
        assert(joined(tokens) + s.skip(i) =~= joined(tokens));
    }
}

fn find_past_triple(cs: &Vec<char>, from: usize, c: char) -> (end: usize)
    requires
        from <= cs@.len(),
    ensures
        end == past_triple(cs@, from as int, c),
{
    let mut i: usize = from;
    while i < cs.len()
        invariant
            from <= i <= cs@.len(),
            past_triple(cs@, from as int, c) == past_triple(cs@, i as int, c),
        decreases cs@.len() - i,
    {
        if has_triple(cs, i, c) {
            return i + 3;
        }
        i += 1;
    }
    cs.len()
}

fn find_past_char(cs: &Vec<char>, from: usize, c: char) -> (end: usize)
    requires
        from <= cs@.len(),
    ensures
        end == past_char(cs@, from as int, c),
{
    let mut i: usize = from;
    while i < cs.len()
        invariant
            from <= i <= cs@.len(),
            past_char(cs@, from as int, c) == past_char(cs@, i as int, c),
        decreases cs@.len() - i,
    {
        if cs[i] == c {
            return i + 1;
        }
        i += 1;
    }
    cs.len()
}

fn find_basic_end(cs: &Vec<char>, from: usize) -> (end: usize)
    requires
        from <= cs@.len(),
    ensures
        end == basic_end(cs@, from as int),
{
    let mut i: usize = from;
    while i < cs.len()
        invariant
            from <= i <= cs@.len(),
            basic_end(cs@, from as int) == basic_end(cs@, i as int),
        decreases cs@.len() - i,
    {
        if cs[i] == '\\' {
            i = if cs.len() - i > 1 { i + 2 } else { i + 1 };
        } else if cs[i] == '"' {
            return i + 1;
        } else {
            i += 1;
        }
    }
    i
}

fn find_ascii_white_end(cs: &Vec<char>, from: usize) -> (end: usize)
    requires
        from <= cs@.len(),
    ensures
        end == ascii_white_end(cs@, from as int),
{
    let mut i: usize = from;
    while i < cs.len() && is_ascii_white(cs[i])
        invariant
            from <= i <= cs@.len(),
            ascii_white_end(cs@, from as int) == ascii_white_end(cs@, i as int),
        decreases cs@.len() - i,
    {
        i += 1;
    }
    i
}

fn find_bare_end(cs: &Vec<char>, from: usize) -> (end: usize)
    requires
        from <= cs@.len(),
    ensures
        end == bare_end(cs@, from as int),
{
    let mut i: usize = from;
    while i < cs.len() && is_bare(cs[i])
        invariant
            from <= i <= cs@.len(),
            bare_end(cs@, from as int) == bare_end(cs@, i as int),
        decreases cs@.len() - i,
    {
        i += 1;
    }
    i
}

fn next_value_token(cs: &Vec<char>, i: usize, theme: Theme) -> (token: (usize, Color, Modifier))
    requires
        i < cs@.len(),
    ensures
        (token.0 as int, token.1, token.2) == value_token(cs@, i as int, theme),
        i < token.0 <= cs@.len(),
{
    proof {
        lemma_value_token(cs@, i as int, theme);
        lemma_run_ends(cs@, i as int);
    }
    let n = cs.len();
    assert(n == cs@.len());
    let c = cs[i];
    if is_ascii_white(c) {
        (find_ascii_white_end(cs, i), theme.fg, Modifier::empty())
    } else if has_triple(cs, i, '"') {
        (find_past_triple(cs, i + 3, '"'), theme.syntax_string, Modifier::empty())
    } else if has_triple(cs, i, '\'') {
        (find_past_triple(cs, i + 3, '\''), theme.syntax_string, Modifier::empty())
    } else if c == '"' {
        (find_basic_end(cs, i + 1), theme.syntax_string, Modifier::empty())
    } else if c == '\'' {
        (find_past_char(cs, i + 1, '\''), theme.syntax_string, Modifier::empty())
    } else if is_value_punctuation(c) {
        (i + 1, theme.hint, Modifier::empty())
    } else if !is_bare(c) {
        (i + 1, theme.fg, Modifier::empty())
    } else {
        let end = find_bare_end(cs, i);
        let word = text_of(cs, i, end);
        let first = cs[i];
        if same_text(word.as_str(), "true") || same_text(word.as_str(), "false") {
            (end, theme.syntax_keyword, Modifier::italic())
        } else if same_text(word.as_str(), "inf") || same_text(word.as_str(), "nan")
            || is_ascii_digit(first) || first == '+' || first == '-' || first == '.' {
            assert(word@[0] == first);
            (end, theme.syntax_number, Modifier::empty())
        } else {
            (end, theme.fg, Modifier::empty())
        }
    }
}

/// Highlights the value side of `key = <value>`: strings green, numbers and
/// dates orange, booleans magenta italic, brackets and commas dimmed.
pub fn highlight_toml_value(fragment: &Vec<char>, theme: Theme, out: &mut Vec<HiToken>)
    ensures
        tokens_view(final(out)@) == with_value(tokens_view(old(out)@), fragment@, 0, theme),
{
    let ghost before = tokens_view(out@);
    let mut i: usize = 0;
    while i < fragment.len()
        invariant
            i <= fragment@.len(),
            with_value(before, fragment@, 0, theme) == with_value(
                tokens_view(out@),
                fragment@,
                i as int,
                theme,
            ),
        decreases fragment@.len() - i,
    {
        let (j, fg, modifier) = next_value_token(fragment, i, theme);
        push_toml(out, text_of(fragment, i, j), fg, modifier);
        i = j;
    }
}

/// The place of the last `c`, if any.
pub open spec fn last_char(s: Seq<char>, n: int, c: char) -> Option<int>
    decreases n,
{
    if n <= 0 || n > s.len() {
        None
    } else if s[n - 1] == c {
        Some(n - 1)
    } else {
        last_char(s, n - 1, c)
    }
}

fn find_last(cs: &Vec<char>, c: char) -> (at: Option<usize>)
    ensures
        (match at {
            Some(k) => last_char(cs@, cs@.len() as int, c) == Some(k as int) && k < cs@.len()
                && cs@[k as int] == c,
            None => last_char(cs@, cs@.len() as int, c) is None,
        }),
{
    let mut n: usize = cs.len();
    while n > 0
        invariant
            n <= cs@.len(),
            last_char(cs@, cs@.len() as int, c) == last_char(cs@, n as int, c),
        decreases n,
    {
        if cs[n - 1] == c {
            return Some(n - 1);
        }
        n -= 1;
    }
    None
}

/// `tokens` followed by a padded dotted name: the white space around it plain,
/// its segments in the given style.
pub open spec fn with_padded_name(
    tokens: Seq<TokenView>,
    name: Seq<char>,
    fg: Color,
    modifier: Modifier,
    theme: Theme,
) -> Seq<TokenView> {
    let lead = with_run(
        tokens,
        name.take(white_end(name, 0)),
        theme.fg,
        Modifier::empty(),
    );
    let body = with_dotted(lead, trimmed(name), fg, modifier, theme);
    with_run(body, name.skip(white_start(name, name.len() as int)), theme.fg, Modifier::empty())
}

fn push_padded_name(
    name: &Vec<char>,
    out: &mut Vec<HiToken>,
    fg: Color,
    modifier: Modifier,
    theme: Theme,
)
    ensures
        tokens_view(final(out)@) == with_padded_name(
            tokens_view(old(out)@),
            name@,
            fg,
            modifier,
            theme,
        ),
{
    let lead = skip_white(name, 0);
    let trail = skip_white_back(name, name.len());
    proof {
        lemma_trim_bounds(name@);
        assert(name@.take(lead as int) =~= name@.subrange(0, lead as int));
        assert(name@.skip(trail as int) =~= name@.subrange(trail as int, name@.len() as int));
    }
    push_toml(out, text_of(name, 0, lead), theme.fg, Modifier::empty());
    let body = if lead >= name.len() {
        Vec::new()
    } else {
        slice_of(name, lead, trail)
    };
    assert(body@ =~= trimmed(name@));
    highlight_toml_dotted(&body, out, fg, modifier, theme);
    push_toml(out, text_of(name, trail, name.len()), theme.fg, Modifier::empty());
}

/// The brackets of a table header that starts with `[`: where the name inside
/// them starts and ends, and the place of the last `]`.
pub open spec fn header_bounds(rest: Seq<char>) -> Option<(int, int, int)> {
    match last_char(rest, rest.len() as int, ']') {
        None => None,
        Some(close) => if close == 0 {
            None
        } else if rest.len() >= 2 && rest[1] == '[' && rest[close - 1] == ']' {
            Some((2, close - 1, close))
        } else {
            Some((1, close, close))
        },
    }
}

/// `tokens` followed by the tokens of a table header `rest`, which starts
/// with `[`: dimmed brackets, the bold name, and what stands behind it.
pub open spec fn with_header(
    tokens: Seq<TokenView>,
    rest: Seq<char>,
    bounds: (int, int, int),
    theme: Theme,
) -> Seq<TokenView> {
    let (inner, inner_end, close) = bounds;
    let opened = with_run(tokens, rest.take(inner), theme.hint, Modifier::empty());
    let named = with_padded_name(
        opened,
        rest.subrange(inner, inner_end),
        theme.syntax_type,
        Modifier::bold(),
        theme,
    );
    let closed = with_run(
        named,
        rest.subrange(inner_end, close + 1),
        theme.hint,
        Modifier::empty(),
    );
    let tail = rest.skip(close + 1);
    if is_blank(tail) {
        with_run(closed, tail, theme.fg, Modifier::empty())
    } else {
        with_value(closed, tail, 0, theme)
    }
}

/// The tokens of a line without its comment; not blank.
pub open spec fn code_tokens(code: Seq<char>, theme: Theme) -> Seq<TokenView> {
    let none = Seq::<TokenView>::empty();
    let indent = white_end(code, 0);
    let rest = code.skip(indent);
    if rest.len() > 0 && rest[0] == '[' {
        let indented = with_run(none, code.take(indent), theme.fg, Modifier::empty());
        match header_bounds(rest) {
            Some(bounds) => with_header(indented, rest, bounds, theme),
            None => with_value(indented, code, 0, theme),
        }
    } else {
        match equals_at(code) {
            Some(eq) => {
                let key = with_padded_name(
                    none,
                    code.take(eq),
                    theme.syntax_function,
                    Modifier::empty(),
                    theme,
                );
                let equals = with_run(key, seq!['='], theme.hint, Modifier::empty());
                with_value(equals, code.skip(eq + 1), 0, theme)
            },
            None => with_value(none, code, 0, theme),
        }
    }
}

/// The tokens of one TOML line.
pub open spec fn toml_tokens(text: Seq<char>, theme: Theme) -> Seq<TokenView> {
    let at = comment_start(text);
    let code = match at {
        Some(k) => text.take(k),
        None => text,
    };
    let comment = match at {
        Some(k) => text.skip(k),
        None => Seq::empty(),
    };
    let styled = if is_blank(code) {
        with_run(Seq::empty(), code, theme.fg, Modifier::empty())
    } else {
        code_tokens(code, theme)
    };
    let all = with_run(styled, comment, theme.syntax_comment, Modifier::italic());
    if all.len() == 0 {
        seq![TokenView { text, fg: theme.fg, modifier: Modifier::empty() }]
    } else {
        all
    }
}

fn push_header(
    rest: &Vec<char>,
    inner: usize,
    inner_end: usize,
    close: usize,
    out: &mut Vec<HiToken>,
    theme: Theme,
)
    requires
        inner <= inner_end <= close < rest@.len(),
    ensures
        tokens_view(final(out)@) == with_header(
            tokens_view(old(out)@),
            rest@,
            (inner as int, inner_end as int, close as int),
            theme,
        ),
{
    let n = rest.len();
    proof {
        assert(rest@.take(inner as int) =~= rest@.subrange(0, inner as int));
        assert(rest@.skip(close + 1) =~= rest@.subrange(close + 1, n as int));
    }
    push_toml(out, text_of(rest, 0, inner), theme.hint, Modifier::empty());
    let name = slice_of(rest, inner, inner_end);
    push_padded_name(&name, out, theme.syntax_type, Modifier::bold(), theme);
    push_toml(out, text_of(rest, inner_end, close + 1), theme.hint, Modifier::empty());
    let tail = slice_of(rest, close + 1, n);
    if all_white(&tail) {
        push_toml(out, text_of(rest, close + 1, n), theme.fg, Modifier::empty());
    } else {
        highlight_toml_value(&tail, theme, out);
    }
}

fn highlight_code(code: &Vec<char>, theme: Theme) -> (out: Vec<HiToken>)
    requires
        !is_blank(code@),
    ensures
        tokens_view(out@) == code_tokens(code@, theme),
{
    let mut out: Vec<HiToken> = Vec::new();
    assert(tokens_view(out@) =~= Seq::<TokenView>::empty());
    let n = code.len();
    let indent = skip_white(code, 0);
    proof {
        lemma_trim_bounds(code@);
        assert(code@.skip(indent as int) =~= code@.subrange(indent as int, n as int));
        assert(code@.take(indent as int) =~= code@.subrange(0, indent as int));
    }
    let rest = slice_of(code, indent, n);
    if rest[0] == '[' {
        push_toml(&mut out, text_of(code, 0, indent), theme.fg, Modifier::empty());
        match find_last(&rest, ']') {
            Some(close) => {
                if close == 0 {
                    highlight_toml_value(code, theme, &mut out);
                } else if rest.len() >= 2 && rest[1] == '[' && rest[close - 1] == ']' {
                    push_header(&rest, 2, close - 1, close, &mut out, theme);
                } else {
                    push_header(&rest, 1, close, close, &mut out, theme);
                }
            },
            None => {
                highlight_toml_value(code, theme, &mut out);
            },
        }
    } else {
        match find_toml_equals(code) {
            Some(eq) => {
                assert(code@.take(eq as int) =~= code@.subrange(0, eq as int));
                assert(code@.skip(eq + 1) =~= code@.subrange(eq + 1, n as int));
                let key = slice_of(code, 0, eq);
                push_padded_name(
                    &key,
                    &mut out,
                    theme.syntax_function,
                    Modifier::empty(),
                    theme,
                );
                let mut equals = String::new();
                equals.push('=');
                assert(equals@ =~= seq!['=']);
                push_toml(&mut out, equals, theme.hint, Modifier::empty());
                let value = slice_of(code, eq + 1, n);
                highlight_toml_value(&value, theme, &mut out);
            },
            None => {
                highlight_toml_value(code, theme, &mut out);
            },
        }
    }
    out
}

/// Highlights one TOML line: cyan tables, blue keys, green strings, orange
/// numbers, magenta booleans, dimmed punctuation, italic comments.
pub fn highlight_toml_line(text: &str, theme: Theme) -> (out: Vec<HiToken>)
    ensures
        tokens_view(out@) == toml_tokens(text@, theme),
{
    let cs = chars_of(text);
    let n = cs.len();
    let at = find_toml_comment_start(&cs);
    let split = match at {
        Some(k) => k,
        None => n,
    };
    let code = slice_of(&cs, 0, split);
    let comment = text_of(&cs, split, n);
    proof {
        assert(text@.take(split as int) =~= code@);
        assert(text@.skip(split as int) =~= comment@);
        assert(at is None ==> code@ =~= text@);
        assert(at is None ==> comment@ =~= Seq::<char>::empty());
    }
    let mut out: Vec<HiToken> = Vec::new();
    assert(tokens_view(out@) =~= Seq::<TokenView>::empty());
    if all_white(&code) {
        push_toml(&mut out, text_of(&cs, 0, split), theme.fg, Modifier::empty());
    } else {
        out = highlight_code(&code, theme);
    }
    push_toml(&mut out, comment, theme.syntax_comment, Modifier::italic());
    if out.len() == 0 {
        out.push(HiToken { text: text.to_owned(), fg: theme.fg, modifier: Modifier::empty() });
        assert(tokens_view(out@) =~= seq![
            TokenView { text: text@, fg: theme.fg, modifier: Modifier::empty() },
        ]);
    }
    out
}

/// A header or a key whose name is blank but not empty, or an indented line
/// that opens a header without closing it. Such lines do not keep their white
/// space when they are highlighted.
pub open spec fn repeats_white(code: Seq<char>) -> bool {
    let indent = white_end(code, 0);
    let rest = code.skip(indent);
    if rest.len() > 0 && rest[0] == '[' {
        match header_bounds(rest) {
            Some((inner, inner_end, _)) => inner < inner_end && is_blank(
                rest.subrange(inner, inner_end),
            ),
            None => indent > 0,
        }
    } else {
        match equals_at(code) {
            Some(eq) => eq > 0 && is_blank(code.take(eq)),
            None => false,
        }
    }
}

proof fn lemma_joined_padded_name(
    tokens: Seq<TokenView>,
    name: Seq<char>,
    fg: Color,
    modifier: Modifier,
    theme: Theme,
)
    requires
        name.len() > 0 ==> !is_blank(name),
    ensures
        joined(with_padded_name(tokens, name, fg, modifier, theme)) == joined(tokens) + name,
{
    lemma_trim_bounds(name);
    let a = white_end(name, 0);
    let b = white_start(name, name.len() as int);
    let lead = with_run(tokens, name.take(a), theme.fg, Modifier::empty());
    let body = with_dotted(lead, trimmed(name), fg, modifier, theme);
    lemma_joined_run(tokens, name.take(a), theme.fg, Modifier::empty());
    lemma_joined_dotted(trimmed(name), 0, 0, None, lead, fg, modifier, theme);
    lemma_joined_run(body, name.skip(b), theme.fg, Modifier::empty());
    assert(trimmed(name).skip(0) =~= trimmed(name));
    assert(joined(tokens) + name.take(a) + trimmed(name) + name.skip(b) =~= joined(tokens) + name);
}

proof fn lemma_last_char(s: Seq<char>, n: int, c: char)
    requires
        0 <= n <= s.len(),
    ensures
        last_char(s, n, c) matches Some(k) ==> 0 <= k < n && s[k] == c,
    decreases n,
{
    if n > 0 && s[n - 1] != c {
        lemma_last_char(s, n - 1, c);
    }
}

proof fn lemma_joined_header(
    tokens: Seq<TokenView>,
    rest: Seq<char>,
    inner: int,
    inner_end: int,
    close: int,
    theme: Theme,
)
    requires
        0 <= inner <= inner_end <= close < rest.len(),
        inner < inner_end ==> !is_blank(rest.subrange(inner, inner_end)),
    ensures
        joined(with_header(tokens, rest, (inner, inner_end, close), theme)) == joined(tokens)
            + rest,
{
    let opened = with_run(tokens, rest.take(inner), theme.hint, Modifier::empty());
    let name = rest.subrange(inner, inner_end);
    let named = with_padded_name(opened, name, theme.syntax_type, Modifier::bold(), theme);
    let brackets = rest.subrange(inner_end, close + 1);
    let closed = with_run(named, brackets, theme.hint, Modifier::empty());
    let tail = rest.skip(close + 1);
    lemma_joined_run(tokens, rest.take(inner), theme.hint, Modifier::empty());
    lemma_joined_padded_name(opened, name, theme.syntax_type, Modifier::bold(), theme);
    lemma_joined_run(named, brackets, theme.hint, Modifier::empty());
    lemma_joined_run(closed, tail, theme.fg, Modifier::empty());
    lemma_joined_value(closed, tail, 0, theme);
    assert(tail.skip(0) =~= tail);
    assert(joined(tokens) + rest.take(inner) + name + brackets + tail =~= joined(tokens) + rest);
}

/// Highlighting loses no text: the tokens of a TOML line, end to end, are the
/// line, unless it is one that repeats its white space.
pub proof fn law_toml_keeps_text(text: Seq<char>, theme: Theme)
    requires
        !repeats_white(
            match comment_start(text) {
                Some(k) => text.take(k),
                None => text,
            },
        ),
    ensures
        joined(toml_tokens(text, theme)) == text,
{
    let at = comment_start(text);
    lemma_first_outside_bounds(text, 0, Quote::Outside, '#');
    let code = match at {
        Some(k) => text.take(k),
        None => text,
    };
    let comment = match at {
        Some(k) => text.skip(k),
        None => Seq::empty(),
    };
    let none = Seq::<TokenView>::empty();
    assert(code + comment =~= text);
    let styled = if is_blank(code) {
        with_run(none, code, theme.fg, Modifier::empty())
    } else {
        code_tokens(code, theme)
    };
    assert(joined(styled) == code) by {
        if is_blank(code) {
            lemma_joined_run(none, code, theme.fg, Modifier::empty());
            assert(joined(none) + code =~= code);
        } else {
            lemma_joined_code(code, theme);
        }
    }
    lemma_joined_run(styled, comment, theme.syntax_comment, Modifier::italic());
    let all = with_run(styled, comment, theme.syntax_comment, Modifier::italic());
    if all.len() == 0 {
        let one = seq![TokenView { text, fg: theme.fg, modifier: Modifier::empty() }];
        assert(one.drop_last() =~= none);
        assert(joined(one) =~= text);
    }
}

proof fn lemma_joined_code(code: Seq<char>, theme: Theme)
    requires
        !repeats_white(code),
    ensures
        joined(code_tokens(code, theme)) == code,
{
    let none = Seq::<TokenView>::empty();
    let indent = white_end(code, 0);
    let rest = code.skip(indent);
    lemma_trim_bounds(code);
    assert(joined(none) + code =~= code);
    assert(code.skip(0) =~= code);
    if rest.len() > 0 && rest[0] == '[' {
        let lead = code.take(indent);
        let indented = with_run(none, lead, theme.fg, Modifier::empty());
        lemma_joined_run(none, lead, theme.fg, Modifier::empty());
        lemma_last_char(rest, rest.len() as int, ']');
        match header_bounds(rest) {
            Some((inner, inner_end, close)) => {
                lemma_joined_header(indented, rest, inner, inner_end, close, theme);
                assert(joined(none) + lead + rest =~= code);
            },
            None => {
                lemma_joined_value(indented, code, 0, theme);
                assert(lead =~= Seq::<char>::empty());
            },
        }
    } else {
        lemma_first_outside_bounds(code, 0, Quote::Outside, '=');
        match equals_at(code) {
            Some(eq) => {
                let name = code.take(eq);
                let fg = theme.syntax_function;
                let key = with_padded_name(none, name, fg, Modifier::empty(), theme);
                let equals = with_run(key, seq!['='], theme.hint, Modifier::empty());
                let value = code.skip(eq + 1);
                lemma_joined_padded_name(none, name, fg, Modifier::empty(), theme);
                lemma_joined_run(key, seq!['='], theme.hint, Modifier::empty());
                lemma_joined_value(equals, value, 0, theme);
                assert(value.skip(0) =~= value);
                assert(joined(none) + name + seq!['='] + value =~= code);
            },
            None => {
                lemma_joined_value(none, code, 0, theme);
            },
        }
    }
}

} // verus!
