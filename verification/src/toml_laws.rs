//! What highlighted TOML looks like: what shows as a comment, as a name, as a
//! text and as a number.

use crate::style::{Color, Modifier};
use crate::text::{is_blank, is_white, trimmed, white_end, white_start};
use crate::theme::Theme;
use crate::toml_highlight::{
    bare_end, basic_end, code_tokens, comment_start, dotted_from, first_outside, header_bounds,
    is_bare, last_char, lemma_value_token, past_char, quote_step, toml_tokens, triple_at,
    value_token, with_dotted, with_padded_name, with_run, with_value, Quote, TokenView,
};
use vstd::prelude::*;
use vstd::string::*;

verus! {

/// The characters of tokens, each with its color and its attributes.
pub open spec fn painted(tokens: Seq<TokenView>) -> Seq<(char, Color, Modifier)>
    decreases tokens.len(),
{
    if tokens.len() == 0 {
        Seq::empty()
    } else {
        painted(tokens.drop_last()) + in_paint(
            tokens.last().text,
            tokens.last().fg,
            tokens.last().modifier,
        )
    }
}

/// The characters of a text in one color.
pub open spec fn in_paint(text: Seq<char>, fg: Color, modifier: Modifier) -> Seq<
    (char, Color, Modifier),
> {
    text.map_values(|c: char| (c, fg, modifier))
}

proof fn lemma_with_run(tokens: Seq<TokenView>, text: Seq<char>, fg: Color, modifier: Modifier)
    ensures
        painted(with_run(tokens, text, fg, modifier)) == painted(tokens) + in_paint(
            text,
            fg,
            modifier,
        ),
{
    let after = with_run(tokens, text, fg, modifier);
    if text.len() == 0 {
        assert(painted(after) =~= painted(tokens) + in_paint(text, fg, modifier));
    } else if tokens.len() > 0 && tokens.last().fg == fg && tokens.last().modifier == modifier {
        assert(after.drop_last() =~= tokens.drop_last());
        assert(painted(after) =~= painted(tokens) + in_paint(text, fg, modifier));
    } else {
        assert(after.drop_last() =~= tokens);
    }
}

/// A comment is painted as one, to the end of the line.
pub proof fn law_comments_are_painted(text: Seq<char>, theme: Theme, at: int)
    requires
        comment_start(text) == Some(at),
        0 <= at < text.len(),
    ensures
        ({
            let all = painted(toml_tokens(text, theme));
            let n = text.len() - at;
            &&& all.len() >= n
            &&& all.skip(all.len() - n) == in_paint(
                text.skip(at),
                theme.syntax_comment,
                Modifier::italic(),
            )
        }),
{
    let code = text.take(at);
    let comment = text.skip(at);
    let styled = if is_blank(code) {
        with_run(Seq::empty(), code, theme.fg, Modifier::empty())
    } else {
        code_tokens(code, theme)
    };
    lemma_with_run(styled, comment, theme.syntax_comment, Modifier::italic());
    let all = painted(toml_tokens(text, theme));
    let tail = in_paint(comment, theme.syntax_comment, Modifier::italic());
    let tokens = with_run(styled, comment, theme.syntax_comment, Modifier::italic());
    assert(tokens.len() > 0);
    assert(all == painted(styled) + tail);
    assert(all.skip(all.len() - tail.len()) =~= tail);
}

/// Whether a character opens or closes a text.
pub open spec fn is_quote(c: char) -> bool {
    c == '"' || c == '\''
}

/// Where there are no quotes, a mark stands where it first occurs.
pub proof fn law_marks_are_found(s: Seq<char>, i: int, target: char, at: int)
    requires
        0 <= i <= at < s.len(),
        s[at] == target,
        forall|k: int| i <= k < at ==> #[trigger] s[k] != target && !is_quote(s[k]),
    ensures
        first_outside(s, i, Quote::Outside, target) == Some(at),
    decreases at - i,
{
    if i < at {
        law_marks_are_found(s, i + 1, target, at);
    }
}

/// Where a mark does not occur, it is not found.
pub proof fn law_no_marks_are_made_up(s: Seq<char>, i: int, quote: Quote, target: char)
    requires
        0 <= i,
        forall|k: int| i <= k < s.len() ==> #[trigger] s[k] != target,
    ensures
        first_outside(s, i, quote, target) is None,
    decreases s.len() - i,
{
    if i < s.len() {
        let (j, next) = quote_step(s, i, quote);
        law_no_marks_are_made_up(s, j, next, target);
    }
}

proof fn lemma_basic_hides(s: Seq<char>, i: int, end: int, target: char)
    requires
        0 <= i <= end < s.len(),
        s[end] == '"',
        forall|k: int| i <= k < end ==> #[trigger] s[k] != '"' && s[k] != '\\',
    ensures
        first_outside(s, i, Quote::Basic, target) == first_outside(
            s,
            end + 1,
            Quote::Outside,
            target,
        ),
    decreases end - i,
{
    if i < end {
        assert(s[i] != '"' && s[i] != '\\');
        lemma_basic_hides(s, i + 1, end, target);
    }
}

proof fn lemma_literal_hides(s: Seq<char>, i: int, end: int, target: char)
    requires
        0 <= i <= end < s.len(),
        s[end] == '\'',
        forall|k: int| i <= k < end ==> #[trigger] s[k] != '\'',
    ensures
        first_outside(s, i, Quote::Literal, target) == first_outside(
            s,
            end + 1,
            Quote::Outside,
            target,
        ),
    decreases end - i,
{
    if i < end {
        assert(s[i] != '\'');
        lemma_literal_hides(s, i + 1, end, target);
    }
}

/// What stands in a text between quotes is no mark: the search goes on behind
/// the closing quote.
pub proof fn law_texts_hide_marks(s: Seq<char>, i: int, end: int, target: char)
    requires
        0 <= i < end < s.len(),
        is_quote(s[i]),
        s[end] == s[i],
        !is_quote(target),
        !triple_at(s, i, s[i]),
        forall|k: int| i < k < end ==> #[trigger] s[k] != s[i] && s[k] != '\\',
    ensures
        first_outside(s, i, Quote::Outside, target) == first_outside(
            s,
            end + 1,
            Quote::Outside,
            target,
        ),
{
    if s[i] == '"' {
        lemma_basic_hides(s, i + 1, end, target);
    } else {
        lemma_literal_hides(s, i + 1, end, target);
    }
}

proof fn lemma_bare_end(s: Seq<char>, i: int)
    requires
        0 <= i <= s.len(),
        forall|k: int| 0 <= k < s.len() ==> is_bare(#[trigger] s[k]),
    ensures
        bare_end(s, i) == s.len(),
    decreases s.len() - i,
{
    if i < s.len() {
        lemma_bare_end(s, i + 1);
    }
}

/// A value of one word is painted as what it is: `true` and `false` as keywords,
/// a number, a date, `inf` and `nan` as a number, and any other word plainly.
pub proof fn law_words_are_painted(word: Seq<char>, theme: Theme)
    requires
        word.len() > 0,
        forall|k: int| 0 <= k < word.len() ==> is_bare(#[trigger] word[k]),
    ensures
        ({
            let all = painted(with_value(Seq::empty(), word, 0, theme));
            &&& word == "true"@ || word == "false"@ ==> all == in_paint(
                word,
                theme.syntax_keyword,
                Modifier::italic(),
            )
            &&& '0' <= word[0] <= '9' || word[0] == '+' || word[0] == '-' || word == "inf"@ || word
                == "nan"@ ==> all == in_paint(word, theme.syntax_number, Modifier::empty())
            &&& ('a' <= word[0] <= 'z' || 'A' <= word[0] <= 'Z' || word[0] == '_') && word
                != "true"@ && word != "false"@ && word != "inf"@ && word != "nan"@ ==> all
                == in_paint(word, theme.fg, Modifier::empty())
        }),
{
    reveal_strlit("true");
    reveal_strlit("false");
    reveal_strlit("inf");
    reveal_strlit("nan");
    assert("true"@[0] == 't' && "false"@[0] == 'f' && "inf"@[0] == 'i' && "nan"@[0] == 'n');
    assert("inf"@.len() == 3 && "nan"@.len() == 3 && "true"@.len() == 4 && "false"@.len() == 5);
    reveal_with_fuel(with_value, 2);
    lemma_bare_end(word, 0);
    assert(is_bare(word[0]));
    assert(word.subrange(0, word.len() as int) =~= word);
    let none = Seq::<TokenView>::empty();
    let (j, fg, modifier) = value_token(word, 0, theme);
    lemma_with_run(none, word, fg, modifier);
    assert(painted(none) + in_paint(word, fg, modifier) =~= in_paint(word, fg, modifier));
}

proof fn lemma_basic_end(s: Seq<char>, i: int)
    requires
        0 <= i < s.len(),
        s.last() == '"',
        forall|k: int| i <= k < s.len() - 1 ==> #[trigger] s[k] != '"' && s[k] != '\\',
    ensures
        basic_end(s, i) == s.len(),
    decreases s.len() - i,
{
    if i < s.len() - 1 {
        assert(s[i] != '"' && s[i] != '\\');
        lemma_basic_end(s, i + 1);
    }
}

proof fn lemma_past_char(s: Seq<char>, i: int, c: char)
    requires
        0 <= i < s.len(),
        s.last() == c,
        forall|k: int| i <= k < s.len() - 1 ==> #[trigger] s[k] != c,
    ensures
        past_char(s, i, c) == s.len(),
    decreases s.len() - i,
{
    if i < s.len() - 1 {
        assert(s[i] != c);
        lemma_past_char(s, i + 1, c);
    }
}

/// A text between quotes is painted as a text, its quotes with it.
pub proof fn law_texts_are_painted(s: Seq<char>, theme: Theme)
    requires
        s.len() > 2,
        is_quote(s[0]),
        s.last() == s[0],
        forall|k: int| 0 < k < s.len() - 1 ==> #[trigger] s[k] != s[0] && s[k] != '\\',
    ensures
        painted(with_value(Seq::empty(), s, 0, theme)) == in_paint(
            s,
            theme.syntax_string,
            Modifier::empty(),
        ),
{
    reveal_with_fuel(with_value, 2);
    assert(s[1] != s[0]);
    if s[0] == '"' {
        lemma_basic_end(s, 1);
    } else {
        lemma_past_char(s, 1, '\'');
    }
    assert(s.subrange(0, s.len() as int) =~= s);
    let none = Seq::<TokenView>::empty();
    lemma_with_run(none, s, theme.syntax_string, Modifier::empty());
    let paint = in_paint(s, theme.syntax_string, Modifier::empty());
    assert(painted(none) + paint =~= paint);
}

proof fn lemma_dotted(
    body: Seq<char>,
    i: int,
    tokens: Seq<TokenView>,
    fg: Color,
    modifier: Modifier,
    theme: Theme,
)
    requires
        0 <= i <= body.len(),
        forall|k: int| 0 <= k < body.len() ==> #[trigger] body[k] != '.' && !is_quote(body[k]),
    ensures
        dotted_from(body, 0, i, None, tokens, fg, modifier, theme) == with_run(
            tokens,
            body,
            fg,
            modifier,
        ),
    decreases body.len() - i,
{
    if i < body.len() {
        assert(body[i] != '.' && !is_quote(body[i]));
        lemma_dotted(body, i + 1, tokens, fg, modifier, theme);
    } else {
        assert(body.skip(0) =~= body);
    }
}

/// Whether a text is a name of one part: not empty, without white space, dots
/// and quotes.
pub open spec fn is_name(name: Seq<char>) -> bool {
    &&& name.len() > 0
    &&& forall|k: int|
        0 <= k < name.len() ==> !is_white(#[trigger] name[k]) && name[k] != '.' && !is_quote(
            name[k],
        )
}

proof fn lemma_padded_name(
    tokens: Seq<TokenView>,
    name: Seq<char>,
    fg: Color,
    modifier: Modifier,
    theme: Theme,
)
    requires
        is_name(name),
    ensures
        painted(with_padded_name(tokens, name, fg, modifier, theme)) == painted(tokens) + in_paint(
            name,
            fg,
            modifier,
        ),
{
    assert(!is_white(name[0]));
    assert(!is_white(name[name.len() - 1]));
    assert(white_end(name, 0) == 0);
    assert(white_start(name, name.len() as int) == name.len());
    assert(trimmed(name) =~= name);
    let lead = with_run(tokens, name.take(0), theme.fg, Modifier::empty());
    assert(lead == tokens);
    lemma_dotted(name, 0, lead, fg, modifier, theme);
    lemma_with_run(tokens, name, fg, modifier);
    let body = with_dotted(lead, name, fg, modifier, theme);
    assert(name.skip(name.len() as int).len() == 0);
}

proof fn lemma_value_appends(tokens: Seq<TokenView>, s: Seq<char>, i: int, theme: Theme)
    requires
        0 <= i <= s.len(),
    ensures
        painted(with_value(tokens, s, i, theme)) == painted(tokens) + painted(
            with_value(Seq::empty(), s, i, theme),
        ),
    decreases s.len() - i,
{
    let none = Seq::<TokenView>::empty();
    if i < s.len() {
        let (j, fg, modifier) = value_token(s, i, theme);
        lemma_value_token(s, i, theme);
        let text = s.subrange(i, j);
        lemma_with_run(tokens, text, fg, modifier);
        lemma_with_run(none, text, fg, modifier);
        lemma_value_appends(with_run(tokens, text, fg, modifier), s, j, theme);
        lemma_value_appends(with_run(none, text, fg, modifier), s, j, theme);
        assert(painted(with_value(tokens, s, i, theme)) =~= painted(tokens) + painted(
            with_value(none, s, i, theme),
        ));
    } else {
        assert(painted(tokens) + painted(none) =~= painted(tokens));
    }
}

/// An entry is painted in three parts: its name as a name, the equals sign
/// dimmed, and behind it the value as a value.
pub proof fn law_entries_are_painted(name: Seq<char>, value: Seq<char>, theme: Theme)
    requires
        is_name(name),
        name[0] != '[',
        !name.contains('='),
    ensures
        painted(code_tokens(name + seq!['='] + value, theme)) == in_paint(
            name,
            theme.syntax_function,
            Modifier::empty(),
        ) + in_paint(seq!['='], theme.hint, Modifier::empty()) + painted(
            with_value(Seq::empty(), value, 0, theme),
        ),
{
    let code = name + seq!['='] + value;
    let n = name.len() as int;
    assert(!is_white(name[0]));
    assert(code[0] == name[0]);
    assert(white_end(code, 0) == 0);
    assert(code.skip(0) =~= code);
    assert forall|k: int| 0 <= k < n implies #[trigger] code[k] != '=' && !is_quote(code[k]) by {
        assert(code[k] == name[k]);
        if name[k] == '=' {
            assert(name.contains('='));
        }
    }
    law_marks_are_found(code, 0, '=', n);
    assert(code.take(n) =~= name);
    assert(code.skip(n + 1) =~= value);
    let none = Seq::<TokenView>::empty();
    lemma_padded_name(none, name, theme.syntax_function, Modifier::empty(), theme);
    let key = with_padded_name(none, name, theme.syntax_function, Modifier::empty(), theme);
    lemma_with_run(key, seq!['='], theme.hint, Modifier::empty());
    let equals = with_run(key, seq!['='], theme.hint, Modifier::empty());
    lemma_value_appends(equals, value, 0, theme);
    let front = in_paint(name, theme.syntax_function, Modifier::empty());
    assert(painted(none) + front =~= front);
}

/// The header of a table is its name in bold between dimmed brackets.
pub proof fn law_headers_are_painted(name: Seq<char>, theme: Theme)
    requires
        is_name(name),
        !name.contains('['),
        !name.contains(']'),
    ensures
        painted(code_tokens(seq!['['] + name + seq![']'], theme)) == in_paint(
            seq!['['],
            theme.hint,
            Modifier::empty(),
        ) + in_paint(name, theme.syntax_type, Modifier::bold()) + in_paint(
            seq![']'],
            theme.hint,
            Modifier::empty(),
        ),
{
    let code = seq!['['] + name + seq![']'];
    let n = name.len() as int;
    assert(code[0] == '[' && code[n + 1] == ']');
    assert(white_end(code, 0) == 0);
    assert(code.skip(0) =~= code);
    assert(code[1] == name[0]);
    assert(name.contains(name[0]));
    assert(code[n] == name[n - 1]);
    assert(name.contains(name[n - 1]));
    assert(last_char(code, n + 2, ']') == Some(n + 1));
    assert(header_bounds(code) == Some((1int, n + 1, n + 1)));
    assert(code.take(1) =~= seq!['[']);
    assert(code.subrange(1, n + 1) =~= name);
    assert(code.subrange(n + 1, n + 2) =~= seq![']']);
    assert(code.skip(n + 2).len() == 0);
    let none = Seq::<TokenView>::empty();
    let indented = with_run(none, code.take(0), theme.fg, Modifier::empty());
    assert(indented == none);
    let opened = with_run(none, seq!['['], theme.hint, Modifier::empty());
    lemma_with_run(none, seq!['['], theme.hint, Modifier::empty());
    lemma_padded_name(opened, name, theme.syntax_type, Modifier::bold(), theme);
    let named = with_padded_name(opened, name, theme.syntax_type, Modifier::bold(), theme);
    lemma_with_run(named, seq![']'], theme.hint, Modifier::empty());
    let front = in_paint(seq!['['], theme.hint, Modifier::empty());
    assert(painted(none) + front =~= front);
}

/// An escaped character does not close a text, whatever it is; three quotes open
/// a text that only three of the same close.
pub proof fn law_escapes_and_long_texts(s: Seq<char>, i: int, target: char)
    requires
        0 <= i,
        i + 3 <= s.len(),
        !is_quote(target),
    ensures
        s[i] == '\\' ==> first_outside(s, i, Quote::Basic, target) == first_outside(
            s,
            i + 2,
            Quote::Basic,
            target,
        ),
        triple_at(s, i, '"') ==> first_outside(s, i, Quote::Outside, target) == first_outside(
            s,
            i + 3,
            Quote::MultiBasic,
            target,
        ) && first_outside(s, i, Quote::MultiBasic, target) == first_outside(
            s,
            i + 3,
            Quote::Outside,
            target,
        ),
        triple_at(s, i, '\'') ==> first_outside(s, i, Quote::Outside, target) == first_outside(
            s,
            i + 3,
            Quote::MultiLiteral,
            target,
        ) && first_outside(s, i, Quote::MultiLiteral, target) == first_outside(
            s,
            i + 3,
            Quote::Outside,
            target,
        ),
        s[i] == '"' && s[i + 1] != '"' ==> first_outside(s, i, Quote::MultiBasic, target)
            == first_outside(s, i + 1, Quote::MultiBasic, target),
{
}

/// The parts of a dotted name are painted as names, and the dots between them are
/// dimmed.
pub proof fn law_dots_are_dimmed(
    first: Seq<char>,
    second: Seq<char>,
    fg: Color,
    modifier: Modifier,
    theme: Theme,
)
    requires
        is_name(first),
        is_name(second),
    ensures
        painted(with_dotted(Seq::empty(), first + seq!['.'] + second, fg, modifier, theme))
            == in_paint(first, fg, modifier) + in_paint(seq!['.'], theme.hint, Modifier::empty())
            + in_paint(second, fg, modifier),
{
    let body = first + seq!['.'] + second;
    let n = first.len() as int;
    let none = Seq::<TokenView>::empty();
    lemma_dotted_to(body, 0, 0, n, none, fg, modifier, theme);
    assert(body.subrange(0, n) =~= first);
    let a = with_run(none, first, fg, modifier);
    let c = with_run(a, seq!['.'], theme.hint, Modifier::empty());
    lemma_with_run(none, first, fg, modifier);
    lemma_with_run(a, seq!['.'], theme.hint, Modifier::empty());
    assert(body[n] == '.');
    lemma_dotted_to(body, n + 1, n + 1, body.len() as int, c, fg, modifier, theme);
    assert(body.skip(n + 1) =~= second);
    lemma_with_run(c, second, fg, modifier);
    let front = in_paint(first, fg, modifier);
    assert(painted(none) + front =~= front);
}

proof fn lemma_dotted_to(
    body: Seq<char>,
    start: int,
    i: int,
    end: int,
    tokens: Seq<TokenView>,
    fg: Color,
    modifier: Modifier,
    theme: Theme,
)
    requires
        0 <= start <= i <= end <= body.len(),
        forall|k: int| start <= k < end ==> #[trigger] body[k] != '.' && !is_quote(body[k]),
    ensures
        dotted_from(body, start, i, None, tokens, fg, modifier, theme) == dotted_from(
            body,
            start,
            end,
            None,
            tokens,
            fg,
            modifier,
            theme,
        ),
    decreases end - i,
{
    if i < end {
        assert(body[i] != '.' && !is_quote(body[i]));
        lemma_dotted_to(body, start, i + 1, end, tokens, fg, modifier, theme);
    }
}

} // verus!
