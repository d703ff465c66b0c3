//! What rendered Markdown looks like: what becomes of the words of a paragraph,
//! and how headings, quotes, lists, code and emphasis show.

use crate::markdown::{document_lines, without_trailing_blank, MdState};
use crate::markdown_events::{MdEventView, MdKind, MdStartView};
use crate::markdown_table::span;
use crate::markdown_wrap::row_text;
use crate::style::{Modifier, SpanView, Style};
use syntect::parsing::SyntaxSet;
use crate::text::{
    decimal, index_of_char, is_blank, is_white, lemma_index_of_char, lines_from, repeated,
};
use crate::theme::Theme;
use crate::width::{line_width, text_width};
use vstd::prelude::*;
use vstd::string::*;

verus! {

/// The words of a text: its longest runs without white space.
pub open spec fn words(text: Seq<char>) -> Seq<Seq<char>>
    decreases text.len(),
{
    if text.len() == 0 {
        Seq::empty()
    } else {
        let before = words(text.drop_last());
        if is_white(text.last()) {
            before
        } else if ends_in_word(text.drop_last()) {
            before.drop_last().push(before.last().push(text.last()))
        } else {
            before.push(seq![text.last()])
        }
    }
}

/// Whether a text ends inside a word.
pub open spec fn ends_in_word(text: Seq<char>) -> bool {
    text.len() > 0 && !is_white(text.last())
}

/// The text of lines, each of them ended by a line break.
pub open spec fn text_of(lines: Seq<Seq<SpanView>>) -> Seq<char>
    decreases lines.len(),
{
    if lines.len() == 0 {
        Seq::empty()
    } else {
        text_of(lines.drop_last()) + row_text(lines.last()).push('\n')
    }
}

/// Whether two texts read the same so far, and go on the same.
spec fn reads_as(a: Seq<char>, b: Seq<char>) -> bool {
    words(a) == words(b) && ends_in_word(a) == ends_in_word(b)
}

proof fn lemma_reads_on(a: Seq<char>, b: Seq<char>, more: Seq<char>)
    requires
        reads_as(a, b),
    ensures
        reads_as(a + more, b + more),
    decreases more.len(),
{
    if more.len() == 0 {
        assert(a + more =~= a && b + more =~= b);
    } else {
        let some = more.drop_last();
        lemma_reads_on(a, b, some);
        assert((a + more).drop_last() =~= a + some);
        assert((b + more).drop_last() =~= b + some);
        assert((a + more).last() == more.last() && (b + more).last() == more.last());
    }
}

proof fn lemma_white_reads_on(a: Seq<char>, c: char)
    requires
        is_white(c),
    ensures
        words(a.push(c)) == words(a),
        !ends_in_word(a.push(c)),
{
    assert(a.push(c).drop_last() =~= a);
}

proof fn lemma_blank_words(a: Seq<char>, more: Seq<char>)
    requires
        is_blank(more),
    ensures
        words(a + more) == words(a),
        more.len() > 0 ==> !ends_in_word(a + more),
    decreases more.len(),
{
    if more.len() == 0 {
        assert(a + more =~= a);
    } else {
        lemma_blank_words(a, more.drop_last());
        assert(is_white(more.last()));
        assert((a + more).drop_last() =~= a + more.drop_last());
    }
}

proof fn lemma_no_words(text: Seq<char>)
    requires
        words(text).len() == 0,
    ensures
        is_blank(text),
    decreases text.len(),
{
    if text.len() > 0 {
        assert(is_white(text.last())) by {
            if !is_white(text.last()) {
                assert(words(text).len() > 0);
            }
        }
        lemma_no_words(text.drop_last());
        assert forall|i: int| 0 <= i < text.len() implies is_white(#[trigger] text[i]) by {
            if i < text.len() - 1 {
                assert(text.drop_last()[i] == text[i]);
            }
        }
    }
}

/// Whether an event is text, code or a line break within a paragraph, or the
/// start or end of emphasis, strong text, struck text or a link in it.
pub open spec fn is_inline(event: MdEventView) -> bool {
    match event {
        MdEventView::Text(_) | MdEventView::Code(_) | MdEventView::SoftBreak
        | MdEventView::HardBreak => true,
        MdEventView::Start(s) => is_mark(s.kind),
        MdEventView::End(kind) => is_mark(kind),
        _ => false,
    }
}

/// Whether an element marks text without being any.
pub open spec fn is_mark(kind: MdKind) -> bool {
    kind == MdKind::Emphasis || kind == MdKind::Strong || kind == MdKind::Strikethrough || kind
        == MdKind::Link
}

/// The source text of the first `k` events of a paragraph, with its line breaks.
pub open spec fn source(events: Seq<MdEventView>, k: nat) -> Seq<char>
    decreases k,
{
    if k == 0 {
        Seq::empty()
    } else {
        source(events, (k - 1) as nat) + match events[k - 1] {
            MdEventView::Text(text) => text,
            MdEventView::Code(code) => code,
            MdEventView::SoftBreak | MdEventView::HardBreak => seq!['\n'],
            _ => Seq::empty(),
        }
    }
}

/// Whether every part of a text that is more than white space takes up columns:
/// there is no character in it that cannot be seen.
pub open spec fn is_visible(text: Seq<char>) -> bool {
    forall|i: int, j: int|
        0 <= i <= j <= text.len() && !is_blank(#[trigger] text.subrange(i, j)) ==> text_width(
            text.subrange(i, j),
        ) > 0
}

/// The events of a paragraph.
pub open spec fn paragraph(inline: Seq<MdEventView>) -> Seq<MdEventView> {
    seq![MdEventView::Start(plain_start(MdKind::Paragraph))] + inline + seq![
        MdEventView::End(MdKind::Paragraph),
    ]
}

/// The start of an element that has nothing of its own.
pub open spec fn plain_start(kind: MdKind) -> MdStartView {
    MdStartView { kind, text: Seq::empty(), number: None, aligns: Seq::empty() }
}

/// Whether a text is a part of another one.
spec fn is_part(part: Seq<char>, text: Seq<char>) -> bool {
    exists|i: int, j: int| 0 <= i <= j <= text.len() && part == #[trigger] text.subrange(i, j)
}

/// Whether the spans of a line are white space or parts of a text.
spec fn made_of(line: Seq<SpanView>, text: Seq<char>) -> bool {
    forall|i: int|
        0 <= i < line.len() ==> is_blank((#[trigger] line[i]).text) || is_part(line[i].text, text)
}

impl MdState {
    /// What is on the page, the line being filled at its end.
    spec fn page(self) -> Seq<char> {
        text_of(self.lines) + row_text(self.cur)
    }

    /// Whether text goes straight to the page.
    spec fn is_in_text(self) -> bool {
        &&& self.code is None
        &&& self.table is None
        &&& self.prefix is None
        &&& self.quotes == 0
    }

    /// Whether all that is on the page is white space or part of a text.
    spec fn is_made_of(self, text: Seq<char>) -> bool {
        &&& made_of(self.cur, text)
        &&& forall|i: int| 0 <= i < self.lines.len() ==> made_of(#[trigger] self.lines[i], text)
    }
}

proof fn lemma_with_span(st: MdState, text: Seq<char>, style: Style, whole: Seq<char>)
    requires
        st.is_made_of(whole),
        is_blank(text) || is_part(text, whole),
    ensures
        st.with_span(text, style).page() == st.page() + text,
        st.with_span(text, style).is_made_of(whole),
{
    let after = st.with_span(text, style);
    assert(after.cur.drop_last() =~= st.cur);
    assert(after.page() =~= st.page() + text);
    assert forall|i: int| 0 <= i < after.cur.len() implies is_blank((#[trigger] after.cur[i]).text)
        || is_part(after.cur[i].text, whole) by {
        if i < st.cur.len() {
            assert(after.cur[i] == st.cur[i]);
        }
    }
}

/// Ending the line is a line break on the page, if it is not at the start of a
/// line already.
proof fn lemma_flush(st: MdState, whole: Seq<char>)
    requires
        st.quotes == 0,
        st.is_made_of(whole),
    ensures
        words(st.flush().page()) == words(st.page()),
        !ends_in_word(st.flush().page()),
        st.flush().cur.len() == 0,
        st.flush().is_made_of(whole),
        st.flush() == (MdState {
            lines: st.flush().lines,
            cur: Seq::empty(),
            ..st
        }),
{
    let f = st.flush();
    if st.cur.len() == 0 {
        assert(st.cur =~= Seq::empty());
        assert(st.page() =~= text_of(st.lines));
        if st.lines.len() > 0 {
            assert(text_of(st.lines).last() == '\n');
        }
    } else {
        assert(Seq::<SpanView>::empty() + st.cur =~= st.cur);
        assert(f.lines.drop_last() =~= st.lines);
        assert(f.page() =~= st.page().push('\n'));
        lemma_white_reads_on(st.page(), '\n');
        assert forall|i: int| 0 <= i < f.lines.len() implies made_of(#[trigger] f.lines[i], whole) by {
            if i < st.lines.len() {
                assert(f.lines[i] == st.lines[i]);
            }
        }
    }
}

proof fn lemma_typed(st: MdState, text: Seq<char>, i: int, whole: Seq<char>, from: int)
    requires
        st.is_in_text(),
        st.is_made_of(whole),
        0 <= i <= text.len(),
        0 <= from,
        from + text.len() <= whole.len(),
        text == whole.subrange(from, from + text.len()),
    ensures
        reads_as(st.typed(text, i).page(), st.page() + text.skip(i)),
        st.typed(text, i).is_in_text(),
        st.typed(text, i).is_made_of(whole),
    decreases text.len() - i,
{
    lemma_index_of_char(text, i, '\n');
    let end = index_of_char(text, i, '\n');
    let part = text.subrange(i, end);
    assert(part =~= whole.subrange(from + i, from + end));
    let after = if part.len() > 0 {
        st.with_span(part, st.base_style())
    } else {
        st
    };
    if part.len() > 0 {
        lemma_with_span(st, part, st.base_style(), whole);
    } else {
        assert(st.page() + part =~= st.page());
    }
    if end < text.len() {
        lemma_flush(after, whole);
        lemma_typed(after.flush(), text, end + 1, whole, from);
        lemma_white_reads_on(after.page(), '\n');
        lemma_reads_on(after.flush().page(), after.page().push('\n'), text.skip(end + 1));
        assert(after.page().push('\n') + text.skip(end + 1) =~= st.page() + text.skip(i));
    } else {
        assert(st.page() + part =~= st.page() + text.skip(i));
    }
}

/// Each event of a paragraph puts its text on the page.
proof fn lemma_inline(
    st: MdState,
    events: Seq<MdEventView>,
    k: nat,
    set: SyntaxSet,
    whole: Seq<char>,
)
    requires
        st.is_in_text(),
        st.is_made_of(whole),
        k < events.len(),
        is_inline(events[k as int]),
        source(events, k + 1).len() <= whole.len(),
        whole.take(source(events, k + 1).len() as int) == source(events, k + 1),
        reads_as(st.page(), source(events, k)),
    ensures
        reads_as(st.step(events[k as int], set).page(), source(events, k + 1)),
        st.step(events[k as int], set).is_in_text(),
        st.step(events[k as int], set).is_made_of(whole),
{
    let before = source(events, k);
    let from = before.len() as int;
    let upto = source(events, k + 1).len() as int;
    match events[k as int] {
        MdEventView::Text(text) => {
            assert(text =~= whole.subrange(from, upto)) by {
                assert(source(events, k + 1) == before + text);
                assert(whole.subrange(from, upto) =~= whole.take(upto).skip(from));
                assert((before + text).skip(from) =~= text);
            }
            lemma_typed(st, text, 0, whole, from);
            assert(text.skip(0) =~= text);
            lemma_reads_on(st.page(), before, text);
        },
        MdEventView::Code(code) => {
            assert(code =~= whole.subrange(from, upto)) by {
                assert(source(events, k + 1) == before + code);
                assert(whole.subrange(from, upto) =~= whole.take(upto).skip(from));
                assert((before + code).skip(from) =~= code);
            }
            let style = Style::plain().fg(st.theme.syntax_string).bg(st.theme.selection_bg);
            lemma_with_span(st, code, style, whole);
            lemma_reads_on(st.page(), before, code);
        },
        MdEventView::SoftBreak => {
            reveal_strlit(" ");
            assert(is_blank(" "@));
            lemma_with_span(st, " "@, Style::plain(), whole);
            assert(st.page() + " "@ =~= st.page().push(' '));
            assert(before + seq!['\n'] =~= before.push('\n'));
            lemma_white_reads_on(st.page(), ' ');
            lemma_white_reads_on(before, '\n');
        },
        MdEventView::HardBreak => {
            lemma_flush(st, whole);
            assert(before + seq!['\n'] =~= before.push('\n'));
            lemma_white_reads_on(before, '\n');
        },
        _ => {
            assert(before + Seq::<char>::empty() =~= before);
            assert(st.step(events[k as int], set).page() == st.page());
        },
    }
}

proof fn lemma_source_grows(events: Seq<MdEventView>, k: nat, n: nat)
    requires
        k <= n,
    ensures
        source(events, k).len() <= source(events, n).len(),
        source(events, n).take(source(events, k).len() as int) == source(events, k),
    decreases n - k,
{
    if k < n {
        lemma_source_grows(events, k, (n - 1) as nat);
        let shorter = source(events, (n - 1) as nat);
        let len = source(events, k).len() as int;
        assert(source(events, n).take(len) =~= shorter.take(len));
    } else {
        assert(source(events, n).take(source(events, n).len() as int) =~= source(events, n));
    }
}

proof fn lemma_paragraph(
    inline: Seq<MdEventView>,
    k: nat,
    theme: Theme,
    width: nat,
    set: SyntaxSet,
)
    requires
        k <= inline.len(),
        forall|i: int| 0 <= i < inline.len() ==> is_inline(#[trigger] inline[i]),
    ensures
        ({
            let st = MdState::initial(theme, width).after(paragraph(inline), k + 1, set);
            &&& reads_as(st.page(), source(inline, k))
            &&& st.is_in_text()
            &&& st.is_made_of(source(inline, inline.len()))
        }),
    decreases k,
{
    let events = paragraph(inline);
    let first = MdState::initial(theme, width);
    let whole = source(inline, inline.len());
    if k == 0 {
        reveal_with_fuel(MdState::after, 2);
        assert(events[0] == MdEventView::Start(plain_start(MdKind::Paragraph)));
        assert(first.after(events, 1, set) == first);
        assert(first.page() =~= Seq::<char>::empty());
    } else {
        lemma_paragraph(inline, (k - 1) as nat, theme, width, set);
        let st = first.after(events, k, set);
        assert(events[k as int] == inline[k - 1]);
        lemma_source_grows(inline, k, inline.len());
        lemma_inline(st, inline, (k - 1) as nat, set, whole);
    }
}

/// A line that takes up no columns and is made of visible text has no words.
proof fn lemma_empty_line(line: Seq<SpanView>, whole: Seq<char>)
    requires
        is_visible(whole),
        made_of(line, whole),
        line_width(line) == 0,
    ensures
        is_blank(row_text(line)),
    decreases line.len(),
{
    if line.len() > 0 {
        let some = line.drop_last();
        assert forall|i: int| 0 <= i < some.len() implies is_blank((#[trigger] some[i]).text)
            || is_part(some[i].text, whole) by {
            assert(some[i] == line[i]);
        }
        lemma_empty_line(some, whole);
        let text = line.last().text;
        assert(line[line.len() - 1].text == text);
        assert(text_width(text) == 0);
        if !is_blank(text) {
            let (i, j) = choose|i: int, j: int|
                0 <= i <= j <= whole.len() && text == #[trigger] whole.subrange(i, j);
            assert(text_width(whole.subrange(i, j)) > 0);
        }
        assert forall|i: int| 0 <= i < row_text(line).len() implies is_white(
            #[trigger] row_text(line)[i],
        ) by {
            let n = row_text(some).len();
            if i < n {
                assert(row_text(line)[i] == row_text(some)[i]);
            } else {
                assert(row_text(line)[i] == text[i - n]);
            }
        }
    }
}

proof fn lemma_trailing_blank(lines: Seq<Seq<SpanView>>, whole: Seq<char>)
    requires
        is_visible(whole),
        forall|i: int| 0 <= i < lines.len() ==> made_of(#[trigger] lines[i], whole),
    ensures
        words(text_of(without_trailing_blank(lines))) == words(text_of(lines)),
    decreases lines.len(),
{
    if lines.len() > 0 && line_width(lines.last()) == 0 {
        assert(made_of(lines[lines.len() - 1], whole));
        lemma_empty_line(lines.last(), whole);
        let more = row_text(lines.last()).push('\n');
        assert forall|i: int| 0 <= i < more.len() implies is_white(#[trigger] more[i]) by {
            if i < more.len() - 1 {
                assert(more[i] == row_text(lines.last())[i]);
            }
        }
        lemma_blank_words(text_of(lines.drop_last()), more);
        lemma_trailing_blank(lines.drop_last(), whole);
    }
}

/// A paragraph keeps its words, and keeps them apart: the words of its rendered
/// lines are those of its source text, in order, where each line break in the
/// source separates words as a blank does, and marks around text do not.
pub proof fn law_paragraph_keeps_words(
    inline: Seq<MdEventView>,
    theme: Theme,
    width: nat,
    set: SyntaxSet,
)
    requires
        forall|i: int| 0 <= i < inline.len() ==> is_inline(#[trigger] inline[i]),
        !is_blank(source(inline, inline.len())),
        is_visible(source(inline, inline.len())),
    ensures
        words(text_of(document_lines(paragraph(inline), theme, width, set))) == words(
            source(inline, inline.len()),
        ),
{
    let n = inline.len();
    let whole = source(inline, n);
    let events = paragraph(inline);
    lemma_paragraph(inline, n, theme, width, set);
    let st = MdState::initial(theme, width).after(events, n + 1, set);
    assert(events.len() == n + 2);
    assert(events[n as int + 1] == MdEventView::End(MdKind::Paragraph));
    lemma_flush(st, whole);
    let f = st.flush();
    let done = f.flush();
    let last = MdState::initial(theme, width).after(events, n + 2, set);
    assert(last == st.blank_line());
    assert(text_of(f.lines) =~= f.page()) by {
        assert(f.cur =~= Seq::empty());
    }
    if last.lines != f.lines {
        assert(last.lines.drop_last() =~= f.lines);
        assert(text_of(last.lines) =~= text_of(f.lines).push('\n'));
        lemma_white_reads_on(text_of(f.lines), '\n');
        assert forall|i: int| 0 <= i < last.lines.len() implies made_of(
            #[trigger] last.lines[i],
            whole,
        ) by {
            if i < f.lines.len() {
                assert(last.lines[i] == f.lines[i]);
            }
        }
    }
    assert(last.cur.len() == 0);
    assert(last.flush() == last);
    lemma_trailing_blank(last.lines, whole);
    let lines = without_trailing_blank(last.lines);
    if lines.len() == 0 {
        assert(words(text_of(lines)).len() == 0);
        lemma_no_words(whole);
    }
}

impl MdState {
    /// Whether a line is about to start outside of code, tables and quotes.
    pub open spec fn is_at_line_start(self) -> bool {
        &&& self.cur.len() == 0
        &&& self.code is None
        &&& self.table is None
        &&& self.prefix is None
        &&& self.quotes == 0
    }

    /// Whether text has no mark at this place.
    pub open spec fn is_unmarked(self) -> bool {
        &&& self.heading is None
        &&& self.bold == 0
        &&& self.italic == 0
        &&& self.strike == 0
        &&& self.links == 0
        &&& self.images.len() == 0
        &&& self.quotes == 0
    }
}

/// Whether a text is a line: not empty, and without a line break.
pub open spec fn is_line(text: Seq<char>) -> bool {
    text.len() > 0 && !text.contains('\n')
}

proof fn lemma_typed_line(st: MdState, text: Seq<char>)
    requires
        is_line(text),
    ensures
        st.typed(text, 0) == st.with_span(text, st.base_style()),
{
    lemma_index_of_char(text, 0, '\n');
    let end = index_of_char(text, 0, '\n');
    if end < text.len() {
        assert(text[end] == '\n');
    }
    assert(text.subrange(0, end) =~= text);
}

proof fn lemma_row_text_push(line: Seq<SpanView>, text: Seq<char>, style: Style)
    ensures
        row_text(line.push(span(text, style))) == row_text(line) + text,
{
    assert(line.push(span(text, style)).drop_last() =~= line);
}

/// An item of a list is a line of its own: indented by two for each list around
/// it, with its number and a dot or with a bullet in front of its text. The next
/// item of a numbered list has the next number.
pub proof fn law_list_items_are_marked(st: MdState, text: Seq<char>, set: SyntaxSet)
    requires
        st.is_at_line_start(),
        st.lists.len() > 0,
        st.lists.last().next_num < u128::MAX,
        is_line(text),
    ensures
        ({
            let after = st.step(MdEventView::Start(plain_start(MdKind::Item)), set).step(
                MdEventView::Text(text),
                set,
            ).step(MdEventView::End(MdKind::Item), set);
            let list = st.lists.last();
            let mark = if list.ordered {
                decimal(list.next_num as nat) + seq!['.', ' ']
            } else {
                seq!['•', ' ']
            };
            &&& after.lines.len() == st.lines.len() + 1
            &&& after.lines.drop_last() == st.lines
            &&& row_text(after.lines.last()) == repeated(' ', (2 * (st.lists.len() - 1)) as nat)
                + mark + text
            &&& after.is_at_line_start()
            &&& after.lists.len() == st.lists.len()
            &&& after.lists.last().ordered == list.ordered
            &&& list.ordered ==> after.lists.last().next_num == list.next_num + 1
        }),
{
    reveal_strlit(". ");
    reveal_strlit("• ");
    assert(". "@ =~= seq!['.', ' ']);
    assert("• "@ =~= seq!['•', ' ']);
    let a = st.step(MdEventView::Start(plain_start(MdKind::Item)), set);
    let mark = a.prefix->0;
    let b = a.item_prefix();
    lemma_typed_line(b, text);
    let c = a.step(MdEventView::Text(text), set);
    let indent = repeated(' ', (2 * (st.lists.len() - 1)) as nat);
    let style = Style::plain().fg(st.theme.hint).add_modifier(Modifier::bold());
    let none = Seq::<SpanView>::empty();
    assert(st.cur =~= none);
    assert(row_text(none) =~= Seq::<char>::empty());
    if indent.len() > 0 {
        lemma_row_text_push(none, indent, Style::plain());
        lemma_row_text_push(none.push(span(indent, Style::plain())), mark, style);
    } else {
        lemma_row_text_push(none, mark, style);
    }
    lemma_row_text_push(b.cur, text, b.base_style());
    assert(row_text(c.cur) =~= indent + mark + text);
    let after = c.step(MdEventView::End(MdKind::Item), set);
    assert(none + c.cur =~= c.cur);
    assert(after.lines.drop_last() =~= st.lines);
}

/// A list starts with the number that it is given, and one without a number has
/// bullets; when it ends, the list around it goes on where it was.
pub proof fn law_lists_nest(st: MdState, number: Option<u64>, set: SyntaxSet)
    requires
        st.is_at_line_start(),
    ensures
        ({
            let start = MdStartView {
                kind: MdKind::List,
                text: Seq::empty(),
                number,
                aligns: Seq::empty(),
            };
            let inner = st.step(MdEventView::Start(start), set);
            &&& inner.lists.len() == st.lists.len() + 1
            &&& inner.lists.last().ordered == (number is Some)
            &&& (number matches Some(n) ==> inner.lists.last().next_num == n)
            &&& inner.lines == st.lines
            &&& inner.is_at_line_start()
            &&& inner.step(MdEventView::End(MdKind::List), set).lists == st.lists
        }),
{
    let start = MdStartView { kind: MdKind::List, text: Seq::empty(), number, aligns: Seq::empty() };
    let inner = st.step(MdEventView::Start(start), set);
    assert(inner.lists.drop_last() =~= st.lists);
}

/// A box in front of an item tells whether its task is done, in place of the
/// item's own mark.
pub proof fn law_tasks_are_boxed(st: MdState, text: Seq<char>, done: bool, set: SyntaxSet)
    requires
        st.is_at_line_start(),
        st.lists.len() == 1,
        is_line(text),
    ensures
        ({
            let after = st.step(MdEventView::Start(plain_start(MdKind::Item)), set).step(
                MdEventView::TaskListMarker(done),
                set,
            ).step(MdEventView::Text(text), set);
            row_text(after.cur) == (if done {
                seq!['☑', ' ']
            } else {
                seq!['☐', ' ']
            }) + text
        }),
{
    reveal_strlit("☑ ");
    reveal_strlit("☐ ");
    assert("☑ "@ =~= seq!['☑', ' ']);
    assert("☐ "@ =~= seq!['☐', ' ']);
    let a = st.step(MdEventView::Start(plain_start(MdKind::Item)), set).step(
        MdEventView::TaskListMarker(done),
        set,
    );
    let b = a.item_prefix();
    lemma_typed_line(b, text);
    let none = Seq::<SpanView>::empty();
    assert(a.cur =~= none);
    assert(row_text(none) =~= Seq::<char>::empty());
    let style = Style::plain().fg(st.theme.hint).add_modifier(Modifier::bold());
    lemma_row_text_push(none, a.prefix->0, style);
    lemma_row_text_push(b.cur, text, b.base_style());
    assert(row_text(b.cur) =~= a.prefix->0);
}

/// A quoted line has a bar in front of it for each quote around it.
pub proof fn law_quotes_have_bars(st: MdState, text: Seq<char>, set: SyntaxSet)
    requires
        st.cur.len() == 0,
        st.code is None,
        st.table is None,
        st.prefix is None,
        is_line(text),
    ensures
        ({
            let after = st.step(MdEventView::Start(plain_start(MdKind::BlockQuote)), set).step(
                MdEventView::Text(text),
                set,
            ).flush();
            let out = after.step(MdEventView::End(MdKind::BlockQuote), set);
            &&& after.lines.len() == st.lines.len() + 1
            &&& after.lines.drop_last() == st.lines
            &&& row_text(after.lines.last()) == repeated('▎', st.quotes + 1) + seq![' '] + text
            &&& out.quotes == st.quotes
        }),
{
    let a = st.step(MdEventView::Start(plain_start(MdKind::BlockQuote)), set);
    lemma_typed_line(a, text);
    let b = a.step(MdEventView::Text(text), set);
    let bars = repeated('▎', st.quotes + 1).push(' ');
    let style = Style::plain().fg(st.theme.hint);
    let none = Seq::<SpanView>::empty();
    assert(a.cur =~= none);
    assert(row_text(none) =~= Seq::<char>::empty());
    lemma_row_text_push(none, bars, style);
    assert(none.push(span(bars, style)) =~= seq![span(bars, style)]);
    lemma_row_text_push(seq![span(bars, style)], text, a.base_style());
    assert(seq![span(bars, style)] + b.cur =~= seq![span(bars, style)].push(
        span(text, a.base_style()),
    ));
    assert(bars + text =~= repeated('▎', st.quotes + 1) + seq![' '] + text);
    assert(b.flush().lines.drop_last() =~= st.lines);
}

/// A heading is a bold line of its own, with a rule under it for the first two
/// levels only, and a blank line behind it; what follows is no heading any more.
pub proof fn law_headings_stand_out(st: MdState, level: u32, text: Seq<char>, set: SyntaxSet)
    requires
        st.is_at_line_start(),
        is_line(text),
    ensures
        ({
            let after = st.step(MdEventView::Start(plain_start(MdKind::Heading(level))), set).step(
                MdEventView::Text(text),
                set,
            ).step(MdEventView::End(MdKind::Heading(level)), set);
            let n = st.lines.len() as int;
            let title = after.lines[n];
            &&& after.heading is None
            &&& after.lines.len() == n + (if level <= 2 {
                3int
            } else {
                2int
            })
            &&& after.lines.take(n) == st.lines
            &&& title.len() == 1
            &&& title[0].text == text
            &&& title[0].style.modifier.bold
            &&& title[0].style.fg == Some(st.theme.syntax_function)
            &&& level <= 2 ==> after.lines[n + 1].len() == 1 && forall|i: int|
                0 <= i < after.lines[n + 1][0].text.len() ==> #[trigger] after.lines[n + 1][0].text[i]
                    == '─'
            &&& after.lines.last().len() == 0
        }),
{
    let a = st.step(MdEventView::Start(plain_start(MdKind::Heading(level))), set);
    lemma_typed_line(a, text);
    let b = a.step(MdEventView::Text(text), set);
    let after = b.step(MdEventView::End(MdKind::Heading(level)), set);
    assert(Seq::<SpanView>::empty() + b.cur =~= b.cur);
    assert(after.lines.take(st.lines.len() as int) =~= st.lines);
}

/// Marked text has the look of its mark, and what follows it has none: strong
/// text is bold, emphasis italic, struck text crossed out, and a link underlined
/// in a color of its own.
pub proof fn law_marks_show(st: MdState, kind: MdKind, text: Seq<char>, set: SyntaxSet)
    requires
        st.code is None,
        st.table is None,
        st.prefix is None,
        st.is_unmarked(),
        is_mark(kind),
        is_line(text),
    ensures
        ({
            let after = st.step(MdEventView::Start(plain_start(kind)), set).step(
                MdEventView::Text(text),
                set,
            );
            let out = after.step(MdEventView::End(kind), set);
            let style = after.cur.last().style;
            let plain = st.base_style();
            &&& after.cur.drop_last() == st.cur
            &&& after.cur.last().text == text
            &&& style.modifier.bold == (kind == MdKind::Strong)
            &&& style.modifier.italic == (kind == MdKind::Emphasis)
            &&& style.modifier.crossed_out == (kind == MdKind::Strikethrough)
            &&& style.modifier.underlined == (kind == MdKind::Link)
            &&& style.fg == Some(
                if kind == MdKind::Link {
                    st.theme.syntax_type
                } else {
                    st.theme.fg
                },
            )
            &&& out.base_style() == plain
            &&& plain.fg == Some(st.theme.fg)
            &&& plain.modifier == Modifier::empty()
            &&& out.cur == after.cur
        }),
{
    let a = st.step(MdEventView::Start(plain_start(kind)), set);
    lemma_typed_line(a, text);
    let after = a.step(MdEventView::Text(text), set);
    assert(after.cur.drop_last() =~= st.cur);
}

/// Code in a line stands on a background of its own, a rule is a line of its own,
/// and an image shows as its text with its target behind it.
pub proof fn law_code_rules_and_images(
    st: MdState,
    text: Seq<char>,
    target: Seq<char>,
    set: SyntaxSet,
)
    requires
        st.is_at_line_start(),
        is_line(text),
        target.len() > 0,
    ensures
        ({
            let code = st.step(MdEventView::Code(text), set);
            let rule = st.step(MdEventView::Rule, set);
            let start = MdStartView {
                kind: MdKind::Image,
                text: target,
                number: None,
                aligns: Seq::empty(),
            };
            let image = st.step(MdEventView::Start(start), set).step(
                MdEventView::Text(text),
                set,
            ).step(MdEventView::End(MdKind::Image), set);
            let n = st.lines.len() as int;
            &&& code.cur.len() == 1
            &&& code.cur[0].text == text
            &&& code.cur[0].style.bg == Some(st.theme.selection_bg)
            &&& rule.lines.len() == n + 2
            &&& rule.lines.take(n) == st.lines
            &&& rule.lines[n + 1].len() == 0
            &&& rule.lines[n].len() == 1
            &&& rule.lines[n][0].text == repeated(
                '─',
                if st.width < 24 {
                    24
                } else if st.width > 160 {
                    160
                } else {
                    st.width
                },
            )
            &&& row_text(image.cur) == seq!['🖼', ' '] + text + seq![' ', '('] + target + seq![')']
            &&& image.images == st.images
        }),
{
    reveal_strlit("🖼 ");
    reveal_strlit(" (");
    reveal_strlit(")");
    assert("🖼 "@ =~= seq!['🖼', ' ']);
    assert(" ("@ =~= seq![' ', '(']);
    assert(")"@ =~= seq![')']);
    let rule = st.step(MdEventView::Rule, set);
    assert(rule.lines.take(st.lines.len() as int) =~= st.lines);
    let start = MdStartView { kind: MdKind::Image, text: target, number: None, aligns: Seq::empty() };
    let a = st.step(MdEventView::Start(start), set);
    lemma_typed_line(a, text);
    let b = a.step(MdEventView::Text(text), set);
    let image = b.step(MdEventView::End(MdKind::Image), set);
    assert(a.images.drop_last() =~= st.images);
    let none = Seq::<SpanView>::empty();
    assert(st.cur =~= none);
    assert(row_text(none) =~= Seq::<char>::empty());
    lemma_row_text_push(none, "🖼 "@, Style::plain().fg(st.theme.hint));
    lemma_row_text_push(a.cur, text, a.base_style());
    lemma_row_text_push(b.cur, " ("@ + target + ")"@, Style::plain().fg(st.theme.hint));
    assert(row_text(image.cur) =~= seq!['🖼', ' '] + text + seq![' ', '('] + target + seq![')']);
}

/// A block of code has a line for each of its own, between two shaded blank
/// lines and with a blank one behind it; everything in it is shaded.
pub proof fn law_code_blocks_are_shaded(
    st: MdState,
    lang: Seq<char>,
    text: Seq<char>,
    set: SyntaxSet,
)
    requires
        st.is_at_line_start(),
        text.len() > 0,
    ensures
        ({
            let start = MdStartView {
                kind: MdKind::CodeBlock,
                text: lang,
                number: None,
                aligns: Seq::empty(),
            };
            let after = st.step(MdEventView::Start(start), set).step(
                MdEventView::Text(text),
                set,
            ).step(MdEventView::End(MdKind::CodeBlock), set);
            let n = st.lines.len() as int;
            &&& after.lines.take(n) == st.lines
            &&& after.lines.len() == n + lines_from(text, 0).len() + 3
            &&& after.lines.last().len() == 0
            &&& forall|i: int, j: int|
                n <= i < after.lines.len() && 0 <= j < after.lines[i].len() ==> (
                #[trigger] after.lines[i][j]).style.bg == Some(st.theme.selection_bg)
            &&& after.code is None
            &&& after.is_at_line_start()
        }),
{
    let start = MdStartView {
        kind: MdKind::CodeBlock,
        text: lang,
        number: None,
        aligns: Seq::empty(),
    };
    let a = st.step(MdEventView::Start(start), set);
    let b = a.step(MdEventView::Text(text), set);
    assert(b.code_buf =~= text);
    let after = b.step(MdEventView::End(MdKind::CodeBlock), set);
    let n = st.lines.len() as int;
    assert(after.lines.take(n) =~= st.lines);
}

/// The cells of a table are what is typed between their ends, a line break in one
/// being a blank; a row is its cells in order, the head apart from the others.
pub proof fn law_table_cells_are_kept(st: MdState, text: Seq<char>, more: Seq<char>, set: SyntaxSet)
    requires
        st.table is Some,
        st.code is None,
    ensures
        ({
            let t = st.table->0;
            let cell = st.step(MdEventView::Start(plain_start(MdKind::TableCell)), set).step(
                MdEventView::Text(text),
                set,
            ).step(MdEventView::SoftBreak, set).step(MdEventView::Text(more), set).step(
                MdEventView::End(MdKind::TableCell),
                set,
            );
            let head = st.step(MdEventView::End(MdKind::TableHead), set);
            let row = st.step(MdEventView::End(MdKind::TableRow), set);
            &&& cell.table is Some
            &&& cell.table->0.row == t.row.push(text + seq![' '] + more)
            &&& cell.table->0.table == t.table
            &&& cell.lines == st.lines
            &&& cell.cur == st.cur
            &&& head.table is Some
            &&& head.table->0.table.headers == t.row
            &&& head.table->0.table.rows == t.table.rows
            &&& head.table->0.row.len() == 0
            &&& row.table is Some
            &&& row.table->0.table.rows == t.table.rows.push(t.row)
            &&& row.table->0.table.headers == t.table.headers
            &&& row.table->0.row.len() == 0
        }),
{
    let none = Seq::<char>::empty();
    assert(none + text + seq![' '] + more =~= text + seq![' '] + more);
}

/// The end of a paragraph ends its line and leaves one blank line behind it, so
/// that two paragraphs are set apart; it leaves none where there is one already.
pub proof fn law_paragraphs_are_set_apart(st: MdState, set: SyntaxSet)
    requires
        st.quotes == 0,
    ensures
        ({
            let after = st.step(MdEventView::End(MdKind::Paragraph), set);
            let n = st.lines.len() as int;
            &&& after.cur.len() == 0
            &&& st.cur.len() > 0 && line_width(st.cur) > 0 ==> after.lines == st.lines.push(
                st.cur,
            ).push(Seq::empty())
            &&& st.cur.len() == 0 && n > 0 && line_width(st.lines.last()) == 0 ==> after.lines
                == st.lines
        }),
{
    let none = Seq::<SpanView>::empty();
    assert(none + st.cur =~= st.cur);
}

/// A document does not end with blank lines, and one without a line says so.
pub proof fn law_documents_end_with_text(
    events: Seq<MdEventView>,
    theme: Theme,
    width: nat,
    set: SyntaxSet,
)
    ensures
        ({
            let lines = document_lines(events, theme, width, set);
            &&& lines.len() > 0
            &&& line_width(lines.last()) > 0 || row_text(lines.last()) == "(empty markdown file)"@
        }),
        events.len() == 0 ==> row_text(document_lines(events, theme, width, set)[0])
            == "(empty markdown file)"@,
{
    let lines = document_lines(events, theme, width, set);
    let done = MdState::initial(theme, width).after(events, events.len(), set).flush();
    lemma_no_blank_end(done.lines);
    reveal_with_fuel(row_text, 2);
    let remark = seq![span("(empty markdown file)"@, Style::plain().fg(theme.hint))];
    assert(remark.drop_last() =~= Seq::empty());
    assert(row_text(remark) =~= "(empty markdown file)"@);
}

proof fn lemma_no_blank_end(lines: Seq<Seq<SpanView>>)
    ensures
        without_trailing_blank(lines).len() == 0 || line_width(
            without_trailing_blank(lines).last(),
        ) > 0,
    decreases lines.len(),
{
    if lines.len() > 0 && line_width(lines.last()) == 0 {
        lemma_no_blank_end(lines.drop_last());
    }
}

/// The rule under a heading is at least 24 columns long, as long as its title
/// where there is room, and never longer than the page unless that is too narrow.
pub proof fn law_heading_rule_fits(st: MdState, level: u32, text: Seq<char>, set: SyntaxSet)
    requires
        st.is_at_line_start(),
        is_line(text),
        level <= 2,
    ensures
        ({
            let after = st.step(MdEventView::Start(plain_start(MdKind::Heading(level))), set).step(
                MdEventView::Text(text),
                set,
            ).step(MdEventView::End(MdKind::Heading(level)), set);
            let rule = after.lines[st.lines.len() as int + 1][0].text.len();
            let title = text_width(text) as nat;
            &&& rule >= 24
            &&& rule <= st.width || rule == 24
            &&& title <= st.width ==> rule >= title || rule == 24
        }),
{
    let a = st.step(MdEventView::Start(plain_start(MdKind::Heading(level))), set);
    lemma_typed_line(a, text);
    let b = a.step(MdEventView::Text(text), set);
    let none = Seq::<SpanView>::empty();
    assert(none + b.cur =~= b.cur);
    assert(a.cur =~= none);
    reveal_with_fuel(line_width, 2);
    assert(b.cur.drop_last() =~= none);
    assert(line_width(b.cur) == text_width(text) as nat);
}

/// What is no Markdown of its own shows as it is written: markup as markup,
/// footnotes by their names in brackets, and code in a table between backticks.
pub proof fn law_other_text_shows(st: MdState, text: Seq<char>, set: SyntaxSet)
    requires
        st.code is None,
        st.prefix is None,
    ensures
        st.step(MdEventView::Html(text), set).cur.len() == st.cur.len() + 1,
        st.step(MdEventView::Html(text), set).cur.last().text == text,
        st.step(MdEventView::FootnoteReference(text), set).cur.last().text == seq!['[', '^'] + text
            + seq![']'],
        st.table is Some && st.in_cell ==> st.step(MdEventView::Code(text), set).table->0.cell
            == st.table->0.cell + (seq!['`'] + text + seq!['`']),
{
    reveal_strlit("[^");
    reveal_strlit("]");
    reveal_strlit("`");
    assert("[^"@ =~= seq!['[', '^']);
    assert("]"@ =~= seq![']']);
    assert("`"@ =~= seq!['`']);
}

/// Text goes to the end of what is on its line; a line break within it ends the
/// line.
pub proof fn law_lines_break(st: MdState, first: Seq<char>, second: Seq<char>, set: SyntaxSet)
    requires
        st.is_at_line_start(),
        is_line(first),
        is_line(second),
    ensures
        ({
            let hard = st.step(MdEventView::Text(first), set).step(
                MdEventView::HardBreak,
                set,
            ).step(MdEventView::Text(second), set);
            let soft = st.step(MdEventView::Text(first), set).step(
                MdEventView::SoftBreak,
                set,
            ).step(MdEventView::Text(second), set);
            &&& hard.lines.len() == st.lines.len() + 1
            &&& row_text(hard.lines.last()) == first
            &&& row_text(hard.cur) == second
            &&& soft.lines == st.lines
            &&& row_text(soft.cur) == first + seq![' '] + second
        }),
{
    reveal_strlit(" ");
    assert(" "@ =~= seq![' ']);
    let a = st.step(MdEventView::Text(first), set);
    lemma_typed_line(st, first);
    let none = Seq::<SpanView>::empty();
    assert(st.cur =~= none);
    assert(row_text(none) =~= Seq::<char>::empty());
    lemma_row_text_push(none, first, st.base_style());
    assert(row_text(a.cur) =~= first);
    let b = a.step(MdEventView::HardBreak, set);
    assert(none + a.cur =~= a.cur);
    lemma_typed_line(b, second);
    lemma_row_text_push(none, second, b.base_style());
    assert(b.cur =~= none);
    assert(row_text(none) + second =~= second);
    let c = a.step(MdEventView::SoftBreak, set);
    lemma_row_text_push(a.cur, " "@, Style::plain());
    lemma_typed_line(c, second);
    lemma_row_text_push(c.cur, second, c.base_style());
}

} // verus!
