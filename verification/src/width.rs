//! Display widths in terminal columns.

use crate::style::{Line, SpanView};
use unicode_width::{UnicodeWidthChar, UnicodeWidthStr};
use vstd::prelude::*;

verus! {

/// The columns that a character takes up; none for a control character.
pub uninterp spec fn glyph_width(c: char) -> Option<usize>;

/// The columns that a string takes up as a whole.
pub uninterp spec fn text_width(s: Seq<char>) -> usize;

/// `UnicodeWidthChar::width`: a function of the character, by the Unicode
/// width tables. Printable ASCII and the ellipsis are one column wide, control
/// characters have no width, and no character is wider than three columns.
#[verifier::external_body]
pub(crate) fn char_width(c: char) -> (w: Option<usize>)
    ensures
        w == glyph_width(c),
        ' ' <= c && c <= '~' ==> w == Some(1usize),
        c == '…' ==> w == Some(1usize),
        c < ' ' ==> w is None,
        w matches Some(n) ==> n <= 3,
{
    UnicodeWidthChar::width(c)
}

/// Printable ASCII, the lines and corners of boxes, and the ellipsis.
pub open spec fn is_plain_char(c: char) -> bool {
    ||| ' ' <= c && c <= '~'
    ||| '\u{2500}' <= c && c <= '\u{257F}'
    ||| c == '…'
}

/// Whether a text is made of plain characters.
pub open spec fn is_plain(s: Seq<char>) -> bool {
    forall|i: int| 0 <= i < s.len() ==> is_plain_char(#[trigger] s[i])
}

/// `UnicodeWidthStr::width`: a function of the string. A string of printable
/// ASCII, box drawing characters and ellipses is as many columns wide as it is
/// long.
#[verifier::external_body]
pub(crate) fn str_width(s: &str) -> (w: usize)
    ensures
        w == text_width(s@),
        is_plain(s@) ==> w == s@.len(),
{
    UnicodeWidthStr::width(s)
}

/// The columns of a character; a control character takes up none.
pub open spec fn cells(c: char) -> nat {
    match glyph_width(c) {
        Some(w) => w as nat,
        None => 0,
    }
}

pub fn char_cells(c: char) -> (w: usize)
    ensures
        w == cells(c),
        ' ' <= c && c <= '~' ==> w == 1,
        c == '…' ==> w == 1,
        w <= 3,
{
    match char_width(c) {
        Some(w) => w,
        None => 0,
    }
}

/// The columns of a line: those of its spans together.
pub open spec fn line_width(line: Seq<SpanView>) -> nat
    decreases line.len(),
{
    if line.len() == 0 {
        0
    } else {
        line_width(line.drop_last()) + text_width(line.last().text) as nat
    }
}

pub proof fn lemma_line_width_push(line: Seq<SpanView>, s: SpanView)
    ensures
        line_width(line.push(s)) == line_width(line) + text_width(s.text) as nat,
{
    assert(line.push(s).drop_last() =~= line);
}

pub fn width_of_line(line: &Line) -> (w: u128)
    ensures
        w == line_width(line@),
{
    let ghost all = line@;
    let mut w: u128 = 0;
    let mut i: usize = 0;
    assert(all.take(0) =~= Seq::<SpanView>::empty());
    while i < line.spans.len()
        invariant
            i <= line.spans@.len(),
            all == line@,
            w == line_width(all.take(i as int)),
            w <= i * 0xffff_ffff_ffff_ffff,
        decreases line.spans@.len() - i,
    {
        assert(all.take(i + 1).drop_last() =~= all.take(i as int));
        assert(all.take(i + 1).last() == line.spans@[i as int]@);
        w = w + str_width(line.spans[i].text.as_str()) as u128;
        i += 1;
    }
    assert(all.take(all.len() as int) =~= all);
    w
}

} // verus!
