//! What the operations on texts are for: trimming, counting out numbers, cutting
//! into lines and putting in order.

use crate::text::{
    decimal, first_word, index_of_char, is_blank, is_white, lemma_index_of_char, lemma_trim_bounds,
    lemma_white_end, lemma_white_start, lines_from, text_le, trimmed, white_end, white_start,
    word_end,
};
use vstd::prelude::*;

verus! {

/// The characters that people take for white space are, and those that they read
/// are not.
pub proof fn law_white_space(c: char)
    ensures
        c == ' ' || c == '\t' || c == '\n' || c == '\r' ==> is_white(c),
        '!' <= c && c <= '~' ==> !is_white(c),
{
}

/// Trimming takes away white space at both ends and nothing else: what is left
/// starts and ends with something to read, or is empty.
pub proof fn law_trimming(s: Seq<char>) -> (ends: (int, int))
    ensures
        ({
            let (a, b) = ends;
            let kept = trimmed(s);
            &&& 0 <= a <= b <= s.len()
            &&& kept == s.subrange(a, b)
            &&& is_blank(s.take(a))
            &&& is_blank(s.skip(b))
            &&& kept.len() > 0 ==> !is_white(kept[0]) && !is_white(kept.last())
            &&& kept.len() == 0 <==> is_blank(s)
        }),
{
    lemma_white_end(s, 0);
    lemma_white_start(s, s.len() as int);
    lemma_trim_bounds(s);
    let a = white_end(s, 0);
    let b = white_start(s, s.len() as int);
    if a >= s.len() {
        assert(s.subrange(a, a) =~= Seq::empty());
        assert forall|i: int| 0 <= i < s.len() implies is_white(#[trigger] s[i]) by {}
        (a, a)
    } else {
        assert(!is_white(s[a]));
        assert(is_blank(s.skip(b))) by {
            assert forall|i: int| 0 <= i < s.skip(b).len() implies is_white(#[trigger] s.skip(b)[i]) by {
                assert(is_white(s[b + i]));
            }
        }
        (a, b)
    }
}

/// The number that digits stand for.
pub open spec fn value(digits: Seq<char>) -> int
    decreases digits.len(),
{
    if digits.len() == 0 {
        0
    } else {
        10 * value(digits.drop_last()) + (digits.last() as int - '0' as int)
    }
}

/// A number is written in digits that stand for it, without a zero in front.
pub proof fn law_numbers_read_back(n: nat)
    ensures
        value(decimal(n)) == n,
        decimal(n).len() > 0,
        forall|i: int| 0 <= i < decimal(n).len() ==> '0' <= #[trigger] decimal(n)[i] <= '9',
        n > 0 ==> decimal(n)[0] != '0',
    decreases n,
{
    reveal_with_fuel(value, 2);
    if n >= 10 {
        law_numbers_read_back(n / 10);
        assert(decimal(n).drop_last() =~= decimal(n / 10));
        assert forall|i: int| 0 <= i < decimal(n).len() implies '0' <= #[trigger] decimal(n)[i]
            <= '9' by {
            if i < decimal(n).len() - 1 {
                assert(decimal(n)[i] == decimal(n / 10)[i]);
            }
        }
        assert(decimal(n)[0] == decimal(n / 10)[0]);
    } else {
        assert(decimal(n).drop_last() =~= Seq::empty());
    }
}

/// Lines with a line break behind each of them.
pub open spec fn with_breaks(lines: Seq<Seq<char>>) -> Seq<char>
    decreases lines.len(),
{
    if lines.len() == 0 {
        Seq::empty()
    } else {
        lines[0].push('\n') + with_breaks(lines.skip(1))
    }
}

/// The lines of a text make it up again, but for a line break behind the last
/// one; none of them holds a line break.
pub proof fn law_lines_make_up_the_text(s: Seq<char>, i: int)
    requires
        0 <= i <= s.len(),
        !s.contains('\r'),
    ensures
        with_breaks(lines_from(s, i)) == (if i == s.len() || s.last() == '\n' {
            s.skip(i)
        } else {
            s.skip(i).push('\n')
        }),
        forall|k: int| 0 <= k < lines_from(s, i).len() ==> !(#[trigger] lines_from(s, i)[k]).contains('\n'),
    decreases s.len() - i,
{
    let lines = lines_from(s, i);
    if i < s.len() {
        lemma_index_of_char(s, i, '\n');
        let end = index_of_char(s, i, '\n');
        if end >= s.len() {
            let line = s.skip(i);
            assert(lines.skip(1) =~= Seq::empty());
            assert(with_breaks(lines.skip(1)) =~= Seq::<char>::empty());
            assert(with_breaks(lines) =~= line.push('\n'));
            assert(s.last() == s[s.len() - 1]);
            if line.contains('\n') {
                let k = choose|k: int| 0 <= k < line.len() && line[k] == '\n';
                assert(s[i + k] == '\n');
            }
        } else {
            let line = s.subrange(i, end);
            if end > i && s[end - 1] == '\r' {
                assert(s.contains('\r'));
            }
            law_lines_make_up_the_text(s, end + 1);
            assert(lines.skip(1) =~= lines_from(s, end + 1));
            let rest = with_breaks(lines_from(s, end + 1));
            assert(line.push('\n') + s.skip(end + 1) =~= s.skip(i));
            assert(line.push('\n') + s.skip(end + 1).push('\n') =~= s.skip(i).push('\n'));
            assert(with_breaks(lines) == line.push('\n') + rest);
            if line.contains('\n') {
                let k = choose|k: int| 0 <= k < line.len() && line[k] == '\n';
                assert(s[i + k] == '\n');
            }
            assert forall|k: int| 0 <= k < lines.len() implies !(#[trigger] lines[k]).contains(
                '\n',
            ) by {
                if k > 0 {
                    assert(lines[k] == lines_from(s, end + 1)[k - 1]);
                }
            }
        }
    } else {
        assert(s.skip(i) =~= Seq::empty());
    }
}

/// Texts are ordered by the first character in which they differ.
pub proof fn law_first_difference_decides(
    same: Seq<char>,
    x: char,
    y: char,
    a: Seq<char>,
    b: Seq<char>,
)
    requires
        x < y,
    ensures
        text_le(same + seq![x] + a, same + seq![y] + b),
        !text_le(same + seq![y] + b, same + seq![x] + a),
    decreases same.len(),
{
    let one = same + seq![x] + a;
    let other = same + seq![y] + b;
    if same.len() > 0 {
        law_first_difference_decides(same.skip(1), x, y, a, b);
        assert(one.skip(1) =~= same.skip(1) + seq![x] + a);
        assert(other.skip(1) =~= same.skip(1) + seq![y] + b);
        assert(one[0] == same[0] && other[0] == same[0]);
    } else {
        assert(one[0] == x && other[0] == y);
    }
}

/// A text comes before every longer one that starts with it.
pub proof fn law_starts_come_first(start: Seq<char>, more: Seq<char>)
    ensures
        text_le(start, start + more),
        more.len() > 0 ==> !text_le(start + more, start),
    decreases start.len(),
{
    if start.len() > 0 {
        law_starts_come_first(start.skip(1), more);
        assert((start + more).skip(1) =~= start.skip(1) + more);
        assert((start + more)[0] == start[0]);
    }
}

proof fn lemma_word_end(s: Seq<char>, i: int)
    requires
        0 <= i <= s.len(),
    ensures
        i <= word_end(s, i) <= s.len(),
        forall|k: int| i <= k < word_end(s, i) ==> !is_white(#[trigger] s[k]),
        word_end(s, i) < s.len() ==> is_white(s[word_end(s, i)]),
    decreases s.len() - i,
{
    if i < s.len() && !is_white(s[i]) {
        lemma_word_end(s, i + 1);
    }
}

/// The first word of a text is its first run without white space.
pub proof fn law_first_word(s: Seq<char>) -> (at: int)
    ensures
        ({
            let word = first_word(s);
            &&& 0 <= at
            &&& at + word.len() <= s.len()
            &&& word == s.subrange(at, at + word.len())
            &&& is_blank(s.take(at))
            &&& forall|i: int| 0 <= i < word.len() ==> !is_white(#[trigger] word[i])
            &&& at + word.len() < s.len() ==> is_white(s[at + word.len()])
            &&& word.len() == 0 ==> is_blank(s)
        }),
{
    lemma_white_end(s, 0);
    let at = white_end(s, 0);
    lemma_word_end(s, at);
    let end = word_end(s, at);
    if end == at && at < s.len() {
        assert(!is_white(s[at]));
    }
    at
}

} // verus!
