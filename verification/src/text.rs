//! Text helpers: strings as sequences of characters.

use vstd::prelude::*;
use vstd::string::*;

verus! {

/// `String::push` appends one character.
pub assume_specification[ String::push ](s: &mut String, c: char)
    ensures
        final(s)@ == old(s)@.push(c),
;

/// `String::pop` removes the last character and returns it; on an empty
/// string it returns nothing.
pub assume_specification[ String::pop ](s: &mut String) -> (last: Option<char>)
    ensures
        old(s)@.len() == 0 ==> last is None && final(s)@ == old(s)@,
        old(s)@.len() > 0 ==> last == Some(old(s)@.last()) && final(s)@ == old(s)@.drop_last(),
;

/// The characters of a string, in order.
pub fn chars_of(s: &str) -> (out: Vec<char>)
    ensures
        out@ == s@,
{
    let mut out: Vec<char> = Vec::new();
    for c in it: s.chars()
        invariant
            it.seq() == s@,
            out@ == s@.take(it.index() as int),
    {
        out.push(c);
    }
    out
}

/// The characters `from..to` as a string of their own.
pub fn text_of(cs: &Vec<char>, from: usize, to: usize) -> (out: String)
    requires
        from <= to <= cs@.len(),
    ensures
        out@ == cs@.subrange(from as int, to as int),
{
    let mut out = String::new();
    let mut i: usize = from;
    while i < to
        invariant
            from <= i <= to <= cs@.len(),
            out@ == cs@.subrange(from as int, i as int),
        decreases to - i,
    {
        out.push(cs[i]);
        i += 1;
    }
    out
}

/// Whether two strings hold the same characters.
pub fn same_text(a: &str, b: &str) -> (same: bool)
    ensures
        same == (a@ == b@),
{
    let xs = chars_of(a);
    let ys = chars_of(b);
    if xs.len() != ys.len() {
        return false;
    }
    let mut i: usize = 0;
    while i < xs.len()
        invariant
            i <= xs@.len() == ys@.len(),
            xs@ == a@,
            ys@ == b@,
            forall|j: int| 0 <= j < i ==> xs@[j] == ys@[j],
        decreases xs@.len() - i,
    {
        if xs[i] != ys[i] {
            return false;
        }
        i += 1;
    }
    assert(a@ =~= b@);
    true
}

/// Unicode white space: the characters with the `White_Space` property.
#[verifier::allow_in_spec]
pub fn is_white(c: char) -> bool
    returns
        ('\t' <= c && c <= '\r') || c == ' ' || c == '\u{85}' || c == '\u{a0}' || c == '\u{1680}'
            || ('\u{2000}' <= c && c <= '\u{200a}') || c == '\u{2028}' || c == '\u{2029}'
            || c == '\u{202f}' || c == '\u{205f}' || c == '\u{3000}',
{
    ('\t' <= c && c <= '\r') || c == ' ' || c == '\u{85}' || c == '\u{a0}' || c == '\u{1680}'
        || ('\u{2000}' <= c && c <= '\u{200a}') || c == '\u{2028}' || c == '\u{2029}'
        || c == '\u{202f}' || c == '\u{205f}' || c == '\u{3000}'
}

/// Where the white run that starts at `i` ends.
pub open spec fn white_end(s: Seq<char>, i: int) -> int
    decreases s.len() - i,
{
    if 0 <= i < s.len() && is_white(s[i]) {
        white_end(s, i + 1)
    } else {
        i
    }
}

/// Where the white run that ends at `n` starts.
pub open spec fn white_start(s: Seq<char>, n: int) -> int
    decreases n,
{
    if 0 < n <= s.len() && is_white(s[n - 1]) {
        white_start(s, n - 1)
    } else {
        n
    }
}

/// The text without leading and trailing white space.
pub open spec fn trimmed(s: Seq<char>) -> Seq<char> {
    if white_end(s, 0) >= s.len() {
        Seq::empty()
    } else {
        s.subrange(white_end(s, 0), white_start(s, s.len() as int))
    }
}

/// Whether there is nothing but white space.
pub open spec fn is_blank(s: Seq<char>) -> bool {
    forall|i: int| 0 <= i < s.len() ==> is_white(#[trigger] s[i])
}

pub proof fn lemma_white_end(s: Seq<char>, i: int)
    requires
        0 <= i <= s.len(),
    ensures
        i <= white_end(s, i) <= s.len(),
        forall|k: int| i <= k < white_end(s, i) ==> is_white(#[trigger] s[k]),
        white_end(s, i) < s.len() ==> !is_white(s[white_end(s, i)]),
    decreases s.len() - i,
{
    if i < s.len() && is_white(s[i]) {
        lemma_white_end(s, i + 1);
    }
}

pub proof fn lemma_white_start(s: Seq<char>, n: int)
    requires
        0 <= n <= s.len(),
    ensures
        0 <= white_start(s, n) <= n,
        forall|k: int| white_start(s, n) <= k < n ==> is_white(#[trigger] s[k]),
        white_start(s, n) > 0 ==> !is_white(s[white_start(s, n) - 1]),
    decreases n,
{
    if 0 < n && is_white(s[n - 1]) {
        lemma_white_start(s, n - 1);
    }
}

/// The bounds of the text without its outer white space.
pub proof fn lemma_trim_bounds(s: Seq<char>)
    ensures
        0 <= white_end(s, 0) <= s.len(),
        0 <= white_start(s, s.len() as int) <= s.len(),
        is_blank(s) <==> white_end(s, 0) == s.len(),
        is_blank(s) <==> white_start(s, s.len() as int) == 0,
        !is_blank(s) ==> white_end(s, 0) < white_start(s, s.len() as int),
        is_blank(s) <==> trimmed(s).len() == 0,
{
    lemma_white_end(s, 0);
    lemma_white_start(s, s.len() as int);
    let a = white_end(s, 0);
    let b = white_start(s, s.len() as int);
    if a == s.len() {
        assert(is_blank(s));
        if b > 0 {
            assert(is_white(s[b - 1]));
        }
    } else {
        assert(!is_white(s[a]));
        assert(!is_blank(s));
        if b <= a {
            assert(is_white(s[a]));
        }
    }
}

pub fn skip_white(cs: &Vec<char>, from: usize) -> (end: usize)
    requires
        from <= cs@.len(),
    ensures
        end == white_end(cs@, from as int),
        from <= end <= cs@.len(),
{
    let mut i: usize = from;
    while i < cs.len() && is_white(cs[i])
        invariant
            from <= i <= cs@.len(),
            white_end(cs@, from as int) == white_end(cs@, i as int),
        decreases cs@.len() - i,
    {
        i += 1;
    }
    i
}

pub fn skip_white_back(cs: &Vec<char>, to: usize) -> (start: usize)
    requires
        to <= cs@.len(),
    ensures
        start == white_start(cs@, to as int),
        start <= to,
{
    let mut n: usize = to;
    while n > 0 && is_white(cs[n - 1])
        invariant
            n <= to <= cs@.len(),
            white_start(cs@, to as int) == white_start(cs@, n as int),
        decreases n,
    {
        n -= 1;
    }
    n
}

/// Whether there is nothing but white space in `cs`.
pub fn all_white(cs: &Vec<char>) -> (blank: bool)
    ensures
        blank == is_blank(cs@),
{
    let end = skip_white(cs, 0);
    proof {
        lemma_trim_bounds(cs@);
    }
    end == cs.len()
}

/// The characters `from..to` as a list of their own.
pub fn slice_of(cs: &Vec<char>, from: usize, to: usize) -> (out: Vec<char>)
    requires
        from <= to <= cs@.len(),
    ensures
        out@ == cs@.subrange(from as int, to as int),
{
    let mut out: Vec<char> = Vec::new();
    let mut i: usize = from;
    while i < to
        invariant
            from <= i <= to <= cs@.len(),
            out@ == cs@.subrange(from as int, i as int),
        decreases to - i,
    {
        out.push(cs[i]);
        i += 1;
    }
    out
}

/// The text without leading and trailing white space.
pub fn trim(s: &str) -> (out: String)
    ensures
        out@ == trimmed(s@),
{
    let cs = chars_of(s);
    let a = skip_white(&cs, 0);
    let b = skip_white_back(&cs, cs.len());
    proof {
        lemma_trim_bounds(s@);
    }
    if a >= cs.len() {
        String::new()
    } else {
        text_of(&cs, a, b)
    }
}

/// The lower-case form of an ASCII letter; other characters unchanged.
#[verifier::allow_in_spec]
pub fn lower_char(c: char) -> char
    returns
        if 'A' <= c && c <= 'Z' {
            ((c as u8) + 32) as u8 as char
        } else {
            c
        },
{
    if 'A' <= c && c <= 'Z' {
        ((c as u8) + 32) as char
    } else {
        c
    }
}

/// The text with its ASCII letters in lower case.
pub open spec fn lower(s: Seq<char>) -> Seq<char> {
    s.map_values(|c: char| lower_char(c))
}

pub fn lower_text(s: &str) -> (out: String)
    ensures
        out@ == lower(s@),
{
    let mut out = String::new();
    for c in it: s.chars()
        invariant
            it.seq() == s@,
            out@ == lower(s@.take(it.index() as int)),
    {
        out.push(lower_char(c));
        assert(s@.take(it.index() + 1) =~= s@.take(it.index() as int).push(c));
        assert(out@ =~= lower(s@.take(it.index() + 1)));
    }
    assert(s@.take(s@.len() as int) =~= s@);
    out
}

/// Whether `s` ends with `tail`.
pub open spec fn ends_with(s: Seq<char>, tail: Seq<char>) -> bool {
    tail.len() <= s.len() && s.skip(s.len() - tail.len()) == tail
}

/// Whether `s` starts with `head`.
pub open spec fn starts_with(s: Seq<char>, head: Seq<char>) -> bool {
    head.len() <= s.len() && s.take(head.len() as int) == head
}

pub fn text_ends_with(s: &str, tail: &str) -> (yes: bool)
    ensures
        yes == ends_with(s@, tail@),
{
    let xs = chars_of(s);
    let ys = chars_of(tail);
    if ys.len() > xs.len() {
        return false;
    }
    let off = xs.len() - ys.len();
    let mut i: usize = 0;
    while i < ys.len()
        invariant
            xs@ == s@,
            ys@ == tail@,
            off + ys@.len() == xs.len(),
            i <= ys@.len(),
            forall|k: int| 0 <= k < i ==> xs@[off + k] == #[trigger] ys@[k],
        decreases ys@.len() - i,
    {
        if xs[off + i] != ys[i] {
            assert(s@.skip(off as int)[i as int] != tail@[i as int]);
            return false;
        }
        i += 1;
    }
    assert(s@.skip(off as int) =~= tail@);
    true
}

pub fn text_starts_with(s: &str, head: &str) -> (yes: bool)
    ensures
        yes == starts_with(s@, head@),
{
    let xs = chars_of(s);
    let ys = chars_of(head);
    if ys.len() > xs.len() {
        return false;
    }
    let mut i: usize = 0;
    while i < ys.len()
        invariant
            xs@ == s@,
            ys@ == head@,
            ys@.len() <= xs@.len(),
            i <= ys@.len(),
            forall|k: int| 0 <= k < i ==> xs@[k] == #[trigger] ys@[k],
        decreases ys@.len() - i,
    {
        if xs[i] != ys[i] {
            assert(s@.take(ys@.len() as int)[i as int] != head@[i as int]);
            return false;
        }
        i += 1;
    }
    assert(s@.take(ys@.len() as int) =~= head@);
    true
}

/// One past the last `sep` before `n`, or 0.
pub open spec fn past_last(s: Seq<char>, n: int, sep: char) -> int
    decreases n,
{
    if n <= 0 || n > s.len() {
        0
    } else if s[n - 1] == sep {
        n
    } else {
        past_last(s, n - 1, sep)
    }
}

/// What stands behind the last `sep`; the whole text where there is none.
pub open spec fn after_last(s: Seq<char>, sep: char) -> Seq<char> {
    s.skip(past_last(s, s.len() as int, sep))
}

pub proof fn lemma_past_last(s: Seq<char>, n: int, sep: char)
    requires
        0 <= n <= s.len(),
    ensures
        0 <= past_last(s, n, sep) <= n,
        past_last(s, n, sep) > 0 ==> s[past_last(s, n, sep) - 1] == sep,
        forall|k: int| past_last(s, n, sep) <= k < n ==> #[trigger] s[k] != sep,
    decreases n,
{
    if n > 0 && s[n - 1] != sep {
        lemma_past_last(s, n - 1, sep);
    }
}

pub fn find_past_last(cs: &Vec<char>, sep: char) -> (at: usize)
    ensures
        at == past_last(cs@, cs@.len() as int, sep),
        at <= cs@.len(),
{
    let mut n: usize = cs.len();
    while n > 0
        invariant
            n <= cs@.len(),
            past_last(cs@, cs@.len() as int, sep) == past_last(cs@, n as int, sep),
        decreases n,
    {
        if cs[n - 1] == sep {
            return n;
        }
        n -= 1;
    }
    0
}

pub fn text_after_last(s: &str, sep: char) -> (out: String)
    ensures
        out@ == after_last(s@, sep),
{
    let cs = chars_of(s);
    let at = find_past_last(&cs, sep);
    assert(s@.skip(at as int) =~= s@.subrange(at as int, s@.len() as int));
    text_of(&cs, at, cs.len())
}

/// What an optional string holds.
pub open spec fn opt_text(s: Option<String>) -> Option<Seq<char>> {
    match s {
        Some(t) => Some(t@),
        None => None,
    }
}

/// What a list of strings holds.
pub open spec fn texts(list: Seq<String>) -> Seq<Seq<char>> {
    list.map_values(|s: String| s@)
}

/// `n` times the same character.
pub open spec fn repeated(c: char, n: nat) -> Seq<char> {
    Seq::new(n, |i: int| c)
}

pub fn repeat_char(c: char, n: u128) -> (out: String)
    ensures
        out@ == repeated(c, n as nat),
{
    let mut out = String::new();
    let mut i: u128 = 0;
    assert(out@ =~= repeated(c, 0));
    while i < n
        invariant
            i <= n,
            out@ == repeated(c, i as nat),
        decreases n - i,
    {
        out.push(c);
        i += 1;
        assert(out@ =~= repeated(c, i as nat));
    }
    out
}

/// The decimal digit of a number below ten.
pub open spec fn digit(n: nat) -> char {
    ((n + 48) as u8) as char
}

/// The decimal form of a number.
pub open spec fn decimal(n: nat) -> Seq<char>
    decreases n,
{
    if n < 10 {
        seq![digit(n)]
    } else {
        decimal(n / 10).push(digit(n % 10))
    }
}

/// The decimal form of a number.
pub fn number_text(n: u128) -> (out: String)
    ensures
        out@ == decimal(n as nat),
    decreases n,
{
    let mut out = if n < 10 {
        String::new()
    } else {
        number_text(n / 10)
    };
    let d = (n % 10) as u8;
    out.push((d + 48) as char);
    assert(n < 10 ==> out@ =~= decimal(n as nat));
    out
}

/// Where the first `c` from `i` on stands; the length where there is none.
pub open spec fn index_of_char(s: Seq<char>, i: int, c: char) -> int
    decreases s.len() - i,
{
    if i < 0 || i >= s.len() {
        s.len() as int
    } else if s[i] == c {
        i
    } else {
        index_of_char(s, i + 1, c)
    }
}

pub proof fn lemma_index_of_char(s: Seq<char>, i: int, c: char)
    requires
        0 <= i <= s.len(),
    ensures
        i <= index_of_char(s, i, c) <= s.len(),
        index_of_char(s, i, c) < s.len() ==> s[index_of_char(s, i, c)] == c,
        forall|k: int| i <= k < index_of_char(s, i, c) ==> #[trigger] s[k] != c,
    decreases s.len() - i,
{
    if i < s.len() && s[i] != c {
        lemma_index_of_char(s, i + 1, c);
    }
}

pub fn find_char(cs: &Vec<char>, from: usize, c: char) -> (at: usize)
    requires
        from <= cs@.len(),
    ensures
        at == index_of_char(cs@, from as int, c),
        from <= at <= cs@.len(),
{
    let mut i: usize = from;
    while i < cs.len() && cs[i] != c
        invariant
            from <= i <= cs@.len(),
            index_of_char(cs@, from as int, c) == index_of_char(cs@, i as int, c),
        decreases cs@.len() - i,
    {
        i += 1;
    }
    i
}

/// The lines of a text from `i` on. A line ends at a newline, or a carriage
/// return and a newline; an empty last line does not count.
pub open spec fn lines_from(s: Seq<char>, i: int) -> Seq<Seq<char>>
    decreases s.len() - i,
    via lines_from_decreases
{
    if i < 0 || i >= s.len() {
        Seq::empty()
    } else {
        let end = index_of_char(s, i, '\n');
        if end >= s.len() {
            seq![s.skip(i)]
        } else if end > i && s[end - 1] == '\r' {
            seq![s.subrange(i, end - 1)] + lines_from(s, end + 1)
        } else {
            seq![s.subrange(i, end)] + lines_from(s, end + 1)
        }
    }
}

#[via_fn]
proof fn lines_from_decreases(s: Seq<char>, i: int) {
    if 0 <= i < s.len() {
        lemma_index_of_char(s, i, '\n');
    }
}

pub fn split_lines(s: &str) -> (out: Vec<String>)
    ensures
        texts(out@) == lines_from(s@, 0),
{
    let cs = chars_of(s);
    let n = cs.len();
    let mut out: Vec<String> = Vec::new();
    let mut i: usize = 0;
    assert(texts(out@) + lines_from(s@, 0) =~= lines_from(s@, 0));
    while i < n
        invariant
            i <= n == cs@.len(),
            cs@ == s@,
            texts(out@) + lines_from(s@, i as int) == lines_from(s@, 0),
        decreases n - i,
    {
        let ghost before = out@;
        let ghost start = i as int;
        let end = find_char(&cs, i, '\n');
        let line = if end >= n {
            assert(s@.skip(i as int) =~= s@.subrange(i as int, n as int));
            text_of(&cs, i, n)
        } else if end > i && cs[end - 1] == '\r' {
            text_of(&cs, i, end - 1)
        } else {
            text_of(&cs, i, end)
        };
        out.push(line);
        i = if end >= n { n } else { end + 1 };
        assert(texts(out@) =~= texts(before).push(line@));
        assert(texts(out@) + lines_from(s@, i as int) =~= texts(before) + lines_from(s@, start));
    }
    assert(lines_from(s@, n as int) =~= Seq::<Seq<char>>::empty());
    assert(texts(out@) =~= lines_from(s@, 0));
    out
}

/// Where the run of characters that are not white space ends.
pub open spec fn word_end(s: Seq<char>, i: int) -> int
    decreases s.len() - i,
{
    if 0 <= i < s.len() && !is_white(s[i]) {
        word_end(s, i + 1)
    } else {
        i
    }
}

/// The first word of a text: the first run without white space.
pub open spec fn first_word(s: Seq<char>) -> Seq<char> {
    s.subrange(white_end(s, 0), word_end(s, white_end(s, 0)))
}

pub fn first_word_of(s: &str) -> (out: String)
    ensures
        out@ == first_word(s@),
{
    let cs = chars_of(s);
    let start = skip_white(&cs, 0);
    let mut i: usize = start;
    while i < cs.len() && !is_white(cs[i])
        invariant
            start <= i <= cs@.len(),
            word_end(cs@, start as int) == word_end(cs@, i as int),
        decreases cs@.len() - i,
    {
        i += 1;
    }
    text_of(&cs, start, i)
}

/// Whether `part` stands in `s` at `i`.
pub open spec fn stands_at(s: Seq<char>, part: Seq<char>, i: int) -> bool {
    0 <= i && i + part.len() <= s.len() && s.subrange(i, i + part.len()) == part
}

/// Whether `part` stands somewhere in `s`.
pub open spec fn contains_text(s: Seq<char>, part: Seq<char>) -> bool {
    exists|i: int| stands_at(s, part, i)
}

pub fn text_contains(s: &str, part: &str) -> (yes: bool)
    ensures
        yes == contains_text(s@, part@),
{
    let xs = chars_of(s);
    let ys = chars_of(part);
    let n = xs.len();
    let m = ys.len();
    if m > n {
        return false;
    }
    let mut i: usize = 0;
    while i <= n - m
        invariant
            xs@ == s@,
            ys@ == part@,
            n == xs@.len(),
            m == ys@.len(),
            m <= n,
            i <= n - m + 1,
            forall|k: int| 0 <= k < i ==> !stands_at(s@, part@, k),
        decreases n - m + 1 - i,
    {
        let mut k: usize = 0;
        while k < m && xs[i + k] == ys[k]
            invariant
                xs@ == s@,
                ys@ == part@,
                n == xs@.len(),
                m == ys@.len(),
                i + m <= n,
                k <= m,
                forall|j: int| 0 <= j < k ==> xs@[i + j] == #[trigger] ys@[j],
            decreases m - k,
        {
            k += 1;
        }
        if k == m {
            assert(s@.subrange(i as int, i + m) =~= part@);
            assert(stands_at(s@, part@, i as int));
            return true;
        }
        assert(s@.subrange(i as int, i + m)[k as int] != part@[k as int]);
        i += 1;
    }
    false
}

/// Whether `a` comes no later than `b` in the order of strings: the order of
/// the first characters that differ, a prefix first.
pub open spec fn text_le(a: Seq<char>, b: Seq<char>) -> bool
    decreases a.len(),
{
    if a.len() == 0 {
        true
    } else if b.len() == 0 {
        false
    } else if a[0] == b[0] {
        text_le(a.skip(1), b.skip(1))
    } else {
        a[0] < b[0]
    }
}

pub proof fn lemma_text_le_total(a: Seq<char>, b: Seq<char>)
    ensures
        text_le(a, b) || text_le(b, a),
    decreases a.len(),
{
    if a.len() > 0 && b.len() > 0 && a[0] == b[0] {
        lemma_text_le_total(a.skip(1), b.skip(1));
    }
}

pub proof fn lemma_text_le_transitive(a: Seq<char>, b: Seq<char>, c: Seq<char>)
    requires
        text_le(a, b),
        text_le(b, c),
    ensures
        text_le(a, c),
    decreases a.len(),
{
    if a.len() > 0 && b.len() > 0 && c.len() > 0 && a[0] == b[0] && b[0] == c[0] {
        lemma_text_le_transitive(a.skip(1), b.skip(1), c.skip(1));
    }
}

pub fn text_not_after(a: &str, b: &str) -> (yes: bool)
    ensures
        yes == text_le(a@, b@),
{
    let xs = chars_of(a);
    let ys = chars_of(b);
    let mut i: usize = 0;
    assert(a@.skip(0) =~= a@);
    assert(b@.skip(0) =~= b@);
    while i < xs.len() && i < ys.len() && xs[i] == ys[i]
        invariant
            xs@ == a@,
            ys@ == b@,
            i <= xs@.len(),
            i <= ys@.len(),
            text_le(a@, b@) == text_le(a@.skip(i as int), b@.skip(i as int)),
        decreases xs@.len() - i,
    {
        assert(a@.skip(i as int).skip(1) =~= a@.skip(i + 1));
        assert(b@.skip(i as int).skip(1) =~= b@.skip(i + 1));
        i += 1;
    }
    if i == xs.len() {
        true
    } else if i == ys.len() {
        false
    } else {
        xs[i] < ys[i]
    }
}

/// How many bytes a character takes in UTF-8.
#[verifier::allow_in_spec]
pub fn utf8_len(c: char) -> u8
    returns
        (if c <= '\u{7F}' {
            1u8
        } else if c <= '\u{7FF}' {
            2u8
        } else if c <= '\u{FFFF}' {
            3u8
        } else {
            4u8
        }),
{
    if c <= '\u{7F}' {
        1
    } else if c <= '\u{7FF}' {
        2
    } else if c <= '\u{FFFF}' {
        3
    } else {
        4
    }
}

/// How many bytes the first `k` characters take in UTF-8.
pub open spec fn byte_len(s: Seq<char>, k: nat) -> nat
    decreases k,
{
    if k == 0 {
        0
    } else {
        byte_len(s, (k - 1) as nat) + utf8_len(s[k - 1]) as nat
    }
}

/// The first character from the `i`-th on with at least `n` bytes before it; the
/// end of the text where there is none.
pub open spec fn place_of_byte(s: Seq<char>, n: nat, i: nat) -> nat
    decreases s.len() - i,
{
    if i >= s.len() || byte_len(s, i) >= n {
        i
    } else {
        place_of_byte(s, n, i + 1)
    }
}

pub fn count_bytes(cs: &Vec<char>) -> (n: u128)
    ensures
        n == byte_len(cs@, cs@.len()),
{
    let mut n: u128 = 0;
    let mut i: usize = 0;
    while i < cs.len()
        invariant
            i <= cs@.len(),
            n == byte_len(cs@, i as nat),
            n <= 4 * i,
        decreases cs@.len() - i,
    {
        n = n + utf8_len(cs[i]) as u128;
        i += 1;
    }
    n
}

pub fn find_byte(cs: &Vec<char>, n: u128) -> (at: usize)
    ensures
        at == place_of_byte(cs@, n as nat, 0),
        at <= cs@.len(),
{
    let mut before: u128 = 0;
    let mut i: usize = 0;
    while i < cs.len() && before < n
        invariant
            i <= cs@.len(),
            before == byte_len(cs@, i as nat),
            before <= 4 * i,
            place_of_byte(cs@, n as nat, 0) == place_of_byte(cs@, n as nat, i as nat),
        decreases cs@.len() - i,
    {
        before = before + utf8_len(cs[i]) as u128;
        i += 1;
    }
    i
}

} // verus!
