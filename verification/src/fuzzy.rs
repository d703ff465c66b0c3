//! Tiny subsequence fuzzy matcher for the file finder.
//!
//! Query chars must appear in order (case-insensitive) in the candidate.
//! Lower scores rank first.

use crate::text::{chars_of, find_char, index_of_char, lemma_index_of_char, lower, lower_text};
use vstd::prelude::*;
use vstd::string::*;
use vstd::utf8::encode_utf8;

verus! {

/// Where the query from its `k`-th char on is found in the candidate from
/// `from` on, each char at its first place behind the one before it.
pub open spec fn places(
    query: Seq<char>,
    candidate: Seq<char>,
    k: nat,
    from: int,
) -> Option<Seq<int>>
    decreases query.len() - k,
{
    if k >= query.len() {
        Some(Seq::empty())
    } else {
        let p = index_of_char(candidate, from, query[k as int]);
        if p >= candidate.len() {
            None
        } else {
            match places(query, candidate, k + 1, p + 1) {
                Some(rest) => Some(seq![p] + rest),
                None => None,
            }
        }
    }
}

/// Whether a word starts at that place.
pub open spec fn at_boundary(candidate: Seq<char>, p: int) -> bool {
    p == 0 || is_separator(candidate[p - 1])
}

/// A char that separates words in a path.
#[verifier::allow_in_spec]
pub fn is_separator(c: char) -> bool
    returns
        c == '/' || c == '_' || c == '-' || c == '.' || c == ' ',
{
    c == '/' || c == '_' || c == '-' || c == '.' || c == ' '
}

/// How many of the first `k` places start a word.
pub open spec fn boundary_hits(candidate: Seq<char>, ps: Seq<int>, k: nat) -> nat
    decreases k,
{
    if k == 0 {
        0
    } else {
        boundary_hits(candidate, ps, (k - 1) as nat) + if at_boundary(candidate, ps[k - 1]) {
            1nat
        } else {
            0nat
        }
    }
}

/// The cost of a match: a late start costs its place, each char left out
/// between two hits costs three, each hit at the start of a word earns two
/// back.
pub open spec fn cost(candidate: Seq<char>, ps: Seq<int>) -> int {
    let skipped = ps.last() - ps[0] - (ps.len() - 1);
    let raw = ps[0] + 3 * skipped - 2 * boundary_hits(candidate, ps, ps.len());
    if raw < 0 {
        0
    } else if raw > u32::MAX {
        u32::MAX as int
    } else {
        raw
    }
}

/// The score of a query against a candidate, lower being better; none where
/// the query is not a subsequence of the candidate. An empty query scores 0.
pub open spec fn score(query: Seq<char>, candidate: Seq<char>) -> Option<int> {
    if query.len() == 0 {
        Some(0)
    } else {
        match places(lower(query), lower(candidate), 0, 0) {
            Some(ps) => Some(cost(lower(candidate), ps)),
            None => None,
        }
    }
}

/// The places are in the candidate, one behind the other.
proof fn lemma_places(query: Seq<char>, candidate: Seq<char>, k: nat, from: int)
    requires
        0 <= from <= candidate.len(),
        k <= query.len(),
    ensures
        places(query, candidate, k, from) matches Some(ps) ==> {
            &&& ps.len() == query.len() - k
            &&& forall|i: int| 0 <= i < ps.len() ==> from + i <= #[trigger] ps[i] < candidate.len()
            &&& forall|i: int, j: int| 0 <= i < j < ps.len() ==> ps[i] + (j - i) <= ps[j]
        },
    decreases query.len() - k,
{
    if k < query.len() {
        lemma_index_of_char(candidate, from, query[k as int]);
        let p = index_of_char(candidate, from, query[k as int]);
        if p < candidate.len() {
            lemma_places(query, candidate, k + 1, p + 1);
        }
    }
}

/// Finds the places of a query, if it is a subsequence.
fn find_places(q: &Vec<char>, c: &Vec<char>) -> (out: Option<Vec<usize>>)
    ensures
        (match out {
            Some(list) => places(q@, c@, 0, 0) == Some(list@.map_values(|x: usize| x as int)),
            None => places(q@, c@, 0, 0) is None,
        }),
{
    let mut found: Vec<usize> = Vec::new();
    let mut from: usize = 0;
    let mut k: usize = 0;
    let n = c.len();
    while k < q.len()
        invariant
            k <= q@.len(),
            n == c@.len(),
            from <= c@.len(),
            places(q@, c@, 0, 0) == (match places(q@, c@, k as nat, from as int) {
                Some(rest) => Some(found@.map_values(|x: usize| x as int) + rest),
                None => None,
            }),
        decreases q@.len() - k,
    {
        let p = find_char(c, from, q[k]);
        if p >= n {
            return None;
        }
        let ghost before = found@.map_values(|x: usize| x as int);
        found.push(p);
        assert(found@.map_values(|x: usize| x as int) =~= before.push(p as int));
        proof {
            if let Some(rest) = places(q@, c@, (k + 1) as nat, p + 1) {
                assert(before + (seq![p as int] + rest) =~= found@.map_values(|x: usize| x as int)
                    + rest);
            }
        }
        from = p + 1;
        k += 1;
    }
    assert(found@.map_values(|x: usize| x as int) + Seq::<int>::empty() =~= found@.map_values(
        |x: usize| x as int,
    ));
    Some(found)
}

fn count_boundaries(c: &Vec<char>, found: &Vec<usize>) -> (hits: usize)
    requires
        forall|i: int| 0 <= i < found@.len() ==> #[trigger] found@[i] < c@.len(),
    ensures
        hits == boundary_hits(c@, found@.map_values(|x: usize| x as int), found@.len()),
{
    let ghost ps = found@.map_values(|x: usize| x as int);
    let mut hits: usize = 0;
    let mut i: usize = 0;
    while i < found.len()
        invariant
            i <= found@.len(),
            hits <= i,
            ps == found@.map_values(|x: usize| x as int),
            forall|i: int| 0 <= i < found@.len() ==> #[trigger] found@[i] < c@.len(),
            hits == boundary_hits(c@, ps, i as nat),
        decreases found@.len() - i,
    {
        let p = found[i];
        assert(ps[i as int] == p);
        if p == 0 || is_separator(c[p - 1]) {
            hits += 1;
        }
        i += 1;
    }
    hits
}

/// Scores `query` against `candidate`. `None` when the query is not a
/// subsequence of the candidate. An empty query matches everything at 0.
pub fn fuzzy_score(query: &str, candidate: &str) -> (out: Option<u32>)
    ensures
        (match out {
            Some(s) => score(query@, candidate@) == Some(s as int),
            None => score(query@, candidate@) is None,
        }),
{
    if query.is_empty() {
        return Some(0);
    }
    let ql = lower_text(query);
    let cl = lower_text(candidate);
    let q = chars_of(ql.as_str());
    let c = chars_of(cl.as_str());
    proof {
        lemma_places(q@, c@, 0, 0);
    }
    match find_places(&q, &c) {
        None => None,
        Some(found) => {
            let ghost ps = found@.map_values(|x: usize| x as int);
            let n = found.len();
            let clen = c.len();
            assert forall|i: int| 0 <= i < found@.len() implies #[trigger] found@[i] < c@.len() by {
                assert(ps[i] == found@[i]);
            }
            let hits = count_boundaries(&c, &found);
            let first = found[0] as i128;
            let last = found[n - 1] as i128;
            assert(ps[0] == found@[0] && ps.last() == found@[n - 1]);
            assert(ps[0] + (n - 1) <= ps.last());
            let skipped: i128 = last - first - (n as i128 - 1);
            let raw: i128 = first + 3 * skipped - 2 * (hits as i128);
            if raw < 0 {
                Some(0)
            } else if raw > u32::MAX as i128 {
                Some(u32::MAX)
            } else {
                Some(raw as u32)
            }
        },
    }
}

/// The texts of a list.
pub open spec fn strs(list: Seq<&str>) -> Seq<Seq<char>> {
    list.map_values(|s: &str| s@)
}

/// Whether candidate `a` with its score ranks before candidate `b` with its
/// score: by score, then by length in bytes, then by place.
pub open spec fn ranks_before(
    candidates: Seq<Seq<char>>,
    a: (usize, u32),
    b: (usize, u32),
) -> bool {
    let la = encode_utf8(candidates[a.0 as int]).len();
    let lb = encode_utf8(candidates[b.0 as int]).len();
    a.1 < b.1 || (a.1 == b.1 && (la < lb || (la == lb && a.0 < b.0)))
}

/// Whether a list names the matching ones among the first `k` candidates,
/// each with its score, in the order of their ranks.
pub open spec fn is_ranking(
    query: Seq<char>,
    candidates: Seq<Seq<char>>,
    k: nat,
    out: Seq<(usize, u32)>,
) -> bool {
    &&& forall|i: int|
        0 <= i < out.len() ==> (#[trigger] out[i]).0 < k && score(
            query,
            candidates[out[i].0 as int],
        ) == Some(out[i].1 as int)
    &&& forall|c: int|
        0 <= c < k && score(query, #[trigger] candidates[c]) is Some ==> exists|i: int|
            0 <= i < out.len() && (#[trigger] out[i]).0 == c
    &&& forall|i: int, j: int|
        0 <= i < j < out.len() ==> ranks_before(
            candidates,
            #[trigger] out[i],
            #[trigger] out[j],
        )
}

fn comes_before(candidates: &[&str], a: (usize, u32), b: (usize, u32)) -> (yes: bool)
    requires
        a.0 < candidates@.len(),
        b.0 < candidates@.len(),
    ensures
        yes == ranks_before(strs(candidates@), a, b),
{
    let la = candidates[a.0].as_bytes().len();
    let lb = candidates[b.0].as_bytes().len();
    a.1 < b.1 || (a.1 == b.1 && (la < lb || (la == lb && a.0 < b.0)))
}

/// Ranks candidate indices by `(score, length, index)`; candidates that do not
/// match drop out.
pub fn rank(query: &str, candidates: &[&str]) -> (out: Vec<(usize, u32)>)
    ensures
        is_ranking(query@, strs(candidates@), candidates@.len(), out@),
{
    let mut out: Vec<(usize, u32)> = Vec::new();
    let mut c: usize = 0;
    while c < candidates.len()
        invariant
            c <= candidates@.len(),
            is_ranking(query@, strs(candidates@), c as nat, out@),
        decreases candidates@.len() - c,
    {
        match fuzzy_score(query, candidates[c]) {
            None => {},
            Some(s) => {
                let item = (c, s);
                let ghost before = out@;
                let mut k: usize = out.len();
                while k > 0 && !comes_before(candidates, out[k - 1], item)
                    invariant
                        c < candidates@.len(),
                        item == (c, s),
                        k <= out@.len(),
                        out@ == before,
                        is_ranking(query@, strs(candidates@), c as nat, out@),
                        forall|i: int|
                            k <= i < out@.len() ==> ranks_before(
                                strs(candidates@),
                                item,
                                #[trigger] out@[i],
                            ),
                    decreases k,
                {
                    k -= 1;
                }
                out.insert(k, item);
                proof {
                    lemma_ranking_insert(query@, strs(candidates@), c as nat, before, k as int, item);
                }
            },
        }
        c += 1;
    }
    out
}

proof fn lemma_ranking_insert(
    query: Seq<char>,
    candidates: Seq<Seq<char>>,
    c: nat,
    before: Seq<(usize, u32)>,
    k: int,
    item: (usize, u32),
)
    requires
        is_ranking(query, candidates, c, before),
        c < candidates.len(),
        item.0 == c,
        score(query, candidates[c as int]) == Some(item.1 as int),
        0 <= k <= before.len(),
        k > 0 ==> ranks_before(candidates, before[k - 1], item),
        forall|i: int| k <= i < before.len() ==> ranks_before(candidates, item, #[trigger] before[i]),
    ensures
        is_ranking(query, candidates, c + 1, before.insert(k, item)),
{
    let after = before.insert(k, item);
    assert forall|j: int|
        0 <= j < c + 1 && score(query, #[trigger] candidates[j]) is Some implies exists|i: int|
        0 <= i < after.len() && (#[trigger] after[i]).0 == j by {
        if j == c {
            assert(after[k].0 == j);
        } else {
            let i = choose|i: int| 0 <= i < before.len() && (#[trigger] before[i]).0 == j;
            if i < k {
                assert(after[i].0 == j);
            } else {
                assert(after[i + 1].0 == j);
            }
        }
    }
    assert forall|i: int, j: int| 0 <= i < j < after.len() implies ranks_before(
        candidates,
        #[trigger] after[i],
        #[trigger] after[j],
    ) by {
        let oi = if i < k { i } else { i - 1 };
        let oj = if j < k { j } else { j - 1 };
        if i != k && j != k {
            assert(after[i] == before[oi] && after[j] == before[oj]);
        } else if i == k {
            assert(after[j] == before[oj]);
        } else {
            assert(after[i] == before[oi]);
            if oi < k - 1 {
                assert(ranks_before(candidates, before[oi], before[k - 1]));
            }
        }
    }
}

/// There is only one ranking: no two candidates rank the same.
pub proof fn law_ranking_is_unique(
    query: Seq<char>,
    candidates: Seq<Seq<char>>,
    k: nat,
    a: Seq<(usize, u32)>,
    b: Seq<(usize, u32)>,
)
    requires
        is_ranking(query, candidates, k, a),
        is_ranking(query, candidates, k, b),
    ensures
        a == b,
{
    lemma_rankings_agree(query, candidates, k, a, b, a.len());
    lemma_rankings_agree(query, candidates, k, b, a, b.len());
    assert(a =~= b);
}

proof fn lemma_rankings_agree(
    query: Seq<char>,
    candidates: Seq<Seq<char>>,
    k: nat,
    a: Seq<(usize, u32)>,
    b: Seq<(usize, u32)>,
    n: nat,
)
    requires
        is_ranking(query, candidates, k, a),
        is_ranking(query, candidates, k, b),
        n <= a.len(),
    ensures
        n <= b.len(),
        forall|i: int| 0 <= i < n ==> a[i] == #[trigger] b[i],
    decreases n,
{
    if n > 0 {
        let i = n - 1;
        lemma_rankings_agree(query, candidates, k, a, b, i as nat);
        let c = a[i].0 as int;
        assert(score(query, candidates[c]) is Some);
        let p = choose|p: int| 0 <= p < b.len() && (#[trigger] b[p]).0 == c;
        assert(b[p] == a[i]);
        if p < i {
            assert(a[p] == b[p]);
            assert(ranks_before(candidates, a[p], a[i]));
        }
        if p > i {
            let d = b[i].0 as int;
            assert(score(query, candidates[d]) is Some);
            let q = choose|q: int| 0 <= q < a.len() && (#[trigger] a[q]).0 == d;
            assert(a[q] == b[i]);
            assert(ranks_before(candidates, b[i], b[p]));
            if q < i {
                assert(a[q] == b[q]);
                assert(ranks_before(candidates, b[q], b[i]));
            } else if q > i {
                assert(ranks_before(candidates, a[i], a[q]));
            }
        }
    }
}

/// Case does not matter to a match: texts that are the same in lower case
/// score the same.
pub proof fn law_score_ignores_case(
    q1: Seq<char>,
    q2: Seq<char>,
    c1: Seq<char>,
    c2: Seq<char>,
)
    requires
        lower(q1) == lower(q2),
        lower(c1) == lower(c2),
    ensures
        score(q1, c1) == score(q2, c2),
{
    assert(lower(q1).len() == q1.len());
    assert(lower(q2).len() == q2.len());
}

/// A query is found only where its chars stand in the candidate in order.
pub proof fn law_match_is_subsequence(query: Seq<char>, candidate: Seq<char>)
    requires
        score(query, candidate) is Some,
    ensures
        exists|ps: Seq<int>|
            {
                &&& #[trigger] ps.len() == query.len()
                &&& forall|i: int|
                    0 <= i < ps.len() ==> 0 <= #[trigger] ps[i] < candidate.len() && lower(
                        candidate,
                    )[ps[i]] == lower(query)[i]
                &&& forall|i: int, j: int| 0 <= i < j < ps.len() ==> ps[i] < ps[j]
            },
{
    let q = lower(query);
    let c = lower(candidate);
    if query.len() == 0 {
        let ps = Seq::<int>::empty();
        assert(ps.len() == query.len());
    } else {
        lemma_places(q, c, 0, 0);
        lemma_places_hit(q, c, 0, 0);
        let ps = places(q, c, 0, 0)->0;
        assert(ps.len() == query.len());
    }
}

proof fn lemma_places_hit(query: Seq<char>, candidate: Seq<char>, k: nat, from: int)
    requires
        0 <= from <= candidate.len(),
        k <= query.len(),
    ensures
        places(query, candidate, k, from) matches Some(ps) ==> forall|i: int|
            0 <= i < ps.len() ==> 0 <= #[trigger] ps[i] < candidate.len() && candidate[ps[i]]
                == query[k + i],
    decreases query.len() - k,
{
    if k < query.len() {
        lemma_index_of_char(candidate, from, query[k as int]);
        let p = index_of_char(candidate, from, query[k as int]);
        if p < candidate.len() {
            lemma_places_hit(query, candidate, k + 1, p + 1);
            if let Some(rest) = places(query, candidate, k + 1, p + 1) {
                let ps = seq![p] + rest;
                assert forall|i: int| 0 <= i < ps.len() implies 0 <= #[trigger] ps[i]
                    < candidate.len() && candidate[ps[i]] == query[k + i] by {
                    if i > 0 {
                        assert(ps[i] == rest[i - 1]);
                    }
                }
            }
        }
    }
}

/// Whether places are the leftmost ones at which the query can be read in the
/// candidate: each char at its first place behind the one before it.
pub open spec fn is_leftmost(query: Seq<char>, candidate: Seq<char>, ps: Seq<int>) -> bool {
    &&& ps.len() == query.len()
    &&& forall|i: int|
        0 <= i < ps.len() ==> 0 <= #[trigger] ps[i] < candidate.len() && candidate[ps[i]]
            == query[i]
    &&& forall|i: int, j: int| 0 <= i < j < ps.len() ==> #[trigger] ps[i] < #[trigger] ps[j]
    &&& forall|i: int, p: int|
        #![trigger ps[i], candidate[p]]
        0 <= i < ps.len() && 0 <= p < ps[i] && (i > 0 ==> ps[i - 1] < p) ==> candidate[p]
            != query[i]
}

/// How many chars are left out between neighbouring places.
pub open spec fn left_out(ps: Seq<int>) -> int
    decreases ps.len(),
{
    if ps.len() <= 1 {
        0
    } else {
        left_out(ps.drop_last()) + (ps.last() - ps[ps.len() - 2] - 1)
    }
}

/// The places at which a word starts: the first one, and those behind a slash,
/// an underscore, a dash, a dot or a blank.
pub open spec fn word_starts(candidate: Seq<char>, ps: Seq<int>) -> Seq<int> {
    ps.filter(
        |p: int|
            p == 0 || seq!['/', '_', '-', '.', ' '].contains(candidate[p - 1]),
    )
}

proof fn lemma_left_out(ps: Seq<int>)
    requires
        ps.len() > 0,
    ensures
        left_out(ps) == ps.last() - ps[0] - (ps.len() - 1),
    decreases ps.len(),
{
    if ps.len() > 1 {
        lemma_left_out(ps.drop_last());
    }
}

proof fn lemma_word_starts(candidate: Seq<char>, ps: Seq<int>, k: nat)
    requires
        k <= ps.len(),
    ensures
        boundary_hits(candidate, ps, k) == word_starts(candidate, ps.take(k as int)).len(),
    decreases k,
{
    reveal(Seq::filter);
    let separators = seq!['/', '_', '-', '.', ' '];
    let starts = |p: int| p == 0 || separators.contains(candidate[p - 1]);
    if k > 0 {
        let some = ps.take(k as int);
        let p = ps[k - 1];
        lemma_word_starts(candidate, ps, (k - 1) as nat);
        assert(some.drop_last() =~= ps.take(k - 1));
        assert(some.last() == p);
        let c = candidate[p - 1];
        assert(separators.contains(c) == is_separator(c)) by {
            assert(separators[0] == '/' && separators[1] == '_' && separators[2] == '-'
                && separators[3] == '.' && separators[4] == ' ');
            if separators.contains(c) {
                let i = choose|i: int| 0 <= i < separators.len() && separators[i] == c;
                assert(i == 0 || i == 1 || i == 2 || i == 3 || i == 4);
            }
        }
        assert(some.filter(starts) == if starts(p) {
            ps.take(k - 1).filter(starts).push(p)
        } else {
            ps.take(k - 1).filter(starts)
        });
    } else {
        assert(ps.take(0) =~= Seq::empty());
    }
}

proof fn lemma_leftmost_places(query: Seq<char>, candidate: Seq<char>, k: nat, ps: Seq<int>)
    requires
        is_leftmost(query, candidate, ps),
        k <= query.len(),
    ensures
        places(
            query,
            candidate,
            k,
            if k == 0 {
                0
            } else {
                ps[k - 1] + 1
            },
        ) == Some(ps.skip(k as int)),
    decreases query.len() - k,
{
    if k < query.len() {
        let from = if k == 0 {
            0
        } else {
            ps[k - 1] + 1
        };
        let at = ps[k as int];
        lemma_leftmost_places(query, candidate, k + 1, ps);
        lemma_index_of_char(candidate, from, query[k as int]);
        let p = index_of_char(candidate, from, query[k as int]);
        assert(from <= at);
        if p < at {
            assert(candidate[p] != query[k as int]);
        }
        assert(candidate[at] == query[k as int]);
        assert(p == at);
        assert(seq![p] + ps.skip(k as int + 1) =~= ps.skip(k as int));
    } else {
        assert(ps.skip(k as int) =~= Seq::empty());
    }
}

/// The leftmost match is what is scored: its first place, and three for every
/// char left out between any two neighbouring hits, less two for every hit at
/// which a word starts, but never below 0 nor more than fits.
pub proof fn law_score_counts_every_gap(query: Seq<char>, candidate: Seq<char>, ps: Seq<int>)
    requires
        query.len() > 0,
        is_leftmost(lower(query), lower(candidate), ps),
    ensures
        ({
            let starts = word_starts(lower(candidate), ps).len();
            let cost = ps[0] + 3 * left_out(ps) - 2 * starts;
            &&& left_out(ps) == ps.last() - ps[0] - (ps.len() - 1)
            &&& score(query, candidate) == Some(
                if cost < 0 {
                    0
                } else if cost > 0xffff_ffff {
                    0xffff_ffff
                } else {
                    cost
                },
            )
        }),
{
    lemma_leftmost_places(lower(query), lower(candidate), 0, ps);
    lemma_left_out(ps);
    lemma_word_starts(lower(candidate), ps, ps.len());
    assert(ps.take(ps.len() as int) =~= ps);
    assert(ps.skip(0) =~= ps);
}

/// Of two matches that start at the same place and hit as many word starts, the
/// one that spans fewer chars scores no worse; of two that leave out as much and
/// hit as many word starts, the one that starts first; and of two that start and
/// leave out the same, the one with more word starts.
pub proof fn law_better_matches_score_less(
    query: Seq<char>,
    one: Seq<char>,
    other: Seq<char>,
    ps: Seq<int>,
    qs: Seq<int>,
)
    requires
        query.len() > 0,
        is_leftmost(lower(query), lower(one), ps),
        is_leftmost(lower(query), lower(other), qs),
        ps[0] <= qs[0],
        ps.last() - ps[0] <= qs.last() - qs[0],
        word_starts(lower(one), ps).len() >= word_starts(lower(other), qs).len(),
    ensures
        score(query, one)->0 <= score(query, other)->0,
        score(query, other)->0 > 0 && score(query, one)->0 < 0xffff_ffff && ps.last() - ps[0]
            < qs.last() - qs[0] ==> score(query, one)->0 < score(query, other)->0,
{
    law_score_counts_every_gap(query, one, ps);
    law_score_counts_every_gap(query, other, qs);
}

proof fn lemma_embedded(query: Seq<char>, candidate: Seq<char>, k: nat, from: int, hs: Seq<int>)
    requires
        k <= query.len(),
        hs.len() == query.len(),
        0 <= from <= candidate.len(),
        forall|i: int|
            0 <= i < hs.len() ==> 0 <= #[trigger] hs[i] < candidate.len() && candidate[hs[i]]
                == query[i],
        forall|i: int, j: int| 0 <= i < j < hs.len() ==> #[trigger] hs[i] < #[trigger] hs[j],
        k < query.len() ==> from <= hs[k as int],
    ensures
        places(query, candidate, k, from) is Some,
    decreases query.len() - k,
{
    if k < query.len() {
        lemma_index_of_char(candidate, from, query[k as int]);
        let p = index_of_char(candidate, from, query[k as int]);
        assert(candidate[hs[k as int]] == query[k as int]);
        assert(p <= hs[k as int]);
        if k + 1 < query.len() {
            assert(hs[k as int] < hs[k as int + 1]);
        }
        lemma_embedded(query, candidate, k + 1, p + 1, hs);
    }
}

/// Every candidate in which the query's chars stand in order, in upper or lower
/// case, matches.
pub proof fn law_subsequence_matches(query: Seq<char>, candidate: Seq<char>, hs: Seq<int>)
    requires
        hs.len() == query.len(),
        forall|i: int|
            0 <= i < hs.len() ==> 0 <= #[trigger] hs[i] < candidate.len() && lower(
                candidate,
            )[hs[i]] == lower(query)[i],
        forall|i: int, j: int| 0 <= i < j < hs.len() ==> #[trigger] hs[i] < #[trigger] hs[j],
    ensures
        score(query, candidate) is Some,
{
    lemma_embedded(lower(query), lower(candidate), 0, 0, hs);
}

/// Lower case changes the letters from A to Z alone.
pub proof fn law_lower_case(s: Seq<char>, i: int)
    requires
        0 <= i < s.len(),
    ensures
        lower(s).len() == s.len(),
        'A' <= s[i] <= 'Z' ==> lower(s)[i] as int == s[i] as int + 32,
        !('A' <= s[i] <= 'Z') ==> lower(s)[i] == s[i],
{
}

/// A ranking names every match once and nothing else, each with its score: the
/// lower score first, of equal scores the text that is shorter in bytes, and of
/// texts as long the one that comes first.
pub proof fn law_ranking_is_ordered(
    query: Seq<char>,
    candidates: Seq<Seq<char>>,
    out: Seq<(usize, u32)>,
)
    requires
        is_ranking(query, candidates, candidates.len(), out),
    ensures
        forall|i: int|
            0 <= i < out.len() ==> (#[trigger] out[i]).0 < candidates.len() && score(
                query,
                candidates[out[i].0 as int],
            ) == Some(out[i].1 as int),
        forall|c: int|
            0 <= c < candidates.len() && score(query, #[trigger] candidates[c]) is Some
                ==> exists|i: int| 0 <= i < out.len() && (#[trigger] out[i]).0 == c,
        forall|i: int, j: int|
            0 <= i < j < out.len() ==> {
                let x = #[trigger] out[i];
                let y = #[trigger] out[j];
                let short = encode_utf8(candidates[x.0 as int]).len();
                let long = encode_utf8(candidates[y.0 as int]).len();
                &&& x.0 != y.0
                &&& x.1 <= y.1
                &&& x.1 == y.1 ==> short <= long
                &&& x.1 == y.1 && short == long ==> x.0 < y.0
            },
{
    assert forall|i: int, j: int| 0 <= i < j < out.len() implies {
        let x = #[trigger] out[i];
        let y = #[trigger] out[j];
        let short = encode_utf8(candidates[x.0 as int]).len();
        let long = encode_utf8(candidates[y.0 as int]).len();
        &&& x.0 != y.0
        &&& x.1 <= y.1
        &&& x.1 == y.1 ==> short <= long
        &&& x.1 == y.1 && short == long ==> x.0 < y.0
    } by {
        assert(ranks_before(candidates, out[i], out[j]));
    }
}

} // verus!
