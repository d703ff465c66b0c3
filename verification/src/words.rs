//! Word-level highlighting for the diff panel: char-level diffs of line pairs.

use similar::{ChangeTag, TextDiff};
use vstd::prelude::*;
use vstd::string::*;
use vstd::utf8::encode_utf8;

verus! {

/// A run of text within one diff line; `changed` runs get emphasized.
#[derive(Debug, Clone)]
pub struct WordSeg {
    pub text: String,
    pub changed: bool,
}

/// What a [`WordSeg`] holds.
#[verifier::ext_equal]
pub struct SegView {
    pub text: Seq<char>,
    pub changed: bool,
}

impl View for WordSeg {
    type V = SegView;

    open spec fn view(&self) -> SegView {
        SegView { text: self.text@, changed: self.changed }
    }
}

/// What a list of runs holds.
pub open spec fn segs_view(segs: Seq<WordSeg>) -> Seq<SegView> {
    segs.map_values(|s: WordSeg| s@)
}

/// Lines longer than this many bytes together are not compared.
pub const CHAR_DIFF_CAP_BYTES: usize = 400;

/// What a diff says of a piece of text.
#[derive(Clone, Copy, Debug, PartialEq, Eq, Structural)]
pub enum ChangeKind {
    Equal,
    Delete,
    Insert,
}

/// One step of a diff.
#[derive(Debug)]
pub struct CharChange {
    pub kind: ChangeKind,
    pub text: String,
}

/// What a [`CharChange`] holds.
#[verifier::ext_equal]
pub struct ChangeView {
    pub kind: ChangeKind,
    pub text: Seq<char>,
}

impl View for CharChange {
    type V = ChangeView;

    open spec fn view(&self) -> ChangeView {
        ChangeView { kind: self.kind, text: self.text@ }
    }
}

pub open spec fn changes_view(changes: Seq<CharChange>) -> Seq<ChangeView> {
    changes.map_values(|c: CharChange| c@)
}

/// The text of one side of a diff: what is equal and what only that side has.
pub open spec fn side_text(changes: Seq<ChangeView>, own: ChangeKind, k: nat) -> Seq<char>
    decreases k,
{
    if k == 0 {
        Seq::empty()
    } else {
        let before = side_text(changes, own, (k - 1) as nat);
        let c = changes[k - 1];
        if c.kind == ChangeKind::Equal || c.kind == own {
            before + c.text
        } else {
            before
        }
    }
}

/// The char diff of two texts.
pub uninterp spec fn char_diff(old: Seq<char>, new: Seq<char>) -> Seq<ChangeView>;

/// `similar::TextDiff::from_chars`, change by change: a function of the two
/// texts. What is equal or deleted makes up the old text, what is equal or
/// inserted the new one.
#[verifier::external_body]
fn diff_chars(old: &str, new: &str) -> (out: Vec<CharChange>)
    ensures
        changes_view(out@) == char_diff(old@, new@),
        side_text(changes_view(out@), ChangeKind::Delete, out@.len()) == old@,
        side_text(changes_view(out@), ChangeKind::Insert, out@.len()) == new@,
{
    let convert = |c: similar::Change<&str>| CharChange {
        kind: match c.tag() {
            ChangeTag::Equal => ChangeKind::Equal,
            ChangeTag::Delete => ChangeKind::Delete,
            ChangeTag::Insert => ChangeKind::Insert,
        },
        text: c.value().to_string(),
    };
    TextDiff::from_chars(old, new).iter_all_changes().map(convert).collect()
}

/// The runs with one more piece: an empty piece adds nothing, a piece of the
/// kind of the last run extends it.
pub open spec fn with_seg(segs: Seq<SegView>, text: Seq<char>, changed: bool) -> Seq<SegView> {
    if segs.len() > 0 && segs.last().changed == changed {
        segs.drop_last().push(SegView { text: segs.last().text + text, changed })
    } else {
        segs.push(SegView { text, changed })
    }
}

/// The runs of one side of a diff.
pub open spec fn side_segs(changes: Seq<ChangeView>, own: ChangeKind, k: nat) -> Seq<SegView>
    decreases k,
{
    if k == 0 {
        Seq::empty()
    } else {
        let before = side_segs(changes, own, (k - 1) as nat);
        let c = changes[k - 1];
        if c.text.len() == 0 {
            before
        } else if c.kind == ChangeKind::Equal {
            with_seg(before, c.text, false)
        } else if c.kind == own {
            with_seg(before, c.text, true)
        } else {
            before
        }
    }
}

/// A whole line as one changed run; none for an empty line.
pub open spec fn whole_changed(text: Seq<char>) -> Seq<SegView> {
    if text.len() == 0 {
        Seq::empty()
    } else {
        seq![SegView { text, changed: true }]
    }
}

/// Whether two lines are compared char by char.
pub open spec fn is_compared(old: Seq<char>, new: Seq<char>) -> bool {
    old.len() > 0 && new.len() > 0 && encode_utf8(old).len() + encode_utf8(new).len()
        <= CHAR_DIFF_CAP_BYTES
}

/// The runs of the old line of a pair.
pub open spec fn old_segs(old: Seq<char>, new: Seq<char>) -> Seq<SegView> {
    if is_compared(old, new) {
        side_segs(char_diff(old, new), ChangeKind::Delete, char_diff(old, new).len())
    } else {
        whole_changed(old)
    }
}

/// The runs of the new line of a pair.
pub open spec fn new_segs(old: Seq<char>, new: Seq<char>) -> Seq<SegView> {
    if is_compared(old, new) {
        side_segs(char_diff(old, new), ChangeKind::Insert, char_diff(old, new).len())
    } else {
        whole_changed(new)
    }
}

/// The text of runs, end to end.
pub open spec fn segs_text(segs: Seq<SegView>) -> Seq<char>
    decreases segs.len(),
{
    if segs.len() == 0 {
        Seq::empty()
    } else {
        segs_text(segs.drop_last()) + segs.last().text
    }
}

/// No two neighbouring runs are of the same kind.
pub open spec fn alternates(segs: Seq<SegView>) -> bool {
    forall|i: int|
        0 <= i < segs.len() - 1 ==> (#[trigger] segs[i]).changed != segs[i + 1].changed
}

/// A whole line as one changed run.
pub fn changed_side(text: &str) -> (out: Vec<WordSeg>)
    ensures
        segs_view(out@) == whole_changed(text@),
{
    let mut out: Vec<WordSeg> = Vec::new();
    if !text.is_empty() {
        out.push(WordSeg { text: text.to_owned(), changed: true });
    }
    assert(segs_view(out@) =~= whole_changed(text@));
    out
}

/// Adds a piece of text, merging it with the last run of the same kind.
pub fn push_seg(segs: &mut Vec<WordSeg>, text: &str, changed: bool)
    ensures
        segs_view(final(segs)@) == with_seg(segs_view(old(segs)@), text@, changed),
{
    let ghost before = segs_view(segs@);
    let n = segs.len();
    if n > 0 && segs[n - 1].changed == changed {
        let last = segs.pop();
        if let Some(mut seg) = last {
            seg.text.append(text);
            segs.push(seg);
        }
    } else {
        segs.push(WordSeg { text: text.to_owned(), changed });
    }
    assert(segs_view(segs@) =~= with_seg(before, text@, changed));
}

proof fn lemma_with_seg(segs: Seq<SegView>, text: Seq<char>, changed: bool)
    requires
        alternates(segs),
    ensures
        segs_text(with_seg(segs, text, changed)) == segs_text(segs) + text,
        alternates(with_seg(segs, text, changed)),
{
    let next = with_seg(segs, text, changed);
    if segs.len() > 0 && segs.last().changed == changed {
        assert(next.drop_last() =~= segs.drop_last());
        assert(segs_text(next) =~= segs_text(segs) + text);
        assert forall|i: int| 0 <= i < next.len() - 1 implies (#[trigger] next[i]).changed
            != next[i + 1].changed by {
            assert(segs[i].changed != segs[i + 1].changed);
        }
    } else {
        assert(next.drop_last() =~= segs);
        assert forall|i: int| 0 <= i < next.len() - 1 implies (#[trigger] next[i]).changed
            != next[i + 1].changed by {
            if i < segs.len() - 1 {
                assert(segs[i].changed != segs[i + 1].changed);
            }
        }
    }
}

proof fn lemma_side_segs(changes: Seq<ChangeView>, own: ChangeKind, k: nat)
    requires
        k <= changes.len(),
        own != ChangeKind::Equal,
    ensures
        segs_text(side_segs(changes, own, k)) == side_text(changes, own, k),
        alternates(side_segs(changes, own, k)),
    decreases k,
{
    if k > 0 {
        lemma_side_segs(changes, own, (k - 1) as nat);
        let before = side_segs(changes, own, (k - 1) as nat);
        let c = changes[k - 1];
        lemma_with_seg(before, c.text, false);
        lemma_with_seg(before, c.text, true);
        assert(c.text.len() == 0 ==> side_text(changes, own, (k - 1) as nat) + c.text
            =~= side_text(changes, own, (k - 1) as nat));
    }
}

proof fn lemma_whole(text: Seq<char>)
    ensures
        segs_text(whole_changed(text)) == text,
        alternates(whole_changed(text)),
{
    let s = whole_changed(text);
    if text.len() > 0 {
        assert(s.drop_last() =~= Seq::<SegView>::empty());
        assert(s.last().text == text);
        assert(segs_text(Seq::<SegView>::empty()) =~= Seq::<char>::empty());
    }
    assert(segs_text(s) =~= text);
}

/// The runs of both sides of a diff: what is deleted shows as changed on the old
/// side, what is inserted on the new one.
pub fn split_changes(changes: &Vec<CharChange>) -> (out: (Vec<WordSeg>, Vec<WordSeg>))
    ensures
        segs_view(out.0@) == side_segs(
            changes_view(changes@),
            ChangeKind::Delete,
            changes@.len(),
        ),
        segs_view(out.1@) == side_segs(
            changes_view(changes@),
            ChangeKind::Insert,
            changes@.len(),
        ),
{
    let ghost cs = changes_view(changes@);
    let mut old_out: Vec<WordSeg> = Vec::new();
    let mut new_out: Vec<WordSeg> = Vec::new();
    let mut i: usize = 0;
    assert(segs_view(old_out@) =~= side_segs(cs, ChangeKind::Delete, 0));
    assert(segs_view(new_out@) =~= side_segs(cs, ChangeKind::Insert, 0));
    while i < changes.len()
        invariant
            i <= changes@.len(),
            cs == changes_view(changes@),
            segs_view(old_out@) == side_segs(cs, ChangeKind::Delete, i as nat),
            segs_view(new_out@) == side_segs(cs, ChangeKind::Insert, i as nat),
        decreases changes@.len() - i,
    {
        let c = &changes[i];
        assert(cs[i as int] == c@);
        if !c.text.as_str().is_empty() {
            match c.kind {
                ChangeKind::Equal => {
                    push_seg(&mut old_out, c.text.as_str(), false);
                    push_seg(&mut new_out, c.text.as_str(), false);
                },
                ChangeKind::Delete => push_seg(&mut old_out, c.text.as_str(), true),
                ChangeKind::Insert => push_seg(&mut new_out, c.text.as_str(), true),
            }
        }
        i += 1;
    }
    (old_out, new_out)
}

/// Char-level diff of one old line against one new line: the runs of the old
/// line and the runs of the new line. No text is lost, and neighbouring runs
/// are of different kinds. An empty side needs no diffing, and lines past the
/// cap skip it: they are wholly changed.
pub fn word_diff(old: &str, new: &str) -> (out: (Vec<WordSeg>, Vec<WordSeg>))
    ensures
        segs_view(out.0@) == old_segs(old@, new@),
        segs_view(out.1@) == new_segs(old@, new@),
        segs_text(segs_view(out.0@)) == old@,
        segs_text(segs_view(out.1@)) == new@,
        alternates(segs_view(out.0@)),
        alternates(segs_view(out.1@)),
{
    proof {
        lemma_whole(old@);
        lemma_whole(new@);
    }
    if old.is_empty() || new.is_empty() {
        return (changed_side(old), changed_side(new));
    }
    let old_len = old.as_bytes().len();
    let new_len = new.as_bytes().len();
    if old_len > CHAR_DIFF_CAP_BYTES || new_len > CHAR_DIFF_CAP_BYTES - old_len {
        return (changed_side(old), changed_side(new));
    }
    let changes = diff_chars(old, new);
    let ghost cs = changes_view(changes@);
    proof {
        lemma_side_segs(cs, ChangeKind::Delete, cs.len());
        lemma_side_segs(cs, ChangeKind::Insert, cs.len());
    }
    split_changes(&changes)
}

} // verus!
