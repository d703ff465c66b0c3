//! The directory picker for opening projects.

use crate::config::{lowercase, unicode_lower};
use crate::paths::{joined_path, parent_path, path_join, path_parent};
use crate::text::{contains_text, opt_text, text_contains, text_le, text_not_after};
use vstd::prelude::*;
use vstd::string::*;

verus! {

/// One subdirectory row in the project browser.
#[derive(Debug, Clone)]
pub struct DirEntry {
    pub name: String,
    /// The directory itself contains `.git` (repo root).
    pub is_repo_root: bool,
}

/// Which row of the browser list is highlighted.
#[derive(Debug, Clone, Copy, PartialEq, Eq, Structural)]
pub enum BrowserRow {
    /// `.`: open the browsed folder itself.
    Current,
    /// `..`: go up to the parent.
    Parent,
    /// A subdirectory: opens as a project when it is a repo, otherwise
    /// Enter descends into it for browsing.
    Dir(usize),
}

/// Directory picker. Row 0 is always `.` (open this folder), row 1 is `..`
/// (parent), then the visible subdirectories (all of them, or those that
/// match the filter).
#[derive(Debug, Clone)]
pub struct OpenBrowser {
    pub cwd: String,
    pub entries: Vec<DirEntry>,
    /// Subset of `entries` shown: everything without a filter, the
    /// case-insensitive substring matches with one.
    pub view: Vec<DirEntry>,
    pub selected: usize,
    pub error: Option<String>,
    /// Jump-to-path line: typing a path instead of browsing.
    pub editing_path: bool,
    /// Type-to-filter query: any typed char narrows this folder's list.
    pub filter: String,
}

/// What an [`OpenBrowser`] holds.
#[verifier::ext_equal]
pub struct BrowserView {
    pub cwd: Seq<char>,
    pub entries: Seq<DirEntry>,
    pub view: Seq<DirEntry>,
    pub selected: nat,
    pub error: Option<Seq<char>>,
    pub editing_path: bool,
    pub filter: Seq<char>,
}

impl View for OpenBrowser {
    type V = BrowserView;

    open spec fn view(&self) -> BrowserView {
        BrowserView {
            cwd: self.cwd@,
            entries: self.entries@,
            view: self.view@,
            selected: self.selected as nat,
            error: opt_text(self.error),
            editing_path: self.editing_path,
            filter: self.filter@,
        }
    }
}

/// Whether the name of an entry holds the query, whatever the case.
pub open spec fn entry_matches(e: DirEntry, query: Seq<char>) -> bool {
    contains_text(unicode_lower(e.name@), unicode_lower(query))
}

/// Those of the first `k` entries whose name holds the query.
pub open spec fn matching(entries: Seq<DirEntry>, query: Seq<char>, k: nat) -> Seq<DirEntry>
    decreases k,
{
    if k == 0 {
        Seq::empty()
    } else if entry_matches(entries[k - 1], query) {
        matching(entries, query, (k - 1) as nat).push(entries[k - 1])
    } else {
        matching(entries, query, (k - 1) as nat)
    }
}

impl BrowserView {
    /// The last row of the list.
    pub open spec fn last_row(self) -> nat {
        self.view.len() + 1
    }

    pub open spec fn clamp_selected(self) -> BrowserView {
        BrowserView {
            selected: if self.selected > self.last_row() {
                self.last_row()
            } else {
                self.selected
            },
            ..self
        }
    }

    /// The row that is highlighted.
    pub open spec fn highlighted(self) -> nat {
        self.clamp_selected().selected
    }

    /// The list rebuilt from the entries and the filter. A filter that matches
    /// moves the highlight to the first match.
    pub open spec fn filtered(self) -> BrowserView {
        if self.filter.len() == 0 {
            BrowserView { view: self.entries, ..self }
        } else {
            let view = matching(self.entries, self.filter, self.entries.len());
            BrowserView {
                view,
                selected: if view.len() > 0 {
                    2
                } else {
                    self.selected
                },
                ..self
            }.clamp_selected()
        }
    }

    pub open spec fn with_filter(self, filter: Seq<char>) -> BrowserView {
        BrowserView { filter, ..self }.filtered()
    }

    /// The folder that the highlighted row points at; `..` of a path without
    /// a parent is the path itself.
    pub open spec fn target(self) -> Seq<char> {
        let row = self.highlighted();
        if row == 0 {
            self.cwd
        } else if row == 1 {
            match parent_path(self.cwd) {
                Some(p) => p,
                None => self.cwd,
            }
        } else {
            joined_path(self.cwd, self.view[row - 2].name@)
        }
    }

    /// The highlight moved by `delta` rows, held inside the list.
    pub open spec fn moved(self, delta: int) -> BrowserView {
        let to = self.highlighted() + delta;
        BrowserView {
            selected: if to < 0 {
                0
            } else if to > self.last_row() {
                self.last_row()
            } else {
                to as nat
            },
            ..self
        }
    }

    /// The folder read again: its listing, or the old one and the error where
    /// it cannot be read.
    pub open spec fn rescanned(self, listing: Result<Seq<DirEntry>, Seq<char>>) -> BrowserView {
        let (entries, error) = match listing {
            Ok(list) => (list, None),
            Err(e) => (self.entries, Some(e)),
        };
        BrowserView {
            entries,
            error,
            filter: Seq::empty(),
            view: entries,
            ..self
        }.clamp_selected()
    }

    /// The browser moved to a folder, if that could be read.
    pub open spec fn moved_to(
        self,
        dir: Seq<char>,
        listing: Result<Seq<DirEntry>, Seq<char>>,
    ) -> BrowserView {
        match listing {
            Ok(list) => BrowserView {
                cwd: dir,
                entries: list,
                view: list,
                selected: 0,
                error: None,
                filter: Seq::empty(),
                ..self
            },
            Err(e) => BrowserView { error: Some(e), ..self },
        }
    }

    /// The list has room for its two fixed rows, and shows only entries.
    pub open spec fn wf(self) -> bool {
        self.view.len() <= self.entries.len() <= usize::MAX - 2
    }
}

/// What the reading of a folder gave.
pub open spec fn listing_view(
    listing: Result<Vec<DirEntry>, String>,
) -> Result<Seq<DirEntry>, Seq<char>> {
    match listing {
        Ok(list) => Ok(list@),
        Err(e) => Err(e@),
    }
}

/// Whether a listing has room for the two fixed rows.
pub open spec fn listing_fits(listing: Result<Vec<DirEntry>, String>) -> bool {
    listing matches Ok(list) ==> list@.len() <= usize::MAX - 2
}

fn copy_entry(e: &DirEntry) -> (out: DirEntry)
    ensures
        out == *e,
{
    DirEntry { name: e.name.clone(), is_repo_root: e.is_repo_root }
}

fn copy_entries(entries: &Vec<DirEntry>) -> (out: Vec<DirEntry>)
    ensures
        out@ == entries@,
{
    let mut out: Vec<DirEntry> = Vec::new();
    let mut i: usize = 0;
    while i < entries.len()
        invariant
            i <= entries@.len(),
            out@ == entries@.take(i as int),
        decreases entries@.len() - i,
    {
        out.push(copy_entry(&entries[i]));
        assert(out@ =~= entries@.take(i + 1));
        i += 1;
    }
    assert(entries@.take(entries@.len() as int) =~= entries@);
    out
}

proof fn lemma_matching_len(entries: Seq<DirEntry>, query: Seq<char>, k: nat)
    ensures
        matching(entries, query, k).len() <= k,
    decreases k,
{
    if k > 0 {
        lemma_matching_len(entries, query, (k - 1) as nat);
    }
}

impl OpenBrowser {
    /// A picker at a folder, given what reading the folder gave.
    pub fn at(cwd: String, listing: Result<Vec<DirEntry>, String>) -> (b: OpenBrowser)
        requires
            listing_fits(listing),
        ensures
            b@ == (BrowserView {
                cwd: cwd@,
                entries: Seq::empty(),
                view: Seq::empty(),
                selected: 0,
                error: None,
                editing_path: false,
                filter: Seq::empty(),
            }).rescanned(listing_view(listing)),
            b@.wf(),
    {
        let mut b = OpenBrowser {
            cwd,
            entries: Vec::new(),
            view: Vec::new(),
            selected: 0,
            error: None,
            editing_path: false,
            filter: String::new(),
        };
        assert(b@ =~= (BrowserView {
            cwd: cwd@,
            entries: Seq::empty(),
            view: Seq::empty(),
            selected: 0,
            error: None,
            editing_path: false,
            filter: Seq::empty(),
        }));
        b.rescan(listing);
        b
    }

    /// Rows in the list: `.` + `..` + one per visible subdirectory.
    pub fn row_count(&self) -> (n: usize)
        requires
            self@.wf(),
        ensures
            n == self.view@.len() + 2,
    {
        self.view.len() + 2
    }

    /// What stands in a row.
    pub fn row(&self, index: usize) -> (row: BrowserRow)
        ensures
            index == 0 ==> row == BrowserRow::Current,
            index == 1 ==> row == BrowserRow::Parent,
            index >= 2 ==> row == BrowserRow::Dir((index - 2) as usize),
    {
        if index == 0 {
            BrowserRow::Current
        } else if index == 1 {
            BrowserRow::Parent
        } else {
            BrowserRow::Dir(index - 2)
        }
    }

    pub fn highlighted(&self) -> (row: usize)
        ensures
            row == self@.highlighted(),
    {
        let n = self.view.len();
        if self.selected > 0 && self.selected - 1 > n {
            n + 1
        } else {
            self.selected
        }
    }

    /// What stands in the highlighted row.
    pub fn selected_row(&self) -> (row: BrowserRow)
        ensures
            self@.highlighted() == 0 ==> row == BrowserRow::Current,
            self@.highlighted() == 1 ==> row == BrowserRow::Parent,
            self@.highlighted() >= 2 ==> row == BrowserRow::Dir(
                (self@.highlighted() - 2) as usize,
            ),
    {
        self.row(self.highlighted())
    }

    /// Absolute path the highlighted row points at (`.` and `..` included;
    /// `..` of `/` resolves to `/` itself).
    pub fn selected_path(&self) -> (path: String)
        ensures
            path@ == self@.target(),
    {
        match self.selected_row() {
            BrowserRow::Current => self.cwd.clone(),
            BrowserRow::Parent => match path_parent(self.cwd.as_str()) {
                Some(p) => p,
                None => self.cwd.clone(),
            },
            BrowserRow::Dir(i) => path_join(self.cwd.as_str(), self.view[i].name.as_str()),
        }
    }

    /// Adds a char to the filter.
    pub fn push_filter_char(&mut self, c: char)
        requires
            old(self)@.wf(),
        ensures
            final(self)@ == old(self)@.with_filter(old(self)@.filter.push(c)),
            final(self)@.wf(),
    {
        self.filter.push(c);
        assert(self@ =~= (BrowserView { filter: old(self)@.filter.push(c), ..old(self)@ }));
        self.apply_filter();
    }

    /// Takes the last char off the filter.
    pub fn pop_filter_char(&mut self)
        requires
            old(self)@.wf(),
        ensures
            final(self)@ == old(self)@.with_filter(
                if old(self)@.filter.len() == 0 {
                    old(self)@.filter
                } else {
                    old(self)@.filter.drop_last()
                },
            ),
            final(self)@.wf(),
    {
        let _ = self.filter.pop();
        assert(self@ =~= (BrowserView { filter: self.filter@, ..old(self)@ }));
        self.apply_filter();
    }

    /// Drops the query and shows the full list again.
    pub fn clear_filter(&mut self)
        requires
            old(self)@.wf(),
        ensures
            final(self)@ == old(self)@.with_filter(Seq::empty()),
            final(self)@.wf(),
    {
        self.filter = String::new();
        assert(self@ =~= (BrowserView { filter: Seq::empty(), ..old(self)@ }));
        self.apply_filter();
    }

    /// Rebuilds the visible rows from the entries and the filter.
    fn apply_filter(&mut self)
        requires
            old(self)@.wf(),
        ensures
            final(self)@ == old(self)@.filtered(),
            final(self)@.wf(),
    {
        if self.filter.as_str().is_empty() {
            self.view = copy_entries(&self.entries);
            assert(self@ =~= old(self)@.filtered());
            return;
        }
        let query = lowercase(self.filter.as_str());
        let mut view: Vec<DirEntry> = Vec::new();
        let mut i: usize = 0;
        while i < self.entries.len()
            invariant
                *self == *old(self),
                i <= self.entries@.len(),
                query@ == unicode_lower(self.filter@),
                view@ == matching(self.entries@, self.filter@, i as nat),
            decreases self.entries@.len() - i,
        {
            let name = lowercase(self.entries[i].name.as_str());
            if text_contains(name.as_str(), query.as_str()) {
                view.push(copy_entry(&self.entries[i]));
            }
            i += 1;
        }
        proof {
            lemma_matching_len(self.entries@, self.filter@, self.entries@.len());
        }
        self.view = view;
        if self.view.len() > 0 {
            // The first match sits below `.` and `..`.
            self.selected = 2;
        }
        self.selected = self.highlighted();
        assert(self@ =~= old(self)@.filtered());
    }

    /// Moves the highlight, held inside the list.
    pub fn move_cursor(&mut self, delta: isize)
        requires
            old(self)@.wf(),
        ensures
            final(self)@ == old(self)@.moved(delta as int),
            final(self)@.wf(),
    {
        let last = self.view.len() + 1;
        let to: i128 = self.highlighted() as i128 + delta as i128;
        self.selected = if to < 0 {
            0
        } else if to > last as i128 {
            last
        } else {
            to as usize
        };
        assert(self@ =~= old(self)@.moved(delta as int));
    }

    /// Takes over what reading the folder gave (subdirectories only, sorted).
    /// Keeps the old listing where the folder cannot be read. Drops any active
    /// filter.
    pub fn rescan(&mut self, listing: Result<Vec<DirEntry>, String>)
        requires
            old(self)@.wf(),
            listing_fits(listing),
        ensures
            final(self)@ == old(self)@.rescanned(listing_view(listing)),
            final(self)@.wf(),
    {
        match listing {
            Ok(entries) => {
                self.entries = entries;
                self.error = None;
            },
            Err(e) => {
                self.error = Some(e);
            },
        }
        self.filter = String::new();
        self.view = copy_entries(&self.entries);
        self.selected = self.highlighted();
        assert(self@ =~= old(self)@.rescanned(listing_view(listing)));
    }

    /// Moves the browser to `dir` if reading it gave a listing. Says whether
    /// it moved; on unreadable targets the old folder stays.
    pub fn goto(&mut self, dir: String, listing: Result<Vec<DirEntry>, String>) -> (moved: bool)
        requires
            old(self)@.wf(),
            listing_fits(listing),
        ensures
            moved == (listing is Ok),
            final(self)@ == old(self)@.moved_to(dir@, listing_view(listing)),
            final(self)@.wf(),
    {
        match listing {
            Ok(entries) => {
                self.cwd = dir;
                self.view = copy_entries(&entries);
                self.entries = entries;
                self.selected = 0;
                self.error = None;
                self.filter = String::new();
                assert(self@ =~= old(self)@.moved_to(dir@, listing_view(listing)));
                true
            },
            Err(e) => {
                self.error = Some(e);
                assert(self@ =~= old(self)@.moved_to(dir@, listing_view(listing)));
                false
            },
        }
    }
}

/// The name by which entries are sorted.
pub open spec fn sort_name(e: DirEntry) -> Seq<char> {
    unicode_lower(e.name@)
}

/// The place in the first `k` of a sorted list where an entry goes: behind all
/// that do not come after it.
pub open spec fn insert_place(sorted: Seq<DirEntry>, e: DirEntry, k: nat) -> nat
    decreases k,
{
    if k == 0 || text_le(sort_name(sorted[k - 1]), sort_name(e)) {
        k
    } else {
        insert_place(sorted, e, (k - 1) as nat)
    }
}

/// The first `k` entries in the order of their lower-case names; entries whose
/// names are the same but for case stay in the order they came in.
pub open spec fn sorted_entries(entries: Seq<DirEntry>, k: nat) -> Seq<DirEntry>
    decreases k,
{
    if k == 0 {
        Seq::empty()
    } else {
        let before = sorted_entries(entries, (k - 1) as nat);
        before.insert(
            insert_place(before, entries[k - 1], before.len()) as int,
            entries[k - 1],
        )
    }
}

proof fn lemma_insert_place(sorted: Seq<DirEntry>, e: DirEntry, k: nat)
    ensures
        insert_place(sorted, e, k) <= k,
    decreases k,
{
    if k > 0 && !text_le(sort_name(sorted[k - 1]), sort_name(e)) {
        lemma_insert_place(sorted, e, (k - 1) as nat);
    }
}

/// Sorts the subdirectories of a folder by name, whatever the case.
pub fn sort_subdirs(entries: Vec<DirEntry>) -> (out: Vec<DirEntry>)
    ensures
        out@ == sorted_entries(entries@, entries@.len()),
{
    let ghost all = entries@;
    let mut out: Vec<DirEntry> = Vec::new();
    for e in it: entries
        invariant
            all == it.seq(),
            out@ == sorted_entries(all, it.index() as nat),
    {
        let name = lowercase(e.name.as_str());
        let mut k: usize = out.len();
        while k > 0 && !text_not_after(lowercase(out[k - 1].name.as_str()).as_str(), name.as_str())
            invariant
                name@ == sort_name(e),
                k <= out@.len(),
                insert_place(out@, e, out@.len()) == insert_place(out@, e, k as nat),
            decreases k,
        {
            k -= 1;
        }
        out.insert(k, e);
    }
    out
}

/// The listing comes out sorted by lower-case name, and holds every
/// subdirectory exactly as often as it was read.
pub proof fn law_listing_is_sorted(entries: Seq<DirEntry>)
    ensures
        forall|i: int, j: int|
            0 <= i <= j < entries.len() ==> text_le(
                sort_name(#[trigger] sorted_entries(entries, entries.len())[i]),
                sort_name(#[trigger] sorted_entries(entries, entries.len())[j]),
            ),
        sorted_entries(entries, entries.len()).to_multiset() == entries.to_multiset(),
{
    lemma_sorted_entries(entries, entries.len());
    assert(entries.take(entries.len() as int) =~= entries);
}

proof fn lemma_sorted_entries(entries: Seq<DirEntry>, k: nat)
    requires
        k <= entries.len(),
    ensures
        sorted_entries(entries, k).len() == k,
        forall|i: int, j: int|
            0 <= i <= j < k ==> text_le(
                sort_name(#[trigger] sorted_entries(entries, k)[i]),
                sort_name(#[trigger] sorted_entries(entries, k)[j]),
            ),
        sorted_entries(entries, k).to_multiset() == entries.take(k as int).to_multiset(),
    decreases k,
{
    broadcast use vstd::seq_lib::group_to_multiset_ensures;

    if k == 0 {
        assert(sorted_entries(entries, 0) =~= entries.take(0));
    } else {
        let before = sorted_entries(entries, (k - 1) as nat);
        let e = entries[k - 1];
        let after = sorted_entries(entries, k);
        let p = insert_place(before, e, before.len()) as int;
        lemma_sorted_entries(entries, (k - 1) as nat);
        lemma_insert_place(before, e, before.len());
        lemma_place_splits(before, e, before.len());
        assert forall|i: int, j: int| 0 <= i <= j < k implies text_le(
            sort_name(#[trigger] after[i]),
            sort_name(#[trigger] after[j]),
        ) by {
            let oi = if i < p { i } else { i - 1 };
            let oj = if j < p { j } else { j - 1 };
            if i != p && j != p {
                assert(after[i] == before[oi] && after[j] == before[oj]);
            } else if i == p && j == p {
                lemma_text_le_refl(sort_name(e));
            } else if i == p {
                assert(after[j] == before[oj]);
                assert(text_le(sort_name(e), sort_name(before[oj])));
            } else {
                assert(after[i] == before[oi]);
                assert(text_le(sort_name(before[oi]), sort_name(e)));
            }
        }
        assert(after.to_multiset() =~= before.to_multiset().insert(e)) by {
            vstd::seq_lib::to_multiset_insert(before, p, e);
        }
        assert(entries.take(k as int) =~= entries.take(k - 1).push(e));
    }
}

proof fn lemma_text_le_refl(a: Seq<char>)
    ensures
        text_le(a, a),
    decreases a.len(),
{
    if a.len() > 0 {
        lemma_text_le_refl(a.skip(1));
    }
}

proof fn lemma_place_splits(sorted: Seq<DirEntry>, e: DirEntry, k: nat)
    requires
        k <= sorted.len(),
        forall|i: int, j: int|
            0 <= i <= j < sorted.len() ==> text_le(
                sort_name(#[trigger] sorted[i]),
                sort_name(#[trigger] sorted[j]),
            ),
    ensures
        forall|i: int|
            0 <= i < insert_place(sorted, e, k) ==> text_le(
                sort_name(#[trigger] sorted[i]),
                sort_name(e),
            ),
        forall|i: int|
            insert_place(sorted, e, k) <= i < k ==> text_le(
                sort_name(e),
                sort_name(#[trigger] sorted[i]),
            ),
    decreases k,
{
    if k == 0 {
    } else if text_le(sort_name(sorted[k - 1]), sort_name(e)) {
        assert forall|i: int| 0 <= i < k implies text_le(
            sort_name(#[trigger] sorted[i]),
            sort_name(e),
        ) by {
            crate::text::lemma_text_le_transitive(
                sort_name(sorted[i]),
                sort_name(sorted[k - 1]),
                sort_name(e),
            );
        }
    } else {
        lemma_place_splits(sorted, e, (k - 1) as nat);
        crate::text::lemma_text_le_total(sort_name(sorted[k - 1]), sort_name(e));
    }
}

/// Clearing the filter shows every entry again.
pub proof fn law_clear_shows_all(b: BrowserView)
    ensures
        b.with_filter(Seq::empty()).view == b.entries,
{
}

/// The highlight points at a row of the list after every operation.
pub proof fn law_highlight_in_list(
    b: BrowserView,
    query: Seq<char>,
    delta: int,
    listing: Result<Seq<DirEntry>, Seq<char>>,
)
    ensures
        query.len() > 0 ==> b.with_filter(query).selected <= b.with_filter(query).last_row(),
        b.moved(delta).selected <= b.moved(delta).last_row(),
        b.rescanned(listing).selected <= b.rescanned(listing).last_row(),
        b.highlighted() <= b.last_row(),
{
}

} // verus!
