//! Session persistence: which projects were open.
//!
//! When the app starts with no explicit paths, these projects are re-opened;
//! explicit paths override the session and replace it.

use crate::config_text::{take_texts, texts_in};
use crate::paths::{joined_path, path_join};
use crate::text::{all_white, chars_of, is_blank, opt_text, texts};
use crate::toml_doc::{
    all_texts, can_write, entries_view, find_entry, found, holds_pair, lemma_seen_found,
    marks_fit, read_toml, text_item, toml_document, toml_list_and_number, toml_tree,
    write_list_and_number, TomlTree, TomlValue, ValueView,
};
use vstd::prelude::*;
use vstd::string::*;

verus! {

/// Open projects to restore on next launch, plus which tab was selected.
#[derive(Debug)]
pub struct Session {
    pub projects: Vec<String>,
    pub current: usize,
}

/// What a [`Session`] holds.
#[verifier::ext_equal]
pub struct SessionView {
    pub projects: Seq<Seq<char>>,
    pub current: nat,
}

impl View for Session {
    type V = SessionView;

    open spec fn view(&self) -> SessionView {
        SessionView { projects: texts(self.projects@), current: self.current as nat }
    }
}

/// What is wrong with a session file.
#[derive(Debug)]
pub enum SessionError {
    /// The text is no TOML.
    BadToml(String),
    /// The projects are no list of texts.
    BadProjects,
    /// The selection is no place in a list.
    BadCurrent,
}

/// What a [`SessionError`] holds.
#[verifier::ext_equal]
pub enum SessionErrorView {
    BadToml(Seq<char>),
    BadProjects,
    BadCurrent,
}

impl View for SessionError {
    type V = SessionErrorView;

    open spec fn view(&self) -> SessionErrorView {
        match *self {
            SessionError::BadToml(why) => SessionErrorView::BadToml(why@),
            SessionError::BadProjects => SessionErrorView::BadProjects,
            SessionError::BadCurrent => SessionErrorView::BadCurrent,
        }
    }
}

impl SessionErrorView {
    /// What the user reads of an error.
    pub open spec fn message(self) -> Seq<char> {
        match self {
            SessionErrorView::BadToml(why) => why,
            SessionErrorView::BadProjects => "invalid type for `projects`"@,
            SessionErrorView::BadCurrent => "invalid value for `current`"@,
        }
    }
}

impl SessionError {
    /// What the user reads of the error.
    pub fn message(&self) -> (out: String)
        ensures
            out@ == self@.message(),
    {
        match self {
            SessionError::BadToml(why) => why.clone(),
            SessionError::BadProjects => "invalid type for `projects`".to_owned(),
            SessionError::BadCurrent => "invalid value for `current`".to_owned(),
        }
    }
}

impl SessionView {
    /// No project.
    pub open spec fn empty() -> SessionView {
        SessionView { projects: Seq::empty(), current: 0 }
    }

    /// The session that a document holds: no projects and the first place where
    /// it says nothing of them.
    pub open spec fn of_document(doc: Seq<(Seq<char>, ValueView)>) -> Result<
        SessionView,
        SessionErrorView,
    > {
        match (found(doc, "projects"@), found(doc, "current"@)) {
            (Some(ValueView::List(items)), current) => if all_texts(items) {
                SessionView::with_current(texts_in(items), current)
            } else {
                Err(SessionErrorView::BadProjects)
            },
            (None, current) => SessionView::with_current(Seq::empty(), current),
            (Some(_), _) => Err(SessionErrorView::BadProjects),
        }
    }

    /// A session with the selection that a document holds.
    pub open spec fn with_current(
        projects: Seq<Seq<char>>,
        current: Option<ValueView>,
    ) -> Result<SessionView, SessionErrorView> {
        match current {
            None => Ok(SessionView { projects, current: 0 }),
            Some(ValueView::Number(n)) => if 0 <= n <= usize::MAX {
                Ok(SessionView { projects, current: n as nat })
            } else {
                Err(SessionErrorView::BadCurrent)
            },
            Some(_) => Err(SessionErrorView::BadCurrent),
        }
    }

    /// The session that the text of a file holds. A missing or blank file means
    /// an empty session.
    pub open spec fn of_text(text: Option<Seq<char>>) -> Result<SessionView, SessionErrorView> {
        match text {
            None => Ok(SessionView::empty()),
            Some(t) => if is_blank(t) {
                Ok(SessionView::empty())
            } else {
                match toml_document(t) {
                    Err(why) => Err(SessionErrorView::BadToml(why)),
                    Ok(doc) => SessionView::of_document(doc),
                }
            },
        }
    }

    /// The session as it is saved: the selection is one of the projects.
    pub open spec fn saved(self) -> SessionView {
        SessionView { current: clamped_to(self.current, self.projects.len()), ..self }
    }
}

/// What a session that may be wrong holds.
pub open spec fn session_view(s: Result<Session, SessionError>) -> Result<
    SessionView,
    SessionErrorView,
> {
    match s {
        Ok(found) => Ok(found@),
        Err(e) => Err(e@),
    }
}

/// `current`, but no more than the last of `n` places; 0 where there is none.
pub open spec fn clamped_to(current: nat, n: nat) -> nat {
    if n == 0 {
        0
    } else if current > n - 1 {
        (n - 1) as nat
    } else {
        current
    }
}

/// Those of the first `k` projects whose flag is set.
pub open spec fn kept(projects: Seq<String>, flags: Seq<bool>, k: nat) -> Seq<String>
    decreases k,
{
    if k == 0 {
        Seq::empty()
    } else if flags[k - 1] {
        kept(projects, flags, (k - 1) as nat).push(projects[k - 1])
    } else {
        kept(projects, flags, (k - 1) as nat)
    }
}

fn copy_texts(list: &Vec<String>) -> (out: Vec<String>)
    ensures
        out@ == list@,
{
    let mut out: Vec<String> = Vec::new();
    let mut i: usize = 0;
    while i < list.len()
        invariant
            i <= list@.len(),
            out@ == list@.take(i as int),
        decreases list@.len() - i,
    {
        out.push(list[i].clone());
        assert(out@ =~= list@.take(i + 1));
        i += 1;
    }
    assert(list@.take(list@.len() as int) =~= list@);
    out
}

impl Session {
    /// No project.
    pub fn empty() -> (s: Session)
        ensures
            s.projects@.len() == 0,
            s.current == 0,
    {
        Session { projects: Vec::new(), current: 0 }
    }

    pub fn new(projects: Vec<String>, current: usize) -> (s: Session)
        ensures
            s.projects == projects,
            s.current == current,
    {
        Session { projects, current }
    }

    /// Where the session file lives. `None` when no configuration directory is
    /// known (then persistence is disabled).
    pub fn default_path(config_dir: &Option<String>) -> (path: Option<String>)
        ensures
            opt_text(path) == (match *config_dir {
                Some(d) => Some(joined_path(d@, "session.toml"@)),
                None => None,
            }),
    {
        match config_dir {
            Some(d) => Some(path_join(d.as_str(), "session.toml")),
            None => None,
        }
    }

    /// Whether a session file holds anything to read: a missing or blank file
    /// means an empty session.
    pub fn has_content(text: &Option<String>) -> (yes: bool)
        ensures
            yes == (match *text {
                Some(t) => !is_blank(t@),
                None => false,
            }),
    {
        match text {
            Some(t) => {
                let cs = chars_of(t.as_str());
                !all_white(&cs)
            },
            None => false,
        }
    }

    /// The session that the text of a file holds, if there is one. The whole
    /// document is read, so entries that are no part of a session must be sound
    /// too.
    pub fn of_text(text: &Option<String>) -> (s: Result<Session, SessionError>)
        ensures
            session_view(s) == SessionView::of_text(opt_text(*text)),
    {
        if !Session::has_content(text) {
            let s = Session::empty();
            assert(s@ =~= SessionView::empty());
            return Ok(s);
        }
        match text {
            Some(t) => match read_toml(t.as_str()) {
                Ok(doc) => Session::of_document(&doc),
                Err(why) => Err(SessionError::BadToml(why)),
            },
            None => Ok(Session::empty()),
        }
    }

    /// The session that a document holds.
    pub fn of_document(doc: &Vec<(String, TomlValue)>) -> (s: Result<Session, SessionError>)
        ensures
            session_view(s) == SessionView::of_document(entries_view(doc@)),
    {
        let projects = match find_entry(doc, "projects") {
            None => {
                let none: Vec<String> = Vec::new();
                assert(texts(none@) =~= Seq::empty());
                none
            },
            Some(i) => match &doc[i].1 {
                TomlValue::List(items) => match take_texts(items) {
                    Some(list) => list,
                    None => return Err(SessionError::BadProjects),
                },
                _ => return Err(SessionError::BadProjects),
            },
        };
        match find_entry(doc, "current") {
            None => Ok(Session { projects, current: 0 }),
            Some(i) => match &doc[i].1 {
                TomlValue::Number(n) => {
                    if 0 <= *n && *n as u64 <= usize::MAX as u64 {
                        Ok(Session { projects, current: *n as usize })
                    } else {
                        Err(SessionError::BadCurrent)
                    }
                },
                _ => Err(SessionError::BadCurrent),
            },
        }
    }

    /// The session to start with: what was read, but empty where no path is
    /// known or reading failed, so a bad write never bricks startup.
    pub fn load(read: Option<Result<Session, String>>) -> (s: Session)
        ensures
            (match read {
                Some(Ok(found)) => s == found,
                _ => s.projects@.len() == 0 && s.current == 0,
            }),
    {
        match read {
            Some(Ok(found)) => found,
            _ => Session::empty(),
        }
    }

    /// Index clamped to the project list (0 when empty).
    pub fn current_clamped(&self) -> (i: usize)
        ensures
            i == clamped_to(self.current as nat, self.projects@.len()),
    {
        let n = self.projects.len();
        if n == 0 {
            0
        } else if self.current > n - 1 {
            n - 1
        } else {
            self.current
        }
    }

    /// Only entries that still exist on disk (dead checkouts are dropped),
    /// given for each whether it does.
    pub fn existing_projects(&self, exists_on_disk: &Vec<bool>) -> (out: Vec<String>)
        requires
            exists_on_disk@.len() == self.projects@.len(),
        ensures
            out@ == kept(self.projects@, exists_on_disk@, self.projects@.len()),
    {
        let mut out: Vec<String> = Vec::new();
        let mut i: usize = 0;
        while i < self.projects.len()
            invariant
                i <= self.projects@.len() == exists_on_disk@.len(),
                out@ == kept(self.projects@, exists_on_disk@, i as nat),
            decreases self.projects@.len() - i,
        {
            if exists_on_disk[i] {
                out.push(self.projects[i].clone());
            }
            i += 1;
        }
        out
    }

    /// The text of the session file: the projects and the clamped selection. It
    /// reads back as the session. A selection that TOML has no number for cannot
    /// be written.
    pub fn save(&self) -> (text: Result<String, String>)
        requires
            self.is_savable(),
        ensures
            text is Ok <==> self@.saved().current <= i64::MAX,
            text matches Ok(t) ==> t@ == toml_list_and_number(
                "projects"@,
                self@.projects,
                "current"@,
                self@.saved().current as i64,
            ),
            text matches Ok(t) ==> SessionView::of_text(Some(t@)) == Ok::<
                SessionView,
                SessionErrorView,
            >(self@.saved()),
            self@.current < self@.projects.len() ==> self@.saved() == self@,
    {
        let current = self.current_clamped();
        if current as u64 > i64::MAX as u64 {
            return Err("cannot serialize session: selection out of range".to_owned());
        }
        proof {
            reveal_strlit("projects");
            reveal_strlit("current");
            assert("projects"@[0] == 'p' && "current"@[0] == 'c');
        }
        let text = write_list_and_number("projects", &self.projects, "current", current as i64);
        proof {
            lemma_reads_back(self@, text->Ok_0@);
        }
        text
    }

    /// Whether the session can be written: no path holds too many quotation
    /// marks in a row.
    pub open spec fn is_savable(&self) -> bool {
        forall|i: int|
            0 <= i < self.projects@.len() ==> marks_fit((#[trigger] self.projects@[i])@)
    }

    /// Whether the session can be written.
    pub fn can_save(&self) -> (yes: bool)
        ensures
            yes == self.is_savable(),
    {
        let mut i: usize = 0;
        while i < self.projects.len()
            invariant
                i <= self.projects@.len(),
                forall|k: int| 0 <= k < i ==> marks_fit((#[trigger] self.projects@[k])@),
            decreases self.projects@.len() - i,
        {
            if !can_write(self.projects[i].as_str()) {
                return false;
            }
            i += 1;
        }
        true
    }
}

proof fn lemma_reads_back(s: SessionView, text: Seq<char>)
    requires
        s.saved().current <= i64::MAX,
        s.saved().current <= usize::MAX,
        holds_pair(
            toml_tree(text),
            "projects"@,
            s.projects,
            "current"@,
            s.saved().current as i64,
        ),
        !is_blank(text),
    ensures
        SessionView::of_text(Some(text)) == Ok::<SessionView, SessionErrorView>(s.saved()),
{
    let doc = toml_tree(text)->Ok_0;
    lemma_seen_found(doc, "projects"@, doc.len());
    lemma_seen_found(doc, "current"@, doc.len());
    let items = s.projects.map_values(|t: Seq<char>| TomlTree::Text(t)).map_values(
        |t: TomlTree| text_item(t),
    );
    assert(all_texts(items));
    assert(texts_in(items) =~= s.projects);
}

/// A saved selection points at a project, and saving what was read back
/// changes nothing.
pub proof fn law_saved_selection_is_stable(current: nat, n: nat)
    ensures
        n > 0 ==> clamped_to(current, n) < n,
        clamped_to(clamped_to(current, n), n) == clamped_to(current, n),
        current < n ==> clamped_to(current, n) == current,
{
}

/// The projects to open: those that were given, else those of the session, else
/// the current directory.
pub fn launch_paths(given: &Vec<String>, restored: &Vec<String>, cwd: String) -> (paths: Vec<String>)
    ensures
        paths@ == (if given@.len() > 0 {
            given@
        } else if restored@.len() > 0 {
            restored@
        } else {
            seq![cwd]
        }),
{
    if given.len() > 0 {
        return copy_texts(given);
    }
    if restored.len() > 0 {
        return copy_texts(restored);
    }
    let mut paths: Vec<String> = Vec::new();
    paths.push(cwd);
    assert(paths@ =~= seq![cwd]);
    paths
}

/// A session is read as it was written: the projects in their order and the one
/// that was current.
pub proof fn law_session_is_read(
    doc: Seq<(Seq<char>, ValueView)>,
    items: Seq<Option<Seq<char>>>,
    n: i64,
)
    requires
        found(doc, "projects"@) == Some(ValueView::List(items)),
        all_texts(items),
        found(doc, "current"@) == Some(ValueView::Number(n)),
        0 <= n <= u32::MAX,
    ensures
        ({
            let read = SessionView::of_document(doc);
            &&& read is Ok
            &&& read->Ok_0.current == n
            &&& read->Ok_0.projects.len() == items.len()
            &&& forall|i: int|
                0 <= i < items.len() ==> items[i] == Some(#[trigger] read->Ok_0.projects[i])
        }),
{
}

/// A document that says nothing of projects has none; one that says something
/// else of them, or names a place before the first, is refused.
pub proof fn law_broken_sessions_are_refused(doc: Seq<(Seq<char>, ValueView)>)
    ensures
        ({
            let read = SessionView::of_document(doc);
            let projects = found(doc, "projects"@);
            let current = found(doc, "current"@);
            &&& projects is None && current is None ==> read is Ok && read->Ok_0.projects.len() == 0
                && read->Ok_0.current == 0
            &&& projects is Some && !(projects->0 is List) ==> read is Err
            &&& current is Some && !(current->0 is Number) ==> read is Err
            &&& current is Some && current->0 is Number && current->0->Number_0 < 0 ==> read is Err
        }),
{
}

} // verus!
