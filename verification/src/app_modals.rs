//! The finder, the sync modals and the form for the LLM settings.

use crate::app_model::{found_files, paths_of, settings_of, AppView, Focus, Mode};
use crate::config::{is_provider, lowercase, quote, LlmConfig, PROVIDER_LIST};
use crate::fuzzy::{is_ranking, law_ranking_is_unique, rank, strs};
use crate::jobs::Job;
use crate::llm_form::LlmForm;
use crate::model::StatusEntry;
use crate::text::trim;
use crate::tree::{clamp_to, clamped};
use vstd::prelude::*;
use vstd::string::*;

use crate::app_actions::split_upstream;
use crate::app::App;

verus! {

/// Places in a list, as numbers.
pub open spec fn places(list: Seq<usize>) -> Seq<nat> {
    list.map_values(|i: usize| i as nat)
}

/// The files that a query finds, best first.
fn find_files(query: &str, list: &Vec<StatusEntry>) -> (out: Vec<usize>)
    ensures
        places(out@) == found_files(query@, list@),
        forall|i: int| 0 <= i < out@.len() ==> (#[trigger] out@[i]) < list@.len(),
{
    let mut out: Vec<usize> = Vec::new();
    if query.unicode_len() == 0 {
        let mut i: usize = 0;
        while i < list.len()
            invariant
                i <= list@.len(),
                out@.len() == i,
                forall|k: int| 0 <= k < i ==> out@[k] == k,
            decreases list@.len() - i,
        {
            out.push(i);
            i += 1;
        }
        assert(places(out@) =~= found_files(query@, list@));
        return out;
    }
    let mut paths: Vec<&str> = Vec::new();
    let mut i: usize = 0;
    while i < list.len()
        invariant
            i <= list@.len(),
            paths@.len() == i,
            forall|k: int| 0 <= k < i ==> (#[trigger] paths@[k])@ == list@[k].path@,
        decreases list@.len() - i,
    {
        paths.push(list[i].path.as_str());
        i += 1;
    }
    assert(strs(paths@) =~= paths_of(list@));
    let ranking = rank(query, paths.as_slice());
    let ghost chosen = choose|r: Seq<(usize, u32)>|
        is_ranking(query@, paths_of(list@), list@.len(), r);
    proof {
        law_ranking_is_unique(query@, paths_of(list@), list@.len(), ranking@, chosen);
    }
    let mut k: usize = 0;
    while k < ranking.len()
        invariant
            k <= ranking@.len(),
            is_ranking(query@, paths_of(list@), list@.len(), ranking@),
            out@.len() == k,
            forall|j: int| 0 <= j < k ==> out@[j] == ranking@[j].0,
            forall|j: int| 0 <= j < k ==> (#[trigger] out@[j]) < list@.len(),
        decreases ranking@.len() - k,
    {
        assert(ranking@[k as int].0 < list@.len());
        out.push(ranking[k].0);
        k += 1;
    }
    assert(places(out@) =~= found_files(query@, list@));
    out
}

impl App {
    /// The files that the finder's query finds, best first.
    pub fn finder_matches(&self) -> (out: Vec<usize>)
        ensures
            places(out@) == self@.found(),
            forall|i: int| 0 <= i < out@.len() ==> (#[trigger] out@[i]) < self.tree.list@.len(),
    {
        find_files(self.draft.text.as_str(), &self.tree.list)
    }

    /// The place of the highlighted match.
    pub fn finder_cursor(&self) -> (at: usize)
        ensures
            at == clamped(self@.finder_selected, self@.found().len()),
    {
        let found = self.finder_matches();
        assert(places(found@).len() == found@.len());
        clamp_to(self.finder_selected, found.len())
    }

    pub(crate) fn open_finder(&mut self)
        ensures
            final(self)@ == old(self)@.finder_opened(),
    {
        proof {
            reveal(AppView::finder_opened);
        }
        self.finder_return = self.mode;
        self.finder_selected = clamp_to(self.tree.selected, self.tree.list.len());
        self.open_modal(Mode::FindFile);
    }

    pub(crate) fn finder_move(&mut self, down: bool)
        ensures
            final(self)@ == old(self)@.finder_moved(down),
    {
        proof {
            reveal(AppView::finder_moved);
        }
        let found = self.finder_matches();
        assert(places(found@).len() == found@.len());
        let n = found.len();
        let at = clamp_to(self.finder_selected, n);
        self.finder_selected = if n == 0 {
            0
        } else if down {
            if at < n - 1 {
                at + 1
            } else {
                at
            }
        } else if at == 0 {
            0
        } else {
            at - 1
        };
    }

    /// Selects the highlighted match in the tree and closes the finder.
    pub(crate) fn submit_finder(&mut self)
        ensures
            final(self)@ == old(self)@.finder_submitted(),
    {
        proof {
            reveal(AppView::finder_submitted);
        }
        let found = self.finder_matches();
        assert(places(found@).len() == found@.len());
        if found.len() == 0 {
            return;
        }
        let at = clamp_to(self.finder_selected, found.len());
        assert(places(found@)[at as int] == found@[at as int]);
        self.tree.jump(found[at]);
        self.focus = Focus::Status;
        self.finder_selected = 0;
        let back = self.finder_return;
        self.open_modal(back);
        self.maybe_load_diff();
    }

    /// Begins a pull.
    pub(crate) fn start_pull(&mut self)
        ensures
            final(self)@ == old(self)@.pulled(),
    {
        proof {
            reveal(AppView::pulled);
            reveal(AppView::submitted);
        }
        match self.queue.submit(Job::Pull) {
            Ok(()) => {
                self.syncing = Some("pulling…".to_owned());
            },
            Err(why) => {
                self.syncing = None;
                self.error = Some(why);
            },
        }
    }

    /// Begins a push, or asks for what is missing for it.
    pub(crate) fn start_push(&mut self)
        ensures
            final(self)@ == old(self)@.pushed(),
    {
        proof {
            reveal(AppView::pushed);
            reveal(AppView::submitted);
        }
        let branch = match &self.status {
            Some(st) => st.branch.clone(),
            None => {
                self.fail("still loading — try again in a moment");
                return;
            },
        };
        let (no_remotes, remote) = match &self.sync {
            Some(sync) => (
                sync.remotes.len() == 0,
                match &sync.upstream {
                    Some(upstream) => Some(split_upstream(upstream.as_str()).0),
                    None => None,
                },
            ),
            None => {
                self.submit(Job::LoadSync);
                self.fail("loading remotes — press P again in a moment");
                return;
            },
        };
        self.sync_return = self.mode;
        if no_remotes {
            self.mode = Mode::SetRemote;
            self.draft.clear();
            return;
        }
        match remote {
            Some(remote) => match self.queue.submit(
                Job::Push { remote, branch, set_upstream: false },
            ) {
                Ok(()) => {
                    self.syncing = Some("pushing…".to_owned());
                },
                Err(why) => {
                    self.syncing = None;
                    self.error = Some(why);
                },
            },
            None => {
                self.mode = Mode::SetUpstream;
                self.draft.hold("origin".to_owned());
                self.draft.move_end();
            },
        }
    }

    pub(crate) fn submit_sync(&mut self, job: Job, label: &str)
        ensures
            final(self)@ == old(self)@.sync_submitted(job@, label@),
    {
        proof {
            reveal(AppView::sync_submitted);
            reveal(AppView::submitted);
        }
        match self.queue.submit(job) {
            Ok(()) => {
                self.mode = self.sync_return;
                self.draft.clear();
                self.syncing = Some(label.to_owned());
            },
            Err(why) => {
                self.error = Some(why);
            },
        }
    }

    pub(crate) fn submit_push_upstream(&mut self)
        ensures
            final(self)@ == old(self)@.upstream_submitted(),
    {
        proof {
            reveal(AppView::upstream_submitted);
        }
        let remote = trim(self.draft.text.as_str());
        if remote.as_str().unicode_len() == 0 {
            return;
        }
        let branch = match &self.status {
            Some(st) => st.branch.clone(),
            None => {
                self.fail("still loading — try again in a moment");
                return;
            },
        };
        self.submit_sync(Job::Push { remote, branch, set_upstream: true }, "pushing…");
    }

    pub(crate) fn submit_publish(&mut self)
        ensures
            final(self)@ == old(self)@.publish_submitted(),
    {
        proof {
            reveal(AppView::publish_submitted);
        }
        let url = trim(self.draft.text.as_str());
        if url.as_str().unicode_len() == 0 {
            return;
        }
        let branch = match &self.status {
            Some(st) => st.branch.clone(),
            None => {
                self.fail("still loading — try again in a moment");
                return;
            },
        };
        self.submit_sync(
            Job::Publish { remote: "origin".to_owned(), url, branch },
            "publishing…",
        );
    }

    /// Asks for a commit message, unless one is on its way.
    pub fn begin_generate_commit_message(&mut self)
        ensures
            final(self)@ == old(self)@.generation_begun(),
    {
        proof {
            reveal(AppView::generation_begun);
            reveal(AppView::submitted);
        }
        if self.mode != Mode::Committing || self.generating {
            return;
        }
        let llm = self.llm.copy();
        match self.queue.submit(Job::GenerateCommitMessage { llm }) {
            Ok(()) => {
                self.generating = true;
                self.error = None;
            },
            Err(why) => {
                self.error = Some(why);
            },
        }
    }

    /// Opens the form for the LLM settings.
    pub fn begin_llm_settings(&mut self)
        ensures
            final(self)@ == old(self)@.form_opened(),
    {
        proof {
            reveal(AppView::form_opened);
        }
        self.mode = Mode::LlmSettings;
        self.error = None;
        self.notice = None;
        self.form = LlmForm::filled(&self.llm);
        self.draft.hold(self.llm.provider.clone());
        self.draft.move_end();
    }

    /// Closes the form without saving.
    pub fn cancel_llm_settings(&mut self)
        ensures
            final(self)@ == old(self)@.form_cancelled(),
    {
        proof {
            reveal(AppView::form_cancelled);
        }
        self.mode = Mode::Normal;
        self.draft.clear();
    }

    pub(crate) fn move_llm_selection(&mut self, down: bool)
        ensures
            final(self)@ == old(self)@.form_moved(down),
    {
        proof {
            reveal(AppView::form_moved);
        }
        self.form.move_selection(&mut self.draft, down);
    }

    pub(crate) fn finish_form(&mut self, notice: String)
        ensures
            final(self)@ == old(self)@.form_done(notice@),
    {
        proof {
            reveal(AppView::form_done);
        }
        self.cancel_llm_settings();
        self.notice = Some(notice);
        self.error = None;
    }

    /// Checks the form and takes its settings.
    pub fn save_llm_settings(&mut self)
        ensures
            final(self)@ == old(self)@.form_saved(),
    {
        proof {
            reveal(AppView::form_saved);
        }
        self.form.keep(&self.draft);
        let llm = form_settings(&self.form);
        if !is_provider(llm.provider.as_str()) {
            let message = "unknown provider ".to_owned().concat(
                quote(llm.provider.as_str()).as_str(),
            ).concat(" (expected one of: ").concat(PROVIDER_LIST).concat(")");
            self.error = Some(message);
            return;
        }
        self.llm = llm;
        if self.config_path.is_some() {
            self.saving = true;
        } else {
            self.finish_form("LLM settings updated for this session".to_owned());
        }
    }

    /// The settings were written to the configuration file, or not.
    pub fn finish_llm_save(&mut self, done: Result<(), String>)
        ensures
            final(self)@ == old(self)@.save_finished(
                match done {
                    Ok(()) => Ok(()),
                    Err(e) => Err(e@),
                },
            ),
    {
        proof {
            reveal(AppView::save_finished);
        }
        self.saving = false;
        match done {
            Err(e) => {
                self.error = Some(e);
            },
            Ok(()) => {
                let notice = match &self.config_path {
                    Some(path) => "LLM settings saved to ".to_owned().concat(path.as_str()),
                    None => "LLM settings updated for this session".to_owned(),
                };
                self.finish_form(notice);
            },
        }
    }
}

/// The settings that a form stands for.
fn form_settings(form: &LlmForm) -> (llm: LlmConfig)
    ensures
        llm@ == settings_of(form@),
{
    let model = trim(form.model.0.as_str());
    let url = trim(form.base_url.0.as_str());
    LlmConfig {
        provider: lowercase(trim(form.provider.0.as_str()).as_str()),
        model: if model.as_str().unicode_len() == 0 {
            "gpt-4o-mini".to_owned()
        } else {
            model
        },
        api_key: trim(form.api_key.0.as_str()),
        base_url: if url.as_str().unicode_len() == 0 {
            None
        } else {
            Some(url)
        },
    }
}

} // verus!
