//! What is done with files, hunks, branches and stash entries.

use crate::app_model::{
    any_change, branch_of, conflict_under, entry_of, is_change, is_picked, picked, remote_of,
    AppView, Mode, Pick,
};
use crate::jobs::{jobs_view, Job, JobView};
use crate::model::{BranchInfo, DiffLine, FileState, LineKind, StashEntry, StatusEntry};
use crate::text::{chars_of, find_char, lemma_index_of_char, opt_text, same_text, text_of};
use crate::tree::{clamp_to, path_lies_under};
use vstd::prelude::*;
use vstd::string::*;

use crate::app::{is_blank_text, App};

verus! {

/// What is done with the files of a directory.
#[derive(Clone, Copy, Debug, PartialEq, Eq, Structural)]
enum FileJob {
    Stage,
    Unstage,
    Discard,
}

/// The job for a file.
spec fn file_job(what: FileJob, path: Seq<char>) -> JobView {
    match what {
        FileJob::Stage => JobView::StageFile { path },
        FileJob::Unstage => JobView::UnstageFile { path },
        FileJob::Discard => JobView::DiscardFile { path },
    }
}

/// The files that a job is for.
spec fn job_pick(what: FileJob) -> Pick {
    match what {
        FileJob::Stage => Pick::Stageable,
        FileJob::Unstage => Pick::Staged,
        FileJob::Discard => Pick::Changed,
    }
}

fn state_picked(state: FileState, what: FileJob) -> (yes: bool)
    ensures
        yes == is_picked(state, job_pick(what)),
{
    match what {
        FileJob::Stage => state != FileState::Clean && state != FileState::Staged,
        FileJob::Unstage => state == FileState::Staged,
        FileJob::Discard => state != FileState::Clean,
    }
}

/// The jobs for the files under a directory that are meant.
fn jobs_under(list: &Vec<StatusEntry>, dir: &str, what: FileJob) -> (jobs: Vec<Job>)
    ensures
        jobs_view(jobs@) == picked(list@, dir@, job_pick(what), list@.len()).map_values(
            |path: Seq<char>| file_job(what, path),
        ),
{
    let mut jobs: Vec<Job> = Vec::new();
    let mut k: usize = 0;
    assert(jobs_view(jobs@) =~= picked(list@, dir@, job_pick(what), 0).map_values(
        |path: Seq<char>| file_job(what, path),
    ));
    while k < list.len()
        invariant
            k <= list@.len(),
            jobs_view(jobs@) == picked(list@, dir@, job_pick(what), k as nat).map_values(
                |path: Seq<char>| file_job(what, path),
            ),
        decreases list@.len() - k,
    {
        let ghost before = jobs@;
        let ghost paths = picked(list@, dir@, job_pick(what), k as nat);
        if path_lies_under(list[k].path.as_str(), dir) && state_picked(list[k].state, what) {
            let path = list[k].path.clone();
            let job = match what {
                FileJob::Stage => Job::StageFile { path },
                FileJob::Unstage => Job::UnstageFile { path },
                FileJob::Discard => Job::DiscardFile { path },
            };
            jobs.push(job);
            assert(jobs_view(jobs@) =~= jobs_view(before).push(job@));
            assert(paths.push(path@).map_values(|path: Seq<char>| file_job(what, path)) =~=
                paths.map_values(|path: Seq<char>| file_job(what, path)).push(
                file_job(what, path@),
            ));
        }
        k += 1;
    }
    jobs
}

fn find_conflict(list: &Vec<StatusEntry>, dir: &str) -> (path: Option<String>)
    ensures
        opt_text(path) == conflict_under(list@, dir@, 0),
{
    let mut i: usize = 0;
    while i < list.len()
        invariant
            conflict_under(list@, dir@, 0) == conflict_under(list@, dir@, i as int),
        decreases list@.len() - i,
    {
        if path_lies_under(list[i].path.as_str(), dir) && list[i].state == FileState::Conflicted {
            return Some(list[i].path.clone());
        }
        i += 1;
    }
    None
}

fn find_entry(list: &Vec<StatusEntry>, path: &str) -> (entry: Option<StatusEntry>)
    ensures
        entry == entry_of(list@, path@, 0),
{
    let mut i: usize = 0;
    while i < list.len()
        invariant
            entry_of(list@, path@, 0) == entry_of(list@, path@, i as int),
        decreases list@.len() - i,
    {
        if same_text(list[i].path.as_str(), path) {
            return Some(list[i].copy());
        }
        i += 1;
    }
    None
}

fn has_change(lines: &Vec<DiffLine>) -> (yes: bool)
    ensures
        yes == any_change(lines@),
{
    let mut i: usize = 0;
    while i < lines.len()
        invariant
            i <= lines@.len(),
            forall|k: int| 0 <= k < i ==> !is_change((#[trigger] lines@[k]).kind),
        decreases lines@.len() - i,
    {
        if lines[i].kind == LineKind::Add || lines[i].kind == LineKind::Del {
            assert(is_change(lines@[i as int].kind));
            return true;
        }
        i += 1;
    }
    false
}

/// The remote and the branch of an upstream.
pub fn split_upstream(upstream: &str) -> (out: (String, String))
    ensures
        out.0@ == remote_of(upstream@),
        out.1@ == branch_of(upstream@),
{
    let cs = chars_of(upstream);
    proof {
        lemma_index_of_char(upstream@, 0, '/');
    }
    let at = find_char(&cs, 0, '/');
    if at < cs.len() {
        let remote = text_of(&cs, 0, at);
        let branch = text_of(&cs, at + 1, cs.len());
        assert(remote@ =~= upstream@.take(at as int));
        assert(branch@ =~= upstream@.skip(at as int + 1));
        (remote, branch)
    } else {
        ("origin".to_owned(), upstream.to_owned())
    }
}

impl App {
    pub(crate) fn refuse_conflict(&mut self, path: &str)
        ensures
            final(self)@ == old(self)@.conflicted(path@),
    {
        proof {
            reveal(AppView::conflicted);
        }
        let message = "conflicted: resolve markers in ".to_owned().concat(path).concat(" first");
        self.error = Some(message);
    }

    pub(crate) fn toggle_stage_file(&mut self, file: &StatusEntry)
        ensures
            final(self)@ == old(self)@.file_staged(*file),
    {
        proof {
            reveal(AppView::file_staged);
        }
        if file.state == FileState::Conflicted {
            self.refuse_conflict(file.path.as_str());
        } else if file.state == FileState::Clean {
            let message = file.path.clone().concat(" is unchanged — nothing to stage");
            self.error = Some(message);
        } else if file.state == FileState::Staged {
            self.submit(Job::UnstageFile { path: file.path.clone() });
        } else {
            self.submit(Job::StageFile { path: file.path.clone() });
        }
    }

    pub(crate) fn toggle_stage_dir(&mut self, dir: &str)
        ensures
            final(self)@ == old(self)@.dir_staged(dir@),
    {
        proof {
            reveal(AppView::dir_staged);
        }
        if let Some(path) = find_conflict(&self.tree.list, dir) {
            self.refuse_conflict(path.as_str());
            return;
        }
        let to_stage = jobs_under(&self.tree.list, dir, FileJob::Stage);
        let staged = jobs_under(&self.tree.list, dir, FileJob::Unstage);
        assert(jobs_view(to_stage@) =~= self@.under(dir@, Pick::Stageable).map_values(
            |path: Seq<char>| JobView::StageFile { path },
        ));
        assert(jobs_view(staged@) =~= self@.under(dir@, Pick::Staged).map_values(
            |path: Seq<char>| JobView::UnstageFile { path },
        ));
        assert(jobs_view(to_stage@).len() == to_stage@.len());
        assert(jobs_view(staged@).len() == staged@.len());
        if to_stage.len() > 0 {
            self.submit_all(to_stage);
        } else if staged.len() > 0 {
            self.submit_all(staged);
        } else {
            let message = "nothing to stage under ".to_owned().concat(dir).concat("/");
            self.error = Some(message);
        }
    }

    /// Stages or unstages what is at the files cursor: a file, or all that
    /// lies under a folder header.
    pub(crate) fn toggle_stage(&mut self)
        ensures
            final(self)@ == old(self)@.stage_toggled(),
    {
        proof {
            reveal(AppView::stage_toggled);
        }
        if let Some(dir) = self.tree.header() {
            self.toggle_stage_dir(dir.as_str());
            return;
        }
        let file = match self.tree.file() {
            Some(file) => file.copy(),
            None => {
                return;
            },
        };
        self.toggle_stage_file(&file);
    }

    pub(crate) fn discard_file_entry(&mut self, file: &StatusEntry)
        ensures
            final(self)@ == old(self)@.file_discarded(*file),
    {
        proof {
            reveal(AppView::file_discarded);
        }
        if file.state == FileState::Conflicted {
            self.refuse_conflict(file.path.as_str());
        } else if file.state == FileState::Clean {
            let message = file.path.clone().concat(" is unchanged — nothing to discard");
            self.error = Some(message);
        } else {
            self.submit(Job::DiscardFile { path: file.path.clone() });
        }
    }

    pub(crate) fn discard_dir(&mut self, dir: &str)
        ensures
            final(self)@ == old(self)@.dir_discarded(dir@),
    {
        proof {
            reveal(AppView::dir_discarded);
        }
        if let Some(path) = find_conflict(&self.tree.list, dir) {
            self.refuse_conflict(path.as_str());
            return;
        }
        let dirty = jobs_under(&self.tree.list, dir, FileJob::Discard);
        assert(jobs_view(dirty@) =~= self@.under(dir@, Pick::Changed).map_values(
            |path: Seq<char>| JobView::DiscardFile { path },
        ));
        assert(jobs_view(dirty@).len() == dirty@.len());
        if dirty.len() == 0 {
            let message = "nothing to discard under ".to_owned().concat(dir).concat("/");
            self.error = Some(message);
        } else {
            self.submit_all(dirty);
        }
    }

    /// Throws away the changes of what is at the files cursor.
    pub(crate) fn discard_selected(&mut self)
        ensures
            final(self)@ == old(self)@.discarded(),
    {
        proof {
            reveal(AppView::discarded);
        }
        if let Some(dir) = self.tree.header() {
            self.discard_dir(dir.as_str());
            return;
        }
        let file = match self.tree.file() {
            Some(file) => file.copy(),
            None => {
                return;
            },
        };
        self.discard_file_entry(&file);
    }

    /// Throws away the changes of the file over the whole screen.
    pub(crate) fn discard_loaded_file(&mut self)
        ensures
            final(self)@ == old(self)@.loaded_discarded(),
    {
        proof {
            reveal(AppView::loaded_discarded);
        }
        let path = match &self.diff_for {
            Some((path, _)) => path.clone(),
            None => {
                self.fail("no diff loaded");
                return;
            },
        };
        match find_entry(&self.tree.list, path.as_str()) {
            Some(file) => self.discard_file_entry(&file),
            None => self.submit(Job::DiscardFile { path }),
        }
    }

    pub(crate) fn hunk_has_changes(&self) -> (yes: bool)
        ensures
            yes == self@.hunk_has_changes(),
    {
        let hunk = self.viewer.hunk();
        match self.viewer.diff() {
            Some(d) => {
                if hunk >= d.hunks.len() {
                    return false;
                }
                has_change(&d.hunks[hunk].lines)
            },
            None => false,
        }
    }

    /// Stages the selected hunk of the diff.
    pub(crate) fn stage_selected_hunk(&mut self)
        ensures
            final(self)@ == old(self)@.hunk_staged(),
    {
        proof {
            reveal(AppView::hunk_staged);
        }
        let (path, staged) = match &self.diff_for {
            Some((path, staged)) => (path.clone(), *staged),
            None => {
                self.fail("no diff loaded");
                return;
            },
        };
        if staged {
            self.fail(
                "hunk is already staged — switch to status (1) and space toggles the file",
            );
            return;
        }
        if self.viewer.diff().is_none() {
            self.fail("no diff loaded");
            return;
        }
        if !self.hunk_has_changes() {
            self.fail("nothing to stage in this hunk");
            return;
        }
        let hunk_index = self.viewer.hunk();
        self.submit(Job::StageHunk { path, hunk_index });
    }

    pub(crate) fn open_modal(&mut self, mode: Mode)
        ensures
            final(self)@ == old(self)@.in_modal(mode),
    {
        self.mode = mode;
        self.draft.erase();
    }

    pub(crate) fn submit_from_modal(&mut self, job: Job)
        ensures
            final(self)@ == old(self)@.modal_submitted(job@),
    {
        proof {
            reveal(AppView::modal_submitted);
            reveal(AppView::submitted);
        }
        match self.queue.submit(job) {
            Ok(()) => self.open_modal(Mode::Normal),
            Err(why) => {
                self.error = Some(why);
            },
        }
    }

    pub(crate) fn submit_commit(&mut self)
        ensures
            final(self)@ == old(self)@.commit_submitted(),
    {
        proof {
            reveal(AppView::commit_submitted);
        }
        if self.generating {
            self.note("still generating a message…");
        } else if is_blank_text(self.draft.text.as_str()) {
            self.note("type a commit message first");
        } else {
            let message = self.draft.text.clone();
            self.submit_from_modal(Job::Commit { message });
        }
    }

    pub(crate) fn submit_new_branch(&mut self)
        ensures
            final(self)@ == old(self)@.branch_submitted(),
    {
        proof {
            reveal(AppView::branch_submitted);
        }
        if !is_blank_text(self.draft.text.as_str()) {
            let name = self.draft.text.clone();
            self.submit_from_modal(Job::CreateBranch { name });
        }
    }

    pub(crate) fn submit_stash_push(&mut self)
        ensures
            final(self)@ == old(self)@.stash_submitted(),
    {
        proof {
            reveal(AppView::stash_submitted);
        }
        if !is_blank_text(self.draft.text.as_str()) {
            let message = self.draft.text.clone();
            self.submit_from_modal(Job::StashPush { message });
        }
    }

    pub(crate) fn selected_branch(&self) -> (branch: Option<&BranchInfo>)
        ensures
            branch is Some <==> self@.branch() is Some,
            branch matches Some(b) ==> self@.branch() == Some(*b),
    {
        match &self.branches {
            Some(list) => if list.len() == 0 {
                None
            } else {
                Some(&list[clamp_to(self.branch_selected, list.len())])
            },
            None => None,
        }
    }

    pub(crate) fn selected_stash(&self) -> (entry: Option<&StashEntry>)
        ensures
            entry is Some <==> self@.stash_entry() is Some,
            entry matches Some(e) ==> self@.stash_entry() == Some(*e),
    {
        match &self.stash {
            Some(list) => if list.len() == 0 {
                None
            } else {
                Some(&list[clamp_to(self.stash_selected, list.len())])
            },
            None => None,
        }
    }

    pub(crate) fn checkout_selected_branch(&mut self)
        ensures
            final(self)@ == old(self)@.checked_out(),
    {
        proof {
            reveal(AppView::checked_out);
        }
        let name = match self.selected_branch() {
            Some(b) => b.name.clone(),
            None => {
                return;
            },
        };
        self.submit(Job::CheckoutBranch { name });
    }

    pub(crate) fn delete_selected_branch(&mut self)
        ensures
            final(self)@ == old(self)@.branch_deleted(),
    {
        proof {
            reveal(AppView::branch_deleted);
        }
        let name = match self.selected_branch() {
            Some(b) => b.name.clone(),
            None => {
                return;
            },
        };
        self.submit(Job::DeleteBranch { name });
    }

    pub(crate) fn pop_selected_stash(&mut self)
        ensures
            final(self)@ == old(self)@.stash_popped(),
    {
        proof {
            reveal(AppView::stash_popped);
        }
        let index: usize = match self.selected_stash() {
            Some(e) => e.index,
            None => {
                return;
            },
        };
        self.submit(Job::StashPop { index });
    }

    pub(crate) fn drop_selected_stash(&mut self)
        ensures
            final(self)@ == old(self)@.stash_dropped(),
    {
        proof {
            reveal(AppView::stash_dropped);
        }
        let index: usize = match self.selected_stash() {
            Some(e) => e.index,
            None => {
                return;
            },
        };
        self.submit(Job::StashDrop { index });
    }
}

} // verus!
