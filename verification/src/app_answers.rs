//! The answers of the worker.

use crate::app_events::end_offset;
use crate::app_model::{AppView, Mode};
use crate::jobs::{GitError, Job, JobResult};
use crate::model::{BranchInfo, CommitInfo, FileDiff, RepoStatus, StashEntry, SyncStatus};
use crate::text::same_text;
use crate::tree::clamp_to;
use vstd::prelude::*;
use vstd::string::*;

use crate::app::App;

verus! {

/// The offset of the last entry of a log.
fn log_end(n: usize) -> (max: u16)
    ensures
        max == end_offset(n as nat),
{
    let last = if n == 0 {
        0
    } else {
        n - 1
    };
    if last <= u16::MAX as usize {
        last as u16
    } else {
        u16::MAX
    }
}

impl App {
    pub(crate) fn take_diff(&mut self, d: FileDiff)
        ensures
            final(self)@ == old(self)@.diff_arrived(d),
    {
        proof {
            reveal(AppView::diff_arrived);
        }
        let wanted = match &self.diff_for {
            Some((path, _)) => same_text(path.as_str(), d.path.as_str()),
            None => false,
        };
        if !wanted {
            return;
        }
        if d.hunks.len() == 0 && !d.binary && !self.diff_whole_file {
            self.fallback_whole_file = true;
            self.viewer.load(None);
            self.viewer.set_hunk(0);
            self.viewer.set_scroll(0);
            self.diff_whole_file = true;
            self.submit(Job::LoadFile { path: d.path });
            return;
        }
        self.viewer.load(Some(d));
        self.viewer.sync_hunk();
        let at = self.showing();
        if at.markdown {
            let max = self.viewer.preview_max();
            if self.viewer.scroll() > max {
                self.viewer.set_scroll(max);
            }
        } else {
            self.viewer.snap_scroll(at);
        }
    }

    pub(crate) fn finish_mutation(&mut self)
        ensures
            final(self)@ == old(self)@.mutation_done(),
    {
        proof {
            reveal(AppView::mutation_done);
        }
        self.syncing = None;
        self.refresh();
        self.reload_diff();
        self.reload_branches();
        self.reload_log();
        self.reload_stash();
        self.submit(Job::LoadSync);
    }

    pub(crate) fn take_message(&mut self, text: String)
        ensures
            final(self)@ == old(self)@.message_arrived(text@),
    {
        proof {
            reveal(AppView::message_arrived);
        }
        self.generating = false;
        if self.mode == Mode::Committing {
            self.draft.hold(text);
            self.draft.move_end();
            self.error = None;
        }
    }

    pub(crate) fn take_error(&mut self, e: GitError)
        ensures
            final(self)@ == old(self)@.error_arrived(e),
    {
        proof {
            reveal(AppView::error_arrived);
        }
        self.syncing = None;
        self.generating = false;
        self.error = Some(
            match e {
                GitError::EmptyCommit =>
                    "nothing to commit: press space on a file to stage it, then c to commit"
                    .to_owned(),
                GitError::NotARepo(text) => text,
                GitError::Other(text) => text,
            },
        );
    }

    pub(crate) fn take_status(&mut self, st: RepoStatus)
        ensures
            final(self)@ == old(self)@.status_arrived(st),
    {
        proof {
            reveal(AppView::status_arrived);
        }
        self.status = Some(st);
        self.tree.rebuild(&self.status);
        self.error = None;
    }

    pub(crate) fn take_markdown(&mut self, path: String, staged: bool, text: String)
        ensures
            final(self)@ == old(self)@.markdown_arrived(path@, staged, text@),
    {
        proof {
            reveal(AppView::markdown_arrived);
        }
        let wanted = match &self.md_for {
            Some((p, s)) => same_text(p.as_str(), path.as_str()) && *s == staged,
            None => false,
        };
        if wanted {
            self.md_text = Some(text);
            self.viewer.set_scroll(0);
        }
    }

    pub(crate) fn take_branches(&mut self, list: Vec<BranchInfo>)
        ensures
            final(self)@ == old(self)@.branches_arrived(list@),
    {
        proof {
            reveal(AppView::branches_arrived);
        }
        self.branch_selected = clamp_to(self.branch_selected, list.len());
        self.branches = Some(list);
    }

    pub(crate) fn take_log(&mut self, list: Vec<CommitInfo>)
        ensures
            final(self)@ == old(self)@.log_arrived(list@),
    {
        proof {
            reveal(AppView::log_arrived);
        }
        let max = log_end(list.len());
        if self.log_scroll > max {
            self.log_scroll = max;
        }
        self.log = Some(list);
    }

    pub(crate) fn take_stash(&mut self, list: Vec<StashEntry>)
        ensures
            final(self)@ == old(self)@.stash_arrived(list@),
    {
        proof {
            reveal(AppView::stash_arrived);
        }
        self.stash_selected = clamp_to(self.stash_selected, list.len());
        self.stash = Some(list);
    }

    pub(crate) fn take_sync(&mut self, st: SyncStatus)
        ensures
            final(self)@ == old(self)@.sync_arrived(st),
    {
        proof {
            reveal(AppView::sync_arrived);
        }
        self.sync = Some(st);
    }

    /// Takes in an answer of the worker.
    pub fn apply(&mut self, result: JobResult)
        ensures
            final(self)@ == old(self)@.applied(result),
    {
        proof {
            reveal(AppView::applied);
        }
        match result {
            JobResult::Status(st) => self.take_status(st),
            JobResult::Diff(d) => self.take_diff(d),
            JobResult::Markdown { path, staged, text } => self.take_markdown(path, staged, text),
            JobResult::Branches(list) => self.take_branches(list),
            JobResult::Log(list) => self.take_log(list),
            JobResult::Stash(list) => self.take_stash(list),
            JobResult::SyncStatus(st) => self.take_sync(st),
            JobResult::GeneratedMessage(text) => self.take_message(text),
            JobResult::MutationDone => self.finish_mutation(),
            JobResult::Error(e) => self.take_error(e),
        }
    }

    /// Takes in the answers that are there, and asks for what the selected
    /// file needs.
    pub fn poll(&mut self, results: Vec<JobResult>)
        ensures
            final(self)@ == old(self)@.polled(results@),
    {
        proof {
            reveal(AppView::polled);
        }
        let ghost all = results@;
        for result in it: results
            invariant
                it.seq() == all,
                self@ == old(self)@.applied_all(all, it.index() as nat),
        {
            self.apply(result);
        }
        self.maybe_load_diff();
        self.maybe_load_markdown();
    }

}

} // verus!
