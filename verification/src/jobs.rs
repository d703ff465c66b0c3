//! What the worker is asked to do, and what it answers.

use crate::config::{LlmConfig, LlmView};
use crate::model::{BranchInfo, CommitInfo, FileDiff, RepoStatus, StashEntry, SyncStatus};
use crate::text::opt_text;
use vstd::prelude::*;

verus! {

/// Work for the worker thread, which owns the repository.
#[derive(Debug)]
pub enum Job {
    RefreshStatus,
    ListBranches,
    ListLog { limit: usize },
    ListStash,
    LoadSync,
    LoadDiff { path: String, staged: bool },
    LoadFile { path: String },
    LoadMarkdown { path: String, staged: bool },
    StageFile { path: String },
    UnstageFile { path: String },
    DiscardFile { path: String },
    StageHunk { path: String, hunk_index: usize },
    Commit { message: String },
    CreateBranch { name: String },
    CheckoutBranch { name: String },
    DeleteBranch { name: String },
    StashPush { message: String },
    StashPop { index: usize },
    StashDrop { index: usize },
    Pull,
    Push { remote: String, branch: String, set_upstream: bool },
    Publish { remote: String, url: String, branch: String },
    GenerateCommitMessage { llm: LlmConfig },
}

/// What a [`Job`] holds.
#[verifier::ext_equal]
pub enum JobView {
    RefreshStatus,
    ListBranches,
    ListLog { limit: nat },
    ListStash,
    LoadSync,
    LoadDiff { path: Seq<char>, staged: bool },
    LoadFile { path: Seq<char> },
    LoadMarkdown { path: Seq<char>, staged: bool },
    StageFile { path: Seq<char> },
    UnstageFile { path: Seq<char> },
    DiscardFile { path: Seq<char> },
    StageHunk { path: Seq<char>, hunk_index: nat },
    Commit { message: Seq<char> },
    CreateBranch { name: Seq<char> },
    CheckoutBranch { name: Seq<char> },
    DeleteBranch { name: Seq<char> },
    StashPush { message: Seq<char> },
    StashPop { index: nat },
    StashDrop { index: nat },
    Pull,
    Push { remote: Seq<char>, branch: Seq<char>, set_upstream: bool },
    Publish { remote: Seq<char>, url: Seq<char>, branch: Seq<char> },
    GenerateCommitMessage { llm: LlmView },
}

impl View for Job {
    type V = JobView;

    open spec fn view(&self) -> JobView {
        match *self {
            Job::RefreshStatus => JobView::RefreshStatus,
            Job::ListBranches => JobView::ListBranches,
            Job::ListLog { limit } => JobView::ListLog { limit: limit as nat },
            Job::ListStash => JobView::ListStash,
            Job::LoadSync => JobView::LoadSync,
            Job::LoadDiff { path, staged } => JobView::LoadDiff { path: path@, staged },
            Job::LoadFile { path } => JobView::LoadFile { path: path@ },
            Job::LoadMarkdown { path, staged } => JobView::LoadMarkdown { path: path@, staged },
            Job::StageFile { path } => JobView::StageFile { path: path@ },
            Job::UnstageFile { path } => JobView::UnstageFile { path: path@ },
            Job::DiscardFile { path } => JobView::DiscardFile { path: path@ },
            Job::StageHunk { path, hunk_index } => JobView::StageHunk {
                path: path@,
                hunk_index: hunk_index as nat,
            },
            Job::Commit { message } => JobView::Commit { message: message@ },
            Job::CreateBranch { name } => JobView::CreateBranch { name: name@ },
            Job::CheckoutBranch { name } => JobView::CheckoutBranch { name: name@ },
            Job::DeleteBranch { name } => JobView::DeleteBranch { name: name@ },
            Job::StashPush { message } => JobView::StashPush { message: message@ },
            Job::StashPop { index } => JobView::StashPop { index: index as nat },
            Job::StashDrop { index } => JobView::StashDrop { index: index as nat },
            Job::Pull => JobView::Pull,
            Job::Push { remote, branch, set_upstream } => JobView::Push {
                remote: remote@,
                branch: branch@,
                set_upstream,
            },
            Job::Publish { remote, url, branch } => JobView::Publish {
                remote: remote@,
                url: url@,
                branch: branch@,
            },
            Job::GenerateCommitMessage { llm } => JobView::GenerateCommitMessage { llm: llm@ },
        }
    }
}

/// What a list of jobs holds.
pub open spec fn jobs_view(jobs: Seq<Job>) -> Seq<JobView> {
    jobs.map_values(|j: Job| j@)
}

/// Why the worker could not do something.
#[derive(Debug)]
pub enum GitError {
    /// Nothing is staged.
    EmptyCommit,
    /// The path is not in a repository.
    NotARepo(String),
    /// Anything else, in the words of the worker.
    Other(String),
}

/// What the worker answers.
#[derive(Debug)]
pub enum JobResult {
    Status(RepoStatus),
    Diff(FileDiff),
    Markdown { path: String, staged: bool, text: String },
    Branches(Vec<BranchInfo>),
    Log(Vec<CommitInfo>),
    Stash(Vec<StashEntry>),
    SyncStatus(SyncStatus),
    GeneratedMessage(String),
    MutationDone,
    Error(GitError),
}

/// Jobs on their way to the worker. Once the worker is gone none is taken any
/// more, and the reason is kept.
#[derive(Debug)]
pub struct JobQueue {
    pub pending: Vec<Job>,
    pub closed: Option<String>,
}

/// What a [`JobQueue`] holds.
#[verifier::ext_equal]
pub struct QueueView {
    pub pending: Seq<JobView>,
    pub closed: Option<Seq<char>>,
}

impl View for JobQueue {
    type V = QueueView;

    open spec fn view(&self) -> QueueView {
        QueueView { pending: jobs_view(self.pending@), closed: opt_text(self.closed) }
    }
}

impl QueueView {
    /// The queue with one job more, as long as it is open.
    pub open spec fn with(self, job: JobView) -> QueueView {
        if self.closed is Some {
            self
        } else {
            QueueView { pending: self.pending.push(job), ..self }
        }
    }
}

impl JobQueue {
    /// An open queue with no job in it.
    pub fn new() -> (queue: JobQueue)
        ensures
            queue@ == (QueueView { pending: Seq::empty(), closed: None }),
    {
        let queue = JobQueue { pending: Vec::new(), closed: None };
        assert(queue@ =~= (QueueView { pending: Seq::empty(), closed: None }));
        queue
    }

    /// Takes a job, or returns why it cannot.
    pub fn submit(&mut self, job: Job) -> (done: Result<(), String>)
        ensures
            final(self)@ == old(self)@.with(job@),
            done is Ok <==> old(self)@.closed is None,
            done matches Err(e) ==> old(self)@.closed == Some(e@),
    {
        match &self.closed {
            Some(why) => Err(why.clone()),
            None => {
                let ghost before = self.pending@;
                self.pending.push(job);
                assert(jobs_view(self.pending@) =~= jobs_view(before).push(job@));
                Ok(())
            },
        }
    }

    /// Hands over the jobs that wait, oldest first.
    pub fn take(&mut self) -> (jobs: Vec<Job>)
        ensures
            jobs_view(jobs@) == old(self)@.pending,
            final(self)@ == (QueueView { pending: Seq::empty(), ..old(self)@ }),
    {
        let mut jobs: Vec<Job> = Vec::new();
        std::mem::swap(&mut jobs, &mut self.pending);
        assert(self@ =~= (QueueView { pending: Seq::empty(), ..old(self)@ }));
        jobs
    }

    /// Takes no more jobs, for the given reason.
    pub fn close(&mut self, why: String)
        ensures
            final(self)@ == (QueueView { closed: Some(why@), ..old(self)@ }),
    {
        self.closed = Some(why);
    }
}

} // verus!
