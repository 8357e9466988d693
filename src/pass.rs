//! One `process` run as a state machine: the retry queue is drained first,
//! then a bounded batch of missing commits is processed. The caller performs
//! each action and reports back what came of it.
//!
//! A commit that fails while being retried ends the run; one that fails in
//! the forward batch is logged as broken and the batch goes on.
use vstd::prelude::*;

use crate::commits::{find_commit, select_commits, selection};
use crate::record::Commit;

verus! {

/// Where a run stands.
#[derive(Debug, Clone, Copy, PartialEq, Eq, Structural)]
pub enum Phase {
    /// Waiting for the next commit of the retry queue.
    Retrying,
    /// Waiting for the outcome of a retried commit.
    RetryRunning,
    /// Waiting for the commits that lack a record.
    Selecting,
    /// Waiting for the outcome of a commit of the batch.
    Running,
    /// Waiting for a broken commit to be logged.
    Logging,
    Finished,
    Aborted,
}

/// What the caller is to do next.
#[derive(Debug, Clone, PartialEq, Eq)]
pub enum Action {
    /// Take the next commit hash off the retry queue.
    PopRetry,
    /// Ask the record store which commits of the history lack a record.
    FindMissing,
    /// Benchmark this commit and store its record.
    Process(Commit),
    /// Log this commit as broken, with the error that its processing gave.
    LogBroken(Commit, String),
    /// The run is over.
    Done,
    /// The retry queue names a commit that the history does not hold.
    UnknownRetry(String),
    /// A retried commit failed with this error; the run stops.
    Abort(String),
}

/// `i` is the first position of `commits` whose hash is `sha`.
pub open spec fn first_with_sha(commits: Seq<Commit>, sha: Seq<char>, i: int) -> bool {
    &&& 0 <= i < commits.len()
    &&& commits[i].sha@ == sha
    &&& forall|j: int| 0 <= j < i ==> (#[trigger] commits[j]).sha@ != sha
}

/// The state of one run over the commit history `commits`.
pub struct Pass {
    pub phase: Phase,
    pub commits: Vec<Commit>,
    pub batch: Vec<Commit>,
    pub pos: usize,
}

impl Pass {
    /// While a batch runs, its position is within it.
    pub open spec fn wf(&self) -> bool {
        (self.phase == Phase::Running || self.phase == Phase::Logging) ==> self.pos < self.batch@.len()
    }

    /// A run over `commits`, which starts by draining the retry queue.
    pub fn start(commits: Vec<Commit>) -> (r: (Pass, Action))
        ensures
            r.0.wf(),
            r.0.phase == Phase::Retrying,
            r.0.commits@ == commits@,
            r.1 == Action::PopRetry,
    {
        (Pass { phase: Phase::Retrying, commits, batch: Vec::new(), pos: 0 }, Action::PopRetry)
    }

    /// Takes what the retry queue gave: the next hash, or `None` when it is
    /// empty. A known hash is processed; an unknown one ends the run. An empty
    /// queue moves on to the missing commits, or ends the run when the history
    /// is empty.
    pub fn on_retry(&mut self, popped: Option<String>) -> (r: Action)
        requires
            old(self).phase == Phase::Retrying,
        ensures
            final(self).wf(),
            final(self).commits == old(self).commits,
            match popped {
                None => if old(self).commits@.len() == 0 {
                    final(self).phase == Phase::Finished && r == Action::Done
                } else {
                    final(self).phase == Phase::Selecting && r == Action::FindMissing
                },
                Some(sha) => match r {
                    Action::Process(c) => final(self).phase == Phase::RetryRunning && exists|i: int|
                        first_with_sha(old(self).commits@, sha@, i) && #[trigger] old(self).commits@[i] == c,
                    Action::UnknownRetry(s) => final(self).phase == Phase::Aborted && s == sha
                        && forall|j: int| 0 <= j < old(self).commits@.len() ==> (#[trigger] old(self).commits@[j]).sha@ != sha@,
                    _ => false,
                },
            },
    {
        match popped {
            None => {
                if self.commits.len() == 0 {
                    self.phase = Phase::Finished;
                    Action::Done
                } else {
                    self.phase = Phase::Selecting;
                    Action::FindMissing
                }
            },
            Some(sha) => match find_commit(&self.commits, sha.as_str()) {
                Some(i) => {
                    self.phase = Phase::RetryRunning;
                    let c = self.commits[i].duplicate();
                    proof {
                        assert(first_with_sha(self.commits@, sha@, i as int));
                    }
                    Action::Process(c)
                },
                None => {
                    self.phase = Phase::Aborted;
                    Action::UnknownRetry(sha)
                },
            },
        }
    }

    /// Takes the commits that lack a record, in chronological order, and
    /// starts on the newest of them (see `select_commits`).
    pub fn on_missing(&mut self, missing: Vec<Commit>) -> (r: Action)
        requires
            old(self).phase == Phase::Selecting,
        ensures
            final(self).wf(),
            final(self).commits == old(self).commits,
            final(self).batch@ == selection(missing@),
            final(self).pos == 0,
            if selection(missing@).len() == 0 {
                final(self).phase == Phase::Finished && r == Action::Done
            } else {
                final(self).phase == Phase::Running && r == Action::Process(selection(missing@)[0])
            },
    {
        self.batch = select_commits(missing);
        self.pos = 0;
        if self.batch.len() == 0 {
            self.phase = Phase::Finished;
            Action::Done
        } else {
            self.phase = Phase::Running;
            Action::Process(self.batch[0].duplicate())
        }
    }

    /// Takes the outcome of processing the current commit. A retried commit
    /// that succeeded is followed by the next retry, one that failed ends the
    /// run. A failed commit of the batch is logged as broken; after a
    /// success the batch goes on.
    pub fn on_processed(&mut self, result: Result<(), String>) -> (r: Action)
        requires
            old(self).wf(),
            old(self).phase == Phase::RetryRunning || old(self).phase == Phase::Running,
        ensures
            final(self).wf(),
            final(self).commits == old(self).commits,
            final(self).batch == old(self).batch,
            old(self).phase == Phase::RetryRunning ==> match result {
                Ok(()) => final(self).phase == Phase::Retrying && r == Action::PopRetry,
                Err(e) => final(self).phase == Phase::Aborted && r == Action::Abort(e),
            },
            old(self).phase == Phase::Running ==> match result {
                Ok(()) => Self::advanced(*old(self), *final(self), r),
                Err(e) => final(self).phase == Phase::Logging && final(self).pos == old(self).pos
                    && r == Action::LogBroken(old(self).batch@[old(self).pos as int], e),
            },
    {
        if self.phase == Phase::RetryRunning {
            match result {
                Ok(()) => {
                    self.phase = Phase::Retrying;
                    Action::PopRetry
                },
                Err(e) => {
                    self.phase = Phase::Aborted;
                    Action::Abort(e)
                },
            }
        } else {
            match result {
                Ok(()) => self.advance(),
                Err(e) => {
                    self.phase = Phase::Logging;
                    Action::LogBroken(self.batch[self.pos].duplicate(), e)
                },
            }
        }
    }

    /// Takes the news that the broken commit was logged, and goes on with the
    /// batch.
    pub fn on_logged(&mut self) -> (r: Action)
        requires
            old(self).wf(),
            old(self).phase == Phase::Logging,
        ensures
            final(self).wf(),
            final(self).commits == old(self).commits,
            final(self).batch == old(self).batch,
            Self::advanced(*old(self), *final(self), r),
    {
        self.advance()
    }

    /// `after` and `r` follow `before` by moving to the next commit of the
    /// batch, or by finishing after its last one.
    pub open spec fn advanced(before: Pass, after: Pass, r: Action) -> bool {
        &&& after.pos == before.pos + 1
        &&& if after.pos < before.batch@.len() {
            after.phase == Phase::Running && r == Action::Process(before.batch@[after.pos as int])
        } else {
            after.phase == Phase::Finished && r == Action::Done
        }
    }

    fn advance(&mut self) -> (r: Action)
        requires
            old(self).pos < old(self).batch@.len(),
        ensures
            final(self).wf(),
            final(self).commits == old(self).commits,
            final(self).batch == old(self).batch,
            Self::advanced(*old(self), *final(self), r),
    {
        let n = self.batch.len();
        self.pos = self.pos + 1;
        if self.pos < n {
            self.phase = Phase::Running;
            Action::Process(self.batch[self.pos].duplicate())
        } else {
            self.phase = Phase::Finished;
            Action::Done
        }
    }
}

} // verus!
