//! The course of one change to a manifest, from loading it to committing the
//! result, and what the change ends with.

use vstd::prelude::*;
use vstd::string::*;
use crate::error::Error;

verus! {

/// How far a change to a manifest has come.
#[derive(Clone, Copy, Debug, PartialEq, Eq, Structural)]
pub enum Stage {
    /// Nothing is under way.
    Idle,
    /// The manifest was read.
    Loaded,
    /// Files were added to it or removed from it.
    Mutated,
    /// The archive was brought in line, as far as it went.
    Reconciled,
    /// The manifest document was written.
    Persisted,
    /// The repository recorded the change.
    Committed,
}

/// What is to be done at a stage.
#[derive(Clone, Copy, Debug, PartialEq, Eq, Structural)]
pub enum Work {
    Load,
    Mutate,
    Reconcile,
    Persist,
    Commit,
    Finish,
}

impl Stage {
    /// What is to be done at this stage.
    pub open spec fn work_of(self) -> Work {
        match self {
            Stage::Idle => Work::Load,
            Stage::Loaded => Work::Mutate,
            Stage::Mutated => Work::Reconcile,
            Stage::Reconciled => Work::Persist,
            Stage::Persisted => Work::Commit,
            Stage::Committed => Work::Finish,
        }
    }

    /// The stage that follows once the work of this stage was tried, with
    /// success or without. A reconciliation that failed on some files still
    /// leads on; a manifest that could not be read or written, or a commit
    /// that failed, ends the change.
    pub open spec fn after(self, success: bool) -> Stage {
        match self {
            Stage::Idle => if success {
                Stage::Loaded
            } else {
                Stage::Idle
            },
            Stage::Loaded => if success {
                Stage::Mutated
            } else {
                Stage::Idle
            },
            Stage::Mutated => Stage::Reconciled,
            Stage::Reconciled => if success {
                Stage::Persisted
            } else {
                Stage::Idle
            },
            Stage::Persisted => if success {
                Stage::Committed
            } else {
                Stage::Idle
            },
            Stage::Committed => Stage::Idle,
        }
    }

    /// What is to be done at this stage.
    pub fn work(self) -> (r: Work)
        ensures
            r == self.work_of(),
    {
        match self {
            Stage::Idle => Work::Load,
            Stage::Loaded => Work::Mutate,
            Stage::Mutated => Work::Reconcile,
            Stage::Reconciled => Work::Persist,
            Stage::Persisted => Work::Commit,
            Stage::Committed => Work::Finish,
        }
    }

    /// The stage that follows once the work of this stage was tried.
    pub fn next(self, success: bool) -> (r: Stage)
        ensures
            r == self.after(success),
    {
        match self {
            Stage::Mutated => Stage::Reconciled,
            Stage::Committed => Stage::Idle,
            Stage::Idle => if success {
                Stage::Loaded
            } else {
                Stage::Idle
            },
            Stage::Loaded => if success {
                Stage::Mutated
            } else {
                Stage::Idle
            },
            Stage::Reconciled => if success {
                Stage::Persisted
            } else {
                Stage::Idle
            },
            Stage::Persisted => if success {
                Stage::Committed
            } else {
                Stage::Idle
            },
        }
    }
}

/// A change commits only after its manifest was written: a change that is
/// under way and goes on after a step by which it is committed had the work
/// of persisting done with success just before. And a reconciliation that
/// failed does not keep the manifest from being written.
pub proof fn lemma_commit_follows_persist(stage: Stage, first: bool, second: bool)
    ensures
        stage.after(first).after(second) == Stage::Committed ==> stage == Stage::Reconciled
            && first && second,
        Stage::Mutated.after(false).after(true) == Stage::Persisted,
{
}

/// What a save ends with, given the report of the reconciliation and the
/// messages of the failures, if any, to write the manifest document and to
/// commit. A document that could not be written is answered with
/// `PersistFailed`, whatever else happened; else a commit that failed with
/// `Io`; else the report of the reconciliation stands.
pub fn conclude(synced: Result<(), Error>, persist: Option<String>, commit: Option<String>) -> (r:
    Result<(), Error>)
    ensures
        match (persist, commit) {
            (Some(message), _) => r matches Err(Error::PersistFailed(m)) && m@ == message@,
            (None, Some(message)) => r matches Err(Error::Io(m)) && m@ == message@,
            (None, None) => r == synced,
        },
{
    match persist {
        Some(message) => Err(Error::PersistFailed(message)),
        None => match commit {
            Some(message) => Err(Error::Io(message)),
            None => synced,
        },
    }
}

} // verus!
