//! The decisions of a run: which step follows on what was observed.
//!
//! A run clears the stale output, then reads batch after batch, keeps the
//! matching rows of each and appends them to the output, until the input ends
//! or the quota is met. The work on files lies with the caller; what to do
//! next is decided here.

use vstd::prelude::*;

verus! {

/// Where a run stands.
#[derive(Clone, Copy, PartialEq, Eq, Debug, Structural)]
pub enum Phase {
    /// Nothing has been done; the stale output has yet to be cleared.
    Init,
    /// Batches are read, filtered and persisted.
    Scanning,
    /// The quota is met; the run ended before the input did.
    Draining,
    /// The input is exhausted.
    Done,
    /// The run was aborted on its first error.
    Failed,
}

/// What went wrong in a run that was aborted.
#[derive(Clone, Copy, PartialEq, Eq, Debug, Structural)]
pub enum Fault {
    /// A record of the input could not be read.
    Read,
    /// A row could not be turned into CSV text.
    Encode,
    /// The output could not be cleared or appended to.
    Output,
    /// Something was reported that the run was not waiting for.
    OutOfTurn,
}

/// What was observed since the last step.
#[derive(Clone, Copy, PartialEq, Eq, Debug, Structural)]
pub enum Observation {
    /// The run is to begin.
    Start,
    /// No output is left from an earlier run.
    Cleared,
    /// The input had no record left.
    EndOfInput,
    /// A record of the input could not be read.
    ReadFailed,
    /// The batch left no valid row in the buffer.
    NothingToWrite,
    /// The batch left this many valid rows, and their text is ready.
    Encoded(usize),
    /// The batch left valid rows, and their text could not be made.
    EncodeFailed,
    /// The rows that were handed out have been appended to the output.
    Appended,
    /// The output could not be cleared or appended to.
    OutputFailed,
}

/// What is to be done next.
#[derive(Clone, Copy, PartialEq, Eq, Debug, Structural)]
pub enum Todo {
    /// Delete the output file if there is one.
    ClearOutput,
    /// Read the next batch.
    ReadBatch,
    /// Append the rows that were handed out to the output.
    Append,
    /// The run has ended well.
    Finish,
    /// The run has ended with this fault.
    Abort(Fault),
}

/// The state of a run.
#[derive(Clone, Copy, PartialEq, Eq, Debug, Structural)]
pub struct Progress {
    /// Where the run stands.
    pub phase: Phase,
    /// Rows persisted so far.
    pub total: usize,
    /// Rows handed out to be appended and not yet reported as appended.
    pub pending: usize,
    /// Rows after which the run ends.
    pub quota: usize,
}

impl Progress {
    /// The rows persisted and those about to be never exceed the quota, and
    /// a run that has not begun has persisted nothing.
    pub open spec fn inv(self) -> bool {
        &&& self.total + self.pending <= self.quota
        &&& self.phase == Phase::Init ==> self.total == 0 && self.pending == 0
    }

    /// The run is ready to take a batch.
    pub open spec fn is_ready(self) -> bool {
        self.phase == Phase::Scanning && self.pending == 0
    }

    /// The run has handed rows out and waits to hear of them.
    pub open spec fn is_waiting(self) -> bool {
        self.phase == Phase::Scanning && self.pending > 0
    }

    /// The run has ended.
    pub open spec fn is_over(self) -> bool {
        self.phase == Phase::Draining || self.phase == Phase::Done || self.phase == Phase::Failed
    }

    /// The same run in another phase.
    pub open spec fn in_phase(self, phase: Phase) -> Progress {
        Progress { phase, ..self }
    }

    /// The run that has failed.
    pub open spec fn failed(self) -> Progress {
        Progress { phase: Phase::Failed, pending: 0, ..self }
    }

    /// The state after `seen`, and what is to be done then.
    pub open spec fn next(self, seen: Observation) -> (Progress, Todo) {
        match self.phase {
            Phase::Init => match seen {
                Observation::Start => (self, Todo::ClearOutput),
                Observation::Cleared => (
                    Progress { phase: Phase::Scanning, total: 0, pending: 0, ..self },
                    Todo::ReadBatch,
                ),
                Observation::OutputFailed => (self.failed(), Todo::Abort(Fault::Output)),
                _ => (self.failed(), Todo::Abort(Fault::OutOfTurn)),
            },
            Phase::Scanning => if self.pending == 0 {
                match seen {
                    Observation::EndOfInput => (self.in_phase(Phase::Done), Todo::Finish),
                    Observation::ReadFailed => (self.failed(), Todo::Abort(Fault::Read)),
                    Observation::NothingToWrite => (self, Todo::ReadBatch),
                    Observation::EncodeFailed => (self.failed(), Todo::Abort(Fault::Encode)),
                    Observation::Encoded(rows) => if 0 < rows && self.total + rows <= self.quota {
                        (Progress { pending: rows, ..self }, Todo::Append)
                    } else {
                        (self.failed(), Todo::Abort(Fault::OutOfTurn))
                    },
                    _ => (self.failed(), Todo::Abort(Fault::OutOfTurn)),
                }
            } else {
                match seen {
                    Observation::Appended => if self.total + self.pending <= usize::MAX {
                        let total = (self.total + self.pending) as usize;
                        if total >= self.quota {
                            (
                                Progress { phase: Phase::Draining, total, pending: 0, ..self },
                                Todo::Finish,
                            )
                        } else {
                            (Progress { total, pending: 0, ..self }, Todo::ReadBatch)
                        }
                    } else {
                        (self.failed(), Todo::Abort(Fault::OutOfTurn))
                    },
                    Observation::OutputFailed => (self.failed(), Todo::Abort(Fault::Output)),
                    _ => (self.failed(), Todo::Abort(Fault::OutOfTurn)),
                }
            },
            Phase::Draining => (self, Todo::Finish),
            Phase::Done => (self, Todo::Finish),
            Phase::Failed => (self, Todo::Abort(Fault::OutOfTurn)),
        }
    }

    /// The state after each of `seen` in turn.
    pub open spec fn after(self, seen: Seq<Observation>) -> Progress
        decreases seen.len(),
    {
        if seen.len() == 0 {
            self
        } else {
            self.after(seen.drop_last()).next(seen.last()).0
        }
    }

    /// A run that has not begun.
    pub fn new(quota: usize) -> (p: Progress)
        ensures
            p == (Progress { phase: Phase::Init, total: 0, pending: 0, quota }),
            p.inv(),
    {
        Progress { phase: Phase::Init, total: 0, pending: 0, quota }
    }

    fn fail(self, fault: Fault) -> (r: (Progress, Todo))
        ensures
            r == (self.failed(), Todo::Abort(fault)),
    {
        (
            Progress { phase: Phase::Failed, total: self.total, pending: 0, quota: self.quota },
            Todo::Abort(fault),
        )
    }

    /// Takes what was observed and says what is to be done next.
    pub fn advance(self, seen: Observation) -> (r: (Progress, Todo))
        ensures
            r == self.next(seen),
    {
        match self.phase {
            Phase::Init => match seen {
                Observation::Start => (self, Todo::ClearOutput),
                Observation::Cleared => (
                    Progress { phase: Phase::Scanning, total: 0, pending: 0, quota: self.quota },
                    Todo::ReadBatch,
                ),
                Observation::OutputFailed => self.fail(Fault::Output),
                _ => self.fail(Fault::OutOfTurn),
            },
            Phase::Scanning => if self.pending == 0 {
                match seen {
                    Observation::EndOfInput => (
                        Progress {
                            phase: Phase::Done,
                            total: self.total,
                            pending: self.pending,
                            quota: self.quota,
                        },
                        Todo::Finish,
                    ),
                    Observation::ReadFailed => self.fail(Fault::Read),
                    Observation::NothingToWrite => (self, Todo::ReadBatch),
                    Observation::EncodeFailed => self.fail(Fault::Encode),
                    Observation::Encoded(rows) => {
                        if 0 < rows && self.total <= self.quota && rows <= self.quota - self.total {
                            (
                                Progress {
                                    phase: self.phase,
                                    total: self.total,
                                    pending: rows,
                                    quota: self.quota,
                                },
                                Todo::Append,
                            )
                        } else {
                            self.fail(Fault::OutOfTurn)
                        }
                    },
                    _ => self.fail(Fault::OutOfTurn),
                }
            } else {
                match seen {
                    Observation::Appended => match self.total.checked_add(self.pending) {
                        Some(total) => if total >= self.quota {
                            (
                                Progress {
                                    phase: Phase::Draining,
                                    total,
                                    pending: 0,
                                    quota: self.quota,
                                },
                                Todo::Finish,
                            )
                        } else {
                            (
                                Progress { phase: self.phase, total, pending: 0, quota: self.quota },
                                Todo::ReadBatch,
                            )
                        },
                        None => self.fail(Fault::OutOfTurn),
                    },
                    Observation::OutputFailed => self.fail(Fault::Output),
                    _ => self.fail(Fault::OutOfTurn),
                }
            },
            Phase::Draining => (self, Todo::Finish),
            Phase::Done => (self, Todo::Finish),
            Phase::Failed => (self, Todo::Abort(Fault::OutOfTurn)),
        }
    }
}

/// Why a run was aborted, with the error of the `csv` crate where there is
/// one.
#[derive(Debug)]
pub enum RunError {
    /// A record of the input could not be read.
    Read(csv::Error),
    /// A row could not be turned into CSV text.
    Encode(csv::Error),
    /// The caller reported that the output could not be cleared or appended
    /// to.
    Output,
    /// Something was reported that the run was not waiting for.
    OutOfTurn,
}

impl RunError {
    /// The kind of this error.
    pub open spec fn fault(self) -> Fault {
        match self {
            RunError::Read(_) => Fault::Read,
            RunError::Encode(_) => Fault::Encode,
            RunError::Output => Fault::Output,
            RunError::OutOfTurn => Fault::OutOfTurn,
        }
    }

    /// The kind of this error.
    pub fn kind(&self) -> (fault: Fault)
        ensures
            fault == self.fault(),
    {
        match self {
            RunError::Read(_) => Fault::Read,
            RunError::Encode(_) => Fault::Encode,
            RunError::Output => Fault::Output,
            RunError::OutOfTurn => Fault::OutOfTurn,
        }
    }
}

/// What the caller reports to a run.
#[derive(Debug)]
pub enum Event {
    /// The run is to begin.
    Start,
    /// The output file is gone, or there was none.
    OutputCleared,
    /// The outcome of reading the next batch.
    Batch(Option<Result<Vec<Vec<String>>, csv::Error>>),
    /// The text that was handed out has been appended to the output file.
    Appended,
    /// The output file could not be cleared or appended to.
    OutputFailed,
}

/// What a run asks of the caller.
#[derive(Debug)]
pub enum Action {
    /// Delete the file at this path if it exists, then report
    /// `OutputCleared` or `OutputFailed`.
    ClearOutput(String),
    /// Read the next batch and report it.
    ReadBatch,
    /// Append `bytes`, the CSV text of `rows` rows, to the file at `path`,
    /// creating it if need be, then report `Appended` or `OutputFailed`.
    Append { path: String, bytes: Vec<u8>, rows: usize },
    /// The run has ended well; the input file at this path is used up.
    Finish(String),
    /// The run has ended with this error.
    Abort(RunError),
}

impl Action {
    /// What this action asks for, without what it carries.
    pub open spec fn todo(self) -> Todo {
        match self {
            Action::ClearOutput(_) => Todo::ClearOutput,
            Action::ReadBatch => Todo::ReadBatch,
            Action::Append { .. } => Todo::Append,
            Action::Finish(_) => Todo::Finish,
            Action::Abort(error) => Todo::Abort(error.fault()),
        }
    }
}

/// What a run observes when `event` is reported to it, where a batch, if the
/// event brought one, left `valid` valid rows in the buffer and `encoded`
/// says whether their text could be made.
pub open spec fn seen_by(event: Event, valid: nat, encoded: bool) -> Observation {
    match event {
        Event::Start => Observation::Start,
        Event::OutputCleared => Observation::Cleared,
        Event::Batch(None) => Observation::EndOfInput,
        Event::Batch(Some(Err(_))) => Observation::ReadFailed,
        Event::Batch(Some(Ok(_))) => if valid == 0 {
            Observation::NothingToWrite
        } else if encoded {
            Observation::Encoded(valid as usize)
        } else {
            Observation::EncodeFailed
        },
        Event::Appended => Observation::Appended,
        Event::OutputFailed => Observation::OutputFailed,
    }
}

/// A run begins from a clean slate: the first thing it asks for is that the
/// output be cleared, it starts to scan only when told that this was done,
/// with nothing counted as persisted, and until then it takes no batch.
pub proof fn lemma_clears_before_scanning(p: Progress, seen: Observation)
    requires
        p.phase == Phase::Init,
    ensures
        p.next(Observation::Start) == (p, Todo::ClearOutput),
        p.next(Observation::Cleared) == (
            Progress { phase: Phase::Scanning, total: 0, pending: 0, quota: p.quota },
            Todo::ReadBatch,
        ),
        seen != Observation::Start && seen != Observation::Cleared ==> p.next(seen).0.phase
            == Phase::Failed,
{
}

/// A step keeps the rows persisted and pending within the quota.
pub proof fn lemma_step_within_quota(p: Progress, seen: Observation)
    requires
        p.inv(),
    ensures
        p.next(seen).0.inv(),
        p.next(seen).0.quota == p.quota,
{
}

/// However a run goes on, it never persists more rows than its quota.
pub proof fn lemma_run_within_quota(p: Progress, seen: Seq<Observation>)
    requires
        p.inv(),
    ensures
        p.after(seen).inv(),
        p.after(seen).quota == p.quota,
        p.after(seen).total <= p.quota,
    decreases seen.len(),
{
    if seen.len() > 0 {
        lemma_run_within_quota(p, seen.drop_last());
        lemma_step_within_quota(p.after(seen.drop_last()), seen.last());
    }
}

/// The rows persisted never become fewer.
pub proof fn lemma_total_grows(p: Progress, seen: Observation)
    requires
        p.inv(),
        p.phase != Phase::Init,
    ensures
        p.next(seen).0.total >= p.total,
{
}

/// The end of the input ends the run; a batch that leaves nothing to write
/// does not: the run stays as it is and asks for the next batch.
pub proof fn lemma_end_of_input_or_empty_batch(p: Progress)
    requires
        p.is_ready(),
    ensures
        p.next(Observation::EndOfInput) == (p.in_phase(Phase::Done), Todo::Finish),
        p.next(Observation::NothingToWrite) == (p, Todo::ReadBatch),
{
}

/// A run that has ended stays where it is, whatever is reported to it.
pub proof fn lemma_over_is_final(p: Progress, seen: Observation)
    requires
        p.is_over(),
    ensures
        p.next(seen).0 == p,
        p.next(seen).1 != Todo::ClearOutput,
        p.next(seen).1 != Todo::ReadBatch,
        p.next(seen).1 != Todo::Append,
{
}

/// A run stops scanning exactly when the rows persisted reach the quota:
/// after rows were appended it is over if and only if the quota is met.
pub proof fn lemma_stops_at_quota(p: Progress)
    requires
        p.inv(),
        p.is_waiting(),
    ensures
        p.next(Observation::Appended).0.total == p.total + p.pending,
        p.next(Observation::Appended).0.phase == Phase::Draining <==> p.total + p.pending
            == p.quota,
        p.next(Observation::Appended).0.phase == Phase::Scanning <==> p.total + p.pending
            < p.quota,
{
}

} // verus!
