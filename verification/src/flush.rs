//! One flush of a cache: which command the storage is given next, depending
//! on what it made of the commands before.
//!
//! A chunk whose rows all go to one table is written by one statement. A
//! chunk that spans tables is written row by row inside a transaction, which
//! is committed after the last row and rolled back as soon as anything in it
//! fails. The first chunk that fails ends the flush.

use vstd::prelude::*;
use crate::cache::AggregationCache;
use crate::upsert::{
    action_of, actions_view, cache_rows, lemma_plan, plan, rows_of_actions, rows_view,
    statements_view, store_cache_chunked, ActionModel, BatchRow, ChunkAction, PathModel, RowModel,
    Statement, StatementModel, UpsertPath, CHUNK_ROWS,
};

verus! {

/// What the storage made of one command.
#[derive(Clone, Copy, Debug, PartialEq, Eq, Structural)]
pub enum Outcome {
    /// The command was carried out.
    Done,
    /// The command failed and had no effect.
    Failed,
}

/// Where a flush stands.
#[derive(Clone, Copy, Debug, PartialEq, Eq, Structural)]
pub enum FlushStatus {
    /// A command waits to be carried out.
    Pending,
    /// Every chunk was applied.
    Complete,
    /// A chunk failed; the chunks after it will not be written.
    Aborted,
}

/// How far the writing of the current chunk has come.
#[derive(Clone, Copy, Debug, PartialEq, Eq, Structural)]
pub enum Phase {
    /// Nothing of the chunk has been sent.
    Start,
    /// A transaction is open, and so many statements of the chunk have run
    /// in it.
    Inside(usize),
    /// Something failed in the open transaction, which is to be rolled
    /// back.
    Failing,
}

/// A command to the storage.
#[derive(Debug)]
pub enum Command<'a> {
    /// Run the statement by itself; it writes all of `rows` or nothing.
    Run { statement: &'a Statement, rows: &'a Vec<BatchRow> },
    /// Open a transaction.
    Begin,
    /// Run the statement, which writes `row`, in the open transaction.
    RunInside { statement: &'a Statement, row: &'a BatchRow },
    /// Commit the open transaction.
    Commit,
    /// Roll the open transaction back.
    Rollback,
}

/// Mathematical value of a `Command`.
pub enum CommandModel {
    Run { statement: StatementModel, rows: Seq<RowModel> },
    Begin,
    RunInside { statement: StatementModel, row: RowModel },
    Commit,
    Rollback,
}

impl<'a> View for Command<'a> {
    type V = CommandModel;

    open spec fn view(&self) -> CommandModel {
        match self {
            Command::Run { statement, rows } => CommandModel::Run {
                statement: statement@,
                rows: rows_view(rows@),
            },
            Command::Begin => CommandModel::Begin,
            Command::RunInside { statement, row } => CommandModel::RunInside {
                statement: statement@,
                row: row@,
            },
            Command::Commit => CommandModel::Commit,
            Command::Rollback => CommandModel::Rollback,
        }
    }
}

/// Mathematical value of a flush: its chunks, how many of them were applied,
/// how far the next one has come, and whether it failed.
pub struct FlushModel {
    pub actions: Seq<ActionModel>,
    pub applied: nat,
    pub phase: Phase,
    pub failed: bool,
}

impl FlushModel {
    /// The flush of `actions` before anything is sent.
    pub open spec fn fresh(actions: Seq<ActionModel>) -> FlushModel {
        FlushModel { actions, applied: 0, phase: Phase::Start, failed: false }
    }

    /// A flush has applied no more chunks than it has, each of its chunks
    /// holds at most `CHUNK_ROWS` rows and comes with the statements that
    /// write them, and only a chunk that is written in a transaction is ever
    /// past its start.
    pub open spec fn wf(self) -> bool {
        &&& self.applied <= self.actions.len()
        &&& forall|i: int|
            0 <= i < self.actions.len() ==> (#[trigger] self.actions[i]) == action_of(
                self.actions[i].rows,
            ) && self.actions[i].rows.len() <= CHUNK_ROWS
        &&& self.status() != FlushStatus::Pending ==> self.phase == Phase::Start
        &&& self.status() == FlushStatus::Pending ==> match (
            self.actions[self.applied as int].path,
            self.phase,
        ) {
            (PathModel::Bulk(_), phase) => phase == Phase::Start,
            (PathModel::PerRow(statements), Phase::Inside(n)) => n <= statements.len(),
            _ => true,
        }
    }

    /// Where the flush stands.
    pub open spec fn status(self) -> FlushStatus {
        if self.failed {
            FlushStatus::Aborted
        } else if self.applied < self.actions.len() {
            FlushStatus::Pending
        } else {
            FlushStatus::Complete
        }
    }

    /// The command that the storage is given next, while the flush is
    /// pending.
    pub open spec fn command(self) -> Option<CommandModel> {
        if self.status() != FlushStatus::Pending {
            None
        } else {
            let action = self.actions[self.applied as int];
            match action.path {
                PathModel::Bulk(statement) => Some(
                    CommandModel::Run { statement, rows: action.rows },
                ),
                PathModel::PerRow(statements) => match self.phase {
                    Phase::Start => Some(CommandModel::Begin),
                    Phase::Inside(n) => if n < statements.len() {
                        Some(
                            CommandModel::RunInside {
                                statement: statements[n as int],
                                row: action.rows[n as int],
                            },
                        )
                    } else {
                        Some(CommandModel::Commit)
                    },
                    Phase::Failing => Some(CommandModel::Rollback),
                },
            }
        }
    }

    /// The flush after the storage has reported on the pending command.
    ///
    /// A statement that was run by itself applies its chunk, or fails the
    /// flush. A transaction that could not be opened fails the flush; inside
    /// a transaction, each statement leads to the next and the last to the
    /// commit, which applies the chunk; a statement or a commit that fails
    /// leads to the rollback, after which the flush has failed. A report
    /// that no command waits for changes nothing.
    pub open spec fn report(self, outcome: Outcome) -> FlushModel {
        match self.command() {
            None => self,
            Some(CommandModel::Run { .. }) => match outcome {
                Outcome::Done => FlushModel { applied: self.applied + 1, ..self },
                Outcome::Failed => FlushModel { failed: true, ..self },
            },
            Some(CommandModel::Begin) => match outcome {
                Outcome::Done => FlushModel { phase: Phase::Inside(0), ..self },
                Outcome::Failed => FlushModel { failed: true, ..self },
            },
            Some(CommandModel::RunInside { .. }) => match outcome {
                Outcome::Done => FlushModel {
                    phase: Phase::Inside((self.phase->Inside_0 + 1) as usize),
                    ..self
                },
                Outcome::Failed => FlushModel { phase: Phase::Failing, ..self },
            },
            Some(CommandModel::Commit) => match outcome {
                Outcome::Done => FlushModel {
                    applied: self.applied + 1,
                    phase: Phase::Start,
                    ..self
                },
                Outcome::Failed => FlushModel { phase: Phase::Failing, ..self },
            },
            Some(CommandModel::Rollback) => FlushModel {
                phase: Phase::Start,
                failed: true,
                ..self
            },
        }
    }

    /// The rows that took effect in the storage for good: those of the
    /// applied chunks.
    pub open spec fn written(self) -> Seq<RowModel> {
        rows_of_actions(self.actions.take(self.applied as int))
    }
}

/// The flush of a plan is well formed before anything is sent.
pub proof fn lemma_fresh_wf(rows: Seq<RowModel>, size: nat)
    requires
        1 <= size <= CHUNK_ROWS,
    ensures
        FlushModel::fresh(plan(rows, size)).wf(),
{
    let flush = FlushModel::fresh(plan(rows, size));
    lemma_plan(rows, size);
    if flush.status() == FlushStatus::Pending {
        assert(flush.actions[0] == action_of(flush.actions[0].rows));
    }
}

/// A report leaves a flush well formed.
pub proof fn lemma_report_wf(flush: FlushModel, outcome: Outcome)
    requires
        flush.wf(),
    ensures
        flush.report(outcome).wf(),
{
    let after = flush.report(outcome);
    if flush.status() == FlushStatus::Pending {
        let action = flush.actions[flush.applied as int];
        assert(action == action_of(action.rows));
        if after.status() == FlushStatus::Pending && after.applied == flush.applied + 1 {
            let next = after.actions[after.applied as int];
            assert(next == action_of(next.rows));
        }
    }
}

/// The flush of one cache.
pub struct Flush {
    actions: Vec<ChunkAction>,
    applied: usize,
    phase: Phase,
    failed: bool,
}

impl View for Flush {
    type V = FlushModel;

    closed spec fn view(&self) -> FlushModel {
        FlushModel {
            actions: actions_view(self.actions@),
            applied: self.applied as nat,
            phase: self.phase,
            failed: self.failed,
        }
    }
}

impl Flush {
    /// Every flush is well formed.
    #[verifier::type_invariant]
    pub open spec fn inv(self) -> bool {
        self@.wf()
    }

    /// Starts the flush of `cache` in chunks of `CHUNK_ROWS` rows: nothing is
    /// sent yet.
    pub fn new(cache: AggregationCache) -> (flush: Flush)
        ensures
            flush@ == FlushModel::fresh(plan(cache_rows(cache@), CHUNK_ROWS as nat)),
    {
        Flush::with_chunks_of(cache, CHUNK_ROWS)
    }

    /// Starts the flush of `cache` in chunks of `size` rows.
    pub fn with_chunks_of(cache: AggregationCache, size: usize) -> (flush: Flush)
        requires
            1 <= size <= CHUNK_ROWS,
        ensures
            flush@ == FlushModel::fresh(plan(cache_rows(cache@), size as nat)),
    {
        proof {
            lemma_fresh_wf(cache_rows(cache@), size as nat);
        }
        Flush {
            actions: store_cache_chunked(cache, size),
            applied: 0,
            phase: Phase::Start,
            failed: false,
        }
    }

    /// Where the flush stands.
    pub fn status(&self) -> (r: FlushStatus)
        ensures
            r == self@.status(),
    {
        if self.failed {
            FlushStatus::Aborted
        } else if self.applied < self.actions.len() {
            FlushStatus::Pending
        } else {
            FlushStatus::Complete
        }
    }

    /// Number of chunks applied so far.
    pub fn applied(&self) -> (r: usize)
        ensures
            r == self@.applied,
    {
        self.applied
    }

    /// Number of chunks of the flush.
    pub fn chunks(&self) -> (r: usize)
        ensures
            r == self@.actions.len(),
    {
        self.actions.len()
    }

    /// The command to give the storage next. `None` once every chunk is
    /// applied, and once a chunk has failed: a failed flush sends nothing
    /// more.
    pub fn command(&self) -> (r: Option<Command<'_>>)
        ensures
            match r {
                Some(command) => self@.command() == Some(command@),
                None => self@.command() is None,
            },
    {
        proof {
            use_type_invariant(self);
        }
        if self.failed || self.applied >= self.actions.len() {
            return None;
        }
        let action = &self.actions[self.applied];
        proof {
            let model = actions_view(self.actions@)[self.applied as int];
            assert(model == action@);
            assert(model == action_of(model.rows));
        }
        match &action.path {
            UpsertPath::Bulk(statement) => Some(Command::Run { statement, rows: &action.rows }),
            UpsertPath::PerRow(statements) => match self.phase {
                Phase::Start => Some(Command::Begin),
                Phase::Inside(n) => {
                    if n < statements.len() {
                        assert(statements_view(statements@)[n as int] == statements@[n as int]@);
                        assert(rows_view(action.rows@)[n as int] == action.rows@[n as int]@);
                        Some(Command::RunInside { statement: &statements[n], row: &action.rows[n] })
                    } else {
                        Some(Command::Commit)
                    }
                },
                Phase::Failing => Some(Command::Rollback),
            },
        }
    }

    /// Takes note of what the storage made of the pending command.
    pub fn report(&mut self, outcome: Outcome)
        ensures
            final(self)@ == old(self)@.report(outcome),
    {
        proof {
            use_type_invariant(&*self);
            lemma_report_wf(self@, outcome);
        }
        if self.failed || self.applied >= self.actions.len() {
            return ;
        }
        let bulk = match &self.actions[self.applied].path {
            UpsertPath::Bulk(_) => true,
            UpsertPath::PerRow(_) => false,
        };
        let count = match &self.actions[self.applied].path {
            UpsertPath::Bulk(_) => 0,
            UpsertPath::PerRow(statements) => statements.len(),
        };
        proof {
            let model = actions_view(self.actions@)[self.applied as int];
            assert(model == self.actions@[self.applied as int]@);
        }
        let done = match outcome {
            Outcome::Done => true,
            Outcome::Failed => false,
        };
        let (applied, phase, failed) = if bulk {
            if done {
                (self.applied + 1, self.phase, false)
            } else {
                (self.applied, self.phase, true)
            }
        } else {
            match self.phase {
                Phase::Start => if done {
                    (self.applied, Phase::Inside(0), false)
                } else {
                    (self.applied, self.phase, true)
                },
                Phase::Inside(n) => if !done {
                    (self.applied, Phase::Failing, false)
                } else if n < count {
                    (self.applied, Phase::Inside(n + 1), false)
                } else {
                    (self.applied + 1, Phase::Start, false)
                },
                Phase::Failing => (self.applied, Phase::Start, true),
            }
        };
        let mut work = Flush {
            actions: Vec::new(),
            applied: 0,
            phase: Phase::Start,
            failed: false,
        };
        std::mem::swap(&mut work, self);
        let Flush { actions, applied: _, phase: _, failed: _ } = work;
        *self = Flush { actions, applied, phase, failed };
    }
}

} // verus!
