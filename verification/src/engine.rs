//! The migration engine: one run as a machine of states, events and actions.
//!
//! The engine never reads or writes a store. It says what is to be done
//! next (an [`Action`]) and is told what came of it (an [`Event`]).

use vstd::prelude::*;
use crate::key::OrderedKey;
use crate::record::Record;
use crate::writer::BatchWriter;

verus! {

/// Where a run stands.
#[derive(Clone, Copy, Debug, PartialEq, Eq, Structural)]
pub enum Phase {
    /// Configured, not started.
    Idle,
    /// Waiting for the stored resume key.
    Resuming,
    /// Waiting for the source to be opened after the resume key.
    Opening,
    /// Waiting for the next element of the source.
    Streaming,
    /// Waiting for the target's answer on a full batch.
    Flushing,
    /// The source is exhausted; waiting for the target's answer on the
    /// last, partial batch.
    Draining,
    /// Finished: the total is final.
    Completed,
    /// Stopped by a failed write to the target.
    Aborted,
}

/// What the caller reports to the engine.
pub enum Event<D> {
    /// The stored resume key was looked up; `None` where none is stored.
    Resumed { found: Option<OrderedKey> },
    /// The source is open.
    Opened,
    /// The source could not be opened.
    SourceUnavailable,
    /// The source gave a record.
    Item { record: Record<D> },
    /// The source gave an element that could not be read.
    ReadFailed,
    /// The source has no more elements.
    Exhausted,
    /// The target took the batch and confirmed `accepted` of its records.
    Flushed { accepted: u64 },
    /// The write to the target failed as a whole.
    WriteFailed,
}

/// What the engine asks the caller to do next.
pub enum Action<D> {
    /// Look up the stored resume key, then report `Resumed`.
    ReadCheckpoint,
    /// Open the source strictly after `after`, for at most `limit` records
    /// where a limit is given; then report `Opened` or `SourceUnavailable`.
    Open { after: OrderedKey, limit: Option<i64> },
    /// Take the next element of the source and report it.
    Pull,
    /// Report the unreadable element to diagnostics, then do as for `Pull`.
    Skip,
    /// Write `batch` to the target in one bulk operation and report
    /// `Flushed` or `WriteFailed`.
    Flush { batch: Vec<Record<D>> },
    /// Store `key` as the resume key (a failure is a warning, no more),
    /// then do as for `Pull`.
    Advance { key: OrderedKey },
    /// Store `advance` as the resume key where there is one; the run is
    /// complete with `total` records accepted.
    Finish { advance: Option<OrderedKey>, total: u64 },
    /// The run is over after a failed write; `total` records had been
    /// accepted before it.
    Abort { total: u64 },
}

/// An [`Action`] as contracts see it: a batch is the sequence of its records.
pub enum ActionView<D> {
    ReadCheckpoint,
    Open { after: OrderedKey, limit: Option<i64> },
    Pull,
    Skip,
    Flush { batch: Seq<Record<D>> },
    Advance { key: OrderedKey },
    Finish { advance: Option<OrderedKey>, total: u64 },
    Abort { total: u64 },
}

impl<D> View for Action<D> {
    type V = ActionView<D>;

    open spec fn view(&self) -> ActionView<D> {
        match *self {
            Action::ReadCheckpoint => ActionView::ReadCheckpoint,
            Action::Open { after, limit } => ActionView::Open { after, limit },
            Action::Pull => ActionView::Pull,
            Action::Skip => ActionView::Skip,
            Action::Flush { batch } => ActionView::Flush { batch: batch@ },
            Action::Advance { key } => ActionView::Advance { key },
            Action::Finish { advance, total } => ActionView::Finish { advance, total },
            Action::Abort { total } => ActionView::Abort { total },
        }
    }
}

/// Why the engine refused an event.
#[derive(Clone, Copy, Debug, PartialEq, Eq, Structural)]
pub enum EngineError {
    /// The event cannot come in the phase the run is in.
    UnexpectedEvent,
}

/// The state of a run as contracts see it.
pub struct ExportView<D> {
    pub phase: Phase,
    pub batch_size: int,
    pub limit: Option<i64>,
    /// The resume key as far as the run knows it: the one read at the
    /// start, then the last key of each batch that the target took.
    pub resume: OrderedKey,
    /// The last key of the batch that is being written.
    pub in_flight: OrderedKey,
    pub pending: Seq<Record<D>>,
    /// How many records the target has accepted.
    pub total: int,
    /// How many batches the target has taken.
    pub flushes: int,
}

impl<D> ExportView<D> {
    /// A positive batch size is never reached by what is pending.
    pub open spec fn valid(self) -> bool {
        self.batch_size > 0 ==> self.pending.len() < self.batch_size
    }

    /// The state of a run that has not started.
    pub open spec fn idle(batch_size: int, limit: Option<i64>) -> ExportView<D> {
        ExportView {
            phase: Phase::Idle,
            batch_size,
            limit,
            resume: OrderedKey::min_spec(),
            in_flight: OrderedKey::min_spec(),
            pending: Seq::empty(),
            total: 0,
            flushes: 0,
        }
    }

    /// The state in which the machine waits for `Resumed`.
    pub open spec fn started(self) -> ExportView<D> {
        ExportView { phase: Phase::Resuming, ..self }
    }
}

/// The resume key for what the store holds: the stored key, or the minimum
/// where nothing is stored.
pub open spec fn resume_key_spec(found: Option<OrderedKey>) -> OrderedKey {
    match found {
        Some(key) => key,
        None => OrderedKey::min_spec(),
    }
}

/// Whether `event` can come in the phase of `s`.
pub open spec fn expected<D>(s: ExportView<D>, event: Event<D>) -> bool {
    match (s.phase, event) {
        (Phase::Resuming, Event::Resumed { .. }) => true,
        (Phase::Opening, Event::Opened) => true,
        (Phase::Opening, Event::SourceUnavailable) => true,
        (Phase::Streaming, Event::Item { .. }) => true,
        (Phase::Streaming, Event::ReadFailed) => true,
        (Phase::Streaming, Event::Exhausted) => true,
        (Phase::Flushing, Event::Flushed { .. }) => true,
        (Phase::Flushing, Event::WriteFailed) => true,
        (Phase::Draining, Event::Flushed { .. }) => true,
        (Phase::Draining, Event::WriteFailed) => true,
        _ => false,
    }
}

/// The state after `event`, where it is expected; the state itself where
/// it is not.
pub open spec fn next_state<D>(s: ExportView<D>, event: Event<D>) -> ExportView<D> {
    match (s.phase, event) {
        (Phase::Resuming, Event::Resumed { found }) => ExportView {
            phase: Phase::Opening,
            resume: resume_key_spec(found),
            ..s
        },
        (Phase::Opening, Event::Opened) => ExportView { phase: Phase::Streaming, ..s },
        (Phase::Opening, Event::SourceUnavailable) => ExportView { phase: Phase::Completed, ..s },
        (Phase::Streaming, Event::Item { record }) => if s.pending.len() + 1 == s.batch_size {
            ExportView {
                phase: Phase::Flushing,
                in_flight: record.key,
                pending: Seq::empty(),
                ..s
            }
        } else {
            ExportView { pending: s.pending.push(record), ..s }
        },
        (Phase::Streaming, Event::ReadFailed) => s,
        (Phase::Streaming, Event::Exhausted) => if s.pending.len() > 0 {
            ExportView {
                phase: Phase::Draining,
                in_flight: s.pending.last().key,
                pending: Seq::empty(),
                ..s
            }
        } else {
            ExportView { phase: Phase::Completed, ..s }
        },
        (Phase::Flushing, Event::Flushed { accepted }) => ExportView {
            phase: Phase::Streaming,
            resume: s.in_flight,
            total: s.total + accepted,
            flushes: s.flushes + 1,
            ..s
        },
        (Phase::Draining, Event::Flushed { accepted }) => ExportView {
            phase: Phase::Completed,
            resume: s.in_flight,
            total: s.total + accepted,
            flushes: s.flushes + 1,
            ..s
        },
        (Phase::Flushing, Event::WriteFailed) => ExportView { phase: Phase::Aborted, ..s },
        (Phase::Draining, Event::WriteFailed) => ExportView { phase: Phase::Aborted, ..s },
        _ => s,
    }
}

/// What the engine asks for after an expected `event`.
pub open spec fn next_action<D>(s: ExportView<D>, event: Event<D>) -> ActionView<D> {
    match (s.phase, event) {
        (Phase::Resuming, Event::Resumed { found }) => ActionView::Open {
            after: resume_key_spec(found),
            limit: s.limit,
        },
        (Phase::Opening, Event::SourceUnavailable) => ActionView::Finish {
            advance: None,
            total: s.total as u64,
        },
        (Phase::Streaming, Event::Item { record }) => if s.pending.len() + 1 == s.batch_size {
            ActionView::Flush { batch: s.pending.push(record) }
        } else {
            ActionView::Pull
        },
        (Phase::Streaming, Event::ReadFailed) => ActionView::Skip,
        (Phase::Streaming, Event::Exhausted) => if s.pending.len() > 0 {
            ActionView::Flush { batch: s.pending }
        } else {
            ActionView::Finish { advance: None, total: s.total as u64 }
        },
        (Phase::Flushing, Event::Flushed { accepted }) => ActionView::Advance { key: s.in_flight },
        (Phase::Draining, Event::Flushed { accepted }) => ActionView::Finish {
            advance: Some(s.in_flight),
            total: (s.total + accepted) as u64,
        },
        (Phase::Flushing, Event::WriteFailed) => ActionView::Abort { total: s.total as u64 },
        (Phase::Draining, Event::WriteFailed) => ActionView::Abort { total: s.total as u64 },
        _ => ActionView::Pull,
    }
}

/// Whether the counts of records and of batches stay within `u64` when
/// `event` is taken in `s`.
pub open spec fn total_fits<D>(s: ExportView<D>, event: Event<D>) -> bool {
    match event {
        Event::Flushed { accepted } => s.total + accepted <= u64::MAX && s.flushes < u64::MAX,
        _ => true,
    }
}

/// How far a run has come: what a progress report holds.
#[derive(Clone, Copy, Debug, PartialEq, Eq, Structural)]
pub struct Progress {
    pub batches_flushed: u64,
    pub total_accepted: u64,
}

/// The resume key to start from, given what the store holds for the
/// collection: on a first run nothing is stored, and that is no error.
pub fn resume_key(found: Option<OrderedKey>) -> (key: OrderedKey)
    ensures
        key == resume_key_spec(found),
{
    match found {
        Some(key) => key,
        None => OrderedKey::min(),
    }
}

/// One migration run.
pub struct Export<D> {
    batch_size: i32,
    limit_backup: Option<i64>,
    phase: Phase,
    resume: OrderedKey,
    in_flight: OrderedKey,
    total: u64,
    flushes: u64,
    writer: BatchWriter<D>,
}

impl<D> View for Export<D> {
    type V = ExportView<D>;

    closed spec fn view(&self) -> ExportView<D> {
        ExportView {
            phase: self.phase,
            batch_size: self.batch_size as int,
            limit: self.limit_backup,
            resume: self.resume,
            in_flight: self.in_flight,
            pending: self.writer@,
            total: self.total as int,
            flushes: self.flushes as int,
        }
    }
}

impl<D> Export<D> {
    /// What every run keeps true of itself.
    pub closed spec fn wf(&self) -> bool {
        &&& self.writer.wf()
        &&& self.writer.batch_size() == self.batch_size as int
    }

    /// A run of batches of `batch_size` records, over at most
    /// `limit_backup` records where a limit is given.
    pub fn init(batch_size: i32, limit_backup: Option<i64>) -> (run: Self)
        ensures
            run.wf(),
            run@ == ExportView::<D>::idle(batch_size as int, limit_backup),
    {
        Export {
            batch_size,
            limit_backup,
            phase: Phase::Idle,
            resume: OrderedKey::min(),
            in_flight: OrderedKey::min(),
            total: 0,
            flushes: 0,
            writer: BatchWriter::new(batch_size),
        }
    }

    /// Where the run stands.
    pub fn phase(&self) -> (phase: Phase)
        ensures
            phase == self@.phase,
    {
        self.phase
    }

    /// How many records the target has accepted so far.
    pub fn total(&self) -> (total: u64)
        ensures
            total == self@.total,
    {
        self.total
    }

    /// How many batches the target has taken and how many records it has
    /// accepted: what a progress report holds.
    pub fn progress(&self) -> (p: Progress)
        ensures
            p.batches_flushed == self@.flushes,
            p.total_accepted == self@.total,
    {
        Progress { batches_flushed: self.flushes, total_accepted: self.total }
    }

    /// The resume key as far as the run knows it.
    pub fn last_key(&self) -> (key: OrderedKey)
        ensures
            key == self@.resume,
    {
        self.resume
    }

    /// The number of records in a full batch.
    pub fn batch_size(&self) -> (n: i32)
        ensures
            n == self@.batch_size,
    {
        self.batch_size
    }

    /// The most records that the run asks the source for, if it is bounded.
    pub fn limit_backup(&self) -> (limit: Option<i64>)
        ensures
            limit == self@.limit,
    {
        self.limit_backup
    }

    /// How many records are waiting for their batch to fill.
    pub fn pending(&self) -> (n: usize)
        ensures
            n == self@.pending.len(),
    {
        self.writer.len()
    }

    /// Whether `step` can take `event` without the total leaving `u64`.
    pub fn can_take(&self, event: &Event<D>) -> (r: bool)
        ensures
            r == total_fits(self@, *event),
    {
        match event {
            Event::Flushed { accepted } => *accepted <= u64::MAX - self.total && self.flushes
                < u64::MAX,
            _ => true,
        }
    }

    /// Starts the run: asks for the stored resume key. A run that was
    /// started before is left as it is.
    pub fn start_export(&mut self) -> (r: Result<Action<D>, EngineError>)
        requires
            old(self).wf(),
        ensures
            final(self).wf(),
            final(self)@.valid(),
            old(self)@.phase == Phase::Idle ==> r is Ok && r->Ok_0@ == ActionView::<D>::ReadCheckpoint
                && final(self)@ == old(self)@.started(),
            old(self)@.phase != Phase::Idle ==> r == Err::<Action<D>, EngineError>(
                EngineError::UnexpectedEvent,
            ) && final(self)@ == old(self)@,
    {
        match self.phase {
            Phase::Idle => {
                self.phase = Phase::Resuming;
                Ok(Action::ReadCheckpoint)
            },
            _ => Err(EngineError::UnexpectedEvent),
        }
    }

    /// Takes one event and says what is to be done next. An event that
    /// cannot come in the current phase is refused and changes nothing.
    pub fn step(&mut self, event: Event<D>) -> (r: Result<Action<D>, EngineError>)
        requires
            old(self).wf(),
            total_fits(old(self)@, event),
        ensures
            final(self).wf(),
            final(self)@.valid(),
            final(self)@ == next_state(old(self)@, event),
            expected(old(self)@, event) ==> r is Ok && r->Ok_0@ == next_action(old(self)@, event),
            !expected(old(self)@, event) ==> r == Err::<Action<D>, EngineError>(
                EngineError::UnexpectedEvent,
            ),
    {
        match (self.phase, event) {
            (Phase::Resuming, Event::Resumed { found }) => {
                let after = resume_key(found);
                self.resume = after;
                self.phase = Phase::Opening;
                Ok(Action::Open { after, limit: self.limit_backup })
            },
            (Phase::Opening, Event::Opened) => {
                self.phase = Phase::Streaming;
                Ok(Action::Pull)
            },
            (Phase::Opening, Event::SourceUnavailable) => {
                self.phase = Phase::Completed;
                Ok(Action::Finish { advance: None, total: self.total })
            },
            (Phase::Streaming, Event::Item { record }) => {
                let key = record.key;
                match self.writer.push(record) {
                    Some(batch) => {
                        self.in_flight = key;
                        self.phase = Phase::Flushing;
                        Ok(Action::Flush { batch })
                    },
                    None => Ok(Action::Pull),
                }
            },
            (Phase::Streaming, Event::ReadFailed) => Ok(Action::Skip),
            (Phase::Streaming, Event::Exhausted) => {
                match self.writer.flush_remaining() {
                    Some(batch) => {
                        let last: usize = batch.len() - 1;
                        self.in_flight = batch[last].key;
                        self.phase = Phase::Draining;
                        Ok(Action::Flush { batch })
                    },
                    None => {
                        self.phase = Phase::Completed;
                        Ok(Action::Finish { advance: None, total: self.total })
                    },
                }
            },
            (Phase::Flushing, Event::Flushed { accepted }) => {
                self.total = self.total + accepted;
                self.flushes = self.flushes + 1;
                self.resume = self.in_flight;
                self.phase = Phase::Streaming;
                Ok(Action::Advance { key: self.in_flight })
            },
            (Phase::Draining, Event::Flushed { accepted }) => {
                self.total = self.total + accepted;
                self.flushes = self.flushes + 1;
                self.resume = self.in_flight;
                self.phase = Phase::Completed;
                Ok(Action::Finish { advance: Some(self.in_flight), total: self.total })
            },
            (Phase::Flushing, Event::WriteFailed) => {
                self.phase = Phase::Aborted;
                Ok(Action::Abort { total: self.total })
            },
            (Phase::Draining, Event::WriteFailed) => {
                self.phase = Phase::Aborted;
                Ok(Action::Abort { total: self.total })
            },
            _ => Err(EngineError::UnexpectedEvent),
        }
    }
}

/// A run that is completed or aborted takes no further event: whatever
/// comes is refused and the state, with its total and its resume key,
/// stays as it is.
pub proof fn law_terminal<D>(s: ExportView<D>, event: Event<D>)
    requires
        s.phase == Phase::Completed || s.phase == Phase::Aborted,
    ensures
        !expected(s, event),
        next_state(s, event) == s,
{
}

/// A failed write ends the run where it stands: nothing more is accepted,
/// and the resume key is the one that the last written batch left.
pub proof fn law_abort<D>(s: ExportView<D>)
    requires
        s.phase == Phase::Flushing || s.phase == Phase::Draining,
    ensures
        next_state(s, Event::<D>::WriteFailed).phase == Phase::Aborted,
        next_state(s, Event::<D>::WriteFailed).total == s.total,
        next_state(s, Event::<D>::WriteFailed).flushes == s.flushes,
        next_state(s, Event::<D>::WriteFailed).resume == s.resume,
        next_action(s, Event::<D>::WriteFailed) == (ActionView::<D>::Abort { total: s.total as u64 }),
{
}

/// However few records of a batch the target accepted, the resume key
/// moves to the batch's last key, and the total grows by what was accepted.
pub proof fn law_partial_write<D>(s: ExportView<D>, accepted: u64)
    requires
        s.phase == Phase::Flushing || s.phase == Phase::Draining,
    ensures
        next_state(s, Event::<D>::Flushed { accepted }).resume == s.in_flight,
        next_state(s, Event::<D>::Flushed { accepted }).total == s.total + accepted,
        stored_key(next_action(s, Event::<D>::Flushed { accepted })) == Some(s.in_flight),
{
}

/// The resume key that an action asks to store, if it asks for one.
pub open spec fn stored_key<D>(action: ActionView<D>) -> Option<OrderedKey> {
    match action {
        ActionView::Advance { key } => Some(key),
        ActionView::Finish { advance, .. } => advance,
        _ => None,
    }
}

} // verus!
