//! When a worker's state is written out: mutations are counted, batched and waited for.
//!
//! Times are nanoseconds on a clock that never goes back. The state itself and the writing of
//! it lie outside: [`StatePersistenceHandle`] says what is due and is told what was done.

use vstd::prelude::*;

verus! {

/// When a mutation is written out.
#[derive(Clone, Copy, Debug, Eq, PartialEq, Structural)]
pub enum PersistenceMode {
    /// Together with all others that come within so many nanoseconds of the first.
    Batched(u128),
    /// Before its receipt is waited for.
    Immediate,
}

/// A failure that was met while the state was written, with a number for its kind.
#[derive(Clone, Debug, Eq, PartialEq)]
pub struct StoredError {
    pub kind: u32,
    pub message: String,
}

/// Why persistence does not go on.
#[derive(Clone, Debug, Eq, PartialEq)]
pub enum PersistenceError {
    ZeroDelay,
    EpochExhausted,
    Failed(StoredError),
}

impl PersistenceMode {
    /// Checks that a batch has time to grow.
    pub fn validate(self) -> (outcome: Result<(), PersistenceError>)
        ensures
            outcome == if self == PersistenceMode::Batched(0) {
                Err::<(), PersistenceError>(PersistenceError::ZeroDelay)
            } else {
                Ok(())
            },
    {
        match self {
            PersistenceMode::Batched(delay) => {
                if delay == 0 {
                    return Err(PersistenceError::ZeroDelay);
                }
                Ok(())
            },
            PersistenceMode::Immediate => Ok(()),
        }
    }
}

/// Whether `error` tells of the failure `stored`.
pub open spec fn tells_of(error: PersistenceError, stored: StoredError) -> bool {
    match error {
        PersistenceError::Failed(told) => told.kind == stored.kind && told.message@
            == stored.message@,
        _ => false,
    }
}

impl StoredError {
    /// The failure as an error.
    pub fn to_error(&self) -> (error: PersistenceError)
        ensures
            tells_of(error, *self),
    {
        PersistenceError::Failed(StoredError { kind: self.kind, message: self.message.clone() })
    }
}

/// How far the state has been written out.
pub struct ScheduleState {
    /// The number of mutations so far.
    pub mutation_epoch: u64,
    /// The number of mutations that have been written out.
    pub persisted_epoch: u64,
    /// When the pending mutations are due.
    pub deadline: Option<u128>,
    /// Whether the pending mutations are due at once.
    pub force: bool,
    /// Whether the last write is to be the end.
    pub stopping: bool,
    /// What went wrong.
    pub failure: Option<StoredError>,
}

/// What the thread that writes the state is to do.
#[derive(Clone, Debug, Eq, PartialEq)]
pub enum Due {
    Failed(PersistenceError),
    Stop,
    Write,
    WaitUntil(u128),
    Wait,
}

/// Whether a mutation that somebody waits for has been written out.
#[derive(Clone, Debug, Eq, PartialEq)]
pub enum EpochWait {
    Reached,
    Blocked,
    Failed(PersistenceError),
}

impl ScheduleState {
    /// A schedule without mutations.
    pub open spec fn fresh() -> ScheduleState {
        ScheduleState {
            mutation_epoch: 0,
            persisted_epoch: 0,
            deadline: None,
            force: false,
            stopping: false,
            failure: None,
        }
    }

    /// No more has been written out than there was.
    pub open spec fn wf(self) -> bool {
        self.persisted_epoch <= self.mutation_epoch
    }

    /// Whether a mutation has not been written out.
    pub open spec fn pending(self) -> bool {
        self.mutation_epoch != self.persisted_epoch
    }

    /// Whether every pending mutation will come due.
    pub open spec fn armed(self) -> bool {
        self.pending() ==> self.deadline is Some || self.force || self.stopping
    }

    /// Whether the pending mutations are due at the time `now`.
    pub open spec fn due(self, now: u128) -> bool {
        self.force || self.stopping || (self.deadline matches Some(deadline) && deadline <= now)
    }

    /// After one more mutation at the time `now`. A deadline that stands is not moved.
    pub open spec fn mutated(self, mode: PersistenceMode, now: u128) -> ScheduleState {
        match mode {
            PersistenceMode::Batched(delay) => ScheduleState {
                mutation_epoch: (self.mutation_epoch + 1) as u64,
                deadline: if self.deadline is Some {
                    self.deadline
                } else {
                    Some((now + delay) as u128)
                },
                ..self
            },
            PersistenceMode::Immediate => ScheduleState {
                mutation_epoch: (self.mutation_epoch + 1) as u64,
                force: true,
                ..self
            },
        }
    }

    /// After a mutation was reported at the time `now`. After a failure, and where the count is
    /// exhausted, it is refused.
    pub open spec fn recorded(self, mode: PersistenceMode, now: u128) -> ScheduleState {
        if self.failure is None && self.mutation_epoch < u64::MAX {
            self.mutated(mode, now)
        } else {
            self
        }
    }

    /// After somebody asked for the pending mutations to be written out.
    pub open spec fn flushed(self) -> ScheduleState {
        if self.failure is None && self.persisted_epoch < self.mutation_epoch {
            ScheduleState { force: true, ..self }
        } else {
            self
        }
    }

    /// After somebody asked for the last write.
    pub open spec fn stop_requested(self) -> ScheduleState {
        ScheduleState { stopping: true, force: true, ..self }
    }

    /// After a failure.
    pub open spec fn failed(self, error: StoredError) -> ScheduleState {
        ScheduleState { failure: Some(error), ..self }
    }

    /// Whether `wait` is the answer to somebody who waits for the mutation `target`.
    pub open spec fn epoch_wait(self, target: u64, wait: EpochWait) -> bool {
        if self.persisted_epoch >= target {
            wait == EpochWait::Reached
        } else {
            match self.failure {
                None => wait == EpochWait::Blocked,
                Some(stored) => wait matches EpochWait::Failed(error) && tells_of(error, stored),
            }
        }
    }

    /// Whether `wait` is the answer to somebody who holds the receipt of the mutation `epoch`:
    /// only in immediate mode is there a write to wait for.
    pub open spec fn receipt_wait(self, mode: PersistenceMode, epoch: u64, wait: EpochWait) -> bool {
        match mode {
            PersistenceMode::Immediate => self.epoch_wait(epoch, wait),
            PersistenceMode::Batched(_) => match self.failure {
                None => wait == EpochWait::Reached,
                Some(stored) => wait matches EpochWait::Failed(error) && tells_of(error, stored),
            },
        }
    }

    /// After a look at the schedule at the time `now`, which changes nothing after a failure.
    pub open spec fn looked(self, now: u128) -> ScheduleState {
        if self.failure is None {
            self.looked_at(now)
        } else {
            self
        }
    }

    /// After a look at the schedule at the time `now` that found no failure: what is due now is
    /// taken from it.
    pub open spec fn looked_at(self, now: u128) -> ScheduleState {
        if if self.pending() {
            self.due(now)
        } else {
            !self.stopping
        } {
            ScheduleState { force: false, deadline: None, ..self }
        } else {
            self
        }
    }

    /// What a look at the schedule at the time `now` says, if there is no failure.
    pub open spec fn verdict(self, now: u128) -> Due {
        if self.pending() {
            if self.due(now) {
                Due::Write
            } else {
                match self.deadline {
                    Some(deadline) => Due::WaitUntil(deadline),
                    None => Due::Wait,
                }
            }
        } else if self.stopping {
            Due::Stop
        } else {
            Due::Wait
        }
    }

    /// After a snapshot of the first `snapshot` mutations was written out at the time `now`.
    pub open spec fn written(self, mode: PersistenceMode, snapshot: u64, now: u128) -> ScheduleState {
        let persisted = ScheduleState { persisted_epoch: snapshot, ..self };
        if self.mutation_epoch == snapshot {
            ScheduleState { deadline: None, ..persisted }
        } else if self.deadline is Some {
            persisted
        } else {
            match mode {
                PersistenceMode::Batched(delay) => ScheduleState {
                    deadline: Some((now + delay) as u128),
                    ..persisted
                },
                PersistenceMode::Immediate => ScheduleState { force: true, ..persisted },
            }
        }
    }
}

/// Whether a deadline can be set at the time `now`.
pub open spec fn delay_fits(mode: PersistenceMode, now: u128) -> bool {
    match mode {
        PersistenceMode::Batched(delay) => now + delay <= u128::MAX,
        PersistenceMode::Immediate => true,
    }
}

/// A mutation that was counted, and whether it is to be waited for.
#[derive(Debug)]
pub struct MutationReceipt {
    mutation_epoch: u64,
    wait_for_persistence: bool,
}

/// A state and the schedule by which it is written out.
pub struct StatePersistenceHandle<T> {
    state: T,
    mode: PersistenceMode,
    schedule: ScheduleState,
}

impl MutationReceipt {
    /// The number of the mutation.
    pub closed spec fn epoch(self) -> u64 {
        self.mutation_epoch
    }

    /// Whether the mutation is to be waited for.
    pub closed spec fn waits(self) -> bool {
        self.wait_for_persistence
    }

    /// The number of the mutation.
    pub fn mutation_epoch(&self) -> (epoch: u64)
        ensures
            epoch == self.epoch(),
    {
        self.mutation_epoch
    }

    /// Whether the mutation has been written out as far as its receipt demands.
    pub fn wait<T>(&self, handle: &StatePersistenceHandle<T>) -> (wait: EpochWait)
        ensures
            self.waits() ==> handle.schedule().epoch_wait(self.epoch(), wait),
            !self.waits() ==> match handle.schedule().failure {
                None => wait == EpochWait::Reached,
                Some(stored) => wait matches EpochWait::Failed(error) && tells_of(error, stored),
            },
            self.waits() == (handle.mode() is Immediate) ==> handle.schedule().receipt_wait(
                handle.mode(),
                self.epoch(),
                wait,
            ),
    {
        if self.wait_for_persistence {
            handle.wait_for_epoch(self.mutation_epoch)
        } else {
            match handle.check_health() {
                Ok(()) => EpochWait::Reached,
                Err(error) => EpochWait::Failed(error),
            }
        }
    }
}

impl<T> StatePersistenceHandle<T> {
    /// When mutations are written out.
    pub closed spec fn mode(self) -> PersistenceMode {
        self.mode
    }

    /// How far the state has been written out.
    pub closed spec fn schedule(self) -> ScheduleState {
        self.schedule
    }

    /// The state.
    pub closed spec fn inner(self) -> T {
        self.state
    }

    /// A state that counts as written out.
    pub fn new(state: T, mode: PersistenceMode) -> (outcome: Result<Self, PersistenceError>)
        ensures
            match outcome {
                Err(error) => error == PersistenceError::ZeroDelay && mode
                    == PersistenceMode::Batched(0),
                Ok(made) => {
                    &&& mode != PersistenceMode::Batched(0)
                    &&& made.inner() == state
                    &&& made.mode() == mode
                    &&& made.schedule() == ScheduleState::fresh()
                    &&& made.schedule().wf()
                    &&& made.schedule().armed()
                },
            },
    {
        match mode.validate() {
            Err(error) => Err(error),
            Ok(()) => Ok(
                StatePersistenceHandle {
                    state,
                    mode,
                    schedule: ScheduleState {
                        mutation_epoch: 0,
                        persisted_epoch: 0,
                        deadline: None,
                        force: false,
                        stopping: false,
                        failure: None,
                    },
                },
            ),
        }
    }

    /// The state.
    pub fn state(&self) -> (state: &T)
        ensures
            *state == self.inner(),
    {
        &self.state
    }

    /// Counts a mutation at the time `now`.
    pub fn record_mutation(&mut self, now: u128) -> (outcome: Result<
        MutationReceipt,
        PersistenceError,
    >)
        requires
            delay_fits(old(self).mode(), now),
        ensures
            final(self).inner() == old(self).inner(),
            final(self).mode() == old(self).mode(),
            final(self).schedule() == old(self).schedule().recorded(old(self).mode(), now),
            match outcome {
                Err(error) => {
                    &&& final(self).schedule() == old(self).schedule()
                    &&& match old(self).schedule().failure {
                        Some(stored) => tells_of(error, stored),
                        None => error == PersistenceError::EpochExhausted && old(
                            self
                        ).schedule().mutation_epoch == u64::MAX,
                    }
                },
                Ok(receipt) => {
                    &&& old(self).schedule().failure is None
                    &&& old(self).schedule().mutation_epoch < u64::MAX
                    &&& final(self).schedule() == old(self).schedule().mutated(
                        old(self).mode(),
                        now,
                    )
                    &&& receipt.epoch() == old(self).schedule().mutation_epoch + 1
                    &&& receipt.waits() == (old(self).mode() is Immediate)
                },
            },
    {
        self.check_health()?;
        if self.schedule.mutation_epoch == u64::MAX {
            return Err(PersistenceError::EpochExhausted);
        }
        self.schedule.mutation_epoch = self.schedule.mutation_epoch + 1;
        let wait_for_persistence = match self.mode {
            PersistenceMode::Batched(delay) => {
                if self.schedule.deadline.is_none() {
                    self.schedule.deadline = Some(now + delay);
                }
                false
            },
            PersistenceMode::Immediate => {
                self.schedule.force = true;
                true
            },
        };
        Ok(
            MutationReceipt { mutation_epoch: self.schedule.mutation_epoch, wait_for_persistence },
        )
    }

    /// Makes the pending mutations due at once and says which one to wait for, if there are any.
    pub fn flush(&mut self) -> (outcome: Result<Option<u64>, PersistenceError>)
        ensures
            final(self).inner() == old(self).inner(),
            final(self).mode() == old(self).mode(),
            final(self).schedule() == old(self).schedule().flushed(),
            match outcome {
                Err(error) => {
                    &&& final(self).schedule() == old(self).schedule()
                    &&& old(self).schedule().failure matches Some(stored)
                    &&& tells_of(error, stored)
                },
                Ok(None) => {
                    &&& final(self).schedule() == old(self).schedule()
                    &&& old(self).schedule().failure is None
                    &&& old(self).schedule().persisted_epoch >= old(self).schedule().mutation_epoch
                },
                Ok(Some(target)) => {
                    &&& final(self).schedule() == (ScheduleState {
                        force: true,
                        ..old(self).schedule()
                    })
                    &&& old(self).schedule().failure is None
                    &&& old(self).schedule().persisted_epoch < old(self).schedule().mutation_epoch
                    &&& target == old(self).schedule().mutation_epoch
                },
            },
    {
        self.check_health()?;
        if self.schedule.persisted_epoch >= self.schedule.mutation_epoch {
            return Ok(None);
        }
        self.schedule.force = true;
        Ok(Some(self.schedule.mutation_epoch))
    }

    /// Tells of a failure, if there was one.
    pub fn check_health(&self) -> (outcome: Result<(), PersistenceError>)
        ensures
            match (outcome, self.schedule().failure) {
                (Ok(()), None) => true,
                (Err(error), Some(stored)) => tells_of(error, stored),
                _ => false,
            },
    {
        match &self.schedule.failure {
            Some(stored) => Err(stored.to_error()),
            None => Ok(()),
        }
    }

    /// Whether the mutation `target` has been written out.
    pub fn wait_for_epoch(&self, target: u64) -> (wait: EpochWait)
        ensures
            self.schedule().epoch_wait(target, wait),
    {
        if self.schedule.persisted_epoch >= target {
            return EpochWait::Reached;
        }
        match self.check_health() {
            Ok(()) => EpochWait::Blocked,
            Err(error) => EpochWait::Failed(error),
        }
    }

    /// What the thread that writes the state is to do at the time `now`.
    fn wait_until_due(&mut self, now: u128) -> (due: Due)
        ensures
            final(self).inner() == old(self).inner(),
            final(self).mode() == old(self).mode(),
            match old(self).schedule().failure {
                Some(stored) => {
                    &&& final(self).schedule() == old(self).schedule()
                    &&& due matches Due::Failed(error)
                    &&& tells_of(error, stored)
                },
                None => {
                    &&& final(self).schedule() == old(self).schedule().looked_at(now)
                    &&& due == old(self).schedule().verdict(now)
                },
            },
    {
        if let Err(error) = self.check_health() {
            return Due::Failed(error);
        }
        let due = match self.schedule.deadline {
            Some(deadline) => deadline <= now,
            None => false,
        };
        if self.schedule.mutation_epoch == self.schedule.persisted_epoch {
            if self.schedule.stopping {
                return Due::Stop;
            }
            self.schedule.force = false;
            self.schedule.deadline = None;
            Due::Wait
        } else if self.schedule.force || self.schedule.stopping || due {
            self.schedule.force = false;
            self.schedule.deadline = None;
            Due::Write
        } else {
            match self.schedule.deadline {
                Some(deadline) => Due::WaitUntil(deadline),
                None => Due::Wait,
            }
        }
    }

    /// The number of the last mutation in a snapshot that is taken now.
    fn snapshot_epoch(&self) -> (epoch: u64)
        ensures
            epoch == self.schedule().mutation_epoch,
    {
        self.schedule.mutation_epoch
    }

    /// Notes at the time `now` that the snapshot with the first `snapshot` mutations has been
    /// written out.
    fn note_written(&mut self, snapshot: u64, now: u128)
        requires
            delay_fits(old(self).mode(), now),
        ensures
            final(self).inner() == old(self).inner(),
            final(self).mode() == old(self).mode(),
            final(self).schedule() == old(self).schedule().written(old(self).mode(), snapshot, now),
    {
        self.schedule.persisted_epoch = snapshot;
        if self.schedule.mutation_epoch == snapshot {
            self.schedule.deadline = None;
        } else if self.schedule.deadline.is_none() {
            match self.mode {
                PersistenceMode::Batched(delay) => {
                    self.schedule.deadline = Some(now + delay);
                },
                PersistenceMode::Immediate => {
                    self.schedule.force = true;
                },
            }
        }
    }

    /// Notes a failure.
    fn note_failure(&mut self, error: StoredError)
        ensures
            final(self).inner() == old(self).inner(),
            final(self).mode() == old(self).mode(),
            final(self).schedule() == old(self).schedule().failed(error),
    {
        self.schedule.failure = Some(error);
    }

    /// Asks for the last write.
    pub fn request_stop(&mut self)
        ensures
            final(self).inner() == old(self).inner(),
            final(self).mode() == old(self).mode(),
            final(self).schedule() == old(self).schedule().stop_requested(),
    {
        self.schedule.stopping = true;
        self.schedule.force = true;
    }
}

/// Where the thread that writes the state stands.
#[derive(Clone, Copy, Debug, Eq, PartialEq, Structural)]
pub enum Writer {
    /// It looks at the schedule from time to time.
    Waiting,
    /// It has to write and has not taken a snapshot yet.
    Due,
    /// It encodes and writes a snapshot with so many mutations.
    Writing(u64),
    /// It has ended with everything written out.
    Ended,
    /// It has ended with a failure.
    Failed,
}

impl Writer {
    /// Where the thread stands after a look at `schedule` at the time `now`.
    pub open spec fn looked(self, schedule: ScheduleState, now: u128) -> Writer {
        if self != Writer::Waiting {
            self
        } else if schedule.failure is Some {
            Writer::Failed
        } else {
            match schedule.verdict(now) {
                Due::Write => Writer::Due,
                Due::Stop => Writer::Ended,
                _ => Writer::Waiting,
            }
        }
    }

    /// Where the thread stands after it took a snapshot of a state with so many mutations.
    pub open spec fn snapshot_taken(self, mutation_epoch: u64) -> Writer {
        match self {
            Writer::Due => Writer::Writing(mutation_epoch),
            _ => self,
        }
    }

    /// A thread that has not looked at its schedule yet.
    pub fn new() -> (made: Self)
        ensures
            made == Writer::Waiting,
    {
        Writer::Waiting
    }

    /// Looks at the schedule at the time `now` and says what is to be done. A thread that is not
    /// waiting is told nothing new.
    pub fn look<T>(&mut self, handle: &mut StatePersistenceHandle<T>, now: u128) -> (due: Due)
        ensures
            final(handle).inner() == old(handle).inner(),
            final(handle).mode() == old(handle).mode(),
            *final(self) == old(self).looked(old(handle).schedule(), now),
            match *old(self) {
                Writer::Waiting => {
                    &&& final(handle).schedule() == old(handle).schedule().looked(now)
                    &&& match old(handle).schedule().failure {
                        Some(stored) => due matches Due::Failed(error) && tells_of(error, stored),
                        None => due == old(handle).schedule().verdict(now),
                    }
                },
                _ => final(handle).schedule() == old(handle).schedule() && due == Due::Wait,
            },
    {
        match *self {
            Writer::Waiting => {},
            _ => return Due::Wait,
        }
        let due = handle.wait_until_due(now);
        match &due {
            Due::Failed(_) => {
                *self = Writer::Failed;
            },
            Due::Stop => {
                *self = Writer::Ended;
            },
            Due::Write => {
                *self = Writer::Due;
            },
            _ => {},
        }
        due
    }

    /// Takes a snapshot: the state must not change until it has been encoded.
    pub fn snapshot<T>(&mut self, handle: &StatePersistenceHandle<T>)
        ensures
            *final(self) == old(self).snapshot_taken(handle.schedule().mutation_epoch),
    {
        if let Writer::Due = *self {
            *self = Writer::Writing(handle.snapshot_epoch());
        }
    }

    /// Notes at the time `now` that the snapshot has been written out.
    pub fn written<T>(&mut self, handle: &mut StatePersistenceHandle<T>, now: u128)
        requires
            delay_fits(old(handle).mode(), now),
        ensures
            final(handle).inner() == old(handle).inner(),
            final(handle).mode() == old(handle).mode(),
            match *old(self) {
                Writer::Writing(snapshot) => {
                    &&& *final(self) == Writer::Waiting
                    &&& final(handle).schedule() == old(handle).schedule().written(
                        old(handle).mode(),
                        snapshot,
                        now,
                    )
                },
                _ => *final(self) == *old(self) && final(handle).schedule() == old(
                    handle
                ).schedule(),
            },
    {
        if let Writer::Writing(snapshot) = *self {
            handle.note_written(snapshot, now);
            *self = Writer::Waiting;
        }
    }

    /// Notes that the snapshot could not be encoded or written, which ends the thread.
    pub fn failed<T>(&mut self, handle: &mut StatePersistenceHandle<T>, error: StoredError)
        ensures
            final(handle).inner() == old(handle).inner(),
            final(handle).mode() == old(handle).mode(),
            match *old(self) {
                Writer::Writing(_) => {
                    &&& *final(self) == Writer::Failed
                    &&& final(handle).schedule() == old(handle).schedule().failed(error)
                },
                _ => *final(self) == *old(self) && final(handle).schedule() == old(
                    handle
                ).schedule(),
            },
    {
        if let Writer::Writing(_) = *self {
            handle.note_failure(error);
            *self = Writer::Failed;
        }
    }
}

/// A step of replacing a file as a whole.
#[derive(Clone, Copy, Debug, Eq, PartialEq, Structural)]
pub enum ReplaceStep {
    /// Write the new contents to a temporary file.
    Write,
    /// Bring the temporary file to the disk.
    Sync,
    /// Put the temporary file in the place of the old one.
    Rename,
    /// Bring the change of the directory to the disk.
    SyncDirectory,
    /// Remove the temporary file.
    Discard,
}

/// How the replacement of a file goes on.
#[derive(Clone, Copy, Debug, Eq, PartialEq, Structural)]
pub enum Replacement {
    Next(ReplaceStep),
    Done,
    Failed,
}

/// How the replacement of a file goes on after a step.
pub open spec fn replacement_after(step: ReplaceStep, succeeded: bool) -> Replacement {
    match step {
        ReplaceStep::Discard => Replacement::Failed,
        _ => if !succeeded {
            Replacement::Next(ReplaceStep::Discard)
        } else {
            match step {
                ReplaceStep::Write => Replacement::Next(ReplaceStep::Sync),
                ReplaceStep::Sync => Replacement::Next(ReplaceStep::Rename),
                ReplaceStep::Rename => Replacement::Next(ReplaceStep::SyncDirectory),
                _ => Replacement::Done,
            }
        },
    }
}

/// How the replacement of a file, which begins with writing, goes on after a step.
pub fn replace_file_next(step: ReplaceStep, succeeded: bool) -> (next: Replacement)
    ensures
        next == replacement_after(step, succeeded),
{
    match step {
        ReplaceStep::Discard => Replacement::Failed,
        ReplaceStep::Write => if succeeded {
            Replacement::Next(ReplaceStep::Sync)
        } else {
            Replacement::Next(ReplaceStep::Discard)
        },
        ReplaceStep::Sync => if succeeded {
            Replacement::Next(ReplaceStep::Rename)
        } else {
            Replacement::Next(ReplaceStep::Discard)
        },
        ReplaceStep::Rename => if succeeded {
            Replacement::Next(ReplaceStep::SyncDirectory)
        } else {
            Replacement::Next(ReplaceStep::Discard)
        },
        ReplaceStep::SyncDirectory => if succeeded {
            Replacement::Done
        } else {
            Replacement::Next(ReplaceStep::Discard)
        },
    }
}

/// A file is replaced only by contents that are whole and on the disk, and a replacement is done
/// only once the directory is on the disk too.
pub proof fn lemma_replacement_is_atomic(step: ReplaceStep, succeeded: bool)
    ensures
        replacement_after(step, succeeded) == Replacement::Next(ReplaceStep::Rename) ==> step
            == ReplaceStep::Sync && succeeded,
        replacement_after(step, succeeded) == Replacement::Next(ReplaceStep::Sync) ==> step
            == ReplaceStep::Write && succeeded,
        replacement_after(step, succeeded) == Replacement::Done ==> step
            == ReplaceStep::SyncDirectory && succeeded,
{
}

/// No more is ever written out than there was: mutations, looks and completed writes keep it so.
pub proof fn lemma_persisted_never_leads(
    schedule: ScheduleState,
    mode: PersistenceMode,
    now: u128,
    snapshot: u64,
)
    requires
        schedule.wf(),
        schedule.mutation_epoch < u64::MAX,
        snapshot <= schedule.mutation_epoch,
    ensures
        schedule.mutated(mode, now).wf(),
        schedule.looked_at(now).wf(),
        schedule.written(mode, snapshot, now).wf(),
{
}

/// Mutations coalesce without moving the first deadline of their batch.
pub proof fn lemma_first_deadline_stands(schedule: ScheduleState, delay: u128, first: u128, later: u128)
    requires
        schedule.mutation_epoch + 2 <= u64::MAX,
        schedule.deadline is None,
        first + delay <= u128::MAX,
        later + delay <= u128::MAX,
    ensures
        schedule.mutated(PersistenceMode::Batched(delay), first).mutated(
            PersistenceMode::Batched(delay),
            later,
        ).deadline == Some((first + delay) as u128),
{
}

/// A mutation never waits for nothing: counting it arms the schedule, and so does the end of a
/// write that it came too late for.
pub proof fn lemma_mutations_come_due(
    schedule: ScheduleState,
    mode: PersistenceMode,
    now: u128,
    snapshot: u64,
)
    requires
        schedule.mutation_epoch < u64::MAX,
    ensures
        schedule.mutated(mode, now).armed(),
        schedule.written(mode, snapshot, now).armed(),
        schedule.armed() && schedule.pending() ==> !(schedule.verdict(now) is Wait)
            && !(schedule.verdict(now) is Stop),
{
}

/// At its deadline a batch is written.
pub proof fn lemma_batch_is_written_at_its_deadline(schedule: ScheduleState, now: u128)
    requires
        schedule.pending(),
        schedule.deadline is Some,
        schedule.deadline->0 <= now,
    ensures
        schedule.verdict(now) == Due::Write,
{
}

/// Stopping forces a pending batch out, whatever its deadline, and then ends.
pub proof fn lemma_stop_forces_pending_batch(schedule: ScheduleState, now: u128)
    requires
        schedule.stopping,
    ensures
        schedule.pending() ==> schedule.verdict(now) == Due::Write,
        !schedule.pending() ==> schedule.verdict(now) == Due::Stop,
{
}

/// A failure stays: no mutation, look, completed write, flush or request to stop takes it away.
pub proof fn lemma_failure_is_sticky(
    schedule: ScheduleState,
    mode: PersistenceMode,
    now: u128,
    snapshot: u64,
)
    requires
        schedule.failure is Some,
    ensures
        schedule.mutated(mode, now).failure == schedule.failure,
        schedule.looked_at(now).failure == schedule.failure,
        schedule.written(mode, snapshot, now).failure == schedule.failure,
        schedule.recorded(mode, now) == schedule,
        schedule.looked(now) == schedule,
        schedule.flushed() == schedule,
        schedule.stop_requested().failure == schedule.failure,
{
}

} // verus!
