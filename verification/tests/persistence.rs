use usb_gadget_supervisor::persistence::{
    replace_file_next, Due, EpochWait, PersistenceError, PersistenceMode, ReplaceStep,
    Replacement, StatePersistenceHandle, StoredError, Writer,
};

const MILLISECOND: u128 = 1_000_000;

/// A handle whose state is written by hand, with a clock that is set by hand.
struct Bench {
    handle: StatePersistenceHandle<()>,
    writer: Writer,
    state: u64,
    now: u128,
    writes: usize,
    last: Vec<u8>,
}

impl Bench {
    fn new(mode: PersistenceMode) -> Self {
        Bench {
            handle: StatePersistenceHandle::new((), mode).unwrap(),
            writer: Writer::new(),
            state: 0,
            now: 0,
            writes: 0,
            last: Vec::new(),
        }
    }

    fn write_what_is_due(&mut self) -> Due {
        loop {
            let due = self.look();
            if due != Due::Write {
                return due;
            }
            self.begin_write();
            self.end_write();
        }
    }

    fn look(&mut self) -> Due {
        self.writer.look(&mut self.handle, self.now)
    }

    fn begin_write(&mut self) {
        self.writer.snapshot(&self.handle);
        self.writes += 1;
        self.last = self.state.to_be_bytes().to_vec();
    }

    fn end_write(&mut self) {
        self.writer.written(&mut self.handle, self.now);
    }
}

fn failure() -> StoredError {
    StoredError {
        kind: 7,
        message: "injected persistence failure".to_owned(),
    }
}

#[test]
fn batched_mutations_coalesce_without_extending_the_first_deadline() {
    let mut bench = Bench::new(PersistenceMode::Batched(80 * MILLISECOND));
    bench.state = 1;
    bench.handle.record_mutation(bench.now).unwrap();
    assert_eq!(bench.write_what_is_due(), Due::WaitUntil(80 * MILLISECOND));
    bench.now = 60 * MILLISECOND;
    bench.state = 2;
    bench.handle.record_mutation(bench.now).unwrap();
    assert_eq!(bench.write_what_is_due(), Due::WaitUntil(80 * MILLISECOND));
    bench.now += 50 * MILLISECOND;
    assert_eq!(bench.write_what_is_due(), Due::Wait);
    assert_eq!(bench.handle.flush(), Ok(None));
    assert_eq!(bench.writes, 1);
    assert_eq!(bench.last, 2_u64.to_be_bytes());
    bench.handle.request_stop();
    assert_eq!(bench.write_what_is_due(), Due::Stop);
}

#[test]
fn mutation_during_a_write_schedules_the_latest_snapshot() {
    let mut bench = Bench::new(PersistenceMode::Batched(10 * MILLISECOND));
    bench.state = 1;
    bench.handle.record_mutation(bench.now).unwrap();
    bench.now = 10 * MILLISECOND;
    assert_eq!(bench.look(), Due::Write);
    bench.begin_write();
    bench.state = 2;
    let second = bench.handle.record_mutation(bench.now).unwrap();
    bench.end_write();
    assert_eq!(second.wait(&bench.handle), EpochWait::Reached);
    assert_eq!(bench.handle.flush(), Ok(Some(2)));
    assert_eq!(bench.handle.wait_for_epoch(2), EpochWait::Blocked);
    assert_eq!(bench.write_what_is_due(), Due::Wait);
    assert_eq!(bench.handle.wait_for_epoch(2), EpochWait::Reached);
    assert_eq!(bench.writes, 2);
    assert_eq!(bench.last, 2_u64.to_be_bytes());
}

#[test]
fn immediate_mode_waits_for_each_mutation() {
    let mut bench = Bench::new(PersistenceMode::Immediate);
    for expected_epoch in 1..=3 {
        bench.state = expected_epoch;
        let receipt = bench.handle.record_mutation(bench.now).unwrap();
        assert_eq!(receipt.mutation_epoch(), expected_epoch);
        assert_eq!(receipt.wait(&bench.handle), EpochWait::Blocked);
        assert_eq!(bench.write_what_is_due(), Due::Wait);
        assert_eq!(receipt.wait(&bench.handle), EpochWait::Reached);
        assert_eq!(bench.writes, expected_epoch as usize);
    }
}

#[test]
fn persistence_failure_is_sticky_and_signalled() {
    let mut bench = Bench::new(PersistenceMode::Immediate);
    bench.state = 1;
    let receipt = bench.handle.record_mutation(bench.now).unwrap();
    assert_eq!(bench.look(), Due::Write);
    bench.begin_write();
    bench.writer.failed(&mut bench.handle, failure());
    assert_eq!(bench.writer, Writer::Failed);
    let told = PersistenceError::Failed(failure());
    assert_eq!(receipt.wait(&bench.handle), EpochWait::Failed(told.clone()));
    assert_eq!(bench.handle.record_mutation(0).unwrap_err(), told);
    assert_eq!(bench.handle.flush(), Err(told.clone()));
    assert_eq!(bench.handle.check_health(), Err(told.clone()));
    bench.handle.request_stop();
    let other = StoredError {
        kind: 8,
        message: "another failure".to_owned(),
    };
    bench.writer.failed(&mut bench.handle, other);
    assert_eq!(bench.handle.check_health(), Err(told.clone()));
    assert_eq!(bench.look(), Due::Wait);
    let mut late = Writer::new();
    assert_eq!(late.look(&mut bench.handle, 0), Due::Failed(told));
    assert_eq!(late, Writer::Failed);
}

#[test]
fn flush_of_nothing_costs_no_write() {
    let mut bench = Bench::new(PersistenceMode::Batched(10 * MILLISECOND));
    assert_eq!(bench.handle.flush(), Ok(None));
    assert_eq!(bench.write_what_is_due(), Due::Wait);
    assert_eq!(bench.writes, 0);
    bench.handle.record_mutation(bench.now).unwrap();
    assert_eq!(bench.handle.flush(), Ok(Some(1)));
    assert_eq!(bench.write_what_is_due(), Due::Wait);
    assert_eq!(bench.handle.flush(), Ok(None));
    assert_eq!(bench.write_what_is_due(), Due::Wait);
    assert_eq!(bench.writes, 1);
}

#[test]
fn writer_takes_no_step_out_of_turn() {
    let mut bench = Bench::new(PersistenceMode::Immediate);
    bench.handle.record_mutation(0).unwrap();
    bench.end_write();
    bench.writer.snapshot(&bench.handle);
    bench.writer.failed(&mut bench.handle, failure());
    assert_eq!(bench.writer, Writer::Waiting);
    assert_eq!(bench.handle.wait_for_epoch(1), EpochWait::Blocked);
    assert_eq!(bench.look(), Due::Write);
    assert_eq!(bench.writer, Writer::Due);
    bench.handle.record_mutation(0).unwrap();
    bench.begin_write();
    assert_eq!(bench.writer, Writer::Writing(2));
    bench.end_write();
    assert_eq!(bench.handle.wait_for_epoch(2), EpochWait::Reached);
    assert_eq!(bench.look(), Due::Wait);
    bench.handle.request_stop();
    assert_eq!(bench.look(), Due::Stop);
    assert_eq!(bench.writer, Writer::Ended);
}

#[test]
fn shutdown_forces_a_pending_batch() {
    let mut bench = Bench::new(PersistenceMode::Batched(30_000 * MILLISECOND));
    bench.state = 1;
    bench.handle.record_mutation(bench.now).unwrap();
    bench.handle.request_stop();
    assert_eq!(bench.write_what_is_due(), Due::Stop);
    assert_eq!(bench.writes, 1);
}

#[test]
fn immediate_mutation_during_a_write_forces_another() {
    let mut bench = Bench::new(PersistenceMode::Immediate);
    bench.handle.record_mutation(0).unwrap();
    assert_eq!(bench.look(), Due::Write);
    bench.begin_write();
    let receipt = bench.handle.record_mutation(0).unwrap();
    bench.end_write();
    assert_eq!(receipt.wait(&bench.handle), EpochWait::Blocked);
    assert_eq!(bench.look(), Due::Write);
}

#[test]
fn a_batch_needs_time() {
    assert_eq!(
        PersistenceMode::Batched(0).validate(),
        Err(PersistenceError::ZeroDelay)
    );
    assert_eq!(PersistenceMode::Batched(1).validate(), Ok(()));
    assert!(StatePersistenceHandle::new(5_u8, PersistenceMode::Batched(0)).is_err());
    let handle = StatePersistenceHandle::new(5_u8, PersistenceMode::Immediate).unwrap();
    assert_eq!(*handle.state(), 5);
    assert_eq!(handle.check_health(), Ok(()));
}

#[test]
fn files_are_replaced_as_a_whole() {
    let next = |step| Replacement::Next(step);
    assert_eq!(replace_file_next(ReplaceStep::Write, true), next(ReplaceStep::Sync));
    assert_eq!(replace_file_next(ReplaceStep::Sync, true), next(ReplaceStep::Rename));
    assert_eq!(replace_file_next(ReplaceStep::Rename, true), next(ReplaceStep::SyncDirectory));
    assert_eq!(replace_file_next(ReplaceStep::SyncDirectory, true), Replacement::Done);
    for step in [
        ReplaceStep::Write,
        ReplaceStep::Sync,
        ReplaceStep::Rename,
        ReplaceStep::SyncDirectory,
    ] {
        assert_eq!(replace_file_next(step, false), next(ReplaceStep::Discard));
    }
    assert_eq!(replace_file_next(ReplaceStep::Discard, true), Replacement::Failed);
}
