//! What holds over whole runs of persistence: any calls of those who share the state, between any
//! steps of the thread that writes it.
//!
//! A run is told by its [`Call`]s. Those who share the state make
//! [`record_mutation`](crate::persistence::StatePersistenceHandle::record_mutation),
//! [`flush`](crate::persistence::StatePersistenceHandle::flush) and
//! [`request_stop`](crate::persistence::StatePersistenceHandle::request_stop); the thread makes the steps of a
//! [`Writer`].

use crate::persistence::{
    Due, EpochWait, PersistenceMode, ScheduleState, StoredError, Writer,
};
use vstd::prelude::*;

verus! {

/// Something that happens in a run. What only asks, such as a look at the health or a wait,
/// changes nothing and is none.
pub enum Call<V> {
    /// Somebody changes the state to a value and reports the mutation at a time.
    Record(V, u128),
    /// Somebody asks for the pending mutations to be written out.
    Flush,
    /// Somebody asks for the last write.
    Stop,
    /// The thread looks at the schedule at a time.
    Look(u128),
    /// The thread takes a snapshot.
    Snapshot,
    /// The thread's write has succeeded at a time.
    Written(u128),
    /// The thread's encoding or write has failed.
    Failed(StoredError),
}

/// How far a run has come.
#[verifier::ext_equal]
pub struct Run<V> {
    pub schedule: ScheduleState,
    pub writer: Writer,
    /// The state.
    pub state: V,
    /// The state as each counted mutation left it, behind the state at the beginning.
    pub values: Seq<V>,
    /// The state in the last snapshot.
    pub snapshot: V,
    /// The writes that have succeeded: the number of mutations in each, and the state.
    pub written: Seq<(u64, V)>,
}

/// A run in which nothing has happened.
pub open spec fn opened<V>(state: V) -> Run<V> {
    Run {
        schedule: ScheduleState::fresh(),
        writer: Writer::Waiting,
        state,
        values: seq![state],
        snapshot: state,
        written: seq![],
    }
}

/// Whether a mutation that is reported now is counted.
pub open spec fn counts<V>(run: Run<V>) -> bool {
    run.schedule.failure is None && run.schedule.mutation_epoch < u64::MAX
}

/// A run after a call. The thread takes no step that is not its turn.
pub open spec fn after_call<V>(mode: PersistenceMode, run: Run<V>, call: Call<V>) -> Run<V> {
    match call {
        Call::Record(value, now) => Run {
            schedule: run.schedule.recorded(mode, now),
            state: value,
            values: if counts(run) {
                run.values.push(value)
            } else {
                run.values
            },
            ..run
        },
        Call::Flush => Run { schedule: run.schedule.flushed(), ..run },
        Call::Stop => Run { schedule: run.schedule.stop_requested(), ..run },
        Call::Look(now) => if run.writer == Writer::Waiting {
            Run {
                schedule: run.schedule.looked(now),
                writer: run.writer.looked(run.schedule, now),
                ..run
            }
        } else {
            run
        },
        Call::Snapshot => if run.writer == Writer::Due {
            Run {
                writer: run.writer.snapshot_taken(run.schedule.mutation_epoch),
                snapshot: run.state,
                ..run
            }
        } else {
            run
        },
        Call::Written(now) => match run.writer {
            Writer::Writing(snapshot) => Run {
                schedule: run.schedule.written(mode, snapshot, now),
                writer: Writer::Waiting,
                written: run.written.push((snapshot, run.snapshot)),
                ..run
            },
            _ => run,
        },
        Call::Failed(error) => match run.writer {
            Writer::Writing(_) => Run {
                schedule: run.schedule.failed(error),
                writer: Writer::Failed,
                ..run
            },
            _ => run,
        },
    }
}

/// A run after some calls.
pub open spec fn carried_on<V>(mode: PersistenceMode, run: Run<V>, calls: Seq<Call<V>>) -> Run<V>
    decreases calls.len(),
{
    if calls.len() == 0 {
        run
    } else {
        after_call(mode, carried_on(mode, run, calls.drop_last()), calls.last())
    }
}

/// A run from its beginning.
pub open spec fn history<V>(mode: PersistenceMode, start: V, calls: Seq<Call<V>>) -> Run<V> {
    carried_on(mode, opened(start), calls)
}

/// Whether a write of a snapshot with the mutation `epoch` has succeeded.
pub open spec fn covered<V>(run: Run<V>, epoch: u64) -> bool {
    exists|i: int| 0 <= i < run.written.len() && #[trigger] run.written[i].0 >= epoch
}

/// Whether the thread's encoding or write failed with `error` at a position in a run.
pub open spec fn failed_at<V>(
    mode: PersistenceMode,
    start: V,
    calls: Seq<Call<V>>,
    at: int,
    error: StoredError,
) -> bool {
    &&& 0 <= at < calls.len()
    &&& calls[at] == Call::<V>::Failed(error)
    &&& history(mode, start, calls.take(at)).writer is Writing
}

/// What holds at every point of every run.
pub open spec fn sound<V>(mode: PersistenceMode, run: Run<V>) -> bool {
    let schedule = run.schedule;
    // Each mutation is counted once, and each write brings something new.
    &&& run.values.len() == schedule.mutation_epoch + 1
    &&& schedule.wf()
    &&& schedule.persisted_epoch == (if run.written.len() == 0 {
        0
    } else {
        run.written.last().0
    })
    &&& forall|i: int| 0 <= i < run.written.len() ==> #[trigger] run.written[i].0 > 0
    &&& forall|i: int, j: int|
        0 <= i < j < run.written.len() ==> #[trigger] run.written[i].0 < #[trigger] run.written[j].0
    // What is written is the state that the last mutation in it left.
    &&& counts(run) ==> run.state == run.values.last()
    &&& run.writer matches Writer::Writing(epoch) ==> epoch < u64::MAX ==> run.snapshot
        == run.values[epoch as int]
    &&& forall|i: int|
        0 <= i < run.written.len() && (#[trigger] run.written[i]).0 < u64::MAX ==> run.written[i].1
            == run.values[run.written[i].0 as int]
    // The thread writes only what is pending, and ends at its failure.
    &&& run.writer == Writer::Due ==> schedule.pending()
    &&& run.writer matches Writer::Writing(epoch) ==> schedule.persisted_epoch < epoch
        <= schedule.mutation_epoch
    &&& schedule.failure is Some <==> run.writer == Writer::Failed
    // A thread that waits will come to every pending mutation.
    &&& run.writer == Writer::Waiting ==> schedule.armed()
    &&& mode == PersistenceMode::Immediate ==> schedule.deadline is None
}

/// Every write so far has no more mutations than the last one.
proof fn lemma_writes_grow<V>(mode: PersistenceMode, run: Run<V>, i: int)
    requires
        sound(mode, run),
        0 <= i < run.written.len(),
    ensures
        run.written[i].0 <= run.schedule.persisted_epoch,
{
    let last = run.written.len() - 1;
    if i < last {
        assert(run.written[i].0 < run.written[last].0);
    }
}

/// A call keeps a run sound.
proof fn lemma_call_keeps_soundness<V>(mode: PersistenceMode, run: Run<V>, call: Call<V>)
    requires
        sound(mode, run),
    ensures
        sound(mode, after_call(mode, run, call)),
{
    let after = after_call(mode, run, call);
    assert forall|i: int| 0 <= i < run.written.len() implies #[trigger] run.written[i].0
        <= run.schedule.persisted_epoch by {
        lemma_writes_grow(mode, run, i);
    }
    match call {
        Call::Record(value, now) => {
            if counts(run) {
                assert forall|k: int| 0 <= k < run.values.len() implies after.values[k]
                    == run.values[k] by {}
            }
        },
        Call::Written(now) => {
            if let Writer::Writing(snapshot) = run.writer {
                assert forall|i: int| 0 <= i < after.written.len() implies after.written[i] == (
                if i < run.written.len() {
                    run.written[i]
                } else {
                    (snapshot, run.snapshot)
                }) by {}
                assert(after.written.last() == (snapshot, run.snapshot));
            }
        },
        _ => {},
    }
}

/// Calls keep a run sound.
proof fn lemma_calls_keep_soundness<V>(mode: PersistenceMode, run: Run<V>, calls: Seq<Call<V>>)
    requires
        sound(mode, run),
    ensures
        sound(mode, carried_on(mode, run, calls)),
    decreases calls.len(),
{
    if calls.len() > 0 {
        lemma_calls_keep_soundness(mode, run, calls.drop_last());
        lemma_call_keeps_soundness(
            mode,
            carried_on(mode, run, calls.drop_last()),
            calls.last(),
        );
    }
}

/// Whatever is called, and however the steps of the thread fall between the calls, a run stays
/// sound.
pub proof fn lemma_every_run_is_sound<V>(
    mode: PersistenceMode,
    start: V,
    calls: Seq<Call<V>>,
)
    ensures
        sound(mode, history(mode, start, calls)),
{
    lemma_calls_keep_soundness(mode, opened(start), calls);
}

/// Calls that follow calls.
proof fn lemma_calls_follow<V>(
    mode: PersistenceMode,
    run: Run<V>,
    calls: Seq<Call<V>>,
    more: Seq<Call<V>>,
)
    ensures
        carried_on(mode, run, calls + more) == carried_on(
            mode,
            carried_on(mode, run, calls),
            more,
        ),
    decreases more.len(),
{
    if more.len() == 0 {
        assert(calls + more =~= calls);
    } else {
        assert((calls + more).drop_last() =~= calls + more.drop_last());
        assert((calls + more).last() == more.last());
        lemma_calls_follow(mode, run, calls, more.drop_last());
    }
}

/// A mutation counts as written out exactly where a snapshot with it has been written.
proof fn lemma_persisted_means_covered<V>(mode: PersistenceMode, run: Run<V>, epoch: u64)
    requires
        sound(mode, run),
        0 < epoch,
    ensures
        run.schedule.persisted_epoch >= epoch <==> covered(run, epoch),
{
    if run.schedule.persisted_epoch >= epoch {
        let last = run.written.len() - 1;
        assert(run.written[last].0 >= epoch);
    }
    if covered(run, epoch) {
        let i = choose|i: int|
            0 <= i < run.written.len() && #[trigger] run.written[i].0 >= epoch;
        lemma_writes_grow(mode, run, i);
    }
}

/// In immediate mode a receipt is reached exactly once a write of a snapshot with its mutation has
/// succeeded, and it fails only where an encoding or a write has failed.
pub proof fn lemma_immediate_receipt_means_a_write<V>(
    start: V,
    calls: Seq<Call<V>>,
    epoch: u64,
    wait: EpochWait,
)
    requires
        0 < epoch,
        history(PersistenceMode::Immediate, start, calls).schedule.receipt_wait(
            PersistenceMode::Immediate,
            epoch,
            wait,
        ),
    ensures
        wait == EpochWait::Reached <==> covered(
            history(PersistenceMode::Immediate, start, calls),
            epoch,
        ),
        wait is Failed ==> exists|at: int, error: StoredError|
            failed_at(PersistenceMode::Immediate, start, calls, at, error),
{
    let mode = PersistenceMode::Immediate;
    let run = history(mode, start, calls);
    lemma_every_run_is_sound(mode, start, calls);
    lemma_persisted_means_covered(mode, run, epoch);
    if wait is Failed {
        lemma_health_tells_of_the_failure(mode, start, calls, run.schedule.failure->0);
    }
}

/// Whether each mutation of a run is reported only once all before it have been written out, as
/// where each receipt is waited for before the next mutation.
pub open spec fn in_rounds<V>(mode: PersistenceMode, start: V, calls: Seq<Call<V>>) -> bool {
    forall|i: int|
        0 <= i < calls.len() && (#[trigger] calls[i]) is Record ==> !history(
            mode,
            start,
            calls.take(i),
        ).schedule.pending()
}

/// Rounds of reporting a mutation and waiting for it cost one write each.
pub proof fn lemma_rounds_cost_one_write_each<V>(
    mode: PersistenceMode,
    start: V,
    calls: Seq<Call<V>>,
)
    requires
        in_rounds(mode, start, calls),
    ensures
        ({
            let run = history(mode, start, calls);
            &&& run.written.len() == run.schedule.persisted_epoch
            &&& run.schedule.mutation_epoch <= run.schedule.persisted_epoch + 1
            &&& !run.schedule.pending() ==> run.written.len() == run.schedule.mutation_epoch
        }),
    decreases calls.len(),
{
    if calls.len() > 0 {
        let init = calls.drop_last();
        assert forall|i: int| 0 <= i < init.len() && (#[trigger] init[i]) is Record implies !history(
            mode,
            start,
            init.take(i),
        ).schedule.pending() by {
            assert(calls[i] is Record);
            assert(init.take(i) =~= calls.take(i));
        }
        lemma_rounds_cost_one_write_each(mode, start, init);
        lemma_every_run_is_sound(mode, start, init);
        if calls.last() is Record {
            assert(calls[calls.len() - 1] is Record);
            assert(calls.take(calls.len() - 1) =~= init);
        }
    }
}

/// In immediate mode a mutation is due whenever the thread looks, and the round that follows
/// writes the state that it left.
pub proof fn lemma_immediate_round<V>(
    start: V,
    calls: Seq<Call<V>>,
    value: V,
    reported: u128,
    looked: u128,
    written: u128,
)
    requires
        counts(history(PersistenceMode::Immediate, start, calls)),
        history(PersistenceMode::Immediate, start, calls).writer == Writer::Waiting,
    ensures
        ({
            let mode = PersistenceMode::Immediate;
            let before = history(mode, start, calls);
            let recorded = after_call(mode, before, Call::Record(value, reported));
            let round = seq![
                Call::Record(value, reported),
                Call::Look(looked),
                Call::Snapshot,
                Call::Written(written),
            ];
            let after = history(mode, start, calls + round);
            let epoch = (before.schedule.mutation_epoch + 1) as u64;
            &&& recorded.schedule.verdict(looked) == Due::Write
            &&& after.written == before.written.push((epoch, value))
            &&& after.schedule.persisted_epoch == epoch
            &&& !after.schedule.pending()
            &&& after.writer == Writer::Waiting
        }),
{
    let mode = PersistenceMode::Immediate;
    let before = history(mode, start, calls);
    let round: Seq<Call<V>> = seq![
        Call::Record(value, reported),
        Call::Look(looked),
        Call::Snapshot,
        Call::Written(written),
    ];
    lemma_every_run_is_sound(mode, start, calls);
    lemma_calls_follow(mode, opened(start), calls, round);
    lemma_one_write(mode, before, Call::Record(value, reported), looked, written);
}

/// What a call and a write behind it come to, step by step.
proof fn lemma_one_write<V>(
    mode: PersistenceMode,
    run: Run<V>,
    call: Call<V>,
    looked: u128,
    written: u128,
)
    ensures
        carried_on(
            mode,
            run,
            seq![call, Call::Look(looked), Call::Snapshot, Call::Written(written)],
        ) == after_call(
            mode,
            after_call(
                mode,
                after_call(mode, after_call(mode, run, call), Call::Look(looked)),
                Call::Snapshot,
            ),
            Call::Written(written),
        ),
{
    let four = seq![call, Call::Look(looked), Call::Snapshot, Call::Written(written)];
    let three = seq![call, Call::Look(looked), Call::Snapshot];
    let two = seq![call, Call::Look(looked)];
    let one = seq![call];
    assert(four.drop_last() =~= three);
    assert(three.drop_last() =~= two);
    assert(two.drop_last() =~= one);
    assert(one.drop_last() =~= seq![]);
    reveal_with_fuel(carried_on, 2);
    assert(carried_on(mode, run, one) == after_call(mode, run, call));
    assert(carried_on(mode, run, two) == after_call(
        mode,
        carried_on(mode, run, one),
        Call::Look(looked),
    ));
    assert(carried_on(mode, run, three) == after_call(
        mode,
        carried_on(mode, run, two),
        Call::Snapshot,
    ));
}

/// In batched mode a receipt waits for no write: it is reached at once, or fails where a failure
/// has been noted.
pub proof fn lemma_batched_receipt_waits_for_no_write<V>(
    delay: u128,
    start: V,
    calls: Seq<Call<V>>,
    epoch: u64,
    wait: EpochWait,
)
    requires
        history(PersistenceMode::Batched(delay), start, calls).schedule.receipt_wait(
            PersistenceMode::Batched(delay),
            epoch,
            wait,
        ),
    ensures
        wait != EpochWait::Blocked,
        wait is Failed <==> exists|at: int, error: StoredError|
            failed_at(PersistenceMode::Batched(delay), start, calls, at, error),
{
    let mode = PersistenceMode::Batched(delay);
    let run = history(mode, start, calls);
    if run.schedule.failure is Some {
        lemma_health_tells_of_the_failure(mode, start, calls, run.schedule.failure->0);
    }
    if exists|at: int, error: StoredError| failed_at(mode, start, calls, at, error) {
        let (at, error) = choose|at: int, error: StoredError|
            failed_at(mode, start, calls, at, error);
        lemma_health_tells_of_the_failure(mode, start, calls, error);
    }
}

/// A flush that succeeds has every mutation before it written out, and one that fails tells of an
/// encoding or a write that failed.
pub proof fn lemma_flush_means_everything_written<V>(
    mode: PersistenceMode,
    start: V,
    calls: Seq<Call<V>>,
    more: Seq<Call<V>>,
    epoch: u64,
    wait: EpochWait,
)
    requires
        0 < epoch <= history(mode, start, calls).schedule.mutation_epoch,
        history(mode, start, calls.push(Call::Flush) + more).schedule.epoch_wait(
            history(mode, start, calls).schedule.mutation_epoch,
            wait,
        ),
    ensures
        wait == EpochWait::Reached ==> covered(
            history(mode, start, calls.push(Call::Flush) + more),
            epoch,
        ),
        wait is Failed ==> exists|at: int, error: StoredError|
            failed_at(mode, start, calls.push(Call::Flush) + more, at, error),
{
    let whole = calls.push(Call::Flush) + more;
    let run = history(mode, start, whole);
    lemma_every_run_is_sound(mode, start, whole);
    lemma_persisted_means_covered(mode, run, epoch);
    if wait is Failed {
        lemma_health_tells_of_the_failure(mode, start, whole, run.schedule.failure->0);
    }
}

/// Where nothing is pending, everything has been written out and a flush changes nothing.
pub proof fn lemma_flush_of_nothing_changes_nothing<V>(
    mode: PersistenceMode,
    start: V,
    calls: Seq<Call<V>>,
)
    requires
        !history(mode, start, calls).schedule.pending(),
    ensures
        history(mode, start, calls.push(Call::Flush)) == history(mode, start, calls),
        forall|epoch: u64|
            0 < epoch <= history(mode, start, calls).schedule.mutation_epoch
                ==> #[trigger] covered(history(mode, start, calls), epoch),
{
    let run = history(mode, start, calls);
    lemma_every_run_is_sound(mode, start, calls);
    assert(calls.push(Call::Flush).drop_last() =~= calls);
    assert forall|epoch: u64|
        0 < epoch <= run.schedule.mutation_epoch implies #[trigger] covered(run, epoch) by {
        lemma_persisted_means_covered(mode, run, epoch);
    }
}

/// A flush makes the pending mutations due at once.
pub proof fn lemma_flush_is_due_at_once<V>(
    mode: PersistenceMode,
    start: V,
    calls: Seq<Call<V>>,
    now: u128,
)
    requires
        history(mode, start, calls).schedule.pending(),
        history(mode, start, calls).writer == Writer::Waiting,
    ensures
        history(mode, start, calls.push(Call::Flush)).schedule.verdict(now) == Due::Write,
{
    lemma_every_run_is_sound(mode, start, calls);
    assert(calls.push(Call::Flush).drop_last() =~= calls);
}

/// Where nothing is pending, nothing is written before the next mutation, whatever else is called.
pub proof fn lemma_no_write_without_a_mutation<V>(
    mode: PersistenceMode,
    start: V,
    calls: Seq<Call<V>>,
    more: Seq<Call<V>>,
)
    requires
        !history(mode, start, calls).schedule.pending(),
        forall|i: int| 0 <= i < more.len() ==> !((#[trigger] more[i]) is Record),
    ensures
        history(mode, start, calls + more).written == history(mode, start, calls).written,
        !history(mode, start, calls + more).schedule.pending(),
    decreases more.len(),
{
    if more.len() == 0 {
        assert(calls + more =~= calls);
    } else {
        let init = more.drop_last();
        assert forall|i: int| 0 <= i < init.len() implies !((#[trigger] init[i]) is Record) by {
            assert(init[i] == more[i]);
        }
        lemma_no_write_without_a_mutation(mode, start, calls, init);
        lemma_every_run_is_sound(mode, start, calls + init);
        assert((calls + more).drop_last() =~= calls + init);
        assert((calls + more).last() == more.last());
        assert(!(more[more.len() - 1] is Record));
    }
}

/// Whether nothing is pending and nothing is due: the thread waits for the first mutation of a
/// batch.
pub open spec fn quiet<V>(run: Run<V>) -> bool {
    &&& run.writer == Writer::Waiting
    &&& !run.schedule.pending()
    &&& run.schedule.deadline is None
    &&& !run.schedule.force
    &&& !run.schedule.stopping
}

/// Whether a call belongs to a batch that grows until `deadline`.
pub open spec fn batches<V>(call: Call<V>, deadline: u128) -> bool {
    match call {
        Call::Record(_, _) => true,
        Call::Look(now) => now < deadline,
        _ => false,
    }
}

/// How many of some calls report a mutation.
pub open spec fn mutations<V>(calls: Seq<Call<V>>) -> nat
    decreases calls.len(),
{
    if calls.len() == 0 {
        0
    } else {
        mutations(calls.drop_last()) + if calls.last() is Record {
            1nat
        } else {
            0nat
        }
    }
}

/// A batch grows without a write and without moving the deadline of its first mutation.
proof fn lemma_batch_grows<V>(
    delay: u128,
    run: Run<V>,
    value: V,
    first: u128,
    more: Seq<Call<V>>,
)
    requires
        sound(PersistenceMode::Batched(delay), run),
        quiet(run),
        first + delay <= u128::MAX,
        forall|i: int|
            0 <= i < more.len() ==> batches(#[trigger] more[i], (first + delay) as u128),
        run.schedule.mutation_epoch + 1 + mutations(more) <= u64::MAX,
    ensures
        ({
            let mode = PersistenceMode::Batched(delay);
            let grown = carried_on(
                mode,
                after_call(mode, run, Call::Record(value, first)),
                more,
            );
            &&& grown.writer == Writer::Waiting
            &&& grown.written == run.written
            &&& grown.schedule.persisted_epoch == run.schedule.persisted_epoch
            &&& grown.schedule.mutation_epoch == run.schedule.mutation_epoch + 1 + mutations(more)
            &&& grown.schedule.deadline == Some((first + delay) as u128)
            &&& !grown.schedule.force
            &&& !grown.schedule.stopping
            &&& grown.schedule.failure is None
        }),
    decreases more.len(),
{
    if more.len() > 0 {
        let init = more.drop_last();
        assert forall|i: int| 0 <= i < init.len() implies batches(
            #[trigger] init[i],
            (first + delay) as u128,
        ) by {
            assert(init[i] == more[i]);
        }
        lemma_batch_grows(delay, run, value, first, init);
        assert(batches(more[more.len() - 1], (first + delay) as u128));
    }
}

/// Mutations that come before the deadline of the first cost one write, of the latest state, once
/// that deadline has passed: no later mutation moves it, and no look before it writes.
pub proof fn lemma_batch_costs_one_write<V>(
    delay: u128,
    start: V,
    calls: Seq<Call<V>>,
    value: V,
    first: u128,
    more: Seq<Call<V>>,
    looked: u128,
    written: u128,
)
    requires
        quiet(history(PersistenceMode::Batched(delay), start, calls)),
        first + delay <= looked,
        forall|i: int|
            0 <= i < more.len() ==> batches(#[trigger] more[i], (first + delay) as u128),
        history(PersistenceMode::Batched(delay), start, calls).schedule.mutation_epoch + 1
            + mutations(more) <= u64::MAX,
    ensures
        ({
            let mode = PersistenceMode::Batched(delay);
            let before = history(mode, start, calls);
            let grown = history(mode, start, calls.push(Call::Record(value, first)) + more);
            let write = seq![Call::Look(looked), Call::Snapshot, Call::Written(written)];
            let after = history(mode, start, calls.push(Call::Record(value, first)) + more + write);
            &&& grown.written == before.written
            &&& grown.schedule.deadline == Some((first + delay) as u128)
            &&& grown.schedule.mutation_epoch == before.schedule.mutation_epoch + 1 + mutations(
                more,
            )
            &&& after.written == before.written.push((grown.schedule.mutation_epoch, grown.state))
            &&& quiet(after)
        }),
{
    let mode = PersistenceMode::Batched(delay);
    let before = history(mode, start, calls);
    let recorded = calls.push(Call::Record(value, first));
    let write: Seq<Call<V>> = seq![Call::Look(looked), Call::Snapshot, Call::Written(written)];
    lemma_every_run_is_sound(mode, start, calls);
    assert(recorded.drop_last() =~= calls);
    lemma_calls_follow(mode, opened(start), recorded, more);
    lemma_calls_follow(mode, opened(start), recorded + more, write);
    lemma_batch_grows(delay, before, value, first, more);
    let grown = history(mode, start, recorded + more);
    lemma_write_steps(mode, grown, looked, written);
}

/// What a write comes to, step by step.
proof fn lemma_write_steps<V>(mode: PersistenceMode, run: Run<V>, looked: u128, written: u128)
    ensures
        carried_on(mode, run, seq![Call::Look(looked), Call::Snapshot, Call::Written(written)])
            == after_call(
            mode,
            after_call(mode, after_call(mode, run, Call::Look(looked)), Call::Snapshot),
            Call::Written(written),
        ),
{
    let three: Seq<Call<V>> = seq![Call::Look(looked), Call::Snapshot, Call::Written(written)];
    let two: Seq<Call<V>> = seq![Call::Look(looked), Call::Snapshot];
    let one: Seq<Call<V>> = seq![Call::Look(looked)];
    assert(three.drop_last() =~= two);
    assert(two.drop_last() =~= one);
    assert(one.drop_last() =~= seq![]);
    reveal_with_fuel(carried_on, 2);
    assert(carried_on(mode, run, one) == after_call(mode, run, Call::Look(looked)));
    assert(carried_on(mode, run, two) == after_call(
        mode,
        carried_on(mode, run, one),
        Call::Snapshot,
    ));
}

/// A failure is noted exactly where the thread's encoding or write has failed with it.
pub proof fn lemma_health_tells_of_the_failure<V>(
    mode: PersistenceMode,
    start: V,
    calls: Seq<Call<V>>,
    error: StoredError,
)
    ensures
        history(mode, start, calls).schedule.failure == Some(error) <==> exists|at: int|
            failed_at(mode, start, calls, at, error),
    decreases calls.len(),
{
    if calls.len() > 0 {
        let init = calls.drop_last();
        let last = calls.len() - 1;
        let before = history(mode, start, init);
        lemma_health_tells_of_the_failure(mode, start, init, error);
        lemma_every_run_is_sound(mode, start, init);
        assert(calls.take(last) =~= init);
        if exists|at: int| failed_at(mode, start, init, at, error) {
            let at = choose|at: int| failed_at(mode, start, init, at, error);
            assert(calls.take(at) =~= init.take(at));
            assert(failed_at(mode, start, calls, at, error));
        }
        if exists|at: int| failed_at(mode, start, calls, at, error) {
            let at = choose|at: int| failed_at(mode, start, calls, at, error);
            if at < last {
                assert(calls.take(at) =~= init.take(at));
                assert(failed_at(mode, start, init, at, error));
            }
        }
        if history(mode, start, calls).schedule.failure == Some(error)
            && before.schedule.failure is None {
            assert(failed_at(mode, start, calls, last, error));
        }
    }
}

/// The first failure stays: whatever is called behind it, the same failure is told of, nothing
/// more is written and no mutation is counted.
pub proof fn lemma_first_failure_stays<V>(
    mode: PersistenceMode,
    start: V,
    calls: Seq<Call<V>>,
    more: Seq<Call<V>>,
)
    requires
        history(mode, start, calls).schedule.failure is Some,
    ensures
        ({
            let before = history(mode, start, calls);
            let after = history(mode, start, calls + more);
            &&& after.schedule.failure == before.schedule.failure
            &&& after.schedule.mutation_epoch == before.schedule.mutation_epoch
            &&& after.schedule.persisted_epoch == before.schedule.persisted_epoch
            &&& after.written == before.written
            &&& after.writer == Writer::Failed
        }),
    decreases more.len(),
{
    lemma_every_run_is_sound(mode, start, calls);
    if more.len() == 0 {
        assert(calls + more =~= calls);
    } else {
        assert((calls + more).drop_last() =~= calls + more.drop_last());
        assert((calls + more).last() == more.last());
        lemma_first_failure_stays(mode, start, calls, more.drop_last());
    }
}

/// No failure follows one.
pub proof fn lemma_failure_comes_once<V>(
    mode: PersistenceMode,
    start: V,
    calls: Seq<Call<V>>,
    first: int,
    second: int,
    error: StoredError,
    other: StoredError,
)
    requires
        failed_at(mode, start, calls, first, error),
        failed_at(mode, start, calls, second, other),
    ensures
        first == second,
        error == other,
{
    if first < second {
        lemma_second_failure_is_none(mode, start, calls, first, second, error);
    } else if second < first {
        lemma_second_failure_is_none(mode, start, calls, second, first, other);
    }
}

proof fn lemma_second_failure_is_none<V>(
    mode: PersistenceMode,
    start: V,
    calls: Seq<Call<V>>,
    first: int,
    second: int,
    error: StoredError,
)
    requires
        failed_at(mode, start, calls, first, error),
        first < second < calls.len(),
    ensures
        history(mode, start, calls.take(second)).writer == Writer::Failed,
{
    let upto = calls.take(first + 1);
    let more = calls.subrange(first + 1, second);
    assert(upto.drop_last() =~= calls.take(first));
    assert(upto.last() == calls[first]);
    assert(upto + more =~= calls.take(second));
    lemma_first_failure_stays(mode, start, upto, more);
}

/// A write marks as written out what its snapshot holds and nothing else: a mutation that was
/// reported meanwhile stays pending, and the thread will come to it.
pub proof fn lemma_write_covers_its_snapshot_only<V>(
    mode: PersistenceMode,
    start: V,
    calls: Seq<Call<V>>,
    snapshot: u64,
    epoch: u64,
    now: u128,
)
    requires
        history(mode, start, calls).writer == Writer::Writing(snapshot),
        0 < epoch <= history(mode, start, calls).schedule.mutation_epoch,
    ensures
        ({
            let after = history(mode, start, calls.push(Call::Written(now)));
            &&& covered(after, epoch) <==> epoch <= snapshot
            &&& after.schedule.mutation_epoch == history(mode, start, calls).schedule.mutation_epoch
            &&& after.writer == Writer::Waiting
            &&& after.schedule.armed()
            &&& snapshot < epoch ==> after.schedule.pending()
        }),
{
    let whole = calls.push(Call::Written(now));
    assert(whole.drop_last() =~= calls);
    lemma_every_run_is_sound(mode, start, calls);
    lemma_every_run_is_sound(mode, start, whole);
    lemma_persisted_means_covered(mode, history(mode, start, whole), epoch);
}

/// A mutation that is reported during a write is written next: with a flush behind it there are
/// two writes, the second of the latest state.
pub proof fn lemma_mutation_during_a_write_is_written_next<V>(
    mode: PersistenceMode,
    start: V,
    calls: Seq<Call<V>>,
    snapshot: u64,
    value: V,
    reported: u128,
    first: u128,
    looked: u128,
    second: u128,
)
    requires
        history(mode, start, calls).writer == Writer::Writing(snapshot),
        history(mode, start, calls).schedule.mutation_epoch < u64::MAX,
    ensures
        ({
            let before = history(mode, start, calls);
            let epoch = (before.schedule.mutation_epoch + 1) as u64;
            let meanwhile = calls.push(Call::Record(value, reported)).push(Call::Written(first));
            let write = seq![
                Call::Flush,
                Call::Look(looked),
                Call::Snapshot,
                Call::Written(second),
            ];
            let after = history(mode, start, meanwhile + write);
            &&& after.written == before.written.push((snapshot, before.snapshot)).push(
                (epoch, value),
            )
            &&& after.schedule.persisted_epoch == epoch
            &&& !after.schedule.pending()
        }),
{
    let before = history(mode, start, calls);
    let recorded = calls.push(Call::Record(value, reported));
    let meanwhile = recorded.push(Call::Written(first));
    let write: Seq<Call<V>> = seq![
        Call::Flush,
        Call::Look(looked),
        Call::Snapshot,
        Call::Written(second),
    ];
    lemma_every_run_is_sound(mode, start, calls);
    assert(recorded.drop_last() =~= calls);
    assert(meanwhile.drop_last() =~= recorded);
    let run = history(mode, start, meanwhile);
    assert(history(mode, start, recorded) == after_call(
        mode,
        before,
        Call::Record(value, reported),
    ));
    assert(run == after_call(
        mode,
        after_call(mode, before, Call::Record(value, reported)),
        Call::Written(first),
    ));
    lemma_calls_follow(mode, opened(start), meanwhile, write);
    lemma_one_write(mode, run, Call::Flush, looked, second);
}

/// Whether the thread ended at a position in a run: it was to stop, it had not failed, and every
/// mutation until then had been written out.
pub open spec fn ended_at<V>(
    mode: PersistenceMode,
    start: V,
    calls: Seq<Call<V>>,
    at: int,
) -> bool {
    let run = history(mode, start, calls.take(at));
    &&& 0 <= at < calls.len()
    &&& calls[at] is Look
    &&& run.schedule.stopping
    &&& run.schedule.failure is None
    &&& forall|epoch: u64|
        0 < epoch <= run.schedule.mutation_epoch ==> #[trigger] covered(run, epoch)
}

/// The thread ends well only when it is to stop and everything has been written out.
pub proof fn lemma_thread_ends_with_everything_written<V>(
    mode: PersistenceMode,
    start: V,
    calls: Seq<Call<V>>,
)
    requires
        history(mode, start, calls).writer == Writer::Ended,
    ensures
        exists|at: int| ended_at(mode, start, calls, at),
    decreases calls.len(),
{
    if calls.len() > 0 {
        let init = calls.drop_last();
        let last = calls.len() - 1;
        let before = history(mode, start, init);
        lemma_every_run_is_sound(mode, start, init);
        assert(calls.take(last) =~= init);
        if before.writer == Writer::Ended {
            lemma_thread_ends_with_everything_written(mode, start, init);
            let at = choose|at: int| ended_at(mode, start, init, at);
            assert(calls.take(at) =~= init.take(at));
            assert(ended_at(mode, start, calls, at));
        } else {
            assert forall|epoch: u64|
                0 < epoch <= before.schedule.mutation_epoch implies #[trigger] covered(
                before,
                epoch,
            ) by {
                lemma_persisted_means_covered(mode, before, epoch);
            }
            assert(ended_at(mode, start, calls, last));
        }
    }
}

/// A thread that is to stop writes what is pending, and ends where nothing is.
pub proof fn lemma_stop_writes_and_ends<V>(
    mode: PersistenceMode,
    start: V,
    calls: Seq<Call<V>>,
    now: u128,
)
    requires
        history(mode, start, calls).schedule.stopping,
        history(mode, start, calls).writer == Writer::Waiting,
    ensures
        history(mode, start, calls.push(Call::Look(now))).writer == (if history(
            mode,
            start,
            calls,
        ).schedule.pending() {
            Writer::Due
        } else {
            Writer::Ended
        }),
{
    lemma_every_run_is_sound(mode, start, calls);
    assert(calls.push(Call::Look(now)).drop_last() =~= calls);
}

/// A thread that has nothing to do yet sleeps until the deadline of the pending mutations and no
/// longer; without pending mutations it sleeps until it is woken.
pub proof fn lemma_thread_sleeps_until_the_deadline(schedule: ScheduleState, now: u128)
    ensures
        schedule.pending() && !schedule.force && !schedule.stopping ==> {
            &&& schedule.deadline matches Some(deadline) ==> schedule.verdict(now) == (if deadline
                <= now {
                Due::Write
            } else {
                Due::WaitUntil(deadline)
            })
            &&& schedule.deadline is None ==> schedule.verdict(now) == Due::Wait
        },
        schedule.pending() && (schedule.force || schedule.stopping) ==> schedule.verdict(now)
            == Due::Write,
        !schedule.pending() ==> schedule.verdict(now) == (if schedule.stopping {
            Due::Stop
        } else {
            Due::Wait
        }),
        schedule.pending() <==> schedule.mutation_epoch != schedule.persisted_epoch,
{
}

/// What each call does to the schedule.
pub proof fn lemma_schedule_changes(
    schedule: ScheduleState,
    mode: PersistenceMode,
    now: u128,
    snapshot: u64,
)
    requires
        schedule.failure is None,
        schedule.mutation_epoch < u64::MAX,
        mode matches PersistenceMode::Batched(delay) ==> now + delay <= u128::MAX,
    ensures
        ({
            let after = schedule.recorded(mode, now);
            &&& after.mutation_epoch == schedule.mutation_epoch + 1
            &&& after.persisted_epoch == schedule.persisted_epoch
            &&& after.stopping == schedule.stopping
            &&& after.failure is None
            &&& mode matches PersistenceMode::Batched(delay) ==> after.force == schedule.force
                && after.deadline == (match schedule.deadline {
                None => Some((now + delay) as u128),
                Some(deadline) => Some(deadline),
            })
            &&& mode is Immediate ==> after.force && after.deadline == schedule.deadline
        }),
        ({
            let after = schedule.written(mode, snapshot, now);
            &&& after.mutation_epoch == schedule.mutation_epoch
            &&& after.persisted_epoch == snapshot
            &&& after.stopping == schedule.stopping
            &&& after.failure is None
            &&& schedule.mutation_epoch == snapshot ==> after.deadline is None && after.force
                == schedule.force
            &&& schedule.mutation_epoch != snapshot && schedule.deadline is Some ==> after.deadline
                == schedule.deadline && after.force == schedule.force
        }),
        schedule.stop_requested().stopping && schedule.stop_requested().force,
        schedule.stop_requested().deadline == schedule.deadline,
{
}

} // verus!
