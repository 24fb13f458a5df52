//! What holds of every plan of the supervisor, however its steps come out.

use crate::personality::UsbPersonality;
use crate::protocol::{Kind, RecordModel};
use crate::serve::dwell_of;
use crate::supervisor::{
    after_step, build_plan, carried_out, candidate, cleanup_plan, configured, continued, initial_state, install_plan,
    reload_plan, remove_plan, restart_plan, retire_plan, setup_plan, start_plan, step_fails,
    strict, teardown_plan, teardown_steps, unfinished, Continuation, Endpoints, Event, Planned, State, Step,
};
use vstd::prelude::*;

verus! {

/// A plan that was not given up stands behind as many steps as were performed.
pub proof fn lemma_progress_counts_steps(plan: Seq<Planned>, state: State, events: Seq<Event>)
    requires
        events.len() <= plan.len(),
        !carried_out(plan, state, events).given_up,
    ensures
        carried_out(plan, state, events).at == events.len(),
    decreases events.len(),
{
    if events.len() > 0 {
        let before = carried_out(plan, state, events.drop_last());
        if before.given_up {
            assert(carried_out(plan, state, events) == before);
        } else {
            lemma_progress_counts_steps(plan, state, events.drop_last());
        }
    }
}

/// A plan that was not given up has done every strict step that it stands behind: none of them
/// has failed.
pub proof fn lemma_strict_steps_succeed(
    plan: Seq<Planned>,
    state: State,
    events: Seq<Event>,
    j: int,
)
    requires
        events.len() <= plan.len(),
        !carried_out(plan, state, events).given_up,
        0 <= j < events.len(),
        !plan[j].tolerant,
    ensures
        !step_fails(carried_out(plan, state, events.take(j)), plan[j].step, events[j]),
    decreases events.len(),
{
    let init = events.drop_last();
    let before = carried_out(plan, state, init);
    if before.given_up {
        assert(carried_out(plan, state, events) == before);
    } else {
        lemma_progress_counts_steps(plan, state, init);
        if j < init.len() {
            lemma_strict_steps_succeed(plan, state, init, j);
            assert(init.take(j) =~= events.take(j));
        } else {
            assert(events.take(j) =~= init);
        }
    }
}

/// A plan whose steps but the last are tolerant is carried out to its end.
proof fn lemma_tolerant_plan_ends(plan: Seq<Planned>, state: State, events: Seq<Event>)
    requires
        events.len() <= plan.len(),
        forall|i: int| 0 <= i < plan.len() - 1 ==> (#[trigger] plan[i]).tolerant,
    ensures
        carried_out(plan, state, events).at == events.len(),
        events.len() < plan.len() ==> !carried_out(plan, state, events).given_up,
    decreases events.len(),
{
    if events.len() > 0 {
        lemma_tolerant_plan_ends(plan, state, events.drop_last());
    }
}

/// Whether a step takes nothing new and counts no generation.
spec fn releases(step: Step) -> bool {
    match step {
        Step::OpenChannel => false,
        Step::SpawnWorker => false,
        Step::Advance => false,
        Step::ResetGeneration => false,
        Step::CreateGadget => false,
        Step::MountFunctionfs => false,
        Step::PublishFunctionfs => false,
        Step::RemoveStaleGadget => false,
        _ => true,
    }
}

/// What holds after a step that gives something back, however it comes out.
spec fn released(step: Step, state: State) -> bool {
    match step {
        Step::CloseControl => !state.control,
        Step::StopWorker => !state.worker,
        Step::CloseEndpoints => state.endpoints is None,
        Step::UnmountFunctionfs => !state.functionfs_mounted,
        Step::RemoveGadget => !state.owns_gadget,
        Step::UnmountConfigfs => !state.configfs_mounted,
        Step::MarkCleaned => state.cleaned,
        _ => true,
    }
}

/// Whether `later` holds nothing that `earlier` did not, and counts the same generation.
spec fn holds_no_more(later: State, earlier: State) -> bool {
    &&& later.worker ==> earlier.worker
    &&& later.control ==> earlier.control
    &&& later.endpoints is Some ==> earlier.endpoints is Some
    &&& later.functionfs_mounted ==> earlier.functionfs_mounted
    &&& later.owns_gadget ==> earlier.owns_gadget
    &&& later.configfs_mounted ==> earlier.configfs_mounted
    &&& earlier.cleaned ==> later.cleaned
    &&& later.generation == earlier.generation
}

/// A plan that takes nothing new keeps what it has given back.
proof fn lemma_releasing_plan(plan: Seq<Planned>, state: State, events: Seq<Event>)
    requires
        forall|k: int| 0 <= k < plan.len() ==> releases((#[trigger] plan[k]).step),
    ensures
        carried_out(plan, state, events).at <= plan.len(),
        holds_no_more(carried_out(plan, state, events).state, state),
        forall|j: int|
            0 <= j < carried_out(plan, state, events).at ==> released(
                (#[trigger] plan[j]).step,
                carried_out(plan, state, events).state,
            ),
    decreases events.len(),
{
    if events.len() > 0 {
        lemma_releasing_plan(plan, state, events.drop_last());
        let before = carried_out(plan, state, events.drop_last());
        if unfinished(plan, before) {
            let step = plan[before.at as int].step;
            let after = after_step(before.state, step, events.last());
            assert(releases(step));
            assert(holds_no_more(after, before.state));
            assert(released(step, after));
        }
    }
}

/// However its steps come out, a teardown leaves no endpoint open, no FunctionFS mounted and no
/// gadget behind that would count as ours.
pub proof fn lemma_teardown_leaves_nothing(state: State, events: Seq<Event>)
    requires
        events.len() == teardown_plan(state).len(),
    ensures
        carried_out(teardown_plan(state), state, events).state.endpoints is None,
        !carried_out(teardown_plan(state), state, events).state.functionfs_mounted,
        !carried_out(teardown_plan(state), state, events).state.owns_gadget,
        carried_out(teardown_plan(state), state, events).state.generation == state.generation,
{
    let plan = teardown_plan(state);
    lemma_tolerant_plan_ends(plan, state, events);
    lemma_releasing_plan(plan, state, events);
    let shift: int = if state.owns_gadget {
        1
    } else {
        0
    };
    let mount: int = if state.functionfs_mounted {
        1
    } else {
        0
    };
    assert(plan[shift].step == Step::CloseEndpoints);
    if state.functionfs_mounted {
        assert(plan[shift + 1].step == Step::UnmountFunctionfs);
    }
    if state.owns_gadget {
        assert(plan[shift + mount + 1].step == Step::RemoveGadget);
    }
}

/// However its steps come out, a cleanup gives everything back and is done once: the worker, its
/// channel, the endpoints, the mounts and the gadget are gone, and a second cleanup has nothing
/// to do.
#[verifier::rlimit(40)]
pub proof fn lemma_cleanup_gives_everything_back(state: State, events: Seq<Event>)
    requires
        !state.cleaned,
        events.len() == cleanup_plan(state).len(),
    ensures
        ({
            let end = carried_out(cleanup_plan(state), state, events).state;
            &&& end.cleaned
            &&& cleanup_plan(end) == Seq::<Planned>::empty()
            &&& !end.worker
            &&& !end.control
            &&& end.endpoints is None
            &&& !end.functionfs_mounted
            &&& !end.owns_gadget
            &&& !end.configfs_mounted
        }),
{
    let plan = cleanup_plan(state);
    let a: int = if state.owns_gadget {
        1
    } else {
        0
    };
    let b: int = if state.endpoints is Some && state.control {
        1
    } else {
        0
    };
    let c: int = if state.functionfs_mounted {
        1
    } else {
        0
    };
    let d: int = if state.configfs_mounted {
        1
    } else {
        0
    };
    let end = plan.len() as int;
    assert(teardown_steps(state).len() == 2 * a + c + 2);
    assert(end == 3 * a + b + c + d + 7);
    lemma_tolerant_plan_ends(plan, state, events);
    lemma_releasing_plan(plan, state, events);
    assert(plan[a + b].step == Step::CloseControl);
    assert(plan[a + b + 1].step == Step::StopWorker);
    assert(plan[2 * a + b + 2].step == Step::CloseEndpoints);
    assert(plan[end - 2].step == Step::MarkCleaned);
    if state.functionfs_mounted {
        assert(plan[2 * a + b + 3].step == Step::UnmountFunctionfs);
    }
    if state.owns_gadget {
        assert(plan[2 * a + b + c + 3].step == Step::RemoveGadget);
    }
    if state.configfs_mounted {
        assert(plan[end - 3].step == Step::UnmountConfigfs);
    }
}

/// A configuration that is refused leaves the serving USB device as it is: the supervisor only
/// tells the worker.
pub proof fn lemma_refusal_keeps_the_device(
    state: State,
    declaration: RecordModel,
    bundle: Option<UsbPersonality>,
    initial: bool,
    events: Seq<Event>,
)
    requires
        configured(state, declaration, bundle, initial) is Refuse,
    ensures
        ({
            let plan = configured(state, declaration, bundle, initial)->Refuse_1;
            &&& plan == seq![strict(Step::Reject(declaration.request_id))]
            &&& carried_out(plan, state, events).state == state
        }),
{
    let plan = configured(state, declaration, bundle, initial)->Refuse_1;
    lemma_rejection_changes_nothing(plan, state, events);
}

/// A worker whose first configuration is refused has not started; one whose later configuration
/// is refused is served on.
pub proof fn lemma_first_configuration_has_to_be_taken(
    state: State,
    declaration: RecordModel,
    bundle: Option<UsbPersonality>,
    initial: bool,
)
    requires
        declaration.kind == Kind::Configure,
        declaration.generation == state.generation,
        declaration.request_id != 0,
        declaration.descriptors.len() == 0,
        declaration.body.len() > 0,
        candidate(bundle) is Err,
    ensures
        continued(configured(state, declaration, bundle, initial), initial) == (if initial {
            Continuation::Fail
        } else {
            Continuation::Serve
        }),
{
}

/// A worker whose first configuration is empty is waited for without a limit. Where there is no USB
/// device, a later empty configuration is a fault.
pub proof fn lemma_empty_configuration_waits_without_limit(
    state: State,
    declaration: RecordModel,
    bundle: Option<UsbPersonality>,
    initial: bool,
)
    requires
        declaration.kind == Kind::Configure,
        declaration.generation == state.generation,
        declaration.request_id != 0,
        declaration.descriptors.len() == 0,
        declaration.body.len() == 0,
        state.endpoints is None,
    ensures
        continued(configured(state, declaration, bundle, initial), initial) == (if initial {
            Continuation::ServeUnlimited
        } else {
            Continuation::Fail
        }),
{
}

proof fn lemma_rejection_changes_nothing(plan: Seq<Planned>, state: State, events: Seq<Event>)
    requires
        forall|k: int| 0 <= k < plan.len() ==> (#[trigger] plan[k]).step is Reject,
    ensures
        carried_out(plan, state, events).state == state,
    decreases events.len(),
{
    if events.len() > 0 {
        lemma_rejection_changes_nothing(plan, state, events.drop_last());
    }
}

/// The position in an installation at which the building begins.
pub open spec fn build_start(state: State) -> int {
    if state.endpoints is Some {
        retire_plan(state, 0).len() as int
    } else {
        0
    }
}

proof fn lemma_install_layout(state: State, request_id: u32)
    ensures
        install_plan(state, request_id).len() == build_start(state) + 13,
        forall|k: int|
            0 <= k < 13 ==> #[trigger] install_plan(state, request_id)[build_start(state) + k]
                == build_plan(request_id)[k],
        forall|i: int|
            0 <= i < build_start(state) ==> #[trigger] install_plan(state, request_id)[i]
                == retire_plan(state, request_id)[i],
        retire_plan(state, request_id).len() == retire_plan(state, 0).len(),
{
    let retire = retire_plan(state, request_id);
    assert(retire.len() == retire_plan(state, 0).len());
}

/// A gadget is attached only once the worker has said that it serves the new endpoints, and
/// only after the pause that makes a detachment visible to the host.
pub proof fn lemma_bind_follows_serving(
    state: State,
    request_id: u32,
    events: Seq<Event>,
    i: int,
)
    requires
        events.len() <= install_plan(state, request_id).len(),
        !carried_out(install_plan(state, request_id), state, events).given_up,
        0 <= i <= events.len(),
        i < install_plan(state, request_id).len(),
        install_plan(state, request_id)[i].step == Step::Bind,
    ensures
        i >= 2,
        install_plan(state, request_id)[i - 2].step == Step::AwaitServing(request_id),
        events[i - 2] != Event::Failed,
        install_plan(state, request_id)[i - 1].step == Step::Dwell,
{
    let plan = install_plan(state, request_id);
    let start = build_start(state);
    lemma_install_layout(state, request_id);
    if i < start {
        assert(plan[i] == retire_plan(state, request_id)[i]);
        assert(false);
    }
    let k = i - start;
    assert(plan[start + k] == build_plan(request_id)[k]);
    assert(k == 10);
    assert(plan[start + 8] == build_plan(request_id)[8]);
    assert(plan[start + 9] == build_plan(request_id)[9]);
    lemma_strict_steps_succeed(plan, state, events, i - 2);
}

/// A generation is detached first, then the worker gives its endpoints up, and only then is
/// anything of it removed.
pub proof fn lemma_detach_then_quiesce_then_remove(state: State, request_id: u32, i: int)
    requires
        state.control,
        0 <= i < retire_plan(state, request_id).len(),
        ({
            let step = retire_plan(state, request_id)[i].step;
            step == Step::CloseEndpoints || step == Step::UnmountFunctionfs || step
                == Step::RemoveGadget || step == Step::RemoveMountPoint
        }),
    ensures
        i >= 2,
        retire_plan(state, request_id)[0] == strict(Step::Unbind),
        retire_plan(state, request_id)[1] == strict(Step::Quiesce(request_id)),
{
}

/// Where a worker is replaced, the old one has ended before FunctionFS is unmounted.
pub proof fn lemma_worker_ends_before_unmount(state: State, i: int)
    ensures
        0 <= i < restart_plan(state).len() && restart_plan(state)[i].step
            == Step::UnmountFunctionfs ==> exists|j: int|
            0 <= j < i && #[trigger] restart_plan(state)[j] == strict(Step::StopWorker),
        0 <= i < reload_plan(state).len() && reload_plan(state)[i].step == Step::UnmountFunctionfs
            ==> exists|j: int|
            0 <= j < i && #[trigger] reload_plan(state)[j] == strict(Step::StopWorker),
{
    let a: int = if state.owns_gadget {
        1
    } else {
        0
    };
    let b: int = if state.endpoints is Some && state.control {
        1
    } else {
        0
    };
    assert(restart_plan(state)[a + 1] == strict(Step::StopWorker));
    assert(reload_plan(state)[a + b + 1] == strict(Step::StopWorker));
}

/// An installation that ends well leaves a new generation behind: one more than before, with
/// its gadget, its mount and its endpoints, which are not enabled yet.
#[verifier::rlimit(40)]
pub proof fn lemma_installed_generation(state: State, request_id: u32, events: Seq<Event>)
    requires
        events.len() == install_plan(state, request_id).len(),
        !carried_out(install_plan(state, request_id), state, events).given_up,
    ensures
        ({
            let end = carried_out(install_plan(state, request_id), state, events).state;
            &&& state.generation < u32::MAX
            &&& end.generation == state.generation + 1
            &&& end.endpoints == Some(Endpoints { enabled: false, activation: 0 })
            &&& end.owns_gadget
            &&& end.functionfs_mounted
            &&& end.detached_at is None
        }),
{
    let plan = install_plan(state, request_id);
    let start = build_start(state);
    lemma_install_layout(state, request_id);
    assert forall|k: int| start <= k < plan.len() implies (#[trigger] plan[k]) == build_plan(
        request_id,
    )[k - start] by {
        assert(plan[start + (k - start)] == build_plan(request_id)[k - start]);
    }
    lemma_building_plan(plan, state, events, start);
    assert(plan[start + 2].step == Step::CreateGadget);
    assert(plan[start + 4].step == Step::MountFunctionfs);
    assert(plan[start + 5].step == Step::PublishFunctionfs);
    assert(plan[start + 9].step == Step::Dwell);
}

/// Whether a step belongs to building a generation.
spec fn builds(step: Step) -> bool {
    match step {
        Step::LimitReplies => true,
        Step::UnlimitReplies => true,
        Step::Advance => true,
        Step::CreateGadget => true,
        Step::PopulateGadget => true,
        Step::MountFunctionfs => true,
        Step::PublishFunctionfs => true,
        Step::LinkFunction => true,
        Step::SendEndpoints(_) => true,
        Step::AwaitServing(_) => true,
        Step::Dwell => true,
        Step::Bind => true,
        Step::PersistBundle => true,
        _ => false,
    }
}

/// What holds after a building step that succeeded.
spec fn built(step: Step, state: State) -> bool {
    match step {
        Step::CreateGadget => state.owns_gadget,
        Step::MountFunctionfs => state.functionfs_mounted,
        Step::PublishFunctionfs => state.endpoints == Some(
            Endpoints { enabled: false, activation: 0 },
        ),
        Step::Dwell => state.detached_at is None,
        _ => true,
    }
}

/// A plan that first releases and then builds keeps what it has built, and counts once.
#[verifier::rlimit(40)]
proof fn lemma_building_plan(plan: Seq<Planned>, state: State, events: Seq<Event>, start: int)
    requires
        0 <= start,
        events.len() <= plan.len(),
        !carried_out(plan, state, events).given_up,
        forall|k: int| 0 <= k < start && k < plan.len() ==> releases((#[trigger] plan[k]).step),
        forall|k: int|
            start <= k < plan.len() ==> builds((#[trigger] plan[k]).step) && !plan[k].tolerant,
        forall|k: int|
            0 <= k < plan.len() ==> ((#[trigger] plan[k]).step == Step::Advance <==> k == start
                + 1),
    ensures
        carried_out(plan, state, events).at == events.len(),
        forall|j: int|
            start <= j < events.len() ==> built(
                (#[trigger] plan[j]).step,
                carried_out(plan, state, events).state,
            ),
        events.len() <= start + 1 ==> carried_out(plan, state, events).state.generation
            == state.generation,
        events.len() > start + 1 ==> state.generation < u32::MAX && carried_out(
            plan,
            state,
            events,
        ).state.generation == state.generation + 1,
    decreases events.len(),
{
    if events.len() > 0 {
        let init = events.drop_last();
        let before = carried_out(plan, state, init);
        if before.given_up {
            assert(carried_out(plan, state, events) == before);
        }
        lemma_building_plan(plan, state, init, start);
        let planned = plan[before.at as int];
        let after = after_step(before.state, planned.step, events.last());
        if before.at < start {
            assert(releases(planned.step));
        } else {
            assert(builds(planned.step));
            assert(!step_fails(before, planned.step, events.last()));
            assert(built(planned.step, after));
            assert forall|j: int| start <= j < before.at implies built(
                (#[trigger] plan[j]).step,
                after,
            ) by {
                assert(built(plan[j].step, before.state));
                assert(builds(plan[j].step));
            }
        }
    }
}

/// After a removal that ends well nothing of the generation is left, the worker is still there,
/// and the next attachment makes no pause.
#[verifier::rlimit(40)]
pub proof fn lemma_removed_generation(state: State, request_id: u32, events: Seq<Event>)
    requires
        state.worker,
        events.len() == remove_plan(state, request_id).len(),
        !carried_out(remove_plan(state, request_id), state, events).given_up,
    ensures
        ({
            let end = carried_out(remove_plan(state, request_id), state, events).state;
            &&& end.endpoints is None
            &&& !end.functionfs_mounted
            &&& !end.owns_gadget
            &&& end.worker
            &&& end.generation == state.generation
            &&& end.detached_at is None
        }),
{
    let plan = remove_plan(state, request_id);
    let a: int = if state.owns_gadget {
        1
    } else {
        0
    };
    let c: int = if state.functionfs_mounted {
        1
    } else {
        0
    };
    let end = plan.len() as int;
    let b: int = if state.control {
        1
    } else {
        0
    };
    assert(teardown_steps(state).len() == 2 * a + c + 2);
    assert(end == 2 * a + b + c + 5);
    lemma_progress_counts_steps(plan, state, events);
    lemma_releasing_plan(plan, state, events);
    lemma_worker_stays(plan, state, events);
    assert(plan[a + b + 1].step == Step::CloseEndpoints);
    if state.functionfs_mounted {
        assert(plan[a + b + 2].step == Step::UnmountFunctionfs);
    }
    if state.owns_gadget {
        assert(plan[a + b + c + 2].step == Step::RemoveGadget);
    }
    assert(plan[end - 1].step == Step::ForgetDetachment);
    let init = events.drop_last();
    let before = carried_out(plan, state, init);
    if before.given_up {
        assert(carried_out(plan, state, events) == before);
    }
    lemma_progress_counts_steps(plan, state, init);
}

proof fn lemma_worker_stays(plan: Seq<Planned>, state: State, events: Seq<Event>)
    requires
        state.worker,
        forall|k: int|
            0 <= k < plan.len() ==> (#[trigger] plan[k]).step != Step::StopWorker && plan[k].step
                != Step::SendResources,
    ensures
        carried_out(plan, state, events).state.worker,
    decreases events.len(),
{
    if events.len() > 0 {
        lemma_worker_stays(plan, state, events.drop_last());
    }
}

/// A worker's end, or its fault, is answered by detaching the gadget at once: nothing else is done
/// before that.
pub proof fn lemma_gadget_is_detached_first(state: State)
    requires
        state.owns_gadget,
        !state.cleaned,
    ensures
        restart_plan(state)[0].step == Step::Unbind,
        reload_plan(state)[0].step == Step::Unbind,
        cleanup_plan(state)[0].step == Step::Unbind,
{
}

/// Where the channel was closed after a handshake failed, a cleanup does not try another.
pub proof fn lemma_no_second_handshake(state: State, request_id: u32, i: int)
    requires
        0 <= i < cleanup_plan(
            after_step(state, Step::Quiesce(request_id), Event::Failed),
        ).len(),
    ensures
        !(cleanup_plan(after_step(state, Step::Quiesce(request_id), Event::Failed))[i].step is
            Quiesce),
{
}

/// What a worker is to have is opened before the worker starts, and handed to it before anything
/// is heard of it.
pub proof fn lemma_resources_come_before_the_worker()
    ensures
        start_plan()[1] == strict(Step::OpenResources),
        start_plan()[3] == strict(Step::SpawnWorker),
        start_plan()[4] == strict(Step::SendResources),
        start_plan()[5] == strict(Step::ReceiveConfiguration),
        forall|state: State| #[trigger]
            restart_plan(state).skip(restart_plan(state).len() - 6) == start_plan(),
        forall|state: State| #[trigger]
            reload_plan(state).skip(reload_plan(state).len() - 6) == start_plan(),
        setup_plan().skip(4) == start_plan(),
{
    assert forall|state: State| #[trigger]
        restart_plan(state).skip(restart_plan(state).len() - 6) == start_plan() by {
        assert(restart_plan(state).skip(restart_plan(state).len() - 6) =~= start_plan());
    }
    assert forall|state: State| #[trigger]
        reload_plan(state).skip(reload_plan(state).len() - 6) == start_plan() by {
        assert(reload_plan(state).skip(reload_plan(state).len() - 6) =~= start_plan());
    }
    assert(setup_plan().skip(4) =~= start_plan());
}

/// Whether a step makes the supervisor forget when the gadget was detached.
spec fn forgets(step: Step) -> bool {
    step == Step::Dwell || step == Step::ForgetDetachment
}

/// A detachment is remembered until a step that forgets it.
proof fn lemma_detachment_is_remembered(
    plan: Seq<Planned>,
    state: State,
    events: Seq<Event>,
    j: int,
)
    requires
        0 <= j < events.len() <= plan.len(),
        !carried_out(plan, state, events).given_up,
        events[j] is Detached,
        plan[j].step == Step::Unbind,
        forall|k: int| j < k < events.len() ==> !forgets((#[trigger] plan[k]).step),
    ensures
        carried_out(plan, state, events).state.detached_at is Some,
    decreases events.len(),
{
    let init = events.drop_last();
    let before = carried_out(plan, state, init);
    if before.given_up {
        assert(carried_out(plan, state, events) == before);
    }
    lemma_progress_counts_steps(plan, state, init);
    if j < init.len() {
        lemma_detachment_is_remembered(plan, state, init, j);
        assert(!forgets(plan[events.len() - 1].step));
    }
}

/// A gadget that was detached to be replaced is attached only after a pause: when the pause is
/// made, the supervisor still knows when the gadget was detached.
pub proof fn lemma_replacement_makes_a_pause(
    state: State,
    request_id: u32,
    events: Seq<Event>,
)
    requires
        state.endpoints is Some,
        events.len() < install_plan(state, request_id).len(),
        install_plan(state, request_id)[events.len() as int].step == Step::Dwell,
        !carried_out(install_plan(state, request_id), state, events).given_up,
        events[0] is Detached,
    ensures
        carried_out(install_plan(state, request_id), state, events).state.detached_at is Some,
{
    let plan = install_plan(state, request_id);
    let start = build_start(state);
    lemma_install_layout(state, request_id);
    let n = events.len() as int;
    if n < start {
        assert(plan[n] == retire_plan(state, request_id)[n]);
    }
    assert(plan[start + (n - start)] == build_plan(request_id)[n - start]);
    assert(n == start + 9);
    assert forall|k: int| 0 < k < n implies !forgets((#[trigger] plan[k]).step) by {
        if k < start {
            assert(plan[k] == retire_plan(state, request_id)[k]);
        } else {
            assert(plan[start + (k - start)] == build_plan(request_id)[k - start]);
        }
    }
    lemma_detachment_is_remembered(plan, state, events, 0);
}

/// A detachment that is remembered when the building begins, as after a restart or a reload, is
/// still remembered when the pause before the attachment is made.
pub proof fn lemma_remembered_detachment_makes_a_pause(
    state: State,
    request_id: u32,
    events: Seq<Event>,
)
    requires
        state.detached_at is Some,
        events.len() < install_plan(state, request_id).len(),
        install_plan(state, request_id)[events.len() as int].step == Step::Dwell,
    ensures
        carried_out(install_plan(state, request_id), state, events).state.detached_at is Some,
{
    let plan = install_plan(state, request_id);
    let start = build_start(state);
    let n = events.len() as int;
    lemma_install_layout(state, request_id);
    if n < start {
        assert(plan[n] == retire_plan(state, request_id)[n]);
    }
    assert(plan[start + (n - start)] == build_plan(request_id)[n - start]);
    assert(n == start + 9);
    assert forall|k: int| 0 <= k < n implies !forgets((#[trigger] plan[k]).step) by {
        if k < start {
            assert(plan[k] == retire_plan(state, request_id)[k]);
        } else {
            assert(plan[start + (k - start)] == build_plan(request_id)[k - start]);
        }
    }
    lemma_nothing_forgotten(plan, state, events);
}

proof fn lemma_nothing_forgotten(plan: Seq<Planned>, state: State, events: Seq<Event>)
    requires
        state.detached_at is Some,
        events.len() <= plan.len(),
        forall|k: int| 0 <= k < events.len() ==> !forgets((#[trigger] plan[k]).step),
    ensures
        carried_out(plan, state, events).at <= events.len(),
        carried_out(plan, state, events).state.detached_at is Some,
    decreases events.len(),
{
    if events.len() > 0 {
        lemma_nothing_forgotten(plan, state, events.drop_last());
        let before = carried_out(plan, state, events.drop_last());
        if unfinished(plan, before) {
            assert(!forgets(plan[before.at as int].step));
        }
    }
}

/// A first attachment, and one after the worker had its device removed, makes no pause.
pub proof fn lemma_first_attachment_makes_no_pause(
    state: State,
    request_id: u32,
    events: Seq<Event>,
    now: u128,
)
    requires
        state.endpoints is None,
        state.detached_at is None,
        events.len() < install_plan(state, request_id).len(),
        install_plan(state, request_id)[events.len() as int].step == Step::Dwell,
    ensures
        dwell_of(
            carried_out(install_plan(state, request_id), state, events).state.detached_at,
            now,
        ) == 0,
{
    lemma_never_detached(install_plan(state, request_id), state, events);
}

proof fn lemma_never_detached(plan: Seq<Planned>, state: State, events: Seq<Event>)
    requires
        state.detached_at is None,
        forall|k: int|
            0 <= k < plan.len() ==> (#[trigger] plan[k]).step != Step::Unbind && plan[k].step
                != Step::DetachStaleGadget,
    ensures
        carried_out(plan, state, events).state.detached_at is None,
    decreases events.len(),
{
    if events.len() > 0 {
        lemma_never_detached(plan, state, events.drop_last());
    }
}

/// A restart that ends well begins counting generations anew and remembers a detachment.
#[verifier::rlimit(40)]
pub proof fn lemma_restart_begins_at_zero(state: State, events: Seq<Event>)
    requires
        events.len() == restart_plan(state).len(),
        !carried_out(restart_plan(state), state, events).given_up,
    ensures
        carried_out(restart_plan(state), state, events).state.generation == 0,
        carried_out(restart_plan(state), state, events).state.worker,
        carried_out(restart_plan(state), state, events).state.control,
        carried_out(restart_plan(state), state, events).state.endpoints is None,
        state.owns_gadget && events[0] is Detached ==> carried_out(
            restart_plan(state),
            state,
            events,
        ).state.detached_at is Some,
{
    let plan = restart_plan(state);
    let n = plan.len() as int;
    let start = start_plan();
    let a: int = if state.owns_gadget {
        1
    } else {
        0
    };
    assert forall|k: int| 0 <= k < 6 implies plan[n - 6 + k] == #[trigger] start[k] by {}
    assert(plan[n - 7].step == Step::ResetGeneration);
    assert(plan[2 * a + 2].step == Step::CloseEndpoints);
    lemma_restarted(plan, state, events, n - 7, 2 * a + 2);
    if state.owns_gadget && events[0] is Detached {
        lemma_detachment_is_remembered(plan, state, events, 0);
    }
}

/// A reload that ends well begins counting generations anew and remembers a detachment, so that
/// the next attachment makes the same pause as after a restart.
#[verifier::rlimit(40)]
pub proof fn lemma_reload_begins_at_zero(state: State, events: Seq<Event>)
    requires
        events.len() == reload_plan(state).len(),
        !carried_out(reload_plan(state), state, events).given_up,
    ensures
        carried_out(reload_plan(state), state, events).state.generation == 0,
        carried_out(reload_plan(state), state, events).state.worker,
        carried_out(reload_plan(state), state, events).state.control,
        carried_out(reload_plan(state), state, events).state.endpoints is None,
        state.owns_gadget && events[0] is Detached ==> carried_out(
            reload_plan(state),
            state,
            events,
        ).state.detached_at is Some,
{
    let plan = reload_plan(state);
    let n = plan.len() as int;
    let start = start_plan();
    let a: int = if state.owns_gadget {
        1
    } else {
        0
    };
    let b: int = if state.endpoints is Some && state.control {
        1
    } else {
        0
    };
    assert forall|k: int| 0 <= k < 6 implies plan[n - 6 + k] == #[trigger] start[k] by {}
    assert(plan[n - 11].step == Step::ResetGeneration);
    assert(plan[2 * a + b + 2].step == Step::CloseEndpoints);
    lemma_restarted(plan, state, events, n - 11, 2 * a + b + 2);
    if state.owns_gadget && events[0] is Detached {
        lemma_detachment_is_remembered(plan, state, events, 0);
    }
}

/// A worker that could not be started, or not be given its resources, is not kept, nor is the
/// channel to it. Only one that has its resources and sends no configuration is.
pub proof fn lemma_failed_start_keeps_no_worker(state: State, events: Seq<Event>)
    requires
        !state.worker,
        !state.control,
        events.len() <= start_plan().len(),
        carried_out(start_plan(), state, events).given_up,
    ensures
        ({
            let end = carried_out(start_plan(), state, events);
            let kept = end.failure == Some(5nat);
            &&& end.failure is Some
            &&& end.state.worker == kept
            &&& end.state.control == kept
        }),
    decreases events.len(),
{
    let plan = start_plan();
    let init = events.drop_last();
    let before = carried_out(plan, state, init);
    if before.given_up {
        lemma_failed_start_keeps_no_worker(state, init);
    } else {
        lemma_start_in_progress(state, init);
    }
}

/// What a start that goes on holds.
proof fn lemma_start_in_progress(state: State, events: Seq<Event>)
    requires
        !state.worker,
        !state.control,
        events.len() <= start_plan().len(),
        !carried_out(start_plan(), state, events).given_up,
    ensures
        carried_out(start_plan(), state, events).at == events.len(),
        carried_out(start_plan(), state, events).failure is None,
        carried_out(start_plan(), state, events).state.control == (events.len() > 2),
        carried_out(start_plan(), state, events).state.worker == (events.len() > 3),
    decreases events.len(),
{
    if events.len() > 0 {
        let before = carried_out(start_plan(), state, events.drop_last());
        if before.given_up {
            assert(carried_out(start_plan(), state, events) == before);
        }
        lemma_start_in_progress(state, events.drop_last());
    }
}

proof fn lemma_restarted(
    plan: Seq<Planned>,
    state: State,
    events: Seq<Event>,
    reset: int,
    closed: int,
)
    requires
        0 <= closed < reset,
        events.len() <= plan.len(),
        !carried_out(plan, state, events).given_up,
        forall|k: int| reset <= k < plan.len() ==> !(#[trigger] plan[k]).tolerant,
        forall|k: int|
            0 <= k < plan.len() ==> (#[trigger] plan[k]).step != Step::Advance && plan[k].step
                != Step::PublishFunctionfs,
        forall|k: int|
            reset < k < plan.len() ==> (#[trigger] plan[k]).step != Step::StopWorker
                && plan[k].step != Step::CloseControl && !(plan[k].step is Quiesce)
                && plan[k].step != Step::Check,
        plan[closed].step == Step::CloseEndpoints,
        plan[reset].step == Step::ResetGeneration,
    ensures
        carried_out(plan, state, events).at == events.len(),
        events.len() > reset ==> carried_out(plan, state, events).state.generation == 0,
        events.len() > closed ==> carried_out(plan, state, events).state.endpoints is None,
        forall|k: int|
            reset < k < events.len() && (#[trigger] plan[k]).step == Step::SpawnWorker
                ==> carried_out(plan, state, events).state.worker,
        forall|k: int|
            reset < k < events.len() && (#[trigger] plan[k]).step == Step::OpenChannel
                ==> carried_out(plan, state, events).state.control,
    decreases events.len(),
{
    if events.len() > 0 {
        let init = events.drop_last();
        let before = carried_out(plan, state, init);
        if before.given_up {
            assert(carried_out(plan, state, events) == before);
        }
        lemma_restarted(plan, state, init, reset, closed);
        let planned = plan[before.at as int];
        if before.at >= reset {
            assert(!step_fails(before, planned.step, events.last()));
        }
    }
}

/// Control requests are numbered from one: no step of a plan changes the next number.
pub proof fn lemma_request_numbers_are_positive(state: State, step: Step, event: Event)
    ensures
        initial_state(true).next_control_request == 1,
        initial_state(false).next_control_request == 1,
        after_step(state, step, event).next_control_request == state.next_control_request,
{
}

} // verus!
