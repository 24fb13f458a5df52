//! What each step of the supervisor changes, and in which order steps are taken.

use crate::functionfs::{blobs_verdict, Endpoint};
use crate::personality::UsbPersonality;
use crate::protocol::{Kind, RecordModel};
use crate::supervisor::{
    advanced, after_step, begun, build_plan, candidate, cleanup_plan, configured, continued,
    initial_state, install_plan, reload_plan, remove_plan, restart_plan, retire_plan, setup_plan,
    stale_plan, start_plan, teardown_plan, unfinished, ConfigurationModel, Continuation, Endpoints,
    Event, Planned, Progress, Refusal, State, Step,
};
use crate::usb_personality::{discovered, ProjectionModel};
use vstd::prelude::*;

verus! {

/// A step that ends its plan where it fails.
pub open spec fn must(step: Step) -> Planned {
    Planned { step, tolerant: false }
}

/// A step behind which its plan goes on in any case.
pub open spec fn may(step: Step) -> Planned {
    Planned { step, tolerant: true }
}

/// What the supervisor holds changes by these steps and by no others.
pub proof fn lemma_steps_change_what_they_do(state: State, step: Step, event: Event)
    ensures
        ({
            let after = after_step(state, step, event);
            let done = event != Event::Failed;
            &&& after.generation == (if step == Step::ResetGeneration {
                0
            } else if step == Step::Advance && state.generation < u32::MAX {
                state.generation + 1
            } else {
                state.generation as int
            })
            &&& after.next_control_request == state.next_control_request
            &&& after.endpoints == (if step == Step::CloseEndpoints {
                None
            } else if step == Step::PublishFunctionfs && done {
                Some(Endpoints { enabled: false, activation: 0 })
            } else {
                state.endpoints
            })
            &&& after.owns_gadget <==> (step == Step::CreateGadget && done) || (step
                == Step::RemoveStaleGadget && !done) || (state.owns_gadget && step
                != Step::RemoveGadget && step != Step::RemoveStaleGadget)
            &&& after.functionfs_mounted <==> (step == Step::MountFunctionfs && done) || (
            state.functionfs_mounted && step != Step::UnmountFunctionfs)
            &&& after.configfs_mounted <==> state.configfs_mounted && step != Step::UnmountConfigfs
            &&& after.worker <==> (step == Step::SpawnWorker && done) || (state.worker && step
                != Step::StopWorker && !(step == Step::SendResources && !done))
            &&& after.control <==> (step == Step::OpenChannel && done) || (state.control && step
                != Step::CloseControl && !(!done && (step is Quiesce || step == Step::SpawnWorker
                || step == Step::SendResources)))
            &&& after.detached_at == (if step == Step::Dwell || step == Step::ForgetDetachment {
                None
            } else if (step == Step::Unbind || step == Step::DetachStaleGadget) && event is
                Detached {
                Some(event->Detached_0)
            } else {
                state.detached_at
            })
            &&& after.cleaned <==> state.cleaned || step == Step::MarkCleaned
        }),
{
}

/// How a plan goes on behind a step: where the step fails, the plan notes the first failure, and is
/// given up unless it goes on in any case. A step fails where it could not be done; counting fails
/// where there are no more generations, a check where a step before it has failed, and detaching
/// what an earlier run left behind never.
pub proof fn lemma_plans_go_on(plan: Seq<Planned>, progress: Progress, event: Event)
    requires
        !progress.given_up,
        progress.at < plan.len(),
    ensures
        ({
            let planned = plan[progress.at as int];
            let after = advanced(plan, progress, event);
            let fails = if planned.step == Step::Advance {
                progress.state.generation == u32::MAX
            } else if planned.step == Step::Check {
                progress.failure is Some
            } else {
                event == Event::Failed && planned.step != Step::DetachStaleGadget
            };
            &&& after.at == progress.at + 1
            &&& after.state == after_step(progress.state, planned.step, event)
            &&& after.given_up <==> fails && !planned.tolerant
            &&& progress.failure is Some ==> after.failure == progress.failure
            &&& progress.failure is None ==> after.failure == (if fails {
                Some(progress.at)
            } else {
                None
            })
        }),
{
}

/// A new generation is built in this order, and a failure of any step ends it.
pub proof fn lemma_building_order(state: State, request_id: u32)
    requires
        state.endpoints is None,
    ensures
        install_plan(state, request_id) == seq![
            must(Step::LimitReplies),
            must(Step::Advance),
            must(Step::CreateGadget),
            must(Step::PopulateGadget),
            must(Step::MountFunctionfs),
            must(Step::PublishFunctionfs),
            must(Step::LinkFunction),
            must(Step::SendEndpoints(request_id)),
            must(Step::AwaitServing(request_id)),
            must(Step::Dwell),
            must(Step::Bind),
            must(Step::UnlimitReplies),
            must(Step::PersistBundle),
        ],
{
}

/// A serving generation is first retired in this order, and then its successor is built.
pub proof fn lemma_replacement_order(state: State, request_id: u32)
    requires
        state.endpoints is Some,
        state.control,
        state.owns_gadget,
        state.functionfs_mounted,
    ensures
        install_plan(state, request_id) == seq![
            must(Step::Unbind),
            must(Step::Quiesce(request_id)),
            may(Step::Unbind),
            may(Step::CloseEndpoints),
            may(Step::UnmountFunctionfs),
            may(Step::RemoveGadget),
            may(Step::RemoveMountPoint),
            must(Step::Check),
        ] + install_plan(State { endpoints: None, ..state }, request_id),
        remove_plan(state, request_id) == seq![
            must(Step::Unbind),
            must(Step::Quiesce(request_id)),
            may(Step::Unbind),
            may(Step::CloseEndpoints),
            may(Step::UnmountFunctionfs),
            may(Step::RemoveGadget),
            may(Step::RemoveMountPoint),
            must(Step::Check),
            must(Step::ForgetDetachment),
        ],
        teardown_plan(state) == seq![
            may(Step::Unbind),
            may(Step::CloseEndpoints),
            may(Step::UnmountFunctionfs),
            may(Step::RemoveGadget),
            may(Step::RemoveMountPoint),
            must(Step::Check),
        ],
{
    let later = install_plan(State { endpoints: None, ..state }, request_id);
    assert(install_plan(state, request_id) =~= seq![
        must(Step::Unbind),
        must(Step::Quiesce(request_id)),
        may(Step::Unbind),
        may(Step::CloseEndpoints),
        may(Step::UnmountFunctionfs),
        may(Step::RemoveGadget),
        may(Step::RemoveMountPoint),
        must(Step::Check),
    ] + later);
    assert(remove_plan(state, request_id) =~= seq![
        must(Step::Unbind),
        must(Step::Quiesce(request_id)),
        may(Step::Unbind),
        may(Step::CloseEndpoints),
        may(Step::UnmountFunctionfs),
        may(Step::RemoveGadget),
        may(Step::RemoveMountPoint),
        must(Step::Check),
        must(Step::ForgetDetachment),
    ]);
    assert(teardown_plan(state) =~= seq![
        may(Step::Unbind),
        may(Step::CloseEndpoints),
        may(Step::UnmountFunctionfs),
        may(Step::RemoveGadget),
        may(Step::RemoveMountPoint),
        must(Step::Check),
    ]);
}

/// What an earlier run left behind is removed before the first worker is started, in this order.
pub proof fn lemma_setup_order()
    ensures
        setup_plan() == seq![
            must(Step::DetachStaleGadget),
            must(Step::RemoveStaleGadget),
            must(Step::UnmountFunctionfs),
            must(Step::RemoveMountPoint),
            must(Step::PrepareDirectories),
            must(Step::OpenResources),
            must(Step::OpenChannel),
            must(Step::SpawnWorker),
            must(Step::SendResources),
            must(Step::ReceiveConfiguration),
        ],
{
    assert(setup_plan() =~= seq![
        must(Step::DetachStaleGadget),
        must(Step::RemoveStaleGadget),
        must(Step::UnmountFunctionfs),
        must(Step::RemoveMountPoint),
        must(Step::PrepareDirectories),
        must(Step::OpenResources),
        must(Step::OpenChannel),
        must(Step::SpawnWorker),
        must(Step::SendResources),
        must(Step::ReceiveConfiguration),
    ]);
}

/// A worker that has ended is replaced in this order: the host sees the device go, what is left of
/// the worker and of its generation is removed, and another is started.
pub proof fn lemma_restart_order(state: State)
    requires
        state.owns_gadget,
    ensures
        restart_plan(state) == seq![
            must(Step::Unbind),
            must(Step::CloseControl),
            must(Step::StopWorker),
        ] + teardown_plan(state) + seq![
            must(Step::ResetGeneration),
            must(Step::PrepareDirectories),
            must(Step::OpenResources),
            must(Step::OpenChannel),
            must(Step::SpawnWorker),
            must(Step::SendResources),
            must(Step::ReceiveConfiguration),
        ],
        state.endpoints is Some && state.control ==> reload_plan(state) == seq![
            must(Step::Unbind),
            must(Step::Quiesce(0)),
            must(Step::CloseControl),
            must(Step::StopWorker),
        ] + teardown_plan(state) + seq![must(Step::AdoptProfile), must(Step::ResetGeneration)]
            + setup_plan(),
{
    assert(restart_plan(state) =~= seq![
        must(Step::Unbind),
        must(Step::CloseControl),
        must(Step::StopWorker),
    ] + teardown_plan(state) + seq![
        must(Step::ResetGeneration),
        must(Step::PrepareDirectories),
        must(Step::OpenResources),
        must(Step::OpenChannel),
        must(Step::SpawnWorker),
        must(Step::SendResources),
        must(Step::ReceiveConfiguration),
    ]);
    if state.endpoints is Some && state.control {
        assert(reload_plan(state) =~= seq![
            must(Step::Unbind),
            must(Step::Quiesce(0)),
            must(Step::CloseControl),
            must(Step::StopWorker),
        ] + teardown_plan(state) + seq![must(Step::AdoptProfile), must(Step::ResetGeneration)]
            + setup_plan());
    }
}

/// Without a gadget, an endpoint or a channel, a worker is replaced without the steps for them.
pub proof fn lemma_bare_restart_order(state: State)
    requires
        !state.owns_gadget,
        !state.functionfs_mounted,
        state.endpoints is None,
    ensures
        teardown_plan(state) == seq![
            may(Step::CloseEndpoints),
            may(Step::RemoveMountPoint),
            must(Step::Check),
        ],
        restart_plan(state) == seq![must(Step::CloseControl), must(Step::StopWorker)]
            + teardown_plan(state) + seq![must(Step::ResetGeneration)] + start_plan(),
        reload_plan(state) == seq![must(Step::CloseControl), must(Step::StopWorker)]
            + teardown_plan(state) + seq![must(Step::AdoptProfile), must(Step::ResetGeneration)]
            + setup_plan(),
{
    assert(teardown_plan(state) =~= seq![
        may(Step::CloseEndpoints),
        may(Step::RemoveMountPoint),
        must(Step::Check),
    ]);
    assert(restart_plan(state) =~= seq![must(Step::CloseControl), must(Step::StopWorker)]
        + teardown_plan(state) + seq![must(Step::ResetGeneration)] + start_plan());
    assert(reload_plan(state) =~= seq![must(Step::CloseControl), must(Step::StopWorker)]
        + teardown_plan(state) + seq![must(Step::AdoptProfile), must(Step::ResetGeneration)]
        + setup_plan());
}

/// Everything is given back in this order, and every step is tried.
pub proof fn lemma_cleanup_order(state: State)
    requires
        !state.cleaned,
        state.owns_gadget,
        state.functionfs_mounted,
        state.endpoints is Some,
        state.control,
        state.configfs_mounted,
    ensures
        cleanup_plan(state) == seq![
            may(Step::Unbind),
            may(Step::Quiesce(0)),
            may(Step::CloseControl),
            may(Step::StopWorker),
            may(Step::Unbind),
            may(Step::CloseEndpoints),
            may(Step::UnmountFunctionfs),
            may(Step::RemoveGadget),
            may(Step::RemoveMountPoint),
            may(Step::RemoveRuntimeDirectory),
            may(Step::UnmountConfigfs),
            may(Step::MarkCleaned),
            must(Step::Check),
        ],
{
    assert(cleanup_plan(state) =~= seq![
        may(Step::Unbind),
        may(Step::Quiesce(0)),
        may(Step::CloseControl),
        may(Step::StopWorker),
        may(Step::Unbind),
        may(Step::CloseEndpoints),
        may(Step::UnmountFunctionfs),
        may(Step::RemoveGadget),
        may(Step::RemoveMountPoint),
        may(Step::RemoveRuntimeDirectory),
        may(Step::UnmountConfigfs),
        may(Step::MarkCleaned),
        must(Step::Check),
    ]);
}

/// Without a gadget a cleanup still ends the worker and removes its directory.
pub proof fn lemma_bare_cleanup_order(state: State)
    requires
        !state.cleaned,
        !state.owns_gadget,
        !state.functionfs_mounted,
        state.endpoints is None,
        !state.configfs_mounted,
    ensures
        cleanup_plan(state) == seq![
            may(Step::CloseControl),
            may(Step::StopWorker),
            may(Step::CloseEndpoints),
            may(Step::RemoveMountPoint),
            may(Step::RemoveRuntimeDirectory),
            may(Step::MarkCleaned),
            must(Step::Check),
        ],
{
    assert(cleanup_plan(state) =~= seq![
        may(Step::CloseControl),
        may(Step::StopWorker),
        may(Step::CloseEndpoints),
        may(Step::RemoveMountPoint),
        may(Step::RemoveRuntimeDirectory),
        may(Step::MarkCleaned),
        must(Step::Check),
    ]);
}

/// What a configuration calls for: it has to be one, of the current generation, with a request
/// number and without descriptors. An empty one removes the device, or says that there is none;
/// another shows the device that it declares, or is refused by its number.
pub proof fn lemma_configurations_are_followed(
    state: State,
    declaration: RecordModel,
    bundle: Option<UsbPersonality>,
    initial: bool,
)
    ensures
        ({
            let called = configured(state, declaration, bundle, initial);
            let fits = declaration.kind == Kind::Configure && declaration.generation
                == state.generation && declaration.request_id != 0
                && declaration.descriptors.len() == 0;
            let empty = declaration.body.len() == 0;
            let id = declaration.request_id;
            &&& called is Mismatched <==> !fits
            &&& called is Remove <==> fits && empty && state.endpoints is Some
            &&& called is Ready <==> fits && empty && state.endpoints is None && initial
            &&& called is NothingToRemove <==> fits && empty && state.endpoints is None && !initial
            &&& called is Refuse <==> fits && !empty && candidate(bundle) is Err
            &&& called is Install <==> fits && !empty && candidate(bundle) is Ok
            &&& called matches ConfigurationModel::Remove(plan) ==> plan == remove_plan(state, id)
            &&& called matches ConfigurationModel::Refuse(refusal, plan) ==> plan == seq![
                must(Step::Reject(id)),
            ] && candidate(bundle) == Err::<(ProjectionModel, Seq<Endpoint>), Refusal>(refusal)
            &&& called matches ConfigurationModel::Install(shown, endpoints, plan) ==> plan
                == install_plan(state, id) && candidate(bundle) == Ok::<
                (ProjectionModel, Seq<Endpoint>),
                Refusal,
            >((shown, endpoints))
        }),
{
}

/// A candidate is shown only where it could be decoded, the projection takes it, FunctionFS takes
/// the projection, and both find the same number of endpoints; and it is shown as it was projected.
pub proof fn lemma_candidates_are_validated(bundle: Option<UsbPersonality>)
    ensures
        candidate(bundle) matches Ok((shown, endpoints)) ==> {
            &&& bundle is Some
            &&& discovered((bundle->0)@) == Ok::<
                ProjectionModel,
                crate::usb_personality::ProjectionError,
            >(shown)
            &&& blobs_verdict(shown.descriptors, shown.strings) matches Ok((found, _)) && found
                == endpoints
            &&& endpoints.len() == shown.endpoints.len()
        },
        candidate(bundle) is Err <==> bundle is None || discovered((bundle->0)@) is Err || ({
            let shown = discovered((bundle->0)@)->Ok_0;
            let verdict = blobs_verdict(shown.descriptors, shown.strings);
            verdict is Err || (verdict->Ok_0).0.len() != shown.endpoints.len()
        }),
{
}

/// The supervisor begins with nothing but perhaps the mount of ConfigFS, counts generations from
/// zero and requests from one.
pub proof fn lemma_supervisor_begins_with_nothing(configfs_mounted: bool)
    ensures
        ({
            let state = initial_state(configfs_mounted);
            &&& state.generation == 0
            &&& state.next_control_request == 1
            &&& state.endpoints is None
            &&& !state.owns_gadget
            &&& !state.functionfs_mounted
            &&& state.configfs_mounted == configfs_mounted
            &&& !state.worker
            &&& !state.control
            &&& state.detached_at is None
            &&& !state.cleaned
        }),
{
}

/// What follows a configuration that was answered: the supervisor serves on, but gives up over one
/// that does not fit, over one that removes nothing, and over a first one that it has to refuse;
/// for a worker that is ready without a device it waits without a limit.
pub proof fn lemma_service_goes_on(configuration: ConfigurationModel, initial: bool)
    ensures
        continued(configuration, initial) == Continuation::Fail <==> configuration is Mismatched
            || configuration is NothingToRemove || (configuration is Refuse && initial),
        continued(configuration, initial) == Continuation::ServeUnlimited <==> configuration is
            Ready,
        continued(configuration, initial) == Continuation::Serve <==> configuration is Remove
            || configuration is Install || (configuration is Refuse && !initial),
{
}

/// A plan begins with nothing done, and there is a step left to do until it is given up or at its
/// end.
pub proof fn lemma_plans_begin_and_end(plan: Seq<Planned>, progress: Progress, state: State)
    ensures
        begun(state).state == state,
        begun(state).at == 0,
        begun(state).failure is None,
        !begun(state).given_up,
        unfinished(plan, progress) <==> !progress.given_up && progress.at < plan.len(),
        progress.given_up || progress.at >= plan.len() ==> forall|event: Event| #[trigger]
            advanced(plan, progress, event) == progress,
{
}

/// A step where there is something for it to do, and none where there is not.
pub open spec fn where_needed(needed: bool, planned: Planned) -> Seq<Planned> {
    if needed {
        seq![planned]
    } else {
        seq![]
    }
}

/// What each plan is put together from, whatever the supervisor holds: a gadget is detached and
/// removed where there is one, FunctionFS is unmounted where it is mounted, and the worker is asked
/// to let its endpoints go where there is a channel to it.
pub proof fn lemma_plans_are_put_together(state: State, request_id: u32)
    ensures
        teardown_plan(state) == where_needed(state.owns_gadget, may(Step::Unbind)) + seq![
            may(Step::CloseEndpoints),
        ] + where_needed(state.functionfs_mounted, may(Step::UnmountFunctionfs)) + where_needed(
            state.owns_gadget,
            may(Step::RemoveGadget),
        ) + seq![may(Step::RemoveMountPoint), must(Step::Check)],
        retire_plan(state, request_id) == seq![must(Step::Unbind)] + where_needed(
            state.control,
            must(Step::Quiesce(request_id)),
        ) + teardown_plan(state),
        state.endpoints is Some ==> install_plan(state, request_id) == retire_plan(
            state,
            request_id,
        ) + build_plan(request_id),
        state.endpoints is None ==> install_plan(state, request_id) == build_plan(request_id),
        remove_plan(state, request_id) == retire_plan(state, request_id) + seq![
            must(Step::ForgetDetachment),
        ],
        restart_plan(state) == where_needed(state.owns_gadget, must(Step::Unbind)) + seq![
            must(Step::CloseControl),
            must(Step::StopWorker),
        ] + teardown_plan(state) + seq![must(Step::ResetGeneration)] + start_plan(),
        reload_plan(state) == where_needed(state.owns_gadget, must(Step::Unbind)) + where_needed(
            state.endpoints is Some && state.control,
            must(Step::Quiesce(0)),
        ) + seq![must(Step::CloseControl), must(Step::StopWorker)] + teardown_plan(state) + seq![
            must(Step::AdoptProfile),
            must(Step::ResetGeneration),
        ] + stale_plan() + start_plan(),
        state.cleaned ==> cleanup_plan(state) == Seq::<Planned>::empty(),
        !state.cleaned ==> cleanup_plan(state) == where_needed(
            state.owns_gadget,
            may(Step::Unbind),
        ) + where_needed(
            state.endpoints is Some && state.control,
            may(Step::Quiesce(0)),
        ) + seq![may(Step::CloseControl), may(Step::StopWorker)] + teardown_plan(state).drop_last()
            + seq![may(Step::RemoveRuntimeDirectory)] + where_needed(
            state.configfs_mounted,
            may(Step::UnmountConfigfs),
        ) + seq![may(Step::MarkCleaned), must(Step::Check)],
{
    assert(teardown_plan(state) =~= where_needed(state.owns_gadget, may(Step::Unbind)) + seq![
        may(Step::CloseEndpoints),
    ] + where_needed(state.functionfs_mounted, may(Step::UnmountFunctionfs)) + where_needed(
        state.owns_gadget,
        may(Step::RemoveGadget),
    ) + seq![may(Step::RemoveMountPoint), must(Step::Check)]);
    assert(retire_plan(state, request_id) =~= seq![must(Step::Unbind)] + where_needed(
        state.control,
        must(Step::Quiesce(request_id)),
    ) + teardown_plan(state));
    assert(restart_plan(state) =~= where_needed(state.owns_gadget, must(Step::Unbind)) + seq![
        must(Step::CloseControl),
        must(Step::StopWorker),
    ] + teardown_plan(state) + seq![must(Step::ResetGeneration)] + start_plan());
    assert(reload_plan(state) =~= where_needed(state.owns_gadget, must(Step::Unbind))
        + where_needed(
        state.endpoints is Some && state.control,
        must(Step::Quiesce(0)),
    ) + seq![must(Step::CloseControl), must(Step::StopWorker)] + teardown_plan(state) + seq![
        must(Step::AdoptProfile),
        must(Step::ResetGeneration),
    ] + stale_plan() + start_plan());
    if !state.cleaned {
        assert(cleanup_plan(state) =~= where_needed(state.owns_gadget, may(Step::Unbind))
            + where_needed(
            state.endpoints is Some && state.control,
            may(Step::Quiesce(0)),
        ) + seq![may(Step::CloseControl), may(Step::StopWorker)] + teardown_plan(state).drop_last()
            + seq![may(Step::RemoveRuntimeDirectory)] + where_needed(
            state.configfs_mounted,
            may(Step::UnmountConfigfs),
        ) + seq![may(Step::MarkCleaned), must(Step::Check)]);
    }
}

} // verus!
