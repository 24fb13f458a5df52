//! The order in which a gadget is built, served, replaced and removed.
//!
//! A [`State`] says what the supervisor holds. Each change of it is a [`Task`]: a plan of steps
//! that are performed one after the other and whose outcomes are noted here.

use crate::functionfs::{blobs_verdict, inspect, Endpoint, FunctionFsError};
use crate::personality::UsbPersonality;
use crate::protocol::{Kind, Record, RecordModel};
use crate::usb_personality::{
    discover_bundle, discovered, Personality, ProjectionError, ProjectionModel,
};
use vstd::prelude::*;

verus! {

/// The data endpoints of a serving generation.
#[derive(Clone, Copy, Debug, Eq, PartialEq, Structural)]
pub struct Endpoints {
    pub enabled: bool,
    pub activation: u64,
}

/// What the supervisor holds.
#[derive(Clone, Copy, Debug, Eq, PartialEq, Structural)]
pub struct State {
    /// The number of the current or last USB generation.
    pub generation: u32,
    /// The number of the next control request.
    pub next_control_request: u32,
    /// The data endpoints, while a generation has its FunctionFS files open.
    pub endpoints: Option<Endpoints>,
    /// Whether the gadget's directory is ours to remove.
    pub owns_gadget: bool,
    /// Whether FunctionFS is mounted.
    pub functionfs_mounted: bool,
    /// Whether ConfigFS was mounted by us.
    pub configfs_mounted: bool,
    /// Whether there is a worker process.
    pub worker: bool,
    /// Whether the channel to the worker is open.
    pub control: bool,
    /// When the gadget was detached from its controller, in nanoseconds.
    pub detached_at: Option<u128>,
    /// Whether everything has been given back.
    pub cleaned: bool,
}

/// One thing to do.
#[derive(Clone, Copy, Debug, Eq, PartialEq, Structural)]
pub enum Step {
    /// Detach the gadget from its controller.
    Unbind,
    /// Ask the worker to let its endpoints go, and wait until it has.
    Quiesce(u32),
    /// Close the channel to the worker.
    CloseControl,
    /// Wait for the worker's end, and enforce it in the end.
    StopWorker,
    /// Close the FunctionFS files.
    CloseEndpoints,
    UnmountFunctionfs,
    /// Remove the gadget's directory and what is in it.
    RemoveGadget,
    /// Remove the directory on which FunctionFS was mounted.
    RemoveMountPoint,
    RemoveRuntimeDirectory,
    UnmountConfigfs,
    /// Prepare the directories that the worker owns.
    PrepareDirectories,
    /// Open the local hardware resources.
    OpenResources,
    /// Open the channel to the worker.
    OpenChannel,
    /// Start the worker under its account.
    SpawnWorker,
    /// Hand the resources to the worker. A worker that cannot be given them is not kept.
    SendResources,
    /// Wait for the worker's first configuration.
    ReceiveConfiguration,
    /// Limit the time in which the worker has to answer.
    LimitReplies,
    /// Let the worker take any time to send.
    UnlimitReplies,
    /// Count a new generation.
    Advance,
    /// Make the gadget's directory.
    CreateGadget,
    /// Write the gadget's attributes.
    PopulateGadget,
    MountFunctionfs,
    /// Write the descriptors and open the endpoint files.
    PublishFunctionfs,
    LinkFunction,
    /// Hand the endpoint files to the worker.
    SendEndpoints(u32),
    /// Wait until the worker serves them.
    AwaitServing(u32),
    /// Wait until the gadget has been detached for long enough.
    Dwell,
    /// Attach the gadget to its controller.
    Bind,
    /// Keep a copy of the personality for inspection.
    PersistBundle,
    /// Tell the worker that its configuration is refused.
    Reject(u32),
    /// Make no pause before the next attachment.
    ForgetDetachment,
    /// Count generations from the beginning.
    ResetGeneration,
    /// Go on with the profile that was read again.
    AdoptProfile,
    /// Detach a gadget that an earlier run left behind, if there is one and it can be done.
    DetachStaleGadget,
    /// Remove a gadget that an earlier run left behind, if there is one.
    RemoveStaleGadget,
    /// Give up if a step that may fail has failed.
    Check,
    MarkCleaned,
}

/// A step of a plan, and whether the plan goes on where the step fails.
#[derive(Clone, Copy, Debug, Eq, PartialEq, Structural)]
pub struct Planned {
    pub step: Step,
    pub tolerant: bool,
}

/// How a step came out.
#[derive(Clone, Copy, Debug, Eq, PartialEq, Structural)]
pub enum Event {
    Done,
    /// Done, and the gadget was detached from its controller at this time.
    Detached(u128),
    Failed,
}

/// A step that ends its plan where it fails.
pub open spec fn strict(step: Step) -> Planned {
    Planned { step, tolerant: false }
}

/// A step behind which its plan goes on in any case.
pub open spec fn tolerant(step: Step) -> Planned {
    Planned { step, tolerant: true }
}

/// A plan of one step, or of none where the step is not called for.
pub open spec fn only_if(wanted: bool, planned: Planned) -> Seq<Planned> {
    if wanted {
        seq![planned]
    } else {
        seq![]
    }
}

/// The supervisor before it has done anything.
pub open spec fn initial_state(configfs_mounted: bool) -> State {
    State {
        generation: 0,
        next_control_request: 1,
        endpoints: None,
        owns_gadget: false,
        functionfs_mounted: false,
        configfs_mounted,
        worker: false,
        control: false,
        detached_at: None,
        cleaned: false,
    }
}

/// The state after a step that came out as `event`.
pub open spec fn after_step(state: State, step: Step, event: Event) -> State {
    let succeeded = event != Event::Failed;
    match step {
        Step::Unbind | Step::DetachStaleGadget => match event {
            Event::Detached(now) => State { detached_at: Some(now), ..state },
            _ => state,
        },
        Step::Quiesce(_) => State { control: state.control && succeeded, ..state },
        Step::CloseControl => State { control: false, ..state },
        Step::StopWorker => State { worker: false, ..state },
        Step::CloseEndpoints => State { endpoints: None, ..state },
        Step::UnmountFunctionfs => State { functionfs_mounted: false, ..state },
        Step::RemoveGadget => State { owns_gadget: false, ..state },
        Step::RemoveStaleGadget => State { owns_gadget: !succeeded, ..state },
        Step::UnmountConfigfs => State { configfs_mounted: false, ..state },
        Step::OpenChannel => State { control: state.control || succeeded, ..state },
        Step::SpawnWorker => State {
            worker: state.worker || succeeded,
            control: state.control && succeeded,
            ..state
        },
        Step::SendResources => State {
            worker: state.worker && succeeded,
            control: state.control && succeeded,
            ..state
        },
        Step::Advance => if state.generation == u32::MAX {
            state
        } else {
            State { generation: (state.generation + 1) as u32, ..state }
        },
        Step::CreateGadget => State { owns_gadget: state.owns_gadget || succeeded, ..state },
        Step::MountFunctionfs => State {
            functionfs_mounted: state.functionfs_mounted || succeeded,
            ..state
        },
        Step::PublishFunctionfs => if succeeded {
            State { endpoints: Some(Endpoints { enabled: false, activation: 0 }), ..state }
        } else {
            state
        },
        Step::Dwell | Step::ForgetDetachment => State { detached_at: None, ..state },
        Step::ResetGeneration => State { generation: 0, ..state },
        Step::MarkCleaned => State { cleaned: true, ..state },
        _ => state,
    }
}

/// Removes what there is of a generation. Every step is tried; the plan fails in the end where
/// one of them has failed.
pub open spec fn teardown_steps(state: State) -> Seq<Planned> {
    only_if(state.owns_gadget, tolerant(Step::Unbind)) + seq![tolerant(Step::CloseEndpoints)]
        + only_if(state.functionfs_mounted, tolerant(Step::UnmountFunctionfs)) + only_if(
        state.owns_gadget,
        tolerant(Step::RemoveGadget),
    ) + seq![tolerant(Step::RemoveMountPoint)]
}

/// Removes a generation and gives up where that has failed.
pub open spec fn teardown_plan(state: State) -> Seq<Planned> {
    teardown_steps(state) + seq![strict(Step::Check)]
}

/// Detaches a serving generation, lets the worker give its endpoints up, and removes it. Without
/// a channel there is nobody to ask.
pub open spec fn retire_plan(state: State, request_id: u32) -> Seq<Planned> {
    seq![strict(Step::Unbind)] + only_if(state.control, strict(Step::Quiesce(request_id)))
        + teardown_plan(state)
}

/// Starts a worker: what it is to have is opened before it runs without rights, and handed over
/// before anything is heard of it. Where it cannot be started or given its resources, neither the
/// worker nor the channel to it is kept.
pub open spec fn start_plan() -> Seq<Planned> {
    seq![
        strict(Step::PrepareDirectories),
        strict(Step::OpenResources),
        strict(Step::OpenChannel),
        strict(Step::SpawnWorker),
        strict(Step::SendResources),
        strict(Step::ReceiveConfiguration),
    ]
}

/// Builds a generation and attaches it once the worker serves it.
pub open spec fn build_plan(request_id: u32) -> Seq<Planned> {
    seq![
        strict(Step::LimitReplies),
        strict(Step::Advance),
        strict(Step::CreateGadget),
        strict(Step::PopulateGadget),
        strict(Step::MountFunctionfs),
        strict(Step::PublishFunctionfs),
        strict(Step::LinkFunction),
        strict(Step::SendEndpoints(request_id)),
        strict(Step::AwaitServing(request_id)),
        strict(Step::Dwell),
        strict(Step::Bind),
        strict(Step::UnlimitReplies),
        strict(Step::PersistBundle),
    ]
}

/// Puts a new generation in the place of the serving one, if there is one.
pub open spec fn install_plan(state: State, request_id: u32) -> Seq<Planned> {
    if state.endpoints is Some {
        retire_plan(state, request_id) + build_plan(request_id)
    } else {
        build_plan(request_id)
    }
}

/// Removes the serving generation and leaves the worker running. How long the gadget then stays
/// detached is the worker's decision.
pub open spec fn remove_plan(state: State, request_id: u32) -> Seq<Planned> {
    retire_plan(state, request_id) + seq![strict(Step::ForgetDetachment)]
}

/// Starts a worker anew after the old one has ended.
pub open spec fn restart_plan(state: State) -> Seq<Planned> {
    only_if(state.owns_gadget, strict(Step::Unbind)) + seq![
        strict(Step::CloseControl),
        strict(Step::StopWorker),
    ] + teardown_plan(state) + seq![strict(Step::ResetGeneration)] + start_plan()
}

/// Removes what an earlier run left behind. A gadget that cannot be removed is ours to remove
/// later.
pub open spec fn stale_plan() -> Seq<Planned> {
    seq![
        strict(Step::DetachStaleGadget),
        strict(Step::RemoveStaleGadget),
        strict(Step::UnmountFunctionfs),
        strict(Step::RemoveMountPoint),
    ]
}

/// Starts a worker by a profile that was read again.
pub open spec fn reload_plan(state: State) -> Seq<Planned> {
    only_if(state.owns_gadget, strict(Step::Unbind)) + only_if(
        state.endpoints is Some && state.control,
        strict(Step::Quiesce(0)),
    ) + seq![strict(Step::CloseControl), strict(Step::StopWorker)] + teardown_plan(state) + seq![
        strict(Step::AdoptProfile),
        strict(Step::ResetGeneration),
    ] + stale_plan() + start_plan()
}

/// Starts the first worker.
pub open spec fn setup_plan() -> Seq<Planned> {
    stale_plan() + start_plan()
}

/// Gives everything back, once. Every step is tried.
pub open spec fn cleanup_plan(state: State) -> Seq<Planned> {
    if state.cleaned {
        seq![]
    } else {
        only_if(state.owns_gadget, tolerant(Step::Unbind)) + only_if(
            state.endpoints is Some && state.control,
            tolerant(Step::Quiesce(0)),
        ) + seq![tolerant(Step::CloseControl), tolerant(Step::StopWorker)] + teardown_steps(state)
            + seq![tolerant(Step::RemoveRuntimeDirectory)] + only_if(
            state.configfs_mounted,
            tolerant(Step::UnmountConfigfs),
        ) + seq![tolerant(Step::MarkCleaned), strict(Step::Check)]
    }
}

/// How far a plan has been carried out.
pub struct Progress {
    /// What the supervisor holds.
    pub state: State,
    /// The number of steps behind.
    pub at: nat,
    /// The first step that has failed.
    pub failure: Option<nat>,
    /// Whether the plan was given up.
    pub given_up: bool,
}

/// A plan of which nothing has been done.
pub open spec fn begun(state: State) -> Progress {
    Progress { state, at: 0, failure: None, given_up: false }
}

/// Whether a step fails: it could not be done, there are no more generations to count, or a
/// step before the check has failed. Detaching what an earlier run left behind is only tried.
pub open spec fn step_fails(progress: Progress, step: Step, event: Event) -> bool {
    match step {
        Step::Advance => progress.state.generation == u32::MAX,
        Step::Check => progress.failure is Some,
        Step::DetachStaleGadget => false,
        _ => event == Event::Failed,
    }
}

/// Whether there is a step left to do.
pub open spec fn unfinished(plan: Seq<Planned>, progress: Progress) -> bool {
    !progress.given_up && progress.at < plan.len()
}

/// After the next step of a plan came out as `event`.
pub open spec fn advanced(plan: Seq<Planned>, progress: Progress, event: Event) -> Progress {
    if !unfinished(plan, progress) {
        progress
    } else {
        let planned = plan[progress.at as int];
        let fails = step_fails(progress, planned.step, event);
        Progress {
            state: after_step(progress.state, planned.step, event),
            at: progress.at + 1,
            failure: if fails && progress.failure is None {
                Some(progress.at)
            } else {
                progress.failure
            },
            given_up: fails && !planned.tolerant,
        }
    }
}

/// After the steps of a plan came out as `events`.
pub open spec fn carried_out(plan: Seq<Planned>, state: State, events: Seq<Event>) -> Progress
    decreases events.len(),
{
    if events.len() == 0 {
        begun(state)
    } else {
        advanced(plan, carried_out(plan, state, events.drop_last()), events.last())
    }
}

/// A plan that is being carried out.
#[derive(Debug)]
pub struct Task {
    plan: Vec<Planned>,
    at: usize,
    failure: Option<usize>,
    given_up: bool,
}

impl Task {
    /// The plan.
    pub closed spec fn plan(self) -> Seq<Planned> {
        self.plan@
    }

    /// How far the plan has been carried out, with what the supervisor holds.
    pub closed spec fn progress(self, state: State) -> Progress {
        Progress {
            state,
            at: self.at as nat,
            failure: match self.failure {
                None => None,
                Some(step) => Some(step as nat),
            },
            given_up: self.given_up,
        }
    }

    /// The task of a plan.
    pub fn new(plan: Vec<Planned>) -> (made: Self)
        ensures
            made.plan() == plan@,
            forall|state: State| #[trigger] made.progress(state) == begun(state),
    {
        Task { plan, at: 0, failure: None, given_up: false }
    }

    /// The step to perform next, or nothing where the plan is done or given up.
    pub fn next(&self) -> (step: Option<Step>)
        ensures
            forall|state: State|
                #![trigger self.progress(state)]
                match step {
                    None => !unfinished(self.plan(), self.progress(state)),
                    Some(step) => unfinished(self.plan(), self.progress(state)) && step
                        == self.plan()[self.progress(state).at as int].step,
                },
    {
        if self.given_up || self.at >= self.plan.len() {
            return None;
        }
        Some(self.plan[self.at].step)
    }

    /// Notes how the next step came out.
    pub fn complete(&mut self, state: &mut State, event: Event)
        ensures
            final(self).plan() == old(self).plan(),
            final(self).progress(*final(state)) == advanced(
                old(self).plan(),
                old(self).progress(*old(state)),
                event,
            ),
    {
        if self.given_up || self.at >= self.plan.len() {
            return ;
        }
        let planned = self.plan[self.at];
        let fails = match planned.step {
            Step::Advance => state.generation == u32::MAX,
            Step::Check => self.failure.is_some(),
            Step::DetachStaleGadget => false,
            _ => match event {
                Event::Failed => true,
                _ => false,
            },
        };
        state.note(planned.step, event);
        if fails && self.failure.is_none() {
            self.failure = Some(self.at);
        }
        self.given_up = fails && !planned.tolerant;
        self.at = self.at + 1;
    }

    /// The first step that has failed, where the plan was given up.
    pub fn failure(&self) -> (step: Option<usize>)
        ensures
            forall|state: State|
                #![trigger self.progress(state)]
                match step {
                    None => !self.progress(state).given_up || self.progress(state).failure is None,
                    Some(step) => self.progress(state).given_up && self.progress(state).failure
                        == Some(step as nat),
                },
    {
        if self.given_up {
            self.failure
        } else {
            None
        }
    }
}

impl State {
    /// The supervisor before it has done anything.
    pub fn new(configfs_mounted: bool) -> (made: Self)
        ensures
            made == initial_state(configfs_mounted),
    {
        State {
            generation: 0,
            next_control_request: 1,
            endpoints: None,
            owns_gadget: false,
            functionfs_mounted: false,
            configfs_mounted,
            worker: false,
            control: false,
            detached_at: None,
            cleaned: false,
        }
    }

    /// Notes how a step came out.
    pub fn note(&mut self, step: Step, event: Event)
        ensures
            *final(self) == after_step(*old(self), step, event),
    {
        let succeeded = match event {
            Event::Failed => false,
            _ => true,
        };
        match step {
            Step::Unbind | Step::DetachStaleGadget => {
                if let Event::Detached(now) = event {
                    self.detached_at = Some(now);
                }
            },
            Step::Quiesce(_) => {
                self.control = self.control && succeeded;
            },
            Step::CloseControl => {
                self.control = false;
            },
            Step::StopWorker => {
                self.worker = false;
            },
            Step::CloseEndpoints => {
                self.endpoints = None;
            },
            Step::UnmountFunctionfs => {
                self.functionfs_mounted = false;
            },
            Step::RemoveGadget => {
                self.owns_gadget = false;
            },
            Step::RemoveStaleGadget => {
                self.owns_gadget = !succeeded;
            },
            Step::UnmountConfigfs => {
                self.configfs_mounted = false;
            },
            Step::OpenChannel => {
                self.control = self.control || succeeded;
            },
            Step::SpawnWorker => {
                self.worker = self.worker || succeeded;
                self.control = self.control && succeeded;
            },
            Step::SendResources => {
                self.worker = self.worker && succeeded;
                self.control = self.control && succeeded;
            },
            Step::Advance => {
                if self.generation < u32::MAX {
                    self.generation = self.generation + 1;
                }
            },
            Step::CreateGadget => {
                self.owns_gadget = self.owns_gadget || succeeded;
            },
            Step::MountFunctionfs => {
                self.functionfs_mounted = self.functionfs_mounted || succeeded;
            },
            Step::PublishFunctionfs => {
                if succeeded {
                    self.endpoints = Some(Endpoints { enabled: false, activation: 0 });
                }
            },
            Step::Dwell | Step::ForgetDetachment => {
                self.detached_at = None;
            },
            Step::ResetGeneration => {
                self.generation = 0;
            },
            Step::MarkCleaned => {
                self.cleaned = true;
            },
            _ => {},
        }
    }

    /// The plan that starts the first worker.
    pub fn setup(&self) -> (plan: Vec<Planned>)
        ensures
            plan@ == setup_plan(),
    {
        let mut plan: Vec<Planned> = Vec::new();
        push_stale(&mut plan);
        push_start(&mut plan);
        assert(plan@ =~= setup_plan());
        plan
    }

    /// The plan that gives everything back.
    pub fn cleanup(&self) -> (plan: Vec<Planned>)
        ensures
            plan@ == cleanup_plan(*self),
    {
        let mut plan: Vec<Planned> = Vec::new();
        if !self.cleaned {
            if self.owns_gadget {
                push_tolerant(&mut plan, Step::Unbind);
            }
            if self.endpoints.is_some() && self.control {
                push_tolerant(&mut plan, Step::Quiesce(0));
            }
            push_tolerant(&mut plan, Step::CloseControl);
            push_tolerant(&mut plan, Step::StopWorker);
            self.push_teardown(&mut plan);
            push_tolerant(&mut plan, Step::RemoveRuntimeDirectory);
            if self.configfs_mounted {
                push_tolerant(&mut plan, Step::UnmountConfigfs);
            }
            push_tolerant(&mut plan, Step::MarkCleaned);
            push_strict(&mut plan, Step::Check);
        }
        assert(plan@ =~= cleanup_plan(*self));
        plan
    }

    /// The plan that removes a generation.
    pub fn stop_usb_generation(&self) -> (plan: Vec<Planned>)
        ensures
            plan@ == teardown_plan(*self),
    {
        let mut plan: Vec<Planned> = Vec::new();
        self.push_teardown(&mut plan);
        push_strict(&mut plan, Step::Check);
        assert(plan@ =~= teardown_plan(*self));
        plan
    }

    /// The plan that starts a worker anew after the old one has ended.
    pub fn restart_worker(&self) -> (plan: Vec<Planned>)
        ensures
            plan@ == restart_plan(*self),
    {
        let mut plan: Vec<Planned> = Vec::new();
        if self.owns_gadget {
            push_strict(&mut plan, Step::Unbind);
        }
        push_strict(&mut plan, Step::CloseControl);
        push_strict(&mut plan, Step::StopWorker);
        self.push_teardown(&mut plan);
        push_strict(&mut plan, Step::Check);
        push_strict(&mut plan, Step::ResetGeneration);
        push_start(&mut plan);
        assert(plan@ =~= restart_plan(*self));
        plan
    }

    /// The plan that starts a worker by a profile that was read again.
    pub fn reload_profile(&self) -> (plan: Vec<Planned>)
        ensures
            plan@ == reload_plan(*self),
    {
        let mut plan: Vec<Planned> = Vec::new();
        if self.owns_gadget {
            push_strict(&mut plan, Step::Unbind);
        }
        if self.endpoints.is_some() && self.control {
            push_strict(&mut plan, Step::Quiesce(0));
        }
        push_strict(&mut plan, Step::CloseControl);
        push_strict(&mut plan, Step::StopWorker);
        self.push_teardown(&mut plan);
        push_strict(&mut plan, Step::Check);
        push_strict(&mut plan, Step::AdoptProfile);
        push_strict(&mut plan, Step::ResetGeneration);
        push_stale(&mut plan);
        push_start(&mut plan);
        assert(plan@ =~= reload_plan(*self));
        plan
    }

    fn push_teardown(&self, plan: &mut Vec<Planned>)
        ensures
            final(plan)@ == old(plan)@ + teardown_steps(*self),
    {
        if self.owns_gadget {
            push_tolerant(plan, Step::Unbind);
        }
        push_tolerant(plan, Step::CloseEndpoints);
        if self.functionfs_mounted {
            push_tolerant(plan, Step::UnmountFunctionfs);
        }
        if self.owns_gadget {
            push_tolerant(plan, Step::RemoveGadget);
        }
        push_tolerant(plan, Step::RemoveMountPoint);
        assert(plan@ =~= old(plan)@ + teardown_steps(*self));
    }

    fn retire(&self, request_id: u32) -> (plan: Vec<Planned>)
        ensures
            plan@ == retire_plan(*self, request_id),
    {
        let mut plan: Vec<Planned> = Vec::new();
        push_strict(&mut plan, Step::Unbind);
        if self.control {
            push_strict(&mut plan, Step::Quiesce(request_id));
        }
        self.push_teardown(&mut plan);
        push_strict(&mut plan, Step::Check);
        assert(plan@ =~= retire_plan(*self, request_id));
        plan
    }

    fn install(&self, request_id: u32) -> (plan: Vec<Planned>)
        ensures
            plan@ == install_plan(*self, request_id),
    {
        let mut plan: Vec<Planned> = if self.endpoints.is_some() {
            self.retire(request_id)
        } else {
            Vec::new()
        };
        let ghost before = plan@;
        push_strict(&mut plan, Step::LimitReplies);
        push_strict(&mut plan, Step::Advance);
        push_strict(&mut plan, Step::CreateGadget);
        push_strict(&mut plan, Step::PopulateGadget);
        push_strict(&mut plan, Step::MountFunctionfs);
        push_strict(&mut plan, Step::PublishFunctionfs);
        push_strict(&mut plan, Step::LinkFunction);
        push_strict(&mut plan, Step::SendEndpoints(request_id));
        push_strict(&mut plan, Step::AwaitServing(request_id));
        push_strict(&mut plan, Step::Dwell);
        push_strict(&mut plan, Step::Bind);
        push_strict(&mut plan, Step::UnlimitReplies);
        push_strict(&mut plan, Step::PersistBundle);
        assert(plan@ =~= before + build_plan(request_id));
        assert(plan@ =~= install_plan(*self, request_id));
        plan
    }
}

fn push_stale(plan: &mut Vec<Planned>)
    ensures
        final(plan)@ == old(plan)@ + stale_plan(),
{
    push_strict(plan, Step::DetachStaleGadget);
    push_strict(plan, Step::RemoveStaleGadget);
    push_strict(plan, Step::UnmountFunctionfs);
    push_strict(plan, Step::RemoveMountPoint);
    assert(plan@ =~= old(plan)@ + stale_plan());
}

fn push_start(plan: &mut Vec<Planned>)
    ensures
        final(plan)@ == old(plan)@ + start_plan(),
{
    push_strict(plan, Step::PrepareDirectories);
    push_strict(plan, Step::OpenResources);
    push_strict(plan, Step::OpenChannel);
    push_strict(plan, Step::SpawnWorker);
    push_strict(plan, Step::SendResources);
    push_strict(plan, Step::ReceiveConfiguration);
    assert(plan@ =~= old(plan)@ + start_plan());
}

fn push_strict(plan: &mut Vec<Planned>, step: Step)
    ensures
        final(plan)@ == old(plan)@.push(strict(step)),
{
    plan.push(Planned { step, tolerant: false });
}

fn push_tolerant(plan: &mut Vec<Planned>, step: Step)
    ensures
        final(plan)@ == old(plan)@.push(tolerant(step)),
{
    plan.push(Planned { step, tolerant: true });
}

/// The error number by which a controller says that no gadget is attached to it.
pub const ENODEV: i32 = 19;

/// How detaching a gadget came out at the time `now`: `attribute` says whether the gadget has an
/// attribute for its controller, and `errno` is the error number of the write to it.
pub fn unbind_event(attribute: bool, errno: Option<i32>, now: u128) -> (event: Event)
    ensures
        event == if !attribute {
            Event::Done
        } else {
            match errno {
                None => Event::Detached(now),
                Some(errno) => if errno == ENODEV {
                    Event::Done
                } else {
                    Event::Failed
                },
            }
        },
{
    if !attribute {
        return Event::Done;
    }
    match errno {
        None => Event::Detached(now),
        Some(errno) => {
            if errno == ENODEV {
                Event::Done
            } else {
                Event::Failed
            }
        },
    }
}

/// Why a configuration is refused.
#[derive(Clone, Copy, Debug, Eq, PartialEq, Structural)]
pub enum Refusal {
    /// It could not be decoded.
    Undecodable,
    Projection(ProjectionError),
    FunctionFs(FunctionFsError),
    /// Its blobs do not declare the endpoints of its configuration.
    EndpointCount,
}

/// What a worker's configuration calls for.
#[derive(Debug)]
pub enum Configuration {
    /// It is not a configuration for the current generation.
    Mismatched,
    /// The worker is ready without a USB device.
    Ready,
    /// There is no USB device to remove.
    NothingToRemove,
    /// The USB device is to be removed.
    Remove(Vec<Planned>),
    /// The worker is to be told why its configuration is refused.
    Refuse(Refusal, Vec<Planned>),
    /// The USB device is to be shown, with these data endpoints.
    Install(Personality, Vec<Endpoint>, Vec<Planned>),
}

/// A [`Configuration`] in the model.
pub enum ConfigurationModel {
    Mismatched,
    Ready,
    NothingToRemove,
    Remove(Seq<Planned>),
    Refuse(Refusal, Seq<Planned>),
    Install(ProjectionModel, Seq<Endpoint>, Seq<Planned>),
}

impl View for Configuration {
    type V = ConfigurationModel;

    open spec fn view(&self) -> ConfigurationModel {
        match self {
            Configuration::Mismatched => ConfigurationModel::Mismatched,
            Configuration::Ready => ConfigurationModel::Ready,
            Configuration::NothingToRemove => ConfigurationModel::NothingToRemove,
            Configuration::Remove(plan) => ConfigurationModel::Remove(plan@),
            Configuration::Refuse(refusal, plan) => ConfigurationModel::Refuse(*refusal, plan@),
            Configuration::Install(personality, endpoints, plan) => ConfigurationModel::Install(
                personality@,
                endpoints@,
                plan@,
            ),
        }
    }
}

/// What a gadget shows of a decoded configuration and its data endpoints, or why the
/// configuration is refused.
pub open spec fn candidate(bundle: Option<UsbPersonality>) -> Result<
    (ProjectionModel, Seq<Endpoint>),
    Refusal,
> {
    match bundle {
        None => Err(Refusal::Undecodable),
        Some(bundle) => match discovered(bundle@) {
            Err(error) => Err(Refusal::Projection(error)),
            Ok(personality) => match blobs_verdict(personality.descriptors, personality.strings) {
                Err(error) => Err(Refusal::FunctionFs(error)),
                Ok((endpoints, _)) => if endpoints.len() != personality.endpoints.len() {
                    Err(Refusal::EndpointCount)
                } else {
                    Ok((personality, endpoints))
                },
            },
        },
    }
}

/// What a worker's configuration calls for. A configuration without a body stands for no USB
/// device. All of a candidate is validated before anything that serves is touched.
pub open spec fn configured(
    state: State,
    declaration: RecordModel,
    bundle: Option<UsbPersonality>,
    initial: bool,
) -> ConfigurationModel {
    let request_id = declaration.request_id;
    if declaration.kind != Kind::Configure || declaration.generation != state.generation
        || request_id == 0 || declaration.descriptors.len() > 0 {
        ConfigurationModel::Mismatched
    } else if declaration.body.len() == 0 {
        if state.endpoints is Some {
            ConfigurationModel::Remove(remove_plan(state, request_id))
        } else if initial {
            ConfigurationModel::Ready
        } else {
            ConfigurationModel::NothingToRemove
        }
    } else {
        match candidate(bundle) {
            Err(refusal) => ConfigurationModel::Refuse(
                refusal,
                seq![strict(Step::Reject(request_id))],
            ),
            Ok((personality, endpoints)) => ConfigurationModel::Install(
                personality,
                endpoints,
                install_plan(state, request_id),
            ),
        }
    }
}

/// What the supervisor does once it has answered a configuration.
#[derive(Clone, Copy, Debug, Eq, PartialEq, Structural)]
pub enum Continuation {
    /// Serve on.
    Serve,
    /// Serve on, and let the worker take any time to send.
    ServeUnlimited,
    /// Give up.
    Fail,
}

/// What follows a configuration that was answered. A worker that is ready without a USB device is
/// waited for without a limit; one whose first configuration is refused has not started.
pub open spec fn continued(configuration: ConfigurationModel, initial: bool) -> Continuation {
    match configuration {
        ConfigurationModel::Mismatched | ConfigurationModel::NothingToRemove => Continuation::Fail,
        ConfigurationModel::Ready => Continuation::ServeUnlimited,
        ConfigurationModel::Refuse(..) => if initial {
            Continuation::Fail
        } else {
            Continuation::Serve
        },
        ConfigurationModel::Remove(..) | ConfigurationModel::Install(..) => Continuation::Serve,
    }
}

/// Decides what follows once `configuration` has been answered; `initial` says whether it is the
/// worker's first.
pub fn continuation(configuration: &Configuration, initial: bool) -> (next: Continuation)
    ensures
        next == continued(configuration@, initial),
{
    match configuration {
        Configuration::Mismatched | Configuration::NothingToRemove => Continuation::Fail,
        Configuration::Ready => Continuation::ServeUnlimited,
        Configuration::Refuse(_, _) => if initial {
            Continuation::Fail
        } else {
            Continuation::Serve
        },
        Configuration::Remove(_) | Configuration::Install(_, _, _) => Continuation::Serve,
    }
}

/// Validates a decoded configuration.
pub fn validate_candidate(bundle: Option<UsbPersonality>) -> (outcome: Result<
    (Personality, Vec<Endpoint>),
    Refusal,
>)
    ensures
        match outcome {
            Err(refusal) => candidate(bundle) == Err::<(ProjectionModel, Seq<Endpoint>), Refusal>(
                refusal,
            ),
            Ok((personality, endpoints)) => candidate(bundle) == Ok::<
                (ProjectionModel, Seq<Endpoint>),
                Refusal,
            >((personality@, endpoints@)),
        },
{
    let bundle = match bundle {
        Some(bundle) => bundle,
        None => return Err(Refusal::Undecodable),
    };
    let personality = match discover_bundle(bundle) {
        Ok((_, personality)) => personality,
        Err(error) => return Err(Refusal::Projection(error)),
    };
    let inspection = match inspect(
        personality.descriptors.as_slice(),
        personality.strings.as_slice(),
    ) {
        Ok(inspection) => inspection,
        Err(error) => return Err(Refusal::FunctionFs(error)),
    };
    if inspection.endpoints.len() != personality.endpoints.len() {
        return Err(Refusal::EndpointCount);
    }
    Ok((personality, inspection.endpoints))
}

impl State {
    /// Decides what a worker's configuration calls for; `bundle` is what its body was decoded
    /// to, and `initial` says whether it is the worker's first.
    pub fn configure(
        &self,
        declaration: &Record,
        bundle: Option<UsbPersonality>,
        initial: bool,
    ) -> (configuration: Configuration)
        ensures
            configuration@ == configured(*self, declaration@, bundle, initial),
    {
        if declaration.kind != Kind::Configure || declaration.generation != self.generation
            || declaration.request_id == 0 || declaration.descriptors.len() > 0 {
            return Configuration::Mismatched;
        }
        let request_id: u32 = declaration.request_id;
        if declaration.body.len() == 0 {
            if self.endpoints.is_none() {
                if initial {
                    return Configuration::Ready;
                }
                return Configuration::NothingToRemove;
            }
            let mut plan = self.retire(request_id);
            push_strict(&mut plan, Step::ForgetDetachment);
            assert(plan@ =~= remove_plan(*self, request_id));
            return Configuration::Remove(plan);
        }
        match validate_candidate(bundle) {
            Err(refusal) => {
                let mut plan: Vec<Planned> = Vec::new();
                push_strict(&mut plan, Step::Reject(request_id));
                assert(plan@ =~= seq![strict(Step::Reject(request_id))]);
                Configuration::Refuse(refusal, plan)
            },
            Ok((personality, endpoints)) => Configuration::Install(
                personality,
                endpoints,
                self.install(request_id),
            ),
        }
    }
}

} // verus!
