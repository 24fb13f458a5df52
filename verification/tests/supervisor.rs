use usb_gadget_supervisor::protocol::{Kind, Record};
use usb_gadget_supervisor::supervisor::{
    continuation, unbind_event, Configuration, Continuation, Endpoints, Event, Planned, Refusal, State, Step, Task,
};
use usb_gadget_supervisor::{StringDescriptor, UsbPersonality, UsbSpeed};

fn personality() -> UsbPersonality {
    UsbPersonality::new(
        UsbSpeed::FullSpeed,
        vec![18, 1, 0, 2, 0, 0, 0, 64, 0x09, 0x12, 1, 0, 0, 1, 0, 0, 0, 1],
        vec![
            9, 2, 25, 0, 1, 1, 0, 0x80, 25, 9, 4, 0, 0, 1, 3, 0, 0, 0, 7, 5, 0x81, 3, 64, 0, 1,
        ],
    )
    .with_string(StringDescriptor::new(0, 0, vec![4, 3, 0x09, 0x04]))
}

fn declaration(generation: u32, body: Vec<u8>) -> Record {
    Record::new(Kind::Configure, generation, 5, body)
}

fn serving() -> State {
    let mut state = State::new(true);
    state.generation = 4;
    state.endpoints = Some(Endpoints {
        enabled: true,
        activation: 2,
    });
    state.owns_gadget = true;
    state.functionfs_mounted = true;
    state.worker = true;
    state.control = true;
    state
}

fn steps(plan: &[Planned]) -> Vec<Step> {
    plan.iter().map(|planned| planned.step).collect()
}

/// Carries a plan out; the steps in `failing` fail.
fn carry_out(state: &mut State, plan: Vec<Planned>, failing: &[Step]) -> (Vec<Step>, Option<usize>) {
    let mut task = Task::new(plan);
    let mut done = Vec::new();
    while let Some(step) = task.next() {
        done.push(step);
        let event = if failing.contains(&step) {
            Event::Failed
        } else if step == Step::Unbind {
            Event::Detached(77)
        } else {
            Event::Done
        };
        task.complete(state, event);
    }
    (done, task.failure())
}

#[test]
fn setup_starts_a_worker() {
    let mut state = State::new(false);
    let plan = state.setup();
    let (done, failure) = carry_out(&mut state, plan, &[]);
    assert_eq!(
        done,
        [
            Step::DetachStaleGadget,
            Step::RemoveStaleGadget,
            Step::UnmountFunctionfs,
            Step::RemoveMountPoint,
            Step::PrepareDirectories,
            Step::OpenResources,
            Step::OpenChannel,
            Step::SpawnWorker,
            Step::SendResources,
            Step::ReceiveConfiguration
        ]
    );
    assert_eq!(failure, None);
    assert!(state.worker && state.control);
    let mut state = State::new(false);
    let plan = state.setup();
    let (done, failure) = carry_out(&mut state, plan, &[Step::SpawnWorker]);
    assert_eq!(done.len(), 8);
    assert_eq!(failure, Some(7));
    assert!(!state.worker && !state.control);
    let mut state = State::new(false);
    let plan = state.setup();
    let (done, failure) = carry_out(&mut state, plan, &[Step::SendResources]);
    assert_eq!(*done.last().unwrap(), Step::SendResources);
    assert_eq!(failure, Some(8));
    assert!(!state.worker && !state.control);
    let mut state = State::new(false);
    let plan = state.setup();
    let (_, failure) = carry_out(&mut state, plan, &[Step::ReceiveConfiguration]);
    assert_eq!(failure, Some(9));
    assert!(state.worker && state.control);
    let mut state = State::new(false);
    let plan = state.setup();
    let stale = [Step::DetachStaleGadget, Step::RemoveStaleGadget];
    let (done, failure) = carry_out(&mut state, plan, &stale);
    assert_eq!(done, stale);
    assert_eq!(failure, Some(1));
    assert!(state.owns_gadget);
}

#[test]
fn first_configuration_is_built_and_bound() {
    let mut state = State::new(false);
    state.worker = true;
    state.control = true;
    let configuration = state.configure(&declaration(0, vec![1]), Some(personality()), true);
    let (shown, endpoints, plan) = match configuration {
        Configuration::Install(shown, endpoints, plan) => (shown, endpoints, plan),
        other => panic!("unexpected decision {other:?}"),
    };
    assert_eq!(shown.device.vendor_id, 0x1209);
    assert_eq!(endpoints.len(), 1);
    let (done, failure) = carry_out(&mut state, plan, &[]);
    assert_eq!(
        done,
        [
            Step::LimitReplies,
            Step::Advance,
            Step::CreateGadget,
            Step::PopulateGadget,
            Step::MountFunctionfs,
            Step::PublishFunctionfs,
            Step::LinkFunction,
            Step::SendEndpoints(5),
            Step::AwaitServing(5),
            Step::Dwell,
            Step::Bind,
            Step::UnlimitReplies,
            Step::PersistBundle,
        ]
    );
    assert_eq!(failure, None);
    assert_eq!(state.generation, 1);
    assert_eq!(
        state.endpoints,
        Some(Endpoints {
            enabled: false,
            activation: 0
        })
    );
    assert!(state.owns_gadget && state.functionfs_mounted);
}

#[test]
fn replacement_detaches_then_quiesces_then_removes() {
    let mut state = serving();
    let configuration = state.configure(&declaration(4, vec![1]), Some(personality()), false);
    let plan = match configuration {
        Configuration::Install(_, _, plan) => plan,
        other => panic!("unexpected decision {other:?}"),
    };
    assert_eq!(
        steps(&plan)[..9],
        [
            Step::Unbind,
            Step::Quiesce(5),
            Step::Unbind,
            Step::CloseEndpoints,
            Step::UnmountFunctionfs,
            Step::RemoveGadget,
            Step::RemoveMountPoint,
            Step::Check,
            Step::LimitReplies,
        ]
    );
    let (done, failure) = carry_out(&mut state, plan, &[Step::AwaitServing(5)]);
    assert!(!done.contains(&Step::Bind));
    assert_eq!(done[failure.unwrap()], Step::AwaitServing(5));
    assert_eq!(state.generation, 5);
}

#[test]
fn empty_configuration_removes_the_device() {
    let mut state = serving();
    let plan = match state.configure(&declaration(4, vec![]), None, false) {
        Configuration::Remove(plan) => plan,
        other => panic!("unexpected decision {other:?}"),
    };
    let (done, failure) = carry_out(&mut state, plan, &[]);
    assert_eq!(*done.last().unwrap(), Step::ForgetDetachment);
    assert_eq!(failure, None);
    assert_eq!(state.detached_at, None);
    assert!(state.worker && state.control);
    assert!(state.endpoints.is_none() && !state.owns_gadget && !state.functionfs_mounted);
    assert_eq!(state.generation, 4);
    assert!(matches!(
        State::new(false).configure(&declaration(0, vec![]), None, true),
        Configuration::Ready
    ));
    assert!(matches!(
        State::new(false).configure(&declaration(0, vec![]), None, false),
        Configuration::NothingToRemove
    ));
}

#[test]
fn refused_configuration_leaves_the_device() {
    let mut state = serving();
    let before = state;
    let mut broken = personality();
    broken.device_descriptor[17] = 2;
    let (refusal, plan) = match state.configure(&declaration(4, vec![1]), Some(broken), false) {
        Configuration::Refuse(refusal, plan) => (refusal, plan),
        other => panic!("unexpected decision {other:?}"),
    };
    assert!(matches!(refusal, Refusal::Projection(_)));
    let (done, _) = carry_out(&mut state, plan, &[]);
    assert_eq!(done, [Step::Reject(5)]);
    assert_eq!(state, before);
}

#[test]
fn first_configuration_has_to_be_taken() {
    let first = State::new(false);
    let next = |state: &State, body: Vec<u8>, bundle: Option<UsbPersonality>, initial: bool| {
        let configuration = state.configure(&declaration(state.generation, body), bundle, initial);
        continuation(&configuration, initial)
    };
    assert_eq!(next(&first, vec![1], None, true), Continuation::Fail);
    assert_eq!(next(&first, vec![1], None, false), Continuation::Serve);
    assert_eq!(next(&first, vec![], None, true), Continuation::ServeUnlimited);
    assert_eq!(next(&first, vec![], None, false), Continuation::Fail);
    assert_eq!(next(&first, vec![1], Some(personality()), true), Continuation::Serve);
    assert_eq!(next(&serving(), vec![1], None, false), Continuation::Serve);
    assert_eq!(next(&serving(), vec![], None, false), Continuation::Serve);
    let mismatched = first.configure(&declaration(9, vec![]), None, true);
    assert_eq!(continuation(&mismatched, true), Continuation::Fail);
}

#[test]
fn reload_remembers_the_detachment() {
    let mut state = serving();
    let plan = state.reload_profile();
    let (_, failure) = carry_out(&mut state, plan, &[]);
    assert_eq!(failure, None);
    assert_eq!(state.generation, 0);
    assert!(state.worker && state.control && state.endpoints.is_none());
    assert_eq!(state.detached_at, Some(77));
}

#[test]
fn mismatched_configurations_are_not_followed() {
    let state = serving();
    let judge = |record: &Record| {
        matches!(
            state.configure(record, Some(personality()), false),
            Configuration::Mismatched
        )
    };
    assert!(!judge(&declaration(4, vec![1])));
    assert!(judge(&declaration(3, vec![1])));
    assert!(judge(&Record::new(Kind::Serving, 4, 5, vec![1])));
    assert!(judge(&Record::new(Kind::Configure, 4, 0, vec![1])));
    let mut record = declaration(4, vec![1]);
    record.descriptors.push(8);
    assert!(judge(&record));
}

#[test]
fn generations_do_not_overflow() {
    let mut state = State::new(false);
    state.generation = u32::MAX;
    let plan = match state.configure(&declaration(u32::MAX, vec![1]), Some(personality()), true) {
        Configuration::Install(_, _, plan) => plan,
        other => panic!("unexpected decision {other:?}"),
    };
    let (done, failure) = carry_out(&mut state, plan, &[]);
    assert_eq!(done, [Step::LimitReplies, Step::Advance]);
    assert_eq!(failure, Some(1));
    assert_eq!(state.generation, u32::MAX);
}

#[test]
fn cleanup_tries_everything_once() {
    let mut state = serving();
    let plan = state.cleanup();
    let (done, failure) = carry_out(&mut state, plan, &[Step::Quiesce(0), Step::UnmountFunctionfs]);
    assert_eq!(
        done,
        [
            Step::Unbind,
            Step::Quiesce(0),
            Step::CloseControl,
            Step::StopWorker,
            Step::Unbind,
            Step::CloseEndpoints,
            Step::UnmountFunctionfs,
            Step::RemoveGadget,
            Step::RemoveMountPoint,
            Step::RemoveRuntimeDirectory,
            Step::UnmountConfigfs,
            Step::MarkCleaned,
            Step::Check,
        ]
    );
    assert_eq!(failure, Some(1));
    assert!(state.cleaned && !state.worker && !state.owns_gadget && !state.configfs_mounted);
    assert!(state.cleanup().is_empty());
}

#[test]
fn teardown_fails_after_trying_every_step() {
    let mut state = serving();
    let plan = state.stop_usb_generation();
    let (done, failure) = carry_out(&mut state, plan, &[Step::RemoveGadget]);
    assert_eq!(done.len(), 6);
    assert_eq!(done[failure.unwrap()], Step::RemoveGadget);
    assert!(!state.owns_gadget && state.endpoints.is_none());
}

#[test]
fn restart_and_reload_end_the_worker_before_unmounting() {
    let mut state = serving();
    let plan = state.restart_worker();
    let order = steps(&plan);
    let position = |step: Step| order.iter().position(|other| *other == step).unwrap();
    assert!(position(Step::StopWorker) < position(Step::UnmountFunctionfs));
    assert!(!order.contains(&Step::Quiesce(0)));
    let (_, failure) = carry_out(&mut state, plan, &[]);
    assert_eq!(failure, None);
    assert_eq!(state.generation, 0);
    assert_eq!(state.detached_at, Some(77));
    let order = steps(&serving().reload_profile());
    let position = |step: Step| order.iter().position(|other| *other == step).unwrap();
    assert!(position(Step::Quiesce(0)) < position(Step::StopWorker));
    assert!(position(Step::StopWorker) < position(Step::UnmountFunctionfs));
    assert!(position(Step::RemoveMountPoint) < position(Step::AdoptProfile));
    assert!(position(Step::AdoptProfile) < position(Step::SpawnWorker));
    assert!(position(Step::OpenResources) < position(Step::SpawnWorker));
    let mut state = serving();
    let plan = state.reload_profile();
    let (done, failure) = carry_out(&mut state, plan, &[Step::Quiesce(0)]);
    assert_eq!(done, [Step::Unbind, Step::Quiesce(0)]);
    assert_eq!(failure, Some(1));
    assert!(!state.control);
    assert!(!steps(&state.cleanup()).contains(&Step::Quiesce(0)));
    assert_eq!(steps(&state.cleanup())[0], Step::Unbind);
}

#[test]
fn detaching_comes_out_in_three_ways() {
    assert_eq!(unbind_event(false, Some(5), 9), Event::Done);
    assert_eq!(unbind_event(true, None, 9), Event::Detached(9));
    assert_eq!(unbind_event(true, Some(19), 9), Event::Done);
    assert_eq!(unbind_event(true, Some(5), 9), Event::Failed);
}

#[test]
fn replacement_remembers_the_detachment_until_the_pause() {
    let mut state = serving();
    let plan = match state.configure(&declaration(4, vec![1]), Some(personality()), false) {
        Configuration::Install(_, _, plan) => plan,
        other => panic!("unexpected decision {other:?}"),
    };
    let mut task = Task::new(plan);
    while let Some(step) = task.next() {
        if step == Step::Dwell {
            assert_eq!(state.detached_at, Some(77));
        }
        if step == Step::Bind {
            assert_eq!(state.detached_at, None);
        }
        let event = if step == Step::Unbind {
            Event::Detached(77)
        } else {
            Event::Done
        };
        task.complete(&mut state, event);
    }
    assert_eq!(task.failure(), None);
}
