//! The control endpoint: FunctionFS events, control requests and the transfers they need.

use crate::bytes::{le16_at, le_word, push_bytes};
use crate::lifecycle::{event_body, event_of, UsbBusEvent};
use crate::protocol::{Kind, Record, RecordModel};
use crate::supervisor::{Endpoints, State};
use vstd::prelude::*;
use vstd::slice::{slice_subrange, slice_to_vec};

verus! {

/// The length of a FunctionFS event.
pub const EVENT_LENGTH: usize = 12;

/// The event number of a control request.
pub const SETUP_EVENT: u8 = 4;

/// The error number of a control request that a newer event has overtaken.
pub const EIDRM: i32 = 43;

/// The error number by which FunctionFS confirms a stall.
pub const EL2HLT: i32 = 51;

/// The error number of a control endpoint that has gone.
pub const ESHUTDOWN: i32 = 108;

/// Why the control endpoint cannot be served.
#[derive(Clone, Copy, Debug, Eq, PartialEq, Structural)]
pub enum Ep0Error {
    /// The endpoint was closed.
    Closed,
    /// What was read is not a sequence of events.
    TruncatedEvents,
    UnknownEvent(u8),
    ActivationOverflow,
    RequestOverflow,
    MismatchedResponse,
    InvalidResponse,
    ShortWrite,
    ShortRead,
    /// The endpoint has gone.
    Shutdown,
    /// The endpoint took a stall for a transfer.
    NotStalled,
    /// The system refused a transfer, with this error number.
    Refused(i32),
}

/// One thing that happened on the control endpoint.
#[derive(Clone, Debug, Eq, PartialEq)]
pub enum Ep0Event {
    Bus(UsbBusEvent),
    /// A control request, with its eight setup bytes.
    Setup(Vec<u8>),
    Unknown(u8),
}

/// The contents of an [`Ep0Event`].
pub enum Ep0EventModel {
    Bus(UsbBusEvent),
    Setup(Seq<u8>),
    Unknown(u8),
}

impl View for Ep0Event {
    type V = Ep0EventModel;

    open spec fn view(&self) -> Ep0EventModel {
        match self {
            Ep0Event::Bus(event) => Ep0EventModel::Bus(*event),
            Ep0Event::Setup(setup) => Ep0EventModel::Setup(setup@),
            Ep0Event::Unknown(kind) => Ep0EventModel::Unknown(*kind),
        }
    }
}

/// The event in twelve bytes: eight setup bytes, its number, and padding.
pub open spec fn event_model(bytes: Seq<u8>) -> Ep0EventModel {
    if bytes[8] == SETUP_EVENT {
        Ep0EventModel::Setup(bytes.take(8))
    } else {
        match event_of(bytes[8]) {
            Ok(event) => Ep0EventModel::Bus(event),
            Err(_) => Ep0EventModel::Unknown(bytes[8]),
        }
    }
}

/// The events in what was read from the control endpoint, in their order.
pub open spec fn events_model(bytes: Seq<u8>) -> Seq<Ep0EventModel> {
    Seq::new(
        bytes.len() / 12,
        |i: int| event_model(bytes.subrange(12 * i, 12 * i + 12)),
    )
}

/// The contents of a list of events.
pub open spec fn events_view(events: Seq<Ep0Event>) -> Seq<Ep0EventModel> {
    events.map_values(|event: Ep0Event| event@)
}

/// Splits what was read from the control endpoint into its events.
pub fn read_events(bytes: &[u8]) -> (outcome: Result<Vec<Ep0Event>, Ep0Error>)
    ensures
        match outcome {
            Err(error) => if bytes@.len() == 0 {
                error == Ep0Error::Closed
            } else {
                bytes@.len() % 12 != 0 && error == Ep0Error::TruncatedEvents
            },
            Ok(events) => bytes@.len() > 0 && bytes@.len() % 12 == 0 && events_view(events@)
                == events_model(bytes@),
        },
{
    if bytes.len() == 0 {
        return Err(Ep0Error::Closed);
    }
    if bytes.len() % EVENT_LENGTH != 0 {
        return Err(Ep0Error::TruncatedEvents);
    }
    let count: usize = bytes.len() / EVENT_LENGTH;
    let mut events: Vec<Ep0Event> = Vec::new();
    let mut i: usize = 0;
    while i < count
        invariant
            i <= count,
            count == bytes@.len() / 12,
            bytes@.len() <= usize::MAX,
            events@.len() == i,
            forall|k: int|
                0 <= k < i ==> (#[trigger] events@[k])@ == event_model(
                    bytes@.subrange(12 * k, 12 * k + 12),
                ),
        decreases count - i,
    {
        let event = read_event(slice_subrange(bytes, EVENT_LENGTH * i, EVENT_LENGTH * i + 12));
        events.push(event);
        i = i + 1;
    }
    assert(events_view(events@) =~= events_model(bytes@));
    Ok(events)
}

fn read_event(bytes: &[u8]) -> (event: Ep0Event)
    requires
        bytes@.len() == 12,
    ensures
        event@ == event_model(bytes@),
{
    let kind: u8 = bytes[8];
    if kind == SETUP_EVENT {
        let setup = slice_to_vec(slice_subrange(bytes, 0, 8));
        assert(setup@ =~= bytes@.take(8));
        return Ep0Event::Setup(setup);
    }
    match UsbBusEvent::from_byte(kind) {
        Ok(event) => Ep0Event::Bus(event),
        Err(_) => Ep0Event::Unknown(kind),
    }
}

/// The endpoints after a bus event: enabling disabled endpoints starts a new activation; being
/// bound, unbound or disabled ends it. Suspending and resuming change nothing.
pub open spec fn endpoints_after(endpoints: Endpoints, event: UsbBusEvent) -> Endpoints {
    match event {
        UsbBusEvent::Enable => if endpoints.enabled {
            endpoints
        } else {
            Endpoints { enabled: true, activation: (endpoints.activation + 1) as u64 }
        },
        UsbBusEvent::Bind | UsbBusEvent::Unbind | UsbBusEvent::Disable => Endpoints {
            enabled: false,
            ..endpoints
        },
        UsbBusEvent::Suspend | UsbBusEvent::Resume => endpoints,
    }
}

/// Whether a bus event would count beyond the last activation.
pub open spec fn activation_overflows(endpoints: Endpoints, event: UsbBusEvent) -> bool {
    event == UsbBusEvent::Enable && !endpoints.enabled && endpoints.activation == u64::MAX
}

/// An activation only ever grows, and it grows with each enabling of disabled endpoints.
pub proof fn lemma_activations_grow(endpoints: Endpoints, event: UsbBusEvent)
    requires
        !activation_overflows(endpoints, event),
    ensures
        endpoints_after(endpoints, event).activation >= endpoints.activation,
        event == UsbBusEvent::Enable && !endpoints.enabled ==> endpoints_after(
            endpoints,
            event,
        ).activation > endpoints.activation,
{
}

/// Enabling endpoints after they were disabled starts a strictly newer activation.
pub proof fn lemma_disable_then_enable_is_newer(endpoints: Endpoints)
    requires
        endpoints.activation < u64::MAX,
    ensures
        endpoints_after(
            endpoints_after(endpoints, UsbBusEvent::Disable),
            UsbBusEvent::Enable,
        ).activation > endpoints.activation,
{
}

/// Enabling enabled endpoints again changes nothing.
pub proof fn lemma_enable_is_idempotent(endpoints: Endpoints)
    requires
        endpoints.activation < u64::MAX,
    ensures
        endpoints_after(
            endpoints_after(endpoints, UsbBusEvent::Enable),
            UsbBusEvent::Enable,
        ) == endpoints_after(endpoints, UsbBusEvent::Enable),
{
}

/// Suspending and resuming keep the activation and the endpoints.
pub proof fn lemma_suspend_keeps_activation(endpoints: Endpoints)
    ensures
        endpoints_after(endpoints, UsbBusEvent::Suspend) == endpoints,
        endpoints_after(endpoints, UsbBusEvent::Resume) == endpoints,
{
}

/// Whether a control request is answered with data.
pub open spec fn request_reads(setup: Seq<u8>) -> bool {
    setup[0] & 0x80 != 0
}

/// The number of data bytes that a control request asks for or brings.
pub open spec fn request_length(setup: Seq<u8>) -> u16 {
    le16_at(setup, 6)
}

/// A control request in its setup bytes.
#[derive(Clone, Copy, Debug, Eq, PartialEq, Structural)]
pub struct ControlRequest {
    pub direction_in: bool,
    pub transfer_length: u16,
}

/// What is to be done to answer a control request.
#[derive(Clone, Debug, Eq, PartialEq)]
pub enum Ep0Reply {
    Stall,
    Acknowledge,
    Data(Vec<u8>),
}

/// The contents of an [`Ep0Reply`].
pub enum Ep0ReplyModel {
    Stall,
    Acknowledge,
    Data(Seq<u8>),
}

impl View for Ep0Reply {
    type V = Ep0ReplyModel;

    open spec fn view(&self) -> Ep0ReplyModel {
        match self {
            Ep0Reply::Stall => Ep0ReplyModel::Stall,
            Ep0Reply::Acknowledge => Ep0ReplyModel::Acknowledge,
            Ep0Reply::Data(data) => Ep0ReplyModel::Data(data@),
        }
    }
}

/// Whether a record answers the control request `request_id` of the generation.
pub open spec fn answers_request(response: RecordModel, generation: u32, request_id: u32) -> bool {
    &&& response.kind == Kind::UsbControlResponse
    &&& response.generation == generation
    &&& response.request_id == request_id
    &&& response.descriptors.len() == 0
    &&& response.body.len() > 0
}

/// The shorter of two lengths.
pub open spec fn shorter(a: int, b: int) -> int {
    if a <= b {
        a
    } else {
        b
    }
}

/// How a control request is answered by a response's body: its first byte says in which way, and
/// data is cut to the length that was asked for.
pub open spec fn reply_of(request: ControlRequest, body: Seq<u8>) -> Option<Ep0ReplyModel> {
    if body[0] == 0 && body.len() == 1 {
        Some(Ep0ReplyModel::Stall)
    } else if body[0] == 1 && body.len() == 1 && !request.direction_in {
        Some(Ep0ReplyModel::Acknowledge)
    } else if body[0] == 2 && request.direction_in {
        Some(
            Ep0ReplyModel::Data(
                body.subrange(
                    1,
                    1 + shorter(body.len() - 1, request.transfer_length as int),
                ),
            ),
        )
    } else {
        None
    }
}

/// Data never exceeds what a control request asked for.
pub proof fn lemma_reply_is_clipped(request: ControlRequest, body: Seq<u8>)
    requires
        body.len() > 0,
    ensures
        reply_of(request, body) matches Some(Ep0ReplyModel::Data(data)) ==> data.len()
            <= request.transfer_length,
{
}

impl ControlRequest {
    /// The request in eight setup bytes.
    pub fn new(setup: &[u8]) -> (made: Self)
        requires
            setup@.len() == 8,
        ensures
            made.direction_in == request_reads(setup@),
            made.transfer_length == request_length(setup@),
    {
        ControlRequest {
            direction_in: setup[0] & 0x80 != 0,
            transfer_length: le_word(setup, 6),
        }
    }

    /// The number of data bytes to read before the request goes to the worker.
    pub fn data_length(self) -> (length: usize)
        ensures
            length == if self.direction_in {
                0
            } else {
                self.transfer_length as int
            },
    {
        if self.direction_in {
            0
        } else {
            self.transfer_length as usize
        }
    }

    /// How the request is answered by the worker's response.
    pub fn reply(self, response: &Record, generation: u32, request_id: u32) -> (outcome: Result<
        Ep0Reply,
        Ep0Error,
    >)
        ensures
            match outcome {
                Ok(reply) => answers_request(response@, generation, request_id) && reply_of(
                    self,
                    response@.body,
                ) == Some(reply@),
                Err(error) => if !answers_request(response@, generation, request_id) {
                    error == Ep0Error::MismatchedResponse
                } else {
                    reply_of(self, response@.body) is None && error == Ep0Error::InvalidResponse
                },
            },
    {
        if response.kind != Kind::UsbControlResponse || response.generation != generation
            || response.request_id != request_id || response.descriptors.len() > 0
            || response.body.len() == 0 {
            return Err(Ep0Error::MismatchedResponse);
        }
        let body = response.body.as_slice();
        if body[0] == 0 && body.len() == 1 {
            return Ok(Ep0Reply::Stall);
        }
        if body[0] == 1 && body.len() == 1 && !self.direction_in {
            return Ok(Ep0Reply::Acknowledge);
        }
        if body[0] == 2 && self.direction_in {
            let available: usize = body.len() - 1;
            let length: usize = if available <= self.transfer_length as usize {
                available
            } else {
                self.transfer_length as usize
            };
            return Ok(Ep0Reply::Data(slice_to_vec(slice_subrange(body, 1, 1 + length))));
        }
        Err(Ep0Error::InvalidResponse)
    }
}

impl State {
    /// Follows a bus event and gives the record that tells the worker of it.
    pub fn forward_bus_event(&mut self, event: UsbBusEvent) -> (outcome: Result<Record, Ep0Error>)
        requires
            old(self).endpoints is Some,
        ensures
            match outcome {
                Err(error) => {
                    &&& error == Ep0Error::ActivationOverflow
                    &&& activation_overflows(old(self).endpoints->0, event)
                    &&& *final(self) == *old(self)
                },
                Ok(record) => {
                    let after = endpoints_after(old(self).endpoints->0, event);
                    &&& !activation_overflows(old(self).endpoints->0, event)
                    &&& *final(self) == (State { endpoints: Some(after), ..*old(self) })
                    &&& record@ == (RecordModel {
                        kind: Kind::UsbBusEvent,
                        generation: old(self).generation,
                        request_id: 0,
                        body: event_body(event, after.activation),
                        descriptors: seq![],
                    })
                },
            },
    {
        let mut activation: u64 = 0;
        if let Some(before) = self.endpoints {
            let mut endpoints = before;
            match event {
                UsbBusEvent::Enable => {
                    if !endpoints.enabled {
                        if endpoints.activation == u64::MAX {
                            return Err(Ep0Error::ActivationOverflow);
                        }
                        endpoints.activation = endpoints.activation + 1;
                        endpoints.enabled = true;
                    }
                },
                UsbBusEvent::Bind | UsbBusEvent::Unbind | UsbBusEvent::Disable => {
                    endpoints.enabled = false;
                },
                UsbBusEvent::Suspend | UsbBusEvent::Resume => {},
            }
            activation = endpoints.activation;
            self.endpoints = Some(endpoints);
        }
        let encoded: [u8; 9] = event.encode(activation);
        let body = slice_to_vec(encoded.as_slice());
        Ok(Record::new(Kind::UsbBusEvent, self.generation, 0, body))
    }

    /// Numbers a control request and gives the record that hands it to the worker, with the data
    /// that came with the request.
    pub fn forward_control_request(&mut self, setup: &[u8], data: &[u8]) -> (outcome: Result<
        Record,
        Ep0Error,
    >)
        ensures
            match outcome {
                Err(error) => {
                    &&& error == Ep0Error::RequestOverflow
                    &&& old(self).next_control_request == u32::MAX
                    &&& *final(self) == *old(self)
                },
                Ok(record) => {
                    &&& old(self).next_control_request < u32::MAX
                    &&& *final(self) == (State {
                        next_control_request: (old(self).next_control_request + 1) as u32,
                        ..*old(self)
                    })
                    &&& record@ == (RecordModel {
                        kind: Kind::UsbControlRequest,
                        generation: old(self).generation,
                        request_id: old(self).next_control_request,
                        body: setup@ + data@,
                        descriptors: seq![],
                    })
                },
            },
    {
        if self.next_control_request == u32::MAX {
            return Err(Ep0Error::RequestOverflow);
        }
        let request_id: u32 = self.next_control_request;
        self.next_control_request = request_id + 1;
        let mut body: Vec<u8> = Vec::new();
        push_bytes(&mut body, setup);
        push_bytes(&mut body, data);
        assert(body@ =~= setup@ + data@);
        Ok(Record::new(Kind::UsbControlRequest, self.generation, request_id, body))
    }
}

/// Whether a control request failed only because a newer event has overtaken it.
pub fn control_request_cancelled(errno: Option<i32>) -> (cancelled: bool)
    ensures
        cancelled == (errno == Some(EIDRM)),
{
    match errno {
        Some(errno) => errno == EIDRM,
        None => false,
    }
}

/// What came of stalling the control endpoint, which succeeds by one particular refusal;
/// `errno` is the error number, or nothing where the endpoint went on.
pub fn stall_outcome(errno: Option<i32>) -> (outcome: Result<(), Ep0Error>)
    ensures
        outcome == match errno {
            None => Err::<(), Ep0Error>(Ep0Error::NotStalled),
            Some(errno) => if errno == EL2HLT {
                Ok(())
            } else {
                Err(Ep0Error::Refused(errno))
            },
        },
{
    match errno {
        None => Err(Ep0Error::NotStalled),
        Some(errno) => {
            if errno == EL2HLT {
                return Ok(());
            }
            Err(Ep0Error::Refused(errno))
        },
    }
}

/// A transfer over the control endpoint.
#[derive(Clone, Copy, Debug, Eq, PartialEq, Structural)]
pub struct Transfer {
    pub write: bool,
    pub length: usize,
    pub offset: usize,
}

/// What the system said when it was asked to transfer.
#[derive(Clone, Copy, Debug, Eq, PartialEq, Structural)]
pub enum TransferEvent {
    /// So many bytes went over.
    Moved(usize),
    /// A signal came in between.
    Interrupted,
    /// The endpoint is not ready.
    NotReady,
    /// The endpoint has become ready, or a signal came in between.
    Ready,
    /// The endpoint has gone.
    Gone,
    /// The system refused, with this error number.
    Refused(i32),
}

/// What a transfer is to do next.
#[derive(Clone, Copy, Debug, Eq, PartialEq, Structural)]
pub enum TransferStep {
    /// Ask the system for the bytes from the offset on.
    Move,
    /// Wait until the endpoint is ready.
    Wait,
    Done,
    Fail(Ep0Error),
}

/// A transfer and its next step after the system has spoken. A write goes over whole or fails;
/// a read goes on until it is complete or nothing more comes.
pub open spec fn transfer_after(transfer: Transfer, event: TransferEvent) -> (
    Transfer,
    TransferStep,
) {
    match event {
        TransferEvent::Moved(count) => if transfer.write {
            (
                transfer,
                if count == transfer.length - transfer.offset {
                    TransferStep::Done
                } else {
                    TransferStep::Fail(Ep0Error::ShortWrite)
                },
            )
        } else {
            let moved = Transfer { offset: (transfer.offset + count) as usize, ..transfer };
            (
                moved,
                if moved.offset == transfer.length {
                    TransferStep::Done
                } else if count == 0 {
                    TransferStep::Fail(Ep0Error::ShortRead)
                } else {
                    TransferStep::Move
                },
            )
        },
        TransferEvent::Interrupted => (transfer, TransferStep::Move),
        TransferEvent::Ready => (transfer, TransferStep::Move),
        TransferEvent::NotReady => (transfer, TransferStep::Wait),
        TransferEvent::Gone => (transfer, TransferStep::Fail(Ep0Error::Shutdown)),
        TransferEvent::Refused(errno) => (transfer, TransferStep::Fail(Ep0Error::Refused(errno))),
    }
}

impl Transfer {
    /// No more has gone over than was to.
    pub open spec fn wf(self) -> bool {
        self.offset <= self.length
    }

    /// A transfer of `length` bytes of which none has gone over.
    pub fn new(write: bool, length: usize) -> (made: Self)
        ensures
            made == (Transfer { write, length, offset: 0 }),
            made.wf(),
    {
        Transfer { write, length, offset: 0 }
    }

    /// Follows what the system said; no more bytes can have gone over than were left.
    pub fn follow(&mut self, event: TransferEvent) -> (step: TransferStep)
        requires
            old(self).wf(),
            event matches TransferEvent::Moved(count) ==> count <= old(self).length - old(
                self
            ).offset,
        ensures
            (*final(self), step) == transfer_after(*old(self), event),
            final(self).wf(),
    {
        match event {
            TransferEvent::Moved(count) => {
                if self.write {
                    if count == self.length - self.offset {
                        return TransferStep::Done;
                    }
                    return TransferStep::Fail(Ep0Error::ShortWrite);
                }
                self.offset = self.offset + count;
                if self.offset == self.length {
                    TransferStep::Done
                } else if count == 0 {
                    TransferStep::Fail(Ep0Error::ShortRead)
                } else {
                    TransferStep::Move
                }
            },
            TransferEvent::Interrupted => TransferStep::Move,
            TransferEvent::Ready => TransferStep::Move,
            TransferEvent::NotReady => TransferStep::Wait,
            TransferEvent::Gone => TransferStep::Fail(Ep0Error::Shutdown),
            TransferEvent::Refused(errno) => TransferStep::Fail(Ep0Error::Refused(errno)),
        }
    }
}

/// A transfer is done only once all of it has gone over.
pub proof fn lemma_transfer_is_whole(transfer: Transfer, event: TransferEvent)
    requires
        transfer.wf(),
        event matches TransferEvent::Moved(count) ==> count <= transfer.length - transfer.offset,
        transfer_after(transfer, event).1 == TransferStep::Done,
    ensures
        event is Moved,
        transfer.offset + event->Moved_0 == transfer.length,
{
}

} // verus!
