//! USB bus events, and the activations by which endpoint helpers follow them.

use crate::bytes::{be64, be64_at, be_u64, lemma_be64_round_trip, push_be64};
use vstd::prelude::*;

verus! {

/// The length of a bus event record's body.
pub const USB_BUS_EVENT_BODY_LENGTH: usize = 9;

/// What happened to the device on its bus.
#[derive(Clone, Copy, Debug, Eq, PartialEq, Structural)]
pub enum UsbBusEvent {
    Bind,
    Unbind,
    Enable,
    Disable,
    Suspend,
    Resume,
}

/// Why a bus event was not understood.
#[derive(Clone, Copy, Debug, Eq, PartialEq, Structural)]
pub enum BusEventError {
    UnknownEvent(u8),
    InvalidBody,
}

impl UsbBusEvent {
    /// The byte that stands for an event.
    pub open spec fn byte(self) -> u8 {
        match self {
            UsbBusEvent::Bind => 0,
            UsbBusEvent::Unbind => 1,
            UsbBusEvent::Enable => 2,
            UsbBusEvent::Disable => 3,
            UsbBusEvent::Suspend => 5,
            UsbBusEvent::Resume => 6,
        }
    }

    /// The byte that stands for this event.
    pub fn to_byte(self) -> (byte: u8)
        ensures
            byte == self.byte(),
    {
        match self {
            UsbBusEvent::Bind => 0,
            UsbBusEvent::Unbind => 1,
            UsbBusEvent::Enable => 2,
            UsbBusEvent::Disable => 3,
            UsbBusEvent::Suspend => 5,
            UsbBusEvent::Resume => 6,
        }
    }

    /// The event that a byte stands for.
    pub fn from_byte(value: u8) -> (outcome: Result<UsbBusEvent, BusEventError>)
        ensures
            outcome == event_of(value),
    {
        match value {
            0 => Ok(UsbBusEvent::Bind),
            1 => Ok(UsbBusEvent::Unbind),
            2 => Ok(UsbBusEvent::Enable),
            3 => Ok(UsbBusEvent::Disable),
            5 => Ok(UsbBusEvent::Suspend),
            6 => Ok(UsbBusEvent::Resume),
            _ => Err(BusEventError::UnknownEvent(value)),
        }
    }

    /// The body of this event's record.
    pub fn encode(self, activation: u64) -> (body: [u8; 9])
        ensures
            body@ == event_body(self, activation),
    {
        let mut digits: Vec<u8> = Vec::new();
        push_be64(&mut digits, activation);
        let body: [u8; 9] = [
            self.to_byte(),
            digits[0],
            digits[1],
            digits[2],
            digits[3],
            digits[4],
            digits[5],
            digits[6],
            digits[7],
        ];
        assert(body@ =~= event_body(self, activation));
        body
    }

    /// The event and the activation in a record's body.
    pub fn decode(body: &[u8]) -> (outcome: Result<(UsbBusEvent, u64), BusEventError>)
        ensures
            outcome == event_in(body@),
    {
        if body.len() != USB_BUS_EVENT_BODY_LENGTH {
            return Err(BusEventError::InvalidBody);
        }
        match UsbBusEvent::from_byte(body[0]) {
            Ok(event) => Ok((event, be_u64(body, 1))),
            Err(error) => Err(error),
        }
    }
}

/// The event that a byte stands for. Setup requests, whose number is four, travel in records of
/// their own.
pub open spec fn event_of(value: u8) -> Result<UsbBusEvent, BusEventError> {
    if value == 0 {
        Ok(UsbBusEvent::Bind)
    } else if value == 1 {
        Ok(UsbBusEvent::Unbind)
    } else if value == 2 {
        Ok(UsbBusEvent::Enable)
    } else if value == 3 {
        Ok(UsbBusEvent::Disable)
    } else if value == 5 {
        Ok(UsbBusEvent::Suspend)
    } else if value == 6 {
        Ok(UsbBusEvent::Resume)
    } else {
        Err(BusEventError::UnknownEvent(value))
    }
}

/// The body of an event's record.
pub open spec fn event_body(event: UsbBusEvent, activation: u64) -> Seq<u8> {
    seq![event.byte()] + be64(activation)
}

/// The event and the activation in a record's body.
pub open spec fn event_in(body: Seq<u8>) -> Result<(UsbBusEvent, u64), BusEventError> {
    if body.len() != USB_BUS_EVENT_BODY_LENGTH {
        Err(BusEventError::InvalidBody)
    } else {
        match event_of(body[0]) {
            Err(error) => Err(error),
            Ok(event) => Ok((event, be64_at(body, 1))),
        }
    }
}

/// A bus event reads back as it was written, with its activation.
pub proof fn lemma_bus_event_round_trip(event: UsbBusEvent, activation: u64)
    ensures
        event_in(event_body(event, activation)) == Ok::<(UsbBusEvent, u64), BusEventError>(
            (event, activation),
        ),
{
    let body = event_body(event, activation);
    lemma_be64_round_trip(activation);
    assert(body.subrange(1, 9) =~= be64(activation));
    assert(be64_at(body, 1) == be64_at(body.subrange(1, 9), 0));
}

/// The endpoint activation of a generation, and whether the generation is stopping.
///
/// An endpoint helper whose operation was cancelled waits for a strictly newer activation before
/// it tries again. Stopping ends every wait.
#[derive(Debug)]
pub struct EndpointLifecycle {
    pub activation: u64,
    pub stopping: bool,
}

/// What a helper that waits for an activation is to do.
#[derive(Clone, Copy, Debug, Eq, PartialEq, Structural)]
pub enum Wait {
    Blocked,
    Active(u64),
    Stopping,
}

impl EndpointLifecycle {
    /// No activation yet.
    pub fn new() -> (made: Self)
        ensures
            made == (EndpointLifecycle { activation: 0, stopping: false }),
    {
        EndpointLifecycle { activation: 0, stopping: false }
    }

    /// The state after an activation was reported: a newer one counts until the generation
    /// stops.
    pub open spec fn activated(self, activation: u64) -> Self {
        if !self.stopping && activation > self.activation {
            EndpointLifecycle { activation, ..self }
        } else {
            self
        }
    }

    /// Reports an activation and says whether waiting helpers are to be woken.
    pub fn activate(&mut self, activation: u64) -> (wake: bool)
        ensures
            *final(self) == old(self).activated(activation),
            wake == (!old(self).stopping && activation > old(self).activation),
    {
        if !self.stopping && activation > self.activation {
            self.activation = activation;
            true
        } else {
            false
        }
    }

    /// Stops the generation and says whether waiting helpers are to be woken.
    pub fn stop(&mut self) -> (wake: bool)
        ensures
            *final(self) == (EndpointLifecycle { stopping: true, ..*old(self) }),
            wake == !old(self).stopping,
    {
        let wake = !self.stopping;
        self.stopping = true;
        wake
    }

    /// What a helper that saw the activation `observed` is to do.
    pub open spec fn wait_after(self, observed: u64) -> Wait {
        if self.stopping {
            Wait::Stopping
        } else if self.activation <= observed {
            Wait::Blocked
        } else {
            Wait::Active(self.activation)
        }
    }

    /// What a helper that saw the activation `observed` is to do: wait on, go on with a newer
    /// activation, or end because the generation is stopping.
    pub fn wait_for_activation_after(&self, observed: u64) -> (wait: Wait)
        ensures
            wait == self.wait_after(observed),
    {
        if self.stopping {
            Wait::Stopping
        } else if self.activation <= observed {
            Wait::Blocked
        } else {
            Wait::Active(self.activation)
        }
    }
}

/// A helper only ever goes on with a strictly newer activation.
pub proof fn lemma_wait_is_strict(state: EndpointLifecycle, observed: u64)
    ensures
        state.wait_after(observed) matches Wait::Active(activation) ==> activation > observed,
{
}

/// Activations never go back.
pub proof fn lemma_activation_grows(state: EndpointLifecycle, activation: u64)
    ensures
        state.activated(activation).activation >= state.activation,
        state.activated(activation).stopping == state.stopping,
{
}

/// Once a generation stops, no activation ends a wait with anything but the stop.
pub proof fn lemma_stop_is_final(state: EndpointLifecycle, activation: u64, observed: u64)
    requires
        state.stopping,
    ensures
        state.activated(activation) == state,
        state.activated(activation).wait_after(observed) == Wait::Stopping,
{
}

} // verus!
