//! What the host sees of its control requests, byte for byte.

use crate::ep0::{
    activation_overflows, answers_request, endpoints_after, event_model, events_model, reply_of,
    request_length, request_reads, transfer_after, ControlRequest, Ep0Error, Ep0EventModel,
    Ep0ReplyModel, Transfer, TransferEvent, TransferStep, EIDRM, EL2HLT, ESHUTDOWN,
};
use crate::lifecycle::{event_body, event_of, UsbBusEvent};
use crate::protocol::{Kind, RecordModel};
use crate::supervisor::Endpoints;
use vstd::prelude::*;

verus! {

/// The host gets the worker's data whole where it fits into what was asked for, and otherwise its
/// first bytes, as many as were asked for.
pub proof fn lemma_host_gets_the_data(request: ControlRequest, body: Seq<u8>, data: Seq<u8>)
    requires
        request.direction_in,
        body == seq![2u8] + data,
    ensures
        ({
            let reply = reply_of(request, body);
            &&& reply is Some
            &&& reply->0 is Data
            &&& data.len() <= request.transfer_length ==> reply->0->Data_0 == data
            &&& data.len() > request.transfer_length ==> reply->0->Data_0.len()
                == request.transfer_length
            &&& forall|i: int|
                0 <= i < data.len() && i < request.transfer_length
                    ==> #[trigger] reply->0->Data_0[i] == data[i]
        }),
{
    let reply = reply_of(request, body);
    assert(body[0] == 2);
    if data.len() <= request.transfer_length {
        assert(reply->0->Data_0 =~= data);
    }
}

/// Which bodies answer a request, and how: a lone zero stalls it, a lone one acknowledges a
/// request that brings data, and a two goes before the data for one that reads. Nothing else is
/// an answer.
pub proof fn lemma_answers_are_told_apart(request: ControlRequest, body: Seq<u8>)
    requires
        body.len() > 0,
    ensures
        reply_of(request, body) == Some(Ep0ReplyModel::Stall) <==> body == seq![0u8],
        reply_of(request, body) == Some(Ep0ReplyModel::Acknowledge) <==> body == seq![1u8]
            && !request.direction_in,
        (reply_of(request, body) is Some && reply_of(request, body)->0 is Data) <==> body[0] == 2
            && request.direction_in,
        reply_of(request, body) is None <==> !(body == seq![0u8]) && !(body == seq![1u8]
            && !request.direction_in) && !(body[0] == 2 && request.direction_in),
{
    if body.len() == 1 {
        assert(body =~= seq![body[0]]);
    }
}

/// A response is taken for an answer only where all of it fits: its kind, its generation and its
/// request number, without descriptors and with a body.
pub proof fn lemma_response_has_to_match(response: RecordModel, generation: u32, request_id: u32)
    ensures
        answers_request(response, generation, request_id) <==> (response.kind
            == Kind::UsbControlResponse && response.generation == generation
            && response.request_id == request_id && response.descriptors.len() == 0
            && response.body.len() != 0),
{
}

/// A request reads where the highest bit of its first byte is set, and its length stands in its
/// last two bytes, low byte first.
pub proof fn lemma_setup_is_read(setup: Seq<u8>)
    requires
        setup.len() == 8,
    ensures
        request_reads(setup) <==> setup[0] >= 128,
        request_length(setup) == setup[6] + 256 * setup[7],
{
    let first = setup[0];
    assert(first & 0x80 != 0 <==> first >= 128) by (bit_vector);
}

/// Every twelve bytes are one event, in their order: the ninth byte says which, and a control
/// request has the eight bytes before it.
pub proof fn lemma_events_are_read_in_order(bytes: Seq<u8>, i: int)
    requires
        bytes.len() % 12 == 0,
        0 <= i,
        12 * i < bytes.len(),
    ensures
        12 * events_model(bytes).len() == bytes.len(),
        ({
            let event = events_model(bytes)[i];
            let kind = bytes[12 * i + 8];
            &&& kind == 0 <==> event == Ep0EventModel::Bus(UsbBusEvent::Bind)
            &&& kind == 1 <==> event == Ep0EventModel::Bus(UsbBusEvent::Unbind)
            &&& kind == 2 <==> event == Ep0EventModel::Bus(UsbBusEvent::Enable)
            &&& kind == 3 <==> event == Ep0EventModel::Bus(UsbBusEvent::Disable)
            &&& kind == 5 <==> event == Ep0EventModel::Bus(UsbBusEvent::Suspend)
            &&& kind == 6 <==> event == Ep0EventModel::Bus(UsbBusEvent::Resume)
            &&& kind >= 7 <==> event == Ep0EventModel::Unknown(kind)
            &&& kind == 4 <==> event is Setup
            &&& kind == 4 ==> event->Setup_0 == bytes.subrange(12 * i, 12 * i + 8)
        }),
{
    let part = bytes.subrange(12 * i, 12 * i + 12);
    assert(part[8] == bytes[12 * i + 8]);
    assert(events_model(bytes)[i] == event_model(part));
    assert(part.take(8) =~= bytes.subrange(12 * i, 12 * i + 8));
}

/// What each bus event does to the endpoints.
pub proof fn lemma_bus_events_switch_endpoints(endpoints: Endpoints, event: UsbBusEvent)
    requires
        endpoints.activation < u64::MAX,
    ensures
        ({
            let after = endpoints_after(endpoints, event);
            let enabling = event == UsbBusEvent::Enable;
            let ending = event == UsbBusEvent::Bind || event == UsbBusEvent::Unbind || event
                == UsbBusEvent::Disable;
            &&& after.enabled <==> enabling || (endpoints.enabled && !ending)
            &&& after.activation == endpoints.activation + (if enabling && !endpoints.enabled {
                1int
            } else {
                0
            })
        }),
{
}

/// A transfer moves on by exactly what went over, ends where nothing is left, and fails where a
/// write goes over in part or a read brings nothing. Without bytes it stays where it is.
pub proof fn lemma_transfer_moves_on(transfer: Transfer, event: TransferEvent)
    requires
        transfer.wf(),
        event matches TransferEvent::Moved(count) ==> count <= transfer.length - transfer.offset,
    ensures
        ({
            let (after, step) = transfer_after(transfer, event);
            &&& after.write == transfer.write && after.length == transfer.length
            &&& match event {
                TransferEvent::Moved(count) => {
                    let left = transfer.length - transfer.offset - count;
                    &&& !transfer.write ==> after.offset == transfer.offset + count
                    &&& step == TransferStep::Done <==> left == 0
                    &&& left > 0 && transfer.write ==> step == TransferStep::Fail(
                        Ep0Error::ShortWrite,
                    )
                    &&& left > 0 && !transfer.write && count > 0 ==> step == TransferStep::Move
                    &&& left > 0 && !transfer.write && count == 0 ==> step == TransferStep::Fail(
                        Ep0Error::ShortRead,
                    )
                },
                TransferEvent::NotReady => after == transfer && step == TransferStep::Wait,
                TransferEvent::Interrupted | TransferEvent::Ready => after == transfer && step
                    == TransferStep::Move,
                TransferEvent::Gone => step == TransferStep::Fail(Ep0Error::Shutdown),
                TransferEvent::Refused(errno) => step == TransferStep::Fail(
                    Ep0Error::Refused(errno),
                ),
            }
        }),
{
}

/// The error numbers are those of Linux: an identifier that was removed, a second level that was
/// halted, and a transport that was shut down.
pub proof fn lemma_error_numbers(errno: i32)
    ensures
        errno == EIDRM <==> errno == 43,
        errno == EL2HLT <==> errno == 51,
        errno == ESHUTDOWN <==> errno == 108,
{
}

/// A bus event is told to the worker in nine bytes: its number, and its activation with the
/// highest byte first.
pub proof fn lemma_bus_event_bytes(event: UsbBusEvent, activation: u64)
    ensures
        ({
            let body = event_body(event, activation);
            &&& body.len() == 9
            &&& event_of(body[0]) matches Ok(read) && read == event
            &&& body[0] == (match event {
                UsbBusEvent::Bind => 0u8,
                UsbBusEvent::Unbind => 1,
                UsbBusEvent::Enable => 2,
                UsbBusEvent::Disable => 3,
                UsbBusEvent::Suspend => 5,
                UsbBusEvent::Resume => 6,
            })
            &&& activation == body[8] + 0x100 * body[7] + 0x1_0000 * body[6] + 0x100_0000 * body[5]
                + 0x1_0000_0000 * body[4] + 0x100_0000_0000 * body[3] + 0x1_0000_0000_0000
                * body[2] + 0x100_0000_0000_0000 * body[1]
        }),
{
    let body = event_body(event, activation);
    let high = activation / 0x1_0000_0000;
    let low = activation % 0x1_0000_0000;
    assert(activation == 0x1_0000_0000 * high + low);
    assert(high == body[4] + 0x100 * body[3] + 0x1_0000 * body[2] + 0x100_0000 * body[1]);
    assert(low == body[8] + 0x100 * body[7] + 0x1_0000 * body[6] + 0x100_0000 * body[5]);
}

/// Only the last activation that can be counted cannot be followed by another.
pub proof fn lemma_activations_end_with_the_last_number(endpoints: Endpoints, event: UsbBusEvent)
    ensures
        activation_overflows(endpoints, event) <==> event == UsbBusEvent::Enable
            && !endpoints.enabled && endpoints.activation == 18446744073709551615,
{
}

} // verus!
