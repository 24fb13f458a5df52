//! The records by which the supervisor takes a worker through a generation.

use crate::bytes::be16;
use crate::launch::{
    counted_names, endpoint_entries, endpoint_map, name_too_long, resource_names, LaunchError,
};
use crate::profile::ResourceProfile;
use crate::protocol::{Kind, Record, RecordModel};
use crate::supervisor::State;
use crate::usb_personality::Personality;
use vstd::prelude::*;
use vstd::slice::slice_to_vec;
use vstd::utf8::encode_utf8;

verus! {

/// A record of the supervisor without descriptors.
pub open spec fn bare_record(kind: Kind, generation: u32, request_id: u32, body: Seq<u8>) -> RecordModel {
    RecordModel { kind, generation, request_id, body, descriptors: seq![] }
}

/// The record that hands a new worker its resources. It belongs to no generation and answers no
/// request.
pub fn initial_resources(resources: &Vec<ResourceProfile>) -> (outcome: Result<Record, LaunchError>)
    ensures
        match outcome {
            Ok(record) => {
                &&& resources@.len() <= u16::MAX
                &&& forall|i: int|
                    0 <= i < resources@.len() ==> !name_too_long(#[trigger] resources@[i])
                &&& record@ == bare_record(
                    Kind::InitialResources,
                    0,
                    0,
                    be16(resources@.len() as u16) + counted_names(resources@),
                )
            },
            Err(error) => if resources@.len() > u16::MAX {
                error == LaunchError::TooManyResources
            } else {
                error == LaunchError::ResourceNameTooLong && exists|i: int|
                    0 <= i < resources@.len() && name_too_long(#[trigger] resources@[i])
            },
        },
{
    let body = resource_names(resources)?;
    Ok(Record::new(Kind::InitialResources, 0, 0, body))
}

impl State {
    /// The record that hands a worker the endpoints of the current generation.
    pub fn usb_endpoints(&self, request_id: u32, personality: &Personality) -> (outcome: Result<
        Record,
        LaunchError,
    >)
        ensures
            match outcome {
                Ok(record) => personality.endpoints@.len() <= u16::MAX && record@ == bare_record(
                    Kind::UsbEndpoints,
                    self.generation,
                    request_id,
                    be16(personality.endpoints@.len() as u16) + endpoint_entries(
                        personality.endpoints@,
                    ),
                ),
                Err(error) => personality.endpoints@.len() > u16::MAX && error
                    == LaunchError::TooManyEndpoints,
            },
    {
        let body = endpoint_map(personality)?;
        Ok(Record::new(Kind::UsbEndpoints, self.generation, request_id, body))
    }

    /// The record that asks a worker to let the endpoints of the current generation go.
    pub fn quiesce_request(&self, request_id: u32) -> (record: Record)
        ensures
            record@ == bare_record(Kind::Quiesce, self.generation, request_id, seq![]),
    {
        let body: Vec<u8> = Vec::new();
        assert(body@ =~= seq![]);
        Record::new(Kind::Quiesce, self.generation, request_id, body)
    }

    /// The record that tells a worker why its configuration is refused.
    pub fn configuration_rejected(&self, request_id: u32, reason: &str) -> (record: Record)
        ensures
            record@ == bare_record(
                Kind::ConfigurationRejected,
                self.generation,
                request_id,
                encode_utf8(reason@),
            ),
    {
        let body = slice_to_vec(reason.as_bytes());
        Record::new(Kind::ConfigurationRejected, self.generation, request_id, body)
    }
}

} // verus!
