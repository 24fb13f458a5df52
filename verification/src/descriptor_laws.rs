//! What holds of projected descriptor blobs: FunctionFS reads the endpoints that the projection
//! declares.

use crate::bytes::{le32, le32_at};
use crate::functionfs::{
    absorb, blobs_verdict, descriptor_at, descriptor_set, descriptors_verdict, endpoint_of,
    no_topology, os_descriptors_end, set_counts, speed_flags, speed_sets, Endpoint as FunctionFsEndpoint,
    FunctionFsError, Topology, DESCRIPTORS_MAGIC_V2, HAS_FS_DESC, HAS_HS_DESC, HAS_MS_OS_DESC,
    HAS_SS_DESC, SUPPORTED_FLAGS, USB_DT_ENDPOINT, USB_DT_INTERFACE,
};
use crate::microsoft::{microsoft_projection, os_descriptor_count, os_descriptors};
use crate::os_laws::{declaration_acceptable, lemma_os_descriptors_are_taken};
use crate::personality::{MicrosoftModel, PersonalityModel, UsbPersonality};
use crate::projection_laws::{lemma_string_blob_is_valid, lemma_word_in};
use crate::supervisor::{candidate, Refusal};
use crate::usb_personality::{
    blob_flags, descriptor_blob, discovered, first_language, nothing_rewritten, projected,
    rewrite, rewrite_descriptor, Endpoint, ProjectionError, ProjectionModel, Rewritten,
};
use vstd::prelude::*;

verus! {

/// The endpoint that FunctionFS reads where a projection declares `endpoint`.
pub open spec fn read_endpoint(endpoint: Endpoint) -> FunctionFsEndpoint {
    FunctionFsEndpoint {
        direction: endpoint_of(endpoint.address, 0).direction,
        transfer_type: endpoint.transfer_type,
    }
}

/// The endpoints that FunctionFS reads where a projection declares `endpoints`.
pub open spec fn read_endpoints(endpoints: Seq<Endpoint>) -> Seq<FunctionFsEndpoint> {
    endpoints.map_values(|endpoint: Endpoint| read_endpoint(endpoint))
}

/// Whether endpoints can stand beside those with the addresses `used`: their numbers are not
/// zero, and no address occurs twice.
pub open spec fn addresses_fit(endpoints: Seq<Endpoint>, used: Set<u8>) -> bool {
    &&& forall|i: int|
        0 <= i < endpoints.len() ==> (#[trigger] endpoints[i]).address & 0x0f != 0
            && !used.contains(endpoints[i].address)
    &&& forall|i: int, j: int|
        0 <= i < j < endpoints.len() ==> (#[trigger] endpoints[i]).address != (
        #[trigger] endpoints[j]).address
}

/// Rewriting goes on behind what has been rewritten.
pub proof fn lemma_rewrite_appends(bytes: Seq<u8>, offset: int, state: Rewritten)
    requires
        0 <= offset,
        rewrite(bytes, offset, state) is Ok,
    ensures
        state.body.is_prefix_of(rewrite(bytes, offset, state)->Ok_0.body),
        state.endpoints.is_prefix_of(rewrite(bytes, offset, state)->Ok_0.endpoints),
        state.count <= rewrite(bytes, offset, state)->Ok_0.count,
        offset <= bytes.len() ==> rewrite(bytes, offset, state)->Ok_0.body.len()
            == state.body.len() + bytes.len() - offset,
        rewrite(bytes, offset, state)->Ok_0.count <= state.count + if offset < bytes.len() {
            bytes.len() - offset
        } else {
            0
        },
    decreases bytes.len() - offset,
{
    let end = rewrite(bytes, offset, state)->Ok_0;
    if offset < bytes.len() {
        let descriptor = bytes.subrange(offset, offset + bytes[offset]);
        let next = rewrite_descriptor(state, descriptor)->Ok_0;
        lemma_rewrite_appends(bytes, offset + bytes[offset], next);
        assert(next.body.len() == state.body.len() + descriptor.len());
        assert(state.body =~= next.body.subrange(0, state.body.len() as int));
        assert(state.endpoints =~= next.endpoints.subrange(0, state.endpoints.len() as int));
        assert(state.body =~= end.body.subrange(0, state.body.len() as int)) by {
            assert(next.body =~= end.body.subrange(0, next.body.len() as int));
        }
        assert(state.endpoints =~= end.endpoints.subrange(0, state.endpoints.len() as int)) by {
            assert(next.endpoints =~= end.endpoints.subrange(0, next.endpoints.len() as int));
        }
    } else {
        assert(state.body =~= state.body.subrange(0, state.body.len() as int));
        assert(state.endpoints =~= state.endpoints.subrange(0, state.endpoints.len() as int));
    }
}

/// Whether reading a descriptor set found what a projection declares, or failed on an endpoint
/// address.
spec fn sets_agree(
    outcome: Result<(int, Topology), FunctionFsError>,
    end: int,
    set: Topology,
    endpoints: Seq<Endpoint>,
    interfaces: Set<u8>,
) -> bool {
    match outcome {
        Ok((at, found)) => at == end && found.endpoints == set.endpoints + read_endpoints(
            endpoints,
        ) && found.interfaces == interfaces,
        Err(FunctionFsError::ReservedEndpoint) => !addresses_fit(endpoints, set.addresses),
        Err(FunctionFsError::DuplicateEndpoint(_)) => !addresses_fit(endpoints, set.addresses),
        Err(_) => false,
    }
}

/// FunctionFS reads a rewritten configuration as the projection read the original one, wherever
/// the configuration stands in a blob.
#[verifier::rlimit(40)]
proof fn lemma_rewritten_set_is_read(
    bytes: Seq<u8>,
    offset: int,
    state: Rewritten,
    blob: Seq<u8>,
    base: int,
    set: Topology,
)
    requires
        0 <= offset <= bytes.len(),
        0 <= base,
        state.body.len() == offset,
        rewrite(bytes, offset, state) is Ok,
        base + bytes.len() <= blob.len(),
        blob.subrange(base, base + bytes.len()) == rewrite(bytes, offset, state)->Ok_0.body,
        set.interfaces == state.interfaces,
    ensures
        ({
            let end = rewrite(bytes, offset, state)->Ok_0;
            sets_agree(
                descriptor_set(blob, base + offset, (end.count - state.count) as nat, set),
                base + bytes.len(),
                set,
                end.endpoints.skip(state.endpoints.len() as int),
                end.interfaces,
            )
        }),
    decreases bytes.len() - offset,
{
    let end = rewrite(bytes, offset, state)->Ok_0;
    let rest = end.endpoints.skip(state.endpoints.len() as int);
    lemma_rewrite_appends(bytes, offset, state);
    if offset < bytes.len() {
        let length = bytes[offset] as int;
        let descriptor = bytes.subrange(offset, offset + length);
        let next = rewrite_descriptor(state, descriptor)->Ok_0;
        lemma_rewrite_appends(bytes, offset + length, next);
        let written = next.body.subrange(offset, offset + length);
        let copy = blob.subrange(base + offset, base + offset + length);
        assert(next.body.len() == offset + length);
        assert(copy =~= written) by {
            assert(next.body =~= end.body.subrange(0, next.body.len() as int));
            assert forall|i: int| 0 <= i < length implies copy[i] == written[i] by {
                assert(blob.subrange(base, base + bytes.len())[offset + i] == end.body[offset + i]);
                assert(end.body.subrange(0, next.body.len() as int)[offset + i] == end.body[offset
                    + i]);
            }
        }
        if descriptor[1] == USB_DT_INTERFACE && descriptor[8] != 0 {
            let replaced = written[8];
            assert(written =~= descriptor.update(8, replaced));
        } else {
            assert(written =~= descriptor);
        }
        assert(copy[0] == length);
        assert(blob[base + offset] == copy[0]);
        assert(descriptor_at(blob, base + offset) == Ok::<Seq<u8>, FunctionFsError>(copy));
        let later = end.endpoints.skip(next.endpoints.len() as int);
        if descriptor[1] == USB_DT_ENDPOINT {
            let endpoint = next.endpoints.last();
            assert(rest[0] == endpoint) by {
                assert(next.endpoints =~= end.endpoints.subrange(0, next.endpoints.len() as int));
                assert(end.endpoints[state.endpoints.len() as int] == endpoint);
            }
            assert(later =~= rest.skip(1));
            assert(read_endpoint(endpoint) == endpoint_of(descriptor[2], descriptor[3]));
            match absorb(set, copy) {
                Ok(grown) => {
                    lemma_rewritten_set_is_read(bytes, offset + length, next, blob, base, grown);
                    assert(set.endpoints + read_endpoints(rest) =~= grown.endpoints
                        + read_endpoints(later)) by {
                        assert(read_endpoints(rest) =~= seq![read_endpoint(endpoint)]
                            + read_endpoints(later));
                    }
                    assert(addresses_fit(rest, set.addresses) ==> addresses_fit(
                        later,
                        grown.addresses,
                    )) by {
                        if addresses_fit(rest, set.addresses) {
                            assert forall|i: int| 0 <= i < later.len() implies (
                            #[trigger] later[i]).address & 0x0f != 0 && !grown.addresses.contains(
                                later[i].address,
                            ) by {
                                assert(later[i] == rest[i + 1]);
                                assert(rest[0].address != rest[i + 1].address);
                            }
                            assert forall|i: int, j: int| 0 <= i < j < later.len() implies (
                            #[trigger] later[i]).address != (#[trigger] later[j]).address by {
                                assert(later[i] == rest[i + 1]);
                                assert(later[j] == rest[j + 1]);
                            }
                        }
                    }
                },
                Err(error) => {
                    assert(!addresses_fit(rest, set.addresses)) by {
                        assert(rest[0].address == copy[2]);
                    }
                },
            }
        } else {
            assert(later =~= rest);
            assert(absorb(set, copy) is Ok);
            let grown = absorb(set, copy)->Ok_0;
            lemma_rewritten_set_is_read(bytes, offset + length, next, blob, base, grown);
        }
    } else {
        assert(rest =~= seq![]);
        assert(read_endpoints(rest) =~= seq![]);
        assert(set.endpoints + read_endpoints(rest) =~= set.endpoints);
    }
}

/// The flags of a projected blob announce one full-speed set, and Microsoft OS descriptors where
/// there are any.
proof fn lemma_blob_flags(has_os: bool)
    ensures
        blob_flags(has_os) & HAS_FS_DESC != 0,
        blob_flags(has_os) & HAS_HS_DESC == 0,
        blob_flags(has_os) & HAS_SS_DESC == 0,
        (blob_flags(has_os) & HAS_MS_OS_DESC != 0) == has_os,
        blob_flags(has_os) & !SUPPORTED_FLAGS == 0,
        blob_flags(has_os) != 0,
{
    assert(193u32 & 1 == 1 && 193u32 & 2 == 0 && 193u32 & 4 == 0 && 193u32 & 8 == 0 && 193u32
        & !207u32 == 0) by (bit_vector);
    assert(201u32 & 1 == 1 && 201u32 & 2 == 0 && 201u32 & 4 == 0 && 201u32 & 8 == 8 && 201u32
        & !207u32 == 0) by (bit_vector);
}

/// Where the configuration begins in a projected blob.
spec fn blob_body(os: Seq<u8>) -> int {
    if os.len() == 0 {
        16
    } else {
        20
    }
}

/// FunctionFS finds one full-speed set in a projected blob, right where it was written.
#[verifier::rlimit(40)]
proof fn lemma_blob_header(count: nat, body: Seq<u8>, os: Seq<u8>)
    requires
        descriptor_blob(count, body, os) is Ok,
        count <= u32::MAX,
    ensures
        ({
            let blob = descriptor_blob(count, body, os)->Ok_0;
            let base = blob_body(os);
            &&& blob.len() == base + body.len() + os.len()
            &&& blob.len() <= u32::MAX
            &&& blob.subrange(base, base + body.len()) == body
            &&& blob.subrange(base + body.len(), blob.len() as int) == os
            &&& os.len() > 0 ==> le32_at(blob, 16) == os_descriptor_count(os, 0, 0)->Ok_0 as u32
            &&& le32_at(blob, 0) == DESCRIPTORS_MAGIC_V2
            &&& le32_at(blob, 4) == blob.len()
            &&& le32_at(blob, 8) == blob_flags(os.len() > 0)
            &&& set_counts(blob, 12, blob_flags(os.len() > 0), speed_flags(), seq![]) == Ok::<
                (int, Seq<(u32, u32)>),
                FunctionFsError,
            >((16, seq![(HAS_FS_DESC, count as u32)]))
        }),
{
    let blob = descriptor_blob(count, body, os)->Ok_0;
    let base = blob_body(os);
    let flags = blob_flags(os.len() > 0);
    lemma_blob_flags(os.len() > 0);
    let length = (base + body.len() + os.len()) as u32;
    assert(blob.subrange(0, 4) =~= le32(DESCRIPTORS_MAGIC_V2));
    assert(blob.subrange(4, 8) =~= le32(length));
    assert(blob.subrange(8, 12) =~= le32(flags));
    assert(blob.subrange(12, 16) =~= le32(count as u32));
    assert(blob.subrange(base, base + body.len()) =~= body);
    assert(blob.subrange(base + body.len(), blob.len() as int) =~= os);
    if os.len() > 0 {
        let os_count = os_descriptor_count(os, 0, 0)->Ok_0 as u32;
        assert(blob.subrange(16, 20) =~= le32(os_count));
        lemma_word_in(blob, 16, os_count);
    }
    lemma_word_in(blob, 0, DESCRIPTORS_MAGIC_V2);
    lemma_word_in(blob, 4, length);
    lemma_word_in(blob, 8, flags);
    lemma_word_in(blob, 12, count as u32);
    let wanted = speed_flags();
    let counts = seq![(HAS_FS_DESC, count as u32)];
    assert(Seq::<(u32, u32)>::empty().push((HAS_FS_DESC, count as u32)) =~= counts);
    assert(wanted.skip(1)[0] == HAS_HS_DESC);
    assert(wanted.skip(1).skip(1)[0] == HAS_SS_DESC);
    assert(wanted.skip(1).skip(1).skip(1).len() == 0);
    assert(set_counts(blob, 16, flags, wanted.skip(1).skip(1).skip(1), counts) == Ok::<
        (int, Seq<(u32, u32)>),
        FunctionFsError,
    >((16, counts)));
    assert(set_counts(blob, 16, flags, wanted.skip(1).skip(1), counts) == Ok::<
        (int, Seq<(u32, u32)>),
        FunctionFsError,
    >((16, counts)));
    assert(set_counts(blob, 16, flags, wanted.skip(1), counts) == Ok::<
        (int, Seq<(u32, u32)>),
        FunctionFsError,
    >((16, counts)));
}

/// What FunctionFS makes of a single descriptor set.
proof fn lemma_single_speed_set(blob: Seq<u8>, base: int, count: u32)
    ensures
        speed_sets(blob, base, seq![(HAS_FS_DESC, count)], None) == (match descriptor_set(
            blob,
            base,
            count as nat,
            no_topology(),
        ) {
            Err(error) => Err::<(int, Option<Topology>), FunctionFsError>(error),
            Ok((end, set)) => Ok((end, Some(set))),
        }),
{
    let counts = seq![(HAS_FS_DESC, count)];
    assert(counts.skip(1).len() == 0);
    match descriptor_set(blob, base, count as nat, no_topology()) {
        Err(error) => {},
        Ok((end, set)) => {
            assert(speed_sets(blob, end, counts.skip(1), Some(set)) == Ok::<
                (int, Option<Topology>),
                FunctionFsError,
            >((end, Some(set))));
        },
    }
}

/// What a projection makes of a configuration.
spec fn rewritten_of(bundle: PersonalityModel) -> Rewritten {
    rewrite(bundle.configuration.skip(9), 0, nothing_rewritten())->Ok_0
}

/// The Microsoft OS descriptors of a projection.
spec fn os_of(bundle: PersonalityModel) -> Seq<u8> {
    microsoft_projection(bundle.microsoft, rewritten_of(bundle).interfaces)->Ok_0.1
}

/// A projection's descriptor blob is that of its rewritten configuration.
proof fn lemma_projection_parts(bundle: PersonalityModel)
    requires
        projected(bundle) is Ok,
    ensures
        rewrite(bundle.configuration.skip(9), 0, nothing_rewritten()) is Ok,
        rewritten_of(bundle).body.len() == bundle.configuration.skip(9).len(),
        rewritten_of(bundle).count <= 65535,
        projected(bundle)->Ok_0.endpoints == rewritten_of(bundle).endpoints,
        microsoft_projection(bundle.microsoft, rewritten_of(bundle).interfaces) is Ok,
        descriptor_blob(rewritten_of(bundle).count, rewritten_of(bundle).body, os_of(bundle))
            == Ok::<Seq<u8>, ProjectionError>(projected(bundle)->Ok_0.descriptors),
{
    lemma_rewrite_appends(bundle.configuration.skip(9), 0, nothing_rewritten());
}

/// FunctionFS reads the set of a projected blob as the projection declares it, or fails on an
/// endpoint address.
proof fn lemma_projected_set(bundle: PersonalityModel)
    requires
        projected(bundle) is Ok,
    ensures
        ({
            let blob = projected(bundle)->Ok_0.descriptors;
            let os = os_of(bundle);
            sets_agree(
                descriptor_set(blob, blob_body(os), rewritten_of(bundle).count, no_topology()),
                blob.len() - os.len(),
                no_topology(),
                projected(bundle)->Ok_0.endpoints,
                rewritten_of(bundle).interfaces,
            )
        }),
{
    let blob = projected(bundle)->Ok_0.descriptors;
    let os = os_of(bundle);
    let bytes = bundle.configuration.skip(9);
    let end = rewritten_of(bundle);
    lemma_projection_parts(bundle);
    lemma_blob_header(end.count, end.body, os);
    lemma_rewritten_set_is_read(
        bytes,
        0,
        nothing_rewritten(),
        blob,
        blob_body(os),
        no_topology(),
    );
    assert(end.endpoints.skip(0) =~= end.endpoints);
}

/// The endpoints that FunctionFS reads from a projected blob are those that the projection
/// declares, in their order.
pub proof fn lemma_projected_endpoints_agree(bundle: PersonalityModel)
    requires
        projected(bundle) is Ok,
        descriptors_verdict(projected(bundle)->Ok_0.descriptors) is Ok,
    ensures
        descriptors_verdict(projected(bundle)->Ok_0.descriptors)->Ok_0.0 == read_endpoints(
            projected(bundle)->Ok_0.endpoints,
        ),
{
    let blob = projected(bundle)->Ok_0.descriptors;
    let os = os_of(bundle);
    let end = rewritten_of(bundle);
    lemma_projection_parts(bundle);
    lemma_blob_header(end.count, end.body, os);
    lemma_blob_flags(os.len() > 0);
    lemma_projected_set(bundle);
    lemma_single_speed_set(blob, blob_body(os), end.count as u32);
    assert(no_topology().endpoints + read_endpoints(end.endpoints) =~= read_endpoints(
        end.endpoints,
    ));
}

/// A configuration is never refused because its blobs would declare other endpoints than its
/// descriptors: that cannot happen.
pub proof fn lemma_endpoint_count_never_differs(bundle: Option<UsbPersonality>)
    ensures
        candidate(bundle) != Err::<
            (ProjectionModel, Seq<FunctionFsEndpoint>),
            Refusal,
        >(Refusal::EndpointCount),
{
    if let Some(bundle) = bundle {
        if discovered(bundle@) is Ok {
            let personality = discovered(bundle@)->Ok_0;
            if blobs_verdict(personality.descriptors, personality.strings) is Ok {
                lemma_projected_endpoints_agree(bundle@);
            }
        }
    }
}

/// The endpoints that are handed to a worker are those that its configuration declares, one for
/// one and in their order.
pub proof fn lemma_candidate_endpoints_match(bundle: Option<UsbPersonality>)
    requires
        candidate(bundle) is Ok,
    ensures
        candidate(bundle)->Ok_0.1 == read_endpoints(candidate(bundle)->Ok_0.0.endpoints),
        candidate(bundle)->Ok_0.1.len() == candidate(bundle)->Ok_0.0.endpoints.len(),
{
    if let Some(bundle) = bundle {
        lemma_projected_endpoints_agree(bundle@);
    }
}

/// Whether FunctionFS can take what a personality declares for Windows, if it declares anything.
pub open spec fn microsoft_acceptable(microsoft: Option<MicrosoftModel>) -> bool {
    match microsoft {
        None => true,
        Some(declaration) => declaration_acceptable(declaration),
    }
}

/// FunctionFS takes every projection whose endpoint addresses are distinct and have a number, and
/// whose declaration for Windows has printable compatible IDs, property types that are known and
/// property names that pass for UTF-8: it finds the endpoints of the projection, and
/// Microsoft OS descriptors where there are any.
pub proof fn lemma_projection_passes_inspection(bundle: PersonalityModel)
    requires
        projected(bundle) is Ok,
        addresses_fit(projected(bundle)->Ok_0.endpoints, Set::empty()),
        microsoft_acceptable(bundle.microsoft),
    ensures
        blobs_verdict(projected(bundle)->Ok_0.descriptors, projected(bundle)->Ok_0.strings) is Ok,
        blobs_verdict(
            projected(bundle)->Ok_0.descriptors,
            projected(bundle)->Ok_0.strings,
        )->Ok_0.0 == read_endpoints(projected(bundle)->Ok_0.endpoints),
{
    let end = rewritten_of(bundle);
    lemma_projection_parts(bundle);
    lemma_projected_descriptors_pass(bundle);
    lemma_originals_bounded(bundle.configuration.skip(9), 0, nothing_rewritten());
    let language = first_language(bundle.strings)->Ok_0;
    lemma_string_blob_is_valid(bundle.strings, language, end.originals);
}

/// What a descriptor blob declares where each of its parts is taken.
#[verifier::rlimit(40)]
proof fn lemma_parts_make_a_verdict(blob: Seq<u8>, os_length: int, count: u32, set: Topology)
    requires
        0 <= os_length,
        blob.len() >= 16,
        le32_at(blob, 0) == DESCRIPTORS_MAGIC_V2,
        le32_at(blob, 4) == blob.len(),
        le32_at(blob, 8) == blob_flags(os_length > 0),
        set_counts(blob, 12, blob_flags(os_length > 0), speed_flags(), seq![]) == Ok::<
            (int, Seq<(u32, u32)>),
            FunctionFsError,
        >((16, seq![(HAS_FS_DESC, count)])),
        os_length > 0 ==> blob.len() >= 20 && le32_at(blob, 16) > 0 && os_descriptors_end(
            blob,
            blob.len() - os_length,
            le32_at(blob, 16) as nat,
            set.interfaces,
        ) == Ok::<int, FunctionFsError>(blob.len() as int),
        descriptor_set(
            blob,
            if os_length > 0 {
                20
            } else {
                16
            },
            count as nat,
            no_topology(),
        ) == Ok::<(int, Topology), FunctionFsError>((blob.len() - os_length, set)),
    ensures
        descriptors_verdict(blob) == Ok::<(Seq<FunctionFsEndpoint>, bool), FunctionFsError>(
            (set.endpoints, os_length > 0),
        ),
{
    lemma_blob_flags(os_length > 0);
    lemma_single_speed_set(
        blob,
        if os_length > 0 {
            20
        } else {
            16
        },
        count,
    );
}

proof fn lemma_projected_descriptors_pass(bundle: PersonalityModel)
    requires
        projected(bundle) is Ok,
        addresses_fit(projected(bundle)->Ok_0.endpoints, Set::empty()),
        microsoft_acceptable(bundle.microsoft),
    ensures
        descriptors_verdict(projected(bundle)->Ok_0.descriptors) == Ok::<
            (Seq<FunctionFsEndpoint>, bool),
            FunctionFsError,
        >((read_endpoints(projected(bundle)->Ok_0.endpoints), os_of(bundle).len() > 0)),
{
    let personality = projected(bundle)->Ok_0;
    let os = os_of(bundle);
    let end = rewritten_of(bundle);
    lemma_projection_parts(bundle);
    lemma_projected_set(bundle);
    if os.len() > 0 {
        let declaration = bundle.microsoft->0;
        assert(os_descriptors(declaration, end.interfaces) == Ok::<Seq<u8>, ProjectionError>(os));
    }
    lemma_blob_passes(
        end.count,
        end.body,
        os,
        end.interfaces,
        personality.endpoints,
        bundle.microsoft,
        personality.descriptors,
    );
}

#[verifier::rlimit(40)]
proof fn lemma_blob_passes(
    count: nat,
    body: Seq<u8>,
    os: Seq<u8>,
    interfaces: Set<u8>,
    endpoints: Seq<Endpoint>,
    microsoft: Option<MicrosoftModel>,
    blob: Seq<u8>,
)
    requires
        descriptor_blob(count, body, os) == Ok::<Seq<u8>, ProjectionError>(blob),
        count <= u32::MAX,
        os.len() > 0 ==> microsoft is Some && os_descriptors(microsoft->0, interfaces) == Ok::<
            Seq<u8>,
            ProjectionError,
        >(os),
        microsoft_acceptable(microsoft),
        addresses_fit(endpoints, Set::empty()),
        sets_agree(
            descriptor_set(blob, blob_body(os), count, no_topology()),
            blob.len() - os.len(),
            no_topology(),
            endpoints,
            interfaces,
        ),
    ensures
        descriptors_verdict(blob) == Ok::<(Seq<FunctionFsEndpoint>, bool), FunctionFsError>(
            (read_endpoints(endpoints), os.len() > 0),
        ),
{
    lemma_blob_header(count, body, os);
    let set = descriptor_set(blob, blob_body(os), count, no_topology())->Ok_0.1;
    assert(no_topology().endpoints + read_endpoints(endpoints) =~= read_endpoints(endpoints));
    if os.len() > 0 {
        lemma_os_descriptors_are_taken(
            microsoft->0,
            interfaces,
            blob,
            blob_body(os) + body.len(),
        );
    }
    lemma_parts_make_a_verdict(blob, os.len() as int, count as u32, set);
}

/// No more than 255 strings are renumbered.
proof fn lemma_originals_bounded(bytes: Seq<u8>, offset: int, state: Rewritten)
    requires
        0 <= offset,
        state.originals.len() <= 255,
        rewrite(bytes, offset, state) is Ok,
    ensures
        rewrite(bytes, offset, state)->Ok_0.originals.len() <= 255,
    decreases bytes.len() - offset,
{
    if offset < bytes.len() {
        let descriptor = bytes.subrange(offset, offset + bytes[offset]);
        let next = rewrite_descriptor(state, descriptor)->Ok_0;
        lemma_originals_bounded(bytes, offset + bytes[offset], next);
    }
}

} // verus!
