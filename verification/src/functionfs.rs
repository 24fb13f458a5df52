//! Structural validation of FunctionFS descriptor and string blobs.

use crate::bytes::{le16_at, le32_at, le_u16, le_u32};
use crate::sets::ByteSet;
use crate::text::utf8_string;
use vstd::prelude::*;
use vstd::slice::slice_subrange;
use vstd::utf8::valid_utf8;

verus! {

/// The first word of a descriptor blob in the second format.
pub const DESCRIPTORS_MAGIC_V2: u32 = 3;

/// The first word of a string blob.
pub const STRINGS_MAGIC: u32 = 2;

/// Flag of a full-speed descriptor set.
pub const HAS_FS_DESC: u32 = 1;

/// Flag of a high-speed descriptor set.
pub const HAS_HS_DESC: u32 = 2;

/// Flag of a super-speed descriptor set.
pub const HAS_SS_DESC: u32 = 4;

/// Flag of Microsoft OS descriptors.
pub const HAS_MS_OS_DESC: u32 = 8;

/// Flag that asks for control requests to every recipient.
pub const ALL_CTRL_RECIP: u32 = 64;

/// Flag that asks for control requests before a configuration is chosen.
pub const CONFIG0_SETUP: u32 = 128;

/// Every flag that a descriptor blob may set.
pub const SUPPORTED_FLAGS: u32 = 207;

/// Descriptor type of an interface.
pub const USB_DT_INTERFACE: u8 = 4;

/// Descriptor type of an endpoint.
pub const USB_DT_ENDPOINT: u8 = 5;

/// Direction bit of an endpoint address.
pub const USB_DIR_IN: u8 = 0x80;

/// The direction of a data endpoint, seen from the host.
#[derive(Clone, Copy, Debug, Eq, PartialEq, Structural)]
pub enum Direction {
    Out,
    In,
}

/// One data endpoint in the order in which FunctionFS opens it.
#[derive(Clone, Copy, Debug, Eq, PartialEq, Structural)]
pub struct Endpoint {
    pub direction: Direction,
    pub transfer_type: u8,
}

/// What a valid pair of blobs declares.
#[derive(Clone, Debug, Eq, PartialEq)]
pub struct Inspection {
    pub endpoints: Vec<Endpoint>,
    pub has_ms_os_descriptors: bool,
}

/// Why a blob is refused.
#[derive(Clone, Copy, Debug, Eq, PartialEq, Structural)]
pub enum FunctionFsError {
    ShortDescriptorBlob,
    DescriptorFormat,
    DescriptorBlobLength,
    DescriptorFlags(u32),
    TruncatedWord,
    TruncatedDescriptor,
    DescriptorLength,
    DescriptorOverrun,
    ShortInterface,
    ShortEndpoint,
    ReservedEndpoint,
    DuplicateEndpoint(u8),
    EndpointTopology(u32),
    InterfaceTopology(u32),
    NoOsDescriptors,
    TruncatedOsHeader,
    OsInterface(u8),
    OsLength,
    OsOverrun,
    OsVersion,
    OsIndex(u16),
    CompatibleIdCount,
    CompatibleIdInterface(u8),
    CompatibleIdFeature,
    CompatibleIdBytes,
    NoProperties,
    PropertySize,
    PropertyType(u32),
    PropertyNameOverrun,
    PropertyName,
    PropertyData,
    PropertiesTrailing,
    DescriptorsTrailing,
    ShortStringBlob,
    StringMagic,
    StringBlobLength,
    TruncatedLanguage,
    UnterminatedString,
    StringEncoding,
    StringsTrailing,
}

/// The endpoints, endpoint addresses and interface numbers of one descriptor set.
pub struct Topology {
    pub endpoints: Seq<Endpoint>,
    pub addresses: Set<u8>,
    pub interfaces: Set<u8>,
}

/// A set that declares nothing.
pub open spec fn no_topology() -> Topology {
    Topology { endpoints: seq![], addresses: Set::empty(), interfaces: Set::empty() }
}

/// The endpoint that a descriptor with this address and these attributes declares.
pub open spec fn endpoint_of(address: u8, attributes: u8) -> Endpoint {
    Endpoint {
        direction: if address & USB_DIR_IN != 0 {
            Direction::In
        } else {
            Direction::Out
        },
        transfer_type: attributes & 0x03,
    }
}

/// The USB descriptor that starts at `offset`.
pub open spec fn descriptor_at(bytes: Seq<u8>, offset: int) -> Result<Seq<u8>, FunctionFsError> {
    if offset + 2 > bytes.len() {
        Err(FunctionFsError::TruncatedDescriptor)
    } else if bytes[offset] < 2 {
        Err(FunctionFsError::DescriptorLength)
    } else if offset + bytes[offset] > bytes.len() {
        Err(FunctionFsError::DescriptorOverrun)
    } else {
        Ok(bytes.subrange(offset, offset + bytes[offset]))
    }
}

/// What a set declares once `descriptor` is added to it.
pub open spec fn absorb(set: Topology, descriptor: Seq<u8>) -> Result<Topology, FunctionFsError> {
    if descriptor[1] == USB_DT_INTERFACE {
        if descriptor.len() < 9 {
            Err(FunctionFsError::ShortInterface)
        } else {
            Ok(Topology { interfaces: set.interfaces.insert(descriptor[2]), ..set })
        }
    } else if descriptor[1] == USB_DT_ENDPOINT {
        if descriptor.len() < 7 {
            Err(FunctionFsError::ShortEndpoint)
        } else if descriptor[2] & 0x0f == 0 {
            Err(FunctionFsError::ReservedEndpoint)
        } else if set.addresses.contains(descriptor[2]) {
            Err(FunctionFsError::DuplicateEndpoint(descriptor[2]))
        } else {
            Ok(
                Topology {
                    endpoints: set.endpoints.push(endpoint_of(descriptor[2], descriptor[3])),
                    addresses: set.addresses.insert(descriptor[2]),
                    interfaces: set.interfaces,
                },
            )
        }
    } else {
        Ok(set)
    }
}

/// Adds the `count` descriptors from `offset` on to `set`; also gives the offset behind them.
pub open spec fn descriptor_set(bytes: Seq<u8>, offset: int, count: nat, set: Topology) -> Result<
    (int, Topology),
    FunctionFsError,
>
    decreases count,
{
    if count == 0 {
        Ok((offset, set))
    } else {
        match descriptor_at(bytes, offset) {
            Err(error) => Err(error),
            Ok(descriptor) => match absorb(set, descriptor) {
                Err(error) => Err(error),
                Ok(next) => descriptor_set(
                    bytes,
                    offset + descriptor.len(),
                    (count - 1) as nat,
                    next,
                ),
            },
        }
    }
}

/// Whether every byte is zero.
pub open spec fn all_zero(bytes: Seq<u8>) -> bool {
    forall|i: int| 0 <= i < bytes.len() ==> bytes[i] == 0
}

/// Whether every byte is zero or a printable ASCII character other than a blank.
pub open spec fn padded_graphic(bytes: Seq<u8>) -> bool {
    forall|i: int| 0 <= i < bytes.len() ==> bytes[i] == 0 || 0x21 <= bytes[i] <= 0x7e
}

/// `count` compatible-ID features of 24 bytes each from `cursor` on.
pub open spec fn compatible_ids(
    bytes: Seq<u8>,
    cursor: int,
    count: nat,
    interfaces: Set<u8>,
) -> Result<(), FunctionFsError>
    decreases count,
{
    if count == 0 {
        Ok(())
    } else if !interfaces.contains(bytes[cursor]) {
        Err(FunctionFsError::CompatibleIdInterface(bytes[cursor]))
    } else if bytes[cursor + 1] != 1 || all_zero(bytes.subrange(cursor + 2, cursor + 10)) {
        Err(FunctionFsError::CompatibleIdFeature)
    } else if !padded_graphic(bytes.subrange(cursor + 2, cursor + 18)) || !all_zero(
        bytes.subrange(cursor + 18, cursor + 24),
    ) {
        Err(FunctionFsError::CompatibleIdBytes)
    } else {
        compatible_ids(bytes, cursor + 24, (count - 1) as nat, interfaces)
    }
}

/// An extended compatible-ID descriptor between `start` and `end`.
pub open spec fn extended_compat_id(
    bytes: Seq<u8>,
    start: int,
    end: int,
    interfaces: Set<u8>,
) -> Result<(), FunctionFsError> {
    let count = bytes[start + 9] as nat;
    if count == 0 || bytes[start + 10] != 0 || end - start != 11 + count * 24 {
        Err(FunctionFsError::CompatibleIdCount)
    } else {
        compatible_ids(bytes, start + 11, count, interfaces)
    }
}

/// The extended property that starts at `cursor` in a descriptor that ends at `end`: the offset
/// behind it.
pub open spec fn property_end(bytes: Seq<u8>, cursor: int, end: int) -> Result<
    int,
    FunctionFsError,
> {
    if cursor + 4 > bytes.len() {
        Err(FunctionFsError::TruncatedWord)
    } else {
        let size = le32_at(bytes, cursor) as int;
        if size < 14 || cursor + size > end {
            Err(FunctionFsError::PropertySize)
        } else {
            let kind = le32_at(bytes, cursor + 4);
            let name_end = cursor + 10 + le16_at(bytes, cursor + 8);
            let name = bytes.subrange(cursor + 10, name_end);
            if !(1 <= kind <= 7) {
                Err(FunctionFsError::PropertyType(kind))
            } else if name_end + 4 > cursor + size {
                Err(FunctionFsError::PropertyNameOverrun)
            } else if name.len() == 0 || name.last() != 0 || !valid_utf8(name.drop_last()) {
                Err(FunctionFsError::PropertyName)
            } else if name_end + 4 + le32_at(bytes, name_end) != cursor + size {
                Err(FunctionFsError::PropertyData)
            } else {
                Ok(cursor + size)
            }
        }
    }
}

/// `count` extended properties from `cursor` on, which end exactly at `end`.
pub open spec fn properties(bytes: Seq<u8>, cursor: int, count: nat, end: int) -> Result<
    (),
    FunctionFsError,
>
    decreases count,
{
    if count == 0 {
        if cursor == end {
            Ok(())
        } else {
            Err(FunctionFsError::PropertiesTrailing)
        }
    } else {
        match property_end(bytes, cursor, end) {
            Err(error) => Err(error),
            Ok(next) => properties(bytes, next, (count - 1) as nat, end),
        }
    }
}

/// An extended-properties descriptor between `start` and `end`.
pub open spec fn extended_properties(bytes: Seq<u8>, start: int, end: int) -> Result<
    (),
    FunctionFsError,
> {
    let count = le16_at(bytes, start + 9) as nat;
    if count == 0 {
        Err(FunctionFsError::NoProperties)
    } else {
        properties(bytes, start + 11, count, end)
    }
}

/// The Microsoft OS descriptor that starts at `start`: the offset behind it.
pub open spec fn os_descriptor_end(bytes: Seq<u8>, start: int, interfaces: Set<u8>) -> Result<
    int,
    FunctionFsError,
> {
    if start + 11 > bytes.len() {
        Err(FunctionFsError::TruncatedOsHeader)
    } else if !interfaces.contains(bytes[start]) {
        Err(FunctionFsError::OsInterface(bytes[start]))
    } else {
        let end = start + le32_at(bytes, start + 1);
        let index = le16_at(bytes, start + 7);
        if end < start + 11 {
            Err(FunctionFsError::OsLength)
        } else if end > bytes.len() {
            Err(FunctionFsError::OsOverrun)
        } else if le16_at(bytes, start + 5) != 0x0100 {
            Err(FunctionFsError::OsVersion)
        } else if index != 4 && index != 5 {
            Err(FunctionFsError::OsIndex(index))
        } else {
            let content = if index == 4 {
                extended_compat_id(bytes, start, end, interfaces)
            } else {
                extended_properties(bytes, start, end)
            };
            match content {
                Err(error) => Err(error),
                Ok(_) => Ok(end),
            }
        }
    }
}

/// `count` Microsoft OS descriptors from `offset` on: the offset behind them.
pub open spec fn os_descriptors_end(
    bytes: Seq<u8>,
    offset: int,
    count: nat,
    interfaces: Set<u8>,
) -> Result<int, FunctionFsError>
    decreases count,
{
    if count == 0 {
        Ok(offset)
    } else {
        match os_descriptor_end(bytes, offset, interfaces) {
            Err(error) => Err(error),
            Ok(next) => os_descriptors_end(bytes, next, (count - 1) as nat, interfaces),
        }
    }
}

/// Adds to `counts` those of the descriptor sets in `wanted` whose flag is set; also gives the
/// offset behind them.
pub open spec fn set_counts(
    bytes: Seq<u8>,
    offset: int,
    flags: u32,
    wanted: Seq<u32>,
    counts: Seq<(u32, u32)>,
) -> Result<(int, Seq<(u32, u32)>), FunctionFsError>
    decreases wanted.len(),
{
    if wanted.len() == 0 {
        Ok((offset, counts))
    } else if flags & wanted[0] == 0 {
        set_counts(bytes, offset, flags, wanted.skip(1), counts)
    } else if offset + 4 > bytes.len() {
        Err(FunctionFsError::TruncatedWord)
    } else {
        set_counts(
            bytes,
            offset + 4,
            flags,
            wanted.skip(1),
            counts.push((wanted[0], le32_at(bytes, offset))),
        )
    }
}

/// The descriptor sets `counts` from `offset` on, which all declare the same endpoints and
/// interfaces as the first: what the first declares, and the offset behind them.
pub open spec fn speed_sets(
    bytes: Seq<u8>,
    offset: int,
    counts: Seq<(u32, u32)>,
    first: Option<Topology>,
) -> Result<(int, Option<Topology>), FunctionFsError>
    decreases counts.len(),
{
    if counts.len() == 0 {
        Ok((offset, first))
    } else {
        match descriptor_set(bytes, offset, counts[0].1 as nat, no_topology()) {
            Err(error) => Err(error),
            Ok((end, set)) => match first {
                None => speed_sets(bytes, end, counts.skip(1), Some(set)),
                Some(expected) => if expected.endpoints != set.endpoints {
                    Err(FunctionFsError::EndpointTopology(counts[0].0))
                } else if expected.interfaces != set.interfaces {
                    Err(FunctionFsError::InterfaceTopology(counts[0].0))
                } else {
                    speed_sets(bytes, end, counts.skip(1), first)
                },
            },
        }
    }
}

/// The flags of the descriptor sets, slowest speed first.
pub open spec fn speed_flags() -> Seq<u32> {
    seq![HAS_FS_DESC, HAS_HS_DESC, HAS_SS_DESC]
}

/// What a descriptor blob declares, or why it is refused.
pub open spec fn descriptors_verdict(bytes: Seq<u8>) -> Result<
    (Seq<Endpoint>, bool),
    FunctionFsError,
> {
    if bytes.len() < 12 {
        Err(FunctionFsError::ShortDescriptorBlob)
    } else if le32_at(bytes, 0) != DESCRIPTORS_MAGIC_V2 {
        Err(FunctionFsError::DescriptorFormat)
    } else if le32_at(bytes, 4) != bytes.len() {
        Err(FunctionFsError::DescriptorBlobLength)
    } else {
        let flags = le32_at(bytes, 8);
        let has_os = flags & HAS_MS_OS_DESC != 0;
        if flags == 0 || flags & !SUPPORTED_FLAGS != 0 {
            Err(FunctionFsError::DescriptorFlags(flags))
        } else {
            match set_counts(bytes, 12, flags, speed_flags(), seq![]) {
                Err(error) => Err(error),
                Ok((counts_end, counts)) => if has_os && counts_end + 4 > bytes.len() {
                    Err(FunctionFsError::TruncatedWord)
                } else {
                    let body = if has_os {
                        counts_end + 4
                    } else {
                        counts_end
                    };
                    match speed_sets(bytes, body, counts, None) {
                        Err(error) => Err(error),
                        Ok((sets_end, first)) => {
                            let set = first.unwrap_or(no_topology());
                            let os_count = le32_at(bytes, counts_end);
                            let end = if !has_os {
                                Ok(sets_end)
                            } else if os_count == 0 {
                                Err(FunctionFsError::NoOsDescriptors)
                            } else {
                                os_descriptors_end(bytes, sets_end, os_count as nat, set.interfaces)
                            };
                            match end {
                                Err(error) => Err(error),
                                Ok(offset) => if offset != bytes.len() {
                                    Err(FunctionFsError::DescriptorsTrailing)
                                } else {
                                    Ok((set.endpoints, has_os))
                                },
                            }
                        },
                    }
                },
            }
        }
    }
}

/// The first zero byte at or behind `offset`.
pub open spec fn nul_at(bytes: Seq<u8>, offset: int) -> Option<int>
    decreases bytes.len() - offset,
{
    if offset >= bytes.len() {
        None
    } else if bytes[offset] == 0 {
        Some(offset)
    } else {
        nul_at(bytes, offset + 1)
    }
}

/// `count` zero-terminated UTF-8 strings from `offset` on: the offset behind them.
pub open spec fn string_run_end(bytes: Seq<u8>, offset: int, count: nat) -> Result<
    int,
    FunctionFsError,
>
    decreases count,
{
    if count == 0 {
        Ok(offset)
    } else {
        match nul_at(bytes, offset) {
            None => Err(FunctionFsError::UnterminatedString),
            Some(nul) => if !valid_utf8(bytes.subrange(offset, nul)) {
                Err(FunctionFsError::StringEncoding)
            } else {
                string_run_end(bytes, nul + 1, (count - 1) as nat)
            },
        }
    }
}

/// `languages` tables of a language identifier and `count` strings: the offset behind them.
pub open spec fn language_tables_end(
    bytes: Seq<u8>,
    offset: int,
    languages: nat,
    count: nat,
) -> Result<int, FunctionFsError>
    decreases languages,
{
    if languages == 0 {
        Ok(offset)
    } else if offset + 2 > bytes.len() {
        Err(FunctionFsError::TruncatedLanguage)
    } else {
        match string_run_end(bytes, offset + 2, count) {
            Err(error) => Err(error),
            Ok(next) => language_tables_end(bytes, next, (languages - 1) as nat, count),
        }
    }
}

/// Whether a string blob is well formed, or why it is refused.
pub open spec fn strings_verdict(bytes: Seq<u8>) -> Result<(), FunctionFsError> {
    if bytes.len() < 16 {
        Err(FunctionFsError::ShortStringBlob)
    } else if le32_at(bytes, 0) != STRINGS_MAGIC {
        Err(FunctionFsError::StringMagic)
    } else if le32_at(bytes, 4) != bytes.len() {
        Err(FunctionFsError::StringBlobLength)
    } else {
        match language_tables_end(
            bytes,
            16,
            le32_at(bytes, 12) as nat,
            le32_at(bytes, 8) as nat,
        ) {
            Err(error) => Err(error),
            Ok(end) => if end != bytes.len() {
                Err(FunctionFsError::StringsTrailing)
            } else {
                Ok(())
            },
        }
    }
}

/// What a pair of blobs declares: the descriptor blob is judged first.
pub open spec fn blobs_verdict(descriptors: Seq<u8>, strings: Seq<u8>) -> Result<
    (Seq<Endpoint>, bool),
    FunctionFsError,
> {
    match (descriptors_verdict(descriptors), strings_verdict(strings)) {
        (Err(error), _) => Err(error),
        (Ok(_), Err(error)) => Err(error),
        (Ok(found), Ok(_)) => Ok(found),
    }
}

/// The verdict that an outcome of [`inspect`] stands for.
pub open spec fn inspection_view(outcome: Result<Inspection, FunctionFsError>) -> Result<
    (Seq<Endpoint>, bool),
    FunctionFsError,
> {
    match outcome {
        Err(error) => Err(error),
        Ok(found) => Ok((found.endpoints@, found.has_ms_os_descriptors)),
    }
}

/// Checks a descriptor blob and a string blob and lists the data endpoints that they declare.
pub fn inspect(descriptors: &[u8], strings: &[u8]) -> (outcome: Result<Inspection, FunctionFsError>)
    ensures
        inspection_view(outcome) == blobs_verdict(descriptors@, strings@),
{
    let inspection = inspect_descriptors(descriptors)?;
    inspect_strings(strings)?;
    Ok(inspection)
}

fn read_count(bytes: &[u8], offset: usize) -> (count: Result<u32, FunctionFsError>)
    ensures
        count == (if offset + 4 <= bytes@.len() {
            Ok(le32_at(bytes@, offset as int))
        } else {
            Err::<u32, FunctionFsError>(FunctionFsError::TruncatedWord)
        }),
{
    match le_u32(bytes, offset) {
        Some(count) => Ok(count),
        None => Err(FunctionFsError::TruncatedWord),
    }
}

/// Checks a descriptor blob and lists the data endpoints that it declares.
fn inspect_descriptors(bytes: &[u8]) -> (outcome: Result<Inspection, FunctionFsError>)
    ensures
        inspection_view(outcome) == descriptors_verdict(bytes@),
{
    if bytes.len() < 12 {
        return Err(FunctionFsError::ShortDescriptorBlob);
    }
    if read_count(bytes, 0)? != DESCRIPTORS_MAGIC_V2 {
        return Err(FunctionFsError::DescriptorFormat);
    }
    if read_count(bytes, 4)? as usize != bytes.len() {
        return Err(FunctionFsError::DescriptorBlobLength);
    }
    let flags: u32 = read_count(bytes, 8)?;
    if flags == 0 || flags & !SUPPORTED_FLAGS != 0 {
        return Err(FunctionFsError::DescriptorFlags(flags));
    }
    let (counts_end, counts) = read_set_counts(bytes, flags)?;
    let has_os = flags & HAS_MS_OS_DESC != 0;
    let mut offset: usize = counts_end;
    let mut os_count: u32 = 0;
    if has_os {
        os_count = read_count(bytes, counts_end)?;
        offset = counts_end + 4;
    }
    let (sets_end, endpoints, interfaces) = parse_speed_sets(bytes, offset, &counts)?;
    offset = sets_end;
    if has_os {
        if os_count == 0 {
            return Err(FunctionFsError::NoOsDescriptors);
        }
        offset = parse_ms_os_descriptors(bytes, sets_end, os_count, &interfaces)?;
    }
    if offset != bytes.len() {
        return Err(FunctionFsError::DescriptorsTrailing);
    }
    Ok(Inspection { endpoints, has_ms_os_descriptors: has_os })
}

/// Reads the counts of the descriptor sets whose flags are set.
fn read_set_counts(bytes: &[u8], flags: u32) -> (outcome: Result<
    (usize, Vec<(u32, u32)>),
    FunctionFsError,
>)
    requires
        bytes@.len() >= 12,
    ensures
        match outcome {
            Err(error) => set_counts(bytes@, 12, flags, speed_flags(), seq![]) == Err::<
                (int, Seq<(u32, u32)>),
                FunctionFsError,
            >(error),
            Ok((end, counts)) => set_counts(bytes@, 12, flags, speed_flags(), seq![]) == Ok::<
                (int, Seq<(u32, u32)>),
                FunctionFsError,
            >((end as int, counts@)) && end <= bytes@.len(),
        },
{
    let wanted: [u32; 3] = [HAS_FS_DESC, HAS_HS_DESC, HAS_SS_DESC];
    assert(wanted@ =~= speed_flags());
    let mut counts: Vec<(u32, u32)> = Vec::new();
    let mut offset: usize = 12;
    let mut i: usize = 0;
    assert(wanted@.skip(0) =~= wanted@);
    assert(counts@ =~= seq![]);
    while i < 3
        invariant
            i <= 3,
            wanted@ == speed_flags(),
            wanted@.len() == 3,
            12 <= offset <= bytes@.len(),
            set_counts(bytes@, 12, flags, speed_flags(), seq![]) == set_counts(
                bytes@,
                offset as int,
                flags,
                wanted@.skip(i as int),
                counts@,
            ),
        decreases 3 - i,
    {
        let flag: u32 = wanted[i];
        assert(wanted@.skip(i as int).skip(1) =~= wanted@.skip(i + 1));
        if flags & flag != 0 {
            let count: u32 = read_count(bytes, offset)?;
            counts.push((flag, count));
            assert(bytes@.len() == bytes.len());
            offset = offset + 4;
        }
        i = i + 1;
    }
    Ok((offset, counts))
}

/// The endpoints and interfaces that the sets read so far agree on.
spec fn agreed(first: Option<Topology>) -> (Seq<Endpoint>, Set<u8>) {
    match first {
        None => (seq![], Set::empty()),
        Some(set) => (set.endpoints, set.interfaces),
    }
}

/// Reads the descriptor sets and holds each of them against the first.
fn parse_speed_sets(bytes: &[u8], start: usize, counts: &Vec<(u32, u32)>) -> (outcome: Result<
    (usize, Vec<Endpoint>, ByteSet),
    FunctionFsError,
>)
    requires
        start <= bytes@.len(),
    ensures
        match (outcome, speed_sets(bytes@, start as int, counts@, None)) {
            (Err(left), Err(right)) => left == right,
            (Ok((end, endpoints, interfaces)), Ok((model_end, first))) => {
                &&& end == model_end
                &&& end <= bytes@.len()
                &&& (endpoints@, interfaces@) == agreed(first)
            },
            _ => false,
        },
{
    let mut offset: usize = start;
    let mut canonical: Vec<Endpoint> = Vec::new();
    let mut canonical_interfaces = ByteSet::new();
    let ghost mut first: Option<Topology> = None;
    let mut i: usize = 0;
    assert(counts@.skip(0) =~= counts@);
    assert(canonical@ =~= seq![]);
    while i < counts.len()
        invariant
            i <= counts@.len(),
            offset <= bytes@.len(),
            first is None <==> i == 0,
            (canonical@, canonical_interfaces@) == agreed(first),
            speed_sets(bytes@, start as int, counts@, None) == speed_sets(
                bytes@,
                offset as int,
                counts@.skip(i as int),
                first,
            ),
        decreases counts@.len() - i,
    {
        let (speed, count) = counts[i];
        assert(counts@.skip(i as int).skip(1) =~= counts@.skip(i + 1));
        assert(counts@.skip(i as int)[0] == (speed, count));
        let ghost set = descriptor_set(bytes@, offset as int, count as nat, no_topology());
        let (end, endpoints, interfaces) = parse_descriptor_set(bytes, offset, count)?;
        if i == 0 {
            canonical = endpoints;
            canonical_interfaces = interfaces;
            proof {
                first = Some(set->Ok_0.1);
            }
        } else {
            if !same_endpoints(&canonical, &endpoints) {
                return Err(FunctionFsError::EndpointTopology(speed));
            }
            if !canonical_interfaces.same(&interfaces) {
                return Err(FunctionFsError::InterfaceTopology(speed));
            }
        }
        offset = end;
        i = i + 1;
    }
    Ok((offset, canonical, canonical_interfaces))
}

fn same_endpoints(a: &Vec<Endpoint>, b: &Vec<Endpoint>) -> (same: bool)
    ensures
        same == (a@ == b@),
{
    if a.len() != b.len() {
        return false;
    }
    let mut i: usize = 0;
    while i < a.len()
        invariant
            i <= a@.len(),
            a@.len() == b@.len(),
            forall|k: int| 0 <= k < i ==> a@[k] == b@[k],
        decreases a@.len() - i,
    {
        if a[i] != b[i] {
            return false;
        }
        i = i + 1;
    }
    assert(a@ =~= b@);
    true
}

/// Reads one descriptor set.
fn parse_descriptor_set(bytes: &[u8], start: usize, count: u32) -> (outcome: Result<
    (usize, Vec<Endpoint>, ByteSet),
    FunctionFsError,
>)
    requires
        start <= bytes@.len(),
    ensures
        match (outcome, descriptor_set(bytes@, start as int, count as nat, no_topology())) {
            (Err(left), Err(right)) => left == right,
            (Ok((end, endpoints, interfaces)), Ok((model_end, set))) => {
                &&& end == model_end
                &&& end <= bytes@.len()
                &&& endpoints@ == set.endpoints
                &&& interfaces@ == set.interfaces
            },
            _ => false,
        },
{
    let mut endpoints: Vec<Endpoint> = Vec::new();
    let mut addresses = ByteSet::new();
    let mut interfaces = ByteSet::new();
    let mut offset: usize = start;
    let mut i: u32 = 0;
    let ghost mut set = no_topology();
    assert(set.endpoints =~= endpoints@);
    while i < count
        invariant
            i <= count,
            offset <= bytes@.len(),
            set == (Topology {
                endpoints: endpoints@,
                addresses: addresses@,
                interfaces: interfaces@,
            }),
            descriptor_set(bytes@, start as int, count as nat, no_topology()) == descriptor_set(
                bytes@,
                offset as int,
                (count - i) as nat,
                set,
            ),
        decreases count - i,
    {
        if bytes.len() - offset < 2 {
            return Err(FunctionFsError::TruncatedDescriptor);
        }
        let length: usize = bytes[offset] as usize;
        if length < 2 {
            return Err(FunctionFsError::DescriptorLength);
        }
        if bytes.len() - offset < length {
            return Err(FunctionFsError::DescriptorOverrun);
        }
        let descriptor = slice_subrange(bytes, offset, offset + length);
        assert(descriptor_at(bytes@, offset as int) == Ok::<Seq<u8>, FunctionFsError>(
            descriptor@,
        ));
        let ghost next = absorb(set, descriptor@);
        if descriptor[1] == USB_DT_INTERFACE {
            if descriptor.len() < 9 {
                return Err(FunctionFsError::ShortInterface);
            }
            interfaces.insert(descriptor[2]);
        } else if descriptor[1] == USB_DT_ENDPOINT {
            if descriptor.len() < 7 {
                return Err(FunctionFsError::ShortEndpoint);
            }
            let address: u8 = descriptor[2];
            if address & 0x0f == 0 {
                return Err(FunctionFsError::ReservedEndpoint);
            }
            if !addresses.insert(address) {
                return Err(FunctionFsError::DuplicateEndpoint(address));
            }
            let direction = if address & USB_DIR_IN != 0 {
                Direction::In
            } else {
                Direction::Out
            };
            endpoints.push(Endpoint { direction, transfer_type: descriptor[3] & 0x03 });
        }
        proof {
            set = next->Ok_0;
        }
        offset = offset + length;
        i = i + 1;
    }
    Ok((offset, endpoints, interfaces))
}

/// Reads the Microsoft OS descriptors and gives the offset behind them.
fn parse_ms_os_descriptors(
    bytes: &[u8],
    offset: usize,
    count: u32,
    interfaces: &ByteSet,
) -> (outcome: Result<usize, FunctionFsError>)
    requires
        offset <= bytes@.len(),
    ensures
        match outcome {
            Err(error) => os_descriptors_end(bytes@, offset as int, count as nat, interfaces@)
                == Err::<int, FunctionFsError>(error),
            Ok(end) => os_descriptors_end(bytes@, offset as int, count as nat, interfaces@) == Ok::<
                int,
                FunctionFsError,
            >(end as int),
        },
{
    let mut start: usize = offset;
    let mut i: u32 = 0;
    while i < count
        invariant
            i <= count,
            start <= bytes@.len(),
            os_descriptors_end(bytes@, offset as int, count as nat, interfaces@)
                == os_descriptors_end(bytes@, start as int, (count - i) as nat, interfaces@),
        decreases count - i,
    {
        if bytes.len() - start < 11 {
            return Err(FunctionFsError::TruncatedOsHeader);
        }
        let interface: u8 = bytes[start];
        if !interfaces.contains(interface) {
            return Err(FunctionFsError::OsInterface(interface));
        }
        let length: u32 = read_count(bytes, start + 1)?;
        if length < 11 {
            return Err(FunctionFsError::OsLength);
        }
        if length as usize > bytes.len() - start {
            return Err(FunctionFsError::OsOverrun);
        }
        let end: usize = start + length as usize;
        if le_u16(bytes, start + 5) != Some(0x0100) {
            return Err(FunctionFsError::OsVersion);
        }
        let index: u16 = read_word(bytes, start + 7)?;
        if index == 4 {
            parse_extended_compat_id(bytes, start, end, interfaces)?;
        } else if index == 5 {
            parse_extended_properties(bytes, start, end)?;
        } else {
            return Err(FunctionFsError::OsIndex(index));
        }
        start = end;
        i = i + 1;
    }
    Ok(start)
}

/// Reads an extended compatible-ID descriptor.
fn parse_extended_compat_id(
    bytes: &[u8],
    start: usize,
    end: usize,
    interfaces: &ByteSet,
) -> (outcome: Result<(), FunctionFsError>)
    requires
        start + 11 <= end <= bytes@.len(),
    ensures
        outcome == extended_compat_id(bytes@, start as int, end as int, interfaces@),
{
    let count: usize = bytes[start + 9] as usize;
    if count == 0 || bytes[start + 10] != 0 || end - start != 11 + count * 24 {
        return Err(FunctionFsError::CompatibleIdCount);
    }
    check_compatible_ids(bytes, start + 11, count, interfaces)
}

/// Reads `count` compatible-ID features.
fn check_compatible_ids(bytes: &[u8], start: usize, count: usize, interfaces: &ByteSet) -> (outcome:
    Result<(), FunctionFsError>)
    requires
        start + count * 24 <= bytes@.len(),
        count <= 255,
    ensures
        outcome == compatible_ids(bytes@, start as int, count as nat, interfaces@),
{
    let mut cursor: usize = start;
    let mut i: usize = 0;
    while i < count
        invariant
            i <= count <= 255,
            cursor + (count - i) * 24 <= bytes@.len(),
            compatible_ids(bytes@, start as int, count as nat, interfaces@) == compatible_ids(
                bytes@,
                cursor as int,
                (count - i) as nat,
                interfaces@,
            ),
        decreases count - i,
    {
        assert(bytes@.len() == bytes.len());
        let interface: u8 = bytes[cursor];
        if !interfaces.contains(interface) {
            return Err(FunctionFsError::CompatibleIdInterface(interface));
        }
        if bytes[cursor + 1] != 1 || is_all_zero(slice_subrange(bytes, cursor + 2, cursor + 10)) {
            return Err(FunctionFsError::CompatibleIdFeature);
        }
        if !is_padded_graphic(slice_subrange(bytes, cursor + 2, cursor + 18)) || !is_all_zero(
            slice_subrange(bytes, cursor + 18, cursor + 24),
        ) {
            return Err(FunctionFsError::CompatibleIdBytes);
        }
        cursor = cursor + 24;
        i = i + 1;
    }
    Ok(())
}

fn is_all_zero(bytes: &[u8]) -> (zero: bool)
    ensures
        zero == all_zero(bytes@),
{
    let mut i: usize = 0;
    while i < bytes.len()
        invariant
            i <= bytes@.len(),
            forall|k: int| 0 <= k < i ==> bytes@[k] == 0,
        decreases bytes@.len() - i,
    {
        if bytes[i] != 0 {
            return false;
        }
        i = i + 1;
    }
    true
}

fn is_padded_graphic(bytes: &[u8]) -> (graphic: bool)
    ensures
        graphic == padded_graphic(bytes@),
{
    let mut i: usize = 0;
    while i < bytes.len()
        invariant
            i <= bytes@.len(),
            forall|k: int| 0 <= k < i ==> bytes@[k] == 0 || 0x21 <= bytes@[k] <= 0x7e,
        decreases bytes@.len() - i,
    {
        let byte: u8 = bytes[i];
        if byte != 0 && !(0x21 <= byte && byte <= 0x7e) {
            return false;
        }
        i = i + 1;
    }
    true
}

/// Reads an extended-properties descriptor.
fn parse_extended_properties(bytes: &[u8], start: usize, end: usize) -> (outcome: Result<
    (),
    FunctionFsError,
>)
    requires
        start + 11 <= end <= bytes@.len(),
    ensures
        outcome == extended_properties(bytes@, start as int, end as int),
{
    let count: u16 = read_word(bytes, start + 9)?;
    if count == 0 {
        return Err(FunctionFsError::NoProperties);
    }
    check_properties(bytes, start + 11, count, end)
}

/// Reads `count` extended properties, which end at `end`.
fn check_properties(bytes: &[u8], start: usize, count: u16, end: usize) -> (outcome: Result<
    (),
    FunctionFsError,
>)
    requires
        start <= end <= bytes@.len(),
    ensures
        outcome == properties(bytes@, start as int, count as nat, end as int),
{
    let mut cursor: usize = start;
    let mut i: u16 = 0;
    while i < count
        invariant
            i <= count,
            cursor <= end <= bytes@.len(),
            properties(bytes@, start as int, count as nat, end as int) == properties(
                bytes@,
                cursor as int,
                (count - i) as nat,
                end as int,
            ),
        decreases count - i,
    {
        cursor = check_property(bytes, cursor, end)?;
        i = i + 1;
    }
    if cursor != end {
        return Err(FunctionFsError::PropertiesTrailing);
    }
    Ok(())
}

/// Reads one extended property and gives the offset behind it.
fn check_property(bytes: &[u8], cursor: usize, end: usize) -> (outcome: Result<
    usize,
    FunctionFsError,
>)
    requires
        cursor <= end <= bytes@.len(),
    ensures
        match outcome {
            Err(error) => property_end(bytes@, cursor as int, end as int) == Err::<
                int,
                FunctionFsError,
            >(error),
            Ok(next) => property_end(bytes@, cursor as int, end as int) == Ok::<
                int,
                FunctionFsError,
            >(next as int) && next <= end,
        },
{
    let size: u32 = read_count(bytes, cursor)?;
    if size < 14 || size as usize > end - cursor {
        return Err(FunctionFsError::PropertySize);
    }
    let item_end: usize = cursor + size as usize;
    let property_type: u32 = read_count(bytes, cursor + 4)?;
    if property_type < 1 || property_type > 7 {
        return Err(FunctionFsError::PropertyType(property_type));
    }
    let name_length: u16 = read_word(bytes, cursor + 8)?;
    let name_start: usize = cursor + 10;
    if name_length as usize > item_end - name_start - 4 {
        return Err(FunctionFsError::PropertyNameOverrun);
    }
    let name_end: usize = name_start + name_length as usize;
    let name = slice_subrange(bytes, name_start, name_end);
    if name.len() == 0 || name[name.len() - 1] != 0 {
        return Err(FunctionFsError::PropertyName);
    }
    let text = slice_subrange(name, 0, name.len() - 1);
    assert(text@ =~= name@.drop_last());
    if utf8_string(text).is_none() {
        return Err(FunctionFsError::PropertyName);
    }
    let data_length: u32 = read_count(bytes, name_end)?;
    if data_length as usize != item_end - name_end - 4 {
        return Err(FunctionFsError::PropertyData);
    }
    Ok(item_end)
}

/// Checks a string blob.
pub fn inspect_strings(bytes: &[u8]) -> (outcome: Result<(), FunctionFsError>)
    ensures
        outcome == strings_verdict(bytes@),
{
    if bytes.len() < 16 {
        return Err(FunctionFsError::ShortStringBlob);
    }
    if read_count(bytes, 0)? != STRINGS_MAGIC {
        return Err(FunctionFsError::StringMagic);
    }
    if read_count(bytes, 4)? as usize != bytes.len() {
        return Err(FunctionFsError::StringBlobLength);
    }
    let string_count: u32 = read_count(bytes, 8)?;
    let language_count: u32 = read_count(bytes, 12)?;
    let offset: usize = skip_languages(bytes, language_count, string_count)?;
    if offset != bytes.len() {
        return Err(FunctionFsError::StringsTrailing);
    }
    Ok(())
}

/// Reads the string tables of all languages and gives the offset behind them.
fn skip_languages(bytes: &[u8], language_count: u32, string_count: u32) -> (outcome: Result<
    usize,
    FunctionFsError,
>)
    requires
        bytes@.len() >= 16,
    ensures
        match outcome {
            Err(error) => language_tables_end(
                bytes@,
                16,
                language_count as nat,
                string_count as nat,
            ) == Err::<int, FunctionFsError>(error),
            Ok(end) => language_tables_end(
                bytes@,
                16,
                language_count as nat,
                string_count as nat,
            ) == Ok::<int, FunctionFsError>(end as int),
        },
{
    let mut offset: usize = 16;
    let mut i: u32 = 0;
    while i < language_count
        invariant
            i <= language_count,
            offset <= bytes@.len(),
            language_tables_end(bytes@, 16, language_count as nat, string_count as nat)
                == language_tables_end(
                bytes@,
                offset as int,
                (language_count - i) as nat,
                string_count as nat,
            ),
        decreases language_count - i,
    {
        if bytes.len() - offset < 2 {
            return Err(FunctionFsError::TruncatedLanguage);
        }
        offset = skip_strings(bytes, offset + 2, string_count)?;
        i = i + 1;
    }
    Ok(offset)
}

/// Reads `count` zero-terminated strings and gives the offset behind them.
fn skip_strings(bytes: &[u8], start: usize, count: u32) -> (outcome: Result<usize, FunctionFsError>)
    requires
        start <= bytes@.len(),
    ensures
        match outcome {
            Err(error) => string_run_end(bytes@, start as int, count as nat) == Err::<
                int,
                FunctionFsError,
            >(error),
            Ok(end) => string_run_end(bytes@, start as int, count as nat) == Ok::<
                int,
                FunctionFsError,
            >(end as int) && end <= bytes@.len(),
        },
{
    let mut offset: usize = start;
    let mut i: u32 = 0;
    while i < count
        invariant
            i <= count,
            offset <= bytes@.len(),
            string_run_end(bytes@, start as int, count as nat) == string_run_end(
                bytes@,
                offset as int,
                (count - i) as nat,
            ),
        decreases count - i,
    {
        let mut nul: usize = offset;
        while nul < bytes.len() && bytes[nul] != 0
            invariant
                offset <= nul <= bytes@.len(),
                nul_at(bytes@, offset as int) == nul_at(bytes@, nul as int),
            decreases bytes@.len() - nul,
        {
            nul = nul + 1;
        }
        if nul == bytes.len() {
            return Err(FunctionFsError::UnterminatedString);
        }
        if utf8_string(slice_subrange(bytes, offset, nul)).is_none() {
            return Err(FunctionFsError::StringEncoding);
        }
        offset = nul + 1;
        i = i + 1;
    }
    Ok(offset)
}

fn read_word(bytes: &[u8], offset: usize) -> (word: Result<u16, FunctionFsError>)
    ensures
        word == (if offset + 2 <= bytes@.len() {
            Ok(le16_at(bytes@, offset as int))
        } else {
            Err::<u16, FunctionFsError>(FunctionFsError::TruncatedWord)
        }),
{
    match le_u16(bytes, offset) {
        Some(word) => Ok(word),
        None => Err(FunctionFsError::TruncatedWord),
    }
}

} // verus!
