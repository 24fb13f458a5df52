//! What is checked and prepared before a worker runs.

use crate::bytes::{be16, push_be16, push_bytes};
use crate::format::{decimal, decimal_text};
use crate::profile::{Mode, Profile, ResourceAccess, ResourceProfile, WorkerProfile};
use crate::text::{
    chars_view, is_white_space, pieces, same_chars, same_text, split_pieces, to_chars, utf8_string,
    white_space, Separator,
};
use crate::usb_personality::{Endpoint, Personality};
use vstd::prelude::*;
use vstd::utf8::{decode_utf8, encode_utf8, valid_utf8};

verus! {

/// Why a worker is not launched.
#[derive(Clone, Copy, Debug, Eq, PartialEq, Structural)]
pub enum LaunchError {
    /// A profile is not a regular file that only root can write.
    UnsafeProfile,
    /// A worker's program could be changed by others, or would run with other rights.
    UnsafeWorker,
    /// A worker's program is not executable by its account.
    NotExecutable,
    /// A directory of the worker is not a real directory.
    NotDirectory,
    /// A resource is not a real character device.
    NotCharacterDevice,
    UnknownAccount,
    /// An account's number could not be read.
    AccountNumber,
    RootAccount,
    TooManyResources,
    ResourceNameTooLong,
    TooManyEndpoints,
    /// The wanted controller is not there.
    UdcUnavailable,
    /// There is no controller.
    NoUdc,
    /// The mode or the name of a profile has changed.
    ServiceRestartNeeded,
}

/// What the file system says of a file, without following a link.
#[derive(Clone, Copy, Debug, Eq, PartialEq, Structural)]
pub struct FileFacts {
    pub regular: bool,
    pub directory: bool,
    pub symlink: bool,
    pub character_device: bool,
    pub uid: u32,
    pub gid: u32,
    pub mode: u32,
}

/// The account that a worker runs under.
#[derive(Clone, Debug, Eq, PartialEq)]
pub struct WorkerIdentity {
    pub name: String,
    pub uid: u32,
    pub gid: u32,
}

/// Whether a file is a regular file of root without set-ID bits that nobody else can write.
pub open spec fn root_owned(file: FileFacts) -> bool {
    file.regular && !file.symlink && file.uid == 0 && file.mode & 0o6022 == 0
}

/// Accepts a regular file of root without set-ID bits that nobody else can write.
pub fn validate_root_owned_file(file: FileFacts) -> (outcome: Result<(), LaunchError>)
    ensures
        outcome == if root_owned(file) {
            Ok::<(), LaunchError>(())
        } else {
            Err(LaunchError::UnsafeProfile)
        },
{
    if !file.regular || file.symlink || file.uid != 0 || file.mode & 0o6022 != 0 {
        return Err(LaunchError::UnsafeProfile);
    }
    Ok(())
}

/// Whether a program is safe to run under an account: it belongs to root or to the account, has
/// no set-ID bits, and nobody outside the account's group can write it.
pub open spec fn worker_safe(file: FileFacts, uid: u32, gid: u32) -> bool {
    &&& file.regular
    &&& !file.symlink
    &&& file.uid == 0 || file.uid == uid
    &&& file.mode & 0o6002 == 0
    &&& file.mode & 0o0020 == 0 || file.gid == gid
}

/// The permission bit that lets an account run a program.
pub open spec fn execute_bit(file: FileFacts, uid: u32, gid: u32) -> u32 {
    if file.uid == uid {
        0o100
    } else if file.gid == gid {
        0o010
    } else {
        0o001
    }
}

/// Accepts a program that is safe to run under an account and that the account can run.
pub fn validate_worker_executable(file: FileFacts, identity: &WorkerIdentity) -> (outcome: Result<
    (),
    LaunchError,
>)
    ensures
        outcome == if !worker_safe(file, identity.uid, identity.gid) {
            Err::<(), LaunchError>(LaunchError::UnsafeWorker)
        } else if file.mode & execute_bit(file, identity.uid, identity.gid) == 0 {
            Err(LaunchError::NotExecutable)
        } else {
            Ok(())
        },
{
    if !file.regular || file.symlink || (file.uid != 0 && file.uid != identity.uid) || file.mode
        & 0o6002 != 0 || (file.mode & 0o0020 != 0 && file.gid != identity.gid) {
        return Err(LaunchError::UnsafeWorker);
    }
    let executable: u32 = if file.uid == identity.uid {
        0o100
    } else if file.gid == identity.gid {
        0o010
    } else {
        0o001
    };
    if file.mode & executable == 0 {
        return Err(LaunchError::NotExecutable);
    }
    Ok(())
}

/// Accepts a real directory.
pub fn validate_directory(file: FileFacts) -> (outcome: Result<(), LaunchError>)
    ensures
        outcome == if file.directory && !file.symlink {
            Ok::<(), LaunchError>(())
        } else {
            Err(LaunchError::NotDirectory)
        },
{
    if !file.directory || file.symlink {
        return Err(LaunchError::NotDirectory);
    }
    Ok(())
}

/// Accepts a real character device.
pub fn validate_character_device(file: FileFacts) -> (outcome: Result<(), LaunchError>)
    ensures
        outcome == if file.character_device && !file.symlink {
            Ok::<(), LaunchError>(())
        } else {
            Err(LaunchError::NotCharacterDevice)
        },
{
    if file.symlink || !file.character_device {
        return Err(LaunchError::NotCharacterDevice);
    }
    Ok(())
}

/// Whether a device is opened to be read, and whether to be written.
pub fn access_modes(access: ResourceAccess) -> (modes: (bool, bool))
    ensures
        modes == match access {
            ResourceAccess::Read => (true, false),
            ResourceAccess::Write => (false, true),
            ResourceAccess::ReadWrite => (true, true),
        },
{
    match access {
        ResourceAccess::Read => (true, false),
        ResourceAccess::Write => (false, true),
        ResourceAccess::ReadWrite => (true, true),
    }
}

/// A text without white space at its beginning.
pub open spec fn trimmed_start(text: Seq<char>) -> Seq<char>
    decreases text.len(),
{
    if text.len() > 0 && white_space(text[0]) {
        trimmed_start(text.skip(1))
    } else {
        text
    }
}

/// A text without white space at its end.
pub open spec fn trimmed_end(text: Seq<char>) -> Seq<char>
    decreases text.len(),
{
    if text.len() > 0 && white_space(text.last()) {
        trimmed_end(text.drop_last())
    } else {
        text
    }
}

/// The value of decimal digits behind those that made `value`, if they are digits and the value
/// stays within 32 bits.
pub open spec fn digits_value(digits: Seq<char>, value: nat) -> Option<nat>
    decreases digits.len(),
{
    if value > u32::MAX {
        None
    } else if digits.len() == 0 {
        Some(value)
    } else if !('0' <= digits[0] <= '9') {
        None
    } else {
        digits_value(digits.skip(1), (10 * value + (digits[0] as nat - 48)) as nat)
    }
}

/// The 32-bit number that a text stands for: digits, with a plus sign before them or not.
pub open spec fn number_value(text: Seq<char>) -> Option<nat> {
    let digits = if text.len() > 0 && text[0] == '+' {
        text.skip(1)
    } else {
        text
    };
    if digits.len() == 0 {
        None
    } else {
        digits_value(digits, 0)
    }
}

/// The account number in what the system printed, if it is one.
pub open spec fn account_number(output: Seq<u8>) -> Option<nat> {
    if !valid_utf8(output) {
        None
    } else {
        number_value(trimmed_end(trimmed_start(decode_utf8(output))))
    }
}

/// Reads an account number from what the system printed when it was asked for it.
pub fn parse_account_id(success: bool, output: &[u8]) -> (outcome: Result<u32, LaunchError>)
    ensures
        match outcome {
            Ok(number) => success && account_number(output@) == Some(number as nat),
            Err(error) => if !success {
                error == LaunchError::UnknownAccount
            } else {
                account_number(output@) is None && error == LaunchError::AccountNumber
            },
        },
{
    if !success {
        return Err(LaunchError::UnknownAccount);
    }
    let text = match utf8_string(output) {
        Some(text) => text,
        None => return Err(LaunchError::AccountNumber),
    };
    let chars = to_chars(text.as_str());
    let mut start: usize = 0;
    assert(chars@.skip(0) =~= chars@);
    while start < chars.len() && is_white_space(chars[start])
        invariant
            start <= chars@.len(),
            trimmed_start(chars@) == trimmed_start(chars@.skip(start as int)),
        decreases chars@.len() - start,
    {
        assert(chars@.skip(start as int).skip(1) =~= chars@.skip(start + 1));
        start = start + 1;
    }
    let ghost front = chars@.skip(start as int);
    assert(trimmed_start(chars@) == front);
    let mut end: usize = chars.len();
    assert(chars@.subrange(start as int, end as int) =~= front);
    while end > start && is_white_space(chars[end - 1])
        invariant
            start <= end <= chars@.len(),
            trimmed_end(front) == trimmed_end(chars@.subrange(start as int, end as int)),
        decreases end - start,
    {
        assert(chars@.subrange(start as int, end as int).drop_last() =~= chars@.subrange(
            start as int,
            end - 1,
        ));
        end = end - 1;
    }
    let ghost body = chars@.subrange(start as int, end as int);
    assert(trimmed_end(front) == body);
    if start < end && chars[start] == '+' {
        assert(body.skip(1) =~= chars@.subrange(start + 1, end as int));
        start = start + 1;
    }
    if start == end {
        return Err(LaunchError::AccountNumber);
    }
    match read_digits(&chars, start, end) {
        Some(number) => Ok(number),
        None => Err(LaunchError::AccountNumber),
    }
}

fn read_digits(chars: &Vec<char>, start: usize, end: usize) -> (number: Option<u32>)
    requires
        start <= end <= chars@.len(),
    ensures
        match number {
            Some(number) => digits_value(chars@.subrange(start as int, end as int), 0) == Some(
                number as nat,
            ),
            None => digits_value(chars@.subrange(start as int, end as int), 0) is None,
        },
{
    let ghost digits = chars@.subrange(start as int, end as int);
    let mut value: u64 = 0;
    let mut i: usize = start;
    assert(digits.skip(0) =~= digits);
    while i < end
        invariant
            start <= i <= end <= chars@.len(),
            value <= u32::MAX,
            digits == chars@.subrange(start as int, end as int),
            digits_value(digits, 0) == digits_value(digits.skip(i - start), value as nat),
        decreases end - i,
    {
        let c = chars[i];
        let ghost rest = digits.skip(i - start);
        assert(rest[0] == c);
        assert(rest.skip(1) =~= digits.skip(i + 1 - start));
        if !('0' <= c && c <= '9') {
            return None;
        }
        let ghost before = value;
        value = 10 * value + (c as u64 - 48);
        assert(digits_value(rest, before as nat) == digits_value(rest.skip(1), value as nat));
        if value > u32::MAX as u64 {
            return None;
        }
        i = i + 1;
    }
    Some(value as u32)
}

/// The account of a worker, which must not be root's.
pub fn worker_identity(name: &str, uid: u32, gid: u32) -> (outcome: Result<
    WorkerIdentity,
    LaunchError,
>)
    ensures
        match outcome {
            Ok(identity) => uid != 0 && identity.name@ == name@ && identity.uid == uid
                && identity.gid == gid,
            Err(error) => uid == 0 && error == LaunchError::RootAccount,
        },
{
    if uid == 0 {
        return Err(LaunchError::RootAccount);
    }
    Ok(WorkerIdentity { name: name.to_owned(), uid, gid })
}

/// A text with its length in bytes before it.
pub open spec fn counted_text(text: Seq<char>) -> Seq<u8> {
    be16(encode_utf8(text).len() as u16) + encode_utf8(text)
}

/// The names of resources, one behind the other.
pub open spec fn counted_names(resources: Seq<ResourceProfile>) -> Seq<u8>
    decreases resources.len(),
{
    if resources.len() == 0 {
        seq![]
    } else {
        counted_names(resources.drop_last()) + counted_text(resources.last().name_of())
    }
}

/// Whether the name of a resource is too long to be counted.
pub open spec fn name_too_long(resource: ResourceProfile) -> bool {
    encode_utf8(resource.name_of()).len() > u16::MAX
}

/// The body of the record that hands a worker its resources: their number and their names.
pub fn resource_names(resources: &Vec<ResourceProfile>) -> (outcome: Result<Vec<u8>, LaunchError>)
    ensures
        match outcome {
            Ok(body) => {
                &&& resources@.len() <= u16::MAX
                &&& forall|i: int|
                    0 <= i < resources@.len() ==> !name_too_long(#[trigger] resources@[i])
                &&& body@ == be16(resources@.len() as u16) + counted_names(resources@)
            },
            Err(error) => if resources@.len() > u16::MAX {
                error == LaunchError::TooManyResources
            } else {
                error == LaunchError::ResourceNameTooLong && exists|i: int|
                    0 <= i < resources@.len() && name_too_long(#[trigger] resources@[i])
            },
        },
{
    if resources.len() > u16::MAX as usize {
        return Err(LaunchError::TooManyResources);
    }
    let mut body: Vec<u8> = Vec::new();
    push_be16(&mut body, resources.len() as u16);
    let ghost start = be16(resources@.len() as u16);
    let mut i: usize = 0;
    assert(body@ =~= start + counted_names(resources@.take(0)));
    while i < resources.len()
        invariant
            i <= resources@.len() <= u16::MAX,
            start == be16(resources@.len() as u16),
            body@ == start + counted_names(resources@.take(i as int)),
            forall|k: int| 0 <= k < i ==> !name_too_long(#[trigger] resources@[k]),
        decreases resources@.len() - i,
    {
        assert(resources@.take(i + 1).drop_last() =~= resources@.take(i as int));
        let name = resources[i].name().as_bytes();
        if name.len() > u16::MAX as usize {
            assert(name_too_long(resources@[i as int]));
            return Err(LaunchError::ResourceNameTooLong);
        }
        push_be16(&mut body, name.len() as u16);
        push_bytes(&mut body, name);
        assert(body@ =~= start + counted_names(resources@.take(i + 1)));
        i = i + 1;
    }
    assert(resources@.take(resources@.len() as int) =~= resources@);
    Ok(body)
}

/// The description of an endpoint for the worker.
pub open spec fn endpoint_entry(endpoint: Endpoint) -> Seq<u8> {
    seq![endpoint.address, endpoint.transfer_type] + be16(endpoint.max_packet_size)
}

/// The descriptions of endpoints, one behind the other.
pub open spec fn endpoint_entries(endpoints: Seq<Endpoint>) -> Seq<u8>
    decreases endpoints.len(),
{
    if endpoints.len() == 0 {
        seq![]
    } else {
        endpoint_entries(endpoints.drop_last()) + endpoint_entry(endpoints.last())
    }
}

/// The body of the record that hands a worker its endpoints: their number and descriptions.
pub fn endpoint_map(personality: &Personality) -> (outcome: Result<Vec<u8>, LaunchError>)
    ensures
        match outcome {
            Ok(body) => personality.endpoints@.len() <= u16::MAX && body@ == be16(
                personality.endpoints@.len() as u16,
            ) + endpoint_entries(personality.endpoints@),
            Err(error) => personality.endpoints@.len() > u16::MAX && error
                == LaunchError::TooManyEndpoints,
        },
{
    let endpoints = &personality.endpoints;
    if endpoints.len() > u16::MAX as usize {
        return Err(LaunchError::TooManyEndpoints);
    }
    let mut body: Vec<u8> = Vec::new();
    push_be16(&mut body, endpoints.len() as u16);
    let ghost start = be16(endpoints@.len() as u16);
    let mut i: usize = 0;
    assert(body@ =~= start + endpoint_entries(endpoints@.take(0)));
    while i < endpoints.len()
        invariant
            i <= endpoints@.len(),
            body@ == start + endpoint_entries(endpoints@.take(i as int)),
        decreases endpoints@.len() - i,
    {
        assert(endpoints@.take(i + 1).drop_last() =~= endpoints@.take(i as int));
        body.push(endpoints[i].address);
        body.push(endpoints[i].transfer_type);
        push_be16(&mut body, endpoints[i].max_packet_size);
        assert(body@ =~= start + endpoint_entries(endpoints@.take(i + 1)));
        i = i + 1;
    }
    assert(endpoints@.take(endpoints@.len() as int) =~= endpoints@);
    Ok(body)
}

/// Whether a text stands before another in the order of their characters.
pub open spec fn text_before(a: Seq<char>, b: Seq<char>) -> bool
    decreases a.len(),
{
    if b.len() == 0 {
        false
    } else if a.len() == 0 {
        true
    } else if a[0] != b[0] {
        a[0] < b[0]
    } else {
        text_before(a.skip(1), b.skip(1))
    }
}

/// The order of texts is transitive.
pub proof fn lemma_text_order_transitive(a: Seq<char>, b: Seq<char>, c: Seq<char>)
    requires
        text_before(a, b),
        text_before(b, c),
    ensures
        text_before(a, c),
    decreases a.len(),
{
    if a.len() > 0 && a[0] == b[0] && b[0] == c[0] {
        lemma_text_order_transitive(a.skip(1), b.skip(1), c.skip(1));
    }
}

/// Of two texts that do not stand before each other there is only one.
pub proof fn lemma_text_order_total(a: Seq<char>, b: Seq<char>)
    requires
        !text_before(a, b),
        !text_before(b, a),
    ensures
        a == b,
    decreases a.len(),
{
    if a.len() > 0 && b.len() > 0 {
        lemma_text_order_total(a.skip(1), b.skip(1));
        assert(a =~= seq![a[0]] + a.skip(1));
        assert(b =~= seq![b[0]] + b.skip(1));
    } else {
        assert(a =~= b);
    }
}

fn is_before(a: &str, b: &str) -> (before: bool)
    ensures
        before == text_before(a@, b@),
{
    let left = to_chars(a);
    let right = to_chars(b);
    let mut i: usize = 0;
    assert(left@.skip(0) =~= left@);
    assert(right@.skip(0) =~= right@);
    while i < left.len() && i < right.len() && left[i] == right[i]
        invariant
            i <= left@.len(),
            i <= right@.len(),
            text_before(left@, right@) == text_before(
                left@.skip(i as int),
                right@.skip(i as int),
            ),
        decreases left@.len() - i,
    {
        assert(left@.skip(i as int).skip(1) =~= left@.skip(i + 1));
        assert(right@.skip(i as int).skip(1) =~= right@.skip(i + 1));
        i = i + 1;
    }
    if i >= right.len() {
        false
    } else if i >= left.len() {
        true
    } else {
        left[i] < right[i]
    }
}

/// Whether a list of names has a name.
pub open spec fn has_name(names: Seq<String>, name: Seq<char>) -> bool {
    exists|i: int| 0 <= i < names.len() && (#[trigger] names[i])@ == name
}

/// Whether a name is the first of a list in the order of texts.
pub open spec fn first_name(names: Seq<String>, name: Seq<char>) -> bool {
    has_name(names, name) && forall|i: int|
        0 <= i < names.len() ==> !text_before((#[trigger] names[i])@, name)
}

/// The first name of a list in the order of texts is determined by the list.
pub proof fn lemma_first_name_is_unique(names: Seq<String>, a: Seq<char>, b: Seq<char>)
    requires
        first_name(names, a),
        first_name(names, b),
    ensures
        a == b,
{
    let i = choose|i: int| 0 <= i < names.len() && (#[trigger] names[i])@ == a;
    let j = choose|j: int| 0 <= j < names.len() && (#[trigger] names[j])@ == b;
    assert(!text_before(names[i]@, b));
    assert(!text_before(names[j]@, a));
    lemma_text_order_total(a, b);
}

fn contains_name(names: &Vec<String>, name: &str) -> (found: bool)
    ensures
        found == has_name(names@, name@),
{
    let mut i: usize = 0;
    while i < names.len()
        invariant
            i <= names@.len(),
            forall|k: int| 0 <= k < i ==> (#[trigger] names@[k])@ != name@,
        decreases names@.len() - i,
    {
        if same_text(names[i].as_str(), name) {
            assert(names@[i as int]@ == name@);
            return true;
        }
        i = i + 1;
    }
    false
}

/// Chooses a controller: the one that is asked for, or else the first in the order of names.
pub fn select_udc(names: &Vec<String>, requested: &Option<String>) -> (outcome: Result<
    String,
    LaunchError,
>)
    ensures
        match (outcome, requested) {
            (Ok(chosen), Some(wanted)) => chosen@ == wanted@ && has_name(names@, wanted@),
            (Ok(chosen), None) => first_name(names@, chosen@),
            (Err(error), Some(wanted)) => error == LaunchError::UdcUnavailable && !has_name(
                names@,
                wanted@,
            ),
            (Err(error), None) => error == LaunchError::NoUdc && names@.len() == 0,
        },
{
    if let Some(wanted) = requested {
        if contains_name(names, wanted.as_str()) {
            return Ok(wanted.clone());
        }
        return Err(LaunchError::UdcUnavailable);
    }
    if names.len() == 0 {
        return Err(LaunchError::NoUdc);
    }
    let mut best: usize = 0;
    let mut i: usize = 0;
    while i < names.len()
        invariant
            i <= names@.len(),
            best < names@.len(),
            forall|k: int| 0 <= k < i ==> !text_before((#[trigger] names@[k])@, names@[best as int]@),
        decreases names@.len() - i,
    {
        if is_before(names[i].as_str(), names[best].as_str()) {
            proof {
                let new = names@[i as int]@;
                let old_best = names@[best as int]@;
                assert forall|k: int| 0 <= k < i implies !text_before((#[trigger] names@[k])@, new) by {
                    if text_before(names@[k]@, new) {
                        lemma_text_order_transitive(names@[k]@, new, old_best);
                    }
                }
                lemma_text_order_irreflexive(new);
            }
            best = i;
        }
        i = i + 1;
    }
    Ok(names[best].clone())
}

proof fn lemma_text_order_irreflexive(a: Seq<char>)
    ensures
        !text_before(a, a),
    decreases a.len(),
{
    if a.len() > 0 {
        lemma_text_order_irreflexive(a.skip(1));
    }
}

/// Whether a line of the mount table says that a file system is mounted at a path.
pub open spec fn line_mounts(line: Seq<char>, target: Seq<char>, filesystem: Seq<char>) -> bool {
    let fields = pieces(line, Separator::WhiteSpace);
    fields.len() >= 3 && fields[1] == target && fields[2] == filesystem
}

/// Whether the mount table says that a file system is mounted at a path.
pub open spec fn mounted(mounts: Seq<char>, target: Seq<char>, filesystem: Seq<char>) -> bool {
    let lines = pieces(mounts, Separator::Newline);
    exists|i: int| 0 <= i < lines.len() && line_mounts(#[trigger] lines[i], target, filesystem)
}

/// Whether the mount table says that a file system is mounted at a path.
pub fn is_mounted_as(mounts: &str, target: &str, filesystem: &str) -> (found: bool)
    ensures
        found == mounted(mounts@, target@, filesystem@),
{
    let text = to_chars(mounts);
    let wanted = to_chars(target);
    let kind = to_chars(filesystem);
    let lines = split_pieces(&text, Separator::Newline);
    let ghost model = pieces(mounts@, Separator::Newline);
    let mut i: usize = 0;
    assert(model.len() == lines@.len());
    while i < lines.len()
        invariant
            i <= lines@.len(),
            wanted@ == target@,
            kind@ == filesystem@,
            model == pieces(mounts@, Separator::Newline),
            model == chars_view(lines@),
            forall|k: int|
                0 <= k < i ==> !line_mounts(#[trigger] model[k], target@, filesystem@),
        decreases lines@.len() - i,
    {
        let fields = split_pieces(&lines[i], Separator::WhiteSpace);
        let ghost columns = pieces(model[i as int], Separator::WhiteSpace);
        assert(model[i as int] == lines@[i as int]@);
        assert(columns == chars_view(fields@));
        assert(columns.len() == fields@.len());
        if fields.len() >= 3 {
            assert(columns[1] == fields@[1]@);
            assert(columns[2] == fields@[2]@);
            if same_chars(fields[1].as_slice(), wanted.as_slice()) && same_chars(
                fields[2].as_slice(),
                kind.as_slice(),
            ) {
                assert(line_mounts(model[i as int], target@, filesystem@));
                return true;
            }
        }
        i = i + 1;
    }
    false
}

/// What is to be done so that gadgets can be configured.
#[derive(Clone, Copy, Debug, Eq, PartialEq, Structural)]
pub enum ConfigfsStep {
    /// Mount ConfigFS.
    Mount,
    /// Load the kernel's support for gadgets.
    LoadSupport,
    Ready,
    /// The kernel does not support gadgets.
    Unavailable,
}

/// What is to be done next so that gadgets can be configured: `mounted` says whether ConfigFS is
/// mounted, `supported` whether it has a place for gadgets, and `loaded` whether support for them
/// was loaded.
pub fn next_configfs_step(mounted: bool, supported: bool, loaded: bool) -> (step: ConfigfsStep)
    ensures
        step == if !mounted {
            ConfigfsStep::Mount
        } else if supported {
            ConfigfsStep::Ready
        } else if loaded {
            ConfigfsStep::Unavailable
        } else {
            ConfigfsStep::LoadSupport
        },
{
    if !mounted {
        ConfigfsStep::Mount
    } else if supported {
        ConfigfsStep::Ready
    } else if loaded {
        ConfigfsStep::Unavailable
    } else {
        ConfigfsStep::LoadSupport
    }
}

/// The variables that a worker finds in its environment, which holds nothing else.
pub fn worker_environment(worker: &WorkerProfile) -> (variables: Vec<(String, String)>)
    ensures
        variables@.len() == 2,
        variables@[0].0@ == "STATE_DIRECTORY"@,
        variables@[0].1@ == worker.state_directory@,
        variables@[1].0@ == "RUNTIME_DIRECTORY"@,
        variables@[1].1@ == worker.runtime_directory@,
{
    let mut variables: Vec<(String, String)> = Vec::new();
    variables.push(("STATE_DIRECTORY".to_owned(), worker.state_directory.clone()));
    variables.push(("RUNTIME_DIRECTORY".to_owned(), worker.runtime_directory.clone()));
    variables
}

/// Accepts a profile that was read again while a worker runs by another version of it.
pub fn validate_reload(current: &Profile, replacement: &Profile) -> (outcome: Result<
    (),
    LaunchError,
>)
    ensures
        outcome == if current.mode == replacement.mode && current.name@ == replacement.name@ {
            Ok::<(), LaunchError>(())
        } else {
            Err(LaunchError::ServiceRestartNeeded)
        },
{
    if current.mode != replacement.mode || !same_text(
        current.name.as_str(),
        replacement.name.as_str(),
    ) {
        return Err(LaunchError::ServiceRestartNeeded);
    }
    Ok(())
}

/// The file that a supervisor locks, so that each controller has one supervisor and each device
/// profile has one worker.
pub fn lock_file(mode: Mode, name: &str) -> (path: String)
    ensures
        path@ == match mode {
            Mode::Usb => "/run/lock/usb-gadget-supervisor.lock"@,
            Mode::Device => "/run/lock/usb-gadget-supervisor-device-"@ + name@ + ".lock"@,
        },
{
    match mode {
        Mode::Usb => "/run/lock/usb-gadget-supervisor.lock".to_owned(),
        Mode::Device => {
            let mut path = "/run/lock/usb-gadget-supervisor-device-".to_owned();
            path.append(name);
            path.append(".lock");
            path
        },
    }
}

/// The file that keeps a copy of a gadget's personality.
pub fn bundle_file(name: &str) -> (path: String)
    ensures
        path@ == "/run/usb-gadget-supervisor/"@ + name@ + ".cbor"@,
{
    let mut path = "/run/usb-gadget-supervisor/".to_owned();
    path.append(name);
    path.append(".cbor");
    path
}

/// The file that such a copy is written to before it takes its place.
pub fn bundle_temporary(name: &str, process: u32) -> (path: String)
    ensures
        path@ == "/run/usb-gadget-supervisor/."@ + name@ + "."@ + decimal_text(process as nat)
            + ".tmp"@,
{
    let mut path = "/run/usb-gadget-supervisor/.".to_owned();
    path.append(name);
    path.append(".");
    path.append(decimal(process as u64).as_str());
    path.append(".tmp");
    path
}

} // verus!
