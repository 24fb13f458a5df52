//! The installed profile of a worker: its launch boundary and its local hardware resources.

use crate::cli::{is_name, name_valid};
use crate::paths::{
    absolute, is_absolute, is_strictly_under, names, same_path, split_names, strictly_under,
};
use crate::text::{is_white_space, same_chars, same_text, to_chars, white_space};
use vstd::prelude::*;

verus! {

/// The longest readiness timeout in milliseconds.
pub const MAX_READINESS_TIMEOUT_MS: u64 = 120000;

/// The most lines in one GPIO resource.
pub const MAX_GPIO_LINES: usize = 64;

/// The descriptor under which a worker in device mode finds its device.
pub const DEVICE_FD: i32 = 3;

/// How a worker is run.
#[derive(Clone, Copy, Debug, Eq, PartialEq, Structural)]
pub enum Mode {
    /// As a USB device behind a gadget.
    Usb,
    /// As an ordinary program with one inherited device.
    Device,
}

/// A profile.
#[derive(Clone, Debug)]
pub struct Profile {
    pub schema: u32,
    pub mode: Mode,
    pub name: String,
    pub udc: Option<String>,
    pub functionfs_mount: Option<String>,
    pub worker: WorkerProfile,
    pub resources: Vec<ResourceProfile>,
}

/// How a worker is launched.
#[derive(Clone, Debug)]
pub struct WorkerProfile {
    pub command: String,
    pub arguments: Vec<String>,
    pub run_as: String,
    pub readiness_timeout_ms: Option<u64>,
    pub state_directory: String,
    pub runtime_directory: String,
}

/// A local hardware resource.
#[derive(Clone, Debug)]
pub enum ResourceProfile {
    CharacterDevice(CharacterDeviceResource),
    GpioLines(GpioLinesResource),
}

/// A character device.
#[derive(Clone, Debug)]
pub struct CharacterDeviceResource {
    pub name: String,
    pub path: String,
    pub access: ResourceAccess,
    pub fd: Option<i32>,
}

/// A group of GPIO lines.
#[derive(Clone, Debug)]
pub struct GpioLinesResource {
    pub name: String,
    pub path: String,
    pub offsets: Vec<u32>,
    pub direction: GpioDirection,
    pub active_low: bool,
    pub bias: Option<GpioBias>,
    pub edge: Option<GpioEdge>,
    pub initial_values: Option<Vec<bool>>,
}

/// How a character device is opened.
#[derive(Clone, Copy, Debug, Eq, PartialEq, Structural)]
pub enum ResourceAccess {
    Read,
    Write,
    ReadWrite,
}

/// Which way GPIO lines run.
#[derive(Clone, Copy, Debug, Eq, PartialEq, Structural)]
pub enum GpioDirection {
    Input,
    Output,
}

/// What an input line is tied to.
#[derive(Clone, Copy, Debug, Eq, PartialEq, Structural)]
pub enum GpioBias {
    PullUp,
    PullDown,
    Disabled,
}

/// Which changes of an input line are reported.
#[derive(Clone, Copy, Debug, Eq, PartialEq, Structural)]
pub enum GpioEdge {
    Rising,
    Falling,
    Both,
}

/// A field of a profile.
#[derive(Clone, Copy, Debug, Eq, PartialEq, Structural)]
pub enum Field {
    Name,
    Udc,
    FunctionfsMount,
    Command,
    StateDirectory,
    RuntimeDirectory,
    RunAs,
    ReadinessTimeout,
    ResourceName,
    ResourcePath,
}

/// Why a profile is refused. A number counts the resources from zero, or is a GPIO offset.
#[derive(Clone, Copy, Debug, Eq, PartialEq, Structural)]
pub enum ProfileError {
    Schema(u32),
    InvalidName(Field),
    Missing(Field),
    Unexpected(Field),
    NotAbsolute(Field),
    MountNamespace,
    NotUnder(Field),
    RootWorker,
    ReadinessTimeout,
    DuplicateResource(usize),
    ResourceOutsideDev,
    GpioChipDevice(usize),
    DuplicateDevice(usize),
    GpioNamespace,
    GpioCount,
    DuplicateOffset(usize, u32),
    SharedLine(usize, u32),
    InputInitialValues,
    OutputBiasOrEdge,
    InitialValuesLength,
    MissingInitialValues,
    UnexpectedFd(usize),
    DeviceMapping,
}

impl ResourceProfile {
    /// The name of a resource.
    pub open spec fn name_of(self) -> Seq<char> {
        match self {
            ResourceProfile::CharacterDevice(resource) => resource.name@,
            ResourceProfile::GpioLines(resource) => resource.name@,
        }
    }

    /// The path of a resource.
    pub open spec fn path_of(self) -> Seq<char> {
        match self {
            ResourceProfile::CharacterDevice(resource) => resource.path@,
            ResourceProfile::GpioLines(resource) => resource.path@,
        }
    }

    /// The name of this resource.
    pub fn name(&self) -> (name: &str)
        ensures
            name@ == self.name_of(),
    {
        match self {
            ResourceProfile::CharacterDevice(resource) => resource.name.as_str(),
            ResourceProfile::GpioLines(resource) => resource.name.as_str(),
        }
    }

    /// The path of this resource.
    pub fn path(&self) -> (path: &str)
        ensures
            path@ == self.path_of(),
    {
        match self {
            ResourceProfile::CharacterDevice(resource) => resource.path.as_str(),
            ResourceProfile::GpioLines(resource) => resource.path.as_str(),
        }
    }
}

/// Whether a path is that of a FunctionFS mount: `/dev/ffs-` and something behind it.
pub open spec fn functionfs_mount_path(path: Seq<char>) -> bool {
    let list = names(path);
    list.len() == 2 && list[0] == "dev"@ && "ffs-"@.is_prefix_of(list[1]) && list[1].len() > 4
}

/// Whether a path is that of a GPIO chip: `/dev/gpiochip` and decimal digits behind it.
pub open spec fn gpio_chip_path(path: Seq<char>) -> bool {
    let list = names(path);
    &&& list.len() == 2
    &&& list[0] == "dev"@
    &&& "gpiochip"@.is_prefix_of(list[1])
    &&& list[1].len() > 8
    &&& forall|i: int| 8 <= i < list[1].len() ==> '0' <= #[trigger] list[1][i] <= '9'
}

/// Whether a text can name a USB device controller.
pub open spec fn udc_name_valid(name: Seq<char>) -> bool {
    &&& name.len() > 0
    &&& name != "."@
    &&& name != ".."@
    &&& forall|i: int| 0 <= i < name.len() ==> #[trigger] name[i] != '/' && !white_space(name[i])
}

/// Why the fields that depend on the mode are refused, if they are.
pub open spec fn mode_error(profile: Profile) -> Option<ProfileError> {
    match profile.mode {
        Mode::Usb => if profile.udc is Some && !udc_name_valid(profile.udc->0@) {
            Some(ProfileError::InvalidName(Field::Udc))
        } else if profile.functionfs_mount is None {
            Some(ProfileError::Missing(Field::FunctionfsMount))
        } else if !absolute(profile.functionfs_mount->0@) {
            Some(ProfileError::NotAbsolute(Field::FunctionfsMount))
        } else if !functionfs_mount_path(profile.functionfs_mount->0@) {
            Some(ProfileError::MountNamespace)
        } else {
            None
        },
        Mode::Device => if profile.udc is Some {
            Some(ProfileError::Unexpected(Field::Udc))
        } else if profile.functionfs_mount is Some {
            Some(ProfileError::Unexpected(Field::FunctionfsMount))
        } else {
            None
        },
    }
}

/// Why a path that has to lie strictly below a directory is refused, if it is.
pub open spec fn directory_error(path: Seq<char>, root: Seq<char>, field: Field) -> Option<
    ProfileError,
> {
    if !absolute(path) {
        Some(ProfileError::NotAbsolute(field))
    } else if !strictly_under(path, names(root)) {
        Some(ProfileError::NotUnder(field))
    } else {
        None
    }
}

/// Why the readiness timeout is refused, if it is.
pub open spec fn timeout_error(mode: Mode, timeout: Option<u64>) -> Option<ProfileError> {
    match (mode, timeout) {
        (Mode::Usb, None) => Some(ProfileError::Missing(Field::ReadinessTimeout)),
        (Mode::Usb, Some(ms)) => if ms == 0 || ms > MAX_READINESS_TIMEOUT_MS {
            Some(ProfileError::ReadinessTimeout)
        } else {
            None
        },
        (Mode::Device, Some(_)) => Some(ProfileError::Unexpected(Field::ReadinessTimeout)),
        (Mode::Device, None) => None,
    }
}

/// Why the worker's fields are refused, if they are.
pub open spec fn worker_error(mode: Mode, worker: WorkerProfile) -> Option<ProfileError> {
    if !absolute(worker.command@) {
        Some(ProfileError::NotAbsolute(Field::Command))
    } else if directory_error(
        worker.state_directory@,
        "/var/lib"@,
        Field::StateDirectory,
    ) is Some {
        directory_error(worker.state_directory@, "/var/lib"@, Field::StateDirectory)
    } else if directory_error(
        worker.runtime_directory@,
        "/run"@,
        Field::RuntimeDirectory,
    ) is Some {
        directory_error(worker.runtime_directory@, "/run"@, Field::RuntimeDirectory)
    } else if !name_valid(worker.run_as@) {
        Some(ProfileError::InvalidName(Field::RunAs))
    } else if worker.run_as@ == "root"@ {
        Some(ProfileError::RootWorker)
    } else {
        timeout_error(mode, worker.readiness_timeout_ms)
    }
}

/// Whether one of `earlier` claims the line `offset` of the chip at `path`.
pub open spec fn line_claimed(earlier: Seq<ResourceProfile>, path: Seq<char>, offset: u32) -> bool {
    exists|j: int| 0 <= j < earlier.len() && #[trigger] claims_line(earlier[j], path, offset)
}

/// Whether a resource claims the line `offset` of the chip at `path`.
pub open spec fn claims_line(resource: ResourceProfile, path: Seq<char>, offset: u32) -> bool {
    match resource {
        ResourceProfile::CharacterDevice(_) => false,
        ResourceProfile::GpioLines(lines) => names(lines.path@) == names(path)
            && lines.offsets@.contains(offset),
    }
}

/// Whether a resource is the character device at `path`.
pub open spec fn opens_device(resource: ResourceProfile, path: Seq<char>) -> bool {
    match resource {
        ResourceProfile::CharacterDevice(device) => names(device.path@) == names(path),
        ResourceProfile::GpioLines(_) => false,
    }
}

/// Why one of the offsets from `at` on is refused, if one is.
pub open spec fn offsets_error(
    earlier: Seq<ResourceProfile>,
    lines: GpioLinesResource,
    at: int,
) -> Option<ProfileError>
    decreases lines.offsets@.len() - at,
{
    let offset = lines.offsets@[at];
    if at >= lines.offsets@.len() {
        None
    } else if lines.offsets@.take(at).contains(offset) {
        Some(ProfileError::DuplicateOffset(earlier.len() as usize, offset))
    } else if line_claimed(earlier, lines.path@, offset) {
        Some(ProfileError::SharedLine(earlier.len() as usize, offset))
    } else {
        offsets_error(earlier, lines, at + 1)
    }
}

/// Why the settings of GPIO lines do not suit their direction, if they do not.
pub open spec fn direction_error(lines: GpioLinesResource) -> Option<ProfileError> {
    match lines.direction {
        GpioDirection::Input => if lines.initial_values is Some {
            Some(ProfileError::InputInitialValues)
        } else {
            None
        },
        GpioDirection::Output => if lines.bias is Some || lines.edge is Some {
            Some(ProfileError::OutputBiasOrEdge)
        } else {
            match lines.initial_values {
                None => Some(ProfileError::MissingInitialValues),
                Some(values) => if values@.len() != lines.offsets@.len() {
                    Some(ProfileError::InitialValuesLength)
                } else {
                    None
                },
            }
        },
    }
}

/// Why GPIO lines are refused, if they are.
pub open spec fn lines_error(earlier: Seq<ResourceProfile>, lines: GpioLinesResource) -> Option<
    ProfileError,
> {
    if !gpio_chip_path(lines.path@) {
        Some(ProfileError::GpioNamespace)
    } else if lines.offsets@.len() == 0 || lines.offsets@.len() > MAX_GPIO_LINES {
        Some(ProfileError::GpioCount)
    } else {
        match offsets_error(earlier, lines, 0) {
            Some(error) => Some(error),
            None => direction_error(lines),
        }
    }
}

/// Whether one of `earlier` has the name of `resource`.
pub open spec fn name_taken(earlier: Seq<ResourceProfile>, resource: ResourceProfile) -> bool {
    exists|j: int|
        0 <= j < earlier.len() && #[trigger] earlier[j].name_of() == resource.name_of()
}

/// Whether one of `earlier` is the character device at `path`.
pub open spec fn device_taken(earlier: Seq<ResourceProfile>, path: Seq<char>) -> bool {
    exists|j: int| 0 <= j < earlier.len() && #[trigger] opens_device(earlier[j], path)
}

/// Why a resource behind `earlier` is refused, if it is.
pub open spec fn resource_error(earlier: Seq<ResourceProfile>, resource: ResourceProfile) -> Option<
    ProfileError,
> {
    if !name_valid(resource.name_of()) {
        Some(ProfileError::InvalidName(Field::ResourceName))
    } else if name_taken(earlier, resource) {
        Some(ProfileError::DuplicateResource(earlier.len() as usize))
    } else if !absolute(resource.path_of()) {
        Some(ProfileError::NotAbsolute(Field::ResourcePath))
    } else if !strictly_under(resource.path_of(), names("/dev"@)) {
        Some(ProfileError::ResourceOutsideDev)
    } else {
        match resource {
            ResourceProfile::CharacterDevice(device) => if gpio_chip_path(device.path@) {
                Some(ProfileError::GpioChipDevice(earlier.len() as usize))
            } else if device_taken(earlier, device.path@) {
                Some(ProfileError::DuplicateDevice(earlier.len() as usize))
            } else {
                None
            },
            ResourceProfile::GpioLines(lines) => lines_error(earlier, lines),
        }
    }
}

/// Why one of the resources from `at` on is refused, if one is.
pub open spec fn resources_error(resources: Seq<ResourceProfile>, at: int) -> Option<ProfileError>
    decreases resources.len() - at,
{
    if at >= resources.len() {
        None
    } else {
        match resource_error(resources.take(at), resources[at]) {
            Some(error) => Some(error),
            None => resources_error(resources, at + 1),
        }
    }
}

/// Whether a resource asks for a descriptor of its own.
pub open spec fn maps_fd(resource: ResourceProfile) -> bool {
    match resource {
        ResourceProfile::CharacterDevice(device) => device.fd is Some,
        ResourceProfile::GpioLines(_) => false,
    }
}

/// Why one of the resources from `at` on may not have a descriptor of its own, if one has.
pub open spec fn unmapped_error(resources: Seq<ResourceProfile>, at: int) -> Option<ProfileError>
    decreases resources.len() - at,
{
    if at >= resources.len() {
        None
    } else if maps_fd(resources[at]) {
        Some(ProfileError::UnexpectedFd(at as usize))
    } else {
        unmapped_error(resources, at + 1)
    }
}

/// Whether the resources are the one device that a worker in device mode inherits.
pub open spec fn device_mapping(resources: Seq<ResourceProfile>) -> bool {
    resources.len() == 1 && match resources[0] {
        ResourceProfile::CharacterDevice(device) => device.fd == Some(DEVICE_FD),
        ResourceProfile::GpioLines(_) => false,
    }
}

/// Why the descriptors of the resources do not suit the mode, if they do not.
pub open spec fn mapping_error(mode: Mode, resources: Seq<ResourceProfile>) -> Option<
    ProfileError,
> {
    match mode {
        Mode::Usb => unmapped_error(resources, 0),
        Mode::Device => if device_mapping(resources) {
            None
        } else {
            Some(ProfileError::DeviceMapping)
        },
    }
}

/// Why a profile is refused, if it is.
pub open spec fn profile_error(profile: Profile) -> Option<ProfileError> {
    if profile.schema != 1 {
        Some(ProfileError::Schema(profile.schema))
    } else if !name_valid(profile.name@) {
        Some(ProfileError::InvalidName(Field::Name))
    } else if mode_error(profile) is Some {
        mode_error(profile)
    } else if worker_error(profile.mode, profile.worker) is Some {
        worker_error(profile.mode, profile.worker)
    } else if resources_error(profile.resources@, 0) is Some {
        resources_error(profile.resources@, 0)
    } else {
        mapping_error(profile.mode, profile.resources@)
    }
}

/// The outcome of a check that has found `error`, if anything.
pub open spec fn checked(error: Option<ProfileError>) -> Result<(), ProfileError> {
    match error {
        None => Ok(()),
        Some(error) => Err(error),
    }
}

impl Profile {
    /// Checks a profile.
    pub fn validate(&self) -> (outcome: Result<(), ProfileError>)
        ensures
            outcome == checked(profile_error(*self)),
    {
        if self.schema != 1 {
            return Err(ProfileError::Schema(self.schema));
        }
        if !is_name(self.name.as_str()) {
            return Err(ProfileError::InvalidName(Field::Name));
        }
        self.validate_mode()?;
        validate_worker(self.mode, &self.worker)?;
        let mut i: usize = 0;
        while i < self.resources.len()
            invariant
                i <= self.resources@.len(),
                profile_error(*self) == if resources_error(self.resources@, 0) is Some {
                    resources_error(self.resources@, 0)
                } else {
                    mapping_error(self.mode, self.resources@)
                },
                resources_error(self.resources@, 0) == resources_error(self.resources@, i as int),
            decreases self.resources@.len() - i,
        {
            validate_resource(&self.resources, i)?;
            i = i + 1;
        }
        self.validate_mapping()
    }

    fn validate_mode(&self) -> (outcome: Result<(), ProfileError>)
        ensures
            outcome == checked(mode_error(*self)),
    {
        match self.mode {
            Mode::Usb => {
                if let Some(udc) = &self.udc {
                    if !is_udc_name(udc.as_str()) {
                        return Err(ProfileError::InvalidName(Field::Udc));
                    }
                }
                match &self.functionfs_mount {
                    None => Err(ProfileError::Missing(Field::FunctionfsMount)),
                    Some(mount) => {
                        if !is_absolute(mount.as_str()) {
                            return Err(ProfileError::NotAbsolute(Field::FunctionfsMount));
                        }
                        if !is_functionfs_mount(mount.as_str()) {
                            return Err(ProfileError::MountNamespace);
                        }
                        Ok(())
                    },
                }
            },
            Mode::Device => {
                if self.udc.is_some() {
                    return Err(ProfileError::Unexpected(Field::Udc));
                }
                if self.functionfs_mount.is_some() {
                    return Err(ProfileError::Unexpected(Field::FunctionfsMount));
                }
                Ok(())
            },
        }
    }

    fn validate_mapping(&self) -> (outcome: Result<(), ProfileError>)
        ensures
            outcome == checked(mapping_error(self.mode, self.resources@)),
    {
        match self.mode {
            Mode::Usb => {
                let mut i: usize = 0;
                while i < self.resources.len()
                    invariant
                        i <= self.resources@.len(),
                        self.mode is Usb,
                        unmapped_error(self.resources@, 0) == unmapped_error(
                            self.resources@,
                            i as int,
                        ),
                    decreases self.resources@.len() - i,
                {
                    if let ResourceProfile::CharacterDevice(device) = &self.resources[i] {
                        if device.fd.is_some() {
                            return Err(ProfileError::UnexpectedFd(i));
                        }
                    }
                    i = i + 1;
                }
                Ok(())
            },
            Mode::Device => {
                if self.resources.len() == 1 {
                    if let ResourceProfile::CharacterDevice(device) = &self.resources[0] {
                        if let Some(fd) = device.fd {
                            if fd == DEVICE_FD {
                                return Ok(());
                            }
                        }
                    }
                }
                Err(ProfileError::DeviceMapping)
            },
        }
    }
}

fn is_udc_name(name: &str) -> (valid: bool)
    ensures
        valid == udc_name_valid(name@),
{
    if same_text(name, ".") || same_text(name, "..") {
        return false;
    }
    let chars = to_chars(name);
    let mut i: usize = 0;
    while i < chars.len()
        invariant
            i <= chars@.len(),
            chars@ == name@,
            forall|k: int|
                0 <= k < i ==> #[trigger] chars@[k] != '/' && !white_space(chars@[k]),
        decreases chars@.len() - i,
    {
        let c = chars[i];
        let blank = is_white_space(c);
        if c == '/' || blank {
            assert(white_space(name@[i as int]) == blank);
            return false;
        }
        i = i + 1;
    }
    chars.len() > 0
}

/// Whether a list of characters starts with a text.
fn begins_with(chars: &Vec<char>, prefix: &str) -> (found: bool)
    ensures
        found == prefix@.is_prefix_of(chars@),
{
    let head = to_chars(prefix);
    if head.len() > chars.len() {
        return false;
    }
    same_chars(vstd::slice::slice_subrange(chars.as_slice(), 0, head.len()), head.as_slice())
}

fn is_functionfs_mount(path: &str) -> (found: bool)
    ensures
        found == functionfs_mount_path(path@),
{
    let list = split_names(path);
    assert(names(path@).len() == list@.len());
    if list.len() != 2 {
        return false;
    }
    assert(names(path@)[0] == list@[0]@ && names(path@)[1] == list@[1]@);
    let dev = to_chars("dev");
    same_chars(list[0].as_slice(), dev.as_slice()) && begins_with(&list[1], "ffs-") && list[1].len()
        > 4
}

fn is_gpio_chip_path(path: &str) -> (found: bool)
    ensures
        found == gpio_chip_path(path@),
{
    let list = split_names(path);
    assert(names(path@).len() == list@.len());
    if list.len() != 2 {
        return false;
    }
    assert(names(path@)[0] == list@[0]@ && names(path@)[1] == list@[1]@);
    let dev = to_chars("dev");
    let name = &list[1];
    if !same_chars(list[0].as_slice(), dev.as_slice()) || !begins_with(name, "gpiochip")
        || name.len() <= 8 {
        return false;
    }
    let mut i: usize = 8;
    while i < name.len()
        invariant
            8 <= i <= name@.len(),
            names(path@).len() == 2,
            names(path@)[1] == name@,
            forall|k: int| 8 <= k < i ==> '0' <= #[trigger] name@[k] <= '9',
        decreases name@.len() - i,
    {
        let c = name[i];
        if !('0' <= c && c <= '9') {
            return false;
        }
        i = i + 1;
    }
    true
}

fn validate_directory_under(path: &str, root: &str, field: Field) -> (outcome: Result<
    (),
    ProfileError,
>)
    ensures
        outcome == checked(directory_error(path@, root@, field)),
{
    if !is_absolute(path) {
        return Err(ProfileError::NotAbsolute(field));
    }
    if !is_strictly_under(path, root) {
        return Err(ProfileError::NotUnder(field));
    }
    Ok(())
}

fn validate_worker(mode: Mode, worker: &WorkerProfile) -> (outcome: Result<(), ProfileError>)
    ensures
        outcome == checked(worker_error(mode, *worker)),
{
    if !is_absolute(worker.command.as_str()) {
        return Err(ProfileError::NotAbsolute(Field::Command));
    }
    validate_directory_under(worker.state_directory.as_str(), "/var/lib", Field::StateDirectory)?;
    validate_directory_under(worker.runtime_directory.as_str(), "/run", Field::RuntimeDirectory)?;
    if !is_name(worker.run_as.as_str()) {
        return Err(ProfileError::InvalidName(Field::RunAs));
    }
    if same_text(worker.run_as.as_str(), "root") {
        return Err(ProfileError::RootWorker);
    }
    match (mode, worker.readiness_timeout_ms) {
        (Mode::Usb, None) => Err(ProfileError::Missing(Field::ReadinessTimeout)),
        (Mode::Usb, Some(ms)) => {
            if ms == 0 || ms > MAX_READINESS_TIMEOUT_MS {
                return Err(ProfileError::ReadinessTimeout);
            }
            Ok(())
        },
        (Mode::Device, Some(_)) => Err(ProfileError::Unexpected(Field::ReadinessTimeout)),
        (Mode::Device, None) => Ok(()),
    }
}

/// Checks the resource at a position against those before it.
fn validate_resource(resources: &Vec<ResourceProfile>, at: usize) -> (outcome: Result<
    (),
    ProfileError,
>)
    requires
        at < resources@.len(),
    ensures
        outcome == checked(resource_error(resources@.take(at as int), resources@[at as int])),
{
    let resource = &resources[at];
    if !is_name(resource.name()) {
        return Err(ProfileError::InvalidName(Field::ResourceName));
    }
    if is_name_taken(resources, at) {
        return Err(ProfileError::DuplicateResource(at));
    }
    if !is_absolute(resource.path()) {
        return Err(ProfileError::NotAbsolute(Field::ResourcePath));
    }
    if !is_strictly_under(resource.path(), "/dev") {
        return Err(ProfileError::ResourceOutsideDev);
    }
    match resource {
        ResourceProfile::CharacterDevice(device) => {
            if is_gpio_chip_path(device.path.as_str()) {
                return Err(ProfileError::GpioChipDevice(at));
            }
            if is_device_taken(resources, at, device.path.as_str()) {
                return Err(ProfileError::DuplicateDevice(at));
            }
            Ok(())
        },
        ResourceProfile::GpioLines(lines) => validate_lines(resources, at, lines),
    }
}

fn is_name_taken(resources: &Vec<ResourceProfile>, at: usize) -> (taken: bool)
    requires
        at < resources@.len(),
    ensures
        taken == name_taken(resources@.take(at as int), resources@[at as int]),
{
    let ghost earlier = resources@.take(at as int);
    let mut j: usize = 0;
    while j < at
        invariant
            j <= at < resources@.len(),
            earlier == resources@.take(at as int),
            forall|k: int|
                0 <= k < j ==> #[trigger] earlier[k].name_of() != resources@[at as int].name_of(),
        decreases at - j,
    {
        assert(earlier[j as int] == resources@[j as int]);
        if same_text(resources[j].name(), resources[at].name()) {
            assert(earlier[j as int].name_of() == resources@[at as int].name_of());
            return true;
        }
        j = j + 1;
    }
    false
}

fn is_device_taken(resources: &Vec<ResourceProfile>, at: usize, path: &str) -> (taken: bool)
    requires
        at < resources@.len(),
    ensures
        taken == device_taken(resources@.take(at as int), path@),
{
    let ghost earlier = resources@.take(at as int);
    let mut j: usize = 0;
    while j < at
        invariant
            j <= at < resources@.len(),
            earlier == resources@.take(at as int),
            forall|k: int| 0 <= k < j ==> !#[trigger] opens_device(earlier[k], path@),
        decreases at - j,
    {
        assert(earlier[j as int] == resources@[j as int]);
        if let ResourceProfile::CharacterDevice(device) = &resources[j] {
            if same_path(device.path.as_str(), path) {
                assert(opens_device(earlier[j as int], path@));
                return true;
            }
        }
        j = j + 1;
    }
    false
}

fn has_offset(offsets: &Vec<u32>, end: usize, offset: u32) -> (found: bool)
    requires
        end <= offsets@.len(),
    ensures
        found == offsets@.take(end as int).contains(offset),
{
    let mut i: usize = 0;
    while i < end
        invariant
            i <= end <= offsets@.len(),
            forall|k: int| 0 <= k < i ==> offsets@[k] != offset,
        decreases end - i,
    {
        if offsets[i] == offset {
            assert(offsets@.take(end as int)[i as int] == offset);
            return true;
        }
        i = i + 1;
    }
    false
}

fn is_line_claimed(resources: &Vec<ResourceProfile>, at: usize, path: &str, offset: u32) -> (claimed:
    bool)
    requires
        at < resources@.len(),
    ensures
        claimed == line_claimed(resources@.take(at as int), path@, offset),
{
    let ghost earlier = resources@.take(at as int);
    let mut j: usize = 0;
    while j < at
        invariant
            j <= at < resources@.len(),
            earlier == resources@.take(at as int),
            forall|k: int| 0 <= k < j ==> !#[trigger] claims_line(earlier[k], path@, offset),
        decreases at - j,
    {
        assert(earlier[j as int] == resources@[j as int]);
        if let ResourceProfile::GpioLines(lines) = &resources[j] {
            assert(lines.offsets@.take(lines.offsets@.len() as int) =~= lines.offsets@);
            if same_path(lines.path.as_str(), path) && has_offset(
                &lines.offsets,
                lines.offsets.len(),
                offset,
            ) {
                assert(claims_line(earlier[j as int], path@, offset));
                return true;
            }
        }
        j = j + 1;
    }
    false
}

fn validate_lines(
    resources: &Vec<ResourceProfile>,
    at: usize,
    lines: &GpioLinesResource,
) -> (outcome: Result<(), ProfileError>)
    requires
        at < resources@.len(),
    ensures
        outcome == checked(lines_error(resources@.take(at as int), *lines)),
{
    if !is_gpio_chip_path(lines.path.as_str()) {
        return Err(ProfileError::GpioNamespace);
    }
    if lines.offsets.len() == 0 || lines.offsets.len() > MAX_GPIO_LINES {
        return Err(ProfileError::GpioCount);
    }
    let ghost earlier = resources@.take(at as int);
    let mut i: usize = 0;
    while i < lines.offsets.len()
        invariant
            i <= lines.offsets@.len(),
            at < resources@.len(),
            earlier == resources@.take(at as int),
            lines_error(earlier, *lines) == (match offsets_error(earlier, *lines, 0) {
                Some(error) => Some(error),
                None => direction_error(*lines),
            }),
            offsets_error(earlier, *lines, 0) == offsets_error(earlier, *lines, i as int),
        decreases lines.offsets@.len() - i,
    {
        let offset: u32 = lines.offsets[i];
        if has_offset(&lines.offsets, i, offset) {
            return Err(ProfileError::DuplicateOffset(at, offset));
        }
        if is_line_claimed(resources, at, lines.path.as_str(), offset) {
            return Err(ProfileError::SharedLine(at, offset));
        }
        i = i + 1;
    }
    match lines.direction {
        GpioDirection::Input => {
            if lines.initial_values.is_some() {
                return Err(ProfileError::InputInitialValues);
            }
            Ok(())
        },
        GpioDirection::Output => {
            if lines.bias.is_some() || lines.edge.is_some() {
                return Err(ProfileError::OutputBiasOrEdge);
            }
            match &lines.initial_values {
                None => Err(ProfileError::MissingInitialValues),
                Some(values) => {
                    if values.len() != lines.offsets.len() {
                        return Err(ProfileError::InitialValuesLength);
                    }
                    Ok(())
                },
            }
        },
    }
}

proof fn lemma_each_resource(resources: Seq<ResourceProfile>, at: int, i: int)
    requires
        0 <= at <= i < resources.len(),
        resources_error(resources, at) is None,
    ensures
        resource_error(resources.take(i), resources[i]) is None,
    decreases i - at,
{
    if at < i {
        lemma_each_resource(resources, at + 1, i);
    }
}

proof fn lemma_each_offset(
    earlier: Seq<ResourceProfile>,
    lines: GpioLinesResource,
    at: int,
    i: int,
)
    requires
        0 <= at <= i < lines.offsets@.len(),
        offsets_error(earlier, lines, at) is None,
    ensures
        !lines.offsets@.take(i).contains(lines.offsets@[i]),
        !line_claimed(earlier, lines.path@, lines.offsets@[i]),
    decreases i - at,
{
    if at < i {
        lemma_each_offset(earlier, lines, at + 1, i);
    }
}

/// In an accepted profile no two resources have the same name, open the same character device
/// or claim the same GPIO line.
pub proof fn lemma_resources_do_not_overlap(profile: Profile, i: int, j: int, offset: u32)
    requires
        profile_error(profile) is None,
        0 <= i < j < profile.resources@.len(),
    ensures
        profile.resources@[i].name_of() != profile.resources@[j].name_of(),
        !(opens_device(profile.resources@[i], profile.resources@[j].path_of()) && opens_device(
            profile.resources@[j],
            profile.resources@[j].path_of(),
        )),
        !(claims_line(profile.resources@[i], profile.resources@[j].path_of(), offset)
            && claims_line(profile.resources@[j], profile.resources@[j].path_of(), offset)),
{
    let resources = profile.resources@;
    let earlier = resources.take(j);
    lemma_each_resource(resources, 0, j);
    assert(earlier[i] == resources[i]);
    assert(earlier[i].name_of() == resources[i].name_of());
    match resources[j] {
        ResourceProfile::CharacterDevice(device) => {
            assert(opens_device(earlier[i], device.path@) == opens_device(
                resources[i],
                device.path@,
            ));
        },
        ResourceProfile::GpioLines(lines) => {
            if lines.offsets@.contains(offset) {
                let k = choose|k: int|
                    0 <= k < lines.offsets@.len() && lines.offsets@[k] == offset;
                lemma_each_offset(earlier, lines, 0, k);
                assert(claims_line(earlier[i], lines.path@, offset) == claims_line(
                    resources[i],
                    lines.path@,
                    offset,
                ));
            }
        },
    }
}

/// In an accepted profile a GPIO resource claims each of its lines once.
pub proof fn lemma_offsets_are_distinct(profile: Profile, at: int, i: int, j: int)
    requires
        profile_error(profile) is None,
        0 <= at < profile.resources@.len(),
        profile.resources@[at] is GpioLines,
        0 <= i < j < profile.resources@[at]->GpioLines_0.offsets@.len(),
    ensures
        profile.resources@[at]->GpioLines_0.offsets@[i]
            != profile.resources@[at]->GpioLines_0.offsets@[j],
{
    let resources = profile.resources@;
    let lines = resources[at]->GpioLines_0;
    lemma_each_resource(resources, 0, at);
    lemma_each_offset(resources.take(at), lines, 0, j);
    assert(lines.offsets@.take(j)[i] == lines.offsets@[i]);
}

/// An accepted profile keeps to its boundary: the worker is not root, its directories lie below
/// `/var/lib` and `/run`, its devices lie below `/dev`, and a FunctionFS mount is one of
/// `/dev/ffs-*`.
pub proof fn lemma_profile_keeps_its_boundary(profile: Profile)
    requires
        profile_error(profile) is None,
    ensures
        profile.worker.run_as@ != "root"@,
        absolute(profile.worker.command@),
        strictly_under(profile.worker.state_directory@, names("/var/lib"@)),
        strictly_under(profile.worker.runtime_directory@, names("/run"@)),
        forall|i: int|
            0 <= i < profile.resources@.len() ==> absolute(
                (#[trigger] profile.resources@[i]).path_of(),
            ) && strictly_under(profile.resources@[i].path_of(), names("/dev"@)),
        profile.mode is Usb ==> profile.functionfs_mount is Some && functionfs_mount_path(
            profile.functionfs_mount->0@,
        ),
        profile.mode is Device ==> profile.functionfs_mount is None && profile.udc is None,
{
    assert forall|i: int| 0 <= i < profile.resources@.len() implies absolute(
        (#[trigger] profile.resources@[i]).path_of(),
    ) && strictly_under(profile.resources@[i].path_of(), names("/dev"@)) by {
        lemma_each_resource(profile.resources@, 0, i);
    }
}

} // verus!
