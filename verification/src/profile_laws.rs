//! Which profiles are taken.

use crate::cli::name_valid;
use crate::paths::{absolute, lemma_names_join, lemma_one_name, names, strictly_under};
use crate::profile::{
    claims_line, device_taken, functionfs_mount_path, gpio_chip_path, line_claimed, lines_error,
    mapping_error, maps_fd, mode_error, name_taken, offsets_error, opens_device, profile_error,
    resource_error, resources_error, timeout_error, unmapped_error, worker_error, Field,
    GpioDirection, GpioLinesResource, Mode, Profile, ProfileError, ResourceProfile, WorkerProfile,
};
use crate::text::white_space;
use vstd::prelude::*;

verus! {

/// Whether a path leads below a directory with these names, and never up.
pub open spec fn lies_below(path: Seq<char>, root: Seq<Seq<char>>) -> bool {
    &&& path.len() > 0 && path[0] == '/'
    &&& forall|i: int| 0 <= i < names(path).len() ==> #[trigger] names(path)[i] != seq!['.', '.']
    &&& names(path).len() > root.len()
    &&& forall|i: int| 0 <= i < root.len() ==> #[trigger] names(path)[i] == root[i]
}

/// Whether a path is `/dev/gpiochip` with decimal digits behind it.
pub open spec fn chip(path: Seq<char>) -> bool {
    let list = names(path);
    &&& list.len() == 2
    &&& list[0] == "dev"@
    &&& list[1].len() > 8
    &&& list[1].take(8) == "gpiochip"@
    &&& forall|i: int| 8 <= i < list[1].len() ==> 48 <= #[trigger] (list[1][i] as u32) <= 57
}

/// Whether a path is `/dev/ffs-` with something behind it.
pub open spec fn mount(path: Seq<char>) -> bool {
    let list = names(path);
    &&& list.len() == 2
    &&& list[0] == "dev"@
    &&& list[1].len() > 4
    &&& list[1].take(4) == "ffs-"@
}

/// Whether the fields that depend on the mode suit it.
pub open spec fn mode_fits(profile: Profile) -> bool {
    match profile.mode {
        Mode::Usb => {
            &&& profile.functionfs_mount is Some
            &&& (profile.functionfs_mount->0)@.len() > 0
            &&& (profile.functionfs_mount->0)@[0] == '/'
            &&& mount((profile.functionfs_mount->0)@)
            &&& profile.worker.readiness_timeout_ms matches Some(ms) && 1 <= ms <= 120000
            &&& profile.udc matches Some(udc) ==> {
                &&& udc@.len() > 0
                &&& udc@ != "."@
                &&& udc@ != ".."@
                &&& forall|i: int|
                    0 <= i < udc@.len() ==> #[trigger] udc@[i] != '/' && !white_space(udc@[i])
            }
        },
        Mode::Device => profile.functionfs_mount is None && profile.udc is None
            && profile.worker.readiness_timeout_ms is None,
    }
}

/// Whether a worker may be run as its profile says.
pub open spec fn worker_fits(worker: WorkerProfile) -> bool {
    &&& worker.command@.len() > 0 && worker.command@[0] == '/'
    &&& forall|i: int|
        0 <= i < names(worker.command@).len() ==> #[trigger] names(worker.command@)[i] != seq![
            '.',
            '.',
        ]
    &&& lies_below(worker.state_directory@, seq!["var"@, "lib"@])
    &&& lies_below(worker.runtime_directory@, seq!["run"@])
    &&& name_valid(worker.run_as@)
    &&& worker.run_as@ != "root"@
}

/// Whether GPIO lines can be asked for on their own.
pub open spec fn lines_fit(lines: GpioLinesResource) -> bool {
    &&& chip(lines.path@)
    &&& 1 <= lines.offsets@.len() <= 64
    &&& forall|i: int, j: int|
        0 <= i < j < lines.offsets@.len() ==> lines.offsets@[i] != lines.offsets@[j]
    &&& match lines.direction {
        GpioDirection::Input => lines.initial_values is None,
        GpioDirection::Output => lines.bias is None && lines.edge is None && (
        lines.initial_values matches Some(values) && values@.len() == lines.offsets@.len()),
    }
}

/// Whether two resources stay out of each other's way.
pub open spec fn apart(a: ResourceProfile, b: ResourceProfile) -> bool {
    &&& a.name_of() != b.name_of()
    &&& match (a, b) {
        (
            ResourceProfile::CharacterDevice(first),
            ResourceProfile::CharacterDevice(second),
        ) => names(first.path@) != names(second.path@),
        (ResourceProfile::GpioLines(first), ResourceProfile::GpioLines(second)) => names(
            first.path@,
        ) != names(second.path@) || forall|i: int, j: int|
            0 <= i < first.offsets@.len() && 0 <= j < second.offsets@.len()
                ==> first.offsets@[i] != second.offsets@[j],
        _ => true,
    }
}

/// Whether a resource can be opened on its own.
pub open spec fn resource_fits(resource: ResourceProfile) -> bool {
    &&& name_valid(resource.name_of())
    &&& lies_below(resource.path_of(), seq!["dev"@])
    &&& match resource {
        ResourceProfile::CharacterDevice(device) => !chip(device.path@),
        ResourceProfile::GpioLines(lines) => lines_fit(lines),
    }
}

/// Whether the descriptors of the resources suit the mode.
pub open spec fn mapping_fits(mode: Mode, resources: Seq<ResourceProfile>) -> bool {
    match mode {
        Mode::Usb => forall|i: int|
            0 <= i < resources.len() ==> ((#[trigger] resources[i]) matches
                ResourceProfile::CharacterDevice(device) ==> device.fd is None),
        Mode::Device => resources.len() == 1 && (resources[0] matches
            ResourceProfile::CharacterDevice(device) && device.fd == Some(3i32)),
    }
}

proof fn lemma_roots()
    ensures
        names("/dev"@) == seq!["dev"@],
        names("/run"@) == seq!["run"@],
        names("/var/lib"@) == seq!["var"@, "lib"@],
{
    reveal_strlit("/dev");
    reveal_strlit("/run");
    reveal_strlit("/var/lib");
    reveal_strlit("dev");
    reveal_strlit("run");
    reveal_strlit("var");
    reveal_strlit("lib");
    let empty = Seq::<char>::empty();
    assert(names(empty) =~= seq![]);
    assert("dev"@.len() == 3 && "run"@.len() == 3 && "var"@.len() == 3 && "lib"@.len() == 3);
    assert(seq!['.'].len() == 1);
    lemma_one_name("dev"@);
    lemma_one_name("run"@);
    lemma_one_name("var"@);
    lemma_one_name("lib"@);
    lemma_names_join(empty, "dev"@);
    lemma_names_join(empty, "run"@);
    lemma_names_join(empty, "var"@);
    lemma_names_join(empty + seq!['/'] + "var"@, "lib"@);
    assert(empty + seq!['/'] + "dev"@ =~= "/dev"@);
    assert(empty + seq!['/'] + "run"@ =~= "/run"@);
    assert(empty + seq!['/'] + "var"@ + seq!['/'] + "lib"@ =~= "/var/lib"@);
    assert(names("/dev"@) =~= seq!["dev"@]);
    assert(names("/run"@) =~= seq!["run"@]);
    assert(names("/var/lib"@) =~= seq!["var"@, "lib"@]);
}

proof fn lemma_absolute(path: Seq<char>)
    ensures
        absolute(path) <==> (path.len() > 0 && path[0] == '/' && forall|i: int|
            0 <= i < names(path).len() ==> #[trigger] names(path)[i] != seq!['.', '.']),
{
    if !absolute(path) && path.len() > 0 && path[0] == '/' {
        let i = choose|i: int| 0 <= i < names(path).len() && names(path)[i] == seq!['.', '.'];
        assert(names(path)[i] == seq!['.', '.']);
    }
}

proof fn lemma_below(path: Seq<char>, root: Seq<Seq<char>>)
    ensures
        absolute(path) && strictly_under(path, root) <==> lies_below(path, root),
{
    lemma_absolute(path);
    if root.len() <= names(path).len() {
        let head = names(path).subrange(0, root.len() as int);
        if forall|i: int| 0 <= i < root.len() ==> #[trigger] names(path)[i] == root[i] {
            assert(root =~= head);
        }
        if root == head {
            assert forall|i: int| 0 <= i < root.len() implies #[trigger] names(path)[i]
                == root[i] by {
                assert(head[i] == names(path)[i]);
            }
        }
    }
}

proof fn lemma_digit(c: char)
    ensures
        48 <= (c as u32) <= 57 <==> '0' <= c <= '9',
{
}

proof fn lemma_chip(path: Seq<char>)
    ensures
        gpio_chip_path(path) <==> chip(path),
        functionfs_mount_path(path) <==> mount(path),
{
    let list = names(path);
    reveal_strlit("gpiochip");
    reveal_strlit("ffs-");
    if list.len() == 2 {
        assert(list[1].len() > 8 ==> list[1].take(8) =~= list[1].subrange(0, 8));
        assert(list[1].len() > 4 ==> list[1].take(4) =~= list[1].subrange(0, 4));
    }
    if gpio_chip_path(path) {
        assert forall|i: int| 8 <= i < list[1].len() implies 48 <= #[trigger] (list[1][i] as u32)
            <= 57 by {
            lemma_digit(list[1][i]);
        }
    }
    if chip(path) {
        assert forall|i: int| 8 <= i < list[1].len() implies '0' <= #[trigger] list[1][i]
            <= '9' by {
            assert(48 <= (list[1][i] as u32) <= 57);
            lemma_digit(list[1][i]);
        }
    }
}

proof fn lemma_offsets(earlier: Seq<ResourceProfile>, lines: GpioLinesResource, at: int)
    requires
        0 <= at <= lines.offsets@.len(),
    ensures
        offsets_error(earlier, lines, at) is None <==> forall|i: int|
            at <= i < lines.offsets@.len() ==> !lines.offsets@.take(i).contains(
                #[trigger] lines.offsets@[i],
            ) && !line_claimed(earlier, lines.path@, lines.offsets@[i]),
    decreases lines.offsets@.len() - at,
{
    if at < lines.offsets@.len() {
        lemma_offsets(earlier, lines, at + 1);
        let offset = lines.offsets@[at];
        assert(offset == lines.offsets@[at]);
    }
}

#[verifier::rlimit(60)]
proof fn lemma_lines(earlier: Seq<ResourceProfile>, lines: GpioLinesResource)
    ensures
        lines_error(earlier, lines) is None <==> lines_fit(lines) && forall|j: int|
            0 <= j < earlier.len() && (#[trigger] earlier[j]) is GpioLines ==> (names(
                (earlier[j]->GpioLines_0).path@,
            ) != names(lines.path@) || forall|i: int, k: int|
                0 <= i < (earlier[j]->GpioLines_0).offsets@.len() && 0 <= k < lines.offsets@.len()
                    ==> (earlier[j]->GpioLines_0).offsets@[i] != lines.offsets@[k]),
{
    let offsets = lines.offsets@;
    lemma_chip(lines.path@);
    lemma_offsets(earlier, lines, 0);
    let distinct = forall|i: int, j: int| 0 <= i < j < offsets.len() ==> offsets[i] != offsets[j];
    let unclaimed = forall|k: int|
        0 <= k < offsets.len() ==> !line_claimed(earlier, lines.path@, #[trigger] offsets[k]);
    assert(distinct <==> forall|i: int|
        0 <= i < offsets.len() ==> !offsets.take(i).contains(#[trigger] offsets[i])) by {
        if distinct {
            assert forall|i: int| 0 <= i < offsets.len() implies !offsets.take(i).contains(
                #[trigger] offsets[i],
            ) by {
                if offsets.take(i).contains(offsets[i]) {
                    let j = choose|j: int| 0 <= j < i && offsets.take(i)[j] == offsets[i];
                    assert(offsets[j] == offsets[i]);
                }
            }
        } else {
            let (i, j) = choose|i: int, j: int|
                0 <= i < j < offsets.len() && offsets[i] == offsets[j];
            assert(offsets.take(j)[i] == offsets[j]);
            assert(offsets.take(j).contains(offsets[j]));
        }
    }
    if unclaimed {
        assert forall|j: int, i: int, k: int|
            0 <= j < earlier.len() && (#[trigger] earlier[j]) is GpioLines && names(
                (earlier[j]->GpioLines_0).path@,
            ) == names(lines.path@) && 0 <= i < (earlier[j]->GpioLines_0).offsets@.len() && 0 <= k
                < offsets.len() implies #[trigger] (earlier[j]->GpioLines_0).offsets@[i]
            != #[trigger] offsets[k] by {
            if (earlier[j]->GpioLines_0).offsets@[i] == offsets[k] {
                assert(claims_line(earlier[j], lines.path@, offsets[k]));
                assert(line_claimed(earlier, lines.path@, offsets[k]));
            }
        }
    } else {
        let k = choose|k: int|
            0 <= k < offsets.len() && line_claimed(earlier, lines.path@, #[trigger] offsets[k]);
        let j = choose|j: int|
            0 <= j < earlier.len() && #[trigger] claims_line(earlier[j], lines.path@, offsets[k]);
        let other = (earlier[j]->GpioLines_0).offsets@;
        let i = choose|i: int| 0 <= i < other.len() && other[i] == offsets[k];
        assert(earlier[j] is GpioLines);
        assert(other[i] == offsets[k]);
    }
}

#[verifier::rlimit(60)]
proof fn lemma_resource(earlier: Seq<ResourceProfile>, resource: ResourceProfile)
    ensures
        resource_error(earlier, resource) is None <==> resource_fits(resource) && forall|j: int|
            0 <= j < earlier.len() ==> apart(#[trigger] earlier[j], resource),
{
    lemma_roots();
    lemma_below(resource.path_of(), names("/dev"@));
    assert(name_taken(earlier, resource) <==> exists|j: int|
        0 <= j < earlier.len() && (#[trigger] earlier[j]).name_of() == resource.name_of());
    match resource {
        ResourceProfile::CharacterDevice(device) => {
            lemma_chip(device.path@);
            if device_taken(earlier, device.path@) {
                let j = choose|j: int|
                    0 <= j < earlier.len() && #[trigger] opens_device(earlier[j], device.path@);
                assert(!apart(earlier[j], resource));
            } else {
                assert forall|j: int| 0 <= j < earlier.len() && (
                #[trigger] earlier[j]).name_of() != resource.name_of() implies apart(
                    earlier[j],
                    resource,
                ) by {
                    assert(!opens_device(earlier[j], device.path@));
                }
            }
        },
        ResourceProfile::GpioLines(lines) => {
            lemma_lines(earlier, lines);
            if lines_error(earlier, lines) is None && !name_taken(earlier, resource) {
                assert forall|j: int| 0 <= j < earlier.len() implies apart(
                    #[trigger] earlier[j],
                    resource,
                ) by {
                    assert(earlier[j].name_of() != resource.name_of());
                }
            }
            if forall|j: int| 0 <= j < earlier.len() ==> apart(#[trigger] earlier[j], resource) {
                assert forall|j: int|
                    0 <= j < earlier.len() && (#[trigger] earlier[j]) is GpioLines implies (names(
                    (earlier[j]->GpioLines_0).path@,
                ) != names(lines.path@) || forall|i: int, k: int|
                    0 <= i < (earlier[j]->GpioLines_0).offsets@.len() && 0 <= k
                        < lines.offsets@.len() ==> (earlier[j]->GpioLines_0).offsets@[i]
                        != lines.offsets@[k]) by {
                    assert(apart(earlier[j], resource));
                }
            }
        },
    }
}

proof fn lemma_resources(resources: Seq<ResourceProfile>, at: int)
    requires
        0 <= at <= resources.len(),
    ensures
        resources_error(resources, at) is None <==> forall|i: int|
            at <= i < resources.len() ==> resource_error(
                resources.take(i),
                #[trigger] resources[i],
            ) is None,
    decreases resources.len() - at,
{
    if at < resources.len() {
        lemma_resources(resources, at + 1);
        assert(resources[at] == resources[at]);
    }
}

proof fn lemma_unmapped(resources: Seq<ResourceProfile>, at: int)
    requires
        0 <= at <= resources.len(),
    ensures
        unmapped_error(resources, at) is None <==> forall|i: int|
            at <= i < resources.len() ==> !maps_fd(#[trigger] resources[i]),
    decreases resources.len() - at,
{
    if at < resources.len() {
        lemma_unmapped(resources, at + 1);
        assert(maps_fd(resources[at]) || !maps_fd(resources[at]));
    }
}

/// A profile is taken exactly where its layout is the current one, its name is one, its fields suit
/// its mode, its worker may be run, each resource can be opened, no two resources are in each
/// other's way, and their descriptors suit the mode.
#[verifier::rlimit(60)]
pub proof fn lemma_profiles_are_taken(profile: Profile)
    ensures
        profile_error(profile) is None <==> {
            &&& profile.schema == 1
            &&& name_valid(profile.name@)
            &&& mode_fits(profile)
            &&& worker_fits(profile.worker)
            &&& forall|i: int|
                0 <= i < profile.resources@.len() ==> resource_fits(#[trigger] profile.resources@[i])
            &&& forall|i: int, j: int|
                0 <= i < j < profile.resources@.len() ==> apart(
                    #[trigger] profile.resources@[i],
                    #[trigger] profile.resources@[j],
                )
            &&& mapping_fits(profile.mode, profile.resources@)
        },
{
    let resources = profile.resources@;
    lemma_roots();
    lemma_mode(profile);
    lemma_worker(profile.mode, profile.worker);
    lemma_resources(resources, 0);
    lemma_unmapped(resources, 0);
    assert forall|i: int| 0 <= i < resources.len() implies (resource_error(
        resources.take(i),
        #[trigger] resources[i],
    ) is None <==> resource_fits(resources[i]) && forall|j: int|
        0 <= j < i ==> apart(#[trigger] resources[j], resources[i])) by {
        lemma_resource(resources.take(i), resources[i]);
        let earlier = resources.take(i);
        if forall|j: int| 0 <= j < i ==> apart(#[trigger] resources[j], resources[i]) {
            assert forall|j: int| 0 <= j < earlier.len() implies apart(
                #[trigger] earlier[j],
                resources[i],
            ) by {
                assert(earlier[j] == resources[j]);
            }
        }
        if forall|j: int| 0 <= j < earlier.len() ==> apart(#[trigger] earlier[j], resources[i]) {
            assert forall|j: int| 0 <= j < i implies apart(#[trigger] resources[j], resources[i]) by {
                assert(earlier[j] == resources[j]);
            }
        }
    }
    assert(mapping_error(profile.mode, resources) is None <==> mapping_fits(
        profile.mode,
        resources,
    )) by {
        if profile.mode is Usb {
            if mapping_fits(profile.mode, resources) {
                assert forall|i: int| 0 <= i < resources.len() implies !maps_fd(
                    #[trigger] resources[i],
                ) by {}
            }
            if unmapped_error(resources, 0) is None {
                assert forall|i: int| 0 <= i < resources.len() implies ((
                #[trigger] resources[i]) matches ResourceProfile::CharacterDevice(device)
                    ==> device.fd is None) by {
                    assert(!maps_fd(resources[i]));
                }
            }
        }
    }
}

proof fn lemma_mode(profile: Profile)
    ensures
        mode_error(profile) is None && timeout_error(
            profile.mode,
            profile.worker.readiness_timeout_ms,
        ) is None <==> mode_fits(profile),
{
    if profile.mode is Usb && profile.functionfs_mount is Some {
        let path = (profile.functionfs_mount->0)@;
        lemma_absolute(path);
        lemma_chip(path);
        reveal_strlit("dev");
        if mount(path) {
            assert("dev"@.len() == 3);
            assert(names(path)[0] != seq!['.', '.']);
            assert(names(path)[1] != seq!['.', '.']);
            assert forall|i: int| 0 <= i < names(path).len() implies #[trigger] names(path)[i]
                != seq!['.', '.'] by {}
        }
    }
}

proof fn lemma_worker(mode: Mode, worker: WorkerProfile)
    ensures
        worker_error(mode, worker) is None <==> worker_fits(worker) && timeout_error(
            mode,
            worker.readiness_timeout_ms,
        ) is None,
{
    lemma_roots();
    lemma_absolute(worker.command@);
    lemma_below(worker.state_directory@, names("/var/lib"@));
    lemma_below(worker.runtime_directory@, names("/run"@));
}

/// What is wrong with the resource number `at` of a profile that is refused for it.
pub open spec fn resource_cause(
    resources: Seq<ResourceProfile>,
    at: int,
    error: ProfileError,
) -> bool {
    let resource = resources[at];
    let lines = resource->GpioLines_0;
    match error {
        ProfileError::InvalidName(field) => field == Field::ResourceName && !name_valid(
            resource.name_of(),
        ),
        ProfileError::DuplicateResource(number) => number == at && exists|j: int|
            0 <= j < at && (#[trigger] resources[j]).name_of() == resource.name_of(),
        ProfileError::NotAbsolute(field) => field == Field::ResourcePath && !absolute(
            resource.path_of(),
        ),
        ProfileError::ResourceOutsideDev => !lies_below(resource.path_of(), seq!["dev"@]),
        ProfileError::GpioChipDevice(number) => number == at && resource is CharacterDevice && chip(
            resource.path_of(),
        ),
        ProfileError::DuplicateDevice(number) => number == at && resource is CharacterDevice
            && exists|j: int|
            0 <= j < at && (#[trigger] resources[j]) is CharacterDevice && names(
                resources[j].path_of(),
            ) == names(resource.path_of()),
        ProfileError::GpioNamespace => resource is GpioLines && !chip(resource.path_of()),
        ProfileError::GpioCount => resource is GpioLines && (lines.offsets@.len() == 0
            || lines.offsets@.len() > 64),
        ProfileError::DuplicateOffset(number, offset) => number == at && resource is GpioLines
            && exists|i: int, j: int|
            0 <= i < j < lines.offsets@.len() && lines.offsets@[i] == offset && lines.offsets@[j]
                == offset,
        ProfileError::SharedLine(number, offset) => number == at && resource is GpioLines
            && lines.offsets@.contains(offset) && exists|j: int|
            0 <= j < at && (#[trigger] resources[j]) is GpioLines && names(resources[j].path_of())
                == names(resource.path_of()) && (resources[j]->GpioLines_0).offsets@.contains(
                offset,
            ),
        ProfileError::InputInitialValues => resource is GpioLines && lines.direction
            == GpioDirection::Input && lines.initial_values is Some,
        ProfileError::OutputBiasOrEdge => resource is GpioLines && lines.direction
            == GpioDirection::Output && (lines.bias is Some || lines.edge is Some),
        ProfileError::MissingInitialValues => resource is GpioLines && lines.direction
            == GpioDirection::Output && lines.initial_values is None,
        ProfileError::InitialValuesLength => resource is GpioLines && lines.direction
            == GpioDirection::Output && lines.initial_values is Some && (
        lines.initial_values->0)@.len() != lines.offsets@.len(),
        _ => false,
    }
}

proof fn lemma_offset_causes(
    resources: Seq<ResourceProfile>,
    at: int,
    lines: GpioLinesResource,
    from: int,
)
    requires
        0 <= at < resources.len() <= usize::MAX,
        resources[at] == ResourceProfile::GpioLines(lines),
        0 <= from,
        offsets_error(resources.take(at), lines, from) is Some,
    ensures
        resource_cause(resources, at, offsets_error(resources.take(at), lines, from)->0),
    decreases lines.offsets@.len() - from,
{
    let earlier = resources.take(at);
    let offsets = lines.offsets@;
    if from < offsets.len() {
        let offset = offsets[from];
        if offsets.take(from).contains(offset) {
            let i = choose|i: int| 0 <= i < from && offsets.take(from)[i] == offset;
            assert(offsets[i] == offset && offsets[from] == offset);
        } else if line_claimed(earlier, lines.path@, offset) {
            let j = choose|j: int|
                0 <= j < earlier.len() && #[trigger] claims_line(earlier[j], lines.path@, offset);
            assert(earlier[j] == resources[j]);
            assert(resources[j] is GpioLines);
        } else {
            lemma_offset_causes(resources, at, lines, from + 1);
        }
    }
}

#[verifier::rlimit(60)]
proof fn lemma_resource_causes(resources: Seq<ResourceProfile>, at: int)
    requires
        0 <= at < resources.len() <= usize::MAX,
        resource_error(resources.take(at), resources[at]) is Some,
    ensures
        resource_cause(resources, at, resource_error(resources.take(at), resources[at])->0),
{
    let earlier = resources.take(at);
    let resource = resources[at];
    lemma_roots();
    lemma_below(resource.path_of(), names("/dev"@));
    lemma_chip(resource.path_of());
    if name_taken(earlier, resource) {
        let j = choose|j: int|
            0 <= j < earlier.len() && #[trigger] earlier[j].name_of() == resource.name_of();
        assert(earlier[j] == resources[j]);
        assert(resources[j].name_of() == resource.name_of());
    }
    match resource {
        ResourceProfile::CharacterDevice(device) => {
            if device_taken(earlier, device.path@) {
                let j = choose|j: int|
                    0 <= j < earlier.len() && #[trigger] opens_device(earlier[j], device.path@);
                assert(earlier[j] == resources[j]);
                assert(resources[j] is CharacterDevice);
            }
        },
        ResourceProfile::GpioLines(lines) => {
            if offsets_error(earlier, lines, 0) is Some {
                lemma_offset_causes(resources, at, lines, 0);
            }
        },
    }
}

proof fn lemma_resources_causes(resources: Seq<ResourceProfile>, from: int)
    requires
        0 <= from,
        resources.len() <= usize::MAX,
        resources_error(resources, from) is Some,
    ensures
        exists|at: int|
            0 <= at < resources.len() && #[trigger] resource_cause(
                resources,
                at,
                resources_error(resources, from)->0,
            ),
    decreases resources.len() - from,
{
    if from < resources.len() {
        if resource_error(resources.take(from), resources[from]) is Some {
            lemma_resource_causes(resources, from);
        } else {
            lemma_resources_causes(resources, from + 1);
        }
    }
}

proof fn lemma_mapping_causes(resources: Seq<ResourceProfile>, from: int)
    requires
        0 <= from,
        resources.len() <= usize::MAX,
        unmapped_error(resources, from) is Some,
    ensures
        unmapped_error(resources, from) matches Some(ProfileError::UnexpectedFd(number)) && number
            < resources.len() && maps_fd(resources[number as int]),
    decreases resources.len() - from,
{
    if from < resources.len() && !maps_fd(resources[from]) {
        lemma_mapping_causes(resources, from + 1);
    }
}

/// What is wrong with a profile that is refused.
pub open spec fn profile_cause(profile: Profile, error: ProfileError) -> bool {
    let worker = profile.worker;
    let resources = profile.resources@;
    ||| error matches ProfileError::Schema(schema) && schema == profile.schema && schema != 1
    ||| error == ProfileError::InvalidName(Field::Name) && !name_valid(profile.name@)
    ||| error == ProfileError::InvalidName(Field::Udc) && profile.mode is Usb && profile.udc is Some
    ||| error == ProfileError::Missing(Field::FunctionfsMount) && profile.mode is Usb
        && profile.functionfs_mount is None
    ||| error == ProfileError::NotAbsolute(Field::FunctionfsMount) && profile.mode is Usb
        && profile.functionfs_mount is Some && !absolute((profile.functionfs_mount->0)@)
    ||| error == ProfileError::MountNamespace && profile.mode is Usb && profile.functionfs_mount is
        Some && !mount((profile.functionfs_mount->0)@)
    ||| error == ProfileError::Unexpected(Field::Udc) && profile.mode is Device && profile.udc is
        Some
    ||| error == ProfileError::Unexpected(Field::FunctionfsMount) && profile.mode is Device
        && profile.functionfs_mount is Some
    ||| error == ProfileError::NotAbsolute(Field::Command) && !absolute(worker.command@)
    ||| error == ProfileError::NotAbsolute(Field::StateDirectory) && !absolute(
        worker.state_directory@,
    )
    ||| error == ProfileError::NotUnder(Field::StateDirectory) && !lies_below(
        worker.state_directory@,
        seq!["var"@, "lib"@],
    )
    ||| error == ProfileError::NotAbsolute(Field::RuntimeDirectory) && !absolute(
        worker.runtime_directory@,
    )
    ||| error == ProfileError::NotUnder(Field::RuntimeDirectory) && !lies_below(
        worker.runtime_directory@,
        seq!["run"@],
    )
    ||| error == ProfileError::InvalidName(Field::RunAs) && !name_valid(worker.run_as@)
    ||| error == ProfileError::RootWorker && worker.run_as@ == "root"@
    ||| error == ProfileError::Missing(Field::ReadinessTimeout) && profile.mode is Usb
        && worker.readiness_timeout_ms is None
    ||| error == ProfileError::ReadinessTimeout && profile.mode is Usb && (
    worker.readiness_timeout_ms matches Some(ms) && (ms == 0 || ms > 120000))
    ||| error == ProfileError::Unexpected(Field::ReadinessTimeout) && profile.mode is Device
        && worker.readiness_timeout_ms is Some
    ||| exists|at: int|
        0 <= at < resources.len() && #[trigger] resource_cause(resources, at, error)
    ||| profile.mode is Usb && (error matches ProfileError::UnexpectedFd(number) && number
        < resources.len() && maps_fd(resources[number as int]))
    ||| error == ProfileError::DeviceMapping && profile.mode is Device && !mapping_fits(
        profile.mode,
        resources,
    )
}

/// A profile is refused only for a cause that its error names.
#[verifier::rlimit(60)]
pub proof fn lemma_refused_profiles_have_causes(profile: Profile)
    requires
        profile_error(profile) is Some,
    ensures
        profile_cause(profile, profile_error(profile)->0),
{
    let resources = profile.resources@;
    assert(resources.len() == profile.resources.len());
    lemma_roots();
    lemma_below(profile.worker.state_directory@, names("/var/lib"@));
    lemma_below(profile.worker.runtime_directory@, names("/run"@));
    if profile.functionfs_mount is Some {
        lemma_chip((profile.functionfs_mount->0)@);
    }
    if resources_error(resources, 0) is Some {
        lemma_resources_causes(resources, 0);
    }
    if unmapped_error(resources, 0) is Some {
        lemma_mapping_causes(resources, 0);
    }
}

} // verus!
