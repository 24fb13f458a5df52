use usb_gadget_supervisor::launch::{
    access_modes, bundle_file, bundle_temporary, endpoint_map, is_mounted_as, lock_file,
    next_configfs_step, parse_account_id, resource_names, select_udc, validate_character_device, validate_directory,
    validate_reload, validate_root_owned_file, validate_worker_executable, worker_environment,
    worker_identity, ConfigfsStep, FileFacts, LaunchError, WorkerIdentity,
};
use usb_gadget_supervisor::profile::{
    CharacterDeviceResource, Mode, Profile, ResourceAccess, ResourceProfile, WorkerProfile,
};
use usb_gadget_supervisor::usb_personality::project;
use usb_gadget_supervisor::{StringDescriptor, UsbPersonality, UsbSpeed};

fn file(uid: u32, gid: u32, mode: u32) -> FileFacts {
    FileFacts {
        regular: true,
        directory: false,
        symlink: false,
        character_device: false,
        uid,
        gid,
        mode,
    }
}

fn identity() -> WorkerIdentity {
    worker_identity("worker", 1000, 100).unwrap()
}

fn resource(name: &str) -> ResourceProfile {
    ResourceProfile::CharacterDevice(CharacterDeviceResource {
        name: name.to_owned(),
        path: "/dev/x".to_owned(),
        access: ResourceAccess::Read,
        fd: None,
    })
}

fn profile(mode: Mode, name: &str) -> Profile {
    Profile {
        schema: 1,
        mode,
        name: name.to_owned(),
        udc: None,
        functionfs_mount: None,
        worker: WorkerProfile {
            command: "/bin/worker".to_owned(),
            arguments: vec![],
            run_as: "worker".to_owned(),
            readiness_timeout_ms: None,
            state_directory: "/var/lib/x".to_owned(),
            runtime_directory: "/run/x".to_owned(),
        },
        resources: vec![],
    }
}

#[test]
fn profiles_belong_to_root() {
    assert_eq!(validate_root_owned_file(file(0, 5, 0o100644)), Ok(()));
    for spoilt in [
        file(1, 0, 0o644),
        file(0, 0, 0o664),
        file(0, 0, 0o646),
        file(0, 0, 0o4644),
        file(0, 0, 0o2644),
        FileFacts {
            symlink: true,
            ..file(0, 0, 0o644)
        },
        FileFacts {
            regular: false,
            ..file(0, 0, 0o644)
        },
    ] {
        assert_eq!(validate_root_owned_file(spoilt), Err(LaunchError::UnsafeProfile));
    }
}

#[test]
fn programs_are_safe_and_executable() {
    let judge = |facts| validate_worker_executable(facts, &identity());
    assert_eq!(judge(file(0, 0, 0o755)), Ok(()));
    assert_eq!(judge(file(1000, 0, 0o700)), Ok(()));
    assert_eq!(judge(file(0, 100, 0o770)), Ok(()));
    assert_eq!(judge(file(0, 0, 0o775)), Err(LaunchError::UnsafeWorker));
    assert_eq!(judge(file(0, 0, 0o757)), Err(LaunchError::UnsafeWorker));
    assert_eq!(judge(file(0, 0, 0o4755)), Err(LaunchError::UnsafeWorker));
    assert_eq!(judge(file(5, 0, 0o755)), Err(LaunchError::UnsafeWorker));
    assert_eq!(judge(file(0, 0, 0o754)), Err(LaunchError::NotExecutable));
    assert_eq!(judge(file(0, 100, 0o701)), Err(LaunchError::NotExecutable));
    assert_eq!(judge(file(1000, 100, 0o611)), Err(LaunchError::NotExecutable));
}

#[test]
fn directories_and_devices_are_real() {
    let directory = FileFacts {
        regular: false,
        directory: true,
        ..file(0, 0, 0)
    };
    assert_eq!(validate_directory(directory), Ok(()));
    assert_eq!(validate_directory(file(0, 0, 0)), Err(LaunchError::NotDirectory));
    let device = FileFacts {
        regular: false,
        character_device: true,
        ..file(0, 0, 0)
    };
    assert_eq!(validate_character_device(device), Ok(()));
    let link = FileFacts {
        symlink: true,
        ..device
    };
    assert_eq!(validate_character_device(link), Err(LaunchError::NotCharacterDevice));
    assert_eq!(access_modes(ResourceAccess::Read), (true, false));
    assert_eq!(access_modes(ResourceAccess::Write), (false, true));
    assert_eq!(access_modes(ResourceAccess::ReadWrite), (true, true));
}

#[test]
fn account_numbers_are_read() {
    assert_eq!(parse_account_id(true, b"1000\n"), Ok(1000));
    assert_eq!(parse_account_id(true, b" \t+7 \r\n"), Ok(7));
    assert_eq!(parse_account_id(true, b"4294967295"), Ok(u32::MAX));
    for output in [
        &b"4294967296"[..],
        b"",
        b"\n",
        b"+",
        b"-1",
        b"1 2",
        b"0x1",
        b"\xff",
        b"99999999999999999999999999",
    ] {
        assert_eq!(parse_account_id(true, output), Err(LaunchError::AccountNumber));
    }
    assert_eq!(parse_account_id(false, b"1"), Err(LaunchError::UnknownAccount));
    assert_eq!(worker_identity("root", 0, 0).unwrap_err(), LaunchError::RootAccount);
    assert_eq!(identity().name, "worker");
    assert_eq!((identity().uid, identity().gid), (1000, 100));
}

#[test]
fn resource_names_are_counted() {
    assert_eq!(
        resource_names(&vec![resource("ab"), resource("c")]).unwrap(),
        [0, 2, 0, 2, b'a', b'b', 0, 1, b'c']
    );
    assert_eq!(resource_names(&vec![]).unwrap(), [0, 0]);
    assert_eq!(
        resource_names(&vec![resource(&"a".repeat(65536))]).unwrap_err(),
        LaunchError::ResourceNameTooLong
    );
    let many: Vec<ResourceProfile> = (0..65536).map(|_| resource("a")).collect();
    assert_eq!(resource_names(&many).unwrap_err(), LaunchError::TooManyResources);
}

#[test]
fn endpoints_are_described() {
    let personality = UsbPersonality::new(
        UsbSpeed::FullSpeed,
        vec![18, 1, 0, 2, 0, 0, 0, 64, 0, 0, 0, 0, 0, 0, 0, 0, 0, 1],
        vec![
            9, 2, 25, 0, 1, 1, 0, 0x80, 25, 9, 4, 0, 0, 1, 3, 0, 0, 0, 7, 5, 0x81, 3, 64, 2, 1,
        ],
    )
    .with_string(StringDescriptor::new(0, 0, vec![4, 3, 0x09, 0x04]));
    let projected = project(&personality).unwrap();
    assert_eq!(endpoint_map(&projected).unwrap(), [0, 1, 0x81, 3, 2, 64]);
}

#[test]
fn controllers_are_chosen_by_name_or_order() {
    let names: Vec<String> = ["usb.2", "fe98", "usb.10"].iter().map(|name| name.to_string()).collect();
    assert_eq!(select_udc(&names, &None).unwrap(), "fe98");
    assert_eq!(select_udc(&names, &Some("usb.2".to_owned())).unwrap(), "usb.2");
    assert_eq!(
        select_udc(&names, &Some("usb".to_owned())).unwrap_err(),
        LaunchError::UdcUnavailable
    );
    assert_eq!(select_udc(&vec![], &None).unwrap_err(), LaunchError::NoUdc);
    let names = vec!["usb.2".to_owned(), "usb.10".to_owned(), "usb".to_owned()];
    assert_eq!(select_udc(&names, &None).unwrap(), "usb");
}

#[test]
fn mounts_are_found_in_the_table() {
    let table = "proc /proc proc rw 0 0\nnone /sys/kernel/config configfs rw 0 0\nx /dev/ffs-a functionfs\n";
    assert!(is_mounted_as(table, "/sys/kernel/config", "configfs"));
    assert!(is_mounted_as(table, "/dev/ffs-a", "functionfs"));
    assert!(!is_mounted_as(table, "/dev/ffs-a", "configfs"));
    assert!(!is_mounted_as(table, "proc", "/proc"));
    assert!(!is_mounted_as("", "/proc", "proc"));
    assert!(is_mounted_as("a\t/b  c", "/b", "c"));
}

#[test]
fn workers_find_their_directories() {
    let variables = worker_environment(&profile(Mode::Usb, "a").worker);
    assert_eq!(
        variables,
        [
            ("STATE_DIRECTORY".to_owned(), "/var/lib/x".to_owned()),
            ("RUNTIME_DIRECTORY".to_owned(), "/run/x".to_owned()),
        ]
    );
}

#[test]
fn reloads_keep_mode_and_name() {
    let current = profile(Mode::Usb, "a");
    assert_eq!(validate_reload(&current, &profile(Mode::Usb, "a")), Ok(()));
    assert_eq!(
        validate_reload(&current, &profile(Mode::Usb, "b")),
        Err(LaunchError::ServiceRestartNeeded)
    );
    assert_eq!(
        validate_reload(&current, &profile(Mode::Device, "a")),
        Err(LaunchError::ServiceRestartNeeded)
    );
}

#[test]
fn files_have_fixed_places() {
    assert_eq!(lock_file(Mode::Usb, "a"), "/run/lock/usb-gadget-supervisor.lock");
    assert_eq!(
        lock_file(Mode::Device, "a"),
        "/run/lock/usb-gadget-supervisor-device-a.lock"
    );
    assert_eq!(bundle_file("a"), "/run/usb-gadget-supervisor/a.cbor");
    assert_eq!(bundle_temporary("a", 1207), "/run/usb-gadget-supervisor/.a.1207.tmp");
}

#[test]
fn gadget_support_is_loaded_once() {
    assert_eq!(next_configfs_step(false, false, false), ConfigfsStep::Mount);
    assert_eq!(next_configfs_step(true, false, false), ConfigfsStep::LoadSupport);
    assert_eq!(next_configfs_step(true, false, true), ConfigfsStep::Unavailable);
    assert_eq!(next_configfs_step(true, true, false), ConfigfsStep::Ready);
}
