use usb_gadget_supervisor::profile::{
    CharacterDeviceResource, Field, GpioBias, GpioDirection, GpioEdge, GpioLinesResource, Mode,
    Profile, ProfileError, ResourceAccess, ResourceProfile, WorkerProfile,
};

fn valid() -> Profile {
    Profile {
        schema: 1,
        mode: Mode::Usb,
        name: "test-device".to_owned(),
        udc: None,
        functionfs_mount: Some("/dev/ffs-test-device".to_owned()),
        worker: WorkerProfile {
            command: "/usr/libexec/test-worker".to_owned(),
            arguments: vec!["--serial".to_owned(), "1".to_owned()],
            run_as: "device-worker".to_owned(),
            readiness_timeout_ms: Some(10000),
            state_directory: "/var/lib/test-device".to_owned(),
            runtime_directory: "/run/test-device".to_owned(),
        },
        resources: vec![],
    }
}

fn device_mode() -> Profile {
    let mut profile = valid();
    profile.mode = Mode::Device;
    profile.functionfs_mount = None;
    profile.worker.readiness_timeout_ms = None;
    let mut resource = device("target", "/dev/example-target");
    if let ResourceProfile::CharacterDevice(device) = &mut resource {
        device.fd = Some(3);
    }
    profile.resources.push(resource);
    profile
}

fn device(name: &str, path: &str) -> ResourceProfile {
    ResourceProfile::CharacterDevice(CharacterDeviceResource {
        name: name.to_owned(),
        path: path.to_owned(),
        access: ResourceAccess::ReadWrite,
        fd: None,
    })
}

fn buttons() -> GpioLinesResource {
    GpioLinesResource {
        name: "buttons".to_owned(),
        path: "/dev/gpiochip0".to_owned(),
        offsets: vec![5, 26, 13],
        direction: GpioDirection::Input,
        active_low: true,
        bias: Some(GpioBias::PullUp),
        edge: Some(GpioEdge::Both),
        initial_values: None,
    }
}

fn display() -> GpioLinesResource {
    GpioLinesResource {
        name: "display".to_owned(),
        path: "/dev/gpiochip0".to_owned(),
        offsets: vec![24, 25],
        direction: GpioDirection::Output,
        active_low: false,
        bias: None,
        edge: None,
        initial_values: Some(vec![false, true]),
    }
}

fn refused(change: &dyn Fn(&mut Profile)) -> ProfileError {
    let mut profile = valid();
    change(&mut profile);
    profile.validate().unwrap_err()
}

fn refused_lines(change: &dyn Fn(&mut GpioLinesResource), lines: GpioLinesResource) -> ProfileError {
    let mut lines = lines;
    change(&mut lines);
    refused(&|profile| profile.resources.push(ResourceProfile::GpioLines(lines.clone())))
}

#[test]
fn parses_a_descriptor_free_profile() {
    let profile = valid();
    profile.validate().unwrap();
    assert_eq!(
        profile.functionfs_mount.as_deref(),
        Some("/dev/ffs-test-device")
    );
}

#[test]
fn rejects_a_root_worker() {
    let mut profile = valid();
    profile.worker.run_as = profile.worker.run_as.replace("device-worker", "root");
    assert!(profile.validate().is_err());
    assert_eq!(profile.validate().unwrap_err(), ProfileError::RootWorker);
}

#[test]
fn validates_gpio_ownership_and_initial_values() {
    let mut profile = valid();
    profile.resources.push(ResourceProfile::GpioLines(buttons()));
    profile.validate().unwrap();

    let mut lines = display();
    lines.initial_values = Some(vec![false]);
    let mut profile = valid();
    profile.resources.push(ResourceProfile::GpioLines(lines));
    assert!(profile.validate().is_err());
}

#[test]
fn refuses_malformed_launch_boundaries() {
    assert_eq!(refused(&|profile| profile.schema = 2), ProfileError::Schema(2));
    assert_eq!(
        refused(&|profile| profile.name = "a/b".to_owned()),
        ProfileError::InvalidName(Field::Name)
    );
    assert_eq!(
        refused(&|profile| profile.functionfs_mount = None),
        ProfileError::Missing(Field::FunctionfsMount)
    );
    let mount = |path: &str| refused(&|profile| profile.functionfs_mount = Some(path.to_owned()));
    assert_eq!(mount("dev/ffs-x"), ProfileError::NotAbsolute(Field::FunctionfsMount));
    assert_eq!(mount("/dev/../ffs-x"), ProfileError::NotAbsolute(Field::FunctionfsMount));
    assert_eq!(mount("/dev/ffs-"), ProfileError::MountNamespace);
    assert_eq!(mount("/dev/x/ffs-y"), ProfileError::MountNamespace);
    assert_eq!(mount("/tmp/ffs-y"), ProfileError::MountNamespace);
    assert_eq!(
        refused(&|profile| profile.worker.command = "worker".to_owned()),
        ProfileError::NotAbsolute(Field::Command)
    );
    assert_eq!(
        refused(&|profile| profile.worker.state_directory = "/var/lib".to_owned()),
        ProfileError::NotUnder(Field::StateDirectory)
    );
    assert_eq!(
        refused(&|profile| profile.worker.state_directory = "/var/lib/../x".to_owned()),
        ProfileError::NotAbsolute(Field::StateDirectory)
    );
    assert_eq!(
        refused(&|profile| profile.worker.runtime_directory = "/runner/x".to_owned()),
        ProfileError::NotUnder(Field::RuntimeDirectory)
    );
    assert_eq!(
        refused(&|profile| profile.worker.run_as = "a b".to_owned()),
        ProfileError::InvalidName(Field::RunAs)
    );
    for timeout in [0, 120001] {
        assert_eq!(
            refused(&|profile| profile.worker.readiness_timeout_ms = Some(timeout)),
            ProfileError::ReadinessTimeout
        );
    }
    assert_eq!(
        refused(&|profile| profile.worker.readiness_timeout_ms = None),
        ProfileError::Missing(Field::ReadinessTimeout)
    );
    let mut profile = valid();
    profile.functionfs_mount = Some("/dev//./ffs-x/".to_owned());
    profile.worker.readiness_timeout_ms = Some(120000);
    profile.udc = Some("fe980000.usb".to_owned());
    assert_eq!(profile.validate(), Ok(()));
    for udc in ["", "a/b", "a b", "..", "a\u{2003}b"] {
        assert_eq!(
            refused(&|profile| profile.udc = Some(udc.to_owned())),
            ProfileError::InvalidName(Field::Udc)
        );
    }
}

#[test]
fn refuses_resources_that_overlap() {
    let with = |list: Vec<ResourceProfile>| {
        let mut profile = valid();
        profile.resources = list;
        profile.validate()
    };
    assert_eq!(
        with(vec![device("a", "/dev/spidev0.0"), device("b", "/dev/i2c-1")]),
        Ok(())
    );
    assert_eq!(
        with(vec![device("a", "/dev/spidev0.0"), device("a", "/dev/i2c-1")]),
        Err(ProfileError::DuplicateResource(1))
    );
    assert_eq!(
        with(vec![device("a", "/dev/i2c-1"), device("b", "/dev//i2c-1/")]),
        Err(ProfileError::DuplicateDevice(1))
    );
    assert_eq!(
        with(vec![device("a b", "/dev/i2c-1")]),
        Err(ProfileError::InvalidName(Field::ResourceName))
    );
    assert_eq!(
        with(vec![device("a", "dev/i2c-1")]),
        Err(ProfileError::NotAbsolute(Field::ResourcePath))
    );
    assert_eq!(with(vec![device("a", "/dev")]), Err(ProfileError::ResourceOutsideDev));
    assert_eq!(with(vec![device("a", "/device/x")]), Err(ProfileError::ResourceOutsideDev));
    assert_eq!(
        with(vec![device("a", "/dev/gpiochip12")]),
        Err(ProfileError::GpioChipDevice(0))
    );
    let mut shared = display();
    shared.offsets = vec![24, 13];
    shared.path = "/dev/./gpiochip0".to_owned();
    assert_eq!(
        with(vec![
            ResourceProfile::GpioLines(buttons()),
            ResourceProfile::GpioLines(shared.clone())
        ]),
        Err(ProfileError::SharedLine(1, 13))
    );
    shared.path = "/dev/gpiochip1".to_owned();
    assert_eq!(
        with(vec![
            ResourceProfile::GpioLines(buttons()),
            ResourceProfile::GpioLines(shared)
        ]),
        Ok(())
    );
}

#[test]
fn refuses_malformed_gpio_lines() {
    assert_eq!(
        refused_lines(&|lines| lines.path = "/dev/gpiochip".to_owned(), buttons()),
        ProfileError::GpioNamespace
    );
    assert_eq!(
        refused_lines(&|lines| lines.path = "/dev/gpiochip1a".to_owned(), buttons()),
        ProfileError::GpioNamespace
    );
    assert_eq!(
        refused_lines(&|lines| lines.offsets = vec![], buttons()),
        ProfileError::GpioCount
    );
    assert_eq!(
        refused_lines(&|lines| lines.offsets = (0..65).collect(), buttons()),
        ProfileError::GpioCount
    );
    assert_eq!(
        refused_lines(&|lines| lines.offsets = vec![1, 2, 1], buttons()),
        ProfileError::DuplicateOffset(0, 1)
    );
    assert_eq!(
        refused_lines(&|lines| lines.initial_values = Some(vec![]), buttons()),
        ProfileError::InputInitialValues
    );
    assert_eq!(
        refused_lines(&|lines| lines.edge = Some(GpioEdge::Rising), display()),
        ProfileError::OutputBiasOrEdge
    );
    assert_eq!(
        refused_lines(&|lines| lines.bias = Some(GpioBias::Disabled), display()),
        ProfileError::OutputBiasOrEdge
    );
    assert_eq!(
        refused_lines(&|lines| lines.initial_values = None, display()),
        ProfileError::MissingInitialValues
    );
    assert_eq!(
        refused_lines(&|lines| lines.initial_values = Some(vec![true]), display()),
        ProfileError::InitialValuesLength
    );
}

#[test]
fn device_mode_inherits_one_device() {
    assert_eq!(device_mode().validate(), Ok(()));
    let with = |change: &dyn Fn(&mut Profile)| {
        let mut profile = device_mode();
        change(&mut profile);
        profile.validate().unwrap_err()
    };
    assert_eq!(
        with(&|profile| profile.udc = Some("x".to_owned())),
        ProfileError::Unexpected(Field::Udc)
    );
    assert_eq!(
        with(&|profile| profile.functionfs_mount = Some("/dev/ffs-x".to_owned())),
        ProfileError::Unexpected(Field::FunctionfsMount)
    );
    assert_eq!(
        with(&|profile| profile.worker.readiness_timeout_ms = Some(1)),
        ProfileError::Unexpected(Field::ReadinessTimeout)
    );
    assert_eq!(with(&|profile| profile.resources.clear()), ProfileError::DeviceMapping);
    assert_eq!(
        with(&|profile| profile.resources.push(device("b", "/dev/i2c-1"))),
        ProfileError::DeviceMapping
    );
    assert_eq!(
        with(&|profile| profile.resources = vec![device("target", "/dev/i2c-1")]),
        ProfileError::DeviceMapping
    );
    let mut usb = valid();
    usb.resources = device_mode().resources;
    assert_eq!(usb.validate(), Err(ProfileError::UnexpectedFd(0)));
    assert_eq!(usb.resources[0].name(), "target");
    assert_eq!(usb.resources[0].path(), "/dev/example-target");
}
