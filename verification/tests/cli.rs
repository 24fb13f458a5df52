use usb_gadget_supervisor::cli::{is_name, parse, resolve_profile, CliError};

fn arguments(list: &[&str]) -> Vec<String> {
    list.iter().map(|argument| argument.to_string()).collect()
}

#[test]
fn rejects_relative_profile_paths() {
    let error = parse(arguments(&["--profile", "../relative.toml"])).unwrap_err();
    assert_eq!(error, CliError::InvalidProfile);
}

#[test]
fn resolves_an_installed_profile_name() {
    let options = parse(arguments(&["--profile", "virtual-yubihsm-i2c"])).unwrap();
    assert_eq!(
        options.profile,
        "/opt/usb-gadget-supervisor/profiles/virtual-yubihsm-i2c.toml"
    );
}

#[test]
fn rejects_launch_overrides() {
    let error = parse(arguments(&[
        "--profile",
        "virtual-yubikey",
        "--udc",
        "fe980000.usb",
    ]))
    .unwrap_err();
    assert_eq!(error, CliError::UnknownArgument(2));
}

#[test]
fn reads_every_argument() {
    let options = parse(arguments(&["--check-profile", "--profile", "/etc/a.toml"])).unwrap();
    assert!(options.check_profile);
    assert_eq!(options.profile, "/etc/a.toml");
    let options = parse(arguments(&["--profile", "a", "--profile", "b"])).unwrap();
    assert!(!options.check_profile);
    assert_eq!(options.profile, "/opt/usb-gadget-supervisor/profiles/b.toml");
    assert_eq!(parse(arguments(&["--profile"])).unwrap_err(), CliError::MissingValue);
    assert_eq!(parse(arguments(&[])).unwrap_err(), CliError::MissingProfile);
    assert_eq!(parse(arguments(&["-h", "--udc"])).unwrap_err(), CliError::Help);
    assert_eq!(parse(arguments(&["--help"])).unwrap_err(), CliError::Help);
    let help = parse(arguments(&["--profile", "--help"])).unwrap();
    assert_eq!(help.profile, "/opt/usb-gadget-supervisor/profiles/--help.toml");
}

#[test]
fn names_have_no_separators() {
    for name in ["a", "A.9_-", "..."] {
        assert!(is_name(name));
    }
    for name in ["", "a/b", "a b", "\u{e4}"] {
        assert!(!is_name(name));
    }
    for profile in ["", ".", "..", "a/b"] {
        assert!(resolve_profile(profile).is_none());
    }
}
