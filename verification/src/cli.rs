//! The command line.

use crate::paths::{absolute, lemma_names_join, lemma_one_name, names};
use crate::text::{same_text, to_chars};
use vstd::prelude::*;

verus! {

/// What the command line asks for.
#[derive(Clone, Debug, Eq, PartialEq)]
pub struct Options {
    pub profile: String,
    pub check_profile: bool,
}

/// Why there is nothing to run.
#[derive(Clone, Copy, Debug, Eq, PartialEq, Structural)]
pub enum CliError {
    /// The usage was asked for.
    Help,
    /// `--profile` stands at the end.
    MissingValue,
    /// The argument at this position is not known.
    UnknownArgument(usize),
    /// There is no `--profile`.
    MissingProfile,
    /// The profile is neither an installed profile's name nor an absolute path.
    InvalidProfile,
}

/// Whether a character may stand in a name.
pub open spec fn name_char(c: char) -> bool {
    ('a' <= c <= 'z') || ('A' <= c <= 'Z') || ('0' <= c <= '9') || c == '_' || c == '.' || c == '-'
}

/// Whether a text is a name: not empty, and made of letters, digits, underscores, dots and
/// hyphens.
pub open spec fn name_valid(name: Seq<char>) -> bool {
    name.len() > 0 && forall|i: int| 0 <= i < name.len() ==> #[trigger] name_char(name[i])
}

/// Whether a text is a name.
pub fn is_name(name: &str) -> (valid: bool)
    ensures
        valid == name_valid(name@),
{
    let chars = to_chars(name);
    let mut i: usize = 0;
    while i < chars.len()
        invariant
            i <= chars@.len(),
            chars@ == name@,
            forall|k: int| 0 <= k < i ==> #[trigger] name_char(chars@[k]),
        decreases chars@.len() - i,
    {
        let c = chars[i];
        let known = ('a' <= c && c <= 'z') || ('A' <= c && c <= 'Z') || ('0' <= c && c <= '9') || c
            == '_' || c == '.' || c == '-';
        if !known {
            assert(!name_char(name@[i as int]));
            return false;
        }
        i = i + 1;
    }
    chars.len() > 0
}

/// What the arguments from `at` on make of those before: the profile they named last, if any,
/// and whether it is only to be checked.
pub open spec fn arguments_from(
    arguments: Seq<String>,
    at: int,
    profile: Option<Seq<char>>,
    check_profile: bool,
) -> Result<(Option<Seq<char>>, bool), CliError>
    decreases arguments.len() - at,
{
    if at >= arguments.len() {
        Ok((profile, check_profile))
    } else if arguments[at]@ == "--profile"@ {
        if at + 1 >= arguments.len() {
            Err(CliError::MissingValue)
        } else {
            arguments_from(arguments, at + 2, Some(arguments[at + 1]@), check_profile)
        }
    } else if arguments[at]@ == "--check-profile"@ {
        arguments_from(arguments, at + 1, profile, true)
    } else if arguments[at]@ == "--help"@ || arguments[at]@ == "-h"@ {
        Err(CliError::Help)
    } else {
        Err(CliError::UnknownArgument(at as usize))
    }
}

/// The file of a profile that is named by an absolute path or as an installed profile.
pub open spec fn profile_file(profile: Seq<char>) -> Option<Seq<char>> {
    if profile.len() > 0 && profile[0] == '/' {
        Some(profile)
    } else if !name_valid(profile) || profile == "."@ || profile == ".."@ {
        None
    } else {
        Some("/opt/usb-gadget-supervisor/profiles/"@ + profile + ".toml"@)
    }
}

/// What a command line asks for.
pub open spec fn parsed(arguments: Seq<String>) -> Result<(Seq<char>, bool), CliError> {
    match arguments_from(arguments, 0, None, false) {
        Err(error) => Err(error),
        Ok((None, _)) => Err(CliError::MissingProfile),
        Ok((Some(profile), check_profile)) => match profile_file(profile) {
            None => Err(CliError::InvalidProfile),
            Some(file) => Ok((file, check_profile)),
        },
    }
}

/// Reads the command line without the program's name.
pub fn parse(arguments: Vec<String>) -> (outcome: Result<Options, CliError>)
    ensures
        match outcome {
            Err(error) => parsed(arguments@) == Err::<(Seq<char>, bool), CliError>(error),
            Ok(options) => parsed(arguments@) == Ok::<(Seq<char>, bool), CliError>(
                (options.profile@, options.check_profile),
            ),
        },
{
    let mut named: Option<usize> = None;
    let mut check_profile = false;
    let mut at: usize = 0;
    while at < arguments.len()
        invariant
            at <= arguments@.len(),
            named matches Some(i) ==> i < arguments@.len(),
            arguments_from(arguments@, 0, None, false) == arguments_from(
                arguments@,
                at as int,
                match named {
                    None => None,
                    Some(i) => Some(arguments@[i as int]@),
                },
                check_profile,
            ),
        decreases arguments@.len() - at,
    {
        let argument = arguments[at].as_str();
        if same_text(argument, "--profile") {
            if at + 1 >= arguments.len() {
                return Err(CliError::MissingValue);
            }
            named = Some(at + 1);
            at = at + 2;
        } else if same_text(argument, "--check-profile") {
            check_profile = true;
            at = at + 1;
        } else if same_text(argument, "--help") || same_text(argument, "-h") {
            return Err(CliError::Help);
        } else {
            return Err(CliError::UnknownArgument(at));
        }
    }
    match named {
        None => Err(CliError::MissingProfile),
        Some(i) => match resolve_profile(arguments[i].as_str()) {
            None => Err(CliError::InvalidProfile),
            Some(profile) => Ok(Options { profile, check_profile }),
        },
    }
}

/// The file of a profile that is named by an absolute path or as an installed profile.
pub fn resolve_profile(profile: &str) -> (file: Option<String>)
    ensures
        match file {
            None => profile_file(profile@) is None,
            Some(file) => profile_file(profile@) == Some(file@),
        },
{
    let chars = to_chars(profile);
    if chars.len() > 0 && chars[0] == '/' {
        return Some(profile.to_owned());
    }
    if !is_name(profile) || same_text(profile, ".") || same_text(profile, "..") {
        return None;
    }
    let mut file = "/opt/usb-gadget-supervisor/profiles/".to_owned();
    file.append(profile);
    file.append(".toml");
    Some(file)
}

/// An installed profile's name never leads out of the directory of profiles.
pub proof fn lemma_installed_profiles_stay_in_their_directory(profile: Seq<char>)
    requires
        profile_file(profile) is Some,
        profile[0] != '/',
    ensures
        absolute(profile_file(profile)->0),
        names(profile_file(profile)->0) == seq![
            "opt"@,
            "usb-gadget-supervisor"@,
            "profiles"@,
            profile + ".toml"@,
        ],
{
    let file = profile_file(profile)->0;
    let last = profile + ".toml"@;
    reveal_strlit("/opt/usb-gadget-supervisor/profiles/");
    reveal_strlit("opt");
    reveal_strlit("usb-gadget-supervisor");
    reveal_strlit("profiles");
    reveal_strlit(".toml");
    let first = Seq::<char>::empty() + seq!['/'] + "opt"@;
    let second = first + seq!['/'] + "usb-gadget-supervisor"@;
    let third = second + seq!['/'] + "profiles"@;
    assert(third + seq!['/'] =~= "/opt/usb-gadget-supervisor/profiles/"@);
    assert(file =~= third + seq!['/'] + last);
    assert forall|i: int| 0 <= i < last.len() implies last[i] != '/' by {
        if i < profile.len() {
            assert(name_char(profile[i]));
        }
    }
    lemma_one_name("opt"@);
    lemma_one_name("usb-gadget-supervisor"@);
    lemma_one_name("profiles"@);
    lemma_one_name(last);
    lemma_names_join(Seq::<char>::empty(), "opt"@);
    lemma_names_join(first, "usb-gadget-supervisor"@);
    lemma_names_join(second, "profiles"@);
    lemma_names_join(third, last);
    assert(names(Seq::<char>::empty()) =~= seq![]);
    let list = seq!["opt"@, "usb-gadget-supervisor"@, "profiles"@, last];
    assert(names(file) =~= list);
    assert(file[0] == '/');
    assert(last.len() > 2);
    assert(!list.contains(seq!['.', '.']));
}

} // verus!
