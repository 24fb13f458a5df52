//! What a command line asks for, argument by argument.

use crate::cli::{arguments_from, name_char, name_valid, parsed, profile_file, CliError};
use vstd::prelude::*;

verus! {

/// Reading the arguments before the last ones is the same with and without the last ones.
proof fn lemma_front_is_read_first(
    front: Seq<String>,
    back: Seq<String>,
    at: int,
    profile: Option<Seq<char>>,
    check: bool,
)
    requires
        0 <= at <= front.len(),
        arguments_from(front, at, profile, check) is Ok,
    ensures
        arguments_from(front + back, at, profile, check) == arguments_from(
            front + back,
            front.len() as int,
            (arguments_from(front, at, profile, check)->Ok_0).0,
            (arguments_from(front, at, profile, check)->Ok_0).1,
        ),
    decreases front.len() - at,
{
    let whole = front + back;
    if at < front.len() {
        assert(whole[at] == front[at]);
        if front[at]@ == "--profile"@ {
            assert(whole[at + 1] == front[at + 1]);
            lemma_front_is_read_first(front, back, at + 2, Some(front[at + 1]@), check);
        } else {
            lemma_front_is_read_first(front, back, at + 1, profile, true);
        }
    }
}

/// The literals of the command line are different.
proof fn lemma_options_differ()
    ensures
        "--profile"@ != "--check-profile"@,
        "--profile"@ != "--help"@,
        "--profile"@ != "-h"@,
        "--check-profile"@ != "--help"@,
        "--check-profile"@ != "-h"@,
{
    reveal_strlit("--profile");
    reveal_strlit("--check-profile");
    reveal_strlit("--help");
    reveal_strlit("-h");
    assert("--profile"@.len() == 9 && "--check-profile"@.len() == 15 && "--help"@.len() == 6
        && "-h"@.len() == 2);
}

/// What one more option does to a command line that could be read without it: `--profile` with a
/// value names the profile, whatever was named before; `--check-profile` asks for a check and
/// leaves the profile; `--help` and `-h` ask for help; `--profile` alone lacks its value; and
/// anything else is not known, by its position. An empty command line names no profile.
pub proof fn lemma_options_are_followed(front: Seq<String>, option: String, value: String)
    requires
        arguments_from(front, 0, None, false) is Ok,
    ensures
        ({
            let (profile, check) = arguments_from(front, 0, None, false)->Ok_0;
            let named = arguments_from(front.push(option).push(value), 0, None, false);
            let alone = arguments_from(front.push(option), 0, None, false);
            &&& option@ == "--profile"@ ==> named == Ok::<(Option<Seq<char>>, bool), CliError>(
                (Some(value@), check),
            )
            &&& option@ == "--profile"@ ==> alone == Err::<(Option<Seq<char>>, bool), CliError>(
                CliError::MissingValue,
            )
            &&& option@ == "--check-profile"@ ==> alone == Ok::<
                (Option<Seq<char>>, bool),
                CliError,
            >((profile, true))
            &&& option@ == "--help"@ || option@ == "-h"@ ==> alone == Err::<
                (Option<Seq<char>>, bool),
                CliError,
            >(CliError::Help)
            &&& option@ != "--profile"@ && option@ != "--check-profile"@ && option@ != "--help"@
                && option@ != "-h"@ ==> alone == Err::<(Option<Seq<char>>, bool), CliError>(
                CliError::UnknownArgument(front.len() as usize),
            )
        }),
        arguments_from(seq![], 0, None, false) == Ok::<(Option<Seq<char>>, bool), CliError>(
            (None, false),
        ),
{
    let (profile, check) = arguments_from(front, 0, None, false)->Ok_0;
    let n = front.len() as int;
    lemma_options_differ();
    lemma_front_is_read_first(front, seq![option], 0, None, false);
    lemma_front_is_read_first(front, seq![option, value], 0, None, false);
    let one = front.push(option);
    let two = front.push(option).push(value);
    assert(front + seq![option] =~= one);
    assert(front + seq![option, value] =~= two);
    assert(one[n] == option);
    assert(two[n] == option && two[n + 1] == value);
    if option@ == "--profile"@ {
        assert(arguments_from(two, n, profile, check) == arguments_from(
            two,
            n + 2,
            Some(value@),
            check,
        ));
    }
    if option@ == "--check-profile"@ {
        assert(arguments_from(one, n, profile, check) == arguments_from(one, n + 1, profile, true));
    }
}

/// What a command line comes to: the file of the profile that it names, or why there is none.
pub proof fn lemma_command_line(arguments: Seq<String>)
    ensures
        match arguments_from(arguments, 0, None, false) {
            Err(error) => parsed(arguments) == Err::<(Seq<char>, bool), CliError>(error),
            Ok((None, _)) => parsed(arguments) == Err::<(Seq<char>, bool), CliError>(
                CliError::MissingProfile,
            ),
            Ok((Some(profile), check)) => match profile_file(profile) {
                None => parsed(arguments) == Err::<(Seq<char>, bool), CliError>(
                    CliError::InvalidProfile,
                ),
                Some(file) => parsed(arguments) == Ok::<(Seq<char>, bool), CliError>((file, check)),
            },
        },
{
}

/// An absolute path is taken as it is; a name of letters, digits, underscores, dots and hyphens is
/// looked up among the installed profiles; anything else is no profile.
pub proof fn lemma_profile_files(profile: Seq<char>)
    ensures
        profile.len() > 0 && profile[0] == '/' ==> profile_file(profile) == Some(profile),
        ({
            let named = profile.len() > 0 && profile != "."@ && profile != ".."@ && forall|i: int|
                0 <= i < profile.len() ==> letter(#[trigger] profile[i]);
            &&& named ==> profile_file(profile) == Some(
                "/opt/usb-gadget-supervisor/profiles/"@ + profile + ".toml"@,
            )
            &&& !named && !(profile.len() > 0 && profile[0] == '/') ==> profile_file(profile)
                is None
        }),
{
    if profile.len() > 0 && profile[0] == '/' {
        assert(!letter(profile[0]));
    }
    assert forall|i: int| 0 <= i < profile.len() implies letter(profile[i]) == #[trigger] name_char(
        profile[i],
    ) by {
        lemma_letters(profile[i]);
    }
    if name_valid(profile) {
        assert forall|i: int| 0 <= i < profile.len() implies letter(#[trigger] profile[i]) by {
            assert(name_char(profile[i]));
        }
    }
    if forall|i: int| 0 <= i < profile.len() ==> letter(#[trigger] profile[i]) {
        assert forall|i: int| 0 <= i < profile.len() implies #[trigger] name_char(profile[i]) by {
            assert(letter(profile[i]));
        }
    }
}

/// Whether a character is an ASCII letter or digit, an underscore, a dot or a hyphen.
pub open spec fn letter(c: char) -> bool {
    let code = c as u32;
    ||| 97 <= code <= 122
    ||| 65 <= code <= 90
    ||| 48 <= code <= 57
    ||| code == 95
    ||| code == 46
    ||| code == 45
}

/// The characters of a name.
pub proof fn lemma_letters(c: char)
    ensures
        name_char(c) <==> letter(c),
{
}

} // verus!
