//! The command line: `dnser [-c|--config FILE] [-h|--help] [-V|--version]`.

use vstd::prelude::*;
use vstd::string::StringExecFns;

verus! {

/// What the command line asks for.
#[derive(Debug, PartialEq, Eq)]
pub enum CliCommand {
    /// Run the server, with the configuration file given last, if any.
    Run(Option<String>),
    /// Print the usage text.
    Help,
    /// Print the version.
    Version,
    /// `--config` came last, without a path.
    MissingConfigPath,
    /// An argument that is not an option of the program.
    UnknownArgument(String),
}

/// The value of a [`CliCommand`].
pub enum SpecCli {
    Run(Option<Seq<char>>),
    Help,
    Version,
    MissingConfigPath,
    UnknownArgument(Seq<char>),
}

impl View for CliCommand {
    type V = SpecCli;

    open spec fn view(&self) -> SpecCli {
        match self {
            CliCommand::Run(p) => SpecCli::Run(
                match p {
                    Some(s) => Some(s@),
                    None => None,
                },
            ),
            CliCommand::Help => SpecCli::Help,
            CliCommand::Version => SpecCli::Version,
            CliCommand::MissingConfigPath => SpecCli::MissingConfigPath,
            CliCommand::UnknownArgument(a) => SpecCli::UnknownArgument(a@),
        }
    }
}

/// The arguments from `i` on, read left to right with `path` the
/// configuration file named so far: the first help, version or bad argument
/// decides; otherwise the server runs with the last path given.
pub open spec fn parse_from(args: Seq<Seq<char>>, i: int, path: Option<Seq<char>>) -> SpecCli
    decreases args.len() - i,
{
    if i < 0 || i >= args.len() {
        SpecCli::Run(path)
    } else {
        let a = args[i];
        if a == "--config"@ || a == "-c"@ {
            if i + 1 >= args.len() {
                SpecCli::MissingConfigPath
            } else {
                parse_from(args, i + 2, Some(args[i + 1]))
            }
        } else if a == "--help"@ || a == "-h"@ {
            SpecCli::Help
        } else if a == "--version"@ || a == "-V"@ {
            SpecCli::Version
        } else {
            SpecCli::UnknownArgument(a)
        }
    }
}

/// The text of each argument.
pub open spec fn texts(args: Seq<String>) -> Seq<Seq<char>> {
    args.map_values(|a: String| a@)
}

/// Reads the arguments after the program's name.
pub fn parse_args(args: &Vec<String>) -> (r: CliCommand)
    ensures
        r@ == parse_from(texts(args@), 0, None),
{
    let ghost all = texts(args@);
    let config_long = String::from_str("--config");
    let config_short = String::from_str("-c");
    let help_long = String::from_str("--help");
    let help_short = String::from_str("-h");
    let version_long = String::from_str("--version");
    let version_short = String::from_str("-V");
    let mut path: Option<String> = None;
    let mut i: usize = 0;
    while i < args.len()
        invariant
            i <= args@.len(),
            all == texts(args@),
            config_long@ == "--config"@,
            config_short@ == "-c"@,
            help_long@ == "--help"@,
            help_short@ == "-h"@,
            version_long@ == "--version"@,
            version_short@ == "-V"@,
            parse_from(all, 0, None) == parse_from(
                all,
                i as int,
                match path {
                    Some(s) => Some(s@),
                    None => None,
                },
            ),
        decreases args.len() - i,
    {
        let a = &args[i];
        assert(all[i as int] == a@);
        if *a == config_long || *a == config_short {
            if i + 1 >= args.len() {
                return CliCommand::MissingConfigPath;
            }
            assert(all[i + 1] == args@[i + 1]@);
            path = Some(args[i + 1].clone());
            i = i + 2;
        } else if *a == help_long || *a == help_short {
            return CliCommand::Help;
        } else if *a == version_long || *a == version_short {
            return CliCommand::Version;
        } else {
            return CliCommand::UnknownArgument(a.clone());
        }
    }
    CliCommand::Run(path)
}

/// The long and short form of each option are read alike wherever the
/// option stands: `--help` and `-h` ask for the usage text, `--version` and
/// `-V` for the version, and `--config` and `-c` name the configuration
/// file that follows.
pub proof fn lemma_option_forms(args: Seq<Seq<char>>, i: int, path: Option<Seq<char>>)
    requires
        0 <= i < args.len(),
    ensures
        parse_from(args.update(i, "--help"@), i, path) == SpecCli::Help,
        parse_from(args.update(i, "-h"@), i, path) == SpecCli::Help,
        parse_from(args.update(i, "--version"@), i, path) == SpecCli::Version,
        parse_from(args.update(i, "-V"@), i, path) == SpecCli::Version,
        parse_from(args.update(i, "--config"@), i, path) == parse_from(args.update(i, "-c"@), i, path),
        i + 1 < args.len() ==> parse_from(args.update(i, "-c"@), i, path) == parse_from(
            args,
            i + 2,
            Some(args[i + 1]),
        ),
        i + 1 == args.len() ==> parse_from(args.update(i, "-c"@), i, path)
            == SpecCli::MissingConfigPath,
{
    reveal_strlit("--help");
    reveal_strlit("-h");
    reveal_strlit("--version");
    reveal_strlit("-V");
    reveal_strlit("--config");
    reveal_strlit("-c");
    assert("--help"@.len() != "--config"@.len() && "--help"@.len() != "-c"@.len());
    assert("-h"@.len() != "--config"@.len() && "-h"@[1] != "-c"@[1]);
    assert("--version"@.len() != "--config"@.len() && "--version"@.len() != "-c"@.len());
    assert("--version"@.len() != "--help"@.len() && "--version"@.len() != "-h"@.len());
    assert("-V"@.len() != "--config"@.len() && "-V"@[1] != "-c"@[1]);
    assert("-V"@.len() != "--help"@.len() && "-V"@[1] != "-h"@[1]);
    let long = args.update(i, "--config"@);
    let short = args.update(i, "-c"@);
    if i + 1 < args.len() {
        assert(parse_from(long, i + 2, Some(args[i + 1])) == parse_from(args, i + 2, Some(args[i + 1]))) by {
            lemma_same_tail(long, args, i + 2, Some(args[i + 1]));
        }
        assert(parse_from(short, i + 2, Some(args[i + 1])) == parse_from(args, i + 2, Some(args[i + 1]))) by {
            lemma_same_tail(short, args, i + 2, Some(args[i + 1]));
        }
    }
}

/// Reading from `i` on looks only at the arguments from `i` on.
proof fn lemma_same_tail(a: Seq<Seq<char>>, b: Seq<Seq<char>>, i: int, path: Option<Seq<char>>)
    requires
        a.len() == b.len(),
        forall|j: int| i <= j < a.len() ==> a[j] == b[j],
    ensures
        parse_from(a, i, path) == parse_from(b, i, path),
    decreases a.len() - i,
{
    if 0 <= i < a.len() && i + 1 < a.len() {
        lemma_same_tail(a, b, i + 2, Some(a[i + 1]));
    }
}

} // verus!
