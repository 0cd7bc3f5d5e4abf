use vstd::prelude::*;

use crate::archive::select::bytes_equal;

verus! {

/// What the command line asks for.
#[derive(Debug, Clone, Copy, PartialEq, Eq, Structural)]
pub enum Command {
    /// Print usage and exit.
    Help,
    /// Package the project in the directory given as the only argument.
    Package,
    /// No argument was given.
    MissingDirectory,
    /// Anything else.
    InvalidArguments,
}

/// The help flags: `--help`, `-help`, `-h` and `--h`.
pub open spec fn help_flag(arg: Seq<u8>) -> bool {
    ||| arg == seq![45u8, 45u8, 104u8, 101u8, 108u8, 112u8]
    ||| arg == seq![45u8, 104u8, 101u8, 108u8, 112u8]
    ||| arg == seq![45u8, 104u8]
    ||| arg == seq![45u8, 45u8, 104u8]
}

/// What the arguments after the program name ask for.
pub open spec fn command_spec(args: Seq<Seq<u8>>) -> Command {
    if args.len() == 1 && help_flag(args[0]) {
        Command::Help
    } else if args.len() == 1 && args[0].len() != 0 {
        Command::Package
    } else if args.len() == 0 {
        Command::MissingDirectory
    } else {
        Command::InvalidArguments
    }
}

/// Recognizes `--help`, `-help`, `-h` and `--h`, comparing the raw argument bytes.
pub fn is_help_flag(arg: &[u8]) -> (r: bool)
    ensures
        r == help_flag(arg@),
{
    let long: Vec<u8> = vec![45u8, 45u8, 104u8, 101u8, 108u8, 112u8];
    let single: Vec<u8> = vec![45u8, 104u8, 101u8, 108u8, 112u8];
    let short: Vec<u8> = vec![45u8, 104u8];
    let double: Vec<u8> = vec![45u8, 45u8, 104u8];
    assert(long@ == seq![45u8, 45u8, 104u8, 101u8, 108u8, 112u8]);
    assert(single@ == seq![45u8, 104u8, 101u8, 108u8, 112u8]);
    assert(short@ == seq![45u8, 104u8]);
    assert(double@ == seq![45u8, 45u8, 104u8]);
    bytes_equal(arg, long.as_slice()) || bytes_equal(arg, single.as_slice()) || bytes_equal(
        arg,
        short.as_slice(),
    ) || bytes_equal(arg, double.as_slice())
}

/// The views of a list of arguments.
pub open spec fn arg_views(args: Seq<Vec<u8>>) -> Seq<Seq<u8>> {
    args.map_values(|a: Vec<u8>| a@)
}

/// Decides what the arguments after the program name ask for.
pub fn parse_command(args: &[Vec<u8>]) -> (r: Command)
    ensures
        r == command_spec(arg_views(args@)),
{
    if args.len() == 1 {
        if is_help_flag(args[0].as_slice()) {
            return Command::Help;
        }
        if args[0].len() != 0 {
            return Command::Package;
        }
    }
    if args.len() == 0 {
        Command::MissingDirectory
    } else {
        Command::InvalidArguments
    }
}

} // verus!
