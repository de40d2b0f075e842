//! Partitioning of the process argument list, and the user-facing
//! texts: usage help and the error messages.

use vstd::prelude::*;
use vstd::string::StringExecFns;

verus! {

/// What an argument list asks for.
pub enum CliAction {
    /// A help flag stood first: print the usage text and stop well.
    Help,
    /// A program path stood first, the rest are its arguments.
    Run { binary_path: String, debug_args: Vec<String> },
    /// No positional argument at all: a usage error.
    MissingBinary,
}

/// The three spellings that ask for the usage text.
pub open spec fn is_help_flag(s: Seq<char>) -> bool {
    ||| s == "--help"@
    ||| s == "-h"@
    ||| s == "-help"@
}

/// Relies on str's PartialEq: two string slices are equal exactly
/// when their characters are.
#[verifier::external_body]
fn str_eq(a: &str, b: &str) -> (r: bool)
    ensures
        r == (a@ == b@),
{
    a == b
}

/// Splits the process argument list (invocation name first) into what
/// the run should do: the usage text on a leading help flag, a usage
/// error when no positional argument follows the invocation name, and
/// otherwise the program path with its trailing arguments, verbatim
/// and in order.
pub fn parse_args(args: Vec<String>) -> (r: CliAction)
    ensures
        (r is Help) <==> (args@.len() >= 2 && is_help_flag(args@[1]@)),
        (r is MissingBinary) <==> args@.len() < 2,
        (r is Run) <==> (args@.len() >= 2 && !is_help_flag(args@[1]@)),
        (r matches CliAction::Run { binary_path, debug_args } ==> binary_path@ == args@[1]@
            && debug_args.deep_view() == args.deep_view().skip(2)),
{
    if args.len() < 2 {
        return CliAction::MissingBinary;
    }
    let first = args[1].as_str();
    if str_eq(first, "--help") || str_eq(first, "-h") || str_eq(first, "-help") {
        return CliAction::Help;
    }
    let binary_path = args[1].clone();
    let mut debug_args: Vec<String> = Vec::new();
    let mut i: usize = 2;
    while i < args.len()
        invariant
            2 <= i <= args@.len(),
            debug_args.deep_view() == args.deep_view().subrange(2, i as int),
        decreases args@.len() - i,
    {
        let ghost pre = debug_args.deep_view();
        proof {
            assert(pre.len() == i - 2);
            assert(debug_args@.len() == i - 2);
        }
        debug_args.push(args[i].clone());
        proof {
            assert(debug_args.deep_view() =~~= args.deep_view().subrange(2, i + 1));
        }
        i = i + 1;
    }
    proof {
        assert(debug_args.deep_view() =~~= args.deep_view().skip(2));
    }
    CliAction::Run { binary_path, debug_args }
}

/// A sequence of characters stands somewhere inside another.
pub open spec fn contains_seq(haystack: Seq<char>, needle: Seq<char>) -> bool {
    exists|i: int|
        0 <= i && i + needle.len() <= haystack.len() && #[trigger] haystack.subrange(
            i,
            i + needle.len(),
        ) == needle
}

/// The usage text that a help flag asks for.
pub fn help_text() -> (r: String)
    ensures
        r@ == "cpp launch file creator:\n Outputs launch.json file (to put in .vscode, and is consumed by c/c++ extension from microsoft) to run a command line throught gdb. The equivalent of 'gdb --args a.out arg1 arg2 arg3' . \n example: 'clfc a.out arg1 arg2 arg3'"@,
{
    String::from_str(
        "cpp launch file creator:\n Outputs launch.json file (to put in .vscode, and is consumed by c/c++ extension from microsoft) to run a command line throught gdb. The equivalent of 'gdb --args a.out arg1 arg2 arg3' . \n example: 'clfc a.out arg1 arg2 arg3'",
    )
}

/// The usage error shown when no positional argument was given.
pub fn missing_binary_message() -> (r: String)
    ensures
        r@ == "Please provide the binary name. example: 'clfc a.out arg1 arg2 arg3'"@,
{
    String::from_str("Please provide the binary name. example: 'clfc a.out arg1 arg2 arg3'")
}

/// The error shown when the program path cannot be resolved; it names
/// the offending path.
pub fn invalid_path_message(path: &str) -> (r: String)
    ensures
        r@ == "The binary path("@ + path@
            + ") is invalid. Either the file doesn't exist or one of the directories in the path doesn't exist."@,
        contains_seq(r@, path@),
{
    let mut r = String::from_str("The binary path(");
    r.append(path);
    r.append(
        ") is invalid. Either the file doesn't exist or one of the directories in the path doesn't exist.",
    );
    proof {
        assert(r@ =~= "The binary path("@ + path@
            + ") is invalid. Either the file doesn't exist or one of the directories in the path doesn't exist."@);
        reveal_strlit("The binary path(");
        let start = "The binary path("@.len() as int;
        assert(r@.subrange(start, start + path@.len() as int) =~= path@);
    }
    r
}

/// The error shown when the resolved program path holds characters
/// that no string can carry; it names the offending path.
pub fn path_not_unicode_message(path: &str) -> (r: String)
    ensures
        r@ == "The binary path("@ + path@
            + ") is invalid. Can't create a string from the path."@,
        contains_seq(r@, path@),
{
    let mut r = String::from_str("The binary path(");
    r.append(path);
    r.append(") is invalid. Can't create a string from the path.");
    proof {
        assert(r@ =~= "The binary path("@ + path@
            + ") is invalid. Can't create a string from the path."@);
        reveal_strlit("The binary path(");
        let start = "The binary path("@.len() as int;
        assert(r@.subrange(start, start + path@.len() as int) =~= path@);
    }
    r
}

/// The error shown when the working directory cannot be read.
pub fn cwd_error_message() -> (r: String)
    ensures
        r@ == "Can't get the current directory."@,
{
    String::from_str("Can't get the current directory.")
}

/// The error shown when the working directory holds characters that
/// no string can carry.
pub fn cwd_not_unicode_message() -> (r: String)
    ensures
        r@ == "The current directory is invalid. Can't create a string from the path."@,
{
    String::from_str("The current directory is invalid. Can't create a string from the path.")
}

} // verus!
