use clfc::cli::CliAction;
use clfc::cli::cwd_error_message;
use clfc::cli::cwd_not_unicode_message;
use clfc::cli::help_text;
use clfc::cli::invalid_path_message;
use clfc::cli::missing_binary_message;
use clfc::cli::parse_args;
use clfc::cli::path_not_unicode_message;

fn strings(items: &[&str]) -> Vec<String> {
    items.iter().map(|s| s.to_string()).collect()
}

#[test]
fn no_positional_arguments_is_usage_error() {
    assert!(matches!(parse_args(strings(&["clfc"])), CliAction::MissingBinary));
    assert!(matches!(parse_args(strings(&[])), CliAction::MissingBinary));
}

#[test]
fn help_flag_first_wins_regardless_of_rest() {
    assert!(matches!(parse_args(strings(&["clfc", "--help"])), CliAction::Help));
    assert!(matches!(parse_args(strings(&["clfc", "--help", "x", "y"])), CliAction::Help));
    assert!(matches!(parse_args(strings(&["clfc", "-h", "a.out"])), CliAction::Help));
    assert!(matches!(parse_args(strings(&["clfc", "-help"])), CliAction::Help));
}

#[test]
fn help_flag_elsewhere_is_an_argument() {
    match parse_args(strings(&["clfc", "prog", "--help"])) {
        CliAction::Run { binary_path, debug_args } => {
            assert_eq!(binary_path, "prog");
            assert_eq!(debug_args, strings(&["--help"]));
        }
        _ => panic!("expected a run"),
    }
}

#[test]
fn run_partitions_binary_and_arguments() {
    match parse_args(strings(&["clfc", "a.out", "x", "y"])) {
        CliAction::Run { binary_path, debug_args } => {
            assert_eq!(binary_path, "a.out");
            assert_eq!(debug_args, strings(&["x", "y"]));
        }
        _ => panic!("expected a run"),
    }
}

#[test]
fn run_with_no_trailing_arguments_is_valid() {
    match parse_args(strings(&["clfc", "a.out"])) {
        CliAction::Run { binary_path, debug_args } => {
            assert_eq!(binary_path, "a.out");
            assert!(debug_args.is_empty());
        }
        _ => panic!("expected a run"),
    }
}

#[test]
fn invalid_path_message_names_the_path() {
    let msg = invalid_path_message("/no/such/file");
    assert!(msg.contains("/no/such/file"));
    assert_eq!(
        msg,
        "The binary path(/no/such/file) is invalid. Either the file doesn't exist or one of the directories in the path doesn't exist."
    );
}

#[test]
fn not_unicode_message_names_the_path() {
    let msg = path_not_unicode_message("/odd/path");
    assert!(msg.contains("/odd/path"));
    assert_eq!(
        msg,
        "The binary path(/odd/path) is invalid. Can't create a string from the path."
    );
}

#[test]
fn fixed_messages_match() {
    assert_eq!(
        missing_binary_message(),
        "Please provide the binary name. example: 'clfc a.out arg1 arg2 arg3'"
    );
    assert_eq!(cwd_error_message(), "Can't get the current directory.");
    assert_eq!(
        cwd_not_unicode_message(),
        "The current directory is invalid. Can't create a string from the path."
    );
    assert!(help_text().contains("example: 'clfc a.out arg1 arg2 arg3'"));
    assert!(help_text().starts_with("cpp launch file creator:"));
}
