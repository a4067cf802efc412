use bsr::args;
use bsr::cli::{self, Args, Subcommands};

#[test]
fn directory_argument_checked() {
    assert_eq!(cli::validate_dir("/tmp", true, true), Ok("/tmp".to_string()));
    assert_eq!(cli::validate_dir("/nope", false, false), Err("Invalid directory: /nope".to_string()));
    assert_eq!(cli::validate_dir("/etc/hosts", true, false), Err("Path is not a directory: /etc/hosts".to_string()));
}

#[test]
fn first_form_refuses_missing_directory() {
    assert_eq!(args::validate_dir("/tmp", true, true), Ok("/tmp".to_string()));
    assert_eq!(args::validate_dir("/nope", false, false), Err("Invalid directory".to_string()));
    assert_eq!(args::validate_dir("/etc/hosts", true, false), Err("Invalid directory".to_string()));
}

#[test]
fn command_line_holds_subcommand() {
    let a = Args { command: Some(Subcommands::Compare { dir: None, context: 3, origin_source: Some("lib".to_string()) }) };
    match a.command {
        Some(Subcommands::Compare { context, origin_source, .. }) => {
            assert_eq!(context, 3);
            assert_eq!(origin_source, Some("lib".to_string()));
        }
        _ => panic!("wrong subcommand"),
    }
}
