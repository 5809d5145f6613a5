use ash::cli::args::Command;
use ash::cli::parser::CliParser;
use ash::error::Error;

fn args(words: &[&str]) -> Vec<String> {
    words.iter().map(|w| w.to_string()).collect()
}

fn no_files() -> Vec<(String, Result<String, String>)> {
    Vec::new()
}

fn generic(e: Error) -> String {
    match e {
        Error::Generic(m) => m,
        other => panic!("unexpected error {:?}", other),
    }
}

#[test]
fn init_defaults_to_current_directory() {
    let r = CliParser::parse(args(&["ash", "init"]), &no_files()).unwrap();
    match r.command {
        Command::Init { path } => assert_eq!(path, "."),
        other => panic!("unexpected {:?}", other),
    }
}

#[test]
fn init_takes_a_path() {
    let r = CliParser::parse(args(&["ash", "INIT", "repo"]), &no_files()).unwrap();
    match r.command {
        Command::Init { path } => assert_eq!(path, "repo"),
        other => panic!("unexpected {:?}", other),
    }
}

#[test]
fn no_command_gives_usage() {
    let e = CliParser::parse(args(&["ash"]), &no_files()).unwrap_err();
    let m = generic(e);
    assert!(m.starts_with("Usage: ash <command> [options]\n\n"));
    assert!(m.ends_with(&CliParser::format_help()));
}

#[test]
fn commit_with_message() {
    let r = CliParser::parse(args(&["ash", "commit", "-m", "first"]), &no_files()).unwrap();
    match r.command {
        Command::Commit { message, amend, reuse_message, edit } => {
            assert_eq!(message, "first");
            assert!(!amend);
            assert!(reuse_message.is_none());
            assert!(!edit);
        }
        other => panic!("unexpected {:?}", other),
    }
}

#[test]
fn commit_reedit_sets_edit() {
    let r = CliParser::parse(args(&["ash", "commit", "-c", "HEAD"]), &no_files()).unwrap();
    match r.command {
        Command::Commit { message, reuse_message, edit, .. } => {
            assert_eq!(message, "");
            assert_eq!(reuse_message.as_deref(), Some("HEAD"));
            assert!(edit);
        }
        other => panic!("unexpected {:?}", other),
    }
}

#[test]
fn commit_without_message_is_refused() {
    let e = CliParser::parse(args(&["ash", "commit"]), &no_files()).unwrap_err();
    assert_eq!(
        generic(e),
        "Commit message is required. Use --message/-m, --file/-F, --reuse-message/-C, or --amend"
    );
}

#[test]
fn commit_message_flag_needs_value() {
    let e = CliParser::parse(args(&["ash", "commit", "-m"]), &no_files()).unwrap_err();
    assert_eq!(generic(e), "--message requires a value");
}

#[test]
fn commit_unknown_option() {
    let e = CliParser::parse(args(&["ash", "commit", "--bogus"]), &no_files()).unwrap_err();
    assert_eq!(generic(e), "Unknown option for commit: --bogus");
}

#[test]
fn commit_message_from_file() {
    let files = vec![("msg.txt".to_string(), Ok("from file\n".to_string()))];
    let r = CliParser::parse(args(&["ash", "commit", "-F", "msg.txt"]), &files).unwrap();
    match r.command {
        Command::Commit { message, .. } => assert_eq!(message, "from file\n"),
        other => panic!("unexpected {:?}", other),
    }
}

#[test]
fn commit_message_file_paths_are_listed() {
    let a = args(&["ash", "commit", "--file", "m1", "-m", "x", "-F", "m2"]);
    assert_eq!(CliParser::message_file_paths(&a), vec!["m1".to_string(), "m2".to_string()]);
}

#[test]
fn add_needs_paths() {
    let e = CliParser::parse(args(&["ash", "add"]), &no_files()).unwrap_err();
    assert_eq!(generic(e), "File path(s) are required for add command");
}

#[test]
fn add_takes_paths() {
    let r = CliParser::parse(args(&["ash", "add", "a.txt", "dir"]), &no_files()).unwrap();
    match r.command {
        Command::Add { paths } => assert_eq!(paths, vec!["a.txt".to_string(), "dir".to_string()]),
        other => panic!("unexpected {:?}", other),
    }
}

#[test]
fn status_porcelain_and_color() {
    let r = CliParser::parse(args(&["ash", "status", "--porcelain", "--color=never"]), &no_files())
        .unwrap();
    match r.command {
        Command::Status { porcelain, color } => {
            assert!(porcelain);
            assert_eq!(color, "never");
        }
        other => panic!("unexpected {:?}", other),
    }
}

#[test]
fn status_color_defaults_to_auto() {
    let r = CliParser::parse(args(&["ash", "status"]), &no_files()).unwrap();
    match r.command {
        Command::Status { porcelain, color } => {
            assert!(!porcelain);
            assert_eq!(color, "auto");
        }
        other => panic!("unexpected {:?}", other),
    }
}

#[test]
fn unknown_command_is_kept() {
    let r = CliParser::parse(args(&["ash", "frobnicate"]), &no_files()).unwrap();
    match r.command {
        Command::Unknown { name } => assert_eq!(name, "frobnicate"),
        other => panic!("unexpected {:?}", other),
    }
}

#[test]
fn checkout_takes_target() {
    let r = CliParser::parse(args(&["ash", "checkout", "main"]), &no_files()).unwrap();
    match r.command {
        Command::Checkout { target } => assert_eq!(target, "main"),
        other => panic!("unexpected {:?}", other),
    }
}

#[test]
fn help_lists_commands() {
    let h = CliParser::format_help();
    assert!(h.contains("init"));
    assert!(h.contains("commit"));
}
