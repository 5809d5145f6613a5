use ash::commands::add::{AddCommand, AddPlan};
use ash::commands::branch::BranchCommand;
use ash::commands::checkout::CheckoutCommand;
use ash::commands::log::LogCommand;
use ash::commands::merge_tool::{MergeToolCommand, ResolutionChoice};
use ash::commands::reset::ResetCommand;
use ash::commands::revert::RevertCommand;
use ash::commands::rm::{RemovalStatus, RmCommand};
use ash::error::Error;
use ash::refs::Reference;

#[test]
fn identical_sides_need_no_markers() {
    assert_eq!(MergeToolCommand::conflict_markup("same\n", "same\n"), Some("same\n".to_string()));
    assert_eq!(MergeToolCommand::conflict_markup("", ""), None);
}

#[test]
fn one_sided_files_are_marked() {
    assert_eq!(
        MergeToolCommand::conflict_markup("", "theirs\n"),
        Some("<<<<<<< OURS (file doesn't exist)\n=======\ntheirs\n>>>>>>> THEIRS\n".to_string())
    );
    assert_eq!(
        MergeToolCommand::conflict_markup("ours\n", ""),
        Some("<<<<<<< OURS\nours\n=======\n>>>>>>> THEIRS (file doesn't exist)\n".to_string())
    );
}

#[test]
fn short_files_are_marked_whole() {
    assert_eq!(
        MergeToolCommand::conflict_markup("a\nb\n", "a\nc\n"),
        Some("<<<<<<< OURS\na\nb\n=======\na\nc\n>>>>>>> THEIRS\n".to_string())
    );
}

#[test]
fn long_files_show_from_the_first_difference() {
    let ours: String = (1..=12).map(|i| format!("line{}\n", i)).collect();
    let theirs = ours.replace("line8\n", "LINE8\n");
    let expected = "// Context around line 8\n<<<<<<< OURS\nline5\nline6\nline7\nline8\nline9\nline10\nline11\nline12\n=======\nLINE8\nline9\nline10\nline11\nline12\n>>>>>>> THEIRS\n\n";
    assert_eq!(MergeToolCommand::conflict_markup(&ours, &theirs), Some(expected.to_string()));
}

#[test]
fn long_files_differing_only_in_line_ends_are_marked_whole() {
    let ours: String = (1..=10).map(|i| format!("l{}\n", i)).collect();
    let theirs: String = (1..=10).map(|i| format!("l{}\r\n", i)).collect();
    let expected = format!("<<<<<<< OURS\n{}=======\n{}>>>>>>> THEIRS\n", ours, theirs);
    assert_eq!(MergeToolCommand::conflict_markup(&ours, &theirs), Some(expected));
}

#[test]
fn markers_are_detected() {
    assert!(MergeToolCommand::markers_gone("all fine\n"));
    assert!(!MergeToolCommand::markers_gone("a\n=======\nb\n"));
    assert!(!MergeToolCommand::markers_gone("|||||||"));
    assert!(MergeToolCommand::content_resolved(b"resolved\n"));
    assert!(!MergeToolCommand::content_resolved(b"<<<<<<< OURS\nx\n"));
}

#[test]
fn answers_to_the_prompt() {
    assert_eq!(MergeToolCommand::parse_choice("\n"), ResolutionChoice::Editor);
    assert_eq!(MergeToolCommand::parse_choice(" 1 "), ResolutionChoice::Editor);
    assert_eq!(MergeToolCommand::parse_choice("2\n"), ResolutionChoice::Ours);
    assert_eq!(MergeToolCommand::parse_choice("3"), ResolutionChoice::Theirs);
    assert_eq!(MergeToolCommand::parse_choice("4"), ResolutionChoice::Skip);
    assert_eq!(MergeToolCommand::parse_choice("Q"), ResolutionChoice::Quit);
    assert_eq!(MergeToolCommand::parse_choice("7"), ResolutionChoice::Invalid);
}

#[test]
fn ours_recovered_from_markers() {
    assert_eq!(
        MergeToolCommand::extract_ours("<<<<<<< OURS\n  mine  \n=======\ntheirs\n>>>>>>> THEIRS\n"),
        Some("mine".to_string())
    );
    assert_eq!(
        MergeToolCommand::extract_ours("pre\n<<<<<<< branch\nx\n=======\ny\n>>>>>>> other\n"),
        Some("branch\nx".to_string())
    );
    assert_eq!(MergeToolCommand::extract_ours("no markers"), None);
}

#[test]
fn files_in_conflict_inside_directories() {
    assert!(!MergeToolCommand::file_in_conflict(None, None, false, false));
    assert!(!MergeToolCommand::file_in_conflict(Some("a"), Some("b"), false, true));
    assert!(!MergeToolCommand::file_in_conflict(Some("a"), Some("a"), false, false));
    assert!(MergeToolCommand::file_in_conflict(Some("a"), Some("b"), false, false));
    assert!(MergeToolCommand::file_in_conflict(None, Some("b"), true, false));
}

#[test]
fn missing_path_removes_entry_or_directory() {
    let keys = vec!["dir/a".to_string(), "dir/b".to_string(), "dirx".to_string(), "top".to_string()];
    assert_eq!(AddCommand::entries_for_missing_path("top", &keys), vec!["top".to_string()]);
    assert_eq!(
        AddCommand::entries_for_missing_path("dir", &keys),
        vec!["dir/a".to_string(), "dir/b".to_string()]
    );
    assert_eq!(
        AddCommand::entries_for_missing_path("dir/", &keys),
        vec!["dir/a".to_string(), "dir/b".to_string()]
    );
    assert!(AddCommand::entries_for_missing_path("none", &keys).is_empty());
}

#[test]
fn add_plans() {
    match AddCommand::plan(1, true, false, 0, 0) {
        Err(ash::error::Error::Generic(m)) => assert_eq!(m, "Adding files failed: some paths don't exist"),
        _ => panic!("expected the missing paths error"),
    }
    match AddCommand::plan(0, false, false, 1, 0) {
        Err(ash::error::Error::Generic(m)) => assert_eq!(m, "No paths specified for add command"),
        _ => panic!("expected the no paths error"),
    }
    assert_eq!(AddCommand::plan(1, false, false, 0, 0).unwrap(), AddPlan::Nothing);
    assert_eq!(AddCommand::plan(1, true, true, 0, 0).unwrap(), AddPlan::Nothing);
    assert_eq!(AddCommand::plan(1, true, false, 1, 0).unwrap(), AddPlan::Proceed);
}

#[test]
fn detached_head() {
    assert!(CheckoutCommand::is_detached_head(&Reference::Direct("abc".to_string())));
    assert!(CheckoutCommand::is_detached_head(&Reference::Symbolic("HEAD".to_string())));
    assert!(!CheckoutCommand::is_detached_head(&Reference::Symbolic("refs/heads/main".to_string())));
    assert_eq!(CheckoutCommand::position_oid("0123456789abcdef"), "01234567");
    assert_eq!(CheckoutCommand::position_oid("0123"), "0123");
}

#[test]
fn reset_short_oid() {
    assert_eq!(ResetCommand::short_oid("e69de29bb2d1d6434b8b"), "e69de29");
    assert_eq!(ResetCommand::short_oid("e69d"), "e69d");
}

#[test]
fn removal_statuses() {
    assert_eq!(RmCommand::removal_status(true, true, true, false), RemovalStatus::Safe);
    assert_eq!(RmCommand::removal_status(false, true, true, true), RemovalStatus::BothChanged);
    assert_eq!(RmCommand::removal_status(false, true, false, false), RemovalStatus::Uncommitted);
    assert_eq!(RmCommand::removal_status(false, true, false, true), RemovalStatus::Safe);
    assert_eq!(RmCommand::removal_status(false, false, true, false), RemovalStatus::Unstaged);
}

#[test]
fn expanding_paths_to_remove() {
    let kids = vec!["d/a".to_string(), "d/b".to_string()];
    assert_eq!(RmCommand::expand_path("d", true, false, kids.clone(), true).unwrap(), kids);
    match RmCommand::expand_path("d", true, false, kids, false) {
        Err(Error::Generic(m)) => assert_eq!(m, "not removing 'd' recursively without -r"),
        _ => panic!("expected an error"),
    }
    assert_eq!(RmCommand::expand_path("f", false, true, Vec::new(), false).unwrap(), vec!["f".to_string()]);
    match RmCommand::expand_path("g", false, false, Vec::new(), false) {
        Err(Error::Generic(m)) => assert_eq!(m, "pathspec 'g' did not match any files"),
        _ => panic!("expected an error"),
    }
}

#[test]
fn revert_message() {
    assert_eq!(
        RevertCommand::revert_commit_message("  Add feature \n", "abc123"),
        "Revert \"Add feature\"\n\nThis reverts commit abc123.\n"
    );
}

#[test]
fn branch_lines() {
    let main = Reference::Symbolic("refs/heads/main".to_string());
    let dev = Reference::Symbolic("refs/heads/dev".to_string());
    assert_eq!(BranchCommand::format_branch(&main, &main, false), "* main");
    assert_eq!(BranchCommand::format_branch(&main, &main, true), "* \x1b[32mmain\x1b[0m");
    assert_eq!(BranchCommand::format_branch(&dev, &main, true), "  dev");
    assert_eq!(BranchCommand::format_branch(&Reference::Direct("x".to_string()), &main, true), "");
    assert_eq!(
        BranchCommand::extended_info(6, "dev", "0123456789", "Title", false),
        "    01234567 Title"
    );
}

#[test]
fn log_decorations() {
    let head = Reference::Symbolic("HEAD".to_string());
    let main = Reference::Symbolic("refs/heads/main".to_string());
    let topic = Reference::Symbolic("refs/heads/topic".to_string());
    let refs = vec![head.clone(), main.clone(), topic.clone()];
    assert_eq!(LogCommand::format_decoration(&refs, &main, "short", false), " (HEAD -> main, topic)");
    assert_eq!(
        LogCommand::format_decoration(&refs, &main, "full", false),
        " (HEAD -> refs/heads/main, refs/heads/topic)"
    );
    assert_eq!(LogCommand::format_decoration(&vec![head], &main, "short", false), " (HEAD)");
    assert_eq!(LogCommand::format_decoration(&Vec::new(), &main, "short", false), "");
    let direct = vec![Reference::Direct("abc".to_string())];
    assert_eq!(LogCommand::format_decoration(&direct, &main, "short", false), "");
    assert_eq!(LogCommand::format_decoration(&direct, &main, "full", false), " (abc)");
}

#[test]
fn log_one_line() {
    assert_eq!(
        LogCommand::oneline("0123456789abcdef", true, " (main)", "Title", false),
        "0123456  (main) Title\n"
    );
    assert_eq!(LogCommand::oneline("0123", false, "", "T", false), "0123  T\n");
}
