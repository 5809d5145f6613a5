use ash::color::Color;
use ash::diff::diff::{colorize_diff, diff_files, diff_strings, split_lines};
use ash::diff::myers::{diff_lines, format_diff, is_binary_content, Edit};
use ash::editor::Editor;
use ash::error::{Error, IoFailure};
use ash::path_filter::PathFilter;
use ash::repository::inspector::{ChangeType, Inspector};
use ash::repository::pending_commit::{PendingCommit, PendingCommitType};
use ash::repository::sequencer::{format_todo_line, option_value, todo_line_parts, Action, Sequencer};
use ash::revision::{Revision, RevisionNode};
use ash::validators::{PathKind, PathValidator};
use ash::database::database::Database;
use ash::index::entry::{Entry, FileStat};
use ash::file_mode::FileMode;

fn strs(v: &[&str]) -> Vec<String> {
    v.iter().map(|s| s.to_string()).collect()
}

#[test]
fn one_changed_line_diff() {
    assert_eq!(diff_strings("a\nb\nc\n", "a\nB\nc\n", 3), "@@ -1,3 +1,3 @@\n a\n-b\n+B\n c\n");
}

#[test]
fn diff_against_empty() {
    assert_eq!(diff_strings("", "x\ny\n", 3), "@@ -0,0 +1,2 @@\n+x\n+y\n");
    assert_eq!(diff_strings("x\n", "", 3), "@@ -1,1 +0,0 @@\n-x\n");
}

#[test]
fn diff_of_equal_texts() {
    assert_eq!(diff_strings("a\nb\n", "a\nb\n", 3), "@@ -1,2 +1,2 @@\n a\n b\n");
}

#[test]
fn myers_script() {
    let a = strs(&["a", "b"]);
    let b = strs(&["a", "c"]);
    let e = diff_lines(&a, &b);
    assert_eq!(e, vec![Edit::Equal(0, 0), Edit::Delete(1), Edit::Insert(1)]);
    assert_eq!(format_diff(&a, &b, &e, 3), "@@ -1,2 +1,2 @@\n a\n-b\n+c\n");
}

#[test]
fn binary_detection() {
    assert!(is_binary_content(b"ab\0cd"));
    assert!(!is_binary_content(b"plain text"));
}

#[test]
fn diff_lines_are_coloured() {
    assert_eq!(colorize_diff("+x\n-y\n z", false), "+x\n-y\n z\n");
    assert_eq!(colorize_diff("+x", true), "\x1b[32m+x\x1b[0m\n");
    assert_eq!(split_lines("a\r\nb"), strs(&["a", "b"]));
}

#[test]
fn colours() {
    assert_eq!(Color::red("x", true), "\x1b[31mx\x1b[0m");
    assert_eq!(Color::red("x", false), "x");
    assert!(Color::is_enabled(Some("always"), false));
    assert!(!Color::is_enabled(Some("never"), true));
}

#[test]
fn editor_notes_removed() {
    assert_eq!(Editor::remove_notes("Title\n# note\nbody\n"), Some("Title\nbody\n".to_string()));
    assert_eq!(Editor::remove_notes("# only\n\n"), None);
}

#[test]
fn revision_parsing() {
    match Revision::parse("main^") {
        Some(RevisionNode::Parent(inner)) => match *inner {
            RevisionNode::Ref(name) => assert_eq!(name, "main"),
            other => panic!("unexpected {:?}", other),
        },
        other => panic!("unexpected {:?}", other),
    }
    match Revision::parse("HEAD~3") {
        Some(RevisionNode::Ancestor(inner, 3)) => match *inner {
            RevisionNode::Ref(name) => assert_eq!(name, "HEAD"),
            other => panic!("unexpected {:?}", other),
        },
        other => panic!("unexpected {:?}", other),
    }
    match Revision::parse("a..b") {
        Some(RevisionNode::Range(_, _)) => {}
        other => panic!("unexpected {:?}", other),
    }
    match Revision::parse("^x") {
        Some(RevisionNode::Exclude(_)) => {}
        other => panic!("unexpected {:?}", other),
    }
    assert!(Revision::parse("bad name").is_none());
}

#[test]
fn sequencer_todo_lines() {
    assert_eq!(format_todo_line(Action::Pick, "abc1234", "Fix bug"), "pick abc1234 Fix bug\n");
    assert_eq!(
        todo_line_parts("revert abc1234 Undo it"),
        Some(("revert".to_string(), "abc1234".to_string(), "Undo it".to_string()))
    );
    assert_eq!(todo_line_parts("pick"), None);
    assert_eq!(option_value("strategy=ours\nmainline=2\n", "mainline"), Some("2".to_string()));
    assert_eq!(option_value("strategy=ours\n", "mainline"), None);
}

#[test]
fn sequencer_commands() {
    let mut s = Sequencer::new(".ash");
    assert!(s.next_command().is_none());
    s.add_pick("a1".to_string());
    s.add_revert("b2".to_string());
    assert_eq!(s.next_command(), Some((Action::Pick, "a1".to_string())));
    s.drop_command();
    assert_eq!(s.next_command(), Some((Action::Revert, "b2".to_string())));
    assert!(Action::from_str("pick").is_ok());
    assert!(Action::from_str("squash").is_err());
}

#[test]
fn pending_commit_state() {
    let p = PendingCommit::new(".ash");
    assert_eq!(p.head_path(PendingCommitType::Merge), ".ash/MERGE_HEAD");
    assert_eq!(p.merge_type(false, true, true), Some(PendingCommitType::CherryPick));
    assert_eq!(p.merge_type(false, false, false), None);
    assert_eq!(p.merge_oid(PendingCommitType::Merge, Ok("abc\n".to_string())).unwrap(), "abc");
    match p.merge_oid(PendingCommitType::Revert, Err(IoFailure::NotFound)) {
        Err(Error::Generic(m)) => assert_eq!(m, "No REVERT_HEAD in progress"),
        _ => panic!("expected an error"),
    }
    assert_eq!(p.merge_message(Err(IoFailure::NotFound)).unwrap(), "");
    match p.handle_no_merge_to_abort(PendingCommitType::Merge, IoFailure::NotFound) {
        Error::Generic(m) => assert_eq!(m, "No merge to abort (MERGE_HEAD)"),
        _ => panic!("expected a generic error"),
    }
}

#[test]
fn path_validation() {
    match PathValidator::validate("", PathKind::Directory) {
        Err(Error::InvalidPath(m)) => assert_eq!(m, "Path cannot be empty"),
        _ => panic!("expected an error"),
    }
    assert!(PathValidator::validate_for_init("repo", PathKind::Directory, None).is_ok());
    match PathValidator::validate_for_init("repo", PathKind::Other, None) {
        Err(Error::InvalidPath(m)) => assert_eq!(m, "'repo' exists but is not a directory"),
        _ => panic!("expected an error"),
    }
    match PathValidator::validate_for_init("a/repo", PathKind::Missing, Some(("a", PathKind::Missing))) {
        Err(Error::InvalidPath(m)) => assert_eq!(m, "Parent directory 'a' does not exist"),
        _ => panic!("expected an error"),
    }
}

#[test]
fn path_filter_keeps_routes() {
    let f = PathFilter::build(&strs(&["src/main.rs"]));
    let entries = vec![("src".to_string(), 1), ("docs".to_string(), 2)];
    let kept: Vec<&String> = f.filter_entries(&entries).into_iter().map(|(n, _)| n).collect();
    assert_eq!(kept, vec![&"src".to_string()]);
    let inner = f.join("src");
    assert_eq!(inner.path(), "src");
    let all = PathFilter::new();
    assert_eq!(all.filter_entries(&entries).len(), 2);
}

#[test]
fn inspector_comparisons() {
    let ins = Inspector::new(Database::new(".ash/objects".to_string()));
    let stat = FileStat { mode: FileMode::regular(), created: None, modified: None, len: 0 };
    let e = Entry::create("f", "e69de29bb2d1d6434b8b29ae775ad8c2e48c5391", &stat, (0, 0));
    assert_eq!(ins.compare_index_to_workspace(None, true, Some(b"")), Some(ChangeType::Untracked));
    assert_eq!(ins.compare_index_to_workspace(Some(&e), false, None), Some(ChangeType::Deleted));
    assert_eq!(ins.compare_index_to_workspace(Some(&e), true, Some(b"")), None);
    assert_eq!(ins.compare_index_to_workspace(Some(&e), true, Some(b"x")), Some(ChangeType::Modified));
    assert_eq!(ins.compare_tree_to_index(Some(("100644", "e69de29bb2d1d6434b8b29ae775ad8c2e48c5391")), Some(&e)), None);
    assert_eq!(ins.compare_tree_to_index(Some(("100755", "e69de29bb2d1d6434b8b29ae775ad8c2e48c5391")), Some(&e)), Some(ChangeType::Modified));
    assert_eq!(ins.compare_tree_to_index(None, Some(&e)), Some(ChangeType::Added));
    assert_eq!(ins.compare_tree_to_index(Some(("100644", "x")), None), Some(ChangeType::Deleted));
    assert!(!ins.compare_workspace_vs_blob(Some(b""), "e69de29bb2d1d6434b8b29ae775ad8c2e48c5391"));
    assert!(ins.compare_workspace_vs_blob(None, "e69de29bb2d1d6434b8b29ae775ad8c2e48c5391"));
    let changes = ins.analyze_workspace_changes(&vec![e.clone()], &vec![(false, None)]);
    assert_eq!(changes, vec![("f".to_string(), ChangeType::Deleted)]);
}

#[test]
fn file_diff_with_header() {
    let out = diff_files(b"a\n", b"b\n", "a/x", "b/x", "x", "x", 3).unwrap();
    assert!(out.contains("-a\n+b\n"));
}

#[test]
fn diff_lines_is_shortest() {
    let a = strs(&["a"]);
    let b = strs(&["x", "x", "x", "x", "a"]);
    assert_eq!(
        diff_lines(&a, &b),
        vec![Edit::Insert(0), Edit::Insert(1), Edit::Insert(2), Edit::Insert(3), Edit::Equal(0, 4)]
    );
    let c = strs(&["p", "q", "r", "s"]);
    let d = strs(&["q", "r", "s", "p"]);
    let e = diff_lines(&c, &d);
    assert_eq!(e.iter().filter(|x| !matches!(x, Edit::Equal(_, _))).count(), 2);
}
