use ash::pager::Pager;
use ash::pager::PagerWrite;
use ash::commands::merge_tool::MergeToolCommand;
use ash::merge::resolve::Resolve;
use ash::repository::sequencer::Action;
use ash::repository::sequencer::check_abort;
use ash::repository::sequencer::format_todo;
use ash::revision::ObjectInfo;
use ash::revision::RepoState;
use ash::revision::Revision;
use ash::revlist::RevList;
use ash::commands::log::LogCommand;
use ash::commands::sprint::SprintInfoCommand;
use ash::commands::sprint::SprintStartCommand;
use ash::commands::task::TaskCompleteCommand;
use ash::commands::task::TaskStatusCommand;
use ash::database::database::Database;
use ash::file_mode::FileMode;
use ash::index::entry::Entry;
use ash::index::entry::FileStat;
use ash::repository::inspector::ChangeType;
use ash::repository::inspector::Inspector;
use ash::repository::migration::Change;
use ash::repository::migration::DiffEntry;
use ash::repository::migration::Migration;
use ash::repository::migration::PathState;
use ash::repository::migration::WorkspaceItem;
use ash::commands::branch::BranchCommand;
use ash::commands::cherry_pick::{CherryPickCommand, PickStep};
use ash::commands::commit::CommitCommand;
use ash::commands::commit_writer::{CommitWriter, CHERRY_PICK_NOTES, MERGE_NOTES};
use ash::commands::diff::DiffCommand;
use ash::commands::merge::MergeCommand;
use ash::commands::revert::RevertCommand;
use ash::error::Error;
use ash::lockfile::{LockAttempt, LockError, Lockfile};
use ash::metadata::branch::{BranchMetadataManager, SprintMetadata};
use ash::metadata::commit::{TaskMetadata, TaskStatus};
use ash::refs::Reference;
use ash::repository::pending_commit::PendingCommitType;
use ash::workspace::Workspace;

fn strs(v: &[&str]) -> Vec<String> {
    v.iter().map(|s| s.to_string()).collect()
}

#[test]
fn task_ids_come_from_branch_names() {
    assert_eq!(CommitCommand::task_from_branch("feature-task-42"), Some("42".to_string()));
    assert_eq!(CommitCommand::task_from_branch("x-task-7-task-9"), Some("7".to_string()));
    assert_eq!(CommitCommand::task_from_branch("main"), None);
}

#[test]
fn task_ids_come_from_messages() {
    assert_eq!(CommitCommand::task_from_message("Fix TASK-123 now"), Some("TASK-123".to_string()));
    assert_eq!(CommitCommand::task_from_message("see TEST-9a"), Some("TEST-9".to_string()));
    assert_eq!(CommitCommand::task_from_message("TASK- only"), None);
    assert_eq!(CommitCommand::task_for("main", "Fix TASK-5"), Some("TASK-5".to_string()));
    assert_eq!(CommitCommand::task_for("dev-task-3", "Fix TASK-5"), Some("3".to_string()));
    assert_eq!(CommitCommand::task_for("main", ""), None);
}

#[test]
fn empty_messages_abort_the_commit() {
    assert!(CommitCommand::check_message("message").is_ok());
    match CommitCommand::check_message("  \n\t ") {
        Err(Error::Generic(m)) => assert_eq!(m, "Aborting commit due to empty commit message"),
        other => panic!("unexpected {:?}", other),
    }
}

#[test]
fn a_commit_starts_a_task_to_do() {
    let mut t = TaskMetadata::new("7".to_string(), "write".to_string(), Some(3));
    assert!(CommitCommand::record_task_commit(&mut t, "abc".to_string(), 100));
    assert_eq!(t.status, TaskStatus::InProgress);
    assert_eq!(t.started_at, Some(100));
    assert!(!CommitCommand::record_task_commit(&mut t, "def".to_string(), 200));
    assert_eq!(t.started_at, Some(100));
    assert_eq!(t.commit_ids, strs(&["abc", "def"]));
}

#[test]
fn patches_for_added_and_deleted_files() {
    let oid = "0123456789abcdef0123456789abcdef01234567";
    assert_eq!(
        DiffCommand::new_file_patch("f.txt", oid, "100644", b"x\ny\n", false),
        "index 0000000..0123456 100644\n--- /dev/null\n+++ b/f.txt\n@@ -0,0 +1,4 @@\n+x\n+y\n"
    );
    assert_eq!(
        DiffCommand::deleted_file_patch("f.txt", oid, "100644", b"x\n", false),
        "index 0123456..0000000 100644\n--- a/f.txt\n+++ /dev/null\n@@ -1,2 +0,0 @@\n-x\n"
    );
    assert_eq!(
        DiffCommand::new_file_patch("b.bin", oid, "100644", b"a\0b", false),
        "Binary file b/b.bin created\n"
    );
    assert_eq!(
        DiffCommand::deleted_file_patch("b.bin", oid, "100644", b"a\0b", false),
        "Binary file a/b.bin has been deleted\n"
    );
}

#[test]
fn colored_patch_lines() {
    let oid = "0123456789abcdef0123456789abcdef01234567";
    assert_eq!(
        DiffCommand::new_file_patch("f", oid, "100644", b"x\n", true),
        "index 0000000..0123456 100644\n--- /dev/null\n+++ b/f\n@@ -0,0 +1,2 @@\n\x1b[32m+x\x1b[0m\n"
    );
}

#[test]
fn staged_patches() {
    let a = "1111111aaaaaaaaaaaaaaaaaaaaaaaaaaaaaaaaa";
    let b = "2222222bbbbbbbbbbbbbbbbbbbbbbbbbbbbbbbbb";
    assert_eq!(
        DiffCommand::staged_patch("f", a, a, "100644", b"x\n", b"x\n", false),
        "No changes staged for f\n"
    );
    assert_eq!(
        DiffCommand::staged_patch("f", a, b, "100644", b"a\nb\nc\n", b"a\nB\nc\n", false),
        "index 1111111..2222222 100644\n--- a/f\n+++ b/f\n@@ -1,3 +1,3 @@\n a\n-b\n+B\n c\n"
    );
    assert_eq!(
        DiffCommand::staged_patch("f", a, b, "100644", b"\0", b"x", false),
        "Binary files a/f and b/f differ\n"
    );
}

#[test]
fn paths_outside_the_index() {
    assert_eq!(DiffCommand::not_in_index("p", true, false), "error: path 'p' is untracked\n");
    assert_eq!(DiffCommand::not_in_index("p", false, false), "error: path 'p' does not exist\n");
}

#[test]
fn commit_message_files() {
    let w = CommitWriter::new("/repo", "/repo/.ash");
    assert_eq!(w.commit_message_path(), "/repo/.ash/COMMIT_EDITMSG");
    assert_eq!(
        CommitWriter::compose_text(Some("Title")),
        "Title\n\n# Please enter the commit message for your changes. Lines starting with\n# '#' will be ignored, and an empty message aborts the commit.\n"
    );
    assert_eq!(
        CommitWriter::compose_text(None),
        "\n# Please enter the commit message for your changes. Lines starting with\n# '#' will be ignored, and an empty message aborts the commit.\n"
    );
    assert_eq!(
        CommitWriter::compose_merge_text("Merge x", Some("one\ntwo")),
        "Merge x\n# one\n# two\n\n# Please enter the commit message for your changes. Lines starting with\n# '#' will be ignored, and an empty message aborts the commit.\n"
    );
    assert_eq!(CommitWriter::notes_for(PendingCommitType::Merge), Some(MERGE_NOTES));
    assert_eq!(CommitWriter::notes_for(PendingCommitType::CherryPick), Some(CHERRY_PICK_NOTES));
    assert_eq!(CommitWriter::notes_for(PendingCommitType::Revert), None);
}

#[test]
fn conflicted_index_is_refused() {
    assert!(CommitWriter::handle_conflicted_index(false).is_ok());
    match CommitWriter::handle_conflicted_index(true) {
        Err(Error::Generic(m)) => assert_eq!(m, "Unresolved conflicts exist in the index"),
        other => panic!("unexpected {:?}", other),
    }
}

#[test]
fn commit_summary_lines() {
    let oid = "abcdef0123456789abcdef0123456789abcdef01";
    assert_eq!(
        CommitWriter::summary_line(Some("refs/heads/main"), true, oid, "First\n\nbody"),
        "[main (root-commit) abcdef0] First"
    );
    assert_eq!(CommitWriter::summary_line(None, false, oid, "Next"), "[detached HEAD abcdef0] Next");
}

#[test]
fn merge_messages() {
    assert_eq!(
        MergeCommand::commit_message("topic", "main", None, "r1"),
        "Merge branch 'topic' into main\n\nMerge-Parent: r1"
    );
    assert_eq!(MergeCommand::commit_message("topic", "main", Some("mine"), "r1"), "mine\n\nMerge-Parent: r1");
    assert_eq!(
        MergeCommand::fast_forward_line("0123456789abcdef", "fedcba9876543210"),
        "Updating 01234567..fedcba98"
    );
}

#[test]
fn cherry_pick_steps_and_options() {
    assert_eq!(CherryPickCommand::step(true, true, true), PickStep::Continue);
    assert_eq!(CherryPickCommand::step(false, true, true), PickStep::Abort);
    assert_eq!(CherryPickCommand::step(false, false, true), PickStep::Quit);
    assert_eq!(CherryPickCommand::step(false, false, false), PickStep::Start);
    assert_eq!(CherryPickCommand::options(Some(2)), vec![("mainline".to_string(), "2".to_string())]);
    assert!(CherryPickCommand::options(None).is_empty());
}

#[test]
fn revert_parents() {
    assert_eq!(RevertCommand::select_parent(None, Some("p1"), "c").unwrap(), "p1");
    assert_eq!(RevertCommand::select_parent(Some("x"), Some("p1"), "c").unwrap(), "p1");
    match RevertCommand::select_parent(None, None, "c1") {
        Err(Error::Generic(m)) => assert_eq!(m, "error: commit c1 has no parent"),
        other => panic!("unexpected {:?}", other),
    }
    match RevertCommand::select_parent(Some("1"), Some("p1"), "c1") {
        Err(Error::Generic(m)) => {
            assert_eq!(m, "error: mainline was specified but commit c1 is not properly handled as a merge yet")
        }
        other => panic!("unexpected {:?}", other),
    }
}

#[test]
fn ignore_patterns_from_the_ignore_file() {
    assert_eq!(Workspace::ignore_patterns(None), strs(&[".ash", ".ash/", ".git", ".git/"]));
    assert_eq!(
        Workspace::ignore_patterns(Some("# comment\n target/ \n\n*.log\ntarget/\n")),
        strs(&[".ash", ".ash/", ".git", ".git/", "target/", "*.log"])
    );
}

#[test]
fn ignore_pattern_matching() {
    let w = Workspace::new("/repo");
    assert!(w.matches_pattern("target/debug/x", "target/"));
    assert!(w.matches_pattern("target", "target/"));
    assert!(!w.matches_pattern("targets", "target/"));
    assert!(w.matches_pattern("src/notes.log", "*.log"));
    assert!(!w.matches_pattern("src/notes.txt", "*.log"));
    assert!(w.matches_pattern("src/a.rs", "a.rs"));
    assert!(w.matches_pattern("docs/x/y", "docs/x"));
    assert!(!w.matches_pattern("docs/xy", "docs/x"));
    assert!(w.matches_pattern("build/out.o", "build/*.o"));
    assert!(!w.matches_pattern("a", ""));
    assert!(w.matches_any_pattern("dir\\f.log", &strs(&["x", "*.log"])));
    assert!(!w.matches_any_pattern("f.txt", &strs(&["x", "*.log"])));
}

#[test]
fn pathspecs_in_the_index() {
    let keys = strs(&["a.txt", "dir/b.txt", "dir/sub/c.txt", "dirx"]);
    assert_eq!(Workspace::missing_start("dir", &keys).unwrap(), strs(&["dir/b.txt", "dir/sub/c.txt"]));
    match Workspace::missing_start("nope", &keys) {
        Err(Error::InvalidPath(m)) => assert_eq!(m, "Pathspec 'nope' did not match any files"),
        other => panic!("unexpected {:?}", other),
    }
    assert_eq!(Workspace::expected_under("", &keys), keys);
    assert_eq!(Workspace::expected_under("dirx", &keys), strs(&["dirx"]));
}

#[test]
fn lock_is_taken_once() {
    let mut l = Lockfile::new("/repo/.ash/HEAD");
    assert!(!l.is_held());
    assert!(l.check_held().is_err());
    assert_eq!(l.hold_for_update(LockAttempt::Created).unwrap(), true);
    assert!(l.is_held());
    assert_eq!(l.hold_for_update(LockAttempt::Exists).unwrap(), true);
    assert!(l.check_held().is_ok());
    assert!(l.commit_ref().is_ok());
    assert!(!l.is_held());
    match l.commit_ref() {
        Err(LockError::StaleLock(m)) => assert_eq!(m, "Not holding lock on file '/repo/.ash/HEAD'"),
        other => panic!("unexpected {:?}", other),
    }
}

#[test]
fn lock_failures_are_explained() {
    let mut l = Lockfile::new("/repo/.ash/index");
    match l.hold_for_update(LockAttempt::Exists) {
        Err(LockError::LockDenied(m)) => assert!(m.starts_with(
            "Unable to create '/repo/.ash/index.lock': File exists.\nAnother process seems to be running"
        )),
        other => panic!("unexpected {:?}", other),
    }
    match l.hold_for_update(LockAttempt::Denied) {
        Err(LockError::NoPermission(m)) => {
            assert_eq!(m, "Permission denied when creating lock file '/repo/.ash/index.lock'")
        }
        other => panic!("unexpected {:?}", other),
    }
    match l.hold_for_update(LockAttempt::DirFailed("/repo/.ash".to_string(), "boom".to_string())) {
        Err(LockError::MissingParent(m)) => assert_eq!(m, "Failed to create directory '/repo/.ash': boom"),
        other => panic!("unexpected {:?}", other),
    }
    assert!(!l.is_held());
    assert!(!l.rollback());
}

#[test]
fn lock_path_replaces_the_extension() {
    let mut l = Lockfile::new("dir/file.txt");
    match l.hold_for_update(LockAttempt::Failed("gone".to_string())) {
        Err(LockError::MissingParent(m)) => assert_eq!(m, "Failed to create lock file 'dir/file.lock': gone"),
        other => panic!("unexpected {:?}", other),
    }
}

#[test]
fn branches_sorted_by_name() {
    let v = vec![
        ("zeta".to_string(), Reference::Symbolic("refs/heads/zeta".to_string())),
        ("alpha".to_string(), Reference::Symbolic("refs/heads/alpha".to_string())),
        ("mid".to_string(), Reference::Symbolic("refs/heads/mid".to_string())),
    ];
    let names: Vec<String> = BranchCommand::sort_by_name(v).into_iter().map(|p| p.0).collect();
    assert_eq!(names, strs(&["alpha", "mid", "zeta"]));
}

#[test]
fn branch_deletion_rules() {
    let head = Reference::Symbolic("refs/heads/main".to_string());
    match BranchCommand::check_delete("topic", &head, false) {
        Err(Error::Generic(m)) => assert_eq!(m, "Branch not deleted"),
        other => panic!("unexpected {:?}", other),
    }
    match BranchCommand::check_delete("main", &head, true) {
        Err(Error::Generic(m)) => assert_eq!(m, "Cannot delete the branch 'main' which you are currently on."),
        other => panic!("unexpected {:?}", other),
    }
    assert!(BranchCommand::check_delete("topic", &head, true).is_ok());
}

#[test]
fn first_active_sprint() {
    let s = |name: &str, start: u64, days: u32| {
        (name.to_string(), SprintMetadata { name: name.to_string(), start_timestamp: start, duration_days: days })
    };
    let v = vec![s("old", 0, 1), s("now", 100_000, 2), s("later", 100_000, 5)];
    assert_eq!(BranchMetadataManager::first_active(&v, 150_000), Some(1));
    assert_eq!(BranchMetadataManager::first_active(&v, 86_400), Some(0));
    assert_eq!(BranchMetadataManager::first_active(&v, 10_000_000), None);
}

#[test]
fn completing_a_task() {
    assert_eq!(TaskCompleteCommand::task_branch("sprint-one", "7"), "sprint-one-task-7");
    assert_eq!(TaskCompleteCommand::merge_message("7", "sprint-one"), "Merge task/7 into sprint-one");
    assert!(TaskCompleteCommand::check_in_progress("7", TaskStatus::InProgress).is_ok());
    match TaskCompleteCommand::check_in_progress("7", TaskStatus::Todo) {
        Err(Error::Generic(m)) => {
            assert_eq!(m, "Task 7 is not in progress. Cannot complete a task that hasn't been started.")
        }
        other => panic!("unexpected {:?}", other),
    }
    assert_eq!(TaskCompleteCommand::branch_note("a", "a"), None);
    assert_eq!(
        TaskCompleteCommand::branch_note("main", "s-task-7"),
        Some("Note: You are not on the task branch 's-task-7'. The task will still be completed.".to_string())
    );
    let mut t = TaskMetadata::new("7".to_string(), "d".to_string(), None);
    assert!(TaskCompleteCommand::complete(&mut t, 500));
    assert_eq!(t.status, TaskStatus::Done);
    assert_eq!(t.started_at, Some(500));
    assert_eq!(t.completed_at, Some(500));
    let mut u = TaskMetadata::new("8".to_string(), "d".to_string(), None);
    u.status = TaskStatus::InProgress;
    u.started_at = Some(100);
    assert!(!TaskCompleteCommand::complete(&mut u, 4000));
    assert_eq!(u.started_at, Some(100));
    assert_eq!(u.format_duration(), "1h 5m");
}

#[test]
fn task_status_report() {
    let mut t = TaskMetadata::new("7".to_string(), "write docs".to_string(), Some(5));
    t.created_at = 0;
    t.status = TaskStatus::Done;
    t.started_at = Some(90061);
    t.completed_at = Some(90061 + 7260);
    t.commit_ids = strs(&["c1", "c2"]);
    assert_eq!(
        TaskStatusCommand::report("7", &t),
        "Task 7 Status:\n  ID: 7\n  Description: write docs\n  Story Points: 5\n  Status: Done\n  Created: 1970-01-01 00:00:00\n  Started: 1970-01-02 01:01:01\n  Completed: 1970-01-02 03:02:01\n  Commits: 2\n    1: c1\n    2: c2\n  Duration: 2h 1m\n"
    );
    match TaskStatusCommand::not_found("9") {
        Error::Generic(m) => assert_eq!(m, "Task with ID 9 not found"),
        other => panic!("unexpected {:?}", other),
    }
}

#[test]
fn starting_and_showing_sprints() {
    let m = SprintMetadata { name: "Big One".to_string(), start_timestamp: 0, duration_days: 2 };
    assert_eq!(SprintStartCommand::start_line("Big One", 2), "Starting new sprint: Big One (Duration: 2 days)");
    assert!(SprintStartCommand::check_no_active(None).is_ok());
    match SprintStartCommand::check_no_active(Some(&m)) {
        Err(Error::Generic(e)) => assert_eq!(
            e,
            "There is already an active sprint 'Big One'. Complete or cancel it before starting a new one."
        ),
        other => panic!("unexpected {:?}", other),
    }
    assert_eq!(
        SprintStartCommand::info_text(&m),
        "Sprint information:\n  Name: Big One\n  Start date: 1970-01-01 00:00\n  End date: 1970-01-03 00:00\n  Branch: sprint-big-one\n"
    );
    assert!(SprintStartCommand::keeps_existing_branch("branch 'x' already exists"));
    assert!(!SprintStartCommand::keeps_existing_branch("permission denied"));
    assert!(SprintInfoCommand::wants_switch(""));
    assert!(SprintInfoCommand::wants_switch(" YES \n"));
    assert!(SprintInfoCommand::wants_switch("y"));
    assert!(!SprintInfoCommand::wants_switch("no"));
    assert_eq!(
        SprintInfoCommand::info_text(&m, "sprint-big-one", 3, 8, 5),
        "\nActive Sprint Information:\n  Name: Big One\n  Start date: 1970-01-01 00:00\n  End date: 1970-01-03 00:00\n  Branch: sprint-big-one\n  Tasks count: 3\n  Total Story Points: 8\n  Completed Story Points: 5\n"
    );
}

fn db_entry(mode: &str, oid: &str) -> ash::repository::migration::DatabaseEntry {
    ash::repository::migration::DatabaseEntry { oid: oid.to_string(), mode: mode.to_string() }
}

fn empty_blob_entry(path: &str) -> ash::index::entry::Entry {
    let stat = FileStat { mode: FileMode::regular(), created: None, modified: None, len: 0 };
    Entry::create(path, "e69de29bb2d1d6434b8b29ae775ad8c2e48c5391", &stat, (0, 0))
}

#[test]
fn migration_plans_changes() {
    let empty = "e69de29bb2d1d6434b8b29ae775ad8c2e48c5391";
    let ins = Inspector::new(Database::new(".ash/objects".to_string()));
    let diff = vec![
        DiffEntry { path: "gone.txt".to_string(), old: Some(db_entry("100644", empty)), new: None },
        DiffEntry { path: "new.txt".to_string(), old: None, new: Some(db_entry("100644", "aaaa")) },
        DiffEntry {
            path: "kept.txt".to_string(),
            old: Some(db_entry("100644", empty)),
            new: Some(db_entry("100644", "bbbb")),
        },
    ];
    let states = vec![
        PathState { index: Some(empty_blob_entry("gone.txt")), data: Some(vec![]), item: WorkspaceItem::File },
        PathState { index: None, data: None, item: WorkspaceItem::Absent },
        PathState { index: Some(empty_blob_entry("kept.txt")), data: Some(vec![]), item: WorkspaceItem::File },
    ];
    let mut m = Migration::new(diff);
    assert!(m.plan(&ins, &vec![], &states).is_ok());
    assert!(m.errors().is_empty());
    let planned: Vec<String> = m
        .planned_changes()
        .iter()
        .map(|c| match c {
            Change::Create(p, _, o) => format!("create {} {}", p, o),
            Change::Update(p, _, o) => format!("update {} {}", p, o),
            Change::Delete(p) => format!("delete {}", p),
        })
        .collect();
    assert_eq!(planned, strs(&["delete gone.txt", "create new.txt aaaa", "update kept.txt bbbb"]));
}

#[test]
fn migration_reports_conflicts() {
    let empty = "e69de29bb2d1d6434b8b29ae775ad8c2e48c5391";
    let ins = Inspector::new(Database::new(".ash/objects".to_string()));
    let diff = vec![
        DiffEntry { path: "z.txt".to_string(), old: Some(db_entry("100644", empty)), new: Some(db_entry("100644", "bb")) },
        DiffEntry { path: "a.txt".to_string(), old: Some(db_entry("100644", empty)), new: Some(db_entry("100644", "cc")) },
        DiffEntry { path: "u.txt".to_string(), old: None, new: Some(db_entry("100644", "dd")) },
        DiffEntry { path: "d".to_string(), old: None, new: Some(db_entry("100644", "ee")) },
        DiffEntry { path: "sub".to_string(), old: None, new: Some(db_entry("040000", "ff")) },
    ];
    let states = vec![
        PathState { index: Some(empty_blob_entry("z.txt")), data: Some(b"changed".to_vec()), item: WorkspaceItem::File },
        PathState { index: Some(empty_blob_entry("a.txt")), data: None, item: WorkspaceItem::File },
        PathState { index: None, data: None, item: WorkspaceItem::File },
        PathState { index: None, data: None, item: WorkspaceItem::Directory(true) },
        PathState { index: None, data: None, item: WorkspaceItem::Directory(true) },
    ];
    let mut m = Migration::new(diff);
    match m.plan(&ins, &vec![], &states) {
        Err(Error::Generic(e)) => assert_eq!(e, "Checkout failed due to conflicts"),
        other => panic!("unexpected {:?}", other),
    }
    assert_eq!(
        m.errors().clone(),
        vec![
            "Your local changes to the following files would be overwritten by checkout:\n\ta.txt\n\tz.txt\nPlease commit your changes or stash them before you switch branches.".to_string(),
            "Updating the following directories would lose untracked files in them:\n\td\n\n".to_string(),
            "The following untracked working tree files would be overwritten by checkout:\n\tu.txt\nPlease move or remove them before you switch branches.".to_string(),
        ]
    );
    assert_eq!(m.planned_changes().len(), 1);
}

#[test]
fn uncommitted_changes_stop_a_migration() {
    let ins = Inspector::new(Database::new(".ash/objects".to_string()));
    let diff = vec![DiffEntry { path: "n".to_string(), old: None, new: Some(db_entry("100644", "aa")) }];
    let states = vec![PathState { index: None, data: None, item: WorkspaceItem::Absent }];
    let ws = vec![
        ("b.txt".to_string(), ChangeType::Modified),
        ("x".to_string(), ChangeType::Untracked),
        ("a.txt".to_string(), ChangeType::Deleted),
    ];
    let mut m = Migration::new(diff);
    assert!(m.plan(&ins, &ws, &states).is_err());
    assert_eq!(
        m.errors().clone(),
        vec!["You have uncommitted changes in your working tree:\n\ta.txt\n\tb.txt\nPlease commit your changes or stash them before you switch branches.".to_string()]
    );
    assert!(m.planned_changes().is_empty());
}

#[test]
fn medium_log_entries() {
    assert_eq!(
        LogCommand::medium(
            "0123456789abcdef",
            true,
            " (main)",
            Some(("Ann", "ann@x.org", "Mon Jan 1 2024")),
            "Title\n\nBody line",
            false
        ),
        "commit 0123456 (main)\nAuthor: Ann <ann@x.org>\nDate:   Mon Jan 1 2024\n\n    Title\n    \n    Body line\n"
    );
    assert_eq!(
        LogCommand::medium("abc", false, "", None, "m", true),
        "\x1b[33mcommit\x1b[0m abc\n\n    m\n"
    );
}

#[test]
fn references_pointing_at_commits() {
    let branches = vec![
        (Reference::Symbolic("refs/heads/main".to_string()), Some("c1".to_string())),
        (Reference::Symbolic("refs/heads/dev".to_string()), Some("c2".to_string())),
        (Reference::Symbolic("refs/heads/gone".to_string()), None),
        (Reference::Symbolic("refs/heads/topic".to_string()), Some("c1".to_string())),
    ];
    let names = |v: Vec<Reference>| -> Vec<String> {
        v.into_iter()
            .map(|r| match r {
                Reference::Symbolic(p) => p,
                Reference::Direct(o) => o,
            })
            .collect()
    };
    assert_eq!(
        names(LogCommand::refs_pointing_at("c1", Some("c1"), &branches)),
        strs(&["HEAD", "refs/heads/main", "refs/heads/topic"])
    );
    assert_eq!(names(LogCommand::refs_pointing_at("c2", Some("c1"), &branches)), strs(&["refs/heads/dev"]));
    assert!(LogCommand::refs_pointing_at("c9", None, &branches).is_empty());
}

#[test]
fn history_patches() {
    assert_eq!(
        LogCommand::path_patch("f", Some(("100644", "aaaaaaaa1")), Some(("100755", "bbbbbbbb2")), b"x\n", b"y\n", false),
        "diff --ash a/f b/f\nold mode 100644, new mode 100755\nindex aaaaaaa..bbbbbbb 100755\n--- a/f\n+++ b/f\n@@ -1,1 +1,1 @@\n-x\n+y\n"
    );
    assert_eq!(
        LogCommand::path_patch("f", Some(("100644", "aaaaaaaa1")), Some(("100644", "bbbbbbbb2")), b"x\n", b"x\n", false),
        "diff --ash a/f b/f\nindex aaaaaaa..bbbbbbb 100644\n--- a/f\n+++ b/f\n@@ -1,1 +1,1 @@\n x\n"
    );
    assert_eq!(
        LogCommand::path_patch("g", Some(("100644", "ccccccc9")), None, b"a\nb\n", b"", false),
        "diff --ash a/g b/g\nindex ccccccc..0000000\n--- a/g\n+++ /dev/null\n@@ -1,2 +0,0 @@\n-a\n-b\n"
    );
    assert_eq!(
        LogCommand::path_patch("h", None, Some(("100644", "ddddddd0")), b"", b"z", false),
        "diff --ash a/h b/h\nindex 0000000..ddddddd 100644\n--- /dev/null\n+++ b/h\n@@ -0,0 +1,1 @@\n+z\n"
    );
    assert_eq!(
        LogCommand::path_patch("h", None, Some(("100644", "ddddddd0")), b"", b"\0", false),
        "diff --ash a/h b/h\nindex 0000000..ddddddd 100644\n--- /dev/null\n+++ b/h\nBinary file b/h has been created\n"
    );
    assert_eq!(LogCommand::patch_order(&strs(&["b", "a", "B", "a/c"])), strs(&["B", "a", "a/c", "b"]));
}

fn repo_state() -> ash::revision::RepoState {
    let obj = |oid: &str, kind: &str, parent: Option<&str>, summary: Option<&str>| ObjectInfo {
        oid: oid.to_string(),
        kind: kind.to_string(),
        parent: parent.map(|p| p.to_string()),
        summary: summary.map(|s| s.to_string()),
    };
    let c0 = "abc0000000000000000000000000000000000000";
    let c1 = "abc1111111111111111111111111111111111111";
    let t1 = "def2222222222222222222222222222222222222";
    RepoState {
        head: Some(c1.to_string()),
        branches: vec![("main".to_string(), c1.to_string()), ("tree".to_string(), t1.to_string())],
        objects: vec![
            obj(c0, "commit", None, Some("2024-01-01 - first")),
            obj(c1, "commit", Some(c0), Some("2024-01-02 - second")),
            obj(t1, "tree", None, None),
        ],
    }
}

#[test]
fn revisions_resolve_through_parents() {
    let st = repo_state();
    let c0 = "abc0000000000000000000000000000000000000";
    let c1 = "abc1111111111111111111111111111111111111";
    assert_eq!(Revision::new("main").resolve(&st, "commit").unwrap(), c1);
    assert_eq!(Revision::new("HEAD^").resolve(&st, "commit").unwrap(), c0);
    assert_eq!(Revision::new("@~1").resolve(&st, "commit").unwrap(), c0);
    assert_eq!(Revision::new("main~0").resolve(&st, "commit").unwrap(), c1);
    assert_eq!(Revision::new("abc1").resolve(&st, "commit").unwrap(), c1);
    assert_eq!(Revision::new("main..HEAD^").resolve(&st, "commit").unwrap(), c0);
    match Revision::new("main~2").resolve(&st, "commit") {
        Err(Error::Generic(m)) => assert_eq!(m, "Not a valid object name: 'main~2'"),
        other => panic!("unexpected {:?}", other),
    }
}

#[test]
fn revision_errors_are_recorded() {
    let st = repo_state();
    let mut r = Revision::new("abc");
    match r.resolve(&st, "commit") {
        Err(Error::Generic(m)) => assert_eq!(m, "Not a valid object name: 'abc'"),
        other => panic!("unexpected {:?}", other),
    }
    assert_eq!(r.errors.len(), 1);
    assert_eq!(r.errors[0].message, "short SHA1 abc is ambiguous");
    assert_eq!(
        r.errors[0].hint,
        strs(&["The candidates are:", "abc0000 commit 2024-01-01 - first", "abc1111 commit 2024-01-02 - second"])
    );
    let mut t = Revision::new("tree");
    assert!(t.resolve(&st, "commit").is_err());
    assert_eq!(t.errors[0].message, "object def2222222222222222222222222222222222222 is a tree, not a commit");
    let mut u = Revision::new("tree^");
    assert!(u.resolve(&st, "commit").is_err());
    assert_eq!(u.errors[0].message, "object def2222222222222222222222222222222222222 is a tree, not a commit");
    match Revision::new("bad.lock").resolve(&st, "commit") {
        Err(Error::Generic(m)) => assert_eq!(m, "Not a valid object name: 'bad.lock'"),
        other => panic!("unexpected {:?}", other),
    }
    let mut gone = repo_state();
    gone.branches.push(("lost".to_string(), "ff00000000000000000000000000000000000000".to_string()));
    match Revision::new("lost").resolve(&gone, "commit") {
        Err(Error::Generic(m)) => assert_eq!(m, "Object not found: ff00000000000000000000000000000000000000"),
        other => panic!("unexpected {:?}", other),
    }
}

#[test]
fn revision_start_points() {
    assert_eq!(
        RevList::start_points("a..b"),
        vec![("a".to_string(), false), ("b".to_string(), true)]
    );
    assert_eq!(
        RevList::start_points("..b"),
        vec![("HEAD".to_string(), false), ("b".to_string(), true)]
    );
    assert_eq!(
        RevList::start_points("a.."),
        vec![("a".to_string(), false), ("HEAD".to_string(), true)]
    );
    assert_eq!(RevList::start_points("^x"), vec![("x".to_string(), false)]);
    assert_eq!(RevList::start_points("main"), vec![("main".to_string(), true)]);
    assert_eq!(RevList::placeholder_oid("HEAD"), "HEAD_COMMIT_OID");
    assert_eq!(RevList::placeholder_oid("main"), "main_RESOLVED");
    let (p, r) = RevList::split_arguments(&strs(&["src", "main", "docs"]), &vec![true, false, true]);
    assert_eq!(p, strs(&["src", "docs"]));
    assert_eq!(r, strs(&["main"]));
    let (p2, r2) = RevList::split_arguments(&strs(&["src"]), &vec![true]);
    assert_eq!(p2, strs(&["src"]));
    assert_eq!(r2, strs(&["HEAD"]));
}

#[test]
fn todo_file_and_abort_checks() {
    let entries = vec![
        (Action::Pick, "abc1234".to_string(), "First".to_string()),
        (Action::Revert, "def5678".to_string(), "Second".to_string()),
    ];
    assert_eq!(format_todo(&entries), "pick abc1234 First\nrevert def5678 Second\n");
    assert!(check_abort("abc", Some("abc")).is_ok());
    assert!(check_abort("", None).is_ok());
    match check_abort("abc", None) {
        Err(Error::Generic(m)) => assert_eq!(m, "Cannot abort: Working directory has been modified since last command"),
        other => panic!("unexpected {:?}", other),
    }
}

fn de(oid: &str, mode: &str) -> Option<ash::repository::migration::DatabaseEntry> {
    Some(db_entry(mode, oid).clone())
}

#[test]
fn merge_resolution_clean_when_sides_agree() {
    let db = Database::new(".ash/objects".to_string());
    let a = "1111111111111111111111111111111111111111";
    let b = "2222222222222222222222222222222222222222";
    let ld = vec![DiffEntry { path: "f".to_string(), old: de(a, "100644"), new: de(b, "100644") }];
    let rd = vec![DiffEntry { path: "f".to_string(), old: de(a, "100644"), new: de(b, "100644") }];
    let mut r = Resolve::new(ld, rd, "main", "topic");
    assert!(r.execute(&db, &vec![]).is_ok());
    let (paths, changes) = r.clean_changes();
    assert_eq!(paths, &strs(&["f"]));
    assert_eq!(changes[0].1.as_ref().unwrap().oid, b);
    assert!(r.conflicts().0.is_empty());
    assert!(r.messages().is_empty());
}

#[test]
fn merge_resolution_one_sided_change_conflicts() {
    let db = Database::new(".ash/objects".to_string());
    let a = "1111111111111111111111111111111111111111";
    let b = "2222222222222222222222222222222222222222";
    let rd = vec![DiffEntry { path: "a.txt".to_string(), old: de(a, "100644"), new: de(b, "100644") }];
    let blobs = vec![(a.to_string(), b"one\n".to_vec()), (b.to_string(), b"two\n".to_vec())];
    let mut r = Resolve::new(vec![], rd, "main", "topic");
    match r.execute(&db, &blobs) {
        Err(Error::Generic(m)) => assert_eq!(m, "Automatic merge failed; fix conflicts and then commit the result."),
        other => panic!("unexpected {:?}", other),
    }
    assert_eq!(r.conflicts().0, &strs(&["a.txt"]));
    assert_eq!(
        r.messages(),
        &strs(&["CONFLICT (modify/delete): a.txt deleted in main and modified in topic. Version topic of a.txt left in tree."])
    );
}

#[test]
fn merge_resolution_missing_blob() {
    let db = Database::new(".ash/objects".to_string());
    let a = "1111111111111111111111111111111111111111";
    let b = "2222222222222222222222222222222222222222";
    let c = "3333333333333333333333333333333333333333";
    let ld = vec![DiffEntry { path: "f".to_string(), old: de(a, "100644"), new: de(b, "100644") }];
    let rd = vec![DiffEntry { path: "f".to_string(), old: de(a, "100644"), new: de(c, "100644") }];
    let mut r = Resolve::new(ld, rd, "main", "topic");
    match r.execute(&db, &vec![]) {
        Err(Error::Generic(m)) => assert_eq!(m, format!("Object not found: {}", a)),
        other => panic!("unexpected {:?}", other),
    }
}

#[test]
fn merge_resolution_content_merge() {
    let db = Database::new(".ash/objects".to_string());
    let a = "1111111111111111111111111111111111111111";
    let b = "2222222222222222222222222222222222222222";
    let c = "3333333333333333333333333333333333333333";
    let ld = vec![DiffEntry { path: "f".to_string(), old: de(a, "100644"), new: de(b, "100644") }];
    let rd = vec![DiffEntry { path: "f".to_string(), old: de(a, "100644"), new: de(c, "100644") }];
    let blobs = vec![
        (a.to_string(), b"x\n".to_vec()),
        (b.to_string(), b"y\n".to_vec()),
        (c.to_string(), b"z\n".to_vec()),
    ];
    let mut r = Resolve::new(ld, rd, "main", "topic");
    assert!(r.execute(&db, &blobs).is_err());
    let merged = ash::merge::diff3::merge("x\n", "y\n", "z\n").unwrap().to_string(Some("main"), Some("topic"));
    let expected_oid = db.hash_file_data(merged.as_bytes());
    let (paths, changes) = r.clean_changes();
    assert_eq!(paths, &strs(&["f"]));
    assert_eq!(changes[0].1.as_ref().unwrap().oid, expected_oid);
    assert_eq!(r.messages(), &strs(&["Auto-merging f", "CONFLICT (content): Merge conflict in f"]));
}

#[test]
fn merge_resolution_file_directory_conflicts() {
    let db = Database::new(".ash/objects".to_string());
    let f = "4444444444444444444444444444444444444444";
    let t = "5555555555555555555555555555555555555555";
    let ld = vec![DiffEntry { path: "d".to_string(), old: None, new: de(t, "040000") }];
    let rd = vec![DiffEntry { path: "d".to_string(), old: None, new: de(f, "100644") }];
    let mut r = Resolve::new(ld, rd, "main", "topic");
    assert!(r.execute(&db, &vec![]).is_err());
    assert_eq!(r.conflicts().0, &strs(&["d"]));
    assert_eq!(r.untracked().0, &strs(&["d~topic"]));
    assert_eq!(
        r.messages(),
        &strs(&[
            "CONFLICT (file/directory): 'd' is a file in branch 'topic' and a directory in the other.",
            "  Renaming file version to d~topic to avoid data loss."
        ])
    );
}

#[test]
fn merge_resolution_parent_directory_conflicts() {
    let db = Database::new(".ash/objects".to_string());
    let f = "4444444444444444444444444444444444444444";
    let g = "6666666666666666666666666666666666666666";
    let ld = vec![DiffEntry { path: "x/y.txt".to_string(), old: None, new: de(g, "100644") }];
    let rd = vec![DiffEntry { path: "x".to_string(), old: None, new: de(f, "100644") }];
    let mut r = Resolve::new(ld, rd, "main", "topic");
    assert!(r.execute(&db, &vec![]).is_err());
    assert_eq!(r.conflicts().0, &strs(&["x"]));
    assert_eq!(r.clean_changes().0, &strs(&["x/y.txt"]));
    assert_eq!(r.untracked().0, &strs(&["x~topic"]));
    assert_eq!(
        r.messages(),
        &strs(&[
            "CONFLICT (directory/file): Path conflict between directory 'x' needed for 'x/y.txt' and file 'x' in branch 'topic'",
            "Adding conflicting file x as x~topic"
        ])
    );
}

#[test]
fn editor_choice() {
    assert_eq!(MergeToolCommand::base_command("  code --wait file"), "code");
    assert_eq!(MergeToolCommand::base_command("vim"), "vim");
    assert_eq!(MergeToolCommand::requested_editor(None, None, Some("nano"), Some("vi")), Some("nano"));
    assert_eq!(MergeToolCommand::requested_editor(Some("x"), Some("y"), None, None), Some("x"));
    assert_eq!(MergeToolCommand::requested_editor(None, None, None, None), None);
    assert_eq!(MergeToolCommand::check_tool_available("ed", true).unwrap(), "ed");
    match MergeToolCommand::check_tool_available("zed", false) {
        Err(Error::Generic(m)) => assert_eq!(m, "Specified editor 'zed' not found in PATH"),
        other => panic!("unexpected {:?}", other),
    }
    assert_eq!(MergeToolCommand::fallback_editor(&vec![false, true, true, false]), "nano");
    assert_eq!(MergeToolCommand::fallback_editor(&vec![false, false, false, false]), "vi");
}

#[test]
fn pager_choice_and_writes() {
    let off = Pager::new(None, false, Some("most"), None, &vec![true, true, true, true]);
    assert_eq!(off.write_action(), PagerWrite::Skip);
    assert_eq!(off.start_parts().unwrap(), strs(&["cat"]));
    let mut p = Pager::new(Some("1"), false, None, None, &vec![true, false, false, false]);
    assert_eq!(p.start_parts().unwrap(), strs(&["less", "-FRX"]));
    assert_eq!(p.write_action(), PagerWrite::Print);
    p.started(true);
    assert_eq!(p.write_action(), PagerWrite::Send);
    p.broken_pipe();
    assert!(p.exited_early());
    assert_eq!(p.write_action(), PagerWrite::Skip);
    assert!(!p.close());
    let q = Pager::new(None, true, None, Some("  "), &vec![false; 4]);
    match q.start_parts() {
        Err(Error::Generic(m)) => assert_eq!(m, "Invalid pager command"),
        other => panic!("unexpected {:?}", other),
    }
    let r = Pager::new(None, true, None, None, &vec![false, false, true, true]);
    assert_eq!(r.start_parts().unwrap(), strs(&["cat"]));
    let mut s = Pager::new(None, true, Some("more -s"), None, &vec![false; 4]);
    assert_eq!(s.start_parts().unwrap(), strs(&["more", "-s"]));
    s.started(true);
    assert!(s.close());
    let mut t = Pager::new(None, true, None, None, &vec![false; 4]);
    t.started(false);
    assert_eq!(t.write_action(), PagerWrite::Skip);
}

#[test]
fn sprint_ending_last_second_is_active() {
    let m = SprintMetadata { name: "Forever".to_string(), start_timestamp: u64::MAX, duration_days: 0 };
    assert!(m.is_active());
    let old = SprintMetadata { name: "Old".to_string(), start_timestamp: 0, duration_days: 0 };
    assert!(!old.is_active());
}
