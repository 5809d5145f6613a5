use ash::metadata::commit::CommitMetadataManager;
use ash::metadata::commit::TaskMetadata;
use ash::commands::commit_writer::CommitWriter;
use ash::workspace::EntryStep;
use ash::workspace::Workspace;
use ash::database::objects::GitObject;
use ash::commands::add::AddCommand;
use ash::commands::commit::{CommitCommand, CommitStep};
use ash::commands::merge::{MergeCommand, MergePlan};
use ash::commands::merge_tool::{MergeToolCommand, ResolutionAction, ResolutionChoice};
use ash::commands::task::{CompleteAction, CompleteEvent, CompleteState, TaskCompleteCommand};
use ash::error::Error;
use ash::metadata::branch::{BranchMetadataManager, SprintMetadata};
use ash::metadata::commit::TaskStatus;
use ash::refs::{Reference, Refs};
use ash::repository::pending_commit::PendingCommitType;
use ash::validators::{PathKind, PathValidator};

fn pairs(v: &[(&str, &str)]) -> Vec<(String, String)> {
    v.iter().map(|(a, b)| (a.to_string(), b.to_string())).collect()
}

fn strings(v: &[&str]) -> Vec<String> {
    v.iter().map(|s| s.to_string()).collect()
}

fn generic(r: Result<(CompleteState, CompleteAction), Error>) -> String {
    match r {
        Err(Error::Generic(m)) => m,
        _ => panic!("expected an error"),
    }
}

#[test]
fn add_outcome_counts_new_modified_deleted_and_unchanged() {
    let index = pairs(&[("a.txt", "111"), ("b.txt", "222"), ("gone.txt", "333")]);
    let to_delete = strings(&["gone.txt", "never.txt"]);
    let found = pairs(&[("a.txt", "111"), ("b.txt", "999"), ("c.txt", "444")]);
    let head = pairs(&[("a.txt", "111"), ("b.txt", "222"), ("gone.txt", "333")]);
    let r = AddCommand::add_outcome(&index, &to_delete, &found, &head);
    assert_eq!(r.removed, strings(&["gone.txt"]));
    assert_eq!(r.staged, pairs(&[("b.txt", "999"), ("c.txt", "444")]));
    assert_eq!(r.unchanged, 1);
    assert_eq!(
        r.summary,
        "1 new file and 1 modified file and 1 deleted file added to index, 1 file unchanged"
    );
}

#[test]
fn add_outcome_plural_counts() {
    let index = pairs(&[]);
    let found = pairs(&[("a", "1"), ("b", "2")]);
    let r = AddCommand::add_outcome(&index, &Vec::new(), &found, &pairs(&[]));
    assert_eq!(r.summary, "2 new files added to index");
    assert_eq!(r.staged.len(), 2);
}

#[test]
fn add_outcome_only_counts_files_when_nothing_is_named() {
    // Staged again with a new id but the same as HEAD: neither new nor modified.
    let index = pairs(&[("a", "1")]);
    let found = pairs(&[("a", "2")]);
    let head = pairs(&[("a", "2")]);
    let r = AddCommand::add_outcome(&index, &Vec::new(), &found, &head);
    assert_eq!(r.summary, "1 file added to index");
}

#[test]
fn add_outcome_when_nothing_changed() {
    let index = pairs(&[("a", "1"), ("b", "2")]);
    let found = pairs(&[("a", "1"), ("b", "2")]);
    let r = AddCommand::add_outcome(&index, &Vec::new(), &found, &index);
    assert!(r.staged.is_empty() && r.removed.is_empty());
    assert_eq!(r.summary, "No files changed, 2 files already up to date");
    let r = AddCommand::add_outcome(&index, &Vec::new(), &Vec::new(), &index);
    assert_eq!(r.summary, "No changes were made to the index");
}

#[test]
fn task_completion_walks_through_its_steps() {
    let sm = SprintMetadata { name: "Big Push".to_string(), start_timestamp: 0, duration_days: 14 };
    let (s, a) = TaskCompleteCommand::complete_step("7", true, CompleteState::Start, CompleteEvent::ActiveSprint(Some(sm))).unwrap();
    match a {
        CompleteAction::LoadSprintTask(b) => assert_eq!(b, "sprint-big-push"),
        _ => panic!("expected the sprint's tasks to be loaded"),
    }
    let (s, a) = TaskCompleteCommand::complete_step("7", true, s, CompleteEvent::SprintTask(None)).unwrap();
    assert!(matches!(a, CompleteAction::LoadTaskRecord));
    let (s, a) = TaskCompleteCommand::complete_step("7", true, s, CompleteEvent::TaskRecord(Some(TaskStatus::InProgress))).unwrap();
    assert!(matches!(a, CompleteAction::ReadCurrentBranch));
    let (s, a) = TaskCompleteCommand::complete_step("7", true, s, CompleteEvent::CurrentBranch("main".to_string())).unwrap();
    match a {
        CompleteAction::Record(Some(n)) => assert_eq!(
            n,
            "Note: You are not on the task branch 'sprint-big-push-task-7'. The task will still be completed."
        ),
        _ => panic!("expected a note"),
    }
    let (s, a) = TaskCompleteCommand::complete_step("7", true, s, CompleteEvent::Recorded).unwrap();
    match a {
        CompleteAction::Checkout(b) => assert_eq!(b, "sprint-big-push"),
        _ => panic!("expected a checkout"),
    }
    let (s, a) = TaskCompleteCommand::complete_step("7", true, s, CompleteEvent::CheckedOut).unwrap();
    match a {
        CompleteAction::Merge(b, m) => {
            assert_eq!(b, "sprint-big-push-task-7");
            assert_eq!(m, "Merge task/7 into sprint-big-push");
        },
        _ => panic!("expected a merge"),
    }
    let (s, a) = TaskCompleteCommand::complete_step("7", true, s, CompleteEvent::Merged).unwrap();
    assert!(matches!(s, CompleteState::Finished));
    match a {
        CompleteAction::Done(t) => assert_eq!(t, "Successfully merged task branch into sprint branch"),
        _ => panic!("expected the end"),
    }
}

#[test]
fn task_completion_without_merge_gives_the_hint() {
    let s = CompleteState::Switching("sprint-x".to_string());
    let (s, a) = TaskCompleteCommand::complete_step("3", false, s, CompleteEvent::CheckedOut).unwrap();
    assert!(matches!(s, CompleteState::Finished));
    match a {
        CompleteAction::Done(t) => assert_eq!(
            t,
            "Task branch was not automatically merged.\nTo merge the task branch manually:\n  ash merge sprint-x-task-3"
        ),
        _ => panic!("expected the hint"),
    }
    let s = CompleteState::TaskReady("sprint-x".to_string());
    let (_, a) = TaskCompleteCommand::complete_step("3", false, s, CompleteEvent::CurrentBranch("sprint-x-task-3".to_string())).unwrap();
    assert!(matches!(a, CompleteAction::Record(None)));
}

#[test]
fn task_completion_errors() {
    assert_eq!(
        generic(TaskCompleteCommand::complete_step("1", false, CompleteState::Start, CompleteEvent::ActiveSprint(None))),
        "No active sprint found. Start a sprint first with 'ash sprint start'."
    );
    let s = CompleteState::SprintFound("sprint-x".to_string());
    assert_eq!(
        generic(TaskCompleteCommand::complete_step("1", false, s, CompleteEvent::SprintTask(Some(TaskStatus::Todo)))),
        "Task 1 is not in progress. Cannot complete a task that hasn't been started."
    );
    let s = CompleteState::RecordLookup("sprint-x".to_string());
    assert_eq!(
        generic(TaskCompleteCommand::complete_step("1", false, s, CompleteEvent::TaskRecord(None))),
        "Task with ID 1 not found in current sprint"
    );
}

#[test]
fn directory_files_and_conflicts() {
    let base = pairs(&[("d/a", "1")]);
    let ours = pairs(&[("d/a", "2"), ("d/b", "5")]);
    let theirs = pairs(&[("d/a", "3"), ("d/c", "6")]);
    let files = MergeToolCommand::directory_files(&base, &ours, &theirs);
    let paths: Vec<&str> = files.iter().map(|f| f.path.as_str()).collect();
    assert_eq!(paths, vec!["d/a", "d/b", "d/c"]);
    assert_eq!(files[0].base_oid, Some("1".to_string()));
    assert_eq!(files[0].ours_oid, Some("2".to_string()));
    assert_eq!(files[0].theirs_oid, Some("3".to_string()));
    assert_eq!(files[1].theirs_oid, None);
    assert_eq!(files[2].base_oid, None);
    let conflicts = MergeToolCommand::directory_conflicts(&files, &vec![false, false, false], &vec![false, true, false]);
    let paths: Vec<&str> = conflicts.iter().map(|f| f.path.as_str()).collect();
    assert_eq!(paths, vec!["d/a", "d/c"]);
}

#[test]
fn resolution_steps() {
    match MergeToolCommand::resolution_step(ResolutionChoice::Ours, Some("abc"), None, None) {
        Ok(ResolutionAction::TakeObject(o)) => assert_eq!(o, "abc"),
        _ => panic!("expected our object"),
    }
    let marked = b"<<<<<<< OURS\nmine\n=======\ntheirs\n>>>>>>> THEIRS\n";
    match MergeToolCommand::resolution_step(ResolutionChoice::Ours, None, None, Some(marked)) {
        Ok(ResolutionAction::TakeText(t)) => assert_eq!(t, "mine"),
        _ => panic!("expected our text"),
    }
    assert!(matches!(
        MergeToolCommand::resolution_step(ResolutionChoice::Ours, None, None, Some(b"plain")),
        Ok(ResolutionAction::TakeFile)
    ));
    assert!(matches!(
        MergeToolCommand::resolution_step(ResolutionChoice::Theirs, Some("a"), None, None),
        Ok(ResolutionAction::Unresolved)
    ));
    assert!(matches!(MergeToolCommand::resolution_step(ResolutionChoice::Editor, None, None, None), Ok(ResolutionAction::Edit)));
    match MergeToolCommand::resolution_step(ResolutionChoice::Quit, None, None, None) {
        Err(Error::Generic(m)) => assert_eq!(m, "User quit resolution process"),
        _ => panic!("expected the quit error"),
    }
    assert!(matches!(MergeToolCommand::after_edit(false, false, None), ResolutionAction::TakeFile));
    assert!(matches!(MergeToolCommand::after_edit(true, true, None), ResolutionAction::Unresolved));
    assert!(matches!(MergeToolCommand::after_edit(true, false, Some(b"clean\n")), ResolutionAction::TakeFile));
    assert!(matches!(MergeToolCommand::after_edit(true, false, Some(marked)), ResolutionAction::Unresolved));
    assert!(MergeToolCommand::directory_resolved(&vec![true, true]));
    assert!(!MergeToolCommand::directory_resolved(&vec![true, false]));
    assert!(!MergeToolCommand::directory_resolved(&vec![]));
}

#[test]
fn merge_plans() {
    let h = "1111";
    let o = "2222";
    assert_eq!(MergeCommand::merge_plan(false, Some(h), o, &strings(&[o])).unwrap(), MergePlan::AlreadyUpToDate);
    assert_eq!(MergeCommand::merge_plan(false, Some(h), o, &strings(&[h])).unwrap(), MergePlan::FastForward);
    assert_eq!(MergeCommand::merge_plan(false, Some(h), o, &strings(&["3333"])).unwrap(), MergePlan::ThreeWay);
    match MergeCommand::merge_plan(true, Some(h), o, &Vec::new()) {
        Err(Error::Generic(m)) => assert_eq!(m, "Cannot merge with conflicts. Fix conflicts and commit first."),
        _ => panic!("expected the conflict error"),
    }
    match MergeCommand::merge_plan(false, None, o, &Vec::new()) {
        Err(Error::Generic(m)) => assert_eq!(m, "No HEAD commit found. Create an initial commit first."),
        _ => panic!("expected the missing HEAD error"),
    }
    assert_eq!(
        MergeCommand::author_identity(None, Some("me@x.org")),
        ("Default Author".to_string(), "me@x.org".to_string())
    );
}

#[test]
fn commit_plans() {
    match CommitCommand::commit_plan(false, None, false, "m", None, false) {
        Err(Error::Generic(m)) => assert_eq!(m, "No changes staged for commit. Use 'ash add' to add files."),
        _ => panic!("expected the empty index error"),
    }
    assert!(matches!(
        CommitCommand::commit_plan(true, Some(PendingCommitType::Merge), true, "m", None, false),
        Ok(CommitStep::ResumePending(PendingCommitType::Merge))
    ));
    assert!(matches!(CommitCommand::commit_plan(true, None, true, "m", None, false), Ok(CommitStep::Amend)));
    match CommitCommand::commit_plan(true, None, false, "fix", None, false) {
        Ok(CommitStep::Write(m)) => assert_eq!(m, "fix"),
        _ => panic!("expected the message to be written"),
    }
    match CommitCommand::commit_plan(true, None, false, "   ", None, false) {
        Err(Error::Generic(m)) => assert_eq!(m, "Aborting commit due to empty commit message"),
        _ => panic!("expected the empty message error"),
    }
    match CommitCommand::commit_plan(true, None, false, "", Some("HEAD~1"), false) {
        Ok(CommitStep::ReadReused(r)) => assert_eq!(r, "HEAD~1"),
        _ => panic!("expected the revision to be read"),
    }
    assert!(matches!(CommitCommand::commit_plan(true, None, false, "", None, false), Ok(CommitStep::Edit(None))));
    match CommitCommand::after_reuse("HEAD~1", None, false) {
        Err(Error::Generic(m)) => assert_eq!(m, "Could not get message for revision: HEAD~1"),
        _ => panic!("expected the missing message error"),
    }
    match CommitCommand::after_reuse("HEAD~1", Some("old"), true) {
        Ok(CommitStep::Edit(Some(m))) => assert_eq!(m, "old"),
        _ => panic!("expected an edit"),
    }
    match CommitCommand::after_edit(Some("edited")) {
        Ok(CommitStep::Write(m)) => assert_eq!(m, "edited"),
        _ => panic!("expected the edited message"),
    }
    assert!(matches!(CommitCommand::after_edit(None), Err(Error::Generic(_))));
}

#[test]
fn detached_head_is_no_branch() {
    let m = BranchMetadataManager::new(".");
    assert_eq!(m.get_current_branch(&Reference::Symbolic("refs/heads/feature".to_string())).unwrap(), "feature");
    match m.get_current_branch(&Reference::Direct("e69de29bb2d1d6434b8b29ae775ad8c2e48c5391".to_string())) {
        Err(Error::Generic(e)) => assert_eq!(e, "HEAD is in a detached state"),
        _ => panic!("expected the detached error"),
    }
}

#[test]
fn init_in_a_new_directory_of_the_current_one() {
    assert!(PathValidator::validate_for_init("newdir", PathKind::Missing, Some(("", PathKind::Missing))).is_ok());
    assert!(PathValidator::validate_for_init("newdir", PathKind::Missing, None).is_ok());
}

#[test]
fn branch_refused_while_its_lock_is_held() {
    let mut r = Refs::new(
        ".ash",
        vec![
            ("HEAD".to_string(), "ref: refs/heads/main\n".to_string()),
            ("refs/heads/main".to_string(), "e69de29bb2d1d6434b8b29ae775ad8c2e48c5391\n".to_string()),
            ("refs/heads/topic.lock".to_string(), String::new()),
        ],
    );
    let before = r.files.clone();
    match r.create_branch("topic", "ce013625030ba8dba906f756967f9e9ca394464a") {
        Err(Error::Generic(m)) => assert_eq!(
            m,
            format!(
                "Lock error: LockDenied({:?})",
                "Unable to create '.ash/refs/heads/topic.lock': File exists.\nAnother process seems to be running in this repository.\nIf it still fails, a process may have crashed in this repository earlier:\nremove the file manually to continue."
            )
        ),
        _ => panic!("expected the lock error"),
    }
    assert_eq!(r.files, before);
}

#[test]
fn identical_sides_merge_cleanly() {
    let r = ash::merge::diff3::merge("a\nb\nc\n", "a\nx\nc\ny\n", "a\nx\nc\ny\n").unwrap();
    assert!(r.is_clean());
    assert_eq!(r.to_string(None, None), "a\nx\nc\ny\n");
}

#[test]
fn diff_script_names_each_line_once_in_order() {
    let a = strings(&["p", "q", "r", "s"]);
    let b = strings(&["q", "x", "s", "p"]);
    let e = ash::diff::myers::diff_lines(&a, &b);
    let mut old = Vec::new();
    let mut new = Vec::new();
    for ed in &e {
        match ed {
            ash::diff::myers::Edit::Delete(i) => old.push(*i),
            ash::diff::myers::Edit::Insert(j) => new.push(*j),
            ash::diff::myers::Edit::Equal(i, j) => {
                assert_eq!(a[*i], b[*j]);
                old.push(*i);
                new.push(*j);
            }
        }
    }
    assert_eq!(old, vec![0, 1, 2, 3]);
    assert_eq!(new, vec![0, 1, 2, 3]);
}

#[test]
fn entry_with_long_path_fills_whole_blocks() {
    let stat = ash::index::entry::FileStat {
        mode: ash::file_mode::FileMode::regular(),
        created: None,
        modified: None,
        len: 0,
    };
    for path in ["a", "ab", "abcdefghijklmnopq", "dir/sub/file.txt"] {
        let e = ash::index::entry::Entry::create(path, "e69de29bb2d1d6434b8b29ae775ad8c2e48c5391", &stat, (0, 0));
        assert_eq!(e.to_bytes().len() % 8, 0);
    }
}

#[test]
fn resolved_ids_start_with_the_abbreviation() {
    let d = ash::database::database::Database::new(".ash/objects".to_string());
    let names = strings(&["9de29bb2d1d6434b8b29ae775ad8c2e48c5391", "ffffffffffffffffffffffffffffffffffffff"]);
    let full = d.resolve_oid("e69de", false, &names).unwrap();
    assert!(full.starts_with("e69de"));
}

#[test]
fn at_sign_reads_as_head() {
    let r = Refs::new(
        ".ash",
        vec![
            ("HEAD".to_string(), "ref: refs/heads/main\n".to_string()),
            ("refs/heads/main".to_string(), "e69de29bb2d1d6434b8b29ae775ad8c2e48c5391\n".to_string()),
        ],
    );
    assert_eq!(r.read_ref("@"), r.read_ref("HEAD"));
    assert_eq!(r.read_ref("@"), r.read_head());
    match r.current_ref().unwrap() {
        Reference::Symbolic(p) => assert_eq!(p, "refs/heads/main"),
        _ => panic!("expected a symbolic reference"),
    }
    let detached = Refs::new(".ash", vec![("HEAD".to_string(), "  abc \n".to_string())]);
    match detached.current_ref().unwrap() {
        Reference::Direct(o) => assert_eq!(o, "abc"),
        _ => panic!("expected an id"),
    }
    let empty = Refs::new(".ash", vec![]);
    match empty.current_ref().unwrap() {
        Reference::Direct(o) => assert_eq!(o, ""),
        _ => panic!("expected an empty id"),
    }
}

fn lock_message(lock: &str) -> String {
    format!(
        "Lock error: LockDenied({:?})",
        format!(
            "Unable to create '{}': File exists.\nAnother process seems to be running in this repository.\nIf it still fails, a process may have crashed in this repository earlier:\nremove the file manually to continue.",
            lock
        )
    )
}

#[test]
fn reference_writes_refused_while_locked() {
    let files = vec![
        ("HEAD".to_string(), "ref: refs/heads/main\n".to_string()),
        ("refs/heads/main".to_string(), "e69de29bb2d1d6434b8b29ae775ad8c2e48c5391\n".to_string()),
        ("refs/heads/main.lock".to_string(), String::new()),
        ("refs/meta/x.lock".to_string(), String::new()),
    ];
    let mut r = Refs::new(".ash", files.clone());
    match r.update_head("ce013625030ba8dba906f756967f9e9ca394464a") {
        Err(Error::Generic(m)) => assert_eq!(m, lock_message(".ash/refs/heads/main.lock")),
        _ => panic!("expected the lock error"),
    }
    match r.update_ref("meta/x", "ce013625030ba8dba906f756967f9e9ca394464a") {
        Err(Error::Generic(m)) => assert_eq!(m, lock_message(".ash/refs/meta/x.lock")),
        _ => panic!("expected the lock error"),
    }
    assert_eq!(r.files, files);
    r.update_ref("meta/y", "ce013625030ba8dba906f756967f9e9ca394464a").unwrap();
    let mut h = Refs::new(".ash", vec![("HEAD.lock".to_string(), String::new())]);
    match h.set_head("main", "ce013625030ba8dba906f756967f9e9ca394464a") {
        Err(Error::Generic(m)) => assert_eq!(m, lock_message(".ash/HEAD.lock")),
        _ => panic!("expected the lock error"),
    }
}

#[test]
fn dates_follow_the_gregorian_calendar() {
    assert_eq!(SprintMetadata::format_date(68169600), "1972-02-29 00:00");
    assert_eq!(SprintMetadata::format_date(951782400 + 3600 * 13 + 60 * 7), "2000-02-29 13:07");
    assert_eq!(SprintMetadata::format_date(31535999), "1970-12-31 23:59");
}

#[test]
fn checksum_of_the_index_bytes() {
    let mut c = ash::index::checksum::Checksum::new();
    c.update(b"hello ");
    c.update(b"world");
    let d = c.finalize();
    assert_eq!(d.len(), ash::index::checksum::CHECKSUM_SIZE);
    assert_eq!(hex::encode(&d), "2aae6c35c94fcfb415dbe95f408b9ce91ee846ed");
    assert!(c.verify(&d));
    let mut wrong = d.clone();
    wrong[0] ^= 1;
    assert!(!c.verify(&wrong));
    assert!(!c.verify(&d[..19]));
}

#[test]
fn default_metadata_is_an_empty_file() {
    let m = ash::file_stat::default_metadata();
    assert_eq!(m.size, 0);
    assert!(m.is_file && !m.is_dir);
    let n = <ash::file_stat::DefaultMetadata as Default>::default();
    assert_eq!(n.size, 0);
}

#[test]
fn compressing_always_succeeds_and_reads_back() {
    let d = ash::database::database::Database::new(".ash/objects".to_string());
    let data = b"blob 5\0hello".to_vec();
    let z = d.compress_object(&data).unwrap();
    match d.decode_object("abc", &z).unwrap() {
        ash::database::database::LoadedObject::Blob(b) => assert_eq!(b.to_bytes(), b"hello".to_vec()),
        _ => panic!("expected a blob"),
    }
}

#[test]
fn identical_line_lists_merge_cleanly() {
    let o = strings(&["a\n", "b\n"]);
    let a = strings(&["x\n", "b\n", "y\n"]);
    let r = ash::merge::diff3::Diff3::new(o, a.clone(), a.clone()).merge().unwrap();
    assert!(r.is_clean());
    assert_eq!(r.to_string(None, None), a.concat());
}

#[test]
fn markers_reduce_to_the_bare_four() {
    assert!(!MergeToolCommand::content_resolved(b"a\n||||||| BASE\nb\n"));
    assert!(!MergeToolCommand::content_resolved(b"x >>>>>>> y"));
    assert!(MergeToolCommand::content_resolved(b"<<<<<< six only\n"));
    let t = MergeToolCommand::conflict_markup("a\n", "b\n").unwrap();
    assert!(!MergeToolCommand::content_resolved(t.as_bytes()));
}

fn parent_in<'a>(history: &'a [(&'a str, Option<&'a str>, i64)], oid: &str) -> Option<&'a str> {
    history.iter().find(|c| c.0 == oid).and_then(|c| c.1)
}

fn date_in(history: &[(&str, Option<&str>, i64)], oid: &str) -> i64 {
    history.iter().find(|c| c.0 == oid).map(|c| c.2).unwrap()
}

fn mark_chain(w: &mut ash::revwalk::RevWalk, history: &[(&str, Option<&str>, i64)], from: &str) {
    let mut cur = from.to_string();
    while let Some(next) = w.mark_chain_step(parent_in(history, &cur)) {
        cur = next;
    }
}

#[test]
fn limited_walk_keeps_only_the_range() {
    // c4 -> c3 -> c2 -> c1, newest first; listing c2..c4.
    let history = [("c4", Some("c3"), 40), ("c3", Some("c2"), 30), ("c2", Some("c1"), 20), ("c1", None, 10)];
    let mut w = ash::revwalk::RevWalk::new();
    assert!(w.start_point("c2", false));
    mark_chain(&mut w, &history, "c2");
    assert!(!w.start_point("c4", true));
    assert!(w.limited);
    assert!(w.is_marked("c1", ash::revwalk::Flag::Uninteresting));
    loop {
        let out_date = w.output.last().map(|o| date_in(&history, o)).unwrap_or(0);
        let in_date = w.queue.first().map(|o| date_in(&history, o)).unwrap_or(0);
        if !w.still_interesting(out_date, in_date) {
            break;
        }
        let c = w.take_front().unwrap();
        if let Some(start) = w.add_parents(&c, parent_in(&history, &c)) {
            mark_chain(&mut w, &history, &start);
        }
        w.let_through(&c);
    }
    w.finish_limit();
    assert_eq!(w.queue, vec!["c4".to_string(), "c3".to_string()]);
    assert!(w.is_shown("c4"));
    assert!(!w.is_shown("c2"));
    w.simplify("c3", true);
    assert!(!w.is_shown("c3"));
}

#[test]
fn marks_are_set_once() {
    let mut w = ash::revwalk::RevWalk::new();
    assert!(w.mark("a", ash::revwalk::Flag::Seen));
    assert!(!w.mark("a", ash::revwalk::Flag::Seen));
    w.enqueue("a");
    assert!(w.queue.is_empty());
    w.enqueue("b");
    w.enqueue("b");
    assert_eq!(w.queue, vec!["b".to_string()]);
}

#[test]
fn commit_writer_decisions() {
    match CommitWriter::commit_parent(&strings(&["p1", "p2"]), "  \n") {
        Err(Error::Generic(m)) => assert_eq!(m, "Aborting commit due to empty commit message"),
        _ => panic!("expected the empty message error"),
    }
    assert_eq!(CommitWriter::commit_parent(&strings(&["p1", "p2"]), "msg").unwrap(), Some("p1".to_string()));
    assert_eq!(CommitWriter::commit_parent(&Vec::new(), "msg").unwrap(), None);
    assert_eq!(CommitWriter::amend_target(Some("abc")).unwrap(), "abc");
    match CommitWriter::amend_target(None) {
        Err(Error::Generic(m)) => assert_eq!(m, "No commit to amend"),
        _ => panic!("expected the no commit error"),
    }
    assert_eq!(CommitWriter::edited_message(None, Some("m".to_string())).unwrap(), "m");
    match CommitWriter::edited_message(Some(PendingCommitType::CherryPick), None) {
        Err(Error::Generic(m)) => assert_eq!(m, "Aborting cherry-pick commit due to empty message"),
        _ => panic!("expected the abort error"),
    }
    match CommitWriter::edited_message(Some(PendingCommitType::Revert), None) {
        Err(Error::Generic(m)) => assert_eq!(m, "Aborting revert commit due to empty message"),
        _ => panic!("expected the abort error"),
    }
}

#[test]
fn working_tree_walk_steps() {
    let ws = Workspace::new(".");
    let pats = strings(&["target/", "*.log", "build"]);
    assert_eq!(ws.list_step("target", true, false, &pats), EntryStep::Skip);
    assert_eq!(ws.list_step("build", true, false, &pats), EntryStep::Skip);
    assert_eq!(ws.list_step("a.log", false, true, &pats), EntryStep::Skip);
    assert_eq!(ws.list_step("src", true, false, &pats), EntryStep::Descend);
    assert_eq!(ws.list_step("src/main.rs", false, true, &pats), EntryStep::Add);
    assert_eq!(ws.process_step("build", true, false, &pats), EntryStep::Skip);
    assert_eq!(ws.process_step("src/x.rs", false, true, &pats), EntryStep::Add);
    assert_eq!(ws.process_step("odd", false, false, &pats), EntryStep::Pass);
}

#[test]
fn sprints_gathered_from_their_references() {
    let a = SprintMetadata { name: "a".to_string(), start_timestamp: 100, duration_days: 7 };
    let b = SprintMetadata { name: "b".to_string(), start_timestamp: 300, duration_days: 7 };
    let found = vec![
        (Reference::Symbolic("refs/meta/sprint-a".to_string()), Some(a)),
        (Reference::Direct("abc".to_string()), None),
        (Reference::Symbolic("refs/meta/sprint-x".to_string()), None),
        (Reference::Symbolic("refs/meta/sprint-b".to_string()), Some(b)),
    ];
    let e = BranchMetadataManager::sprint_entries(found);
    let names: Vec<&str> = e.iter().map(|x| x.0.as_str()).collect();
    assert_eq!(names, vec!["a", "b"]);
    let sorted = BranchMetadataManager::sort_newest_first(e);
    let names: Vec<&str> = sorted.iter().map(|x| x.0.as_str()).collect();
    assert_eq!(names, vec!["b", "a"]);
}

#[test]
fn tasks_gathered_from_their_references() {
    let mut t1 = TaskMetadata::new("T1".to_string(), "one".to_string(), None);
    t1.created_at = 50;
    let mut t2 = TaskMetadata::new("T2".to_string(), "two".to_string(), Some(3));
    t2.created_at = 10;
    let found = vec![
        (Reference::Symbolic("refs/meta/task/T1".to_string()), Some(t1)),
        (Reference::Symbolic("refs/meta/task/T3".to_string()), None),
        (Reference::Symbolic("refs/meta/task/T2".to_string()), Some(t2)),
    ];
    let e = CommitMetadataManager::task_entries(found);
    assert_eq!(e.len(), 2);
    let sorted = CommitMetadataManager::sort_by_created(e);
    assert_eq!(sorted[0].id, "T2");
    assert_eq!(sorted[1].id, "T1");
}

#[test]
fn stored_blobs_read_back() {
    let d = ash::database::database::Database::new(".ash/objects".to_string());
    for content in [b"hello".to_vec(), Vec::new(), b"40000 looks like a tree entry".to_vec()] {
        let stored = [format!("blob {}\0", content.len()).into_bytes(), content.clone()].concat();
        let z = d.compress_object(&stored).unwrap();
        match d.decode_object("id", &z).unwrap() {
            ash::database::database::LoadedObject::Blob(b) => assert_eq!(b.to_bytes(), content),
            ash::database::database::LoadedObject::TreeCandidate { content: c, .. } => assert_eq!(c, content),
            _ => panic!("expected the content back"),
        }
    }
}
