use ash::metadata::branch::{BranchMetadataManager, SprintMetadata};
use ash::metadata::commit::{CommitMetadataManager, TaskMetadata, TaskStatus};
use ash::refs::Reference;

fn task(id: &str, points: Option<u32>, status: TaskStatus, created: u64) -> TaskMetadata {
    TaskMetadata {
        id: id.to_string(),
        description: format!("work on {}", id),
        story_points: points,
        status,
        created_at: created,
        started_at: None,
        completed_at: None,
        commit_ids: Vec::new(),
    }
}

#[test]
fn sprint_encoding_round_trip() {
    let s = SprintMetadata { name: "Sprint One".to_string(), start_timestamp: 1700000000, duration_days: 14 };
    let e = s.encode();
    assert_eq!(e, "SPRINT:Sprint One:1700000000:14");
    let d = SprintMetadata::decode(&e).unwrap();
    assert_eq!(d.name, "Sprint One");
    assert_eq!(d.start_timestamp, 1700000000);
    assert_eq!(d.duration_days, 14);
}

#[test]
fn sprint_decoding_failures() {
    assert!(SprintMetadata::decode("SPRINT:x:notanumber:3").is_none());
    assert!(SprintMetadata::decode("TASK:x:1:3").is_none());
    assert!(SprintMetadata::decode("SPRINT:x:1").is_none());
}

#[test]
fn sprint_branch_and_end() {
    let s = SprintMetadata { name: "Big Sprint".to_string(), start_timestamp: 1000, duration_days: 2 };
    assert_eq!(s.to_branch_name(), "sprint-big-sprint");
    assert_eq!(s.end_timestamp(), 1000 + 2 * 86400);
    assert!(s.is_active_at(1000 + 2 * 86400));
    assert!(!s.is_active_at(1001 + 2 * 86400));
}

#[test]
fn sprint_dates_are_formatted() {
    assert_eq!(SprintMetadata::format_date(0), "1970-01-01 00:00");
    assert_eq!(SprintMetadata::format_date(1700000000), "2023-11-14 22:13");
}

#[test]
fn task_encoding_round_trip() {
    let mut t = task("T1", Some(5), TaskStatus::InProgress, 100);
    t.started_at = Some(150);
    let e = t.encode();
    assert_eq!(e, "TASK-METADATA:T1:work on T1:5:IN_PROGRESS:100:150:");
    let d = TaskMetadata::decode(&e).unwrap();
    assert_eq!(d.id, "T1");
    assert_eq!(d.description, "work on T1");
    assert_eq!(d.story_points, Some(5));
    assert_eq!(d.status, TaskStatus::InProgress);
    assert_eq!(d.created_at, 100);
    assert_eq!(d.started_at, Some(150));
    assert_eq!(d.completed_at, None);
    assert!(d.commit_ids.is_empty());
}

#[test]
fn task_decoding_failures() {
    assert!(TaskMetadata::decode("TASK-METADATA:T1:d::TODO:x::").is_none());
    assert!(TaskMetadata::decode("TASK:T1:d::TODO:1::").is_none());
    let unknown = TaskMetadata::decode("TASK-METADATA:T1:d::WEIRD:1::").unwrap();
    assert_eq!(unknown.status, TaskStatus::Todo);
}

#[test]
fn task_tags_in_messages() {
    let t = task("42", None, TaskStatus::Todo, 0);
    assert_eq!(t.format_commit_message("fix it"), "[Task-42] fix it");
    assert_eq!(TaskMetadata::extract_from_message("[Task-42] fix it"), Some("42".to_string()));
    assert_eq!(TaskMetadata::extract_from_message("[Task-] x"), None);
    assert_eq!(TaskMetadata::extract_from_message("fix [Task-42]"), None);
}

#[test]
fn task_duration() {
    let mut t = task("T", None, TaskStatus::Done, 0);
    assert_eq!(t.format_duration(), "Not completed");
    t.started_at = Some(1000);
    t.completed_at = Some(1000 + 2 * 3600 + 5 * 60 + 7);
    assert_eq!(t.get_duration(), Some(2 * 3600 + 5 * 60 + 7));
    assert_eq!(t.format_duration(), "2h 5m");
}

#[test]
fn task_metadata_lines() {
    let m = CommitMetadataManager::new(".");
    let t = task("T9", None, TaskStatus::Done, 0);
    assert_eq!(m.format_task_metadata(&t), "Task: T9\nStatus: DONE");
    assert_eq!(m.create_task_branch_name("sprint-a", "T9"), "sprint-a/task/T9");
    assert_eq!(CommitMetadataManager::task_ref("T9"), "refs/meta/task/T9");
    assert_eq!(CommitMetadataManager::task_id_of_ref("refs/meta/task/T9"), "T9");
    assert_eq!(CommitMetadataManager::task_id_of_ref("other"), "other");
}

#[test]
fn sprint_progress_sums_points() {
    let m = CommitMetadataManager::new(".");
    let tasks = vec![
        task("a", Some(3), TaskStatus::Done, 0),
        task("b", Some(5), TaskStatus::InProgress, 0),
        task("c", None, TaskStatus::Done, 0),
        task("d", Some(2), TaskStatus::Done, 0),
    ];
    assert_eq!(m.calculate_sprint_progress(&tasks), (10, 5));
    assert_eq!(m.calculate_sprint_progress(&[]), (0, 0));
}

#[test]
fn commits_tagged_with_a_task() {
    let chain = vec![
        ("c3".to_string(), "[Task-7] more".to_string()),
        ("c2".to_string(), "[Task-8] other".to_string()),
        ("c1".to_string(), "[Task-7] start".to_string()),
    ];
    assert_eq!(
        CommitMetadataManager::commits_for_task("7", &chain),
        vec!["c3".to_string(), "c1".to_string()]
    );
}

#[test]
fn tasks_sorted_by_creation_keep_ties() {
    let tasks = vec![
        task("late", None, TaskStatus::Todo, 30),
        task("first", None, TaskStatus::Todo, 10),
        task("tie1", None, TaskStatus::Todo, 20),
        task("tie2", None, TaskStatus::Todo, 20),
    ];
    let ids: Vec<String> = CommitMetadataManager::sort_by_created(tasks).into_iter().map(|t| t.id).collect();
    assert_eq!(ids, vec!["first", "tie1", "tie2", "late"]);
}

#[test]
fn sprints_newest_first() {
    let s = |n: &str, t: u64| (n.to_string(), SprintMetadata { name: n.to_string(), start_timestamp: t, duration_days: 1 });
    let v = vec![s("a", 10), s("b", 30), s("c", 20), s("d", 30)];
    let names: Vec<String> = BranchMetadataManager::sort_newest_first(v).into_iter().map(|(n, _)| n).collect();
    assert_eq!(names, vec!["b", "d", "c", "a"]);
}

#[test]
fn sprint_reference_names() {
    assert_eq!(BranchMetadataManager::meta_ref("sprint-a"), "refs/meta/sprint-a");
    assert_eq!(BranchMetadataManager::alt_meta_ref("a"), "refs/meta/sprint-a");
    assert_eq!(BranchMetadataManager::sprint_branch_for("a"), "sprint-a");
    assert_eq!(BranchMetadataManager::sprint_branch_for("sprint-a"), "sprint-a");
    assert_eq!(BranchMetadataManager::branch_of_meta_ref("refs/meta/sprint-x"), Some("x".to_string()));
    assert_eq!(BranchMetadataManager::branch_of_meta_ref("refs/meta/y"), Some("y".to_string()));
    assert_eq!(BranchMetadataManager::branch_of_meta_ref("refs/heads/z"), None);
    assert_eq!(BranchMetadataManager::branch_of_sprint_ref("refs/meta/sprint-q"), "q");
}

#[test]
fn current_branch_from_head() {
    let m = BranchMetadataManager::new(".");
    assert_eq!(m.get_current_branch(&Reference::Symbolic("refs/heads/dev".to_string())).unwrap(), "dev");
    assert!(m.get_current_branch(&Reference::Direct("abc".to_string())).is_err());
}
