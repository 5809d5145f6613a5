use ash::error::Error;
use ash::refs::{Reference, Refs};

const OID1: &str = "e69de29bb2d1d6434b8b29ae775ad8c2e48c5391";
const OID2: &str = "ce013625030ba8dba906f756967f9e9ca394464a";

fn repo() -> Refs {
    Refs::new(
        ".ash",
        vec![
            ("HEAD".to_string(), "ref: refs/heads/main\n".to_string()),
            ("refs/heads/main".to_string(), format!("{}\n", OID1)),
        ],
    )
}

#[test]
fn head_follows_the_branch() {
    let r = repo();
    assert_eq!(r.read_head(), Some(OID1.to_string()));
    assert_eq!(r.read_ref("HEAD"), Some(OID1.to_string()));
    assert_eq!(r.read_ref("@"), Some(OID1.to_string()));
    assert_eq!(r.read_ref("main"), Some(OID1.to_string()));
    assert_eq!(r.read_ref("nothing"), None);
}

#[test]
fn created_branch_reads_back() {
    let mut r = repo();
    r.create_branch("topic", OID2).unwrap();
    assert_eq!(r.read_ref("topic"), Some(OID2.to_string()));
    assert_eq!(r.read_symref("refs/heads/topic"), Some(OID2.to_string()));
}

#[test]
fn deleting_a_new_branch_restores_the_references() {
    let mut r = repo();
    let before = r.files.clone();
    r.create_branch("topic", OID2).unwrap();
    assert_eq!(r.delete_branch("topic").unwrap(), OID2);
    assert_eq!(r.files, before);
}

#[test]
fn existing_branch_is_refused() {
    let mut r = repo();
    match r.create_branch("main", OID2) {
        Err(Error::Generic(m)) => assert_eq!(m, "A branch named 'main' already exists."),
        _ => panic!("expected an error"),
    }
}

#[test]
fn invalid_branch_names_are_refused() {
    let mut r = repo();
    for name in ["bad name", "a..b", ".hidden", "x.lock", "a/b", "", "q?"] {
        match r.create_branch(name, OID2) {
            Err(Error::Generic(m)) => assert_eq!(m, format!("'{}' is not a valid branch name.", name)),
            _ => panic!("expected an error for {:?}", name),
        }
    }
    assert!(r.is_valid_branch_name("feature-1"));
}

#[test]
fn deleting_a_missing_branch() {
    let mut r = repo();
    match r.delete_branch("ghost") {
        Err(Error::Generic(m)) => assert_eq!(m, "Branch 'ghost' not found."),
        _ => panic!("expected an error"),
    }
}

#[test]
fn update_head_writes_through_the_branch() {
    let mut r = repo();
    r.update_head(OID2).unwrap();
    assert_eq!(r.read_symref("refs/heads/main"), Some(OID2.to_string()));
    assert_eq!(r.read_head(), Some(OID2.to_string()));
}

#[test]
fn update_ref_adds_refs_prefix() {
    let mut r = repo();
    r.update_ref("meta/task/T1", OID2).unwrap();
    assert_eq!(r.read_symref("refs/meta/task/T1"), Some(OID2.to_string()));
}

#[test]
fn set_head_to_branch_or_id() {
    let mut r = repo();
    r.set_head("main", OID2).unwrap();
    assert_eq!(r.current_ref().unwrap(), Reference::Symbolic("refs/heads/main".to_string()));
    r.set_head("nobranch", OID2).unwrap();
    assert_eq!(r.current_ref().unwrap(), Reference::Direct(OID2.to_string()));
}

#[test]
fn listing_branches() {
    let mut r = repo();
    r.create_branch("topic", OID2).unwrap();
    let b = r.list_branches().unwrap();
    assert_eq!(
        b,
        vec![
            Reference::Symbolic("refs/heads/main".to_string()),
            Reference::Symbolic("refs/heads/topic".to_string()),
        ]
    );
    assert_eq!(r.short_name("refs/heads/topic"), "topic");
    assert_eq!(r.short_name("refs/tags/v1"), "refs/tags/v1");
}

#[test]
fn listing_by_prefix() {
    let mut r = repo();
    r.update_ref("meta/sprint-one", OID2).unwrap();
    let v = r.list_refs_with_prefix("refs/meta/").unwrap();
    assert_eq!(v, vec![Reference::Symbolic("refs/meta/sprint-one".to_string())]);
}
