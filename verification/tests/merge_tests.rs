use ash::merge::bases::Bases;
use ash::merge::common_ancestors::{CommonAncestors, Flag};
use ash::merge::diff3::merge;
use ash::merge::resolve::{full_oid, merge3_oid, merge_modes};
use ash::file_mode::FileMode;
use ash::error::Error;

fn chain(items: &[(&str, Option<&str>)]) -> Vec<(String, Option<Option<String>>)> {
    items
        .iter()
        .map(|(id, p)| (id.to_string(), Some(p.map(|s| s.to_string()))))
        .collect()
}

#[test]
fn edits_on_both_sides_conflict_from_the_first_unmatched_line() {
    // Lines are matched by walking both versions in step, so once the
    // versions part, nothing after is matched again.
    let m = merge("a\nb\nc\nd\ne\n", "a\nB\nc\nd\ne\n", "a\nb\nc\nD\ne\n").unwrap();
    assert!(!m.is_clean());
    assert_eq!(
        m.to_string(None, None),
        "<<<<<<<\na\nB\nc\nd\ne\n=======\na\nb\nc\nD\ne\n>>>>>>>\n"
    );
}

#[test]
fn added_line_merges_cleanly() {
    let m = merge("x\ny\n", "x\ny\nz\n", "x\ny\n").unwrap();
    assert!(m.is_clean());
    assert_eq!(m.to_string(None, None), "x\ny\nz\n");
}

#[test]
fn conflicting_edits_are_marked() {
    let m = merge("a\nb\nc\n", "a\nX\nc\n", "a\nY\nc\n").unwrap();
    assert!(!m.is_clean());
    assert_eq!(
        m.to_string(Some("ours"), Some("theirs")),
        "<<<<<<< ours\na\nX\nc\n=======\na\nY\nc\n>>>>>>> theirs\n"
    );
}

#[test]
fn unchanged_ours_gives_theirs() {
    let m = merge("one\ntwo\n", "one\ntwo\n", "one\n2\nthree\n").unwrap();
    assert!(m.is_clean());
    assert_eq!(m.to_string(None, None), "one\n2\nthree\n");
}

#[test]
fn unchanged_theirs_gives_ours() {
    let m = merge("x\ny\n", "x\nY\nz\n", "x\ny\n").unwrap();
    assert!(m.is_clean());
    assert_eq!(m.to_string(None, None), "x\nY\nz\n");
}

#[test]
fn merge_of_oids() {
    assert_eq!(merge3_oid(Some("b"), Some("b"), Some("r")), Some("r"));
    assert_eq!(merge3_oid(Some("b"), Some("l"), Some("b")), Some("l"));
    assert_eq!(merge3_oid(Some("b"), Some("l"), Some("l")), Some("l"));
    assert_eq!(merge3_oid(Some("b"), Some("l"), Some("r")), None);
}

#[test]
fn merge_of_modes() {
    let r = FileMode::regular();
    let x = FileMode::executable();
    assert_eq!(merge_modes(Some(r), Some(r), Some(x)), (true, x));
    assert_eq!(merge_modes(Some(r), Some(x), Some(r)), (true, x));
}

#[test]
fn full_object_ids() {
    assert!(full_oid("e69de29bb2d1d6434b8b29ae775ad8c2e48c5391"));
    assert!(!full_oid("e69de29"));
    assert!(!full_oid("g69de29bb2d1d6434b8b29ae775ad8c2e48c5391"));
}

#[test]
fn common_ancestor_of_two_branches() {
    // c1 <- c2 <- c3 (one), c2 <- c4 (two)
    let objects = chain(&[("c1", None), ("c2", Some("c1")), ("c3", Some("c2")), ("c4", Some("c2"))]);
    let mut ca = CommonAncestors::new(objects, "c3", &["c4"]).unwrap();
    let found = ca.find().unwrap();
    assert!(!found.is_empty());
    assert!(found.iter().all(|f| f == "c2"));
    assert!(ca.is_marked("c2", Flag::Result));
    assert!(ca.is_marked("c1", Flag::Stale));
    assert!(!ca.is_marked("c3", Flag::Parent2));
}

#[test]
fn common_ancestor_missing_object() {
    let objects = chain(&[("c1", None)]);
    match CommonAncestors::new(objects, "c1", &["nope"]) {
        Err(Error::Generic(m)) => assert_eq!(m, "Object not found: nope"),
        _ => panic!("expected an error"),
    }
}

#[test]
fn common_ancestor_broken_parent() {
    let objects = chain(&[("a", Some("zz")), ("b", Some("zz"))]);
    let mut ca = CommonAncestors::new(objects, "a", &["b"]).unwrap();
    match ca.find() {
        Err(Error::Generic(m)) => assert_eq!(m, "Object not found: zz"),
        other => panic!("unexpected {:?}", other),
    }
}

#[test]
fn bases_of_forked_history() {
    let objects = chain(&[("c1", None), ("c2", Some("c1")), ("c3", Some("c2")), ("c4", Some("c2"))]);
    let bases = Bases::new(objects);
    assert_eq!(bases.find("c3", "c4").unwrap(), vec!["c2".to_string()]);
}

#[test]
fn bases_when_one_is_ancestor() {
    let objects = chain(&[("c1", None), ("c2", Some("c1")), ("c3", Some("c2"))]);
    let bases = Bases::new(objects);
    assert_eq!(bases.find("c3", "c1").unwrap(), vec!["c1".to_string()]);
}

#[test]
fn bases_of_unrelated_histories() {
    let objects = chain(&[("a", None), ("b", None)]);
    let bases = Bases::new(objects);
    assert!(bases.find("a", "b").unwrap().is_empty());
}

#[test]
fn adjacent_edits_conflict() {
    let m = merge("a\nb\nc\n", "a\nB\nc\n", "a\nb\nC\n").unwrap();
    assert!(!m.is_clean());
    assert_eq!(
        m.to_string(None, None),
        "<<<<<<<\na\nB\nc\n=======\na\nb\nC\n>>>>>>>\n"
    );
}

#[test]
fn separate_histories_share_no_ancestor() {
    let objects = vec![
        ("a2".to_string(), Some(Some("a1".to_string()))),
        ("a1".to_string(), Some(None)),
        ("b2".to_string(), Some(Some("b1".to_string()))),
        ("b1".to_string(), Some(None)),
    ];
    let mut ca = CommonAncestors::new(objects.clone(), "a2", &["b2"]).unwrap();
    assert!(ca.find().unwrap().is_empty());
    let mut same = CommonAncestors::new(objects, "a2", &["a2"]).unwrap();
    let v = same.find().unwrap();
    assert!(!v.is_empty() && v.iter().all(|x| x == "a2"));
}
