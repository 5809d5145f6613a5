use ash::database::database::{Database, LoadedObject};
use ash::database::objects::{Blob, GitObject, SprintMetadataObject};
use ash::error::Error;
use ash::file_mode::FileMode;
use ash::index::entry::{Entry, FileStat};
use ash::metadata::branch::SprintMetadata;

fn db() -> Database {
    Database::new(".ash/objects".to_string())
}

#[test]
fn empty_blob_id() {
    assert_eq!(db().hash_file_data(b""), "e69de29bb2d1d6434b8b29ae775ad8c2e48c5391");
}

#[test]
fn blob_id_of_text() {
    assert_eq!(db().hash_file_data(b"hello\n"), "ce013625030ba8dba906f756967f9e9ca394464a");
}

#[test]
fn content_id_is_sha1_of_stored_form() {
    assert_eq!(db().hash_content(b"blob 0\0"), "e69de29bb2d1d6434b8b29ae775ad8c2e48c5391");
}

#[test]
fn serialized_blob() {
    let blob = Blob::new(b"abc".to_vec());
    assert_eq!(db().serialize_object(&blob).unwrap(), b"blob 3\0abc".to_vec());
}

#[test]
fn stored_object_reads_back() {
    let d = db();
    let stored = d.compress_object(b"blob 5\0hello").unwrap();
    assert_ne!(stored, b"blob 5\0hello".to_vec());
    match d.decode_object("abc", &stored).unwrap() {
        LoadedObject::Blob(b) => {
            assert_eq!(b.to_bytes(), b"hello".to_vec());
            assert_eq!(b.get_oid().map(|s| s.as_str()), Some("abc"));
        }
        _ => panic!("expected a blob"),
    }
}

#[test]
fn object_without_null_byte() {
    match db().parse_object("x", b"blob 3") {
        Err(Error::Generic(m)) => assert_eq!(m, "Invalid object format: missing null byte"),
        _ => panic!("expected an error"),
    }
}

#[test]
fn object_with_unknown_type() {
    match db().parse_object("x", b"thing 1\0a") {
        Err(Error::Generic(m)) => assert_eq!(m, "Unknown object type: thing"),
        _ => panic!("expected an error"),
    }
}

#[test]
fn object_with_bad_size() {
    match db().parse_object("x", b"blob x\0a") {
        Err(Error::Generic(m)) => assert_eq!(m, "Invalid size in header: x"),
        _ => panic!("expected an error"),
    }
}

#[test]
fn commit_object_keeps_content() {
    match db().parse_object("c1", b"commit 4\0tree") {
        Ok(LoadedObject::Commit { oid, content }) => {
            assert_eq!(oid, "c1");
            assert_eq!(content, b"tree".to_vec());
        }
        _ => panic!("expected a commit"),
    }
}

#[test]
fn sprint_object_reads_back() {
    match db().parse_object("s1", b"sprint-meta 19\0SPRINT:alpha:100:14") {
        Ok(LoadedObject::Sprint(s)) => {
            assert_eq!(s.get_metadata().name, "alpha");
            assert_eq!(s.get_metadata().start_timestamp, 100);
            assert_eq!(s.get_metadata().duration_days, 14);
        }
        _ => panic!("expected sprint metadata"),
    }
}

#[test]
fn sprint_object_serializes_its_encoding() {
    let meta = SprintMetadata { name: "alpha".to_string(), start_timestamp: 100, duration_days: 14 };
    let obj = SprintMetadataObject::new(meta);
    assert_eq!(obj.to_bytes(), b"SPRINT:alpha:100:14".to_vec());
    assert_eq!(obj.get_type(), "sprint-meta");
}

#[test]
fn short_object_id() {
    assert_eq!(db().short_oid("e69de29bb2d1d6434b8b29ae775ad8c2e48c5391"), "e69de29");
    assert_eq!(db().short_oid("abc"), "abc");
}

#[test]
fn prefix_matching_names() {
    let names = vec!["9de29bb2d1d6434b8b29ae775ad8c2e48c5391".to_string(), "ffff".to_string()];
    assert_eq!(
        db().prefix_match("e69d", &names),
        vec!["e69de29bb2d1d6434b8b29ae775ad8c2e48c5391".to_string()]
    );
    assert!(db().prefix_match("e", &names).is_empty());
}

#[test]
fn resolving_abbreviated_ids() {
    let names = vec!["9de29bb2d1d6434b8b29ae775ad8c2e48c5391".to_string()];
    let d = db();
    assert_eq!(d.resolve_oid("e69d", false, &names).unwrap(), "e69de29bb2d1d6434b8b29ae775ad8c2e48c5391");
    match d.resolve_oid("e6", false, &names) {
        Err(Error::Generic(m)) => assert_eq!(m, "Invalid object identifier: e6"),
        _ => panic!("expected an error"),
    }
    match d.resolve_oid("abcd", false, &names) {
        Err(Error::Generic(m)) => assert_eq!(m, "No object found with prefix abcd"),
        _ => panic!("expected an error"),
    }
    let two = vec!["9de1".to_string(), "9de2".to_string()];
    match d.resolve_oid("e69d", false, &two) {
        Err(Error::Generic(m)) => assert_eq!(m, "Ambiguous object prefix: e69d matches multiple objects"),
        _ => panic!("expected an error"),
    }
}

#[test]
fn temp_names_use_the_alphabet() {
    let name = db().generate_temp_name();
    assert!(name.starts_with("tmp_obj_"));
    assert!(name["tmp_obj_".len()..].chars().all(|c| c.is_ascii_alphanumeric()));
}

fn sample_entry() -> Entry {
    let stat = FileStat {
        mode: FileMode::regular(),
        created: Some((1000, 5)),
        modified: Some((2000, 6)),
        len: 12,
    };
    Entry::create("src/main.rs", "e69de29bb2d1d6434b8b29ae775ad8c2e48c5391", &stat, (0, 0))
}

#[test]
fn entry_created_from_stat() {
    let e = sample_entry();
    assert_eq!(e.get_path(), "src/main.rs");
    assert_eq!(e.get_ctime(), 1000);
    assert_eq!(e.get_mtime_nsec(), 6);
    assert_eq!(e.get_size(), 12);
    assert_eq!(e.get_flags(), 11);
    assert_eq!(e.mode_octal(), "100644");
}

#[test]
fn entry_bytes_round_trip() {
    let e = sample_entry();
    let bytes = e.to_bytes();
    assert_eq!(bytes.len() % 8, 0);
    assert_eq!(bytes.len(), 80);
    let back = Entry::parse(&bytes).unwrap();
    assert_eq!(back.get_path(), "src/main.rs");
    assert_eq!(back.get_oid(), "e69de29bb2d1d6434b8b29ae775ad8c2e48c5391");
    assert_eq!(back.get_ctime(), 1000);
    assert_eq!(back.get_size(), 12);
    assert_eq!(back.get_flags(), 11);
}

#[test]
fn short_entry_data_is_refused() {
    match Entry::parse(&[0u8; 10]) {
        Err(Error::Generic(m)) => assert_eq!(m, "Entry data too short"),
        _ => panic!("expected an error"),
    }
}

#[test]
fn file_modes() {
    assert_eq!(FileMode::parse("100755"), FileMode::executable());
    assert!(FileMode::is_executable(0o100755));
    assert!(!FileMode::is_executable(0o100644));
    assert!(FileMode::directory().is_directory());
    assert_eq!(FileMode::executable().to_octal_string(), "100755");
    assert!(FileMode::are_equivalent(0o100644, 0o100644));
}
