//! Comparing the committed tree, the index and the working tree.
//!
//! The program around the library reads the working files; the functions
//! here take what was read (`None` where a file could not be found or
//! read) and decide what changed.
use vstd::prelude::*;
use crate::database::database::{Database, object_id, serialized};
use crate::index::entry::Entry;
use crate::text::{octal, str_eq, clone_string};

verus! {

/// How a path differs between two states.
#[derive(Debug, Clone, Copy, PartialEq, Eq, Structural)]
pub enum ChangeType {
    Untracked,
    Modified,
    Added,
    Deleted,
}

/// Decides what changed between the committed tree, the index and the
/// working tree.
pub struct Inspector {
    pub database: Database,
}

/// What the comparison of a tree item (mode and id) with an index entry
/// (mode and id) finds.
pub open spec fn tree_to_index(
    item: Option<(Seq<char>, Seq<char>)>,
    entry: Option<(Seq<char>, Seq<char>)>,
) -> Option<ChangeType> {
    match (item, entry) {
        (None, None) => None,
        (Some(_), None) => Some(ChangeType::Deleted),
        (None, Some(_)) => Some(ChangeType::Added),
        (Some((m1, o1)), Some((m2, o2))) => if m1 == m2 && o1 == o2 {
            None
        } else {
            Some(ChangeType::Modified)
        },
    }
}

/// The id a working file's content would get as a blob.
pub open spec fn blob_id(data: Seq<u8>) -> Seq<char> {
    object_id(serialized("blob"@, data))
}

/// What the comparison of an index entry with the working file finds: the
/// file untracked without an entry, deleted when it is missing, modified
/// when it cannot be read or its content differs.
pub open spec fn index_to_workspace(
    entry_oid: Option<Seq<char>>,
    present: bool,
    data: Option<Seq<u8>>,
) -> Option<ChangeType> {
    match entry_oid {
        None => Some(ChangeType::Untracked),
        Some(oid) => if !present {
            Some(ChangeType::Deleted)
        } else {
            match data {
                None => Some(ChangeType::Modified),
                Some(d) => if oid != blob_id(d) {
                    Some(ChangeType::Modified)
                } else {
                    None
                },
            }
        },
    }
}

/// The changes of the working tree against the index, entry by entry:
/// each entry's path with what changed, for the entries that changed.
pub open spec fn workspace_changes(
    entries: Seq<(Seq<char>, Seq<char>)>,
    files: Seq<(bool, Option<Seq<u8>>)>,
) -> Seq<(Seq<char>, ChangeType)>
    decreases entries.len(),
{
    if entries.len() == 0 || files.len() < entries.len() {
        seq![]
    } else {
        let n = (entries.len() - 1) as int;
        let rest = workspace_changes(entries.drop_last(), files.subrange(0, n));
        let (path, oid) = entries[n];
        let (present, data) = files[n];
        match index_to_workspace(Some(oid), present, data) {
            Some(c) => rest.push((path, c)),
            None => rest,
        }
    }
}

/// The change the working tree shows for index entry `i`: deleted when its
/// file is missing, modified when the file cannot be read or its content
/// is not the entry's blob.
pub open spec fn shows_change(
    entries: Seq<(Seq<char>, Seq<char>)>,
    files: Seq<(bool, Option<Seq<u8>>)>,
    i: int,
    c: ChangeType,
) -> bool {
    ||| !files[i].0 && c == ChangeType::Deleted
    ||| files[i].0 && c == ChangeType::Modified && (files[i].1 is None || blob_id(files[i].1->0)
        != entries[i].1)
}

/// `x` is the change that the working tree shows for some index entry, under
/// that entry's path.
pub open spec fn change_of_some_entry(
    entries: Seq<(Seq<char>, Seq<char>)>,
    files: Seq<(bool, Option<Seq<u8>>)>,
    x: (Seq<char>, ChangeType),
) -> bool {
    exists|i: int| 0 <= i < entries.len() && entries[i].0 == x.0 && #[trigger] shows_change(entries, files, i, x.1)
}

/// The working tree's changes against the index name every entry whose
/// file is missing as deleted, and every entry whose file cannot be read
/// or holds other content as modified; and they name nothing else: each
/// change is such a change of some entry, never an untracked or added
/// file, and there are no more changes than entries.
pub proof fn lemma_workspace_changes_exact(
    entries: Seq<(Seq<char>, Seq<char>)>,
    files: Seq<(bool, Option<Seq<u8>>)>,
)
    requires
        files.len() == entries.len(),
    ensures
        workspace_changes(entries, files).len() <= entries.len(),
        forall|i: int|
            0 <= i < entries.len() && !files[i].0 ==> workspace_changes(entries, files).contains(
                (#[trigger] entries[i].0, ChangeType::Deleted),
            ),
        forall|i: int|
            0 <= i < entries.len() && files[i].0 && (files[i].1 is None || blob_id(files[i].1->0)
                != entries[i].1) ==> workspace_changes(entries, files).contains(
                (#[trigger] entries[i].0, ChangeType::Modified),
            ),
        forall|k: int|
            0 <= k < workspace_changes(entries, files).len() ==> change_of_some_entry(
                entries,
                files,
                #[trigger] workspace_changes(entries, files)[k],
            ),
    decreases entries.len(),
{
    let w = workspace_changes(entries, files);
    if entries.len() > 0 {
        let n = (entries.len() - 1) as int;
        let e2 = entries.drop_last();
        let f2 = files.subrange(0, n);
        lemma_workspace_changes_exact(e2, f2);
        let rest = workspace_changes(e2, f2);
        assert(forall|k: int| 0 <= k < rest.len() ==> w.len() >= rest.len() && w[k] == rest[k]);
        assert forall|i: int|
            0 <= i < entries.len() && !files[i].0 implies w.contains(
            (#[trigger] entries[i].0, ChangeType::Deleted),
        ) by {
            if i < n {
                assert(e2[i] == entries[i] && f2[i] == files[i]);
                assert(rest.contains((e2[i].0, ChangeType::Deleted)));
                let k = choose|k: int| 0 <= k < rest.len() && rest[k] == (e2[i].0, ChangeType::Deleted);
                assert(w[k] == rest[k]);
            } else {
                assert(w[w.len() - 1] == (entries[i].0, ChangeType::Deleted));
            }
        }
        assert forall|i: int|
            0 <= i < entries.len() && files[i].0 && (files[i].1 is None || blob_id(files[i].1->0)
                != entries[i].1) implies w.contains((#[trigger] entries[i].0, ChangeType::Modified)) by {
            if i < n {
                assert(e2[i] == entries[i] && f2[i] == files[i]);
                assert(rest.contains((e2[i].0, ChangeType::Modified)));
                let k = choose|k: int| 0 <= k < rest.len() && rest[k] == (e2[i].0, ChangeType::Modified);
                assert(w[k] == rest[k]);
            } else {
                assert(w[w.len() - 1] == (entries[i].0, ChangeType::Modified));
            }
        }
        assert forall|k: int| 0 <= k < w.len() implies change_of_some_entry(
            entries,
            files,
            #[trigger] w[k],
        ) by {
            if k < rest.len() {
                assert(w[k] == rest[k]);
                assert(change_of_some_entry(e2, f2, rest[k]));
                let i = choose|i: int|
                    0 <= i < e2.len() && e2[i].0 == rest[k].0 && #[trigger] shows_change(
                        e2,
                        f2,
                        i,
                        rest[k].1,
                    );
                assert(e2[i] == entries[i] && f2[i] == files[i]);
                assert(shows_change(entries, files, i, w[k].1));
                assert(0 <= i < entries.len() && entries[i].0 == w[k].0);
            } else {
                assert(w.len() == rest.len() + 1);
                assert(w[k] == w.last());
                let (path, oid) = entries[n];
                assert(w.last().0 == path);
                assert(shows_change(entries, files, n, w[k].1));
                assert(0 <= n < entries.len() && entries[n].0 == w[k].0);
            }
        }
    }
}

impl Inspector {
    /// An inspector hashing with the given database.
    pub fn new(database: Database) -> (r: Inspector)
        ensures
            r.database == database,
    {
        Inspector { database }
    }

    /// Compares a tree item, given by mode and id, with an index entry.
    pub fn compare_tree_to_index(&self, item: Option<(&str, &str)>, entry: Option<&Entry>) -> (r:
        Option<ChangeType>)
        ensures
            r == tree_to_index(
                match item {
                    Some((m, o)) => Some((m@, o@)),
                    None => None,
                },
                match entry {
                    Some(e) => Some((octal(e.mode.0 as nat), e.oid@)),
                    None => None,
                },
            ),
    {
        match (item, entry) {
            (None, None) => None,
            (Some(_), None) => Some(ChangeType::Deleted),
            (None, Some(_)) => Some(ChangeType::Added),
            (Some((mode, oid)), Some(e)) => {
                let em = e.mode_octal();
                if str_eq(mode, em.as_str()) && str_eq(oid, e.oid.as_str()) {
                    None
                } else {
                    Some(ChangeType::Modified)
                }
            },
        }
    }

    /// Compares an index entry with the working file: `present` says
    /// whether the file exists, `data` holds its content when it could be
    /// read.
    pub fn compare_index_to_workspace(
        &self,
        entry: Option<&Entry>,
        present: bool,
        data: Option<&[u8]>,
    ) -> (r: Option<ChangeType>)
        ensures
            r == index_to_workspace(
                match entry {
                    Some(e) => Some(e.oid@),
                    None => None,
                },
                present,
                match data {
                    Some(d) => Some(d@),
                    None => None,
                },
            ),
    {
        match entry {
            None => Some(ChangeType::Untracked),
            Some(e) => {
                if !present {
                    return Some(ChangeType::Deleted);
                }
                match data {
                    None => Some(ChangeType::Modified),
                    Some(d) => {
                        let actual = self.database.hash_file_data(d);
                        if !str_eq(e.oid.as_str(), actual.as_str()) {
                            Some(ChangeType::Modified)
                        } else {
                            None
                        }
                    },
                }
            },
        }
    }

    /// Whether a working file differs from a stored blob; a file that
    /// could not be read counts as different.
    pub fn compare_workspace_vs_blob(&self, data: Option<&[u8]>, oid: &str) -> (r: bool)
        ensures
            r == match data {
                Some(d) => blob_id(d@) != oid@,
                None => true,
            },
    {
        match data {
            None => true,
            Some(d) => {
                let w = self.database.hash_file_data(d);
                !str_eq(w.as_str(), oid)
            },
        }
    }

    /// Whether a path has changes not committed to the index: it has no
    /// entry, its file cannot be found, or the comparison finds a change.
    pub fn has_uncommitted_changes(&self, entry: Option<&Entry>, present: bool, data: Option<&[u8]>)
        -> (r: bool)
        ensures
            r == match entry {
                None => true,
                Some(e) => !present || index_to_workspace(
                    Some(e.oid@),
                    present,
                    match data {
                        Some(d) => Some(d@),
                        None => None,
                    },
                ) is Some,
            },
    {
        match entry {
            None => true,
            Some(_) => {
                if !present {
                    return true;
                }
                self.compare_index_to_workspace(entry, present, data).is_some()
            },
        }
    }

    /// The changes of the working tree against the index: for each entry,
    /// in order, whether its file exists and its content when read.
    pub fn analyze_workspace_changes(&self, entries: &Vec<Entry>, files: &Vec<(bool, Option<Vec<u8>>)>)
        -> (r: Vec<(String, ChangeType)>)
        requires
            files.len() == entries.len(),
        ensures
            r@.map_values(|c: (String, ChangeType)| (c.0@, c.1)) == workspace_changes(
                entries@.map_values(|e: Entry| (e.path@, e.oid@)),
                files@.map_values(
                    |f: (bool, Option<Vec<u8>>)|
                        (
                            f.0,
                            match f.1 {
                                Some(d) => Some(d@),
                                None => None,
                            },
                        ),
                ),
            ),
    {
        let ghost ev = entries@.map_values(|e: Entry| (e.path@, e.oid@));
        let ghost fv = files@.map_values(
            |f: (bool, Option<Vec<u8>>)|
                (
                    f.0,
                    match f.1 {
                        Some(d) => Some(d@),
                        None => None,
                    },
                ),
        );
        let mut r: Vec<(String, ChangeType)> = Vec::new();
        let mut i: usize = 0;
        while i < entries.len()
            invariant
                i <= entries.len(),
                files.len() == entries.len(),
                ev == entries@.map_values(|e: Entry| (e.path@, e.oid@)),
                fv == files@.map_values(
                    |f: (bool, Option<Vec<u8>>)|
                        (
                            f.0,
                            match f.1 {
                                Some(d) => Some(d@),
                                None => None,
                            },
                        ),
                ),
                r@.map_values(|c: (String, ChangeType)| (c.0@, c.1)) == workspace_changes(
                    ev.take(i as int),
                    fv.take(i as int),
                ),
            decreases entries.len() - i,
        {
            assert(ev.take(i + 1).drop_last() =~= ev.take(i as int));
            assert(fv.take(i + 1).subrange(0, i as int) =~= fv.take(i as int));
            let ghost before = r@.map_values(|c: (String, ChangeType)| (c.0@, c.1));
            let data: Option<&[u8]> = match &files[i].1 {
                Some(d) => Some(d.as_slice()),
                None => None,
            };
            match self.compare_index_to_workspace(Some(&entries[i]), files[i].0, data) {
                Some(c) => {
                    r.push((clone_string(&entries[i].path), c));
                    assert(r@.map_values(|c: (String, ChangeType)| (c.0@, c.1)) =~= before.push(
                        (entries[i as int].path@, c),
                    ));
                },
                None => {},
            }
            i += 1;
        }
        assert(ev.take(i as int) =~= ev);
        assert(fv.take(i as int) =~= fv);
        r
    }
}

} // verus!
