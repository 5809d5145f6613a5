//! Adding files to the index: what a path that is gone from the working
//! tree removes, and whether an `add` goes ahead at all.
use vstd::prelude::*;
use crate::error::Error;
use crate::text::{
    chars_of, clone_string, decimal, is_prefix, push_decimal, push_str, starts_with, str_eq,
    strings_view,
};

verus! {

/// The command that stages files.
pub struct AddCommand;

/// How an `add` goes on once every path has been looked at.
#[derive(Debug, Clone, Copy, PartialEq, Eq, Structural)]
pub enum AddPlan {
    /// Nothing to add or remove: stop without an error.
    Nothing,
    /// Go on adding and removing.
    Proceed,
}

/// The directory prefix a path stands for: itself when it ends in `/`,
/// else itself followed by `/`.
pub open spec fn dir_prefix(p: Seq<char>) -> Seq<char> {
    if p.len() > 0 && p.last() == '/' {
        p
    } else {
        p.push('/')
    }
}

/// The index entries under a directory prefix, or equal to the path, in
/// index order.
pub open spec fn keys_under(path: Seq<char>, keys: Seq<Seq<char>>) -> Seq<Seq<char>>
    decreases keys.len(),
{
    if keys.len() == 0 {
        seq![]
    } else {
        keys_under(path, keys.drop_last()) + if is_prefix(dir_prefix(path), keys.last())
            || keys.last() == path {
            seq![keys.last()]
        } else {
            seq![]
        }
    }
}

/// The index entries that a path missing from the working tree removes:
/// the entry itself when the index has it, else every entry under it as a
/// directory.
pub open spec fn entries_removed(path: Seq<char>, keys: Seq<Seq<char>>) -> Seq<Seq<char>> {
    if keys.contains(path) {
        seq![path]
    } else {
        keys_under(path, keys)
    }
}


/// A list of (key, value) pairs as plain values.
pub open spec fn pairs_view(v: Seq<(String, String)>) -> Seq<(Seq<char>, Seq<char>)> {
    v.map_values(|p: (String, String)| (p.0@, p.1@))
}

/// The value of the first pair with the key.
pub open spec fn value_for(entries: Seq<(Seq<char>, Seq<char>)>, key: Seq<char>) -> Option<Seq<char>>
    decreases entries.len(),
{
    if entries.len() == 0 {
        None
    } else if entries[0].0 == key {
        Some(entries[0].1)
    } else {
        value_for(entries.drop_first(), key)
    }
}

/// No key occurs twice.
pub open spec fn distinct_keys(v: Seq<(Seq<char>, Seq<char>)>) -> bool {
    forall|i: int, j: int| 0 <= i < j < v.len() ==> v[i].0 != v[j].0
}

/// The paths queued for removal that the index has, in queue order.
pub open spec fn removed_paths(index: Seq<(Seq<char>, Seq<char>)>, del: Seq<Seq<char>>) -> Seq<Seq<char>>
    decreases del.len(),
{
    if del.len() == 0 {
        seq![]
    } else {
        removed_paths(index, del.drop_last()) + if value_for(index, del.last()) is Some {
            seq![del.last()]
        } else {
            seq![]
        }
    }
}

/// Whether a found file is already staged with the same content.
pub open spec fn is_unchanged(index: Seq<(Seq<char>, Seq<char>)>, f: (Seq<char>, Seq<char>)) -> bool {
    value_for(index, f.0) == Some(f.1)
}

/// The found files whose blob is written and whose entry is set: those
/// not already staged with the same content.
pub open spec fn staged_files(index: Seq<(Seq<char>, Seq<char>)>, found: Seq<(Seq<char>, Seq<char>)>) -> Seq<
    (Seq<char>, Seq<char>),
>
    decreases found.len(),
{
    if found.len() == 0 {
        seq![]
    } else {
        staged_files(index, found.drop_last()) + if is_unchanged(index, found.last()) {
            seq![]
        } else {
            seq![found.last()]
        }
    }
}

/// How many found files satisfy a test.
pub open spec fn count_where(
    found: Seq<(Seq<char>, Seq<char>)>,
    p: spec_fn((Seq<char>, Seq<char>)) -> bool,
) -> nat
    decreases found.len(),
{
    if found.len() == 0 {
        0
    } else {
        count_where(found.drop_last(), p) + if p(found.last()) {
            1nat
        } else {
            0nat
        }
    }
}

/// A found file that the HEAD tree does not have.
pub open spec fn is_new(head: Seq<(Seq<char>, Seq<char>)>, f: (Seq<char>, Seq<char>)) -> bool {
    value_for(head, f.0) is None
}

/// A found file that the HEAD tree has with other content.
pub open spec fn is_modified(head: Seq<(Seq<char>, Seq<char>)>, f: (Seq<char>, Seq<char>)) -> bool {
    match value_for(head, f.0) {
        Some(o) => o != f.1,
        None => false,
    }
}

/// An `add` leaves no found file behind: each is staged or already staged
/// with the same content, never both, so the staged and the unchanged
/// files together are as many as the files found; and it stages nothing
/// that was not found.
pub proof fn lemma_add_stages_each_found_file(
    index: Seq<(Seq<char>, Seq<char>)>,
    found: Seq<(Seq<char>, Seq<char>)>,
)
    ensures
        forall|k: int|
            0 <= k < found.len() ==> (staged_files(index, found).contains(#[trigger] found[k])
                || value_for(index, found[k].0) == Some(found[k].1)),
        forall|k: int|
            0 <= k < staged_files(index, found).len() ==> found.contains(
                #[trigger] staged_files(index, found)[k],
            ) && value_for(index, staged_files(index, found)[k].0) != Some(
                staged_files(index, found)[k].1,
            ),
        staged_files(index, found).len() + count_where(
            found,
            |f: (Seq<char>, Seq<char>)| is_unchanged(index, f),
        ) == found.len(),
    decreases found.len(),
{
    if found.len() > 0 {
        let f2 = found.drop_last();
        lemma_add_stages_each_found_file(index, f2);
        let rest = staged_files(index, f2);
        let all = staged_files(index, found);
        let x = found.last();
        assert(count_where(found, |f: (Seq<char>, Seq<char>)| is_unchanged(index, f))
            == count_where(f2, |f: (Seq<char>, Seq<char>)| is_unchanged(index, f)) + if is_unchanged(
            index,
            x,
        ) {
            1nat
        } else {
            0nat
        });
        assert forall|k: int| 0 <= k < found.len() implies (all.contains(#[trigger] found[k])
            || value_for(index, found[k].0) == Some(found[k].1)) by {
            if k < f2.len() {
                assert(f2[k] == found[k]);
                if rest.contains(f2[k]) {
                    let j = choose|j: int| 0 <= j < rest.len() && rest[j] == f2[k];
                    assert(all[j] == rest[j]);
                }
            } else if !is_unchanged(index, x) {
                assert(all[all.len() - 1] == x);
            }
        }
        assert forall|k: int| 0 <= k < all.len() implies found.contains(#[trigger] all[k])
            && value_for(index, all[k].0) != Some(all[k].1) by {
            if k < rest.len() {
                assert(all[k] == rest[k]);
                let j = choose|j: int| 0 <= j < f2.len() && f2[j] == rest[k];
                assert(found[j] == f2[j]);
            } else {
                assert(all[k] == x);
                assert(found[found.len() - 1] == x);
            }
        }
    }
}

/// `<n> <noun>`, with an `s` unless `n` is one.
pub open spec fn counted(n: nat, noun: Seq<char>) -> Seq<char> {
    decimal(n) + " "@ + noun + if n == 1 {
        seq![]
    } else {
        "s"@
    }
}

/// Two parts of a message joined by ` and `, or the second alone.
pub open spec fn and_join(a: Seq<char>, b: Seq<char>) -> Seq<char> {
    if a.len() == 0 {
        b
    } else {
        a + " and "@ + b
    }
}

/// What an `add` that changed the index did: the new, modified and deleted
/// files it names, or only how many files when it names none.
pub open spec fn change_message(new: nat, modified: nat, deleted: nat, added: nat) -> Seq<char> {
    let m1 = if new > 0 {
        counted(new, "new file"@)
    } else {
        seq![]
    };
    let m2 = if modified > 0 {
        and_join(m1, counted(modified, "modified file"@))
    } else {
        m1
    };
    let m3 = if deleted > 0 {
        and_join(m2, counted(deleted, "deleted file"@))
    } else {
        m2
    };
    if m3.len() == 0 {
        counted(added + deleted, "file"@)
    } else {
        m3
    }
}

/// The line an `add` ends with (before the time it took, which follows
/// when it changed the index).
pub open spec fn add_summary(new: nat, modified: nat, deleted: nat, added: nat, unchanged: nat) -> Seq<
    char,
> {
    if added + deleted > 0 {
        change_message(new, modified, deleted, added) + " added to index"@ + if unchanged > 0 {
            ", "@ + counted(unchanged, "file"@) + " unchanged"@
        } else {
            seq![]
        }
    } else if unchanged > 0 {
        "No files changed, "@ + counted(unchanged, "file"@) + " already up to date"@
    } else {
        "No changes were made to the index"@
    }
}

/// What an `add` does to the index once its paths have been looked at.
pub struct AddOutcome {
    /// The index entries removed, in queue order.
    pub removed: Vec<String>,
    /// The files whose blob is stored and whose entry is set, with their
    /// content ids.
    pub staged: Vec<(String, String)>,
    /// How many found files were already staged with the same content.
    pub unchanged: usize,
    /// The closing line.
    pub summary: String,
}

/// The position of the first pair with the key.
pub(crate) fn find_value(entries: &Vec<(String, String)>, key: &str) -> (r: Option<usize>)
    ensures
        match r {
            Some(i) => i < entries.len() && value_for(pairs_view(entries@), key@) == Some(
                entries@[i as int].1@,
            ),
            None => value_for(pairs_view(entries@), key@) is None,
        },
{
    let ghost pv = pairs_view(entries@);
    let mut i: usize = 0;
    assert(pv.skip(0) =~= pv);
    while i < entries.len()
        invariant
            i <= entries.len(),
            pv == pairs_view(entries@),
            value_for(pv, key@) == value_for(pv.skip(i as int), key@),
        decreases entries.len() - i,
    {
        assert(pv.skip(i as int)[0] == pv[i as int]);
        if str_eq(entries[i].0.as_str(), key) {
            return Some(i);
        }
        assert(pv.skip(i as int).drop_first() =~= pv.skip(i + 1));
        i += 1;
    }
    assert(pv.skip(i as int).len() == 0);
    None
}

/// Appends `<n> <noun>`, with an `s` unless `n` is one.
fn push_counted(s: &mut String, n: usize, noun: &str)
    ensures
        final(s)@ == old(s)@ + counted(n as nat, noun@),
{
    push_decimal(s, n as u64);
    push_str(s, " ");
    push_str(s, noun);
    if n != 1 {
        push_str(s, "s");
    }
}

/// Appends ` and ` when the message so far is not empty.
fn push_and(s: &mut String)
    ensures
        old(s)@.len() == 0 ==> final(s)@ == old(s)@,
        old(s)@.len() > 0 ==> final(s)@ == old(s)@ + " and "@,
{
    if !s.as_str().is_empty() {
        push_str(s, " and ");
    }
}

impl AddCommand {
    /// The index entries removed for a path that is gone from the working
    /// tree, given the index's paths in order.
    pub fn entries_for_missing_path(path: &str, keys: &Vec<String>) -> (r: Vec<String>)
        ensures
            strings_view(r@) == entries_removed(path@, strings_view(keys@)),
    {
        let ghost kv = strings_view(keys@);
        let mut i: usize = 0;
        while i < keys.len()
            invariant
                i <= keys.len(),
                kv == strings_view(keys@),
                forall|j: int| 0 <= j < i ==> kv[j] != path@,
            decreases keys.len() - i,
        {
            if str_eq(keys[i].as_str(), path) {
                assert(kv[i as int] == path@);
                assert(kv.contains(path@));
                let mut r: Vec<String> = Vec::new();
                r.push(path.to_owned());
                assert(strings_view(r@) =~= seq![path@]);
                return r;
            }
            i += 1;
        }
        assert(!kv.contains(path@));
        let p = chars_of(path);
        let mut prefix = chars_of(path);
        if !(p.len() > 0 && p[p.len() - 1] == '/') {
            prefix.push('/');
        }
        assert(prefix@ == dir_prefix(path@));
        let mut r: Vec<String> = Vec::new();
        let mut i: usize = 0;
        while i < keys.len()
            invariant
                i <= keys.len(),
                kv == strings_view(keys@),
                prefix@ == dir_prefix(path@),
                strings_view(r@) == keys_under(path@, kv.take(i as int)),
            decreases keys.len() - i,
        {
            assert(kv.take(i + 1).drop_last() =~= kv.take(i as int));
            let ghost before = strings_view(r@);
            let k = chars_of(keys[i].as_str());
            if starts_with(k.as_slice(), prefix.as_slice()) || str_eq(keys[i].as_str(), path) {
                r.push(clone_string(&keys[i]));
                assert(strings_view(r@) =~= before.push(kv[i as int]));
            } else {
                assert(strings_view(r@) =~= before + Seq::<Seq<char>>::empty());
            }
            i += 1;
        }
        assert(kv.take(i as int) =~= kv);
        r
    }

    /// Whether an `add` goes ahead: refused without paths; refused when a
    /// path matched nothing, no directory was removed and there is nothing
    /// to add or remove; stopped quietly when there is nothing to add or
    /// remove.
    pub fn plan(
        path_count: usize,
        had_missing: bool,
        removed_directory: bool,
        to_add: usize,
        to_remove: usize,
    ) -> (r: Result<AddPlan, Error>)
        ensures
            path_count == 0 ==> (r matches Err(Error::Generic(m)) && m@
                == "No paths specified for add command"@),
            path_count > 0 && had_missing && !removed_directory && to_add == 0 && to_remove == 0 ==> (
            r matches Err(Error::Generic(m)) && m@ == "Adding files failed: some paths don't exist"@),
            path_count > 0 && !(had_missing && !removed_directory) && to_add == 0 && to_remove == 0
                ==> (r matches Ok(p) && p == AddPlan::Nothing),
            path_count > 0 && (to_add > 0 || to_remove > 0) ==> (r matches Ok(p) && p
                == AddPlan::Proceed),
    {
        if path_count == 0 {
            return Err(Error::Generic("No paths specified for add command".to_owned()));
        }
        if had_missing && !removed_directory && to_add == 0 && to_remove == 0 {
            Err(Error::Generic("Adding files failed: some paths don't exist".to_owned()))
        } else if to_add == 0 && to_remove == 0 {
            Ok(AddPlan::Nothing)
        } else {
            Ok(AddPlan::Proceed)
        }
    }

    /// What an `add` does to the index, given the index's entries, the
    /// paths queued for removal, the files found with the ids of their
    /// content, and the files of the HEAD tree: it removes the queued paths
    /// the index has, stages the found files whose content differs from
    /// what is staged, counts those already staged as they are, and sums
    /// up with the new, modified and deleted files. Each path is taken as
    /// often as it is listed, so the caller lists each once.
    pub fn add_outcome(
        index: &Vec<(String, String)>,
        to_delete: &Vec<String>,
        found: &Vec<(String, String)>,
        head_files: &Vec<(String, String)>,
    ) -> (r: AddOutcome)
        ensures
            strings_view(r.removed@) == removed_paths(pairs_view(index@), strings_view(to_delete@)),
            pairs_view(r.staged@) == staged_files(pairs_view(index@), pairs_view(found@)),
            r.unchanged == count_where(
                pairs_view(found@),
                |f: (Seq<char>, Seq<char>)| is_unchanged(pairs_view(index@), f),
            ),
            r.summary@ == add_summary(
                count_where(
                    pairs_view(found@),
                    |f: (Seq<char>, Seq<char>)| is_new(pairs_view(head_files@), f),
                ),
                count_where(
                    pairs_view(found@),
                    |f: (Seq<char>, Seq<char>)| is_modified(pairs_view(head_files@), f),
                ),
                r.removed.len() as nat,
                r.staged.len() as nat,
                r.unchanged as nat,
            ),
    {
        let ghost iv = pairs_view(index@);
        let ghost dv = strings_view(to_delete@);
        let ghost fv = pairs_view(found@);
        let ghost hv = pairs_view(head_files@);
        let ghost unch = |f: (Seq<char>, Seq<char>)| is_unchanged(iv, f);
        let ghost newp = |f: (Seq<char>, Seq<char>)| is_new(hv, f);
        let ghost modp = |f: (Seq<char>, Seq<char>)| is_modified(hv, f);
        let mut removed: Vec<String> = Vec::new();
        let mut i: usize = 0;
        while i < to_delete.len()
            invariant
                i <= to_delete.len(),
                iv == pairs_view(index@),
                dv == strings_view(to_delete@),
                removed.len() <= i,
                strings_view(removed@) == removed_paths(iv, dv.take(i as int)),
            decreases to_delete.len() - i,
        {
            assert(dv.take(i + 1).drop_last() =~= dv.take(i as int));
            let ghost before = strings_view(removed@);
            match find_value(index, to_delete[i].as_str()) {
                Some(_) => {
                    removed.push(clone_string(&to_delete[i]));
                    assert(strings_view(removed@) =~= before.push(dv[i as int]));
                },
                None => {
                    assert(strings_view(removed@) =~= before + Seq::<Seq<char>>::empty());
                },
            }
            i += 1;
        }
        assert(dv.take(to_delete.len() as int) =~= dv);
        let mut staged: Vec<(String, String)> = Vec::new();
        let mut unchanged: usize = 0;
        let mut new_files: usize = 0;
        let mut modified: usize = 0;
        let mut j: usize = 0;
        while j < found.len()
            invariant
                j <= found.len(),
                iv == pairs_view(index@),
                fv == pairs_view(found@),
                hv == pairs_view(head_files@),
                unch == (|f: (Seq<char>, Seq<char>)| is_unchanged(iv, f)),
                newp == (|f: (Seq<char>, Seq<char>)| is_new(hv, f)),
                modp == (|f: (Seq<char>, Seq<char>)| is_modified(hv, f)),
                staged.len() <= j,
                unchanged <= j,
                new_files <= j,
                modified <= j,
                pairs_view(staged@) == staged_files(iv, fv.take(j as int)),
                unchanged == count_where(fv.take(j as int), unch),
                new_files == count_where(fv.take(j as int), newp),
                modified == count_where(fv.take(j as int), modp),
            decreases found.len() - j,
        {
            assert(fv.take(j + 1).drop_last() =~= fv.take(j as int));
            assert(fv.take(j + 1).last() == fv[j as int]);
            let ghost before = pairs_view(staged@);
            let path = found[j].0.as_str();
            let oid = found[j].1.as_str();
            let same = match find_value(index, path) {
                Some(k) => str_eq(index[k].1.as_str(), oid),
                None => false,
            };
            if same {
                unchanged += 1;
                assert(staged_files(iv, fv.take(j + 1)) =~= before + Seq::<
                    (Seq<char>, Seq<char>),
                >::empty());
            } else {
                staged.push((clone_string(&found[j].0), clone_string(&found[j].1)));
                assert(pairs_view(staged@) =~= before.push(fv[j as int]));
            }
            match find_value(head_files, path) {
                Some(k) => {
                    if !str_eq(head_files[k].1.as_str(), oid) {
                        modified += 1;
                    }
                },
                None => {
                    new_files += 1;
                },
            }
            j += 1;
        }
        assert(fv.take(found.len() as int) =~= fv);
        let deleted = removed.len();
        let added = staged.len();
        let mut summary = String::new();
        if added > 0 || deleted > 0 {
            if new_files > 0 {
                push_counted(&mut summary, new_files, "new file");
            }
            if modified > 0 {
                push_and(&mut summary);
                push_counted(&mut summary, modified, "modified file");
            }
            if deleted > 0 {
                push_and(&mut summary);
                push_counted(&mut summary, deleted, "deleted file");
            }
            if summary.as_str().is_empty() {
                proof {
                    reveal_strlit("deleted file");
                }
                assert(deleted == 0);
                push_counted(&mut summary, added, "file");
            }
            push_str(&mut summary, " added to index");
            if unchanged > 0 {
                push_str(&mut summary, ", ");
                push_counted(&mut summary, unchanged, "file");
                push_str(&mut summary, " unchanged");
            }
        } else if unchanged > 0 {
            push_str(&mut summary, "No files changed, ");
            push_counted(&mut summary, unchanged, "file");
            push_str(&mut summary, " already up to date");
        } else {
            push_str(&mut summary, "No changes were made to the index");
        }
        AddOutcome { removed, staged, unchanged, summary }
    }

}

} // verus!
