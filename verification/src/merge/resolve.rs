//! Decisions of a merge of trees that do not need the repository: which
//! object and which mode a path ends up with, and the merged text of a file
//! that both sides changed.
use vstd::prelude::*;
use crate::codec::{lossy_text, utf8_lossy};
use crate::database::database::Database;
use crate::error::Error;
use crate::file_mode::FileMode;
use crate::merge::diff3::{
    all_clean, lines_with_endings, merge, merged_text, name_view, run, start, texts_of,
};
use crate::refs::{parent_chars, parent_in, parent_path};
use crate::repository::inspector::blob_id;
use crate::merge::diff3::split_lines_with_endings;
use crate::repository::migration::{add_once, push_once, DatabaseEntry, DiffEntry};
use crate::text::{
    chars_of, clone_string, decimal, octal, parse_unsigned, push_str, str_bytes, str_eq,
    string_from_chars, strings_view,
};

verus! {

/// An optional object id as characters.
pub open spec fn opt_str_view(o: Option<&str>) -> Option<Seq<char>> {
    match o {
        Some(s) => Some(s@),
        None => None,
    }
}

/// The object a path gets when it can be decided without looking at the
/// contents: the common value if both sides agree, the other side if one
/// side kept the base; `None` otherwise (also when both sides agree on
/// having none).
pub open spec fn merge3_oid_spec(
    base: Option<Seq<char>>,
    left: Option<Seq<char>>,
    right: Option<Seq<char>>,
) -> Option<Seq<char>> {
    if left == right {
        left
    } else if left == base {
        right
    } else if right == base {
        left
    } else {
        None
    }
}

fn opt_str_eq(x: Option<&str>, y: Option<&str>) -> (r: bool)
    ensures
        r == (opt_str_view(x) == opt_str_view(y)),
{
    match (x, y) {
        (Some(a), Some(b)) => str_eq(a, b),
        (None, None) => true,
        _ => false,
    }
}

/// The object a path gets without looking at the contents, if that can be
/// decided.
pub fn merge3_oid<'b>(base: Option<&'b str>, left: Option<&'b str>, right: Option<&'b str>) -> (r:
    Option<&'b str>)
    ensures
        opt_str_view(r) == merge3_oid_spec(opt_str_view(base), opt_str_view(left), opt_str_view(right)),
{
    if opt_str_eq(left, right) {
        return left;
    }
    if opt_str_eq(left, base) {
        return right;
    }
    if opt_str_eq(right, base) {
        return left;
    }
    None
}

/// The mode a path gets, and whether it merged without conflict: the other
/// side's mode where one side kept the base's or both agree; a conflict
/// where both changed it differently, or one side deleted the path.
/// A missing mode is taken as a regular file's.
pub open spec fn merge_modes_spec(
    base: Option<FileMode>,
    left: Option<FileMode>,
    right: Option<FileMode>,
) -> (bool, FileMode) {
    let or_regular = |m: Option<FileMode>|
        match m {
            Some(x) => x,
            None => FileMode(0o100644),
        };
    if left == base || left == right {
        (true, or_regular(right))
    } else if right == base {
        (true, or_regular(left))
    } else if left is None {
        (right is None, or_regular(right))
    } else if right is None {
        (false, or_regular(left))
    } else {
        (false, or_regular(left))
    }
}

fn mode_eq(x: Option<FileMode>, y: Option<FileMode>) -> (r: bool)
    ensures
        r == (x == y),
{
    match (x, y) {
        (Some(a), Some(b)) => a.0 == b.0,
        (None, None) => true,
        _ => false,
    }
}

fn or_regular(m: Option<FileMode>) -> (r: FileMode)
    ensures
        r == (match m {
            Some(x) => x,
            None => FileMode(0o100644),
        }),
{
    match m {
        Some(x) => x,
        None => FileMode::regular(),
    }
}

/// The mode a path gets in a merge, and whether it merged cleanly.
pub fn merge_modes(base: Option<FileMode>, left: Option<FileMode>, right: Option<FileMode>) -> (r: (
    bool,
    FileMode,
))
    ensures
        r == merge_modes_spec(base, left, right),
{
    if mode_eq(left, base) || mode_eq(left, right) {
        return (true, or_regular(right));
    }
    if mode_eq(right, base) {
        return (true, or_regular(left));
    }
    if left.is_none() {
        return (right.is_none(), or_regular(right));
    }
    if right.is_none() {
        return (false, or_regular(left));
    }
    (false, or_regular(left))
}

/// The laws of a three-way choice of object: what both sides agree on is
/// kept, a side that kept the base yields to the other, the two sides can
/// be swapped, and three different values cannot be decided.
pub proof fn lemma_merge3_oid_laws(
    base: Option<Seq<char>>,
    left: Option<Seq<char>>,
    right: Option<Seq<char>>,
)
    ensures
        merge3_oid_spec(base, left, left) == left,
        merge3_oid_spec(base, base, right) == right,
        merge3_oid_spec(base, left, base) == left,
        merge3_oid_spec(base, left, right) == merge3_oid_spec(base, right, left),
        left != base && right != base && left != right ==> merge3_oid_spec(base, left, right)
            is None,
{
}

/// A mode merges cleanly exactly when a side kept the base's or both
/// agree, and then to the changed side's mode (a regular file's when that
/// side has none).
pub proof fn lemma_merge_modes_laws(
    base: Option<FileMode>,
    left: Option<FileMode>,
    right: Option<FileMode>,
)
    ensures
        merge_modes_spec(base, left, right).0 == (left == base || right == base || left == right),
        left == base || left == right ==> merge_modes_spec(base, left, right).1 == (match right {
            Some(x) => x,
            None => FileMode(0o100644),
        }),
        right == base ==> merge_modes_spec(base, left, right).1 == (match left {
            Some(x) => x,
            None => FileMode(0o100644),
        }),
{
}

/// A full object id: forty hexadecimal digits.
pub open spec fn is_full_oid(s: Seq<char>) -> bool {
    s.len() == 40 && forall|i: int|
        0 <= i < s.len() ==> #[trigger] is_hex_digit(s[i])
}

/// An ASCII hexadecimal digit.
pub open spec fn is_hex_digit(c: char) -> bool {
    ('0' <= c && c <= '9') || ('a' <= c && c <= 'f') || ('A' <= c && c <= 'F')
}

/// Whether a string is a full object id, so that its contents can be
/// loaded for a merge.
pub fn full_oid(s: &str) -> (r: bool)
    ensures
        r == is_full_oid(s@),
{
    let c = chars_of(s);
    if c.len() != 40 {
        return false;
    }
    let mut i: usize = 0;
    while i < c.len()
        invariant
            c@ == s@,
            i <= c.len(),
            forall|j: int| 0 <= j < i ==> #[trigger] is_hex_digit(c@[j]),
        decreases c.len() - i,
    {
        let ch = c[i];
        if !(('0' <= ch && ch <= '9') || ('a' <= ch && ch <= 'f') || ('A' <= ch && ch <= 'F')) {
            assert(!is_hex_digit(s@[i as int]));
            return false;
        }
        i += 1;
    }
    true
}

/// The merged text of a file that both sides changed, with the sides'
/// names on conflict markers, and whether it merged cleanly.
pub fn merge_blob_text(
    base: &str,
    left: &str,
    right: &str,
    left_name: &str,
    right_name: &str,
) -> (r: (bool, String))
    requires
        2 * (lines_with_endings(base@).len() + lines_with_endings(left@).len() + lines_with_endings(
            right@,
        ).len()) + 4 <= usize::MAX,
    ensures
        ({
            let cs = run(
                texts_of(
                    lines_with_endings(base@),
                    lines_with_endings(left@),
                    lines_with_endings(right@),
                ),
                start(),
            );
            r.0 == all_clean(cs) && r.1@ == merged_text(cs, Some(left_name@), Some(right_name@))
        }),
{
    let m = merge(base, left, right);
    match m {
        Ok(result) => {
            let text = result.to_string(Some(left_name), Some(right_name));
            (result.is_clean(), text)
        },
        Err(_) => {
            assert(false);
            (false, String::new())
        },
    }
}


/// A tree item as its id and mode text.
pub open spec fn ev(e: DatabaseEntry) -> (Seq<char>, Seq<char>) {
    (e.oid@, e.mode@)
}

/// An optional tree item as its id and mode text.
pub open spec fn oev(e: Option<DatabaseEntry>) -> Option<(Seq<char>, Seq<char>)> {
    match e {
        Some(x) => Some(ev(x)),
        None => None,
    }
}

/// The number a mode text stands for: read in octal, a regular file's
/// when it does not read.
pub open spec fn mode_num(m: Seq<char>) -> nat {
    match parse_unsigned(m, 8, u32::MAX as nat) {
        Some(v) => v,
        None => 0o100644,
    }
}

/// Whether an item is a directory.
pub open spec fn is_dir_item(e: Option<(Seq<char>, Seq<char>)>) -> bool {
    match e {
        Some((_, m)) => mode_num(m) == 0o040000,
        None => false,
    }
}

/// The mode of an item.
pub open spec fn mode_of(e: Option<(Seq<char>, Seq<char>)>) -> Option<FileMode> {
    match e {
        Some((_, m)) => Some(FileMode(mode_num(m) as u32)),
        None => None,
    }
}

/// The id of an item.
pub open spec fn oid_of(e: Option<(Seq<char>, Seq<char>)>) -> Option<Seq<char>> {
    match e {
        Some((o, _)) => Some(o),
        None => None,
    }
}

/// The first change of a difference at a path.
pub open spec fn diff_lookup(d: Seq<DiffEntry>, p: Seq<char>) -> Option<DiffEntry>
    decreases d.len(),
{
    if d.len() == 0 {
        None
    } else if d[0].path@ == p {
        Some(d[0])
    } else {
        diff_lookup(d.drop_first(), p)
    }
}

/// A path's item in the merge base: as the left difference has it, else
/// as the right one has it.
pub open spec fn base_of(ld: Seq<DiffEntry>, rd: Seq<DiffEntry>, p: Seq<char>) -> Option<
    (Seq<char>, Seq<char>),
> {
    let l = match diff_lookup(ld, p) {
        Some(x) => oev(x.old),
        None => None,
    };
    if l is Some {
        l
    } else {
        match diff_lookup(rd, p) {
            Some(y) => oev(y.old),
            None => None,
        }
    }
}

/// A path's item on a side, as its difference has it.
pub open spec fn side_of(d: Seq<DiffEntry>, p: Seq<char>) -> Option<(Seq<char>, Seq<char>)> {
    match diff_lookup(d, p) {
        Some(x) => oev(x.new),
        None => None,
    }
}

/// The first position of a key.
pub open spec fn key_pos(keys: Seq<Seq<char>>, k: Seq<char>) -> Option<int>
    decreases keys.len(),
{
    if keys.len() == 0 {
        None
    } else if keys[0] == k {
        Some(0)
    } else {
        match key_pos(keys.drop_first(), k) {
            Some(i) => Some(i + 1),
            None => None,
        }
    }
}

/// The nearest parent directory of a path where the other side has a file,
/// if there is one.
pub open spec fn parent_file(p: Seq<char>, other: Seq<DiffEntry>) -> Option<Seq<char>>
    decreases p.len(),
{
    if p.len() == 0 {
        None
    } else {
        let q = parent_path(p);
        if q.len() == 0 || q.len() >= p.len() {
            None
        } else {
            match diff_lookup(other, q) {
                Some(x) => if x.new is Some && !is_dir_item(oev(x.new)) {
                    Some(q)
                } else {
                    parent_file(q, other)
                },
                None => parent_file(q, other),
            }
        }
    }
}

proof fn lemma_parent_in_shorter(p: Seq<char>)
    ensures
        parent_in(p).len() <= p.len(),
        p.len() > 0 ==> parent_in(p).len() < p.len(),
    decreases p.len(),
{
    if p.len() > 0 && p.last() != '/' {
        lemma_parent_in_shorter(p.drop_last());
    }
}

/// A parent is shorter than its path.
proof fn lemma_parent_shorter(p: Seq<char>)
    ensures
        p.len() > 0 ==> parent_path(p).len() < p.len(),
    decreases p.len(),
{
    if p.len() > 0 {
        if p.last() == '/' {
            lemma_parent_shorter(p.drop_last());
            assert(parent_path(p) == parent_path(p.drop_last()));
        } else {
            lemma_parent_in_shorter(p.drop_last());
            assert(parent_path(p) == parent_in(p.drop_last()));
        }
    }
}

/// A copy of a tree item.
fn copy_entry(e: &DatabaseEntry) -> (r: DatabaseEntry)
    ensures
        ev(r) == ev(*e),
{
    DatabaseEntry { oid: clone_string(&e.oid), mode: clone_string(&e.mode) }
}

/// A copy of an optional tree item.
fn copy_opt(e: &Option<DatabaseEntry>) -> (r: Option<DatabaseEntry>)
    ensures
        oev(r) == oev(*e),
{
    match e {
        Some(x) => Some(copy_entry(x)),
        None => None,
    }
}

/// The first change of a difference at a path, by position.
fn lookup_at(d: &Vec<DiffEntry>, p: &str) -> (r: Option<usize>)
    ensures
        match r {
            Some(i) => i < d.len() && diff_lookup(d@, p@) == Some(d@[i as int]),
            None => diff_lookup(d@, p@) is None,
        },
{
    let mut i: usize = 0;
    assert(d@.skip(0) =~= d@);
    while i < d.len()
        invariant
            i <= d.len(),
            diff_lookup(d@, p@) == diff_lookup(d@.skip(i as int), p@),
        decreases d.len() - i,
    {
        assert(d@.skip(i as int).drop_first() =~= d@.skip(i + 1));
        if str_eq(d[i].path.as_str(), p) {
            return Some(i);
        }
        i += 1;
    }
    None
}

/// The first position of a key.
fn find_key(keys: &Vec<String>, k: &str) -> (r: Option<usize>)
    ensures
        match r {
            Some(i) => key_pos(strings_view(keys@), k@) == Some(i as int) && i < keys.len(),
            None => key_pos(strings_view(keys@), k@) is None,
        },
{
    let ghost kv = strings_view(keys@);
    let mut i: usize = 0;
    assert(kv.skip(0) =~= kv);
    while i < keys.len()
        invariant
            i <= keys.len(),
            kv == strings_view(keys@),
            key_pos(kv, k@) == match key_pos(kv.skip(i as int), k@) {
                Some(j) => Some(j + i),
                None => None,
            },
        decreases keys.len() - i,
    {
        assert(kv.skip(i as int).drop_first() =~= kv.skip(i + 1));
        assert(kv.skip(i as int)[0] == keys@[i as int]@);
        if str_eq(keys[i].as_str(), k) {
            return Some(i);
        }
        i += 1;
    }
    None
}

/// Whether an item's mode reads as a directory's.
fn entry_is_dir(e: &Option<DatabaseEntry>) -> (r: bool)
    ensures
        r == is_dir_item(oev(*e)),
{
    match e {
        Some(x) => FileMode::parse(x.mode.as_str()).is_directory(),
        None => false,
    }
}

/// The nearest parent directory of a path where the other side has a file.
fn find_parent_file(p: &str, other: &Vec<DiffEntry>) -> (r: Option<String>)
    ensures
        match r {
            Some(q) => parent_file(p@, other@) == Some(q@),
            None => parent_file(p@, other@) is None,
        },
{
    let mut cur = chars_of(p);
    proof {
        lemma_parent_shorter(cur@);
    }
    while cur.len() > 0
        invariant
            parent_file(p@, other@) == parent_file(cur@, other@),
        decreases cur.len(),
    {
        let q = parent_chars(cur.as_slice());
        proof {
            lemma_parent_shorter(cur@);
        }
        if q.len() == 0 || q.len() >= cur.len() {
            return None;
        }
        let qs = string_from_chars(q.as_slice());
        match lookup_at(other, qs.as_str()) {
            Some(i) => {
                if other[i].new.is_some() && !entry_is_dir(&other[i].new) {
                    return Some(qs);
                }
            },
            None => {},
        }
        cur = q;
    }
    None
}


/// An optional tree item as values.
pub type Item = Option<(Seq<char>, Seq<char>)>;

/// What the preparation of a merge has found: the clean changes by path
/// (the base item and the new one), the conflicts by path (base, left and
/// right items), the files renamed out of the way by their new path, and
/// the messages.
#[verifier::ext_equal]
pub ghost struct ResView {
    pub clean_keys: Seq<Seq<char>>,
    pub clean_vals: Seq<(Item, Item)>,
    pub conf_keys: Seq<Seq<char>>,
    pub conf_vals: Seq<(Item, Item, Item)>,
    pub untr_keys: Seq<Seq<char>>,
    pub untr_vals: Seq<(Seq<char>, Seq<char>)>,
    pub log: Seq<Seq<char>>,
}

/// A clean change recorded for a path, replacing one recorded before.
pub open spec fn put_clean(st: ResView, k: Seq<char>, v: (Item, Item)) -> ResView {
    match key_pos(st.clean_keys, k) {
        Some(i) => ResView { clean_vals: st.clean_vals.update(i, v), ..st },
        None => ResView { clean_keys: st.clean_keys.push(k), clean_vals: st.clean_vals.push(v), ..st },
    }
}

/// The clean change of a path taken back.
pub open spec fn drop_clean(st: ResView, k: Seq<char>) -> ResView {
    match key_pos(st.clean_keys, k) {
        Some(i) => ResView {
            clean_keys: st.clean_keys.remove(i),
            clean_vals: st.clean_vals.remove(i),
            ..st
        },
        None => st,
    }
}

/// A conflict recorded for a path.
pub open spec fn put_conf(st: ResView, k: Seq<char>, v: (Item, Item, Item)) -> ResView {
    match key_pos(st.conf_keys, k) {
        Some(i) => ResView { conf_vals: st.conf_vals.update(i, v), ..st },
        None => ResView { conf_keys: st.conf_keys.push(k), conf_vals: st.conf_vals.push(v), ..st },
    }
}

/// A file recorded to be written under a new path.
pub open spec fn put_untr(st: ResView, k: Seq<char>, v: (Seq<char>, Seq<char>)) -> ResView {
    match key_pos(st.untr_keys, k) {
        Some(i) => ResView { untr_vals: st.untr_vals.update(i, v), ..st },
        None => ResView { untr_keys: st.untr_keys.push(k), untr_vals: st.untr_vals.push(v), ..st },
    }
}

/// A message added.
pub open spec fn log_push(st: ResView, m: Seq<char>) -> ResView {
    ResView { log: st.log.push(m), ..st }
}

/// The first stored content of an object.
pub open spec fn blob_lookup(blobs: Seq<(String, Vec<u8>)>, oid: Seq<char>) -> Option<Seq<u8>>
    decreases blobs.len(),
{
    if blobs.len() == 0 {
        None
    } else if blobs[0].0@ == oid {
        Some(blobs[0].1@)
    } else {
        blob_lookup(blobs.drop_first(), oid)
    }
}

/// The text of a side in a content merge: empty without an item or for an
/// id that is not a full one; `None` when the object is missing.
pub open spec fn blob_text(blobs: Seq<(String, Vec<u8>)>, oid: Option<Seq<char>>) -> Option<Seq<char>> {
    match oid {
        None => Some(seq![]),
        Some(o) => if is_full_oid(o) {
            match blob_lookup(blobs, o) {
                Some(b) => Some(lossy_text(b)),
                None => None,
            }
        } else {
            Some(seq![])
        },
    }
}

/// The content merge of a file both sides changed: the id decided without
/// the contents when it can be, else whether the three-way merge of the
/// texts is clean and the id of the merged text; the missing object, or a
/// merge too large for the machine, is an error.
pub open spec fn blob_merge(
    blobs: Seq<(String, Vec<u8>)>,
    ln: Seq<char>,
    rn: Seq<char>,
    b: Option<Seq<char>>,
    l: Option<Seq<char>>,
    r: Option<Seq<char>>,
) -> Result<(bool, Seq<char>), Seq<char>> {
    match merge3_oid_spec(b, l, r) {
        Some(o) => Ok((true, o)),
        None => match (blob_text(blobs, b), blob_text(blobs, l), blob_text(blobs, r)) {
            (Some(tb), Some(tl), Some(tr)) => if 2 * (lines_with_endings(tb).len() + lines_with_endings(
                tl,
            ).len() + lines_with_endings(tr).len()) + 4 > usize::MAX {
                Err("Files too large to merge"@)
            } else {
                let cs = run(
                    texts_of(lines_with_endings(tb), lines_with_endings(tl), lines_with_endings(tr)),
                    start(),
                );
                Ok(
                    (
                        all_clean(cs),
                        blob_id(vstd::utf8::encode_utf8(merged_text(cs, Some(ln), Some(rn)))),
                    ),
                )
            },
            (None, _, _) => Err("Object not found: "@ + b->0),
            (_, None, _) => Err("Object not found: "@ + l->0),
            (_, _, None) => Err("Object not found: "@ + r->0),
        },
    }
}

/// A file on one side where the other has a directory: the conflict, the
/// file renamed to `<path>~<branch>`, and the messages.
pub open spec fn fd_conflict(
    st: ResView,
    p: Seq<char>,
    base: Item,
    file: (Seq<char>, Seq<char>),
    branch: Seq<char>,
    ln: Seq<char>,
) -> ResView {
    if key_pos(st.conf_keys, p) is Some {
        st
    } else {
        let lr: (Item, Item) = if branch == ln {
            (Some(file), None)
        } else {
            (None, Some(file))
        };
        let rename = p + "~"@ + branch;
        let s1 = drop_clean(put_conf(st, p, (base, lr.0, lr.1)), p);
        let s2 = put_untr(s1, rename, file);
        log_push(
            log_push(
                s2,
                "CONFLICT (file/directory): '"@ + p + "' is a file in branch '"@ + branch
                    + "' and a directory in the other."@,
            ),
            "  Renaming file version to "@ + rename + " to avoid data loss."@,
        )
    }
}

/// The message for a conflict just recorded, by its items.
pub open spec fn log_conflict(
    st: ResView,
    p: Seq<char>,
    base: Item,
    left: Item,
    right: Item,
    rename: Option<Seq<char>>,
    ln: Seq<char>,
    rn: Seq<char>,
) -> ResView {
    if left is Some && right is Some {
        log_push(
            st,
            "CONFLICT ("@ + (if base is Some {
                "content"@
            } else {
                "add/add"@
            }) + "): Merge conflict in "@ + p,
        )
    } else if base is Some && (left is Some || right is Some) {
        let deleted = if left is Some {
            rn
        } else {
            ln
        };
        let modified = if left is Some {
            ln
        } else {
            rn
        };
        log_push(
            st,
            "CONFLICT (modify/delete): "@ + p + " deleted in "@ + deleted + " and modified in "@
                + modified + ". Version "@ + modified + " of "@ + p + " left in tree"@ + match rename {
                Some(r) => " at "@ + r,
                None => seq![],
            } + "."@,
        )
    } else {
        match rename {
            Some(r) => log_push(
                st,
                "CONFLICT ("@ + (if left is Some {
                    "file/directory"@
                } else {
                    "directory/file"@
                }) + "): There is a directory with name "@ + p + " in "@ + (if left is Some {
                    rn
                } else {
                    ln
                }) + ". Adding "@ + p + " as "@ + r,
            ),
            None => st,
        }
    }
}

/// What a path's three items give: a file/directory conflict; a clean
/// change when both sides agree on something new; else the merged mode and
/// object (by content for files), a clean change when that differs from the
/// base, and a conflict when either did not merge.
pub open spec fn same_path_step(
    st: ResView,
    p: Seq<char>,
    base: Item,
    left: Item,
    right: Item,
    ln: Seq<char>,
    rn: Seq<char>,
    blobs: Seq<(String, Vec<u8>)>,
) -> Result<ResView, Seq<char>> {
    let ld = is_dir_item(left);
    let rd = is_dir_item(right);
    if key_pos(st.conf_keys, p) is Some {
        Ok(st)
    } else if left is Some && right is Some && ld != rd {
        if ld {
            Ok(fd_conflict(st, p, base, right->0, rn, ln))
        } else {
            Ok(fd_conflict(st, p, base, left->0, ln, ln))
        }
    } else if left == right {
        if left is Some && left != base {
            Ok(put_clean(st, p, (base, left)))
        } else {
            Ok(st)
        }
    } else {
        let s1 = if left is Some && right is Some && left != base && right != base && !ld && !rd {
            log_push(st, "Auto-merging "@ + p)
        } else {
            st
        };
        let modes = merge_modes_spec(mode_of(base), mode_of(left), mode_of(right));
        let merged = if ld || rd {
            match merge3_oid_spec(oid_of(base), oid_of(left), oid_of(right)) {
                Some(o) => Ok((true, o)),
                None => Ok(
                    (
                        false,
                        match oid_of(left) {
                            Some(o) => o,
                            None => seq![],
                        },
                    ),
                ),
            }
        } else {
            blob_merge(blobs, ln, rn, oid_of(base), oid_of(left), oid_of(right))
        };
        match merged {
            Err(m) => Err(m),
            Ok((oid_ok, moid)) => {
                let me: Item = if (left is Some || right is Some) && moid.len() > 0 {
                    Some((moid, octal(modes.1.0 as nat)))
                } else {
                    None
                };
                let s2 = if me != base {
                    put_clean(s1, p, (base, me))
                } else {
                    s1
                };
                if !oid_ok || !modes.0 {
                    let rename = if ld && right is Some {
                        Some(p + "~"@ + rn)
                    } else if rd && left is Some {
                        Some(p + "~"@ + ln)
                    } else {
                        None
                    };
                    Ok(log_conflict(put_conf(s2, p, (base, left, right)), p, base, left, right, rename, ln, rn))
                } else {
                    Ok(s2)
                }
            },
        }
    }
}

/// A parent directory that the other side has as a file: the conflict on
/// the parent, its file renamed to `<parent>~<branch>`, and the messages.
pub open spec fn record_parent(
    st: ResView,
    file: Seq<char>,
    parent: Seq<char>,
    other: Seq<char>,
    ld: Seq<DiffEntry>,
    rd: Seq<DiffEntry>,
    ln: Seq<char>,
) -> ResView {
    if key_pos(st.conf_keys, parent) is Some {
        st
    } else {
        let s1 = log_push(
            st,
            "CONFLICT (directory/file): Path conflict between directory '"@ + parent
                + "' needed for '"@ + file + "' and file '"@ + parent + "' in branch '"@ + other
                + "'"@,
        );
        let pb = base_of(ld, rd, parent);
        let fe = if other == ln {
            side_of(ld, parent)
        } else {
            side_of(rd, parent)
        };
        let v: (Item, Item, Item) = if other == ln {
            (pb, fe, None)
        } else {
            (pb, None, fe)
        };
        let s2 = drop_clean(put_conf(s1, parent, v), parent);
        match fe {
            Some(f) => {
                let rename = parent + "~"@ + other;
                log_push(
                    put_untr(s2, rename, f),
                    "Adding conflicting file "@ + parent + " as "@ + rename,
                )
            },
            None => s2,
        }
    }
}

/// What one path adds to the preparation: its own merge, then, when it
/// has no conflict, a conflict with a parent that the other side has as a
/// file.
pub open spec fn path_step(
    st: ResView,
    ld: Seq<DiffEntry>,
    rd: Seq<DiffEntry>,
    ln: Seq<char>,
    rn: Seq<char>,
    blobs: Seq<(String, Vec<u8>)>,
    p: Seq<char>,
) -> Result<ResView, Seq<char>> {
    let base = base_of(ld, rd, p);
    let left = side_of(ld, p);
    let right = side_of(rd, p);
    match same_path_step(st, p, base, left, right, ln, rn, blobs) {
        Err(m) => Err(m),
        Ok(s1) => if key_pos(s1.conf_keys, p) is Some {
            Ok(s1)
        } else {
            let c1 = if left is Some && !is_dir_item(left) {
                parent_file(p, rd)
            } else {
                None
            };
            match c1 {
                Some(q) => Ok(record_parent(s1, p, q, rn, ld, rd, ln)),
                None => if right is Some && !is_dir_item(right) {
                    match parent_file(p, ld) {
                        Some(q) => Ok(record_parent(s1, p, q, ln, ld, rd, ln)),
                        None => Ok(s1),
                    }
                } else {
                    Ok(s1)
                },
            }
        },
    }
}

/// Nothing found yet.
pub open spec fn empty_res() -> ResView {
    ResView {
        clean_keys: seq![],
        clean_vals: seq![],
        conf_keys: seq![],
        conf_vals: seq![],
        untr_keys: seq![],
        untr_vals: seq![],
        log: seq![],
    }
}

/// The preparation over paths in order.
pub open spec fn prepare_paths(
    ld: Seq<DiffEntry>,
    rd: Seq<DiffEntry>,
    ln: Seq<char>,
    rn: Seq<char>,
    blobs: Seq<(String, Vec<u8>)>,
    ps: Seq<Seq<char>>,
) -> Result<ResView, Seq<char>>
    decreases ps.len(),
{
    if ps.len() == 0 {
        Ok(empty_res())
    } else {
        match prepare_paths(ld, rd, ln, rn, blobs, ps.drop_last()) {
            Ok(s) => path_step(s, ld, rd, ln, rn, blobs, ps.last()),
            Err(m) => Err(m),
        }
    }
}

/// The paths of a difference added to a list, each once.
pub open spec fn add_paths(s: Seq<Seq<char>>, d: Seq<DiffEntry>) -> Seq<Seq<char>>
    decreases d.len(),
{
    if d.len() == 0 {
        s
    } else {
        add_once(add_paths(s, d.drop_last()), d.last().path@)
    }
}

/// The paths either side changed: the left's in order, then the right's
/// that the left did not change.
pub open spec fn merge_paths(ld: Seq<DiffEntry>, rd: Seq<DiffEntry>) -> Seq<Seq<char>> {
    add_paths(add_paths(seq![], ld), rd)
}


/// Two optional tree items as values.
pub open spec fn pair_view(c: (Option<DatabaseEntry>, Option<DatabaseEntry>)) -> (Item, Item) {
    (oev(c.0), oev(c.1))
}

/// Three optional tree items as values.
pub open spec fn triple_view(c: (Option<DatabaseEntry>, Option<DatabaseEntry>, Option<DatabaseEntry>)) -> (
    Item,
    Item,
    Item,
) {
    (oev(c.0), oev(c.1), oev(c.2))
}

/// The resolution of a merge of two trees against their base: the changes
/// of each side (`left_diff`, `right_diff`) with the sides' names, and what
/// the preparation finds.
pub struct Resolve {
    left_diff: Vec<DiffEntry>,
    right_diff: Vec<DiffEntry>,
    left_name: String,
    right_name: String,
    clean_paths: Vec<String>,
    clean_changes: Vec<(Option<DatabaseEntry>, Option<DatabaseEntry>)>,
    conflict_paths: Vec<String>,
    conflict_entries: Vec<(Option<DatabaseEntry>, Option<DatabaseEntry>, Option<DatabaseEntry>)>,
    untracked_paths: Vec<String>,
    untracked_entries: Vec<DatabaseEntry>,
    log: Vec<String>,
}

impl Resolve {
    /// What the preparation has found.
    pub closed spec fn state(&self) -> ResView {
        ResView {
            clean_keys: strings_view(self.clean_paths@),
            clean_vals: self.clean_changes@.map_values(
                |c: (Option<DatabaseEntry>, Option<DatabaseEntry>)| pair_view(c),
            ),
            conf_keys: strings_view(self.conflict_paths@),
            conf_vals: self.conflict_entries@.map_values(
                |c: (Option<DatabaseEntry>, Option<DatabaseEntry>, Option<DatabaseEntry>)|
                    triple_view(c),
            ),
            untr_keys: strings_view(self.untracked_paths@),
            untr_vals: self.untracked_entries@.map_values(|e: DatabaseEntry| ev(e)),
            log: strings_view(self.log@),
        }
    }

    /// Each path is kept beside what was found for it.
    pub closed spec fn wf(&self) -> bool {
        &&& self.clean_paths@.len() == self.clean_changes@.len()
        &&& self.conflict_paths@.len() == self.conflict_entries@.len()
        &&& self.untracked_paths@.len() == self.untracked_entries@.len()
    }

    /// The left side's changes.
    pub closed spec fn left_changes(&self) -> Seq<DiffEntry> {
        self.left_diff@
    }

    /// The right side's changes.
    pub closed spec fn right_changes(&self) -> Seq<DiffEntry> {
        self.right_diff@
    }

    /// The left side's name.
    pub closed spec fn left_name_view(&self) -> Seq<char> {
        self.left_name@
    }

    /// The right side's name.
    pub closed spec fn right_name_view(&self) -> Seq<char> {
        self.right_name@
    }

    /// The same inputs.
    pub open spec fn same_inputs(&self, other: &Resolve) -> bool {
        &&& self.left_changes() == other.left_changes()
        &&& self.right_changes() == other.right_changes()
        &&& self.left_name_view() == other.left_name_view()
        &&& self.right_name_view() == other.right_name_view()
    }

    /// A resolution of the given changes, nothing found yet.
    pub fn new(left_diff: Vec<DiffEntry>, right_diff: Vec<DiffEntry>, left_name: &str, right_name: &str) -> (r:
        Resolve)
        ensures
            r.left_changes() == left_diff@,
            r.right_changes() == right_diff@,
            r.left_name_view() == left_name@,
            r.right_name_view() == right_name@,
            r.wf(),
            r.state() == empty_res(),
    {
        let r = Resolve {
            left_diff,
            right_diff,
            left_name: left_name.to_owned(),
            right_name: right_name.to_owned(),
            clean_paths: Vec::new(),
            clean_changes: Vec::new(),
            conflict_paths: Vec::new(),
            conflict_entries: Vec::new(),
            untracked_paths: Vec::new(),
            untracked_entries: Vec::new(),
            log: Vec::new(),
        };
        assert(r.state() =~= empty_res());
        r
    }

    fn put_clean_x(&mut self, k: &str, v: (Option<DatabaseEntry>, Option<DatabaseEntry>))
        requires
            old(self).wf(),
        ensures
            final(self).wf(),
            final(self).same_inputs(old(self)),
            final(self).state() == put_clean(old(self).state(), k@, pair_view(v)),
    {
        let ghost st = self.state();
        let ghost pv = pair_view(v);
        match find_key(&self.clean_paths, k) {
            Some(i) => {
                self.clean_changes.set(i, v);
                assert(self.state() =~= ResView { clean_vals: st.clean_vals.update(i as int, pv), ..st });
            },
            None => {
                self.clean_paths.push(k.to_owned());
                self.clean_changes.push(v);
                assert(self.state() =~= ResView {
                    clean_keys: st.clean_keys.push(k@),
                    clean_vals: st.clean_vals.push(pv),
                    ..st
                });
            },
        }
    }

    fn drop_clean_x(&mut self, k: &str)
        requires
            old(self).wf(),
        ensures
            final(self).wf(),
            final(self).same_inputs(old(self)),
            final(self).state() == drop_clean(old(self).state(), k@),
    {
        let ghost st = self.state();
        match find_key(&self.clean_paths, k) {
            Some(i) => {
                self.clean_paths.remove(i);
                self.clean_changes.remove(i);
                assert(self.state() =~= ResView {
                    clean_keys: st.clean_keys.remove(i as int),
                    clean_vals: st.clean_vals.remove(i as int),
                    ..st
                });
            },
            None => {},
        }
    }

    fn put_conf_x(
        &mut self,
        k: &str,
        v: (Option<DatabaseEntry>, Option<DatabaseEntry>, Option<DatabaseEntry>),
    )
        requires
            old(self).wf(),
        ensures
            final(self).wf(),
            final(self).same_inputs(old(self)),
            final(self).state() == put_conf(old(self).state(), k@, triple_view(v)),
    {
        let ghost st = self.state();
        let ghost tv = triple_view(v);
        match find_key(&self.conflict_paths, k) {
            Some(i) => {
                self.conflict_entries.set(i, v);
                assert(self.state() =~= ResView { conf_vals: st.conf_vals.update(i as int, tv), ..st });
            },
            None => {
                self.conflict_paths.push(k.to_owned());
                self.conflict_entries.push(v);
                assert(self.state() =~= ResView {
                    conf_keys: st.conf_keys.push(k@),
                    conf_vals: st.conf_vals.push(tv),
                    ..st
                });
            },
        }
    }

    fn put_untr_x(&mut self, k: &str, v: DatabaseEntry)
        requires
            old(self).wf(),
        ensures
            final(self).wf(),
            final(self).same_inputs(old(self)),
            final(self).state() == put_untr(old(self).state(), k@, ev(v)),
    {
        let ghost st = self.state();
        let ghost vv = ev(v);
        match find_key(&self.untracked_paths, k) {
            Some(i) => {
                self.untracked_entries.set(i, v);
                assert(self.state() =~= ResView { untr_vals: st.untr_vals.update(i as int, vv), ..st });
            },
            None => {
                self.untracked_paths.push(k.to_owned());
                self.untracked_entries.push(v);
                assert(self.state() =~= ResView {
                    untr_keys: st.untr_keys.push(k@),
                    untr_vals: st.untr_vals.push(vv),
                    ..st
                });
            },
        }
    }

    fn log_x(&mut self, m: String)
        requires
            old(self).wf(),
        ensures
            final(self).wf(),
            final(self).same_inputs(old(self)),
            final(self).state() == log_push(old(self).state(), m@),
    {
        let ghost st = self.state();
        self.log.push(m);
        assert(self.state() =~= log_push(st, m@));
    }

    fn has_conflict(&self, k: &str) -> (r: bool)
        ensures
            r == key_pos(self.state().conf_keys, k@) is Some,
    {
        find_key(&self.conflict_paths, k).is_some()
    }

    /// A file on one side where the other has a directory.
    fn fd_conflict_x(&mut self, p: &str, base: Option<DatabaseEntry>, file: DatabaseEntry, branch: &str)
        requires
            old(self).wf(),
        ensures
            final(self).wf(),
            final(self).same_inputs(old(self)),
            final(self).state() == fd_conflict(
                old(self).state(),
                p@,
                oev(base),
                ev(file),
                branch@,
                old(self).left_name_view(),
            ),
    {
        if self.has_conflict(p) {
            return;
        }
        let is_left = str_eq(branch, self.left_name.as_str());
        let fc = copy_entry(&file);
        let v = if is_left {
            (base, Some(fc), None)
        } else {
            (base, None, Some(fc))
        };
        self.put_conf_x(p, v);
        self.drop_clean_x(p);
        let mut rename = p.to_owned();
        push_str(&mut rename, "~");
        push_str(&mut rename, branch);
        self.put_untr_x(rename.as_str(), file);
        let mut m1 = String::new();
        push_str(&mut m1, "CONFLICT (file/directory): '");
        push_str(&mut m1, p);
        push_str(&mut m1, "' is a file in branch '");
        push_str(&mut m1, branch);
        push_str(&mut m1, "' and a directory in the other.");
        self.log_x(m1);
        let mut m2 = String::new();
        push_str(&mut m2, "  Renaming file version to ");
        push_str(&mut m2, rename.as_str());
        push_str(&mut m2, " to avoid data loss.");
        self.log_x(m2);
    }

    /// The message for a conflict just recorded.
    fn log_conflict_x(
        &mut self,
        p: &str,
        base: &Option<DatabaseEntry>,
        left: &Option<DatabaseEntry>,
        right: &Option<DatabaseEntry>,
        rename: Option<String>,
    )
        requires
            old(self).wf(),
        ensures
            final(self).wf(),
            final(self).same_inputs(old(self)),
            final(self).state() == log_conflict(
                old(self).state(),
                p@,
                oev(*base),
                oev(*left),
                oev(*right),
                match rename {
                    Some(r) => Some(r@),
                    None => None,
                },
                old(self).left_name_view(),
                old(self).right_name_view(),
            ),
    {
        let ln = clone_string(&self.left_name);
        let rn = clone_string(&self.right_name);
        if left.is_some() && right.is_some() {
            let mut m = String::new();
            push_str(&mut m, "CONFLICT (");
            if base.is_some() {
                push_str(&mut m, "content");
            } else {
                push_str(&mut m, "add/add");
            }
            push_str(&mut m, "): Merge conflict in ");
            push_str(&mut m, p);
            assert(m@ =~= "CONFLICT ("@ + (if base.is_some() {
                "content"@
            } else {
                "add/add"@
            }) + "): Merge conflict in "@ + p@);
            self.log_x(m);
        } else if base.is_some() && (left.is_some() || right.is_some()) {
            let (deleted, modified) = if left.is_some() {
                (rn, ln)
            } else {
                (ln, rn)
            };
            let mut m = String::new();
            push_str(&mut m, "CONFLICT (modify/delete): ");
            push_str(&mut m, p);
            push_str(&mut m, " deleted in ");
            push_str(&mut m, deleted.as_str());
            push_str(&mut m, " and modified in ");
            push_str(&mut m, modified.as_str());
            push_str(&mut m, ". Version ");
            push_str(&mut m, modified.as_str());
            push_str(&mut m, " of ");
            push_str(&mut m, p);
            push_str(&mut m, " left in tree");
            match &rename {
                Some(r) => {
                    push_str(&mut m, " at ");
                    push_str(&mut m, r.as_str());
                },
                None => {},
            }
            push_str(&mut m, ".");
            assert(m@ =~= "CONFLICT (modify/delete): "@ + p@ + " deleted in "@ + deleted@
                + " and modified in "@ + modified@ + ". Version "@ + modified@ + " of "@ + p@
                + " left in tree"@ + match rename {
                Some(r) => " at "@ + r@,
                None => seq![],
            } + "."@);
            self.log_x(m);
        } else {
            match &rename {
                Some(r) => {
                    let mut m = String::new();
                    push_str(&mut m, "CONFLICT (");
                    if left.is_some() {
                        push_str(&mut m, "file/directory");
                    } else {
                        push_str(&mut m, "directory/file");
                    }
                    push_str(&mut m, "): There is a directory with name ");
                    push_str(&mut m, p);
                    push_str(&mut m, " in ");
                    if left.is_some() {
                        push_str(&mut m, rn.as_str());
                    } else {
                        push_str(&mut m, ln.as_str());
                    }
                    push_str(&mut m, ". Adding ");
                    push_str(&mut m, p);
                    push_str(&mut m, " as ");
                    push_str(&mut m, r.as_str());
                    assert(m@ =~= "CONFLICT ("@ + (if left.is_some() {
                        "file/directory"@
                    } else {
                        "directory/file"@
                    }) + "): There is a directory with name "@ + p@ + " in "@ + (if left.is_some() {
                        rn@
                    } else {
                        ln@
                    }) + ". Adding "@ + p@ + " as "@ + r@);
                    self.log_x(m);
                },
                None => {},
            }
        }
    }
}

/// Whether two optional tree items are the same.
fn opt_entry_eq(a: &Option<DatabaseEntry>, b: &Option<DatabaseEntry>) -> (r: bool)
    ensures
        r == (oev(*a) == oev(*b)),
{
    match (a, b) {
        (Some(x), Some(y)) => str_eq(x.oid.as_str(), y.oid.as_str()) && str_eq(
            x.mode.as_str(),
            y.mode.as_str(),
        ),
        (None, None) => true,
        _ => false,
    }
}

/// The id of an optional tree item.
fn oid_ref(e: &Option<DatabaseEntry>) -> (r: Option<&str>)
    ensures
        opt_str_view(r) == oid_of(oev(*e)),
{
    match e {
        Some(x) => Some(x.oid.as_str()),
        None => None,
    }
}

/// The mode of an optional tree item.
fn mode_ref(e: &Option<DatabaseEntry>) -> (r: Option<FileMode>)
    ensures
        r == mode_of(oev(*e)),
{
    match e {
        Some(x) => Some(FileMode::parse(x.mode.as_str())),
        None => None,
    }
}

/// The first stored content of an object, by position.
fn blob_at(blobs: &Vec<(String, Vec<u8>)>, oid: &str) -> (r: Option<usize>)
    ensures
        match r {
            Some(i) => i < blobs.len() && blob_lookup(blobs@, oid@) == Some(blobs@[i as int].1@),
            None => blob_lookup(blobs@, oid@) is None,
        },
{
    let mut i: usize = 0;
    assert(blobs@.skip(0) =~= blobs@);
    while i < blobs.len()
        invariant
            i <= blobs.len(),
            blob_lookup(blobs@, oid@) == blob_lookup(blobs@.skip(i as int), oid@),
        decreases blobs.len() - i,
    {
        assert(blobs@.skip(i as int).drop_first() =~= blobs@.skip(i + 1));
        if str_eq(blobs[i].0.as_str(), oid) {
            return Some(i);
        }
        i += 1;
    }
    None
}

/// The text of a side in a content merge.
fn blob_text_x(blobs: &Vec<(String, Vec<u8>)>, oid: Option<&str>) -> (r: Result<String, Error>)
    ensures
        match blob_text(blobs@, opt_str_view(oid)) {
            Some(t) => r matches Ok(x) && x@ == t,
            None => r matches Err(Error::Generic(m)) && m@ == "Object not found: "@ + oid->0@,
        },
{
    match oid {
        None => Ok(String::new()),
        Some(o) => {
            if full_oid(o) {
                match blob_at(blobs, o) {
                    Some(i) => Ok(utf8_lossy(blobs[i].1.as_slice())),
                    None => {
                        let mut m = String::new();
                        push_str(&mut m, "Object not found: ");
                        push_str(&mut m, o);
                        Err(Error::Generic(m))
                    },
                }
            } else {
                Ok(String::new())
            }
        },
    }
}

/// The content merge of a file both sides changed.
fn blob_merge_x(
    db: &Database,
    blobs: &Vec<(String, Vec<u8>)>,
    ln: &str,
    rn: &str,
    b: Option<&str>,
    l: Option<&str>,
    r: Option<&str>,
) -> (res: Result<(bool, String), Error>)
    ensures
        match blob_merge(blobs@, ln@, rn@, opt_str_view(b), opt_str_view(l), opt_str_view(r)) {
            Ok((c, o)) => res matches Ok((c2, o2)) && c2 == c && o2@ == o,
            Err(m) => res matches Err(Error::Generic(e)) && e@ == m,
        },
{
    match merge3_oid(b, l, r) {
        Some(o) => return Ok((true, o.to_owned())),
        None => {},
    }
    let tb = blob_text_x(blobs, b)?;
    let tl = blob_text_x(blobs, l)?;
    let tr = blob_text_x(blobs, r)?;
    let nb = split_lines_with_endings(tb.as_str()).len() as u128;
    let nl = split_lines_with_endings(tl.as_str()).len() as u128;
    let nr = split_lines_with_endings(tr.as_str()).len() as u128;
    if 2 * (nb + nl + nr) + 4 > usize::MAX as u128 {
        return Err(Error::Generic("Files too large to merge".to_owned()));
    }
    let (clean, text) = merge_blob_text(tb.as_str(), tl.as_str(), tr.as_str(), ln, rn);
    let bytes = str_bytes(text.as_str());
    let oid = db.hash_file_data(bytes.as_slice());
    Ok((clean, oid))
}


/// A path's item in the merge base.
fn base_at(ld: &Vec<DiffEntry>, rd: &Vec<DiffEntry>, p: &str) -> (r: Option<DatabaseEntry>)
    ensures
        oev(r) == base_of(ld@, rd@, p@),
{
    let l = match lookup_at(ld, p) {
        Some(i) => copy_opt(&ld[i].old),
        None => None,
    };
    if l.is_some() {
        return l;
    }
    match lookup_at(rd, p) {
        Some(j) => copy_opt(&rd[j].old),
        None => None,
    }
}

/// A path's item on a side.
fn side_at(d: &Vec<DiffEntry>, p: &str) -> (r: Option<DatabaseEntry>)
    ensures
        oev(r) == side_of(d@, p@),
{
    match lookup_at(d, p) {
        Some(i) => copy_opt(&d[i].new),
        None => None,
    }
}

impl Resolve {
    /// What a path's three items give.
    fn same_path_conflict(
        &mut self,
        db: &Database,
        blobs: &Vec<(String, Vec<u8>)>,
        p: &str,
        base: Option<DatabaseEntry>,
        left: Option<DatabaseEntry>,
        right: Option<DatabaseEntry>,
    ) -> (r: Result<(), Error>)
        requires
            old(self).wf(),
        ensures
            final(self).wf(),
            final(self).same_inputs(old(self)),
            match same_path_step(
                old(self).state(),
                p@,
                oev(base),
                oev(left),
                oev(right),
                old(self).left_name_view(),
                old(self).right_name_view(),
                blobs@,
            ) {
                Ok(st) => r is Ok && final(self).state() == st,
                Err(m) => r matches Err(Error::Generic(e)) && e@ == m,
            },
    {
        if self.has_conflict(p) {
            return Ok(());
        }
        let ln = clone_string(&self.left_name);
        let rn = clone_string(&self.right_name);
        let ld = entry_is_dir(&left);
        let rd = entry_is_dir(&right);
        if left.is_some() && right.is_some() && ld != rd {
            if ld {
                match right {
                    Some(f) => self.fd_conflict_x(p, base, f, rn.as_str()),
                    None => {},
                }
            } else {
                match left {
                    Some(f) => self.fd_conflict_x(p, base, f, ln.as_str()),
                    None => {},
                }
            }
            return Ok(());
        }
        if opt_entry_eq(&left, &right) {
            if left.is_some() && !opt_entry_eq(&left, &base) {
                self.put_clean_x(p, (base, left));
            }
            return Ok(());
        }
        if left.is_some() && right.is_some() && !opt_entry_eq(&left, &base) && !opt_entry_eq(
            &right,
            &base,
        ) && !ld && !rd {
            let mut m = String::new();
            push_str(&mut m, "Auto-merging ");
            push_str(&mut m, p);
            self.log_x(m);
        }
        let (mode_ok, merged_mode) = merge_modes(mode_ref(&base), mode_ref(&left), mode_ref(&right));
        let (oid_ok, moid) = if ld || rd {
            match merge3_oid(oid_ref(&base), oid_ref(&left), oid_ref(&right)) {
                Some(o) => (true, o.to_owned()),
                None => (
                    false,
                    match &left {
                        Some(x) => clone_string(&x.oid),
                        None => String::new(),
                    },
                ),
            }
        } else {
            blob_merge_x(
                db,
                blobs,
                ln.as_str(),
                rn.as_str(),
                oid_ref(&base),
                oid_ref(&left),
                oid_ref(&right),
            )?
        };
        let merged: Option<DatabaseEntry> = if (left.is_some() || right.is_some()) && chars_of(
            moid.as_str(),
        ).len() > 0 {
            Some(DatabaseEntry { oid: moid, mode: merged_mode.to_octal_string() })
        } else {
            None
        };
        if !opt_entry_eq(&merged, &base) {
            let b2 = copy_opt(&base);
            self.put_clean_x(p, (b2, merged));
        }
        if !oid_ok || !mode_ok {
            let rename: Option<String> = if ld && right.is_some() {
                let mut x = p.to_owned();
                push_str(&mut x, "~");
                push_str(&mut x, rn.as_str());
                Some(x)
            } else if rd && left.is_some() {
                let mut x = p.to_owned();
                push_str(&mut x, "~");
                push_str(&mut x, ln.as_str());
                Some(x)
            } else {
                None
            };
            let b3 = copy_opt(&base);
            let l3 = copy_opt(&left);
            let r3 = copy_opt(&right);
            self.put_conf_x(p, (b3, l3, r3));
            self.log_conflict_x(p, &base, &left, &right, rename);
        }
        Ok(())
    }

    /// A parent directory that the other side has as a file.
    fn record_parent_dir_conflict(&mut self, file: &str, parent: &str, other: &str)
        requires
            old(self).wf(),
        ensures
            final(self).wf(),
            final(self).same_inputs(old(self)),
            final(self).state() == record_parent(
                old(self).state(),
                file@,
                parent@,
                other@,
                old(self).left_changes(),
                old(self).right_changes(),
                old(self).left_name_view(),
            ),
    {
        if self.has_conflict(parent) {
            return;
        }
        let mut m = String::new();
        push_str(&mut m, "CONFLICT (directory/file): Path conflict between directory '");
        push_str(&mut m, parent);
        push_str(&mut m, "' needed for '");
        push_str(&mut m, file);
        push_str(&mut m, "' and file '");
        push_str(&mut m, parent);
        push_str(&mut m, "' in branch '");
        push_str(&mut m, other);
        push_str(&mut m, "'");
        self.log_x(m);
        let pb = base_at(&self.left_diff, &self.right_diff, parent);
        let is_left = str_eq(other, self.left_name.as_str());
        let fe = if is_left {
            side_at(&self.left_diff, parent)
        } else {
            side_at(&self.right_diff, parent)
        };
        let fc = copy_opt(&fe);
        let v = if is_left {
            (pb, fc, None)
        } else {
            (pb, None, fc)
        };
        self.put_conf_x(parent, v);
        self.drop_clean_x(parent);
        match fe {
            Some(f) => {
                let mut rename = parent.to_owned();
                push_str(&mut rename, "~");
                push_str(&mut rename, other);
                self.put_untr_x(rename.as_str(), f);
                let mut m2 = String::new();
                push_str(&mut m2, "Adding conflicting file ");
                push_str(&mut m2, parent);
                push_str(&mut m2, " as ");
                push_str(&mut m2, rename.as_str());
                self.log_x(m2);
            },
            None => {},
        }
    }

    /// What one path adds to the preparation.
    fn process_path(&mut self, db: &Database, blobs: &Vec<(String, Vec<u8>)>, p: &str) -> (r: Result<
        (),
        Error,
    >)
        requires
            old(self).wf(),
        ensures
            final(self).wf(),
            final(self).same_inputs(old(self)),
            match path_step(
                old(self).state(),
                old(self).left_changes(),
                old(self).right_changes(),
                old(self).left_name_view(),
                old(self).right_name_view(),
                blobs@,
                p@,
            ) {
                Ok(st) => r is Ok && final(self).state() == st,
                Err(m) => r matches Err(Error::Generic(e)) && e@ == m,
            },
    {
        let base = base_at(&self.left_diff, &self.right_diff, p);
        let left = side_at(&self.left_diff, p);
        let right = side_at(&self.right_diff, p);
        let left_file = left.is_some() && !entry_is_dir(&left);
        let right_file = right.is_some() && !entry_is_dir(&right);
        self.same_path_conflict(db, blobs, p, base, left, right)?;
        if self.has_conflict(p) {
            return Ok(());
        }
        let ln = clone_string(&self.left_name);
        let rn = clone_string(&self.right_name);
        if left_file {
            match find_parent_file(p, &self.right_diff) {
                Some(q) => {
                    self.record_parent_dir_conflict(p, q.as_str(), rn.as_str());
                    return Ok(());
                },
                None => {},
            }
        }
        if right_file {
            match find_parent_file(p, &self.left_diff) {
                Some(q) => {
                    self.record_parent_dir_conflict(p, q.as_str(), ln.as_str());
                },
                None => {},
            }
        }
        Ok(())
    }

    /// The paths either side changed.
    fn merge_path_list(&self) -> (r: Vec<String>)
        ensures
            strings_view(r@) == merge_paths(self.left_changes(), self.right_changes()),
    {
        let mut r: Vec<String> = Vec::new();
        let ghost lv = self.left_diff@;
        let ghost rv = self.right_diff@;
        let mut i: usize = 0;
        assert(strings_view(r@) =~= Seq::<Seq<char>>::empty());
        assert(lv.take(0) =~= Seq::<DiffEntry>::empty());
        while i < self.left_diff.len()
            invariant
                i <= self.left_diff.len(),
                lv == self.left_diff@,
                strings_view(r@) == add_paths(seq![], lv.take(i as int)),
            decreases self.left_diff.len() - i,
        {
            assert(lv.take(i + 1).drop_last() =~= lv.take(i as int));
            push_once(&mut r, self.left_diff[i].path.as_str());
            i += 1;
        }
        assert(lv.take(i as int) =~= lv);
        let ghost after_left = strings_view(r@);
        let mut j: usize = 0;
        assert(rv.take(0) =~= Seq::<DiffEntry>::empty());
        while j < self.right_diff.len()
            invariant
                j <= self.right_diff.len(),
                rv == self.right_diff@,
                after_left == add_paths(seq![], lv),
                strings_view(r@) == add_paths(after_left, rv.take(j as int)),
            decreases self.right_diff.len() - j,
        {
            assert(rv.take(j + 1).drop_last() =~= rv.take(j as int));
            push_once(&mut r, self.right_diff[j].path.as_str());
            j += 1;
        }
        assert(rv.take(j as int) =~= rv);
        r
    }

    /// Prepares the merge: for each path either side changed (the left's
    /// in order, then the right's), decides its change or conflict.
    /// `blobs` holds the stored contents of the objects a content merge
    /// may need; `db` hashes merged contents.
    pub fn prepare_tree_diffs(&mut self, db: &Database, blobs: &Vec<(String, Vec<u8>)>) -> (r: Result<
        (),
        Error,
    >)
        requires
            old(self).wf(),
        ensures
            final(self).wf(),
            final(self).same_inputs(old(self)),
            match prepare_paths(
                old(self).left_changes(),
                old(self).right_changes(),
                old(self).left_name_view(),
                old(self).right_name_view(),
                blobs@,
                merge_paths(old(self).left_changes(), old(self).right_changes()),
            ) {
                Ok(st) => r is Ok && final(self).state() == st,
                Err(m) => r matches Err(Error::Generic(e)) && e@ == m,
            },
    {
        self.clean_paths = Vec::new();
        self.clean_changes = Vec::new();
        self.conflict_paths = Vec::new();
        self.conflict_entries = Vec::new();
        self.untracked_paths = Vec::new();
        self.untracked_entries = Vec::new();
        self.log = Vec::new();
        assert(self.state() =~= empty_res());
        let paths = self.merge_path_list();
        let ghost pv = strings_view(paths@);
        let ghost ld = self.left_changes();
        let ghost rd = self.right_changes();
        let ghost ln = self.left_name_view();
        let ghost rn = self.right_name_view();
        let mut i: usize = 0;
        assert(pv.take(0) =~= Seq::<Seq<char>>::empty());
        while i < paths.len()
            invariant
                i <= paths.len(),
                pv == strings_view(paths@),
                pv == merge_paths(ld, rd),
                self.wf(),
                self.left_changes() == ld,
                self.right_changes() == rd,
                self.left_name_view() == ln,
                self.right_name_view() == rn,
                ld == old(self).left_changes(),
                rd == old(self).right_changes(),
                ln == old(self).left_name_view(),
                rn == old(self).right_name_view(),
                prepare_paths(ld, rd, ln, rn, blobs@, pv.take(i as int)) == Ok::<ResView, Seq<char>>(
                    self.state(),
                ),
            decreases paths.len() - i,
        {
            assert(pv.take(i + 1).drop_last() =~= pv.take(i as int));
            assert(pv.take(i + 1).last() == paths@[i as int]@);
            match self.process_path(db, blobs, paths[i].as_str()) {
                Ok(()) => {},
                Err(e) => {
                    proof {
                        lemma_prepare_fails_from(ld, rd, ln, rn, blobs@, pv, i as int);
                    }
                    return Err(e);
                },
            }
            i += 1;
        }
        assert(pv.take(i as int) =~= pv);
        Ok(())
    }

    /// Resolves the merge: prepares it, and fails when any path
    /// conflicts.
    pub fn execute(&mut self, db: &Database, blobs: &Vec<(String, Vec<u8>)>) -> (r: Result<(), Error>)
        requires
            old(self).wf(),
        ensures
            final(self).wf(),
            final(self).same_inputs(old(self)),
            match prepare_paths(
                old(self).left_changes(),
                old(self).right_changes(),
                old(self).left_name_view(),
                old(self).right_name_view(),
                blobs@,
                merge_paths(old(self).left_changes(), old(self).right_changes()),
            ) {
                Ok(st) => final(self).state() == st && (st.conf_keys.len() == 0 ==> r is Ok) && (
                st.conf_keys.len() > 0 ==> (r matches Err(Error::Generic(e)) && e@
                    == "Automatic merge failed; fix conflicts and then commit the result."@)),
                Err(m) => r matches Err(Error::Generic(e)) && e@ == m,
            },
    {
        self.prepare_tree_diffs(db, blobs)?;
        if self.conflict_paths.len() > 0 {
            return Err(
                Error::Generic(
                    "Automatic merge failed; fix conflicts and then commit the result.".to_owned(),
                ),
            );
        }
        Ok(())
    }

    /// The clean changes: each path with its base item and new item.
    pub fn clean_changes(&self) -> (r: (&Vec<String>, &Vec<(Option<DatabaseEntry>, Option<DatabaseEntry>)>))
        ensures
            strings_view(r.0@) == self.state().clean_keys,
            r.1@.map_values(|c: (Option<DatabaseEntry>, Option<DatabaseEntry>)| pair_view(c))
                == self.state().clean_vals,
    {
        (&self.clean_paths, &self.clean_changes)
    }

    /// The conflicts: each path with its base, left and right items.
    pub fn conflicts(&self) -> (r: (
        &Vec<String>,
        &Vec<(Option<DatabaseEntry>, Option<DatabaseEntry>, Option<DatabaseEntry>)>,
    ))
        ensures
            strings_view(r.0@) == self.state().conf_keys,
            r.1@.map_values(
                |c: (Option<DatabaseEntry>, Option<DatabaseEntry>, Option<DatabaseEntry>)|
                    triple_view(c),
            ) == self.state().conf_vals,
    {
        (&self.conflict_paths, &self.conflict_entries)
    }

    /// The files to write under new paths.
    pub fn untracked(&self) -> (r: (&Vec<String>, &Vec<DatabaseEntry>))
        ensures
            strings_view(r.0@) == self.state().untr_keys,
            r.1@.map_values(|e: DatabaseEntry| ev(e)) == self.state().untr_vals,
    {
        (&self.untracked_paths, &self.untracked_entries)
    }

    /// The messages of the preparation.
    pub fn messages(&self) -> (r: &Vec<String>)
        ensures
            strings_view(r@) == self.state().log,
    {
        &self.log
    }
}

proof fn lemma_prepare_fails_from(
    ld: Seq<DiffEntry>,
    rd: Seq<DiffEntry>,
    ln: Seq<char>,
    rn: Seq<char>,
    blobs: Seq<(String, Vec<u8>)>,
    ps: Seq<Seq<char>>,
    i: int,
)
    requires
        0 <= i < ps.len(),
        prepare_paths(ld, rd, ln, rn, blobs, ps.take(i + 1)) is Err,
    ensures
        prepare_paths(ld, rd, ln, rn, blobs, ps) == prepare_paths(ld, rd, ln, rn, blobs, ps.take(i + 1)),
    decreases ps.len() - i,
{
    if i + 1 < ps.len() {
        assert(ps.take(ps.len() - 1).take(i + 1) =~= ps.take(i + 1));
        lemma_prepare_fails_from(ld, rd, ln, rn, blobs, ps.take(ps.len() - 1), i);
        assert(ps.drop_last() =~= ps.take(ps.len() - 1));
    } else {
        assert(ps.take(i + 1) =~= ps);
    }
}

} // verus!
