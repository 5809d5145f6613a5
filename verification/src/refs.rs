//! References: HEAD, branches and other named pointers to objects.
//!
//! The reference files of a repository are held as a list of (path, content)
//! pairs, paths relative to the repository's metadata directory; the program
//! around the library loads them and writes back what changed.
use vstd::prelude::*;
use crate::error::Error;
use crate::lockfile::{lock_path_of, with_lock_extension};
use crate::path_filter::{joined, path_join};
use crate::text::{
    chars_of, chars_eq, contains_seq, free_of, is_prefix, is_suffix, push_str, slice_chars,
    starts_with, ends_with, contains_chars, string_from_chars, trim, trim_chars, str_eq, is_ws,
    trim_start, trim_end, debug_quoted, debug_str,
};

verus! {

/// The name of the HEAD reference.
pub const HEAD: &'static str = "HEAD";


/// The error when the lock on a file is held: its lock file (the file as
/// shown, its extension replaced by `lock`) exists already.
pub open spec fn lock_denied(shown: Seq<char>) -> Seq<char> {
    "Lock error: LockDenied("@ + debug_quoted(
        "Unable to create '"@ + lock_path_of(shown)
            + "': File exists.\nAnother process seems to be running in this repository.\nIf it still fails, a process may have crashed in this repository earlier:\nremove the file manually to continue."@,
    ) + ")"@
}

/// The error when the lock on the file of branch `name` is held.
pub open spec fn branch_lock_message(pathname: Seq<char>, name: Seq<char>) -> Seq<char> {
    lock_denied(joined(joined(joined(pathname, "refs"@), "heads"@), name))
}

/// Whether the lock on a file of the store is held: its lock file exists.
pub open spec fn lock_held(st: RefStore, rel: Seq<char>) -> bool {
    path_exists(st, lock_path_of(rel))
}

/// The first file along HEAD's chain of symbolic references, within
/// `fuel` steps, whose lock is held.
pub open spec fn chain_lock(st: RefStore, p: Seq<char>, fuel: nat) -> Option<Seq<char>>
    decreases fuel,
{
    if fuel == 0 {
        None
    } else if lock_held(st, p) {
        Some(p)
    } else {
        match read_at(st, p) {
            Some(RefTarget::Symbolic(t)) => chain_lock(st, t, (fuel - 1) as nat),
            _ => None,
        }
    }
}

/// How the file of a reference name is shown: under the metadata
/// directory when it starts with `refs/`, else under its `refs`.
pub open spec fn shown_ref_path(pathname: Seq<char>, name: Seq<char>) -> Seq<char> {
    if is_prefix("refs/"@, name) {
        joined(pathname, name)
    } else {
        joined(joined(pathname, "refs"@), name)
    }
}

/// A reference: an object id, or the path of another reference.
#[derive(Debug, Clone, PartialEq, Eq)]
pub enum Reference {
    /// Points at an object id.
    Direct(String),
    /// Points at another reference by its path.
    Symbolic(String),
}

/// What a reference holds.
pub ghost enum RefTarget {
    Direct(Seq<char>),
    Symbolic(Seq<char>),
}

impl View for Reference {
    type V = RefTarget;

    open spec fn view(&self) -> RefTarget {
        match self {
            Reference::Direct(s) => RefTarget::Direct(s@),
            Reference::Symbolic(s) => RefTarget::Symbolic(s@),
        }
    }
}

/// Ways in which a reference operation can fail.
#[derive(Debug)]
pub enum RefError {
    InvalidBranch(String),
    LockFailed(String),
}

/// The reference files: paths and contents.
pub type RefStore = Seq<(Seq<char>, Seq<char>)>;

/// The position of the last file at a path.
pub open spec fn last_index(st: RefStore, p: Seq<char>) -> Option<int>
    decreases st.len(),
{
    if st.len() == 0 {
        None
    } else if st.last().0 == p {
        Some(st.len() - 1)
    } else {
        last_index(st.drop_last(), p)
    }
}

/// The content of the file at a path, if there is one.
pub open spec fn file_at(st: RefStore, p: Seq<char>) -> Option<Seq<char>> {
    match last_index(st, p) {
        Some(i) => Some(st[i].1),
        None => None,
    }
}

/// A path with a `/` after it, unless it already ends with one.
pub open spec fn dir_prefix(p: Seq<char>) -> Seq<char> {
    if p.len() > 0 && p.last() == '/' {
        p
    } else {
        p.push('/')
    }
}

/// Some file lies below the path: the path is a directory.
pub open spec fn is_dir(st: RefStore, p: Seq<char>) -> bool {
    exists|k: int| 0 <= k < st.len() && is_prefix(dir_prefix(p), #[trigger] st[k].0)
}

/// A file or a directory lies at the path.
pub open spec fn path_exists(st: RefStore, p: Seq<char>) -> bool {
    file_at(st, p) is Some || is_dir(st, p)
}

/// What a reference file says once trimmed: `ref: <path>` (a path of at
/// least one character and no line break) names another reference;
/// anything else is an object id.
pub open spec fn parse_ref(t: Seq<char>) -> RefTarget {
    if is_prefix("ref: "@, t) && t.len() > 5 && free_of(t.subrange(5, t.len() as int), '\n') {
        RefTarget::Symbolic(t.subrange(5, t.len() as int))
    } else {
        RefTarget::Direct(t)
    }
}

/// The reference at a path, when a file lies there.
pub open spec fn read_at(st: RefStore, p: Seq<char>) -> Option<RefTarget> {
    match file_at(st, p) {
        Some(c) => Some(parse_ref(trim(c))),
        None => None,
    }
}

/// The object id that a path leads to after following symbolic references,
/// within `fuel` steps (`None` when the steps run out).
pub open spec fn resolve(st: RefStore, p: Seq<char>, fuel: nat) -> Option<Option<Seq<char>>>
    decreases fuel,
{
    if fuel == 0 {
        None
    } else {
        match read_at(st, p) {
            Some(RefTarget::Symbolic(t)) => resolve(st, t, (fuel - 1) as nat),
            Some(RefTarget::Direct(o)) => Some(Some(o)),
            None => Some(None),
        }
    }
}

/// Following symbolic references from the path ends: no chain of them
/// loops.
pub open spec fn resolves(st: RefStore, p: Seq<char>) -> bool {
    resolve(st, p, st.len() + 1) is Some
}

/// The object id the path leads to.
pub open spec fn resolved(st: RefStore, p: Seq<char>) -> Option<Seq<char>> {
    resolve(st, p, st.len() + 1)->0
}

/// The store with a file written: replaced where it exists, added otherwise.
pub open spec fn write_file(st: RefStore, p: Seq<char>, c: Seq<char>) -> RefStore {
    match last_index(st, p) {
        Some(i) => st.update(i, (p, c)),
        None => st.push((p, c)),
    }
}

/// The store with a file removed.
pub open spec fn remove_file(st: RefStore, p: Seq<char>) -> RefStore {
    match last_index(st, p) {
        Some(i) => st.remove(i),
        None => st,
    }
}

/// `last_index` finds the last file at the path.
pub proof fn lemma_last_index(st: RefStore, p: Seq<char>)
    ensures
        last_index(st, p) matches Some(i) ==> 0 <= i < st.len() && st[i].0 == p && forall|j: int|
            i < j < st.len() ==> st[j].0 != p,
        last_index(st, p) is None ==> forall|j: int| 0 <= j < st.len() ==> st[j].0 != p,
    decreases st.len(),
{
    if st.len() > 0 && st.last().0 != p {
        lemma_last_index(st.drop_last(), p);
        assert forall|j: int| 0 <= j < st.len() - 1 implies st[j] == st.drop_last()[j] by {}
    }
}

/// The last file at a path, found from the positions.
pub proof fn lemma_last_index_unique(st: RefStore, p: Seq<char>, i: int)
    requires
        0 <= i < st.len(),
        st[i].0 == p,
        forall|j: int| i < j < st.len() ==> st[j].0 != p,
    ensures
        last_index(st, p) == Some(i),
    decreases st.len(),
{
    if i < st.len() - 1 {
        lemma_last_index_unique(st.drop_last(), p, i);
    }
}

/// No file at the path, found from the positions.
pub proof fn lemma_last_index_none(st: RefStore, p: Seq<char>)
    requires
        forall|j: int| 0 <= j < st.len() ==> st[j].0 != p,
    ensures
        last_index(st, p) is None,
    decreases st.len(),
{
    if st.len() > 0 {
        lemma_last_index_none(st.drop_last(), p);
    }
}

/// After a write, the file holds what was written, and other files are as
/// they were.
pub proof fn lemma_write_file(st: RefStore, p: Seq<char>, c: Seq<char>, q: Seq<char>)
    ensures
        file_at(write_file(st, p, c), p) == Some(c),
        q != p ==> file_at(write_file(st, p, c), q) == file_at(st, q),
{
    lemma_last_index(st, p);
    lemma_last_index(st, q);
    let w = write_file(st, p, c);
    match last_index(st, p) {
        Some(i) => {
            lemma_last_index_unique(w, p, i);
            if q != p {
                match last_index(st, q) {
                    Some(k) => lemma_last_index_unique(w, q, k),
                    None => lemma_last_index_none(w, q),
                }
            }
        },
        None => {
            lemma_last_index_unique(w, p, st.len() as int);
            if q != p {
                match last_index(st, q) {
                    Some(k) => lemma_last_index_unique(w, q, k),
                    None => lemma_last_index_none(w, q),
                }
            }
        },
    }
}

/// An object id as reference files hold it: no whitespace at either end,
/// and not itself of the form `ref: <path>`.
pub open spec fn plain_id(o: Seq<char>) -> bool {
    (o.len() == 0 || (!is_ws(o[0]) && !is_ws(o.last()))) && !is_prefix("ref: "@, o)
}

/// A plain id followed by a line break trims back to the id.
proof fn lemma_trim_id_line(o: Seq<char>)
    requires
        o.len() == 0 || (!is_ws(o[0]) && !is_ws(o.last())),
    ensures
        trim(o + seq!['\n']) == o,
{
    let c = o + seq!['\n'];
    assert(is_ws('\n'));
    assert(c.last() == '\n');
    assert(c.drop_last() =~= o);
    if o.len() == 0 {
        assert(c[0] == '\n');
        assert(c.drop_first() =~= o);
        assert(trim_start(o) == o);
        assert(trim_start(c) == o);
        assert(trim_end(o) == o);
    } else {
        assert(c[0] == o[0]);
        assert(trim_start(c) == c);
        assert(trim_end(o) == o);
        assert(trim_end(c) == trim_end(o));
    }
}

/// A file written with an object id and a line break reads back as that
/// id.
proof fn lemma_read_written(st: RefStore, p: Seq<char>, q: Seq<char>, oid: Seq<char>)
    requires
        plain_id(oid),
    ensures
        read_at(write_file(st, p, oid + "\n"@), p) == Some(RefTarget::Direct(oid)),
        q != p ==> read_at(write_file(st, p, oid + "\n"@), q) == read_at(st, q),
{
    reveal_strlit("\n");
    lemma_write_file(st, p, oid + "\n"@, q);
    lemma_trim_id_line(oid);
    assert(oid + "\n"@ =~= oid + seq!['\n']);
}

/// A reference file written with an object id reads back as that id.
pub proof fn lemma_written_id_reads_back(st: RefStore, p: Seq<char>, oid: Seq<char>)
    requires
        plain_id(oid),
    ensures
        resolves(write_file(st, p, oid + "\n"@), p),
        resolved(write_file(st, p, oid + "\n"@), p) == Some(oid),
{
    lemma_read_written(st, p, p, oid);
}

/// Removing a file just added where nothing lay gives the store back.
pub proof fn lemma_remove_written(st: RefStore, p: Seq<char>, c: Seq<char>)
    requires
        file_at(st, p) is None,
    ensures
        remove_file(write_file(st, p, c), p) == st,
{
    lemma_last_index(st, p);
    let w = write_file(st, p, c);
    assert(w == st.push((p, c)));
    lemma_last_index_unique(w, p, st.len() as int);
    assert(w.remove(st.len() as int) =~= st);
}

/// A branch created with an object id reads back as that id, and deleting
/// it right away gives that id and leaves the references as they were.
pub proof fn lemma_branch_create_delete(st: RefStore, name: Seq<char>, oid: Seq<char>)
    requires
        valid_branch_name(name),
        !path_exists(st, "refs/heads/"@ + name),
        plain_id(oid),
    ensures
        resolves(write_file(st, "refs/heads/"@ + name, oid + "\n"@), "refs/heads/"@ + name),
        resolved(write_file(st, "refs/heads/"@ + name, oid + "\n"@), "refs/heads/"@ + name) == Some(
            oid,
        ),
        remove_file(write_file(st, "refs/heads/"@ + name, oid + "\n"@), "refs/heads/"@ + name)
            == st,
{
    lemma_written_id_reads_back(st, "refs/heads/"@ + name, oid);
    lemma_remove_written(st, "refs/heads/"@ + name, oid + "\n"@);
}

/// Where a write through symbolic references lands, no symbolic reference
/// lies.
proof fn lemma_write_target_plain(st: RefStore, q: Seq<char>, f: nat)
    requires
        write_target(st, q, f) is Some,
    ensures
        !(read_at(st, write_target(st, q, f)->0) matches Some(RefTarget::Symbolic(_))),
    decreases f,
{
    if let Some(RefTarget::Symbolic(n)) = read_at(st, q) {
        lemma_write_target_plain(st, n, (f - 1) as nat);
    }
}

/// Writing an id where a chain of symbolic references ends makes the chain
/// lead to that id.
proof fn lemma_chain_leads_to(st: RefStore, q: Seq<char>, f: nat, t: Seq<char>, oid: Seq<char>)
    requires
        write_target(st, q, f) == Some(t),
        plain_id(oid),
    ensures
        resolve(write_file(st, t, oid + "\n"@), q, f) == Some(Some(oid)),
    decreases f,
{
    lemma_read_written(st, t, q, oid);
    if q == t {
    } else {
        lemma_write_target_plain(st, q, f);
        if let Some(RefTarget::Symbolic(n)) = read_at(st, q) {
            lemma_chain_leads_to(st, n, (f - 1) as nat, t, oid);
        }
    }
}

/// More steps never change where a chain that ends leads.
proof fn lemma_resolve_more_fuel(st: RefStore, q: Seq<char>, f: nat, g: nat)
    requires
        f <= g,
        resolve(st, q, f) is Some,
    ensures
        resolve(st, q, g) == resolve(st, q, f),
    decreases f,
{
    if let Some(RefTarget::Symbolic(n)) = read_at(st, q) {
        lemma_resolve_more_fuel(st, n, (f - 1) as nat, (g - 1) as nat);
    }
}

/// After writing an id where HEAD finally points, HEAD exists and leads to
/// that id.
pub proof fn lemma_head_update_reads_back(st: RefStore, oid: Seq<char>)
    requires
        write_target(st, "HEAD"@, (st.len() + 1) as nat) is Some,
        plain_id(oid),
    ensures
        path_exists(
            write_file(st, write_target(st, "HEAD"@, (st.len() + 1) as nat)->0, oid + "\n"@),
            "HEAD"@,
        ),
        resolves(
            write_file(st, write_target(st, "HEAD"@, (st.len() + 1) as nat)->0, oid + "\n"@),
            "HEAD"@,
        ),
        resolved(
            write_file(st, write_target(st, "HEAD"@, (st.len() + 1) as nat)->0, oid + "\n"@),
            "HEAD"@,
        ) == Some(oid),
{
    let f = (st.len() + 1) as nat;
    let t = write_target(st, "HEAD"@, f)->0;
    let w = write_file(st, t, oid + "\n"@);
    lemma_chain_leads_to(st, "HEAD"@, f, t, oid);
    lemma_read_written(st, t, "HEAD"@, oid);
    lemma_last_index(st, t);
    assert(w.len() >= st.len());
    lemma_resolve_more_fuel(w, "HEAD"@, f, (w.len() + 1) as nat);
}

/// The path of a reference written under `refs/` unless it already starts
/// there.
pub open spec fn ref_path(name: Seq<char>) -> Seq<char> {
    if is_prefix("refs/"@, name) {
        name
    } else {
        "refs/"@ + name
    }
}

/// The paths where `read_ref` looks for a name, in order.
pub open spec fn ref_candidates(name: Seq<char>) -> Seq<Seq<char>> {
    seq![name, "refs/"@ + name, "refs/heads/"@ + name]
}

/// The first candidate path that exists.
pub open spec fn first_existing(st: RefStore, ps: Seq<Seq<char>>) -> Option<Seq<char>>
    decreases ps.len(),
{
    if ps.len() == 0 {
        None
    } else if path_exists(st, ps[0]) {
        Some(ps[0])
    } else {
        first_existing(st, ps.drop_first())
    }
}

/// A character that a branch name may not hold.
pub open spec fn forbidden_ref_char(c: char) -> bool {
    (c as u32) <= 0x20 || c == '*' || c == ':' || c == '?' || c == '[' || c == '\\' || c == '^'
        || c == '~' || (c as u32) == 0x7f
}

/// A name is refused as a reference name: it starts with `.` or `/`, holds
/// `/.`, `..` or `@{`, ends with `/` or `.lock`, or holds a control
/// character, a space or one of `*:?[\^~`.
pub open spec fn invalid_ref_name(name: Seq<char>) -> bool {
    (name.len() > 0 && name[0] == '.') || contains_seq(name, "/."@) || contains_seq(name, ".."@)
        || (name.len() > 0 && name[0] == '/') || (name.len() > 0 && name.last() == '/')
        || is_suffix(".lock"@, name) || contains_seq(name, "@{"@) || exists|i: int|
        0 <= i < name.len() && forbidden_ref_char(#[trigger] name[i])
}

/// A valid branch name: not empty, no `/`, and not refused as a reference
/// name.
pub open spec fn valid_branch_name(name: Seq<char>) -> bool {
    name.len() > 0 && !contains_seq(name, "/"@) && !invalid_ref_name(name)
}

/// Whether a name is refused as a reference name.
pub fn is_invalid_ref_name(name: &[char]) -> (r: bool)
    ensures
        r == invalid_ref_name(name@),
{
    let mut i: usize = 0;
    while i < name.len()
        invariant
            i <= name.len(),
            forall|j: int| 0 <= j < i ==> !forbidden_ref_char(#[trigger] name@[j]),
        decreases name.len() - i,
    {
        let c = name[i];
        let n = c as u32;
        if n <= 0x20 || c == '*' || c == ':' || c == '?' || c == '[' || c == '\\' || c == '^' || c
            == '~' || n == 0x7f {
            assert(forbidden_ref_char(name@[i as int]));
            return true;
        }
        i += 1;
    }
    let slash_dot = chars_of("/.");
    let dot_dot = chars_of("..");
    let lock = chars_of(".lock");
    let at_brace = chars_of("@{");
    (name.len() > 0 && name[0] == '.') || contains_chars(name, slash_dot.as_slice())
        || contains_chars(name, dot_dot.as_slice()) || (name.len() > 0 && name[0] == '/') || (
    name.len() > 0 && name[name.len() - 1] == '/') || ends_with(name, lock.as_slice())
        || contains_chars(name, at_brace.as_slice())
}

/// The short name of a branch path: the part after `refs/heads/`, or the
/// whole path when it lies elsewhere.
pub open spec fn short_name_of(path: Seq<char>) -> Seq<char> {
    if is_prefix("refs/heads/"@, path) {
        path.subrange(11, path.len() as int)
    } else {
        path
    }
}

/// The files whose paths start with a prefix, in store order.
pub open spec fn paths_with_prefix(st: RefStore, pre: Seq<char>) -> Seq<Seq<char>>
    decreases st.len(),
{
    if st.len() == 0 {
        seq![]
    } else if is_prefix(pre, st.last().0) {
        paths_with_prefix(st.drop_last(), pre).push(st.last().0)
    } else {
        paths_with_prefix(st.drop_last(), pre)
    }
}

/// The files whose paths start with both prefixes, in store order.
pub open spec fn paths_with_prefixes(st: RefStore, d: Seq<char>, pre: Seq<char>) -> Seq<Seq<char>>
    decreases st.len(),
{
    if st.len() == 0 {
        seq![]
    } else if is_prefix(d, st.last().0) && is_prefix(pre, st.last().0) {
        paths_with_prefixes(st.drop_last(), d, pre).push(st.last().0)
    } else {
        paths_with_prefixes(st.drop_last(), d, pre)
    }
}

/// Two equal prefixes select as one does.
pub proof fn lemma_prefixes_same(st: RefStore, pre: Seq<char>)
    ensures
        paths_with_prefixes(st, pre, pre) == paths_with_prefix(st, pre),
    decreases st.len(),
{
    if st.len() > 0 {
        lemma_prefixes_same(st.drop_last(), pre);
    }
}

/// The paths of a list of symbolic references.
pub open spec fn symbolic_paths(rs: Seq<Reference>) -> Seq<Seq<char>> {
    rs.map_values(|r: Reference| match r {
        Reference::Symbolic(p) => p@,
        Reference::Direct(o) => o@,
    })
}

/// All references are symbolic.
pub open spec fn all_symbolic(rs: Seq<Reference>) -> bool {
    forall|k: int| 0 <= k < rs.len() ==> #[trigger] rs[k] is Symbolic
}

/// A path without its last component (and without a trailing `/`).
pub open spec fn parent_path(p: Seq<char>) -> Seq<char>
    decreases p.len(),
{
    if p.len() == 0 {
        p
    } else if p.last() == '/' {
        parent_path(p.drop_last())
    } else {
        parent_in(p.drop_last())
    }
}

/// A path up to (not including) its last `/`; empty when it has none.
pub open spec fn parent_in(p: Seq<char>) -> Seq<char>
    decreases p.len(),
{
    if p.len() == 0 {
        p
    } else if p.last() == '/' {
        p.drop_last()
    } else {
        parent_in(p.drop_last())
    }
}

/// Whether no line break follows position `from`.
fn no_newline_from(t: &[char], from: usize) -> (r: bool)
    requires
        from <= t.len(),
    ensures
        r == free_of(t@.subrange(from as int, t.len() as int), '\n'),
{
    let mut k: usize = from;
    while k < t.len()
        invariant
            from <= k <= t.len(),
            forall|j: int| from <= j < k ==> t@[j] != '\n',
        decreases t.len() - k,
    {
        if t[k] == '\n' {
            assert(t@.subrange(from as int, t.len() as int)[k - from] == '\n');
            return false;
        }
        k += 1;
    }
    true
}

/// The reference files of a repository's metadata directory.
pub struct Refs {
    pub pathname: String,
    pub files: Vec<(String, String)>,
}

impl Refs {
    /// The files as paths and contents.
    pub open spec fn store(&self) -> RefStore {
        self.files@.map_values(|f: (String, String)| (f.0@, f.1@))
    }

    /// References of the directory at `pathname`, holding the given files.
    pub fn new(pathname: &str, files: Vec<(String, String)>) -> (r: Refs)
        ensures
            r.pathname@ == pathname@,
            r.files == files,
    {
        Refs { pathname: pathname.to_owned(), files }
    }

    /// The position of the last file at a path.
    fn find(&self, p: &[char]) -> (r: Option<usize>)
        ensures
            match r {
                Some(i) => last_index(self.store(), p@) == Some(i as int) && i < self.files@.len()
                    && self.store()[i as int].0 == p@ && file_at(self.store(), p@) == Some(
                    self.store()[i as int].1,
                ),
                None => last_index(self.store(), p@) is None && file_at(self.store(), p@) is None,
            },
    {
        let ghost st = self.store();
        let mut i: usize = self.files.len();
        assert(st.take(i as int) =~= st);
        while i > 0
            invariant
                i <= self.files@.len(),
                st == self.store(),
                last_index(st, p@) == last_index(st.take(i as int), p@),
            decreases i,
        {
            let path = chars_of(self.files[i - 1].0.as_str());
            let ghost pre = st.take(i as int);
            assert(pre.drop_last() =~= st.take(i - 1));
            assert(pre.last() == st[i - 1]);
            if chars_eq(path.as_slice(), p) {
                proof {
                    lemma_last_index(st, p@);
                    lemma_last_index(pre, p@);
                }
                return Some(i - 1);
            }
            i -= 1;
        }
        assert(st.take(0) =~= Seq::<(Seq<char>, Seq<char>)>::empty());
        None
    }

    /// Whether some file lies below the path.
    fn dir_exists(&self, p: &[char]) -> (r: bool)
        ensures
            r == is_dir(self.store(), p@),
    {
        let mut pre = slice_chars(p, 0, p.len());
        assert(p@.subrange(0, p.len() as int) =~= p@);
        if !(p.len() > 0 && p[p.len() - 1] == '/') {
            pre.push('/');
        }
        assert(pre@ == dir_prefix(p@));
        let ghost st = self.store();
        let mut k: usize = 0;
        while k < self.files.len()
            invariant
                k <= self.files@.len(),
                st == self.store(),
                pre@ == dir_prefix(p@),
                forall|j: int| 0 <= j < k ==> !is_prefix(pre@, #[trigger] st[j].0),
            decreases self.files.len() - k,
        {
            let path = chars_of(self.files[k].0.as_str());
            assert(st[k as int].0 == path@);
            if starts_with(path.as_slice(), pre.as_slice()) {
                return true;
            }
            k += 1;
        }
        false
    }

    /// Whether a file or directory lies at the path.
    fn path_is_present(&self, p: &[char]) -> (r: bool)
        ensures
            r == path_exists(self.store(), p@),
    {
        self.find(p).is_some() || self.dir_exists(p)
    }

    /// Refuses when the lock on a file is held, naming the file as shown.
    fn check_lock(&self, rel: &[char], shown: &str) -> (r: Result<(), Error>)
        ensures
            lock_held(self.store(), rel@) ==> (r matches Err(Error::Generic(m)) && m@ == lock_denied(
                shown@,
            )),
            !lock_held(self.store(), rel@) ==> r is Ok,
    {
        let rel_s = string_from_chars(rel);
        let lock_rel = with_lock_extension(rel_s.as_str());
        let lock_chars = chars_of(lock_rel.as_str());
        if self.path_is_present(lock_chars.as_slice()) {
            let lock_full = with_lock_extension(shown);
            let mut msg = String::new();
            push_str(&mut msg, "Unable to create '");
            push_str(&mut msg, lock_full.as_str());
            push_str(
                &mut msg,
                "': File exists.\nAnother process seems to be running in this repository.\nIf it still fails, a process may have crashed in this repository earlier:\nremove the file manually to continue.",
            );
            let quoted = debug_str(msg.as_str());
            let mut m = String::new();
            push_str(&mut m, "Lock error: LockDenied(");
            push_str(&mut m, quoted.as_str());
            push_str(&mut m, ")");
            return Err(Error::Generic(m));
        }
        Ok(())
    }

    /// The reference in the file at a path.
    fn read_oid_or_symref(&self, p: &[char]) -> (r: Option<Reference>)
        ensures
            match r {
                Some(x) => read_at(self.store(), p@) == Some(x@),
                None => read_at(self.store(), p@) is None,
            },
    {
        match self.find(p) {
            None => None,
            Some(i) => {
                let c = chars_of(self.files[i].1.as_str());
                let t = trim_chars(c.as_slice());
                let pre = chars_of("ref: ");
                proof {
                    reveal_strlit("ref: ");
                }
                if starts_with(t.as_slice(), pre.as_slice()) && t.len() > 5 && no_newline_from(
                    t.as_slice(),
                    5,
                ) {
                    let target = slice_chars(t.as_slice(), 5, t.len());
                    Some(Reference::Symbolic(string_from_chars(target.as_slice())))
                } else {
                    Some(Reference::Direct(string_from_chars(t.as_slice())))
                }
            },
        }
    }

    /// The object id a path leads to, following symbolic references.
    pub fn read_symref(&self, path: &str) -> (r: Option<String>)
        requires
            resolves(self.store(), path@),
        ensures
            match r {
                Some(o) => resolved(self.store(), path@) == Some(o@),
                None => resolved(self.store(), path@) is None,
            },
    {
        let ghost st = self.store();
        let mut p = chars_of(path);
        let mut fuel: u128 = self.files.len() as u128 + 1;
        assert(resolve(st, path@, (st.len() + 1) as nat) is Some);
        while fuel > 0
            invariant
                st == self.store(),
                resolve(st, p@, fuel as nat) is Some,
                resolve(st, p@, fuel as nat) == resolve(st, path@, (st.len() + 1) as nat),
            decreases fuel,
        {
            match self.read_oid_or_symref(p.as_slice()) {
                Some(Reference::Symbolic(t)) => {
                    p = chars_of(t.as_str());
                    fuel -= 1;
                },
                Some(Reference::Direct(o)) => {
                    return Some(o);
                },
                None => {
                    return None;
                },
            }
        }
        None
    }

    /// The object id HEAD leads to; none when there is no HEAD.
    pub fn read_head(&self) -> (r: Option<String>)
        requires
            resolves(self.store(), "HEAD"@),
        ensures
            match r {
                Some(o) => path_exists(self.store(), "HEAD"@) && resolved(self.store(), "HEAD"@)
                    == Some(o@),
                None => !path_exists(self.store(), "HEAD"@) || resolved(self.store(), "HEAD"@) is None,
            },
    {
        let h = chars_of(HEAD);
        if !self.path_is_present(h.as_slice()) {
            return None;
        }
        self.read_symref(HEAD)
    }

    /// Writes a file, replacing the one at the path.
    fn write_ref_file(&mut self, path: &[char], content: &[char])
        ensures
            final(self).store() == write_file(old(self).store(), path@, content@),
            final(self).pathname == old(self).pathname,
    {
        let ghost st = self.store();
        let p = string_from_chars(path);
        let c = string_from_chars(content);
        match self.find(path) {
            Some(i) => {
                self.files.set(i, (p, c));
                assert(self.store() =~= st.update(i as int, (path@, content@)));
            },
            None => {
                self.files.push((p, c));
                assert(self.store() =~= st.push((path@, content@)));
            },
        }
    }

    /// The object id a name leads to: HEAD for `@` and `HEAD`; otherwise the
    /// first of `<name>`, `refs/<name>`, `refs/heads/<name>` that exists.
    pub fn read_ref(&self, name: &str) -> (r: Option<String>)
        requires
            resolves(self.store(), "HEAD"@),
            forall|k: int| 0 <= k < 3 ==> resolves(self.store(), #[trigger] ref_candidates(name@)[k]),
        ensures
            match r {
                Some(o) => read_ref_view(self.store(), name@) == Some(o@),
                None => read_ref_view(self.store(), name@) is None,
            },
    {
        proof {
            reveal_strlit("@");
            reveal_strlit("HEAD");
        }
        if str_eq(name, "@") || str_eq(name, HEAD) {
            return self.read_head();
        }
        let n = chars_of(name);
        let mut c1 = chars_of("refs/");
        let mut c2 = chars_of("refs/heads/");
        let ghost cands = ref_candidates(name@);
        let ghost st = self.store();
        crate::text::push_vec(&mut c1, n.as_slice());
        crate::text::push_vec(&mut c2, n.as_slice());
        assert(cands[0] == n@ && cands[1] == c1@ && cands[2] == c2@);
        assert(cands.drop_first()[0] == c1@ && cands.drop_first().drop_first()[0] == c2@);
        assert(cands.drop_first().drop_first().drop_first().len() == 0);
        if self.path_is_present(n.as_slice()) {
            return self.read_symref(name);
        }
        assert(first_existing(st, cands) == first_existing(st, cands.drop_first()));
        if self.path_is_present(c1.as_slice()) {
            let p = string_from_chars(c1.as_slice());
            return self.read_symref(p.as_str());
        }
        assert(first_existing(st, cands.drop_first()) == first_existing(
            st,
            cands.drop_first().drop_first(),
        ));
        if self.path_is_present(c2.as_slice()) {
            let p = string_from_chars(c2.as_slice());
            return self.read_symref(p.as_str());
        }
        assert(first_existing(st, cands.drop_first().drop_first()) == first_existing(
            st,
            cands.drop_first().drop_first().drop_first(),
        ));
        None
    }

    /// Points HEAD at the branch of that name when `refs/heads/<revision>`
    /// exists, and at the object id otherwise; refused while HEAD's lock is
    /// held.
    pub fn set_head(&mut self, revision: &str, oid: &str) -> (r: Result<(), Error>)
        ensures
            final(self).pathname == old(self).pathname,
            lock_held(old(self).store(), "HEAD"@) ==> (r matches Err(Error::Generic(m)) && m@
                == lock_denied(joined(old(self).pathname@, "HEAD"@))) && final(self).store() == old(
                self,
            ).store(),
            !lock_held(old(self).store(), "HEAD"@) ==> r is Ok && final(self).store() == write_file(
                old(self).store(),
                "HEAD"@,
                if path_exists(old(self).store(), "refs/heads/"@ + revision@) {
                    "ref: refs/heads/"@ + revision@ + "\n"@
                } else {
                    oid@ + "\n"@
                },
            ),
    {
        let mut bp = chars_of("refs/heads/");
        let rv = chars_of(revision);
        crate::text::push_vec(&mut bp, rv.as_slice());
        let head = chars_of(HEAD);
        let shown = path_join(self.pathname.as_str(), HEAD);
        match self.check_lock(head.as_slice(), shown.as_str()) {
            Err(e) => {
                return Err(e);
            },
            Ok(()) => {},
        }
        let mut content: Vec<char>;
        if self.path_is_present(bp.as_slice()) {
            content = chars_of("ref: refs/heads/");
            crate::text::push_vec(&mut content, rv.as_slice());
        } else {
            content = chars_of(oid);
        }
        let nl = chars_of("\n");
        crate::text::push_vec(&mut content, nl.as_slice());
        self.write_ref_file(head.as_slice(), content.as_slice());
        Ok(())
    }

    /// Writes an object id to a reference: `<name>` when it starts with
    /// `refs/`, `refs/<name>` otherwise; refused while its lock is held.
    pub fn update_ref(&mut self, name: &str, oid: &str) -> (r: Result<(), Error>)
        ensures
            final(self).pathname == old(self).pathname,
            lock_held(old(self).store(), ref_path(name@)) ==> (r matches Err(Error::Generic(m)) && m@
                == lock_denied(shown_ref_path(old(self).pathname@, name@))) && final(self).store()
                == old(self).store(),
            !lock_held(old(self).store(), ref_path(name@)) ==> r is Ok && final(self).store()
                == write_file(old(self).store(), ref_path(name@), oid@ + "\n"@),
    {
        let n = chars_of(name);
        let pre = chars_of("refs/");
        let shown = if starts_with(n.as_slice(), pre.as_slice()) {
            path_join(self.pathname.as_str(), name)
        } else {
            let refs_dir = path_join(self.pathname.as_str(), "refs");
            path_join(refs_dir.as_str(), name)
        };
        let mut path: Vec<char>;
        if starts_with(n.as_slice(), pre.as_slice()) {
            path = n;
        } else {
            path = pre;
            crate::text::push_vec(&mut path, n.as_slice());
        }
        match self.check_lock(path.as_slice(), shown.as_str()) {
            Err(e) => {
                return Err(e);
            },
            Ok(()) => {},
        }
        let mut content = chars_of(oid);
        let nl = chars_of("\n");
        crate::text::push_vec(&mut content, nl.as_slice());
        self.write_ref_file(path.as_slice(), content.as_slice());
        Ok(())
    }

    /// Writes an object id where HEAD finally points: through symbolic
    /// references to the first file that is not one; refused at the first
    /// file on the way whose lock is held.
    pub fn update_head(&mut self, oid: &str) -> (r: Result<(), Error>)
        requires
            write_target(old(self).store(), "HEAD"@, (old(self).store().len() + 1) as nat) is Some,
        ensures
            final(self).pathname == old(self).pathname,
            chain_lock(old(self).store(), "HEAD"@, (old(self).store().len() + 1) as nat) matches Some(p)
                ==> (r matches Err(Error::Generic(m)) && m@ == lock_denied(joined(old(self).pathname@, p)))
                && final(self).store() == old(self).store(),
            chain_lock(old(self).store(), "HEAD"@, (old(self).store().len() + 1) as nat) is None ==> r is Ok
                && final(self).store() == write_file(
                old(self).store(),
                write_target(old(self).store(), "HEAD"@, (old(self).store().len() + 1) as nat)->0,
                oid@ + "\n"@,
            ),
    {
        let ghost st = self.store();
        let ghost n0 = (st.len() + 1) as nat;
        let mut p = chars_of(HEAD);
        let mut fuel: u128 = self.files.len() as u128 + 1;
        loop
            invariant_except_break
                st == self.store(),
                n0 == (st.len() + 1) as nat,
                write_target(st, p@, fuel as nat) is Some,
                write_target(st, p@, fuel as nat) == write_target(st, "HEAD"@, n0),
                chain_lock(st, p@, fuel as nat) == chain_lock(st, "HEAD"@, n0),
            ensures
                st == self.store(),
                write_target(st, "HEAD"@, n0) == Some(p@),
                chain_lock(st, "HEAD"@, n0) is None,
            decreases fuel,
        {
            let shown = path_join(self.pathname.as_str(), string_from_chars(p.as_slice()).as_str());
            match self.check_lock(p.as_slice(), shown.as_str()) {
                Err(e) => {
                    return Err(e);
                },
                Ok(()) => {},
            }
            match self.read_oid_or_symref(p.as_slice()) {
                Some(Reference::Symbolic(t)) => {
                    p = chars_of(t.as_str());
                    fuel -= 1;
                },
                _ => {
                    break;
                },
            }
        }
        let mut content = chars_of(oid);
        let nl = chars_of("\n");
        crate::text::push_vec(&mut content, nl.as_slice());
        self.write_ref_file(p.as_slice(), content.as_slice());
        Ok(())
    }

    /// Whether a name may be used for a branch.
    pub fn is_valid_branch_name(&self, name: &str) -> (r: bool)
        ensures
            r == valid_branch_name(name@),
    {
        let n = chars_of(name);
        if n.len() == 0 {
            return false;
        }
        let slash = chars_of("/");
        !contains_chars(n.as_slice(), slash.as_slice()) && !is_invalid_ref_name(n.as_slice())
    }

    /// Creates a branch pointing at an object id; refused for an invalid
    /// name, for a branch that exists, and while the branch's lock is held.
    pub fn create_branch(&mut self, branch_name: &str, oid: &str) -> (r: Result<(), Error>)
        ensures
            final(self).pathname == old(self).pathname,
            !valid_branch_name(branch_name@) ==> (r matches Err(Error::Generic(m)) && m@ == "'"@
                + branch_name@ + "' is not a valid branch name."@) && final(self).store() == old(
                self,
            ).store(),
            valid_branch_name(branch_name@) && path_exists(
                old(self).store(),
                "refs/heads/"@ + branch_name@,
            ) ==> (r matches Err(Error::Generic(m)) && m@ == "A branch named '"@ + branch_name@
                + "' already exists."@) && final(self).store() == old(self).store(),
            valid_branch_name(branch_name@) && !path_exists(
                old(self).store(),
                "refs/heads/"@ + branch_name@,
            ) && path_exists(old(self).store(), lock_path_of("refs/heads/"@ + branch_name@)) ==> (r matches Err(
                Error::Generic(m),
            ) && m@ == branch_lock_message(old(self).pathname@, branch_name@)) && final(self).store()
                == old(self).store(),
            valid_branch_name(branch_name@) && !path_exists(
                old(self).store(),
                "refs/heads/"@ + branch_name@,
            ) && !path_exists(old(self).store(), lock_path_of("refs/heads/"@ + branch_name@)) ==> r is Ok
                && final(self).store() == write_file(
                old(self).store(),
                "refs/heads/"@ + branch_name@,
                oid@ + "\n"@,
            ),
    {
        if !self.is_valid_branch_name(branch_name) {
            let mut m = String::new();
            push_str(&mut m, "'");
            push_str(&mut m, branch_name);
            push_str(&mut m, "' is not a valid branch name.");
            return Err(Error::Generic(m));
        }
        let mut bp = chars_of("refs/heads/");
        let n = chars_of(branch_name);
        crate::text::push_vec(&mut bp, n.as_slice());
        if self.path_is_present(bp.as_slice()) {
            let mut m = String::new();
            push_str(&mut m, "A branch named '");
            push_str(&mut m, branch_name);
            push_str(&mut m, "' already exists.");
            return Err(Error::Generic(m));
        }
        let refs_dir = path_join(self.pathname.as_str(), "refs");
        let heads_dir = path_join(refs_dir.as_str(), "heads");
        let full = path_join(heads_dir.as_str(), branch_name);
        match self.check_lock(bp.as_slice(), full.as_str()) {
            Err(e) => {
                return Err(e);
            },
            Ok(()) => {},
        }
        let mut content = chars_of(oid);
        let nl = chars_of("\n");
        crate::text::push_vec(&mut content, nl.as_slice());
        self.write_ref_file(bp.as_slice(), content.as_slice());
        Ok(())
    }

    /// Where HEAD points: a branch path, an object id, or an empty id when
    /// there is no HEAD.
    pub fn current_ref(&self) -> (r: Result<Reference, Error>)
        ensures
            r matches Ok(x) && x@ == match read_at(self.store(), "HEAD"@) {
                Some(t) => t,
                None => RefTarget::Direct(Seq::empty()),
            },
    {
        let h = chars_of(HEAD);
        match self.read_oid_or_symref(h.as_slice()) {
            Some(x) => Ok(x),
            None => Ok(Reference::Direct(String::new())),
        }
    }

    /// The short name of a branch path.
    pub fn short_name(&self, path: &str) -> (r: String)
        ensures
            r@ == short_name_of(path@),
    {
        let p = chars_of(path);
        let pre = chars_of("refs/heads/");
        proof {
            reveal_strlit("refs/heads/");
        }
        if starts_with(p.as_slice(), pre.as_slice()) {
            let rest = slice_chars(p.as_slice(), 11, p.len());
            string_from_chars(rest.as_slice())
        } else {
            string_from_chars(p.as_slice())
        }
    }

    /// The paths of all files below a directory prefix that also start with
    /// `pre`, as symbolic references, in store order.
    fn files_with_prefixes(&self, dir: &[char], pre: &[char]) -> (r: Vec<Reference>)
        ensures
            all_symbolic(r@),
            symbolic_paths(r@) == paths_with_prefixes(self.store(), dir@, pre@),
    {
        let ghost st = self.store();
        let mut r: Vec<Reference> = Vec::new();
        let mut k: usize = 0;
        assert(st.take(0) =~= Seq::<(Seq<char>, Seq<char>)>::empty());
        while k < self.files.len()
            invariant
                k <= self.files@.len(),
                st == self.store(),
                all_symbolic(r@),
                symbolic_paths(r@) == paths_with_prefixes(st.take(k as int), dir@, pre@),
            decreases self.files.len() - k,
        {
            let path = chars_of(self.files[k].0.as_str());
            let ghost before = st.take(k as int);
            let ghost after = st.take(k + 1);
            assert(after.drop_last() =~= before);
            assert(after.last() == st[k as int]);
            assert(st[k as int].0 == path@);
            if starts_with(path.as_slice(), dir) && starts_with(path.as_slice(), pre) {
                let ghost old_r = symbolic_paths(r@);
                r.push(Reference::Symbolic(string_from_chars(path.as_slice())));
                assert(symbolic_paths(r@) =~= old_r.push(path@));
            }
            k += 1;
        }
        assert(st.take(self.files.len() as int) =~= st);
        r
    }

    /// All branches, as symbolic references to their paths.
    pub fn list_branches(&self) -> (r: Result<Vec<Reference>, Error>)
        ensures
            r matches Ok(v) && all_symbolic(v@) && symbolic_paths(v@) == paths_with_prefix(
                self.store(),
                "refs/heads/"@,
            ),
    {
        let pre = chars_of("refs/heads/");
        let r = self.files_with_prefixes(pre.as_slice(), pre.as_slice());
        proof {
            lemma_prefixes_same(self.store(), pre@);
        }
        Ok(r)
    }

    /// All references whose paths start with a prefix, looked for in the
    /// prefix when it is a directory and in its parent otherwise.
    pub fn list_refs_with_prefix(&self, prefix: &str) -> (r: Result<Vec<Reference>, Error>)
        ensures
            r matches Ok(v) && all_symbolic(v@) && symbolic_paths(v@) == refs_with_prefix_view(
                self.store(),
                prefix@,
            ),
    {
        let pv = chars_of(prefix);
        let dir: Vec<char>;
        if self.dir_exists(pv.as_slice()) {
            if pv.len() > 0 && pv[pv.len() - 1] == '/' {
                dir = slice_chars(pv.as_slice(), 0, pv.len() - 1);
            } else {
                dir = slice_chars(pv.as_slice(), 0, pv.len());
                assert(dir@ =~= pv@);
            }
        } else {
            dir = parent_chars(pv.as_slice());
        }
        if dir.len() != 0 && !self.path_is_present(dir.as_slice()) {
            return Ok(Vec::new());
        }
        let mut d = dir;
        if d.len() != 0 {
            d.push('/');
        }
        Ok(self.files_with_prefixes(d.as_slice(), pv.as_slice()))
    }

    /// Deletes a branch and gives the object id it pointed at.
    pub fn delete_branch(&mut self, branch_name: &str) -> (r: Result<String, Error>)
        requires
            resolves(old(self).store(), "refs/heads/"@ + branch_name@),
        ensures
            final(self).pathname == old(self).pathname,
            match resolved(old(self).store(), "refs/heads/"@ + branch_name@) {
                Some(o) => r matches Ok(x) && x@ == o && final(self).store() == remove_file(
                    old(self).store(),
                    "refs/heads/"@ + branch_name@,
                ),
                None => r matches Err(Error::Generic(m)) && m@ == "Branch '"@ + branch_name@
                    + "' not found."@ && final(self).store() == old(self).store(),
            },
    {
        let mut bp = chars_of("refs/heads/");
        let n = chars_of(branch_name);
        crate::text::push_vec(&mut bp, n.as_slice());
        let path = string_from_chars(bp.as_slice());
        match self.read_symref(path.as_str()) {
            None => {
                let mut m = String::new();
                push_str(&mut m, "Branch '");
                push_str(&mut m, branch_name);
                push_str(&mut m, "' not found.");
                Err(Error::Generic(m))
            },
            Some(oid) => {
                let ghost st = self.store();
                match self.find(bp.as_slice()) {
                    Some(i) => {
                        self.files.remove(i);
                        assert(self.store() =~= st.remove(i as int));
                    },
                    None => {},
                }
                Ok(oid)
            },
        }
    }
}

/// The object id that `read_ref` gives for a name.
pub open spec fn read_ref_view(st: RefStore, name: Seq<char>) -> Option<Seq<char>> {
    if name == "@"@ || name == "HEAD"@ {
        if path_exists(st, "HEAD"@) {
            resolved(st, "HEAD"@)
        } else {
            None
        }
    } else {
        match first_existing(st, ref_candidates(name)) {
            Some(p) => resolved(st, p),
            None => None,
        }
    }
}

/// `@` and `HEAD` read the same: what HEAD resolves to when it exists.
pub proof fn lemma_read_ref_head_names(st: RefStore)
    ensures
        read_ref_view(st, "@"@) == read_ref_view(st, "HEAD"@),
        read_ref_view(st, "HEAD"@) == if path_exists(st, "HEAD"@) {
            resolved(st, "HEAD"@)
        } else {
            None
        },
{
}

/// Where HEAD points, without following it: an empty id when there is no
/// HEAD file, the path after `ref: ` of a symbolic reference, and the
/// trimmed content otherwise.
pub proof fn lemma_current_ref_cases(st: RefStore)
    ensures
        file_at(st, "HEAD"@) is None ==> read_at(st, "HEAD"@) is None,
        file_at(st, "HEAD"@) matches Some(c) ==> read_at(st, "HEAD"@) == Some(
            if is_prefix("ref: "@, trim(c)) && trim(c).len() > 5 && free_of(
                trim(c).subrange(5, trim(c).len() as int),
                '\n',
            ) {
                RefTarget::Symbolic(trim(c).subrange(5, trim(c).len() as int))
            } else {
                RefTarget::Direct(trim(c))
            },
        ),
{
}

/// The file that a write through symbolic references from `p` lands in,
/// within `fuel` steps.
pub open spec fn write_target(st: RefStore, p: Seq<char>, fuel: nat) -> Option<Seq<char>>
    decreases fuel,
{
    if fuel == 0 {
        None
    } else {
        match read_at(st, p) {
            Some(RefTarget::Symbolic(t)) => write_target(st, t, (fuel - 1) as nat),
            _ => Some(p),
        }
    }
}

/// The directory that `list_refs_with_prefix` searches, with a trailing
/// `/` (empty for the metadata directory itself).
pub open spec fn search_dir(st: RefStore, pre: Seq<char>) -> Seq<char> {
    let d = if is_dir(st, pre) {
        if pre.len() > 0 && pre.last() == '/' {
            pre.drop_last()
        } else {
            pre
        }
    } else {
        parent_path(pre)
    };
    if d.len() == 0 {
        d
    } else {
        d.push('/')
    }
}

/// The paths that `list_refs_with_prefix` gives: files below the search
/// directory whose paths start with the prefix (none when the directory
/// does not exist).
pub open spec fn refs_with_prefix_view(st: RefStore, pre: Seq<char>) -> Seq<Seq<char>> {
    let d = if is_dir(st, pre) {
        if pre.len() > 0 && pre.last() == '/' {
            pre.drop_last()
        } else {
            pre
        }
    } else {
        parent_path(pre)
    };
    if d.len() != 0 && !path_exists(st, d) {
        seq![]
    } else {
        paths_with_prefixes(st, search_dir(st, pre), pre)
    }
}

/// The part of a path before its last `/`, followed by that `/`, starts
/// the path.
proof fn lemma_parent_in_prefix(p: Seq<char>)
    ensures
        parent_in(p).len() > 0 ==> is_prefix(parent_in(p).push('/'), p),
        parent_in(p).len() < p.len() || p.len() == 0,
    decreases p.len(),
{
    if p.len() > 0 && p.last() != '/' {
        lemma_parent_in_prefix(p.drop_last());
        if parent_in(p).len() > 0 {
            let q = parent_in(p).push('/');
            assert(p.subrange(0, q.len() as int) =~= p.drop_last().subrange(0, q.len() as int));
        }
    } else if p.len() > 0 {
        assert(p.subrange(0, p.len() as int) =~= p.drop_last().push('/'));
    }
}

/// The parent of a path, followed by `/`, starts the path.
proof fn lemma_parent_path_prefix(p: Seq<char>)
    ensures
        parent_path(p).len() > 0 ==> is_prefix(parent_path(p).push('/'), p),
    decreases p.len(),
{
    if p.len() > 0 {
        if p.last() == '/' {
            lemma_parent_path_prefix(p.drop_last());
            if parent_path(p).len() > 0 {
                let q = parent_path(p).push('/');
                assert(p.subrange(0, q.len() as int) =~= p.drop_last().subrange(0, q.len() as int));
            }
        } else {
            lemma_parent_in_prefix(p.drop_last());
            if parent_path(p).len() > 0 {
                let q = parent_path(p).push('/');
                assert(p.subrange(0, q.len() as int) =~= p.drop_last().subrange(0, q.len() as int));
            }
        }
    }
}

/// Starting with a longer prefix means starting with a shorter one.
proof fn lemma_prefix_trans(a: Seq<char>, b: Seq<char>, c: Seq<char>)
    requires
        is_prefix(a, b),
        is_prefix(b, c),
    ensures
        is_prefix(a, c),
{
    assert(c.subrange(0, a.len() as int) =~= c.subrange(0, b.len() as int).subrange(0, a.len() as int));
}

/// With the search directory starting the prefix, the files selected are
/// those that start with the prefix.
proof fn lemma_prefixes_reduce(st: RefStore, d: Seq<char>, pre: Seq<char>)
    requires
        is_prefix(d, pre),
    ensures
        paths_with_prefixes(st, d, pre) == paths_with_prefix(st, pre),
    decreases st.len(),
{
    if st.len() > 0 {
        lemma_prefixes_reduce(st.drop_last(), d, pre);
        if is_prefix(pre, st.last().0) {
            lemma_prefix_trans(d, pre, st.last().0);
        }
    }
}

proof fn lemma_paths_with_prefix_members(st: RefStore, pre: Seq<char>, x: Seq<char>)
    ensures
        paths_with_prefix(st, pre).contains(x) <==> (is_prefix(pre, x) && exists|i: int|
            0 <= i < st.len() && #[trigger] st[i].0 == x),
    decreases st.len(),
{
    if st.len() > 0 {
        let d = st.drop_last();
        lemma_paths_with_prefix_members(d, pre, x);
        let r = paths_with_prefix(d, pre);
        if paths_with_prefix(st, pre).contains(x) {
            let k = choose|k: int| 0 <= k < paths_with_prefix(st, pre).len() && paths_with_prefix(st, pre)[k] == x;
            if k < r.len() {
                assert(r[k] == x);
                assert(r.contains(x));
                let i = choose|i: int| 0 <= i < d.len() && #[trigger] d[i].0 == x;
                assert(st[i].0 == x);
            } else {
                assert(st[st.len() - 1].0 == x);
            }
        }
        if is_prefix(pre, x) && exists|i: int| 0 <= i < st.len() && #[trigger] st[i].0 == x {
            let i = choose|i: int| 0 <= i < st.len() && #[trigger] st[i].0 == x;
            if i < d.len() {
                assert(d[i].0 == x);
                assert(r.contains(x));
                let k = choose|k: int| 0 <= k < r.len() && r[k] == x;
                assert(paths_with_prefix(st, pre)[k] == x);
            } else {
                assert(paths_with_prefix(st, pre).last() == x);
            }
        }
    }
}

/// Listing references under a prefix that ends with `/`, or that names no
/// directory: a path is listed exactly when a reference file lies at it
/// and it starts with the prefix.
pub proof fn lemma_listed_refs(st: RefStore, pre: Seq<char>, x: Seq<char>)
    requires
        (pre.len() > 0 && pre.last() == '/') || !is_dir(st, pre),
    ensures
        refs_with_prefix_view(st, pre).contains(x) <==> (is_prefix(pre, x) && exists|i: int|
            0 <= i < st.len() && #[trigger] st[i].0 == x),
{
    let d = if is_dir(st, pre) {
        if pre.len() > 0 && pre.last() == '/' {
            pre.drop_last()
        } else {
            pre
        }
    } else {
        parent_path(pre)
    };
    let sd = search_dir(st, pre);
    if !is_dir(st, pre) {
        lemma_parent_path_prefix(pre);
    }
    assert(is_prefix(sd, pre)) by {
        if sd.len() == 0 {
            assert(pre.subrange(0, 0) =~= sd);
        } else if is_dir(st, pre) {
            assert(sd =~= pre);
            assert(pre.subrange(0, pre.len() as int) =~= pre);
        }
    }
    lemma_prefixes_reduce(st, sd, pre);
    lemma_paths_with_prefix_members(st, pre, x);
    if d.len() != 0 && !path_exists(st, d) {
        if is_prefix(pre, x) && exists|i: int| 0 <= i < st.len() && #[trigger] st[i].0 == x {
            let i = choose|i: int| 0 <= i < st.len() && #[trigger] st[i].0 == x;
            assert(sd == d.push('/'));
            lemma_prefix_trans(sd, pre, x);
            if d.last() == '/' {
                assert(sd.subrange(0, d.len() as int) =~= d);
                lemma_prefix_trans(d, sd, x);
            } else {
                assert(dir_prefix(d) == sd);
            }
            assert(is_prefix(dir_prefix(d), st[i].0));
            assert(is_dir(st, d));
        }
    }
}

/// The parent of a path, as `parent_path` describes.
pub(crate) fn parent_chars(p: &[char]) -> (r: Vec<char>)
    ensures
        r@ == parent_path(p@),
{
    let mut end: usize = p.len();
    assert(p@.take(end as int) =~= p@);
    while end > 0 && p[end - 1] == '/'
        invariant
            end <= p.len(),
            parent_path(p@) == parent_path(p@.take(end as int)),
        decreases end,
    {
        assert(p@.take(end as int).drop_last() =~= p@.take(end - 1));
        end -= 1;
    }
    if end == 0 {
        assert(p@.take(0) =~= Seq::<char>::empty());
        return Vec::new();
    }
    assert(p@.take(end as int).drop_last() =~= p@.take(end - 1));
    let mut k: usize = end - 1;
    while k > 0 && p[k - 1] != '/'
        invariant
            k < end <= p.len(),
            parent_path(p@) == parent_in(p@.take(k as int)),
        decreases k,
    {
        assert(p@.take(k as int).drop_last() =~= p@.take(k - 1));
        k -= 1;
    }
    if k == 0 {
        assert(p@.take(0) =~= Seq::<char>::empty());
        return Vec::new();
    }
    assert(p@.take(k as int).drop_last() =~= p@.take(k - 1));
    slice_chars(p, 0, k - 1)
}

} // verus!
