//! Moving the working tree from one commit's tree to another's: which
//! changes to make, and which paths stand in the way.
//!
//! The program around the library reads the index and the working files and
//! carries the planned changes out; the migration here decides.
use vstd::prelude::*;
use crate::commands::branch::{chars_less, name_less};
use crate::error::Error;
use crate::file_mode::FileMode;
use crate::index::entry::Entry;
use crate::repository::inspector::{blob_id, tree_to_index, ChangeType, Inspector};
use crate::text::{
    chars_of, clone_string, octal, parse_unsigned, push_str, str_eq, strings_eq, strings_view,
};

verus! {

/// Why the working tree cannot be moved as asked.
#[derive(Debug, Clone, Copy, PartialEq, Eq, Structural)]
pub enum ConflictType {
    /// Local changes would be overwritten.
    StaleFile,
    /// A directory holds files that are not tracked.
    StaleDirectory,
    /// An untracked file would be overwritten.
    UntrackedOverwritten,
    /// An untracked file would be removed.
    UntrackedRemoved,
    /// The working tree has changes not committed.
    UncommittedChanges,
}

/// An item of a tree: its id and mode (in octal).
#[derive(Debug, Clone)]
pub struct DatabaseEntry {
    pub oid: String,
    pub mode: String,
}

/// A path that differs between the two trees, with its item in each.
#[derive(Debug, Clone)]
pub struct DiffEntry {
    pub path: String,
    pub old: Option<DatabaseEntry>,
    pub new: Option<DatabaseEntry>,
}

/// What the working tree holds at a path the index does not know.
#[derive(Debug, Clone, Copy, PartialEq, Eq, Structural)]
pub enum WorkspaceItem {
    /// Nothing.
    Absent,
    /// A file.
    File,
    /// A directory, and whether it holds untracked files.
    Directory(bool),
    /// Something else.
    Other,
}

/// What was read for a path of the difference: its index entry, the
/// working file's content when it could be read, and what the working tree
/// holds there.
#[derive(Debug, Clone)]
pub struct PathState {
    pub index: Option<Entry>,
    pub data: Option<Vec<u8>>,
    pub item: WorkspaceItem,
}

/// A change to make to the working tree: a path, with the mode and id of
/// what to write.
#[derive(Debug, Clone)]
pub enum Change {
    Create(String, String, String),
    Update(String, String, String),
    Delete(String),
}

/// A change as text.
pub enum ChangeView {
    Create(Seq<char>, Seq<char>, Seq<char>),
    Update(Seq<char>, Seq<char>, Seq<char>),
    Delete(Seq<char>),
}

impl Change {
    pub open spec fn view(self) -> ChangeView {
        match self {
            Change::Create(p, m, o) => ChangeView::Create(p@, m@, o@),
            Change::Update(p, m, o) => ChangeView::Update(p@, m@, o@),
            Change::Delete(p) => ChangeView::Delete(p@),
        }
    }
}

/// What the analysis decides for one path that is not deleted.
#[derive(PartialEq, Eq, Structural)]
pub enum PathOutcome {
    Nothing,
    Conflict(ConflictType),
    Create,
    Update,
}

/// A tree item as its mode and id.
pub open spec fn item_view(e: Option<DatabaseEntry>) -> Option<(Seq<char>, Seq<char>)> {
    match e {
        Some(d) => Some((d.mode@, d.oid@)),
        None => None,
    }
}

/// An index entry as its mode and id.
pub open spec fn entry_view(e: Option<Entry>) -> Option<(Seq<char>, Seq<char>)> {
    match e {
        Some(x) => Some((octal(x.mode.0 as nat), x.oid@)),
        None => None,
    }
}

/// Whether the new item of a path is a directory: its mode is `040000`, or
/// reads as that number.
pub open spec fn names_directory(new: Option<DatabaseEntry>) -> bool {
    match new {
        Some(e) => e.mode@ == "040000"@ || (match parse_unsigned(e.mode@, 8, u32::MAX as nat) {
            Some(v) => v == 0o040000,
            None => false,
        }),
        None => false,
    }
}

/// Why a path that is not a directory cannot be changed, if it cannot: an
/// index entry that differs from both trees, or a working file that
/// differs from its entry (or cannot be read); without an entry, an
/// untracked file that would be written over, or a directory holding
/// untracked files.
pub open spec fn conflict_at(d: DiffEntry, st: PathState) -> Option<ConflictType> {
    match st.index {
        Some(e) => if tree_to_index(item_view(d.old), entry_view(st.index)) is Some && tree_to_index(
            item_view(d.new),
            entry_view(st.index),
        ) is Some {
            Some(ConflictType::StaleFile)
        } else if (match st.data {
            Some(c) => blob_id(c@) != e.oid@,
            None => true,
        }) {
            Some(ConflictType::StaleFile)
        } else {
            None
        },
        None => match st.item {
            WorkspaceItem::File => if d.new is Some {
                Some(ConflictType::UntrackedOverwritten)
            } else {
                None
            },
            WorkspaceItem::Directory(true) => Some(ConflictType::StaleDirectory),
            _ => None,
        },
    }
}

/// What the analysis decides for a path: nothing for a deleted one (its
/// deletion is planned apart), a conflict for one in the way (directories
/// are not checked), else its creation or update.
pub open spec fn path_outcome(d: DiffEntry, st: PathState) -> PathOutcome {
    if d.new is None && d.old is Some {
        PathOutcome::Nothing
    } else {
        match (if names_directory(d.new) {
            None
        } else {
            conflict_at(d, st)
        }) {
            Some(c) => PathOutcome::Conflict(c),
            None => match d.new {
                Some(_) => if d.old is Some {
                    PathOutcome::Update
                } else {
                    PathOutcome::Create
                },
                None => PathOutcome::Nothing,
            },
        }
    }
}

/// A path added to a list unless it is there already.
pub open spec fn add_once(s: Seq<Seq<char>>, p: Seq<char>) -> Seq<Seq<char>> {
    if s.contains(p) {
        s
    } else {
        s.push(p)
    }
}

/// The paths with changes that are not committed (untracked files aside),
/// each once.
pub open spec fn uncommitted_paths(ch: Seq<(Seq<char>, ChangeType)>) -> Seq<Seq<char>>
    decreases ch.len(),
{
    if ch.len() == 0 {
        seq![]
    } else {
        let rest = uncommitted_paths(ch.drop_last());
        if ch.last().1 != ChangeType::Untracked {
            add_once(rest, ch.last().0)
        } else {
            rest
        }
    }
}

/// The paths of the difference with a conflict of a type, each once.
pub open spec fn conflict_paths(diff: Seq<DiffEntry>, states: Seq<PathState>, ct: ConflictType) -> Seq<
    Seq<char>,
>
    decreases diff.len(),
{
    if diff.len() == 0 || states.len() < diff.len() {
        seq![]
    } else {
        let n = diff.len() - 1;
        let rest = conflict_paths(diff.drop_last(), states.take(n), ct);
        if path_outcome(diff[n], states[n]) == PathOutcome::Conflict(ct) {
            add_once(rest, diff[n].path@)
        } else {
            rest
        }
    }
}

/// The deletions of the paths that only the old tree has.
pub open spec fn deletions(diff: Seq<DiffEntry>) -> Seq<ChangeView>
    decreases diff.len(),
{
    if diff.len() == 0 {
        seq![]
    } else {
        deletions(diff.drop_last()) + if diff.last().old is Some && diff.last().new is None {
            seq![ChangeView::Delete(diff.last().path@)]
        } else {
            seq![]
        }
    }
}

/// The creations and updates of the paths in the difference.
pub open spec fn writes(diff: Seq<DiffEntry>, states: Seq<PathState>) -> Seq<ChangeView>
    decreases diff.len(),
{
    if diff.len() == 0 || states.len() < diff.len() {
        seq![]
    } else {
        let n = diff.len() - 1;
        let d = diff[n];
        writes(diff.drop_last(), states.take(n)) + match (path_outcome(d, states[n]), d.new) {
            (PathOutcome::Create, Some(e)) => seq![ChangeView::Create(d.path@, e.mode@, e.oid@)],
            (PathOutcome::Update, Some(e)) => seq![ChangeView::Update(d.path@, e.mode@, e.oid@)],
            _ => seq![],
        }
    }
}

/// The first line of the message for a conflict type.
pub open spec fn conflict_header(ct: ConflictType) -> Seq<char> {
    match ct {
        ConflictType::StaleFile => "Your local changes to the following files would be overwritten by checkout:"@,
        ConflictType::StaleDirectory => "Updating the following directories would lose untracked files in them:"@,
        ConflictType::UntrackedOverwritten => "The following untracked working tree files would be overwritten by checkout:"@,
        ConflictType::UntrackedRemoved => "The following untracked working tree files would be removed by checkout:"@,
        ConflictType::UncommittedChanges => "You have uncommitted changes in your working tree:"@,
    }
}

/// The last line of the message for a conflict type.
pub open spec fn conflict_footer(ct: ConflictType) -> Seq<char> {
    match ct {
        ConflictType::StaleFile => "Please commit your changes or stash them before you switch branches."@,
        ConflictType::StaleDirectory => "\n"@,
        ConflictType::UntrackedOverwritten => "Please move or remove them before you switch branches."@,
        ConflictType::UntrackedRemoved => "Please move or remove them before you switch branches."@,
        ConflictType::UncommittedChanges => "Please commit your changes or stash them before you switch branches."@,
    }
}

/// A text placed into a list ordered by code points, after every text that
/// does not come after it.
pub open spec fn insert_text(s: Seq<Seq<char>>, t: Seq<char>) -> Seq<Seq<char>>
    decreases s.len(),
{
    if s.len() == 0 || !name_less(t, s.last()) {
        s.push(t)
    } else {
        insert_text(s.drop_last(), t).push(s.last())
    }
}

/// The texts in order of their code points.
pub open spec fn sorted_texts(s: Seq<Seq<char>>) -> Seq<Seq<char>>
    decreases s.len(),
{
    if s.len() == 0 {
        seq![]
    } else {
        insert_text(sorted_texts(s.drop_last()), s.last())
    }
}

/// Each path on a line of its own after a tab.
pub open spec fn tab_lines(ps: Seq<Seq<char>>) -> Seq<char>
    decreases ps.len(),
{
    if ps.len() == 0 {
        seq![]
    } else {
        tab_lines(ps.drop_last()) + "\t"@ + ps.last() + "\n"@
    }
}

/// The message for the paths with a conflict of a type.
pub open spec fn conflict_message(ct: ConflictType, ps: Seq<Seq<char>>) -> Seq<char> {
    conflict_header(ct) + "\n"@ + tab_lines(sorted_texts(ps)) + conflict_footer(ct)
}

/// The message for a type when it has paths, as a list of one or none.
pub open spec fn message_if_any(ct: ConflictType, ps: Seq<Seq<char>>) -> Seq<Seq<char>> {
    if ps.len() > 0 {
        seq![conflict_message(ct, ps)]
    } else {
        seq![]
    }
}

/// The working file of a tracked path differs from its index entry, or
/// cannot be read.
pub open spec fn locally_changed(st: PathState) -> bool {
    st.index is Some && (st.data is None || blob_id(st.data->0@) != st.index->0.oid@)
}

/// The path is written by the move: it is not only deleted, and what the
/// new tree holds there is not a directory.
pub open spec fn written_file(d: DiffEntry) -> bool {
    !(d.new is None && d.old is Some) && !names_directory(d.new)
}

proof fn lemma_conflict_paths_contain(diff: Seq<DiffEntry>, states: Seq<PathState>, ct: ConflictType)
    requires
        states.len() == diff.len(),
    ensures
        forall|i: int|
            0 <= i < diff.len() && path_outcome(diff[i], states[i]) == PathOutcome::Conflict(ct)
                ==> conflict_paths(diff, states, ct).contains(#[trigger] diff[i].path@),
    decreases diff.len(),
{
    if diff.len() > 0 {
        let n = diff.len() - 1;
        let d2 = diff.drop_last();
        let s2 = states.take(n);
        lemma_conflict_paths_contain(d2, s2, ct);
        let rest = conflict_paths(d2, s2, ct);
        let all = conflict_paths(diff, states, ct);
        assert forall|i: int|
            0 <= i < diff.len() && path_outcome(diff[i], states[i]) == PathOutcome::Conflict(ct)
                implies all.contains(#[trigger] diff[i].path@) by {
            if i < n {
                assert(d2[i] == diff[i] && s2[i] == states[i]);
                assert(rest.contains(d2[i].path@));
                if !rest.contains(diff[n].path@) {
                    let k = choose|k: int| 0 <= k < rest.len() && rest[k] == d2[i].path@;
                    assert(all[k] == rest[k]);
                }
            } else {
                if !rest.contains(diff[n].path@) {
                    assert(all[all.len() - 1] == diff[n].path@);
                }
            }
        }
    }
}

/// A move never writes over local work: every path it would write whose
/// working file differs from the index (or cannot be read) is found as a
/// stale file, every untracked file it would write over as such, and every
/// directory of untracked files in the way as a stale directory; each of
/// these stops the move.
pub proof fn lemma_local_work_in_the_way(diff: Seq<DiffEntry>, states: Seq<PathState>)
    requires
        states.len() == diff.len(),
    ensures
        forall|i: int|
            0 <= i < diff.len() && written_file(diff[i]) && locally_changed(states[i])
                ==> conflict_paths(diff, states, ConflictType::StaleFile).contains(
                #[trigger] diff[i].path@,
            ),
        forall|i: int|
            0 <= i < diff.len() && written_file(diff[i]) && states[i].index is None
                && states[i].item == WorkspaceItem::File && diff[i].new is Some ==> conflict_paths(
                diff,
                states,
                ConflictType::UntrackedOverwritten,
            ).contains(#[trigger] diff[i].path@),
        forall|i: int|
            0 <= i < diff.len() && written_file(diff[i]) && states[i].index is None
                && states[i].item == WorkspaceItem::Directory(true) ==> conflict_paths(
                diff,
                states,
                ConflictType::StaleDirectory,
            ).contains(#[trigger] diff[i].path@),
{
    lemma_conflict_paths_contain(diff, states, ConflictType::StaleFile);
    lemma_conflict_paths_contain(diff, states, ConflictType::UntrackedOverwritten);
    lemma_conflict_paths_contain(diff, states, ConflictType::StaleDirectory);
    assert forall|i: int|
        0 <= i < diff.len() && written_file(diff[i]) && locally_changed(states[i]) implies path_outcome(
        diff[i],
        states[i],
    ) == PathOutcome::Conflict(ConflictType::StaleFile) by {}
    assert forall|i: int|
        0 <= i < diff.len() && written_file(diff[i]) && states[i].index is None && states[i].item
            == WorkspaceItem::File && diff[i].new is Some implies path_outcome(diff[i], states[i])
        == PathOutcome::Conflict(ConflictType::UntrackedOverwritten) by {}
    assert forall|i: int|
        0 <= i < diff.len() && written_file(diff[i]) && states[i].index is None && states[i].item
            == WorkspaceItem::Directory(true) implies path_outcome(diff[i], states[i])
        == PathOutcome::Conflict(ConflictType::StaleDirectory) by {}
}

/// The write planned for path `i` of the difference: the new item, created
/// where the old tree had none and updated where it had one.
pub open spec fn write_of(diff: Seq<DiffEntry>, i: int, c: ChangeView) -> bool {
    &&& diff[i].new is Some
    &&& c == if diff[i].old is Some {
        ChangeView::Update(diff[i].path@, diff[i].new->0.mode@, diff[i].new->0.oid@)
    } else {
        ChangeView::Create(diff[i].path@, diff[i].new->0.mode@, diff[i].new->0.oid@)
    }
}

/// `c` writes some path of the difference that holds no local work: its
/// working file is the index's, or no untracked file or directory of
/// untracked files is there (or the new item is a directory).
pub open spec fn safe_write(diff: Seq<DiffEntry>, states: Seq<PathState>, c: ChangeView) -> bool {
    exists|i: int|
        0 <= i < diff.len() && #[trigger] write_of(diff, i, c) && (names_directory(diff[i].new) || (
        !locally_changed(states[i]) && !(states[i].index is None && (states[i].item
            == WorkspaceItem::File || states[i].item == WorkspaceItem::Directory(true)))))
}

/// Every write that a move plans puts a path's new item where no local work
/// is lost.
pub proof fn lemma_writes_are_safe(diff: Seq<DiffEntry>, states: Seq<PathState>)
    requires
        states.len() == diff.len(),
    ensures
        forall|k: int|
            0 <= k < writes(diff, states).len() ==> safe_write(
                diff,
                states,
                #[trigger] writes(diff, states)[k],
            ),
    decreases diff.len(),
{
    if diff.len() > 0 {
        let n = diff.len() - 1;
        let d2 = diff.drop_last();
        let s2 = states.take(n);
        lemma_writes_are_safe(d2, s2);
        let rest = writes(d2, s2);
        let w = writes(diff, states);
        assert forall|k: int| 0 <= k < w.len() implies safe_write(diff, states, #[trigger] w[k]) by {
            if k < rest.len() {
                assert(w[k] == rest[k]);
                assert(safe_write(d2, s2, rest[k]));
                let i = choose|i: int|
                    0 <= i < d2.len() && #[trigger] write_of(d2, i, rest[k]) && (names_directory(
                        d2[i].new,
                    ) || (!locally_changed(s2[i]) && !(s2[i].index is None && (s2[i].item
                        == WorkspaceItem::File || s2[i].item == WorkspaceItem::Directory(true)))));
                assert(d2[i] == diff[i] && s2[i] == states[i]);
                assert(write_of(diff, i, w[k]));
            } else {
                assert(write_of(diff, n, w[k]));
            }
        }
    }
}

proof fn lemma_insert_text_at(s: Seq<Seq<char>>, t: Seq<char>, p: int)
    requires
        0 <= p <= s.len(),
        forall|j: int| p <= j < s.len() ==> name_less(t, #[trigger] s[j]),
        p > 0 ==> !name_less(t, s[p - 1]),
    ensures
        insert_text(s, t) == s.take(p).push(t) + s.skip(p),
    decreases s.len(),
{
    if s.len() == 0 || p == s.len() {
        assert(s.take(p).push(t) + s.skip(p) =~= s.push(t));
    } else {
        lemma_insert_text_at(s.drop_last(), t, p);
        assert(s.drop_last().take(p) =~= s.take(p));
        assert(s.take(p).push(t) + s.skip(p) =~= (s.drop_last().take(p).push(t) + s.drop_last().skip(
            p,
        )).push(s.last()));
    }
}

/// The texts in order of their code points.
pub(crate) fn sort_texts(v: &Vec<String>) -> (r: Vec<String>)
    ensures
        strings_view(r@) == sorted_texts(strings_view(v@)),
{
    let ghost orig = strings_view(v@);
    let mut r: Vec<String> = Vec::new();
    let mut i: usize = 0;
    while i < v.len()
        invariant
            i <= v.len(),
            orig == strings_view(v@),
            strings_view(r@) == sorted_texts(orig.take(i as int)),
        decreases v.len() - i,
    {
        assert(orig.take(i + 1).drop_last() =~= orig.take(i as int));
        assert(orig.take(i + 1).last() == v@[i as int]@);
        let tc = chars_of(v[i].as_str());
        let ghost rview = strings_view(r@);
        let mut p: usize = r.len();
        while p > 0 && chars_less(tc.as_slice(), chars_of(r[p - 1].as_str()).as_slice())
            invariant
                p <= r.len(),
                rview == strings_view(r@),
                tc@ == v@[i as int]@,
                forall|j: int| p <= j < r.len() ==> name_less(v@[i as int]@, #[trigger] rview[j]),
            decreases p,
        {
            p -= 1;
        }
        proof {
            lemma_insert_text_at(rview, v@[i as int]@, p as int);
        }
        r.insert(p, clone_string(&v[i]));
        assert(strings_view(r@) =~= rview.take(p as int).push(v@[i as int]@) + rview.skip(p as int));
        i += 1;
    }
    assert(orig.take(i as int) =~= orig);
    r
}

/// Adds a path to a list unless it is there already.
pub(crate) fn push_once(v: &mut Vec<String>, p: &str)
    ensures
        strings_view(final(v)@) == add_once(strings_view(old(v)@), p@),
{
    let ghost sv = strings_view(v@);
    let mut i: usize = 0;
    while i < v.len()
        invariant
            i <= v.len(),
            sv == strings_view(v@),
            forall|j: int| 0 <= j < i ==> sv[j] != p@,
        decreases v.len() - i,
    {
        if str_eq(v[i].as_str(), p) {
            assert(sv[i as int] == p@);
            assert(sv.contains(p@));
            return;
        }
        i += 1;
    }
    assert(!sv.contains(p@));
    v.push(p.to_owned());
    assert(strings_view(v@) =~= sv.push(p@));
}

/// The message for the paths with a conflict of a type.
fn conflict_text(ct: ConflictType, paths: &Vec<String>) -> (r: String)
    ensures
        r@ == conflict_message(ct, strings_view(paths@)),
{
    let mut r = String::new();
    match ct {
        ConflictType::StaleFile => push_str(
            &mut r,
            "Your local changes to the following files would be overwritten by checkout:",
        ),
        ConflictType::StaleDirectory => push_str(
            &mut r,
            "Updating the following directories would lose untracked files in them:",
        ),
        ConflictType::UntrackedOverwritten => push_str(
            &mut r,
            "The following untracked working tree files would be overwritten by checkout:",
        ),
        ConflictType::UntrackedRemoved => push_str(
            &mut r,
            "The following untracked working tree files would be removed by checkout:",
        ),
        ConflictType::UncommittedChanges => push_str(
            &mut r,
            "You have uncommitted changes in your working tree:",
        ),
    }
    push_str(&mut r, "\n");
    let sorted = sort_texts(paths);
    let ghost sv = strings_view(sorted@);
    let ghost r0 = r@;
    let mut i: usize = 0;
    assert(sv.take(0) =~= Seq::<Seq<char>>::empty());
    while i < sorted.len()
        invariant
            i <= sorted.len(),
            sv == strings_view(sorted@),
            r@ == r0 + tab_lines(sv.take(i as int)),
        decreases sorted.len() - i,
    {
        assert(sv.take(i + 1).drop_last() =~= sv.take(i as int));
        assert(sv.take(i + 1).last() == sorted@[i as int]@);
        push_str(&mut r, "\t");
        push_str(&mut r, sorted[i].as_str());
        push_str(&mut r, "\n");
        i += 1;
    }
    assert(sv.take(i as int) =~= sv);
    match ct {
        ConflictType::StaleFile => push_str(
            &mut r,
            "Please commit your changes or stash them before you switch branches.",
        ),
        ConflictType::StaleDirectory => push_str(&mut r, "\n"),
        ConflictType::UntrackedOverwritten => push_str(
            &mut r,
            "Please move or remove them before you switch branches.",
        ),
        ConflictType::UntrackedRemoved => push_str(
            &mut r,
            "Please move or remove them before you switch branches.",
        ),
        ConflictType::UncommittedChanges => push_str(
            &mut r,
            "Please commit your changes or stash them before you switch branches.",
        ),
    }
    r
}

/// A move of the working tree between two trees.
pub struct Migration {
    diff: Vec<DiffEntry>,
    errors: Vec<String>,
    stale_file: Vec<String>,
    stale_directory: Vec<String>,
    untracked_overwritten: Vec<String>,
    untracked_removed: Vec<String>,
    uncommitted_changes: Vec<String>,
    changes_to_make: Vec<Change>,
}

impl Migration {
    /// The paths found in the way, by type of conflict.
    pub closed spec fn conflicts(&self, ct: ConflictType) -> Seq<Seq<char>> {
        match ct {
            ConflictType::StaleFile => strings_view(self.stale_file@),
            ConflictType::StaleDirectory => strings_view(self.stale_directory@),
            ConflictType::UntrackedOverwritten => strings_view(self.untracked_overwritten@),
            ConflictType::UntrackedRemoved => strings_view(self.untracked_removed@),
            ConflictType::UncommittedChanges => strings_view(self.uncommitted_changes@),
        }
    }

    /// The paths that differ between the two trees.
    pub closed spec fn entries(&self) -> Seq<DiffEntry> {
        self.diff@
    }

    /// The messages of the conflicts found.
    pub closed spec fn error_messages(&self) -> Seq<Seq<char>> {
        strings_view(self.errors@)
    }

    /// The changes planned.
    pub closed spec fn changes(&self) -> Seq<ChangeView> {
        self.changes_to_make@.map_values(|c: Change| c.view())
    }

    /// Whether nothing was found or planned yet.
    pub open spec fn fresh(&self) -> bool {
        &&& forall|ct: ConflictType| #[trigger] self.conflicts(ct).len() == 0
        &&& self.changes().len() == 0
        &&& self.error_messages().len() == 0
    }

    /// The messages for the conflicts found, a type at a time in the order
    /// of the types, for the types that have paths.
    pub open spec fn messages(&self) -> Seq<Seq<char>> {
        message_if_any(ConflictType::StaleFile, self.conflicts(ConflictType::StaleFile))
            + message_if_any(
            ConflictType::StaleDirectory,
            self.conflicts(ConflictType::StaleDirectory),
        ) + message_if_any(
            ConflictType::UntrackedOverwritten,
            self.conflicts(ConflictType::UntrackedOverwritten),
        ) + message_if_any(
            ConflictType::UntrackedRemoved,
            self.conflicts(ConflictType::UntrackedRemoved),
        ) + message_if_any(
            ConflictType::UncommittedChanges,
            self.conflicts(ConflictType::UncommittedChanges),
        )
    }

    /// What the analysis leaves: with changes not committed in the working
    /// tree, those paths as the only conflict and nothing planned; else the
    /// paths in the way by type, and the deletions followed by the writes.
    pub open spec fn analyzed(
        &self,
        workspace_changes: Seq<(Seq<char>, ChangeType)>,
        states: Seq<PathState>,
    ) -> bool {
        let u = uncommitted_paths(workspace_changes);
        &&& self.conflicts(ConflictType::UncommittedChanges) == u
        &&& u.len() > 0 ==> {
            &&& forall|ct: ConflictType|
                ct != ConflictType::UncommittedChanges ==> #[trigger] self.conflicts(ct).len() == 0
            &&& self.changes().len() == 0
        }
        &&& u.len() == 0 ==> {
            &&& forall|ct: ConflictType|
                ct != ConflictType::UncommittedChanges ==> #[trigger] self.conflicts(ct)
                    == conflict_paths(self.entries(), states, ct)
            &&& self.changes() == deletions(self.entries()) + writes(self.entries(), states)
        }
    }

    /// A migration over the paths that differ between two trees.
    pub fn new(diff: Vec<DiffEntry>) -> (r: Migration)
        ensures
            r.entries() == diff@,
            r.fresh(),
    {
        let r = Migration {
            diff,
            errors: Vec::new(),
            stale_file: Vec::new(),
            stale_directory: Vec::new(),
            untracked_overwritten: Vec::new(),
            untracked_removed: Vec::new(),
            uncommitted_changes: Vec::new(),
            changes_to_make: Vec::new(),
        };
        assert(r.changes() =~= Seq::<ChangeView>::empty());
        assert(r.error_messages() =~= Seq::<Seq<char>>::empty());
        r
    }

    /// The messages of the conflicts found.
    pub fn errors(&self) -> (r: &Vec<String>)
        ensures
            strings_view(r@) == self.error_messages(),
    {
        &self.errors
    }

    /// The changes planned, for the program around to carry out.
    pub fn planned_changes(&self) -> (r: &Vec<Change>)
        ensures
            r@.map_values(|c: Change| c.view()) == self.changes(),
    {
        &self.changes_to_make
    }

    /// Finds the paths in the way and plans the changes.
    fn analyze_changes(
        &mut self,
        inspector: &Inspector,
        workspace_changes: &Vec<(String, ChangeType)>,
        states: &Vec<PathState>,
    )
        requires
            old(self).fresh(),
            states.len() == old(self).entries().len(),
        ensures
            final(self).analyzed(
                workspace_changes@.map_values(|c: (String, ChangeType)| (c.0@, c.1)),
                states@,
            ),
            final(self).entries() == old(self).entries(),
            final(self).error_messages() == old(self).error_messages(),
    {
        let ghost wv = workspace_changes@.map_values(|c: (String, ChangeType)| (c.0@, c.1));
        let mut uncommitted: Vec<String> = Vec::new();
        let mut i: usize = 0;
        while i < workspace_changes.len()
            invariant
                i <= workspace_changes.len(),
                wv == workspace_changes@.map_values(|c: (String, ChangeType)| (c.0@, c.1)),
                strings_view(uncommitted@) == uncommitted_paths(wv.take(i as int)),
            decreases workspace_changes.len() - i,
        {
            assert(wv.take(i + 1).drop_last() =~= wv.take(i as int));
            assert(wv.take(i + 1).last() == wv[i as int]);
            if workspace_changes[i].1 != ChangeType::Untracked {
                push_once(&mut uncommitted, workspace_changes[i].0.as_str());
            }
            i += 1;
        }
        assert(wv.take(i as int) =~= wv);
        if uncommitted.len() > 0 {
            self.uncommitted_changes = uncommitted;
            proof {
                assert forall|ct: ConflictType|
                    ct != ConflictType::UncommittedChanges implies #[trigger] self.conflicts(ct).len()
                    == 0 by {
                    assert(old(self).conflicts(ct).len() == 0);
                }
                assert(old(self).changes().len() == 0);
            }
            return;
        }
        proof {
            assert(old(self).conflicts(ConflictType::UncommittedChanges).len() == 0);
            assert(strings_view(self.uncommitted_changes@) =~= strings_view(uncommitted@));
        }
        let ghost dv = self.diff@;
        let mut changes: Vec<Change> = Vec::new();
        let mut k: usize = 0;
        while k < self.diff.len()
            invariant
                k <= self.diff.len(),
                dv == self.diff@,
                changes@.map_values(|c: Change| c.view()) == deletions(dv.take(k as int)),
            decreases self.diff.len() - k,
        {
            assert(dv.take(k + 1).drop_last() =~= dv.take(k as int));
            let d = &self.diff[k];
            let ghost before = changes@.map_values(|c: Change| c.view());
            if d.old.is_some() && d.new.is_none() {
                changes.push(Change::Delete(clone_string(&d.path)));
                assert(changes@.map_values(|c: Change| c.view()) =~= before + seq![
                    ChangeView::Delete(d.path@),
                ]);
            } else {
                assert(changes@.map_values(|c: Change| c.view()) =~= before + Seq::<ChangeView>::empty());
            }
            k += 1;
        }
        assert(dv.take(k as int) =~= dv);
        let ghost dels = deletions(dv);
        let ghost sv = states@;
        let mut stale_file: Vec<String> = Vec::new();
        let mut stale_directory: Vec<String> = Vec::new();
        let mut overwritten: Vec<String> = Vec::new();
        let mut removed: Vec<String> = Vec::new();
        let mut j: usize = 0;
        while j < self.diff.len()
            invariant
                j <= self.diff.len(),
                dv == self.diff@,
                sv == states@,
                states.len() == self.diff.len(),
                dels == deletions(dv),
                changes@.map_values(|c: Change| c.view()) == dels + writes(
                    dv.take(j as int),
                    sv.take(j as int),
                ),
                strings_view(stale_file@) == conflict_paths(
                    dv.take(j as int),
                    sv.take(j as int),
                    ConflictType::StaleFile,
                ),
                strings_view(stale_directory@) == conflict_paths(
                    dv.take(j as int),
                    sv.take(j as int),
                    ConflictType::StaleDirectory,
                ),
                strings_view(overwritten@) == conflict_paths(
                    dv.take(j as int),
                    sv.take(j as int),
                    ConflictType::UntrackedOverwritten,
                ),
                strings_view(removed@) == conflict_paths(
                    dv.take(j as int),
                    sv.take(j as int),
                    ConflictType::UntrackedRemoved,
                ),
            decreases self.diff.len() - j,
        {
            assert(dv.take(j + 1).drop_last() =~= dv.take(j as int));
            assert(sv.take(j + 1).take(j as int) =~= sv.take(j as int));
            assert(dv.take(j + 1)[j as int] == dv[j as int]);
            assert(sv.take(j + 1)[j as int] == sv[j as int]);
            let d = &self.diff[j];
            let st = &states[j];
            let o = Self::outcome(inspector, d, st);
            let ghost before = changes@.map_values(|c: Change| c.view());
            match o {
                PathOutcome::Conflict(c) => {
                    match c {
                        ConflictType::StaleFile => push_once(&mut stale_file, d.path.as_str()),
                        ConflictType::StaleDirectory => push_once(
                            &mut stale_directory,
                            d.path.as_str(),
                        ),
                        ConflictType::UntrackedOverwritten => push_once(
                            &mut overwritten,
                            d.path.as_str(),
                        ),
                        ConflictType::UntrackedRemoved => push_once(&mut removed, d.path.as_str()),
                        ConflictType::UncommittedChanges => {},
                    }
                    assert(changes@.map_values(|c: Change| c.view()) =~= before + Seq::<
                        ChangeView,
                    >::empty());
                },
                PathOutcome::Create => {
                    match &d.new {
                        Some(e) => {
                            changes.push(
                                Change::Create(
                                    clone_string(&d.path),
                                    clone_string(&e.mode),
                                    clone_string(&e.oid),
                                ),
                            );
                            assert(changes@.map_values(|c: Change| c.view()) =~= before + seq![
                                ChangeView::Create(d.path@, e.mode@, e.oid@),
                            ]);
                        },
                        None => {
                            assert(changes@.map_values(|c: Change| c.view()) =~= before + Seq::<
                                ChangeView,
                            >::empty());
                        },
                    }
                },
                PathOutcome::Update => {
                    match &d.new {
                        Some(e) => {
                            changes.push(
                                Change::Update(
                                    clone_string(&d.path),
                                    clone_string(&e.mode),
                                    clone_string(&e.oid),
                                ),
                            );
                            assert(changes@.map_values(|c: Change| c.view()) =~= before + seq![
                                ChangeView::Update(d.path@, e.mode@, e.oid@),
                            ]);
                        },
                        None => {
                            assert(changes@.map_values(|c: Change| c.view()) =~= before + Seq::<
                                ChangeView,
                            >::empty());
                        },
                    }
                },
                PathOutcome::Nothing => {
                    assert(changes@.map_values(|c: Change| c.view()) =~= before + Seq::<
                        ChangeView,
                    >::empty());
                },
            }
            j += 1;
        }
        assert(dv.take(j as int) =~= dv);
        assert(sv.take(j as int) =~= sv);
        self.stale_file = stale_file;
        self.stale_directory = stale_directory;
        self.untracked_overwritten = overwritten;
        self.untracked_removed = removed;
        self.changes_to_make = changes;
        proof {
            assert forall|ct: ConflictType|
                ct != ConflictType::UncommittedChanges implies #[trigger] self.conflicts(ct)
                == conflict_paths(self.entries(), states@, ct) by {
                match ct {
                    ConflictType::StaleFile => {},
                    ConflictType::StaleDirectory => {},
                    ConflictType::UntrackedOverwritten => {},
                    ConflictType::UntrackedRemoved => {},
                    ConflictType::UncommittedChanges => {},
                }
            }
        }
    }

    /// Appends the message for a conflict type when it has paths.
    fn add_message(errors: &mut Vec<String>, ct: ConflictType, paths: &Vec<String>)
        ensures
            strings_view(final(errors)@) == strings_view(old(errors)@) + message_if_any(
                ct,
                strings_view(paths@),
            ),
    {
        let ghost e0 = strings_view(errors@);
        if paths.len() > 0 {
            let m = conflict_text(ct, paths);
            errors.push(m);
            assert(strings_view(errors@) =~= e0 + seq![conflict_message(ct, strings_view(paths@))]);
        } else {
            assert(strings_view(errors@) =~= e0 + Seq::<Seq<char>>::empty());
        }
    }

    /// Records a message for each type of conflict found; any conflict
    /// stops the migration.
    fn check_conflicts(&mut self) -> (r: Result<(), Error>)
        requires
            old(self).error_messages().len() == 0,
        ensures
            final(self).error_messages() == old(self).messages(),
            forall|ct: ConflictType| #[trigger] final(self).conflicts(ct) == old(self).conflicts(ct),
            final(self).changes() == old(self).changes(),
            final(self).entries() == old(self).entries(),
            old(self).messages().len() == 0 ==> r is Ok,
            old(self).messages().len() > 0 ==> (r matches Err(Error::Generic(m)) && m@
                == "Checkout failed due to conflicts"@),
    {
        let mut errors: Vec<String> = Vec::new();
        assert(strings_view(errors@) =~= Seq::<Seq<char>>::empty());
        Self::add_message(&mut errors, ConflictType::StaleFile, &self.stale_file);
        Self::add_message(&mut errors, ConflictType::StaleDirectory, &self.stale_directory);
        Self::add_message(&mut errors, ConflictType::UntrackedOverwritten, &self.untracked_overwritten);
        Self::add_message(&mut errors, ConflictType::UntrackedRemoved, &self.untracked_removed);
        Self::add_message(&mut errors, ConflictType::UncommittedChanges, &self.uncommitted_changes);
        let any = errors.len() > 0;
        self.errors = errors;
        if any {
            Err(Error::Generic("Checkout failed due to conflicts".to_owned()))
        } else {
            Ok(())
        }
    }

    /// Decides the move: finds the paths in the way and plans the changes,
    /// then records the messages of the conflicts; any conflict stops it.
    /// `states` holds what was read for each path of the difference, and
    /// `workspace_changes` the working tree's changes against the index.
    pub fn plan(
        &mut self,
        inspector: &Inspector,
        workspace_changes: &Vec<(String, ChangeType)>,
        states: &Vec<PathState>,
    ) -> (r: Result<(), Error>)
        requires
            old(self).fresh(),
            states.len() == old(self).entries().len(),
        ensures
            final(self).analyzed(
                workspace_changes@.map_values(|c: (String, ChangeType)| (c.0@, c.1)),
                states@,
            ),
            final(self).entries() == old(self).entries(),
            final(self).error_messages() == final(self).messages(),
            final(self).messages().len() == 0 ==> r is Ok,
            final(self).messages().len() > 0 ==> (r matches Err(Error::Generic(m)) && m@
                == "Checkout failed due to conflicts"@),
    {
        self.analyze_changes(inspector, workspace_changes, states);
        let ghost mid = *self;
        let r = self.check_conflicts();
        proof {
            assert(self.messages() =~= mid.messages()) by {
                assert(self.conflicts(ConflictType::StaleFile) == mid.conflicts(ConflictType::StaleFile));
                assert(self.conflicts(ConflictType::StaleDirectory) == mid.conflicts(
                    ConflictType::StaleDirectory,
                ));
                assert(self.conflicts(ConflictType::UntrackedOverwritten) == mid.conflicts(
                    ConflictType::UntrackedOverwritten,
                ));
                assert(self.conflicts(ConflictType::UntrackedRemoved) == mid.conflicts(
                    ConflictType::UntrackedRemoved,
                ));
                assert(self.conflicts(ConflictType::UncommittedChanges) == mid.conflicts(
                    ConflictType::UncommittedChanges,
                ));
            }
            assert forall|ct: ConflictType|
                ct != ConflictType::UncommittedChanges implies #[trigger] self.conflicts(ct).len()
                == mid.conflicts(ct).len() by {
                assert(self.conflicts(ct) == mid.conflicts(ct));
            }
        }
        r
    }

    /// What the analysis decides for one path.
    fn outcome(inspector: &Inspector, d: &DiffEntry, st: &PathState) -> (r: PathOutcome)
        ensures
            r == path_outcome(*d, *st),
    {
        if d.new.is_none() && d.old.is_some() {
            return PathOutcome::Nothing;
        }
        let is_directory = match &d.new {
            Some(e) => str_eq(e.mode.as_str(), "040000") || FileMode::parse(e.mode.as_str()).is_directory(),
            None => false,
        };
        let conflict = if is_directory {
            None
        } else {
            match &st.index {
                Some(e) => {
                    let old_item: Option<(&str, &str)> = match &d.old {
                        Some(o) => Some((o.mode.as_str(), o.oid.as_str())),
                        None => None,
                    };
                    let new_item: Option<(&str, &str)> = match &d.new {
                        Some(n) => Some((n.mode.as_str(), n.oid.as_str())),
                        None => None,
                    };
                    let from_old = inspector.compare_tree_to_index(old_item, Some(e));
                    let from_new = inspector.compare_tree_to_index(new_item, Some(e));
                    if from_old.is_some() && from_new.is_some() {
                        Some(ConflictType::StaleFile)
                    } else {
                        let data: Option<&[u8]> = match &st.data {
                            Some(c) => Some(c.as_slice()),
                            None => None,
                        };
                        if inspector.compare_workspace_vs_blob(data, e.oid.as_str()) {
                            Some(ConflictType::StaleFile)
                        } else {
                            None
                        }
                    }
                },
                None => match st.item {
                    WorkspaceItem::File => if d.new.is_some() {
                        Some(ConflictType::UntrackedOverwritten)
                    } else {
                        None
                    },
                    WorkspaceItem::Directory(true) => Some(ConflictType::StaleDirectory),
                    _ => None,
                },
            }
        };
        match conflict {
            Some(c) => PathOutcome::Conflict(c),
            None => match &d.new {
                Some(_) => if d.old.is_some() {
                    PathOutcome::Update
                } else {
                    PathOutcome::Create
                },
                None => PathOutcome::Nothing,
            },
        }
    }
}

} // verus!
