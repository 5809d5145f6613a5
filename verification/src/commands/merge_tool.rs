//! Resolving merge conflicts by hand: the file written with conflict
//! markers, the check that markers are gone, the reading of the user's
//! choice and the recovery of "our" side from a marked file.
use vstd::prelude::*;
use crate::codec::{lossy_text, utf8_lossy};
use crate::commands::add::{find_value, pairs_view, value_for};
use crate::error::Error;
use crate::text::{char_is_ws, is_ws, trim_start,
    chars_of, contains_chars, contains_seq, decimal, find_from, occurs_at, find_pattern, lines, lines_of,
    push_decimal, push_str, slice_chars, str_eq, string_from_chars, strings_view, trim, trim_chars,
};

verus! {

/// The command that walks the user through conflicted files.
pub struct MergeToolCommand;

/// A line of a file split into lines, or nothing past its end.
pub open spec fn line_at(ls: Seq<Seq<char>>, j: int) -> Seq<char> {
    if 0 <= j < ls.len() {
        ls[j]
    } else {
        seq![]
    }
}

/// The first index in `[j, n)` at which the two sides' lines differ.
pub open spec fn first_difference(o: Seq<Seq<char>>, t: Seq<Seq<char>>, j: int, n: int) -> Option<
    int,
>
    decreases n - j,
{
    if j >= n {
        None
    } else if line_at(o, j) != line_at(t, j) {
        Some(j)
    } else {
        first_difference(o, t, j + 1, n)
    }
}

/// What one side contributes for line `j` inside a conflict section: its
/// line when the sides differ and it has one, the common line otherwise.
pub open spec fn side_line(own: Seq<Seq<char>>, other: Seq<Seq<char>>, j: int) -> Seq<char> {
    if line_at(own, j) != line_at(other, j) {
        if j < own.len() {
            own[j] + seq!['\n']
        } else {
            seq![]
        }
    } else {
        line_at(own, j) + seq!['\n']
    }
}

/// One side's contributions for the lines in `[from, to)`.
pub open spec fn side_lines(own: Seq<Seq<char>>, other: Seq<Seq<char>>, from: int, to: int) -> Seq<
    char,
>
    decreases to - from,
{
    if from >= to {
        seq![]
    } else {
        side_lines(own, other, from, to - 1) + side_line(own, other, to - 1)
    }
}

/// The side's own lines in `[from, to)` that it has, each ending in `\n`.
pub open spec fn present_lines(own: Seq<Seq<char>>, from: int, to: int) -> Seq<char>
    decreases to - from,
{
    if from >= to {
        seq![]
    } else {
        present_lines(own, from, to - 1) + if to - 1 < own.len() {
            own[to - 1] + seq!['\n']
        } else {
            seq![]
        }
    }
}

/// Both sides whole, between conflict markers.
pub open spec fn full_markup(ours: Seq<char>, theirs: Seq<char>) -> Seq<char> {
    "<<<<<<< OURS\n"@ + ours + "=======\n"@ + theirs + ">>>>>>> THEIRS\n"@
}

/// For files of ten lines or more: one section from the first differing
/// line (with up to three of our lines before it) to the end; both sides
/// whole when no line differs.
pub open spec fn windowed_markup(ours: Seq<char>, theirs: Seq<char>) -> Seq<char> {
    let o = lines(ours);
    let t = lines(theirs);
    let n = if o.len() >= t.len() {
        o.len() as int
    } else {
        t.len() as int
    };
    match first_difference(o, t, 0, n) {
        Some(k) => "// Context around line "@ + decimal((k + 1) as nat) + "\n<<<<<<< OURS\n"@
            + present_lines(o, if k > 3 {
            k - 3
        } else {
            0
        }, k) + side_lines(o, t, k, n) + "=======\n"@ + side_lines(t, o, k, n)
            + ">>>>>>> THEIRS\n\n"@,
        None => full_markup(ours, theirs),
    }
}

/// The text written for a conflicted file given both sides' contents:
/// nothing when both are empty, the common text when they agree, markers
/// around the side that exists when only one does, both sides whole for
/// short files, and the differing part for longer ones.
pub open spec fn conflict_text(ours: Seq<char>, theirs: Seq<char>) -> Option<Seq<char>> {
    if ours == theirs {
        if ours.len() > 0 {
            Some(ours)
        } else {
            None
        }
    } else if ours.len() == 0 {
        Some("<<<<<<< OURS (file doesn't exist)\n=======\n"@ + theirs + ">>>>>>> THEIRS\n"@)
    } else if theirs.len() == 0 {
        Some("<<<<<<< OURS\n"@ + ours + "=======\n>>>>>>> THEIRS (file doesn't exist)\n"@)
    } else if lines(ours).len() < 10 && lines(theirs).len() < 10 {
        Some(full_markup(ours, theirs))
    } else {
        Some(windowed_markup(ours, theirs))
    }
}


/// Whether a file's text still holds any conflict marker.
pub open spec fn has_markers(c: Seq<char>) -> bool {
    ||| contains_seq(c, "<<<<<<< OURS"@)
    ||| contains_seq(c, "<<<<<<< OURS (file doesn't exist)"@)
    ||| contains_seq(c, "<<<<<<<"@)
    ||| contains_seq(c, ">>>>>>> THEIRS"@)
    ||| contains_seq(c, ">>>>>>> THEIRS (file doesn't exist)"@)
    ||| contains_seq(c, ">>>>>>>"@)
    ||| contains_seq(c, "======="@)
    ||| contains_seq(c, "||||||| BASE"@)
    ||| contains_seq(c, "|||||||"@)
}

/// A text holding `p + q` somewhere holds `p` there.
proof fn lemma_contains_prefix(c: Seq<char>, p: Seq<char>, q: Seq<char>)
    requires
        contains_seq(c, p + q),
    ensures
        contains_seq(c, p),
{
    let i = choose|i: int| occurs_at(c, p + q, i);
    assert(c.subrange(i, i + p.len()) =~= (p + q).subrange(0, p.len() as int));
    assert((p + q).subrange(0, p.len() as int) =~= p);
    assert(occurs_at(c, p, i));
}

/// A text is marked exactly when it holds one of the four bare markers:
/// `<<<<<<<`, `>>>>>>>`, `=======` or `|||||||`.
pub proof fn lemma_markers_are_the_bare_four(c: Seq<char>)
    ensures
        has_markers(c) <==> (contains_seq(c, "<<<<<<<"@) || contains_seq(c, ">>>>>>>"@) || contains_seq(
            c,
            "======="@,
        ) || contains_seq(c, "|||||||"@)),
{
    reveal_strlit("<<<<<<< OURS");
    reveal_strlit("<<<<<<< OURS (file doesn't exist)");
    reveal_strlit("<<<<<<<");
    reveal_strlit(">>>>>>> THEIRS");
    reveal_strlit(">>>>>>> THEIRS (file doesn't exist)");
    reveal_strlit(">>>>>>>");
    reveal_strlit("||||||| BASE");
    reveal_strlit("|||||||");
    assert("<<<<<<< OURS"@ =~= "<<<<<<<"@ + " OURS"@) by {
        reveal_strlit(" OURS");
    }
    assert("<<<<<<< OURS (file doesn't exist)"@ =~= "<<<<<<<"@ + " OURS (file doesn't exist)"@) by {
        reveal_strlit(" OURS (file doesn't exist)");
    }
    assert(">>>>>>> THEIRS"@ =~= ">>>>>>>"@ + " THEIRS"@) by {
        reveal_strlit(" THEIRS");
    }
    assert(">>>>>>> THEIRS (file doesn't exist)"@ =~= ">>>>>>>"@ + " THEIRS (file doesn't exist)"@)
        by {
        reveal_strlit(" THEIRS (file doesn't exist)");
    }
    assert("||||||| BASE"@ =~= "|||||||"@ + " BASE"@) by {
        reveal_strlit(" BASE");
    }
    if contains_seq(c, "<<<<<<< OURS"@) {
        lemma_contains_prefix(c, "<<<<<<<"@, " OURS"@);
    }
    if contains_seq(c, "<<<<<<< OURS (file doesn't exist)"@) {
        lemma_contains_prefix(c, "<<<<<<<"@, " OURS (file doesn't exist)"@);
    }
    if contains_seq(c, ">>>>>>> THEIRS"@) {
        lemma_contains_prefix(c, ">>>>>>>"@, " THEIRS"@);
    }
    if contains_seq(c, ">>>>>>> THEIRS (file doesn't exist)"@) {
        lemma_contains_prefix(c, ">>>>>>>"@, " THEIRS (file doesn't exist)"@);
    }
    if contains_seq(c, "||||||| BASE"@) {
        lemma_contains_prefix(c, "|||||||"@, " BASE"@);
    }
}

/// The text written for a conflict between differing sides is marked, so
/// it does not count as resolved until the markers are taken out.
pub proof fn lemma_written_conflict_is_marked(ours: Seq<char>, theirs: Seq<char>)
    requires
        ours != theirs,
    ensures
        conflict_text(ours, theirs) matches Some(t) && has_markers(t),
{
    reveal_strlit("<<<<<<<");
    let m = "<<<<<<<"@;
    let t = conflict_text(ours, theirs)->0;
    reveal_strlit("<<<<<<< OURS (file doesn't exist)\n=======\n");
    reveal_strlit("<<<<<<< OURS\n");
    if ours.len() == 0 {
        assert(t.subrange(0, 7) =~= m);
        assert(occurs_at(t, m, 0));
    } else if theirs.len() == 0 || (lines(ours).len() < 10 && lines(theirs).len() < 10) {
        assert(t.subrange(0, 7) =~= m);
        assert(occurs_at(t, m, 0));
    } else {
        let o = lines(ours);
        let th = lines(theirs);
        let n = if o.len() >= th.len() {
            o.len() as int
        } else {
            th.len() as int
        };
        match first_difference(o, th, 0, n) {
            Some(k) => {
                reveal_strlit("// Context around line ");
                reveal_strlit("\n<<<<<<< OURS\n");
                let pre = "// Context around line "@ + decimal((k + 1) as nat);
                let at: int = pre.len() as int + 1;
                assert(t.subrange(at, at + 7) =~= m);
                assert(occurs_at(t, m, at));
            },
            None => {
                assert(t.subrange(0, 7) =~= m);
                assert(occurs_at(t, m, 0));
            },
        }
    }
}

/// What the user can answer when asked how to settle a conflict.
#[derive(Debug, Clone, Copy, PartialEq, Eq, Structural)]
pub enum ResolutionChoice {
    Editor,
    Ours,
    Theirs,
    Skip,
    Quit,
    Invalid,
}

/// The choice an answer stands for, once trimmed: empty or `1` opens the
/// editor, `2` takes ours, `3` theirs, `4` skips, `q` or `Q` quits.
pub open spec fn choice_of(t: Seq<char>) -> ResolutionChoice {
    if t == ""@ || t == "1"@ {
        ResolutionChoice::Editor
    } else if t == "2"@ {
        ResolutionChoice::Ours
    } else if t == "3"@ {
        ResolutionChoice::Theirs
    } else if t == "4"@ {
        ResolutionChoice::Skip
    } else if t == "q"@ || t == "Q"@ {
        ResolutionChoice::Quit
    } else {
        ResolutionChoice::Invalid
    }
}

/// The marker that opens our side: the labelled one when the text has it.
pub open spec fn ours_marker(c: Seq<char>) -> Seq<char> {
    if contains_seq(c, "<<<<<<< OURS"@) {
        "<<<<<<< OURS"@
    } else {
        "<<<<<<<"@
    }
}

/// The part of `s` before the first occurrence of `p`, or all of it.
pub open spec fn before(s: Seq<char>, p: Seq<char>) -> Seq<char> {
    match find_from(s, p, 0) {
        Some(j) => s.subrange(0, j),
        None => s,
    }
}

/// Our side recovered from a marked file: the text after the first opening
/// marker, up to the next one and then up to `=======`, trimmed; `None`
/// when the text has no opening marker.
pub open spec fn ours_section(c: Seq<char>) -> Option<Seq<char>> {
    let m = ours_marker(c);
    match find_from(c, m, 0) {
        Some(k) => Some(
            trim(before(before(c.subrange(k + m.len(), c.len() as int), m), "======="@)),
        ),
        None => None,
    }
}

/// The part of `s` before the first occurrence of `p`, or all of it.
pub(crate) fn before_pattern(s: &[char], p: &[char]) -> (r: Vec<char>)
    ensures
        r@ == before(s@, p@),
{
    match find_pattern(s, p) {
        Some(j) => slice_chars(s, 0, j),
        None => slice_chars(s, 0, s.len()),
    }
}

/// The line at `j`, or the empty string past the end.
fn line_or_empty(ls: &Vec<String>, j: usize) -> (r: &str)
    ensures
        r@ == line_at(strings_view(ls@), j as int),
{
    if j < ls.len() {
        ls[j].as_str()
    } else {
        proof {
            reveal_strlit("");
        }
        ""
    }
}

/// Whether the two sides' lines at `j` differ.
fn lines_differ(a: &Vec<String>, b: &Vec<String>, j: usize) -> (r: bool)
    ensures
        r == (line_at(strings_view(a@), j as int) != line_at(strings_view(b@), j as int)),
{
    !str_eq(line_or_empty(a, j), line_or_empty(b, j))
}

/// Appends one side's contributions for the lines in `[from, to)`.
fn push_side_lines(s: &mut String, own: &Vec<String>, other: &Vec<String>, from: usize, to: usize)
    ensures
        final(s)@ == old(s)@ + side_lines(strings_view(own@), strings_view(other@), from as int, to as int),
{
    let ghost o = strings_view(own@);
    let ghost t = strings_view(other@);
    let mut j: usize = from;
    if from >= to {
        assert(old(s)@ + side_lines(o, t, from as int, to as int) =~= old(s)@);
        return;
    }
    assert(side_lines(o, t, from as int, from as int) =~= Seq::<char>::empty());
    assert(old(s)@ =~= old(s)@ + side_lines(o, t, from as int, from as int));
    while j < to
        invariant
            from <= j <= to,
            o == strings_view(own@),
            t == strings_view(other@),
            s@ == old(s)@ + side_lines(o, t, from as int, j as int),
        decreases to - j,
    {
        let a = line_or_empty(own, j);
        let b = line_or_empty(other, j);
        let ghost before = s@;
        if !str_eq(a, b) {
            if j < own.len() {
                push_str(s, a);
                s.push('\n');
            }
        } else {
            push_str(s, a);
            s.push('\n');
        }
        j += 1;
        assert(s@ =~= before + side_line(o, t, j - 1));
    }
}

/// Appends the side's own lines in `[from, to)`.
fn push_present_lines(s: &mut String, own: &Vec<String>, from: usize, to: usize)
    ensures
        final(s)@ == old(s)@ + present_lines(strings_view(own@), from as int, to as int),
{
    let ghost o = strings_view(own@);
    if from >= to {
        assert(old(s)@ + present_lines(o, from as int, to as int) =~= old(s)@);
        return;
    }
    let mut j: usize = from;
    assert(old(s)@ =~= old(s)@ + present_lines(o, from as int, from as int));
    while j < to
        invariant
            from <= j <= to,
            o == strings_view(own@),
            s@ == old(s)@ + present_lines(o, from as int, j as int),
        decreases to - j,
    {
        let ghost before = s@;
        if j < own.len() {
            push_str(s, own[j].as_str());
            s.push('\n');
        }
        j += 1;
        assert(s@ =~= before + (if j - 1 < o.len() {
            o[j - 1] + seq!['\n']
        } else {
            seq![]
        }));
    }
}


/// A file of a conflicted directory, with its id on each side.
pub struct ConflictInfo {
    pub path: String,
    pub base_oid: Option<String>,
    pub ours_oid: Option<String>,
    pub theirs_oid: Option<String>,
}

/// An optional string as a plain value.
pub open spec fn opt_view(o: Option<String>) -> Option<Seq<char>> {
    match o {
        Some(s) => Some(s@),
        None => None,
    }
}

/// The keys of a list of pairs.
pub open spec fn keys_of(v: Seq<(Seq<char>, Seq<char>)>) -> Seq<Seq<char>> {
    v.map_values(|p: (Seq<char>, Seq<char>)| p.0)
}

/// Each path once, where it first occurs.
pub open spec fn first_occurrences(s: Seq<Seq<char>>) -> Seq<Seq<char>>
    decreases s.len(),
{
    if s.len() == 0 {
        seq![]
    } else {
        first_occurrences(s.drop_last()) + if s.drop_last().contains(s.last()) {
            seq![]
        } else {
            seq![s.last()]
        }
    }
}

/// The files of a conflicted directory: each path of the base, our and
/// their trees once, in that order, with its id on each side.
pub open spec fn is_directory_listing(
    base: Seq<(Seq<char>, Seq<char>)>,
    ours: Seq<(Seq<char>, Seq<char>)>,
    theirs: Seq<(Seq<char>, Seq<char>)>,
    r: Seq<ConflictInfo>,
) -> bool {
    let paths = first_occurrences(keys_of(base) + keys_of(ours) + keys_of(theirs));
    &&& r.len() == paths.len()
    &&& forall|i: int|
        0 <= i < r.len() ==> {
            &&& #[trigger] r[i].path@ == paths[i]
            &&& opt_view(r[i].base_oid) == value_for(base, paths[i])
            &&& opt_view(r[i].ours_oid) == value_for(ours, paths[i])
            &&& opt_view(r[i].theirs_oid) == value_for(theirs, paths[i])
        }
}

/// Whether a file of a conflicted directory is in conflict, given whether
/// ours is on disk and whether the two sides' contents are the same.
pub open spec fn in_conflict(f: ConflictInfo, ours_on_disk: bool, same: bool) -> bool {
    (f.ours_oid is Some || ours_on_disk || f.theirs_oid is Some) && !same && !(f.ours_oid matches Some(
        a,
    ) && f.theirs_oid matches Some(b) && a@ == b@)
}

/// The files in conflict, in order, given for each whether ours is on disk
/// and whether the two sides' contents are the same.
pub open spec fn conflicts_of(fs: Seq<ConflictInfo>, disk: Seq<bool>, same: Seq<bool>) -> Seq<
    ConflictInfo,
>
    decreases fs.len(),
{
    if fs.len() == 0 {
        seq![]
    } else {
        let k = fs.len() - 1;
        conflicts_of(fs.drop_last(), disk, same) + if in_conflict(fs[k], disk[k], same[k]) {
            seq![fs[k]]
        } else {
            seq![]
        }
    }
}


/// A copy of an optional string.
fn copy_opt(o: &Option<String>) -> (r: Option<String>)
    ensures
        r == *o,
{
    match o {
        Some(s) => Some(s.clone()),
        None => None,
    }
}

/// A copy of a file's versions.
fn copy_info(f: &ConflictInfo) -> (r: ConflictInfo)
    ensures
        r == *f,
{
    ConflictInfo {
        path: f.path.clone(),
        base_oid: copy_opt(&f.base_oid),
        ours_oid: copy_opt(&f.ours_oid),
        theirs_oid: copy_opt(&f.theirs_oid),
    }
}

/// The id of a path in a list of pairs, if the list has it.
fn oid_in(v: &Vec<(String, String)>, path: &str) -> (r: Option<String>)
    ensures
        opt_view(r) == value_for(pairs_view(v@), path@),
{
    match find_value(v, path) {
        Some(k) => Some(v[k].1.clone()),
        None => None,
    }
}

/// Whether a path is among the strings.
fn listed(v: &Vec<String>, path: &str) -> (r: bool)
    ensures
        r == strings_view(v@).contains(path@),
{
    let ghost sv = strings_view(v@);
    let mut i: usize = 0;
    while i < v.len()
        invariant
            i <= v.len(),
            sv == strings_view(v@),
            forall|j: int| 0 <= j < i ==> sv[j] != path@,
        decreases v.len() - i,
    {
        if str_eq(v[i].as_str(), path) {
            assert(sv[i as int] == path@);
            return true;
        }
        i += 1;
    }
    false
}


/// Appends the keys of a list of pairs.
fn push_keys(out: &mut Vec<String>, v: &Vec<(String, String)>)
    ensures
        strings_view(final(out)@) == strings_view(old(out)@) + keys_of(pairs_view(v@)),
{
    let ghost o0 = strings_view(out@);
    let ghost kv = keys_of(pairs_view(v@));
    let mut i: usize = 0;
    while i < v.len()
        invariant
            i <= v.len(),
            kv == keys_of(pairs_view(v@)),
            strings_view(out@) == o0 + kv.take(i as int),
        decreases v.len() - i,
    {
        let ghost before = strings_view(out@);
        out.push(v[i].0.clone());
        assert(kv[i as int] == v@[i as int].0@);
        assert(strings_view(out@) =~= before.push(v@[i as int].0@));
        assert(kv.take(i + 1) =~= kv.take(i as int).push(kv[i as int]));
        assert(strings_view(out@) =~= o0 + kv.take(i + 1));
        i += 1;
    }
    assert(kv.take(v.len() as int) =~= kv);
}

/// What resolving a conflicted file does once the user has chosen.
#[derive(Debug)]
pub enum ResolutionAction {
    /// Open the editor on the file, then check that its markers are gone.
    Edit,
    /// Write the stored object with this id to the file and resolve the
    /// entry with it.
    TakeObject(String),
    /// Store this text as a blob, write it to the file and resolve the entry
    /// with it.
    TakeText(String),
    /// Store the file as it is and resolve the entry with it.
    TakeFile,
    /// Leave the file in conflict.
    Unresolved,
}

/// What the choice gives, as values: `Ok` with the action's tag and text, or
/// the error of a user who quits. `disk` is the file's content when it
/// exists, is a file and could be read.
pub open spec fn resolution_spec(
    choice: ResolutionChoice,
    ours: Option<Seq<char>>,
    theirs: Option<Seq<char>>,
    disk: Option<Seq<u8>>,
) -> Result<(int, Seq<char>), Seq<char>> {
    match choice {
        ResolutionChoice::Editor => Ok((0, seq![])),
        ResolutionChoice::Ours => match ours {
            Some(o) => Ok((1, o)),
            None => match disk {
                Some(c) => if contains_seq(lossy_text(c), "<<<<<<<"@) {
                    match ours_section(lossy_text(c)) {
                        Some(t) => Ok((2, t)),
                        None => Ok((4, seq![])),
                    }
                } else {
                    Ok((3, seq![]))
                },
                None => Ok((4, seq![])),
            },
        },
        ResolutionChoice::Theirs => match theirs {
            Some(o) => Ok((1, o)),
            None => Ok((4, seq![])),
        },
        ResolutionChoice::Quit => Err("User quit resolution process"@),
        _ => Ok((4, seq![])),
    }
}

/// What follows the editor, as an action's tag and text: the file taken
/// when missing or free of markers, else left in conflict.
pub open spec fn after_edit_spec(exists: bool, is_dir: bool, content: Option<Seq<u8>>) -> (int, Seq<char>) {
    if !exists {
        (3, seq![])
    } else if is_dir {
        (4, seq![])
    } else {
        match content {
            Some(c) => if !has_markers(lossy_text(c)) {
                (3, seq![])
            } else {
                (4, seq![])
            },
            None => (4, seq![]),
        }
    }
}

/// Whether a list is not empty and holds only `true`.
pub open spec fn all_true(v: Seq<bool>) -> bool {
    v.len() > 0 && forall|k: int| 0 <= k < v.len() ==> #[trigger] v[k]
}

/// An action as its tag and text.
pub open spec fn action_view(a: ResolutionAction) -> (int, Seq<char>) {
    match a {
        ResolutionAction::Edit => (0, seq![]),
        ResolutionAction::TakeObject(o) => (1, o@),
        ResolutionAction::TakeText(t) => (2, t@),
        ResolutionAction::TakeFile => (3, seq![]),
        ResolutionAction::Unresolved => (4, seq![]),
    }
}

/// The length of the word a text starts with: up to its first
/// whitespace.
pub open spec fn word_len(t: Seq<char>) -> nat
    decreases t.len(),
{
    if t.len() == 0 || is_ws(t[0]) {
        0
    } else {
        1 + word_len(t.drop_first())
    }
}

/// The program of a command line: its first whitespace-separated word.
pub open spec fn first_word(s: Seq<char>) -> Seq<char> {
    trim_start(s).take(word_len(trim_start(s)) as int)
}

/// The editors tried, in order, when none is asked for.
pub open spec fn common_editor(i: int) -> Seq<char> {
    if i == 0 {
        "vim"@
    } else if i == 1 {
        "nano"@
    } else if i == 2 {
        "emacs"@
    } else {
        "vi"@
    }
}

/// The first common editor found, by position.
pub open spec fn first_found(found: Seq<bool>, i: int) -> Option<int>
    decreases 4 - i,
{
    if i >= 4 || i < 0 {
        None
    } else if found[i] {
        Some(i)
    } else {
        first_found(found, i + 1)
    }
}

impl MergeToolCommand {
    /// The program of a command line, as the search for it reads it.
    pub fn base_command(cmd: &str) -> (r: String)
        requires
            trim_start(cmd@).len() > 0,
        ensures
            r@ == first_word(cmd@),
    {
        let c = chars_of(cmd);
        let mut i: usize = 0;
        assert(c@.skip(0) =~= c@);
        while i < c.len() && char_is_ws(c[i])
            invariant
                i <= c.len(),
                c@ == cmd@,
                trim_start(cmd@) == trim_start(c@.skip(i as int)),
            decreases c.len() - i,
        {
            assert(c@.skip(i as int).drop_first() =~= c@.skip(i + 1));
            i += 1;
        }
        let start = i;
        let ghost t = c@.skip(start as int);
        proof {
            if start < c.len() {
                assert(!is_ws(t[0]));
            } else {
                assert(t.len() == 0);
            }
            assert(trim_start(cmd@) == t);
        }
        while i < c.len() && !char_is_ws(c[i])
            invariant
                start <= i <= c.len(),
                c@ == cmd@,
                t == c@.skip(start as int),
                word_len(t) == (i - start) + word_len(c@.skip(i as int)),
            decreases c.len() - i,
        {
            assert(c@.skip(i as int).drop_first() =~= c@.skip(i + 1));
            i += 1;
        }
        assert(word_len(c@.skip(i as int)) == 0);
        let w = slice_chars(c.as_slice(), start, i);
        assert(w@ =~= t.take(word_len(t) as int));
        string_from_chars(w.as_slice())
    }

    /// The editor asked for: the tool given, else the first of the
    /// `ASH_EDITOR`, `EDITOR` and `VISUAL` settings present.
    pub fn requested_editor<'a>(
        tool: Option<&'a str>,
        ash_editor: Option<&'a str>,
        editor: Option<&'a str>,
        visual: Option<&'a str>,
    ) -> (r: Option<&'a str>)
        ensures
            r == (if tool is Some {
                tool
            } else if ash_editor is Some {
                ash_editor
            } else if editor is Some {
                editor
            } else {
                visual
            }),
    {
        if tool.is_some() {
            tool
        } else if ash_editor.is_some() {
            ash_editor
        } else if editor.is_some() {
            editor
        } else {
            visual
        }
    }

    /// An editor asked for is used only when its program is found.
    pub fn check_tool_available(tool: &str, found: bool) -> (r: Result<String, Error>)
        ensures
            found ==> (r matches Ok(t) && t@ == tool@),
            !found ==> (r matches Err(Error::Generic(m)) && m@ == "Specified editor '"@ + tool@
                + "' not found in PATH"@),
    {
        if found {
            Ok(tool.to_owned())
        } else {
            let mut m = String::new();
            push_str(&mut m, "Specified editor '");
            push_str(&mut m, tool);
            push_str(&mut m, "' not found in PATH");
            Err(Error::Generic(m))
        }
    }

    /// Without an editor asked for: the first of vim, nano, emacs and vi
    /// that is found (`found` says which are), else vi.
    pub fn fallback_editor(found: &Vec<bool>) -> (r: String)
        requires
            found.len() == 4,
        ensures
            r@ == match first_found(found@, 0) {
                Some(i) => common_editor(i),
                None => "vi"@,
            },
    {
        let mut i: usize = 0;
        while i < 4
            invariant
                i <= 4,
                found.len() == 4,
                first_found(found@, 0) == first_found(found@, i as int),
            decreases 4 - i,
        {
            if found[i] {
                let r = if i == 0 {
                    "vim"
                } else if i == 1 {
                    "nano"
                } else if i == 2 {
                    "emacs"
                } else {
                    "vi"
                };
                return r.to_owned();
            }
            i += 1;
        }
        "vi".to_owned()
    }

    /// The text to write for a conflicted file, given both sides' contents
    /// (see `conflict_text`); `None` when there is nothing to write.
    pub fn conflict_markup(ours: &str, theirs: &str) -> (r: Option<String>)
        ensures
            match r {
                Some(s) => conflict_text(ours@, theirs@) == Some(s@),
                None => conflict_text(ours@, theirs@) is None,
            },
    {
        proof {
            reveal_strlit("<<<<<<< OURS\n");
            reveal_strlit("=======\n");
            reveal_strlit(">>>>>>> THEIRS\n");
            reveal_strlit("<<<<<<< OURS (file doesn't exist)\n=======\n");
            reveal_strlit("=======\n>>>>>>> THEIRS (file doesn't exist)\n");
        }
        let oc = chars_of(ours);
        let tc = chars_of(theirs);
        if str_eq(ours, theirs) {
            if oc.len() > 0 {
                return Some(ours.to_owned());
            }
            return None;
        }
        if oc.len() == 0 {
            let mut r = String::new();
            push_str(&mut r, "<<<<<<< OURS (file doesn't exist)\n=======\n");
            push_str(&mut r, theirs);
            push_str(&mut r, ">>>>>>> THEIRS\n");
            return Some(r);
        }
        if tc.len() == 0 {
            let mut r = String::new();
            push_str(&mut r, "<<<<<<< OURS\n");
            push_str(&mut r, ours);
            push_str(&mut r, "=======\n>>>>>>> THEIRS (file doesn't exist)\n");
            return Some(r);
        }
        let ol = lines_of(oc.as_slice());
        let tl = lines_of(tc.as_slice());
        let ghost o = strings_view(ol@);
        let ghost t = strings_view(tl@);
        assert(o.len() == ol.len() && t.len() == tl.len());
        if ol.len() < 10 && tl.len() < 10 {
            return Some(Self::full(ours, theirs));
        }
        let n = if ol.len() >= tl.len() {
            ol.len()
        } else {
            tl.len()
        };
        let mut k: usize = 0;
        while k < n && !lines_differ(&ol, &tl, k)
            invariant
                k <= n,
                o == strings_view(ol@),
                t == strings_view(tl@),
                n == if o.len() >= t.len() {
                    o.len() as int
                } else {
                    t.len() as int
                },
                first_difference(o, t, 0, n as int) == first_difference(o, t, k as int, n as int),
            decreases n - k,
        {
            k += 1;
        }
        if k == n {
            return Some(Self::full(ours, theirs));
        }
        assert(first_difference(o, t, 0, n as int) == Some(k as int));
        let mut r = String::new();
        push_str(&mut r, "// Context around line ");
        push_decimal(&mut r, (k + 1) as u64);
        push_str(&mut r, "\n<<<<<<< OURS\n");
        let start = if k > 3 {
            k - 3
        } else {
            0
        };
        push_present_lines(&mut r, &ol, start, k);
        push_side_lines(&mut r, &ol, &tl, k, n);
        push_str(&mut r, "=======\n");
        push_side_lines(&mut r, &tl, &ol, k, n);
        push_str(&mut r, ">>>>>>> THEIRS\n\n");
        Some(r)
    }

    /// Whether a file's text is free of conflict markers.
    pub fn markers_gone(content: &str) -> (r: bool)
        ensures
            r == !has_markers(content@),
    {
        let c = chars_of(content);
        !(contains_chars(c.as_slice(), chars_of("<<<<<<< OURS").as_slice()) || contains_chars(
            c.as_slice(),
            chars_of("<<<<<<< OURS (file doesn't exist)").as_slice(),
        ) || contains_chars(c.as_slice(), chars_of("<<<<<<<").as_slice()) || contains_chars(
            c.as_slice(),
            chars_of(">>>>>>> THEIRS").as_slice(),
        ) || contains_chars(c.as_slice(), chars_of(">>>>>>> THEIRS (file doesn't exist)").as_slice())
            || contains_chars(c.as_slice(), chars_of(">>>>>>>").as_slice()) || contains_chars(
            c.as_slice(),
            chars_of("=======").as_slice(),
        ) || contains_chars(c.as_slice(), chars_of("||||||| BASE").as_slice()) || contains_chars(
            c.as_slice(),
            chars_of("|||||||").as_slice(),
        ))
    }

    /// Whether a file's bytes, read as text with invalid sequences
    /// replaced, are free of conflict markers.
    pub fn content_resolved(content: &[u8]) -> (r: bool)
        ensures
            r == !has_markers(lossy_text(content@)),
    {
        let text = utf8_lossy(content);
        Self::markers_gone(text.as_str())
    }

    /// What resolving a conflicted file does for the user's choice: the
    /// editor for `1`; ours (`2`) takes our stored version, or without one
    /// the part of the file after our marker, or the file itself when it
    /// holds no marker; theirs (`3`) takes their stored version; quitting
    /// is an error; anything else leaves the file in conflict.
    pub fn resolution_step(
        choice: ResolutionChoice,
        ours_oid: Option<&str>,
        theirs_oid: Option<&str>,
        disk: Option<&[u8]>,
    ) -> (r: Result<ResolutionAction, Error>)
        ensures
            match resolution_spec(
                choice,
                match ours_oid {
                    Some(o) => Some(o@),
                    None => None,
                },
                match theirs_oid {
                    Some(o) => Some(o@),
                    None => None,
                },
                match disk {
                    Some(d) => Some(d@),
                    None => None,
                },
            ) {
                Ok(v) => r matches Ok(a) && action_view(a) == v,
                Err(m) => r matches Err(Error::Generic(e)) && e@ == m,
            },
    {
        match choice {
            ResolutionChoice::Editor => Ok(ResolutionAction::Edit),
            ResolutionChoice::Ours => match ours_oid {
                Some(o) => Ok(ResolutionAction::TakeObject(o.to_owned())),
                None => match disk {
                    Some(c) => {
                        let text = utf8_lossy(c);
                        let tc = chars_of(text.as_str());
                        let marker = chars_of("<<<<<<<");
                        if contains_chars(tc.as_slice(), marker.as_slice()) {
                            match Self::extract_ours(text.as_str()) {
                                Some(t) => Ok(ResolutionAction::TakeText(t)),
                                None => Ok(ResolutionAction::Unresolved),
                            }
                        } else {
                            Ok(ResolutionAction::TakeFile)
                        }
                    },
                    None => Ok(ResolutionAction::Unresolved),
                },
            },
            ResolutionChoice::Theirs => match theirs_oid {
                Some(o) => Ok(ResolutionAction::TakeObject(o.to_owned())),
                None => Ok(ResolutionAction::Unresolved),
            },
            ResolutionChoice::Quit => Err(Error::Generic("User quit resolution process".to_owned())),
            _ => Ok(ResolutionAction::Unresolved),
        }
    }

    /// What follows the editor: the file stored and its entry resolved when
    /// its content (read when it exists as a file) is free of markers; a
    /// missing file counts as resolved; a directory, or a file that cannot
    /// be read, stays in conflict.
    pub fn after_edit(exists: bool, is_dir: bool, content: Option<&[u8]>) -> (r: ResolutionAction)
        ensures
            action_view(r) == after_edit_spec(
                exists,
                is_dir,
                match content {
                    Some(c) => Some(c@),
                    None => None,
                },
            ),
    {
        if !exists {
            return ResolutionAction::TakeFile;
        }
        if is_dir {
            return ResolutionAction::Unresolved;
        }
        match content {
            Some(c) => if Self::content_resolved(c) {
                ResolutionAction::TakeFile
            } else {
                ResolutionAction::Unresolved
            },
            None => ResolutionAction::Unresolved,
        }
    }

    /// Whether a conflicted directory is resolved: it holds conflicted
    /// files and each of them was resolved.
    pub fn directory_resolved(results: &Vec<bool>) -> (r: bool)
        ensures
            r == all_true(results@),
    {
        if results.len() == 0 {
            return false;
        }
        let mut k: usize = 0;
        while k < results.len()
            invariant
                k <= results.len(),
                forall|t: int| 0 <= t < k ==> #[trigger] results@[t],
            decreases results.len() - k,
        {
            if !results[k] {
                return false;
            }
            k += 1;
        }
        true
    }

    /// The choice the user's answer stands for.
    pub fn parse_choice(answer: &str) -> (r: ResolutionChoice)
        ensures
            r == choice_of(trim(answer@)),
    {
        let t = trim_chars(chars_of(answer).as_slice());
        let ts = string_from_chars(t.as_slice());
        let s = ts.as_str();
        if str_eq(s, "") || str_eq(s, "1") {
            ResolutionChoice::Editor
        } else if str_eq(s, "2") {
            ResolutionChoice::Ours
        } else if str_eq(s, "3") {
            ResolutionChoice::Theirs
        } else if str_eq(s, "4") {
            ResolutionChoice::Skip
        } else if str_eq(s, "q") || str_eq(s, "Q") {
            ResolutionChoice::Quit
        } else {
            ResolutionChoice::Invalid
        }
    }

    /// Our side recovered from a file that still holds conflict markers;
    /// `None` when it has none.
    pub fn extract_ours(content: &str) -> (r: Option<String>)
        ensures
            match r {
                Some(s) => ours_section(content@) == Some(s@),
                None => ours_section(content@) is None,
            },
    {
        let c = chars_of(content);
        let labelled = chars_of("<<<<<<< OURS");
        let m = if contains_chars(c.as_slice(), labelled.as_slice()) {
            labelled
        } else {
            chars_of("<<<<<<<")
        };
        assert(m@ == ours_marker(content@));
        match find_pattern(c.as_slice(), m.as_slice()) {
            Some(k) => {
                let cl = c.len();
                let ml = m.len();
                assert(k + ml <= cl);
                let after = slice_chars(c.as_slice(), k + ml, cl);
                let part = before_pattern(after.as_slice(), m.as_slice());
                let sec = before_pattern(part.as_slice(), chars_of("=======").as_slice());
                let t = trim_chars(sec.as_slice());
                Some(string_from_chars(t.as_slice()))
            },
            None => None,
        }
    }

    /// Whether a file inside a conflicted directory is in conflict itself:
    /// some side has it (ours in the tree or on disk, theirs in the tree),
    /// the contents differ, and the two sides do not name the same object.
    pub fn file_in_conflict(
        ours_oid: Option<&str>,
        theirs_oid: Option<&str>,
        ours_on_disk: bool,
        same_content: bool,
    ) -> (r: bool)
        ensures
            r == ((ours_oid is Some || ours_on_disk || theirs_oid is Some) && !same_content && !(
            ours_oid matches Some(a) && theirs_oid matches Some(b) && a@ == b@)),
    {
        let ours_exists = ours_oid.is_some() || ours_on_disk;
        let theirs_exists = theirs_oid.is_some();
        if !ours_exists && !theirs_exists {
            return false;
        }
        if same_content {
            return false;
        }
        match (ours_oid, theirs_oid) {
            (Some(a), Some(b)) => !str_eq(a, b),
            _ => true,
        }
    }

    /// The files of a conflicted directory, from the files of its base, our
    /// and their trees (path and id): each path once, in the order the
    /// three lists give them, with its id on each side.
    pub fn directory_files(
        base: &Vec<(String, String)>,
        ours: &Vec<(String, String)>,
        theirs: &Vec<(String, String)>,
    ) -> (r: Vec<ConflictInfo>)
        ensures
            is_directory_listing(pairs_view(base@), pairs_view(ours@), pairs_view(theirs@), r@),
    {
        let mut all: Vec<String> = Vec::new();
        push_keys(&mut all, base);
        push_keys(&mut all, ours);
        push_keys(&mut all, theirs);
        let ghost av = strings_view(all@);
        assert(av =~= keys_of(pairs_view(base@)) + keys_of(pairs_view(ours@)) + keys_of(
            pairs_view(theirs@),
        ));
        let mut paths: Vec<String> = Vec::new();
        let mut i: usize = 0;
        while i < all.len()
            invariant
                i <= all.len(),
                av == strings_view(all@),
                strings_view(paths@) == first_occurrences(av.take(i as int)),
                forall|x: Seq<char>| strings_view(paths@).contains(x) <==> av.take(i as int).contains(x),
            decreases all.len() - i,
        {
            let ghost before = strings_view(paths@);
            assert(av.take(i + 1).drop_last() =~= av.take(i as int));
            assert(av.take(i + 1).last() == av[i as int]);
            if !listed(&paths, all[i].as_str()) {
                paths.push(all[i].clone());
                assert(strings_view(paths@) =~= before.push(av[i as int]));
            } else {
                assert(strings_view(paths@) =~= before + Seq::<Seq<char>>::empty());
            }
            assert forall|x: Seq<char>| strings_view(paths@).contains(x) <==> av.take(i + 1).contains(
                x,
            ) by {
                let now = strings_view(paths@);
                assert(forall|k: int| 0 <= k < before.len() ==> now[k] == before[k]);
                if av.take(i + 1).contains(x) {
                    let k = choose|k: int| 0 <= k < i + 1 && #[trigger] av.take(i + 1)[k] == x;
                    if k < i {
                        assert(av.take(i as int)[k] == x);
                        assert(av.take(i as int).contains(x));
                        assert(before.contains(x));
                        let m = choose|m: int| 0 <= m < before.len() && #[trigger] before[m] == x;
                        assert(now[m] == x);
                    } else if before.contains(x) {
                        let m = choose|m: int| 0 <= m < before.len() && #[trigger] before[m] == x;
                        assert(now[m] == x);
                    } else {
                        assert(now[now.len() - 1] == x);
                    }
                }
                if now.contains(x) {
                    let m = choose|m: int| 0 <= m < now.len() && #[trigger] now[m] == x;
                    if m < before.len() {
                        assert(before[m] == x);
                        assert(before.contains(x));
                        assert(av.take(i as int).contains(x));
                        let k = choose|k: int| 0 <= k < i && #[trigger] av.take(i as int)[k] == x;
                        assert(av.take(i + 1)[k] == x);
                    } else {
                        assert(x == av[i as int]);
                        assert(av.take(i + 1)[i as int] == x);
                    }
                }
            }
            i += 1;
        }
        assert(av.take(all.len() as int) =~= av);
        let ghost pv = strings_view(paths@);
        let mut r: Vec<ConflictInfo> = Vec::new();
        let mut j: usize = 0;
        while j < paths.len()
            invariant
                j <= paths.len(),
                pv == strings_view(paths@),
                pv == first_occurrences(av),
                av == keys_of(pairs_view(base@)) + keys_of(pairs_view(ours@)) + keys_of(
                    pairs_view(theirs@),
                ),
                r.len() == j,
                forall|k: int|
                    0 <= k < j ==> {
                        &&& #[trigger] r@[k].path@ == pv[k]
                        &&& opt_view(r@[k].base_oid) == value_for(pairs_view(base@), pv[k])
                        &&& opt_view(r@[k].ours_oid) == value_for(pairs_view(ours@), pv[k])
                        &&& opt_view(r@[k].theirs_oid) == value_for(pairs_view(theirs@), pv[k])
                    },
            decreases paths.len() - j,
        {
            let p = paths[j].as_str();
            let f = ConflictInfo {
                path: paths[j].clone(),
                base_oid: oid_in(base, p),
                ours_oid: oid_in(ours, p),
                theirs_oid: oid_in(theirs, p),
            };
            r.push(f);
            j += 1;
        }
        r
    }

    /// The files of a conflicted directory that are in conflict, given for
    /// each whether our side is on disk and whether the two sides' contents
    /// are the same.
    pub fn directory_conflicts(
        files: &Vec<ConflictInfo>,
        ours_on_disk: &Vec<bool>,
        same_content: &Vec<bool>,
    ) -> (r: Vec<ConflictInfo>)
        requires
            ours_on_disk.len() == files.len(),
            same_content.len() == files.len(),
        ensures
            r@ == conflicts_of(files@, ours_on_disk@, same_content@),
    {
        let mut r: Vec<ConflictInfo> = Vec::new();
        let mut i: usize = 0;
        while i < files.len()
            invariant
                i <= files.len(),
                ours_on_disk.len() == files.len(),
                same_content.len() == files.len(),
                r@ == conflicts_of(files@.take(i as int), ours_on_disk@, same_content@),
            decreases files.len() - i,
        {
            assert(files@.take(i + 1).drop_last() =~= files@.take(i as int));
            assert(files@.take(i + 1)[i as int] == files@[i as int]);
            let f = &files[i];
            let ours_name: Option<&str> = match &f.ours_oid {
                Some(a) => Some(a.as_str()),
                None => None,
            };
            let theirs_name: Option<&str> = match &f.theirs_oid {
                Some(b) => Some(b.as_str()),
                None => None,
            };
            if Self::file_in_conflict(ours_name, theirs_name, ours_on_disk[i], same_content[i]) {
                r.push(copy_info(f));
            }
            i += 1;
        }
        assert(files@.take(files.len() as int) =~= files@);
        r
    }

    /// Both sides whole between conflict markers.
    fn full(ours: &str, theirs: &str) -> (r: String)
        ensures
            r@ == full_markup(ours@, theirs@),
    {
        let mut r = String::new();
        push_str(&mut r, "<<<<<<< OURS\n");
        push_str(&mut r, ours);
        push_str(&mut r, "=======\n");
        push_str(&mut r, theirs);
        push_str(&mut r, ">>>>>>> THEIRS\n");
        r
    }
}

} // verus!
