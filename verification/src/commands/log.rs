//! Showing history: the references shown beside a commit and the
//! one-line form of a commit.
use vstd::prelude::*;
use crate::codec::{lossy_text, utf8_lossy};
use crate::color::Color;
use crate::commands::diff::{marked_colored, push_marked};
use crate::diff::diff::split_lines;
use crate::diff::myers::{is_binary, is_binary_content};
use crate::repository::migration::{sort_texts, sorted_texts};
use crate::commands::branch::{same_reference, short_branch_name};
use crate::refs::{RefTarget, Reference, short_name_of};
use crate::text::{
    byte_prefix, byte_prefix_view, chars_of, cuts_at, decimal, lines, lines_of, push_decimal, push_str,
    str_eq, strings_eq, strings_view,
};

verus! {

/// The command that shows the commit history.
pub struct LogCommand;

/// The names shown for the references pointing at a commit, and whether
/// `HEAD` was among them.
pub open spec fn decoration_names(
    refs: Seq<RefTarget>,
    current: RefTarget,
    full: bool,
    color: bool,
) -> (Seq<Seq<char>>, bool)
    decreases refs.len(),
{
    if refs.len() == 0 {
        (seq![], false)
    } else {
        let (names, has_head) = decoration_names(refs.drop_last(), current, full, color);
        match refs.last() {
            RefTarget::Symbolic(p) => if p == "HEAD"@ {
                (names, true)
            } else {
                let name = if full {
                    p
                } else {
                    short_name_of(p)
                };
                let shown = if refs.last() == current && has_head {
                    Color::colorize_view("HEAD"@, Color::CYAN@, color) + " -> "@
                        + Color::colorize_view(name, Color::GREEN@, color)
                } else {
                    Color::colorize_view(name, Color::GREEN@, color)
                };
                (names.push(shown), has_head)
            },
            RefTarget::Direct(o) => if full {
                (names.push(o), has_head)
            } else {
                (names, has_head)
            },
        }
    }
}

/// Names joined with `, `.
pub open spec fn comma_joined(names: Seq<Seq<char>>) -> Seq<char>
    decreases names.len(),
{
    if names.len() == 0 {
        seq![]
    } else if names.len() == 1 {
        names[0]
    } else {
        comma_joined(names.drop_last()) + ", "@ + names.last()
    }
}

/// The decoration of a commit: ` (<names>)` for the references pointing
/// at it (`HEAD` alone when only HEAD does), nothing when none do.
pub open spec fn decoration(refs: Seq<RefTarget>, current: RefTarget, full: bool, color: bool) -> Seq<
    char,
> {
    let (names, has_head) = decoration_names(refs, current, full, color);
    let names = if has_head && names.len() == 0 {
        seq![Color::colorize_view("HEAD"@, Color::CYAN@, color)]
    } else {
        names
    };
    if names.len() > 0 {
        " ("@ + comma_joined(names) + ")"@
    } else {
        seq![]
    }
}

/// Each line of a message indented by four spaces, with a line end.
pub open spec fn indented(ls: Seq<Seq<char>>) -> Seq<char>
    decreases ls.len(),
{
    if ls.len() == 0 {
        seq![]
    } else {
        indented(ls.drop_last()) + "    "@ + ls.last() + "\n"@
    }
}

/// A commit in the medium form: `commit <id><decoration>`, the author and
/// date when known, a blank line and the message indented.
pub open spec fn medium_text(
    oid: Seq<char>,
    decoration: Seq<char>,
    author: Option<(Seq<char>, Seq<char>, Seq<char>)>,
    message: Seq<char>,
    color: bool,
) -> Seq<char> {
    Color::colorize_view("commit"@, Color::YELLOW@, color) + " "@ + oid + decoration + "\n"@
        + match author {
        Some((name, email, date)) => "Author: "@ + name + " <"@ + email + ">\nDate:   "@ + date
            + "\n"@,
        None => seq![],
    } + "\n"@ + indented(lines(message))
}

/// The references that point at a commit, as the map from commits to
/// references gives them: `HEAD` when HEAD reads as the commit, then each
/// branch (with the id it reads as) that does, in order.
pub open spec fn pointing_at(
    oid: Seq<char>,
    head: Option<Seq<char>>,
    branches: Seq<(RefTarget, Option<Seq<char>>)>,
) -> Seq<RefTarget>
    decreases branches.len(),
{
    if branches.len() == 0 {
        if head == Some(oid) {
            seq![RefTarget::Symbolic("HEAD"@)]
        } else {
            seq![]
        }
    } else {
        pointing_at(oid, head, branches.drop_last()) + match branches.last() {
            (RefTarget::Symbolic(p), Some(o)) => if o == oid {
                seq![RefTarget::Symbolic(p)]
            } else {
                seq![]
            },
            _ => seq![],
        }
    }
}

/// `x` stands for a branch that reads as `oid`.
pub open spec fn branch_at(branches: Seq<(RefTarget, Option<Seq<char>>)>, oid: Seq<char>, x: RefTarget) -> bool {
    exists|k: int| 0 <= k < branches.len() && #[trigger] branches[k] == (x, Some(oid)) && x is Symbolic
}

/// The references shown at a commit are exactly `HEAD`, first, when HEAD
/// reads as the commit, and the branches that read as it.
pub proof fn lemma_pointing_at_exact(
    oid: Seq<char>,
    head: Option<Seq<char>>,
    branches: Seq<(RefTarget, Option<Seq<char>>)>,
)
    ensures
        forall|k: int|
            0 <= k < branches.len() && (#[trigger] branches[k]).0 is Symbolic && branches[k].1 == Some(oid)
                ==> pointing_at(oid, head, branches).contains(branches[k].0),
        forall|k: int|
            0 <= k < pointing_at(oid, head, branches).len() ==> (k == 0 && head == Some(oid)
                && pointing_at(oid, head, branches)[k] == RefTarget::Symbolic("HEAD"@)) || branch_at(
                branches,
                oid,
                #[trigger] pointing_at(oid, head, branches)[k],
            ),
        head == Some(oid) ==> pointing_at(oid, head, branches).len() > 0 && pointing_at(
            oid,
            head,
            branches,
        )[0] == RefTarget::Symbolic("HEAD"@),
        head != Some(oid) ==> forall|k: int|
            0 <= k < pointing_at(oid, head, branches).len() ==> branch_at(
                branches,
                oid,
                #[trigger] pointing_at(oid, head, branches)[k],
            ),
    decreases branches.len(),
{
    if branches.len() > 0 {
        let b2 = branches.drop_last();
        lemma_pointing_at_exact(oid, head, b2);
        let rest = pointing_at(oid, head, b2);
        let all = pointing_at(oid, head, branches);
        let last = branches.last();
        assert forall|k: int|
            0 <= k < branches.len() && (#[trigger] branches[k]).0 is Symbolic && branches[k].1 == Some(oid)
                implies all.contains(branches[k].0) by {
            if k < b2.len() {
                assert(b2[k] == branches[k]);
                let j = choose|j: int| 0 <= j < rest.len() && rest[j] == b2[k].0;
                assert(all[j] == rest[j]);
            } else {
                assert(all[all.len() - 1] == branches[k].0);
            }
        }
        assert forall|x: RefTarget| branch_at(b2, oid, x) implies branch_at(branches, oid, x) by {
            let k = choose|k: int| 0 <= k < b2.len() && #[trigger] b2[k] == (x, Some(oid)) && x is Symbolic;
            assert(branches[k] == b2[k]);
        }
        assert forall|k: int| 0 <= k < all.len() implies (k == 0 && head == Some(oid) && all[k]
            == RefTarget::Symbolic("HEAD"@)) || branch_at(branches, oid, #[trigger] all[k]) by {
            if k < rest.len() {
                assert(all[k] == rest[k]);
                if !(k == 0 && head == Some(oid) && rest[k] == RefTarget::Symbolic("HEAD"@)) {
                    assert(branch_at(b2, oid, rest[k]));
                }
            } else {
                assert(branches[branches.len() - 1] == (all[k], Some(oid)));
            }
        }
        if head != Some(oid) {
            assert forall|k: int| 0 <= k < all.len() implies branch_at(branches, oid, #[trigger] all[k]) by {
                if k < rest.len() {
                    assert(all[k] == rest[k]);
                    assert(branch_at(b2, oid, rest[k]));
                } else {
                    assert(branches[branches.len() - 1] == (all[k], Some(oid)));
                }
            }
        }
        if head == Some(oid) {
            assert(all[0] == rest[0]);
        }
    }
}

/// Each line after a space, with a line end.
pub open spec fn context_lines(ls: Seq<Seq<char>>) -> Seq<char>
    decreases ls.len(),
{
    if ls.len() == 0 {
        seq![]
    } else {
        context_lines(ls.drop_last()) + " "@ + ls.last() + "\n"@
    }
}

/// The whole-file comparison of two texts: one hunk header, then the
/// lines as context when equal, else all old lines removed and all new
/// lines added.
pub open spec fn whole_file_diff(old: Seq<Seq<char>>, new: Seq<Seq<char>>, color: bool) -> Seq<char> {
    Color::colorize_view(
        "@@ -1,"@ + decimal(old.len()) + " +1,"@ + decimal(new.len()) + " @@"@,
        Color::CYAN@,
        color,
    ) + "\n"@ + if old == new {
        context_lines(old)
    } else {
        marked_colored(old, '-', Color::RED@, color) + marked_colored(new, '+', Color::GREEN@, color)
    }
}

/// The lines of a patch for a path both trees have, up to its contents:
/// the mode change, the ids and the file names.
pub open spec fn changed_head(
    path: Seq<char>,
    om: Seq<char>,
    oo: Seq<char>,
    nm: Seq<char>,
    no: Seq<char>,
) -> Seq<char> {
    (if om != nm {
        "old mode "@ + om + ", new mode "@ + nm + "\n"@
    } else {
        seq![]
    }) + "index "@ + byte_prefix_view(oo, 7) + ".."@ + byte_prefix_view(no, 7) + " "@ + nm
        + "\n--- a/"@ + path + "\n+++ b/"@ + path + "\n"@
}

/// The comparison of the contents of a path both trees have.
pub open spec fn changed_body(path: Seq<char>, old_content: Seq<u8>, new_content: Seq<u8>, color: bool) -> Seq<
    char,
> {
    if is_binary(old_content) || is_binary(new_content) {
        Color::colorize_view(
            "Binary files a/"@ + path + " and b/"@ + path + " differ"@,
            Color::YELLOW@,
            color,
        ) + "\n"@
    } else {
        whole_file_diff(lines(lossy_text(old_content)), lines(lossy_text(new_content)), color)
    }
}

/// The part of a patch for a path both trees have.
pub open spec fn changed_part(
    path: Seq<char>,
    om: Seq<char>,
    oo: Seq<char>,
    nm: Seq<char>,
    no: Seq<char>,
    old_content: Seq<u8>,
    new_content: Seq<u8>,
    color: bool,
) -> Seq<char> {
    changed_head(path, om, oo, nm, no) + changed_body(path, old_content, new_content, color)
}

/// The part of a patch for a path only the old tree has.
pub open spec fn deleted_part(path: Seq<char>, oo: Seq<char>, old_content: Seq<u8>, color: bool) -> Seq<
    char,
> {
    "index "@ + byte_prefix_view(oo, 7) + "..0000000\n--- a/"@ + path + "\n+++ /dev/null\n"@
        + deleted_body(path, old_content, color)
}

/// The contents of a path only the old tree has, as removed lines.
pub open spec fn deleted_body(path: Seq<char>, old_content: Seq<u8>, color: bool) -> Seq<char> {
    if is_binary(old_content) {
        Color::colorize_view("Binary file a/"@ + path + " has been deleted"@, Color::YELLOW@, color)
            + "\n"@
    } else {
        Color::colorize_view(
            "@@ -1,"@ + decimal(lines(lossy_text(old_content)).len()) + " +0,0 @@"@,
            Color::CYAN@,
            color,
        ) + "\n"@ + marked_colored(lines(lossy_text(old_content)), '-', Color::RED@, color)
    }
}

/// The part of a patch for a path only the new tree has.
pub open spec fn added_part(
    path: Seq<char>,
    nm: Seq<char>,
    no: Seq<char>,
    new_content: Seq<u8>,
    color: bool,
) -> Seq<char> {
    "index 0000000.."@ + byte_prefix_view(no, 7) + " "@ + nm + "\n--- /dev/null\n+++ b/"@ + path
        + "\n"@ + added_body(path, new_content, color)
}

/// The contents of a path only the new tree has, as added lines.
pub open spec fn added_body(path: Seq<char>, new_content: Seq<u8>, color: bool) -> Seq<char> {
    if is_binary(new_content) {
        Color::colorize_view("Binary file b/"@ + path + " has been created"@, Color::YELLOW@, color)
            + "\n"@
    } else {
        Color::colorize_view(
            "@@ -0,0 +1,"@ + decimal(lines(lossy_text(new_content)).len()) + " @@"@,
            Color::CYAN@,
            color,
        ) + "\n"@ + marked_colored(lines(lossy_text(new_content)), '+', Color::GREEN@, color)
    }
}

/// The patch of one path in the history: a header, then by the items
/// (mode and id) the path has before and after, its mode change and ids,
/// and the comparison of the contents.
pub open spec fn path_patch(
    path: Seq<char>,
    old: Option<(Seq<char>, Seq<char>)>,
    new: Option<(Seq<char>, Seq<char>)>,
    old_content: Seq<u8>,
    new_content: Seq<u8>,
    color: bool,
) -> Seq<char> {
    Color::colorize_view("diff --ash a/"@ + path + " b/"@ + path, Color::CYAN@, color) + "\n"@
        + match (old, new) {
        (Some((om, oo)), Some((nm, no))) => changed_part(
            path,
            om,
            oo,
            nm,
            no,
            old_content,
            new_content,
            color,
        ),
        (Some((om, oo)), None) => deleted_part(path, oo, old_content, color),
        (None, Some((nm, no))) => added_part(path, nm, no, new_content, color),
        (None, None) => seq![],
    }
}

/// Appends each line after a space, with a line end.
fn push_context(r: &mut String, ls: &Vec<String>)
    ensures
        final(r)@ == old(r)@ + context_lines(strings_view(ls@)),
{
    let ghost lv = strings_view(ls@);
    let ghost r0 = r@;
    let mut i: usize = 0;
    assert(lv.take(0) =~= Seq::<Seq<char>>::empty());
    while i < ls.len()
        invariant
            i <= ls.len(),
            lv == strings_view(ls@),
            r@ == r0 + context_lines(lv.take(i as int)),
        decreases ls.len() - i,
    {
        assert(lv.take(i + 1).drop_last() =~= lv.take(i as int));
        assert(lv.take(i + 1).last() == ls@[i as int]@);
        push_str(r, " ");
        push_str(r, ls[i].as_str());
        push_str(r, "\n");
        i += 1;
    }
    assert(lv.take(i as int) =~= lv);
}

/// The whole-file comparison of two contents.
fn whole_file(r: &mut String, old_content: &[u8], new_content: &[u8], color: bool)
    ensures
        final(r)@ == old(r)@ + whole_file_diff(
            lines(lossy_text(old_content@)),
            lines(lossy_text(new_content@)),
            color,
        ),
{
    let ot = utf8_lossy(old_content);
    let nt = utf8_lossy(new_content);
    let ol = split_lines(ot.as_str());
    let nl = split_lines(nt.as_str());
    let mut h = String::new();
    push_str(&mut h, "@@ -1,");
    push_decimal(&mut h, ol.len() as u64);
    push_str(&mut h, " +1,");
    push_decimal(&mut h, nl.len() as u64);
    push_str(&mut h, " @@");
    let c = Color::cyan(h.as_str(), color);
    push_str(r, c.as_str());
    push_str(r, "\n");
    if strings_eq(ol.as_slice(), nl.as_slice()) {
        push_context(r, &ol);
    } else {
        push_marked(r, &ol, '-', Color::RED, color);
        push_marked(r, &nl, '+', Color::GREEN, color);
    }
}

impl LogCommand {
    /// The decoration shown after a commit id for the references pointing
    /// at the commit, with HEAD at `current_ref`; `full` decoration shows
    /// whole paths and direct references.
    pub fn format_decoration(
        refs: &Vec<Reference>,
        current_ref: &Reference,
        decorate: &str,
        color: bool,
    ) -> (r: String)
        ensures
            r@ == decoration(
                refs@.map_values(|x: Reference| x@),
                current_ref@,
                decorate@ == "full"@,
                color,
            ),
    {
        let ghost rv = refs@.map_values(|x: Reference| x@);
        let full = str_eq(decorate, "full");
        let mut names: Vec<String> = Vec::new();
        let mut has_head = false;
        let mut i: usize = 0;
        proof {
            reveal_strlit("HEAD");
            reveal_strlit(" -> ");
        }
        while i < refs.len()
            invariant
                i <= refs.len(),
                rv == refs@.map_values(|x: Reference| x@),
                full == (decorate@ == "full"@),
                (strings_view(names@), has_head) == decoration_names(
                    rv.take(i as int),
                    current_ref@,
                    full,
                    color,
                ),
            decreases refs.len() - i,
        {
            assert(rv.take(i + 1).drop_last() =~= rv.take(i as int));
            assert(rv.take(i + 1).last() == refs@[i as int]@);
            let ghost before = strings_view(names@);
            match &refs[i] {
                Reference::Symbolic(path) => {
                    if str_eq(path.as_str(), "HEAD") {
                        has_head = true;
                    } else {
                        let name = if full {
                            path.clone()
                        } else {
                            short_branch_name(path.as_str())
                        };
                        assert(name@ == if full {
                            path@
                        } else {
                            short_name_of(path@)
                        });
                        let shown = if same_reference(&refs[i], current_ref) && has_head {
                            let mut s = Color::cyan("HEAD", color);
                            push_str(&mut s, " -> ");
                            let g = Color::green(name.as_str(), color);
                            push_str(&mut s, g.as_str());
                            s
                        } else {
                            Color::green(name.as_str(), color)
                        };
                        names.push(shown);
                        assert(strings_view(names@) =~= before.push(shown@));
                    }
                },
                Reference::Direct(oid) => {
                    if full {
                        names.push(oid.clone());
                        assert(strings_view(names@) =~= before.push(oid@));
                    }
                },
            }
            i += 1;
        }
        assert(rv.take(i as int) =~= rv);
        if has_head && names.len() == 0 {
            names.push(Color::cyan("HEAD", color));
            assert(strings_view(names@) =~= seq![Color::colorize_view("HEAD"@, Color::CYAN@, color)]);
        }
        if names.len() == 0 {
            return String::new();
        }
        let mut r = String::new();
        push_str(&mut r, " (");
        push_str(&mut r, names[0].as_str());
        let mut k: usize = 1;
        assert(strings_view(names@).take(1) =~= seq![names@[0]@]);
        while k < names.len()
            invariant
                1 <= k <= names.len(),
                r@ == " ("@ + comma_joined(strings_view(names@).take(k as int)),
            decreases names.len() - k,
        {
            assert(strings_view(names@).take(k + 1).drop_last() =~= strings_view(names@).take(
                k as int,
            ));
            push_str(&mut r, ", ");
            push_str(&mut r, names[k].as_str());
            k += 1;
        }
        assert(strings_view(names@).take(k as int) =~= strings_view(names@));
        push_str(&mut r, ")");
        r
    }

    /// A commit in the medium form, its id cut to seven bytes when
    /// abbreviated; `author` holds the name, e-mail and date shown.
    pub fn medium(
        oid: &str,
        abbrev: bool,
        decoration: &str,
        author: Option<(&str, &str, &str)>,
        message: &str,
        color: bool,
    ) -> (r: String)
        requires
            abbrev ==> cuts_at(oid, 7),
        ensures
            r@ == medium_text(
                if abbrev {
                    byte_prefix_view(oid@, 7)
                } else {
                    oid@
                },
                decoration@,
                match author {
                    Some((n, e, d)) => Some((n@, e@, d@)),
                    None => None,
                },
                message@,
                color,
            ),
    {
        let id = if abbrev {
            byte_prefix(oid, 7)
        } else {
            oid
        };
        let mut r = Color::yellow("commit", color);
        push_str(&mut r, " ");
        push_str(&mut r, id);
        push_str(&mut r, decoration);
        push_str(&mut r, "\n");
        match author {
            Some((name, email, date)) => {
                push_str(&mut r, "Author: ");
                push_str(&mut r, name);
                push_str(&mut r, " <");
                push_str(&mut r, email);
                push_str(&mut r, ">\nDate:   ");
                push_str(&mut r, date);
                push_str(&mut r, "\n");
            },
            None => {},
        }
        push_str(&mut r, "\n");
        let ls = lines_of(chars_of(message).as_slice());
        let ghost lv = strings_view(ls@);
        let ghost r0 = r@;
        let mut i: usize = 0;
        assert(lv.take(0) =~= Seq::<Seq<char>>::empty());
        while i < ls.len()
            invariant
                i <= ls.len(),
                lv == strings_view(ls@),
                r@ == r0 + indented(lv.take(i as int)),
            decreases ls.len() - i,
        {
            assert(lv.take(i + 1).drop_last() =~= lv.take(i as int));
            assert(lv.take(i + 1).last() == ls@[i as int]@);
            push_str(&mut r, "    ");
            push_str(&mut r, ls[i].as_str());
            push_str(&mut r, "\n");
            i += 1;
        }
        assert(lv.take(i as int) =~= lv);
        r
    }

    /// The references pointing at a commit, given the id HEAD reads as and
    /// each branch with the id it reads as.
    pub fn refs_pointing_at(oid: &str, head: Option<&str>, branches: &Vec<(Reference, Option<String>)>)
        -> (r: Vec<Reference>)
        ensures
            r@.map_values(|x: Reference| x@) == pointing_at(
                oid@,
                match head {
                    Some(h) => Some(h@),
                    None => None,
                },
                branches@.map_values(
                    |b: (Reference, Option<String>)|
                        (
                            b.0@,
                            match b.1 {
                                Some(o) => Some(o@),
                                None => None,
                            },
                        ),
                ),
            ),
    {
        let ghost bv = branches@.map_values(
            |b: (Reference, Option<String>)|
                (
                    b.0@,
                    match b.1 {
                        Some(o) => Some(o@),
                        None => None,
                    },
                ),
        );
        let ghost hv = match head {
            Some(h) => Some(h@),
            None => None,
        };
        let mut r: Vec<Reference> = Vec::new();
        match head {
            Some(h) => if str_eq(h, oid) {
                r.push(Reference::Symbolic("HEAD".to_owned()));
            },
            None => {},
        }
        proof {
            reveal_strlit("HEAD");
            assert(bv.take(0) =~= Seq::<(RefTarget, Option<Seq<char>>)>::empty());
            assert(r@.map_values(|x: Reference| x@) =~= pointing_at(oid@, hv, bv.take(0)));
        }
        let mut i: usize = 0;
        while i < branches.len()
            invariant
                i <= branches.len(),
                bv == branches@.map_values(
                    |b: (Reference, Option<String>)|
                        (
                            b.0@,
                            match b.1 {
                                Some(o) => Some(o@),
                                None => None,
                            },
                        ),
                ),
                r@.map_values(|x: Reference| x@) == pointing_at(oid@, hv, bv.take(i as int)),
            decreases branches.len() - i,
        {
            assert(bv.take(i + 1).drop_last() =~= bv.take(i as int));
            assert(bv.take(i + 1).last() == bv[i as int]);
            let ghost before = r@.map_values(|x: Reference| x@);
            match (&branches[i].0, &branches[i].1) {
                (Reference::Symbolic(p), Some(o)) => {
                    if str_eq(o.as_str(), oid) {
                        r.push(Reference::Symbolic(p.clone()));
                        assert(r@.map_values(|x: Reference| x@) =~= before + seq![
                            RefTarget::Symbolic(p@),
                        ]);
                    } else {
                        assert(r@.map_values(|x: Reference| x@) =~= before + Seq::<RefTarget>::empty());
                    }
                },
                _ => {
                    assert(r@.map_values(|x: Reference| x@) =~= before + Seq::<RefTarget>::empty());
                },
            }
            i += 1;
        }
        assert(bv.take(i as int) =~= bv);
        r
    }

    /// The patch of one path of a commit, given its item (mode and id)
    /// before and after and the stored contents of those items.
    pub fn path_patch(
        path: &str,
        old: Option<(&str, &str)>,
        new: Option<(&str, &str)>,
        old_content: &[u8],
        new_content: &[u8],
        color: bool,
    ) -> (r: String)
        requires
            old matches Some((m, o)) ==> cuts_at(o, 7),
            new matches Some((m, o)) ==> cuts_at(o, 7),
        ensures
            r@ == path_patch(
                path@,
                match old {
                    Some((m, o)) => Some((m@, o@)),
                    None => None,
                },
                match new {
                    Some((m, o)) => Some((m@, o@)),
                    None => None,
                },
                old_content@,
                new_content@,
                color,
            ),
    {
        let mut h = String::new();
        push_str(&mut h, "diff --ash a/");
        push_str(&mut h, path);
        push_str(&mut h, " b/");
        push_str(&mut h, path);
        let mut r = Color::cyan(h.as_str(), color);
        push_str(&mut r, "\n");
        match (old, new) {
            (Some((om, oo)), Some((nm, no))) => Self::changed(
                &mut r,
                path,
                om,
                oo,
                nm,
                no,
                old_content,
                new_content,
                color,
            ),
            (Some((om, oo)), None) => Self::deleted(&mut r, path, oo, old_content, color),
            (None, Some((nm, no))) => Self::added(&mut r, path, nm, no, new_content, color),
            (None, None) => {},
        }
        r
    }

    fn changed(
        r: &mut String,
        path: &str,
        om: &str,
        oo: &str,
        nm: &str,
        no: &str,
        old_content: &[u8],
        new_content: &[u8],
        color: bool,
    )
        requires
            cuts_at(oo, 7),
            cuts_at(no, 7),
        ensures
            final(r)@ == old(r)@ + changed_part(
                path@,
                om@,
                oo@,
                nm@,
                no@,
                old_content@,
                new_content@,
                color,
            ),
    {
        let ghost r0 = r@;
        Self::changed_head(r, path, om, oo, nm, no);
        let ghost r1 = r@;
        Self::changed_body(r, path, old_content, new_content, color);
        assert(r@ =~= r0 + changed_part(
            path@,
            om@,
            oo@,
            nm@,
            no@,
            old_content@,
            new_content@,
            color,
        ));
    }

    #[verifier::spinoff_prover]
    #[verifier::rlimit(40)]
    fn changed_head(r: &mut String, path: &str, om: &str, oo: &str, nm: &str, no: &str)
        requires
            cuts_at(oo, 7),
            cuts_at(no, 7),
        ensures
            final(r)@ == old(r)@ + changed_head(path@, om@, oo@, nm@, no@),
    {
        if !str_eq(om, nm) {
            push_str(r, "old mode ");
            push_str(r, om);
            push_str(r, ", new mode ");
            push_str(r, nm);
            push_str(r, "\n");
        }
        push_str(r, "index ");
        push_str(r, byte_prefix(oo, 7));
        push_str(r, "..");
        push_str(r, byte_prefix(no, 7));
        push_str(r, " ");
        push_str(r, nm);
        push_str(r, "\n--- a/");
        push_str(r, path);
        push_str(r, "\n+++ b/");
        push_str(r, path);
        push_str(r, "\n");
    }

    fn changed_body(r: &mut String, path: &str, old_content: &[u8], new_content: &[u8], color: bool)
        ensures
            final(r)@ == old(r)@ + changed_body(path@, old_content@, new_content@, color),
    {
        if is_binary_content(old_content) || is_binary_content(new_content) {
            let mut m = String::new();
            push_str(&mut m, "Binary files a/");
            push_str(&mut m, path);
            push_str(&mut m, " and b/");
            push_str(&mut m, path);
            push_str(&mut m, " differ");
            let y = Color::yellow(m.as_str(), color);
            push_str(r, y.as_str());
            push_str(r, "\n");
        } else {
            whole_file(r, old_content, new_content, color);
        }
    }

    fn deleted(r: &mut String, path: &str, oo: &str, old_content: &[u8], color: bool)
        requires
            cuts_at(oo, 7),
        ensures
            final(r)@ == old(r)@ + deleted_part(path@, oo@, old_content@, color),
    {
        push_str(r, "index ");
        push_str(r, byte_prefix(oo, 7));
        push_str(r, "..0000000\n--- a/");
        push_str(r, path);
        push_str(r, "\n+++ /dev/null\n");
        Self::deleted_body(r, path, old_content, color);
    }

    fn deleted_body(r: &mut String, path: &str, old_content: &[u8], color: bool)
        ensures
            final(r)@ == old(r)@ + deleted_body(path@, old_content@, color),
    {
        if is_binary_content(old_content) {
            let mut m = String::new();
            push_str(&mut m, "Binary file a/");
            push_str(&mut m, path);
            push_str(&mut m, " has been deleted");
            let y = Color::yellow(m.as_str(), color);
            push_str(r, y.as_str());
            push_str(r, "\n");
        } else {
            let t = utf8_lossy(old_content);
            let ls = split_lines(t.as_str());
            let mut m = String::new();
            push_str(&mut m, "@@ -1,");
            push_decimal(&mut m, ls.len() as u64);
            push_str(&mut m, " +0,0 @@");
            let c = Color::cyan(m.as_str(), color);
            push_str(r, c.as_str());
            push_str(r, "\n");
            push_marked(r, &ls, '-', Color::RED, color);
        }
    }

    fn added(r: &mut String, path: &str, nm: &str, no: &str, new_content: &[u8], color: bool)
        requires
            cuts_at(no, 7),
        ensures
            final(r)@ == old(r)@ + added_part(path@, nm@, no@, new_content@, color),
    {
        push_str(r, "index 0000000..");
        push_str(r, byte_prefix(no, 7));
        push_str(r, " ");
        push_str(r, nm);
        push_str(r, "\n--- /dev/null\n+++ b/");
        push_str(r, path);
        push_str(r, "\n");
        Self::added_body(r, path, new_content, color);
    }

    fn added_body(r: &mut String, path: &str, new_content: &[u8], color: bool)
        ensures
            final(r)@ == old(r)@ + added_body(path@, new_content@, color),
    {
        if is_binary_content(new_content) {
            let mut m = String::new();
            push_str(&mut m, "Binary file b/");
            push_str(&mut m, path);
            push_str(&mut m, " has been created");
            let y = Color::yellow(m.as_str(), color);
            push_str(r, y.as_str());
            push_str(r, "\n");
        } else {
            let t = utf8_lossy(new_content);
            let ls = split_lines(t.as_str());
            let mut m = String::new();
            push_str(&mut m, "@@ -0,0 +1,");
            push_decimal(&mut m, ls.len() as u64);
            push_str(&mut m, " @@");
            let c = Color::cyan(m.as_str(), color);
            push_str(r, c.as_str());
            push_str(r, "\n");
            push_marked(r, &ls, '+', Color::GREEN, color);
        }
    }

    /// The changed paths of a commit in the order their patches are shown:
    /// by the code points of their text.
    pub fn patch_order(paths: &Vec<String>) -> (r: Vec<String>)
        ensures
            strings_view(r@) == sorted_texts(strings_view(paths@)),
    {
        sort_texts(paths)
    }

    /// A commit on one line: its id (the first seven bytes when
    /// abbreviated) in yellow, the decoration, and the title.
    pub fn oneline(oid: &str, abbrev: bool, decoration: &str, title: &str, color: bool) -> (r:
        String)
        requires
            abbrev ==> cuts_at(oid, 7),
        ensures
            r@ == Color::colorize_view(
                if abbrev {
                    byte_prefix_view(oid@, 7)
                } else {
                    oid@
                },
                Color::YELLOW@,
                color,
            ) + " "@ + decoration@ + " "@ + title@ + "\n"@,
    {
        let id = if abbrev {
            byte_prefix(oid, 7)
        } else {
            oid
        };
        let mut r = Color::yellow(id, color);
        push_str(&mut r, " ");
        push_str(&mut r, decoration);
        push_str(&mut r, " ");
        push_str(&mut r, title);
        push_str(&mut r, "\n");
        r
    }
}

} // verus!
