//! Listing branches: how each branch is shown.
use vstd::prelude::*;
use vstd::string::StringSliceAdditionalSpecFns;
use crate::color::Color;
use crate::error::Error;
use crate::refs::{RefTarget, Reference, short_name_of};
use crate::text::{
    byte_prefix, byte_prefix_view, chars_of, cuts_at, is_prefix, push_str, slice_chars, starts_with,
    str_eq, string_from_chars,
};

verus! {

/// The command that lists, creates and deletes branches.
pub struct BranchCommand;

/// Whether two references are the same.
pub fn same_reference(a: &Reference, b: &Reference) -> (r: bool)
    ensures
        r == (a@ == b@),
{
    match (a, b) {
        (Reference::Direct(x), Reference::Direct(y)) => str_eq(x.as_str(), y.as_str()),
        (Reference::Symbolic(x), Reference::Symbolic(y)) => str_eq(x.as_str(), y.as_str()),
        _ => false,
    }
}

/// The short name of a branch path: the part after `refs/heads/`, or the
/// whole path.
pub fn short_branch_name(path: &str) -> (r: String)
    ensures
        r@ == short_name_of(path@),
{
    let p = chars_of(path);
    let pre = chars_of("refs/heads/");
    proof {
        reveal_strlit("refs/heads/");
    }
    if starts_with(p.as_slice(), pre.as_slice()) {
        string_from_chars(slice_chars(p.as_slice(), 11, p.len()).as_slice())
    } else {
        path.to_owned()
    }
}

/// `n` spaces.
pub open spec fn spaces(n: nat) -> Seq<char>
    decreases n,
{
    if n == 0 {
        seq![]
    } else {
        spaces((n - 1) as nat).push(' ')
    }
}

/// `a` comes before `b` in the order of their characters' code points.
pub open spec fn name_less(a: Seq<char>, b: Seq<char>) -> bool
    decreases a.len(),
{
    if a.len() == 0 {
        b.len() > 0
    } else if b.len() == 0 {
        false
    } else if a[0] != b[0] {
        (a[0] as u32) < (b[0] as u32)
    } else {
        name_less(a.drop_first(), b.drop_first())
    }
}

/// A branch placed into a list ordered by name, after every branch whose
/// name does not come after its own.
pub open spec fn insert_by_name(s: Seq<(Seq<char>, Reference)>, t: (Seq<char>, Reference)) -> Seq<
    (Seq<char>, Reference),
>
    decreases s.len(),
{
    if s.len() == 0 || !name_less(t.0, s.last().0) {
        s.push(t)
    } else {
        insert_by_name(s.drop_last(), t).push(s.last())
    }
}

/// The branches ordered by name; equal names keep their order.
pub open spec fn by_name(s: Seq<(Seq<char>, Reference)>) -> Seq<(Seq<char>, Reference)>
    decreases s.len(),
{
    if s.len() == 0 {
        seq![]
    } else {
        insert_by_name(by_name(s.drop_last()), s.last())
    }
}

proof fn lemma_insert_by_name_at(s: Seq<(Seq<char>, Reference)>, t: (Seq<char>, Reference), p: int)
    requires
        0 <= p <= s.len(),
        forall|j: int| p <= j < s.len() ==> name_less(t.0, #[trigger] s[j].0),
        p > 0 ==> !name_less(t.0, s[p - 1].0),
    ensures
        insert_by_name(s, t) == s.take(p).push(t) + s.skip(p),
    decreases s.len(),
{
    if s.len() == 0 || p == s.len() {
        assert(s.take(p).push(t) + s.skip(p) =~= s.push(t));
    } else {
        lemma_insert_by_name_at(s.drop_last(), t, p);
        assert(s.drop_last().take(p) =~= s.take(p));
        assert(s.take(p).push(t) + s.skip(p) =~= (s.drop_last().take(p).push(t) + s.drop_last().skip(
            p,
        )).push(s.last()));
    }
}

proof fn lemma_name_less_order(a: Seq<char>, b: Seq<char>, c: Seq<char>)
    ensures
        !name_less(a, a),
        !(name_less(a, b) && name_less(b, a)),
        a != b ==> name_less(a, b) || name_less(b, a),
        name_less(a, b) && name_less(b, c) ==> name_less(a, c),
{
    lemma_name_less_irrefl(a);
    lemma_name_less_asym_total(a, b);
    lemma_name_less_trans(a, b, c);
}

proof fn lemma_name_less_irrefl(a: Seq<char>)
    ensures
        !name_less(a, a),
    decreases a.len(),
{
    if a.len() > 0 {
        lemma_name_less_irrefl(a.drop_first());
    }
}

proof fn lemma_name_less_asym_total(a: Seq<char>, b: Seq<char>)
    ensures
        !(name_less(a, b) && name_less(b, a)),
        a != b ==> name_less(a, b) || name_less(b, a),
    decreases a.len(),
{
    if a.len() > 0 && b.len() > 0 {
        if a[0] == b[0] {
            lemma_name_less_asym_total(a.drop_first(), b.drop_first());
            if a.drop_first() == b.drop_first() {
                assert(a =~= seq![a[0]] + a.drop_first());
                assert(b =~= seq![b[0]] + b.drop_first());
            }
        } else {
            vstd::utf8::char_u32_cast(a[0], a[0] as u32);
            vstd::utf8::char_u32_cast(b[0], b[0] as u32);
        }
    } else if a.len() == 0 && b.len() == 0 {
        assert(a =~= b);
    }
}

proof fn lemma_name_less_trans(a: Seq<char>, b: Seq<char>, c: Seq<char>)
    ensures
        name_less(a, b) && name_less(b, c) ==> name_less(a, c),
    decreases a.len(),
{
    if a.len() > 0 && b.len() > 0 && c.len() > 0 {
        lemma_name_less_trans(a.drop_first(), b.drop_first(), c.drop_first());
    }
}

/// Names in order: none comes before one listed ahead of it.
pub open spec fn names_in_order(s: Seq<(Seq<char>, Reference)>) -> bool {
    forall|i: int, j: int| 0 <= i < j < s.len() ==> !name_less(#[trigger] s[j].0, #[trigger] s[i].0)
}

proof fn lemma_insert_by_name_sorted(s: Seq<(Seq<char>, Reference)>, t: (Seq<char>, Reference))
    requires
        names_in_order(s),
    ensures
        names_in_order(insert_by_name(s, t)),
        insert_by_name(s, t).to_multiset() == s.to_multiset().insert(t),
    decreases s.len(),
{
    broadcast use vstd::seq_lib::group_to_multiset_ensures;
    let r = insert_by_name(s, t);
    if s.len() == 0 || !name_less(t.0, s.last().0) {
        assert forall|i: int, j: int| 0 <= i < j < r.len() implies !name_less(
            #[trigger] r[j].0,
            #[trigger] r[i].0,
        ) by {
            if j == s.len() && s.len() > 0 {
                let l = s.last().0;
                lemma_name_less_order(t.0, s[i].0, l);
                lemma_name_less_order(s[i].0, l, t.0);
                lemma_name_less_order(l, s[i].0, t.0);
                if i < s.len() - 1 {
                    assert(!name_less(l, s[i].0));
                }
                lemma_name_less_order(t.0, l, s[i].0);
            }
        }
    } else {
        let s2 = s.drop_last();
        let l = s.last();
        lemma_insert_by_name_sorted(s2, t);
        let r2 = insert_by_name(s2, t);
        assert(r == r2.push(l));
        assert(s =~= s2.push(l));
        assert forall|i: int, j: int| 0 <= i < j < r.len() implies !name_less(
            #[trigger] r[j].0,
            #[trigger] r[i].0,
        ) by {
            if j == r2.len() {
                let x = r2[i];
                assert(r2.contains(x));
                assert(r2.to_multiset().count(x) > 0);
                if x == t {
                    lemma_name_less_order(t.0, l.0, t.0);
                } else {
                    assert(s2.to_multiset().count(x) > 0);
                    assert(s2.contains(x));
                    let k = choose|k: int| 0 <= k < s2.len() && s2[k] == x;
                    assert(s[k] == x && s[s.len() - 1] == l);
                }
            } else {
                assert(r[i] == r2[i] && r[j] == r2[j]);
            }
        }
    }
}

/// Branches listed by name come in order of their names and are the same
/// branches, each as often as it was given.
pub proof fn lemma_by_name_sorted(s: Seq<(Seq<char>, Reference)>)
    ensures
        names_in_order(by_name(s)),
        by_name(s).to_multiset() == s.to_multiset(),
    decreases s.len(),
{
    broadcast use vstd::seq_lib::group_to_multiset_ensures;
    if s.len() > 0 {
        lemma_by_name_sorted(s.drop_last());
        lemma_insert_by_name_sorted(by_name(s.drop_last()), s.last());
        assert(s =~= s.drop_last().push(s.last()));
    } else {
        assert(by_name(s) =~= s);
    }
}

/// Whether `a` comes before `b`.
pub(crate) fn chars_less(a: &[char], b: &[char]) -> (r: bool)
    ensures
        r == name_less(a@, b@),
{
    let mut i: usize = 0;
    assert(a@.skip(0) =~= a@);
    assert(b@.skip(0) =~= b@);
    while i < a.len() && i < b.len() && a[i] == b[i]
        invariant
            i <= a.len(),
            i <= b.len(),
            name_less(a@, b@) == name_less(a@.skip(i as int), b@.skip(i as int)),
        decreases a.len() - i,
    {
        assert(a@.skip(i as int).drop_first() =~= a@.skip(i + 1));
        assert(b@.skip(i as int).drop_first() =~= b@.skip(i + 1));
        i += 1;
    }
    if i == a.len() {
        i < b.len()
    } else if i == b.len() {
        false
    } else {
        (a[i] as u32) < (b[i] as u32)
    }
}

impl BranchCommand {
    /// A line of the branch list: `* <name>` (the name in green) for the
    /// current branch, `  <name>` for another, nothing for a reference that
    /// is not a branch path.
    pub fn format_branch(reference: &Reference, current_ref: &Reference, color: bool) -> (r: String)
        ensures
            r@ == match reference@ {
                RefTarget::Symbolic(p) => if reference@ == current_ref@ {
                    "* "@ + Color::colorize_view(short_name_of(p), Color::GREEN@, color)
                } else {
                    "  "@ + short_name_of(p)
                },
                RefTarget::Direct(_) => ""@,
            },
    {
        proof {
            reveal_strlit("");
        }
        match reference {
            Reference::Symbolic(path) => {
                let name = short_branch_name(path.as_str());
                let mut r = String::new();
                if same_reference(reference, current_ref) {
                    push_str(&mut r, "* ");
                    let g = Color::green(name.as_str(), color);
                    push_str(&mut r, g.as_str());
                } else {
                    push_str(&mut r, "  ");
                    push_str(&mut r, name.as_str());
                }
                r
            },
            Reference::Direct(_) => String::new(),
        }
    }

    /// What follows a branch's name in the verbose list: padding up to the
    /// widest name, the commit's first eight bytes in yellow, and its title.
    pub fn extended_info(max_width: usize, name: &str, oid: &str, title: &str, color: bool) -> (r:
        String)
        requires
            cuts_at(oid, 8),
            name.spec_bytes().len() <= usize::MAX,
        ensures
            r@ == spaces(
                if max_width >= name.spec_bytes().len() {
                    (max_width - name.spec_bytes().len()) as nat
                } else {
                    0
                },
            ) + " "@ + Color::colorize_view(byte_prefix_view(oid@, 8), Color::YELLOW@, color) + " "@
                + title@,
    {
        let pad: usize = max_width.saturating_sub(name.len());
        let mut r = String::new();
        let mut i: usize = 0;
        while i < pad
            invariant
                i <= pad,
                r@ == spaces(i as nat),
            decreases pad - i,
        {
            r.push(' ');
            i += 1;
        }
        push_str(&mut r, " ");
        let y = Color::yellow(byte_prefix(oid, 8), color);
        push_str(&mut r, y.as_str());
        push_str(&mut r, " ");
        push_str(&mut r, title);
        r
    }

    /// The branches with their short names, ordered by name.
    pub fn sort_by_name(branches: Vec<(String, Reference)>) -> (r: Vec<(String, Reference)>)
        ensures
            r@.map_values(|b: (String, Reference)| (b.0@, b.1)) == by_name(
                branches@.map_values(|b: (String, Reference)| (b.0@, b.1)),
            ),
    {
        let ghost orig = branches@.map_values(|b: (String, Reference)| (b.0@, b.1));
        let mut rest = branches;
        let mut r: Vec<(String, Reference)> = Vec::new();
        let ghost mut done: int = 0;
        while rest.len() > 0
            invariant
                0 <= done <= orig.len(),
                rest@.map_values(|b: (String, Reference)| (b.0@, b.1)) == orig.skip(done),
                r@.map_values(|b: (String, Reference)| (b.0@, b.1)) == by_name(orig.take(done)),
            decreases rest.len(),
        {
            let ghost rv0 = rest@;
            let ghost mv0 = rv0.map_values(|b: (String, Reference)| (b.0@, b.1));
            assert(mv0.len() == rv0.len());
            assert(done < orig.len());
            let t = rest.remove(0);
            proof {
                assert(orig.take(done + 1).drop_last() =~= orig.take(done));
                assert(orig.skip(done)[0] == mv0[0]);
                let rv1 = rest@.map_values(|b: (String, Reference)| (b.0@, b.1));
                assert forall|k: int| 0 <= k < rv1.len() implies #[trigger] rv1[k] == orig.skip(
                    done + 1,
                )[k] by {
                    assert(rest@[k] == rv0[k + 1]);
                    assert(orig.skip(done + 1)[k] == orig.skip(done)[k + 1]);
                }
                assert(rv1 =~= orig.skip(done + 1));
            }
            let tc = chars_of(t.0.as_str());
            let ghost rview = r@.map_values(|b: (String, Reference)| (b.0@, b.1));
            let mut p: usize = r.len();
            while p > 0 && chars_less(tc.as_slice(), chars_of(r[p - 1].0.as_str()).as_slice())
                invariant
                    p <= r.len(),
                    rview == r@.map_values(|b: (String, Reference)| (b.0@, b.1)),
                    tc@ == t.0@,
                    forall|j: int| p <= j < r.len() ==> name_less(t.0@, #[trigger] rview[j].0),
                decreases p,
            {
                p -= 1;
            }
            proof {
                lemma_insert_by_name_at(rview, (t.0@, t.1), p as int);
            }
            r.insert(p, t);
            proof {
                assert(r@.map_values(|b: (String, Reference)| (b.0@, b.1)) =~= rview.take(p as int).push(
                    orig[done],
                ) + rview.skip(p as int));
                done = done + 1;
            }
        }
        assert(orig.take(done) =~= orig);
        r
    }

    /// Whether a branch may be deleted: only when forced, and never the
    /// branch HEAD is on.
    pub fn check_delete(branch_name: &str, current_ref: &Reference, force: bool) -> (r: Result<(), Error>)
        ensures
            !force ==> (r matches Err(Error::Generic(m)) && m@ == "Branch not deleted"@),
            force && (current_ref@ matches RefTarget::Symbolic(p) && short_name_of(p) == branch_name@)
                ==> (r matches Err(Error::Generic(m)) && m@ == "Cannot delete the branch '"@
                + branch_name@ + "' which you are currently on."@),
            force && !(current_ref@ matches RefTarget::Symbolic(p) && short_name_of(p) == branch_name@)
                ==> r is Ok,
    {
        if !force {
            return Err(Error::Generic("Branch not deleted".to_owned()));
        }
        let is_current = match current_ref {
            Reference::Symbolic(path) => {
                let n = short_branch_name(path.as_str());
                str_eq(n.as_str(), branch_name)
            },
            Reference::Direct(_) => false,
        };
        if is_current {
            let mut m = String::new();
            push_str(&mut m, "Cannot delete the branch '");
            push_str(&mut m, branch_name);
            push_str(&mut m, "' which you are currently on.");
            return Err(Error::Generic(m));
        }
        Ok(())
    }
}

} // verus!
