//! Listing history: which arguments are paths and which revisions, and the
//! start points a revision gives the walk.
use vstd::prelude::*;
use crate::revision::HEAD;
use crate::text::{
    chars_of, clone_string, find_from, find_pattern, is_prefix, push_str, slice_chars, starts_with,
    str_eq, string_from_chars, strings_view,
};

verus! {

/// The history walk's setup from the command line.
pub struct RevList;

/// A text, or `HEAD` when it is empty.
pub open spec fn or_head(s: Seq<char>) -> Seq<char> {
    if s.len() == 0 {
        "HEAD"@
    } else {
        s
    }
}

/// The start points of a revision, each with whether its commits are
/// wanted: `A..B` excludes `A` and wants `B` (each `HEAD` when empty), `^A`
/// excludes `A`, anything else is wanted.
pub open spec fn start_points(rev: Seq<char>) -> Seq<(Seq<char>, bool)> {
    match find_from(rev, ".."@, 0) {
        Some(k) => seq![
            (or_head(rev.subrange(0, k)), false),
            (or_head(rev.subrange(k + 2, rev.len() as int)), true),
        ],
        None => if rev.len() > 0 && rev[0] == '^' {
            seq![(rev.subrange(1, rev.len() as int), false)]
        } else {
            seq![(rev, true)]
        },
    }
}

/// The id a start point is given: `HEAD_COMMIT_OID` for `HEAD`, else the
/// name with `_RESOLVED` after it.
pub open spec fn placeholder(rev: Seq<char>) -> Seq<char> {
    if rev == "HEAD"@ {
        "HEAD_COMMIT_OID"@
    } else {
        rev + "_RESOLVED"@
    }
}

/// The arguments naming existing paths, in order.
pub open spec fn path_args(args: Seq<Seq<char>>, exists: Seq<bool>) -> Seq<Seq<char>>
    decreases args.len(),
{
    if args.len() == 0 || exists.len() < args.len() {
        seq![]
    } else {
        let n = args.len() - 1;
        path_args(args.drop_last(), exists.take(n)) + if exists[n] {
            seq![args[n]]
        } else {
            seq![]
        }
    }
}

/// The other arguments, as revisions, in order; `HEAD` when there are none.
pub open spec fn revision_args(args: Seq<Seq<char>>, exists: Seq<bool>) -> Seq<Seq<char>> {
    let r = other_args(args, exists);
    if r.len() == 0 {
        seq!["HEAD"@]
    } else {
        r
    }
}

/// The arguments not naming existing paths, in order.
pub open spec fn other_args(args: Seq<Seq<char>>, exists: Seq<bool>) -> Seq<Seq<char>>
    decreases args.len(),
{
    if args.len() == 0 || exists.len() < args.len() {
        seq![]
    } else {
        let n = args.len() - 1;
        other_args(args.drop_last(), exists.take(n)) + if exists[n] {
            seq![]
        } else {
            seq![args[n]]
        }
    }
}

impl RevList {
    /// The start points of a revision, each with whether its commits are
    /// wanted.
    pub fn start_points(rev: &str) -> (r: Vec<(String, bool)>)
        ensures
            r@.map_values(|p: (String, bool)| (p.0@, p.1)) == start_points(rev@),
    {
        let s = chars_of(rev);
        let dots = chars_of("..");
        proof {
            reveal_strlit("..");
            reveal_strlit("HEAD");
        }
        let mut r: Vec<(String, bool)> = Vec::new();
        match find_pattern(s.as_slice(), dots.as_slice()) {
            Some(k) => {
                assert(dots@.len() == 2);
                let sl = s.len();
                assert(k + 2 <= sl);
                let a = slice_chars(s.as_slice(), 0, k);
                let b = slice_chars(s.as_slice(), k + 2, s.len());
                let a_s = if a.len() == 0 {
                    HEAD.to_owned()
                } else {
                    string_from_chars(a.as_slice())
                };
                let b_s = if b.len() == 0 {
                    HEAD.to_owned()
                } else {
                    string_from_chars(b.as_slice())
                };
                r.push((a_s, false));
                r.push((b_s, true));
            },
            None => {
                if s.len() > 0 && s[0] == '^' {
                    let rest = slice_chars(s.as_slice(), 1, s.len());
                    r.push((string_from_chars(rest.as_slice()), false));
                } else {
                    r.push((rev.to_owned(), true));
                }
            },
        }
        assert(r@.map_values(|p: (String, bool)| (p.0@, p.1)) =~= start_points(rev@));
        r
    }

    /// The id given to a start point.
    pub fn placeholder_oid(rev: &str) -> (r: String)
        ensures
            r@ == placeholder(rev@),
    {
        if str_eq(rev, HEAD) {
            "HEAD_COMMIT_OID".to_owned()
        } else {
            let mut r = rev.to_owned();
            push_str(&mut r, "_RESOLVED");
            r
        }
    }

    /// Splits the arguments into the paths they name (those that exist)
    /// and the revisions, `HEAD` when no argument is one.
    pub fn split_arguments(args: &Vec<String>, exists: &Vec<bool>) -> (r: (Vec<String>, Vec<String>))
        requires
            exists.len() == args.len(),
        ensures
            strings_view(r.0@) == path_args(strings_view(args@), exists@),
            strings_view(r.1@) == revision_args(strings_view(args@), exists@),
    {
        let ghost av = strings_view(args@);
        let mut paths: Vec<String> = Vec::new();
        let mut revs: Vec<String> = Vec::new();
        let mut i: usize = 0;
        while i < args.len()
            invariant
                i <= args.len(),
                exists.len() == args.len(),
                av == strings_view(args@),
                strings_view(paths@) == path_args(av.take(i as int), exists@.take(i as int)),
                strings_view(revs@) == other_args(av.take(i as int), exists@.take(i as int)),
            decreases args.len() - i,
        {
            assert(av.take(i + 1).drop_last() =~= av.take(i as int));
            assert(exists@.take(i + 1).take(i as int) =~= exists@.take(i as int));
            assert(av.take(i + 1)[i as int] == args@[i as int]@);
            let ghost p0 = strings_view(paths@);
            let ghost r0 = strings_view(revs@);
            if exists[i] {
                paths.push(clone_string(&args[i]));
                assert(strings_view(paths@) =~= p0 + seq![args@[i as int]@]);
                assert(strings_view(revs@) =~= r0 + Seq::<Seq<char>>::empty());
            } else {
                revs.push(clone_string(&args[i]));
                assert(strings_view(revs@) =~= r0 + seq![args@[i as int]@]);
                assert(strings_view(paths@) =~= p0 + Seq::<Seq<char>>::empty());
            }
            i += 1;
        }
        assert(av.take(i as int) =~= av);
        assert(exists@.take(i as int) =~= exists@);
        if revs.len() == 0 {
            revs.push(HEAD.to_owned());
            proof {
                reveal_strlit("HEAD");
            }
            assert(strings_view(revs@) =~= seq!["HEAD"@]);
        }
        (paths, revs)
    }
}

} // verus!
