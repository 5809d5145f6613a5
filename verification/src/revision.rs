//! Revision expressions: `A..B`, `^A`, `A^`, `A~N`, and reference names
//! (`@` standing for `HEAD`).
use vstd::prelude::*;
use crate::refs::{invalid_ref_name, is_invalid_ref_name};
use crate::database::database::{all_hex, hex_only};
use crate::error::Error;
use crate::text::{
    byte_prefix, byte_prefix_view, chars_of, clone_string, is_prefix, parse_unsigned, parse_unsigned_chars,
    push_str, slice_chars, starts_with, string_from_chars, str_eq, strings_view,
};
use vstd::utf8::{encode_utf8, is_char_boundary};

verus! {

/// The name of the current commit's reference.
pub const HEAD: &'static str = "HEAD";

/// The type name of commits.
pub const COMMIT: &'static str = "commit";

/// A parsed revision expression.
#[derive(Debug)]
pub enum RevisionNode {
    /// A reference name or abbreviated object id.
    Ref(String),
    /// The parent of a revision.
    Parent(Box<RevisionNode>),
    /// The n-th first-parent ancestor of a revision.
    Ancestor(Box<RevisionNode>, usize),
    /// The commits of the second revision that the first does not reach.
    Range(Box<RevisionNode>, Box<RevisionNode>),
    /// The commits a revision does not reach.
    Exclude(Box<RevisionNode>),
}

/// A parsed revision expression as values.
pub ghost enum RevView {
    Ref(Seq<char>),
    Parent(Box<RevView>),
    Ancestor(Box<RevView>, nat),
    Range(Box<RevView>, Box<RevView>),
    Exclude(Box<RevView>),
}

/// The values of a parsed expression.
pub open spec fn rev_view(n: RevisionNode) -> RevView
    decreases n,
{
    match n {
        RevisionNode::Ref(s) => RevView::Ref(s@),
        RevisionNode::Parent(r) => RevView::Parent(Box::new(rev_view(*r))),
        RevisionNode::Ancestor(r, k) => RevView::Ancestor(Box::new(rev_view(*r)), k as nat),
        RevisionNode::Range(a, b) => RevView::Range(Box::new(rev_view(*a)), Box::new(rev_view(*b))),
        RevisionNode::Exclude(r) => RevView::Exclude(Box::new(rev_view(*r))),
    }
}

/// Whether a character is what a regular expression's `\d` matches: a
/// Unicode decimal digit.
pub uninterp spec fn is_decimal_digit(c: char) -> bool;

/// The `regex` crate's `\d` class, tried on one character: ASCII digits
/// match and other ASCII characters do not.
#[verifier::external_body]
pub(crate) fn decimal_digit(c: char) -> (r: bool)
    ensures
        r == is_decimal_digit(c),
        '0' <= c <= '9' ==> r,
        (c as u32) < 128 && !('0' <= c <= '9') ==> !r,
{
    regex::Regex::new(r"^\d$").map(|re| re.is_match(&c.to_string())).unwrap_or(false)
}

/// No line break: what a regular expression's `.` matches throughout.
pub open spec fn one_line(s: Seq<char>) -> bool {
    forall|i: int| 0 <= i < s.len() ==> #[trigger] s[i] != '\n'
}

/// The last position, at or before `k`, at which `..` starts.
pub open spec fn last_dot_dot(s: Seq<char>, k: int) -> Option<int>
    decreases k + 1,
{
    if k < 0 {
        None
    } else if k + 1 < s.len() && s[k] == '.' && s[k + 1] == '.' {
        Some(k)
    } else {
        last_dot_dot(s, k - 1)
    }
}

pub proof fn lemma_last_dot_dot(s: Seq<char>, k: int)
    ensures
        last_dot_dot(s, k) matches Some(j) ==> 0 <= j <= k && j + 1 < s.len() && s[j] == '.'
            && s[j + 1] == '.',
    decreases k + 1,
{
    if k >= 0 && !(k + 1 < s.len() && s[k] == '.' && s[k + 1] == '.') {
        lemma_last_dot_dot(s, k - 1);
    }
}

pub proof fn lemma_last_tilde(s: Seq<char>)
    ensures
        last_tilde(s) matches Some(j) ==> 0 <= j < s.len() && s[j] == '~' && forall|i: int|
            j < i < s.len() ==> s[i] != '~',
    decreases s.len(),
{
    if s.len() > 0 && s.last() != '~' {
        lemma_last_tilde(s.drop_last());
        if let Some(j) = last_tilde(s) {
            assert forall|i: int| j < i < s.len() implies s[i] != '~' by {
                if i < s.len() - 1 {
                    assert(s[i] == s.drop_last()[i]);
                }
            }
        }
    }
}

/// `^(.*)\.\.(.*)$`: the text around the last `..` of a one-line text.
pub open spec fn range_match(s: Seq<char>) -> Option<(Seq<char>, Seq<char>)> {
    if !one_line(s) || s.len() < 2 {
        None
    } else {
        match last_dot_dot(s, s.len() - 2) {
            Some(k) => Some((s.subrange(0, k), s.subrange(k + 2, s.len() as int))),
            None => None,
        }
    }
}

/// `^\^(.+)$`: the one-line text after a leading `^`.
pub open spec fn exclude_match(s: Seq<char>) -> Option<Seq<char>> {
    if s.len() >= 2 && s[0] == '^' && one_line(s.subrange(1, s.len() as int)) {
        Some(s.subrange(1, s.len() as int))
    } else {
        None
    }
}

/// `^(.+)\^$`: the one-line text before a trailing `^`.
pub open spec fn parent_match(s: Seq<char>) -> Option<Seq<char>> {
    if s.len() >= 2 && s[s.len() - 1] == '^' && one_line(s.subrange(0, s.len() - 1)) {
        Some(s.subrange(0, s.len() - 1))
    } else {
        None
    }
}

/// The position of the last `~`.
pub open spec fn last_tilde(s: Seq<char>) -> Option<int>
    decreases s.len(),
{
    if s.len() == 0 {
        None
    } else if s.last() == '~' {
        Some(s.len() - 1)
    } else {
        last_tilde(s.drop_last())
    }
}

/// `^(.+)~(\d+)$`: the one-line text before the last `~` and the digits
/// after it.
pub open spec fn ancestor_match(s: Seq<char>) -> Option<(Seq<char>, Seq<char>)> {
    match last_tilde(s) {
        Some(k) => {
            let digits = s.subrange(k + 1, s.len() as int);
            if k >= 1 && digits.len() >= 1 && (forall|i: int|
                0 <= i < digits.len() ==> is_decimal_digit(#[trigger] digits[i])) && one_line(
                s.subrange(0, k),
            ) {
                Some((s.subrange(0, k), digits))
            } else {
                None
            }
        },
        None => None,
    }
}

/// The parsed form of a revision expression, tried in turn as a range (an
/// empty side standing for `HEAD`), an exclusion, a parent, an ancestor
/// (a count too large for a `usize` counting as one), and a reference
/// name; `None` when no form applies.
pub open spec fn parse_revision(s: Seq<char>) -> Option<RevView>
    decreases s.len(),
{
    let range = match range_match(s) {
        Some((a, b)) => {
            proof {
                lemma_last_dot_dot(s, s.len() - 2);
            }
            let ra = if a.len() == 0 {
                Some(RevView::Ref("HEAD"@))
            } else {
                parse_revision(a)
            };
            let rb = if b.len() == 0 {
                Some(RevView::Ref("HEAD"@))
            } else {
                parse_revision(b)
            };
            match (ra, rb) {
                (Some(x), Some(y)) => Some(RevView::Range(Box::new(x), Box::new(y))),
                _ => None,
            }
        },
        None => None,
    };
    if range is Some {
        range
    } else if let Some(r) = exclude_match(s) {
        match parse_revision(r) {
            Some(x) => Some(RevView::Exclude(Box::new(x))),
            None => None,
        }
    } else if let Some(r) = parent_match(s) {
        match parse_revision(r) {
            Some(x) => Some(RevView::Parent(Box::new(x))),
            None => None,
        }
    } else if let Some((r, digits)) = ancestor_match(s) {
        proof {
            lemma_last_tilde(s);
        }
        let n = match parse_unsigned(digits, 10, usize::MAX as nat) {
            Some(v) => v,
            None => 1,
        };
        match parse_revision(r) {
            Some(x) => Some(RevView::Ancestor(Box::new(x), n)),
            None => None,
        }
    } else if !invalid_ref_name(s) {
        Some(RevView::Ref(if s == "@"@ { "HEAD"@ } else { s }))
    } else {
        None
    }
}

/// An optional parse as values.
pub open spec fn opt_rev_view(n: Option<RevisionNode>) -> Option<RevView> {
    match n {
        Some(x) => Some(rev_view(x)),
        None => None,
    }
}

/// `HEAD` parses as the reference `HEAD`, which is what an empty side of a
/// range stands for.
pub proof fn lemma_head_parses()
    ensures
        parse_revision("HEAD"@) == Some(RevView::Ref("HEAD"@)),
{
    reveal_strlit("HEAD");
    reveal_strlit("@");
    let s = "HEAD"@;
    assert(last_dot_dot(s, 2) is None) by {
        reveal_with_fuel(last_dot_dot, 4);
    }
    assert(last_tilde(s) is None) by {
        reveal_with_fuel(last_tilde, 5);
    }
    assert(!invalid_ref_name(s)) by {
        reveal_strlit("/.");
        reveal_strlit("..");
        reveal_strlit(".lock");
        reveal_strlit("@{");
        assert(!crate::text::contains_seq(s, "/."@)) by {
            assert forall|i: int| !crate::text::occurs_at(s, "/."@, i) by {
                if 0 <= i && i + 2 <= s.len() {
                    assert(s.subrange(i, i + 2)[0] == s[i]);
                }
            }
        }
        assert(!crate::text::contains_seq(s, ".."@)) by {
            assert forall|i: int| !crate::text::occurs_at(s, ".."@, i) by {
                if 0 <= i && i + 2 <= s.len() {
                    assert(s.subrange(i, i + 2)[0] == s[i]);
                }
            }
        }
        assert(!crate::text::contains_seq(s, "@{"@)) by {
            assert forall|i: int| !crate::text::occurs_at(s, "@{"@, i) by {
                if 0 <= i && i + 2 <= s.len() {
                    assert(s.subrange(i, i + 2)[0] == s[i]);
                }
            }
        }
        assert(!crate::text::is_suffix(".lock"@, s));
    }
}

/// A revision expression and its parse, with the errors met while
/// resolving it.
pub struct Revision {
    expr: String,
    query: Option<RevisionNode>,
    pub errors: Vec<HintedError>,
}

/// An error with lines that help the user fix it.
pub struct HintedError {
    pub message: String,
    pub hint: Vec<String>,
}

impl Revision {
    /// The expression.
    pub closed spec fn expr_view(&self) -> Seq<char> {
        self.expr@
    }

    /// How many errors were met.
    pub closed spec fn errors_count(&self) -> nat {
        self.errors@.len()
    }

    /// The parse of the expression.
    pub closed spec fn query_view(&self) -> Option<RevView> {
        opt_rev_view(self.query)
    }

    /// A revision for an expression, parsed, with no errors yet.
    pub fn new(expression: &str) -> (r: Revision)
        ensures
            r.expr_view() == expression@,
            r.query_view() == parse_revision(expression@),
            r.errors_count() == 0,
    {
        let expr = expression.to_owned();
        let query = Self::parse(expression);
        Revision { expr, query, errors: Vec::new() }
    }

    /// The parsed form of the expression, if it has one.
    pub fn query(&self) -> (r: Option<RevisionNode>)
        ensures
            opt_rev_view(r) == self.query_view(),
    {
        match &self.query {
            Some(n) => Some(copy_node(n)),
            None => None,
        }
    }

    /// Parses a revision expression.
    pub fn parse(revision: &str) -> (r: Option<RevisionNode>)
        ensures
            opt_rev_view(r) == parse_revision(revision@),
        decreases revision@.len(),
    {
        let s = chars_of(revision);
        let ghost sv = s@;
        if let Some((a, b)) = split_range(s.as_slice()) {
            let ra = if a.len() == 0 {
                proof {
                    lemma_head_parses();
                }
                Some(RevisionNode::Ref(HEAD.to_owned()))
            } else {
                let t = string_from_chars(a.as_slice());
                Self::parse(t.as_str())
            };
            let rb = if b.len() == 0 {
                Some(RevisionNode::Ref(HEAD.to_owned()))
            } else {
                let t = string_from_chars(b.as_slice());
                Self::parse(t.as_str())
            };
            assert(range_match(sv) == Some((a@, b@)));
            assert(opt_rev_view(ra) == (if a@.len() == 0 {
                Some(RevView::Ref("HEAD"@))
            } else {
                parse_revision(a@)
            }));
            assert(opt_rev_view(rb) == (if b@.len() == 0 {
                Some(RevView::Ref("HEAD"@))
            } else {
                parse_revision(b@)
            }));
            match (ra, rb) {
                (Some(x), Some(y)) => {
                    let r = RevisionNode::Range(Box::new(x), Box::new(y));
                    assert(rev_view(r) == RevView::Range(Box::new(rev_view(x)), Box::new(rev_view(y))));
                    return Some(r);
                },
                _ => {},
            }
        }
        assert(parse_revision(sv) == (if exclude_match(sv) is Some {
            match parse_revision(exclude_match(sv)->0) {
                Some(x) => Some(RevView::Exclude(Box::new(x))),
                None => None,
            }
        } else if parent_match(sv) is Some {
            match parse_revision(parent_match(sv)->0) {
                Some(x) => Some(RevView::Parent(Box::new(x))),
                None => None,
            }
        } else if ancestor_match(sv) is Some {
            let (r, digits) = ancestor_match(sv)->0;
            let n = match parse_unsigned(digits, 10, usize::MAX as nat) {
                Some(v) => v,
                None => 1,
            };
            match parse_revision(r) {
                Some(x) => Some(RevView::Ancestor(Box::new(x), n)),
                None => None,
            }
        } else if !invalid_ref_name(sv) {
            Some(RevView::Ref(if sv == "@"@ { "HEAD"@ } else { sv }))
        } else {
            None
        }));
        if let Some(rest) = split_exclude(s.as_slice()) {
            let t = string_from_chars(rest.as_slice());
            return match Self::parse(t.as_str()) {
                Some(x) => Some(RevisionNode::Exclude(Box::new(x))),
                None => None,
            };
        }
        if let Some(rest) = split_parent(s.as_slice()) {
            let t = string_from_chars(rest.as_slice());
            return match Self::parse(t.as_str()) {
                Some(x) => Some(RevisionNode::Parent(Box::new(x))),
                None => None,
            };
        }
        if let Some((rest, digits)) = split_ancestor(s.as_slice()) {
            let n: usize = match parse_unsigned_chars(digits.as_slice(), 10, usize::MAX as u64) {
                Some(v) => v as usize,
                None => 1,
            };
            let t = string_from_chars(rest.as_slice());
            return match Self::parse(t.as_str()) {
                Some(x) => Some(RevisionNode::Ancestor(Box::new(x), n)),
                None => None,
            };
        }
        if !is_invalid_ref_name(s.as_slice()) {
            let name = if str_eq(revision, "@") {
                HEAD.to_owned()
            } else {
                revision.to_owned()
            };
            return Some(RevisionNode::Ref(name));
        }
        None
    }
}

/// A copy of a parsed expression.
fn copy_node(n: &RevisionNode) -> (r: RevisionNode)
    ensures
        rev_view(r) == rev_view(*n),
    decreases n,
{
    match n {
        RevisionNode::Ref(s) => RevisionNode::Ref(s.clone()),
        RevisionNode::Parent(x) => RevisionNode::Parent(Box::new(copy_node(x))),
        RevisionNode::Ancestor(x, k) => RevisionNode::Ancestor(Box::new(copy_node(x)), *k),
        RevisionNode::Range(a, b) => RevisionNode::Range(
            Box::new(copy_node(a)),
            Box::new(copy_node(b)),
        ),
        RevisionNode::Exclude(x) => RevisionNode::Exclude(Box::new(copy_node(x))),
    }
}

/// Whether a text holds no line break.
fn is_one_line(s: &[char], from: usize, to: usize) -> (r: bool)
    requires
        from <= to <= s.len(),
    ensures
        r == one_line(s@.subrange(from as int, to as int)),
{
    let mut i = from;
    while i < to
        invariant
            from <= i <= to <= s.len(),
            forall|j: int| from <= j < i ==> s@[j] != '\n',
        decreases to - i,
    {
        if s[i] == '\n' {
            assert(s@.subrange(from as int, to as int)[i - from] == '\n');
            return false;
        }
        i += 1;
    }
    assert forall|j: int| 0 <= j < to - from implies #[trigger] s@.subrange(
        from as int,
        to as int,
    )[j] != '\n' by {
        assert(s@.subrange(from as int, to as int)[j] == s@[from + j]);
    }
    true
}

/// The two sides of `A..B`.
fn split_range(s: &[char]) -> (r: Option<(Vec<char>, Vec<char>)>)
    ensures
        match (r, range_match(s@)) {
            (Some((a, b)), Some((x, y))) => a@ == x && b@ == y,
            (None, None) => true,
            _ => false,
        },
        r matches Some((a, b)) ==> a@.len() < s@.len() && b@.len() < s@.len(),
{
    if s.len() < 2 {
        return None;
    }
    if !is_one_line(s, 0, s.len()) {
        assert(s@.subrange(0, s@.len() as int) =~= s@);
        return None;
    }
    assert(s@.subrange(0, s@.len() as int) =~= s@);
    let mut k: usize = s.len() - 2;
    loop
        invariant
            s.len() >= 2,
            one_line(s@),
            k <= s.len() - 2,
            last_dot_dot(s@, k as int) == last_dot_dot(s@, s.len() - 2),
        decreases k,
    {
        if s[k] == '.' && s[k + 1] == '.' {
            let a = slice_chars(s, 0, k);
            let b = slice_chars(s, k + 2, s.len());
            return Some((a, b));
        }
        if k == 0 {
            assert(last_dot_dot(s@, -1) is None);
            return None;
        }
        k -= 1;
    }
}

/// The text after the `^` of `^A`.
fn split_exclude(s: &[char]) -> (r: Option<Vec<char>>)
    ensures
        match (r, exclude_match(s@)) {
            (Some(a), Some(x)) => a@ == x && a@.len() < s@.len(),
            (None, None) => true,
            _ => false,
        },
{
    if s.len() >= 2 && s[0] == '^' && is_one_line(s, 1, s.len()) {
        Some(slice_chars(s, 1, s.len()))
    } else {
        None
    }
}

/// The text before the `^` of `A^`.
fn split_parent(s: &[char]) -> (r: Option<Vec<char>>)
    ensures
        match (r, parent_match(s@)) {
            (Some(a), Some(x)) => a@ == x && a@.len() < s@.len(),
            (None, None) => true,
            _ => false,
        },
{
    if s.len() >= 2 && s[s.len() - 1] == '^' && is_one_line(s, 0, s.len() - 1) {
        Some(slice_chars(s, 0, s.len() - 1))
    } else {
        None
    }
}

/// The text before the last `~` of `A~N` and the digits after it.
fn split_ancestor(s: &[char]) -> (r: Option<(Vec<char>, Vec<char>)>)
    ensures
        match (r, ancestor_match(s@)) {
            (Some((a, d)), Some((x, y))) => a@ == x && d@ == y && a@.len() < s@.len(),
            (None, None) => true,
            _ => false,
        },
{
    let mut k: usize = s.len();
    assert(s@.subrange(0, s.len() as int) =~= s@);
    while k > 0 && s[k - 1] != '~'
        invariant
            k <= s.len(),
            last_tilde(s@.subrange(0, k as int)) == last_tilde(s@),
        decreases k,
    {
        assert(s@.subrange(0, k as int).drop_last() =~= s@.subrange(0, k - 1));
        k -= 1;
    }
    assert(s@.subrange(0, s.len() as int) =~= s@);
    if k == 0 {
        assert(s@.subrange(0, 0) =~= Seq::<char>::empty());
        return None;
    }
    let t = k - 1;
    assert(last_tilde(s@) == Some(t as int));
    if t < 1 || t + 1 >= s.len() {
        return None;
    }
    let digits = slice_chars(s, t + 1, s.len());
    let mut i: usize = 0;
    while i < digits.len()
        invariant
            i <= digits.len(),
            1 <= t,
            t + 1 < s.len(),
            digits@ == s@.subrange(t + 1, s.len() as int),
            last_tilde(s@) == Some(t as int),
            forall|j: int| 0 <= j < i ==> is_decimal_digit(#[trigger] digits@[j]),
        decreases digits.len() - i,
    {
        if !decimal_digit(digits[i]) {
            assert(!(forall|j: int|
                0 <= j < digits@.len() ==> is_decimal_digit(#[trigger] digits@[j])));
            return None;
        }
        i += 1;
    }
    if !is_one_line(s, 0, t) {
        return None;
    }
    Some((slice_chars(s, 0, t), digits))
}


/// An object as resolution reads it: its id, its type, its first parent
/// (for a commit that has one) and, for a commit with an author, the
/// `<date> - <title>` shown when an abbreviated id is ambiguous.
#[derive(Debug, Clone)]
pub struct ObjectInfo {
    pub oid: String,
    pub kind: String,
    pub parent: Option<String>,
    pub summary: Option<String>,
}

/// What resolution reads of a repository: the id HEAD reads as (through
/// one `ref: `), the branches with the ids their files hold, and the
/// objects of the database.
#[derive(Debug, Clone)]
pub struct RepoState {
    pub head: Option<String>,
    pub branches: Vec<(String, String)>,
    pub objects: Vec<ObjectInfo>,
}

/// An error as its message and hint lines.
pub open spec fn hinted_view(e: HintedError) -> (Seq<char>, Seq<Seq<char>>) {
    (e.message@, strings_view(e.hint@))
}

/// The id a branch file holds, the first listed for the name.
pub open spec fn branch_id(bs: Seq<(String, String)>, name: Seq<char>) -> Option<Seq<char>>
    decreases bs.len(),
{
    if bs.len() == 0 {
        None
    } else if bs[0].0@ == name {
        Some(bs[0].1@)
    } else {
        branch_id(bs.drop_first(), name)
    }
}

/// The first object with an id.
pub open spec fn find_object(objs: Seq<ObjectInfo>, oid: Seq<char>) -> Option<ObjectInfo>
    decreases objs.len(),
{
    if objs.len() == 0 {
        None
    } else if objs[0].oid@ == oid {
        Some(objs[0])
    } else {
        find_object(objs.drop_first(), oid)
    }
}

/// The ids of the objects that start with a name, when the name is
/// hexadecimal and at least two digits long.
pub open spec fn candidates(objs: Seq<ObjectInfo>, name: Seq<char>) -> Seq<Seq<char>>
    decreases objs.len(),
{
    if !all_hex(name) || name.len() < 2 || objs.len() == 0 {
        seq![]
    } else {
        candidates(objs.drop_last(), name) + if is_prefix(name, objs.last().oid@) {
            seq![objs.last().oid@]
        } else {
            seq![]
        }
    }
}

/// The line shown for a candidate of an ambiguous id: its first seven
/// bytes, its type and, for a commit with an author, its summary.
pub open spec fn candidate_line(objs: Seq<ObjectInfo>, oid: Seq<char>) -> Seq<char> {
    match find_object(objs, oid) {
        Some(o) => byte_prefix_view(oid, 7) + " "@ + o.kind@ + match o.summary {
            Some(t) => if o.kind@ == "commit"@ {
                " "@ + t@
            } else {
                seq![]
            },
            None => seq![],
        },
        None => seq![],
    }
}

/// The lines shown for the candidates.
pub open spec fn candidate_lines(objs: Seq<ObjectInfo>, cs: Seq<Seq<char>>) -> Seq<Seq<char>>
    decreases cs.len(),
{
    if cs.len() == 0 {
        seq![]
    } else {
        candidate_lines(objs, cs.drop_last()).push(candidate_line(objs, cs.last()))
    }
}

/// The error recorded for an ambiguous abbreviated id.
pub open spec fn ambiguous_error(objs: Seq<ObjectInfo>, name: Seq<char>, cs: Seq<Seq<char>>) -> (
    Seq<char>,
    Seq<Seq<char>>,
) {
    (
        "short SHA1 "@ + name + " is ambiguous"@,
        seq!["The candidates are:"@] + candidate_lines(objs, cs),
    )
}

/// The error recorded for an object of another type than expected.
pub open spec fn type_error(oid: Seq<char>, kind: Seq<char>, expected: Seq<char>) -> (
    Seq<char>,
    Seq<Seq<char>>,
) {
    ("object "@ + oid + " is a "@ + kind + ", not a "@ + expected, seq![])
}

/// What a name reads as: HEAD's id for `HEAD` when it can be read, else the
/// branch of that name, else the single object whose id starts with it; an
/// ambiguous id records an error.
pub open spec fn read_ref_step(st: RepoState, name: Seq<char>, errs: Seq<(Seq<char>, Seq<Seq<char>>)>) -> (
    Option<Seq<char>>,
    Seq<(Seq<char>, Seq<Seq<char>>)>,
) {
    if name == "HEAD"@ && st.head is Some {
        (Some(st.head->0@), errs)
    } else {
        match branch_id(st.branches@, name) {
            Some(id) => (Some(id), errs),
            None => {
                let cs = candidates(st.objects@, name);
                if cs.len() == 1 {
                    (Some(cs[0]), errs)
                } else if cs.len() == 0 {
                    (None, errs)
                } else {
                    (None, errs.push(ambiguous_error(st.objects@, name, cs)))
                }
            },
        }
    }
}

/// The parent of a commit; an object of another type records an error.
pub open spec fn parent_step(st: RepoState, oid: Seq<char>, errs: Seq<(Seq<char>, Seq<Seq<char>>)>) -> (
    Option<Seq<char>>,
    Seq<(Seq<char>, Seq<Seq<char>>)>,
) {
    if oid.len() == 0 {
        (None, errs)
    } else {
        match find_object(st.objects@, oid) {
            None => (None, errs),
            Some(o) => if o.kind@ != "commit"@ {
                (None, errs.push(type_error(oid, o.kind@, "commit"@)))
            } else {
                match o.parent {
                    Some(p) => (Some(p@), errs),
                    None => (None, errs),
                }
            },
        }
    }
}

/// The `n`-th first-parent ancestor.
pub open spec fn ancestor_steps(
    st: RepoState,
    oid: Seq<char>,
    n: nat,
    errs: Seq<(Seq<char>, Seq<Seq<char>>)>,
) -> (Option<Seq<char>>, Seq<(Seq<char>, Seq<Seq<char>>)>)
    decreases n,
{
    if n == 0 {
        (Some(oid), errs)
    } else {
        match parent_step(st, oid, errs) {
            (Some(p), e) => ancestor_steps(st, p, (n - 1) as nat, e),
            (None, e) => (None, e),
        }
    }
}

/// What an expression resolves to, with the errors recorded on the way: a
/// range gives its end (once its start resolves), an exclusion what it
/// excludes.
pub open spec fn resolve_step(st: RepoState, node: RevView, errs: Seq<(Seq<char>, Seq<Seq<char>>)>) -> (
    Option<Seq<char>>,
    Seq<(Seq<char>, Seq<Seq<char>>)>,
)
    decreases node,
{
    match node {
        RevView::Ref(name) => read_ref_step(st, name, errs),
        RevView::Parent(b) => match resolve_step(st, *b, errs) {
            (Some(o), e) => parent_step(st, o, e),
            (None, e) => (None, e),
        },
        RevView::Ancestor(b, n) => match resolve_step(st, *b, errs) {
            (Some(o), e) => ancestor_steps(st, o, n, e),
            (None, e) => (None, e),
        },
        RevView::Range(a, b) => match resolve_step(st, *a, errs) {
            (Some(_), e) => resolve_step(st, *b, e),
            (None, e) => (None, e),
        },
        RevView::Exclude(b) => resolve_step(st, *b, errs),
    }
}

/// `A~1` resolves as `A^` does, and `A~0` as `A` does.
pub proof fn lemma_ancestor_one_is_parent(
    st: RepoState,
    b: RevView,
    errs: Seq<(Seq<char>, Seq<Seq<char>>)>,
)
    ensures
        resolve_step(st, RevView::Ancestor(Box::new(b), 1), errs) == resolve_step(
            st,
            RevView::Parent(Box::new(b)),
            errs,
        ),
        resolve_step(st, RevView::Ancestor(Box::new(b), 0), errs) == resolve_step(st, b, errs),
{
    match resolve_step(st, b, errs) {
        (Some(o), e) => {
            assert(ancestor_steps(st, o, 1, e) == match parent_step(st, o, e) {
                (Some(p), e2) => ancestor_steps(st, p, 0, e2),
                (None, e2) => (None, e2),
            });
        },
        (None, e) => {},
    }
}

/// Going back `m + n` first parents is going back `m`, then `n` more.
pub proof fn lemma_ancestor_steps_compose(
    st: RepoState,
    oid: Seq<char>,
    m: nat,
    n: nat,
    errs: Seq<(Seq<char>, Seq<Seq<char>>)>,
)
    ensures
        ancestor_steps(st, oid, m + n, errs) == match ancestor_steps(st, oid, m, errs) {
            (Some(x), e) => ancestor_steps(st, x, n, e),
            (None, e) => (None, e),
        },
    decreases m,
{
    if m > 0 {
        match parent_step(st, oid, errs) {
            (Some(p), e) => {
                lemma_ancestor_steps_compose(st, p, (m - 1) as nat, n, e);
                assert((m + n - 1) as nat == ((m - 1) as nat + n) as nat);
            },
            (None, e) => {},
        }
    }
}

/// Every object id can be cut after seven bytes, as the lines for an
/// ambiguous id cut them.
pub open spec fn state_ok(st: RepoState) -> bool {
    forall|i: int|
        0 <= i < st.objects@.len() ==> {
            let o = #[trigger] st.objects@[i];
            &&& encode_utf8(o.oid@).len() <= usize::MAX
            &&& (encode_utf8(o.oid@).len() >= 7 ==> is_char_boundary(encode_utf8(o.oid@), 7))
        }
}

/// What resolving to a type gives: the id when the expression resolves to
/// an object of that type, else the message of the failure.
pub open spec fn resolve_outcome(
    st: RepoState,
    expr: Seq<char>,
    query: Option<RevView>,
    expected: Seq<char>,
    errs: Seq<(Seq<char>, Seq<Seq<char>>)>,
) -> (Result<Seq<char>, Seq<char>>, Seq<(Seq<char>, Seq<Seq<char>>)>) {
    let invalid = "Not a valid object name: '"@ + expr + "'"@;
    match query {
        None => (Err(invalid), errs),
        Some(q) => match resolve_step(st, q, errs) {
            (None, e) => (Err(invalid), e),
            (Some(oid), e) => match find_object(st.objects@, oid) {
                None => (Err("Object not found: "@ + oid), e),
                Some(o) => if o.kind@ == expected {
                    (Ok(oid), e)
                } else {
                    (Err(invalid), e.push(type_error(oid, o.kind@, expected)))
                },
            },
        },
    }
}

proof fn lemma_find_object(objs: Seq<ObjectInfo>, oid: Seq<char>)
    ensures
        find_object(objs, oid) matches Some(o) ==> o.oid@ == oid && objs.contains(o),
    decreases objs.len(),
{
    if objs.len() > 0 && objs[0].oid@ != oid {
        lemma_find_object(objs.drop_first(), oid);
        if find_object(objs.drop_first(), oid) is Some {
            let o = find_object(objs.drop_first(), oid)->0;
            let k = choose|k: int| 0 <= k < objs.drop_first().len() && objs.drop_first()[k] == o;
            assert(objs[k + 1] == o);
        }
    } else if objs.len() > 0 {
        assert(objs[0] == objs[0]);
    }
}

proof fn lemma_candidate_found(objs: Seq<ObjectInfo>, name: Seq<char>, i: int)
    requires
        0 <= i < candidates(objs, name).len(),
    ensures
        find_object(objs, candidates(objs, name)[i]) is Some,
    decreases objs.len(),
{
    let c = candidates(objs, name);
    let rest = candidates(objs.drop_last(), name);
    if i < rest.len() {
        lemma_candidate_found(objs.drop_last(), name, i);
        lemma_find_prefix(objs.drop_last(), objs.last(), rest[i]);
        assert(objs.drop_last().push(objs.last()) =~= objs);
    } else {
        lemma_find_some(objs, objs.len() - 1);
    }
}

proof fn lemma_find_prefix(objs: Seq<ObjectInfo>, x: ObjectInfo, oid: Seq<char>)
    requires
        find_object(objs, oid) is Some,
    ensures
        find_object(objs.push(x), oid) == find_object(objs, oid),
    decreases objs.len(),
{
    if objs[0].oid@ != oid {
        lemma_find_prefix(objs.drop_first(), x, oid);
        assert(objs.push(x).drop_first() =~= objs.drop_first().push(x));
    }
}

proof fn lemma_find_some(objs: Seq<ObjectInfo>, k: int)
    requires
        0 <= k < objs.len(),
    ensures
        find_object(objs, objs[k].oid@) is Some,
    decreases objs.len(),
{
    if objs[0].oid@ != objs[k].oid@ {
        lemma_find_some(objs.drop_first(), k - 1);
    }
}

/// The first object with an id, by position.
fn find_object_at(objs: &Vec<ObjectInfo>, oid: &str) -> (r: Option<usize>)
    ensures
        match r {
            Some(i) => i < objs.len() && find_object(objs@, oid@) == Some(objs@[i as int]),
            None => find_object(objs@, oid@) is None,
        },
{
    let mut i: usize = 0;
    assert(objs@.skip(0) =~= objs@);
    while i < objs.len()
        invariant
            i <= objs.len(),
            find_object(objs@, oid@) == find_object(objs@.skip(i as int), oid@),
        decreases objs.len() - i,
    {
        assert(objs@.skip(i as int).drop_first() =~= objs@.skip(i + 1));
        if str_eq(objs[i].oid.as_str(), oid) {
            return Some(i);
        }
        i += 1;
    }
    None
}

/// The id a branch file holds.
fn branch_lookup(bs: &Vec<(String, String)>, name: &str) -> (r: Option<String>)
    ensures
        match r {
            Some(id) => branch_id(bs@, name@) == Some(id@),
            None => branch_id(bs@, name@) is None,
        },
{
    let mut i: usize = 0;
    assert(bs@.skip(0) =~= bs@);
    while i < bs.len()
        invariant
            i <= bs.len(),
            branch_id(bs@, name@) == branch_id(bs@.skip(i as int), name@),
        decreases bs.len() - i,
    {
        assert(bs@.skip(i as int).drop_first() =~= bs@.skip(i + 1));
        if str_eq(bs[i].0.as_str(), name) {
            return Some(clone_string(&bs[i].1));
        }
        i += 1;
    }
    None
}

/// The ids of the objects that start with a name.
fn candidates_of(objs: &Vec<ObjectInfo>, name: &str) -> (r: Vec<String>)
    ensures
        strings_view(r@) == candidates(objs@, name@),
{
    let n = chars_of(name);
    let mut r: Vec<String> = Vec::new();
    if !hex_only(n.as_slice()) || n.len() < 2 {
        proof {
            if objs@.len() > 0 {
                assert(candidates(objs@, name@) =~= Seq::<Seq<char>>::empty());
            }
        }
        assert(strings_view(r@) =~= Seq::<Seq<char>>::empty());
        return r;
    }
    let mut i: usize = 0;
    assert(objs@.take(0) =~= Seq::<ObjectInfo>::empty());
    assert(strings_view(r@) =~= Seq::<Seq<char>>::empty());
    while i < objs.len()
        invariant
            i <= objs.len(),
            n@ == name@,
            all_hex(name@),
            name@.len() >= 2,
            strings_view(r@) == candidates(objs@.take(i as int), name@),
        decreases objs.len() - i,
    {
        assert(objs@.take(i + 1).drop_last() =~= objs@.take(i as int));
        let ghost before = strings_view(r@);
        let o = chars_of(objs[i].oid.as_str());
        if starts_with(o.as_slice(), n.as_slice()) {
            r.push(clone_string(&objs[i].oid));
            assert(strings_view(r@) =~= before + seq![objs@[i as int].oid@]);
        } else {
            assert(strings_view(r@) =~= before + Seq::<Seq<char>>::empty());
        }
        i += 1;
    }
    assert(objs@.take(i as int) =~= objs@);
    r
}

impl Revision {
    /// The errors as messages and hint lines.
    pub closed spec fn errors_view(&self) -> Seq<(Seq<char>, Seq<Seq<char>>)> {
        self.errors@.map_values(|e: HintedError| hinted_view(e))
    }

    /// Records an error.
    fn record(&mut self, message: String, hint: Vec<String>)
        ensures
            final(self).errors_view() == old(self).errors_view().push((message@, strings_view(hint@))),
            final(self).expr_view() == old(self).expr_view(),
            final(self).query_view() == old(self).query_view(),
    {
        let ghost e0 = self.errors_view();
        self.errors.push(HintedError { message, hint });
        assert(self.errors_view() =~= e0.push((message@, strings_view(hint@))));
    }

    /// Records that an abbreviated id is ambiguous, with a line for each
    /// candidate.
    fn log_ambiguous_sha1(&mut self, st: &RepoState, name: &str, cs: &Vec<String>)
        requires
            state_ok(*st),
            forall|i: int| 0 <= i < cs@.len() ==> find_object(st.objects@, #[trigger] cs@[i]@) is Some,
        ensures
            final(self).errors_view() == old(self).errors_view().push(
                ambiguous_error(st.objects@, name@, strings_view(cs@)),
            ),
            final(self).expr_view() == old(self).expr_view(),
            final(self).query_view() == old(self).query_view(),
    {
        let mut message = String::new();
        push_str(&mut message, "short SHA1 ");
        push_str(&mut message, name);
        push_str(&mut message, " is ambiguous");
        let mut hints: Vec<String> = Vec::new();
        hints.push("The candidates are:".to_owned());
        let ghost cv = strings_view(cs@);
        let mut i: usize = 0;
        assert(cv.take(0) =~= Seq::<Seq<char>>::empty());
        assert(strings_view(hints@) =~= seq!["The candidates are:"@] + candidate_lines(
            st.objects@,
            cv.take(0),
        ));
        while i < cs.len()
            invariant
                i <= cs.len(),
                cv == strings_view(cs@),
                state_ok(*st),
                forall|i: int| 0 <= i < cs@.len() ==> find_object(st.objects@, #[trigger] cs@[i]@) is Some,
                strings_view(hints@) == seq!["The candidates are:"@] + candidate_lines(
                    st.objects@,
                    cv.take(i as int),
                ),
            decreases cs.len() - i,
        {
            assert(cv.take(i + 1).drop_last() =~= cv.take(i as int));
            assert(cv.take(i + 1).last() == cs@[i as int]@);
            let k = find_object_at(&st.objects, cs[i].as_str());
            let ghost before = strings_view(hints@);
            match k {
                Some(j) => {
                    let o = &st.objects[j];
                    proof {
                        lemma_find_object(st.objects@, cs@[i as int]@);
                    }
                    assert(o.oid@ == cs@[i as int]@);
                    let mut line = String::new();
                    push_str(&mut line, byte_prefix(o.oid.as_str(), 7));
                    push_str(&mut line, " ");
                    push_str(&mut line, o.kind.as_str());
                    match &o.summary {
                        Some(t) => {
                            if str_eq(o.kind.as_str(), "commit") {
                                push_str(&mut line, " ");
                                push_str(&mut line, t.as_str());
                            }
                        },
                        None => {},
                    }
                    assert(find_object(st.objects@, cs@[i as int]@) == Some(st.objects@[j as int]));
                    assert(line@ == candidate_line(st.objects@, cs@[i as int]@));
                    hints.push(line);
                    assert(strings_view(hints@) =~= before.push(
                        candidate_line(st.objects@, cs@[i as int]@),
                    ));
                },
                None => {
                    hints.push(String::new());
                    assert(strings_view(hints@) =~= before.push(
                        candidate_line(st.objects@, cs@[i as int]@),
                    ));
                },
            }
            i += 1;
        }
        assert(cv.take(i as int) =~= cv);
        self.record(message, hints);
    }

    /// What a name reads as: HEAD's id, a branch's, or the single object
    /// whose id starts with the name.
    fn read_ref(&mut self, st: &RepoState, name: &str) -> (r: Result<String, Error>)
        requires
            state_ok(*st),
        ensures
            final(self).errors_view() == read_ref_step(*st, name@, old(self).errors_view()).1,
            match read_ref_step(*st, name@, old(self).errors_view()).0 {
                Some(id) => r matches Ok(x) && x@ == id,
                None => r is Err,
            },
            final(self).expr_view() == old(self).expr_view(),
            final(self).query_view() == old(self).query_view(),
    {
        proof {
            reveal_strlit("HEAD");
        }
        if str_eq(name, HEAD) {
            match &st.head {
                Some(h) => return Ok(clone_string(h)),
                None => {},
            }
        }
        match branch_lookup(&st.branches, name) {
            Some(id) => return Ok(id),
            None => {},
        }
        let cs = candidates_of(&st.objects, name);
        proof {
            assert forall|i: int| 0 <= i < cs@.len() implies find_object(
                st.objects@,
                #[trigger] cs@[i]@,
            ) is Some by {
                lemma_candidate_found(st.objects@, name@, i);
            }
        }
        let mut m = String::new();
        push_str(&mut m, "Not a valid object name: '");
        push_str(&mut m, name);
        push_str(&mut m, "'");
        if cs.len() == 1 {
            Ok(clone_string(&cs[0]))
        } else if cs.len() == 0 {
            Err(Error::Generic(m))
        } else {
            self.log_ambiguous_sha1(st, name, &cs);
            Err(Error::Generic(m))
        }
    }

    /// The parent of a commit.
    fn commit_parent(&mut self, st: &RepoState, oid: &str) -> (r: Result<String, Error>)
        ensures
            final(self).errors_view() == parent_step(*st, oid@, old(self).errors_view()).1,
            match parent_step(*st, oid@, old(self).errors_view()).0 {
                Some(p) => r matches Ok(x) && x@ == p,
                None => r is Err,
            },
            final(self).expr_view() == old(self).expr_view(),
            final(self).query_view() == old(self).query_view(),
    {
        let j = self.load_typed_object(st, oid, COMMIT)?;
        match &st.objects[j].parent {
            Some(p) => Ok(clone_string(p)),
            None => {
                let mut m = String::new();
                push_str(&mut m, "Commit '");
                push_str(&mut m, oid);
                push_str(&mut m, "' has no parent");
                Err(Error::Generic(m))
            },
        }
    }

    /// The position of an object of the expected type; another type
    /// records an error.
    fn load_typed_object(&mut self, st: &RepoState, oid: &str, expected: &str) -> (r: Result<
        usize,
        Error,
    >)
        ensures
            final(self).expr_view() == old(self).expr_view(),
            final(self).query_view() == old(self).query_view(),
            oid@.len() == 0 ==> r is Err && final(self).errors_view() == old(self).errors_view(),
            oid@.len() > 0 ==> match find_object(st.objects@, oid@) {
                None => r is Err && final(self).errors_view() == old(self).errors_view(),
                Some(o) => if o.kind@ == expected@ {
                    r matches Ok(j) && j < st.objects@.len() && st.objects@[j as int] == o
                        && final(self).errors_view() == old(self).errors_view()
                } else {
                    r is Err && final(self).errors_view() == old(self).errors_view().push(
                        type_error(oid@, o.kind@, expected@),
                    )
                },
            },
    {
        if chars_of(oid).len() == 0 {
            return Err(Error::Generic("Empty object ID".to_owned()));
        }
        match find_object_at(&st.objects, oid) {
            None => {
                let mut m = String::new();
                push_str(&mut m, "Object not found: ");
                push_str(&mut m, oid);
                Err(Error::Generic(m))
            },
            Some(j) => {
                let o = &st.objects[j];
                if !str_eq(o.kind.as_str(), expected) {
                    let mut message = String::new();
                    push_str(&mut message, "object ");
                    push_str(&mut message, oid);
                    push_str(&mut message, " is a ");
                    push_str(&mut message, o.kind.as_str());
                    push_str(&mut message, ", not a ");
                    push_str(&mut message, expected);
                    self.record(message, Vec::new());
                    proof {
                        assert(strings_view(Seq::<String>::empty()) =~= Seq::<Seq<char>>::empty());
                    }
                    let mut m = String::new();
                    push_str(&mut m, "Not a valid ");
                    push_str(&mut m, expected);
                    push_str(&mut m, " object: '");
                    push_str(&mut m, oid);
                    push_str(&mut m, "'");
                    return Err(Error::Generic(m));
                }
                Ok(j)
            },
        }
    }

    /// What a parsed expression resolves to.
    fn resolve_node(&mut self, st: &RepoState, node: &RevisionNode) -> (r: Result<String, Error>)
        requires
            state_ok(*st),
        ensures
            final(self).errors_view() == resolve_step(*st, rev_view(*node), old(self).errors_view()).1,
            match resolve_step(*st, rev_view(*node), old(self).errors_view()).0 {
                Some(x) => r matches Ok(y) && y@ == x,
                None => r is Err,
            },
            final(self).expr_view() == old(self).expr_view(),
            final(self).query_view() == old(self).query_view(),
        decreases node,
    {
        match node {
            RevisionNode::Ref(name) => self.read_ref(st, name.as_str()),
            RevisionNode::Parent(rev) => {
                let oid = self.resolve_node(st, rev)?;
                self.commit_parent(st, oid.as_str())
            },
            RevisionNode::Ancestor(rev, n) => {
                let ghost e0 = self.errors_view();
                let mut oid = self.resolve_node(st, rev)?;
                let ghost e1 = self.errors_view();
                let ghost x0 = oid@;
                let mut k: usize = 0;
                while k < *n
                    invariant
                        k <= *n,
                        e0 == old(self).errors_view(),
                        resolve_step(*st, rev_view(**rev), e0) == (Some(x0), e1),
                        rev_view(*node) == RevView::Ancestor(Box::new(rev_view(**rev)), *n as nat),
                        ancestor_steps(*st, resolve_step(*st, rev_view(**rev), e0).0->0, *n as nat, e1)
                            == ancestor_steps(*st, oid@, (*n - k) as nat, self.errors_view()),
                        self.expr_view() == old(self).expr_view(),
                        self.query_view() == old(self).query_view(),
                    decreases *n - k,
                {
                    let ghost ec = self.errors_view();
                    let ghost cur = oid@;
                    match self.commit_parent(st, oid.as_str()) {
                        Ok(p) => {
                            oid = p;
                        },
                        Err(e) => {
                            assert(ancestor_steps(*st, cur, (*n - k) as nat, ec) == (
                                None::<Seq<char>>,
                                self.errors_view(),
                            ));
                            return Err(e);
                        },
                    }
                    k += 1;
                }
                Ok(oid)
            },
            RevisionNode::Range(start, end) => {
                let _start_oid = self.resolve_node(st, start)?;
                self.resolve_node(st, end)
            },
            RevisionNode::Exclude(rev) => self.resolve_node(st, rev),
        }
    }

    /// Whether an object has the expected type; another type records an
    /// error, a missing object is an error.
    fn verify_object_type(&mut self, st: &RepoState, oid: &str, expected: &str) -> (r: Result<
        bool,
        Error,
    >)
        ensures
            final(self).expr_view() == old(self).expr_view(),
            final(self).query_view() == old(self).query_view(),
            match find_object(st.objects@, oid@) {
                None => r matches Err(Error::Generic(m)) && m@ == "Object not found: "@ + oid@
                    && final(self).errors_view() == old(self).errors_view(),
                Some(o) => if o.kind@ == expected@ {
                    r matches Ok(true) && final(self).errors_view() == old(self).errors_view()
                } else {
                    r matches Ok(false) && final(self).errors_view() == old(self).errors_view().push(
                        type_error(oid@, o.kind@, expected@),
                    )
                },
            },
    {
        match find_object_at(&st.objects, oid) {
            None => {
                let mut m = String::new();
                push_str(&mut m, "Object not found: ");
                push_str(&mut m, oid);
                Err(Error::Generic(m))
            },
            Some(j) => {
                let o = &st.objects[j];
                if !str_eq(o.kind.as_str(), expected) {
                    let mut message = String::new();
                    push_str(&mut message, "object ");
                    push_str(&mut message, oid);
                    push_str(&mut message, " is a ");
                    push_str(&mut message, o.kind.as_str());
                    push_str(&mut message, ", not a ");
                    push_str(&mut message, expected);
                    self.record(message, Vec::new());
                    proof {
                        assert(strings_view(Seq::<String>::empty()) =~= Seq::<Seq<char>>::empty());
                    }
                    return Ok(false);
                }
                Ok(true)
            },
        }
    }

    /// Resolves the expression to the id of an object of the expected
    /// type, reading the repository as `st` gives it.
    pub fn resolve_to_type(&mut self, st: &RepoState, expected_type: &str) -> (r: Result<String, Error>)
        requires
            state_ok(*st),
        ensures
            final(self).errors_view() == resolve_outcome(
                *st,
                old(self).expr_view(),
                old(self).query_view(),
                expected_type@,
                old(self).errors_view(),
            ).1,
            match resolve_outcome(
                *st,
                old(self).expr_view(),
                old(self).query_view(),
                expected_type@,
                old(self).errors_view(),
            ).0 {
                Ok(x) => r matches Ok(y) && y@ == x,
                Err(m) => r matches Err(Error::Generic(e)) && e@ == m,
            },
            final(self).expr_view() == old(self).expr_view(),
            final(self).query_view() == old(self).query_view(),
    {
        let mut invalid = String::new();
        push_str(&mut invalid, "Not a valid object name: '");
        push_str(&mut invalid, self.expr.as_str());
        push_str(&mut invalid, "'");
        match self.query() {
            None => Err(Error::Generic(invalid)),
            Some(node) => {
                match self.resolve_node(st, &node) {
                    Ok(oid) => {
                        if self.verify_object_type(st, oid.as_str(), expected_type)? {
                            Ok(oid)
                        } else {
                            Err(Error::Generic(invalid))
                        }
                    },
                    Err(_) => Err(Error::Generic(invalid)),
                }
            },
        }
    }

    /// Resolves the expression to the id of an object of the expected
    /// type.
    pub fn resolve(&mut self, st: &RepoState, expected_type: &str) -> (r: Result<String, Error>)
        requires
            state_ok(*st),
        ensures
            final(self).errors_view() == resolve_outcome(
                *st,
                old(self).expr_view(),
                old(self).query_view(),
                expected_type@,
                old(self).errors_view(),
            ).1,
            match resolve_outcome(
                *st,
                old(self).expr_view(),
                old(self).query_view(),
                expected_type@,
                old(self).errors_view(),
            ).0 {
                Ok(x) => r matches Ok(y) && y@ == x,
                Err(m) => r matches Err(Error::Generic(e)) && e@ == m,
            },
            final(self).expr_view() == old(self).expr_view(),
            final(self).query_view() == old(self).query_view(),
    {
        self.resolve_to_type(st, expected_type)
    }
}

} // verus!
