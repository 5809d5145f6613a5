//! The working tree: which paths are ignored, and what a path given to
//! `add` stands for in the index.
//!
//! The program around the library walks and reads the directories; the
//! functions here decide on the paths.
use vstd::prelude::*;
use crate::error::Error;
use crate::text::{
    chars_of, clone_string, contains_chars, contains_seq, find_char_in, is_prefix, lines, lines_of,
    push_chars, push_str, replace_char, replace_chars, starts_with, str_eq, string_from_chars,
    strings_view, trim, trim_chars,
};

verus! {

/// What a regular expression, when it compiles, says of a text.
pub uninterp spec fn regex_matches(pattern: Seq<char>, text: Seq<char>) -> Option<bool>;

/// `regex::Regex::new` and `is_match`: whether the pattern matches
/// somewhere in the text, or `None` when it does not compile.
#[verifier::external_body]
fn regex_is_match(pattern: &str, text: &str) -> (r: Option<bool>)
    ensures
        r == regex_matches(pattern@, text@),
{
    match regex::Regex::new(pattern) {
        Ok(re) => Some(re.is_match(text)),
        Err(_) => None,
    }
}

/// The last component of a path, as `Path::file_name` gives it.
pub uninterp spec fn file_name_of(path: Seq<char>) -> Option<Seq<char>>;

/// `std::path::Path::file_name`, as text.
#[verifier::external_body]
fn path_file_name(path: &str) -> (r: Option<String>)
    ensures
        match r {
            Some(n) => file_name_of(path@) == Some(n@),
            None => file_name_of(path@) is None,
        },
{
    match std::path::Path::new(path).file_name() {
        Some(n) => Some(n.to_string_lossy().to_string()),
        None => None,
    }
}

/// A glob turned into a regular expression: `.` escaped, `*` for any run.
pub open spec fn glob_regex(p: Seq<char>) -> Seq<char>
    decreases p.len(),
{
    if p.len() == 0 {
        seq![]
    } else {
        glob_regex(p.drop_last()) + if p.last() == '.' {
            "\\."@
        } else if p.last() == '*' {
            ".*"@
        } else {
            seq![p.last()]
        }
    }
}

/// Whether a path (relative to the working tree, with `/` between its
/// components) matches an ignore pattern: a pattern ending in `/` names a
/// directory and what lies in it; one without `/` names a file anywhere
/// (with `*` for any run of characters); one with `/` names a path from the
/// top (with `*` matching from the start) or what lies below it.
pub open spec fn pattern_matches(path: Seq<char>, pattern: Seq<char>) -> bool {
    if pattern.len() == 0 {
        false
    } else if pattern.last() == '/' {
        let d = pattern.drop_last();
        path == d || is_prefix(d.push('/'), path)
    } else if !contains_seq(pattern, "/"@) {
        ||| file_name_of(path) == Some(pattern)
        ||| contains_seq(pattern, "*"@) && (file_name_of(path) matches Some(f) && regex_matches(
            "^"@ + glob_regex(pattern) + "$"@,
            f,
        ) == Some(true))
    } else if contains_seq(pattern, "*"@) {
        regex_matches("^"@ + glob_regex(pattern), path) == Some(true)
    } else {
        path == pattern || is_prefix(pattern.push('/'), path)
    }
}

/// Whether any of the patterns matches, with `\` read as `/` in both.
pub open spec fn any_pattern_matches(path: Seq<char>, patterns: Seq<Seq<char>>) -> bool {
    exists|i: int|
        0 <= i < patterns.len() && #[trigger] pattern_matches(
            replace_char(path, '\\', '/'),
            replace_char(patterns[i], '\\', '/'),
        )
}

/// The ignore patterns: `.ash`, `.ash/`, `.git`, `.git/`, then the lines of
/// the ignore file, trimmed, that are neither empty nor comments; each
/// once.
pub open spec fn ignore_list(content: Option<Seq<char>>) -> Seq<Seq<char>> {
    let defaults = seq![".ash"@, ".ash/"@, ".git"@, ".git/"@];
    match content {
        Some(c) => with_lines(defaults, lines(c)),
        None => defaults,
    }
}

/// The patterns with the usable lines added, each once.
pub open spec fn with_lines(ps: Seq<Seq<char>>, ls: Seq<Seq<char>>) -> Seq<Seq<char>>
    decreases ls.len(),
{
    if ls.len() == 0 {
        ps
    } else {
        let rest = with_lines(ps, ls.drop_last());
        let t = trim(ls.last());
        if t.len() == 0 || t[0] == '#' || rest.contains(t) {
            rest
        } else {
            rest.push(t)
        }
    }
}

/// A line of the ignore file that gives a pattern: trimmed, it is not
/// empty and not a comment.
pub open spec fn usable_line(l: Seq<char>) -> bool {
    trim(l).len() > 0 && trim(l)[0] != '#'
}

/// `x` is the pattern that some usable line gives.
pub open spec fn from_usable_line(ls: Seq<Seq<char>>, x: Seq<char>) -> bool {
    exists|j: int| 0 <= j < ls.len() && usable_line(#[trigger] ls[j]) && trim(ls[j]) == x
}

proof fn lemma_with_lines(ps: Seq<Seq<char>>, ls: Seq<Seq<char>>)
    ensures
        with_lines(ps, ls).len() >= ps.len(),
        with_lines(ps, ls).take(ps.len() as int) == ps,
        forall|k: int| 0 <= k < ls.len() && usable_line(#[trigger] ls[k]) ==> with_lines(ps, ls).contains(trim(ls[k])),
        forall|k: int|
            ps.len() <= k < with_lines(ps, ls).len() ==> from_usable_line(
                ls,
                #[trigger] with_lines(ps, ls)[k],
            ),
    decreases ls.len(),
{
    if ls.len() > 0 {
        let l2 = ls.drop_last();
        lemma_with_lines(ps, l2);
        let rest = with_lines(ps, l2);
        let all = with_lines(ps, ls);
        let t = trim(ls.last());
        assert(all.take(ps.len() as int) =~= rest.take(ps.len() as int));
        assert forall|k: int| 0 <= k < ls.len() && usable_line(#[trigger] ls[k]) implies all.contains(trim(ls[k])) by {
            if k < l2.len() {
                assert(l2[k] == ls[k]);
                let j = choose|j: int| 0 <= j < rest.len() && rest[j] == trim(l2[k]);
                assert(all[j] == rest[j]);
            } else if !rest.contains(t) {
                assert(all[all.len() - 1] == t);
            }
        }
        assert forall|k: int| ps.len() <= k < all.len() implies from_usable_line(ls, #[trigger] all[k]) by {
            if k < rest.len() {
                assert(all[k] == rest[k]);
                assert(from_usable_line(l2, rest[k]));
                let j = choose|j: int| 0 <= j < l2.len() && usable_line(#[trigger] l2[j]) && trim(l2[j]) == rest[k];
                assert(ls[j] == l2[j]);
            } else {
                assert(usable_line(ls[ls.len() - 1]));
            }
        }
    }
}

/// The ignore patterns are `.ash`, `.ash/`, `.git` and `.git/`, then each
/// line of the ignore file that is neither blank nor a comment, trimmed,
/// and nothing else.
pub proof fn lemma_ignore_list_exact(content: Option<Seq<char>>)
    ensures
        ignore_list(content).len() >= 4,
        ignore_list(content).take(4) == seq![".ash"@, ".ash/"@, ".git"@, ".git/"@],
        content matches Some(c) ==> forall|k: int|
            0 <= k < lines(c).len() && usable_line(#[trigger] lines(c)[k]) ==> ignore_list(content).contains(
                trim(lines(c)[k]),
            ),
        content matches Some(c) ==> forall|k: int|
            4 <= k < ignore_list(content).len() ==> from_usable_line(
                lines(c),
                #[trigger] ignore_list(content)[k],
            ),
        content is None ==> ignore_list(content).len() == 4,
{
    let defaults = seq![".ash"@, ".ash/"@, ".git"@, ".git/"@];
    match content {
        Some(c) => {
            lemma_with_lines(defaults, lines(c));
        },
        None => {
            assert(defaults.take(4) =~= defaults);
        },
    }
}

/// The index paths at or below a start path (all of them for the top).
pub open spec fn expected_under(prefix: Seq<char>, keys: Seq<Seq<char>>) -> Seq<Seq<char>>
    decreases keys.len(),
{
    if keys.len() == 0 {
        seq![]
    } else {
        expected_under(prefix, keys.drop_last()) + if keys.last() == prefix || prefix.len() == 0
            || is_prefix(prefix.push('/'), keys.last()) {
            seq![keys.last()]
        } else {
            seq![]
        }
    }
}

/// The index paths equal to a path or below it, in order.
pub open spec fn at_or_below(start: Seq<char>, keys: Seq<Seq<char>>) -> Seq<Seq<char>>
    decreases keys.len(),
{
    if keys.len() == 0 {
        seq![]
    } else {
        at_or_below(start, keys.drop_last()) + if keys.last() == start || is_prefix(
            start.push('/'),
            keys.last(),
        ) {
            seq![keys.last()]
        } else {
            seq![]
        }
    }
}

/// A directory pattern (ending in `/`, `\` read as `/`) whose stem starts
/// the path, or a pattern equal to the path.
pub open spec fn dir_pattern_hit(rel: Seq<char>, patterns: Seq<Seq<char>>) -> bool {
    exists|i: int|
        0 <= i < patterns.len() && #[trigger] dir_pattern_one(rel, replace_char(patterns[i], '\\', '/'))
}

/// One pattern against a directory path, as `dir_pattern_hit` reads it.
pub open spec fn dir_pattern_one(rel: Seq<char>, p: Seq<char>) -> bool {
    (p.len() > 0 && p.last() == '/' && is_prefix(p.drop_last(), rel)) || p == rel
}

/// What a walk over the working tree does with an entry.
#[derive(Debug, Clone, Copy, PartialEq, Eq, Structural)]
pub enum EntryStep {
    /// Leave it (and, for a directory, all it holds).
    Skip,
    /// Walk into the directory.
    Descend,
    /// List the file.
    Add,
    /// Neither a file nor a directory: nothing to do.
    Pass,
}

/// The working tree at a directory.
pub struct Workspace {
    pub root_path: String,
}

fn holds(v: &Vec<String>, s: &[char]) -> (r: bool)
    ensures
        r == strings_view(v@).contains(s@),
{
    let mut i: usize = 0;
    while i < v.len()
        invariant
            i <= v.len(),
            forall|j: int| 0 <= j < i ==> v@[j]@ != s@,
        decreases v.len() - i,
    {
        if crate::text::chars_eq(chars_of(v[i].as_str()).as_slice(), s) {
            assert(strings_view(v@)[i as int] == s@);
            return true;
        }
        i += 1;
    }
    assert forall|j: int| 0 <= j < strings_view(v@).len() implies strings_view(v@)[j] != s@ by {
        assert(strings_view(v@)[j] == v@[j]@);
    }
    false
}

/// A glob turned into a regular expression.
fn glob_to_regex(p: &[char]) -> (r: String)
    ensures
        r@ == glob_regex(p@),
{
    let mut r = String::new();
    let mut i: usize = 0;
    assert(p@.take(0) =~= Seq::<char>::empty());
    while i < p.len()
        invariant
            i <= p.len(),
            r@ == glob_regex(p@.take(i as int)),
        decreases p.len() - i,
    {
        assert(p@.take(i + 1).drop_last() =~= p@.take(i as int));
        if p[i] == '.' {
            push_str(&mut r, "\\.");
        } else if p[i] == '*' {
            push_str(&mut r, ".*");
        } else {
            r.push(p[i]);
            assert(r@ =~= glob_regex(p@.take(i as int)) + seq![p[i as int]]);
        }
        i += 1;
    }
    assert(p@.take(i as int) =~= p@);
    r
}

impl Workspace {
    /// The working tree at a directory.
    pub fn new(root_path: &str) -> (r: Workspace)
        ensures
            r.root_path@ == root_path@,
    {
        Workspace { root_path: root_path.to_owned() }
    }

    /// The ignore patterns, given the ignore file's content when it exists.
    pub fn ignore_patterns(content: Option<&str>) -> (r: Vec<String>)
        ensures
            strings_view(r@) == ignore_list(
                match content {
                    Some(c) => Some(c@),
                    None => None,
                },
            ),
    {
        let mut r: Vec<String> = Vec::new();
        r.push(".ash".to_owned());
        r.push(".ash/".to_owned());
        r.push(".git".to_owned());
        r.push(".git/".to_owned());
        proof {
            reveal_strlit(".ash");
            reveal_strlit(".ash/");
            reveal_strlit(".git");
            reveal_strlit(".git/");
        }
        let ghost defaults = seq![".ash"@, ".ash/"@, ".git"@, ".git/"@];
        assert(strings_view(r@) =~= defaults);
        match content {
            None => r,
            Some(c) => {
                let ls = lines_of(chars_of(c).as_slice());
                let ghost lv = strings_view(ls@);
                let mut i: usize = 0;
                assert(lv.take(0) =~= Seq::<Seq<char>>::empty());
                while i < ls.len()
                    invariant
                        i <= ls.len(),
                        lv == strings_view(ls@),
                        lv == lines(c@),
                        strings_view(r@) == with_lines(defaults, lv.take(i as int)),
                    decreases ls.len() - i,
                {
                    assert(lv.take(i + 1).drop_last() =~= lv.take(i as int));
                    assert(lv.take(i + 1).last() == ls@[i as int]@);
                    let t = trim_chars(chars_of(ls[i].as_str()).as_slice());
                    if !(t.len() == 0 || t[0] == '#' || holds(&r, t.as_slice())) {
                        let ghost before = strings_view(r@);
                        r.push(string_from_chars(t.as_slice()));
                        assert(strings_view(r@) =~= before.push(t@));
                    }
                    i += 1;
                }
                assert(lv.take(i as int) =~= lv);
                r
            },
        }
    }

    /// Whether a path matches an ignore pattern.
    pub fn matches_pattern(&self, path: &str, pattern: &str) -> (r: bool)
        ensures
            r == pattern_matches(path@, pattern@),
    {
        let p = chars_of(pattern);
        let s = chars_of(path);
        if p.len() == 0 {
            return false;
        }
        if p[p.len() - 1] == '/' {
            let mut d = crate::text::slice_chars(p.as_slice(), 0, p.len() - 1);
            let exact = crate::text::chars_eq(s.as_slice(), d.as_slice());
            d.push('/');
            return exact || starts_with(s.as_slice(), d.as_slice());
        }
        let slash = chars_of("/");
        let star = chars_of("*");
        proof {
            reveal_strlit("/");
            reveal_strlit("*");
            reveal_strlit("^");
            reveal_strlit("$");
        }
        if !contains_chars(p.as_slice(), slash.as_slice()) {
            match path_file_name(path) {
                Some(f) => {
                    if str_eq(f.as_str(), pattern) {
                        return true;
                    }
                    if contains_chars(p.as_slice(), star.as_slice()) {
                        let mut re = "^".to_owned();
                        let g = glob_to_regex(p.as_slice());
                        push_str(&mut re, g.as_str());
                        push_str(&mut re, "$");
                        return regex_is_match(re.as_str(), f.as_str()) == Some(true);
                    }
                    false
                },
                None => false,
            }
        } else if contains_chars(p.as_slice(), star.as_slice()) {
            let mut re = "^".to_owned();
            let g = glob_to_regex(p.as_slice());
            push_str(&mut re, g.as_str());
            regex_is_match(re.as_str(), path) == Some(true)
        } else {
            let exact = crate::text::chars_eq(s.as_slice(), p.as_slice());
            let mut d = chars_of(pattern);
            d.push('/');
            exact || starts_with(s.as_slice(), d.as_slice())
        }
    }

    /// Whether some pattern names a directory path as `dir_pattern_hit`
    /// reads it.
    fn dir_pattern_matches(rel: &str, patterns: &Vec<String>) -> (r: bool)
        ensures
            r == dir_pattern_hit(rel@, strings_view(patterns@)),
    {
        let ghost pv = strings_view(patterns@);
        let rc = chars_of(rel);
        let mut i: usize = 0;
        while i < patterns.len()
            invariant
                i <= patterns.len(),
                pv == strings_view(patterns@),
                rc@ == rel@,
                forall|j: int| 0 <= j < i ==> !#[trigger] dir_pattern_one(rel@, replace_char(pv[j], '\\', '/')),
            decreases patterns.len() - i,
        {
            assert(pv[i as int] == patterns@[i as int]@);
            let p = replace_chars(chars_of(patterns[i].as_str()).as_slice(), '\\', '/');
            let mut hit = crate::text::chars_eq(p.as_slice(), rc.as_slice());
            if p.len() > 0 && p[p.len() - 1] == '/' {
                let stem = crate::text::slice_chars(p.as_slice(), 0, p.len() - 1);
                assert(stem@ =~= p@.drop_last());
                if starts_with(rc.as_slice(), stem.as_slice()) {
                    hit = true;
                }
            }
            if hit {
                assert(dir_pattern_one(rel@, replace_char(pv[i as int], '\\', '/')));
                return true;
            }
            i += 1;
        }
        false
    }

    /// What listing the whole working tree does with an entry at a path
    /// (relative, `\` read as `/`): an ignored file is left, an ignored
    /// directory is left with all it holds when a pattern names it as a
    /// directory and walked into otherwise; other directories are walked
    /// into and other files listed.
    pub fn list_step(&self, rel_path: &str, is_dir: bool, is_file: bool, patterns: &Vec<String>) -> (r:
        EntryStep)
        ensures
            r == if any_pattern_matches(rel_path@, strings_view(patterns@)) && !is_dir {
                EntryStep::Skip
            } else if any_pattern_matches(rel_path@, strings_view(patterns@)) && dir_pattern_hit(
                replace_char(rel_path@, '\\', '/'),
                strings_view(patterns@),
            ) {
                EntryStep::Skip
            } else if is_dir {
                EntryStep::Descend
            } else if is_file {
                EntryStep::Add
            } else {
                EntryStep::Pass
            },
    {
        let norm = string_from_chars(replace_chars(chars_of(rel_path).as_slice(), '\\', '/').as_slice());
        if self.matches_any_pattern(rel_path, patterns) {
            if !is_dir {
                return EntryStep::Skip;
            }
            if Self::dir_pattern_matches(norm.as_str(), patterns) {
                return EntryStep::Skip;
            }
        }
        if is_dir {
            EntryStep::Descend
        } else if is_file {
            EntryStep::Add
        } else {
            EntryStep::Pass
        }
    }

    /// What listing from a start path does with an entry below it: an
    /// ignored one is left with all it holds; directories are walked into
    /// and files listed (and no longer expected missing).
    pub fn process_step(&self, rel_path: &str, is_dir: bool, is_file: bool, patterns: &Vec<String>) -> (r:
        EntryStep)
        ensures
            r == if any_pattern_matches(rel_path@, strings_view(patterns@)) {
                EntryStep::Skip
            } else if is_dir {
                EntryStep::Descend
            } else if is_file {
                EntryStep::Add
            } else {
                EntryStep::Pass
            },
    {
        if self.matches_any_pattern(rel_path, patterns) {
            EntryStep::Skip
        } else if is_dir {
            EntryStep::Descend
        } else if is_file {
            EntryStep::Add
        } else {
            EntryStep::Pass
        }
    }

    /// Whether any of the patterns matches a path, with `\` read as `/`.
    pub fn matches_any_pattern(&self, path: &str, patterns: &Vec<String>) -> (r: bool)
        ensures
            r == any_pattern_matches(path@, strings_view(patterns@)),
    {
        let np = string_from_chars(replace_chars(chars_of(path).as_slice(), '\\', '/').as_slice());
        let ghost pv = strings_view(patterns@);
        let mut i: usize = 0;
        while i < patterns.len()
            invariant
                i <= patterns.len(),
                pv == strings_view(patterns@),
                np@ == replace_char(path@, '\\', '/'),
                forall|j: int|
                    0 <= j < i ==> !#[trigger] pattern_matches(
                        replace_char(path@, '\\', '/'),
                        replace_char(pv[j], '\\', '/'),
                    ),
            decreases patterns.len() - i,
        {
            let q = string_from_chars(
                replace_chars(chars_of(patterns[i].as_str()).as_slice(), '\\', '/').as_slice(),
            );
            assert(pv[i as int] == patterns@[i as int]@);
            if self.matches_pattern(np.as_str(), q.as_str()) {
                return true;
            }
            i += 1;
        }
        false
    }

    /// What a start path that is not in the working tree stands for: the
    /// index paths equal to it or below it, or an error when there are
    /// none.
    pub fn missing_start(start: &str, keys: &Vec<String>) -> (r: Result<Vec<String>, Error>)
        ensures
            at_or_below(start@, strings_view(keys@)).len() > 0 ==> (r matches Ok(v) && strings_view(
                v@,
            ) == at_or_below(start@, strings_view(keys@))),
            at_or_below(start@, strings_view(keys@)).len() == 0 ==> (r matches Err(
                Error::InvalidPath(m),
            ) && m@ == "Pathspec '"@ + start@ + "' did not match any files"@),
    {
        let ghost kv = strings_view(keys@);
        let mut d = chars_of(start);
        d.push('/');
        let pc = chars_of(start);
        let mut found: Vec<String> = Vec::new();
        let mut i: usize = 0;
        while i < keys.len()
            invariant
                i <= keys.len(),
                kv == strings_view(keys@),
                d@ == start@.push('/'),
                pc@ == start@,
                strings_view(found@) == at_or_below(start@, kv.take(i as int)),
            decreases keys.len() - i,
        {
            assert(kv.take(i + 1).drop_last() =~= kv.take(i as int));
            assert(kv.take(i + 1).last() == keys@[i as int]@);
            let k = chars_of(keys[i].as_str());
            let ghost before = strings_view(found@);
            if crate::text::chars_eq(k.as_slice(), pc.as_slice()) || starts_with(
                k.as_slice(),
                d.as_slice(),
            ) {
                found.push(clone_string(&keys[i]));
                assert(strings_view(found@) =~= before.push(keys@[i as int]@));
            } else {
                assert(strings_view(found@) =~= before + Seq::<Seq<char>>::empty());
            }
            i += 1;
        }
        assert(kv.take(i as int) =~= kv);
        if found.len() == 0 {
            let mut m = String::new();
            push_str(&mut m, "Pathspec '");
            push_str(&mut m, start);
            push_str(&mut m, "' did not match any files");
            return Err(Error::InvalidPath(m));
        }
        Ok(found)
    }

    /// The index paths at or below a start path.
    pub fn expected_under(prefix: &str, keys: &Vec<String>) -> (r: Vec<String>)
        ensures
            strings_view(r@) == expected_under(prefix@, strings_view(keys@)),
    {
        let ghost kv = strings_view(keys@);
        let mut d = chars_of(prefix);
        d.push('/');
        let pc = chars_of(prefix);
        let mut r: Vec<String> = Vec::new();
        let mut i: usize = 0;
        while i < keys.len()
            invariant
                i <= keys.len(),
                kv == strings_view(keys@),
                d@ == prefix@.push('/'),
                pc@ == prefix@,
                strings_view(r@) == expected_under(prefix@, kv.take(i as int)),
            decreases keys.len() - i,
        {
            assert(kv.take(i + 1).drop_last() =~= kv.take(i as int));
            assert(kv.take(i + 1).last() == keys@[i as int]@);
            let k = chars_of(keys[i].as_str());
            let ghost before = strings_view(r@);
            if crate::text::chars_eq(k.as_slice(), pc.as_slice()) || pc.len() == 0 || starts_with(
                k.as_slice(),
                d.as_slice(),
            ) {
                r.push(clone_string(&keys[i]));
                assert(strings_view(r@) =~= before.push(keys@[i as int]@));
            } else {
                assert(strings_view(r@) =~= before + Seq::<Seq<char>>::empty());
            }
            i += 1;
        }
        assert(kv.take(i as int) =~= kv);
        r
    }
}

} // verus!
