//! The sequence of commits that a cherry-pick or revert still has to apply,
//! and the text of its files.
//!
//! The program around the library reads and writes the sequencer's files;
//! the library names them, holds the queue of commands, and reads and
//! writes their lines.
use vstd::prelude::*;
use crate::error::Error;
use crate::path_filter::{joined, path_join};
use crate::text::{
    chars_of, clone_string, find_char, find_char_in, is_ws, char_is_ws, lines, lines_of, push_str,
    slice_chars, str_eq, string_from_chars, strings_view,
};

verus! {

/// What to do with a commit.
#[derive(Debug, Clone, Copy, PartialEq, Eq, Structural)]
pub enum Action {
    Pick,
    Revert,
}

/// The name of an action in the todo file.
pub open spec fn action_name(a: Action) -> Seq<char> {
    match a {
        Action::Pick => "pick"@,
        Action::Revert => "revert"@,
    }
}

impl Action {
    /// The action's name: `pick` or `revert`.
    pub fn to_string(&self) -> (r: String)
        ensures
            r@ == action_name(*self),
    {
        match self {
            Action::Pick => "pick".to_owned(),
            Action::Revert => "revert".to_owned(),
        }
    }

    /// The action with a name; an error for any other text.
    pub fn from_str(s: &str) -> (r: Result<Action, Error>)
        ensures
            s@ == "pick"@ ==> r matches Ok(Action::Pick),
            s@ == "revert"@ ==> r matches Ok(Action::Revert),
            s@ != "pick"@ && s@ != "revert"@ ==> (r matches Err(e) && e is Generic
                && e.message_view()@ == "Unknown sequencer action: "@ + s@),
    {
        proof {
            reveal_strlit("pick");
            reveal_strlit("revert");
            assert("pick"@.len() == 4);
            assert("revert"@.len() == 6);
            assert("revert"@ != "pick"@);
        }
        if str_eq(s, "pick") {
            Ok(Action::Pick)
        } else if str_eq(s, "revert") {
            Ok(Action::Revert)
        } else {
            let mut m = "Unknown sequencer action: ".to_owned();
            push_str(&mut m, s);
            Err(Error::Generic(m))
        }
    }
}

/// The first whitespace position at or after `i`, or the end.
pub open spec fn run_end(s: Seq<char>, i: int) -> int
    decreases s.len() - i,
{
    if i < 0 || i >= s.len() {
        s.len() as int
    } else if is_ws(s[i]) {
        i
    } else {
        run_end(s, i + 1)
    }
}

/// `^(\S+) (\S+) (.*)$`: a word, a space, a word, a space and the rest of a
/// line.
pub open spec fn todo_match(line: Seq<char>) -> Option<(Seq<char>, Seq<char>, Seq<char>)> {
    let a = run_end(line, 0);
    if a == 0 || a >= line.len() || line[a] != ' ' {
        None
    } else {
        let b = run_end(line, a + 1);
        if b == a + 1 || b >= line.len() || line[b] != ' ' {
            None
        } else {
            let rest = line.subrange(b + 1, line.len() as int);
            if find_char(rest, '\n') is Some {
                None
            } else {
                Some((line.subrange(0, a), line.subrange(a + 1, b), rest))
            }
        }
    }
}

proof fn lemma_run_end(s: Seq<char>, i: int)
    requires
        0 <= i <= s.len(),
    ensures
        i <= run_end(s, i) <= s.len(),
        forall|j: int| i <= j < run_end(s, i) ==> !is_ws(#[trigger] s[j]),
        run_end(s, i) < s.len() ==> is_ws(s[run_end(s, i)]),
    decreases s.len() - i,
{
    if i < s.len() && !is_ws(s[i]) {
        lemma_run_end(s, i + 1);
    }
}

/// The first whitespace position at or after `i`, or the end.
fn find_run_end(s: &[char], i: usize) -> (r: usize)
    requires
        i <= s.len(),
    ensures
        r == run_end(s@, i as int),
{
    let mut j = i;
    while j < s.len() && !char_is_ws(s[j])
        invariant
            i <= j <= s.len(),
            run_end(s@, j as int) == run_end(s@, i as int),
        decreases s.len() - j,
    {
        j += 1;
    }
    j
}

/// The action, abbreviated object id and title of a todo line.
pub fn todo_line_parts(line: &str) -> (r: Option<(String, String, String)>)
    ensures
        match (r, todo_match(line@)) {
            (Some((a, b, c)), Some((x, y, z))) => a@ == x && b@ == y && c@ == z,
            (None, None) => true,
            _ => false,
        },
{
    let s = chars_of(line);
    proof {
        lemma_run_end(s@, 0);
    }
    let a = find_run_end(s.as_slice(), 0);
    if a == 0 || a >= s.len() || s[a] != ' ' {
        return None;
    }
    proof {
        lemma_run_end(s@, a + 1);
    }
    let b = find_run_end(s.as_slice(), a + 1);
    if b == a + 1 || b >= s.len() || s[b] != ' ' {
        return None;
    }
    let rest = slice_chars(s.as_slice(), b + 1, s.len());
    if find_char_in(rest.as_slice(), '\n').is_some() {
        return None;
    }
    let first = slice_chars(s.as_slice(), 0, a);
    let second = slice_chars(s.as_slice(), a + 1, b);
    Some(
        (
            string_from_chars(first.as_slice()),
            string_from_chars(second.as_slice()),
            string_from_chars(rest.as_slice()),
        ),
    )
}

/// A todo line reads as a command: its action's name and object id.
pub open spec fn line_gives(line: Seq<char>, c: (Action, Seq<char>)) -> bool {
    match todo_match(line) {
        Some((a, o, _)) => action_name(c.0) == a && c.1 == o,
        None => false,
    }
}

/// A todo line: the action, the abbreviated object id and the title.
pub open spec fn todo_line(action: Action, short: Seq<char>, title: Seq<char>) -> Seq<char> {
    action_name(action) + seq![' '] + short + seq![' '] + title + seq!['\n']
}

/// Writes a todo line.
pub fn format_todo_line(action: Action, short: &str, title: &str) -> (r: String)
    ensures
        r@ == todo_line(action, short@, title@),
{
    let mut r = action.to_string();
    r.push(' ');
    push_str(&mut r, short);
    r.push(' ');
    push_str(&mut r, title);
    r.push('\n');
    r
}

/// The todo file's text: a line for each command, given with the
/// abbreviated id and title of its commit.
pub open spec fn todo_text(entries: Seq<(Action, Seq<char>, Seq<char>)>) -> Seq<char>
    decreases entries.len(),
{
    if entries.len() == 0 {
        seq![]
    } else {
        let e = entries.last();
        todo_text(entries.drop_last()) + todo_line(e.0, e.1, e.2)
    }
}

/// Writes the todo file's text.
pub fn format_todo(entries: &Vec<(Action, String, String)>) -> (r: String)
    ensures
        r@ == todo_text(entries@.map_values(|e: (Action, String, String)| (e.0, e.1@, e.2@))),
{
    let ghost ev = entries@.map_values(|e: (Action, String, String)| (e.0, e.1@, e.2@));
    let mut r = String::new();
    let mut i: usize = 0;
    assert(ev.take(0) =~= Seq::<(Action, Seq<char>, Seq<char>)>::empty());
    while i < entries.len()
        invariant
            i <= entries.len(),
            ev == entries@.map_values(|e: (Action, String, String)| (e.0, e.1@, e.2@)),
            r@ == todo_text(ev.take(i as int)),
        decreases entries.len() - i,
    {
        assert(ev.take(i + 1).drop_last() =~= ev.take(i as int));
        assert(ev.take(i + 1).last() == ev[i as int]);
        let line = format_todo_line(entries[i].0, entries[i].1.as_str(), entries[i].2.as_str());
        push_str(&mut r, line.as_str());
        i += 1;
    }
    assert(ev.take(i as int) =~= ev);
    r
}

/// Aborting rewinds only while HEAD is where the last command left it
/// (an unreadable HEAD reads as empty).
pub fn check_abort(expected: &str, actual: Option<&str>) -> (r: Result<(), Error>)
    ensures
        (match actual {
            Some(a) => a@,
            None => seq![],
        }) == expected@ ==> r is Ok,
        (match actual {
            Some(a) => a@,
            None => seq![],
        }) != expected@ ==> (r matches Err(Error::Generic(m)) && m@
            == "Cannot abort: Working directory has been modified since last command"@),
{
    let same = match actual {
        Some(a) => str_eq(a, expected),
        None => chars_of(expected).len() == 0,
    };
    proof {
        if actual is None {
            assert(expected@.len() == 0 ==> expected@ =~= Seq::<char>::empty());
        }
    }
    if same {
        Ok(())
    } else {
        Err(Error::Generic("Cannot abort: Working directory has been modified since last command".to_owned()))
    }
}

/// An options-file line: `key=value`.
pub fn format_option_line(key: &str, value: &str) -> (r: String)
    ensures
        r@ == key@ + seq!['='] + value@ + seq!['\n'],
{
    let mut r = key.to_owned();
    r.push('=');
    push_str(&mut r, value);
    r.push('\n');
    r
}

/// The value of the first line `name=value` of an options file.
pub open spec fn option_in(ls: Seq<Seq<char>>, name: Seq<char>) -> Option<Seq<char>>
    decreases ls.len(),
{
    if ls.len() == 0 {
        None
    } else {
        match find_char(ls[0], '=') {
            Some(k) => if ls[0].subrange(0, k as int) == name {
                Some(ls[0].subrange(k + 1 as int, ls[0].len() as int))
            } else {
                option_in(ls.drop_first(), name)
            },
            None => option_in(ls.drop_first(), name),
        }
    }
}

/// The value of an option in the content of an options file.
pub fn option_value(content: &str, name: &str) -> (r: Option<String>)
    ensures
        match r {
            Some(v) => option_in(lines(content@), name@) == Some(v@),
            None => option_in(lines(content@), name@) is None,
        },
{
    let c = chars_of(content);
    let ls = lines_of(c.as_slice());
    let ghost lv = strings_view(ls@);
    let nc = chars_of(name);
    let mut i: usize = 0;
    assert(lv.skip(0) =~= lv);
    while i < ls.len()
        invariant
            lv == strings_view(ls@),
            lv == lines(content@),
            nc@ == name@,
            i <= ls.len(),
            option_in(lv.skip(i as int), name@) == option_in(lv, name@),
        decreases ls.len() - i,
    {
        let l = chars_of(ls[i].as_str());
        assert(lv.skip(i as int)[0] == l@);
        assert(lv.skip(i as int).drop_first() =~= lv.skip(i + 1));
        match find_char_in(l.as_slice(), '=') {
            Some(k) => {
                proof {
                    crate::text::lemma_find_char_bound(l@, '=');
                    assert(find_char(l@, '=') == Some(k as nat));
                    assert(k < l.len());
                }
                let key = slice_chars(l.as_slice(), 0, k);
                if crate::text::chars_eq(key.as_slice(), nc.as_slice()) {
                    let value = slice_chars(l.as_slice(), k + 1, l.len());
                    return Some(string_from_chars(value.as_slice()));
                }
            },
            None => {},
        }
        i += 1;
    }
    None
}

/// The sequencer's files in a repository's metadata directory, and the
/// commands still to apply, each with the object id of its commit.
#[derive(Debug)]
pub struct Sequencer {
    pub repo_path: String,
    pathname: String,
    abort_path: String,
    head_path: String,
    todo_path: String,
    options_path: String,
    commands: Vec<(Action, String)>,
}

impl Sequencer {
    /// The commands still to apply.
    pub closed spec fn commands_view(&self) -> Seq<(Action, Seq<char>)> {
        self.commands@.map_values(|c: (Action, String)| (c.0, c.1@))
    }

    /// The repository's metadata directory.
    pub closed spec fn repo_view(&self) -> Seq<char> {
        self.repo_path@
    }

    /// The sequencer directory.
    pub closed spec fn path_view(&self) -> Seq<char> {
        self.pathname@
    }

    /// The files: the directory `sequencer`, and in it `abort-safety`,
    /// `head`, `todo` and `opts`.
    pub closed spec fn files_view(&self) -> (Seq<char>, Seq<char>, Seq<char>, Seq<char>) {
        (self.abort_path@, self.head_path@, self.todo_path@, self.options_path@)
    }

    /// A sequencer with no commands for a repository's metadata directory.
    pub fn new(repo_path: &str) -> (r: Sequencer)
        ensures
            r.repo_view() == repo_path@,
            r.path_view() == joined(repo_path@, "sequencer"@),
            r.files_view() == (
                joined(r.path_view(), "abort-safety"@),
                joined(r.path_view(), "head"@),
                joined(r.path_view(), "todo"@),
                joined(r.path_view(), "opts"@),
            ),
            r.commands_view().len() == 0,
    {
        let pathname = path_join(repo_path, "sequencer");
        let abort_path = path_join(pathname.as_str(), "abort-safety");
        let head_path = path_join(pathname.as_str(), "head");
        let todo_path = path_join(pathname.as_str(), "todo");
        let options_path = path_join(pathname.as_str(), "opts");
        let r = Sequencer {
            repo_path: repo_path.to_owned(),
            pathname,
            abort_path,
            head_path,
            todo_path,
            options_path,
            commands: Vec::new(),
        };
        assert(r.commands_view() =~= Seq::<(Action, Seq<char>)>::empty());
        r
    }

    /// Adds a commit to pick.
    pub fn add_pick(&mut self, oid: String)
        ensures
            final(self).commands_view() == old(self).commands_view().push((Action::Pick, oid@)),
            final(self).path_view() == old(self).path_view(),
    {
        let ghost c0 = self.commands_view();
        self.commands.push((Action::Pick, oid));
        assert(self.commands_view() =~= c0.push((Action::Pick, oid@)));
    }

    /// Adds a commit to revert.
    pub fn add_revert(&mut self, oid: String)
        ensures
            final(self).commands_view() == old(self).commands_view().push((Action::Revert, oid@)),
            final(self).path_view() == old(self).path_view(),
    {
        let ghost c0 = self.commands_view();
        self.commands.push((Action::Revert, oid));
        assert(self.commands_view() =~= c0.push((Action::Revert, oid@)));
    }

    /// The next command, if any.
    pub fn next_command(&self) -> (r: Option<(Action, String)>)
        ensures
            match r {
                Some((a, o)) => self.commands_view().len() > 0 && self.commands_view()[0] == (a, o@),
                None => self.commands_view().len() == 0,
            },
    {
        if self.commands.len() == 0 {
            None
        } else {
            Some((self.commands[0].0, clone_string(&self.commands[0].1)))
        }
    }

    /// Removes the next command, if any.
    pub fn drop_command(&mut self)
        ensures
            final(self).commands_view() == if old(self).commands_view().len() == 0 {
                old(self).commands_view()
            } else {
                old(self).commands_view().drop_first()
            },
            final(self).path_view() == old(self).path_view(),
    {
        if self.commands.len() == 0 {
            return;
        }
        let ghost c0 = self.commands_view();
        self.commands.remove(0);
        assert(self.commands_view() =~= c0.drop_first());
    }

    /// Replaces the commands with those of todo lines: each line that reads
    /// `<action> <object id> <title>` gives its action and object id; an
    /// unknown action is an error.
    pub fn load_commands(&mut self, lines: &Vec<String>) -> (r: Result<(), Error>)
        ensures
            final(self).path_view() == old(self).path_view(),
            match load_result(strings_view(lines@)) {
                Ok(cs) => r is Ok && final(self).commands_view() == cs,
                Err(m) => r matches Err(e) && e is Generic && e.message_view()@ == m,
            },
    {
        let ghost lv = strings_view(lines@);
        self.commands.clear();
        let mut i: usize = 0;
        assert(self.commands_view() =~= Seq::<(Action, Seq<char>)>::empty());
        assert(lv.take(0) =~= Seq::<Seq<char>>::empty());
        while i < lines.len()
            invariant
                i <= lines.len(),
                lv == strings_view(lines@),
                self.path_view() == old(self).path_view(),
                load_result(lv.take(i as int)) == Ok::<Seq<(Action, Seq<char>)>, Seq<char>>(
                    self.commands_view(),
                ),
            decreases lines.len() - i,
        {
            proof {
                assert(lv.take(i + 1).drop_last() =~= lv.take(i as int));
                assert(lv.take(i + 1).last() == lines@[i as int]@);
            }
            match todo_line_parts(lines[i].as_str()) {
                Some((a, o, _)) => {
                    let action = match Action::from_str(a.as_str()) {
                        Ok(x) => x,
                        Err(e) => {
                            proof {
                                reveal_strlit("pick");
                                reveal_strlit("revert");
                                lemma_load_error_stays(lv, i as int + 1);
                            }
                            return Err(e);
                        },
                    };
                    proof {
                        reveal_strlit("pick");
                        reveal_strlit("revert");
                    }
                    let ghost c0 = self.commands_view();
                    self.commands.push((action, o));
                    assert(self.commands_view() =~= c0.push((action, o@)));
                },
                None => {},
            }
            i += 1;
        }
        assert(lv.take(lines.len() as int) =~= lv);
        Ok(())
    }
}

/// The commands that todo lines give, or the error for the first line with
/// an unknown action.
pub open spec fn load_result(ls: Seq<Seq<char>>) -> Result<Seq<(Action, Seq<char>)>, Seq<char>>
    decreases ls.len(),
{
    if ls.len() == 0 {
        Ok(Seq::empty())
    } else {
        match load_result(ls.drop_last()) {
            Err(m) => Err(m),
            Ok(p) => match todo_match(ls.last()) {
                None => Ok(p),
                Some((a, o, _)) => if a == "pick"@ {
                    Ok(p.push((Action::Pick, o)))
                } else if a == "revert"@ {
                    Ok(p.push((Action::Revert, o)))
                } else {
                    Err("Unknown sequencer action: "@ + a)
                },
            },
        }
    }
}

proof fn lemma_run_end_at(s: Seq<char>, i: int, j: int)
    requires
        0 <= i <= j <= s.len(),
        forall|k: int| i <= k < j ==> !is_ws(#[trigger] s[k]),
        j == s.len() || is_ws(s[j]),
    ensures
        run_end(s, i) == j,
    decreases j - i,
{
    if i < j {
        lemma_run_end_at(s, i + 1, j);
    }
}

/// A todo line as it is read back: without its line break.
pub open spec fn todo_line_text(e: (Action, Seq<char>, Seq<char>)) -> Seq<char> {
    action_name(e.0) + seq![' '] + e.1 + seq![' '] + e.2
}

/// A command that a todo line can hold: an id that is not empty and holds
/// no whitespace, and a title without a line break.
pub open spec fn todo_entry_ok(e: (Action, Seq<char>, Seq<char>)) -> bool {
    &&& e.1.len() > 0
    &&& forall|k: int| 0 <= k < e.1.len() ==> !is_ws(#[trigger] e.1[k])
    &&& forall|k: int| 0 <= k < e.2.len() ==> #[trigger] e.2[k] != '\n'
}

/// A todo line reads back as the action, id and title it was written with.
pub proof fn lemma_todo_line_reads_back(e: (Action, Seq<char>, Seq<char>))
    requires
        todo_entry_ok(e),
    ensures
        todo_match(todo_line_text(e)) == Some((action_name(e.0), e.1, e.2)),
{
    reveal_strlit("pick");
    reveal_strlit("revert");
    let name = action_name(e.0);
    let line = todo_line_text(e);
    let a = name.len() as int;
    let b = a + 1 + e.1.len();
    assert(forall|k: int| 0 <= k < a ==> !is_ws(#[trigger] name[k])) by {
        assert forall|k: int| 0 <= k < a implies !is_ws(#[trigger] name[k]) by {
            assert('p' as u32 == 112 && 'i' as u32 == 105 && 'c' as u32 == 99 && 'k' as u32 == 107);
            assert('r' as u32 == 114 && 'e' as u32 == 101 && 'v' as u32 == 118 && 't' as u32 == 116);
        }
    }
    assert(line[a] == ' ');
    assert(is_ws(' ')) by {
        assert(' ' as u32 == 32);
    }
    assert forall|k: int| 0 <= k < a implies !is_ws(#[trigger] line[k]) by {
        assert(line[k] == name[k]);
    }
    lemma_run_end_at(line, 0, a);
    assert forall|k: int| a + 1 <= k < b implies !is_ws(#[trigger] line[k]) by {
        assert(line[k] == e.1[k - a - 1]);
    }
    assert(line[b] == ' ');
    lemma_run_end_at(line, a + 1, b);
    let rest = line.subrange(b + 1, line.len() as int);
    assert(rest =~= e.2);
    assert(line.subrange(0, a) =~= name);
    assert(line.subrange(a + 1, b) =~= e.1);
    if find_char(rest, '\n') is Some {
        crate::text::lemma_find_char_bound(rest, '\n');
    }
}

/// Todo lines written for commands load back as those commands, in order.
pub proof fn lemma_todo_lines_load(entries: Seq<(Action, Seq<char>, Seq<char>)>)
    requires
        forall|k: int| 0 <= k < entries.len() ==> todo_entry_ok(#[trigger] entries[k]),
    ensures
        load_result(entries.map_values(|e: (Action, Seq<char>, Seq<char>)| todo_line_text(e)))
            == Ok::<Seq<(Action, Seq<char>)>, Seq<char>>(
            entries.map_values(|e: (Action, Seq<char>, Seq<char>)| (e.0, e.1)),
        ),
    decreases entries.len(),
{
    reveal_strlit("pick");
    reveal_strlit("revert");
    let ls = entries.map_values(|e: (Action, Seq<char>, Seq<char>)| todo_line_text(e));
    let cs = entries.map_values(|e: (Action, Seq<char>, Seq<char>)| (e.0, e.1));
    if entries.len() > 0 {
        let e2 = entries.drop_last();
        lemma_todo_lines_load(e2);
        assert(ls.drop_last() =~= e2.map_values(
            |e: (Action, Seq<char>, Seq<char>)| todo_line_text(e),
        ));
        assert(cs.drop_last() =~= e2.map_values(|e: (Action, Seq<char>, Seq<char>)| (e.0, e.1)));
        let e = entries.last();
        assert(todo_entry_ok(entries[entries.len() - 1]));
        lemma_todo_line_reads_back(e);
        assert(ls.last() == todo_line_text(e));
        assert("pick"@ != "revert"@) by {
            assert("pick"@.len() != "revert"@.len());
        }
        assert(cs =~= cs.drop_last().push((e.0, e.1)));
    } else {
        assert(cs =~= Seq::<(Action, Seq<char>)>::empty());
    }
}

/// Once the lines up to some point give an error, all of them give it.
proof fn lemma_load_error_stays(ls: Seq<Seq<char>>, k: int)
    requires
        0 <= k <= ls.len(),
        load_result(ls.take(k)) is Err,
    ensures
        load_result(ls) == load_result(ls.take(k)),
    decreases ls.len() - k,
{
    if k < ls.len() {
        assert(ls.take(k + 1).drop_last() =~= ls.take(k));
        lemma_load_error_stays(ls, k + 1);
    } else {
        assert(ls.take(k) =~= ls);
    }
}

} // verus!
