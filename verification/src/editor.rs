//! What the user wrote in an editor: the message without its comment lines.
use vstd::prelude::*;
use crate::text::{chars_of, lines, lines_of, push_str, string_from_chars, strings_view, trim, trim_chars};

verus! {

/// Lines joined with `\n` between them.
pub open spec fn join_lines(ls: Seq<Seq<char>>) -> Seq<char>
    decreases ls.len(),
{
    if ls.len() == 0 {
        Seq::empty()
    } else if ls.len() == 1 {
        ls[0]
    } else {
        join_lines(ls.drop_last()) + seq!['\n'] + ls.last()
    }
}

/// The lines that do not start with `#`.
pub open spec fn uncommented(ls: Seq<Seq<char>>) -> Seq<Seq<char>>
    decreases ls.len(),
{
    if ls.len() == 0 {
        Seq::empty()
    } else if ls.last().len() > 0 && ls.last()[0] == '#' {
        uncommented(ls.drop_last())
    } else {
        uncommented(ls.drop_last()).push(ls.last())
    }
}

/// A message without its comment lines: `None` when only blank lines are
/// left, else the lines joined, trimmed, with a line end.
pub open spec fn without_notes(content: Seq<char>) -> Option<Seq<char>> {
    let ls = uncommented(lines(content));
    if forall|i: int| 0 <= i < ls.len() ==> #[trigger] trim(ls[i]).len() == 0 {
        None
    } else {
        Some(trim(join_lines(ls)) + seq!['\n'])
    }
}

/// Each line as a note: `# ` before it and a line end after it.
pub open spec fn noted(ls: Seq<Seq<char>>) -> Seq<char>
    decreases ls.len(),
{
    if ls.len() == 0 {
        Seq::empty()
    } else {
        noted(ls.drop_last()) + "# "@ + ls.last() + seq!['\n']
    }
}

/// Editing a message for the user.
pub struct Editor;

impl Editor {
    /// The message without its comment lines (those starting with `#`), or
    /// `None` when nothing but blank lines is left.
    pub fn remove_notes(content: &str) -> (r: Option<String>)
        ensures
            match r {
                Some(s) => without_notes(content@) == Some(s@),
                None => without_notes(content@) is None,
            },
    {
        let c = chars_of(content);
        let all = lines_of(c.as_slice());
        let ghost av = strings_view(all@);
        let mut kept: Vec<String> = Vec::new();
        let mut joined = String::new();
        let mut all_blank = true;
        let mut i: usize = 0;
        while i < all.len()
            invariant
                av == strings_view(all@),
                av == lines(content@),
                i <= all.len(),
                strings_view(kept@) == uncommented(av.take(i as int)),
                joined@ == join_lines(strings_view(kept@)),
                all_blank == forall|j: int|
                    0 <= j < kept@.len() ==> #[trigger] trim(strings_view(kept@)[j]).len() == 0,
            decreases all.len() - i,
        {
            let lc = chars_of(all[i].as_str());
            assert(av.take(i + 1).drop_last() =~= av.take(i as int));
            assert(av[i as int] == all@[i as int]@);
            if !(lc.len() > 0 && lc[0] == '#') {
                let ghost k0 = strings_view(kept@);
                let t = trim_chars(lc.as_slice());
                if kept.len() > 0 {
                    joined.push('\n');
                }
                push_str(&mut joined, all[i].as_str());
                kept.push(string_from_chars(lc.as_slice()));
                proof {
                    assert(strings_view(kept@) =~= k0.push(lc@));
                    assert(strings_view(kept@).drop_last() =~= k0);
                    if k0.len() == 0 {
                        assert(strings_view(kept@).len() == 1);
                    }
                    assert forall|j: int| 0 <= j < k0.len() implies strings_view(kept@)[j] == k0[j] by {}
                }
                if t.len() > 0 {
                    all_blank = false;
                }
            }
            i += 1;
        }
        assert(av.take(all.len() as int) =~= av);
        if all_blank {
            None
        } else {
            let jc = chars_of(joined.as_str());
            let t = trim_chars(jc.as_slice());
            let mut r = string_from_chars(t.as_slice());
            r.push('\n');
            Some(r)
        }
    }

    /// The text a note adds to the file being edited: each of its lines
    /// after `# `.
    pub fn note_text(text: &str) -> (r: String)
        ensures
            r@ == noted(lines(text@)),
    {
        let ls = lines_of(chars_of(text).as_slice());
        let ghost lv = strings_view(ls@);
        let mut r = String::new();
        let mut i: usize = 0;
        assert(lv.take(0) =~= Seq::<Seq<char>>::empty());
        while i < ls.len()
            invariant
                i <= ls.len(),
                lv == strings_view(ls@),
                lv == lines(text@),
                r@ == noted(lv.take(i as int)),
            decreases ls.len() - i,
        {
            assert(lv.take(i + 1).drop_last() =~= lv.take(i as int));
            assert(lv.take(i + 1).last() == ls@[i as int]@);
            push_str(&mut r, "# ");
            push_str(&mut r, ls[i].as_str());
            r.push('\n');
            i += 1;
        }
        assert(lv.take(i as int) =~= lv);
        r
    }
}

} // verus!
