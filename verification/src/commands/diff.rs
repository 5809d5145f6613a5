//! Showing the changes of one path: the patch text for a file that is new,
//! gone, or changed between HEAD and the index.
use vstd::prelude::*;
use crate::codec::{lossy_text, utf8_lossy};
use crate::color::Color;
use crate::diff::diff::{colored_lines, colorize_diff, line_diff, split_lines};
use crate::diff::myers::{diff_lines, format_diff, is_binary, is_binary_content};
use crate::text::{
    byte_prefix, byte_prefix_view, cuts_at, decimal, lines, push_decimal, push_str, str_eq,
    strings_view,
};

verus! {

/// The command that shows changes.
pub struct DiffCommand;

/// Each line with a mark before it, coloured, and a line end.
pub open spec fn marked_colored(ls: Seq<Seq<char>>, mark: char, color: Seq<char>, on: bool) -> Seq<char>
    decreases ls.len(),
{
    if ls.len() == 0 {
        seq![]
    } else {
        marked_colored(ls.drop_last(), mark, color, on) + Color::colorize_view(
            seq![mark] + ls.last(),
            color,
            on,
        ) + seq!['\n']
    }
}

/// The patch for a file that a version adds.
pub open spec fn new_file_text(path: Seq<char>, oid: &str, mode: Seq<char>, content: Seq<u8>, on: bool) -> Seq<
    char,
> {
    if is_binary(content) {
        "Binary file b/"@ + path + " created\n"@
    } else {
        "index 0000000.."@ + byte_prefix_view(oid@, 7) + " "@ + mode + "\n--- /dev/null\n+++ b/"@
            + path + "\n@@ -0,0 +1,"@ + decimal(content.len()) + " @@\n"@ + marked_colored(
            lines(lossy_text(content)),
            '+',
            Color::GREEN@,
            on,
        )
    }
}

/// The patch for a file that is gone from the working tree.
pub open spec fn deleted_file_text(path: Seq<char>, oid: &str, mode: Seq<char>, content: Seq<u8>, on: bool) -> Seq<
    char,
> {
    if is_binary(content) {
        "Binary file a/"@ + path + " has been deleted\n"@
    } else {
        "index "@ + byte_prefix_view(oid@, 7) + "..0000000 "@ + mode + "\n--- a/"@ + path
            + "\n+++ /dev/null\n@@ -1,"@ + decimal(content.len()) + " +0,0 @@\n"@ + marked_colored(
            lines(lossy_text(content)),
            '-',
            Color::RED@,
            on,
        )
    }
}

/// The patch between the committed and the staged version of a file.
pub open spec fn staged_text(
    path: Seq<char>,
    head_oid: &str,
    index_oid: &str,
    mode: Seq<char>,
    head: Seq<u8>,
    index: Seq<u8>,
    on: bool,
) -> Seq<char> {
    if head_oid@ == index_oid@ {
        Color::colorize_view("No changes staged for "@ + path, Color::GREEN@, on) + "\n"@
    } else if is_binary(head) || is_binary(index) {
        "Binary files a/"@ + path + " and b/"@ + path + " differ\n"@
    } else {
        "index "@ + byte_prefix_view(head_oid@, 7) + ".."@ + byte_prefix_view(index_oid@, 7) + " "@
            + mode + "\n--- a/"@ + path + "\n+++ b/"@ + path + "\n"@ + colored_lines(
            lines(line_diff(lines(lossy_text(head)), lines(lossy_text(index)), 3)),
            on,
        )
    }
}

/// Appends each line with a mark before it, coloured, and a line end.
pub(crate) fn push_marked(r: &mut String, ls: &Vec<String>, mark: char, color: &str, on: bool)
    ensures
        final(r)@ == old(r)@ + marked_colored(strings_view(ls@), mark, color@, on),
{
    let ghost lv = strings_view(ls@);
    let ghost r0 = r@;
    let mut i: usize = 0;
    assert(lv.take(0) =~= Seq::<Seq<char>>::empty());
    assert(r@ =~= r0 + marked_colored(lv.take(0), mark, color@, on));
    while i < ls.len()
        invariant
            i <= ls.len(),
            lv == strings_view(ls@),
            r@ == r0 + marked_colored(lv.take(i as int), mark, color@, on),
        decreases ls.len() - i,
    {
        assert(lv.take(i + 1).drop_last() =~= lv.take(i as int));
        assert(lv.take(i + 1).last() == ls@[i as int]@);
        let mut line = String::new();
        line.push(mark);
        push_str(&mut line, ls[i].as_str());
        let c = Color::colorize(line.as_str(), color, on);
        push_str(r, c.as_str());
        r.push('\n');
        i += 1;
        assert(line@ =~= seq![mark] + ls@[i - 1]@);
    }
    assert(lv.take(i as int) =~= lv);
}

impl DiffCommand {
    /// The patch for a file that a version adds, from its stored content.
    pub fn new_file_patch(path: &str, oid: &str, mode: &str, content: &[u8], color: bool) -> (r:
        String)
        requires
            cuts_at(oid, 7),
        ensures
            r@ == new_file_text(path@, oid, mode@, content@, color),
    {
        if is_binary_content(content) {
            let mut r = String::new();
            push_str(&mut r, "Binary file b/");
            push_str(&mut r, path);
            push_str(&mut r, " created\n");
            return r;
        }
        let mut r = String::new();
        push_str(&mut r, "index 0000000..");
        push_str(&mut r, byte_prefix(oid, 7));
        push_str(&mut r, " ");
        push_str(&mut r, mode);
        push_str(&mut r, "\n--- /dev/null\n+++ b/");
        push_str(&mut r, path);
        push_str(&mut r, "\n@@ -0,0 +1,");
        push_decimal(&mut r, content.len() as u64);
        push_str(&mut r, " @@\n");
        let text = utf8_lossy(content);
        let ls = split_lines(text.as_str());
        push_marked(&mut r, &ls, '+', Color::GREEN, color);
        r
    }

    /// The patch for a file gone from the working tree, from its staged
    /// content.
    pub fn deleted_file_patch(path: &str, oid: &str, mode: &str, content: &[u8], color: bool) -> (r:
        String)
        requires
            cuts_at(oid, 7),
        ensures
            r@ == deleted_file_text(path@, oid, mode@, content@, color),
    {
        if is_binary_content(content) {
            let mut r = String::new();
            push_str(&mut r, "Binary file a/");
            push_str(&mut r, path);
            push_str(&mut r, " has been deleted\n");
            return r;
        }
        let mut r = String::new();
        push_str(&mut r, "index ");
        push_str(&mut r, byte_prefix(oid, 7));
        push_str(&mut r, "..0000000 ");
        push_str(&mut r, mode);
        push_str(&mut r, "\n--- a/");
        push_str(&mut r, path);
        push_str(&mut r, "\n+++ /dev/null\n@@ -1,");
        push_decimal(&mut r, content.len() as u64);
        push_str(&mut r, " +0,0 @@\n");
        let text = utf8_lossy(content);
        let ls = split_lines(text.as_str());
        push_marked(&mut r, &ls, '-', Color::RED, color);
        r
    }

    /// The patch between the committed and the staged version of a file.
    pub fn staged_patch(
        path: &str,
        head_oid: &str,
        index_oid: &str,
        mode: &str,
        head: &[u8],
        index: &[u8],
        color: bool,
    ) -> (r: String)
        requires
            cuts_at(head_oid, 7),
            cuts_at(index_oid, 7),
        ensures
            r@ == staged_text(path@, head_oid, index_oid, mode@, head@, index@, color),
    {
        if str_eq(head_oid, index_oid) {
            let mut m = String::new();
            push_str(&mut m, "No changes staged for ");
            push_str(&mut m, path);
            let mut r = Color::green(m.as_str(), color);
            push_str(&mut r, "\n");
            return r;
        }
        if is_binary_content(head) || is_binary_content(index) {
            let mut r = String::new();
            push_str(&mut r, "Binary files a/");
            push_str(&mut r, path);
            push_str(&mut r, " and b/");
            push_str(&mut r, path);
            push_str(&mut r, " differ\n");
            return r;
        }
        let mut r = String::new();
        push_str(&mut r, "index ");
        push_str(&mut r, byte_prefix(head_oid, 7));
        push_str(&mut r, "..");
        push_str(&mut r, byte_prefix(index_oid, 7));
        push_str(&mut r, " ");
        push_str(&mut r, mode);
        push_str(&mut r, "\n--- a/");
        push_str(&mut r, path);
        push_str(&mut r, "\n+++ b/");
        push_str(&mut r, path);
        push_str(&mut r, "\n");
        let ht = utf8_lossy(head);
        let it = utf8_lossy(index);
        let hl = split_lines(ht.as_str());
        let il = split_lines(it.as_str());
        let edits = diff_lines(hl.as_slice(), il.as_slice());
        let d = format_diff(hl.as_slice(), il.as_slice(), edits.as_slice(), 3);
        let c = colorize_diff(d.as_str(), color);
        push_str(&mut r, c.as_str());
        r
    }

    /// The message for a path the index does not have.
    pub fn not_in_index(path: &str, exists: bool, color: bool) -> (r: String)
        ensures
            r@ == Color::colorize_view(
                "error: path '"@ + path@ + if exists {
                    "' is untracked"@
                } else {
                    "' does not exist"@
                },
                Color::RED@,
                color,
            ) + "\n"@,
    {
        let mut m = String::new();
        push_str(&mut m, "error: path '");
        push_str(&mut m, path);
        if exists {
            push_str(&mut m, "' is untracked");
        } else {
            push_str(&mut m, "' does not exist");
        }
        let mut r = Color::red(m.as_str(), color);
        push_str(&mut r, "\n");
        r
    }
}

} // verus!
