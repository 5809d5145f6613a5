//! Reading the command line into a command with its options.
//!
//! `commit --file <path>` takes its message from a file. The program around
//! the library reads those files first (`CliParser::message_file_paths` says
//! which) and hands their contents, or the error text of a failed read, to
//! `CliParser::parse`.
use vstd::prelude::*;
use crate::cli::args::{CliArgs, Command, CommandView, opt_view};
use crate::error::Error;
use crate::text::{
    all_ascii, ascii_lowercase, chars_of, find_char, find_char_in, is_prefix, lowercase,
    parse_unsigned,
    parse_unsigned_chars, push_str, slice_chars, starts_with, str_eq, string_from_chars,
    strings_view, to_lowercase,
};

verus! {

/// The command word as it is matched: lower-cased, the ASCII way when it
/// is ASCII.
pub open spec fn command_word(s: Seq<char>) -> Seq<char> {
    if all_ascii(s) {
        ascii_lowercase(s)
    } else {
        lowercase(s)
    }
}

/// The command line as character sequences.
pub type ArgsView = Seq<Seq<char>>;

/// Files read for the command line: each path with its content, or the
/// error text of a failed read.
pub type FileTable = Seq<(Seq<char>, Result<Seq<char>, Seq<char>>)>;

/// A read result as character sequences.
pub open spec fn read_view(r: Result<String, String>) -> Result<Seq<char>, Seq<char>> {
    match r {
        Ok(s) => Ok(s@),
        Err(e) => Err(e@),
    }
}

/// A table of read files as character sequences.
pub open spec fn files_view(f: Seq<(String, Result<String, String>)>) -> FileTable {
    f.map_values(|e: (String, Result<String, String>)| (e.0@, read_view(e.1)))
}

/// What reading a path gave: the first entry for the path.
pub open spec fn read_result(files: FileTable, p: Seq<char>) -> Option<Result<Seq<char>, Seq<char>>>
    decreases files.len(),
{
    if files.len() == 0 {
        None
    } else if files[0].0 == p {
        Some(files[0].1)
    } else {
        read_result(files.drop_first(), p)
    }
}

/// An argument that looks like an option: it starts with `-`.
pub open spec fn flag_like(a: Seq<char>) -> bool {
    a.len() > 0 && a[0] == '-'
}

/// What follows the first occurrence of a character, if it occurs.
pub open spec fn after_char(a: Seq<char>, c: char) -> Option<Seq<char>> {
    match find_char(a, c) {
        Some(k) => Some(a.subrange(k + 1 as int, a.len() as int)),
        None => None,
    }
}

/// `Option::unwrap_or_default` on a string.
pub open spec fn or_empty(o: Option<Seq<char>>) -> Seq<char> {
    match o {
        Some(s) => s,
        None => Seq::empty(),
    }
}

/// The help text.
pub open spec fn help_text() -> Seq<char> {
    "Usage: ash <command> [options]"@ + "\n"@ + "Commands:"@ + "\n"@
        + "  init [path]                       Initialize a new repository"@ + "\n"@
        + "  add <paths...>                    Add file contents to the index"@ + "\n"@
        + "  commit -m <message>               Commit changes to the repository"@ + "\n"@
        + "  status [--porcelain] [--color=...] Show the working tree status"@ + "\n"@
        + "  diff [--cached] [paths...]        Show changes (HEAD vs index or index vs workspace)"@
        + "\n"@
        + "  branch [-v] [-d|-D] [<n> [<sp>]]  Manage branches (list, create, delete)"@ + "\n"@
        + "  checkout <target>                 Switch branches or restore working tree files"@
        + "\n"@ + "  log [--oneline] [--decorate=...]  Show commit logs"@ + "\n"@
        + "  merge <branch> [-m <msg>]         Merge the specified branch into the current branch"@
        + "\n"@ + "        --abort                     Abort the current merge resolution process"@
        + "\n"@
        + "        --continue                  Continue the merge after resolving conflicts"@
        + "\n"@ + "        --tool=<tool>               Use specified tool to resolve merge conflicts"@
        + "\n"@
        + "        --tool-only                 Run merge tool to resolve conflicts without merging"@
        + "\n"@ + "Common Options:"@ + "\n"@ + "  (Options specific to commands listed above)"@
        + "\n"@ + "  --help                           Display this help message"@
}

/// The error for a command line without a command.
pub open spec fn usage_error() -> Seq<char> {
    "Usage: ash <command> [options]"@ + "\n\n"@ + help_text()
}

// ---------------------------------------------------------------- commit

/// The options of `commit` read so far.
pub ghost struct CommitScan {
    pub message: Option<Seq<char>>,
    pub amend: bool,
    pub reuse_message: Option<Seq<char>>,
    pub edit: bool,
}

/// Reads the options of `commit` from position `i` on.
pub open spec fn commit_scan(args: ArgsView, files: FileTable, i: int, st: CommitScan) -> Result<
    CommitScan,
    Seq<char>,
>
    decreases args.len() - i,
{
    if i < 0 || i >= args.len() {
        Ok(st)
    } else {
        let a = args[i];
        if a == "--message"@ || a == "-m"@ {
            if i + 1 < args.len() {
                commit_scan(
                    args,
                    files,
                    i + 2,
                    CommitScan {
                        message: Some(args[i + 1]),
                        amend: st.amend,
                        reuse_message: st.reuse_message,
                        edit: st.edit,
                    },
                )
            } else {
                Err("--message requires a value"@)
            }
        } else if a == "--amend"@ {
            commit_scan(
                args,
                files,
                i + 1,
                CommitScan {
                    message: st.message,
                    amend: true,
                    reuse_message: st.reuse_message,
                    edit: st.edit,
                },
            )
        } else if a == "--edit"@ || a == "-e"@ {
            commit_scan(
                args,
                files,
                i + 1,
                CommitScan {
                    message: st.message,
                    amend: st.amend,
                    reuse_message: st.reuse_message,
                    edit: true,
                },
            )
        } else if a == "--reuse-message"@ || a == "-C"@ {
            if i + 1 < args.len() {
                commit_scan(
                    args,
                    files,
                    i + 2,
                    CommitScan {
                        message: st.message,
                        amend: st.amend,
                        reuse_message: Some(args[i + 1]),
                        edit: st.edit,
                    },
                )
            } else {
                Err("--reuse-message requires a value"@)
            }
        } else if a == "--reedit-message"@ || a == "-c"@ {
            if i + 1 < args.len() {
                commit_scan(
                    args,
                    files,
                    i + 2,
                    CommitScan {
                        message: st.message,
                        amend: st.amend,
                        reuse_message: Some(args[i + 1]),
                        edit: true,
                    },
                )
            } else {
                Err("--reedit-message requires a value"@)
            }
        } else if a == "--file"@ || a == "-F"@ {
            if i + 1 < args.len() {
                match read_result(files, args[i + 1]) {
                    Some(Ok(content)) => commit_scan(
                        args,
                        files,
                        i + 2,
                        CommitScan {
                            message: Some(content),
                            amend: st.amend,
                            reuse_message: st.reuse_message,
                            edit: st.edit,
                        },
                    ),
                    Some(Err(e)) => Err("Failed to read message file: "@ + e),
                    None => Err(Seq::empty()),
                }
            } else {
                Err("--file requires a value"@)
            }
        } else {
            Err("Unknown option for commit: "@ + a)
        }
    }
}

/// The options of `commit` before any is read.
pub open spec fn commit_start() -> CommitScan {
    CommitScan { message: None, amend: false, reuse_message: None, edit: false }
}

/// `commit`: its options, and a message from somewhere unless amending.
pub open spec fn commit_spec(args: ArgsView, files: FileTable) -> Result<CommandView, Seq<char>> {
    match commit_scan(args, files, 2, commit_start()) {
        Err(m) => Err(m),
        Ok(st) => if st.message is None && st.reuse_message is None && !st.amend {
            Err(
                "Commit message is required. Use --message/-m, --file/-F, --reuse-message/-C, or --amend"@,
            )
        } else {
            Ok(
                CommandView::Commit {
                    message: or_empty(st.message),
                    amend: st.amend,
                    reuse_message: st.reuse_message,
                    edit: st.edit,
                },
            )
        },
    }
}

/// A position whose argument names a message file.
pub open spec fn names_message_file(args: ArgsView, k: int) -> bool {
    2 <= k && k + 1 < args.len() && (args[k] == "--file"@ || args[k] == "-F"@)
}

/// A path named after `--file` or `-F`.
pub open spec fn is_message_file(args: ArgsView, p: Seq<char>) -> bool {
    exists|k: int| #[trigger] names_message_file(args, k) && args[k + 1] == p
}

/// Every file that `commit` may read has an entry in the table.
pub open spec fn message_files_present(args: ArgsView, files: FileTable) -> bool {
    forall|k: int| #[trigger] names_message_file(args, k) ==> read_result(files, args[k + 1]) is Some
}

// ---------------------------------------------------------------- status

/// The first position from `k` on that sets the color.
pub open spec fn color_index(args: ArgsView, k: int) -> Option<int>
    decreases args.len() - k,
{
    if k < 0 || k >= args.len() {
        None
    } else if args[k] == "--color"@ || is_prefix("--color="@, args[k]) {
        Some(k)
    } else {
        color_index(args, k + 1)
    }
}

/// The color setting of `status`: the argument after `--color`, what
/// follows the `=` of `--color=...`, or `auto`.
pub open spec fn status_color(args: ArgsView) -> Seq<char> {
    match color_index(args, 2) {
        None => "auto"@,
        Some(k) => if args[k] == "--color"@ {
            args[k + 1]
        } else {
            match after_char(args[k], '=') {
                Some(v) => v,
                None => "auto"@,
            }
        },
    }
}

/// A `--color` that sets the color is followed by a value.
pub open spec fn status_color_has_value(args: ArgsView) -> bool {
    match color_index(args, 2) {
        Some(k) => args[k] == "--color"@ ==> k + 1 < args.len(),
        None => true,
    }
}

/// An argument from position 2 on equals the given one.
pub open spec fn has_option(args: ArgsView, opt: Seq<char>) -> bool {
    exists|k: int| 2 <= k < args.len() && #[trigger] args[k] == opt
}

/// `status`.
pub open spec fn status_spec(args: ArgsView) -> CommandView {
    CommandView::Status { porcelain: has_option(args, "--porcelain"@), color: status_color(args) }
}

// ---------------------------------------------------------------- diff

/// Reads the arguments of `diff` from position `i` on: paths and `--cached`.
pub open spec fn diff_scan(args: ArgsView, i: int, paths: Seq<Seq<char>>, cached: bool) -> (
    Seq<Seq<char>>,
    bool,
)
    decreases args.len() - i,
{
    if i < 0 || i >= args.len() {
        (paths, cached)
    } else if args[i] == "--cached"@ || args[i] == "--staged"@ {
        diff_scan(args, i + 1, paths, true)
    } else if !flag_like(args[i]) {
        diff_scan(args, i + 1, paths.push(args[i]), cached)
    } else {
        diff_scan(args, i + 1, paths, cached)
    }
}

/// `diff`.
pub open spec fn diff_spec(args: ArgsView) -> CommandView {
    let r = diff_scan(args, 2, Seq::empty(), false);
    CommandView::Diff { paths: r.0, cached: r.1 }
}

proof fn lemma_diff_scan_from(args: ArgsView, i: int, paths: Seq<Seq<char>>, cached: bool)
    requires
        0 <= i <= args.len(),
    ensures
        diff_scan(args, i, paths, cached) == (
            paths + positionals(args, i),
            cached || given(args, i, "--cached"@, "--staged"@),
        ),
    decreases args.len() - i,
{
    reveal_strlit("--cached");
    reveal_strlit("--staged");
    if i < args.len() {
        lemma_given_step(args, i, "--cached"@, "--staged"@);
        let a = args[i];
        if a == "--cached"@ || a == "--staged"@ {
            assert(flag_like(a));
            lemma_diff_scan_from(args, i + 1, paths, true);
        } else if !flag_like(a) {
            lemma_diff_scan_from(args, i + 1, paths.push(a), cached);
            assert(paths.push(a) + positionals(args, i + 1) =~= paths + positionals(args, i));
        } else {
            lemma_diff_scan_from(args, i + 1, paths, cached);
        }
    } else {
        assert(paths + positionals(args, i) =~= paths);
    }
}

/// What `diff` makes of its arguments: the arguments that do not start with
/// `-` are the paths, in order, and `--cached` or `--staged` anywhere asks
/// for the staged changes; other options are passed over.
pub proof fn lemma_diff_options(args: ArgsView, files: FileTable)
    requires
        args.len() >= 2,
        command_word(args[1]) == "diff"@,
    ensures
        parse_spec(args, files) == Ok::<CommandView, Seq<char>>(
            CommandView::Diff {
                paths: positionals(args, 2),
                cached: given(args, 2, "--cached"@, "--staged"@),
            },
        ),
{
    reveal_strlit("diff");
    reveal_strlit("init");
    reveal_strlit("commit");
    reveal_strlit("add");
    reveal_strlit("status");
    lemma_diff_scan_from(args, 2, Seq::empty(), false);
    assert(Seq::<Seq<char>>::empty() + positionals(args, 2) =~= positionals(args, 2));
    assert("diff"@[0] != "init"@[0]);
    assert(parse_spec(args, files) == Ok::<CommandView, Seq<char>>(diff_spec(args)));
}

// ---------------------------------------------------------------- branch

/// The options of `branch` read so far.
pub ghost struct BranchScan {
    pub name: Seq<char>,
    pub start_point: Option<Seq<char>>,
    pub verbose: bool,
    pub delete: bool,
    pub force: bool,
}

/// Reads the arguments of `branch` from position `i` on.
pub open spec fn branch_scan(args: ArgsView, i: int, st: BranchScan) -> Result<BranchScan, Seq<char>>
    decreases args.len() - i,
{
    if i < 0 || i >= args.len() {
        Ok(st)
    } else {
        let a = args[i];
        if a == "-v"@ || a == "--verbose"@ {
            branch_scan(args, i + 1, BranchScan { verbose: true, ..st })
        } else if a == "-d"@ || a == "--delete"@ {
            branch_scan(args, i + 1, BranchScan { delete: true, ..st })
        } else if a == "-f"@ || a == "--force"@ {
            branch_scan(args, i + 1, BranchScan { force: true, ..st })
        } else if a == "-D"@ {
            branch_scan(args, i + 1, BranchScan { delete: true, force: true, ..st })
        } else if flag_like(a) {
            branch_scan(args, i + 1, st)
        } else if st.name.len() == 0 {
            branch_scan(args, i + 1, BranchScan { name: a, ..st })
        } else if st.start_point is None {
            branch_scan(args, i + 1, BranchScan { start_point: Some(a), ..st })
        } else {
            Err("Unexpected argument for branch: "@ + a)
        }
    }
}

/// The options of `branch` before any is read.
pub open spec fn branch_start() -> BranchScan {
    BranchScan { name: Seq::empty(), start_point: None, verbose: false, delete: false, force: false }
}

/// `branch`: a name is needed to delete.
pub open spec fn branch_spec(args: ArgsView) -> Result<CommandView, Seq<char>> {
    match branch_scan(args, 2, branch_start()) {
        Err(m) => Err(m),
        Ok(st) => if st.delete && st.name.len() == 0 {
            Err("Branch name required for delete operation"@)
        } else {
            Ok(
                CommandView::Branch {
                    name: st.name,
                    start_point: st.start_point,
                    verbose: st.verbose,
                    delete: st.delete,
                    force: st.force,
                },
            )
        },
    }
}

/// The arguments from position `i` on that are not options, in order.
pub open spec fn positionals(args: ArgsView, i: int) -> Seq<Seq<char>>
    decreases args.len() - i,
{
    if i < 0 || i >= args.len() {
        seq![]
    } else if flag_like(args[i]) {
        positionals(args, i + 1)
    } else {
        seq![args[i]] + positionals(args, i + 1)
    }
}

/// Some argument from position `i` on is `x` or `y`.
pub open spec fn given(args: ArgsView, i: int, x: Seq<char>, y: Seq<char>) -> bool {
    exists|j: int| i <= j < args.len() && (#[trigger] args[j] == x || args[j] == y)
}

/// The names that `branch` has taken so far: its name, then its start point.
spec fn placed(st: BranchScan) -> Seq<Seq<char>> {
    if st.name.len() == 0 {
        seq![]
    } else if st.start_point is None {
        seq![st.name]
    } else {
        seq![st.name, st.start_point->0]
    }
}

proof fn lemma_given_step(args: ArgsView, i: int, x: Seq<char>, y: Seq<char>)
    requires
        0 <= i < args.len(),
    ensures
        given(args, i, x, y) == (args[i] == x || args[i] == y || given(args, i + 1, x, y)),
{
    if given(args, i, x, y) && !(args[i] == x || args[i] == y) {
        let j = choose|j: int| i <= j < args.len() && (#[trigger] args[j] == x || args[j] == y);
        assert(i + 1 <= j);
    }
}

/// What reading the arguments of `branch` from position `i` on gives, in
/// terms of the names already taken and the arguments left.
proof fn lemma_branch_scan_from(args: ArgsView, i: int, st: BranchScan)
    requires
        0 <= i <= args.len(),
        forall|j: int| i <= j < args.len() ==> (#[trigger] args[j]).len() > 0,
        st.name.len() == 0 ==> st.start_point is None,
    ensures
        ({
            let all = placed(st) + positionals(args, i);
            &&& all.len() > 2 ==> branch_scan(args, i, st) == Err::<BranchScan, Seq<char>>(
                "Unexpected argument for branch: "@ + all[2],
            )
            &&& all.len() <= 2 ==> branch_scan(args, i, st) is Ok
            &&& all.len() <= 2 ==> ({
                let r = branch_scan(args, i, st)->Ok_0;
                &&& r.name == (if all.len() > 0 { all[0] } else { Seq::empty() })
                &&& r.start_point == (if all.len() > 1 { Some(all[1]) } else { None })
                &&& r.verbose == (st.verbose || given(args, i, "-v"@, "--verbose"@))
                &&& r.delete == (st.delete || given(args, i, "-d"@, "--delete"@) || given(
                    args,
                    i,
                    "-D"@,
                    "-D"@,
                ))
                &&& r.force == (st.force || given(args, i, "-f"@, "--force"@) || given(
                    args,
                    i,
                    "-D"@,
                    "-D"@,
                ))
            })
        }),
    decreases args.len() - i,
{
    reveal_strlit("-v");
    reveal_strlit("--verbose");
    reveal_strlit("-d");
    reveal_strlit("--delete");
    reveal_strlit("-f");
    reveal_strlit("--force");
    reveal_strlit("-D");
    if i < args.len() {
        let a = args[i];
        lemma_given_step(args, i, "-v"@, "--verbose"@);
        lemma_given_step(args, i, "-d"@, "--delete"@);
        lemma_given_step(args, i, "-f"@, "--force"@);
        lemma_given_step(args, i, "-D"@, "-D"@);
        assert(flag_like("-v"@) && flag_like("--verbose"@) && flag_like("-d"@) && flag_like(
            "--delete"@,
        ) && flag_like("-f"@) && flag_like("--force"@) && flag_like("-D"@));
        assert("-v"@[1] != "-d"@[1] && "-v"@[1] != "-f"@[1] && "-v"@[1] != "-D"@[1] && "-d"@[1]
            != "-f"@[1] && "-d"@[1] != "-D"@[1] && "-f"@[1] != "-D"@[1]);
        assert("--verbose"@[2] != "--delete"@[2] && "--verbose"@[2] != "--force"@[2]
            && "--delete"@[2] != "--force"@[2]);
        if a == "-v"@ || a == "--verbose"@ {
            lemma_branch_scan_from(args, i + 1, BranchScan { verbose: true, ..st });
        } else if a == "-d"@ || a == "--delete"@ {
            lemma_branch_scan_from(args, i + 1, BranchScan { delete: true, ..st });
        } else if a == "-f"@ || a == "--force"@ {
            lemma_branch_scan_from(args, i + 1, BranchScan { force: true, ..st });
        } else if a == "-D"@ {
            lemma_branch_scan_from(args, i + 1, BranchScan { delete: true, force: true, ..st });
        } else if flag_like(a) {
            lemma_branch_scan_from(args, i + 1, st);
        } else if st.name.len() == 0 {
            let st2 = BranchScan { name: a, ..st };
            lemma_branch_scan_from(args, i + 1, st2);
            assert(placed(st2) + positionals(args, i + 1) =~= placed(st) + positionals(args, i));
        } else if st.start_point is None {
            let st2 = BranchScan { start_point: Some(a), ..st };
            lemma_branch_scan_from(args, i + 1, st2);
            assert(placed(st2) + positionals(args, i + 1) =~= placed(st) + positionals(args, i));
        } else {
            let all = placed(st) + positionals(args, i);
            assert(all[2] == a);
        }
    } else {
        assert(!given(args, i, "-v"@, "--verbose"@));
        assert(!given(args, i, "-d"@, "--delete"@));
        assert(!given(args, i, "-f"@, "--force"@));
        assert(!given(args, i, "-D"@, "-D"@));
        assert(placed(st) + positionals(args, i) =~= placed(st));
    }
}

/// What `branch` makes of its arguments (all non-empty): each option sets
/// its field wherever it stands (`-v`/`--verbose` verbose, `-d`/`--delete`
/// delete, `-f`/`--force` force, `-D` delete and force), other arguments
/// that start with `-` are passed over, and the first and second of the
/// remaining arguments are the branch name and its start point. A third
/// such argument is refused, and so is a delete without a name.
pub proof fn lemma_branch_options(args: ArgsView, files: FileTable)
    requires
        args.len() >= 2,
        command_word(args[1]) == "branch"@,
        forall|j: int| 2 <= j < args.len() ==> (#[trigger] args[j]).len() > 0,
    ensures
        ({
            let p = positionals(args, 2);
            let delete = given(args, 2, "-d"@, "--delete"@) || given(args, 2, "-D"@, "-D"@);
            &&& p.len() > 2 ==> parse_spec(args, files) == Err::<CommandView, Seq<char>>(
                "Unexpected argument for branch: "@ + p[2],
            )
            &&& p.len() == 0 && delete ==> parse_spec(args, files) == Err::<
                CommandView,
                Seq<char>,
            >("Branch name required for delete operation"@)
            &&& p.len() <= 2 && !(p.len() == 0 && delete) ==> parse_spec(args, files) == Ok::<
                CommandView,
                Seq<char>,
            >(
                CommandView::Branch {
                    name: if p.len() > 0 { p[0] } else { Seq::empty() },
                    start_point: if p.len() > 1 { Some(p[1]) } else { None },
                    verbose: given(args, 2, "-v"@, "--verbose"@),
                    delete: delete,
                    force: given(args, 2, "-f"@, "--force"@) || given(args, 2, "-D"@, "-D"@),
                },
            )
        }),
{
    reveal_strlit("branch");
    reveal_strlit("init");
    reveal_strlit("commit");
    reveal_strlit("add");
    reveal_strlit("status");
    reveal_strlit("diff");
    lemma_branch_scan_from(args, 2, branch_start());
    assert(placed(branch_start()) + positionals(args, 2) =~= positionals(args, 2));
    let p = positionals(args, 2);
    if p.len() > 0 {
        lemma_positionals_nonempty(args, 2);
        assert(p[0].len() > 0);
    }
    assert("branch"@[0] != "commit"@[0] && "branch"@[0] != "status"@[0]);
    assert(parse_spec(args, files) == branch_spec(args));
}

/// The arguments that are not options are non-empty when all are.
proof fn lemma_positionals_nonempty(args: ArgsView, i: int)
    requires
        forall|j: int| i <= j < args.len() ==> (#[trigger] args[j]).len() > 0,
    ensures
        forall|k: int| 0 <= k < positionals(args, i).len() ==> (#[trigger] positionals(args, i)[k]).len() > 0,
    decreases args.len() - i,
{
    if 0 <= i < args.len() {
        lemma_positionals_nonempty(args, i + 1);
        let q = positionals(args, i + 1);
        if !flag_like(args[i]) {
            assert forall|k: int| 0 <= k < positionals(args, i).len() implies (#[trigger] positionals(args, i)[k]).len() > 0 by {
                if k > 0 {
                    assert(positionals(args, i)[k] == q[k - 1]);
                }
            }
        }
    }
}

// ---------------------------------------------------------------- log

/// The options of `log` read so far.
pub ghost struct LogScan {
    pub revisions: Seq<Seq<char>>,
    pub abbrev: bool,
    pub format: Seq<char>,
    pub patch: bool,
    pub decorate: Seq<char>,
}

/// Reads the arguments of `log` from position `i` on.
pub open spec fn log_scan(args: ArgsView, i: int, st: LogScan) -> Result<LogScan, Seq<char>>
    decreases args.len() - i,
{
    if i < 0 || i >= args.len() {
        Ok(st)
    } else {
        let a = args[i];
        if a == "--abbrev-commit"@ {
            log_scan(args, i + 1, LogScan { abbrev: true, ..st })
        } else if a == "--no-abbrev-commit"@ {
            log_scan(args, i + 1, LogScan { abbrev: false, ..st })
        } else if a == "--pretty"@ || a == "--format"@ {
            if i + 1 < args.len() {
                log_scan(args, i + 2, LogScan { format: args[i + 1], ..st })
            } else {
                Err("Option '"@ + a + "' requires a value"@)
            }
        } else if is_prefix("--pretty="@, a) || is_prefix("--format="@, a) {
            match after_char(a, '=') {
                Some(v) => log_scan(args, i + 1, LogScan { format: v, ..st }),
                None => Err("Invalid format for option '"@ + a + "'"@),
            }
        } else if a == "--oneline"@ {
            log_scan(args, i + 1, LogScan { format: "oneline"@, abbrev: true, ..st })
        } else if a == "-p"@ || a == "-u"@ || a == "--patch"@ {
            log_scan(args, i + 1, LogScan { patch: true, ..st })
        } else if a == "-s"@ || a == "--no-patch"@ {
            log_scan(args, i + 1, LogScan { patch: false, ..st })
        } else if a == "--decorate"@ {
            log_scan(args, i + 1, LogScan { decorate: "auto"@, ..st })
        } else if is_prefix("--decorate="@, a) {
            match after_char(a, '=') {
                Some(v) => log_scan(args, i + 1, LogScan { decorate: v, ..st }),
                None => Err("Invalid format for option '"@ + a + "'"@),
            }
        } else if a == "--no-decorate"@ {
            log_scan(args, i + 1, LogScan { decorate: "no"@, ..st })
        } else if flag_like(a) {
            Err("Unknown option for log: "@ + a)
        } else {
            log_scan(args, i + 1, LogScan { revisions: st.revisions.push(a), ..st })
        }
    }
}

/// The options of `log` that take no value.
pub open spec fn log_flag(a: Seq<char>) -> bool {
    a == "--abbrev-commit"@ || a == "--no-abbrev-commit"@ || a == "--oneline"@ || a == "-p"@ || a
        == "-u"@ || a == "--patch"@ || a == "-s"@ || a == "--no-patch"@ || a == "--decorate"@ || a
        == "--no-decorate"@
}

/// Every argument from position `i` on that starts with `-` is an option
/// of `log` that takes no value.
pub open spec fn log_flags_only(args: ArgsView, i: int) -> bool {
    forall|j: int| i <= j < args.len() && flag_like(#[trigger] args[j]) ==> log_flag(args[j])
}

/// A patch is asked for from position `i` on.
pub open spec fn asks_patch(args: ArgsView, i: int) -> bool {
    given(args, i, "-p"@, "-u"@) || given(args, i, "--patch"@, "--patch"@)
}

/// A patch is declined from position `i` on.
pub open spec fn declines_patch(args: ArgsView, i: int) -> bool {
    given(args, i, "-s"@, "--no-patch"@)
}

proof fn lemma_log_flag_facts(a: Seq<char>)
    requires
        log_flag(a),
    ensures
        flag_like(a),
        a != "--pretty"@ && a != "--format"@,
        !is_prefix("--pretty="@, a) && !is_prefix("--format="@, a) && !is_prefix("--decorate="@, a),
{
    reveal_strlit("--abbrev-commit");
    reveal_strlit("--no-abbrev-commit");
    reveal_strlit("--oneline");
    reveal_strlit("-p");
    reveal_strlit("-u");
    reveal_strlit("--patch");
    reveal_strlit("-s");
    reveal_strlit("--no-patch");
    reveal_strlit("--decorate");
    reveal_strlit("--no-decorate");
    reveal_strlit("--pretty");
    reveal_strlit("--format");
    reveal_strlit("--pretty=");
    reveal_strlit("--format=");
    reveal_strlit("--decorate=");
    if a.len() >= 9 {
        assert(a.subrange(0, 9)[2] == a[2] && a.subrange(0, 9)[3] == a[3]);
    }
    if a.len() >= 11 {
        assert(a.subrange(0, 11)[2] == a[2]);
    }
}

proof fn lemma_log_nonflag_facts(a: Seq<char>)
    requires
        !flag_like(a),
    ensures
        !log_flag(a),
        a != "--pretty"@ && a != "--format"@ && a != "--abbrev-commit"@ && a
            != "--no-abbrev-commit"@ && a != "--oneline"@ && a != "--decorate"@ && a
            != "--no-decorate"@,
        !is_prefix("--pretty="@, a) && !is_prefix("--format="@, a) && !is_prefix("--decorate="@, a),
{
    reveal_strlit("--abbrev-commit");
    reveal_strlit("--no-abbrev-commit");
    reveal_strlit("--oneline");
    reveal_strlit("-p");
    reveal_strlit("-u");
    reveal_strlit("--patch");
    reveal_strlit("-s");
    reveal_strlit("--no-patch");
    reveal_strlit("--decorate");
    reveal_strlit("--no-decorate");
    reveal_strlit("--pretty");
    reveal_strlit("--format");
    reveal_strlit("--pretty=");
    reveal_strlit("--format=");
    reveal_strlit("--decorate=");
    if a.len() >= 9 {
        assert(a.subrange(0, 9)[0] == a[0]);
    }
    if a.len() >= 11 {
        assert(a.subrange(0, 11)[0] == a[0]);
    }
}

proof fn lemma_log_scan_from(args: ArgsView, i: int, st: LogScan)
    requires
        0 <= i <= args.len(),
        log_flags_only(args, i),
    ensures
        log_scan(args, i, st) is Ok,
        log_scan(args, i, st)->Ok_0.revisions == st.revisions + positionals(args, i),
        asks_patch(args, i) && !declines_patch(args, i) ==> log_scan(args, i, st)->Ok_0.patch,
        declines_patch(args, i) && !asks_patch(args, i) ==> !log_scan(args, i, st)->Ok_0.patch,
        !declines_patch(args, i) && !asks_patch(args, i) ==> log_scan(args, i, st)->Ok_0.patch
            == st.patch,
    decreases args.len() - i,
{
    reveal_strlit("--abbrev-commit");
    reveal_strlit("--no-abbrev-commit");
    reveal_strlit("--oneline");
    reveal_strlit("-p");
    reveal_strlit("-u");
    reveal_strlit("--patch");
    reveal_strlit("-s");
    reveal_strlit("--no-patch");
    reveal_strlit("--decorate");
    reveal_strlit("--no-decorate");
    if i < args.len() {
        lemma_given_step(args, i, "-p"@, "-u"@);
        lemma_given_step(args, i, "--patch"@, "--patch"@);
        lemma_given_step(args, i, "-s"@, "--no-patch"@);
        let a = args[i];
        assert(log_flags_only(args, i + 1));
        assert("-p"@[1] != "-u"@[1] && "-p"@[1] != "-s"@[1] && "-u"@[1] != "-s"@[1]);
        assert("--abbrev-commit"@.len() == 15 && "--no-abbrev-commit"@.len() == 18
            && "--oneline"@.len() == 9 && "--patch"@.len() == 7 && "--no-patch"@.len() == 10
            && "--decorate"@.len() == 10 && "--no-decorate"@.len() == 13 && "-p"@.len() == 2
            && "-u"@.len() == 2 && "-s"@.len() == 2);
        assert("--no-patch"@[2] != "--decorate"@[2]);
        if flag_like(a) {
            lemma_log_flag_facts(a);
            if a == "--abbrev-commit"@ {
                lemma_log_scan_from(args, i + 1, LogScan { abbrev: true, ..st });
            } else if a == "--no-abbrev-commit"@ {
                lemma_log_scan_from(args, i + 1, LogScan { abbrev: false, ..st });
            } else if a == "--oneline"@ {
                lemma_log_scan_from(args, i + 1, LogScan { format: "oneline"@, abbrev: true, ..st });
            } else if a == "-p"@ || a == "-u"@ || a == "--patch"@ {
                lemma_log_scan_from(args, i + 1, LogScan { patch: true, ..st });
            } else if a == "-s"@ || a == "--no-patch"@ {
                lemma_log_scan_from(args, i + 1, LogScan { patch: false, ..st });
            } else if a == "--decorate"@ {
                lemma_log_scan_from(args, i + 1, LogScan { decorate: "auto"@, ..st });
            } else {
                lemma_log_scan_from(args, i + 1, LogScan { decorate: "no"@, ..st });
            }
        } else {
            let st2 = LogScan { revisions: st.revisions.push(a), ..st };
            lemma_log_nonflag_facts(a);
            lemma_log_scan_from(args, i + 1, st2);
            assert(st2.revisions + positionals(args, i + 1) =~= st.revisions + positionals(args, i));
        }
    } else {
        assert(st.revisions + positionals(args, i) =~= st.revisions);
    }
}

/// What `log` makes of arguments whose options take no value: the other
/// arguments are the revisions, in order; a patch is shown when `-p`, `-u`
/// or `--patch` is given and `-s`/`--no-patch` is not, and not when only the
/// latter is or neither is.
pub proof fn lemma_log_options(args: ArgsView, files: FileTable)
    requires
        args.len() >= 2,
        command_word(args[1]) == "log"@,
        log_flags_only(args, 2),
    ensures
        parse_spec(args, files) is Ok,
        parse_spec(args, files)->Ok_0 matches CommandView::Log { revisions, patch, .. } && revisions
            == positionals(args, 2) && (asks_patch(args, 2) && !declines_patch(args, 2) ==> patch)
            && (!asks_patch(args, 2) ==> !patch),
{
    reveal_strlit("log");
    reveal_strlit("init");
    reveal_strlit("commit");
    reveal_strlit("add");
    reveal_strlit("status");
    reveal_strlit("diff");
    reveal_strlit("branch");
    reveal_strlit("checkout");
    lemma_log_scan_from(args, 2, log_start());
    assert(Seq::<Seq<char>>::empty() + positionals(args, 2) =~= positionals(args, 2));
    assert("log"@.len() == 3 && "init"@.len() == 4 && "commit"@.len() == 6 && "add"@.len() == 3
        && "status"@.len() == 6 && "diff"@.len() == 4 && "branch"@.len() == 6 && "checkout"@.len()
        == 8);
    assert("log"@[0] != "add"@[0]);
    assert(parse_spec(args, files) == log_spec(args));
}

/// The options of `log` before any is read.
pub open spec fn log_start() -> LogScan {
    LogScan {
        revisions: Seq::empty(),
        abbrev: false,
        format: "medium"@,
        patch: false,
        decorate: "auto"@,
    }
}

/// `log`.
pub open spec fn log_spec(args: ArgsView) -> Result<CommandView, Seq<char>> {
    match log_scan(args, 2, log_start()) {
        Err(m) => Err(m),
        Ok(st) => Ok(
            CommandView::Log {
                revisions: st.revisions,
                abbrev: st.abbrev,
                format: st.format,
                patch: st.patch,
                decorate: st.decorate,
            },
        ),
    }
}

// ---------------------------------------------------------------- rm

/// The options of `rm` read so far.
pub ghost struct RmScan {
    pub files: Seq<Seq<char>>,
    pub cached: bool,
    pub force: bool,
    pub recursive: bool,
}

/// Reads the arguments of `rm` from position `i` on.
pub open spec fn rm_scan(args: ArgsView, i: int, st: RmScan) -> Result<RmScan, Seq<char>>
    decreases args.len() - i,
{
    if i < 0 || i >= args.len() {
        Ok(st)
    } else {
        let a = args[i];
        if a == "--cached"@ {
            rm_scan(args, i + 1, RmScan { cached: true, ..st })
        } else if a == "-f"@ || a == "--force"@ {
            rm_scan(args, i + 1, RmScan { force: true, ..st })
        } else if a == "-r"@ || a == "--recursive"@ {
            rm_scan(args, i + 1, RmScan { recursive: true, ..st })
        } else if flag_like(a) {
            Err("Unknown option for rm: "@ + a)
        } else {
            rm_scan(args, i + 1, RmScan { files: st.files.push(a), ..st })
        }
    }
}

/// The options of `rm` before any is read.
pub open spec fn rm_start() -> RmScan {
    RmScan { files: Seq::empty(), cached: false, force: false, recursive: false }
}

/// `rm`: at least one file.
pub open spec fn rm_spec(args: ArgsView) -> Result<CommandView, Seq<char>> {
    match rm_scan(args, 2, rm_start()) {
        Err(m) => Err(m),
        Ok(st) => if st.files.len() == 0 {
            Err("No files specified for removal"@)
        } else {
            Ok(
                CommandView::Rm {
                    files: st.files,
                    cached: st.cached,
                    force: st.force,
                    recursive: st.recursive,
                },
            )
        },
    }
}

/// The options that `rm` knows.
pub open spec fn rm_option(a: Seq<char>) -> bool {
    a == "--cached"@ || a == "-f"@ || a == "--force"@ || a == "-r"@ || a == "--recursive"@
}

/// Every argument from position `i` on that starts with `-` is one that
/// `rm` knows.
pub open spec fn rm_options_known(args: ArgsView, i: int) -> bool {
    forall|j: int| i <= j < args.len() && flag_like(#[trigger] args[j]) ==> rm_option(args[j])
}

proof fn lemma_rm_scan_from(args: ArgsView, i: int, st: RmScan)
    requires
        0 <= i <= args.len(),
    ensures
        rm_options_known(args, i) ==> rm_scan(args, i, st) == Ok::<RmScan, Seq<char>>(
            RmScan {
                files: st.files + positionals(args, i),
                cached: st.cached || given(args, i, "--cached"@, "--cached"@),
                force: st.force || given(args, i, "-f"@, "--force"@),
                recursive: st.recursive || given(args, i, "-r"@, "--recursive"@),
            },
        ),
        !rm_options_known(args, i) ==> rm_scan(args, i, st) is Err,
    decreases args.len() - i,
{
    reveal_strlit("--cached");
    reveal_strlit("-f");
    reveal_strlit("--force");
    reveal_strlit("-r");
    reveal_strlit("--recursive");
    if i < args.len() {
        lemma_given_step(args, i, "--cached"@, "--cached"@);
        lemma_given_step(args, i, "-f"@, "--force"@);
        lemma_given_step(args, i, "-r"@, "--recursive"@);
        assert("-f"@[1] != "-r"@[1]);
        assert("--cached"@[2] != "--force"@[2] && "--cached"@[2] != "--recursive"@[2]
            && "--force"@[2] != "--recursive"@[2]);
        let a = args[i];
        assert(rm_options_known(args, i) == ((flag_like(a) ==> rm_option(a)) && rm_options_known(
            args,
            i + 1,
        ))) by {
            if !rm_options_known(args, i + 1) {
                let j = choose|j: int|
                    i + 1 <= j < args.len() && flag_like(#[trigger] args[j]) && !rm_option(args[j]);
                assert(!(flag_like(args[j]) ==> rm_option(args[j])));
            }
        }
        if a == "--cached"@ {
            assert(flag_like(a));
            lemma_rm_scan_from(args, i + 1, RmScan { cached: true, ..st });
        } else if a == "-f"@ || a == "--force"@ {
            assert(flag_like(a));
            lemma_rm_scan_from(args, i + 1, RmScan { force: true, ..st });
        } else if a == "-r"@ || a == "--recursive"@ {
            assert(flag_like(a));
            lemma_rm_scan_from(args, i + 1, RmScan { recursive: true, ..st });
        } else if flag_like(a) {
        } else {
            let st2 = RmScan { files: st.files.push(a), ..st };
            lemma_rm_scan_from(args, i + 1, st2);
            assert(st2.files + positionals(args, i + 1) =~= st.files + positionals(args, i));
        }
    } else {
        assert(st.files + positionals(args, i) =~= st.files);
    }
}

/// What `rm` makes of its arguments: the arguments that do not start with
/// `-` are the files, in order; `--cached`, `-f`/`--force` and
/// `-r`/`--recursive` anywhere set their fields; any other option is
/// refused, and so is a removal of no file.
pub proof fn lemma_rm_options(args: ArgsView, files: FileTable)
    requires
        args.len() >= 2,
        command_word(args[1]) == "rm"@,
    ensures
        !rm_options_known(args, 2) ==> parse_spec(args, files) is Err,
        rm_options_known(args, 2) && positionals(args, 2).len() == 0 ==> parse_spec(args, files)
            == Err::<CommandView, Seq<char>>("No files specified for removal"@),
        rm_options_known(args, 2) && positionals(args, 2).len() > 0 ==> parse_spec(args, files)
            == Ok::<CommandView, Seq<char>>(
            CommandView::Rm {
                files: positionals(args, 2),
                cached: given(args, 2, "--cached"@, "--cached"@),
                force: given(args, 2, "-f"@, "--force"@),
                recursive: given(args, 2, "-r"@, "--recursive"@),
            },
        ),
{
    reveal_strlit("rm");
    reveal_strlit("init");
    reveal_strlit("commit");
    reveal_strlit("add");
    reveal_strlit("status");
    reveal_strlit("diff");
    reveal_strlit("branch");
    reveal_strlit("checkout");
    reveal_strlit("log");
    lemma_rm_scan_from(args, 2, rm_start());
    assert(Seq::<Seq<char>>::empty() + positionals(args, 2) =~= positionals(args, 2));
    assert("rm"@.len() == 2 && "init"@.len() == 4 && "commit"@.len() == 6 && "add"@.len() == 3
        && "status"@.len() == 6 && "diff"@.len() == 4 && "branch"@.len() == 6 && "checkout"@.len()
        == 8 && "log"@.len() == 3);
    assert(parse_spec(args, files) == rm_spec(args));
}

// ---------------------------------------------------------------- merge

/// The options of `merge` read so far.
pub ghost struct MergeScan {
    pub branch: Seq<char>,
    pub message: Option<Seq<char>>,
    pub abort: bool,
    pub continue_merge: bool,
    pub tool: Option<Seq<char>>,
}

/// Reads the arguments of `merge` from position `i` on.
pub open spec fn merge_scan(args: ArgsView, i: int, st: MergeScan) -> Result<MergeScan, Seq<char>>
    decreases args.len() - i,
{
    if i < 0 || i >= args.len() {
        Ok(st)
    } else {
        let a = args[i];
        if a == "--message"@ || a == "-m"@ {
            if i + 1 < args.len() {
                merge_scan(args, i + 2, MergeScan { message: Some(args[i + 1]), ..st })
            } else {
                Err("Option '"@ + a + "' requires a value"@)
            }
        } else if a == "--abort"@ {
            merge_scan(args, i + 1, MergeScan { abort: true, ..st })
        } else if a == "--continue"@ {
            merge_scan(args, i + 1, MergeScan { continue_merge: true, ..st })
        } else if a == "--tool"@ || a == "-t"@ {
            if i + 1 < args.len() {
                merge_scan(args, i + 2, MergeScan { tool: Some(args[i + 1]), ..st })
            } else {
                Err("Option '"@ + a + "' requires a value"@)
            }
        } else if a == "--tool-only"@ {
            merge_scan(args, i + 1, MergeScan { tool: Some("default"@), ..st })
        } else if flag_like(a) {
            Err("Unknown option for merge: "@ + a)
        } else if st.branch.len() == 0 {
            merge_scan(args, i + 1, MergeScan { branch: a, ..st })
        } else {
            Err("Unexpected argument for merge: "@ + a)
        }
    }
}

/// The options of `merge` before any is read.
pub open spec fn merge_start() -> MergeScan {
    MergeScan { branch: Seq::empty(), message: None, abort: false, continue_merge: false, tool: None }
}

/// `merge`: a branch, unless aborting, continuing or only running the tool,
/// and no branch when aborting or continuing.
pub open spec fn merge_spec(args: ArgsView) -> Result<CommandView, Seq<char>> {
    match merge_scan(args, 2, merge_start()) {
        Err(m) => Err(m),
        Ok(st) => {
            let resolve_only = st.tool is Some && st.branch.len() == 0 && !st.abort
                && !st.continue_merge;
            if st.branch.len() == 0 && !st.abort && !st.continue_merge && !resolve_only {
                Err(
                    "No branch specified for merge and not using --abort, --continue, or --tool"@,
                )
            } else if st.branch.len() != 0 && (st.abort || st.continue_merge) {
                Err("Cannot specify branch name with --abort or --continue"@)
            } else {
                Ok(
                    CommandView::Merge {
                        branch: st.branch,
                        message: st.message,
                        abort: st.abort,
                        continue_merge: st.continue_merge,
                        tool: st.tool,
                    },
                )
            }
        },
    }
}

/// Every argument from position `i` on that starts with `-` is one of
/// `--abort`, `--continue` and `--tool-only`.
pub open spec fn merge_flags_only(args: ArgsView, i: int) -> bool {
    forall|j: int|
        i <= j < args.len() && flag_like(#[trigger] args[j]) ==> args[j] == "--abort"@ || args[j]
            == "--continue"@ || args[j] == "--tool-only"@
}

spec fn merge_placed(st: MergeScan) -> Seq<Seq<char>> {
    if st.branch.len() == 0 {
        seq![]
    } else {
        seq![st.branch]
    }
}

proof fn lemma_merge_scan_from(args: ArgsView, i: int, st: MergeScan)
    requires
        0 <= i <= args.len(),
        forall|j: int| i <= j < args.len() ==> (#[trigger] args[j]).len() > 0,
        merge_flags_only(args, i),
    ensures
        ({
            let all = merge_placed(st) + positionals(args, i);
            &&& all.len() > 1 ==> merge_scan(args, i, st) is Err
            &&& all.len() <= 1 ==> merge_scan(args, i, st) is Ok
            &&& all.len() <= 1 ==> merge_scan(args, i, st)->Ok_0.branch == (if all.len() > 0 {
                all[0]
            } else {
                Seq::empty()
            })
            &&& all.len() <= 1 ==> merge_scan(args, i, st)->Ok_0.message == st.message
            &&& all.len() <= 1 ==> merge_scan(args, i, st)->Ok_0.abort == (st.abort || given(
                args,
                i,
                "--abort"@,
                "--abort"@,
            ))
            &&& all.len() <= 1 ==> merge_scan(args, i, st)->Ok_0.continue_merge == (
            st.continue_merge || given(args, i, "--continue"@, "--continue"@))
            &&& all.len() <= 1 ==> merge_scan(args, i, st)->Ok_0.tool == (if given(
                args,
                i,
                "--tool-only"@,
                "--tool-only"@,
            ) {
                Some("default"@)
            } else {
                st.tool
            })
        }),
    decreases args.len() - i,
{
    reveal_strlit("--abort");
    reveal_strlit("--continue");
    reveal_strlit("--tool-only");
    reveal_strlit("--message");
    reveal_strlit("-m");
    reveal_strlit("--tool");
    reveal_strlit("-t");
    if i < args.len() {
        lemma_given_step(args, i, "--abort"@, "--abort"@);
        lemma_given_step(args, i, "--continue"@, "--continue"@);
        lemma_given_step(args, i, "--tool-only"@, "--tool-only"@);
        assert("--abort"@[2] != "--continue"@[2] && "--abort"@[2] != "--tool-only"@[2]
            && "--continue"@[2] != "--tool-only"@[2] && "--abort"@[2] != "--message"@[2]
            && "--continue"@[2] != "--message"@[2] && "--tool-only"@[2] != "--message"@[2]);
        let a = args[i];
        assert(merge_flags_only(args, i + 1));
        assert("--tool"@.len() == 6 && "-t"@.len() == 2 && "-m"@.len() == 2 && "--message"@.len() == 9);
        if a == "--abort"@ {
            assert(flag_like(a));
            lemma_merge_scan_from(args, i + 1, MergeScan { abort: true, ..st });
        } else if a == "--continue"@ {
            assert(flag_like(a));
            lemma_merge_scan_from(args, i + 1, MergeScan { continue_merge: true, ..st });
        } else if a == "--tool-only"@ {
            assert(flag_like(a));
            lemma_merge_scan_from(args, i + 1, MergeScan { tool: Some("default"@), ..st });
        } else {
            assert(!flag_like(a));
            if st.branch.len() == 0 {
                let st2 = MergeScan { branch: a, ..st };
                lemma_merge_scan_from(args, i + 1, st2);
                assert(merge_placed(st2) + positionals(args, i + 1) =~= merge_placed(st)
                    + positionals(args, i));
            } else {
                assert((merge_placed(st) + positionals(args, i)).len() > 1);
            }
        }
    } else {
        assert(merge_placed(st) + positionals(args, i) =~= merge_placed(st));
    }
}

/// What `merge` makes of arguments (all non-empty) that hold no option but
/// `--abort`, `--continue` and `--tool-only`: the one other argument is the
/// branch, a second is refused, and each of those options anywhere sets its
/// field (`--tool-only` runs the default tool). A merge needs a branch
/// unless it aborts, continues or only runs the tool, and takes none when it
/// aborts or continues.
pub proof fn lemma_merge_options(args: ArgsView, files: FileTable)
    requires
        args.len() >= 2,
        command_word(args[1]) == "merge"@,
        forall|j: int| 2 <= j < args.len() ==> (#[trigger] args[j]).len() > 0,
        merge_flags_only(args, 2),
    ensures
        ({
            let p = positionals(args, 2);
            let abort = given(args, 2, "--abort"@, "--abort"@);
            let cont = given(args, 2, "--continue"@, "--continue"@);
            let tool_only = given(args, 2, "--tool-only"@, "--tool-only"@);
            &&& p.len() > 1 ==> parse_spec(args, files) is Err
            &&& p.len() == 0 && !abort && !cont && !tool_only ==> parse_spec(args, files) == Err::<
                CommandView,
                Seq<char>,
            >("No branch specified for merge and not using --abort, --continue, or --tool"@)
            &&& p.len() == 1 && (abort || cont) ==> parse_spec(args, files) == Err::<
                CommandView,
                Seq<char>,
            >("Cannot specify branch name with --abort or --continue"@)
            &&& p.len() <= 1 && (p.len() == 0 ==> abort || cont || tool_only) && (p.len() == 1
                ==> !abort && !cont) ==> parse_spec(args, files) == Ok::<CommandView, Seq<char>>(
                CommandView::Merge {
                    branch: if p.len() > 0 { p[0] } else { Seq::empty() },
                    message: None,
                    abort,
                    continue_merge: cont,
                    tool: if tool_only { Some("default"@) } else { None },
                },
            )
        }),
{
    reveal_strlit("merge");
    reveal_strlit("init");
    reveal_strlit("commit");
    reveal_strlit("add");
    reveal_strlit("status");
    reveal_strlit("diff");
    reveal_strlit("branch");
    reveal_strlit("checkout");
    reveal_strlit("log");
    reveal_strlit("rm");
    lemma_merge_scan_from(args, 2, merge_start());
    assert(merge_placed(merge_start()) + positionals(args, 2) =~= positionals(args, 2));
    let p = positionals(args, 2);
    if p.len() > 0 {
        lemma_positionals_nonempty(args, 2);
        assert(p[0].len() > 0);
    }
    assert("merge"@.len() == 5 && "init"@.len() == 4 && "commit"@.len() == 6 && "add"@.len() == 3
        && "status"@.len() == 6 && "diff"@.len() == 4 && "branch"@.len() == 6 && "checkout"@.len()
        == 8 && "log"@.len() == 3 && "rm"@.len() == 2);
    assert(parse_spec(args, files) == merge_spec(args));
}

// ---------------------------------------------------------------- reset

/// The options of `reset` read so far.
pub ghost struct ResetScan {
    pub files: Seq<Seq<char>>,
    pub soft: bool,
    pub mixed: bool,
    pub hard: bool,
    pub force: bool,
    pub reuse_message: Option<Seq<char>>,
}

/// Reads the arguments of `reset` from position `i` on.
pub open spec fn reset_scan(args: ArgsView, i: int, st: ResetScan) -> Result<ResetScan, Seq<char>>
    decreases args.len() - i,
{
    if i < 0 || i >= args.len() {
        Ok(st)
    } else {
        let a = args[i];
        if a == "--soft"@ {
            reset_scan(args, i + 1, ResetScan { soft: true, ..st })
        } else if a == "--mixed"@ {
            reset_scan(args, i + 1, ResetScan { mixed: true, ..st })
        } else if a == "--hard"@ {
            reset_scan(args, i + 1, ResetScan { hard: true, ..st })
        } else if a == "--force"@ || a == "-f"@ {
            reset_scan(args, i + 1, ResetScan { force: true, ..st })
        } else if a == "--reuse-message"@ || a == "-C"@ {
            if i + 1 < args.len() {
                reset_scan(args, i + 2, ResetScan { reuse_message: Some(args[i + 1]), ..st })
            } else {
                Err("--reuse-message requires a value"@)
            }
        } else if flag_like(a) {
            Err("Unknown option for reset: "@ + a)
        } else {
            reset_scan(args, i + 1, ResetScan { files: st.files.push(a), ..st })
        }
    }
}

/// The options of `reset` before any is read.
pub open spec fn reset_start() -> ResetScan {
    ResetScan {
        files: Seq::empty(),
        soft: false,
        mixed: false,
        hard: false,
        force: false,
        reuse_message: None,
    }
}

/// `reset`.
pub open spec fn reset_spec(args: ArgsView) -> Result<CommandView, Seq<char>> {
    match reset_scan(args, 2, reset_start()) {
        Err(m) => Err(m),
        Ok(st) => Ok(
            CommandView::Reset {
                files: st.files,
                soft: st.soft,
                mixed: st.mixed,
                hard: st.hard,
                force: st.force,
                reuse_message: st.reuse_message,
            },
        ),
    }
}

/// The options that `reset` knows, besides `-C`/`--reuse-message` and its
/// value.
pub open spec fn reset_flag(a: Seq<char>) -> bool {
    a == "--soft"@ || a == "--mixed"@ || a == "--hard"@ || a == "--force"@ || a == "-f"@
}

/// Every argument from position `i` on that starts with `-` is a flag that
/// `reset` knows.
pub open spec fn reset_flags_only(args: ArgsView, i: int) -> bool {
    forall|j: int| i <= j < args.len() && flag_like(#[trigger] args[j]) ==> reset_flag(args[j])
}

proof fn lemma_reset_scan_from(args: ArgsView, i: int, st: ResetScan)
    requires
        0 <= i <= args.len(),
        reset_flags_only(args, i),
    ensures
        reset_scan(args, i, st) == Ok::<ResetScan, Seq<char>>(
            ResetScan {
                files: st.files + positionals(args, i),
                soft: st.soft || given(args, i, "--soft"@, "--soft"@),
                mixed: st.mixed || given(args, i, "--mixed"@, "--mixed"@),
                hard: st.hard || given(args, i, "--hard"@, "--hard"@),
                force: st.force || given(args, i, "--force"@, "-f"@),
                reuse_message: st.reuse_message,
            },
        ),
    decreases args.len() - i,
{
    reveal_strlit("--soft");
    reveal_strlit("--mixed");
    reveal_strlit("--hard");
    reveal_strlit("--force");
    reveal_strlit("-f");
    reveal_strlit("--reuse-message");
    reveal_strlit("-C");
    if i < args.len() {
        lemma_given_step(args, i, "--soft"@, "--soft"@);
        lemma_given_step(args, i, "--mixed"@, "--mixed"@);
        lemma_given_step(args, i, "--hard"@, "--hard"@);
        lemma_given_step(args, i, "--force"@, "-f"@);
        assert("--soft"@[2] != "--mixed"@[2] && "--soft"@[2] != "--hard"@[2] && "--soft"@[2]
            != "--force"@[2] && "--mixed"@[2] != "--hard"@[2] && "--mixed"@[2] != "--force"@[2]
            && "--hard"@[2] != "--force"@[2]);
        assert("-f"@[1] != "-C"@[1]);
        let a = args[i];
        assert(reset_flags_only(args, i + 1));
        if a == "--soft"@ {
            assert(flag_like(a));
            lemma_reset_scan_from(args, i + 1, ResetScan { soft: true, ..st });
        } else if a == "--mixed"@ {
            assert(flag_like(a));
            lemma_reset_scan_from(args, i + 1, ResetScan { mixed: true, ..st });
        } else if a == "--hard"@ {
            assert(flag_like(a));
            lemma_reset_scan_from(args, i + 1, ResetScan { hard: true, ..st });
        } else if a == "--force"@ || a == "-f"@ {
            assert(flag_like(a));
            lemma_reset_scan_from(args, i + 1, ResetScan { force: true, ..st });
        } else {
            assert(!flag_like(a));
            let st2 = ResetScan { files: st.files.push(a), ..st };
            lemma_reset_scan_from(args, i + 1, st2);
            assert(st2.files + positionals(args, i + 1) =~= st.files + positionals(args, i));
        }
    } else {
        assert(st.files + positionals(args, i) =~= st.files);
    }
}

/// What `reset` makes of arguments that hold no option but `--soft`,
/// `--mixed`, `--hard` and `-f`/`--force`: each of those anywhere sets its
/// field, and the other arguments are the files, in order.
pub proof fn lemma_reset_options(args: ArgsView, files: FileTable)
    requires
        args.len() >= 2,
        command_word(args[1]) == "reset"@,
        reset_flags_only(args, 2),
    ensures
        parse_spec(args, files) == Ok::<CommandView, Seq<char>>(
            CommandView::Reset {
                files: positionals(args, 2),
                soft: given(args, 2, "--soft"@, "--soft"@),
                mixed: given(args, 2, "--mixed"@, "--mixed"@),
                hard: given(args, 2, "--hard"@, "--hard"@),
                force: given(args, 2, "--force"@, "-f"@),
                reuse_message: None,
            },
        ),
{
    reveal_strlit("reset");
    reveal_strlit("init");
    reveal_strlit("commit");
    reveal_strlit("add");
    reveal_strlit("status");
    reveal_strlit("diff");
    reveal_strlit("branch");
    reveal_strlit("checkout");
    reveal_strlit("log");
    reveal_strlit("rm");
    reveal_strlit("merge");
    lemma_reset_scan_from(args, 2, reset_start());
    assert(Seq::<Seq<char>>::empty() + positionals(args, 2) =~= positionals(args, 2));
    assert("reset"@.len() == 5 && "init"@.len() == 4 && "commit"@.len() == 6 && "add"@.len() == 3
        && "status"@.len() == 6 && "diff"@.len() == 4 && "branch"@.len() == 6 && "checkout"@.len()
        == 8 && "log"@.len() == 3 && "rm"@.len() == 2 && "merge"@.len() == 5);
    assert("reset"@[0] != "merge"@[0]);
    assert(parse_spec(args, files) == reset_spec(args));
}

// ---------------------------------------------------------------- cherry-pick, revert

/// The options of `cherry-pick` or `revert` read so far.
pub ghost struct PickScan {
    pub commits: Seq<Seq<char>>,
    pub continue_op: bool,
    pub abort: bool,
    pub quit: bool,
    pub mainline: Option<u32>,
}

/// Reads the arguments of `cherry-pick` or `revert` (named `name`) from
/// position `i` on.
pub open spec fn pick_scan(args: ArgsView, name: Seq<char>, i: int, st: PickScan) -> Result<
    PickScan,
    Seq<char>,
>
    decreases args.len() - i,
{
    if i < 0 || i >= args.len() {
        Ok(st)
    } else {
        let a = args[i];
        if a == "--continue"@ {
            pick_scan(args, name, i + 1, PickScan { continue_op: true, ..st })
        } else if a == "--abort"@ {
            pick_scan(args, name, i + 1, PickScan { abort: true, ..st })
        } else if a == "--quit"@ {
            pick_scan(args, name, i + 1, PickScan { quit: true, ..st })
        } else if a == "-m"@ || a == "--mainline"@ {
            if i + 1 < args.len() {
                match parse_unsigned(args[i + 1], 10, 0xffff_ffff) {
                    Some(v) => pick_scan(
                        args,
                        name,
                        i + 2,
                        PickScan { mainline: Some(v as u32), ..st },
                    ),
                    None => Err("--mainline requires a positive integer"@),
                }
            } else {
                Err("--mainline requires a value"@)
            }
        } else if flag_like(a) {
            Err("Unknown option for "@ + name + ": "@ + a)
        } else {
            pick_scan(args, name, i + 1, PickScan { commits: st.commits.push(a), ..st })
        }
    }
}

/// The options of `cherry-pick` or `revert` before any is read.
pub open spec fn pick_start() -> PickScan {
    PickScan { commits: Seq::empty(), continue_op: false, abort: false, quit: false, mainline: None }
}

/// The result of `cherry-pick` or `revert`: at most one of `--continue`,
/// `--abort` and `--quit`, not with commits, and commits without them.
pub open spec fn pick_result(args: ArgsView, name: Seq<char>) -> Result<PickScan, Seq<char>> {
    match pick_scan(args, name, 2, pick_start()) {
        Err(m) => Err(m),
        Ok(st) => {
            let any = st.continue_op || st.abort || st.quit;
            if (st.continue_op && st.abort) || (st.continue_op && st.quit) || (st.abort && st.quit) {
                Err("Cannot combine --continue, --abort, and --quit"@)
            } else if any && st.commits.len() != 0 {
                Err("Cannot combine --continue, --abort, or --quit with commits"@)
            } else if st.commits.len() == 0 && !any {
                Err(name + " requires at least one commit"@)
            } else {
                Ok(st)
            }
        },
    }
}

/// Every argument from position `i` on that starts with `-` is one of
/// `--continue`, `--abort` and `--quit`.
pub open spec fn pick_flags_only(args: ArgsView, i: int) -> bool {
    forall|j: int|
        i <= j < args.len() && flag_like(#[trigger] args[j]) ==> args[j] == "--continue"@ || args[j]
            == "--abort"@ || args[j] == "--quit"@
}

proof fn lemma_pick_scan_from(args: ArgsView, name: Seq<char>, i: int, st: PickScan)
    requires
        0 <= i <= args.len(),
        pick_flags_only(args, i),
    ensures
        pick_scan(args, name, i, st) == Ok::<PickScan, Seq<char>>(
            PickScan {
                commits: st.commits + positionals(args, i),
                continue_op: st.continue_op || given(args, i, "--continue"@, "--continue"@),
                abort: st.abort || given(args, i, "--abort"@, "--abort"@),
                quit: st.quit || given(args, i, "--quit"@, "--quit"@),
                mainline: st.mainline,
            },
        ),
    decreases args.len() - i,
{
    reveal_strlit("--continue");
    reveal_strlit("--abort");
    reveal_strlit("--quit");
    reveal_strlit("-m");
    reveal_strlit("--mainline");
    if i < args.len() {
        lemma_given_step(args, i, "--continue"@, "--continue"@);
        lemma_given_step(args, i, "--abort"@, "--abort"@);
        lemma_given_step(args, i, "--quit"@, "--quit"@);
        assert("--continue"@[2] != "--abort"@[2] && "--continue"@[2] != "--quit"@[2]
            && "--abort"@[2] != "--quit"@[2] && "--continue"@[2] != "--mainline"@[2]
            && "--abort"@[2] != "--mainline"@[2] && "--quit"@[2] != "--mainline"@[2]);
        let a = args[i];
        assert(pick_flags_only(args, i + 1));
        if a == "--continue"@ {
            assert(flag_like(a));
            lemma_pick_scan_from(args, name, i + 1, PickScan { continue_op: true, ..st });
        } else if a == "--abort"@ {
            assert(flag_like(a));
            lemma_pick_scan_from(args, name, i + 1, PickScan { abort: true, ..st });
        } else if a == "--quit"@ {
            assert(flag_like(a));
            lemma_pick_scan_from(args, name, i + 1, PickScan { quit: true, ..st });
        } else {
            assert(!flag_like(a));
            let st2 = PickScan { commits: st.commits.push(a), ..st };
            lemma_pick_scan_from(args, name, i + 1, st2);
            assert(st2.commits + positionals(args, i + 1) =~= st.commits + positionals(args, i));
        }
    } else {
        assert(st.commits + positionals(args, i) =~= st.commits);
    }
}

/// What `cherry-pick` and `revert` make of arguments that hold no option
/// but `--continue`, `--abort` and `--quit`: the other arguments are the
/// commits, in order, and each of those options anywhere sets its field.
/// Two of the options together are refused, one of them with commits is
/// refused, and neither commits nor an option is refused.
pub proof fn lemma_pick_options(args: ArgsView, name: Seq<char>)
    requires
        args.len() >= 2,
        pick_flags_only(args, 2),
    ensures
        ({
            let commits = positionals(args, 2);
            let c = given(args, 2, "--continue"@, "--continue"@);
            let a = given(args, 2, "--abort"@, "--abort"@);
            let q = given(args, 2, "--quit"@, "--quit"@);
            &&& (c && a) || (c && q) || (a && q) ==> pick_result(args, name) == Err::<
                PickScan,
                Seq<char>,
            >("Cannot combine --continue, --abort, and --quit"@)
            &&& !((c && a) || (c && q) || (a && q)) && (c || a || q) && commits.len() > 0
                ==> pick_result(args, name) == Err::<PickScan, Seq<char>>(
                "Cannot combine --continue, --abort, or --quit with commits"@,
            )
            &&& !(c || a || q) && commits.len() == 0 ==> pick_result(args, name) == Err::<
                PickScan,
                Seq<char>,
            >(name + " requires at least one commit"@)
            &&& !((c && a) || (c && q) || (a && q)) && ((c || a || q) == (commits.len() == 0))
                ==> pick_result(args, name) == Ok::<PickScan, Seq<char>>(
                PickScan { commits, continue_op: c, abort: a, quit: q, mainline: None },
            )
        }),
{
    lemma_pick_scan_from(args, name, 2, pick_start());
    assert(Seq::<Seq<char>>::empty() + positionals(args, 2) =~= positionals(args, 2));
}

/// `cherry-pick`.
pub open spec fn cherry_pick_spec(args: ArgsView) -> Result<CommandView, Seq<char>> {
    match pick_result(args, "cherry-pick"@) {
        Err(m) => Err(m),
        Ok(st) => Ok(
            CommandView::CherryPick {
                args: st.commits,
                continue_op: st.continue_op,
                abort: st.abort,
                quit: st.quit,
                mainline: st.mainline,
            },
        ),
    }
}

/// `revert`.
pub open spec fn revert_spec(args: ArgsView) -> Result<CommandView, Seq<char>> {
    match pick_result(args, "revert"@) {
        Err(m) => Err(m),
        Ok(st) => Ok(
            CommandView::Revert {
                args: st.commits,
                continue_op: st.continue_op,
                abort: st.abort,
                quit: st.quit,
                mainline: st.mainline,
            },
        ),
    }
}

// ---------------------------------------------------------------- the whole line

/// The command named by the command line (lower-cased), with its options,
/// or the message of the error it gives.
pub open spec fn parse_spec(args: ArgsView, files: FileTable) -> Result<CommandView, Seq<char>> {
    if args.len() < 2 {
        Err(usage_error())
    } else {
        let c = command_word(args[1]);
        if c == "init"@ {
            Ok(CommandView::Init { path: if args.len() > 2 { args[2] } else { "."@ } })
        } else if c == "commit"@ {
            commit_spec(args, files)
        } else if c == "add"@ {
            if args.len() < 3 {
                Err("File path(s) are required for add command"@)
            } else {
                Ok(CommandView::Add { paths: args.subrange(2, args.len() as int) })
            }
        } else if c == "status"@ {
            Ok(status_spec(args))
        } else if c == "diff"@ {
            Ok(diff_spec(args))
        } else if c == "branch"@ {
            branch_spec(args)
        } else if c == "checkout"@ {
            if args.len() < 3 {
                Err("No checkout target specified (branch, commit, or path)"@)
            } else {
                Ok(CommandView::Checkout { target: args[2] })
            }
        } else if c == "log"@ {
            log_spec(args)
        } else if c == "rm"@ {
            rm_spec(args)
        } else if c == "merge"@ {
            merge_spec(args)
        } else if c == "reset"@ {
            reset_spec(args)
        } else if c == "cherry-pick"@ {
            cherry_pick_spec(args)
        } else if c == "revert"@ {
            revert_spec(args)
        } else {
            Ok(CommandView::Unknown { name: c })
        }
    }
}

/// The inputs that `parse` takes: the files that `commit` reads are in the
/// table, and a `--color` of `status` has a value after it.
pub open spec fn parse_allowed(args: ArgsView, files: FileTable) -> bool {
    args.len() >= 2 ==> {
        &&& command_word(args[1]) == "commit"@ ==> message_files_present(args, files)
        &&& command_word(args[1]) == "status"@ ==> status_color_has_value(args)
    }
}

/// A command result agrees with its description: the same command, or a
/// `Generic` error with the same message.
pub open spec fn command_matches(r: Result<Command, Error>, s: Result<CommandView, Seq<char>>) -> bool {
    match r {
        Ok(c) => s matches Ok(v) && c@ == v,
        Err(e) => s matches Err(m) && e is Generic && e.message_view()@ == m,
    }
}

/// A parse result agrees with its description.
pub open spec fn cli_matches(r: Result<CliArgs, Error>, s: Result<CommandView, Seq<char>>) -> bool {
    match r {
        Ok(a) => s matches Ok(v) && a.command@ == v,
        Err(e) => s matches Err(m) && e is Generic && e.message_view()@ == m,
    }
}


// ---------------------------------------------------------------- executable helpers

/// Whether an argument equals the given text.
fn is_lit(a: &String, l: &str) -> (r: bool)
    ensures
        r == (a@ == l@),
{
    str_eq(a.as_str(), l)
}

/// Whether an argument starts with the given text.
fn has_prefix(a: &String, l: &str) -> (r: bool)
    ensures
        r == is_prefix(l@, a@),
{
    let ac = chars_of(a.as_str());
    let lc = chars_of(l);
    starts_with(ac.as_slice(), lc.as_slice())
}

/// Whether an argument looks like an option.
fn is_flag(a: &String) -> (r: bool)
    ensures
        r == flag_like(a@),
{
    let ac = chars_of(a.as_str());
    ac.len() > 0 && ac[0] == '-'
}

/// What follows the first `=` of an argument, if it has one.
fn after_eq(a: &String) -> (r: Option<String>)
    ensures
        opt_view(r) == after_char(a@, '='),
{
    let ac = chars_of(a.as_str());
    match find_char_in(ac.as_slice(), '=') {
        Some(k) => {
            proof {
                crate::text::lemma_find_char_bound(ac@, '=');
                assert(find_char(ac@, '=') == Some(k as nat));
                assert(k < ac.len());
            }
            let rest = slice_chars(ac.as_slice(), k + 1, ac.len());
            Some(string_from_chars(rest.as_slice()))
        },
        None => None,
    }
}

/// `a` followed by `b`.
fn cat2(a: &str, b: &str) -> (r: String)
    ensures
        r@ == a@ + b@,
{
    let mut s = a.to_owned();
    push_str(&mut s, b);
    s
}

/// `a`, `b` and `c` one after another.
fn cat3(a: &str, b: &str, c: &str) -> (r: String)
    ensures
        r@ == a@ + b@ + c@,
{
    let mut s = a.to_owned();
    push_str(&mut s, b);
    push_str(&mut s, c);
    s
}

/// A `Generic` error with the given message.
fn generic(m: String) -> (e: Error)
    ensures
        e is Generic,
        e.message_view()@ == m@,
{
    Error::Generic(m)
}

/// The position in the table of the first entry for a path.
fn lookup_file(files: &Vec<(String, Result<String, String>)>, p: &String) -> (r: Option<usize>)
    ensures
        r matches Some(j) ==> j < files.len() && read_result(files_view(files@), p@) == Some(
            read_view(files@[j as int].1),
        ),
        r is None ==> read_result(files_view(files@), p@) is None,
{
    let ghost fv = files_view(files@);
    let mut j: usize = 0;
    assert(fv.subrange(0, fv.len() as int) =~= fv);
    while j < files.len()
        invariant
            j <= files.len(),
            fv == files_view(files@),
            read_result(fv.subrange(j as int, fv.len() as int), p@) == read_result(fv, p@),
        decreases files.len() - j,
    {
        let ghost rest = fv.subrange(j as int, fv.len() as int);
        assert(rest[0] == fv[j as int]);
        if is_lit(&files[j].0, p.as_str()) {
            return Some(j);
        }
        assert(rest.drop_first() =~= fv.subrange(j + 1, fv.len() as int));
        j += 1;
    }
    None
}

/// A copy of a string.
fn copy_string(s: &String) -> (r: String)
    ensures
        r@ == s@,
{
    s.clone()
}

/// A copy of a list of strings.
fn copy_strings(v: &Vec<String>) -> (r: Vec<String>)
    ensures
        strings_view(r@) == strings_view(v@),
{
    let mut r: Vec<String> = Vec::new();
    let mut i: usize = 0;
    while i < v.len()
        invariant
            i <= v.len(),
            strings_view(r@) == strings_view(v@).take(i as int),
        decreases v.len() - i,
    {
        push_copy(&mut r, &v[i]);
        i += 1;
        assert(strings_view(r@) =~= strings_view(v@).take(i as int));
    }
    assert(strings_view(v@).take(v.len() as int) =~= strings_view(v@));
    r
}

/// The arguments from a position on.
fn strings_from(v: &Vec<String>, from: usize) -> (r: Vec<String>)
    requires
        from <= v.len(),
    ensures
        strings_view(r@) == strings_view(v@).subrange(from as int, v.len() as int),
{
    let mut r: Vec<String> = Vec::new();
    let mut i: usize = from;
    while i < v.len()
        invariant
            from <= i <= v.len(),
            strings_view(r@) == strings_view(v@).subrange(from as int, i as int),
        decreases v.len() - i,
    {
        push_copy(&mut r, &v[i]);
        i += 1;
        assert(strings_view(r@) =~= strings_view(v@).subrange(from as int, i as int));
    }
    r
}

/// Adds a copy of a string to a list.
fn push_copy(v: &mut Vec<String>, s: &String)
    ensures
        strings_view(final(v)@) == strings_view(old(v)@).push(s@),
{
    let ghost v0 = strings_view(v@);
    v.push(copy_string(s));
    assert(strings_view(v@) =~= v0.push(s@));
}

/// A copy of an optional string.
fn copy_opt(o: &Option<String>) -> (r: Option<String>)
    ensures
        opt_view(r) == opt_view(*o),
{
    match o {
        Some(s) => Some(copy_string(s)),
        None => None,
    }
}


/// The state of a `commit` scan as values.
spec fn commit_state(
    message: Option<String>,
    amend: bool,
    reuse_message: Option<String>,
    edit: bool,
) -> CommitScan {
    CommitScan { message: opt_view(message), amend, reuse_message: opt_view(reuse_message), edit }
}

/// `commit` and its options.
#[verifier::rlimit(40)]
fn parse_commit(args: &Vec<String>, files: &Vec<(String, Result<String, String>)>) -> (r: Result<
    Command,
    Error,
>)
    requires
        message_files_present(strings_view(args@), files_view(files@)),
    ensures
        command_matches(r, commit_spec(strings_view(args@), files_view(files@))),
{
    let ghost av = strings_view(args@);
    let ghost fv = files_view(files@);
    let ghost goal = commit_scan(av, fv, 2, commit_start());
    let mut message: Option<String> = None;
    let mut amend = false;
    let mut reuse_message: Option<String> = None;
    let mut edit = false;
    let mut i: usize = 2;
    while i < args.len()
        invariant
            av == strings_view(args@),
            fv == files_view(files@),
            message_files_present(av, fv),
            2 <= i,
            goal == commit_scan(av, fv, 2, commit_start()),
            commit_scan(av, fv, i as int, commit_state(message, amend, reuse_message, edit))
                == goal,
        decreases args.len() - i,
    {
        let a = &args[i];
        assert(av[i as int] == a@);
        if is_lit(a, "--message") || is_lit(a, "-m") {
            if i + 1 < args.len() {
                assert(av[i + 1] == args@[i + 1]@);
                message = Some(copy_string(&args[i + 1]));
                i += 2;
            } else {
                return Err(generic("--message requires a value".to_owned()));
            }
        } else if is_lit(a, "--amend") {
            amend = true;
            i += 1;
        } else if is_lit(a, "--edit") || is_lit(a, "-e") {
            edit = true;
            i += 1;
        } else if is_lit(a, "--reuse-message") || is_lit(a, "-C") {
            if i + 1 < args.len() {
                assert(av[i + 1] == args@[i + 1]@);
                reuse_message = Some(copy_string(&args[i + 1]));
                i += 2;
            } else {
                return Err(generic("--reuse-message requires a value".to_owned()));
            }
        } else if is_lit(a, "--reedit-message") || is_lit(a, "-c") {
            if i + 1 < args.len() {
                assert(av[i + 1] == args@[i + 1]@);
                reuse_message = Some(copy_string(&args[i + 1]));
                edit = true;
                i += 2;
            } else {
                return Err(generic("--reedit-message requires a value".to_owned()));
            }
        } else if is_lit(a, "--file") || is_lit(a, "-F") {
            if i + 1 < args.len() {
                let p = &args[i + 1];
                assert(av[i + 1] == p@);
                assert(names_message_file(av, i as int));
                match lookup_file(files, p) {
                    Some(j) => {
                        match &files[j].1 {
                            Ok(content) => {
                                message = Some(copy_string(content));
                                i += 2;
                            },
                            Err(e) => {
                                return Err(
                                    generic(cat2("Failed to read message file: ", e.as_str())),
                                );
                            },
                        }
                    },
                    None => {
                        assert(false);
                        return Err(generic(String::new()));
                    },
                }
            } else {
                return Err(generic("--file requires a value".to_owned()));
            }
        } else {
            return Err(generic(cat2("Unknown option for commit: ", a.as_str())));
        }
    }
    if message.is_none() && reuse_message.is_none() && !amend {
        return Err(
            generic(
                "Commit message is required. Use --message/-m, --file/-F, --reuse-message/-C, or --amend".to_owned(),
            ),
        );
    }
    let message = match message {
        Some(m) => m,
        None => String::new(),
    };
    Ok(Command::Commit { message, amend, reuse_message, edit })
}


/// The color setting of `status`.
fn status_color_of(args: &Vec<String>) -> (r: String)
    requires
        status_color_has_value(strings_view(args@)),
    ensures
        r@ == status_color(strings_view(args@)),
{
    let ghost av = strings_view(args@);
    let mut k: usize = 2;
    if args.len() < 2 {
        return "auto".to_owned();
    }
    while k < args.len()
        invariant
            av == strings_view(args@),
            status_color_has_value(av),
            2 <= k <= args.len(),
            color_index(av, k as int) == color_index(av, 2),
        decreases args.len() - k,
    {
        let a = &args[k];
        assert(av[k as int] == a@);
        if is_lit(a, "--color") {
            assert(k + 1 < args.len());
            assert(av[k + 1] == args@[k + 1]@);
            return copy_string(&args[k + 1]);
        } else if has_prefix(a, "--color=") {
            return match after_eq(a) {
                Some(v) => v,
                None => "auto".to_owned(),
            };
        }
        k += 1;
    }
    "auto".to_owned()
}

/// `status` and its options.
fn parse_status(args: &Vec<String>) -> (r: Command)
    requires
        args.len() >= 2,
        status_color_has_value(strings_view(args@)),
    ensures
        r@ == status_spec(strings_view(args@)),
{
    let ghost av = strings_view(args@);
    let mut porcelain = false;
    let mut k: usize = 2;
    while k < args.len()
        invariant
            av == strings_view(args@),
            2 <= k <= args.len(),
            porcelain == exists|j: int| 2 <= j < k && #[trigger] av[j] == "--porcelain"@,
        decreases args.len() - k,
    {
        assert(av[k as int] == args@[k as int]@);
        if is_lit(&args[k], "--porcelain") {
            porcelain = true;
        }
        k += 1;
    }
    let color = status_color_of(args);
    Command::Status { porcelain, color }
}


/// `diff` and its options.
fn parse_diff(args: &Vec<String>) -> (r: Command)
    requires
        args.len() >= 2,
    ensures
        r@ == diff_spec(strings_view(args@)),
{
    let ghost av = strings_view(args@);
    let mut paths: Vec<String> = Vec::new();
    let mut cached = false;
    let mut i: usize = 2;
    assert(strings_view(paths@) =~= Seq::<Seq<char>>::empty());
    while i < args.len()
        invariant
            av == strings_view(args@),
            2 <= i <= args.len(),
            diff_scan(av, i as int, strings_view(paths@), cached) == diff_scan(
                av,
                2,
                Seq::empty(),
                false,
            ),
        decreases args.len() - i,
    {
        let a = &args[i];
        assert(av[i as int] == a@);
        if is_lit(a, "--cached") || is_lit(a, "--staged") {
            cached = true;
        } else if !is_flag(a) {
            push_copy(&mut paths, a);
        }
        i += 1;
    }
    Command::Diff { paths, cached }
}

/// The state of a `branch` scan as values.
spec fn branch_state(
    name: String,
    start_point: Option<String>,
    verbose: bool,
    delete: bool,
    force: bool,
) -> BranchScan {
    BranchScan { name: name@, start_point: opt_view(start_point), verbose, delete, force }
}

/// `branch` and its options.
#[verifier::rlimit(30)]
fn parse_branch(args: &Vec<String>) -> (r: Result<Command, Error>)
    requires
        args.len() >= 2,
    ensures
        command_matches(r, branch_spec(strings_view(args@))),
{
    let ghost av = strings_view(args@);
    let mut name = String::new();
    let mut start_point: Option<String> = None;
    let mut verbose = false;
    let mut delete = false;
    let mut force = false;
    let ghost goal = branch_scan(av, 2, branch_start());
    assert(branch_state(name, start_point, verbose, delete, force) == branch_start());
    let mut i: usize = 2;
    while i < args.len()
        invariant
            av == strings_view(args@),
            2 <= i <= args.len(),
            goal == branch_scan(av, 2, branch_start()),
            branch_scan(av, i as int, branch_state(name, start_point, verbose, delete, force))
                == goal,
        decreases args.len() - i,
    {
        let a = &args[i];
        assert(av[i as int] == a@);
        if is_lit(a, "-v") || is_lit(a, "--verbose") {
            verbose = true;
        } else if is_lit(a, "-d") || is_lit(a, "--delete") {
            delete = true;
        } else if is_lit(a, "-f") || is_lit(a, "--force") {
            force = true;
        } else if is_lit(a, "-D") {
            delete = true;
            force = true;
        } else if is_flag(a) {
        } else if name.as_str().is_empty() {
            name = copy_string(a);
        } else if start_point.is_none() {
            start_point = Some(copy_string(a));
        } else {
            return Err(generic(cat2("Unexpected argument for branch: ", a.as_str())));
        }
        i += 1;
    }
    if delete && name.as_str().is_empty() {
        return Err(generic("Branch name required for delete operation".to_owned()));
    }
    Ok(Command::Branch { name, start_point, verbose, delete, force })
}

/// The state of a `log` scan as values.
spec fn log_state(
    revisions: Vec<String>,
    abbrev: bool,
    format: String,
    patch: bool,
    decorate: String,
) -> LogScan {
    LogScan { revisions: strings_view(revisions@), abbrev, format: format@, patch, decorate: decorate@ }
}

/// `log` and its options.
#[verifier::rlimit(60)]
fn parse_log(args: &Vec<String>) -> (r: Result<Command, Error>)
    requires
        args.len() >= 2,
    ensures
        command_matches(r, log_spec(strings_view(args@))),
{
    let ghost av = strings_view(args@);
    let mut revisions: Vec<String> = Vec::new();
    let mut abbrev = false;
    let mut format = "medium".to_owned();
    let mut patch = false;
    let mut decorate = "auto".to_owned();
    let ghost goal = log_scan(av, 2, log_start());
    assert(strings_view(revisions@) =~= Seq::<Seq<char>>::empty());
    assert(log_state(revisions, abbrev, format, patch, decorate) == log_start());
    let mut i: usize = 2;
    while i < args.len()
        invariant
            av == strings_view(args@),
            2 <= i <= args.len(),
            goal == log_scan(av, 2, log_start()),
            log_scan(av, i as int, log_state(revisions, abbrev, format, patch, decorate)) == goal,
        decreases args.len() - i,
    {
        let a = &args[i];
        assert(av[i as int] == a@);
        if is_lit(a, "--abbrev-commit") {
            abbrev = true;
        } else if is_lit(a, "--no-abbrev-commit") {
            abbrev = false;
        } else if is_lit(a, "--pretty") || is_lit(a, "--format") {
            if i + 1 < args.len() {
                assert(av[i + 1] == args@[i + 1]@);
                format = copy_string(&args[i + 1]);
                i += 1;
            } else {
                return Err(generic(cat3("Option '", a.as_str(), "' requires a value")));
            }
        } else if has_prefix(a, "--pretty=") || has_prefix(a, "--format=") {
            match after_eq(a) {
                Some(v) => {
                    format = v;
                },
                None => {
                    return Err(generic(cat3("Invalid format for option '", a.as_str(), "'")));
                },
            }
        } else if is_lit(a, "--oneline") {
            format = "oneline".to_owned();
            abbrev = true;
        } else if is_lit(a, "-p") || is_lit(a, "-u") || is_lit(a, "--patch") {
            patch = true;
        } else if is_lit(a, "-s") || is_lit(a, "--no-patch") {
            patch = false;
        } else if is_lit(a, "--decorate") {
            decorate = "auto".to_owned();
        } else if has_prefix(a, "--decorate=") {
            match after_eq(a) {
                Some(v) => {
                    decorate = v;
                },
                None => {
                    return Err(generic(cat3("Invalid format for option '", a.as_str(), "'")));
                },
            }
        } else if is_lit(a, "--no-decorate") {
            decorate = "no".to_owned();
        } else if is_flag(a) {
            return Err(generic(cat2("Unknown option for log: ", a.as_str())));
        } else {
            push_copy(&mut revisions, a);
        }
        i += 1;
    }
    Ok(Command::Log { revisions, abbrev, format, patch, decorate })
}

/// The state of an `rm` scan as values.
spec fn rm_state(files: Vec<String>, cached: bool, force: bool, recursive: bool) -> RmScan {
    RmScan { files: strings_view(files@), cached, force, recursive }
}

/// `rm` and its options.
fn parse_rm(args: &Vec<String>) -> (r: Result<Command, Error>)
    requires
        args.len() >= 2,
    ensures
        command_matches(r, rm_spec(strings_view(args@))),
{
    let ghost av = strings_view(args@);
    let mut files: Vec<String> = Vec::new();
    let mut cached = false;
    let mut force = false;
    let mut recursive = false;
    let ghost goal = rm_scan(av, 2, rm_start());
    assert(strings_view(files@) =~= Seq::<Seq<char>>::empty());
    assert(rm_state(files, cached, force, recursive) == rm_start());
    let mut i: usize = 2;
    while i < args.len()
        invariant
            av == strings_view(args@),
            2 <= i <= args.len(),
            goal == rm_scan(av, 2, rm_start()),
            rm_scan(av, i as int, rm_state(files, cached, force, recursive)) == goal,
        decreases args.len() - i,
    {
        let a = &args[i];
        assert(av[i as int] == a@);
        if is_lit(a, "--cached") {
            cached = true;
        } else if is_lit(a, "-f") || is_lit(a, "--force") {
            force = true;
        } else if is_lit(a, "-r") || is_lit(a, "--recursive") {
            recursive = true;
        } else if is_flag(a) {
            return Err(generic(cat2("Unknown option for rm: ", a.as_str())));
        } else {
            push_copy(&mut files, a);
        }
        i += 1;
    }
    if files.len() == 0 {
        return Err(generic("No files specified for removal".to_owned()));
    }
    Ok(Command::Rm { files, cached, force, recursive })
}


/// The state of a `merge` scan as values.
spec fn merge_state(
    branch: String,
    message: Option<String>,
    abort: bool,
    continue_merge: bool,
    tool: Option<String>,
) -> MergeScan {
    MergeScan {
        branch: branch@,
        message: opt_view(message),
        abort,
        continue_merge,
        tool: opt_view(tool),
    }
}

/// `merge` and its options.
#[verifier::rlimit(30)]
fn parse_merge(args: &Vec<String>) -> (r: Result<Command, Error>)
    requires
        args.len() >= 2,
    ensures
        command_matches(r, merge_spec(strings_view(args@))),
{
    let ghost av = strings_view(args@);
    let mut branch = String::new();
    let mut message: Option<String> = None;
    let mut abort = false;
    let mut continue_merge = false;
    let mut tool: Option<String> = None;
    let ghost goal = merge_scan(av, 2, merge_start());
    assert(merge_state(branch, message, abort, continue_merge, tool) == merge_start());
    let mut i: usize = 2;
    while i < args.len()
        invariant
            av == strings_view(args@),
            2 <= i <= args.len(),
            goal == merge_scan(av, 2, merge_start()),
            merge_scan(av, i as int, merge_state(branch, message, abort, continue_merge, tool))
                == goal,
        decreases args.len() - i,
    {
        let a = &args[i];
        assert(av[i as int] == a@);
        if is_lit(a, "--message") || is_lit(a, "-m") {
            if i + 1 < args.len() {
                assert(av[i + 1] == args@[i + 1]@);
                message = Some(copy_string(&args[i + 1]));
                i += 1;
            } else {
                return Err(generic(cat3("Option '", a.as_str(), "' requires a value")));
            }
        } else if is_lit(a, "--abort") {
            abort = true;
        } else if is_lit(a, "--continue") {
            continue_merge = true;
        } else if is_lit(a, "--tool") || is_lit(a, "-t") {
            if i + 1 < args.len() {
                assert(av[i + 1] == args@[i + 1]@);
                tool = Some(copy_string(&args[i + 1]));
                i += 1;
            } else {
                return Err(generic(cat3("Option '", a.as_str(), "' requires a value")));
            }
        } else if is_lit(a, "--tool-only") {
            tool = Some("default".to_owned());
        } else if is_flag(a) {
            return Err(generic(cat2("Unknown option for merge: ", a.as_str())));
        } else if branch.as_str().is_empty() {
            branch = copy_string(a);
        } else {
            return Err(generic(cat2("Unexpected argument for merge: ", a.as_str())));
        }
        i += 1;
    }
    let resolve_only = tool.is_some() && branch.as_str().is_empty() && !abort && !continue_merge;
    if branch.as_str().is_empty() && !abort && !continue_merge && !resolve_only {
        return Err(
            generic(
                "No branch specified for merge and not using --abort, --continue, or --tool".to_owned(),
            ),
        );
    }
    if !branch.as_str().is_empty() && (abort || continue_merge) {
        return Err(generic("Cannot specify branch name with --abort or --continue".to_owned()));
    }
    Ok(Command::Merge { branch, message, abort, continue_merge, tool })
}

/// The state of a `reset` scan as values.
spec fn reset_state(
    files: Vec<String>,
    soft: bool,
    mixed: bool,
    hard: bool,
    force: bool,
    reuse_message: Option<String>,
) -> ResetScan {
    ResetScan {
        files: strings_view(files@),
        soft,
        mixed,
        hard,
        force,
        reuse_message: opt_view(reuse_message),
    }
}

/// `reset` and its options.
#[verifier::rlimit(30)]
fn parse_reset(args: &Vec<String>) -> (r: Result<Command, Error>)
    requires
        args.len() >= 2,
    ensures
        command_matches(r, reset_spec(strings_view(args@))),
{
    let ghost av = strings_view(args@);
    let mut files: Vec<String> = Vec::new();
    let mut soft = false;
    let mut mixed = false;
    let mut hard = false;
    let mut force = false;
    let mut reuse_message: Option<String> = None;
    let ghost goal = reset_scan(av, 2, reset_start());
    assert(strings_view(files@) =~= Seq::<Seq<char>>::empty());
    assert(reset_state(files, soft, mixed, hard, force, reuse_message) == reset_start());
    let mut i: usize = 2;
    while i < args.len()
        invariant
            av == strings_view(args@),
            2 <= i <= args.len(),
            goal == reset_scan(av, 2, reset_start()),
            reset_scan(av, i as int, reset_state(files, soft, mixed, hard, force, reuse_message))
                == goal,
        decreases args.len() - i,
    {
        let a = &args[i];
        assert(av[i as int] == a@);
        if is_lit(a, "--soft") {
            soft = true;
            i += 1;
        } else if is_lit(a, "--mixed") {
            mixed = true;
            i += 1;
        } else if is_lit(a, "--hard") {
            hard = true;
            i += 1;
        } else if is_lit(a, "--force") || is_lit(a, "-f") {
            force = true;
            i += 1;
        } else if is_lit(a, "--reuse-message") || is_lit(a, "-C") {
            if i + 1 < args.len() {
                assert(av[i + 1] == args@[i + 1]@);
                reuse_message = Some(copy_string(&args[i + 1]));
                i += 2;
            } else {
                return Err(generic("--reuse-message requires a value".to_owned()));
            }
        } else if is_flag(a) {
            return Err(generic(cat2("Unknown option for reset: ", a.as_str())));
        } else {
            push_copy(&mut files, a);
            i += 1;
        }
    }
    Ok(Command::Reset { files, soft, mixed, hard, force, reuse_message })
}

/// The state of a `cherry-pick` or `revert` scan as values.
spec fn pick_state(
    commits: Vec<String>,
    continue_op: bool,
    abort: bool,
    quit: bool,
    mainline: Option<u32>,
) -> PickScan {
    PickScan { commits: strings_view(commits@), continue_op, abort, quit, mainline }
}

/// The options of `cherry-pick` or `revert`, named `name`.
#[verifier::rlimit(30)]
fn parse_pick(args: &Vec<String>, name: &str) -> (r: Result<
    (Vec<String>, bool, bool, bool, Option<u32>),
    Error,
>)
    requires
        args.len() >= 2,
    ensures
        match r {
            Ok(t) => pick_result(strings_view(args@), name@) == Ok::<PickScan, Seq<char>>(
                pick_state(t.0, t.1, t.2, t.3, t.4),
            ),
            Err(e) => pick_result(strings_view(args@), name@) matches Err(m) && e is Generic
                && e.message_view()@ == m,
        },
{
    let ghost av = strings_view(args@);
    let mut commits: Vec<String> = Vec::new();
    let mut continue_op = false;
    let mut abort = false;
    let mut quit = false;
    let mut mainline: Option<u32> = None;
    let ghost goal = pick_scan(av, name@, 2, pick_start());
    assert(strings_view(commits@) =~= Seq::<Seq<char>>::empty());
    assert(pick_state(commits, continue_op, abort, quit, mainline) == pick_start());
    let mut i: usize = 2;
    while i < args.len()
        invariant
            av == strings_view(args@),
            2 <= i <= args.len(),
            goal == pick_scan(av, name@, 2, pick_start()),
            pick_scan(av, name@, i as int, pick_state(commits, continue_op, abort, quit, mainline))
                == goal,
        decreases args.len() - i,
    {
        let a = &args[i];
        assert(av[i as int] == a@);
        if is_lit(a, "--continue") {
            continue_op = true;
            i += 1;
        } else if is_lit(a, "--abort") {
            abort = true;
            i += 1;
        } else if is_lit(a, "--quit") {
            quit = true;
            i += 1;
        } else if is_lit(a, "-m") || is_lit(a, "--mainline") {
            if i + 1 < args.len() {
                assert(av[i + 1] == args@[i + 1]@);
                let vc = chars_of(args[i + 1].as_str());
                match parse_unsigned_chars(vc.as_slice(), 10, 0xffff_ffff) {
                    Some(v) => {
                        mainline = Some(v as u32);
                        i += 2;
                    },
                    None => {
                        return Err(generic("--mainline requires a positive integer".to_owned()));
                    },
                }
            } else {
                return Err(generic("--mainline requires a value".to_owned()));
            }
        } else if is_flag(a) {
            let mut m = cat3("Unknown option for ", name, ": ");
            push_str(&mut m, a.as_str());
            return Err(generic(m));
        } else {
            push_copy(&mut commits, a);
            i += 1;
        }
    }
    let any = continue_op || abort || quit;
    if (continue_op && abort) || (continue_op && quit) || (abort && quit) {
        return Err(generic("Cannot combine --continue, --abort, and --quit".to_owned()));
    }
    if any && commits.len() != 0 {
        return Err(generic("Cannot combine --continue, --abort, or --quit with commits".to_owned()));
    }
    if commits.len() == 0 && !any {
        return Err(generic(cat2(name, " requires at least one commit")));
    }
    Ok((commits, continue_op, abort, quit, mainline))
}


/// Reads the command line.
pub struct CliParser;

impl CliParser {
    /// Reads a command line (program name first, then the command and its
    /// options) into the command it names. The command name is lower-cased;
    /// a name that no command has gives `Command::Unknown`. A line without a
    /// command gives the usage text as the error.
    #[verifier::rlimit(40)]
    pub fn parse(args: Vec<String>, files: &Vec<(String, Result<String, String>)>) -> (r: Result<
        CliArgs,
        Error,
    >)
        requires
            parse_allowed(strings_view(args@), files_view(files@)),
        ensures
            cli_matches(r, parse_spec(strings_view(args@), files_view(files@))),
    {
        let ghost av = strings_view(args@);
        if args.len() < 2 {
            let help = Self::format_help();
            let m = cat3("Usage: ash <command> [options]", "\n\n", help.as_str());
            return Err(generic(m));
        }
        assert(av[1] == args@[1]@);
        let command = to_lowercase(args[1].as_str());
        assert(command@ == command_word(av[1]));
        let r: Result<Command, Error> = if is_lit(&command, "init") {
            let path = if args.len() > 2 {
                assert(av[2] == args@[2]@);
                copy_string(&args[2])
            } else {
                ".".to_owned()
            };
            Ok(Command::Init { path })
        } else if is_lit(&command, "commit") {
            parse_commit(&args, files)
        } else if is_lit(&command, "add") {
            if args.len() < 3 {
                Err(generic("File path(s) are required for add command".to_owned()))
            } else {
                Ok(Command::Add { paths: strings_from(&args, 2) })
            }
        } else if is_lit(&command, "status") {
            Ok(parse_status(&args))
        } else if is_lit(&command, "diff") {
            Ok(parse_diff(&args))
        } else if is_lit(&command, "branch") {
            parse_branch(&args)
        } else if is_lit(&command, "checkout") {
            if args.len() < 3 {
                Err(generic("No checkout target specified (branch, commit, or path)".to_owned()))
            } else {
                assert(av[2] == args@[2]@);
                Ok(Command::Checkout { target: copy_string(&args[2]) })
            }
        } else if is_lit(&command, "log") {
            parse_log(&args)
        } else if is_lit(&command, "rm") {
            parse_rm(&args)
        } else if is_lit(&command, "merge") {
            parse_merge(&args)
        } else if is_lit(&command, "reset") {
            parse_reset(&args)
        } else if is_lit(&command, "cherry-pick") {
            match parse_pick(&args, "cherry-pick") {
                Ok((commits, continue_op, abort, quit, mainline)) => Ok(
                    Command::CherryPick { args: commits, continue_op, abort, quit, mainline },
                ),
                Err(e) => Err(e),
            }
        } else if is_lit(&command, "revert") {
            match parse_pick(&args, "revert") {
                Ok((commits, continue_op, abort, quit, mainline)) => Ok(
                    Command::Revert { args: commits, continue_op, abort, quit, mainline },
                ),
                Err(e) => Err(e),
            }
        } else {
            Ok(Command::Unknown { name: command })
        };
        match r {
            Ok(command) => Ok(CliArgs { command }),
            Err(e) => Err(e),
        }
    }

    /// The help text: the commands and their main options, one per line.
    pub fn format_help() -> (r: String)
        ensures
            r@ == help_text(),
    {
        let mut s = "Usage: ash <command> [options]".to_owned();
        push_str(&mut s, "\n");
        push_str(&mut s, "Commands:");
        push_str(&mut s, "\n");
        push_str(&mut s, "  init [path]                       Initialize a new repository");
        push_str(&mut s, "\n");
        push_str(&mut s, "  add <paths...>                    Add file contents to the index");
        push_str(&mut s, "\n");
        push_str(&mut s, "  commit -m <message>               Commit changes to the repository");
        push_str(&mut s, "\n");
        push_str(&mut s, "  status [--porcelain] [--color=...] Show the working tree status");
        push_str(&mut s, "\n");
        push_str(
            &mut s,
            "  diff [--cached] [paths...]        Show changes (HEAD vs index or index vs workspace)",
        );
        push_str(&mut s, "\n");
        push_str(
            &mut s,
            "  branch [-v] [-d|-D] [<n> [<sp>]]  Manage branches (list, create, delete)",
        );
        push_str(&mut s, "\n");
        push_str(
            &mut s,
            "  checkout <target>                 Switch branches or restore working tree files",
        );
        push_str(&mut s, "\n");
        push_str(&mut s, "  log [--oneline] [--decorate=...]  Show commit logs");
        push_str(&mut s, "\n");
        push_str(
            &mut s,
            "  merge <branch> [-m <msg>]         Merge the specified branch into the current branch",
        );
        push_str(&mut s, "\n");
        push_str(
            &mut s,
            "        --abort                     Abort the current merge resolution process",
        );
        push_str(&mut s, "\n");
        push_str(
            &mut s,
            "        --continue                  Continue the merge after resolving conflicts",
        );
        push_str(&mut s, "\n");
        push_str(
            &mut s,
            "        --tool=<tool>               Use specified tool to resolve merge conflicts",
        );
        push_str(&mut s, "\n");
        push_str(
            &mut s,
            "        --tool-only                 Run merge tool to resolve conflicts without merging",
        );
        push_str(&mut s, "\n");
        push_str(&mut s, "Common Options:");
        push_str(&mut s, "\n");
        push_str(&mut s, "  (Options specific to commands listed above)");
        push_str(&mut s, "\n");
        push_str(&mut s, "  --help                           Display this help message");
        s
    }

    /// The files that `parse` needs read: for `commit`, the path after each
    /// `--file` or `-F` among the options; for any other command, none.
    pub fn message_file_paths(args: &Vec<String>) -> (r: Vec<String>)
        ensures
            forall|k: int|
                args.len() >= 2 && command_word(strings_view(args@)[1]) == "commit"@
                    && #[trigger] names_message_file(strings_view(args@), k) ==> strings_view(
                    r@,
                ).contains(strings_view(args@)[k + 1]),
            forall|j: int|
                0 <= j < strings_view(r@).len() ==> is_message_file(
                    strings_view(args@),
                    #[trigger] strings_view(r@)[j],
                ),
    {
        let ghost av = strings_view(args@);
        let mut r: Vec<String> = Vec::new();
        if args.len() < 2 {
            return r;
        }
        assert(av[1] == args@[1]@);
        let command = to_lowercase(args[1].as_str());
        assert(command@ == command_word(av[1]));
        if !is_lit(&command, "commit") {
            return r;
        }
        let mut k: usize = 2;
        while k < args.len() - 1
            invariant
                av == strings_view(args@),
                args.len() >= 2,
                command_word(av[1]) == "commit"@,
                2 <= k <= args.len(),
                forall|q: int| q < k && #[trigger] names_message_file(av, q) ==> strings_view(
                    r@,
                ).contains(av[q + 1]),
                forall|j: int|
                    0 <= j < strings_view(r@).len() ==> is_message_file(
                        av,
                        #[trigger] strings_view(r@)[j],
                    ),
            decreases args.len() - k,
        {
            assert(av[k as int] == args@[k as int]@);
            assert(av[k + 1] == args@[k + 1]@);
            if is_lit(&args[k], "--file") || is_lit(&args[k], "-F") {
                let ghost r0 = strings_view(r@);
                push_copy(&mut r, &args[k + 1]);
                assert(names_message_file(av, k as int));
                assert(strings_view(r@)[r0.len() as int] == av[k + 1]);
                assert forall|q: int| q < k + 1 && #[trigger] names_message_file(av, q) implies strings_view(
                    r@,
                ).contains(av[q + 1]) by {
                    if q < k {
                        let w = choose|w: int| 0 <= w < r0.len() && r0[w] == av[q + 1];
                        assert(strings_view(r@)[w] == av[q + 1]);
                    }
                }
                assert forall|j: int| 0 <= j < strings_view(r@).len() implies is_message_file(
                    av,
                    #[trigger] strings_view(r@)[j],
                ) by {
                    if j < r0.len() {
                        assert(r0[j] == strings_view(r@)[j]);
                    } else {
                        assert(names_message_file(av, k as int) && av[k + 1] == strings_view(
                            r@,
                        )[j]);
                    }
                }
            }
            k += 1;
        }
        assert forall|q: int| #[trigger] names_message_file(av, q) implies strings_view(
            r@,
        ).contains(av[q + 1]) by {
            assert(q < k);
        }
        r
    }
}

} // verus!
