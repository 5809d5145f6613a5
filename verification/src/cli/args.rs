//! The commands that the command line can name, with their options.
use vstd::prelude::*;
use crate::text::strings_view;

verus! {

/// A command with its options, as read from the command line.
#[derive(Debug)]
pub enum Command {
    Init { path: String },
    Commit { message: String, amend: bool, reuse_message: Option<String>, edit: bool },
    Add { paths: Vec<String> },
    Status { porcelain: bool, color: String },
    Diff { paths: Vec<String>, cached: bool },
    Branch {
        name: String,
        start_point: Option<String>,
        verbose: bool,
        delete: bool,
        force: bool,
    },
    Checkout { target: String },
    Log { revisions: Vec<String>, abbrev: bool, format: String, patch: bool, decorate: String },
    Rm { files: Vec<String>, cached: bool, force: bool, recursive: bool },
    Merge {
        branch: String,
        message: Option<String>,
        abort: bool,
        continue_merge: bool,
        tool: Option<String>,
    },
    Reset {
        files: Vec<String>,
        soft: bool,
        mixed: bool,
        hard: bool,
        force: bool,
        reuse_message: Option<String>,
    },
    CherryPick { args: Vec<String>, continue_op: bool, abort: bool, quit: bool, mainline: Option<u32> },
    Revert { args: Vec<String>, continue_op: bool, abort: bool, quit: bool, mainline: Option<u32> },
    Unknown { name: String },
}

/// A command as values: strings as character sequences.
pub ghost enum CommandView {
    Init { path: Seq<char> },
    Commit { message: Seq<char>, amend: bool, reuse_message: Option<Seq<char>>, edit: bool },
    Add { paths: Seq<Seq<char>> },
    Status { porcelain: bool, color: Seq<char> },
    Diff { paths: Seq<Seq<char>>, cached: bool },
    Branch {
        name: Seq<char>,
        start_point: Option<Seq<char>>,
        verbose: bool,
        delete: bool,
        force: bool,
    },
    Checkout { target: Seq<char> },
    Log {
        revisions: Seq<Seq<char>>,
        abbrev: bool,
        format: Seq<char>,
        patch: bool,
        decorate: Seq<char>,
    },
    Rm { files: Seq<Seq<char>>, cached: bool, force: bool, recursive: bool },
    Merge {
        branch: Seq<char>,
        message: Option<Seq<char>>,
        abort: bool,
        continue_merge: bool,
        tool: Option<Seq<char>>,
    },
    Reset {
        files: Seq<Seq<char>>,
        soft: bool,
        mixed: bool,
        hard: bool,
        force: bool,
        reuse_message: Option<Seq<char>>,
    },
    CherryPick {
        args: Seq<Seq<char>>,
        continue_op: bool,
        abort: bool,
        quit: bool,
        mainline: Option<u32>,
    },
    Revert {
        args: Seq<Seq<char>>,
        continue_op: bool,
        abort: bool,
        quit: bool,
        mainline: Option<u32>,
    },
    Unknown { name: Seq<char> },
}

/// An optional string as an optional character sequence.
pub open spec fn opt_view(o: Option<String>) -> Option<Seq<char>> {
    match o {
        Some(s) => Some(s@),
        None => None,
    }
}

impl View for Command {
    type V = CommandView;

    open spec fn view(&self) -> CommandView {
        match self {
            Command::Init { path } => CommandView::Init { path: path@ },
            Command::Commit { message, amend, reuse_message, edit } => CommandView::Commit {
                message: message@,
                amend: *amend,
                reuse_message: opt_view(*reuse_message),
                edit: *edit,
            },
            Command::Add { paths } => CommandView::Add { paths: strings_view(paths@) },
            Command::Status { porcelain, color } => CommandView::Status {
                porcelain: *porcelain,
                color: color@,
            },
            Command::Diff { paths, cached } => CommandView::Diff {
                paths: strings_view(paths@),
                cached: *cached,
            },
            Command::Branch { name, start_point, verbose, delete, force } => CommandView::Branch {
                name: name@,
                start_point: opt_view(*start_point),
                verbose: *verbose,
                delete: *delete,
                force: *force,
            },
            Command::Checkout { target } => CommandView::Checkout { target: target@ },
            Command::Log { revisions, abbrev, format, patch, decorate } => CommandView::Log {
                revisions: strings_view(revisions@),
                abbrev: *abbrev,
                format: format@,
                patch: *patch,
                decorate: decorate@,
            },
            Command::Rm { files, cached, force, recursive } => CommandView::Rm {
                files: strings_view(files@),
                cached: *cached,
                force: *force,
                recursive: *recursive,
            },
            Command::Merge { branch, message, abort, continue_merge, tool } => CommandView::Merge {
                branch: branch@,
                message: opt_view(*message),
                abort: *abort,
                continue_merge: *continue_merge,
                tool: opt_view(*tool),
            },
            Command::Reset { files, soft, mixed, hard, force, reuse_message } => CommandView::Reset {
                files: strings_view(files@),
                soft: *soft,
                mixed: *mixed,
                hard: *hard,
                force: *force,
                reuse_message: opt_view(*reuse_message),
            },
            Command::CherryPick { args, continue_op, abort, quit, mainline } =>
                CommandView::CherryPick {
                    args: strings_view(args@),
                    continue_op: *continue_op,
                    abort: *abort,
                    quit: *quit,
                    mainline: *mainline,
                },
            Command::Revert { args, continue_op, abort, quit, mainline } => CommandView::Revert {
                args: strings_view(args@),
                continue_op: *continue_op,
                abort: *abort,
                quit: *quit,
                mainline: *mainline,
            },
            Command::Unknown { name } => CommandView::Unknown { name: name@ },
        }
    }
}

/// The parsed command line.
#[derive(Debug)]
pub struct CliArgs {
    pub command: Command,
}

} // verus!
