//! The command line: which command the arguments name, and the checks and
//! texts of each command.
use vstd::prelude::*;

use crate::config::status_label;
use crate::dotenv::{shell_quote, shell_quoted};
use crate::keychain::{error_message, is_not_found_error, string_views, KeychainError};
use crate::names::{key_name_problem, project_name_problem, validate_key_name, validate_project_name};
use crate::text::{contains_sub, decimal, string_of};

verus! {

/// The command that the first argument names.
#[derive(Debug, Clone, Copy, PartialEq, Eq, Structural)]
pub enum Command {
    Tui,
    Help,
    Install,
    Status,
    Init,
    SetValue,
    GetValue,
    List,
    Load,
    Cat,
    CopyValue,
    Delete,
    Pull,
    Push,
    Run,
    Remove,
    Unknown,
}

/// The command a name stands for, with its short forms.
pub open spec fn command_named(name: Seq<char>) -> Command {
    if name == "tui"@ || name == "interactive"@ {
        Command::Tui
    } else if name == "help"@ || name == "--help"@ || name == "-h"@ {
        Command::Help
    } else if name == "install"@ {
        Command::Install
    } else if name == "status"@ || name == "st"@ {
        Command::Status
    } else if name == "init"@ {
        Command::Init
    } else if name == "set"@ || name == "s"@ {
        Command::SetValue
    } else if name == "get"@ || name == "g"@ {
        Command::GetValue
    } else if name == "list"@ || name == "ls"@ || name == "l"@ {
        Command::List
    } else if name == "load"@ {
        Command::Load
    } else if name == "cat"@ || name == "c"@ {
        Command::Cat
    } else if name == "cp"@ {
        Command::CopyValue
    } else if name == "delete"@ || name == "del"@ || name == "d"@ {
        Command::Delete
    } else if name == "pull"@ || name == "pl"@ {
        Command::Pull
    } else if name == "push"@ || name == "ph"@ {
        Command::Push
    } else if name == "run"@ || name == "r"@ {
        Command::Run
    } else if name == "rm"@ {
        Command::Remove
    } else {
        Command::Unknown
    }
}

/// The command of a whole argument list (the program name first): the TUI
/// when there is no command.
pub open spec fn command_of(args: Seq<Seq<char>>) -> Command {
    if args.len() < 2 {
        Command::Tui
    } else {
        command_named(args[1])
    }
}

fn is(s: &String, lit: &str) -> (r: bool)
    ensures
        r == (s@ == lit@),
{
    let t = String::from_str(lit);
    *s == t
}

/// The command that the arguments (the program name first) name.
pub fn parse_command(args: &Vec<String>) -> (r: Command)
    ensures
        r == command_of(string_views(args@)),
{
    if args.len() < 2 {
        return Command::Tui;
    }
    let n = &args[1];
    assert(n@ == string_views(args@)[1]);
    if is(n, "tui") || is(n, "interactive") {
        Command::Tui
    } else if is(n, "help") || is(n, "--help") || is(n, "-h") {
        Command::Help
    } else if is(n, "install") {
        Command::Install
    } else if is(n, "status") || is(n, "st") {
        Command::Status
    } else if is(n, "init") {
        Command::Init
    } else if is(n, "set") || is(n, "s") {
        Command::SetValue
    } else if is(n, "get") || is(n, "g") {
        Command::GetValue
    } else if is(n, "list") || is(n, "ls") || is(n, "l") {
        Command::List
    } else if is(n, "load") {
        Command::Load
    } else if is(n, "cat") || is(n, "c") {
        Command::Cat
    } else if is(n, "cp") {
        Command::CopyValue
    } else if is(n, "delete") || is(n, "del") || is(n, "d") {
        Command::Delete
    } else if is(n, "pull") || is(n, "pl") {
        Command::Pull
    } else if is(n, "push") || is(n, "ph") {
        Command::Push
    } else if is(n, "run") || is(n, "r") {
        Command::Run
    } else if is(n, "rm") {
        Command::Remove
    } else {
        Command::Unknown
    }
}

/// Each command name of the help text, long and short, names its command,
/// whatever the program name and the arguments after it.
pub proof fn lemma_command_names(prog: Seq<char>, rest: Seq<Seq<char>>)
    ensures
        command_of(seq![prog] + rest) == Command::Tui <==> (rest.len() == 0 || rest[0] == "tui"@
            || rest[0] == "interactive"@),
        command_of(seq![prog, "run"@] + rest) == Command::Run,
        command_of(seq![prog, "r"@] + rest) == Command::Run,
        command_of(seq![prog, "set"@] + rest) == Command::SetValue,
        command_of(seq![prog, "s"@] + rest) == Command::SetValue,
        command_of(seq![prog, "get"@] + rest) == Command::GetValue,
        command_of(seq![prog, "g"@] + rest) == Command::GetValue,
        command_of(seq![prog, "list"@] + rest) == Command::List,
        command_of(seq![prog, "ls"@] + rest) == Command::List,
        command_of(seq![prog, "l"@] + rest) == Command::List,
        command_of(seq![prog, "load"@] + rest) == Command::Load,
        command_of(seq![prog, "cat"@] + rest) == Command::Cat,
        command_of(seq![prog, "c"@] + rest) == Command::Cat,
        command_of(seq![prog, "cp"@] + rest) == Command::CopyValue,
        command_of(seq![prog, "delete"@] + rest) == Command::Delete,
        command_of(seq![prog, "del"@] + rest) == Command::Delete,
        command_of(seq![prog, "d"@] + rest) == Command::Delete,
        command_of(seq![prog, "pull"@] + rest) == Command::Pull,
        command_of(seq![prog, "pl"@] + rest) == Command::Pull,
        command_of(seq![prog, "push"@] + rest) == Command::Push,
        command_of(seq![prog, "ph"@] + rest) == Command::Push,
        command_of(seq![prog, "rm"@] + rest) == Command::Remove,
        command_of(seq![prog, "status"@] + rest) == Command::Status,
        command_of(seq![prog, "st"@] + rest) == Command::Status,
        command_of(seq![prog, "init"@] + rest) == Command::Init,
        command_of(seq![prog, "install"@] + rest) == Command::Install,
        command_of(seq![prog, "help"@] + rest) == Command::Help,
        command_of(seq![prog, "--help"@] + rest) == Command::Help,
        command_of(seq![prog, "-h"@] + rest) == Command::Help,
        command_of(seq![prog, "tui"@] + rest) == Command::Tui,
        command_of(seq![prog, "interactive"@] + rest) == Command::Tui,
{
    reveal_strlit("tui");
    reveal_strlit("interactive");
    reveal_strlit("help");
    reveal_strlit("--help");
    reveal_strlit("-h");
    reveal_strlit("install");
    reveal_strlit("status");
    reveal_strlit("st");
    reveal_strlit("init");
    reveal_strlit("set");
    reveal_strlit("s");
    reveal_strlit("get");
    reveal_strlit("g");
    reveal_strlit("list");
    reveal_strlit("ls");
    reveal_strlit("l");
    reveal_strlit("load");
    reveal_strlit("cat");
    reveal_strlit("c");
    reveal_strlit("cp");
    reveal_strlit("delete");
    reveal_strlit("del");
    reveal_strlit("d");
    reveal_strlit("pull");
    reveal_strlit("pl");
    reveal_strlit("push");
    reveal_strlit("ph");
    reveal_strlit("run");
    reveal_strlit("r");
    reveal_strlit("rm");
    // names of different lengths differ; names of one length differ at a
    // character
    assert("tui"@.len() == 3);
    assert("interactive"@.len() == 11);
    assert("help"@.len() == 4);
    assert("--help"@.len() == 6);
    assert("-h"@.len() == 2);
    assert("install"@.len() == 7);
    assert("status"@.len() == 6);
    assert("st"@.len() == 2);
    assert("init"@.len() == 4);
    assert("set"@.len() == 3);
    assert("s"@.len() == 1);
    assert("get"@.len() == 3);
    assert("g"@.len() == 1);
    assert("list"@.len() == 4);
    assert("ls"@.len() == 2);
    assert("l"@.len() == 1);
    assert("load"@.len() == 4);
    assert("cat"@.len() == 3);
    assert("c"@.len() == 1);
    assert("cp"@.len() == 2);
    assert("delete"@.len() == 6);
    assert("del"@.len() == 3);
    assert("d"@.len() == 1);
    assert("pull"@.len() == 4);
    assert("pl"@.len() == 2);
    assert("push"@.len() == 4);
    assert("ph"@.len() == 2);
    assert("run"@.len() == 3);
    assert("r"@.len() == 1);
    assert("rm"@.len() == 2);
    lemma_second_arg(prog, "tui"@, rest);
    lemma_second_arg(prog, "interactive"@, rest);
    lemma_second_arg(prog, "help"@, rest);
    lemma_second_arg(prog, "--help"@, rest);
    lemma_second_arg(prog, "-h"@, rest);
    lemma_second_arg(prog, "install"@, rest);
    lemma_second_arg(prog, "status"@, rest);
    assert("status"@[0] != "--help"@[0]);
    lemma_second_arg(prog, "st"@, rest);
    assert("st"@[0] != "-h"@[0]);
    lemma_second_arg(prog, "init"@, rest);
    assert("init"@[0] != "help"@[0]);
    lemma_second_arg(prog, "set"@, rest);
    assert("set"@[0] != "tui"@[0]);
    lemma_second_arg(prog, "s"@, rest);
    lemma_second_arg(prog, "get"@, rest);
    assert("get"@[0] != "tui"@[0]);
    assert("get"@[0] != "set"@[0]);
    lemma_second_arg(prog, "g"@, rest);
    assert("g"@[0] != "s"@[0]);
    lemma_second_arg(prog, "list"@, rest);
    assert("list"@[0] != "help"@[0]);
    assert("list"@[0] != "init"@[0]);
    lemma_second_arg(prog, "ls"@, rest);
    assert("ls"@[0] != "-h"@[0]);
    assert("ls"@[0] != "st"@[0]);
    lemma_second_arg(prog, "l"@, rest);
    assert("l"@[0] != "s"@[0]);
    assert("l"@[0] != "g"@[0]);
    lemma_second_arg(prog, "load"@, rest);
    assert("load"@[0] != "help"@[0]);
    assert("load"@[0] != "init"@[0]);
    assert("load"@[1] != "list"@[1]);
    lemma_second_arg(prog, "cat"@, rest);
    assert("cat"@[0] != "tui"@[0]);
    assert("cat"@[0] != "set"@[0]);
    assert("cat"@[0] != "get"@[0]);
    lemma_second_arg(prog, "c"@, rest);
    assert("c"@[0] != "s"@[0]);
    assert("c"@[0] != "g"@[0]);
    assert("c"@[0] != "l"@[0]);
    lemma_second_arg(prog, "cp"@, rest);
    assert("cp"@[0] != "-h"@[0]);
    assert("cp"@[0] != "st"@[0]);
    assert("cp"@[0] != "ls"@[0]);
    lemma_second_arg(prog, "delete"@, rest);
    assert("delete"@[0] != "--help"@[0]);
    assert("delete"@[0] != "status"@[0]);
    lemma_second_arg(prog, "del"@, rest);
    assert("del"@[0] != "tui"@[0]);
    assert("del"@[0] != "set"@[0]);
    assert("del"@[0] != "get"@[0]);
    assert("del"@[0] != "cat"@[0]);
    lemma_second_arg(prog, "d"@, rest);
    assert("d"@[0] != "s"@[0]);
    assert("d"@[0] != "g"@[0]);
    assert("d"@[0] != "l"@[0]);
    assert("d"@[0] != "c"@[0]);
    lemma_second_arg(prog, "pull"@, rest);
    assert("pull"@[0] != "help"@[0]);
    assert("pull"@[0] != "init"@[0]);
    assert("pull"@[0] != "list"@[0]);
    assert("pull"@[0] != "load"@[0]);
    lemma_second_arg(prog, "pl"@, rest);
    assert("pl"@[0] != "-h"@[0]);
    assert("pl"@[0] != "st"@[0]);
    assert("pl"@[0] != "ls"@[0]);
    assert("pl"@[0] != "cp"@[0]);
    lemma_second_arg(prog, "push"@, rest);
    assert("push"@[0] != "help"@[0]);
    assert("push"@[0] != "init"@[0]);
    assert("push"@[0] != "list"@[0]);
    assert("push"@[0] != "load"@[0]);
    assert("push"@[2] != "pull"@[2]);
    lemma_second_arg(prog, "ph"@, rest);
    assert("ph"@[0] != "-h"@[0]);
    assert("ph"@[0] != "st"@[0]);
    assert("ph"@[0] != "ls"@[0]);
    assert("ph"@[0] != "cp"@[0]);
    assert("ph"@[1] != "pl"@[1]);
    lemma_second_arg(prog, "run"@, rest);
    assert("run"@[0] != "tui"@[0]);
    assert("run"@[0] != "set"@[0]);
    assert("run"@[0] != "get"@[0]);
    assert("run"@[0] != "cat"@[0]);
    assert("run"@[0] != "del"@[0]);
    lemma_second_arg(prog, "r"@, rest);
    assert("r"@[0] != "s"@[0]);
    assert("r"@[0] != "g"@[0]);
    assert("r"@[0] != "l"@[0]);
    assert("r"@[0] != "c"@[0]);
    assert("r"@[0] != "d"@[0]);
    lemma_second_arg(prog, "rm"@, rest);
    assert("rm"@[0] != "-h"@[0]);
    assert("rm"@[0] != "st"@[0]);
    assert("rm"@[0] != "ls"@[0]);
    assert("rm"@[0] != "cp"@[0]);
    assert("rm"@[0] != "pl"@[0]);
    assert("rm"@[0] != "ph"@[0]);
    let a = seq![prog] + rest;
    if rest.len() > 0 {
        assert(a[1] == rest[0]);
    }
}

proof fn lemma_second_arg(prog: Seq<char>, name: Seq<char>, rest: Seq<Seq<char>>)
    ensures
        command_of(seq![prog, name] + rest) == command_named(name),
{
    assert((seq![prog, name] + rest)[1] == name);
}

/// Why a command's arguments were refused.
pub enum ArgError {
    /// Too few arguments; the text is the command's usage line.
    Usage { text: String },
    /// An argument is not acceptable; the text says why.
    Invalid { text: String },
}

/// The arguments after the command: `args[2..]`.
pub fn command_args(args: &Vec<String>) -> (r: Vec<String>)
    ensures
        string_views(r@) == if args.len() < 2 {
            Seq::<Seq<char>>::empty()
        } else {
            string_views(args@).subrange(2, args.len() as int)
        },
{
    let mut out: Vec<String> = Vec::new();
    if args.len() < 2 {
        assert(string_views(out@) =~= Seq::<Seq<char>>::empty());
        return out;
    }
    let ghost all = string_views(args@);
    let mut i: usize = 2;
    while i < args.len()
        invariant
            2 <= i <= args.len(),
            all == string_views(args@),
            string_views(out@) =~= all.subrange(2, i as int),
        decreases args.len() - i,
    {
        let ghost before = out@;
        out.push(args[i].clone());
        assert(string_views(out@) =~= string_views(before).push(all[i as int]));
        i += 1;
    }
    out
}

/// The project named by the first argument, checked; `usage` when there is none.
pub fn project_arg(args: &Vec<String>, usage: &str) -> (r: Result<String, ArgError>)
    ensures
        args.len() == 0 ==> (r matches Err(ArgError::Usage { text }) && text@ == usage@),
        args.len() > 0 ==> match project_name_problem(args@[0]@) {
            Some(m) => r matches Err(ArgError::Invalid { text }) && text@ == m,
            None => r matches Ok(p) && p@ == args@[0]@,
        },
{
    if args.len() == 0 {
        return Err(ArgError::Usage { text: String::from_str(usage) });
    }
    match validate_project_name(args[0].as_str()) {
        Err(m) => Err(ArgError::Invalid { text: m }),
        Ok(()) => Ok(args[0].clone()),
    }
}

/// The project and key named by the first two arguments, checked; `usage`
/// when there are fewer than two.
pub fn project_key_args(args: &Vec<String>, usage: &str) -> (r: Result<(String, String), ArgError>)
    ensures
        args.len() < 2 ==> (r matches Err(ArgError::Usage { text }) && text@ == usage@),
        args.len() >= 2 ==> match project_name_problem(args@[0]@) {
            Some(m) => r matches Err(ArgError::Invalid { text }) && text@ == m,
            None => match key_name_problem(args@[1]@) {
                Some(m) => r matches Err(ArgError::Invalid { text }) && text@ == m,
                None => r matches Ok(pk) && pk.0@ == args@[0]@ && pk.1@ == args@[1]@,
            },
        },
{
    if args.len() < 2 {
        return Err(ArgError::Usage { text: String::from_str(usage) });
    }
    match validate_project_name(args[0].as_str()) {
        Err(m) => {
            return Err(ArgError::Invalid { text: m });
        },
        Ok(()) => {},
    }
    match validate_key_name(args[1].as_str()) {
        Err(m) => Err(ArgError::Invalid { text: m }),
        Ok(()) => Ok((args[0].clone(), args[1].clone())),
    }
}

/// What `ke run` runs: after the project, an optional `--`, then the
/// program and its arguments.
pub open spec fn run_target(rest: Seq<Seq<char>>) -> Option<(Seq<char>, Seq<Seq<char>>)> {
    let start: int = if rest.len() > 0 && rest[0] == "--"@ { 1 } else { 0 };
    if start >= rest.len() {
        None
    } else {
        Some((rest[start], rest.subrange(start + 1, rest.len() as int)))
    }
}

/// The arguments of `ke run`: the project (checked), the program and its
/// arguments.
pub fn run_args(args: &Vec<String>) -> (r: Result<(String, String, Vec<String>), ArgError>)
    ensures
        args.len() < 2 ==> (r matches Err(ArgError::Usage { text })
            && text@ == "Usage: ke run <project> -- <command> [args...]"@),
        args.len() >= 2 ==> match project_name_problem(args@[0]@) {
            Some(m) => r matches Err(ArgError::Invalid { text }) && text@ == m,
            None => match run_target(string_views(args@).subrange(1, args.len() as int)) {
                None => r matches Err(ArgError::Invalid { text }) && text@ == "no command specified"@,
                Some(t) => r matches Ok(x) && x.0@ == args@[0]@ && x.1@ == t.0
                    && string_views(x.2@) == t.1,
            },
        },
{
    if args.len() < 2 {
        return Err(ArgError::Usage { text: String::from_str("Usage: ke run <project> -- <command> [args...]") });
    }
    match validate_project_name(args[0].as_str()) {
        Err(m) => {
            return Err(ArgError::Invalid { text: m });
        },
        Ok(()) => {},
    }
    let ghost all = string_views(args@);
    let ghost rest = all.subrange(1, args.len() as int);
    let start: usize = if is(&args[1], "--") { 2 } else { 1 };
    assert(rest[0] == args@[1]@);
    if start >= args.len() {
        return Err(ArgError::Invalid { text: String::from_str("no command specified") });
    }
    let program = args[start].clone();
    assert(rest[start - 1] == args@[start as int]@);
    let mut out: Vec<String> = Vec::new();
    let mut i: usize = start + 1;
    while i < args.len()
        invariant
            start + 1 <= i <= args.len(),
            all == string_views(args@),
            string_views(out@) =~= all.subrange(start + 1, i as int),
        decreases args.len() - i,
    {
        let ghost before = out@;
        out.push(args[i].clone());
        assert(string_views(out@) =~= string_views(before).push(all[i as int]));
        i += 1;
    }
    assert(rest.subrange(start as int, rest.len() as int) =~= all.subrange(start + 1, args.len() as int));
    Ok((args[0].clone(), program, out))
}

/// Whether `ke init` was given its one accepted flag, `--icloud`.
pub fn init_flag_ok(args: &Vec<String>) -> (r: bool)
    ensures
        r == (args.len() > 0 && args@[0]@ == "--icloud"@),
{
    args.len() > 0 && is(&args[0], "--icloud")
}

/// The file `ke push` reads: the second argument, or `.env.local`.
pub fn push_file(args: &Vec<String>) -> (r: String)
    ensures
        r@ == if args.len() > 1 { args@[1]@ } else { ".env.local"@ },
{
    if args.len() > 1 {
        args[1].clone()
    } else {
        String::from_str(".env.local")
    }
}

/// How many deletions failed for a reason other than a missing secret.
pub open spec fn real_failures(results: Seq<Result<(), KeychainError>>) -> nat
    decreases results.len(),
{
    if results.len() == 0 {
        0
    } else {
        real_failures(results.drop_last()) + match results.last() {
            Ok(()) => 0nat,
            Err(e) => if contains_sub(error_message(e), "secret not found in Keychain"@) {
                0nat
            } else {
                1nat
            },
        }
    }
}

/// `ke rm`: how many secrets could not be deleted (a missing secret is no
/// failure).
pub fn removal_failures(results: &Vec<Result<(), KeychainError>>) -> (r: usize)
    ensures
        r == real_failures(results@),
{
    let mut n: usize = 0;
    let mut i: usize = 0;
    assert(results@.subrange(0, 0) =~= Seq::<Result<(), KeychainError>>::empty());
    while i < results.len()
        invariant
            i <= results.len(),
            n == real_failures(results@.subrange(0, i as int)),
            n <= i,
        decreases results.len() - i,
    {
        assert(results@.subrange(0, i + 1).drop_last() =~= results@.subrange(0, i as int));
        match &results[i] {
            Ok(()) => {},
            Err(e) => {
                if !is_not_found_error(e) {
                    n += 1;
                }
            },
        }
        i += 1;
    }
    assert(results@.subrange(0, results.len() as int) =~= results@);
    n
}

/// `n` spaces.
pub open spec fn spaces(n: nat) -> Seq<char> {
    Seq::new(n, |i: int| ' ')
}

/// `format!("{:<w$}", s)`: `s` followed by spaces up to `w` characters.
pub open spec fn padded_right(s: Seq<char>, w: nat) -> Seq<char> {
    if s.len() >= w { s } else { s + spaces((w - s.len()) as nat) }
}

/// `format!("{:>w$}", s)`: spaces up to `w` characters, then `s`.
pub open spec fn padded_left(s: Seq<char>, w: nat) -> Seq<char> {
    if s.len() >= w { s } else { spaces((w - s.len()) as nat) + s }
}

fn space_chars(n: usize) -> (r: Vec<char>)
    ensures
        r@ == spaces(n as nat),
{
    let mut v: Vec<char> = Vec::new();
    let mut i: usize = 0;
    while i < n
        invariant
            i <= n,
            v@ =~= spaces(i as nat),
        decreases n - i,
    {
        v.push(' ');
        i += 1;
    }
    v
}

/// Pads `s` on the right to `w` characters.
pub fn pad_right(s: &str, w: usize) -> (r: String)
    ensures
        r@ == padded_right(s@, w as nat),
{
    let c = crate::text::chars_of(s);
    if c.len() >= w {
        String::from_str(s)
    } else {
        let sp = space_chars(w - c.len());
        string_of(&crate::text::concat_chars(&c, &sp))
    }
}

/// Pads `s` on the left to `w` characters.
pub fn pad_left(s: &str, w: usize) -> (r: String)
    ensures
        r@ == padded_left(s@, w as nat),
{
    let c = crate::text::chars_of(s);
    if c.len() >= w {
        String::from_str(s)
    } else {
        let sp = space_chars(w - c.len());
        string_of(&crate::text::concat_chars(&sp, &c))
    }
}

/// One project's line in `ke status`:
/// `format!("  {:<18} {:>6} {:>12}", project, total, label)`.
pub fn status_line(project: &str, total: usize, have: usize) -> (r: String)
    requires
        have <= total,
    ensures
        r@ == "  "@ + padded_right(project@, 18) + " "@ + padded_left(decimal(total as nat), 6) + " "@
            + padded_left(crate::config::status_text(total as nat, have as nat), 12),
{
    let label = status_label(total, have);
    let count = string_of(&crate::text::decimal_chars(total));
    let mut s = String::from_str("  ");
    s.append(pad_right(project, 18).as_str());
    s.append(" ");
    s.append(pad_left(count.as_str(), 6).as_str());
    s.append(" ");
    s.append(pad_left(label.as_str(), 12).as_str());
    s
}

/// One line of `ke load`: `export KEY='value'`.
pub fn export_line(key: &str, value: &str) -> (r: String)
    ensures
        r@ == "export "@ + key@ + "="@ + shell_quoted(value@),
{
    let mut s = String::from_str("export ");
    s.append(key);
    s.append("=");
    s.append(shell_quote(value).as_str());
    s
}

/// What `ke delete` reports for the outcome of deleting a secret: a
/// deleted secret and a secret the Keychain did not have both leave the
/// index without the key (`Ok` with the message); any other failure is an
/// error (`Err` with the message) and the index is left alone.
pub open spec fn delete_report_text(
    project: Seq<char>,
    key: Seq<char>,
    result: Result<(), KeychainError>,
) -> Result<Seq<char>, Seq<char>> {
    match result {
        Ok(()) => Ok("Deleted "@ + project + ":"@ + key),
        Err(e) => if contains_sub(error_message(e), "secret not found in Keychain"@) {
            Ok("Removed "@ + project + ":"@ + key + " from index"@)
        } else {
            Err("Error: "@ + error_message(e))
        },
    }
}

/// The report of `ke delete` for `result`; `Ok` means the key leaves the index.
pub fn delete_report(project: &str, key: &str, result: &Result<(), KeychainError>) -> (r: Result<String, String>)
    ensures
        match r {
            Ok(m) => delete_report_text(project@, key@, *result) == Ok::<Seq<char>, Seq<char>>(m@),
            Err(m) => delete_report_text(project@, key@, *result) == Err::<Seq<char>, Seq<char>>(m@),
        },
{
    match result {
        Ok(()) => {
            let mut s = String::from_str("Deleted ");
            s.append(project);
            s.append(":");
            s.append(key);
            Ok(s)
        },
        Err(e) => {
            if is_not_found_error(e) {
                let mut s = String::from_str("Removed ");
                s.append(project);
                s.append(":");
                s.append(key);
                s.append(" from index");
                Ok(s)
            } else {
                let mut s = String::from_str("Error: ");
                s.append(e.message().as_str());
                Err(s)
            }
        },
    }
}

/// What `ke rm` reports once the project's secrets were deleted: with
/// failures an error naming how many (and the index is kept), otherwise
/// that the project was removed.
pub fn removal_report(project: &str, failed: usize) -> (r: Result<String, String>)
    ensures
        failed > 0 ==> (r matches Err(m) && m@ == "Error: failed to delete "@ + decimal(failed as nat)
            + " secret(s) from Keychain"@),
        failed == 0 ==> (r matches Ok(m) && m@ == "Removed project '"@ + project@ + "'"@),
{
    if failed > 0 {
        let mut s = String::from_str("Error: failed to delete ");
        s.append(string_of(&crate::text::decimal_chars(failed)).as_str());
        s.append(" secret(s) from Keychain");
        Err(s)
    } else {
        let mut s = String::from_str("Removed project '");
        s.append(project);
        s.append("'");
        Ok(s)
    }
}

} // verus!
