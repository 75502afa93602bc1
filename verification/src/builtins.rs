//! The commands the shell carries out itself, and the decisions they make.

use vstd::prelude::*;
use crate::text::{same_text, join_from, joined};
use crate::state::Environment;
use crate::parser::{CommandExecution, strings_view};

verus! {

broadcast use vstd::string::group_string_axioms;

/// A command that the shell handles without starting a program.
pub enum Builtin {
    Cd,
    Pwd,
    Sys,
    Top,
    Help,
    Echo,
    History,
    Exit,
}

/// The built-in command called `name`, if there is one.
pub open spec fn builtin_named(name: Seq<char>) -> Option<Builtin> {
    if name == "cd"@ {
        Some(Builtin::Cd)
    } else if name == "pwd"@ {
        Some(Builtin::Pwd)
    } else if name == "sys"@ {
        Some(Builtin::Sys)
    } else if name == "top"@ {
        Some(Builtin::Top)
    } else if name == "help"@ {
        Some(Builtin::Help)
    } else if name == "echo"@ {
        Some(Builtin::Echo)
    } else if name == "history"@ {
        Some(Builtin::History)
    } else if name == "exit"@ {
        Some(Builtin::Exit)
    } else {
        None
    }
}

/// The built-in command that a command with arguments `args` calls, if any.
pub open spec fn builtin_of_args(args: Seq<Seq<char>>) -> Option<Builtin> {
    if args.len() == 0 {
        None
    } else {
        builtin_named(args[0])
    }
}

/// The built-in command that `cmd` calls, if its first argument names one.
pub fn builtin_for(cmd: &CommandExecution) -> (b: Option<Builtin>)
    ensures
        b == builtin_of_args(cmd@.args),
{
    if cmd.args.len() == 0 {
        return None;
    }
    let name = cmd.args[0].as_str();
    assert(name@ == cmd@.args[0]);
    if same_text(name, "cd") {
        Some(Builtin::Cd)
    } else if same_text(name, "pwd") {
        Some(Builtin::Pwd)
    } else if same_text(name, "sys") {
        Some(Builtin::Sys)
    } else if same_text(name, "top") {
        Some(Builtin::Top)
    } else if same_text(name, "help") {
        Some(Builtin::Help)
    } else if same_text(name, "echo") {
        Some(Builtin::Echo)
    } else if same_text(name, "history") {
        Some(Builtin::History)
    } else if same_text(name, "exit") {
        Some(Builtin::Exit)
    } else {
        None
    }
}

/// Why `cd` could not pick a directory.
pub enum CdError {
    /// `cd -` was asked for before any directory change.
    OldPwdNotSet,
}

impl CdError {
    /// The text that reports the error.
    pub fn message(&self) -> (m: String)
        ensures
            m@ == "cd: oldpwd not set"@,
    {
        String::from_str("cd: oldpwd not set")
    }
}

/// Where `cd` goes.
pub enum CdTarget {
    /// The named directory.
    Dir(String),
    /// The directory the shell was in before its last change of directory.
    Previous,
}

/// Whether `cd` with arguments `args` goes back to the previous directory:
/// its operand is `-`.
pub open spec fn cd_goes_back(args: Seq<Seq<char>>) -> bool {
    args.len() >= 2 && args[1] == "-"@
}

/// The directory `cd` goes to when it does not go back: with no operand the
/// home directory (or `/` when none is known), else the operand itself.
pub open spec fn cd_directory(args: Seq<Seq<char>>, home: Option<Seq<char>>) -> Seq<char> {
    if args.len() < 2 {
        match home {
            Some(h) => h,
            None => "/"@,
        }
    } else {
        args[1]
    }
}

/// Where the `cd` command `cmd` goes, given whether a previous directory is
/// known and the home directory in `env`. `cd -` with no previous directory
/// is an error.
pub fn cd_target(cmd: &CommandExecution, has_previous: bool, env: &Environment) -> (res: Result<
    CdTarget,
    CdError,
>)
    ensures
        cd_goes_back(cmd@.args) && has_previous <==> res matches Ok(CdTarget::Previous),
        cd_goes_back(cmd@.args) && !has_previous <==> res matches Err(CdError::OldPwdNotSet),
        !cd_goes_back(cmd@.args) ==> (res matches Ok(CdTarget::Dir(d)) && d@ == cd_directory(
            cmd@.args,
            env.home_chars(),
        )),
{
    if cmd.args.len() < 2 {
        match &env.home {
            Some(h) => Ok(CdTarget::Dir(h.clone())),
            None => Ok(CdTarget::Dir(String::from_str("/"))),
        }
    } else {
        assert(cmd.args@[1]@ == cmd@.args[1]);
        if same_text(cmd.args[1].as_str(), "-") {
            if has_previous {
                Ok(CdTarget::Previous)
            } else {
                Err(CdError::OldPwdNotSet)
            }
        } else {
            Ok(CdTarget::Dir(cmd.args[1].clone()))
        }
    }
}

/// The previous directory after a `cd` from `current`: `current` when the
/// change succeeded, else what it was before.
pub fn previous_after_cd<T>(prev: Option<T>, current: T, changed: bool) -> (next: Option<T>)
    ensures
        changed ==> next == Some(current),
        !changed ==> next == prev,
{
    if changed {
        Some(current)
    } else {
        prev
    }
}

/// The text `echo` prints for arguments `args`: its operands joined by spaces.
pub open spec fn echo_output(args: Seq<Seq<char>>) -> Seq<char> {
    joined(args.drop_first(), " "@)
}

/// The text that the `echo` command `cmd` prints (without the newline).
pub fn echo_text(cmd: &CommandExecution) -> (out: String)
    requires
        cmd@.args.len() >= 1,
    ensures
        out@ == echo_output(cmd@.args),
{
    let out = join_from(&cmd.args, 1, " ");
    assert(cmd.args@.skip(1).map_values(|p: String| p@) == strings_view(cmd.args@).drop_first());
    out
}

/// The lines the `help` command prints.
pub open spec fn help_text() -> Seq<Seq<char>> {
    seq![
        "\x1b[1;32mShyell - Advanced Performance Shell\x1b[0m"@,
        "\x1b[1mSystem Performance:\x1b[0m"@,
        "  sys         Show system overview (CPU, Mem, Disk, Uptime)."@,
        "  top         Show top 10 processes by CPU usage."@,
        "  bench <cmd> Prefix any command to measure its time/resources."@,
        "  history     Show the latency of recorded bench runs."@,
        "\x1b[1mStandard Commands:\x1b[0m"@,
        "  cd [dir]    Change directory ('cd -' for back)."@,
        "  pwd         Print current directory."@,
        "  echo        Print arguments."@,
        "  exit        Exit the shell."@,
    ]
}

/// The lines the `help` command prints, in order.
pub fn help_lines() -> (lines: Vec<String>)
    ensures
        strings_view(lines@) == help_text(),
{
    let lines = vec![
        String::from_str("\x1b[1;32mShyell - Advanced Performance Shell\x1b[0m"),
        String::from_str("\x1b[1mSystem Performance:\x1b[0m"),
        String::from_str("  sys         Show system overview (CPU, Mem, Disk, Uptime)."),
        String::from_str("  top         Show top 10 processes by CPU usage."),
        String::from_str("  bench <cmd> Prefix any command to measure its time/resources."),
        String::from_str("  history     Show the latency of recorded bench runs."),
        String::from_str("\x1b[1mStandard Commands:\x1b[0m"),
        String::from_str("  cd [dir]    Change directory ('cd -' for back)."),
        String::from_str("  pwd         Print current directory."),
        String::from_str("  echo        Print arguments."),
        String::from_str("  exit        Exit the shell."),
    ];
    assert(strings_view(lines@) == help_text());
    lines
}

} // verus!
