//! What the shell does with a line it has read, and how each stage of a
//! pipeline is wired to files, pipes and the terminal.

use vstd::prelude::*;
use crate::text::{join_from, joined, trim, trimmed};
use crate::builtins::{builtin_for, builtin_of_args};
use crate::state::Environment;
use crate::parser::{
    CommandExecution, SpecCommand, commands_view, parse_commands, parse_spec, strings_view,
};

verus! {

broadcast use vstd::string::group_string_axioms;

#[verifier::external_type_specification]
#[verifier::external_body]
pub struct ExShellWordsParseError(shell_words::ParseError);

/// The words that `shell_words::split` makes of `line`, or `None` where it
/// reports an error.
pub uninterp spec fn shell_split(line: Seq<char>) -> Option<Seq<Seq<char>>>;

/// `shell_words::split`: splits a line into words by the rules of a POSIX
/// shell (quotes, backslashes, comments). The contract only names the
/// outcome; those rules are not written out here.
#[verifier::external_body]
fn split_words(line: &str) -> (res: Result<Vec<String>, shell_words::ParseError>)
    ensures
        match res {
            Ok(ws) => shell_split(line@) == Some(strings_view(ws@)),
            Err(_) => shell_split(line@) is None,
        },
{
    shell_words::split(line)
}

/// Why a line could not be split into words.
pub enum SplitError {
    /// A quote was opened and never closed.
    MissingClosingQuote,
}

impl SplitError {
    /// The text that describes the error.
    pub fn message(&self) -> (m: String)
        ensures
            m@ == "missing closing quote"@,
    {
        String::from_str("missing closing quote")
    }
}

/// What to do with a line that was read.
pub enum LineAction {
    /// The line is blank: nothing to do, nothing to remember.
    Skip,
    /// Remember `entry` in the history and run `commands`.
    Run { entry: String, commands: Vec<CommandExecution> },
    /// Remember `entry` in the history and report `error`.
    Reject { entry: String, error: SplitError },
}

/// Decides what to do with the line `line`: blank lines are skipped; other
/// lines are trimmed, remembered, split into words and parsed into a
/// pipeline, expanding words in `env`.
pub fn interpret_line(line: &str, env: &Environment) -> (act: LineAction)
    ensures
        trimmed(line@).len() == 0 <==> act is Skip,
        match act {
            LineAction::Skip => true,
            LineAction::Run { entry, commands } => {
                &&& entry@ == trimmed(line@)
                &&& shell_split(trimmed(line@)) matches Some(ws)
                &&& commands_view(commands@) == parse_spec(ws, env.home_chars(), env.var_list())
            },
            LineAction::Reject { entry, error } => {
                &&& entry@ == trimmed(line@)
                &&& shell_split(trimmed(line@)) is None
            },
        },
{
    let entry = trim(line);
    if entry.as_str().unicode_len() == 0 {
        return LineAction::Skip;
    }
    match split_words(entry.as_str()) {
        Ok(words) => {
            let commands = parse_commands(words, env);
            LineAction::Run { entry, commands }
        },
        Err(_) => LineAction::Reject { entry, error: SplitError::MissingClosingQuote },
    }
}

/// Whether a line's commands are run by the shell itself: a single command
/// whose first argument names a built-in.
pub open spec fn is_builtin_line(cmds: Seq<SpecCommand>) -> bool {
    cmds.len() == 1 && builtin_of_args(cmds[0].args) is Some
}

/// Whether the shell runs `cmds` itself rather than starting programs.
pub fn runs_as_builtin(cmds: &Vec<CommandExecution>) -> (b: bool)
    ensures
        b == is_builtin_line(commands_view(cmds@)),
{
    if cmds.len() != 1 {
        return false;
    }
    assert(commands_view(cmds@)[0] == cmds@[0]@);
    builtin_for(&cmds[0]).is_some()
}

/// Where a stage reads its input from.
pub enum StdinSource {
    /// The named file.
    File(String),
    /// The output of the stage before it.
    PreviousStage,
    /// The shell's own input.
    Inherit,
}

/// Where a stage writes its output to.
pub enum StdoutSink {
    /// The named file, appended to or truncated.
    File { path: String, append: bool },
    /// A pipe to the next stage.
    Pipe,
    /// The shell's own output.
    Inherit,
}

/// How to start one stage of a pipeline.
pub enum StagePlan {
    /// The stage has no program to run: the pipeline stops with an error.
    EmptyCommand,
    /// Run `program` with `args`, wired as `stdin` and `stdout` say.
    Run { program: String, args: Vec<String>, stdin: StdinSource, stdout: StdoutSink },
}

/// Where stage `i` of `count` stages reads from: its input file, else the
/// stage before it, else (for the first stage) the shell's input.
pub open spec fn stdin_matches(src: StdinSource, cmd: SpecCommand, i: int) -> bool {
    match cmd.input_file {
        Some(f) => src matches StdinSource::File(p) && p@ == f,
        None => if i > 0 { src is PreviousStage } else { src is Inherit },
    }
}

/// Where stage `i` of `count` stages writes to: its output file, else a pipe
/// to the next stage, else (for the last stage) the shell's output.
pub open spec fn stdout_matches(sink: StdoutSink, cmd: SpecCommand, i: int, count: int) -> bool {
    match cmd.output_file {
        Some(f) => sink matches StdoutSink::File { path, append } && path@ == f && append
            == cmd.append,
        None => if i + 1 < count { sink is Pipe } else { sink is Inherit },
    }
}

/// How to start stage `i` of the pipeline `cmds`.
pub fn plan_stage(cmds: &Vec<CommandExecution>, i: usize) -> (plan: StagePlan)
    requires
        i < cmds.len(),
    ensures
        cmds@[i as int]@.args.len() == 0 <==> plan is EmptyCommand,
        match plan {
            StagePlan::EmptyCommand => true,
            StagePlan::Run { program, args, stdin, stdout } => {
                let c = cmds@[i as int]@;
                &&& program@ == c.args[0]
                &&& strings_view(args@) == c.args.drop_first()
                &&& stdin_matches(stdin, c, i as int)
                &&& stdout_matches(stdout, c, i as int, cmds.len() as int)
            },
        },
{
    let cmd = &cmds[i];
    let ghost c = cmd@;
    if cmd.args.len() == 0 {
        return StagePlan::EmptyCommand;
    }
    let program = cmd.args[0].clone();
    let mut args: Vec<String> = Vec::new();
    let mut k: usize = 1;
    assert(c.args.drop_first().take(0) == Seq::<Seq<char>>::empty());
    while k < cmd.args.len()
        invariant
            1 <= k <= cmd.args.len(),
            c == cmd@,
            strings_view(args@) == c.args.drop_first().take(k - 1),
        decreases cmd.args.len() - k,
    {
        let a = cmd.args[k].clone();
        args.push(a);
        assert(c.args.drop_first().take(k as int) == c.args.drop_first().take(k - 1).push(
            cmd.args@[k as int]@,
        ));
        k = k + 1;
    }
    assert(c.args.drop_first().take(cmd.args.len() - 1) == c.args.drop_first());
    let stdin = match &cmd.input_file {
        Some(f) => StdinSource::File(f.clone()),
        None => if i > 0 {
            StdinSource::PreviousStage
        } else {
            StdinSource::Inherit
        },
    };
    let stdout = match &cmd.output_file {
        Some(f) => StdoutSink::File { path: f.clone(), append: cmd.append },
        None => if i + 1 < cmds.len() {
            StdoutSink::Pipe
        } else {
            StdoutSink::Inherit
        },
    };
    StagePlan::Run { program, args, stdin, stdout }
}

/// How a pipeline is named in the benchmark history: each command's
/// arguments joined by spaces, the commands joined by ` | `.
pub open spec fn pipeline_label(cmds: Seq<SpecCommand>) -> Seq<char> {
    joined(cmds.map_values(|c: SpecCommand| joined(c.args, " "@)), " | "@)
}

/// The name under which the pipeline `cmds` is recorded when benchmarked.
pub fn pipeline_text(cmds: &Vec<CommandExecution>) -> (text: String)
    ensures
        text@ == pipeline_label(commands_view(cmds@)),
{
    let ghost stage_views = commands_view(cmds@).map_values(|c: SpecCommand| joined(c.args, " "@));
    let mut stages: Vec<String> = Vec::new();
    let mut i: usize = 0;
    while i < cmds.len()
        invariant
            i <= cmds.len(),
            stage_views == commands_view(cmds@).map_values(|c: SpecCommand| joined(c.args, " "@)),
            strings_view(stages@) == stage_views.take(i as int),
        decreases cmds.len() - i,
    {
        let ghost before = strings_view(stages@);
        let s = join_from(&cmds[i].args, 0, " ");
        assert(cmds[i as int].args@.skip(0).map_values(|p: String| p@) == cmds@[i as int]@.args);
        stages.push(s);
        assert(strings_view(stages@) == before.push(s@));
        assert(stage_views.take(i + 1) == stage_views.take(i as int).push(stage_views[i as int]));
        i = i + 1;
    }
    assert(stage_views.take(cmds.len() as int) == stage_views);
    let text = join_from(&stages, 0, " | ");
    assert(stages@.skip(0).map_values(|p: String| p@) == strings_view(stages@));
    text
}

/// A stage with an output file writes to that file, truncating it unless
/// the command asked to append (`>>`): a `>` redirection never appends, and
/// a `>>` one always does. A stage without an output file writes to a pipe
/// when another stage follows it and to the terminal when it is the last.
pub proof fn law_output_file_truncates_unless_appending(
    sink: StdoutSink,
    cmd: SpecCommand,
    i: int,
    count: int,
)
    requires
        stdout_matches(sink, cmd, i, count),
    ensures
        cmd.output_file is Some && !cmd.append ==> (sink matches StdoutSink::File { path, append }
            && path@ == cmd.output_file.unwrap() && append == false),
        cmd.output_file is Some && cmd.append ==> (sink matches StdoutSink::File { path, append }
            && path@ == cmd.output_file.unwrap() && append == true),
        cmd.output_file is None && i + 1 < count ==> sink is Pipe,
        cmd.output_file is None && i + 1 >= count ==> sink is Inherit,
{
}

/// For the line `words ... > f` (plain words, then a single `>`), the one
/// stage writes to the file `f` and truncates it; with `>>` it appends.
pub proof fn law_redirect_line_sink(
    a: Seq<Seq<char>>,
    op: Seq<char>,
    f: Seq<char>,
    sink: StdoutSink,
    home: Option<Seq<char>>,
    vars: Seq<(Seq<char>, Seq<char>)>,
)
    requires
        a.len() > 0,
        forall|i: int| 0 <= i < a.len() ==> crate::parser::is_plain_word(#[trigger] a[i]),
        a[0] != crate::parser::bench_word(),
        !f.contains('$'),
        !(f.len() > 0 && f[0] == '~'),
        op == seq!['>'] || op == seq!['>', '>'],
        stdout_matches(sink, parse_spec(a + seq![op, f], home, vars)[0], 0, 1),
    ensures
        sink matches StdoutSink::File { path, append } && path@ == f && (append <==> op == seq![
            '>',
            '>',
        ]),
{
    crate::parser::law_redirection_sets_file(a, op, f, home, vars);
    assert(op != seq!['<']) by {
        if op == seq!['>'] {
            assert(op[0] != seq!['<'][0]);
        } else {
            assert(op.len() != seq!['<'].len());
        }
    }
}

} // verus!
