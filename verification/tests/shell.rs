use vantage::builtins::{
    builtin_for, cd_target, echo_text, help_lines, previous_after_cd, Builtin, CdError, CdTarget,
};
use vantage::complete::completions;
use vantage::parser::{parse_commands, CommandExecution};
use vantage::pipeline::{
    interpret_line, pipeline_text, plan_stage, runs_as_builtin, LineAction, SplitError, StagePlan, StdinSource,
    StdoutSink,
};
use vantage::prompt::prompt;
use vantage::state::Environment;
use vantage::text::trim;

fn cmd(args: &[&str]) -> CommandExecution {
    CommandExecution {
        args: args.iter().map(|a| a.to_string()).collect(),
        input_file: None,
        output_file: None,
        append: false,
        bench: false,
    }
}

fn env(home: Option<&str>, vars: &[(&str, &str)]) -> Environment {
    Environment::new(
        home.map(|h| h.to_string()),
        vars.iter().map(|(k, v)| (k.to_string(), v.to_string())).collect(),
    )
}

#[test]
fn builtins_are_recognised_by_name() {
    assert!(matches!(builtin_for(&cmd(&["cd", "/tmp"])), Some(Builtin::Cd)));
    assert!(matches!(builtin_for(&cmd(&["pwd"])), Some(Builtin::Pwd)));
    assert!(matches!(builtin_for(&cmd(&["sys"])), Some(Builtin::Sys)));
    assert!(matches!(builtin_for(&cmd(&["top"])), Some(Builtin::Top)));
    assert!(matches!(builtin_for(&cmd(&["help"])), Some(Builtin::Help)));
    assert!(matches!(builtin_for(&cmd(&["echo", "x"])), Some(Builtin::Echo)));
    assert!(matches!(builtin_for(&cmd(&["exit"])), Some(Builtin::Exit)));
    assert!(matches!(builtin_for(&cmd(&["history"])), Some(Builtin::History)));
    assert!(builtin_for(&cmd(&["ls"])).is_none());
    assert!(builtin_for(&cmd(&["CD"])).is_none());
    assert!(builtin_for(&cmd(&[])).is_none());
}

fn dir_of(r: Result<CdTarget, CdError>) -> Option<String> {
    match r {
        Ok(CdTarget::Dir(d)) => Some(d),
        _ => None,
    }
}

#[test]
fn cd_without_operand_goes_home_or_root() {
    assert_eq!(dir_of(cd_target(&cmd(&["cd"]), false, &env(Some("/home/u"), &[]))), Some("/home/u".to_string()));
    assert_eq!(dir_of(cd_target(&cmd(&["cd"]), true, &env(None, &[]))), Some("/".to_string()));
}

#[test]
fn cd_dash_needs_a_previous_directory() {
    let e = env(Some("/h"), &[]);
    let r = cd_target(&cmd(&["cd", "-"]), false, &e);
    assert!(matches!(r, Err(CdError::OldPwdNotSet)));
    assert_eq!(CdError::OldPwdNotSet.message(), "cd: oldpwd not set");
    assert!(matches!(cd_target(&cmd(&["cd", "-"]), true, &e), Ok(CdTarget::Previous)));
}

#[test]
fn cd_to_an_operand() {
    assert_eq!(dir_of(cd_target(&cmd(&["cd", "src", "extra"]), true, &env(None, &[]))), Some("src".to_string()));
}

#[test]
fn previous_directory_changes_only_on_success() {
    assert_eq!(previous_after_cd(Some("/a"), "/b", true), Some("/b"));
    assert_eq!(previous_after_cd(Some("/a"), "/b", false), Some("/a"));
    assert_eq!(previous_after_cd(None, "/b", false), None);
}

#[test]
fn help_lists_the_builtins() {
    let lines = help_lines();
    assert_eq!(lines.len(), 11);
    assert_eq!(lines[0], "\x1b[1;32mShyell - Advanced Performance Shell\x1b[0m");
    assert!(lines.iter().any(|l| l.starts_with("  history")));
    assert_eq!(lines[10], "  exit        Exit the shell.");
}

#[test]
fn pipelines_are_named_by_their_words() {
    let cmds = vec![cmd(&["ls", "-l"]), cmd(&["wc"])];
    assert_eq!(pipeline_text(&cmds), "ls -l | wc");
    assert_eq!(pipeline_text(&vec![cmd(&["sleep", "1"])]), "sleep 1");
    assert_eq!(pipeline_text(&vec![]), "");
}

#[test]
fn completions_keep_matching_names_in_order() {
    let names: Vec<String> = ["grep", "git", "ls", "gzip"].iter().map(|s| s.to_string()).collect();
    assert_eq!(completions("g", &names), vec!["grep", "git", "gzip"]);
    assert_eq!(completions("gi", &names), vec!["git"]);
    assert_eq!(completions("", &names), names);
    assert!(completions("x", &names).is_empty());
}

#[test]
fn echo_joins_operands() {
    assert_eq!(echo_text(&cmd(&["echo", "a", "b c", "d"])), "a b c d");
    assert_eq!(echo_text(&cmd(&["echo"])), "");
    assert_eq!(echo_text(&cmd(&["echo", "", "x"])), " x");
}

#[test]
fn single_builtin_command_runs_in_the_shell() {
    assert!(runs_as_builtin(&vec![cmd(&["pwd"])]));
    assert!(!runs_as_builtin(&vec![cmd(&["pwd"]), cmd(&["wc"])]));
    assert!(!runs_as_builtin(&vec![cmd(&["ls"])]));
    assert!(!runs_as_builtin(&vec![]));
}

#[test]
fn stages_are_wired_through_pipes() {
    let e = env(None, &[]);
    let words: Vec<String> = ["cat", "<", "in", "|", "sort", "|", "uniq", ">>", "out"]
        .iter()
        .map(|w| w.to_string())
        .collect();
    let cmds = parse_commands(words, &e);
    assert_eq!(cmds.len(), 3);
    match plan_stage(&cmds, 0) {
        StagePlan::Run { program, args, stdin, stdout } => {
            assert_eq!(program, "cat");
            assert!(args.is_empty());
            assert!(matches!(stdin, StdinSource::File(ref p) if p == "in"));
            assert!(matches!(stdout, StdoutSink::Pipe));
        }
        StagePlan::EmptyCommand => panic!("stage 0 has a program"),
    }
    match plan_stage(&cmds, 1) {
        StagePlan::Run { program, stdin, stdout, .. } => {
            assert_eq!(program, "sort");
            assert!(matches!(stdin, StdinSource::PreviousStage));
            assert!(matches!(stdout, StdoutSink::Pipe));
        }
        StagePlan::EmptyCommand => panic!("stage 1 has a program"),
    }
    match plan_stage(&cmds, 2) {
        StagePlan::Run { program, stdin, stdout, .. } => {
            assert_eq!(program, "uniq");
            assert!(matches!(stdin, StdinSource::PreviousStage));
            assert!(matches!(stdout, StdoutSink::File { ref path, append: true } if path == "out"));
        }
        StagePlan::EmptyCommand => panic!("stage 2 has a program"),
    }
}

#[test]
fn single_stage_inherits_the_terminal() {
    let cmds = vec![cmd(&["ls", "-l", "/"])];
    match plan_stage(&cmds, 0) {
        StagePlan::Run { program, args, stdin, stdout } => {
            assert_eq!(program, "ls");
            assert_eq!(args, vec!["-l", "/"]);
            assert!(matches!(stdin, StdinSource::Inherit));
            assert!(matches!(stdout, StdoutSink::Inherit));
        }
        StagePlan::EmptyCommand => panic!("the stage has a program"),
    }
}

#[test]
fn empty_stage_is_reported() {
    let cmds = vec![cmd(&["ls"]), cmd(&[]), cmd(&["wc"])];
    assert!(matches!(plan_stage(&cmds, 1), StagePlan::EmptyCommand));
}

#[test]
fn blank_lines_are_skipped() {
    let e = env(None, &[]);
    assert!(matches!(interpret_line("", &e), LineAction::Skip));
    assert!(matches!(interpret_line(" \t\n ", &e), LineAction::Skip));
}

#[test]
fn lines_are_split_with_shell_quoting() {
    let e = env(None, &[("X", "1")]);
    match interpret_line("  echo 'a b' \"$X\" | wc  ", &e) {
        LineAction::Run { entry, commands } => {
            assert_eq!(entry, "echo 'a b' \"$X\" | wc");
            assert_eq!(commands.len(), 2);
            assert_eq!(commands[0].args, vec!["echo", "a b", "1"]);
            assert_eq!(commands[1].args, vec!["wc"]);
        }
        _ => panic!("the line is runnable"),
    }
}

#[test]
fn unclosed_quote_is_rejected() {
    let e = env(None, &[]);
    match interpret_line("echo 'oops", &e) {
        LineAction::Reject { entry, error } => {
            assert_eq!(entry, "echo 'oops");
            assert!(matches!(error, SplitError::MissingClosingQuote));
            assert_eq!(error.message(), "missing closing quote");
        }
        _ => panic!("the quote is not closed"),
    }
}

#[test]
fn comment_only_line_runs_nothing() {
    match interpret_line("# nothing", &env(None, &[])) {
        LineAction::Run { entry, commands } => {
            assert_eq!(entry, "# nothing");
            assert!(commands.is_empty());
        }
        _ => panic!("a comment is a valid line"),
    }
}

#[test]
fn trim_removes_unicode_whitespace() {
    assert_eq!(trim("\u{3000} x y\u{a0}\n"), "x y");
    assert_eq!(trim("   "), "");
    assert_eq!(trim("a"), "a");
}

#[test]
fn prompt_abbreviates_home() {
    let e = env(Some("/home/ann"), &[("USER", "ann")]);
    assert_eq!(
        prompt("/home/ann/src", &e, 45, 12),
        "\x1b[1;90m[MEM 45% CPU 12%]\x1b[0m \x1b[1;32mann\x1b[0m:\x1b[1;34m~/src\x1b[0m\x1b[1;37m$ \x1b[0m"
    );
    assert_eq!(
        prompt("/home/ann", &e, 91, 0),
        "\x1b[1;33m[MEM 91% CPU 0%]\x1b[0m \x1b[1;32mann\x1b[0m:\x1b[1;34m~\x1b[0m\x1b[1;37m$ \x1b[0m"
    );
}

#[test]
fn prompt_without_home_or_user() {
    let e = env(None, &[]);
    assert_eq!(
        prompt("/tmp", &e, 90, 90),
        "\x1b[1;90m[MEM 90% CPU 90%]\x1b[0m \x1b[1;32muser\x1b[0m:\x1b[1;34m/tmp\x1b[0m\x1b[1;37m$ \x1b[0m"
    );
    let e2 = env(Some("/home/ann"), &[("USER", "bob")]);
    assert_eq!(
        prompt("/srv", &e2, 5, 100),
        "\x1b[1;33m[MEM 5% CPU 100%]\x1b[0m \x1b[1;32mbob\x1b[0m:\x1b[1;34m/srv\x1b[0m\x1b[1;37m$ \x1b[0m"
    );
}
